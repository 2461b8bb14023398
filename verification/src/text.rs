//! Character-level string helpers used by symbol normalisation and key
//! building.

use vstd::prelude::*;
use vstd::string::*;

verus! {

/// Whether two string slices hold the same characters.
///
/// Trusted: calls `<str as PartialEq>::eq`, which std documents as comparing
/// the two strings' contents; the contract claims exactly that.
#[verifier::external_body]
pub(crate) fn str_eq(a: &str, b: &str) -> (r: bool)
    ensures
        r == (a@ == b@),
{
    a == b
}

/// Appends one character to a string.
///
/// Trusted: calls `String::push`, which std documents as appending the
/// character to the end; the contract claims exactly that.
#[verifier::external_body]
pub(crate) fn push_char(s: &mut String, c: char)
    ensures
        final(s)@ == old(s)@.push(c),
{
    s.push(c)
}

/// ASCII upper-casing of one character.
pub open spec fn ascii_upper(c: char) -> char {
    if 'a' <= c && c <= 'z' {
        ((c as u32) - 32) as char
    } else {
        c
    }
}

/// Whether every character is ASCII.
pub open spec fn all_ascii(s: Seq<char>) -> bool {
    forall|i: int| 0 <= i < s.len() ==> (s[i] as u32) < 128
}

/// Unicode upper-casing of a string with a non-ASCII character, as
/// `str::to_uppercase` computes it.
pub uninterp spec fn unicode_to_uppercase(s: Seq<char>) -> Seq<char>;

/// Upper-casing of a whole string, as `str::to_uppercase` computes it: each
/// character of an ASCII string is upper-cased on its own; other strings go
/// by the Unicode mapping.
pub open spec fn spec_to_uppercase(s: Seq<char>) -> Seq<char> {
    if all_ascii(s) {
        s.map_values(|c: char| ascii_upper(c))
    } else {
        unicode_to_uppercase(s)
    }
}

/// Upper-cases a string.
///
/// Trusted: calls `str::to_uppercase`. The contract claims what std
/// documents for ASCII input: each ASCII letter is mapped to its upper-case
/// form and every other ASCII character is kept. The Unicode case mapping
/// of other input (which may change the length) is named
/// `unicode_to_uppercase`.
#[verifier::external_body]
pub(crate) fn to_uppercase(s: &str) -> (r: String)
    ensures
        all_ascii(s@) ==> r@ == s@.map_values(|c: char| ascii_upper(c)),
        !all_ascii(s@) ==> r@ == unicode_to_uppercase(s@),
{
    s.to_uppercase()
}

/// Unicode lower-casing of a whole string, as `str::to_lowercase` computes it.
pub uninterp spec fn spec_to_lowercase(s: Seq<char>) -> Seq<char>;

/// ASCII lower-casing of one character.
pub open spec fn ascii_lower(c: char) -> char {
    if 'A' <= c && c <= 'Z' {
        ((c as u32) + 32) as char
    } else {
        c
    }
}

/// Lower-cases a string.
///
/// Trusted: calls `str::to_lowercase`. The contract names its result
/// `spec_to_lowercase` and claims what std documents for ASCII input: each
/// ASCII letter is mapped to its lower-case form and every other ASCII
/// character is kept.
#[verifier::external_body]
pub(crate) fn to_lowercase(s: &str) -> (r: String)
    ensures
        r@ == spec_to_lowercase(s@),
        all_ascii(s@) ==> r@ == s@.map_values(|c: char| ascii_lower(c)),
{
    s.to_lowercase()
}

/// Unicode `Alphabetic` property of a character.
pub uninterp spec fn spec_is_alphabetic(c: char) -> bool;

/// Whether a character is alphabetic.
///
/// Trusted: calls `char::is_alphabetic`. The contract names its result and
/// claims what std documents for ASCII characters: exactly the letters
/// `a`-`z` and `A`-`Z` are alphabetic.
#[verifier::external_body]
pub(crate) fn is_alphabetic(c: char) -> (r: bool)
    ensures
        r == spec_is_alphabetic(c),
        (c as u32) < 128 ==> (r <==> (('a' <= c && c <= 'z') || ('A' <= c && c <= 'Z'))),
{
    c.is_alphabetic()
}

/// The characters of a string slice, as a vector.
pub fn chars_of(s: &str) -> (v: Vec<char>)
    ensures
        v@ == s@,
{
    let n = s.unicode_len();
    let mut v: Vec<char> = Vec::new();
    let mut i: usize = 0;
    while i < n
        invariant
            n == s@.len(),
            i <= n,
            v@ == s@.subrange(0, i as int),
        decreases n - i,
    {
        let c = s.get_char(i);
        v.push(c);
        i = i + 1;
    }
    v
}

/// A string holding exactly the given characters.
pub fn string_of(cs: &Vec<char>) -> (s: String)
    ensures
        s@ == cs@,
{
    let mut s = String::new();
    let mut i: usize = 0;
    while i < cs.len()
        invariant
            i <= cs.len(),
            s@ == cs@.subrange(0, i as int),
        decreases cs.len() - i,
    {
        push_char(&mut s, cs[i]);
        i = i + 1;
    }
    s
}

/// Appends the characters of `t` to `s`.
pub fn append_str(s: &mut String, t: &str)
    ensures
        final(s)@ == old(s)@ + t@,
{
    let cs = chars_of(t);
    let mut i: usize = 0;
    while i < cs.len()
        invariant
            i <= cs.len(),
            cs@ == t@,
            s@ == old(s)@ + t@.subrange(0, i as int),
        decreases cs.len() - i,
    {
        push_char(s, cs[i]);
        i = i + 1;
    }
}

/// `s` with every occurrence of the non-empty pattern `pat` removed,
/// matches taken left to right without overlap, as `str::replace` with an
/// empty replacement does.
pub open spec fn remove_all(s: Seq<char>, pat: Seq<char>) -> Seq<char>
    decreases s.len(),
{
    if pat.len() == 0 || s.len() < pat.len() {
        s
    } else if s.subrange(0, pat.len() as int) == pat {
        remove_all(s.subrange(pat.len() as int, s.len() as int), pat)
    } else {
        seq![s[0]] + remove_all(s.subrange(1, s.len() as int), pat)
    }
}

/// Whether `s` ends with `suf`.
pub open spec fn ends_with(s: Seq<char>, suf: Seq<char>) -> bool {
    suf.len() <= s.len() && s.subrange(s.len() - suf.len(), s.len() as int) == suf
}

/// Whether `pat` occurs in `s` starting at index `i`.
fn matches_at(s: &Vec<char>, i: usize, pat: &Vec<char>) -> (b: bool)
    requires
        i <= s@.len(),
    ensures
        b == (i + pat@.len() <= s@.len() && s@.subrange(i as int, i + pat@.len()) == pat@),
{
    if s.len() - i < pat.len() {
        return false;
    }
    let mut j: usize = 0;
    while j < pat.len()
        invariant
            i + pat@.len() <= s@.len(),
            s@.len() == s.len(),
            j <= pat@.len(),
            forall|k: int| 0 <= k < j ==> s@[i + k] == pat@[k],
        decreases pat.len() - j,
    {
        if s[i + j] != pat[j] {
            assert(s@.subrange(i as int, i + pat@.len())[j as int] != pat@[j as int]);
            return false;
        }
        j = j + 1;
    }
    assert(s@.subrange(i as int, i + pat@.len()) =~= pat@);
    true
}

/// The characters of `s` with every occurrence of `pat` removed.
pub fn remove_all_chars(s: &Vec<char>, pat: &Vec<char>) -> (r: Vec<char>)
    requires
        pat@.len() > 0,
    ensures
        r@ == remove_all(s@, pat@),
{
    let mut out: Vec<char> = Vec::new();
    let mut i: usize = 0;
    proof {
        assert(s@.subrange(0, s@.len() as int) =~= s@);
    }
    while i < s.len()
        invariant
            pat@.len() > 0,
            i <= s@.len(),
            out@ + remove_all(s@.subrange(i as int, s@.len() as int), pat@) == remove_all(s@, pat@),
        decreases s.len() - i,
    {
        let ghost t = s@.subrange(i as int, s@.len() as int);
        if matches_at(s, i, pat) {
            proof {
                assert(t.subrange(0, pat@.len() as int) =~= s@.subrange(i as int, i + pat@.len()));
                assert(t.subrange(pat@.len() as int, t.len() as int) =~= s@.subrange(
                    i + pat@.len(),
                    s@.len() as int,
                ));
            }
            i = i + pat.len();
        } else {
            proof {
                assert(t.subrange(1, t.len() as int) =~= s@.subrange(i + 1, s@.len() as int));
                if t.len() < pat@.len() {
                    assert(t =~= seq![t[0]] + t.subrange(1, t.len() as int));
                } else {
                    assert(t.subrange(0, pat@.len() as int) =~= s@.subrange(
                        i as int,
                        i + pat@.len(),
                    ));
                }
                assert((out@.push(s@[i as int])) =~= out@ + seq![t[0]]);
            }
            out.push(s[i]);
            i = i + 1;
        }
    }
    proof {
        assert(s@.subrange(i as int, s@.len() as int) =~= Seq::<char>::empty());
        assert(out@ + Seq::<char>::empty() =~= out@);
    }
    out
}

/// Whether the characters of `s` end with those of `suf`.
pub fn ends_with_chars(s: &Vec<char>, suf: &Vec<char>) -> (b: bool)
    ensures
        b == ends_with(s@, suf@),
{
    if suf.len() > s.len() {
        return false;
    }
    let off = s.len() - suf.len();
    let r = matches_at(s, off, suf);
    proof {
        assert(off + suf@.len() == s@.len());
    }
    r
}

/// Whether every character is alphabetic.
pub fn all_alphabetic(s: &Vec<char>) -> (b: bool)
    ensures
        b == (forall|i: int| 0 <= i < s@.len() ==> spec_is_alphabetic(#[trigger] s@[i])),
{
    let mut i: usize = 0;
    while i < s.len()
        invariant
            i <= s@.len(),
            forall|j: int| 0 <= j < i ==> spec_is_alphabetic(#[trigger] s@[j]),
        decreases s.len() - i,
    {
        if !is_alphabetic(s[i]) {
            return false;
        }
        i = i + 1;
    }
    true
}

/// Number of bytes UTF-8 takes for a character.
pub open spec fn char_utf8_len(c: char) -> nat {
    if (c as u32) < 0x80 {
        1
    } else if (c as u32) < 0x800 {
        2
    } else if (c as u32) < 0x10000 {
        3
    } else {
        4
    }
}

/// Number of bytes UTF-8 takes for a string, as `str::len` reports it.
pub open spec fn utf8_len(s: Seq<char>) -> nat
    decreases s.len(),
{
    if s.len() == 0 {
        0
    } else {
        utf8_len(s.drop_last()) + char_utf8_len(s.last())
    }
}

/// Whether the UTF-8 encoding of the characters takes at most `limit` bytes.
pub fn utf8_len_at_most(s: &Vec<char>, limit: u64) -> (b: bool)
    ensures
        b == (utf8_len(s@) <= limit),
{
    let mut acc: u64 = 0;
    let mut i: usize = 0;
    while i < s.len()
        invariant
            i <= s@.len(),
            acc == utf8_len(s@.take(i as int)),
            acc <= limit,
        decreases s.len() - i,
    {
        let c = s[i] as u32;
        let w: u64 = if c < 0x80 {
            1
        } else if c < 0x800 {
            2
        } else if c < 0x10000 {
            3
        } else {
            4
        };
        proof {
            assert(s@.take(i as int + 1).drop_last() =~= s@.take(i as int));
        }
        if w > limit - acc {
            proof {
                lemma_utf8_len_prefix(s@, i as int + 1);
            }
            return false;
        }
        acc = acc + w;
        i = i + 1;
    }
    proof {
        assert(s@.take(s@.len() as int) =~= s@);
    }
    true
}

/// A prefix takes no more bytes than the whole.
proof fn lemma_utf8_len_prefix(s: Seq<char>, n: int)
    requires
        0 <= n <= s.len(),
    ensures
        utf8_len(s.take(n)) <= utf8_len(s),
    decreases s.len(),
{
    if n < s.len() {
        assert(s.drop_last().take(n) =~= s.take(n));
        lemma_utf8_len_prefix(s.drop_last(), n);
    } else {
        assert(s.take(n) =~= s);
    }
}

/// Whether every character is an ASCII digit.
pub open spec fn all_digits(s: Seq<char>) -> bool {
    forall|i: int| 0 <= i < s.len() ==> '0' <= #[trigger] s[i] && s[i] <= '9'
}

/// The number the decimal digits `s` write.
pub open spec fn digits_value(s: Seq<char>) -> int
    decreases s.len(),
{
    if s.len() == 0 {
        0
    } else {
        digits_value(s.drop_last()) * 10 + (s.last() as int - '0' as int)
    }
}

/// The digits of a number text: without one leading '+'.
pub open spec fn unsigned_body(s: Seq<char>) -> Seq<char> {
    if s.len() > 0 && s[0] == '+' {
        s.drop_first()
    } else {
        s
    }
}

/// The unsigned integer at most `max` that `s` writes in decimal, as
/// `str::parse` reads one for an unsigned type: an optional '+', then at
/// least one ASCII digit, and nothing else.
pub open spec fn spec_parse_unsigned(s: Seq<char>, max: int) -> Option<int> {
    let b = unsigned_body(s);
    if b.len() > 0 && all_digits(b) && digits_value(b) <= max {
        Some(digits_value(b))
    } else {
        None
    }
}

proof fn lemma_digits_value_grows(s: Seq<char>, k: int)
    requires
        0 <= k <= s.len(),
        all_digits(s),
    ensures
        0 <= digits_value(s.take(k)) <= digits_value(s),
    decreases s.len(),
{
    if s.len() > 0 {
        if k < s.len() {
            assert(s.drop_last().take(k) =~= s.take(k));
            lemma_digits_value_grows(s.drop_last(), k);
        } else {
            assert(s.take(k) =~= s);
            lemma_digits_value_grows(s.drop_last(), k - 1);
            assert(s.drop_last().take(k - 1) =~= s.drop_last());
        }
    } else {
        assert(s.take(k) =~= s);
    }
}

/// Reads an unsigned decimal integer that must not exceed `max`.
pub fn parse_unsigned(s: &str, max: u64) -> (r: Option<u64>)
    ensures
        match r {
            Some(v) => spec_parse_unsigned(s@, max as int) == Some(v as int),
            None => spec_parse_unsigned(s@, max as int) is None,
        },
{
    let cs = chars_of(s);
    let start: usize = if cs.len() > 0 && cs[0] == '+' {
        1
    } else {
        0
    };
    let ghost b = unsigned_body(s@);
    proof {
        assert(b =~= cs@.subrange(start as int, cs@.len() as int));
    }
    if start >= cs.len() {
        return None;
    }
    let mut acc: u64 = 0;
    let mut i: usize = start;
    while i < cs.len()
        invariant
            cs@ == s@,
            b == unsigned_body(s@),
            start <= i <= cs@.len(),
            b == cs@.subrange(start as int, cs@.len() as int),
            all_digits(b.take(i - start)),
            acc as int == digits_value(b.take(i - start)),
            acc <= max,
        decreases cs.len() - i,
    {
        let c = cs[i];
        let ghost j: int = i - start;
        proof {
            assert(b.take(j + 1).drop_last() =~= b.take(j));
            assert(b[j] == c);
        }
        if c < '0' || c > '9' {
            proof {
                assert(!('0' <= b[j] && b[j] <= '9'));
                assert(!all_digits(b));
                assert(spec_parse_unsigned(s@, max as int) is None);
            }
            return None;
        }
        let d: u64 = (c as u32 - '0' as u32) as u64;
        if d > max || acc > (max - d) / 10 {
            proof {
                assert(acc * 10 + d > max) by (nonlinear_arith)
                    requires
                        d > max || acc > (max - d) / 10,
                        d <= max ==> (max - d) / 10 * 10 + 10 > max - d,
                ;
                if all_digits(b) {
                    lemma_digits_value_grows(b, j + 1);
                }
                assert(spec_parse_unsigned(s@, max as int) is None);
            }
            return None;
        }
        proof {
            assert(acc * 10 + d <= max) by (nonlinear_arith)
                requires
                    acc <= (max - d) / 10,
                    d <= max,
            ;
        }
        acc = acc * 10 + d;
        i = i + 1;
    }
    proof {
        assert(b.take(b.len() as int) =~= b);
    }
    Some(acc)
}

/// A character an ASCII upper-casing leaves as it is: ASCII, not a
/// lower-case letter.
pub open spec fn upper_ascii(c: char) -> bool {
    (c as u32) < 128 && !('a' <= c && c <= 'z')
}

/// Removing a pattern keeps a property every character has.
pub proof fn lemma_remove_all_keeps(s: Seq<char>, pat: Seq<char>, p: spec_fn(char) -> bool)
    requires
        forall|i: int| 0 <= i < s.len() ==> p(#[trigger] s[i]),
    ensures
        forall|i: int| 0 <= i < remove_all(s, pat).len() ==> p(#[trigger] remove_all(s, pat)[i]),
    decreases s.len(),
{
    if pat.len() == 0 || s.len() < pat.len() {
        assert(remove_all(s, pat) == s);
    } else if s.subrange(0, pat.len() as int) == pat {
        let t = s.subrange(pat.len() as int, s.len() as int);
        assert forall|i: int| 0 <= i < t.len() implies p(#[trigger] t[i]) by {
            assert(t[i] == s[i + pat.len()]);
        }
        lemma_remove_all_keeps(t, pat, p);
        assert(remove_all(s, pat) == remove_all(t, pat));
    } else {
        let t = s.subrange(1, s.len() as int);
        assert forall|i: int| 0 <= i < t.len() implies p(#[trigger] t[i]) by {
            assert(t[i] == s[i + 1]);
        }
        lemma_remove_all_keeps(t, pat, p);
        let r = remove_all(s, pat);
        assert(r == seq![s[0]] + remove_all(t, pat));
        assert forall|i: int| 0 <= i < r.len() implies p(#[trigger] r[i]) by {
            if i > 0 {
                assert(r[i] == remove_all(t, pat)[i - 1]);
            }
        }
    }
}

/// Removing a one-character pattern leaves none of that character.
pub proof fn lemma_remove_char_gone(s: Seq<char>, c: char)
    ensures
        forall|i: int| 0 <= i < remove_all(s, seq![c]).len() ==> #[trigger] remove_all(s, seq![c])[i] != c,
    decreases s.len(),
{
    let pat = seq![c];
    if s.len() >= 1 {
        let t = s.subrange(1, s.len() as int);
        lemma_remove_char_gone(t, c);
        if s.subrange(0, 1) == pat {
        } else {
            assert(s[0] != c) by {
                if s[0] == c {
                    assert(s.subrange(0, 1) =~= pat);
                }
            }
            let r = remove_all(s, pat);
            assert forall|i: int| 0 <= i < r.len() implies #[trigger] r[i] != c by {
                if i > 0 {
                    assert(r[i] == remove_all(t, pat)[i - 1]);
                }
            }
        }
    }
}

/// A pattern with a character the text lacks removes nothing.
pub proof fn lemma_remove_all_absent(s: Seq<char>, pat: Seq<char>, k: int)
    requires
        0 <= k < pat.len(),
        forall|i: int| 0 <= i < s.len() ==> #[trigger] s[i] != pat[k],
    ensures
        remove_all(s, pat) == s,
    decreases s.len(),
{
    if s.len() >= pat.len() {
        assert(s.subrange(0, pat.len() as int) != pat) by {
            assert(s.subrange(0, pat.len() as int)[k] == s[k]);
        }
        let t = s.subrange(1, s.len() as int);
        assert forall|i: int| 0 <= i < t.len() implies #[trigger] t[i] != pat[k] by {
            assert(t[i] == s[i + 1]);
        }
        lemma_remove_all_absent(t, pat, k);
        assert(seq![s[0]] + t =~= s);
    }
}

/// Removing one character from a joined text removes it from each part.
pub proof fn lemma_remove_char_concat(a: Seq<char>, b: Seq<char>, c: char)
    ensures
        remove_all(a + b, seq![c]) == remove_all(a, seq![c]) + remove_all(b, seq![c]),
    decreases a.len(),
{
    let pat = seq![c];
    if a.len() == 0 {
        assert(a + b =~= b);
        assert(remove_all(a, pat) =~= Seq::<char>::empty());
        assert(Seq::<char>::empty() + remove_all(b, pat) =~= remove_all(b, pat));
    } else {
        let ab = a + b;
        let t = a.subrange(1, a.len() as int);
        assert(ab.subrange(1, ab.len() as int) =~= t + b);
        assert(ab.subrange(0, 1) =~= a.subrange(0, 1));
        lemma_remove_char_concat(t, b, c);
        if a.subrange(0, 1) == pat {
        } else {
            assert(seq![a[0]] + remove_all(t, pat) + remove_all(b, pat) =~= seq![a[0]] + (remove_all(t, pat)
                + remove_all(b, pat)));
        }
    }
}

/// Removing a character the suffix lacks keeps the suffix.
pub proof fn lemma_remove_char_keeps_suffix(s: Seq<char>, suf: Seq<char>, c: char)
    requires
        ends_with(s, suf),
        forall|i: int| 0 <= i < suf.len() ==> #[trigger] suf[i] != c,
    ensures
        ends_with(remove_all(s, seq![c]), suf),
{
    let pre = s.subrange(0, s.len() - suf.len());
    assert(pre + suf =~= s);
    lemma_remove_char_concat(pre, suf, c);
    lemma_remove_all_absent(suf, seq![c], 0);
    let r = remove_all(s, seq![c]);
    let rp = remove_all(pre, seq![c]);
    assert(r == rp + suf);
    assert(r.subrange(r.len() - suf.len(), r.len() as int) =~= suf);
}

/// Upper-casing an ASCII text gives characters upper-casing keeps.
pub proof fn lemma_ascii_upper_all(s: Seq<char>)
    requires
        all_ascii(s),
    ensures
        forall|i: int| 0 <= i < spec_to_uppercase(s).len() ==> upper_ascii(#[trigger] spec_to_uppercase(s)[i]),
{
    let u = spec_to_uppercase(s);
    assert forall|i: int| 0 <= i < u.len() implies upper_ascii(#[trigger] u[i]) by {
        assert((s[i] as u32) < 128);
        assert(u[i] == ascii_upper(s[i]));
    }
}

/// Upper-casing a text of characters it keeps gives the text back.
pub proof fn lemma_upper_fixed(s: Seq<char>)
    requires
        forall|i: int| 0 <= i < s.len() ==> upper_ascii(#[trigger] s[i]),
    ensures
        spec_to_uppercase(s) == s,
{
    assert(all_ascii(s)) by {
        assert forall|i: int| 0 <= i < s.len() implies (s[i] as u32) < 128 by {
            assert(upper_ascii(s[i]));
        }
    }
    assert(s.map_values(|c: char| ascii_upper(c)) =~= s) by {
        assert forall|i: int| 0 <= i < s.len() implies s.map_values(|c: char| ascii_upper(c))[i] == s[i] by {
            assert(upper_ascii(s[i]));
        }
    }
}

} // verus!
