//! Daily archives of an exchange: the CSV file inside a ZIP archive, its
//! records, and the candle and trade rows those records hold.

use vstd::prelude::*;

use crate::text::{chars_of, ends_with, ends_with_chars, parse_unsigned, spec_parse_unsigned};

verus! {

/// Number of entries in the ZIP archive `zip_bytes`, if it opens.
pub uninterp spec fn spec_zip_entry_count(zip_bytes: Seq<u8>) -> Option<usize>;

/// Name of entry `i` of the ZIP archive `zip_bytes`, if it opens and the
/// entry can be read.
pub uninterp spec fn spec_zip_entry_name(zip_bytes: Seq<u8>, i: usize) -> Option<Seq<char>>;

/// Text of entry `i` of the ZIP archive `zip_bytes`, if it opens and the
/// entry reads as UTF-8 text.
pub uninterp spec fn spec_zip_entry_text(zip_bytes: Seq<u8>, i: usize) -> Option<Seq<char>>;

/// Reading CSV text record by record: the records read before the first
/// one that fails (all of them when none does), each a sequence of fields,
/// and whether one failed; the first line is the header and is not among
/// them.
pub uninterp spec fn spec_csv_read(text: Seq<char>) -> (Seq<Seq<Seq<char>>>, bool);

/// Number of entries of a ZIP archive.
///
/// Trusted: opens `zip::ZipArchive::new` over the bytes and takes `len()`;
/// an archive that does not open gives `Err` with the error's text. The
/// contract names the count; the error text is not stated.
#[verifier::external_body]
fn zip_entry_count(zip_bytes: &[u8]) -> (r: Result<usize, String>)
    ensures
        r is Ok <==> spec_zip_entry_count(zip_bytes@) is Some,
        r matches Ok(n) ==> spec_zip_entry_count(zip_bytes@) == Some(n),
{
    match zip::ZipArchive::new(std::io::Cursor::new(zip_bytes)) {
        Ok(archive) => Ok(archive.len()),
        Err(e) => Err(e.to_string()),
    }
}

/// Name of one entry of a ZIP archive.
///
/// Trusted: opens `zip::ZipArchive::new` over the bytes, takes entry `i`
/// with `by_index` and its `name()`; a failure of either gives `Err` with
/// the error's text. The contract names the name; the error text is not
/// stated.
#[verifier::external_body]
fn zip_entry_name(zip_bytes: &[u8], i: usize) -> (r: Result<String, String>)
    ensures
        r is Ok <==> spec_zip_entry_name(zip_bytes@, i) is Some,
        r matches Ok(s) ==> spec_zip_entry_name(zip_bytes@, i) == Some(s@),
{
    let mut archive = zip::ZipArchive::new(std::io::Cursor::new(zip_bytes)).map_err(|e| e.to_string())?;
    let file = archive.by_index(i).map_err(|e| e.to_string())?;
    Ok(file.name().to_string())
}

/// Text of one entry of a ZIP archive.
///
/// Trusted: opens `zip::ZipArchive::new` over the bytes, takes entry `i`
/// with `by_index` and reads it whole with `read_to_string`; a failure of
/// any of them gives `Err` with the error's text. The contract names the
/// text; the error text is not stated.
#[verifier::external_body]
fn zip_entry_text(zip_bytes: &[u8], i: usize) -> (r: Result<String, String>)
    ensures
        r is Ok <==> spec_zip_entry_text(zip_bytes@, i) is Some,
        r matches Ok(s) ==> spec_zip_entry_text(zip_bytes@, i) == Some(s@),
{
    let mut archive = zip::ZipArchive::new(std::io::Cursor::new(zip_bytes)).map_err(|e| e.to_string())?;
    let mut file = archive.by_index(i).map_err(|e| e.to_string())?;
    let mut content = String::new();
    std::io::Read::read_to_string(&mut file, &mut content).map_err(|e| e.to_string())?;
    Ok(content)
}

/// The records of CSV text, the header line left out, up to the first
/// that fails to read.
///
/// Trusted: reads the text with `csv::Reader::from_reader` (default
/// settings: the first line is the header, every record has as many fields
/// as it) and turns each record of `records()` into its fields as strings,
/// stopping at the first record that fails, whose error's text it returns
/// beside the records read before it. The contract names the records and
/// whether one failed; the error text is not stated.
#[verifier::external_body]
fn csv_records(text: &str) -> (r: (Vec<Vec<String>>, Option<String>))
    ensures
        records_view(r.0@) == spec_csv_read(text@).0,
        r.1 is Some <==> spec_csv_read(text@).1,
{
    let mut reader = csv::Reader::from_reader(text.as_bytes());
    let mut rows: Vec<Vec<String>> = Vec::new();
    for result in reader.records() {
        match result {
            Ok(record) => rows.push(record.iter().map(|f| f.to_string()).collect()),
            Err(e) => return (rows, Some(e.to_string())),
        }
    }
    (rows, None)
}

/// The fields of each record, as character sequences.
pub open spec fn records_view(v: Seq<Vec<String>>) -> Seq<Seq<Seq<char>>> {
    v.map_values(|r: Vec<String>| r@.map_values(|f: String| f@))
}

/// ".csv" as characters.
pub open spec fn csv_suffix() -> Seq<char> {
    seq!['.', 'c', 's', 'v']
}

/// The text of the first entry from `i` on whose name ends with ".csv";
/// `None` where an entry before it, or it, cannot be read, where it is
/// empty, or where no entry is one.
pub open spec fn csv_from(zip_bytes: Seq<u8>, i: int, n: int) -> Option<Seq<char>>
    decreases n - i,
{
    if i < 0 || i >= n || i > usize::MAX {
        None
    } else {
        match spec_zip_entry_name(zip_bytes, i as usize) {
            None => None,
            Some(name) => if ends_with(name, csv_suffix()) {
                match spec_zip_entry_text(zip_bytes, i as usize) {
                    Some(t) => if t.len() > 0 {
                        Some(t)
                    } else {
                        None
                    },
                    None => None,
                }
            } else {
                csv_from(zip_bytes, i + 1, n)
            },
        }
    }
}

/// The text of the first CSV file of the ZIP archive `zip_bytes`, if there
/// is one and it is not empty.
pub open spec fn spec_first_csv(zip_bytes: Seq<u8>) -> Option<Seq<char>> {
    match spec_zip_entry_count(zip_bytes) {
        Some(n) => csv_from(zip_bytes, 0, n as int),
        None => None,
    }
}

/// The text of the first CSV file of a ZIP archive: the entries are read in
/// order up to the first whose name ends with ".csv". Fails where the
/// archive or one of those entries cannot be read, where there is no CSV
/// entry, or where its text is empty.
pub fn first_csv_in_zip(zip_bytes: &[u8]) -> (r: Result<String, String>)
    ensures
        r is Ok <==> spec_first_csv(zip_bytes@) is Some,
        r matches Ok(s) ==> spec_first_csv(zip_bytes@) == Some(s@),
{
    let n = match zip_entry_count(zip_bytes) {
        Ok(n) => n,
        Err(e) => return Err(e),
    };
    let mut suffix: Vec<char> = Vec::new();
    suffix.push('.');
    suffix.push('c');
    suffix.push('s');
    suffix.push('v');
    proof {
        assert(suffix@ =~= csv_suffix());
    }
    let mut i: usize = 0;
    while i < n
        invariant
            i <= n,
            spec_zip_entry_count(zip_bytes@) == Some(n),
            suffix@ == csv_suffix(),
            csv_from(zip_bytes@, 0, n as int) == csv_from(zip_bytes@, i as int, n as int),
        decreases n - i,
    {
        let name = match zip_entry_name(zip_bytes, i) {
            Ok(s) => s,
            Err(e) => return Err(e),
        };
        let cs = chars_of(name.as_str());
        if ends_with_chars(&cs, &suffix) {
            let text = match zip_entry_text(zip_bytes, i) {
                Ok(t) => t,
                Err(e) => return Err(e),
            };
            if text.unicode_len() == 0 {
                return Err("No CSV file found in ZIP archive".to_owned());
            }
            return Ok(text);
        }
        i = i + 1;
    }
    Err("No CSV file found in ZIP archive".to_owned())
}

/// Largest `u64`, as an integer.
pub open spec fn max_u64() -> int {
    0xffff_ffff_ffff_ffff
}

/// Largest `u32`, as an integer.
pub open spec fn max_u32() -> int {
    0xffff_ffff
}

/// A time field in milliseconds read as microseconds: it does not parse,
/// its value times 1000 overflows, or the microseconds.
#[derive(Debug, Clone, Copy, PartialEq, Eq, Structural)]
pub enum MsTime {
    Invalid,
    Overflow,
    Micros(u64),
}

/// What a time field in milliseconds reads as.
pub open spec fn ms_time(s: Seq<char>) -> MsTime {
    match spec_parse_unsigned(s, max_u64()) {
        None => MsTime::Invalid,
        Some(t) => if t * 1000 <= max_u64() {
            MsTime::Micros((t * 1000) as u64)
        } else {
            MsTime::Overflow
        },
    }
}

/// Reads a time field in milliseconds as microseconds.
pub fn read_ms_time(s: &str) -> (r: MsTime)
    ensures
        r == ms_time(s@),
{
    match parse_unsigned(s, 0xffff_ffff_ffff_ffff) {
        None => MsTime::Invalid,
        Some(t) => if t <= 0xffff_ffff_ffff_ffff / 1000 {
            MsTime::Micros(t * 1000)
        } else {
            MsTime::Overflow
        },
    }
}

/// The number of trades of a candle record, if it parses as a `u32`.
pub open spec fn trade_count(s: Seq<char>) -> Option<u32> {
    match spec_parse_unsigned(s, max_u32()) {
        Some(n) => Some(n as u32),
        None => None,
    }
}

/// The candle row of a record with at least nine fields: its open time (the
/// first field, milliseconds, as read), its number of trades (the ninth
/// field, if it parses), and the open, high, low, close and volume fields
/// (second to sixth) as they stand.
pub open spec fn kline_row(r: Seq<Seq<char>>) -> (MsTime, Option<u32>, Seq<Seq<char>>) {
    (ms_time(r[0]), trade_count(r[8]), r.subrange(1, 6))
}

/// The candle rows of the records, in order: records with fewer than nine
/// fields are skipped.
pub open spec fn spec_kline_rows(recs: Seq<Seq<Seq<char>>>) -> Seq<(MsTime, Option<u32>, Seq<Seq<char>>)>
    decreases recs.len(),
{
    if recs.len() == 0 {
        Seq::empty()
    } else {
        let rows = spec_kline_rows(recs.drop_last());
        if recs.last().len() < 9 {
            rows
        } else {
            rows.push(kline_row(recs.last()))
        }
    }
}

/// The trade row of a record with at least seven fields: its time (the
/// sixth field, milliseconds, as read) and the price and quantity fields
/// (second and third) as they stand.
pub open spec fn trade_row(r: Seq<Seq<char>>) -> (MsTime, Seq<Seq<char>>) {
    (ms_time(r[5]), r.subrange(1, 3))
}

/// The trade rows of the records, in order: records with fewer than seven
/// fields are skipped.
pub open spec fn spec_trade_rows(recs: Seq<Seq<Seq<char>>>) -> Seq<(MsTime, Seq<Seq<char>>)>
    decreases recs.len(),
{
    if recs.len() == 0 {
        Seq::empty()
    } else {
        let rows = spec_trade_rows(recs.drop_last());
        if recs.last().len() < 7 {
            rows
        } else {
            rows.push(trade_row(recs.last()))
        }
    }
}

/// The views of candle rows.
pub open spec fn kline_rows_view(v: Seq<(MsTime, Option<u32>, Vec<String>)>) -> Seq<(MsTime, Option<u32>, Seq<Seq<char>>)> {
    v.map_values(|x: (MsTime, Option<u32>, Vec<String>)| (x.0, x.1, x.2@.map_values(|f: String| f@)))
}

/// The views of trade rows.
pub open spec fn trade_rows_view(v: Seq<(MsTime, Vec<String>)>) -> Seq<(MsTime, Seq<Seq<char>>)> {
    v.map_values(|x: (MsTime, Vec<String>)| (x.0, x.1@.map_values(|f: String| f@)))
}

/// Copies of fields `lo..hi` of a record.
fn copy_fields(r: &Vec<String>, lo: usize, hi: usize) -> (out: Vec<String>)
    requires
        lo <= hi <= r@.len(),
    ensures
        out@.map_values(|f: String| f@) == r@.map_values(|f: String| f@).subrange(lo as int, hi as int),
{
    let mut out: Vec<String> = Vec::new();
    let mut k: usize = lo;
    while k < hi
        invariant
            lo <= k <= hi <= r@.len(),
            out@.map_values(|f: String| f@) == r@.map_values(|f: String| f@).subrange(lo as int, k as int),
        decreases hi - k,
    {
        let f = r[k].clone();
        proof {
            assert(out@.push(f).map_values(|f: String| f@) =~= out@.map_values(|f: String| f@).push(f@));
            assert(r@.map_values(|f: String| f@).subrange(lo as int, k + 1) =~= r@.map_values(
                |f: String| f@,
            ).subrange(lo as int, k as int).push(r@[k as int]@));
        }
        out.push(f);
        k = k + 1;
    }
    out
}

/// The candle rows of CSV records, in order: records with fewer than nine
/// fields are skipped; of the others the open time is read as microseconds,
/// the number of trades is read, and the five price and volume fields are
/// kept as text.
pub fn kline_rows(records: &Vec<Vec<String>>) -> (r: Vec<(MsTime, Option<u32>, Vec<String>)>)
    ensures
        kline_rows_view(r@) == spec_kline_rows(records_view(records@)),
{
    let ghost recs = records_view(records@);
    let mut rows: Vec<(MsTime, Option<u32>, Vec<String>)> = Vec::new();
    let mut i: usize = 0;
    while i < records.len()
        invariant
            i <= records@.len(),
            recs == records_view(records@),
            kline_rows_view(rows@) == spec_kline_rows(recs.take(i as int)),
        decreases records.len() - i,
    {
        proof {
            assert(recs.take(i as int + 1).drop_last() =~= recs.take(i as int));
            assert(recs.take(i as int + 1).last() == recs[i as int]);
            assert(recs[i as int] == records@[i as int]@.map_values(|f: String| f@));
        }
        let rec = &records[i];
        if rec.len() >= 9 {
            let t = read_ms_time(rec[0].as_str());
            let n = match parse_unsigned(rec[8].as_str(), 0xffff_ffff) {
                Some(v) => Some(v as u32),
                None => None,
            };
            let fields = copy_fields(rec, 1, 6);
            proof {
                assert(recs[i as int][0] == rec@[0]@);
                assert(recs[i as int][8] == rec@[8]@);
            }
            let row = (t, n, fields);
            proof {
                assert(kline_rows_view(rows@.push(row)) =~= kline_rows_view(rows@).push(
                    (row.0, row.1, row.2@.map_values(|f: String| f@)),
                ));
            }
            rows.push(row);
        }
        i = i + 1;
    }
    proof {
        assert(recs.take(recs.len() as int) =~= recs);
    }
    rows
}

/// The trade rows of CSV records, in order: records with fewer than seven
/// fields are skipped; of the others the time is read as microseconds and
/// the price and quantity fields are kept as text.
pub fn trade_rows(records: &Vec<Vec<String>>) -> (r: Vec<(MsTime, Vec<String>)>)
    ensures
        trade_rows_view(r@) == spec_trade_rows(records_view(records@)),
{
    let ghost recs = records_view(records@);
    let mut rows: Vec<(MsTime, Vec<String>)> = Vec::new();
    let mut i: usize = 0;
    while i < records.len()
        invariant
            i <= records@.len(),
            recs == records_view(records@),
            trade_rows_view(rows@) == spec_trade_rows(recs.take(i as int)),
        decreases records.len() - i,
    {
        proof {
            assert(recs.take(i as int + 1).drop_last() =~= recs.take(i as int));
            assert(recs.take(i as int + 1).last() == recs[i as int]);
            assert(recs[i as int] == records@[i as int]@.map_values(|f: String| f@));
        }
        let rec = &records[i];
        if rec.len() >= 7 {
            let t = read_ms_time(rec[5].as_str());
            let fields = copy_fields(rec, 1, 3);
            proof {
                assert(recs[i as int][5] == rec@[5]@);
            }
            let row = (t, fields);
            proof {
                assert(trade_rows_view(rows@.push(row)) =~= trade_rows_view(rows@).push(
                    (row.0, row.1@.map_values(|f: String| f@)),
                ));
            }
            rows.push(row);
        }
        i = i + 1;
    }
    proof {
        assert(recs.take(recs.len() as int) =~= recs);
    }
    rows
}

/// The candle rows of a daily candle archive (ZIP bytes), in order: those of
/// the first CSV file's records read before the first record that fails,
/// and whether one failed (its error's text is handed on). Fails where the
/// archive has no readable, non-empty CSV file.
pub fn archive_kline_rows(zip_bytes: &[u8]) -> (r: Result<(Vec<(MsTime, Option<u32>, Vec<String>)>, Option<String>), String>)
    ensures
        r is Ok <==> spec_first_csv(zip_bytes@) is Some,
        r matches Ok((rows, failed)) ==> spec_first_csv(zip_bytes@) matches Some(text) && kline_rows_view(
            rows@,
        ) == spec_kline_rows(spec_csv_read(text).0) && (failed is Some <==> spec_csv_read(text).1),
{
    let text = first_csv_in_zip(zip_bytes)?;
    let (records, failed) = csv_records(text.as_str());
    Ok((kline_rows(&records), failed))
}

/// The trade rows of a daily trade archive (ZIP bytes), in order: those of
/// the first CSV file's records read before the first record that fails,
/// and whether one failed (its error's text is handed on). Fails where the
/// archive has no readable, non-empty CSV file.
pub fn archive_trade_rows(zip_bytes: &[u8]) -> (r: Result<(Vec<(MsTime, Vec<String>)>, Option<String>), String>)
    ensures
        r is Ok <==> spec_first_csv(zip_bytes@) is Some,
        r matches Ok((rows, failed)) ==> spec_first_csv(zip_bytes@) matches Some(text) && trade_rows_view(
            rows@,
        ) == spec_trade_rows(spec_csv_read(text).0) && (failed is Some <==> spec_csv_read(text).1),
{
    let text = first_csv_in_zip(zip_bytes)?;
    let (records, failed) = csv_records(text.as_str());
    Ok((trade_rows(&records), failed))
}

} // verus!
