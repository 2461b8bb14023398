use std::io::Write;

use data::exchange::adapter::archive::{
    MsTime, archive_kline_rows, archive_trade_rows, first_csv_in_zip, kline_rows, read_ms_time, trade_rows,
};
use data::text::parse_unsigned;

fn zip_of(files: &[(&str, &str)]) -> Vec<u8> {
    let mut w = zip::ZipWriter::new(std::io::Cursor::new(Vec::new()));
    let opts = zip::write::SimpleFileOptions::default().compression_method(zip::CompressionMethod::Stored);
    for (name, text) in files {
        w.start_file(*name, opts).unwrap();
        w.write_all(text.as_bytes()).unwrap();
    }
    w.finish().unwrap().into_inner()
}

fn rec(fields: &[&str]) -> Vec<String> {
    fields.iter().map(|f| f.to_string()).collect()
}

#[test]
fn unsigned_numbers_parse_as_std_does() {
    assert_eq!(parse_unsigned("1700000000000", u64::MAX), Some(1_700_000_000_000));
    assert_eq!(parse_unsigned("+42", u64::MAX), Some(42));
    assert_eq!(parse_unsigned("007", u64::MAX), Some(7));
    assert_eq!(parse_unsigned("", u64::MAX), None);
    assert_eq!(parse_unsigned("+", u64::MAX), None);
    assert_eq!(parse_unsigned("-1", u64::MAX), None);
    assert_eq!(parse_unsigned("1.5", u64::MAX), None);
    assert_eq!(parse_unsigned("18446744073709551615", u64::MAX), Some(u64::MAX));
    assert_eq!(parse_unsigned("18446744073709551616", u64::MAX), None);
    assert_eq!(parse_unsigned("4294967296", u32::MAX as u64), None);
}

#[test]
fn the_first_csv_entry_is_read() {
    let bytes = zip_of(&[("readme.txt", "hello"), ("a.csv", "x,y\n1,2\n"), ("b.csv", "other")]);
    assert_eq!(first_csv_in_zip(&bytes), Ok("x,y\n1,2\n".to_string()));
    assert!(first_csv_in_zip(&zip_of(&[("readme.txt", "hello")])).is_err());
    assert!(first_csv_in_zip(&zip_of(&[("a.csv", "")])).is_err());
    assert!(first_csv_in_zip(b"not a zip").is_err());
}

#[test]
fn time_fields_read_as_microseconds() {
    assert_eq!(read_ms_time("1700000000000"), MsTime::Micros(1_700_000_000_000_000));
    assert_eq!(read_ms_time("x"), MsTime::Invalid);
    assert_eq!(read_ms_time("18446744073709551615"), MsTime::Overflow);
}

#[test]
fn candle_rows_skip_short_records_and_scale_times() {
    let records = vec![
        rec(&["1000", "1.0", "2.0", "0.5", "1.5", "10", "1999", "15", "7", "0", "0", "0"]),
        rec(&["short", "row"]),
        rec(&["2000", "1.5", "2.5", "1.0", "2.0", "20", "2999", "30", "9"]),
        rec(&["x", "1", "1", "1", "1", "1", "1", "1", "many"]),
    ];
    let rows = kline_rows(&records);
    assert_eq!(rows.len(), 3);
    assert_eq!(rows[0], (MsTime::Micros(1_000_000), Some(7), rec(&["1.0", "2.0", "0.5", "1.5", "10"])));
    assert_eq!((rows[1].0, rows[1].1), (MsTime::Micros(2_000_000), Some(9)));
    assert_eq!((rows[2].0, rows[2].1), (MsTime::Invalid, None));
}

#[test]
fn trade_rows_skip_short_records_and_scale_times() {
    let records = vec![
        rec(&["1", "100.5", "0.25", "1", "1", "1700000000000", "true"]),
        rec(&["2", "3"]),
        rec(&["3", "101.0", "1.00", "3", "3", "soon", "false"]),
    ];
    let rows = trade_rows(&records);
    assert_eq!(rows.len(), 2);
    assert_eq!(rows[0], (MsTime::Micros(1_700_000_000_000_000), rec(&["100.5", "0.25"])));
    assert_eq!(rows[1], (MsTime::Invalid, rec(&["101.0", "1.00"])));
}

#[test]
fn archives_become_rows() {
    let csv = "open_time,open,high,low,close,volume,close_time,qv,trades\n\
               60000,1,2,0.5,1.5,10,119999,15,4\n";
    let (rows, failed) = archive_kline_rows(&zip_of(&[("k.csv", csv)])).unwrap();
    assert_eq!(rows, vec![(MsTime::Micros(60_000_000), Some(4), rec(&["1", "2", "0.5", "1.5", "10"]))]);
    assert!(failed.is_none());
    let trades = "id,price,qty,first,last,time,maker\n7,5.5,2,7,7,1000,true\n";
    let (rows, failed) = archive_trade_rows(&zip_of(&[("t.csv", trades)])).unwrap();
    assert_eq!(rows, vec![(MsTime::Micros(1_000_000), rec(&["5.5", "2"]))]);
    assert!(failed.is_none());
    assert!(archive_trade_rows(&zip_of(&[("t.txt", trades)])).is_err());
}

#[test]
fn a_bad_record_ends_the_rows_read_before_it() {
    let trades = "id,price,qty,first,last,time,maker\n7,5.5,2,7,7,1000,true\n8,5.5\n9,1,1,1,1,2000,true\n";
    let (rows, failed) = archive_trade_rows(&zip_of(&[("t.csv", trades)])).unwrap();
    assert_eq!(rows, vec![(MsTime::Micros(1_000_000), rec(&["5.5", "2"]))]);
    assert!(failed.is_some());
}
