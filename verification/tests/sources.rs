use std::io::{Cursor, Write};
use whois_ingest::daily::{daily_url, daily_url_at, download_url, fetch};
use whois_ingest::error::{Error, ParseError, ParseErrorKind};
use whois_ingest::source::{read_archive, regular_files, Listed, SourceEntry};
use zip::write::{FileOptions, ZipWriter};
use zip::CompressionMethod;

fn archive(members: &[(&str, &[u8], CompressionMethod)]) -> Vec<u8> {
    let mut writer = ZipWriter::new(Cursor::new(Vec::new()));
    for (name, content, method) in members {
        writer.start_file(*name, FileOptions::default().compression_method(*method)).unwrap();
        writer.write_all(content).unwrap();
    }
    writer.finish().unwrap().into_inner()
}

const A: &str = "num,domain_name,domain_keyword,domain_tld,query_time\n1,x.org,x,org,t\n2,y.org,y,org,t\n";
const B: &str = "num,domain_name,domain_keyword,domain_tld,query_time\n3,w.org,w,org,t\n";

#[test]
fn archive_members_become_entries_in_order() {
    let bytes = archive(&[
        ("a.csv", A.as_bytes(), CompressionMethod::Deflated),
        ("b.csv", B.as_bytes(), CompressionMethod::Stored),
    ]);
    let entries = read_archive(bytes).unwrap();
    assert_eq!(
        entries,
        vec![
            SourceEntry { name: "a.csv".to_string(), content: A.to_string() },
            SourceEntry { name: "b.csv".to_string(), content: B.to_string() },
        ]
    );
}

#[test]
fn archive_without_members_has_no_entries() {
    let entries = read_archive(archive(&[])).unwrap();
    assert!(entries.is_empty());
}

#[test]
fn bytes_that_are_no_archive_are_an_archive_error() {
    assert_eq!(read_archive(b"this is not a zip archive".to_vec()), Err(Error::Archive));
    assert_eq!(read_archive(Vec::new()), Err(Error::Archive));
    assert_eq!(fetch(b"PK but not really".to_vec()), Err(Error::Archive));
}

#[test]
fn member_that_is_not_text_is_an_io_error() {
    let bytes = archive(&[
        ("a.csv", A.as_bytes(), CompressionMethod::Stored),
        ("b.bin", &[0xff, 0xfe, 0x00, 0x80], CompressionMethod::Stored),
    ]);
    assert_eq!(read_archive(bytes.clone()), Err(Error::Io));
    assert_eq!(fetch(bytes), Err(Error::Io));
}

#[test]
fn member_with_a_damaged_body_is_an_io_error() {
    let mut bytes = archive(&[("a.csv", A.as_bytes(), CompressionMethod::Stored)]);
    let at = bytes.windows(5).position(|w| w == b"x.org").unwrap();
    bytes[at] = b'z';
    assert_eq!(read_archive(bytes), Err(Error::Io));
}

#[test]
fn fetch_reads_the_records_of_every_member() {
    let bytes = archive(&[
        ("a.csv", A.as_bytes(), CompressionMethod::Deflated),
        ("empty.csv", b"", CompressionMethod::Stored),
        ("b.csv", B.as_bytes(), CompressionMethod::Deflated),
    ]);
    let records = fetch(bytes).unwrap();
    let names: Vec<&str> = records.iter().map(|r| r.domain_name.as_str()).collect();
    assert_eq!(names, vec!["x.org", "y.org", "w.org"]);
    assert_eq!(records[2].num, 3);
}

#[test]
fn fetch_stops_at_the_first_member_that_fails() {
    let bad = "num,domain_name,domain_keyword,domain_tld,query_time\n1,,x,org,t\n";
    let bytes = archive(&[
        ("a.csv", A.as_bytes(), CompressionMethod::Stored),
        ("bad.csv", bad.as_bytes(), CompressionMethod::Stored),
        ("c.bin", &[0xff], CompressionMethod::Stored),
    ]);
    assert_eq!(
        fetch(bytes),
        Err(Error::Parse(ParseError { row: 1, column: 1, kind: ParseErrorKind::MissingField }))
    );
}

#[test]
fn only_regular_files_are_listed() {
    let listing = vec![
        Listed { path: "data/a.csv".to_string(), is_file: true },
        Listed { path: "data/sub".to_string(), is_file: false },
        Listed { path: "data/b.csv".to_string(), is_file: true },
    ];
    assert_eq!(regular_files(listing), vec!["data/a.csv".to_string(), "data/b.csv".to_string()]);
    assert!(regular_files(Vec::new()).is_empty());
}

#[test]
fn download_url_names_code_and_day() {
    assert_eq!(
        download_url("abc123", "2024-02-29"),
        "https://bigdomaindata.s3.amazonaws.com/updates/abc123_2024-02-29.zip"
    );
    assert_eq!(download_url("", ""), "https://bigdomaindata.s3.amazonaws.com/updates/_.zip");
}

#[test]
fn daily_url_at_names_the_day_before() {
    let prefix = "https://bigdomaindata.s3.amazonaws.com/updates/";
    // 2024-03-01 00:30:00 in universal time
    let instant = 1709253000;
    assert_eq!(daily_url_at("code", instant, 0), Some(format!("{}code_2024-02-29.zip", prefix)));
    assert_eq!(daily_url_at("code", instant, -3600), Some(format!("{}code_2024-02-28.zip", prefix)));
    assert_eq!(daily_url_at("code", instant, 86399), Some(format!("{}code_2024-03-01.zip", prefix)));
    assert_eq!(daily_url_at("x", 0, 0), Some(format!("{}x_1969-12-31.zip", prefix)));
    assert_eq!(daily_url_at("x", 86400 * 366, 3600), Some(format!("{}x_1971-01-01.zip", prefix)));
}

#[test]
fn daily_url_at_has_no_address_without_a_day() {
    assert_eq!(daily_url_at("code", 1709253000, 86400), None);
    assert_eq!(daily_url_at("code", 1709253000, -86400), None);
    assert_eq!(daily_url_at("code", i64::MAX, 0), None);
    assert_eq!(daily_url_at("code", i64::MIN, 0), None);
}

#[test]
fn daily_url_names_a_day() {
    let url = daily_url("code").unwrap();
    let prefix = "https://bigdomaindata.s3.amazonaws.com/updates/code_";
    assert!(url.starts_with(prefix));
    assert!(url.ends_with(".zip"));
    let day = &url[prefix.len()..url.len() - 4];
    let parts: Vec<&str> = day.split('-').collect();
    assert_eq!(parts.len(), 3);
    assert_eq!(parts[0].len(), 4);
    assert_eq!(parts[1].len(), 2);
    assert_eq!(parts[2].len(), 2);
    assert!(parts.iter().all(|p| p.chars().all(|c| c.is_ascii_digit())));
}
