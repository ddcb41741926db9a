use whois_ingest::error::{Error, ParseError, ParseErrorKind};
use whois_ingest::text::{decimal, parse_u32};
use whois_ingest::whois::WhoIsRecord;

const HEADER: &str = "num,domain_name,domain_keyword,domain_tld,query_time,create_date,update_date,expiry_date,registrar_iana,registrar_name,registrar_website,registrant_name,registrant_company,registrant_address,registrant_city,registrant_state,registrant_zip,registrant_country,registrant_phone,registrant_fax,registrant_email,name_servers";

fn parse_error(row: usize, column: usize, kind: ParseErrorKind) -> Error {
    Error::Parse(ParseError { row, column, kind })
}

#[test]
fn empty_buffer_holds_no_records() {
    let records = WhoIsRecord::from_buffer("").unwrap();
    assert!(records.is_empty());
}

#[test]
fn header_alone_holds_no_records() {
    let records = WhoIsRecord::from_buffer(HEADER).unwrap();
    assert!(records.is_empty());
}

#[test]
fn full_row_is_read_field_by_field() {
    let text = format!(
        "{}\n7,example.com,example,com,2024-01-02 03:04:05,2001-01-01,,2030-01-01,292,\"Registrar, Inc.\",https://r.example,,,,,,,US,,,,ns1.example.com|ns2.example.com\n",
        HEADER
    );
    let records = WhoIsRecord::from_buffer(&text).unwrap();
    assert_eq!(records.len(), 1);
    let r = &records[0];
    assert_eq!(r.num, 7);
    assert_eq!(r.domain_name, "example.com");
    assert_eq!(r.domain_keyword, "example");
    assert_eq!(r.domain_tld, "com");
    assert_eq!(r.query_time, "2024-01-02 03:04:05");
    assert_eq!(r.create_date.as_deref(), Some("2001-01-01"));
    assert_eq!(r.update_date, None);
    assert_eq!(r.expiry_date.as_deref(), Some("2030-01-01"));
    assert_eq!(r.registrar_iana.as_deref(), Some("292"));
    assert_eq!(r.registrar_name.as_deref(), Some("Registrar, Inc."));
    assert_eq!(r.registrar_website.as_deref(), Some("https://r.example"));
    assert_eq!(r.registrant_name, None);
    assert_eq!(r.registrant_country.as_deref(), Some("US"));
    assert_eq!(r.registrant_email, None);
    assert_eq!(r.name_servers.as_deref(), Some("ns1.example.com|ns2.example.com"));
}

#[test]
fn rows_keep_their_order() {
    let text = "num,domain_name,domain_keyword,domain_tld,query_time\n1,b.org,b,org,t1\n2,a.org,a,org,t2\n3,c.org,c,org,t3\n";
    let records = WhoIsRecord::from_buffer(text).unwrap();
    let names: Vec<&str> = records.iter().map(|r| r.domain_name.as_str()).collect();
    assert_eq!(names, vec!["b.org", "a.org", "c.org"]);
    assert_eq!(records[2].num, 3);
    assert_eq!(records[0].create_date, None);
}

#[test]
fn columns_are_found_by_name() {
    let text = "domain_tld,extra,num,query_time,domain_name,domain_keyword,name_servers\ncom,x,12,now,a.com,a,ns\n";
    let records = WhoIsRecord::from_buffer(text).unwrap();
    assert_eq!(records.len(), 1);
    assert_eq!(records[0].num, 12);
    assert_eq!(records[0].domain_name, "a.com");
    assert_eq!(records[0].domain_tld, "com");
    assert_eq!(records[0].name_servers.as_deref(), Some("ns"));
    assert_eq!(records[0].create_date, None);
}

#[test]
fn missing_required_column_is_reported() {
    let text = "num,domain_name,domain_keyword,query_time\n1,a.com,a,now\n";
    let error = WhoIsRecord::from_buffer(text).unwrap_err();
    assert_eq!(error, parse_error(0, 3, ParseErrorKind::MissingColumn));
}

#[test]
fn blank_required_field_is_reported() {
    let text = "num,domain_name,domain_keyword,domain_tld,query_time\n1,a.com,a,com,now\n2,,b,com,now\n";
    let error = WhoIsRecord::from_buffer(text).unwrap_err();
    assert_eq!(error, parse_error(2, 1, ParseErrorKind::MissingField));
}

#[test]
fn short_row_is_reported() {
    let text = "num,domain_name,domain_keyword,domain_tld,query_time\n1,a.com,a\n";
    let error = WhoIsRecord::from_buffer(text).unwrap_err();
    assert_eq!(error, parse_error(1, 3, ParseErrorKind::UnequalLengths));
}

#[test]
fn long_row_is_reported() {
    let text = "num,domain_name,domain_keyword,domain_tld,query_time\n1,a.com,a,com,now,extra\n";
    let error = WhoIsRecord::from_buffer(text).unwrap_err();
    assert_eq!(error, parse_error(1, 5, ParseErrorKind::UnequalLengths));
}

#[test]
fn sequence_number_must_be_a_number() {
    let text = "num,domain_name,domain_keyword,domain_tld,query_time\nx1,a.com,a,com,now\n";
    let error = WhoIsRecord::from_buffer(text).unwrap_err();
    assert_eq!(error, parse_error(1, 0, ParseErrorKind::InvalidNumber));
}

#[test]
fn from_rows_reads_a_table() {
    let rows = vec![
        vec!["num".to_string(), "domain_name".to_string(), "domain_keyword".to_string(), "domain_tld".to_string(), "query_time".to_string(), "create_date".to_string()],
        vec!["5".to_string(), "a.com".to_string(), "a".to_string(), "com".to_string(), "now".to_string(), "".to_string()],
    ];
    let records = WhoIsRecord::from_rows(&rows).unwrap();
    assert_eq!(records.len(), 1);
    assert_eq!(records[0].num, 5);
    assert_eq!(records[0].create_date, None);
}

#[test]
fn numbers_are_read_in_base_ten() {
    assert_eq!(parse_u32("0"), Some(0));
    assert_eq!(parse_u32("007"), Some(7));
    assert_eq!(parse_u32("4294967295"), Some(4294967295));
    assert_eq!(parse_u32("4294967296"), None);
    assert_eq!(parse_u32("99999999999999999999999"), None);
    assert_eq!(parse_u32(""), None);
    assert_eq!(parse_u32("+1"), None);
    assert_eq!(parse_u32("1a"), None);
    assert_eq!(parse_u32("١"), None);
}

#[test]
fn numbers_are_written_in_base_ten() {
    assert_eq!(decimal(0), "0");
    assert_eq!(decimal(9), "9");
    assert_eq!(decimal(10), "10");
    assert_eq!(decimal(27017), "27017");
    assert_eq!(decimal(4294967295), "4294967295");
}

#[test]
fn default_record_is_blank() {
    let record = WhoIsRecord::default();
    assert_eq!(record.num, 0);
    assert_eq!(record.domain_name, "");
    assert_eq!(record.query_time, "");
    assert_eq!(record.create_date, None);
    assert_eq!(record.name_servers, None);
}

#[test]
fn quoted_fields_and_line_ends_are_the_reader_s() {
    let text = "num,domain_name,domain_keyword,domain_tld,query_time,registrant_address\r\n1,a.com,a,com,now,\"1 Main St\nSuite 2, \"\"B\"\"\"\r\n\r\n2,b.com,b,com,now,\r\n";
    let records = WhoIsRecord::from_buffer(text).unwrap();
    assert_eq!(records.len(), 2);
    assert_eq!(records[0].registrant_address.as_deref(), Some("1 Main St\nSuite 2, \"B\""));
    assert_eq!(records[1].registrant_address, None);
    assert_eq!(records[1].domain_name, "b.com");
}

#[test]
fn first_fault_in_reading_order_is_reported() {
    let text = "num,domain_name,domain_keyword,domain_tld,query_time\n1,a.com,a,com,now\n,b.com,,com\n3,,c,com,now\n";
    let error = WhoIsRecord::from_buffer(text).unwrap_err();
    assert_eq!(error, parse_error(2, 4, ParseErrorKind::UnequalLengths));
    let text = "num,domain_name,domain_keyword,domain_tld,query_time\n1,a.com,a,com,now\n,b.com,,com,now\n";
    let error = WhoIsRecord::from_buffer(text).unwrap_err();
    assert_eq!(error, parse_error(2, 0, ParseErrorKind::MissingField));
    let text = "domain_name,num,domain_keyword,domain_tld,query_time\na.com,1,a,com,\n";
    let error = WhoIsRecord::from_buffer(text).unwrap_err();
    assert_eq!(error, parse_error(1, 4, ParseErrorKind::MissingField));
    let text = "domain_name,num\na.com,1\n";
    let error = WhoIsRecord::from_buffer(text).unwrap_err();
    assert_eq!(error, parse_error(0, 2, ParseErrorKind::MissingColumn));
}
