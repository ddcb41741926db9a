use mongodb::bson::{Bson, Document};
use whois_ingest::db::upsert;
use whois_ingest::whois::WhoIsRecord;

fn record(num: u32, name: &str) -> WhoIsRecord {
    let text = format!(
        "num,domain_name,domain_keyword,domain_tld,query_time,create_date,registrar_name\n{},{},key,tld,2024-05-06,,Some Registrar\n",
        num, name
    );
    WhoIsRecord::from_buffer(&text).unwrap().remove(0)
}

const NAMES: [&str; 22] = [
    "num", "domain_name", "domain_keyword", "domain_tld", "query_time", "create_date", "update_date",
    "expiry_date", "registrar_iana", "registrar_name", "registrar_website", "registrant_name",
    "registrant_company", "registrant_address", "registrant_city", "registrant_state", "registrant_zip",
    "registrant_country", "registrant_phone", "registrant_fax", "registrant_email", "name_servers",
];

fn keys(document: &Document) -> Vec<String> {
    document.keys().map(|k| k.to_string()).collect()
}

#[test]
fn document_holds_every_attribute_in_schema_order() {
    let document = record(3, "a.example").to_document();
    assert_eq!(keys(&document), NAMES.to_vec());
    assert_eq!(document.get("num"), Some(&Bson::Int32(3)));
    assert_eq!(document.get("domain_name"), Some(&Bson::String("a.example".to_string())));
    assert_eq!(document.get("domain_keyword"), Some(&Bson::String("key".to_string())));
    assert_eq!(document.get("domain_tld"), Some(&Bson::String("tld".to_string())));
    assert_eq!(document.get("query_time"), Some(&Bson::String("2024-05-06".to_string())));
    assert_eq!(document.get("create_date"), Some(&Bson::Null));
    assert_eq!(document.get("registrar_name"), Some(&Bson::String("Some Registrar".to_string())));
    assert_eq!(document.get("name_servers"), Some(&Bson::Null));
}

#[test]
fn large_sequence_number_is_stored_in_64_bits() {
    let document = record(2147483647, "a.example").to_document();
    assert_eq!(document.get("num"), Some(&Bson::Int32(2147483647)));
    let document = record(2147483648, "a.example").to_document();
    assert_eq!(document.get("num"), Some(&Bson::Int64(2147483648)));
    let document = record(4294967295, "a.example").to_document();
    assert_eq!(document.get("num"), Some(&Bson::Int64(4294967295)));
}

#[test]
fn blank_optional_column_round_trips_as_no_value() {
    let text = "num,domain_name,domain_keyword,domain_tld,query_time,create_date,update_date,expiry_date\n9,x.org,x,org,now,2020-01-01,,\n";
    let records = WhoIsRecord::from_buffer(text).unwrap();
    let plan = upsert(&records);
    let document = &plan.documents[0];
    assert_eq!(document.get("num"), Some(&Bson::Int32(9)));
    assert_eq!(document.get("create_date"), Some(&Bson::String("2020-01-01".to_string())));
    assert_eq!(document.get("update_date"), Some(&Bson::Null));
    assert_eq!(document.get("expiry_date"), Some(&Bson::Null));
    assert_eq!(document.get("registrar_iana"), Some(&Bson::Null));
    assert_eq!(document.get("domain_name"), Some(&Bson::String("x.org".to_string())));
    assert_eq!(document.len(), 22);
}

#[test]
fn stored_document_carries_every_attribute() {
    let batch = vec![record(3, "a.example")];
    let plan = upsert(&batch);
    assert_eq!(plan.documents.len(), 1);
    assert_eq!(keys(&plan.documents[0]), NAMES.to_vec());
    assert_eq!(plan.documents[0], batch[0].to_document());
    assert_eq!(plan.documents[0].get("num"), Some(&Bson::Int32(3)));
}

#[test]
fn upsert_plan_holds_the_last_record_of_each_domain_name() {
    let batch = vec![record(1, "a.example"), record(2, "b.example"), record(3, "a.example")];
    let plan = upsert(&batch);
    assert_eq!(keys(&plan.filter), vec!["domain_name"]);
    let among = plan.filter.get_document("domain_name").unwrap();
    assert_eq!(keys(among), vec!["$in"]);
    let names = among.get_array("$in").unwrap();
    assert_eq!(
        names,
        &vec![Bson::String("b.example".to_string()), Bson::String("a.example".to_string())]
    );
    assert_eq!(plan.documents, vec![batch[1].to_document(), batch[2].to_document()]);
    assert_eq!(plan.documents[1].get("num"), Some(&Bson::Int32(3)));
}

#[test]
fn upsert_plan_of_distinct_names_holds_every_record() {
    let batch = vec![record(1, "a.example"), record(2, "b.example"), record(3, "c.example")];
    let plan = upsert(&batch);
    assert_eq!(plan.documents.len(), 3);
    for (document, record) in plan.documents.iter().zip(batch.iter()) {
        assert_eq!(document, &record.to_document());
    }
    let among = plan.filter.get_document("domain_name").unwrap();
    assert_eq!(among.get_array("$in").unwrap().len(), 3);
}

#[test]
fn upsert_plan_of_no_records_is_empty() {
    let plan = upsert(&Vec::new());
    assert_eq!(plan.documents.len(), 0);
    let among = plan.filter.get_document("domain_name").unwrap();
    assert_eq!(among.get_array("$in").unwrap().len(), 0);
}

#[test]
fn record_is_described_one_attribute_to_a_line() {
    let text = "num,domain_name,domain_keyword,domain_tld,query_time,create_date,registrar_name\n12,a.example,a,example,now,,\"Say \"\"hi\"\"\"\n";
    let record = WhoIsRecord::from_buffer(text).unwrap().remove(0);
    let expected = " num: 12\n domain_name: a.example\n domain_keyword: a\n domain_tld: example\n query_time: now\n create_date: None\n update_date: None\n expiry_date: None\n registrar_iana: None\n registrar_name: Some(\"Say \\\"hi\\\"\")\n registrar_website: None\n registrant_name: None\n registrant_company: None\n registrant_address: None\n registrant_city: None\n registrant_state: None\n registrant_zip: None\n registrant_country: None\n registrant_phone: None\n registrant_fax: None\n registrant_email: None\n name_servers: None";
    assert_eq!(record.describe(), expected);
}

#[test]
fn duplicate_is_equal_to_the_record() {
    let record = record(5, "a.example");
    assert_eq!(record.duplicate(), record);
}
