//! The shape in which records are written to the document store.

use crate::text::parse_number;
use crate::whois::{
    cell, column, column_name, columns_fault, fields_fault, lemma_column_index_found,
    lemma_rows_without_fault, parse_rows, record_of_row, RecordView, WhoIsRecord, COLUMN_COUNT,
    REQUIRED_COLUMNS,
};
use mongodb::bson::Document;
use vstd::prelude::*;
use vstd::string::*;

verus! {

/// A value of a stored document, as far as this library writes such values.
pub enum Value {
    /// A number that fits 32 bits with a sign.
    Int32(i32),
    /// A number that needs 64 bits.
    Int64(i64),
    /// A string.
    Text(Seq<char>),
    /// The marker for "no value".
    Null,
    /// An array of strings.
    Texts(Seq<Seq<char>>),
    /// A document within the document.
    Nested(Seq<(Seq<char>, Value)>),
}

/// The entries of a document: its keys with their values, in the order in
/// which the document keeps them.
pub uninterp spec fn entries(document: Document) -> Seq<(Seq<char>, Value)>;

/// Whether some entry has the key.
pub open spec fn has_key(all: Seq<(Seq<char>, Value)>, key: Seq<char>) -> bool {
    exists|i: int| 0 <= i < all.len() && (#[trigger] all[i]).0 == key
}

/// The entries after `value` is stored under `key`: where an entry has the
/// key, its value is replaced in its place; otherwise the new entry comes last.
pub open spec fn put(all: Seq<(Seq<char>, Value)>, key: Seq<char>, value: Value) -> Seq<
    (Seq<char>, Value),
> {
    if has_key(all, key) {
        all.update(choose|i: int| 0 <= i < all.len() && (#[trigger] all[i]).0 == key, (key, value))
    } else {
        all.push((key, value))
    }
}

/// The stored value of a number: 32 bits where they suffice.
pub open spec fn number_value(n: u32) -> Value {
    if n <= i32::MAX {
        Value::Int32(n as i32)
    } else {
        Value::Int64(n as i64)
    }
}

/// The stored value of a text that may be missing.
pub open spec fn text_value(text: Option<Seq<char>>) -> Value {
    match text {
        Some(t) => Value::Text(t),
        None => Value::Null,
    }
}

/// Whether no two entries share a key.
pub open spec fn keys_distinct(all: Seq<(Seq<char>, Value)>) -> bool {
    forall|i: int, j: int| 0 <= i < j < all.len() ==> (#[trigger] all[i]).0 != (#[trigger] all[j]).0
}

/// The entries of the document of a record, which is the shape in which
/// the store keeps it: every attribute, the sequence number among them, in
/// the order of the schema.
pub open spec fn document_entries(r: RecordView) -> Seq<(Seq<char>, Value)> {
    seq![
        (column_name(0), number_value(r.num)),
        (column_name(1), Value::Text(r.domain_name)),
        (column_name(2), Value::Text(r.domain_keyword)),
        (column_name(3), Value::Text(r.domain_tld)),
        (column_name(4), Value::Text(r.query_time)),
        (column_name(5), text_value(r.create_date)),
        (column_name(6), text_value(r.update_date)),
        (column_name(7), text_value(r.expiry_date)),
        (column_name(8), text_value(r.registrar_iana)),
        (column_name(9), text_value(r.registrar_name)),
        (column_name(10), text_value(r.registrar_website)),
        (column_name(11), text_value(r.registrant_name)),
        (column_name(12), text_value(r.registrant_company)),
        (column_name(13), text_value(r.registrant_address)),
        (column_name(14), text_value(r.registrant_city)),
        (column_name(15), text_value(r.registrant_state)),
        (column_name(16), text_value(r.registrant_zip)),
        (column_name(17), text_value(r.registrant_country)),
        (column_name(18), text_value(r.registrant_phone)),
        (column_name(19), text_value(r.registrant_fax)),
        (column_name(20), text_value(r.registrant_email)),
        (column_name(21), text_value(r.name_servers)),
    ]
}

/// No two columns of the schema share a name.
pub proof fn lemma_column_names_distinct()
    ensures
        forall|i: int, j: int|
            0 <= i < j < COLUMN_COUNT ==> #[trigger] column_name(i) != #[trigger] column_name(j),
{
    reveal_strlit("num");
    reveal_strlit("domain_name");
    reveal_strlit("domain_keyword");
    reveal_strlit("domain_tld");
    reveal_strlit("query_time");
    reveal_strlit("create_date");
    reveal_strlit("update_date");
    reveal_strlit("expiry_date");
    reveal_strlit("registrar_iana");
    reveal_strlit("registrar_name");
    reveal_strlit("registrar_website");
    reveal_strlit("registrant_name");
    reveal_strlit("registrant_company");
    reveal_strlit("registrant_address");
    reveal_strlit("registrant_city");
    reveal_strlit("registrant_state");
    reveal_strlit("registrant_zip");
    reveal_strlit("registrant_country");
    reveal_strlit("registrant_phone");
    reveal_strlit("registrant_fax");
    reveal_strlit("registrant_email");
    reveal_strlit("name_servers");
    assert("domain_name"@[0] != "create_date"@[0]);
    assert("domain_name"@[0] != "update_date"@[0]);
    assert("domain_name"@[0] != "expiry_date"@[0]);
    assert("domain_keyword"@[0] != "registrar_iana"@[0]);
    assert("domain_keyword"@[0] != "registrar_name"@[0]);
    assert("domain_keyword"@[0] != "registrant_zip"@[0]);
    assert("domain_keyword"@[0] != "registrant_fax"@[0]);
    assert("domain_tld"@[0] != "query_time"@[0]);
    assert("create_date"@[0] != "update_date"@[0]);
    assert("create_date"@[0] != "expiry_date"@[0]);
    assert("update_date"@[0] != "expiry_date"@[0]);
    assert("registrar_iana"@[10] != "registrar_name"@[10]);
    assert("registrar_iana"@[8] != "registrant_zip"@[8]);
    assert("registrar_iana"@[8] != "registrant_fax"@[8]);
    assert("registrar_name"@[8] != "registrant_zip"@[8]);
    assert("registrar_name"@[8] != "registrant_fax"@[8]);
    assert("registrant_name"@[11] != "registrant_city"@[11]);
    assert("registrant_company"@[11] != "registrant_address"@[11]);
    assert("registrant_company"@[13] != "registrant_country"@[13]);
    assert("registrant_address"@[11] != "registrant_country"@[11]);
    assert("registrant_state"@[11] != "registrant_phone"@[11]);
    assert("registrant_state"@[11] != "registrant_email"@[11]);
    assert("registrant_zip"@[11] != "registrant_fax"@[11]);
    assert("registrant_phone"@[11] != "registrant_email"@[11]);
    assert forall|i: int, j: int| 0 <= i < j < COLUMN_COUNT implies #[trigger] column_name(i)
        != #[trigger] column_name(j) by {
        let a = column_name(i);
        let b = column_name(j);
        if a.len() == b.len() {
            assert(a != b);
        }
    }
}

/// The entries of a record's document have the names of the columns for
/// keys, so no two share a key.
pub proof fn lemma_document_keys(r: RecordView)
    ensures
        document_entries(r).len() == COLUMN_COUNT,
        forall|c: int| 0 <= c < COLUMN_COUNT ==> (#[trigger] document_entries(r)[c]).0 == column_name(c),
        keys_distinct(document_entries(r)),
{
    lemma_column_names_distinct();
}

/// The value under which a field of a row is stored: the number for the
/// sequence number, the text for a required column, and for an optional
/// column the text, or the marker for "no value" where the header does not
/// name the column or the field is blank.
pub open spec fn stored_value(c: int, field: Option<Seq<char>>) -> Value {
    match field {
        Some(text) => if c == 0 {
            match parse_number(text) {
                Some(n) => number_value(n),
                None => Value::Null,
            }
        } else if text.len() > 0 {
            Value::Text(text)
        } else {
            Value::Null
        },
        None => Value::Null,
    }
}

/// Parsing and storing keeps every field. Of rows that parse, the document
/// of the record of row `r` holds for each column of the schema, under the
/// column's name, the value of the row's field: a required field is there
/// and is kept as it is, the sequence number as the number that it writes,
/// and a blank or missing optional field as the marker for "no value".
pub proof fn lemma_round_trip(rows: Seq<Seq<Seq<char>>>, r: int, c: int)
    requires
        parse_rows(rows) is Ok,
        1 <= r < rows.len(),
        0 <= c < COLUMN_COUNT,
    ensures
        parse_rows(rows)->Ok_0.len() == rows.len() - 1,
        document_entries(parse_rows(rows)->Ok_0[r - 1])[c] == (
            column_name(c),
            stored_value(c, cell(rows[0], rows[r], c)),
        ),
        c < REQUIRED_COLUMNS ==> cell(rows[0], rows[r], c) is Some && stored_value(
            c,
            cell(rows[0], rows[r], c),
        ) !is Null,
{
    let header = rows[0];
    let row = rows[r];
    lemma_rows_without_fault(rows, 1, r);
    assert(parse_rows(rows)->Ok_0[r - 1] == record_of_row(header, row));
    reveal_with_fuel(columns_fault, 6);
    reveal_with_fuel(fields_fault, 6);
    lemma_column_index_found(header, column_name(c));
    lemma_document_keys(record_of_row(header, row));
}

/// The text of an optional attribute, borrowed.
fn as_text(value: &Option<String>) -> (text: Option<&str>)
    ensures
        text.deep_view() == value.deep_view(),
{
    match value {
        Some(t) => Some(t.as_str()),
        None => None,
    }
}

/// Adds the next entry of `full` to a document that holds the entries before it.
fn add_text(
    document: &mut Document,
    c: usize,
    value: Option<&str>,
    Ghost(full): Ghost<Seq<(Seq<char>, Value)>>,
    Ghost(at): Ghost<int>,
)
    requires
        c < COLUMN_COUNT,
        0 <= at < full.len(),
        keys_distinct(full),
        entries(*old(document)) == full.take(at),
        full[at] == (column_name(c as int), text_value(value.deep_view())),
    ensures
        entries(*final(document)) == full.take(at + 1),
{
    proof {
        let before = full.take(at);
        assert(!has_key(before, column_name(c as int))) by {
            if has_key(before, column_name(c as int)) {
                let i = choose|i: int| 0 <= i < before.len() && (#[trigger] before[i]).0 == column_name(c as int);
                assert(full[i].0 == full[at].0);
            }
        }
        assert(before.push(full[at]) =~= full.take(at + 1));
    }
    insert_text(document, column(c), value);
}

impl WhoIsRecord {
    /// The document of the record, as the store keeps it: every attribute,
    /// the sequence number among them, under the names of the columns.
    pub fn to_document(&self) -> (document: Document)
        ensures
            entries(document) == document_entries(self@),
    {
        let ghost full = document_entries(self@);
        proof {
            lemma_document_keys(self@);
        }
        let mut document = Document::new();
        assert(entries(document) =~= full.take(0));
        insert_number(&mut document, column(0), self.num);
        assert(entries(document) =~= full.take(1)) by {
            assert(!has_key(full.take(0), column_name(0)));
        }
        add_text(&mut document, 1, Some(self.domain_name.as_str()), Ghost(full), Ghost(1));
        add_text(&mut document, 2, Some(self.domain_keyword.as_str()), Ghost(full), Ghost(2));
        add_text(&mut document, 3, Some(self.domain_tld.as_str()), Ghost(full), Ghost(3));
        add_text(&mut document, 4, Some(self.query_time.as_str()), Ghost(full), Ghost(4));
        add_text(&mut document, 5, as_text(&self.create_date), Ghost(full), Ghost(5));
        add_text(&mut document, 6, as_text(&self.update_date), Ghost(full), Ghost(6));
        add_text(&mut document, 7, as_text(&self.expiry_date), Ghost(full), Ghost(7));
        add_text(&mut document, 8, as_text(&self.registrar_iana), Ghost(full), Ghost(8));
        add_text(&mut document, 9, as_text(&self.registrar_name), Ghost(full), Ghost(9));
        add_text(&mut document, 10, as_text(&self.registrar_website), Ghost(full), Ghost(10));
        add_text(&mut document, 11, as_text(&self.registrant_name), Ghost(full), Ghost(11));
        add_text(&mut document, 12, as_text(&self.registrant_company), Ghost(full), Ghost(12));
        add_text(&mut document, 13, as_text(&self.registrant_address), Ghost(full), Ghost(13));
        add_text(&mut document, 14, as_text(&self.registrant_city), Ghost(full), Ghost(14));
        add_text(&mut document, 15, as_text(&self.registrant_state), Ghost(full), Ghost(15));
        add_text(&mut document, 16, as_text(&self.registrant_zip), Ghost(full), Ghost(16));
        add_text(&mut document, 17, as_text(&self.registrant_country), Ghost(full), Ghost(17));
        add_text(&mut document, 18, as_text(&self.registrant_phone), Ghost(full), Ghost(18));
        add_text(&mut document, 19, as_text(&self.registrant_fax), Ghost(full), Ghost(19));
        add_text(&mut document, 20, as_text(&self.registrant_email), Ghost(full), Ghost(20));
        add_text(&mut document, 21, as_text(&self.name_servers), Ghost(full), Ghost(21));
        assert(full.take(COLUMN_COUNT as int) =~= full);
        document
    }
}

/// `bson::Document`, the ordered map from keys to values that the store
/// takes. Nothing is known of a document but its [`entries`].
#[verifier::external_type_specification]
#[verifier::external_body]
pub struct ExDocument(Document);

/// `Document::new` makes a document without entries.
pub assume_specification[ Document::new ]() -> (document: Document)
    ensures
        entries(document) == Seq::<(Seq<char>, Value)>::empty(),
;

/// Stores a number with `Document::insert`. The document keeps its entries
/// in the order in which their keys first came, and a key that it has
/// already keeps its place. A `u32` is stored in 32 bits where it fits them
/// with a sign, else in 64.
#[verifier::external_body]
pub(crate) fn insert_number(document: &mut Document, key: &str, value: u32)
    ensures
        entries(*final(document)) == put(entries(*old(document)), key@, number_value(value)),
{
    document.insert(key, value);
}

/// Stores a text, or the marker for "no value" where there is none, with
/// `Document::insert`.
#[verifier::external_body]
pub(crate) fn insert_text(document: &mut Document, key: &str, value: Option<&str>)
    ensures
        entries(*final(document)) == put(
            entries(*old(document)),
            key@,
            text_value(value.deep_view()),
        ),
{
    document.insert(key, value);
}

/// Stores an array of strings with `Document::insert`.
#[verifier::external_body]
pub(crate) fn insert_texts(document: &mut Document, key: &str, values: Vec<String>)
    ensures
        entries(*final(document)) == put(
            entries(*old(document)),
            key@,
            Value::Texts(values.deep_view()),
        ),
{
    document.insert(key, values);
}

/// Stores a document within the document with `Document::insert`.
#[verifier::external_body]
pub(crate) fn insert_document(document: &mut Document, key: &str, inner: Document)
    ensures
        entries(*final(document)) == put(
            entries(*old(document)),
            key@,
            Value::Nested(entries(inner)),
        ),
{
    document.insert(key, inner);
}

} // verus!
