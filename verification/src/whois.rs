//! One domain's registration record, and the text it is read from.

use crate::error::{Error, ParseError, ParseErrorKind};
use crate::rows::{csv_rows, read_rows};
use crate::text::{parse_number, parse_u32};
use vstd::prelude::*;
use vstd::string::*;

verus! {

/// One domain's registration snapshot. `domain_name` is the key by which
/// records are merged; `num` is a sequence number kept for information only.
/// An optional attribute that the source leaves blank is `None`, never an
/// empty string.
#[derive(Clone, Debug, PartialEq, Eq)]
pub struct WhoIsRecord {
    pub num: u32,
    pub domain_name: String,
    pub domain_keyword: String,
    pub domain_tld: String,
    pub query_time: String,
    pub create_date: Option<String>,
    pub update_date: Option<String>,
    pub expiry_date: Option<String>,
    pub registrar_iana: Option<String>,
    pub registrar_name: Option<String>,
    pub registrar_website: Option<String>,
    pub registrant_name: Option<String>,
    pub registrant_company: Option<String>,
    pub registrant_address: Option<String>,
    pub registrant_city: Option<String>,
    pub registrant_state: Option<String>,
    pub registrant_zip: Option<String>,
    pub registrant_country: Option<String>,
    pub registrant_phone: Option<String>,
    pub registrant_fax: Option<String>,
    pub registrant_email: Option<String>,
    pub name_servers: Option<String>,
}

/// What a [`WhoIsRecord`] holds, as mathematical values.
pub struct RecordView {
    pub num: u32,
    pub domain_name: Seq<char>,
    pub domain_keyword: Seq<char>,
    pub domain_tld: Seq<char>,
    pub query_time: Seq<char>,
    pub create_date: Option<Seq<char>>,
    pub update_date: Option<Seq<char>>,
    pub expiry_date: Option<Seq<char>>,
    pub registrar_iana: Option<Seq<char>>,
    pub registrar_name: Option<Seq<char>>,
    pub registrar_website: Option<Seq<char>>,
    pub registrant_name: Option<Seq<char>>,
    pub registrant_company: Option<Seq<char>>,
    pub registrant_address: Option<Seq<char>>,
    pub registrant_city: Option<Seq<char>>,
    pub registrant_state: Option<Seq<char>>,
    pub registrant_zip: Option<Seq<char>>,
    pub registrant_country: Option<Seq<char>>,
    pub registrant_phone: Option<Seq<char>>,
    pub registrant_fax: Option<Seq<char>>,
    pub registrant_email: Option<Seq<char>>,
    pub name_servers: Option<Seq<char>>,
}

impl RecordView {
    /// Whether the record is as every record read from a source is: the
    /// required attributes are not empty, and no optional attribute is an
    /// empty text, which is "no value" instead.
    pub open spec fn well_formed(self) -> bool {
        &&& self.domain_name.len() > 0
        &&& self.domain_keyword.len() > 0
        &&& self.domain_tld.len() > 0
        &&& self.query_time.len() > 0
        &&& self.create_date != Some(Seq::<char>::empty())
        &&& self.update_date != Some(Seq::<char>::empty())
        &&& self.expiry_date != Some(Seq::<char>::empty())
        &&& self.registrar_iana != Some(Seq::<char>::empty())
        &&& self.registrar_name != Some(Seq::<char>::empty())
        &&& self.registrar_website != Some(Seq::<char>::empty())
        &&& self.registrant_name != Some(Seq::<char>::empty())
        &&& self.registrant_company != Some(Seq::<char>::empty())
        &&& self.registrant_address != Some(Seq::<char>::empty())
        &&& self.registrant_city != Some(Seq::<char>::empty())
        &&& self.registrant_state != Some(Seq::<char>::empty())
        &&& self.registrant_zip != Some(Seq::<char>::empty())
        &&& self.registrant_country != Some(Seq::<char>::empty())
        &&& self.registrant_phone != Some(Seq::<char>::empty())
        &&& self.registrant_fax != Some(Seq::<char>::empty())
        &&& self.registrant_email != Some(Seq::<char>::empty())
        &&& self.name_servers != Some(Seq::<char>::empty())
    }
}

impl View for WhoIsRecord {
    type V = RecordView;

    open spec fn view(&self) -> RecordView {
        RecordView {
            num: self.num,
            domain_name: self.domain_name@,
            domain_keyword: self.domain_keyword@,
            domain_tld: self.domain_tld@,
            query_time: self.query_time@,
            create_date: self.create_date.deep_view(),
            update_date: self.update_date.deep_view(),
            expiry_date: self.expiry_date.deep_view(),
            registrar_iana: self.registrar_iana.deep_view(),
            registrar_name: self.registrar_name.deep_view(),
            registrar_website: self.registrar_website.deep_view(),
            registrant_name: self.registrant_name.deep_view(),
            registrant_company: self.registrant_company.deep_view(),
            registrant_address: self.registrant_address.deep_view(),
            registrant_city: self.registrant_city.deep_view(),
            registrant_state: self.registrant_state.deep_view(),
            registrant_zip: self.registrant_zip.deep_view(),
            registrant_country: self.registrant_country.deep_view(),
            registrant_phone: self.registrant_phone.deep_view(),
            registrant_fax: self.registrant_fax.deep_view(),
            registrant_email: self.registrant_email.deep_view(),
            name_servers: self.name_servers.deep_view(),
        }
    }
}

impl DeepView for WhoIsRecord {
    type V = RecordView;

    open spec fn deep_view(&self) -> RecordView {
        self.view()
    }
}

/// The record without any content: the number zero, empty texts, and no
/// value for every optional attribute.
pub open spec fn blank_record() -> RecordView {
    RecordView {
        num: 0,
        domain_name: Seq::empty(),
        domain_keyword: Seq::empty(),
        domain_tld: Seq::empty(),
        query_time: Seq::empty(),
        create_date: None,
        update_date: None,
        expiry_date: None,
        registrar_iana: None,
        registrar_name: None,
        registrar_website: None,
        registrant_name: None,
        registrant_company: None,
        registrant_address: None,
        registrant_city: None,
        registrant_state: None,
        registrant_zip: None,
        registrant_country: None,
        registrant_phone: None,
        registrant_fax: None,
        registrant_email: None,
        name_servers: None,
    }
}

impl Default for WhoIsRecord {
    fn default() -> (record: WhoIsRecord)
        ensures
            record@ == blank_record(),
    {
        WhoIsRecord {
            num: 0,
            domain_name: String::new(),
            domain_keyword: String::new(),
            domain_tld: String::new(),
            query_time: String::new(),
            create_date: None,
            update_date: None,
            expiry_date: None,
            registrar_iana: None,
            registrar_name: None,
            registrar_website: None,
            registrant_name: None,
            registrant_company: None,
            registrant_address: None,
            registrant_city: None,
            registrant_state: None,
            registrant_zip: None,
            registrant_country: None,
            registrant_phone: None,
            registrant_fax: None,
            registrant_email: None,
            name_servers: None,
        }
    }
}

/// The number of columns that the schema names.
pub const COLUMN_COUNT: usize = 22;

/// The columns before this position are required: the header must name them
/// and no row may leave them blank.
pub const REQUIRED_COLUMNS: usize = 5;

/// The name of column `c` of the schema.
pub open spec fn column_name(c: int) -> Seq<char> {
    if c == 0 {
        "num"@
    } else if c == 1 {
        "domain_name"@
    } else if c == 2 {
        "domain_keyword"@
    } else if c == 3 {
        "domain_tld"@
    } else if c == 4 {
        "query_time"@
    } else if c == 5 {
        "create_date"@
    } else if c == 6 {
        "update_date"@
    } else if c == 7 {
        "expiry_date"@
    } else if c == 8 {
        "registrar_iana"@
    } else if c == 9 {
        "registrar_name"@
    } else if c == 10 {
        "registrar_website"@
    } else if c == 11 {
        "registrant_name"@
    } else if c == 12 {
        "registrant_company"@
    } else if c == 13 {
        "registrant_address"@
    } else if c == 14 {
        "registrant_city"@
    } else if c == 15 {
        "registrant_state"@
    } else if c == 16 {
        "registrant_zip"@
    } else if c == 17 {
        "registrant_country"@
    } else if c == 18 {
        "registrant_phone"@
    } else if c == 19 {
        "registrant_fax"@
    } else if c == 20 {
        "registrant_email"@
    } else {
        "name_servers"@
    }
}

/// The name of column `c` of the schema.
pub fn column(c: usize) -> (name: &'static str)
    requires
        c < COLUMN_COUNT,
    ensures
        name@ == column_name(c as int),
{
    if c == 0 {
        "num"
    } else if c == 1 {
        "domain_name"
    } else if c == 2 {
        "domain_keyword"
    } else if c == 3 {
        "domain_tld"
    } else if c == 4 {
        "query_time"
    } else if c == 5 {
        "create_date"
    } else if c == 6 {
        "update_date"
    } else if c == 7 {
        "expiry_date"
    } else if c == 8 {
        "registrar_iana"
    } else if c == 9 {
        "registrar_name"
    } else if c == 10 {
        "registrar_website"
    } else if c == 11 {
        "registrant_name"
    } else if c == 12 {
        "registrant_company"
    } else if c == 13 {
        "registrant_address"
    } else if c == 14 {
        "registrant_city"
    } else if c == 15 {
        "registrant_state"
    } else if c == 16 {
        "registrant_zip"
    } else if c == 17 {
        "registrant_country"
    } else if c == 18 {
        "registrant_phone"
    } else if c == 19 {
        "registrant_fax"
    } else if c == 20 {
        "registrant_email"
    } else {
        "name_servers"
    }
}

/// The position of the first field of `header` that is `name`.
pub open spec fn column_index(header: Seq<Seq<char>>, name: Seq<char>) -> Option<int>
    decreases header.len(),
{
    if header.len() == 0 {
        None
    } else {
        match column_index(header.drop_last(), name) {
            Some(i) => Some(i),
            None => if header.last() == name {
                Some(header.len() - 1)
            } else {
                None
            },
        }
    }
}

/// The first occurrence of a name in a header is also its first occurrence in
/// any header that goes on from there.
pub proof fn lemma_column_index_extends(header: Seq<Seq<char>>, name: Seq<char>, k: int)
    requires
        0 <= k <= header.len(),
        column_index(header.take(k), name) is Some,
    ensures
        column_index(header, name) == column_index(header.take(k), name),
    decreases header.len(),
{
    if k == header.len() {
        assert(header.take(k) =~= header);
    } else {
        assert(header.drop_last().take(k) =~= header.take(k));
        lemma_column_index_extends(header.drop_last(), name, k);
    }
}

/// Where a name is found, it stands, and it does not stand before.
pub proof fn lemma_column_index_found(header: Seq<Seq<char>>, name: Seq<char>)
    ensures
        match column_index(header, name) {
            Some(i) => 0 <= i < header.len() && header[i] == name && forall|j: int|
                0 <= j < i ==> header[j] != name,
            None => forall|j: int| 0 <= j < header.len() ==> header[j] != name,
        },
    decreases header.len(),
{
    if header.len() > 0 {
        let init = header.drop_last();
        lemma_column_index_found(init, name);
        assert(forall|j: int| 0 <= j < init.len() ==> init[j] == header[j]);
    }
}

/// The text of column `c` of the schema in `row`, where `header` names that
/// column and the row reaches it.
pub open spec fn cell(header: Seq<Seq<char>>, row: Seq<Seq<char>>, c: int) -> Option<Seq<char>> {
    match column_index(header, column_name(c)) {
        Some(i) => if i < row.len() {
            Some(row[i])
        } else {
            None
        },
        None => None,
    }
}

/// The text of a required column in `row`.
pub open spec fn required_text(header: Seq<Seq<char>>, row: Seq<Seq<char>>, c: int) -> Seq<char> {
    match cell(header, row, c) {
        Some(text) => text,
        None => Seq::empty(),
    }
}

/// The value of an optional column in `row`: none where the header does not
/// name the column or the field is blank.
pub open spec fn optional_text(header: Seq<Seq<char>>, row: Seq<Seq<char>>, c: int) -> Option<
    Seq<char>,
> {
    match cell(header, row, c) {
        Some(text) => if text.len() > 0 {
            Some(text)
        } else {
            None
        },
        None => None,
    }
}

/// What is wrong with required column `c` of the header, if anything.
pub open spec fn column_fault(header: Seq<Seq<char>>, c: int) -> Option<ParseError> {
    if column_index(header, column_name(c)) is None {
        Some(ParseError { row: 0, column: c as usize, kind: ParseErrorKind::MissingColumn })
    } else {
        None
    }
}

/// The first fault among the required columns from `c` on.
pub open spec fn columns_fault(header: Seq<Seq<char>>, c: int) -> Option<ParseError>
    decreases REQUIRED_COLUMNS - c,
{
    if c >= REQUIRED_COLUMNS {
        None
    } else {
        match column_fault(header, c) {
            Some(e) => Some(e),
            None => columns_fault(header, c + 1),
        }
    }
}

/// What is wrong with the header row, if anything: the first required column,
/// in the order of the schema, that it does not name.
pub open spec fn header_fault(header: Seq<Seq<char>>) -> Option<ParseError> {
    columns_fault(header, 0)
}

/// What is wrong with required column `c` in row `r`, if anything.
pub open spec fn field_fault(header: Seq<Seq<char>>, row: Seq<Seq<char>>, r: int, c: int) -> Option<
    ParseError,
> {
    match column_index(header, column_name(c)) {
        Some(i) => if required_text(header, row, c).len() == 0 {
            Some(ParseError { row: r as usize, column: i as usize, kind: ParseErrorKind::MissingField })
        } else if c == 0 && parse_number(required_text(header, row, c)) is None {
            Some(
                ParseError { row: r as usize, column: i as usize, kind: ParseErrorKind::InvalidNumber },
            )
        } else {
            None
        },
        None => None,
    }
}

/// The first fault among the required fields of row `r` from column `c` on.
pub open spec fn fields_fault(header: Seq<Seq<char>>, row: Seq<Seq<char>>, r: int, c: int) -> Option<
    ParseError,
>
    decreases REQUIRED_COLUMNS - c,
{
    if c >= REQUIRED_COLUMNS {
        None
    } else {
        match field_fault(header, row, r, c) {
            Some(e) => Some(e),
            None => fields_fault(header, row, r, c + 1),
        }
    }
}

/// What is wrong with row `r`, if anything. A row that has more or fewer
/// fields than the header is faulty at the first position that only one of
/// the two has; otherwise the first faulty required field decides.
pub open spec fn row_fault(header: Seq<Seq<char>>, row: Seq<Seq<char>>, r: int) -> Option<ParseError> {
    if row.len() != header.len() {
        Some(
            ParseError {
                row: r as usize,
                column: (if row.len() < header.len() {
                    row.len()
                } else {
                    header.len()
                }) as usize,
                kind: ParseErrorKind::UnequalLengths,
            },
        )
    } else {
        fields_fault(header, row, r, 0)
    }
}

/// The fault of the first faulty row from row `from` on.
pub open spec fn rows_fault(rows: Seq<Seq<Seq<char>>>, from: int) -> Option<ParseError>
    decreases rows.len() - from,
{
    if from < 1 || from >= rows.len() {
        None
    } else {
        match row_fault(rows[0], rows[from], from) {
            Some(e) => Some(e),
            None => rows_fault(rows, from + 1),
        }
    }
}

/// The record that a row without fault encodes under `header`.
pub open spec fn record_of_row(header: Seq<Seq<char>>, row: Seq<Seq<char>>) -> RecordView {
    RecordView {
        num: match parse_number(required_text(header, row, 0)) {
            Some(n) => n,
            None => 0,
        },
        domain_name: required_text(header, row, 1),
        domain_keyword: required_text(header, row, 2),
        domain_tld: required_text(header, row, 3),
        query_time: required_text(header, row, 4),
        create_date: optional_text(header, row, 5),
        update_date: optional_text(header, row, 6),
        expiry_date: optional_text(header, row, 7),
        registrar_iana: optional_text(header, row, 8),
        registrar_name: optional_text(header, row, 9),
        registrar_website: optional_text(header, row, 10),
        registrant_name: optional_text(header, row, 11),
        registrant_company: optional_text(header, row, 12),
        registrant_address: optional_text(header, row, 13),
        registrant_city: optional_text(header, row, 14),
        registrant_state: optional_text(header, row, 15),
        registrant_zip: optional_text(header, row, 16),
        registrant_country: optional_text(header, row, 17),
        registrant_phone: optional_text(header, row, 18),
        registrant_fax: optional_text(header, row, 19),
        registrant_email: optional_text(header, row, 20),
        name_servers: optional_text(header, row, 21),
    }
}

/// The records that a table of rows encodes, the first row being the header.
///
/// No rows at all encode no records. Otherwise the header must name every
/// required column and every later row must be free of fault; the first
/// fault, header first and then row by row, is the error.
pub open spec fn parse_rows(rows: Seq<Seq<Seq<char>>>) -> Result<Seq<RecordView>, ParseError> {
    if rows.len() == 0 {
        Ok(Seq::empty())
    } else {
        match header_fault(rows[0]) {
            Some(e) => Err(e),
            None => match rows_fault(rows, 1) {
                Some(e) => Err(e),
                None => Ok(
                    Seq::new((rows.len() - 1) as nat, |k: int| record_of_row(rows[0], rows[k + 1])),
                ),
            },
        }
    }
}

/// Rows that are free of fault up to row `r` leave the first fault to the rows from `r` on.
proof fn lemma_rows_fault_skips(rows: Seq<Seq<Seq<char>>>, from: int, r: int)
    requires
        1 <= from <= r <= rows.len(),
        forall|k: int| from <= k < r ==> row_fault(rows[0], #[trigger] rows[k], k) is None,
    ensures
        rows_fault(rows, from) == rows_fault(rows, r),
    decreases r - from,
{
    if from < r {
        lemma_rows_fault_skips(rows, from + 1, r);
    }
}

/// A header without fault names every required column.
proof fn lemma_header_names_required(header: Seq<Seq<char>>)
    requires
        header_fault(header) is None,
    ensures
        forall|k: int| 0 <= k < REQUIRED_COLUMNS ==> column_index(header, column_name(k)) is Some,
{
    reveal_with_fuel(columns_fault, 6);
}

/// Where no row from `from` on is at fault, none of them is.
pub proof fn lemma_rows_without_fault(rows: Seq<Seq<Seq<char>>>, from: int, r: int)
    requires
        1 <= from <= r < rows.len(),
        rows_fault(rows, from) is None,
    ensures
        row_fault(rows[0], rows[r], r) is None,
    decreases r - from,
{
    if from < r {
        lemma_rows_without_fault(rows, from + 1, r);
    }
}

/// Every record that is read is well-formed: it has a domain name, a
/// keyword, a top-level domain and a query time, and what is blank in the
/// source is "no value" in the record.
pub proof fn lemma_parsed_records_well_formed(rows: Seq<Seq<Seq<char>>>, k: int)
    requires
        parse_rows(rows) is Ok,
        0 <= k < parse_rows(rows)->Ok_0.len(),
    ensures
        parse_rows(rows)->Ok_0[k].well_formed(),
{
    let header = rows[0];
    let row = rows[k + 1];
    lemma_rows_without_fault(rows, 1, k + 1);
    reveal_with_fuel(columns_fault, 6);
    reveal_with_fuel(fields_fault, 6);
    let record = record_of_row(header, row);
    assert(parse_rows(rows)->Ok_0[k] == record);
    assert(record.create_date != Some(Seq::<char>::empty()));
    assert(record.update_date != Some(Seq::<char>::empty()));
    assert(record.expiry_date != Some(Seq::<char>::empty()));
    assert(record.registrar_iana != Some(Seq::<char>::empty()));
    assert(record.registrar_name != Some(Seq::<char>::empty()));
    assert(record.registrar_website != Some(Seq::<char>::empty()));
    assert(record.registrant_name != Some(Seq::<char>::empty()));
    assert(record.registrant_company != Some(Seq::<char>::empty()));
    assert(record.registrant_address != Some(Seq::<char>::empty()));
    assert(record.registrant_city != Some(Seq::<char>::empty()));
    assert(record.registrant_state != Some(Seq::<char>::empty()));
    assert(record.registrant_zip != Some(Seq::<char>::empty()));
    assert(record.registrant_country != Some(Seq::<char>::empty()));
    assert(record.registrant_phone != Some(Seq::<char>::empty()));
    assert(record.registrant_fax != Some(Seq::<char>::empty()));
    assert(record.registrant_email != Some(Seq::<char>::empty()));
    assert(record.name_servers != Some(Seq::<char>::empty()));
}

/// Whether `columns` holds, for each column of the schema, where `header` names it.
pub open spec fn locates(columns: Seq<Option<usize>>, header: Seq<Seq<char>>) -> bool {
    &&& columns.len() == COLUMN_COUNT
    &&& forall|c: int|
        0 <= c < COLUMN_COUNT ==> match #[trigger] columns[c] {
            Some(i) => column_index(header, column_name(c)) == Some(i as int),
            None => column_index(header, column_name(c)) is None,
        }
}

/// Finds the first field of `header` that is `name`.
fn find_column(header: &Vec<String>, name: &str) -> (found: Option<usize>)
    ensures
        match found {
            Some(i) => column_index(header.deep_view(), name@) == Some(i as int),
            None => column_index(header.deep_view(), name@) is None,
        },
{
    let wanted = name.to_owned();
    let ghost fields = header.deep_view();
    let mut i: usize = 0;
    while i < header.len()
        invariant
            i <= header.len(),
            fields == header.deep_view(),
            wanted@ == name@,
            column_index(fields.take(i as int), name@) is None,
        decreases header.len() - i,
    {
        assert(fields.take(i + 1).drop_last() =~= fields.take(i as int));
        assert(fields.take(i + 1).last() == header[i as int]@);
        if header[i].eq(&wanted) {
            proof {
                lemma_column_index_extends(fields, name@, i + 1);
            }
            return Some(i);
        }
        i += 1;
    }
    assert(fields.take(i as int) =~= fields);
    None
}

/// Finds every column of the schema in `header`.
fn locate_columns(header: &Vec<String>) -> (columns: Vec<Option<usize>>)
    ensures
        locates(columns@, header.deep_view()),
{
    let mut columns: Vec<Option<usize>> = Vec::new();
    let mut c: usize = 0;
    while c < COLUMN_COUNT
        invariant
            c <= COLUMN_COUNT,
            columns@.len() == c,
            forall|k: int|
                0 <= k < c ==> match #[trigger] columns@[k] {
                    Some(i) => column_index(header.deep_view(), column_name(k)) == Some(i as int),
                    None => column_index(header.deep_view(), column_name(k)) is None,
                },
        decreases COLUMN_COUNT - c,
    {
        let found = find_column(header, column(c));
        columns.push(found);
        c += 1;
    }
    columns
}

/// The text of a required column of `row`.
fn required_field(
    row: &Vec<String>,
    columns: &Vec<Option<usize>>,
    c: usize,
    Ghost(header): Ghost<Seq<Seq<char>>>,
) -> (text: String)
    requires
        locates(columns@, header),
        c < COLUMN_COUNT,
        row.len() == header.len(),
    ensures
        text@ == required_text(header, row.deep_view(), c as int),
{
    proof {
        lemma_column_index_found(header, column_name(c as int));
    }
    match columns[c] {
        Some(i) => row[i].clone(),
        None => String::new(),
    }
}

/// The value of an optional column of `row`.
fn optional_field(
    row: &Vec<String>,
    columns: &Vec<Option<usize>>,
    c: usize,
    Ghost(header): Ghost<Seq<Seq<char>>>,
) -> (value: Option<String>)
    requires
        locates(columns@, header),
        c < COLUMN_COUNT,
        row.len() == header.len(),
    ensures
        value.deep_view() == optional_text(header, row.deep_view(), c as int),
{
    proof {
        lemma_column_index_found(header, column_name(c as int));
    }
    match columns[c] {
        Some(i) => {
            if row[i].as_str().is_empty() {
                None
            } else {
                Some(row[i].clone())
            }
        },
        None => None,
    }
}

/// Checks the required fields of row `r` and reads its sequence number.
fn check_row(
    row: &Vec<String>,
    columns: &Vec<Option<usize>>,
    width: usize,
    r: usize,
    Ghost(header): Ghost<Seq<Seq<char>>>,
) -> (checked: Result<u32, ParseError>)
    requires
        locates(columns@, header),
        header_fault(header) is None,
        width == header.len(),
    ensures
        match checked {
            Ok(num) => row_fault(header, row.deep_view(), r as int) is None && parse_number(
                required_text(header, row.deep_view(), 0),
            ) == Some(num),
            Err(e) => row_fault(header, row.deep_view(), r as int) == Some(e),
        },
{
    let ghost fields = row.deep_view();
    proof {
        lemma_header_names_required(header);
        reveal_with_fuel(fields_fault, 6);
    }
    if row.len() != width {
        let column = if row.len() < width {
            row.len()
        } else {
            width
        };
        return Err(ParseError { row: r, column, kind: ParseErrorKind::UnequalLengths });
    }
    let mut num: u32 = 0;
    let mut c: usize = 0;
    while c < REQUIRED_COLUMNS
        invariant
            c <= REQUIRED_COLUMNS,
            locates(columns@, header),
            header_fault(header) is None,
            fields == row.deep_view(),
            row.len() == header.len(),
            forall|k: int| 0 <= k < REQUIRED_COLUMNS ==> column_index(header, column_name(k)) is Some,
            fields_fault(header, fields, r as int, 0) == fields_fault(header, fields, r as int, c as int),
            c > 0 ==> parse_number(required_text(header, fields, 0)) == Some(num),
        decreases REQUIRED_COLUMNS - c,
    {
        proof {
            lemma_column_index_found(header, column_name(c as int));
        }
        match columns[c] {
            Some(i) => {
                let text = row[i].as_str();
                assert(text@ == required_text(header, fields, c as int));
                if text.is_empty() {
                    return Err(ParseError { row: r, column: i, kind: ParseErrorKind::MissingField });
                }
                if c == 0 {
                    match parse_u32(text) {
                        Some(n) => {
                            num = n;
                        },
                        None => {
                            return Err(
                                ParseError { row: r, column: i, kind: ParseErrorKind::InvalidNumber },
                            );
                        },
                    }
                }
            },
            None => {},
        }
        c += 1;
    }
    Ok(num)
}

/// Makes the record that a checked row encodes.
fn build_record(
    row: &Vec<String>,
    columns: &Vec<Option<usize>>,
    num: u32,
    Ghost(header): Ghost<Seq<Seq<char>>>,
) -> (record: WhoIsRecord)
    requires
        locates(columns@, header),
        row.len() == header.len(),
        parse_number(required_text(header, row.deep_view(), 0)) == Some(num),
    ensures
        record@ == record_of_row(header, row.deep_view()),
{
    WhoIsRecord {
        num,
        domain_name: required_field(row, columns, 1, Ghost(header)),
        domain_keyword: required_field(row, columns, 2, Ghost(header)),
        domain_tld: required_field(row, columns, 3, Ghost(header)),
        query_time: required_field(row, columns, 4, Ghost(header)),
        create_date: optional_field(row, columns, 5, Ghost(header)),
        update_date: optional_field(row, columns, 6, Ghost(header)),
        expiry_date: optional_field(row, columns, 7, Ghost(header)),
        registrar_iana: optional_field(row, columns, 8, Ghost(header)),
        registrar_name: optional_field(row, columns, 9, Ghost(header)),
        registrar_website: optional_field(row, columns, 10, Ghost(header)),
        registrant_name: optional_field(row, columns, 11, Ghost(header)),
        registrant_company: optional_field(row, columns, 12, Ghost(header)),
        registrant_address: optional_field(row, columns, 13, Ghost(header)),
        registrant_city: optional_field(row, columns, 14, Ghost(header)),
        registrant_state: optional_field(row, columns, 15, Ghost(header)),
        registrant_zip: optional_field(row, columns, 16, Ghost(header)),
        registrant_country: optional_field(row, columns, 17, Ghost(header)),
        registrant_phone: optional_field(row, columns, 18, Ghost(header)),
        registrant_fax: optional_field(row, columns, 19, Ghost(header)),
        registrant_email: optional_field(row, columns, 20, Ghost(header)),
        name_servers: optional_field(row, columns, 21, Ghost(header)),
    }
}

/// Whether `result` is what `expected` says in mathematical values.
pub open spec fn reads_as(
    result: Result<Vec<WhoIsRecord>, Error>,
    expected: Result<Seq<RecordView>, ParseError>,
) -> bool {
    match expected {
        Ok(views) => result matches Ok(records) && records.deep_view() == views,
        Err(e) => result matches Err(error) && error == Error::Parse(e),
    }
}

/// The first required column that `header` does not name, as an error.
fn check_header(columns: &Vec<Option<usize>>, Ghost(header): Ghost<Seq<Seq<char>>>) -> (checked:
    Result<(), ParseError>)
    requires
        locates(columns@, header),
    ensures
        match checked {
            Ok(_) => header_fault(header) is None,
            Err(e) => header_fault(header) == Some(e),
        },
{
    proof {
        reveal_with_fuel(columns_fault, 6);
    }
    let mut c: usize = 0;
    while c < REQUIRED_COLUMNS
        invariant
            c <= REQUIRED_COLUMNS,
            locates(columns@, header),
            columns_fault(header, 0) == columns_fault(header, c as int),
        decreases REQUIRED_COLUMNS - c,
    {
        if columns[c].is_none() {
            return Err(ParseError { row: 0, column: c, kind: ParseErrorKind::MissingColumn });
        }
        c += 1;
    }
    Ok(())
}

impl WhoIsRecord {
    /// Reads the records that a table of rows encodes, the first row being
    /// the header. Columns are found by the names in the header, so their
    /// order is free and columns that the schema does not know are passed over.
    pub fn from_rows(rows: &Vec<Vec<String>>) -> (result: Result<Vec<WhoIsRecord>, Error>)
        ensures
            reads_as(result, parse_rows(rows.deep_view())),
    {
        let ghost table = rows.deep_view();
        let mut records: Vec<WhoIsRecord> = Vec::new();
        if rows.len() == 0 {
            assert(records.deep_view() =~= Seq::<RecordView>::empty());
            return Ok(records);
        }
        let header = &rows[0];
        let ghost names = header.deep_view();
        assert(names == table[0]);
        let columns = locate_columns(header);
        match check_header(&columns, Ghost(names)) {
            Ok(_) => {},
            Err(e) => {
                return Err(Error::Parse(e));
            },
        }
        let width = header.len();
        let mut r: usize = 1;
        while r < rows.len()
            invariant
                1 <= r <= rows.len(),
                table == rows.deep_view(),
                names == table[0],
                width == names.len(),
                locates(columns@, names),
                header_fault(names) is None,
                forall|k: int| 1 <= k < r ==> row_fault(names, #[trigger] table[k], k) is None,
                records.deep_view() =~= Seq::new(
                    (r - 1) as nat,
                    |k: int| record_of_row(names, table[k + 1]),
                ),
            decreases rows.len() - r,
        {
            let row = &rows[r];
            assert(row.deep_view() == table[r as int]);
            match check_row(row, &columns, width, r, Ghost(names)) {
                Ok(num) => {
                    let record = build_record(row, &columns, num, Ghost(names));
                    let ghost before = records.deep_view();
                    records.push(record);
                    assert(records.deep_view() =~= before.push(record@));
                },
                Err(e) => {
                    proof {
                        lemma_rows_fault_skips(table, 1, r as int);
                    }
                    return Err(Error::Parse(e));
                },
            }
            r += 1;
        }
        proof {
            lemma_rows_fault_skips(table, 1, r as int);
        }
        Ok(records)
    }

    /// Reads the records that a text buffer encodes: delimited text with one
    /// header row naming the columns, then one row per record.
    pub fn from_buffer(buffer: &str) -> (result: Result<Vec<WhoIsRecord>, Error>)
        ensures
            reads_as(result, parse_text(buffer@)),
    {
        match read_rows(buffer) {
            Some(rows) => WhoIsRecord::from_rows(&rows),
            None => Err(
                Error::Parse(ParseError { row: 0, column: 0, kind: ParseErrorKind::Malformed }),
            ),
        }
    }
}

/// The records that a text buffer encodes.
pub open spec fn parse_text(text: Seq<char>) -> Result<Seq<RecordView>, ParseError> {
    match csv_rows(text) {
        Some(rows) => parse_rows(rows),
        None => Err(ParseError { row: 0, column: 0, kind: ParseErrorKind::Malformed }),
    }
}

/// A copy of an optional text.
fn copy_text(value: &Option<String>) -> (copy: Option<String>)
    ensures
        copy.deep_view() == value.deep_view(),
{
    match value {
        Some(text) => Some(text.clone()),
        None => None,
    }
}

impl WhoIsRecord {
    /// A copy of the record.
    pub fn duplicate(&self) -> (copy: WhoIsRecord)
        ensures
            copy@ == self@,
    {
        WhoIsRecord {
            num: self.num,
            domain_name: self.domain_name.clone(),
            domain_keyword: self.domain_keyword.clone(),
            domain_tld: self.domain_tld.clone(),
            query_time: self.query_time.clone(),
            create_date: copy_text(&self.create_date),
            update_date: copy_text(&self.update_date),
            expiry_date: copy_text(&self.expiry_date),
            registrar_iana: copy_text(&self.registrar_iana),
            registrar_name: copy_text(&self.registrar_name),
            registrar_website: copy_text(&self.registrar_website),
            registrant_name: copy_text(&self.registrant_name),
            registrant_company: copy_text(&self.registrant_company),
            registrant_address: copy_text(&self.registrant_address),
            registrant_city: copy_text(&self.registrant_city),
            registrant_state: copy_text(&self.registrant_state),
            registrant_zip: copy_text(&self.registrant_zip),
            registrant_country: copy_text(&self.registrant_country),
            registrant_phone: copy_text(&self.registrant_phone),
            registrant_fax: copy_text(&self.registrant_fax),
            registrant_email: copy_text(&self.registrant_email),
            name_servers: copy_text(&self.name_servers),
        }
    }
}

} // verus!
