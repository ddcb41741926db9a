//! Records as text for a reader.

use crate::text::{decimal, decimal_text};
use crate::whois::{RecordView, WhoIsRecord};
use vstd::prelude::*;
use vstd::string::*;

verus! {

/// An optional text as the standard `Debug` format writes it: `None`, or
/// `Some` with the text in quotes and its special characters escaped.
pub uninterp spec fn debug_text(value: Option<Seq<char>>) -> Seq<char>;

/// The record, one attribute to a line: each line begins with a blank and
/// the attribute's name; the sequence number and the required attributes
/// stand as they are, the optional ones as [`debug_text`] writes them.
pub open spec fn description(r: RecordView) -> Seq<char> {
    " num: "@ + decimal_text(r.num as nat)
        + "\n domain_name: "@ + r.domain_name
        + "\n domain_keyword: "@ + r.domain_keyword
        + "\n domain_tld: "@ + r.domain_tld
        + "\n query_time: "@ + r.query_time
        + "\n create_date: "@ + debug_text(r.create_date)
        + "\n update_date: "@ + debug_text(r.update_date)
        + "\n expiry_date: "@ + debug_text(r.expiry_date)
        + "\n registrar_iana: "@ + debug_text(r.registrar_iana)
        + "\n registrar_name: "@ + debug_text(r.registrar_name)
        + "\n registrar_website: "@ + debug_text(r.registrar_website)
        + "\n registrant_name: "@ + debug_text(r.registrant_name)
        + "\n registrant_company: "@ + debug_text(r.registrant_company)
        + "\n registrant_address: "@ + debug_text(r.registrant_address)
        + "\n registrant_city: "@ + debug_text(r.registrant_city)
        + "\n registrant_state: "@ + debug_text(r.registrant_state)
        + "\n registrant_zip: "@ + debug_text(r.registrant_zip)
        + "\n registrant_country: "@ + debug_text(r.registrant_country)
        + "\n registrant_phone: "@ + debug_text(r.registrant_phone)
        + "\n registrant_fax: "@ + debug_text(r.registrant_fax)
        + "\n registrant_email: "@ + debug_text(r.registrant_email)
        + "\n name_servers: "@ + debug_text(r.name_servers)
}

/// Whether the record has an optional attribute without a value.
pub open spec fn has_missing(r: RecordView) -> bool {
    ||| r.create_date is None
    ||| r.update_date is None
    ||| r.expiry_date is None
    ||| r.registrar_iana is None
    ||| r.registrar_name is None
    ||| r.registrar_website is None
    ||| r.registrant_name is None
    ||| r.registrant_company is None
    ||| r.registrant_address is None
    ||| r.registrant_city is None
    ||| r.registrant_state is None
    ||| r.registrant_zip is None
    ||| r.registrant_country is None
    ||| r.registrant_phone is None
    ||| r.registrant_fax is None
    ||| r.registrant_email is None
    ||| r.name_servers is None
}

impl WhoIsRecord {
    /// Writes the record out, one attribute to a line. An optional
    /// attribute without a value is written `None`.
    pub fn describe(&self) -> (text: String)
        ensures
            text@ == description(self@),
            has_missing(self@) ==> debug_text(None::<Seq<char>>) == "None"@,
    {
        let mut text = " num: ".to_owned();
        text.append(decimal(self.num).as_str());
        text.append("\n domain_name: ");
        text.append(self.domain_name.as_str());
        text.append("\n domain_keyword: ");
        text.append(self.domain_keyword.as_str());
        text.append("\n domain_tld: ");
        text.append(self.domain_tld.as_str());
        text.append("\n query_time: ");
        text.append(self.query_time.as_str());
        text.append("\n create_date: ");
        text.append(debug_format(&self.create_date).as_str());
        text.append("\n update_date: ");
        text.append(debug_format(&self.update_date).as_str());
        text.append("\n expiry_date: ");
        text.append(debug_format(&self.expiry_date).as_str());
        text.append("\n registrar_iana: ");
        text.append(debug_format(&self.registrar_iana).as_str());
        text.append("\n registrar_name: ");
        text.append(debug_format(&self.registrar_name).as_str());
        text.append("\n registrar_website: ");
        text.append(debug_format(&self.registrar_website).as_str());
        text.append("\n registrant_name: ");
        text.append(debug_format(&self.registrant_name).as_str());
        text.append("\n registrant_company: ");
        text.append(debug_format(&self.registrant_company).as_str());
        text.append("\n registrant_address: ");
        text.append(debug_format(&self.registrant_address).as_str());
        text.append("\n registrant_city: ");
        text.append(debug_format(&self.registrant_city).as_str());
        text.append("\n registrant_state: ");
        text.append(debug_format(&self.registrant_state).as_str());
        text.append("\n registrant_zip: ");
        text.append(debug_format(&self.registrant_zip).as_str());
        text.append("\n registrant_country: ");
        text.append(debug_format(&self.registrant_country).as_str());
        text.append("\n registrant_phone: ");
        text.append(debug_format(&self.registrant_phone).as_str());
        text.append("\n registrant_fax: ");
        text.append(debug_format(&self.registrant_fax).as_str());
        text.append("\n registrant_email: ");
        text.append(debug_format(&self.registrant_email).as_str());
        text.append("\n name_servers: ");
        text.append(debug_format(&self.name_servers).as_str());
        text
    }
}

/// Writes an optional text with `format!` in the `Debug` format. The
/// contract gives the outcome its name, and says of it what the format
/// says of a missing text: it is written `None`.
#[verifier::external_body]
fn debug_format(value: &Option<String>) -> (text: String)
    ensures
        text@ == debug_text(value.deep_view()),
        value is None ==> text@ == "None"@,
{
    format!("{:?}", value)
}

} // verus!
