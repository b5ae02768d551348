use vstd::prelude::*;
use crate::text::{value_after_colon, value_of};

verus! {

#[verifier::external_type_specification]
#[verifier::external_body]
pub struct ExParseError(chrono::ParseError);

/// An instant in UTC: whole seconds since the Unix epoch and the nanoseconds past that second.
#[derive(Debug, Clone, Copy, PartialEq, Eq, Structural)]
pub struct Timestamp {
    pub secs: i64,
    pub nanos: u32,
}

impl Timestamp {
    pub fn new(secs: i64, nanos: u32) -> (t: Timestamp)
        ensures
            t.secs == secs,
            t.nanos == nanos,
    {
        Timestamp { secs, nanos }
    }
}

/// The registration data of a domain name, as a WHOIS server reports it.
#[derive(Debug)]
pub struct WhoisData {
    pub domain_name: String,
    pub status: String,
    pub registrar: String,
    pub registrant: String,
    pub creation_date: Timestamp,
    pub expiration_date: Timestamp,
    pub last_update_date: Timestamp,
}

/// The abstract content of a `WhoisData`.
pub struct WhoisRecord {
    pub domain_name: Seq<char>,
    pub status: Seq<char>,
    pub registrar: Seq<char>,
    pub registrant: Seq<char>,
    pub creation_date: Timestamp,
    pub expiration_date: Timestamp,
    pub last_update_date: Timestamp,
}

impl View for WhoisData {
    type V = WhoisRecord;

    open spec fn view(&self) -> WhoisRecord {
        WhoisRecord {
            domain_name: self.domain_name@,
            status: self.status@,
            registrar: self.registrar@,
            registrant: self.registrant@,
            creation_date: self.creation_date,
            expiration_date: self.expiration_date,
            last_update_date: self.last_update_date,
        }
    }
}

/// Why a WHOIS response could not be turned into a `WhoisData`.
#[derive(Debug)]
pub enum WhoisError {
    TooManyRequests,
    ElementNotFound(&'static str),
    DateTimeParseError(chrono::ParseError),
    UnsupportedTldn,
}

impl From<chrono::ParseError> for WhoisError {
    fn from(e: chrono::ParseError) -> (r: Self) {
        WhoisError::DateTimeParseError(e)
    }
}

impl vstd::std_specs::convert::FromSpecImpl<chrono::ParseError> for WhoisError {
    open spec fn obeys_from_spec() -> bool {
        true
    }

    open spec fn from_spec(e: chrono::ParseError) -> WhoisError {
        WhoisError::DateTimeParseError(e)
    }
}

/// What reading a WHOIS response comes to, in the abstract.
pub enum ParseOutcome {
    TooManyRequests,
    NoEntries,
    BadDate,
    Missing(Seq<char>),
    UnsupportedTld,
    Found(WhoisRecord),
}

/// The outcome that a parse result stands for.
pub open spec fn outcome_of(r: Result<Option<WhoisData>, WhoisError>) -> ParseOutcome {
    match r {
        Ok(None) => ParseOutcome::NoEntries,
        Ok(Some(d)) => ParseOutcome::Found(d@),
        Err(WhoisError::TooManyRequests) => ParseOutcome::TooManyRequests,
        Err(WhoisError::ElementNotFound(name)) => ParseOutcome::Missing(name@),
        Err(WhoisError::DateTimeParseError(_)) => ParseOutcome::BadDate,
        Err(WhoisError::UnsupportedTldn) => ParseOutcome::UnsupportedTld,
    }
}

/// What chrono's `DateTime<Utc>` parser makes of `s`: the instant as (seconds since the
/// epoch, nanoseconds), or `None` when `s` is not a date it accepts.
pub uninterp spec fn parsed_utc_datetime(s: Seq<char>) -> Option<(i64, u32)>;

/// `s.parse::<DateTime<Utc>>()` from chrono (`<DateTime<Utc> as FromStr>::from_str`),
/// with the parsed instant handed back as its seconds and nanoseconds since the epoch.
/// Claimed: the result is `Ok` exactly when `parsed_utc_datetime(s)` is `Some`, and then holds
/// that instant. What chrono accepts and what instant it reads are left to that name.
#[verifier::external_body]
fn parse_utc_datetime(s: &str) -> (r: Result<Timestamp, chrono::ParseError>)
    ensures
        match r {
            Ok(t) => parsed_utc_datetime(s@) == Some((t.secs, t.nanos)),
            Err(_) => parsed_utc_datetime(s@) is None,
        },
{
    match s.parse::<chrono::DateTime<chrono::Utc>>() {
        Ok(d) => Ok(Timestamp { secs: d.timestamp(), nanos: d.timestamp_subsec_nanos() }),
        Err(e) => Err(e),
    }
}

/// The instant that the value of a `key: value` line reads as, if it is a date.
pub open spec fn date_of(line: Seq<char>) -> Option<Timestamp> {
    match parsed_utc_datetime(value_of(line)) {
        Some(p) => Some(Timestamp { secs: p.0, nanos: p.1 }),
        None => None,
    }
}

/// The value of a `key: value` line: what follows the first `:`, trimmed.
pub fn extract_string_value(line: &str) -> (r: String)
    requires
        line@.contains(':'),
    ensures
        r@ == value_of(line@),
{
    value_after_colon(line)
}

/// The value of a `key: value` line read as a UTC date.
pub fn extract_datetime_value(line: &str) -> (r: Result<Timestamp, chrono::ParseError>)
    requires
        line@.contains(':'),
    ensures
        match r {
            Ok(t) => date_of(line@) == Some(t),
            Err(_) => date_of(line@) is None,
        },
{
    let value = extract_string_value(line);
    parse_utc_datetime(value.as_str())
}

/// The values found so far while reading a response, each slot empty until its line is seen.
pub struct Fields {
    pub domain_name: Option<Seq<char>>,
    pub status: Option<Seq<char>>,
    pub registrar: Option<Seq<char>>,
    pub registrant: Option<Seq<char>>,
    pub creation_date: Option<Timestamp>,
    pub expiration_date: Option<Timestamp>,
    pub last_update_date: Option<Timestamp>,
}

/// No value found yet.
pub open spec fn no_fields() -> Fields {
    Fields {
        domain_name: None,
        status: None,
        registrar: None,
        registrant: None,
        creation_date: None,
        expiration_date: None,
        last_update_date: None,
    }
}

/// The name under which a response format reports each missing value.
pub struct Labels {
    pub domain_name: Seq<char>,
    pub status: Seq<char>,
    pub registrar: Seq<char>,
    pub registrant: Seq<char>,
    pub creation_date: Seq<char>,
    pub expiration_date: Seq<char>,
    pub last_update_date: Seq<char>,
}

/// The record that the collected values make, or the first missing one in the order of the
/// record's fields.
pub open spec fn assemble(f: Fields, n: Labels) -> ParseOutcome {
    if f.domain_name is None {
        ParseOutcome::Missing(n.domain_name)
    } else if f.status is None {
        ParseOutcome::Missing(n.status)
    } else if f.registrar is None {
        ParseOutcome::Missing(n.registrar)
    } else if f.registrant is None {
        ParseOutcome::Missing(n.registrant)
    } else if f.creation_date is None {
        ParseOutcome::Missing(n.creation_date)
    } else if f.expiration_date is None {
        ParseOutcome::Missing(n.expiration_date)
    } else if f.last_update_date is None {
        ParseOutcome::Missing(n.last_update_date)
    } else {
        ParseOutcome::Found(
            WhoisRecord {
                domain_name: f.domain_name->0,
                status: f.status->0,
                registrar: f.registrar->0,
                registrant: f.registrant->0,
                creation_date: f.creation_date->0,
                expiration_date: f.expiration_date->0,
                last_update_date: f.last_update_date->0,
            },
        )
    }
}

pub open spec fn opt_view(o: Option<String>) -> Option<Seq<char>> {
    match o {
        Some(s) => Some(s@),
        None => None,
    }
}

/// The values collected while reading a response.
pub struct CollectedFields {
    pub domain_name: Option<String>,
    pub status: Option<String>,
    pub registrar: Option<String>,
    pub registrant: Option<String>,
    pub creation_date: Option<Timestamp>,
    pub expiration_date: Option<Timestamp>,
    pub last_update_date: Option<Timestamp>,
}

impl View for CollectedFields {
    type V = Fields;

    open spec fn view(&self) -> Fields {
        Fields {
            domain_name: opt_view(self.domain_name),
            status: opt_view(self.status),
            registrar: opt_view(self.registrar),
            registrant: opt_view(self.registrant),
            creation_date: self.creation_date,
            expiration_date: self.expiration_date,
            last_update_date: self.last_update_date,
        }
    }
}

impl CollectedFields {
    pub fn new() -> (r: CollectedFields)
        ensures
            r@ == no_fields(),
    {
        CollectedFields {
            domain_name: None,
            status: None,
            registrar: None,
            registrant: None,
            creation_date: None,
            expiration_date: None,
            last_update_date: None,
        }
    }
}

/// The names under which a response format reports missing values.
pub struct FieldLabels {
    pub domain_name: &'static str,
    pub status: &'static str,
    pub registrar: &'static str,
    pub registrant: &'static str,
    pub creation_date: &'static str,
    pub expiration_date: &'static str,
    pub last_update_date: &'static str,
}

impl View for FieldLabels {
    type V = Labels;

    open spec fn view(&self) -> Labels {
        Labels {
            domain_name: self.domain_name@,
            status: self.status@,
            registrar: self.registrar@,
            registrant: self.registrant@,
            creation_date: self.creation_date@,
            expiration_date: self.expiration_date@,
            last_update_date: self.last_update_date@,
        }
    }
}

/// Turns the collected values into a record, or names the first one missing.
pub fn build_record(f: CollectedFields, n: &FieldLabels) -> (r: Result<Option<WhoisData>, WhoisError>)
    ensures
        outcome_of(r) == assemble(f@, n@),
{
    let domain_name = match f.domain_name {
        Some(v) => v,
        None => return Err(WhoisError::ElementNotFound(n.domain_name)),
    };
    let status = match f.status {
        Some(v) => v,
        None => return Err(WhoisError::ElementNotFound(n.status)),
    };
    let registrar = match f.registrar {
        Some(v) => v,
        None => return Err(WhoisError::ElementNotFound(n.registrar)),
    };
    let registrant = match f.registrant {
        Some(v) => v,
        None => return Err(WhoisError::ElementNotFound(n.registrant)),
    };
    let creation_date = match f.creation_date {
        Some(v) => v,
        None => return Err(WhoisError::ElementNotFound(n.creation_date)),
    };
    let expiration_date = match f.expiration_date {
        Some(v) => v,
        None => return Err(WhoisError::ElementNotFound(n.expiration_date)),
    };
    let last_update_date = match f.last_update_date {
        Some(v) => v,
        None => return Err(WhoisError::ElementNotFound(n.last_update_date)),
    };
    Ok(
        Some(
            WhoisData {
                domain_name,
                status,
                registrar,
                registrant,
                creation_date,
                expiration_date,
                last_update_date,
            },
        ),
    )
}

/// `a` when it holds a value, else `b`.
pub open spec fn or_else<T>(a: Option<T>, b: Option<T>) -> Option<T> {
    match a {
        Some(v) => Some(v),
        None => b,
    }
}

/// The value of the last of the lines `ls` that begins with `key`, if one does.
pub open spec fn key_value(ls: Seq<Seq<char>>, key: Seq<char>) -> Option<Seq<char>>
    decreases ls.len(),
{
    if ls.len() == 0 {
        None
    } else {
        or_else(
            key_value(ls.drop_first(), key),
            if key.is_prefix_of(ls[0]) {
                Some(value_of(ls[0]))
            } else {
                None
            },
        )
    }
}

/// The date that the last of the lines `ls` beginning with `key` reads as, if one does.
pub open spec fn key_date(ls: Seq<Seq<char>>, key: Seq<char>) -> Option<Timestamp>
    decreases ls.len(),
{
    if ls.len() == 0 {
        None
    } else {
        or_else(
            key_date(ls.drop_first(), key),
            if key.is_prefix_of(ls[0]) {
                date_of(ls[0])
            } else {
                None
            },
        )
    }
}

/// The last line with a key, among one line, is that line when it has the key.
pub proof fn lemma_key_of_one_line(l: Seq<char>, key: Seq<char>)
    ensures
        key_value(seq![l], key) == (if key.is_prefix_of(l) {
            Some(value_of(l))
        } else {
            None
        }),
        key_date(seq![l], key) == (if key.is_prefix_of(l) {
            date_of(l)
        } else {
            None
        }),
{
    reveal_with_fuel(key_value, 2);
    reveal_with_fuel(key_date, 2);
    assert(seq![l].drop_first() =~= Seq::<Seq<char>>::empty());
    assert(seq![l][0] == l);
}

/// The record is found exactly when every value is; otherwise the missing value named is one
/// that is missing, and every value before it in the order of the record's fields is present.
pub proof fn lemma_assemble_first_missing(f: Fields, n: Labels)
    ensures
        assemble(f, n) is Found <==> (f.domain_name is Some && f.status is Some && f.registrar is Some
            && f.registrant is Some && f.creation_date is Some && f.expiration_date is Some
            && f.last_update_date is Some),
        assemble(f, n) == ParseOutcome::Missing(n.domain_name) <== f.domain_name is None,
        assemble(f, n) == ParseOutcome::Missing(n.status) <== f.domain_name is Some
            && f.status is None,
        assemble(f, n) == ParseOutcome::Missing(n.registrar) <== f.domain_name is Some
            && f.status is Some && f.registrar is None,
        assemble(f, n) == ParseOutcome::Missing(n.registrant) <== f.domain_name is Some
            && f.status is Some && f.registrar is Some && f.registrant is None,
        assemble(f, n) == ParseOutcome::Missing(n.creation_date) <== f.domain_name is Some
            && f.status is Some && f.registrar is Some && f.registrant is Some
            && f.creation_date is None,
        assemble(f, n) == ParseOutcome::Missing(n.expiration_date) <== f.domain_name is Some
            && f.status is Some && f.registrar is Some && f.registrant is Some
            && f.creation_date is Some && f.expiration_date is None,
        assemble(f, n) == ParseOutcome::Missing(n.last_update_date) <== f.domain_name is Some
            && f.status is Some && f.registrar is Some && f.registrant is Some
            && f.creation_date is Some && f.expiration_date is Some && f.last_update_date is None,
{
}

} // verus!
