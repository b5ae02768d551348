use vstd::prelude::*;
use crate::whois::{Timestamp, WhoisData};

verus! {

/// `chrono::Utc::now()`: the current time, as seconds and nanoseconds since the epoch.
/// Claimed: it is not before the epoch and its nanoseconds are under a second, as chrono builds
/// it from the system clock's duration since the epoch. Which instant it is depends on the
/// clock and is not claimed.
#[verifier::external_body]
fn current_utc_time() -> (r: Timestamp)
    ensures
        r.secs >= 0,
        r.nanos < 1_000_000_000,
{
    let now = chrono::Utc::now();
    Timestamp { secs: now.timestamp(), nanos: now.timestamp_subsec_nanos() }
}

/// The result of a WHOIS lookup and when it was made.
#[derive(Debug)]
pub struct WhoisLookup {
    pub date: Timestamp,
    pub whois_data: Option<WhoisData>,
}

impl WhoisLookup {
    /// A lookup made at `date` that found `whois_data`.
    pub fn at(date: Timestamp, whois_data: Option<WhoisData>) -> (r: WhoisLookup)
        ensures
            r.date == date,
            r.whois_data == whois_data,
    {
        WhoisLookup { date, whois_data }
    }

    /// A lookup made now that found `whois_data`: dated by the clock as it reads on the call.
    pub fn new(whois_data: Option<WhoisData>) -> (r: WhoisLookup)
        ensures
            r.whois_data == whois_data,
    {
        WhoisLookup::at(current_utc_time(), whois_data)
    }
}

/// A domain name of a candidate, with the last lookup made of it.
#[derive(Debug)]
pub struct DomainName {
    pub name: String,
    pub whois_lookup: Option<WhoisLookup>,
}

impl DomainName {
    /// Whether a lookup of the name has found registration data.
    pub fn has_whois_data(&self) -> (r: bool)
        ensures
            r == (self.whois_lookup matches Some(l) && l.whois_data is Some),
    {
        match &self.whois_lookup {
            Some(l) => l.whois_data.is_some(),
            None => false,
        }
    }
}

/// A candidate and the domain names that may be theirs.
#[derive(Debug)]
pub struct PotentialCandidate {
    pub id: [u8; 12],
    pub first_name: String,
    pub last_name: String,
    pub domain_names: Vec<DomainName>,
}

} // verus!
