use vstd::prelude::*;
use crate::afilias::{afilias_outcome, parse_afilias_response};
use crate::afnic::{afnic_outcome, parse_afnic_response};
use crate::fib::{fib, position_after_next, position_after_previous, FibonacciSequence};
use crate::text::{chars_of, ends_with};
use crate::whois::{outcome_of, ParseOutcome, WhoisData, WhoisError};

verus! {

#[verifier::external_type_specification]
#[verifier::external_body]
pub struct ExWhoIsLookupOptions(whois_rust::WhoIsLookupOptions);

#[verifier::external_type_specification]
#[verifier::external_body]
pub struct ExWhoIsError(whois_rust::WhoIsError);

/// Whether whois-rust accepts `domain_name` as the target of a lookup: a host name or an IP
/// address, without a port.
pub uninterp spec fn is_lookup_target(domain_name: Seq<char>) -> bool;

/// `whois_rust::WhoIsLookupOptions::from_str`: checks `domain_name` as a host and builds the
/// options of a lookup of it (default server choice, redirects and timeout). Claimed: it
/// succeeds exactly when `is_lookup_target(domain_name)` holds; which names those are is left
/// to that name, and nothing is claimed of the options built.
#[verifier::external_body]
fn whois_lookup_options(domain_name: &str) -> (r: Result<
    whois_rust::WhoIsLookupOptions,
    whois_rust::WhoIsError,
>)
    ensures
        r is Ok <==> is_lookup_target(domain_name@),
{
    whois_rust::WhoIsLookupOptions::from_str(domain_name)
}

/// The options of a WHOIS lookup of `domain_name`, or the error that says why it is no
/// target of a lookup.
pub fn lookup_options(domain_name: &str) -> (r: Result<
    whois_rust::WhoIsLookupOptions,
    whois_rust::WhoIsError,
>)
    ensures
        r is Ok <==> is_lookup_target(domain_name@),
{
    whois_lookup_options(domain_name)
}

/// What the WHOIS response for `domain_name` says: `.fr` names are answered in the AFNIC
/// format, `.info` names in the Afilias format, and no other ending is read.
pub open spec fn domain_outcome(domain_name: Seq<char>, response: Seq<char>) -> ParseOutcome {
    if ".fr"@.is_suffix_of(domain_name) {
        afnic_outcome(response)
    } else if ".info"@.is_suffix_of(domain_name) {
        afilias_outcome(response)
    } else {
        ParseOutcome::UnsupportedTld
    }
}

/// Reads the WHOIS `response` for `domain_name` in the format of its registry.
pub fn parse_response_for_domain(domain_name: &str, response: &str) -> (r: Result<
    Option<WhoisData>,
    WhoisError,
>)
    ensures
        outcome_of(r) == domain_outcome(domain_name@, response@),
        ".fr"@.is_suffix_of(domain_name@) ==> outcome_of(r) == afnic_outcome(response@),
        ".info"@.is_suffix_of(domain_name@) ==> outcome_of(r) == afilias_outcome(response@),
        !".fr"@.is_suffix_of(domain_name@) && !".info"@.is_suffix_of(domain_name@) ==> r matches Err(
            WhoisError::UnsupportedTldn,
        ),
{
    proof {
        lemma_registry_by_ending(domain_name@, response@);
    }
    let name = chars_of(domain_name);
    if ends_with(&name, ".fr") {
        parse_afnic_response(response)
    } else if ends_with(&name, ".info") {
        parse_afilias_response(response)
    } else {
        Err(WhoisError::UnsupportedTldn)
    }
}

/// What to do once a lookup of a domain name has come back.
#[derive(Debug, Clone, Copy, PartialEq, Eq, Structural)]
pub enum LookupStep {
    /// Store the result; the lookups of this name are done.
    Store,
    /// The server refused: wait longer and look the same name up again.
    Retry,
    /// Give the name up.
    Skip,
}

/// Decides what follows a lookup and adjusts the wait between lookups: a result shortens it
/// and is stored, a refusal for too many requests lengthens it and asks for a retry, any
/// other error gives the name up and leaves the wait as it is.
pub fn after_lookup(
    wait: &mut FibonacciSequence,
    result: &Result<Option<WhoisData>, WhoisError>,
) -> (step: LookupStep)
    requires
        result matches Err(WhoisError::TooManyRequests) ==> fib(old(wait).position() + 2)
            <= u64::MAX,
    ensures
        match result {
            Ok(_) => step == LookupStep::Store && final(wait).position() == position_after_previous(
                old(wait).position(),
            ),
            Err(WhoisError::TooManyRequests) => step == LookupStep::Retry && final(wait).position()
                == position_after_next(old(wait).position()),
            Err(_) => step == LookupStep::Skip && final(wait).position() == old(wait).position(),
        },
{
    match result {
        Ok(_) => {
            wait.previous();
            LookupStep::Store
        },
        Err(WhoisError::TooManyRequests) => {
            wait.next();
            LookupStep::Retry
        },
        Err(_) => LookupStep::Skip,
    }
}

/// Every name ending in `.fr` is read in the AFNIC format and every name ending in `.info` in
/// the Afilias format, whatever comes before that ending; a name with neither ending is not
/// read.
pub proof fn lemma_registry_by_ending(domain_name: Seq<char>, response: Seq<char>)
    ensures
        ".fr"@.is_suffix_of(domain_name) ==> domain_outcome(domain_name, response) == afnic_outcome(
            response,
        ),
        ".info"@.is_suffix_of(domain_name) ==> domain_outcome(domain_name, response)
            == afilias_outcome(response),
        !".fr"@.is_suffix_of(domain_name) && !".info"@.is_suffix_of(domain_name) ==> domain_outcome(
            domain_name,
            response,
        ) == ParseOutcome::UnsupportedTld,
{
    reveal_strlit(".fr");
    reveal_strlit(".info");
    if ".fr"@.is_suffix_of(domain_name) && ".info"@.is_suffix_of(domain_name) {
        let n = domain_name.len();
        assert(domain_name[n - 1] == ".fr"@[2]);
        assert(domain_name[n - 1] == ".info"@[4]);
    }
}

} // verus!
