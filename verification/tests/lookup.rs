use whois_president::fib::FibonacciSequence;
use whois_president::lookup::{after_lookup, lookup_options, parse_response_for_domain, LookupStep};
use whois_president::model::{DomainName, WhoisLookup};
use whois_president::whois::{Timestamp, WhoisError};

#[test]
fn responses_go_to_the_parser_of_their_registry() {
    let afnic = "domain: a.fr\nstatus: ACTIVE\nregistrar: R\nExpiry Date: 2025-01-01T00:00:00Z\ncreated: 2020-01-01T00:00:00Z\nlast-update: 2021-01-01T00:00:00Z\ncontact: C\n";
    let d = parse_response_for_domain("a.fr", afnic).unwrap().unwrap();
    assert_eq!(d.registrant, "C");
    // The same text read as an Afilias answer misses its values.
    assert!(matches!(
        parse_response_for_domain("a.info", afnic),
        Err(WhoisError::ElementNotFound("Domain Name"))
    ));
    assert!(matches!(
        parse_response_for_domain("a.com", afnic),
        Err(WhoisError::UnsupportedTldn)
    ));
    assert!(matches!(
        parse_response_for_domain("a.fr", "%% Too many requests\n"),
        Err(WhoisError::TooManyRequests)
    ));
}

#[test]
fn lookups_back_off_and_recover() {
    let mut wait = FibonacciSequence::new();
    assert_eq!(after_lookup(&mut wait, &Err(WhoisError::TooManyRequests)), LookupStep::Retry);
    assert_eq!(after_lookup(&mut wait, &Err(WhoisError::TooManyRequests)), LookupStep::Retry);
    assert_eq!(wait.current(), 3);
    assert_eq!(after_lookup(&mut wait, &Ok(None)), LookupStep::Store);
    assert_eq!(wait.current(), 2);
    assert_eq!(after_lookup(&mut wait, &Err(WhoisError::UnsupportedTldn)), LookupStep::Skip);
    assert_eq!(wait.current(), 2);
    assert_eq!(after_lookup(&mut wait, &Err(WhoisError::ElementNotFound("domain"))), LookupStep::Skip);
    assert_eq!(wait.current(), 2);
}

#[test]
fn whois_data_is_found_only_in_a_lookup_that_found_it() {
    let none = DomainName { name: String::from("a.fr"), whois_lookup: None };
    assert!(!none.has_whois_data());
    let empty = DomainName { name: String::from("a.fr"), whois_lookup: Some(WhoisLookup::new(None)) };
    assert!(!empty.has_whois_data());
    let afnic = "domain: a.fr\nstatus: ACTIVE\nregistrar: R\nExpiry Date: 2025-01-01T00:00:00Z\ncreated: 2020-01-01T00:00:00Z\nlast-update: 2021-01-01T00:00:00Z\ncontact: C\n";
    let data = parse_response_for_domain("a.fr", afnic).unwrap();
    let lookup = WhoisLookup::new(data);
    // The lookup is dated now.
    assert!(lookup.date.secs > 1_600_000_000);
    assert!(lookup.date.nanos < 1_000_000_000);
    let found = DomainName { name: String::from("a.fr"), whois_lookup: Some(lookup) };
    assert!(found.has_whois_data());
}

#[test]
fn a_lookup_keeps_its_date() {
    let l = WhoisLookup::at(Timestamp::new(1581692447, 5), None);
    assert_eq!(l.date, Timestamp::new(1581692447, 5));
    assert!(l.whois_data.is_none());
}

#[test]
fn lookup_targets_are_host_names() {
    assert!(lookup_options("em2022.fr").is_ok());
    assert!(lookup_options("example.info").is_ok());
    assert!(lookup_options("not a host").is_err());
    assert!(lookup_options("em2022.fr:43").is_err());
}
