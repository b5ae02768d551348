use chrono::{DateTime, Utc};
use std::str::FromStr;
use whois_president::afilias::parse_afilias_response;
use whois_president::afnic::parse_afnic_response;
use whois_president::text::lines_of;
use whois_president::whois::{extract_datetime_value, extract_string_value, Timestamp, WhoisError};

const AFNIC_ENTRIES: &str = "%%\n\
%% This is the AFNIC Whois server.\n\
%%\n\
%% complete date format : YYYY-MM-DDThh:mm:ssZ\n\
%%\n\
\n\
domain:                        em2022.fr\n\
status:                        ACTIVE\n\
eppstatus:                     active\n\
hold:                          NO\n\
holder-c:                      ANO00-FRNIC\n\
admin-c:                       ANO00-FRNIC\n\
tech-c:                        GI8047-FRNIC\n\
registrar:                     GANDI\n\
Expiry Date:                   2025-02-14T15:00:47Z\n\
created:                       2020-02-14T15:00:47Z\n\
last-update:                   2024-01-20T09:12:03.500000Z\n\
source:                        FRNIC\n\
\n\
nic-hdl:                       ANO00-FRNIC\n\
type:                          ORGANIZATION\n\
contact:                       La Republique En Marche\n\
address:                       63 rue Sainte-Anne\n\
registrar:                     SOMEONE ELSE\n";

fn ts(s: &str) -> Timestamp {
    let d: DateTime<Utc> = DateTime::from_str(s).unwrap();
    Timestamp::new(d.timestamp(), d.timestamp_subsec_nanos())
}

#[test]
fn it_parses_string() {
    let s = extract_string_value("domain:      em2022.fr");
    assert_eq!(s, "em2022.fr");
}

#[test]
fn it_parses_datetime() {
    let datetime = extract_datetime_value("created:     2020-02-14T15:00:47Z").unwrap();
    let expected_datetime: DateTime<Utc> = DateTime::from_str("2020-02-14T15:00:47Z").unwrap();
    assert_eq!(
        datetime,
        Timestamp::new(expected_datetime.timestamp(), expected_datetime.timestamp_subsec_nanos())
    );
}

#[test]
fn afnic_it_works() {
    let response = parse_afnic_response(AFNIC_ENTRIES).unwrap();
    assert!(response.is_some());
    let response = response.unwrap();
    assert_eq!(response.domain_name, "em2022.fr");
    assert_eq!(response.status, "ACTIVE");
    assert_eq!(response.registrar, "GANDI");
    assert_eq!(response.registrant, "La Republique En Marche");
    assert_eq!(response.creation_date, ts("2020-02-14T15:00:47Z"));
    assert_eq!(response.expiration_date, ts("2025-02-14T15:00:47Z"));
    assert_eq!(response.last_update_date, ts("2024-01-20T09:12:03.5Z"));
}

#[test]
fn test_no_entries() {
    let response = "%%\n%% This is the AFNIC Whois server.\n%%\n%% No entries found in the AFNIC Database.\n";
    let response = parse_afnic_response(response).unwrap();
    assert!(response.is_none());
}

#[test]
fn too_many_requests() {
    let response = "%%\n%% Too many requests, please try again later.\n";
    let response = parse_afnic_response(response);
    assert!(response.is_err());
    assert!(matches!(response, Err(WhoisError::TooManyRequests)));
}

#[test]
fn afnic_reads_crlf_lines() {
    let crlf = AFNIC_ENTRIES.replace('\n', "\r\n");
    let response = parse_afnic_response(&crlf).unwrap().unwrap();
    assert_eq!(response.domain_name, "em2022.fr");
    assert_eq!(response.registrant, "La Republique En Marche");
}

#[test]
fn afnic_ignores_what_follows_the_contact() {
    let longer = format!("{}%% Too many requests\nExpiry Date: not a date\n", AFNIC_ENTRIES);
    let response = parse_afnic_response(&longer).unwrap().unwrap();
    assert_eq!(response.domain_name, "em2022.fr");
    assert_eq!(response.registrar, "GANDI");
}

#[test]
fn afnic_reports_the_first_missing_value() {
    let response = "domain: a.fr\nregistrar: R\ncontact: C\n";
    match parse_afnic_response(response) {
        Err(WhoisError::ElementNotFound(name)) => assert_eq!(name, "status"),
        other => panic!("unexpected {:?}", other),
    }
    match parse_afnic_response("") {
        Err(WhoisError::ElementNotFound(name)) => assert_eq!(name, "domain"),
        other => panic!("unexpected {:?}", other),
    }
}

#[test]
fn afnic_reports_a_bad_date() {
    let response = "domain: a.fr\ncreated: yesterday\ncontact: C\n";
    assert!(matches!(parse_afnic_response(response), Err(WhoisError::DateTimeParseError(_))));
}

const AFILIAS_ENTRIES: &str = "Domain Name: example.info\r\n\
Registry Domain ID: D503300000040403495-LRMS\r\n\
Registrar WHOIS Server: whois.example.net\r\n\
Updated Date: 2021-08-14T07:01:39Z\r\n\
Creation Date: 2001-07-31T23:57:50Z\r\n\
Registry Expiry Date: 2024-07-31T23:57:50Z\r\n\
Registrar: Example Registrar, Inc.\r\n\
Domain Status: clientTransferProhibited https://icann.org/epp#clientTransferProhibited\r\n\
Registrant Organization: Example Org\r\n\
Name Server: NS1.EXAMPLE.NET\r\n";

#[test]
fn afilias_it_works() {
    let e = parse_afilias_response(AFILIAS_ENTRIES).unwrap().unwrap();
    assert_eq!(e.domain_name, "example.info");
    assert_eq!(e.status, "clientTransferProhibited https://icann.org/epp#clientTransferProhibited");
    assert_eq!(e.registrar, "Example Registrar, Inc.");
    assert_eq!(e.registrant, "Example Org");
    assert_eq!(e.creation_date, ts("2001-07-31T23:57:50Z"));
    assert_eq!(e.expiration_date, ts("2024-07-31T23:57:50Z"));
    assert_eq!(e.last_update_date, ts("2021-08-14T07:01:39Z"));
}

#[test]
fn afilias_keeps_the_last_value_of_a_key() {
    let twice = format!("{}Domain Name: other.info\n", AFILIAS_ENTRIES);
    let e = parse_afilias_response(&twice).unwrap().unwrap();
    assert_eq!(e.domain_name, "other.info");
}

#[test]
fn afilias_errors() {
    let missing = AFILIAS_ENTRIES.replace("Registrant Organization: Example Org\r\n", "");
    match parse_afilias_response(&missing) {
        Err(WhoisError::ElementNotFound(name)) => assert_eq!(name, "Registrant Organization"),
        other => panic!("unexpected {:?}", other),
    }
    let bad = AFILIAS_ENTRIES.replace("2021-08-14T07:01:39Z", "14/08/2021");
    assert!(matches!(parse_afilias_response(&bad), Err(WhoisError::DateTimeParseError(_))));
    // An Afilias response never says there is no entry: it only misses values.
    assert!(matches!(
        parse_afilias_response("%% No entries found\n"),
        Err(WhoisError::ElementNotFound("Domain Name"))
    ));
}

#[test]
fn values_are_trimmed_after_the_first_colon() {
    assert_eq!(extract_string_value("Domain Status:  a: b \t"), "a: b");
    assert_eq!(extract_string_value("key:"), "");
    assert_eq!(extract_string_value("key:\u{a0} x\u{3000}"), "x");
}

#[test]
fn dates_with_offsets_are_read_in_utc() {
    let t = extract_datetime_value("x: 2020-02-14T16:00:47+01:00").unwrap();
    assert_eq!(t, ts("2020-02-14T15:00:47Z"));
    assert_eq!(t.secs, 1581692447);
    assert!(extract_datetime_value("x: 2020-13-14T16:00:47Z").is_err());
}

#[test]
fn final_line_ending_is_optional() {
    assert_eq!(lines_of("a\nb"), vec!["a", "b"]);
    assert_eq!(lines_of("a\nb\n"), vec!["a", "b"]);
    assert_eq!(lines_of("a\r\nb\r\n"), vec!["a", "b"]);
    assert_eq!(lines_of("a\n\nb"), vec!["a", "", "b"]);
    assert_eq!(lines_of("a\rb\r"), vec!["a\rb\r"]);
    assert_eq!(lines_of(""), Vec::<&str>::new());
    let without = AFILIAS_ENTRIES.trim_end_matches("\r\n");
    let a = parse_afilias_response(without).unwrap().unwrap();
    assert_eq!(a.registrant, "Example Org");
}
