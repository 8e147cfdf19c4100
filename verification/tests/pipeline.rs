//! End-to-end runs of the subdomain pipeline over mock certificate-log
//! bodies, with the real JSON deserializer linked in.

use rustrecon::extract::{subdomain_scan, SubdomainOutcome};
use rustrecon::report::{render_subdomains, subdomain_report};

fn found_set(outcome: &SubdomainOutcome) -> Vec<String> {
    match outcome {
        SubdomainOutcome::Found(subs) => {
            let mut sorted = subs.clone();
            sorted.sort();
            sorted
        },
        SubdomainOutcome::FetchFailed => panic!("expected a found set, fetch failed"),
        SubdomainOutcome::ParseFailed => panic!("expected a found set, parse failed"),
    }
}

#[test]
fn single_entry_round_trip() {
    let body = "[{\"name_value\":\"a.example.com\\nb.example.com\"}]";
    let outcome = subdomain_scan(true, body, "example.com");
    assert_eq!(
        found_set(&outcome),
        vec!["a.example.com".to_string(), "b.example.com".to_string()]
    );
}

#[test]
fn duplicates_across_entries_reported_once() {
    let body = "[{\"name_value\":\"a.example.com\\nb.example.com\"},\
                 {\"name_value\":\"a.example.com\"},\
                 {\"name_value\":\"b.example.com\\na.example.com\"}]";
    let outcome = subdomain_scan(true, body, "example.com");
    assert_eq!(
        found_set(&outcome),
        vec!["a.example.com".to_string(), "b.example.com".to_string()]
    );
}

#[test]
fn lines_without_the_domain_are_excluded() {
    let body = "[{\"name_value\":\"other.org\\nsub.other.org\"}]";
    let outcome = subdomain_scan(true, body, "example.com");
    assert_eq!(found_set(&outcome), Vec::<String>::new());
    let lines = render_subdomains(&outcome);
    assert_eq!(
        lines,
        vec![
            "\n--- Subdomain Enumeration via crt.sh ---\n".to_string(),
            "No subdomains found.".to_string()
        ]
    );
}

#[test]
fn scan_is_idempotent() {
    let body = "[{\"name_value\":\"x.example.com\\ny.example.com\"},\
                 {\"name_value\":\"y.example.com\"}]";
    let first = subdomain_scan(true, body, "example.com");
    let second = subdomain_scan(true, body, "example.com");
    assert_eq!(found_set(&first), found_set(&second));
}

#[test]
fn empty_array_reports_none_found() {
    let lines = subdomain_report(true, "[]", "example.com");
    assert_eq!(
        lines,
        vec![
            "\n--- Subdomain Enumeration via crt.sh ---\n".to_string(),
            "No subdomains found.".to_string()
        ]
    );
}

#[test]
fn malformed_body_reports_parse_failure() {
    let lines = subdomain_report(true, "[{\"name_value\": \"a.exa", "example.com");
    assert_eq!(
        lines,
        vec![
            "\n--- Subdomain Enumeration via crt.sh ---\n".to_string(),
            "Failed to parse JSON from crt.sh".to_string()
        ]
    );
}

#[test]
fn non_array_body_reports_parse_failure() {
    let outcome = subdomain_scan(true, "{\"name_value\":\"a.example.com\"}", "example.com");
    assert!(matches!(outcome, SubdomainOutcome::ParseFailed));
}

#[test]
fn entry_without_name_value_reports_parse_failure() {
    let outcome = subdomain_scan(true, "[{\"other\":\"a.example.com\"}]", "example.com");
    assert!(matches!(outcome, SubdomainOutcome::ParseFailed));
}

#[test]
fn extra_entry_fields_are_ignored() {
    let body = "[{\"id\":17,\"name_value\":\"a.example.com\",\"issuer_name\":\"x\"}]";
    let outcome = subdomain_scan(true, body, "example.com");
    assert_eq!(found_set(&outcome), vec!["a.example.com".to_string()]);
}

#[test]
fn non_textual_name_value_reports_parse_failure() {
    let outcome = subdomain_scan(true, "[{\"name_value\":17}]", "example.com");
    assert!(matches!(outcome, SubdomainOutcome::ParseFailed));
}

#[test]
fn failed_fetch_reports_fetch_failure() {
    let lines = subdomain_report(false, "", "example.com");
    assert_eq!(
        lines,
        vec![
            "\n--- Subdomain Enumeration via crt.sh ---\n".to_string(),
            "Failed to fetch from crt.sh".to_string()
        ]
    );
}

#[test]
fn wildcard_entries_are_kept_verbatim() {
    let body = "[{\"name_value\":\"*.example.com\\nwww.example.com\"}]";
    let outcome = subdomain_scan(true, body, "example.com");
    assert_eq!(
        found_set(&outcome),
        vec!["*.example.com".to_string(), "www.example.com".to_string()]
    );
}

#[test]
fn candidates_are_trimmed_after_the_filter() {
    let body = "[{\"name_value\":\"  spaced.example.com\\t\"}]";
    let outcome = subdomain_scan(true, body, "example.com");
    assert_eq!(found_set(&outcome), vec!["spaced.example.com".to_string()]);
}

#[test]
fn found_listing_renders_one_bullet_per_hostname() {
    let body = "[{\"name_value\":\"a.example.com\"}]";
    let outcome = subdomain_scan(true, body, "example.com");
    let lines = render_subdomains(&outcome);
    assert_eq!(
        lines,
        vec![
            "\n--- Subdomain Enumeration via crt.sh ---\n".to_string(),
            "Subdomains found:".to_string(),
            "- a.example.com".to_string()
        ]
    );
}
