//! The DNS and HTTP report renderings on concrete lookup results.

use rustrecon::report::{crt_url, dns_report, headers_report, u16_to_dec};

#[test]
fn dns_report_with_no_mx_records_still_completes() {
    let a: Result<Vec<String>, String> = Ok(vec!["93.184.216.34".to_string()]);
    let aaaa: Result<Vec<String>, String> = Ok(vec!["2606:2800:220:1::1".to_string()]);
    let mx: Result<Vec<String>, String> = Err("no records found".to_string());
    let ns: Result<Vec<String>, String> = Ok(vec!["ns1.example.com.".to_string()]);
    let txt: Result<Vec<String>, String> = Err("no records found".to_string());
    let report = dns_report(&a, &aaaa, &mx, &ns, &txt);
    assert_eq!(report.error, None);
    assert_eq!(
        report.lines,
        vec![
            "\n--- A RECORDS ---\n".to_string(),
            "IPv4 Addr: 93.184.216.34".to_string(),
            "\n--- AAAA RECORDS ---\n".to_string(),
            "IPv6 Addr: 2606:2800:220:1::1".to_string(),
            "\n--- MX RECORDS ---\n".to_string(),
            "No MX records found.".to_string(),
            "\n--- NS RECORDS ---\n".to_string(),
            "NS Addr: ns1.example.com.".to_string(),
            "\n--- TXT RECORDS ---\n".to_string(),
            "No TXT records found.".to_string()
        ]
    );
}

#[test]
fn dns_report_aborts_on_a_failure() {
    let a: Result<Vec<String>, String> = Err("resolution failed".to_string());
    let ok: Result<Vec<String>, String> = Ok(vec![]);
    let report = dns_report(&a, &ok, &ok, &ok, &ok);
    assert_eq!(report.lines, vec!["\n--- A RECORDS ---\n".to_string()]);
    assert_eq!(report.error, Some("resolution failed".to_string()));
}

#[test]
fn dns_report_aborts_on_aaaa_failure_after_a_section() {
    let a: Result<Vec<String>, String> = Ok(vec!["10.0.0.1".to_string()]);
    let aaaa: Result<Vec<String>, String> = Err("no ipv6".to_string());
    let ok: Result<Vec<String>, String> = Ok(vec![]);
    let report = dns_report(&a, &aaaa, &ok, &ok, &ok);
    assert_eq!(
        report.lines,
        vec![
            "\n--- A RECORDS ---\n".to_string(),
            "IPv4 Addr: 10.0.0.1".to_string(),
            "\n--- AAAA RECORDS ---\n".to_string()
        ]
    );
    assert_eq!(report.error, Some("no ipv6".to_string()));
}

#[test]
fn headers_report_renders_pairs_and_status() {
    let headers = vec![("content-type".to_string(), "text/html".to_string())];
    let lines = headers_report(&headers, 200, Some("OK"));
    assert_eq!(
        lines,
        vec![
            "\n--- HTTP HEADERS ---\n".to_string(),
            "content-type: \"text/html\"".to_string(),
            "\n--- STATUS CODE ---\n".to_string(),
            "200 OK".to_string()
        ]
    );
}

#[test]
fn headers_report_keeps_repeated_names_in_order() {
    let headers = vec![
        ("set-cookie".to_string(), "a=1".to_string()),
        ("set-cookie".to_string(), "b=2".to_string()),
    ];
    let lines = headers_report(&headers, 204, Some("No Content"));
    assert_eq!(lines[1], "set-cookie: \"a=1\"".to_string());
    assert_eq!(lines[2], "set-cookie: \"b=2\"".to_string());
    assert_eq!(lines[3], "\n--- STATUS CODE ---\n".to_string());
    assert_eq!(lines[4], "204 No Content".to_string());
}

#[test]
fn headers_report_without_canonical_reason() {
    let headers: Vec<(String, String)> = vec![];
    let lines = headers_report(&headers, 599, None);
    assert_eq!(lines.len(), 3);
    assert_eq!(lines[2], "599 <unknown status code>".to_string());
}

#[test]
fn status_codes_render_in_decimal() {
    assert_eq!(u16_to_dec(0), "0".to_string());
    assert_eq!(u16_to_dec(7), "7".to_string());
    assert_eq!(u16_to_dec(200), "200".to_string());
    assert_eq!(u16_to_dec(404), "404".to_string());
    assert_eq!(u16_to_dec(65535), "65535".to_string());
}

#[test]
fn crt_url_templates_the_domain() {
    assert_eq!(
        crt_url("example.com"),
        "https://crt.sh/?q=%25.example.com&output=json".to_string()
    );
}
