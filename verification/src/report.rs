//! Rendering: the labeled sections each recon mode prints, one `String`
//! per printed line.

use vstd::prelude::*;

use crate::extract::{crt_log_entries, extracted_subdomains, subdomain_scan, SubdomainOutcome};

verus! {

/// The lines of one record section body: each value prefixed by its label.
pub open spec fn labeled_lines(label: Seq<char>, vals: Seq<Seq<char>>) -> Seq<Seq<char>> {
    Seq::new(vals.len(), |i: int| label + vals[i])
}

/// Appends `label + val` lines to `lines`, one per value.
fn push_labeled(lines: &mut Vec<String>, label: &str, vals: &Vec<String>)
    ensures
        final(lines).deep_view() == old(lines).deep_view() + labeled_lines(label@, vals.deep_view()),
{
    let ghost base = lines.deep_view();
    let ghost vv = vals.deep_view();
    let mut i: usize = 0;
    while i < vals.len()
        invariant
            i <= vals.len(),
            vv == vals.deep_view(),
            vv.len() == vals@.len(),
            lines.deep_view() == base + labeled_lines(label@, vv).take(i as int),
        decreases vals.len() - i,
    {
        let mut line = String::from_str(label);
        line.append(vals[i].as_str());
        proof {
            assert(vals@[i as int]@ == vv[i as int]);
        }
        let ghost prev = lines.deep_view();
        lines.push(line);
        proof {
            assert(lines.deep_view() =~= prev.push(label@ + vv[i as int]));
            assert(labeled_lines(label@, vv).take(i + 1) =~= labeled_lines(label@, vv).take(
                i as int,
            ).push(label@ + vv[i as int]));
            assert(lines.deep_view() =~= base + labeled_lines(label@, vv).take(i + 1));
        }
        i = i + 1;
    }
    proof {
        assert(labeled_lines(label@, vv).take(vv.len() as int) =~= labeled_lines(label@, vv));
    }
}

/// The query URL against the certificate-transparency endpoint for
/// `domain`: a wildcard prefix, JSON output.
pub open spec fn crt_url_spec(domain: Seq<char>) -> Seq<char> {
    "https://crt.sh/?q=%25."@ + domain + "&output=json"@
}

/// The certificate-log query URL for `domain`.
pub fn crt_url(domain: &str) -> (r: String)
    ensures
        r@ == crt_url_spec(domain@),
{
    let mut url = String::from_str("https://crt.sh/?q=%25.");
    url.append(domain);
    url.append("&output=json");
    url
}

/// The decimal digit character for `d`.
pub open spec fn digit_char(d: nat) -> char {
    if d == 0 {
        '0'
    } else if d == 1 {
        '1'
    } else if d == 2 {
        '2'
    } else if d == 3 {
        '3'
    } else if d == 4 {
        '4'
    } else if d == 5 {
        '5'
    } else if d == 6 {
        '6'
    } else if d == 7 {
        '7'
    } else if d == 8 {
        '8'
    } else {
        '9'
    }
}

/// The decimal rendering of `n`, most significant digit first, no leading
/// zeros except for zero itself.
pub open spec fn dec_spec(n: nat) -> Seq<char>
    decreases n,
{
    if n < 10 {
        seq![digit_char(n)]
    } else {
        dec_spec(n / 10).push(digit_char(n % 10))
    }
}

fn digit_str(d: u16) -> (r: &'static str)
    requires
        d < 10,
    ensures
        r@ == seq![digit_char(d as nat)],
{
    proof {
        reveal_strlit("0");
        reveal_strlit("1");
        reveal_strlit("2");
        reveal_strlit("3");
        reveal_strlit("4");
        reveal_strlit("5");
        reveal_strlit("6");
        reveal_strlit("7");
        reveal_strlit("8");
        reveal_strlit("9");
    }
    let r = match d {
        0 => "0",
        1 => "1",
        2 => "2",
        3 => "3",
        4 => "4",
        5 => "5",
        6 => "6",
        7 => "7",
        8 => "8",
        _ => "9",
    };
    proof {
        assert(r@ =~= seq![digit_char(d as nat)]);
    }
    r
}

/// The decimal rendering of `n`.
pub fn u16_to_dec(n: u16) -> (r: String)
    ensures
        r@ == dec_spec(n as nat),
    decreases n,
{
    if n < 10 {
        let r = String::from_str(digit_str(n));
        proof {
            assert(r@ =~= dec_spec(n as nat));
        }
        r
    } else {
        let mut r = u16_to_dec(n / 10);
        r.append(digit_str(n % 10));
        proof {
            assert((n / 10) as nat == (n as nat) / 10);
            assert((n % 10) as nat == (n as nat) % 10);
            assert(r@ =~= dec_spec((n as nat) / 10).push(digit_char((n as nat) % 10)));
        }
        r
    }
}

/// A lookup's outcome as the report logic sees it: the resolved values'
/// characters, or the resolver's error text.
pub open spec fn lookup_view(r: Result<Vec<String>, String>) -> Result<Seq<Seq<char>>, Seq<char>> {
    match r {
        Ok(vals) => Ok(vals.deep_view()),
        Err(e) => Err(e@),
    }
}

/// An optional record section: its header, then either one line per value
/// or the section's "not found" message. A failed optional lookup never
/// aborts the report.
pub open spec fn optional_section(
    header: Seq<char>,
    label: Seq<char>,
    missing: Seq<char>,
    r: Result<Seq<Seq<char>>, Seq<char>>,
) -> Seq<Seq<char>> {
    match r {
        Ok(vals) => seq![header] + labeled_lines(label, vals),
        Err(_) => seq![header, missing],
    }
}

/// Every line the DNS operation prints, in order. The A and AAAA lookups
/// are required: a failure cuts the report short right after the failed
/// section's header. The MX, NS and TXT lookups are optional: a failure
/// becomes that section's "not found" line.
pub open spec fn dns_lines(
    a: Result<Seq<Seq<char>>, Seq<char>>,
    aaaa: Result<Seq<Seq<char>>, Seq<char>>,
    mx: Result<Seq<Seq<char>>, Seq<char>>,
    ns: Result<Seq<Seq<char>>, Seq<char>>,
    txt: Result<Seq<Seq<char>>, Seq<char>>,
) -> Seq<Seq<char>> {
    if a is Err {
        seq!["\n--- A RECORDS ---\n"@]
    } else if aaaa is Err {
        seq!["\n--- A RECORDS ---\n"@] + labeled_lines("IPv4 Addr: "@, a->Ok_0) + seq![
            "\n--- AAAA RECORDS ---\n"@,
        ]
    } else {
        seq!["\n--- A RECORDS ---\n"@] + labeled_lines("IPv4 Addr: "@, a->Ok_0) + seq![
            "\n--- AAAA RECORDS ---\n"@,
        ] + labeled_lines("IPv6 Addr: "@, aaaa->Ok_0) + optional_section(
            "\n--- MX RECORDS ---\n"@,
            "MX Addr: "@,
            "No MX records found."@,
            mx,
        ) + optional_section("\n--- NS RECORDS ---\n"@, "NS Addr: "@, "No NS records found."@, ns)
            + optional_section("\n--- TXT RECORDS ---\n"@, "TXT: "@, "No TXT records found."@, txt)
    }
}

/// The error the DNS operation propagates: the A failure, else the AAAA
/// failure, else none.
pub open spec fn dns_error(
    a: Result<Seq<Seq<char>>, Seq<char>>,
    aaaa: Result<Seq<Seq<char>>, Seq<char>>,
) -> Option<Seq<char>> {
    if a is Err {
        Some(a->Err_0)
    } else if aaaa is Err {
        Some(aaaa->Err_0)
    } else {
        None
    }
}

/// What the DNS operation prints and whether it aborts.
pub struct DnsReport {
    /// The lines printed, in order, up to the point where a required
    /// lookup failed.
    pub lines: Vec<String>,
    /// The required-lookup error that aborts the operation, if any.
    pub error: Option<String>,
}

/// Appends an optional record section to `lines`.
fn push_optional(
    lines: &mut Vec<String>,
    header: &str,
    label: &str,
    missing: &str,
    r: &Result<Vec<String>, String>,
)
    ensures
        final(lines).deep_view() == old(lines).deep_view() + optional_section(
            header@,
            label@,
            missing@,
            lookup_view(*r),
        ),
{
    let ghost base = lines.deep_view();
    let ghost prev = lines.deep_view();
    lines.push(String::from_str(header));
    proof {
        assert(lines.deep_view() =~= prev.push(header@));
    }
    match r {
        Ok(vals) => {
            push_labeled(lines, label, vals);
            proof {
                assert(lines.deep_view() =~= base + optional_section(
                    header@,
                    label@,
                    missing@,
                    lookup_view(*r),
                ));
            }
        },
        Err(_) => {
            let ghost mid = lines.deep_view();
            lines.push(String::from_str(missing));
            proof {
                assert(lines.deep_view() =~= mid.push(missing@));
                assert(lines.deep_view() =~= base + optional_section(
                    header@,
                    label@,
                    missing@,
                    lookup_view(*r),
                ));
            }
        },
    }
}

/// The DNS orchestration: renders the five lookups' results as the labeled
/// report, aborting after a required (A or AAAA) failure and reporting a
/// failed optional lookup as that section's "not found" line.
pub fn dns_report(
    a: &Result<Vec<String>, String>,
    aaaa: &Result<Vec<String>, String>,
    mx: &Result<Vec<String>, String>,
    ns: &Result<Vec<String>, String>,
    txt: &Result<Vec<String>, String>,
) -> (r: DnsReport)
    ensures
        r.lines.deep_view() == dns_lines(
            lookup_view(*a),
            lookup_view(*aaaa),
            lookup_view(*mx),
            lookup_view(*ns),
            lookup_view(*txt),
        ),
        r.error.deep_view() == dns_error(lookup_view(*a), lookup_view(*aaaa)),
{
    let mut lines: Vec<String> = Vec::new();
    lines.push(String::from_str("\n--- A RECORDS ---\n"));
    proof {
        assert(lines.deep_view() =~= seq!["\n--- A RECORDS ---\n"@]);
    }
    match a {
        Err(e) => {
            return DnsReport { lines, error: Some(e.clone()) };
        },
        Ok(vals) => {
            push_labeled(&mut lines, "IPv4 Addr: ", vals);
        },
    }
    let ghost after_a = lines.deep_view();
    lines.push(String::from_str("\n--- AAAA RECORDS ---\n"));
    proof {
        assert(lines.deep_view() =~= after_a.push("\n--- AAAA RECORDS ---\n"@));
        assert(lines.deep_view() =~= seq!["\n--- A RECORDS ---\n"@] + labeled_lines(
            "IPv4 Addr: "@,
            lookup_view(*a)->Ok_0,
        ) + seq!["\n--- AAAA RECORDS ---\n"@]);
    }
    match aaaa {
        Err(e) => {
            return DnsReport { lines, error: Some(e.clone()) };
        },
        Ok(vals) => {
            push_labeled(&mut lines, "IPv6 Addr: ", vals);
        },
    }
    push_optional(&mut lines, "\n--- MX RECORDS ---\n", "MX Addr: ", "No MX records found.", mx);
    push_optional(&mut lines, "\n--- NS RECORDS ---\n", "NS Addr: ", "No NS records found.", ns);
    push_optional(&mut lines, "\n--- TXT RECORDS ---\n", "TXT: ", "No TXT records found.", txt);
    proof {
        assert(lines.deep_view() =~= dns_lines(
            lookup_view(*a),
            lookup_view(*aaaa),
            lookup_view(*mx),
            lookup_view(*ns),
            lookup_view(*txt),
        ));
    }
    DnsReport { lines, error: None }
}

/// A DNS run whose required lookups succeeded never aborts: whatever the
/// optional MX, NS and TXT lookups returned, the report carries every
/// record section, and a failed optional lookup shows as that section's
/// "not found" line rather than stopping the ones after it.
pub proof fn lemma_optional_failure_does_not_abort(
    a: Result<Seq<Seq<char>>, Seq<char>>,
    aaaa: Result<Seq<Seq<char>>, Seq<char>>,
    mx: Result<Seq<Seq<char>>, Seq<char>>,
    ns: Result<Seq<Seq<char>>, Seq<char>>,
    txt: Result<Seq<Seq<char>>, Seq<char>>,
)
    requires
        a is Ok,
        aaaa is Ok,
    ensures
        dns_error(a, aaaa) is None,
        dns_lines(a, aaaa, mx, ns, txt).contains("\n--- AAAA RECORDS ---\n"@),
        dns_lines(a, aaaa, mx, ns, txt).contains("\n--- MX RECORDS ---\n"@),
        dns_lines(a, aaaa, mx, ns, txt).contains("\n--- NS RECORDS ---\n"@),
        dns_lines(a, aaaa, mx, ns, txt).contains("\n--- TXT RECORDS ---\n"@),
        mx is Err ==> dns_lines(a, aaaa, mx, ns, txt).contains("No MX records found."@),
        ns is Err ==> dns_lines(a, aaaa, mx, ns, txt).contains("No NS records found."@),
        txt is Err ==> dns_lines(a, aaaa, mx, ns, txt).contains("No TXT records found."@),
{
    let lines = dns_lines(a, aaaa, mx, ns, txt);
    let la = a->Ok_0.len() as int;
    let laaaa = aaaa->Ok_0.len() as int;
    let lmx = optional_section(
        "\n--- MX RECORDS ---\n"@,
        "MX Addr: "@,
        "No MX records found."@,
        mx,
    ).len() as int;
    let lns = optional_section(
        "\n--- NS RECORDS ---\n"@,
        "NS Addr: "@,
        "No NS records found."@,
        ns,
    ).len() as int;
    let i_aaaa = 1 + la;
    let i_mx = 2 + la + laaaa;
    let i_ns = i_mx + lmx;
    let i_txt = i_ns + lns;
    assert(lines[i_aaaa] == "\n--- AAAA RECORDS ---\n"@);
    assert(lines.contains("\n--- AAAA RECORDS ---\n"@)) by {
        assert(0 <= i_aaaa < lines.len() && lines[i_aaaa] == "\n--- AAAA RECORDS ---\n"@);
    }
    assert(lines[i_mx] == "\n--- MX RECORDS ---\n"@);
    assert(lines.contains("\n--- MX RECORDS ---\n"@)) by {
        assert(0 <= i_mx < lines.len() && lines[i_mx] == "\n--- MX RECORDS ---\n"@);
    }
    assert(lines[i_ns] == "\n--- NS RECORDS ---\n"@);
    assert(lines.contains("\n--- NS RECORDS ---\n"@)) by {
        assert(0 <= i_ns < lines.len() && lines[i_ns] == "\n--- NS RECORDS ---\n"@);
    }
    assert(lines[i_txt] == "\n--- TXT RECORDS ---\n"@);
    assert(lines.contains("\n--- TXT RECORDS ---\n"@)) by {
        assert(0 <= i_txt < lines.len() && lines[i_txt] == "\n--- TXT RECORDS ---\n"@);
    }
    if mx is Err {
        assert(lines[i_mx + 1] == "No MX records found."@);
        assert(lines.contains("No MX records found."@)) by {
            assert(0 <= i_mx + 1 < lines.len() && lines[i_mx + 1] == "No MX records found."@);
        }
    }
    if ns is Err {
        assert(lines[i_ns + 1] == "No NS records found."@);
        assert(lines.contains("No NS records found."@)) by {
            assert(0 <= i_ns + 1 < lines.len() && lines[i_ns + 1] == "No NS records found."@);
        }
    }
    if txt is Err {
        assert(lines[i_txt + 1] == "No TXT records found."@);
        assert(lines.contains("No TXT records found."@)) by {
            assert(0 <= i_txt + 1 < lines.len() && lines[i_txt + 1] == "No TXT records found."@);
        }
    }
}

/// One printed header line: the name, then the value in quotes, as the
/// transport library's value rendering shows it.
pub open spec fn header_line(name: Seq<char>, value: Seq<char>) -> Seq<char> {
    name + ": \""@ + value + "\""@
}

/// The status line: the numeric code, a space, and the reason phrase, with
/// a fixed placeholder when the code has no canonical reason.
pub open spec fn status_line_spec(code: u16, reason: Option<Seq<char>>) -> Seq<char> {
    dec_spec(code as nat) + " "@ + match reason {
        Some(t) => t,
        None => "<unknown status code>"@,
    }
}

/// What a reason argument's characters are.
pub open spec fn reason_view(reason: Option<&str>) -> Option<Seq<char>> {
    match reason {
        Some(s) => Some(s@),
        None => None,
    }
}

/// Every line the headers operation prints: the headers section with one
/// line per (name, value) pair in response order, then the status section.
pub open spec fn header_report_lines(
    hs: Seq<(Seq<char>, Seq<char>)>,
    code: u16,
    reason: Option<Seq<char>>,
) -> Seq<Seq<char>> {
    seq!["\n--- HTTP HEADERS ---\n"@] + Seq::new(hs.len(), |i: int| header_line(hs[i].0, hs[i].1))
        + seq!["\n--- STATUS CODE ---\n"@, status_line_spec(code, reason)]
}

/// The headers orchestration: renders the captured response headers, each
/// name with its value in quotes, then the status code with its reason.
pub fn headers_report(headers: &Vec<(String, String)>, code: u16, reason: Option<&str>) -> (r: Vec<
    String,
>)
    ensures
        r.deep_view() == header_report_lines(headers.deep_view(), code, reason_view(reason)),
{
    let ghost hs = headers.deep_view();
    let ghost body = Seq::new(hs.len(), |i: int| header_line(hs[i].0, hs[i].1));
    let mut lines: Vec<String> = Vec::new();
    lines.push(String::from_str("\n--- HTTP HEADERS ---\n"));
    proof {
        assert(lines.deep_view() =~= seq!["\n--- HTTP HEADERS ---\n"@]);
    }
    let mut i: usize = 0;
    while i < headers.len()
        invariant
            i <= headers.len(),
            hs == headers.deep_view(),
            hs.len() == headers@.len(),
            body == Seq::new(hs.len(), |k: int| header_line(hs[k].0, hs[k].1)),
            lines.deep_view() == seq!["\n--- HTTP HEADERS ---\n"@] + body.take(i as int),
        decreases headers.len() - i,
    {
        let pair = &headers[i];
        let mut line = pair.0.clone();
        line.append(": \"");
        line.append(pair.1.as_str());
        line.append("\"");
        proof {
            assert(hs[i as int] == (headers@[i as int].0@, headers@[i as int].1@));
            assert(line@ == header_line(hs[i as int].0, hs[i as int].1));
        }
        let ghost prev = lines.deep_view();
        lines.push(line);
        proof {
            assert(lines.deep_view() =~= prev.push(header_line(hs[i as int].0, hs[i as int].1)));
            assert(body.take(i + 1) =~= body.take(i as int).push(body[i as int]));
            assert(lines.deep_view() =~= seq!["\n--- HTTP HEADERS ---\n"@] + body.take(i + 1));
        }
        i = i + 1;
    }
    proof {
        assert(body.take(hs.len() as int) =~= body);
    }
    let ghost mid = lines.deep_view();
    lines.push(String::from_str("\n--- STATUS CODE ---\n"));
    let mut status = u16_to_dec(code);
    status.append(" ");
    match reason {
        Some(s) => status.append(s),
        None => status.append("<unknown status code>"),
    }
    proof {
        assert(status@ == status_line_spec(code, reason_view(reason)));
    }
    let ghost mid2 = lines.deep_view();
    lines.push(status);
    proof {
        assert(mid2 =~= mid.push("\n--- STATUS CODE ---\n"@));
        assert(lines.deep_view() =~= mid2.push(status_line_spec(code, reason_view(reason))));
        assert(lines.deep_view() =~= header_report_lines(hs, code, reason_view(reason)));
    }
    lines
}

/// The lines a subdomain scan outcome prints: the section header, then the
/// failure message, the "none found" message, or the found-hostnames
/// listing with one bulleted line per distinct hostname.
pub fn render_subdomains(outcome: &SubdomainOutcome) -> (lines: Vec<String>)
    ensures
        outcome is FetchFailed ==> lines.deep_view() == seq![
            "\n--- Subdomain Enumeration via crt.sh ---\n"@,
            "Failed to fetch from crt.sh"@,
        ],
        outcome is ParseFailed ==> lines.deep_view() == seq![
            "\n--- Subdomain Enumeration via crt.sh ---\n"@,
            "Failed to parse JSON from crt.sh"@,
        ],
        outcome matches SubdomainOutcome::Found(subs) ==> (subs@.len() == 0 ==> lines.deep_view()
            == seq![
            "\n--- Subdomain Enumeration via crt.sh ---\n"@,
            "No subdomains found."@,
        ]),
        outcome matches SubdomainOutcome::Found(subs) ==> (subs@.len() > 0 ==> lines.deep_view()
            == seq![
            "\n--- Subdomain Enumeration via crt.sh ---\n"@,
            "Subdomains found:"@,
        ] + labeled_lines("- "@, subs.deep_view())),
{
    let mut lines: Vec<String> = Vec::new();
    lines.push(String::from_str("\n--- Subdomain Enumeration via crt.sh ---\n"));
    proof {
        assert(lines.deep_view() =~= seq!["\n--- Subdomain Enumeration via crt.sh ---\n"@]);
    }
    let ghost base = lines.deep_view();
    match outcome {
        SubdomainOutcome::FetchFailed => {
            lines.push(String::from_str("Failed to fetch from crt.sh"));
            proof {
                assert(lines.deep_view() =~= base.push("Failed to fetch from crt.sh"@));
            }
        },
        SubdomainOutcome::ParseFailed => {
            lines.push(String::from_str("Failed to parse JSON from crt.sh"));
            proof {
                assert(lines.deep_view() =~= base.push("Failed to parse JSON from crt.sh"@));
            }
        },
        SubdomainOutcome::Found(subs) => {
            if subs.len() == 0 {
                lines.push(String::from_str("No subdomains found."));
                proof {
                    assert(lines.deep_view() =~= base.push("No subdomains found."@));
                }
            } else {
                lines.push(String::from_str("Subdomains found:"));
                proof {
                    assert(lines.deep_view() =~= base.push("Subdomains found:"@));
                }
                push_labeled(&mut lines, "- ", subs);
            }
        },
    }
    lines
}

/// What a complete subdomain report looks like for a found set: the header
/// and listing line, then pairwise distinct bulleted lines whose hostnames
/// are exactly the members of `found`; or the "none found" message when
/// `found` has no member.
pub open spec fn subdomain_lines_ok(lines: Seq<Seq<char>>, found: Set<Seq<char>>) -> bool {
    if forall|t: Seq<char>| !found.contains(t) {
        lines == seq![
            "\n--- Subdomain Enumeration via crt.sh ---\n"@,
            "No subdomains found."@,
        ]
    } else {
        &&& lines.len() >= 2
        &&& lines[0] == "\n--- Subdomain Enumeration via crt.sh ---\n"@
        &&& lines[1] == "Subdomains found:"@
        &&& forall|p: int, q: int| 2 <= p < q < lines.len() ==> lines[p] != lines[q]
        &&& forall|i: int|
            2 <= i < lines.len() ==> lines[i] == "- "@ + #[trigger] lines[i].skip(2)
                && found.contains(lines[i].skip(2))
        &&& forall|t: Seq<char>| #[trigger] found.contains(t) ==> lines.contains("- "@ + t)
    }
}

/// The subdomains orchestration: one scan of the certificate-log response,
/// rendered. Failure to fetch and failure to parse each yield their
/// message; otherwise the report lists exactly the extracted set.
pub fn subdomain_report(fetched: bool, body: &str, domain: &str) -> (lines: Vec<String>)
    ensures
        !fetched ==> lines.deep_view() == seq![
            "\n--- Subdomain Enumeration via crt.sh ---\n"@,
            "Failed to fetch from crt.sh"@,
        ],
        fetched && crt_log_entries(body@) is None ==> lines.deep_view() == seq![
            "\n--- Subdomain Enumeration via crt.sh ---\n"@,
            "Failed to parse JSON from crt.sh"@,
        ],
        fetched ==> (crt_log_entries(body@) matches Some(es) ==> subdomain_lines_ok(
            lines.deep_view(),
            extracted_subdomains(es, domain@),
        )),
{
    let outcome = subdomain_scan(fetched, body, domain);
    let lines = render_subdomains(&outcome);
    proof {
        reveal_strlit("- ");
        if fetched && crt_log_entries(body@) is Some {
            let es = crt_log_entries(body@)->Some_0;
            let found = extracted_subdomains(es, domain@);
            let subs = outcome->Found_0;
            let sv = subs.deep_view();
            let lv = lines.deep_view();
            if sv.len() == 0 {
                assert forall|t: Seq<char>| !found.contains(t) by {
                    if found.contains(t) {
                        assert(sv.contains(t));
                    }
                }
            } else {
                assert(sv.contains(sv[0])) by {
                    assert(0 <= 0 < sv.len());
                }
                assert(found.contains(sv[0]));
                assert(!(forall|t: Seq<char>| !found.contains(t)));
                assert(lv == seq![
                    "\n--- Subdomain Enumeration via crt.sh ---\n"@,
                    "Subdomains found:"@,
                ] + labeled_lines("- "@, sv));
                assert forall|i: int|
                    2 <= i < lv.len() implies lv[i] == "- "@ + #[trigger] lv[i].skip(2)
                    && found.contains(lv[i].skip(2)) by {
                    assert(lv[i] == "- "@ + sv[i - 2]);
                    assert(("- "@ + sv[i - 2]).skip(2) =~= sv[i - 2]);
                    assert(sv.contains(sv[i - 2]));
                }
                assert forall|p: int, q: int| 2 <= p < q < lv.len() implies lv[p] != lv[q] by {
                    assert(lv[p] == "- "@ + sv[p - 2]);
                    assert(lv[q] == "- "@ + sv[q - 2]);
                    assert(("- "@ + sv[p - 2]).skip(2) =~= sv[p - 2]);
                    assert(("- "@ + sv[q - 2]).skip(2) =~= sv[q - 2]);
                    assert(sv[p - 2] != sv[q - 2]);
                }
                assert forall|t: Seq<char>| #[trigger] found.contains(t) implies lv.contains(
                    "- "@ + t,
                ) by {
                    assert(sv.contains(t));
                    let k = choose|k: int| 0 <= k < sv.len() && sv[k] == t;
                    assert(lv[k + 2] == "- "@ + t);
                }
            }
        }
    }
    lines
}

} // verus!
