//! Subdomain extraction: deserializing the certificate-log body, splitting
//! multi-hostname fields, filtering candidates by the queried domain, and
//! deduplicating the survivors.

use vstd::prelude::*;

use crate::text::{
    contains_seq, split_lines_spec, trim_spec, split_lines, str_contains, str_trim,
};

verus! {

/// What deserializing a certificate-log body yields: `None` when the body is
/// not a JSON array of entries each carrying a textual `name_value` field;
/// otherwise each entry's `name_value` text, in array order.
pub uninterp spec fn crt_log_entries(body: Seq<char>) -> Option<Seq<Seq<char>>>;

/// Relies on `serde_json::from_str` and the `serde_json::Value` accessors:
/// deserializes the body as a JSON array of entries, handing out each
/// entry's `name_value` string in array order; the result depends on the
/// body text alone.
#[verifier::external_body]
pub(crate) fn parse_log_entries(body: &str) -> (r: Option<Vec<String>>)
    ensures
        r is Some <==> crt_log_entries(body@) is Some,
        r matches Some(v) ==> crt_log_entries(body@) == Some(v.deep_view()),
{
    let doc: serde_json::Value = match serde_json::from_str(body) {
        Ok(d) => d,
        Err(_) => return None,
    };
    let arr = match doc {
        serde_json::Value::Array(a) => a,
        _ => return None,
    };
    let mut names = Vec::new();
    for entry in &arr {
        names.push(entry.get("name_value")?.as_str()?.to_owned());
    }
    Some(names)
}

/// The hostnames contributed by the first `n` lines of one entry's
/// `name_value` field: each line that contains `domain`, trimmed.
pub open spec fn entry_subdomains_upto(entry: Seq<char>, domain: Seq<char>, n: int) -> Set<
    Seq<char>,
> {
    Set::new(
        |t: Seq<char>|
            exists|i: int|
                0 <= i < n && i < split_lines_spec(entry).len() && contains_seq(
                    #[trigger] split_lines_spec(entry)[i],
                    domain,
                ) && trim_spec(split_lines_spec(entry)[i]) == t,
    )
}

/// The hostnames contributed by one entry's `name_value` field.
pub open spec fn entry_subdomains(entry: Seq<char>, domain: Seq<char>) -> Set<Seq<char>> {
    entry_subdomains_upto(entry, domain, split_lines_spec(entry).len() as int)
}

/// The hostnames contributed by the first `m` entries.
pub open spec fn extracted_upto(entries: Seq<Seq<char>>, domain: Seq<char>, m: int) -> Set<
    Seq<char>,
> {
    Set::new(
        |t: Seq<char>|
            exists|j: int|
                0 <= j < m && j < entries.len() && #[trigger] entry_subdomains(
                    entries[j],
                    domain,
                ).contains(t),
    )
}

/// The set of unique subdomains the extractor reports: every line of every
/// entry's `name_value` field that contains `domain` as a substring,
/// trimmed, each distinct value once.
pub open spec fn extracted_subdomains(entries: Seq<Seq<char>>, domain: Seq<char>) -> Set<
    Seq<char>,
> {
    extracted_upto(entries, domain, entries.len() as int)
}

/// Whether `v` holds a string whose characters equal `s`'s.
fn vec_contains_string(v: &Vec<String>, s: &String) -> (r: bool)
    ensures
        r == v.deep_view().contains(s@),
{
    let mut k: usize = 0;
    while k < v.len()
        invariant
            k <= v.len(),
            forall|p: int| 0 <= p < k ==> v.deep_view()[p] != s@,
        decreases v.len() - k,
    {
        if v[k] == *s {
            proof {
                assert(v.deep_view()[k as int] == v@[k as int]@);
            }
            return true;
        }
        proof {
            assert(v.deep_view()[k as int] == v@[k as int]@);
        }
        k = k + 1;
    }
    proof {
        if v.deep_view().contains(s@) {
            let p = choose|p: int| 0 <= p < v.deep_view().len() && v.deep_view()[p] == s@;
            assert(v.deep_view()[p] != s@);
        }
    }
    false
}

/// Filter and deduplicate: the distinct trimmed hostname lines, over all
/// entries, that contain the queried domain as a substring. The result
/// holds no duplicates and its members are exactly `extracted_subdomains`
/// of the entries.
pub fn extract_subdomains(entries: &Vec<String>, domain: &str) -> (r: Vec<String>)
    ensures
        forall|p: int, q: int|
            0 <= p < q < r.deep_view().len() ==> r.deep_view()[p] != r.deep_view()[q],
        forall|t: Seq<char>|
            #[trigger] r.deep_view().contains(t) <==> extracted_subdomains(
                entries.deep_view(),
                domain@,
            ).contains(t),
{
    let ghost dv = entries.deep_view();
    let mut out: Vec<String> = Vec::new();
    let mut j: usize = 0;
    while j < entries.len()
        invariant
            j <= entries.len(),
            dv == entries.deep_view(),
            dv.len() == entries@.len(),
            forall|p: int, q: int|
                0 <= p < q < out.deep_view().len() ==> out.deep_view()[p] != out.deep_view()[q],
            forall|t: Seq<char>|
                #[trigger] out.deep_view().contains(t) <==> extracted_upto(
                    dv,
                    domain@,
                    j as int,
                ).contains(t),
        decreases entries.len() - j,
    {
        let entry = &entries[j];
        proof {
            assert(dv[j as int] == entries@[j as int]@);
        }
        let lines = split_lines(entry.as_str());
        let ghost lv = split_lines_spec(dv[j as int]);
        let mut i: usize = 0;
        while i < lines.len()
            invariant
                i <= lines.len(),
                j < entries@.len(),
                dv == entries.deep_view(),
                dv.len() == entries@.len(),
                lines.deep_view() == lv,
                lv == split_lines_spec(dv[j as int]),
                forall|p: int, q: int|
                    0 <= p < q < out.deep_view().len() ==> out.deep_view()[p]
                        != out.deep_view()[q],
                forall|t: Seq<char>|
                    #[trigger] out.deep_view().contains(t) <==> (extracted_upto(
                        dv,
                        domain@,
                        j as int,
                    ).contains(t) || entry_subdomains_upto(
                        dv[j as int],
                        domain@,
                        i as int,
                    ).contains(t)),
            decreases lines.len() - i,
        {
            let line = &lines[i];
            proof {
                assert(line@ == lv[i as int]);
            }
            if str_contains(line.as_str(), domain) {
                let trimmed = str_trim(line.as_str()).to_owned();
                let ghost old_dv = out.deep_view();
                let dup = vec_contains_string(&out, &trimmed);
                if !dup {
                    out.push(trimmed);
                    proof {
                        assert(out.deep_view() =~= old_dv.push(trim_spec(lv[i as int])));
                        assert forall|t: Seq<char>| #[trigger]
                            out.deep_view().contains(t) <==> (old_dv.contains(t) || t
                                == trim_spec(lv[i as int])) by {
                            if out.deep_view().contains(t) {
                                let p = choose|p: int|
                                    0 <= p < out.deep_view().len() && out.deep_view()[p] == t;
                                if p < old_dv.len() {
                                    assert(old_dv[p] == t);
                                }
                            }
                            if old_dv.contains(t) {
                                let p = choose|p: int|
                                    0 <= p < old_dv.len() && old_dv[p] == t;
                                assert(out.deep_view()[p] == t);
                            }
                            if t == trim_spec(lv[i as int]) {
                                assert(out.deep_view()[old_dv.len() as int] == t);
                            }
                        }
                    }
                }
                proof {
                    lemma_entry_step_match(dv[j as int], domain@, i as int);
                }
            } else {
                proof {
                    lemma_entry_step_no_match(dv[j as int], domain@, i as int);
                }
            }
            i = i + 1;
        }
        proof {
            assert forall|t: Seq<char>|
                extracted_upto(dv, domain@, j + 1).contains(t) <==> (extracted_upto(
                    dv,
                    domain@,
                    j as int,
                ).contains(t) || entry_subdomains_upto(
                    dv[j as int],
                    domain@,
                    lv.len() as int,
                ).contains(t)) by {
                if extracted_upto(dv, domain@, j + 1).contains(t) {
                    let w = choose|w: int|
                        0 <= w < j + 1 && w < dv.len() && #[trigger] entry_subdomains(
                            dv[w],
                            domain@,
                        ).contains(t);
                    if w < j {
                        assert(extracted_upto(dv, domain@, j as int).contains(t));
                    }
                }
                if extracted_upto(dv, domain@, j as int).contains(t) {
                    let w = choose|w: int|
                        0 <= w < j && w < dv.len() && #[trigger] entry_subdomains(
                            dv[w],
                            domain@,
                        ).contains(t);
                    assert(entry_subdomains(dv[w], domain@).contains(t));
                    assert(extracted_upto(dv, domain@, j + 1).contains(t));
                }
                if entry_subdomains_upto(dv[j as int], domain@, lv.len() as int).contains(t) {
                    assert(entry_subdomains(dv[j as int], domain@).contains(t));
                    assert(extracted_upto(dv, domain@, j + 1).contains(t));
                }
            }
        }
        j = j + 1;
    }
    proof {
        assert forall|t: Seq<char>|
            extracted_subdomains(dv, domain@).contains(t) == extracted_upto(
                dv,
                domain@,
                j as int,
            ).contains(t) by {}
    }
    out
}

/// How one run of the subdomain pipeline ended, once the certificate-log
/// response is in hand.
pub enum SubdomainOutcome {
    /// The log answered with a non-success status; no body was read.
    FetchFailed,
    /// The body was not a JSON array of entries with textual `name_value`
    /// fields.
    ParseFailed,
    /// The distinct trimmed hostnames that contain the queried domain.
    Found(Vec<String>),
}

/// The subdomain pipeline after the certificate-log request: hands the body
/// to the extractor only when the fetch succeeded, reports a body that does
/// not deserialize, and otherwise yields the deduplicated hostname set.
pub fn subdomain_scan(fetched: bool, body: &str, domain: &str) -> (r: SubdomainOutcome)
    ensures
        r is FetchFailed <==> !fetched,
        fetched ==> (r is ParseFailed <==> crt_log_entries(body@) is None),
        fetched ==> (crt_log_entries(body@) matches Some(es) ==> (r matches SubdomainOutcome::Found(subs) && (forall|
            p: int,
            q: int,
        |
            0 <= p < q < subs.deep_view().len() ==> subs.deep_view()[p] != subs.deep_view()[q]) && (
        forall|t: Seq<char>|
            #[trigger] subs.deep_view().contains(t) <==> extracted_subdomains(
                es,
                domain@,
            ).contains(t)))),
{
    if !fetched {
        return SubdomainOutcome::FetchFailed;
    }
    match parse_log_entries(body) {
        None => SubdomainOutcome::ParseFailed,
        Some(entries) => SubdomainOutcome::Found(extract_subdomains(&entries, domain)),
    }
}

/// However often a hostname recurs across the log's entries, a result
/// that lists the extracted set without duplicates holds it at exactly one
/// position.
pub proof fn lemma_each_hostname_once(out: Seq<Seq<char>>, t: Seq<char>)
    requires
        forall|p: int, q: int| 0 <= p < q < out.len() ==> out[p] != out[q],
        out.contains(t),
    ensures
        exists|k: int|
            0 <= k < out.len() && out[k] == t && (forall|k2: int|
                0 <= k2 < out.len() && out[k2] == t ==> k2 == k),
{
    let k = choose|k: int| 0 <= k < out.len() && out[k] == t;
    assert forall|k2: int| 0 <= k2 < out.len() && out[k2] == t implies k2 == k by {
        if k2 < k {
            assert(out[k2] != out[k]);
        }
        if k < k2 {
            assert(out[k] != out[k2]);
        }
    }
    assert(0 <= k < out.len() && out[k] == t && (forall|k2: int|
        0 <= k2 < out.len() && out[k2] == t ==> k2 == k));
}

/// Candidate lines that do not contain the queried domain contribute
/// nothing: every extracted hostname is the trim of some candidate line
/// that does contain it.
pub proof fn lemma_member_has_matching_line(entries: Seq<Seq<char>>, domain: Seq<char>, t: Seq<char>)
    requires
        extracted_subdomains(entries, domain).contains(t),
    ensures
        exists|j: int, i: int|
            0 <= j < entries.len() && 0 <= i < split_lines_spec(entries[j]).len() && contains_seq(
                #[trigger] split_lines_spec(entries[j])[i],
                domain,
            ) && trim_spec(split_lines_spec(entries[j])[i]) == t,
{
    let j = choose|j: int|
        0 <= j < entries.len() && #[trigger] entry_subdomains(entries[j], domain).contains(t);
    let i = choose|i: int|
        0 <= i < split_lines_spec(entries[j]).len() && contains_seq(
            #[trigger] split_lines_spec(entries[j])[i],
            domain,
        ) && trim_spec(split_lines_spec(entries[j])[i]) == t;
    assert(0 <= j < entries.len() && 0 <= i < split_lines_spec(entries[j]).len() && contains_seq(
        split_lines_spec(entries[j])[i],
        domain,
    ) && trim_spec(split_lines_spec(entries[j])[i]) == t);
}

/// Running the extraction pipeline twice over one unchanged set of log
/// entries yields the same subdomain set both times: any two results that
/// list `extracted_subdomains` of the same entries hold the same members.
pub proof fn lemma_extraction_idempotent(
    first: Seq<Seq<char>>,
    second: Seq<Seq<char>>,
    entries: Seq<Seq<char>>,
    domain: Seq<char>,
)
    requires
        forall|t: Seq<char>|
            #[trigger] first.contains(t) <==> extracted_subdomains(entries, domain).contains(t),
        forall|t: Seq<char>|
            #[trigger] second.contains(t) <==> extracted_subdomains(entries, domain).contains(t),
    ensures
        forall|t: Seq<char>|
            #![trigger first.contains(t)]
            #![trigger second.contains(t)]
            first.contains(t) <==> second.contains(t),
{
}

proof fn lemma_entry_step_match(entry: Seq<char>, domain: Seq<char>, i: int)
    requires
        0 <= i < split_lines_spec(entry).len(),
        contains_seq(split_lines_spec(entry)[i], domain),
    ensures
        forall|t: Seq<char>|
            entry_subdomains_upto(entry, domain, i + 1).contains(t) <==> (entry_subdomains_upto(
                entry,
                domain,
                i,
            ).contains(t) || t == trim_spec(split_lines_spec(entry)[i])),
{
    assert forall|t: Seq<char>|
        entry_subdomains_upto(entry, domain, i + 1).contains(t) <==> (entry_subdomains_upto(
            entry,
            domain,
            i,
        ).contains(t) || t == trim_spec(split_lines_spec(entry)[i])) by {
        if entry_subdomains_upto(entry, domain, i + 1).contains(t) {
            let w = choose|w: int|
                0 <= w < i + 1 && w < split_lines_spec(entry).len() && contains_seq(
                    #[trigger] split_lines_spec(entry)[w],
                    domain,
                ) && trim_spec(split_lines_spec(entry)[w]) == t;
            if w < i {
                assert(entry_subdomains_upto(entry, domain, i).contains(t));
            }
        }
        if t == trim_spec(split_lines_spec(entry)[i]) {
            assert(entry_subdomains_upto(entry, domain, i + 1).contains(t));
        }
    }
}

proof fn lemma_entry_step_no_match(entry: Seq<char>, domain: Seq<char>, i: int)
    requires
        0 <= i,
        i < split_lines_spec(entry).len() ==> !contains_seq(split_lines_spec(entry)[i], domain),
    ensures
        forall|t: Seq<char>|
            entry_subdomains_upto(entry, domain, i + 1).contains(t) <==> entry_subdomains_upto(
                entry,
                domain,
                i,
            ).contains(t),
{
    assert forall|t: Seq<char>|
        entry_subdomains_upto(entry, domain, i + 1).contains(t) <==> entry_subdomains_upto(
            entry,
            domain,
            i,
        ).contains(t) by {
        if entry_subdomains_upto(entry, domain, i + 1).contains(t) {
            let w = choose|w: int|
                0 <= w < i + 1 && w < split_lines_spec(entry).len() && contains_seq(
                    #[trigger] split_lines_spec(entry)[w],
                    domain,
                ) && trim_spec(split_lines_spec(entry)[w]) == t;
            assert(w < i);
            assert(entry_subdomains_upto(entry, domain, i).contains(t));
        }
    }
}

} // verus!
