//! Verified text utilities over `Seq<char>` views: substring containment,
//! whitespace trimming, and line splitting as the hostname pipeline needs
//! them.

use vstd::prelude::*;

verus! {

/// Unicode characters with the `White_Space` property, the set that
/// `str::trim` removes from both ends of a string.
pub open spec fn is_ws(c: char) -> bool {
    let u = c as u32;
    (0x9 <= u <= 0xd) || u == 0x20 || u == 0x85 || u == 0xa0 || u == 0x1680
        || (0x2000 <= u <= 0x200a) || u == 0x2028 || u == 0x2029 || u == 0x202f
        || u == 0x205f || u == 0x3000
}

/// Whether `c` is whitespace, as `str::trim` understands it.
pub fn is_ws_char(c: char) -> (r: bool)
    ensures
        r == is_ws(c),
{
    let u = c as u32;
    (0x9 <= u && u <= 0xd) || u == 0x20 || u == 0x85 || u == 0xa0 || u == 0x1680
        || (0x2000 <= u && u <= 0x200a) || u == 0x2028 || u == 0x2029 || u == 0x202f
        || u == 0x205f || u == 0x3000
}

/// `n` occurs in `h` starting at position `i`.
pub open spec fn contains_at(h: Seq<char>, n: Seq<char>, i: int) -> bool {
    0 <= i && i + n.len() <= h.len() && h.subrange(i, i + n.len()) == n
}

/// `n` occurs somewhere in `h` as a contiguous substring.
pub open spec fn contains_seq(h: Seq<char>, n: Seq<char>) -> bool {
    exists|i: int| contains_at(h, n, i)
}

/// Substring search: whether `needle` occurs contiguously in `hay`.
pub fn str_contains(hay: &str, needle: &str) -> (r: bool)
    ensures
        r == contains_seq(hay@, needle@),
{
    let hl = hay.unicode_len();
    let nl = needle.unicode_len();
    if nl > hl {
        proof {
            assert forall|i: int| !contains_at(hay@, needle@, i) by {}
        }
        return false;
    }
    let mut i: usize = 0;
    while i <= hl - nl
        invariant
            nl <= hl,
            hl == hay@.len(),
            nl == needle@.len(),
            i <= hl - nl + 1,
            forall|p: int| 0 <= p < i ==> !contains_at(hay@, needle@, p),
        decreases hl - nl - i + 1,
    {
        let mut j: usize = 0;
        let mut hit = true;
        while j < nl
            invariant
                nl <= hl,
                hl == hay@.len(),
                nl == needle@.len(),
                i + nl <= hl,
                j <= nl,
                hit == (forall|q: int| 0 <= q < j ==> hay@[i + q] == needle@[q]),
            decreases nl - j,
        {
            if hay.get_char(i + j) != needle.get_char(j) {
                hit = false;
                j = nl;
            } else {
                j = j + 1;
            }
        }
        if hit {
            proof {
                assert(hay@.subrange(i as int, i + needle@.len()) =~= needle@);
                assert(contains_at(hay@, needle@, i as int));
            }
            return true;
        }
        proof {
            if contains_at(hay@, needle@, i as int) {
                assert forall|q: int| 0 <= q < nl implies hay@[i + q] == needle@[q] by {
                    assert(hay@.subrange(i as int, i + needle@.len())[q] == hay@[i + q]);
                }
            }
        }
        i = i + 1;
    }
    proof {
        assert forall|p: int| !contains_at(hay@, needle@, p) by {
            if 0 <= p <= hl - nl {
                assert(!contains_at(hay@, needle@, p));
            }
        }
    }
    false
}

/// The suffix of `s` left after removing every leading whitespace character.
pub open spec fn trim_start_spec(s: Seq<char>) -> Seq<char>
    decreases s.len(),
{
    if s.len() > 0 && is_ws(s[0]) {
        trim_start_spec(s.drop_first())
    } else {
        s
    }
}

/// The prefix of `s` left after removing every trailing whitespace character.
pub open spec fn trim_end_spec(s: Seq<char>) -> Seq<char>
    decreases s.len(),
{
    if s.len() > 0 && is_ws(s[s.len() - 1]) {
        trim_end_spec(s.drop_last())
    } else {
        s
    }
}

/// What `str::trim` returns: `s` without leading and trailing whitespace.
pub open spec fn trim_spec(s: Seq<char>) -> Seq<char> {
    trim_end_spec(trim_start_spec(s))
}

proof fn lemma_trim_start_at(s: Seq<char>, a: int)
    requires
        0 <= a <= s.len(),
        forall|k: int| 0 <= k < a ==> is_ws(s[k]),
        a == s.len() || !is_ws(s[a]),
    ensures
        trim_start_spec(s) == s.subrange(a, s.len() as int),
    decreases a,
{
    if a == 0 {
        assert(s.subrange(0, s.len() as int) =~= s);
    } else {
        lemma_trim_start_at(s.drop_first(), a - 1);
        assert(s.drop_first().subrange(a - 1, s.drop_first().len() as int) =~= s.subrange(
            a,
            s.len() as int,
        ));
    }
}

proof fn lemma_trim_end_at(s: Seq<char>, b: int)
    requires
        0 <= b <= s.len(),
        forall|k: int| b <= k < s.len() ==> is_ws(s[k]),
        b == 0 || !is_ws(s[b - 1]),
    ensures
        trim_end_spec(s) == s.subrange(0, b),
    decreases s.len(),
{
    if b == s.len() {
        assert(s.subrange(0, b) =~= s);
    } else {
        assert(is_ws(s[s.len() - 1]));
        lemma_trim_end_at(s.drop_last(), b);
        assert(s.drop_last().subrange(0, b) =~= s.subrange(0, b));
    }
}

/// What `str::trim` returns on `s`: both ends stripped of whitespace.
pub fn str_trim<'a>(s: &'a str) -> (r: &'a str)
    ensures
        r@ == trim_spec(s@),
{
    let len = s.unicode_len();
    let mut a: usize = 0;
    while a < len && is_ws_char(s.get_char(a))
        invariant
            len == s@.len(),
            a <= len,
            forall|k: int| 0 <= k < a ==> is_ws(s@[k]),
        decreases len - a,
    {
        a = a + 1;
    }
    proof {
        lemma_trim_start_at(s@, a as int);
    }
    if a == len {
        let r = s.substring_char(a, a);
        proof {
            assert(trim_start_spec(s@) =~= Seq::<char>::empty());
            assert(trim_spec(s@) =~= s@.subrange(a as int, a as int));
        }
        return r;
    }
    let mut b: usize = len;
    while b > a && is_ws_char(s.get_char(b - 1))
        invariant
            len == s@.len(),
            a < len,
            a <= b <= len,
            !is_ws(s@[a as int]),
            forall|k: int| b <= k < len ==> is_ws(s@[k]),
        decreases b,
    {
        b = b - 1;
    }
    let r = s.substring_char(a, b);
    proof {
        let t = trim_start_spec(s@);
        assert(t == s@.subrange(a as int, len as int));
        assert(b > a);
        assert(!is_ws(s@[b - 1]));
        assert forall|k: int| b - a <= k < t.len() implies is_ws(t[k]) by {
            assert(t[k] == s@[k + a]);
        }
        assert(t[b - a - 1] == s@[b - 1]);
        lemma_trim_end_at(t, b - a);
        assert(t.subrange(0, b - a) =~= s@.subrange(a as int, b as int));
    }
    r
}

/// Index of the first newline in `s`, or `s.len()` if there is none.
pub open spec fn find_nl(s: Seq<char>) -> int
    decreases s.len(),
{
    if s.len() == 0 {
        0
    } else if s[0] == '\n' {
        0
    } else {
        1 + find_nl(s.drop_first())
    }
}

proof fn lemma_find_nl_bounds(s: Seq<char>)
    ensures
        0 <= find_nl(s) <= s.len(),
    decreases s.len(),
{
    if s.len() > 0 && s[0] != '\n' {
        lemma_find_nl_bounds(s.drop_first());
    }
}

proof fn lemma_find_nl_unique(s: Seq<char>, i: int)
    requires
        0 <= i <= s.len(),
        forall|k: int| 0 <= k < i ==> s[k] != '\n',
        i == s.len() || s[i] == '\n',
    ensures
        find_nl(s) == i,
    decreases i,
{
    if i == 0 {
    } else {
        lemma_find_nl_unique(s.drop_first(), i - 1);
    }
}

/// `l` with one trailing carriage return removed, if it has one.
pub open spec fn strip_cr(l: Seq<char>) -> Seq<char> {
    if l.len() > 0 && l[l.len() - 1] == '\r' {
        l.drop_last()
    } else {
        l
    }
}

/// What `str::lines` yields on `s`: segments split at `'\n'`, a carriage
/// return stripped from a segment only when a newline followed it, and a
/// final empty segment dropped.
pub open spec fn split_lines_spec(s: Seq<char>) -> Seq<Seq<char>>
    decreases s.len(),
    via split_lines_spec_decreases
{
    if s.len() == 0 {
        Seq::empty()
    } else {
        let i = find_nl(s);
        if i == s.len() {
            seq![s]
        } else {
            seq![strip_cr(s.subrange(0, i))] + split_lines_spec(s.skip(i + 1))
        }
    }
}

#[via_fn]
proof fn split_lines_spec_decreases(s: Seq<char>) {
    lemma_find_nl_bounds(s);
}

/// The lines of `s`, as `str::lines` yields them.
pub fn split_lines(s: &str) -> (r: Vec<String>)
    ensures
        r.deep_view() == split_lines_spec(s@),
{
    let len = s.unicode_len();
    let mut out: Vec<String> = Vec::new();
    let mut pos: usize = 0;
    proof {
        assert(s@.skip(0) =~= s@);
    }
    while pos < len
        invariant
            len == s@.len(),
            pos <= len,
            split_lines_spec(s@) == out.deep_view() + split_lines_spec(s@.skip(pos as int)),
        decreases len - pos,
    {
        let ghost prev_dv = out.deep_view();
        let ghost t = s@.skip(pos as int);
        let mut j: usize = pos;
        while j < len && s.get_char(j) != '\n'
            invariant
                len == s@.len(),
                pos <= j <= len,
                forall|k: int| pos <= k < j ==> s@[k] != '\n',
            decreases len - j,
        {
            j = j + 1;
        }
        proof {
            assert forall|k: int| 0 <= k < j - pos implies t[k] != '\n' by {
                assert(t[k] == s@[k + pos]);
            }
            if j < len {
                assert(t[j - pos] == s@[j as int]);
            }
            lemma_find_nl_unique(t, j - pos);
        }
        if j == len {
            let line = s.substring_char(pos, j).to_owned();
            proof {
                assert(t =~= s@.subrange(pos as int, j as int));
                assert(split_lines_spec(t) == seq![t]);
                assert(out.deep_view().push(line@) =~= prev_dv + seq![t]);
                assert(prev_dv + seq![t] =~= prev_dv + split_lines_spec(t));
            }
            out.push(line);
            proof {
                assert(out.deep_view() =~= prev_dv.push(s@.subrange(pos as int, j as int)));
                assert(out.deep_view() =~= prev_dv + split_lines_spec(t));
                assert(s@.skip(len as int) =~= Seq::<char>::empty());
                assert(out.deep_view() + split_lines_spec(s@.skip(len as int)) =~= out.deep_view());
            }
            pos = len;
        } else {
            let line_end: usize = if j > pos && s.get_char(j - 1) == '\r' {
                j - 1
            } else {
                j
            };
            let line = s.substring_char(pos, line_end).to_owned();
            proof {
                let seg = t.subrange(0, j - pos);
                assert(seg =~= s@.subrange(pos as int, j as int));
                if j > pos && s@[j - 1] == '\r' {
                    assert(seg.len() > 0 && seg[seg.len() - 1] == '\r');
                    assert(strip_cr(seg) =~= s@.subrange(pos as int, line_end as int));
                } else {
                    if seg.len() > 0 {
                        assert(seg[seg.len() - 1] == s@[j - 1]);
                    }
                    assert(strip_cr(seg) =~= s@.subrange(pos as int, line_end as int));
                }
                assert(line@ == strip_cr(seg));
                assert(split_lines_spec(t) == seq![strip_cr(seg)] + split_lines_spec(
                    t.skip(j - pos + 1),
                ));
                assert(t.skip(j - pos + 1) =~= s@.skip(j + 1));
            }
            out.push(line);
            proof {
                assert(out.deep_view() =~= prev_dv.push(strip_cr(t.subrange(0, j - pos))));
                assert(out.deep_view() + split_lines_spec(s@.skip(j + 1)) =~= prev_dv
                    + split_lines_spec(t));
            }
            pos = j + 1;
        }
    }
    proof {
        assert(s@.skip(pos as int) =~= Seq::<char>::empty());
        assert(out.deep_view() + split_lines_spec(s@.skip(pos as int)) =~= out.deep_view());
    }
    out
}

} // verus!
