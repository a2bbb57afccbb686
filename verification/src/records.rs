//! Record payloads: the JSON object of string records an event carries, and
//! the `key=value` arguments the authoring side turns into one.

use vstd::prelude::*;

verus! {

/// The views of a list of byte-pair rows.
pub open spec fn pairs_view(v: Seq<(Vec<u8>, Vec<u8>)>) -> Seq<(Seq<u8>, Seq<u8>)> {
    v.map_values(|p: (Vec<u8>, Vec<u8>)| (p.0@, p.1@))
}

/// The key/value pairs a records-event content decodes to, sorted by key,
/// or nothing when the content is not a JSON object of string to string.
pub uninterp spec fn json_records_of(content: Seq<u8>) -> Option<Seq<(Seq<u8>, Seq<u8>)>>;

/// Relies on `serde_json::from_slice` into an ordered map of strings: it
/// succeeds exactly on a JSON object whose values are all strings, and the
/// pairs depend on the content bytes alone.
#[verifier::external_body]
pub(crate) fn parse_record_map(content: &[u8]) -> (r: Option<Vec<(Vec<u8>, Vec<u8>)>>)
    ensures
        r matches Some(v) ==> json_records_of(content@) == Some(pairs_view(v@)),
        r is None ==> json_records_of(content@) is None,
{
    let m: std::collections::BTreeMap<String, String> = match serde_json::from_slice(content) {
        Ok(m) => m,
        Err(_) => {
            return None;
        },
    };
    Some(m.into_iter().map(|(k, v)| (k.into_bytes(), v.into_bytes())).collect())
}

/// The first position of `c` in `s`, or -1 when it never occurs.
pub open spec fn find_char(s: Seq<char>, c: char) -> int
    decreases s.len(),
{
    if s.len() == 0 {
        -1
    } else if s[0] == c {
        0
    } else {
        let r = find_char(s.drop_first(), c);
        if r < 0 {
            -1
        } else {
            1 + r
        }
    }
}

/// What [`find_char`] returns is the first occurrence, when there is one.
pub proof fn lemma_find_char(s: Seq<char>, c: char)
    ensures
        find_char(s, c) == -1 <==> (forall|i: int| 0 <= i < s.len() ==> s[i] != c),
        find_char(s, c) >= 0 ==> find_char(s, c) < s.len() && s[find_char(s, c)] == c && (forall|
            j: int,
        | 0 <= j < find_char(s, c) ==> s[j] != c),
    decreases s.len(),
{
    if s.len() > 0 && s[0] != c {
        let t = s.drop_first();
        lemma_find_char(t, c);
        if find_char(t, c) == -1 {
            assert forall|i: int| 0 <= i < s.len() implies s[i] != c by {
                if i > 0 {
                    assert(t[i - 1] == s[i]);
                    assert(t[i - 1] != c);
                }
            }
        } else {
            let r = find_char(t, c);
            assert(find_char(s, c) == 1 + r);
            assert(s[1 + r] == t[r]);
            assert forall|j: int| 0 <= j < 1 + r implies s[j] != c by {
                if j > 0 {
                    assert(s[j] == t[j - 1]);
                }
            }
        }
    }
}

/// Relies on `str::split_once` with `'='`: splits at the first `'='` when
/// one occurs, and refuses otherwise.
#[verifier::external_body]
fn split_once_eq(s: &str) -> (r: Option<(String, String)>)
    ensures
        ({
            let i = find_char(s@, '=');
            match r {
                Some(p) => i >= 0 && p.0@ == s@.subrange(0, i) && p.1@ == s@.subrange(
                    i + 1,
                    s@.len() as int,
                ),
                None => i == -1,
            }
        }),
{
    match s.split_once('=') {
        Some((a, b)) => Some((a.to_owned(), b.to_owned())),
        None => None,
    }
}

/// The uppercase folding of a string; depends on the characters alone.
pub uninterp spec fn upper_of(s: Seq<char>) -> Seq<char>;

/// Relies on `str::to_uppercase`.
#[verifier::external_body]
fn to_uppercase_string(s: &str) -> (r: String)
    ensures
        r@ == upper_of(s@),
{
    s.to_uppercase()
}

/// The views of a list of string-pair rows.
pub open spec fn pairs_str_view(v: Seq<(String, String)>) -> Seq<(Seq<char>, Seq<char>)> {
    v.map_values(|p: (String, String)| (p.0@, p.1@))
}

/// The views of a list of strings.
pub open spec fn strs_view(v: Seq<String>) -> Seq<Seq<char>> {
    v.map_values(|s: String| s@)
}

/// The record pairs a list of `key=value` arguments produces, in order:
/// each argument with an `'='` becomes one pair, split at the first `'='`,
/// its key folded to upper case; arguments without one are dropped. A later
/// pair with the same key overrides an earlier one wherever the list is read
/// as a map, matching the authoring side's map collection.
pub open spec fn spec_parse_records(rs: Seq<Seq<char>>) -> Seq<(Seq<char>, Seq<char>)>
    decreases rs.len(),
{
    if rs.len() == 0 {
        Seq::empty()
    } else {
        let rest = spec_parse_records(rs.drop_last());
        let s = rs.last();
        let i = find_char(s, '=');
        if i >= 0 {
            rest.push((upper_of(s.subrange(0, i)), s.subrange(i + 1, s.len() as int)))
        } else {
            rest
        }
    }
}

/// Turns `key=value` arguments into record pairs, keys normalized to upper
/// case.
pub fn parse_records(records: &[String]) -> (r: Vec<(String, String)>)
    ensures
        pairs_str_view(r@) == spec_parse_records(strs_view(records@)),
{
    let n = records.len();
    let mut out: Vec<(String, String)> = Vec::new();
    let mut i: usize = 0;
    while i < n
        invariant
            n == records@.len(),
            i <= n,
            pairs_str_view(out@) == spec_parse_records(strs_view(records@.subrange(0, i as int))),
        decreases n - i,
    {
        proof {
            let pre = strs_view(records@.subrange(0, i as int));
            let post = strs_view(records@.subrange(0, i + 1));
            assert(post.drop_last() =~= pre);
            assert(post.last() == records@[i as int]@);
        }
        match split_once_eq(records[i].as_str()) {
            Some((k, v)) => {
                let ghost out0 = out@;
                let ku = to_uppercase_string(k.as_str());
                out.push((ku, v));
                proof {
                    assert(pairs_str_view(out@) =~= pairs_str_view(out0).push(
                        (out@.last().0@, out@.last().1@),
                    ));
                }
            },
            None => {},
        }
        proof {
            assert(pairs_str_view(out@) =~= spec_parse_records(
                strs_view(records@.subrange(0, i + 1)),
            ));
        }
        i = i + 1;
    }
    proof {
        assert(records@.subrange(0, n as int) =~= records@);
    }
    out
}

} // verus!
