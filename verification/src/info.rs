//! The request snapshot: headers, cookies and query parameters of one
//! captured request, normalised into unique-keyed association lists. The
//! cookie header is consumed by the cookie parser and excluded from the
//! general header mapping; repeated query keys keep every value in arrival
//! order.

use crate::assoc::{akeys_unique, amap, lemma_amap_dom, lemma_amap_lookup, lemma_amap_push,
    lemma_amap_replace};
use crate::text::str_eq;
use vstd::prelude::*;
use vstd::string::StrSliceExecFns;

verus! {

/// The viewed form of a list of string pairs.
pub open spec fn pv(es: Seq<(String, String)>) -> Seq<(Seq<char>, Seq<char>)> {
    es.map_values(|p: (String, String)| (p.0@, p.1@))
}

/// The viewed form of a list of strings.
pub open spec fn strs(ss: Seq<String>) -> Seq<Seq<char>> {
    ss.map_values(|s: String| s@)
}

/// The viewed form of a grouped parameter list.
pub open spec fn ev(es: Seq<(String, Vec<String>)>) -> Seq<(Seq<char>, Seq<Seq<char>>)> {
    es.map_values(|p: (String, Vec<String>)| (p.0@, strs(p.1@)))
}

/// The header name `cookie`, in any letter case.
pub open spec fn is_cookie_name(s: Seq<char>) -> bool {
    s.len() == 6 && (s[0] == 'c' || s[0] == 'C') && (s[1] == 'o' || s[1] == 'O') && (s[2] == 'o'
        || s[2] == 'O') && (s[3] == 'k' || s[3] == 'K') && (s[4] == 'i' || s[4] == 'I') && (s[5]
        == 'e' || s[5] == 'E')
}

/// The general header mapping: every header folded in, a later duplicate
/// winning, the cookie header skipped.
pub open spec fn header_map(hs: Seq<(Seq<char>, Seq<char>)>) -> Map<Seq<char>, Seq<char>>
    decreases hs.len(),
{
    if hs.len() == 0 {
        Map::empty()
    } else {
        let m = header_map(hs.drop_last());
        if is_cookie_name(hs.last().0) {
            m
        } else {
            m.insert(hs.last().0, hs.last().1)
        }
    }
}

/// What the cookie parser finds in one cookie header's text: the cookies'
/// names and trimmed values, in order.
pub uninterp spec fn cookies_of(s: Seq<char>) -> Seq<(Seq<char>, Seq<char>)>;

/// Folds a run of cookie pairs into a map, a later duplicate winning.
pub open spec fn insert_all(
    m: Map<Seq<char>, Seq<char>>,
    ps: Seq<(Seq<char>, Seq<char>)>,
) -> Map<Seq<char>, Seq<char>>
    decreases ps.len(),
{
    if ps.len() == 0 {
        m
    } else {
        insert_all(m, ps.drop_last()).insert(ps.last().0, ps.last().1)
    }
}

/// The cookie mapping: the parsed content of every cookie header, in
/// header order, a later duplicate name winning.
pub open spec fn cookie_map(hs: Seq<(Seq<char>, Seq<char>)>) -> Map<Seq<char>, Seq<char>>
    decreases hs.len(),
{
    if hs.len() == 0 {
        Map::empty()
    } else {
        let m = cookie_map(hs.drop_last());
        if is_cookie_name(hs.last().0) {
            insert_all(m, cookies_of(hs.last().1))
        } else {
            m
        }
    }
}

/// The grouped query parameters: each occurrence of a key appends its
/// value to that key's list, in arrival order.
pub open spec fn group_params(ps: Seq<(Seq<char>, Seq<char>)>) -> Map<Seq<char>, Seq<Seq<char>>>
    decreases ps.len(),
{
    if ps.len() == 0 {
        Map::empty()
    } else {
        let m = group_params(ps.drop_last());
        let k = ps.last().0;
        let v = ps.last().1;
        m.insert(
            k,
            if m.dom().contains(k) {
                m[k].push(v)
            } else {
                seq![v]
            },
        )
    }
}

/// Grouping loses nothing and keeps order: a key's list is exactly the
/// values that arrived under that key, in arrival order.
pub proof fn lemma_group_params_filter(ps: Seq<(Seq<char>, Seq<char>)>, k: Seq<char>)
    ensures
        group_params(ps).dom().contains(k) <==> ps.filter(
            |p: (Seq<char>, Seq<char>)| p.0 == k,
        ).len() > 0,
        group_params(ps).dom().contains(k) ==> group_params(ps)[k] == ps.filter(
            |p: (Seq<char>, Seq<char>)| p.0 == k,
        ).map_values(|p: (Seq<char>, Seq<char>)| p.1),
    decreases ps.len(),
{
    reveal_with_fuel(Seq::filter, 2);
    if ps.len() > 0 {
        lemma_group_params_filter(ps.drop_last(), k);
        let pred = |p: (Seq<char>, Seq<char>)| p.0 == k;
        assert(ps.drop_last().push(ps.last()) =~= ps);
        Seq::filter_distributes_over_add(ps.drop_last(), seq![ps.last()], pred);
        assert(ps.drop_last() + seq![ps.last()] =~= ps);
        if ps.last().0 == k {
            assert(seq![ps.last()].filter(pred) =~= seq![ps.last()]);
            assert(ps.filter(pred) =~= ps.drop_last().filter(pred).push(ps.last()));
            if group_params(ps.drop_last()).dom().contains(k) {
                assert(ps.filter(pred).map_values(|p: (Seq<char>, Seq<char>)| p.1) =~= ps.drop_last().filter(
                    pred,
                ).map_values(|p: (Seq<char>, Seq<char>)| p.1).push(ps.last().1));
            } else {
                assert(ps.drop_last().filter(pred).len() == 0);
                assert(ps.filter(pred) =~= seq![ps.last()]);
                assert(ps.filter(pred).map_values(|p: (Seq<char>, Seq<char>)| p.1) =~= seq![
                    ps.last().1,
                ]);
            }
        } else {
            assert(seq![ps.last()].filter(pred) =~= Seq::<(Seq<char>, Seq<char>)>::empty());
            assert(ps.filter(pred) =~= ps.drop_last().filter(pred));
        }
    }
}

/// One captured request's ancillary data, normalised: unique-keyed header
/// and cookie mappings, and query parameters grouped with every occurrence
/// kept in order.
#[derive(Clone, Debug)]
pub struct RequestInfo {
    pub headers: Vec<(String, String)>,
    pub cookies: Vec<(String, String)>,
    pub query_params: Vec<(String, Vec<String>)>,
}

impl RequestInfo {
    /// All three association lists carry unique keys, and no header entry
    /// is a cookie header.
    pub open spec fn wf(self) -> bool {
        &&& akeys_unique(pv(self.headers@))
        &&& akeys_unique(pv(self.cookies@))
        &&& akeys_unique(ev(self.query_params@))
        &&& forall|i: int|
            0 <= i < self.headers@.len() ==> !is_cookie_name((#[trigger] pv(self.headers@)[i]).0)
    }
}

/// Relies on `cookie::Cookie::split_parse_encoded` and `value_trimmed`:
/// splits one cookie header's text on `;`, parses each piece with
/// percent-decoding, and keeps the parseable ones, so the result depends on
/// the header text alone.
#[verifier::external_body]
fn parse_cookie_header(value: &str) -> (r: Vec<(String, String)>)
    ensures
        pv(r@) == cookies_of(value@),
{
    cookie::Cookie::split_parse_encoded(value)
        .filter_map(|c| c.ok())
        .map(|c| (c.name().to_string(), c.value_trimmed().to_string()))
        .collect()
}

/// Whether a header name is `cookie`, compared without regard to ASCII
/// letter case.
pub fn is_cookie_header(name: &str) -> (r: bool)
    ensures
        r == is_cookie_name(name@),
{
    let n = name.unicode_len();
    if n != 6 {
        return false;
    }
    let c0 = name.get_char(0);
    let c1 = name.get_char(1);
    let c2 = name.get_char(2);
    let c3 = name.get_char(3);
    let c4 = name.get_char(4);
    let c5 = name.get_char(5);
    (c0 == 'c' || c0 == 'C') && (c1 == 'o' || c1 == 'O') && (c2 == 'o' || c2 == 'O') && (c3 == 'k'
        || c3 == 'K') && (c4 == 'i' || c4 == 'I') && (c5 == 'e' || c5 == 'E')
}

/// Replaces the entry under `k`, or appends one: exactly one insertion into
/// the denoted map, and the new key came from the call.
fn upsert_pair(v: &mut Vec<(String, String)>, k: String, val: String)
    requires
        akeys_unique(pv(old(v)@)),
    ensures
        akeys_unique(pv(final(v)@)),
        amap(pv(final(v)@)) == amap(pv(old(v)@)).insert(k@, val@),
        forall|i: int|
            0 <= i < pv(final(v)@).len() ==> (#[trigger] pv(final(v)@)[i]).0 == k@ || (exists|j: int|
                0 <= j < pv(old(v)@).len() && (#[trigger] pv(old(v)@)[j]).0 == pv(final(v)@)[i].0),
{
    let n = v.len();
    let mut i: usize = 0;
    while i < n
        invariant
            0 <= i <= n,
            n == v@.len(),
            v@ == old(v)@,
            akeys_unique(pv(v@)),
            forall|j: int| 0 <= j < i ==> (#[trigger] pv(v@)[j]).0 != k@,
        decreases n - i,
    {
        if str_eq(v[i].0.as_str(), k.as_str()) {
            proof {
                assert(pv(v@)[i as int].0 == k@);
                lemma_amap_replace(pv(v@), i as int, val@);
            }
            let _ = v.remove(i);
            v.push((k, val));
            proof {
                assert(pv(v@) =~= pv(old(v)@).remove(i as int).push((k@, val@)));
                assert forall|a: int| 0 <= a < pv(v@).len() implies (#[trigger] pv(v@)[a]).0 == k@
                    || (exists|j: int|
                    0 <= j < pv(old(v)@).len() && (#[trigger] pv(old(v)@)[j]).0 == pv(
                        v@,
                    )[a].0) by {
                    if a < pv(v@).len() - 1 {
                        let j = if a < i as int {
                            a
                        } else {
                            a + 1
                        };
                        assert(pv(old(v)@)[j] == pv(v@)[a]);
                    }
                }
            }
            return ;
        }
        i = i + 1;
    }
    proof {
        lemma_amap_dom(pv(v@), k@);
        lemma_amap_push(pv(v@), k@, val@);
    }
    v.push((k, val));
    proof {
        assert(pv(v@) =~= pv(old(v)@).push((k@, val@)));
        assert forall|a: int, b: int| 0 <= a < b < pv(v@).len() implies (#[trigger] pv(v@)[a]).0
            != (#[trigger] pv(v@)[b]).0 by {
            if b < pv(v@).len() - 1 {
                assert(pv(old(v)@)[a] == pv(v@)[a] && pv(old(v)@)[b] == pv(v@)[b]);
            } else {
                assert(pv(v@)[a] == pv(old(v)@)[a]);
                assert(pv(old(v)@)[a].0 != k@);
            }
        }
    }
}

/// Appends `val` to the list under `k`, creating the list at the key's
/// first occurrence: exactly the grouping step.
fn upsert_param(v: &mut Vec<(String, Vec<String>)>, k: String, val: String)
    requires
        akeys_unique(ev(old(v)@)),
    ensures
        akeys_unique(ev(final(v)@)),
        amap(ev(final(v)@)) == amap(ev(old(v)@)).insert(
            k@,
            if amap(ev(old(v)@)).dom().contains(k@) {
                amap(ev(old(v)@))[k@].push(val@)
            } else {
                seq![val@]
            },
        ),
{
    let n = v.len();
    let mut i: usize = 0;
    while i < n
        invariant
            0 <= i <= n,
            n == v@.len(),
            v@ == old(v)@,
            akeys_unique(ev(v@)),
            forall|j: int| 0 <= j < i ==> (#[trigger] ev(v@)[j]).0 != k@,
        decreases n - i,
    {
        if str_eq(v[i].0.as_str(), k.as_str()) {
            proof {
                assert(ev(v@)[i as int].0 == k@);
                lemma_amap_lookup(ev(v@), i as int);
                lemma_amap_replace(ev(v@), i as int, ev(v@)[i as int].1.push(val@));
            }
            let mut entry = v.remove(i);
            entry.1.push(val);
            let ghost new_list = entry.1@;
            v.push(entry);
            proof {
                assert(strs(new_list) =~= amap(ev(old(v)@))[k@].push(val@));
                assert(ev(v@) =~= ev(old(v)@).remove(i as int).push(
                    (k@, amap(ev(old(v)@))[k@].push(val@)),
                ));
            }
            return ;
        }
        i = i + 1;
    }
    proof {
        lemma_amap_dom(ev(v@), k@);
        lemma_amap_push(ev(v@), k@, seq![val@]);
    }
    let mut list: Vec<String> = Vec::new();
    list.push(val);
    let ghost new_list = list@;
    v.push((k, list));
    proof {
        assert(strs(new_list) =~= seq![new_list[0]@]);
        assert(ev(v@) =~= ev(old(v)@).push((k@, strs(new_list))));
        assert forall|a: int, b: int| 0 <= a < b < ev(v@).len() implies (#[trigger] ev(v@)[a]).0
            != (#[trigger] ev(v@)[b]).0 by {
            if b < ev(v@).len() - 1 {
                assert(ev(old(v)@)[a] == ev(v@)[a] && ev(old(v)@)[b] == ev(v@)[b]);
            } else {
                assert(ev(v@)[a] == ev(old(v)@)[a]);
                assert(ev(old(v)@)[a].0 != k@);
            }
        }
    }
}

impl RequestInfo {
    /// Builds the snapshot from the raw header pairs and the raw query
    /// pairs: cookie headers are parsed into the cookie mapping and kept
    /// out of the header mapping (matched without regard to letter case);
    /// duplicate header names collapse to the last value; every query
    /// occurrence is kept, grouped by key in arrival order.
    pub fn from_parts(headers: &Vec<(String, String)>, query_params: Vec<(String, String)>) -> (r:
        RequestInfo)
        ensures
            r.wf(),
            amap(pv(r.headers@)) == header_map(pv(headers@)),
            amap(pv(r.cookies@)) == cookie_map(pv(headers@)),
            amap(ev(r.query_params@)) == group_params(pv(query_params@)),
    {
        let mut hacc: Vec<(String, String)> = Vec::new();
        let mut cacc: Vec<(String, String)> = Vec::new();
        let n = headers.len();
        let mut i: usize = 0;
        proof {
            assert(pv(headers@).take(0) =~= Seq::<(Seq<char>, Seq<char>)>::empty());
        }
        while i < n
            invariant
                0 <= i <= n,
                n == headers@.len(),
                akeys_unique(pv(hacc@)),
                akeys_unique(pv(cacc@)),
                amap(pv(hacc@)) == header_map(pv(headers@).take(i as int)),
                amap(pv(cacc@)) == cookie_map(pv(headers@).take(i as int)),
                forall|j: int|
                    0 <= j < pv(hacc@).len() ==> !is_cookie_name((#[trigger] pv(hacc@)[j]).0),
            decreases n - i,
        {
            let ghost pre = pv(headers@).take(i as int);
            let ghost cur = pv(headers@)[i as int];
            proof {
                assert(pv(headers@).take(i + 1).drop_last() =~= pre);
                assert(pv(headers@).take(i + 1).last() == cur);
            }
            let name = &headers[i].0;
            let value = &headers[i].1;
            if is_cookie_header(name.as_str()) {
                let parsed = parse_cookie_header(value.as_str());
                let m = parsed.len();
                let mut j: usize = 0;
                proof {
                    assert(cookies_of(value@).take(0) =~= Seq::<(Seq<char>, Seq<char>)>::empty());
                }
                while j < m
                    invariant
                        0 <= j <= m,
                        m == parsed@.len(),
                        pv(parsed@) == cookies_of(value@),
                        akeys_unique(pv(cacc@)),
                        amap(pv(cacc@)) == insert_all(
                            cookie_map(pv(headers@).take(i as int)),
                            cookies_of(value@).take(j as int),
                        ),
                    decreases m - j,
                {
                    proof {
                        assert(cookies_of(value@).take(j + 1).drop_last() =~= cookies_of(
                            value@,
                        ).take(j as int));
                        assert(cookies_of(value@).take(j + 1).last() == pv(parsed@)[j as int]);
                    }
                    upsert_pair(&mut cacc, parsed[j].0.clone(), parsed[j].1.clone());
                    j = j + 1;
                }
                proof {
                    assert(cookies_of(value@).take(m as int) =~= cookies_of(value@));
                    assert(cookie_map(pv(headers@).take(i + 1)) == insert_all(
                        cookie_map(pre),
                        cookies_of(cur.1),
                    ));
                    assert(cur.1 == value@);
                }
            } else {
                upsert_pair(&mut hacc, name.clone(), value.clone());
                proof {
                    assert(cur.0 == name@ && cur.1 == value@);
                    assert(!is_cookie_name(cur.0));
                }
            }
            i = i + 1;
        }
        proof {
            assert(pv(headers@).take(n as int) =~= pv(headers@));
        }
        let mut qacc: Vec<(String, Vec<String>)> = Vec::new();
        let qn = query_params.len();
        let mut qi: usize = 0;
        proof {
            assert(pv(query_params@).take(0) =~= Seq::<(Seq<char>, Seq<char>)>::empty());
        }
        while qi < qn
            invariant
                0 <= qi <= qn,
                qn == query_params@.len(),
                akeys_unique(ev(qacc@)),
                amap(ev(qacc@)) == group_params(pv(query_params@).take(qi as int)),
            decreases qn - qi,
        {
            proof {
                assert(pv(query_params@).take(qi + 1).drop_last() =~= pv(query_params@).take(
                    qi as int,
                ));
                assert(pv(query_params@).take(qi + 1).last() == pv(query_params@)[qi as int]);
            }
            upsert_param(&mut qacc, query_params[qi].0.clone(), query_params[qi].1.clone());
            qi = qi + 1;
        }
        proof {
            assert(pv(query_params@).take(qn as int) =~= pv(query_params@));
        }
        RequestInfo { headers: hacc, cookies: cacc, query_params: qacc }
    }
}

} // verus!
