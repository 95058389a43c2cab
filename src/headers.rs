//! Request headers gathered into a name-to-value mapping: the last value of
//! a name wins, and a value that does not read as text is left out.
use vstd::prelude::*;
use crate::text::{ascii_chars, visible_text, is_text_value};

verus! {

/// The headers of a request as names and raw values, in the order received.
pub open spec fn header_seq(h: Seq<(String, Vec<u8>)>) -> Seq<(Seq<char>, Seq<u8>)> {
    h.map_values(|p: (String, Vec<u8>)| (p.0@, p.1@))
}

/// Name/value pairs of text, as held in a reply.
pub open spec fn pair_seq(v: Seq<(String, String)>) -> Seq<(Seq<char>, Seq<char>)> {
    v.map_values(|p: (String, String)| (p.0@, p.1@))
}

/// The mapping a reply reports for the given request headers: each header in
/// turn sets its name to its value read as text, unless the value is not text.
pub open spec fn header_map(h: Seq<(Seq<char>, Seq<u8>)>) -> Map<Seq<char>, Seq<char>>
    decreases h.len(),
{
    if h.len() == 0 {
        Map::empty()
    } else {
        let m = header_map(h.drop_last());
        let last = h.last();
        if is_text_value(last.1) {
            m.insert(last.0, ascii_chars(last.1))
        } else {
            m
        }
    }
}

/// The mapping that a list of pairs stands for, later pairs overriding earlier ones.
pub open spec fn pairs_map(p: Seq<(Seq<char>, Seq<char>)>) -> Map<Seq<char>, Seq<char>>
    decreases p.len(),
{
    if p.len() == 0 {
        Map::empty()
    } else {
        pairs_map(p.drop_last()).insert(p.last().0, p.last().1)
    }
}

/// No name occurs twice.
pub open spec fn distinct_names<V>(p: Seq<(Seq<char>, V)>) -> bool {
    forall|i: int, j: int| 0 <= i < j < p.len() ==> #[trigger] p[i].0 != #[trigger] p[j].0
}

/// The pairs of a reply and the mapping they stand for agree: with distinct
/// names, each pair is an entry of the mapping, and every name in the mapping
/// is carried by some pair.
pub proof fn lemma_pairs_map_entries(p: Seq<(Seq<char>, Seq<char>)>)
    requires
        distinct_names(p),
    ensures
        forall|i: int|
            0 <= i < p.len() ==> pairs_map(p).contains_key(#[trigger] p[i].0) && pairs_map(p)[p[i].0]
                == p[i].1,
        forall|k: Seq<char>|
            #[trigger] pairs_map(p).contains_key(k) ==> exists|i: int| 0 <= i < p.len() && p[i].0 == k,
    decreases p.len(),
{
    if p.len() > 0 {
        let q = p.drop_last();
        assert(distinct_names(q)) by {
            assert forall|a: int, b: int| 0 <= a < b < q.len() implies #[trigger] q[a].0
                != #[trigger] q[b].0 by {
                assert(p[a].0 != p[b].0);
            }
        }
        lemma_pairs_map_entries(q);
        assert forall|i: int| 0 <= i < p.len() implies pairs_map(p).contains_key(#[trigger] p[i].0)
            && pairs_map(p)[p[i].0] == p[i].1 by {
            if i < q.len() {
                assert(q[i].0 == p[i].0);
                assert(p[i].0 != p[p.len() - 1].0);
            }
        }
        assert forall|k: Seq<char>| #[trigger] pairs_map(p).contains_key(k) implies exists|i: int|
            0 <= i < p.len() && p[i].0 == k by {
            if k != p.last().0 {
                assert(pairs_map(q).contains_key(k));
                let i = choose|i: int| 0 <= i < q.len() && q[i].0 == k;
                assert(p[i].0 == k);
            } else {
                assert(p[p.len() - 1].0 == k);
            }
        }
    }
}

proof fn lemma_pairs_map_update(p: Seq<(Seq<char>, Seq<char>)>, j: int, v: Seq<char>)
    requires
        distinct_names(p),
        0 <= j < p.len(),
    ensures
        pairs_map(p.update(j, (p[j].0, v))) == pairs_map(p).insert(p[j].0, v),
    decreases p.len(),
{
    let u = p.update(j, (p[j].0, v));
    let q = p.drop_last();
    if j == p.len() - 1 {
        assert(u.drop_last() =~= q);
        assert(pairs_map(u) =~= pairs_map(p).insert(p[j].0, v));
    } else {
        assert(u.drop_last() =~= q.update(j, (q[j].0, v)));
        assert(distinct_names(q)) by {
            assert forall|a: int, b: int| 0 <= a < b < q.len() implies #[trigger] q[a].0
                != #[trigger] q[b].0 by {
                assert(p[a].0 != p[b].0);
            }
        }
        lemma_pairs_map_update(q, j, v);
        assert(p[j].0 != p.last().0);
        assert(pairs_map(u) =~= pairs_map(p).insert(p[j].0, v));
    }
}

/// Looks up the position of a name among the pairs.
fn find_name(out: &Vec<(String, String)>, name: &String) -> (r: Option<usize>)
    ensures
        r matches Some(j) ==> j < out@.len() && pair_seq(out@)[j as int].0 == name@,
        r is None ==> forall|j: int| 0 <= j < out@.len() ==> #[trigger] pair_seq(out@)[j].0 != name@,
{
    let mut j: usize = 0;
    while j < out.len()
        invariant
            j <= out@.len(),
            forall|a: int| 0 <= a < j ==> #[trigger] pair_seq(out@)[a].0 != name@,
        decreases out@.len() - j,
    {
        if out[j].0 == *name {
            return Some(j);
        }
        j = j + 1;
    }
    None
}

/// Gathers the request headers into name/value pairs of text: one pair per
/// distinct name, holding the last text value that the name was given.
pub fn copy_headers(headers: &Vec<(String, Vec<u8>)>) -> (r: Vec<(String, String)>)
    ensures
        distinct_names(pair_seq(r@)),
        pairs_map(pair_seq(r@)) == header_map(header_seq(headers@)),
{
    let mut out: Vec<(String, String)> = Vec::new();
    let n = headers.len();
    let mut i: usize = 0;
    while i < n
        invariant
            n == headers@.len(),
            i <= n,
            distinct_names(pair_seq(out@)),
            pairs_map(pair_seq(out@)) == header_map(header_seq(headers@).take(i as int)),
        decreases n - i,
    {
        let ghost h = header_seq(headers@);
        assert(h.take(i + 1).drop_last() =~= h.take(i as int));
        let name = &headers[i].0;
        match visible_text(&headers[i].1) {
            Some(text) => {
                let ghost before = pair_seq(out@);
                match find_name(&out, name) {
                    Some(j) => {
                        proof {
                            lemma_pairs_map_update(before, j as int, text@);
                        }
                        out.set(j, (name.clone(), text));
                        assert(pair_seq(out@) =~= before.update(j as int, (before[j as int].0, text@)));
                    },
                    None => {
                        out.push((name.clone(), text));
                        assert(pair_seq(out@).drop_last() =~= before);
                        assert forall|a: int, b: int|
                            0 <= a < b < pair_seq(out@).len() implies #[trigger] pair_seq(out@)[a].0
                            != #[trigger] pair_seq(out@)[b].0 by {
                            if b == before.len() {
                                assert(before[a].0 != name@);
                            } else {
                                assert(before[a].0 != before[b].0);
                            }
                        }
                    },
                }
            },
            None => {},
        }
        i = i + 1;
    }
    assert(header_seq(headers@).take(n as int) =~= header_seq(headers@));
    out
}

} // verus!
