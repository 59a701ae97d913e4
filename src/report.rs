use vstd::prelude::*;
use crate::aggregate::{
    TrackEntry, count_sum, entry_correct, is_tally, keys_unique, lemma_plays_positive, plays_of,
    tally, total_ms, unkeyed, entry_count,
};
use crate::rank::{is_ranked, lemma_ranks_before, rank, ranks_before};
use crate::record::{entry_key, StreamEntry};
use crate::sums::lemma_sum_permutation;

verus! {

broadcast use vstd::seq_lib::group_to_multiset_ensures;

/// Aggregates the records by identity and returns the statistics in ranking order:
/// descending play count, ties by identity order.
pub fn group_entries(entries: &Vec<StreamEntry>) -> (r: Vec<TrackEntry>)
    requires
        total_ms(entries@) <= u64::MAX,
    ensures
        is_tally(r@, entries@),
        is_ranked(r@),
        count_sum(r@) + unkeyed(entries@) == entries@.len(),
{
    let t = tally(entries);
    let ghost tv = t@;
    let r = rank(t);
    proof {
        let s = entries@;
        assert forall|a: int| 0 <= a < r@.len() implies entry_correct(s, #[trigger] r@[a]) by {
            assert(r@.contains(r@[a]));
            assert(r@.to_multiset().count(r@[a]) > 0);
            assert(tv.contains(r@[a]));
        }
        assert forall|a: int, b: int| 0 <= a < b < r@.len() implies r@[a].key@ != r@[b].key@ by {
            assert(ranks_before(r@[a], r@[b]));
            assert(entry_correct(s, r@[a]));
            assert(entry_correct(s, r@[b]));
            lemma_ranks_before(r@[a], r@[b], r@[a]);
        }
        assert forall|j: int|
            0 <= j < s.len() && #[trigger] entry_key(s[j]) is Some implies exists|a: int|
                0 <= a < r@.len() && r@[a].key@ == entry_key(s[j])->0 by {
            let b = choose|b: int| 0 <= b < tv.len() && tv[b].key@ == entry_key(s[j])->0;
            assert(tv.contains(tv[b]));
            assert(tv.to_multiset().count(tv[b]) > 0);
            assert(r@.contains(tv[b]));
        }
        lemma_sum_permutation(r@, tv, entry_count());
    }
    r
}

} // verus!

verus! {

/// `v` holds, in ranking order, exactly the identities of the records with at least
/// `min_plays` plays, once each, with their statistics.
pub open spec fn is_top(v: Seq<TrackEntry>, s: Seq<StreamEntry>, min_plays: u64) -> bool {
    &&& keys_unique(v)
    &&& is_ranked(v)
    &&& forall|a: int| 0 <= a < v.len() ==> entry_correct(s, #[trigger] v[a]) && v[a].count >= min_plays
    &&& forall|j: int|
        0 <= j < s.len() && #[trigger] entry_key(s[j]) is Some && plays_of(s, entry_key(s[j])->0) >= min_plays
            ==> exists|a: int| 0 <= a < v.len() && v[a].key@ == entry_key(s[j])->0
}

/// No identity among the records reaches `min_plays` plays.
pub open spec fn none_reaches(s: Seq<StreamEntry>, min_plays: u64) -> bool {
    forall|j: int| 0 <= j < s.len() && #[trigger] entry_key(s[j]) is Some ==> plays_of(s, entry_key(s[j])->0) < min_plays
}

/// `t` is one of the first `i` entries of `g`.
pub open spec fn from_prefix(g: Seq<TrackEntry>, i: int, t: TrackEntry) -> bool {
    exists|b: int| 0 <= b < i && #[trigger] g[b] == t
}

proof fn lemma_top_from_tally(s: Seq<StreamEntry>, g: Seq<TrackEntry>, o: Seq<TrackEntry>, min_plays: u64)
    requires
        is_tally(g, s),
        forall|a: int| 0 <= a < o.len() ==> from_prefix(g, g.len() as int, #[trigger] o[a]),
        forall|b: int| 0 <= b < g.len() && (#[trigger] g[b]).count >= min_plays ==> o.contains(g[b]),
        forall|a: int| 0 <= a < o.len() ==> (#[trigger] o[a]).count >= min_plays,
        is_ranked(o),
    ensures
        is_top(o, s, min_plays),
        o.len() == 0 <==> none_reaches(s, min_plays),
{
    assert forall|a: int| 0 <= a < o.len() implies entry_correct(s, #[trigger] o[a]) && o[a].count >= min_plays by {
        assert(from_prefix(g, g.len() as int, o[a]));
        let b = choose|b: int| 0 <= b < g.len() && o[a] == g[b];
        assert(entry_correct(s, g[b]));
    }
    assert forall|a: int, b: int| 0 <= a < b < o.len() implies o[a].key@ != o[b].key@ by {
        assert(ranks_before(o[a], o[b]));
        assert(entry_correct(s, o[a]));
        assert(entry_correct(s, o[b]));
        lemma_ranks_before(o[a], o[b], o[a]);
    }
    assert forall|j: int|
        0 <= j < s.len() && #[trigger] entry_key(s[j]) is Some && plays_of(s, entry_key(s[j])->0) >= min_plays
            implies exists|a: int| 0 <= a < o.len() && o[a].key@ == entry_key(s[j])->0 by {
        let b = choose|b: int| 0 <= b < g.len() && g[b].key@ == entry_key(s[j])->0;
        assert(entry_correct(s, g[b]));
        assert(g[b].count >= min_plays);
        assert(o.contains(g[b]));
        let a = choose|a: int| 0 <= a < o.len() && o[a] == g[b];
        assert(o[a].key@ == entry_key(s[j])->0);
    }
    if o.len() > 0 {
        assert(entry_correct(s, o[0]));
        lemma_plays_positive(s, o[0].key@);
        let j = choose|j: int| 0 <= j < s.len() && entry_key(s[j]) == Some(o[0].key@);
        assert(entry_key(s[j]) is Some);
    }
}

/// The ranked tracks with at least `min_plays` plays; `None` when there is none.
pub fn top(entries: &Vec<StreamEntry>, min_plays: u64) -> (r: Option<Vec<TrackEntry>>)
    requires
        total_ms(entries@) <= u64::MAX,
    ensures
        r is None <==> none_reaches(entries@, min_plays),
        r matches Some(v) ==> is_top(v@, entries@, min_plays) && v@.len() > 0,
{
    let ghost s = entries@;
    let grouped = group_entries(entries);
    let mut out: Vec<TrackEntry> = Vec::new();
    let mut i: usize = 0;
    let ghost g = grouped@;
    while i < grouped.len()
        invariant
            g == grouped@,
            i <= g.len(),
            is_tally(g, s),
            is_ranked(g),
            forall|a: int| 0 <= a < out@.len() ==> from_prefix(g, i as int, #[trigger] out@[a]),
            forall|b: int| 0 <= b < i && (#[trigger] g[b]).count >= min_plays ==> out@.contains(g[b]),
            forall|a: int| 0 <= a < out@.len() ==> (#[trigger] out@[a]).count >= min_plays,
            forall|a: int, b: int| 0 <= a < b < out@.len() ==> ranks_before(#[trigger] out@[a], #[trigger] out@[b]),
        decreases g.len() - i,
    {
        if grouped[i].count >= min_plays {
            let t = TrackEntry {
                key: grouped[i].key.clone_key(),
                count: grouped[i].count,
                total_ms: grouped[i].total_ms,
            };
            let ghost before = out@;
            proof {
                assert(t == g[i as int]);
                assert forall|a: int| 0 <= a < before.len() implies ranks_before(#[trigger] before[a], t) by {
                    assert(from_prefix(g, i as int, before[a]));
                    let b = choose|b: int| 0 <= b < i && before[a] == g[b];
                    assert(ranks_before(g[b], g[i as int]));
                }
            }
            out.push(t);
            proof {
                assert forall|a: int| 0 <= a < out@.len() implies from_prefix(g, i + 1, #[trigger] out@[a]) by {
                    if a < before.len() {
                        assert(out@[a] == before[a]);
                        assert(from_prefix(g, i as int, before[a]));
                    } else {
                        assert(out@[a] == g[i as int]);
                    }
                }
                assert forall|b: int| 0 <= b < i + 1 && (#[trigger] g[b]).count >= min_plays implies out@.contains(g[b]) by {
                    if b < i {
                        assert(before.contains(g[b]));
                        let a = choose|a: int| 0 <= a < before.len() && before[a] == g[b];
                        assert(out@[a] == before[a]);
                    } else {
                        assert(out@[before.len() as int] == g[b]);
                    }
                }
            }
        }
        i = i + 1;
    }
    proof {
        lemma_top_from_tally(s, g, out@, min_plays);
    }
    if out.len() == 0 {
        None
    } else {
        Some(out)
    }
}

} // verus!
