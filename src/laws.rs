use vstd::prelude::*;
use crate::aggregate::{
    TrackEntry, entry_correct, is_tally, lemma_plays_positive, key_hit, key_ms, ms_of, no_key_hit,
    plays_of, unkeyed,
};
use crate::rank::{is_ranked, lemma_ranks_before, ranks_before};
use crate::record::{entry_key, year_of, KeyView, StreamEntry};
use crate::sums::{lemma_sum_permutation, lemma_sum_push, sum_by};
use crate::years::{year_hit, year_ms};

verus! {

broadcast use vstd::seq_lib::group_to_multiset_ensures;

/// The values of a statistics entry: identity, play count, milliseconds.
pub open spec fn entry_view(t: TrackEntry) -> (KeyView, u64, u64) {
    (t.key@, t.count, t.total_ms)
}

pub open spec fn ranking_view(v: Seq<TrackEntry>) -> Seq<(KeyView, u64, u64)> {
    v.map_values(|t: TrackEntry| entry_view(t))
}

/// Every entry of `v` has its values in `w` too.
pub open spec fn values_within(v: Seq<TrackEntry>, w: Seq<TrackEntry>) -> bool {
    forall|a: int| 0 <= a < v.len() ==> has_values(w, #[trigger] v[a])
}

/// Some entry of `w` has the values of `t`.
pub open spec fn has_values(w: Seq<TrackEntry>, t: TrackEntry) -> bool {
    exists|b: int| 0 <= b < w.len() && entry_view(t) == entry_view(#[trigger] w[b])
}

proof fn lemma_tail_within(v: Seq<TrackEntry>, w: Seq<TrackEntry>)
    requires
        v.len() > 0,
        w.len() > 0,
        is_ranked(v),
        is_ranked(w),
        values_within(v, w),
        entry_view(v[0]) == entry_view(w[0]),
    ensures
        values_within(v.drop_first(), w.drop_first()),
{
    let v1 = v.drop_first();
    let w1 = w.drop_first();
    lemma_ranks_before(v[0], v[0], v[0]);
    assert forall|x: int| 0 <= x < v1.len() implies has_values(w1, #[trigger] v1[x]) by {
        assert(v1[x] == v[x + 1]);
        assert(has_values(w, v[x + 1]));
        let y = choose|y: int| 0 <= y < w.len() && entry_view(v[x + 1]) == entry_view(#[trigger] w[y]);
        assert(ranks_before(v[0], v[x + 1]));
        assert(y != 0);
        assert(w1[y - 1] == w[y]);
        assert(entry_view(v1[x]) == entry_view(w1[y - 1]));
    }
}

#[verifier::rlimit(40)]
proof fn lemma_ranked_unique(v: Seq<TrackEntry>, w: Seq<TrackEntry>)
    requires
        is_ranked(v),
        is_ranked(w),
        values_within(v, w),
        values_within(w, v),
    ensures
        ranking_view(v) == ranking_view(w),
    decreases v.len(),
{
    if v.len() == 0 {
        if w.len() > 0 {
            assert(has_values(v, w[0]));
        }
        assert(ranking_view(v) =~= ranking_view(w));
    } else {
        assert(has_values(w, v[0]));
        assert(has_values(v, w[0]));
        let b = choose|b: int| 0 <= b < w.len() && entry_view(v[0]) == entry_view(#[trigger] w[b]);
        let a = choose|a: int| 0 <= a < v.len() && entry_view(w[0]) == entry_view(#[trigger] v[a]);
        lemma_ranks_before(v[0], v[0], v[0]);
        lemma_ranks_before(w[0], w[0], w[0]);
        if b > 0 {
            assert(ranks_before(w[0], w[b]));
            if a > 0 {
                assert(ranks_before(v[0], v[a]));
                lemma_ranks_before(v[0], v[a], v[0]);
            }
        }
        assert(b == 0);
        let v1 = v.drop_first();
        let w1 = w.drop_first();
        lemma_tail_within(v, w);
        lemma_tail_within(w, v);
        lemma_ranked_unique(v1, w1);
        assert(ranking_view(v) =~= seq![entry_view(v[0])] + ranking_view(v1));
        assert(ranking_view(w) =~= seq![entry_view(w[0])] + ranking_view(w1));
    }
}

proof fn lemma_tally_values_within(
    s1: Seq<StreamEntry>,
    s2: Seq<StreamEntry>,
    r1: Seq<TrackEntry>,
    r2: Seq<TrackEntry>,
)
    requires
        s1.to_multiset() == s2.to_multiset(),
        is_tally(r1, s1),
        is_tally(r2, s2),
    ensures
        values_within(r1, r2),
{
    assert forall|a: int| 0 <= a < r1.len() implies has_values(r2, #[trigger] r1[a]) by {
        let k = r1[a].key@;
        assert(entry_correct(s1, r1[a]));
        lemma_sum_permutation(s1, s2, key_hit(k));
        lemma_sum_permutation(s1, s2, key_ms(k));
        lemma_plays_positive(s2, k);
        let j = choose|j: int| 0 <= j < s2.len() && entry_key(s2[j]) == Some(k);
        assert(entry_key(s2[j]) is Some);
        let b = choose|b: int| 0 <= b < r2.len() && r2[b].key@ == entry_key(s2[j])->0;
        assert(entry_correct(s2, r2[b]));
        assert(entry_view(r1[a]) == entry_view(r2[b]));
    }
}

/// The ranking depends only on which records were loaded, not on their order:
/// two ranked aggregates of the same records, in any order, hold the same values
/// in the same positions.
pub proof fn lemma_ranking_order_independent(
    s1: Seq<StreamEntry>,
    s2: Seq<StreamEntry>,
    r1: Seq<TrackEntry>,
    r2: Seq<TrackEntry>,
)
    requires
        s1.to_multiset() == s2.to_multiset(),
        is_tally(r1, s1),
        is_ranked(r1),
        is_tally(r2, s2),
        is_ranked(r2),
    ensures
        ranking_view(r1) == ranking_view(r2),
{
    lemma_tally_values_within(s1, s2, r1, r2);
    lemma_tally_values_within(s2, s1, r2, r1);
    lemma_ranked_unique(r1, r2);
}

/// Identity resolution depends on the track, artist and album names alone: two
/// records with the same names have the same identity, whatever their timestamp,
/// duration or source file.
pub proof fn lemma_identity_from_names(e1: StreamEntry, e2: StreamEntry)
    requires
        e1.master_metadata_track_name == e2.master_metadata_track_name,
        e1.master_metadata_album_artist_name == e2.master_metadata_album_artist_name,
        e1.master_metadata_album_album_name == e2.master_metadata_album_album_name,
    ensures
        entry_key(e1) == entry_key(e2),
{
}

/// A record whose track name is empty adds nothing to any identity's plays or
/// milliseconds, counts as a record without identity, and still adds one play and
/// its milliseconds to its year.
pub proof fn lemma_empty_name_counts_only_in_year(s: Seq<StreamEntry>, e: StreamEntry, k: KeyView)
    requires
        e.master_metadata_track_name matches Some(t) && t@.len() == 0,
    ensures
        entry_key(e) is None,
        plays_of(s.push(e), k) == plays_of(s, k),
        ms_of(s.push(e), k) == ms_of(s, k),
        unkeyed(s.push(e)) == unkeyed(s) + 1,
        sum_by(s.push(e), year_hit(year_of(e.ts@))) == sum_by(s, year_hit(year_of(e.ts@))) + 1,
        sum_by(s.push(e), year_ms(year_of(e.ts@))) == sum_by(s, year_ms(year_of(e.ts@))) + e.ms_played,
{
    lemma_sum_push(s, e, key_hit(k));
    lemma_sum_push(s, e, key_ms(k));
    lemma_sum_push(s, e, no_key_hit());
    lemma_sum_push(s, e, year_hit(year_of(e.ts@)));
    lemma_sum_push(s, e, year_ms(year_of(e.ts@)));
}

} // verus!
