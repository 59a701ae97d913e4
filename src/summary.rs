use vstd::prelude::*;
use crate::aggregate::{TrackEntry, entry_correct, entry_ms, is_tally, lemma_plays_positive, total_ms};
use crate::rank::chars_lt;
use crate::record::{entry_key, KeyView, StreamEntry};
use crate::report::group_entries;
use crate::sums::{lemma_sum_prefix_le, lemma_sum_take_step};
use crate::years::{YearBucket, bucket_correct, bucket_listed, plays_sum, year_stats};

verus! {

/// The distinct identities among the records.
pub open spec fn all_keys(s: Seq<StreamEntry>) -> Set<KeyView> {
    Set::new(|k: KeyView| exists|j: int| 0 <= j < s.len() && #[trigger] entry_key(s[j]) == Some(k))
}

/// The overall statistics: one bucket per year, and the totals over all records.
pub struct StatsReport {
    pub years: Vec<YearBucket>,
    pub total_streams: u64,
    pub total_ms: u64,
    pub unique_tracks: usize,
}

/// Milliseconds played over all records, or `None` when the sum does not fit in 64 bits.
pub fn total_ms_checked(entries: &Vec<StreamEntry>) -> (r: Option<u64>)
    ensures
        r matches Some(t) ==> t as nat == total_ms(entries@),
        r is None ==> total_ms(entries@) > u64::MAX,
{
    let ghost s = entries@;
    let mut acc: u64 = 0;
    let mut i: usize = 0;
    while i < entries.len()
        invariant
            s == entries@,
            i <= s.len(),
            acc as nat == total_ms(s.take(i as int)),
        decreases s.len() - i,
    {
        proof {
            lemma_sum_take_step(s, i as int, entry_ms());
        }
        match acc.checked_add(entries[i].ms_played) {
            Some(v) => {
                acc = v;
            },
            None => {
                proof {
                    lemma_sum_prefix_le(s, i + 1, entry_ms());
                }
                return None;
            },
        }
        i = i + 1;
    }
    assert(s.take(s.len() as int) =~= s);
    Some(acc)
}

proof fn lemma_tally_len(g: Seq<TrackEntry>, s: Seq<StreamEntry>)
    requires
        is_tally(g, s),
    ensures
        g.len() == all_keys(s).len(),
{
    let kv = g.map_values(|t: TrackEntry| t.key@);
    assert(kv.no_duplicates()) by {
        assert forall|a: int, b: int| 0 <= a < kv.len() && 0 <= b < kv.len() && a != b implies kv[a] != kv[b] by {
            if a < b {
                assert(g[a].key@ != g[b].key@);
            } else {
                assert(g[b].key@ != g[a].key@);
            }
        }
    }
    assert(kv.to_set() =~= all_keys(s)) by {
        assert forall|k: KeyView| kv.to_set().contains(k) implies all_keys(s).contains(k) by {
            let a = choose|a: int| 0 <= a < kv.len() && kv[a] == k;
            assert(entry_correct(s, g[a]));
            lemma_plays_positive(s, k);
        }
        assert forall|k: KeyView| all_keys(s).contains(k) implies kv.to_set().contains(k) by {
            let j = choose|j: int| 0 <= j < s.len() && #[trigger] entry_key(s[j]) == Some(k);
            assert(entry_key(s[j]) is Some);
            let a = choose|a: int| 0 <= a < g.len() && g[a].key@ == entry_key(s[j])->0;
            assert(kv[a] == k);
        }
    }
    kv.unique_seq_to_set();
}

/// Overall statistics of the records: per-year buckets in ascending year order,
/// the number of records, the milliseconds played and the number of distinct identities.
pub fn stats(entries: &Vec<StreamEntry>) -> (r: StatsReport)
    requires
        total_ms(entries@) <= u64::MAX,
    ensures
        r.total_streams as nat == entries@.len(),
        r.total_ms as nat == total_ms(entries@),
        r.unique_tracks as nat == all_keys(entries@).len(),
        forall|a: int, b: int|
            0 <= a < b < r.years@.len() ==> chars_lt(#[trigger] r.years@[a].year@, #[trigger] r.years@[b].year@),
        forall|a: int| 0 <= a < r.years@.len() ==> bucket_correct(entries@, #[trigger] r.years@[a]),
        forall|j: int| #![trigger entries@[j]] 0 <= j < entries@.len() ==> bucket_listed(r.years@, year_of_entry(entries@[j])),
        plays_sum(r.years@) == entries@.len(),
{
    let total = total_ms_checked(entries);
    let total_ms = match total {
        Some(t) => t,
        None => 0,
    };
    let grouped = group_entries(entries);
    proof {
        lemma_tally_len(grouped@, entries@);
    }
    let years = year_stats(entries);
    StatsReport {
        years,
        total_streams: entries.len() as u64,
        total_ms,
        unique_tracks: grouped.len(),
    }
}

/// The year bucket of a record.
pub open spec fn year_of_entry(e: StreamEntry) -> Seq<char> {
    crate::record::year_of(e.ts@)
}

} // verus!
