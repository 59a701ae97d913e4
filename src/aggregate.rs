use vstd::prelude::*;
use crate::record::{entry_key, KeyView, StreamEntry, TrackKey};
use crate::sums::{lemma_sum_le, lemma_sum_prefix_le, lemma_sum_push, lemma_sum_remove, lemma_sum_take_step, lemma_sum_update, sum_by};

verus! {

/// One play of identity `k`.
pub open spec fn key_hit(k: KeyView) -> spec_fn(StreamEntry) -> nat {
    |e: StreamEntry| if entry_key(e) == Some(k) { 1nat } else { 0nat }
}

/// The milliseconds of a record, when it is a play of identity `k`.
pub open spec fn key_ms(k: KeyView) -> spec_fn(StreamEntry) -> nat {
    |e: StreamEntry| if entry_key(e) == Some(k) { e.ms_played as nat } else { 0nat }
}

pub open spec fn no_key_hit() -> spec_fn(StreamEntry) -> nat {
    |e: StreamEntry| if entry_key(e) is None { 1nat } else { 0nat }
}

pub open spec fn entry_ms() -> spec_fn(StreamEntry) -> nat {
    |e: StreamEntry| e.ms_played as nat
}

/// Number of plays of identity `k` among the records.
pub open spec fn plays_of(s: Seq<StreamEntry>, k: KeyView) -> nat {
    sum_by(s, key_hit(k))
}

/// Milliseconds played of identity `k` among the records.
pub open spec fn ms_of(s: Seq<StreamEntry>, k: KeyView) -> nat {
    sum_by(s, key_ms(k))
}

/// Number of records that have no identity.
pub open spec fn unkeyed(s: Seq<StreamEntry>) -> nat {
    sum_by(s, no_key_hit())
}

/// Milliseconds played over all records.
pub open spec fn total_ms(s: Seq<StreamEntry>) -> nat {
    sum_by(s, entry_ms())
}

/// Statistics of one track identity.
pub struct TrackEntry {
    pub key: TrackKey,
    pub count: u64,
    pub total_ms: u64,
}

pub open spec fn entry_count() -> spec_fn(TrackEntry) -> nat {
    |t: TrackEntry| t.count as nat
}

/// Play count summed over a list of track statistics.
pub open spec fn count_sum(v: Seq<TrackEntry>) -> nat {
    sum_by(v, entry_count())
}

/// The statistics in `t` are those of its identity among the records.
pub open spec fn entry_correct(s: Seq<StreamEntry>, t: TrackEntry) -> bool {
    &&& t.count as nat == plays_of(s, t.key@)
    &&& t.total_ms as nat == ms_of(s, t.key@)
    &&& t.count >= 1
}

pub open spec fn keys_unique(v: Seq<TrackEntry>) -> bool {
    forall|a: int, b: int| 0 <= a < b < v.len() ==> v[a].key@ != v[b].key@
}

/// Every record that has an identity finds it in `v`.
pub open spec fn covers(v: Seq<TrackEntry>, s: Seq<StreamEntry>) -> bool {
    forall|j: int|
        0 <= j < s.len() && #[trigger] entry_key(s[j]) is Some ==> exists|a: int|
            0 <= a < v.len() && v[a].key@ == entry_key(s[j])->0
}

/// `v` holds exactly the identities of the records, once each, with their statistics.
pub open spec fn is_tally(v: Seq<TrackEntry>, s: Seq<StreamEntry>) -> bool {
    &&& keys_unique(v)
    &&& forall|a: int| 0 <= a < v.len() ==> entry_correct(s, #[trigger] v[a])
    &&& covers(v, s)
}

proof fn lemma_step(s: Seq<StreamEntry>, i: int, k: KeyView)
    requires
        0 <= i < s.len(),
    ensures
        plays_of(s.take(i + 1), k) == plays_of(s.take(i), k) + key_hit(k)(s[i]),
        ms_of(s.take(i + 1), k) == ms_of(s.take(i), k) + key_ms(k)(s[i]),
{
    lemma_sum_take_step(s, i, key_hit(k));
    lemma_sum_take_step(s, i, key_ms(k));
}

proof fn lemma_ms_bound(s: Seq<StreamEntry>, i: int, k: KeyView)
    requires
        0 <= i <= s.len(),
    ensures
        ms_of(s.take(i), k) <= total_ms(s),
{
    lemma_sum_le(s.take(i), key_ms(k), entry_ms());
    lemma_sum_prefix_le(s, i, entry_ms());
}

/// Folds the records into one statistics entry per identity, in order of first appearance.
pub fn tally(entries: &Vec<StreamEntry>) -> (r: Vec<TrackEntry>)
    requires
        total_ms(entries@) <= u64::MAX,
    ensures
        is_tally(r@, entries@),
        count_sum(r@) + unkeyed(entries@) == entries@.len(),
{
    let ghost s = entries@;
    let mut acc: Vec<TrackEntry> = Vec::new();
    let mut i: usize = 0;
    while i < entries.len()
        invariant
            s == entries@,
            i <= s.len(),
            total_ms(s) <= u64::MAX,
            is_tally(acc@, s.take(i as int)),
            count_sum(acc@) + unkeyed(s.take(i as int)) == i,
        decreases s.len() - i,
    {
        let e = &entries[i];
        let ghost p = s.take(i as int);
        let ghost q = s.take(i + 1);
        assert(q[i as int] == s[i as int]);
        proof {
            lemma_sum_take_step(s, i as int, no_key_hit());
            assert forall|j: int| 0 <= j < i implies q[j] == p[j] by {}
        }
        match e.key() {
            None => {
                proof {
                    assert forall|a: int| 0 <= a < acc@.len() implies entry_correct(q, #[trigger] acc@[a]) by {
                        lemma_step(s, i as int, acc@[a].key@);
                    }
                    assert forall|j: int|
                        0 <= j < q.len() && #[trigger] entry_key(q[j]) is Some implies exists|a: int|
                            0 <= a < acc@.len() && acc@[a].key@ == entry_key(q[j])->0 by {
                        assert(p[j] == q[j]);
                    }
                }
            },
            Some(k) => {
                let mut a: usize = 0;
                let mut found = false;
                while a < acc.len()
                    invariant
                        a <= acc@.len(),
                        !found ==> forall|b: int| 0 <= b < a ==> acc@[b].key@ != k@,
                        found ==> a < acc@.len() && acc@[a as int].key@ == k@,
                    ensures
                        found ==> a < acc@.len() && acc@[a as int].key@ == k@,
                        !found ==> forall|b: int| 0 <= b < acc@.len() ==> acc@[b].key@ != k@,
                    decreases acc@.len() - a + (if found { 0int } else { 1int }),
                {
                    if acc[a].key.same(&k) {
                        found = true;
                        break;
                    }
                    a = a + 1;
                }
                if found {
                    let old_t = &acc[a];
                    proof {
                        lemma_step(s, i as int, k@);
                        lemma_ms_bound(s, i + 1, k@);
                        lemma_sum_remove(acc@, a as int, entry_count());
                    }
                    let t = TrackEntry {
                        key: k,
                        count: old_t.count + 1,
                        total_ms: old_t.total_ms + e.ms_played,
                    };
                    let ghost before = acc@;
                    acc.set(a, t);
                    proof {
                        lemma_sum_update(before, a as int, t, entry_count());
                        assert forall|b: int| 0 <= b < acc@.len() implies entry_correct(q, #[trigger] acc@[b]) by {
                            lemma_step(s, i as int, acc@[b].key@);
                        }
                        assert forall|j: int|
                            0 <= j < q.len() && #[trigger] entry_key(q[j]) is Some implies exists|b: int|
                                0 <= b < acc@.len() && acc@[b].key@ == entry_key(q[j])->0 by {
                            if j < i {
                                assert(p[j] == q[j]);
                                let b = choose|b: int| 0 <= b < before.len() && before[b].key@ == entry_key(p[j])->0;
                                assert(acc@[b].key@ == before[b].key@);
                            } else {
                                assert(acc@[a as int].key@ == entry_key(q[j])->0);
                            }
                        }
                    }
                } else {
                    let t = TrackEntry { key: k, count: 1, total_ms: e.ms_played };
                    let ghost before = acc@;
                    proof {
                        lemma_step(s, i as int, k@);
                        assert(plays_of(p, k@) == 0) by {
                            if plays_of(p, k@) > 0 {
                                lemma_plays_positive(p, k@);
                                let j = choose|j: int| 0 <= j < p.len() && entry_key(p[j]) == Some(k@);
                                assert(entry_key(p[j]) is Some);
                                let b = choose|b: int| 0 <= b < acc@.len() && acc@[b].key@ == entry_key(p[j])->0;
                                assert(acc@[b].key@ != k@);
                            }
                        }
                        lemma_ms_zero(p, k@);
                    }
                    acc.push(t);
                    proof {
                        lemma_sum_push(before, t, entry_count());
                        assert forall|b: int| 0 <= b < acc@.len() implies entry_correct(q, #[trigger] acc@[b]) by {
                            lemma_step(s, i as int, acc@[b].key@);
                        }
                        assert forall|j: int|
                            0 <= j < q.len() && #[trigger] entry_key(q[j]) is Some implies exists|b: int|
                                0 <= b < acc@.len() && acc@[b].key@ == entry_key(q[j])->0 by {
                            if j < i {
                                assert(p[j] == q[j]);
                                let b = choose|b: int| 0 <= b < before.len() && before[b].key@ == entry_key(p[j])->0;
                                assert(acc@[b].key@ == before[b].key@);
                            } else {
                                assert(acc@[before.len() as int].key@ == entry_key(q[j])->0);
                            }
                        }
                    }
                }
            },
        }
        i = i + 1;
    }
    assert(s.take(s.len() as int) =~= s);
    acc
}

/// A positive play count comes from some record with that identity.
pub proof fn lemma_plays_positive(s: Seq<StreamEntry>, k: KeyView)
    requires
        plays_of(s, k) > 0,
    ensures
        exists|j: int| 0 <= j < s.len() && entry_key(s[j]) == Some(k),
    decreases s.len(),
{
    if s.len() > 0 && entry_key(s.last()) != Some(k) {
        lemma_plays_positive(s.drop_last(), k);
        let j = choose|j: int| 0 <= j < s.drop_last().len() && entry_key(s.drop_last()[j]) == Some(k);
        assert(s[j] == s.drop_last()[j]);
    }
}

/// No play of an identity means no milliseconds for it.
proof fn lemma_ms_zero(s: Seq<StreamEntry>, k: KeyView)
    requires
        plays_of(s, k) == 0,
    ensures
        ms_of(s, k) == 0,
    decreases s.len(),
{
    if s.len() > 0 {
        lemma_ms_zero(s.drop_last(), k);
    }
}

} // verus!
