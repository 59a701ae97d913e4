use vstd::prelude::*;
use crate::aggregate::total_ms;
use crate::rank::{chars_less, chars_lt, lemma_chars_irrefl, lemma_chars_total, lemma_chars_trans};
use crate::record::{entry_key, year_of, KeyView, StreamEntry, TrackKey};
use crate::sums::{lemma_sum_le, lemma_sum_prefix_le, lemma_sum_split, lemma_sum_take_step, lemma_sum_zero, sum_by};

verus! {

/// One play in year `y`.
pub open spec fn year_hit(y: Seq<char>) -> spec_fn(StreamEntry) -> nat {
    |e: StreamEntry| if year_of(e.ts@) == y { 1nat } else { 0nat }
}

/// The milliseconds of a record, when it falls in year `y`.
pub open spec fn year_ms(y: Seq<char>) -> spec_fn(StreamEntry) -> nat {
    |e: StreamEntry| if year_of(e.ts@) == y { e.ms_played as nat } else { 0nat }
}

/// The record at index `j` is a play of identity `k` in year `y`.
pub open spec fn keyed_in_year(s: Seq<StreamEntry>, j: int, y: Seq<char>, k: KeyView) -> bool {
    0 <= j < s.len() && year_of(s[j].ts@) == y && entry_key(s[j]) == Some(k)
}

/// The distinct identities played in year `y`.
pub open spec fn year_keys(s: Seq<StreamEntry>, y: Seq<char>) -> Set<KeyView> {
    Set::new(|k: KeyView| exists|j: int| keyed_in_year(s, j, y, k))
}

/// Some record before index `i` is a play of identity `k` in year `y`.
pub open spec fn seen_in(s: Seq<StreamEntry>, i: int, y: Seq<char>, k: KeyView) -> bool {
    exists|j: int| 0 <= j < i && #[trigger] keyed_in_year(s, j, y, k)
}

pub open spec fn key_views(v: Seq<TrackKey>) -> Seq<KeyView> {
    v.map_values(|k: TrackKey| k@)
}

/// Counts the distinct identities among the records of year `year`.
pub fn count_unique(entries: &Vec<StreamEntry>, year: &String) -> (r: usize)
    ensures
        r as nat == year_keys(entries@, year@).len(),
{
    let ghost s = entries@;
    let ghost y = year@;
    let mut keys: Vec<TrackKey> = Vec::new();
    let mut i: usize = 0;
    while i < entries.len()
        invariant
            s == entries@,
            y == year@,
            i <= s.len(),
            key_views(keys@).no_duplicates(),
            forall|a: int| 0 <= a < keys@.len() ==> seen_in(s, i as int, y, #[trigger] keys@[a]@),
            forall|j: int, k: KeyView| 0 <= j < i && #[trigger] keyed_in_year(s, j, y, k) ==> key_views(keys@).contains(k),
        decreases s.len() - i,
    {
        let e = &entries[i];
        let ghost start = keys@;
        let ey = e.year();
        if ey == *year {
            match e.key() {
                None => {},
                Some(k) => {
                    let mut a: usize = 0;
                    let mut found = false;
                    while a < keys.len()
                        invariant
                            a <= keys@.len(),
                            !found ==> forall|b: int| 0 <= b < a ==> keys@[b]@ != k@,
                            found ==> a < keys@.len() && keys@[a as int]@ == k@,
                        ensures
                            found ==> a < keys@.len() && keys@[a as int]@ == k@,
                            !found ==> forall|b: int| 0 <= b < keys@.len() ==> keys@[b]@ != k@,
                        decreases keys@.len() - a + (if found { 0int } else { 1int }),
                    {
                        if keys[a].same(&k) {
                            found = true;
                            break;
                        }
                        a = a + 1;
                    }
                    let ghost before = keys@;
                    if found {
                        proof {
                            assert(key_views(before)[a as int] == k@);
                        }
                    } else {
                        keys.push(k);
                        proof {
                            assert(key_views(keys@) =~= key_views(before).push(k@));
                            assert forall|j: int, kk: KeyView| 0 <= j < i + 1 && #[trigger] keyed_in_year(s, j, y, kk)
                                implies key_views(keys@).contains(kk) by {
                                if j < i {
                                    assert(key_views(before).contains(kk));
                                    let b = choose|b: int| 0 <= b < before.len() && key_views(before)[b] == kk;
                                    assert(key_views(keys@)[b] == kk);
                                } else {
                                    assert(key_views(keys@)[before.len() as int] == kk);
                                }
                            }
                        }
                    }
                },
            }
        }
        proof {
            assert forall|a: int| 0 <= a < keys@.len() implies seen_in(s, i + 1, y, #[trigger] keys@[a]@) by {
                if a < start.len() {
                    assert(keys@[a] == start[a]);
                    assert(seen_in(s, i as int, y, start[a]@));
                    let j = choose|j: int| 0 <= j < i && #[trigger] keyed_in_year(s, j, y, start[a]@);
                    assert(keyed_in_year(s, j, y, keys@[a]@));
                } else {
                    assert(keyed_in_year(s, i as int, y, keys@[a]@));
                }
            }
        }
        i = i + 1;
    }
    proof {
        let kv = key_views(keys@);
        assert(kv.to_set() =~= year_keys(s, y)) by {
            assert forall|k: KeyView| kv.to_set().contains(k) implies year_keys(s, y).contains(k) by {
                let a = choose|a: int| 0 <= a < kv.len() && kv[a] == k;
                assert(keys@[a]@ == k);
                assert(seen_in(s, i as int, y, keys@[a]@));
                let j = choose|j: int| 0 <= j < i && #[trigger] keyed_in_year(s, j, y, keys@[a]@);
                assert(keyed_in_year(s, j, y, k));
            }
            assert forall|k: KeyView| year_keys(s, y).contains(k) implies kv.to_set().contains(k) by {
                let j = choose|j: int| keyed_in_year(s, j, y, k);
                assert(keyed_in_year(s, j, y, k));
            }
        }
        kv.unique_seq_to_set();
    }
    keys.len()
}

} // verus!

verus! {

/// Statistics of one calendar year.
pub struct YearBucket {
    pub year: String,
    pub plays: u64,
    pub total_ms: u64,
    pub unique: usize,
}

/// The values in `b` are those of its year among the records.
pub open spec fn bucket_correct(s: Seq<StreamEntry>, b: YearBucket) -> bool {
    &&& b.plays as nat == sum_by(s, year_hit(b.year@))
    &&& b.total_ms as nat == sum_by(s, year_ms(b.year@))
    &&& b.unique as nat == year_keys(s, b.year@).len()
    &&& b.plays >= 1
}

/// Some record falls in year `y`.
pub open spec fn year_seen(s: Seq<StreamEntry>, y: Seq<char>) -> bool {
    exists|j: int| 0 <= j < s.len() && #[trigger] year_of(s[j].ts@) == y
}

/// Some string of `r` is `y`.
pub open spec fn year_listed(r: Seq<String>, y: Seq<char>) -> bool {
    exists|a: int| 0 <= a < r.len() && (#[trigger] r[a])@ == y
}

/// Some bucket of `r` is that of year `y`.
pub open spec fn bucket_listed(r: Seq<YearBucket>, y: Seq<char>) -> bool {
    exists|a: int| 0 <= a < r.len() && (#[trigger] r[a]).year@ == y
}

/// Plays and milliseconds of year `year`.
fn year_totals(entries: &Vec<StreamEntry>, year: &String) -> (r: (u64, u64))
    requires
        total_ms(entries@) <= u64::MAX,
    ensures
        r.0 as nat == sum_by(entries@, year_hit(year@)),
        r.1 as nat == sum_by(entries@, year_ms(year@)),
{
    let ghost s = entries@;
    let mut plays: u64 = 0;
    let mut ms: u64 = 0;
    let mut i: usize = 0;
    while i < entries.len()
        invariant
            s == entries@,
            i <= s.len(),
            total_ms(s) <= u64::MAX,
            plays as nat == sum_by(s.take(i as int), year_hit(year@)),
            ms as nat == sum_by(s.take(i as int), year_ms(year@)),
            plays <= i,
        decreases s.len() - i,
    {
        proof {
            lemma_sum_take_step(s, i as int, year_hit(year@));
            lemma_sum_take_step(s, i as int, year_ms(year@));
            lemma_sum_le(s.take(i + 1), year_ms(year@), |e: StreamEntry| e.ms_played as nat);
            lemma_sum_prefix_le(s, i + 1, |e: StreamEntry| e.ms_played as nat);
            assert(total_ms(s) == sum_by(s, |e: StreamEntry| e.ms_played as nat));
        }
        let e = &entries[i];
        if e.year() == *year {
            plays = plays + 1;
            ms = ms + e.ms_played;
        }
        i = i + 1;
    }
    assert(s.take(s.len() as int) =~= s);
    (plays, ms)
}

/// The distinct years of the records, in ascending string order.
fn sorted_years(entries: &Vec<StreamEntry>) -> (r: Vec<String>)
    ensures
        forall|a: int, b: int| 0 <= a < b < r@.len() ==> chars_lt(#[trigger] r@[a]@, #[trigger] r@[b]@),
        forall|a: int| 0 <= a < r@.len() ==> year_seen(entries@, #[trigger] r@[a]@),
        forall|j: int| #![trigger entries@[j]] 0 <= j < entries@.len() ==> year_listed(r@, year_of(entries@[j].ts@)),
{
    let ghost s = entries@;
    let mut out: Vec<String> = Vec::new();
    let mut i: usize = 0;
    while i < entries.len()
        invariant
            s == entries@,
            i <= s.len(),
            forall|a: int, b: int| 0 <= a < b < out@.len() ==> chars_lt(#[trigger] out@[a]@, #[trigger] out@[b]@),
            forall|a: int| 0 <= a < out@.len() ==> year_seen(s, #[trigger] out@[a]@),
            forall|j: int| #![trigger s[j]] 0 <= j < i ==> year_listed(out@, year_of(s[j].ts@)),
        decreases s.len() - i,
    {
        let y = entries[i].year();
        assert(year_seen(s, y@)) by {
            assert(year_of(s[i as int].ts@) == y@);
        }
        let mut p: usize = 0;
        while p < out.len() && chars_less(&out[p], &y)
            invariant
                p <= out@.len(),
                forall|t: int| 0 <= t < p ==> chars_lt(#[trigger] out@[t]@, y@),
            decreases out@.len() - p,
        {
            p = p + 1;
        }
        let ghost before = out@;
        if p < out.len() && out[p] == y {
            proof {
                assert forall|j: int| #![trigger s[j]] 0 <= j < i + 1 implies year_listed(out@, year_of(s[j].ts@)) by {
                    if j == i {
                        assert(out@[p as int]@ == year_of(s[j].ts@));
                    }
                }
            }
        } else {
            proof {
                if p < before.len() {
                    lemma_chars_total(before[p as int]@, y@);
                    assert forall|t: int| p < t < before.len() implies chars_lt(y@, #[trigger] before[t]@) by {
                        lemma_chars_trans(y@, before[p as int]@, before[t]@);
                    }
                }
            }
            out.insert(p, y);
            proof {
                let after = out@;
                assert(after =~= before.insert(p as int, after[p as int]));
                assert forall|a: int, b: int| 0 <= a < b < after.len() implies chars_lt(
                    #[trigger] after[a]@,
                    #[trigger] after[b]@,
                ) by {
                    if b < p {
                        assert(after[a] == before[a] && after[b] == before[b]);
                    } else if b == p {
                        assert(after[a] == before[a]);
                    } else if a < p {
                        assert(after[a] == before[a] && after[b] == before[b - 1]);
                        if a < b - 1 {
                            assert(chars_lt(before[a]@, before[b - 1]@));
                        }
                    } else if a == p {
                        assert(after[b] == before[b - 1]);
                    } else {
                        assert(after[a] == before[a - 1] && after[b] == before[b - 1]);
                    }
                }
                assert forall|a: int| 0 <= a < after.len() implies year_seen(s, #[trigger] after[a]@) by {
                    if a < p {
                        assert(after[a] == before[a]);
                    } else if a > p {
                        assert(after[a] == before[a - 1]);
                    }
                }
                assert forall|j: int| #![trigger s[j]] 0 <= j < i + 1 implies year_listed(after, year_of(s[j].ts@)) by {
                    if j == i {
                        assert(after[p as int]@ == year_of(s[j].ts@));
                    } else {
                        assert(year_listed(before, year_of(s[j].ts@)));
                        let a = choose|a: int| 0 <= a < before.len() && #[trigger] before[a]@ == year_of(s[j].ts@);
                        if a < p {
                            assert(after[a] == before[a]);
                        } else {
                            assert(after[a + 1] == before[a]);
                        }
                    }
                }
            }
        }
        i = i + 1;
    }
    assert forall|j: int| #![trigger entries@[j]] 0 <= j < entries@.len() implies year_listed(out@, year_of(entries@[j].ts@)) by {
        assert(s[j] == entries@[j]);
    }
    out
}

/// Per-year statistics, one bucket per distinct year, in ascending year order.
pub fn year_stats(entries: &Vec<StreamEntry>) -> (r: Vec<YearBucket>)
    requires
        total_ms(entries@) <= u64::MAX,
    ensures
        forall|a: int, b: int| 0 <= a < b < r@.len() ==> chars_lt(#[trigger] r@[a].year@, #[trigger] r@[b].year@),
        forall|a: int| 0 <= a < r@.len() ==> bucket_correct(entries@, #[trigger] r@[a]),
        forall|j: int| #![trigger entries@[j]] 0 <= j < entries@.len() ==> bucket_listed(r@, year_of(entries@[j].ts@)),
        plays_sum(r@) == entries@.len(),
{
    let ghost s = entries@;
    let years = sorted_years(entries);
    let mut out: Vec<YearBucket> = Vec::new();
    let mut k: usize = 0;
    while k < years.len()
        invariant
            s == entries@,
            total_ms(s) <= u64::MAX,
            k <= years@.len(),
            out@.len() == k,
            forall|a: int| 0 <= a < k ==> #[trigger] out@[a].year@ == years@[a]@,
            forall|a: int| 0 <= a < k ==> bucket_correct(s, #[trigger] out@[a]),
            forall|a: int| 0 <= a < years@.len() ==> year_seen(s, #[trigger] years@[a]@),
        decreases years@.len() - k,
    {
        let y = &years[k];
        let (plays, ms) = year_totals(entries, y);
        let unique = count_unique(entries, y);
        proof {
            assert(year_seen(s, years@[k as int]@));
            let j = choose|j: int| 0 <= j < s.len() && #[trigger] year_of(s[j].ts@) == y@;
            lemma_year_plays_positive(s, j, y@);
        }
        out.push(YearBucket { year: y.clone(), plays, total_ms: ms, unique });
        k = k + 1;
    }
    proof {
        assert forall|a: int, b: int| 0 <= a < b < out@.len() implies chars_lt(#[trigger] out@[a].year@, #[trigger] out@[b].year@) by {
            assert(chars_lt(years@[a]@, years@[b]@));
        }
        assert forall|j: int| #![trigger s[j]] 0 <= j < s.len() implies bucket_listed(out@, year_of(s[j].ts@)) by {
            assert(year_listed(years@, year_of(s[j].ts@)));
            let a = choose|a: int| 0 <= a < years@.len() && #[trigger] years@[a]@ == year_of(s[j].ts@);
            assert(out@[a].year@ == years@[a]@);
        }
        assert forall|a: int, b: int| 0 <= a < b < out@.len() implies (#[trigger] out@[a]).year@ != (#[trigger] out@[b]).year@ by {
            assert(chars_lt(years@[a]@, years@[b]@));
            lemma_chars_irrefl(years@[a]@);
        }
        lemma_buckets_cover_records(out@, s);
        lemma_sum_split(out@, bucket_plays(), year_plays_in(s), |b: YearBucket| 0nat);
        lemma_sum_zero(out@, |b: YearBucket| 0nat);
    }
    out
}

pub open spec fn bucket_plays() -> spec_fn(YearBucket) -> nat {
    |b: YearBucket| b.plays as nat
}

/// Play count summed over the year buckets.
pub open spec fn plays_sum(r: Seq<YearBucket>) -> nat {
    sum_by(r, bucket_plays())
}

pub open spec fn year_plays_in(s: Seq<StreamEntry>) -> spec_fn(YearBucket) -> nat {
    |b: YearBucket| sum_by(s, year_hit(b.year@))
}

pub open spec fn year_match(y: Seq<char>) -> spec_fn(YearBucket) -> nat {
    |b: YearBucket| if b.year@ == y { 1nat } else { 0nat }
}

pub open spec fn years_distinct(r: Seq<YearBucket>) -> bool {
    forall|a: int, b: int| 0 <= a < b < r.len() ==> (#[trigger] r[a]).year@ != (#[trigger] r[b]).year@
}

proof fn lemma_match_one(r: Seq<YearBucket>, y: Seq<char>)
    requires
        years_distinct(r),
        bucket_listed(r, y),
    ensures
        sum_by(r, year_match(y)) == 1,
    decreases r.len(),
{
    let rest = r.drop_last();
    assert forall|a: int, b: int| 0 <= a < b < rest.len() implies (#[trigger] rest[a]).year@ != (#[trigger] rest[b]).year@ by {
        assert(rest[a] == r[a] && rest[b] == r[b]);
    }
    if r.last().year@ == y {
        assert forall|i: int| 0 <= i < rest.len() implies (year_match(y))(#[trigger] rest[i]) == 0 by {
            assert(rest[i] == r[i]);
            assert(r[i].year@ != r[r.len() - 1].year@);
        }
        lemma_sum_zero(rest, year_match(y));
    } else {
        let a = choose|a: int| 0 <= a < r.len() && (#[trigger] r[a]).year@ == y;
        assert(rest[a] == r[a]);
        assert(bucket_listed(rest, y));
        lemma_match_one(rest, y);
    }
}

/// With one bucket per distinct year and every record's year among them, the
/// buckets' plays over the records add up to the number of records.
proof fn lemma_buckets_cover_records(r: Seq<YearBucket>, s: Seq<StreamEntry>)
    requires
        years_distinct(r),
        forall|j: int| #![trigger s[j]] 0 <= j < s.len() ==> bucket_listed(r, year_of(s[j].ts@)),
    ensures
        sum_by(r, year_plays_in(s)) == s.len(),
    decreases s.len(),
{
    if s.len() == 0 {
        lemma_sum_zero(r, year_plays_in(s));
    } else {
        let rest = s.drop_last();
        let e = s.last();
        assert forall|j: int| #![trigger rest[j]] 0 <= j < rest.len() implies bucket_listed(r, year_of(rest[j].ts@)) by {
            assert(rest[j] == s[j]);
        }
        lemma_buckets_cover_records(r, rest);
        assert forall|i: int| 0 <= i < r.len() implies (year_plays_in(s))(#[trigger] r[i]) == (year_plays_in(rest))(r[i])
            + (year_match(year_of(e.ts@)))(r[i]) by {
        }
        lemma_sum_split(r, year_plays_in(s), year_plays_in(rest), year_match(year_of(e.ts@)));
        assert(bucket_listed(r, year_of(s[s.len() - 1].ts@)));
        lemma_match_one(r, year_of(e.ts@));
    }
}

proof fn lemma_year_plays_positive(s: Seq<StreamEntry>, j: int, y: Seq<char>)
    requires
        0 <= j < s.len(),
        year_of(s[j].ts@) == y,
    ensures
        sum_by(s, year_hit(y)) >= 1,
    decreases s.len(),
{
    if j < s.len() - 1 {
        assert(s.drop_last()[j] == s[j]);
        lemma_year_plays_positive(s.drop_last(), j, y);
    }
}

} // verus!
