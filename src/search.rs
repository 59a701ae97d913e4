use vstd::prelude::*;
use crate::aggregate::{TrackEntry, count_sum, is_tally, total_ms, entry_ms, unkeyed};
use crate::rank::is_ranked;
use crate::record::{clone_entry, StreamEntry};
use crate::report::group_entries;
use crate::sums::{lemma_sum_push, lemma_sum_take_step};

verus! {

/// What `str::to_lowercase` returns for a string.
pub uninterp spec fn lower_of(s: Seq<char>) -> Seq<char>;

/// Relies on `str::to_lowercase`: its result depends on the characters alone.
#[verifier::external_body]
fn lowercase(s: &str) -> (r: String)
    ensures
        r@ == lower_of(s@),
{
    s.to_lowercase()
}

/// `n` occurs in `h` as a contiguous run of characters.
pub open spec fn has_infix(h: Seq<char>, n: Seq<char>) -> bool {
    exists|i: int| 0 <= i && i + n.len() <= h.len() && #[trigger] h.subrange(i, i + n.len()) == n
}

fn to_chars(s: &String) -> (r: Vec<char>)
    ensures
        r@ == s@,
{
    let t = s.as_str();
    let n = t.unicode_len();
    let mut v: Vec<char> = Vec::new();
    let mut i: usize = 0;
    while i < n
        invariant
            n == s@.len(),
            t@ == s@,
            i <= n,
            v@ == s@.take(i as int),
        decreases n - i,
    {
        v.push(t.get_char(i));
        i = i + 1;
        assert(v@ =~= s@.take(i as int));
    }
    assert(s@.take(n as int) =~= s@);
    v
}

/// Whether `needle` occurs in `hay`.
pub fn contains_chars(hay: &String, needle: &String) -> (r: bool)
    ensures
        r == has_infix(hay@, needle@),
{
    let h = to_chars(hay);
    let n = to_chars(needle);
    if n.len() > h.len() {
        return false;
    }
    let last = h.len() - n.len();
    let mut i: usize = 0;
    while i <= last
        invariant
            h@ == hay@,
            n@ == needle@,
            last == h@.len() - n@.len(),
            n@.len() <= h@.len(),
            i <= last,
            forall|p: int| 0 <= p < i ==> #[trigger] h@.subrange(p, p + n@.len()) != n@,
        decreases last + 1 - i,
    {
        let mut j: usize = 0;
        let mut same = true;
        while j < n.len()
            invariant
                i <= last,
                n@.len() <= h@.len(),
                last == h@.len() - n@.len(),
                j <= n@.len(),
                forall|q: int| 0 <= q < j ==> h@[i + q] == n@[q],
                !same ==> j < n@.len() && h@[i + j] != n@[j as int],
            ensures
                j <= n@.len(),
                forall|q: int| 0 <= q < j ==> h@[i + q] == n@[q],
                !same ==> j < n@.len() && h@[i + j] != n@[j as int],
                same ==> j == n@.len(),
            decreases n@.len() - j + (if same { 1int } else { 0int }),
        {
            assert(i + j < h.len());
            if h[i + j] != n[j] {
                same = false;
                break;
            }
            j = j + 1;
        }
        if j == n.len() {
            assert(h@.subrange(i as int, i + n@.len()) =~= n@);
            return true;
        }
        assert(h@.subrange(i as int, i + n@.len())[j as int] != n@[j as int]);
        if i == last {
            return false;
        }
        i = i + 1;
    }
    false
}

/// The record's track name contains the lowered query, compared in lower case.
pub open spec fn query_hit(e: StreamEntry, query_lower: Seq<char>) -> bool {
    match e.master_metadata_track_name {
        Some(t) => has_infix(lower_of(t@), query_lower),
        None => false,
    }
}

/// The records whose track name matches, in their order.
pub open spec fn matching(s: Seq<StreamEntry>, query_lower: Seq<char>) -> Seq<StreamEntry>
    decreases s.len(),
{
    if s.len() == 0 {
        s
    } else if query_hit(s.last(), query_lower) {
        matching(s.drop_last(), query_lower).push(s.last())
    } else {
        matching(s.drop_last(), query_lower)
    }
}

/// Whether the record's track name contains `query_lower`, the query already in lower case.
pub fn matches_lowered(e: &StreamEntry, query_lower: &String) -> (r: bool)
    ensures
        r == query_hit(*e, query_lower@),
{
    match &e.master_metadata_track_name {
        Some(t) => {
            let name = lowercase(t.as_str());
            contains_chars(&name, query_lower)
        },
        None => false,
    }
}

/// The records whose track name contains `query`, ignoring case.
pub fn filter_matching(entries: &Vec<StreamEntry>, query: &String) -> (r: Vec<StreamEntry>)
    ensures
        r@ == matching(entries@, lower_of(query@)),
        total_ms(r@) <= total_ms(entries@),
{
    let ghost s = entries@;
    let q = lowercase(query.as_str());
    let mut out: Vec<StreamEntry> = Vec::new();
    let mut i: usize = 0;
    while i < entries.len()
        invariant
            s == entries@,
            q@ == lower_of(query@),
            i <= s.len(),
            out@ == matching(s.take(i as int), q@),
            total_ms(out@) <= total_ms(s.take(i as int)),
        decreases s.len() - i,
    {
        let ghost before = out@;
        assert(s.take(i + 1).drop_last() =~= s.take(i as int));
        proof {
            lemma_sum_take_step(s, i as int, entry_ms());
        }
        if matches_lowered(&entries[i], &q) {
            out.push(clone_entry(&entries[i]));
            proof {
                lemma_sum_push(before, s[i as int], entry_ms());
            }
        }
        i = i + 1;
    }
    assert(s.take(s.len() as int) =~= s);
    out
}

/// Searches track names for `query`, ignoring case: the number of matching plays and
/// the matching plays aggregated and ranked, or `None` when nothing matches.
pub fn search(entries: &Vec<StreamEntry>, query: &String) -> (r: Option<(usize, Vec<TrackEntry>)>)
    requires
        total_ms(entries@) <= u64::MAX,
    ensures
        r is None <==> matching(entries@, lower_of(query@)).len() == 0,
        r matches Some(p) ==> {
            let m = matching(entries@, lower_of(query@));
            &&& p.0 == m.len()
            &&& is_tally(p.1@, m)
            &&& is_ranked(p.1@)
            &&& count_sum(p.1@) + unkeyed(m) == m.len()
        },
{
    let found = filter_matching(entries, query);
    if found.len() == 0 {
        None
    } else {
        let grouped = group_entries(&found);
        Some((found.len(), grouped))
    }
}

} // verus!
