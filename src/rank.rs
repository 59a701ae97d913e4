use vstd::prelude::*;
use crate::aggregate::{TrackEntry, keys_unique};
use crate::record::{KeyView, TrackKey};

verus! {

broadcast use vstd::seq_lib::group_to_multiset_ensures;

/// Lexicographic order on character sequences, by code point.
pub open spec fn chars_lt(a: Seq<char>, b: Seq<char>) -> bool
    decreases a.len(),
{
    if a.len() == 0 {
        b.len() > 0
    } else if b.len() == 0 {
        false
    } else if a[0] != b[0] {
        a[0] < b[0]
    } else {
        chars_lt(a.drop_first(), b.drop_first())
    }
}

/// Lexicographic order on identities: track, then artist, then album.
pub open spec fn key_lt(x: KeyView, y: KeyView) -> bool {
    chars_lt(x.0, y.0) || (x.0 == y.0 && (chars_lt(x.1, y.1) || (x.1 == y.1 && chars_lt(x.2, y.2))))
}

/// Ranking order: more plays first; equal play counts by identity order.
pub open spec fn ranks_before(x: TrackEntry, y: TrackEntry) -> bool {
    x.count > y.count || (x.count == y.count && key_lt(x.key@, y.key@))
}

pub open spec fn is_ranked(v: Seq<TrackEntry>) -> bool {
    forall|a: int, b: int| 0 <= a < b < v.len() ==> ranks_before(#[trigger] v[a], #[trigger] v[b])
}

pub proof fn lemma_chars_irrefl(a: Seq<char>)
    ensures
        !chars_lt(a, a),
    decreases a.len(),
{
    if a.len() > 0 {
        lemma_chars_irrefl(a.drop_first());
    }
}

pub proof fn lemma_chars_trans(a: Seq<char>, b: Seq<char>, c: Seq<char>)
    requires
        chars_lt(a, b),
        chars_lt(b, c),
    ensures
        chars_lt(a, c),
    decreases a.len(),
{
    if a.len() > 0 && b.len() > 0 && c.len() > 0 && a[0] == b[0] && b[0] == c[0] {
        lemma_chars_trans(a.drop_first(), b.drop_first(), c.drop_first());
    }
}

pub proof fn lemma_chars_total(a: Seq<char>, b: Seq<char>)
    requires
        a != b,
    ensures
        chars_lt(a, b) || chars_lt(b, a),
    decreases a.len(),
{
    if a.len() > 0 && b.len() > 0 && a[0] == b[0] {
        if a.drop_first() == b.drop_first() {
            assert(a =~= seq![a[0]] + a.drop_first());
            assert(b =~= seq![b[0]] + b.drop_first());
        }
        lemma_chars_total(a.drop_first(), b.drop_first());
    } else if a.len() > 0 && b.len() > 0 {
    } else if a.len() == 0 && b.len() == 0 {
        assert(a =~= b);
    }
}

/// `ranks_before` is a strict order, total on entries with distinct identities.
pub proof fn lemma_ranks_before(x: TrackEntry, y: TrackEntry, z: TrackEntry)
    ensures
        !ranks_before(x, x),
        ranks_before(x, y) && ranks_before(y, z) ==> ranks_before(x, z),
        x.key@ != y.key@ ==> ranks_before(x, y) || ranks_before(y, x),
{
    lemma_chars_irrefl(x.key.track@);
    lemma_chars_irrefl(x.key.artist@);
    lemma_chars_irrefl(x.key.album@);
    if chars_lt(x.key.track@, y.key.track@) && chars_lt(y.key.track@, z.key.track@) {
        lemma_chars_trans(x.key.track@, y.key.track@, z.key.track@);
    }
    if chars_lt(x.key.artist@, y.key.artist@) && chars_lt(y.key.artist@, z.key.artist@) {
        lemma_chars_trans(x.key.artist@, y.key.artist@, z.key.artist@);
    }
    if chars_lt(x.key.album@, y.key.album@) && chars_lt(y.key.album@, z.key.album@) {
        lemma_chars_trans(x.key.album@, y.key.album@, z.key.album@);
    }
    if x.key.track@ != y.key.track@ {
        lemma_chars_total(x.key.track@, y.key.track@);
    }
    if x.key.artist@ != y.key.artist@ {
        lemma_chars_total(x.key.artist@, y.key.artist@);
    }
    if x.key.album@ != y.key.album@ {
        lemma_chars_total(x.key.album@, y.key.album@);
    }
}

/// Exact lexicographic comparison of two strings.
pub fn chars_less(a: &String, b: &String) -> (r: bool)
    ensures
        r == chars_lt(a@, b@),
{
    let sa = a.as_str();
    let sb = b.as_str();
    let la = sa.unicode_len();
    let lb = sb.unicode_len();
    let mut i: usize = 0;
    assert(a@.skip(0) =~= a@);
    assert(b@.skip(0) =~= b@);
    while i < la && i < lb
        invariant
            la == a@.len(),
            lb == b@.len(),
            sa@ == a@,
            sb@ == b@,
            i <= la,
            i <= lb,
            chars_lt(a@, b@) == chars_lt(a@.skip(i as int), b@.skip(i as int)),
        decreases la - i,
    {
        let ca = sa.get_char(i);
        let cb = sb.get_char(i);
        assert(a@.skip(i as int)[0] == ca);
        assert(b@.skip(i as int)[0] == cb);
        if ca != cb {
            return ca < cb;
        }
        assert(a@.skip(i as int).drop_first() =~= a@.skip(i + 1));
        assert(b@.skip(i as int).drop_first() =~= b@.skip(i + 1));
        i = i + 1;
    }
    i == la && i < lb
}

/// Exact comparison of two identities in identity order.
pub fn key_less(x: &TrackKey, y: &TrackKey) -> (r: bool)
    ensures
        r == key_lt(x@, y@),
{
    if chars_less(&x.track, &y.track) {
        true
    } else if x.track != y.track {
        false
    } else if chars_less(&x.artist, &y.artist) {
        true
    } else if x.artist != y.artist {
        false
    } else {
        chars_less(&x.album, &y.album)
    }
}

/// Exact comparison of two entries in ranking order.
pub fn ranked_before(x: &TrackEntry, y: &TrackEntry) -> (r: bool)
    ensures
        r == ranks_before(*x, *y),
{
    x.count > y.count || (x.count == y.count && key_less(&x.key, &y.key))
}

/// Sorts statistics entries with distinct identities into ranking order.
pub fn rank(v: Vec<TrackEntry>) -> (r: Vec<TrackEntry>)
    requires
        keys_unique(v@),
    ensures
        r@.to_multiset() == v@.to_multiset(),
        is_ranked(r@),
{
    let mut out: Vec<TrackEntry> = Vec::new();
    let mut rest = v;
    let ghost s = rest@;
    let mut i: usize = 0;
    let n = rest.len();
    assert(s.take(0) =~= Seq::<TrackEntry>::empty());
    while i < n
        invariant
            n == s.len(),
            i <= n,
            keys_unique(s),
            rest@ == s.skip(i as int),
            out@.to_multiset() == s.take(i as int).to_multiset(),
            is_ranked(out@),
        decreases n - i,
    {
        let x = rest.remove(0);
        assert(x == s[i as int]);
        assert(rest@ =~= s.skip(i + 1));
        let mut lo: usize = 0;
        let mut hi: usize = out.len();
        while lo < hi
            invariant
                lo <= hi <= out@.len(),
                is_ranked(out@),
                forall|t: int| 0 <= t < lo ==> ranks_before(#[trigger] out@[t], x),
                forall|t: int| hi <= t < out@.len() ==> !ranks_before(#[trigger] out@[t], x),
            decreases hi - lo,
        {
            let mid = lo + (hi - lo) / 2;
            if ranked_before(&out[mid], &x) {
                proof {
                    assert forall|t: int| 0 <= t < mid + 1 implies ranks_before(#[trigger] out@[t], x) by {
                        if t < mid {
                            lemma_ranks_before(out@[t], out@[mid as int], x);
                        }
                    }
                }
                lo = mid + 1;
            } else {
                proof {
                    assert forall|t: int| mid <= t < out@.len() implies !ranks_before(#[trigger] out@[t], x) by {
                        if t > mid {
                            lemma_ranks_before(out@[mid as int], out@[t], x);
                        }
                    }
                }
                hi = mid;
            }
        }
        let p = lo;
        let ghost before = out@;
        proof {
            if p < before.len() {
                let y = before[p as int];
                assert(before.contains(y));
                assert(before.to_multiset().count(y) > 0);
                assert(s.take(i as int).contains(y));
                let j = choose|j: int| 0 <= j < i && s.take(i as int)[j] == y;
                assert(s[j] == y);
                lemma_ranks_before(x, y, x);
                assert(ranks_before(x, y));
                assert forall|t: int| p < t < before.len() implies ranks_before(x, #[trigger] before[t]) by {
                    lemma_ranks_before(x, y, before[t]);
                }
            }
        }
        out.insert(p, x);
        proof {
            let after = out@;
            assert(after =~= before.insert(p as int, x));
            assert forall|a: int, b: int| 0 <= a < b < after.len() implies ranks_before(
                #[trigger] after[a],
                #[trigger] after[b],
            ) by {
                if b < p {
                    assert(after[a] == before[a] && after[b] == before[b]);
                } else if b == p {
                    assert(after[a] == before[a]);
                } else if a < p {
                    assert(after[a] == before[a] && after[b] == before[b - 1]);
                    if a < b - 1 {
                        assert(ranks_before(before[a], before[b - 1]));
                    }
                } else if a == p {
                    assert(after[b] == before[b - 1]);
                } else {
                    assert(after[a] == before[a - 1] && after[b] == before[b - 1]);
                }
            }
            assert(before.insert(p as int, x) =~= before.subrange(0, p as int).push(x) + before.subrange(
                p as int,
                before.len() as int,
            ));
            vstd::seq_lib::lemma_multiset_commutative(
                before.subrange(0, p as int).push(x),
                before.subrange(p as int, before.len() as int),
            );
            vstd::seq_lib::lemma_multiset_commutative(
                before.subrange(0, p as int),
                before.subrange(p as int, before.len() as int),
            );
            assert(before =~= before.subrange(0, p as int) + before.subrange(p as int, before.len() as int));
            assert(s.take(i + 1) =~= s.take(i as int).push(x));
            assert(after.to_multiset() =~= s.take(i + 1).to_multiset());
        }
        i = i + 1;
    }
    assert(s.take(n as int) =~= s);
    out
}

} // verus!
