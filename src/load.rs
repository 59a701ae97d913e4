use vstd::prelude::*;
use crate::record::{clone_entry, StreamEntry};

verus! {

/// The records of all files, file after file, each file's records in their order.
pub open spec fn concat_parts(parts: Seq<Vec<StreamEntry>>) -> Seq<StreamEntry>
    decreases parts.len(),
{
    if parts.len() == 0 {
        Seq::empty()
    } else {
        concat_parts(parts.drop_last()) + parts.last()@
    }
}

/// Joins the records decoded from each file; a file that could not be read or
/// decoded contributes an empty list and leaves the others untouched.
pub fn merge_loaded(parts: &Vec<Vec<StreamEntry>>) -> (r: Vec<StreamEntry>)
    ensures
        r@ == concat_parts(parts@),
{
    let ghost p = parts@;
    let mut out: Vec<StreamEntry> = Vec::new();
    let mut i: usize = 0;
    while i < parts.len()
        invariant
            p == parts@,
            i <= p.len(),
            out@ == concat_parts(p.take(i as int)),
        decreases p.len() - i,
    {
        let part = &parts[i];
        let ghost start = out@;
        let mut j: usize = 0;
        while j < part.len()
            invariant
                j <= part@.len(),
                out@ == start + part@.take(j as int),
            decreases part@.len() - j,
        {
            out.push(clone_entry(&part[j]));
            j = j + 1;
            assert(out@ =~= start + part@.take(j as int));
        }
        assert(part@.take(part@.len() as int) =~= part@);
        assert(p.take(i + 1).drop_last() =~= p.take(i as int));
        i = i + 1;
    }
    assert(p.take(p.len() as int) =~= p);
    out
}

} // verus!
