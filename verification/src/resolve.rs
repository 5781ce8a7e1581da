//! Discriminant resolution: assigning each variant its concrete integer
//! discriminant by C-style enumerator rules.

use vstd::prelude::*;

verus! {

/// The discriminant that position `i` of a variant list resolves to, given
/// the optional explicit values `ds`: an explicit literal is taken as it
/// stands, and an implicit position is one more than the previous position's
/// resolved value, starting at 0 for an implicit first position.
pub open spec fn resolved_at(ds: Seq<Option<i64>>, i: int) -> int
    recommends
        0 <= i < ds.len(),
    decreases i,
{
    match ds[i] {
        Some(v) => v as int,
        None => if i <= 0 {
            0
        } else {
            resolved_at(ds, i - 1) + 1
        },
    }
}

/// Every resolved discriminant lies between the smallest explicit value and
/// the largest explicit value plus the number of positions walked, so a
/// 128-bit integer holds it with room to spare.
pub proof fn lemma_resolved_bounds(ds: Seq<Option<i64>>, i: int)
    requires
        0 <= i < ds.len(),
    ensures
        i64::MIN <= resolved_at(ds, i) <= i64::MAX + i,
    decreases i,
{
    if ds[i] is None && i > 0 {
        lemma_resolved_bounds(ds, i - 1);
    }
}

/// Resolve every variant's discriminant in declaration order. The running
/// value is held in a 128-bit integer, so the increment for an implicit
/// position cannot overflow for any admissible input.
pub fn resolve_discriminants(ds: &Vec<Option<i64>>) -> (r: Vec<i128>)
    ensures
        r@.len() == ds@.len(),
        forall|i: int| 0 <= i < ds@.len() ==> r@[i] == resolved_at(ds@, i),
{
    let mut out: Vec<i128> = Vec::new();
    let mut prev: i128 = -1;
    let mut i: usize = 0;
    while i < ds.len()
        invariant
            i <= ds@.len(),
            out@.len() == i,
            forall|j: int| 0 <= j < i ==> out@[j] == resolved_at(ds@, j),
            prev == if i == 0 {
                -1int
            } else {
                resolved_at(ds@, i - 1)
            },
            i64::MIN <= prev,
            prev <= i64::MAX + if i == 0 {
                0int
            } else {
                i - 1
            },
        decreases ds@.len() - i,
    {
        let rv: i128 = match ds[i] {
            Some(v) => v as i128,
            None => prev + 1,
        };
        proof {
            if ds@[i as int] is None && i > 0 {
                lemma_resolved_bounds(ds@, i - 1);
            }
            assert(rv == resolved_at(ds@, i as int));
        }
        out.push(rv);
        prev = rv;
        i = i + 1;
    }
    out
}

} // verus!
