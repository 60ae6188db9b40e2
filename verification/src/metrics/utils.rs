//! Statistics over token counts.

use vstd::prelude::*;

verus! {

/// `m` is the smallest and `x` the largest of the values, both among them.
pub open spec fn is_min_max(v: Seq<u32>, m: u32, x: u32) -> bool {
    &&& v.contains(m)
    &&& v.contains(x)
    &&& forall|i: int| 0 <= i < v.len() ==> m <= #[trigger] v[i] && v[i] <= x
}

/// The smallest and the largest value, or `None` for no values.
pub fn min_max(v: &[u32]) -> (r: Option<(u32, u32)>)
    ensures
        r is None <==> v@.len() == 0,
        r matches Some((m, x)) ==> is_min_max(v@, m, x),
{
    if v.len() == 0 {
        return None;
    }
    let mut m = v[0];
    let mut x = v[0];
    let mut mi: usize = 0;
    let mut xi: usize = 0;
    let mut i: usize = 1;
    while i < v.len()
        invariant
            1 <= i <= v@.len(),
            mi < i,
            xi < i,
            v@[mi as int] == m,
            v@[xi as int] == x,
            forall|k: int| 0 <= k < i ==> m <= #[trigger] v@[k] && v@[k] <= x,
        decreases v@.len() - i,
    {
        if v[i] < m {
            m = v[i];
            mi = i;
        }
        if v[i] > x {
            x = v[i];
            xi = i;
        }
        i = i + 1;
    }
    assert(v@.contains(m)) by {
        assert(v@[mi as int] == m);
    }
    assert(v@.contains(x)) by {
        assert(v@[xi as int] == x);
    }
    Some((m, x))
}

} // verus!
