//! The positions of the boundaries of a text, whatever the rules that put them there.

use vstd::prelude::*;

verus! {

/// The positions before `m` where there is a boundary, in order.
pub open spec fn positions_before(is_break: spec_fn(int) -> bool, m: int) -> Seq<int>
    decreases m,
{
    if m <= 0 {
        Seq::empty()
    } else if is_break(m - 1) {
        positions_before(is_break, m - 1).push(m - 1)
    } else {
        positions_before(is_break, m - 1)
    }
}

/// The positions are those of the boundaries, each of them once and in order.
pub proof fn lemma_positions(is_break: spec_fn(int) -> bool, m: int)
    ensures
        ({
            let positions = positions_before(is_break, m);
            &&& forall|a: int|
                0 <= a < positions.len() ==> 0 <= #[trigger] positions[a] < m && is_break(
                    positions[a],
                )
            &&& forall|a: int, b: int|
                0 <= a < b < positions.len() ==> #[trigger] positions[a] < #[trigger] positions[b]
            &&& forall|i: int|
                0 <= i < m && #[trigger] is_break(i) ==> positions.contains(i)
        }),
    decreases m,
{
    if m > 0 {
        lemma_positions(is_break, m - 1);
        let before = positions_before(is_break, m - 1);
        let positions = positions_before(is_break, m);
        assert forall|i: int| 0 <= i < m && #[trigger] is_break(i) implies positions.contains(
            i,
        ) by {
            if i < m - 1 {
                assert(before.contains(i));
                let a = choose|a: int| 0 <= a < before.len() && before[a] == i;
                assert(positions[a] == i);
            } else {
                assert(positions[before.len() as int] == i);
            }
        }
    }
}

} // verus!
