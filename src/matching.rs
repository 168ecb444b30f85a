//! The matching rule that the query, write and delete engines share.
use vstd::prelude::*;

use crate::parser::string_views;

verus! {

/// A block's labels satisfy a segment's labels when the segment asks for none,
/// or when some label of the segment equals some label of the block.
pub open spec fn labels_match(want: Seq<Seq<char>>, have: Seq<Seq<char>>) -> bool {
    want.len() == 0 || exists|i: int, j: int|
        0 <= i < want.len() && 0 <= j < have.len() && #[trigger] want[i] == #[trigger] have[j]
}

/// Whether the labels `have` of a block satisfy the labels `want` of a segment.
pub fn labels_satisfied(want: &Vec<String>, have: &Vec<String>) -> (r: bool)
    ensures
        r == labels_match(string_views(want@), string_views(have@)),
{
    let ghost w = string_views(want@);
    let ghost h = string_views(have@);
    if want.len() == 0 {
        return true;
    }
    let mut i: usize = 0;
    while i < want.len()
        invariant
            w == string_views(want@),
            h == string_views(have@),
            i <= want@.len(),
            forall|a: int, b: int| 0 <= a < i && 0 <= b < h.len() ==> w[a] != h[b],
        decreases want@.len() - i,
    {
        let mut j: usize = 0;
        while j < have.len()
            invariant
                w == string_views(want@),
                h == string_views(have@),
                i < want@.len(),
                j <= have@.len(),
                forall|a: int, b: int| 0 <= a < i && 0 <= b < h.len() ==> w[a] != h[b],
                forall|b: int| 0 <= b < j ==> w[i as int] != h[b],
            decreases have@.len() - j,
        {
            if want[i] == have[j] {
                assert(w[i as int] == h[j as int]);
                return true;
            }
            j += 1;
        }
        i += 1;
    }
    assert forall|a: int, b: int| 0 <= a < w.len() && 0 <= b < h.len() implies w[a] != h[b] by {}
    false
}

} // verus!
