//! Tags: the names under which images are wired from pass to pass.

use vstd::prelude::*;

verus! {

/// The mathematical value of a tag: its characters.
pub type Tag = Seq<char>;

/// `k` is the first position of `name` in `names`.
pub open spec fn is_first_position(names: Seq<Seq<char>>, name: Seq<char>, k: int) -> bool {
    &&& 0 <= k < names.len()
    &&& names[k] == name
    &&& forall|j: int| 0 <= j < k ==> names[j] != name
}

} // verus!
