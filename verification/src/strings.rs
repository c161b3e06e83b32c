//! The values of strings and of lists of strings, as contracts speak of them.

use vstd::prelude::*;

verus! {

/// The values of a list of strings, in order.
pub open spec fn views(list: Seq<String>) -> Seq<Seq<char>> {
    Seq::new(list.len(), |i: int| list[i]@)
}

/// The value of a string that may be missing.
pub open spec fn option_view(text: Option<String>) -> Option<Seq<char>> {
    match text {
        Some(s) => Some(s@),
        None => None,
    }
}

/// The values of a list of strings of which some may be missing.
pub open spec fn option_views(list: Seq<Option<String>>) -> Seq<Option<Seq<char>>> {
    Seq::new(list.len(), |i: int| option_view(list[i]))
}

} // verus!
