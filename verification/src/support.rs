//! Small helpers on texts and sequences.
use vstd::prelude::*;
use vstd::string::StrSliceExecFns;

verus! {

/// The list of the item that is there, if any.
pub open spec fn optional<T>(item: Option<T>) -> Seq<T> {
    match item {
        Some(item) => seq![item],
        None => Seq::empty(),
    }
}

/// The list with the item at its end, if there is one.
pub open spec fn with_item<T>(items: Seq<T>, item: Option<T>) -> Seq<T> {
    match item {
        Some(item) => items.push(item),
        None => items,
    }
}

/// Whether two texts hold the same characters.
pub fn same_text(left: &str, right: &str) -> (same: bool)
    ensures
        same == (left@ == right@),
{
    let length = left.unicode_len();
    if length != right.unicode_len() {
        return false;
    }
    let mut index: usize = 0;
    while index < length
        invariant
            index <= length,
            length == left@.len(),
            length == right@.len(),
            forall|i: int| 0 <= i < index ==> left@[i] == right@[i],
        decreases length - index,
    {
        if left.get_char(index) != right.get_char(index) {
            return false;
        }
        index = index + 1;
    }
    assert(left@ =~= right@);
    true
}

} // verus!
