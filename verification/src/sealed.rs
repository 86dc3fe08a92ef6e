//! The mark of the types by which an item can be looked up. The module is
//! not handed out, so no other type can take the mark.
use vstd::prelude::*;
use crate::data_item::DataItem;

verus! {

/// The types by which an item can be looked up.
pub trait Sealed {

}

impl Sealed for usize {

}

impl Sealed for DataItem {

}

} // verus!
