//! A calculator for the size and alignment of composite types.
//!
//! Given a description of a composite type — an ordered list of fields for a
//! struct, or a discriminant plus a list of variant payloads for a tagged
//! union — the library computes the type's overall size, alignment and field
//! offsets under two layout strategies: a compiler-chosen ("default")
//! strategy that may reorder fields, and a deterministic, C-compatible
//! ("sequential") strategy that lays fields out in declaration order.

pub mod align;
pub mod descriptor;
pub mod layout;

use vstd::prelude::*;

verus! {

/// Accepts any type parameter, including dynamically sized ones such as
/// `str` or slices; instantiating it witnesses that the argument type needs
/// no compile-time size.
pub fn find_size1<T: ?Sized>() {
}

/// Accepts only type parameters with a compile-time size; instantiating it
/// witnesses that the argument type is `Sized`.
pub fn find_size2<T: Sized>() {
}

} // verus!
