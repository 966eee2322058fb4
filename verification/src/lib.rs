//! Reactive UI bookkeeping: tracked collections and the children that mirror them, the
//! scheduling of update functions, hierarchy queries, interaction and text editing.

use vstd::prelude::*;

pub mod runtime;
pub mod tracking;
pub mod foreach;
pub mod text_edit;
pub mod interaction;
pub mod tree;
pub mod child_map;
pub mod lens;
pub mod observer;
pub mod change_tracking;
pub mod transition;
pub mod asset;
pub mod insertable;
pub mod text;

verus! {

/// Marker for values that are given once and never change.
pub struct Static;

/// Marker for values that an observer recomputes.
pub struct Dynamic;

/// Marker for values that an observer recomputes and that may be absent.
pub struct OptionalDynamic;

} // verus!
