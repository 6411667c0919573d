//! The treeland foreign toplevel protocol.

use vstd::prelude::*;

verus! {

/// What a treeland toplevel handle carries: the id of its toplevel.
#[derive(Debug)]
pub struct TreelandToplevelHandleData {
    pub id: usize,
}

} // verus!
