//! The ext foreign toplevel protocol.

use vstd::prelude::*;

verus! {

/// What an ext toplevel handle carries: the id of its toplevel.
#[derive(Debug)]
pub struct ExtToplevelHandleData {
    pub id: usize,
}

} // verus!
