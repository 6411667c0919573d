//! The wlr foreign toplevel protocol.

use vstd::prelude::*;

verus! {

/// What a wlr toplevel handle carries: the id of its toplevel.
#[derive(Debug)]
pub struct ToplevelHandleData {
    pub id: usize,
}

} // verus!
