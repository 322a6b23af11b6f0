//! Source-location-tagged diagnostics.
//!
//! Every fatal condition in the pipeline is reported as a [`Diag`] holding a
//! primary message with its character offset into the source, and, for
//! structurally related failures (mismatched tag names, mismatched
//! control-flow closers), one secondary location, giving a single
//! two-location diagnostic.

use vstd::prelude::*;

verus! {

/// One message tied to a character offset in the template source.
#[derive(Clone, Debug)]
pub struct DiagPoint {
    pub pos: usize,
    pub msg: String,
}

/// A compilation diagnostic: a primary location plus, for paired errors,
/// one secondary location.
#[derive(Clone, Debug)]
pub struct Diag {
    pub primary: DiagPoint,
    pub secondary: Option<DiagPoint>,
}

impl Diag {
    /// A one-location diagnostic.
    pub fn new(pos: usize, msg: String) -> (d: Diag)
        ensures
            d.primary.pos == pos,
            d.primary.msg@ == msg@,
            d.secondary is None,
    {
        Diag { primary: DiagPoint { pos, msg }, secondary: None }
    }

    /// A two-location diagnostic, used where two spans explain one error.
    pub fn paired(pos_1: usize, msg_1: String, pos_2: usize, msg_2: String) -> (d: Diag)
        ensures
            d.primary.pos == pos_1,
            d.primary.msg@ == msg_1@,
            d.secondary matches Some(s) && s.pos == pos_2 && s.msg@ == msg_2@,
    {
        Diag {
            primary: DiagPoint { pos: pos_1, msg: msg_1 },
            secondary: Some(DiagPoint { pos: pos_2, msg: msg_2 }),
        }
    }

    /// True when the diagnostic cites two locations.
    pub fn is_paired(&self) -> (r: bool)
        ensures
            r == (self.secondary is Some),
    {
        self.secondary.is_some()
    }
}

} // verus!
