//! Keeps a set of goal documents, grouped in half-year milestone periods, in
//! step with their tracking issues on a remote issue tracker. Goals are read
//! into [`goal::Goal`] values, the tracker's issues into an [`index::IssueIndex`]
//! keyed by the identity marker each issue body carries, and an
//! [`engine::Reconciler`] decides, goal after goal, which issue to create,
//! update or close; the caller carries the requests out and reports back.
use vstd::prelude::*;

pub mod text;
pub mod period;
pub mod goal;
pub mod fields;
pub mod marker;
pub mod index;
pub mod engine;
pub mod version;

verus! {

} // verus!
