//! The producers of votes.

use vstd::prelude::*;

verus! {

/// Which producer feeds a storage instance.
///
/// Votes heard over gossip are only buffered; votes submitted directly to the
/// leader are buffered and also processed.
#[derive(Clone, Copy, Debug, PartialEq, Eq, Structural)]
pub enum VoteSource {
    Gossip,
    Tpu,
}

} // verus!
