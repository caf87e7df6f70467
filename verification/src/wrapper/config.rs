//! The configuration of wrapper aliases.

use vstd::prelude::*;
use super::alias::Alias;

verus! {

/// All wrapper aliases.
pub struct Config {
    pub aliases: Vec<Alias>,
}

} // verus!
