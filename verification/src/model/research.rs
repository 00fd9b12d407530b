//! Research nodes.
use vstd::prelude::*;

use super::ids::ResearchId;

verus! {

/// A research node: buildings and recipes each name the node that unlocks them.
#[derive(Debug, Clone)]
pub struct Research {
    pub id: ResearchId,
    pub name: String,
    pub name_en: String,
    /// The research that must come before this one.
    pub prerequisites: Vec<ResearchId>,
}

} // verus!
