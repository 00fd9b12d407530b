//! Resources and their categories.
use vstd::prelude::*;

use super::ids::ResourceId;
use crate::text::{chars_of, join_spec, join_strings, string_from_chars};

verus! {

/// The category a resource belongs to.
#[derive(Debug, Clone, Copy, PartialEq, Eq, Structural)]
pub enum ResourceCategory {
    /// Ores and raw materials (mining, quarrying).
    RawMaterial,
    /// Semi-processed goods.
    Intermediate,
    /// End products.
    FinalProduct,
    /// By-products that processing buildings must consume.
    Waste,
    /// Maintenance I, II and III, which cannot stand in for one another.
    Maintenance,
    /// Diesel, heavy oil, hydrogen.
    Fuel,
    /// Power, a virtual resource in KW.
    Electricity,
    /// Computing, a virtual resource in TFlops.
    Computing,
    /// Unity, a virtual resource with production and consumption.
    Unity,
    /// Food.
    Food,
    /// Services such as healthcare and goods.
    Service,
    /// Housing.
    Housing,
    /// Molten materials carried by molten channels.
    MoltenMaterial,
    /// Environmental pollution values: listed, never consumed.
    Pollution,
}

/// A resource of the game.
#[derive(Debug, Clone)]
pub struct Resource {
    pub id: ResourceId,
    /// Traditional Chinese name.
    pub name: String,
    /// English name.
    pub name_en: String,
    pub category: ResourceCategory,
    /// Extracted resources: production may exceed consumption.
    pub is_primary: bool,
    /// Waste that processing buildings must consume.
    pub is_waste: bool,
    /// Final pollution, listed but not balanced.
    pub is_pollution: bool,
    /// Virtual resources (electricity, computing, unity).
    pub is_virtual: bool,
}

/// The labels of a resource's flags, in order: raw material, waste,
/// pollution, virtual.
pub open spec fn flag_labels_spec(r: Resource) -> Seq<Seq<char>> {
    (if r.is_primary { seq!["原料"@] } else { seq![] }) + (if r.is_waste {
        seq!["廢棄物"@]
    } else {
        seq![]
    }) + (if r.is_pollution { seq!["污染"@] } else { seq![] }) + (if r.is_virtual {
        seq!["虛擬"@]
    } else {
        seq![]
    })
}

impl Resource {
    /// The labels of the resource's flags, joined with ", ".
    pub fn flag_text(&self) -> (text: String)
        ensures
            text@ == join_spec(flag_labels_spec(*self), ", "@),
    {
        let mut labels: Vec<String> = Vec::new();
        if self.is_primary {
            labels.push(string_from_chars(&chars_of("原料")));
        }
        if self.is_waste {
            labels.push(string_from_chars(&chars_of("廢棄物")));
        }
        if self.is_pollution {
            labels.push(string_from_chars(&chars_of("污染")));
        }
        if self.is_virtual {
            labels.push(string_from_chars(&chars_of("虛擬")));
        }
        assert(labels@.map_values(|p: String| p@) =~= flag_labels_spec(*self));
        join_strings(&labels, ", ")
    }
}

} // verus!
