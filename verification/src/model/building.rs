//! Building classification and maintenance tiers.
use vstd::prelude::*;

use super::ids::ResourceId;

verus! {

/// The maintenance tier a building consumes (I, II and III are not interchangeable).
#[derive(Debug, Clone, Copy, PartialEq, Eq, Structural)]
pub enum MaintenanceTier {
    Maintenance1,
    Maintenance2,
    Maintenance3,
}

/// The area a building occupies.
#[derive(Debug, Clone, Copy, PartialEq, Eq, Structural)]
pub struct Footprint {
    pub width: u32,
    pub height: u32,
}

/// The category a building belongs to.
#[derive(Debug, Clone, Copy, PartialEq, Eq, Structural)]
pub enum BuildingCategory {
    Mining,
    Smelting,
    Manufacturing,
    FoodProduction,
    Power,
    WasteProcessing,
    Storage,
    Housing,
    Services,
    Farming,
    Transport,
    Research,
    Logistics,
    Other,
}

/// The resource id under which a maintenance tier is booked in a balance sheet.
pub open spec fn maintenance_id_spec(tier: MaintenanceTier) -> Seq<char> {
    match tier {
        MaintenanceTier::Maintenance1 => "maintenance_1"@,
        MaintenanceTier::Maintenance2 => "maintenance_2"@,
        MaintenanceTier::Maintenance3 => "maintenance_3"@,
    }
}

/// The Chinese and English labels of a maintenance tier.
pub open spec fn maintenance_label_spec(tier: MaintenanceTier) -> (Seq<char>, Seq<char>) {
    match tier {
        MaintenanceTier::Maintenance1 => ("維護 I"@, "Maintenance I"@),
        MaintenanceTier::Maintenance2 => ("維護 II"@, "Maintenance II"@),
        MaintenanceTier::Maintenance3 => ("維護 III"@, "Maintenance III"@),
    }
}

impl MaintenanceTier {
    /// The balance-sheet resource this tier is booked under.
    pub fn resource_id(&self) -> (id: ResourceId)
        ensures
            id@ == maintenance_id_spec(*self),
    {
        match self {
            MaintenanceTier::Maintenance1 => ResourceId::new("maintenance_1"),
            MaintenanceTier::Maintenance2 => ResourceId::new("maintenance_2"),
            MaintenanceTier::Maintenance3 => ResourceId::new("maintenance_3"),
        }
    }

    /// The Chinese and English labels of this tier.
    pub fn labels(&self) -> (labels: (&'static str, &'static str))
        ensures
            (labels.0@, labels.1@) == maintenance_label_spec(*self),
    {
        match self {
            MaintenanceTier::Maintenance1 => ("維護 I", "Maintenance I"),
            MaintenanceTier::Maintenance2 => ("維護 II", "Maintenance II"),
            MaintenanceTier::Maintenance3 => ("維護 III", "Maintenance III"),
        }
    }
}

/// Distinct tiers are booked under distinct resources, so the tiers stay separate
/// in every balance sheet.
pub proof fn lemma_maintenance_ids_distinct(a: MaintenanceTier, b: MaintenanceTier)
    requires
        maintenance_id_spec(a) == maintenance_id_spec(b),
    ensures
        a == b,
{
    reveal_strlit("maintenance_1");
    reveal_strlit("maintenance_2");
    reveal_strlit("maintenance_3");
    assert("maintenance_1"@[12] == '1');
    assert("maintenance_2"@[12] == '2');
    assert("maintenance_3"@[12] == '3');
}

} // verus!
