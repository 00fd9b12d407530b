//! Edict (policy) targets and modifier kinds.
use vstd::prelude::*;

verus! {

/// What an edict effect acts on.
#[derive(Debug, Clone, Copy, PartialEq, Eq, Structural)]
pub enum EdictTarget {
    FoodConsumption,
    VehicleFuel,
    ShipFuel,
    MaintenanceConsumption,
    TruckCapacity,
    TruckMaintenance,
    RecyclingEfficiency,
    FarmYield,
    FarmWater,
    WaterConsumption,
    SolarOutput,
    PopulationGrowth,
    HealthPoints,
    UnityFromGoods,
    HouseholdGoodsConsumption,
    HouseholdAppliancesConsumption,
    ConsumerElectronicsConsumption,
}

/// How an edict effect's value combines with the quantity it targets.
#[derive(Debug, Clone, Copy, PartialEq, Eq, Structural)]
pub enum ModifierType {
    /// A multiplier (0.85 reduces by 15%).
    Multiply,
    /// An additive amount.
    Add,
}

} // verus!
