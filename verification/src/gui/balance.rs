//! The island balance view's styling of resource categories.
use vstd::prelude::*;

use crate::model::resource::ResourceCategory;

verus! {

/// The style class of a category in the balance table.
pub open spec fn category_css_class_spec(cat: ResourceCategory) -> Seq<char> {
    match cat {
        ResourceCategory::RawMaterial => "cat-raw"@,
        ResourceCategory::Intermediate => "cat-intermediate"@,
        ResourceCategory::FinalProduct => "cat-final"@,
        ResourceCategory::Waste => "cat-waste"@,
        ResourceCategory::Pollution => "cat-pollution"@,
        ResourceCategory::Electricity => "cat-electricity"@,
        ResourceCategory::Maintenance => "cat-maintenance"@,
        _ => "cat-other"@,
    }
}

/// The style class of a category in the balance table.
pub fn category_css_class(cat: &ResourceCategory) -> (class: &'static str)
    ensures
        class@ == category_css_class_spec(*cat),
{
    match cat {
        ResourceCategory::RawMaterial => "cat-raw",
        ResourceCategory::Intermediate => "cat-intermediate",
        ResourceCategory::FinalProduct => "cat-final",
        ResourceCategory::Waste => "cat-waste",
        ResourceCategory::Pollution => "cat-pollution",
        ResourceCategory::Electricity => "cat-electricity",
        ResourceCategory::Maintenance => "cat-maintenance",
        _ => "cat-other",
    }
}

} // verus!
