//! Labels used when printing balance sheets.
use vstd::prelude::*;

use crate::model::resource::ResourceCategory;

verus! {

/// The short Chinese label of a category.
pub open spec fn category_name_spec(category: ResourceCategory) -> Seq<char> {
    match category {
        ResourceCategory::RawMaterial => "原料"@,
        ResourceCategory::Intermediate => "中間"@,
        ResourceCategory::FinalProduct => "成品"@,
        ResourceCategory::MoltenMaterial => "熔融"@,
        ResourceCategory::Food => "食物"@,
        ResourceCategory::Fuel => "燃料"@,
        ResourceCategory::Electricity => "電力"@,
        ResourceCategory::Computing => "算力"@,
        ResourceCategory::Unity => "凝聚力"@,
        ResourceCategory::Maintenance => "維護"@,
        ResourceCategory::Service => "服務"@,
        ResourceCategory::Housing => "住宅"@,
        ResourceCategory::Waste => "廢棄物"@,
        ResourceCategory::Pollution => "污染"@,
    }
}

/// The label printed in the category column of a balance sheet.
pub fn category_name(category: &ResourceCategory) -> (name: &'static str)
    ensures
        name@ == category_name_spec(*category),
{
    match category {
        ResourceCategory::RawMaterial => "原料",
        ResourceCategory::Intermediate => "中間",
        ResourceCategory::FinalProduct => "成品",
        ResourceCategory::MoltenMaterial => "熔融",
        ResourceCategory::Food => "食物",
        ResourceCategory::Fuel => "燃料",
        ResourceCategory::Electricity => "電力",
        ResourceCategory::Computing => "算力",
        ResourceCategory::Unity => "凝聚力",
        ResourceCategory::Maintenance => "維護",
        ResourceCategory::Service => "服務",
        ResourceCategory::Housing => "住宅",
        ResourceCategory::Waste => "廢棄物",
        ResourceCategory::Pollution => "污染",
    }
}

} // verus!
