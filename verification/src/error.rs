//! The errors of the library.
use vstd::prelude::*;

use crate::model::ids::{BuildingId, RecipeId, ResearchId, ResourceId};
use crate::text::{append_chars, chars_of, string_from_chars};

verus! {

/// What can go wrong when solving or looking up game data.
#[derive(Debug, Clone)]
pub enum AppError {
    /// No resource has this id.
    ResourceNotFound(ResourceId),
    /// No building has this id.
    BuildingNotFound(BuildingId),
    /// No recipe has this id.
    RecipeNotFound(RecipeId),
    /// No research node has this id.
    ResearchNotFound(ResearchId),
    /// No unlocked recipe outputs this resource.
    NoAvailableRecipe(ResourceId),
    /// The resource depends on itself.
    CycleDetected(ResourceId),
    /// The data failed a consistency check.
    ValidationError(String),
}

/// The message shown for an error.
pub open spec fn message_spec(e: AppError) -> Seq<char> {
    match e {
        AppError::ResourceNotFound(id) => "找不到資源: "@ + id@,
        AppError::BuildingNotFound(id) => "找不到建築: "@ + id@,
        AppError::RecipeNotFound(id) => "找不到配方: "@ + id@,
        AppError::ResearchNotFound(id) => "找不到研究: "@ + id@,
        AppError::NoAvailableRecipe(id) => "無可用配方產出資源 "@ + id@ + "（可能尚未解鎖）"@,
        AppError::CycleDetected(id) => "偵測到循環依賴: "@ + id@,
        AppError::ValidationError(text) => "資料驗證失敗: "@ + text@,
    }
}

impl AppError {
    /// The message shown for the error.
    pub fn message(&self) -> (text: String)
        ensures
            text@ == message_spec(*self),
    {
        let (prefix, id, suffix): (&str, &String, &str) = match self {
            AppError::ResourceNotFound(id) => ("找不到資源: ", &id.0, ""),
            AppError::BuildingNotFound(id) => ("找不到建築: ", &id.0, ""),
            AppError::RecipeNotFound(id) => ("找不到配方: ", &id.0, ""),
            AppError::ResearchNotFound(id) => ("找不到研究: ", &id.0, ""),
            AppError::NoAvailableRecipe(id) => ("無可用配方產出資源 ", &id.0, "（可能尚未解鎖）"),
            AppError::CycleDetected(id) => ("偵測到循環依賴: ", &id.0, ""),
            AppError::ValidationError(text) => ("資料驗證失敗: ", text, ""),
        };
        let mut out = chars_of(prefix);
        append_chars(&mut out, &chars_of(id.as_str()));
        append_chars(&mut out, &chars_of(suffix));
        proof {
            reveal_strlit("");
            assert(out@ =~= message_spec(*self));
        }
        string_from_chars(&out)
    }
}

} // verus!
