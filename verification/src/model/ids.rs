//! Named identifier types: each wraps the string id used in the game data.
use vstd::prelude::*;

verus! {

/// A resource identifier, such as `iron_plate`.
#[derive(Debug, Clone, PartialEq, Eq, Hash)]
pub struct ResourceId(pub String);

impl View for ResourceId {
    type V = Seq<char>;

    open spec fn view(&self) -> Seq<char> {
        self.0@
    }
}

impl ResourceId {
    /// Wraps an identifier string.
    pub fn new(id: &str) -> (r: Self)
        ensures
            r@ == id@,
    {
        ResourceId(id.to_owned())
    }

    /// A copy of this identifier.
    pub fn duplicate(&self) -> (r: Self)
        ensures
            r@ == self@,
    {
        ResourceId(self.0.clone())
    }

    /// Whether two identifiers are the same string.
    pub fn same(&self, other: &Self) -> (eq: bool)
        ensures
            eq == (self@ == other@),
    {
        self.0 == other.0
    }
}

/// A building identifier, such as `blast_furnace`.
#[derive(Debug, Clone, PartialEq, Eq, Hash)]
pub struct BuildingId(pub String);

impl View for BuildingId {
    type V = Seq<char>;

    open spec fn view(&self) -> Seq<char> {
        self.0@
    }
}

impl BuildingId {
    /// Wraps an identifier string.
    pub fn new(id: &str) -> (r: Self)
        ensures
            r@ == id@,
    {
        BuildingId(id.to_owned())
    }

    /// A copy of this identifier.
    pub fn duplicate(&self) -> (r: Self)
        ensures
            r@ == self@,
    {
        BuildingId(self.0.clone())
    }

    /// Whether two identifiers are the same string.
    pub fn same(&self, other: &Self) -> (eq: bool)
        ensures
            eq == (self@ == other@),
    {
        self.0 == other.0
    }
}

/// A recipe identifier.
#[derive(Debug, Clone, PartialEq, Eq, Hash)]
pub struct RecipeId(pub String);

impl View for RecipeId {
    type V = Seq<char>;

    open spec fn view(&self) -> Seq<char> {
        self.0@
    }
}

impl RecipeId {
    /// Wraps an identifier string.
    pub fn new(id: &str) -> (r: Self)
        ensures
            r@ == id@,
    {
        RecipeId(id.to_owned())
    }

    /// A copy of this identifier.
    pub fn duplicate(&self) -> (r: Self)
        ensures
            r@ == self@,
    {
        RecipeId(self.0.clone())
    }

    /// Whether two identifiers are the same string.
    pub fn same(&self, other: &Self) -> (eq: bool)
        ensures
            eq == (self@ == other@),
    {
        self.0 == other.0
    }
}

/// A vehicle identifier.
#[derive(Debug, Clone, PartialEq, Eq, Hash)]
pub struct VehicleId(pub String);

impl View for VehicleId {
    type V = Seq<char>;

    open spec fn view(&self) -> Seq<char> {
        self.0@
    }
}

impl VehicleId {
    /// Wraps an identifier string.
    pub fn new(id: &str) -> (r: Self)
        ensures
            r@ == id@,
    {
        VehicleId(id.to_owned())
    }

    /// A copy of this identifier.
    pub fn duplicate(&self) -> (r: Self)
        ensures
            r@ == self@,
    {
        VehicleId(self.0.clone())
    }

    /// Whether two identifiers are the same string.
    pub fn same(&self, other: &Self) -> (eq: bool)
        ensures
            eq == (self@ == other@),
    {
        self.0 == other.0
    }
}

/// A research-node identifier.
#[derive(Debug, Clone, PartialEq, Eq, Hash)]
pub struct ResearchId(pub String);

impl View for ResearchId {
    type V = Seq<char>;

    open spec fn view(&self) -> Seq<char> {
        self.0@
    }
}

impl ResearchId {
    /// Wraps an identifier string.
    pub fn new(id: &str) -> (r: Self)
        ensures
            r@ == id@,
    {
        ResearchId(id.to_owned())
    }

    /// A copy of this identifier.
    pub fn duplicate(&self) -> (r: Self)
        ensures
            r@ == self@,
    {
        ResearchId(self.0.clone())
    }

    /// Whether two identifiers are the same string.
    pub fn same(&self, other: &Self) -> (eq: bool)
        ensures
            eq == (self@ == other@),
    {
        self.0 == other.0
    }
}

/// An edict identifier.
#[derive(Debug, Clone, PartialEq, Eq, Hash)]
pub struct EdictId(pub String);

impl View for EdictId {
    type V = Seq<char>;

    open spec fn view(&self) -> Seq<char> {
        self.0@
    }
}

impl EdictId {
    /// Wraps an identifier string.
    pub fn new(id: &str) -> (r: Self)
        ensures
            r@ == id@,
    {
        EdictId(id.to_owned())
    }

    /// A copy of this identifier.
    pub fn duplicate(&self) -> (r: Self)
        ensures
            r@ == self@,
    {
        EdictId(self.0.clone())
    }

    /// Whether two identifiers are the same string.
    pub fn same(&self, other: &Self) -> (eq: bool)
        ensures
            eq == (self@ == other@),
    {
        self.0 == other.0
    }
}

} // verus!
