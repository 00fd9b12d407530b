//! The recipe browser: its filters, which recipes pass them, the tiers offered
//! in the tier filter, and how a recipe is listed.
use vstd::prelude::*;

use crate::text::{append_chars, chars_of, contains_chars, contains_text, lowercase, lowercase_chars, string_from_chars};

verus! {

/// The browser's search text, filters and selection.
#[derive(Debug, Clone)]
pub struct RecipeBrowserState {
    pub search_text: String,
    pub selected_machine_filter: Option<String>,
    pub selected_tier_filter: Option<u32>,
    pub selected_recipe_id: Option<String>,
}

impl Default for RecipeBrowserState {
    /// No search text, no filter, nothing selected.
    fn default() -> (s: Self)
        ensures
            s.search_text@.len() == 0,
            s.selected_machine_filter is None,
            s.selected_tier_filter is None,
            s.selected_recipe_id is None,
    {
        RecipeBrowserState {
            search_text: String::new(),
            selected_machine_filter: None,
            selected_tier_filter: None,
            selected_recipe_id: None,
        }
    }
}

/// What the browser reads of a recipe.
#[derive(Debug, Clone)]
pub struct RecipeListing {
    pub id: String,
    pub name: String,
    pub name_zh: Option<String>,
    pub machine_id: String,
    pub tier: u32,
}

/// The lower-case texts of a recipe the search looks in: name, Chinese name, id.
pub type LoweredListing = (Seq<char>, Option<Seq<char>>, Seq<char>);

/// Whether a recipe passes the filters: the lower-case search text, when there
/// is one, occurs in its lower-case name, Chinese name or id; the machine and
/// tier filters, when set, match.
pub open spec fn passes_filters(
    search: Seq<char>,
    machine: Option<Seq<char>>,
    tier: Option<u32>,
    listing: RecipeListing,
    lowered: LoweredListing,
) -> bool {
    &&& (search.len() == 0 || contains_text(lowered.0, search) || (match lowered.1 {
        Some(z) => contains_text(z, search),
        None => false,
    }) || contains_text(lowered.2, search))
    &&& (match machine {
        Some(m) => listing.machine_id@ == m,
        None => true,
    })
    &&& (match tier {
        Some(t) => listing.tier == t,
        None => true,
    })
}

/// The view of an optional string.
pub open spec fn opt_text(s: Option<String>) -> Option<Seq<char>> {
    match s {
        Some(t) => Some(t@),
        None => None,
    }
}

/// The lower-case texts the search looks in, as `str::to_lowercase` gives them.
pub open spec fn lowered_listing(listing: RecipeListing) -> LoweredListing {
    (
        lowercase(listing.name@),
        match listing.name_zh {
            Some(z) => Some(lowercase(z@)),
            None => None,
        },
        lowercase(listing.id@),
    )
}

/// The search looks in a recipe's id as well as in its names: with no machine
/// or tier filter, a recipe is listed when the lower-case search text is empty
/// or occurs in its lower-case id, English name or Chinese name, whatever the
/// other texts hold. A machine or tier filter the recipe does not match hides
/// it, whatever the search.
pub proof fn lemma_search_and_filters(
    search: Seq<char>,
    machine: Option<Seq<char>>,
    tier: Option<u32>,
    listing: RecipeListing,
    p: int,
)
    ensures
        search.len() == 0 ==> passes_filters(search, None, None, listing, lowered_listing(listing)),
        0 <= p && p + search.len() <= lowercase(listing.id@).len() && lowercase(listing.id@).subrange(
            p,
            p + search.len(),
        ) == search ==> passes_filters(search, None, None, listing, lowered_listing(listing)),
        0 <= p && p + search.len() <= lowercase(listing.name@).len() && lowercase(listing.name@).subrange(
            p,
            p + search.len(),
        ) == search ==> passes_filters(search, None, None, listing, lowered_listing(listing)),
        (listing.name_zh matches Some(z) && 0 <= p && p + search.len() <= lowercase(z@).len() && lowercase(
            z@,
        ).subrange(p, p + search.len()) == search) ==> passes_filters(
            search,
            None,
            None,
            listing,
            lowered_listing(listing),
        ),
        (machine matches Some(m) && m != listing.machine_id@) ==> !passes_filters(
            search,
            machine,
            tier,
            listing,
            lowered_listing(listing),
        ),
        (tier matches Some(t) && t != listing.tier) ==> !passes_filters(
            search,
            machine,
            tier,
            listing,
            lowered_listing(listing),
        ),
{
}

impl RecipeBrowserState {
    /// Whether a recipe passes the filters, given the lower-case search text
    /// and the recipe's lower-case name, Chinese name and id.
    pub fn recipe_passes(
        &self,
        search_lower: &Vec<char>,
        listing: &RecipeListing,
        name_lower: &Vec<char>,
        zh_lower: &Option<Vec<char>>,
        id_lower: &Vec<char>,
    ) -> (pass: bool)
        ensures
            pass == passes_filters(
                search_lower@,
                opt_text(self.selected_machine_filter),
                self.selected_tier_filter,
                *listing,
                (
                    name_lower@,
                    match zh_lower {
                        Some(z) => Some(z@),
                        None => None,
                    },
                    id_lower@,
                ),
            ),
    {
        if search_lower.len() > 0 {
            let in_name = contains_chars(name_lower, search_lower);
            let in_zh = match zh_lower {
                Some(z) => contains_chars(z, search_lower),
                None => false,
            };
            let in_id = contains_chars(id_lower, search_lower);
            if !(in_name || in_zh || in_id) {
                return false;
            }
        }
        if let Some(m) = &self.selected_machine_filter {
            if !(listing.machine_id == *m) {
                return false;
            }
        }
        if let Some(t) = self.selected_tier_filter {
            if listing.tier != t {
                return false;
            }
        }
        true
    }

    /// The recipes the browser lists, as indices in their given order: those
    /// that pass the filters, with texts lower-cased by `str::to_lowercase`.
    pub fn filter_recipes(&self, recipes: &Vec<RecipeListing>) -> (shown: Vec<usize>)
        ensures
            forall|k: int| 0 <= k < shown@.len() ==> #[trigger] shown@[k] < recipes@.len(),
            forall|a: int, b: int| 0 <= a < b < shown@.len() ==> #[trigger] shown@[a] < #[trigger] shown@[b],
            forall|i: int| 0 <= i < recipes@.len() ==> (shown@.contains(i as usize) <==> passes_filters(
                lowercase(self.search_text@),
                opt_text(self.selected_machine_filter),
                self.selected_tier_filter,
                #[trigger] recipes@[i],
                lowered_listing(recipes@[i]),
            )),
            self.selected_machine_filter is None && self.selected_tier_filter is None ==> forall|i: int|
                0 <= i < recipes@.len() && contains_text(lowercase(recipes@[i].id@), lowercase(self.search_text@))
                    ==> shown@.contains(i as usize),
    {
        let search_lower = lowercase_chars(self.search_text.as_str());
        let mut shown: Vec<usize> = Vec::new();
        let mut i: usize = 0;
        while i < recipes.len()
            invariant
                i <= recipes@.len(),
                search_lower@ == lowercase(self.search_text@),
                forall|k: int| 0 <= k < shown@.len() ==> #[trigger] shown@[k] < i,
                forall|a: int, b: int| 0 <= a < b < shown@.len() ==> #[trigger] shown@[a] < #[trigger] shown@[b],
                forall|j: int| 0 <= j < i ==> (shown@.contains(j as usize) <==> passes_filters(
                    lowercase(self.search_text@),
                    opt_text(self.selected_machine_filter),
                    self.selected_tier_filter,
                    #[trigger] recipes@[j],
                    lowered_listing(recipes@[j]),
                )),
            decreases recipes@.len() - i,
        {
            let r = &recipes[i];
            let name_lower = lowercase_chars(r.name.as_str());
            let zh_lower = match &r.name_zh {
                Some(z) => Some(lowercase_chars(z.as_str())),
                None => None,
            };
            let id_lower = lowercase_chars(r.id.as_str());
            let pass = self.recipe_passes(&search_lower, r, &name_lower, &zh_lower, &id_lower);
            let ghost before = shown@;
            if pass {
                shown.push(i);
            }
            proof {
                assert(lowered_listing(recipes@[i as int]) == (
                    name_lower@,
                    match zh_lower {
                        Some(z) => Some(z@),
                        None => None,
                    },
                    id_lower@,
                ));
                assert forall|j: int| 0 <= j <= i implies (shown@.contains(j as usize) <==> passes_filters(
                    lowercase(self.search_text@),
                    opt_text(self.selected_machine_filter),
                    self.selected_tier_filter,
                    #[trigger] recipes@[j],
                    lowered_listing(recipes@[j]),
                )) by {
                    if j < i {
                        if before.contains(j as usize) {
                            let k = choose|k: int| 0 <= k < before.len() && before[k] == j as usize;
                            assert(shown@[k] == j as usize);
                        }
                        if shown@.contains(j as usize) {
                            let k = choose|k: int| 0 <= k < shown@.len() && shown@[k] == j as usize;
                            if k < before.len() {
                                assert(before[k] == j as usize);
                            }
                        }
                    } else if pass {
                        assert(shown@[shown@.len() - 1] == i);
                    }
                }
            }
            i = i + 1;
        }
        proof {
            if self.selected_machine_filter is None && self.selected_tier_filter is None {
                assert forall|i: int|
                    0 <= i < recipes@.len() && contains_text(lowercase(recipes@[i].id@), lowercase(self.search_text@))
                    implies shown@.contains(i as usize) by {
                    assert(passes_filters(
                        lowercase(self.search_text@),
                        opt_text(self.selected_machine_filter),
                        self.selected_tier_filter,
                        recipes@[i],
                        lowered_listing(recipes@[i]),
                    ));
                }
            }
        }
        shown
    }
}

/// The tiers the tier filter offers: each tier of the recipes once, smallest first.
pub fn distinct_tiers(tiers: &Vec<u32>) -> (offered: Vec<u32>)
    ensures
        forall|a: int, b: int| 0 <= a < b < offered@.len() ==> #[trigger] offered@[a] < #[trigger] offered@[b],
        forall|t: u32| offered@.contains(t) <==> tiers@.contains(t),
{
    let mut offered: Vec<u32> = Vec::new();
    let mut i: usize = 0;
    while i < tiers.len()
        invariant
            i <= tiers@.len(),
            forall|a: int, b: int| 0 <= a < b < offered@.len() ==> #[trigger] offered@[a] < #[trigger] offered@[b],
            forall|t: u32| offered@.contains(t) <==> tiers@.take(i as int).contains(t),
        decreases tiers@.len() - i,
    {
        let t = tiers[i];
        let mut p: usize = 0;
        while p < offered.len() && offered[p] < t
            invariant
                p <= offered@.len(),
                forall|q: int| 0 <= q < p ==> #[trigger] offered@[q] < t,
            decreases offered@.len() - p,
        {
            p = p + 1;
        }
        let ghost before = offered@;
        if p == offered.len() || offered[p] != t {
            offered.insert(p, t);
            proof {
                assert(offered@ =~= before.insert(p as int, t));
                assert forall|a: int, b: int| 0 <= a < b < offered@.len() implies #[trigger] offered@[a] < #[trigger] offered@[b] by {
                    if b < p {
                    } else if b == p {
                    } else if a < p {
                        assert(before[a] < t);
                        assert(offered@[b] == before[b - 1]);
                        if b - 1 > p {
                            assert(before[p as int] < before[b - 1]);
                        }
                    } else if a == p {
                        assert(offered@[b] == before[b - 1]);
                        if b - 1 > p {
                            assert(before[p as int] < before[b - 1]);
                        }
                    } else {
                        assert(before[a - 1] < before[b - 1]);
                    }
                }
            }
        }
        proof {
            assert(tiers@.take(i + 1) =~= tiers@.take(i as int).push(t));
            assert forall|x: u32| offered@.contains(x) <==> tiers@.take(i + 1).contains(x) by {
                if offered@.contains(x) {
                    let k = choose|k: int| 0 <= k < offered@.len() && offered@[k] == x;
                    if x != t {
                        if offered@.len() != before.len() {
                            if k < p {
                                assert(before[k] == x);
                            } else {
                                assert(before[k - 1] == x);
                            }
                        }
                        assert(before.contains(x));
                        assert(tiers@.take(i as int).contains(x));
                        let m = choose|m: int| 0 <= m < i && #[trigger] tiers@.take(i as int)[m] == x;
                        assert(tiers@.take(i + 1)[m] == x);
                    } else {
                        assert(tiers@.take(i + 1)[i as int] == x);
                    }
                }
                if tiers@.take(i + 1).contains(x) {
                    let m = choose|m: int| 0 <= m < i + 1 && #[trigger] tiers@.take(i + 1)[m] == x;
                    if m < i {
                        assert(tiers@.take(i as int)[m] == x);
                        assert(before.contains(x));
                        let k = choose|k: int| 0 <= k < before.len() && before[k] == x;
                        if offered@.len() != before.len() {
                            if k < p {
                                assert(offered@[k] == x);
                            } else {
                                assert(offered@[k + 1] == x);
                            }
                        } else {
                            assert(offered@[k] == x);
                        }
                    } else {
                        assert(x == t);
                        if offered@.len() != before.len() {
                            assert(offered@[p as int] == t);
                        } else {
                            assert(offered@[p as int] == t);
                        }
                    }
                }
            }
        }
        i = i + 1;
    }
    assert(tiers@.take(i as int) =~= tiers@);
    offered
}

/// How a recipe is listed: `中文名 (name)` when it has a Chinese name, else its name.
pub open spec fn display_name_spec(listing: RecipeListing) -> Seq<char> {
    match listing.name_zh {
        Some(z) => z@ + " ("@ + listing.name@ + ")"@,
        None => listing.name@,
    }
}

/// The text a recipe is listed under.
pub fn display_name(listing: &RecipeListing) -> (name: String)
    ensures
        name@ == display_name_spec(*listing),
{
    match &listing.name_zh {
        Some(z) => {
            let mut out = chars_of(z.as_str());
            append_chars(&mut out, &chars_of(" ("));
            append_chars(&mut out, &chars_of(listing.name.as_str()));
            append_chars(&mut out, &chars_of(")"));
            string_from_chars(&out)
        },
        None => listing.name.clone(),
    }
}

} // verus!
