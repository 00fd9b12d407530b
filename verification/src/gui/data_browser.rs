//! The data browser: its tabs and which rows its search keeps.
use vstd::prelude::*;

use crate::text::{contains_chars, contains_text, lowercase, lowercase_chars, views_of};

verus! {

/// The tabs of the data browser.
#[derive(Debug, Clone, Copy, PartialEq, Eq, Structural)]
pub enum BrowserTab {
    Resources,
    Buildings,
    Recipes,
    Research,
}

/// Whether a row passes the search: there is no search text, or the search
/// text occurs in one of the row's texts, all lower-cased.
pub open spec fn row_matches(search_lower: Seq<char>, fields_lower: Seq<Seq<char>>) -> bool {
    search_lower.len() == 0 || exists|k: int|
        0 <= k < fields_lower.len() && contains_text(#[trigger] fields_lower[k], search_lower)
}

/// The lower-case forms of a row's texts.
pub open spec fn lowered_fields(fields: Seq<String>) -> Seq<Seq<char>> {
    fields.map_values(|f: String| lowercase(f@))
}

/// Whether a row passes the search, given the lower-case search text and the
/// lower-case forms of the row's texts.
pub fn row_passes(search_lower: &Vec<char>, fields_lower: &Vec<Vec<char>>) -> (pass: bool)
    ensures
        pass == row_matches(search_lower@, views_of(fields_lower@)),
{
    if search_lower.len() == 0 {
        return true;
    }
    let mut k: usize = 0;
    while k < fields_lower.len()
        invariant
            k <= fields_lower@.len(),
            search_lower@.len() > 0,
            forall|m: int| 0 <= m < k ==> !contains_text(#[trigger] views_of(fields_lower@)[m], search_lower@),
        decreases fields_lower@.len() - k,
    {
        if contains_chars(&fields_lower[k], search_lower) {
            assert(views_of(fields_lower@)[k as int] == fields_lower@[k as int]@);
            return true;
        }
        k = k + 1;
    }
    false
}

/// The lower-case forms of a row's texts, by `str::to_lowercase`.
fn lower_fields(fields: &Vec<String>) -> (lower: Vec<Vec<char>>)
    ensures
        views_of(lower@) == lowered_fields(fields@),
{
    let mut lower: Vec<Vec<char>> = Vec::new();
    let mut k: usize = 0;
    while k < fields.len()
        invariant
            k <= fields@.len(),
            views_of(lower@) == lowered_fields(fields@.take(k as int)),
        decreases fields@.len() - k,
    {
        let f = lowercase_chars(fields[k].as_str());
        let ghost before = lower@;
        lower.push(f);
        assert(views_of(lower@) =~= views_of(before).push(f@));
        assert(lowered_fields(fields@.take(k + 1)) =~= lowered_fields(fields@.take(k as int)).push(
            lowercase(fields@[k as int]@),
        ));
        k = k + 1;
    }
    assert(fields@.take(k as int) =~= fields@);
    lower
}

/// The rows the search keeps, as indices in their given order. Each row is
/// the texts the search looks in.
pub fn matching_rows(search: &str, rows: &Vec<Vec<String>>) -> (kept: Vec<usize>)
    ensures
        forall|k: int| 0 <= k < kept@.len() ==> #[trigger] kept@[k] < rows@.len(),
        forall|a: int, b: int| 0 <= a < b < kept@.len() ==> #[trigger] kept@[a] < #[trigger] kept@[b],
        forall|i: int|
            0 <= i < rows@.len() ==> (kept@.contains(i as usize) <==> row_matches(
                lowercase(search@),
                lowered_fields(#[trigger] rows@[i]@),
            )),
{
    let search_lower = lowercase_chars(search);
    let mut kept: Vec<usize> = Vec::new();
    let mut i: usize = 0;
    while i < rows.len()
        invariant
            i <= rows@.len(),
            search_lower@ == lowercase(search@),
            forall|k: int| 0 <= k < kept@.len() ==> #[trigger] kept@[k] < i,
            forall|a: int, b: int| 0 <= a < b < kept@.len() ==> #[trigger] kept@[a] < #[trigger] kept@[b],
            forall|j: int|
                0 <= j < i ==> (kept@.contains(j as usize) <==> row_matches(
                    lowercase(search@),
                    lowered_fields(#[trigger] rows@[j]@),
                )),
        decreases rows@.len() - i,
    {
        let pass = row_passes(&search_lower, &lower_fields(&rows[i]));
        let ghost before = kept@;
        if pass {
            kept.push(i);
        }
        proof {
            assert forall|j: int|
                0 <= j <= i implies (kept@.contains(j as usize) <==> row_matches(
                lowercase(search@),
                lowered_fields(#[trigger] rows@[j]@),
            )) by {
                if j < i {
                    if before.contains(j as usize) {
                        let k = choose|k: int| 0 <= k < before.len() && before[k] == j as usize;
                        assert(kept@[k] == j as usize);
                    }
                    if kept@.contains(j as usize) {
                        let k = choose|k: int| 0 <= k < kept@.len() && kept@[k] == j as usize;
                        if k < before.len() {
                            assert(before[k] == j as usize);
                        }
                    }
                } else if pass {
                    assert(kept@[kept@.len() - 1] == i);
                }
            }
        }
        i = i + 1;
    }
    kept
}

} // verus!
