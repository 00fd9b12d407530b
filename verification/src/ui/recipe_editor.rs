//! The recipe editor's form: its defaults, loading a recipe into it, and
//! turning its text fields back into a recipe draft.
use vstd::prelude::*;

use crate::text::{
    chars_of, float_text_spec, is_float_text, join_strings, join_spec, lemma_tags_round_trip, parse_u32, parse_u32_spec, plain_tag,
    split_tags, string_from_chars, tags_spec, views_of,
};

verus! {

/// The text fields of the recipe editor.
#[derive(Debug, Clone)]
pub struct RecipeEditorState {
    /// Whether an existing recipe is being edited.
    pub editing: bool,
    pub recipe_id: String,
    pub name_en: String,
    pub name_zh: String,
    pub machine_id: String,
    pub duration: String,
    pub tier: String,
    /// Comma-separated tags.
    pub tags: String,
    /// Resource id and amount of each input.
    pub inputs: Vec<(String, String)>,
    /// Resource id and amount of each output.
    pub outputs: Vec<(String, String)>,
    pub status_message: Option<String>,
}

/// The views of (resource id, amount) text pairs.
pub open spec fn pair_views(v: Seq<(String, String)>) -> Seq<(Seq<char>, Seq<char>)> {
    v.map_values(|p: (String, String)| (p.0@, p.1@))
}

/// The editor as plain values, field by field.
pub type EditorView = (
    bool,
    Seq<char>,
    Seq<char>,
    Seq<char>,
    Seq<char>,
    Seq<char>,
    Seq<char>,
    Seq<char>,
    Seq<(Seq<char>, Seq<char>)>,
    Seq<(Seq<char>, Seq<char>)>,
    Option<Seq<char>>,
);

/// The view of an optional string.
pub open spec fn opt_view(s: Option<String>) -> Option<Seq<char>> {
    match s {
        Some(t) => Some(t@),
        None => None,
    }
}

impl View for RecipeEditorState {
    type V = EditorView;

    open spec fn view(&self) -> EditorView {
        (
            self.editing,
            self.recipe_id@,
            self.name_en@,
            self.name_zh@,
            self.machine_id@,
            self.duration@,
            self.tier@,
            self.tags@,
            pair_views(self.inputs@),
            pair_views(self.outputs@),
            opt_view(self.status_message),
        )
    }
}

/// A fresh form: not editing, empty texts, a duration of 10, tier 0, and one
/// empty input and output line of amount 1.
pub open spec fn default_editor_view() -> EditorView {
    (
        false,
        Seq::empty(),
        Seq::empty(),
        Seq::empty(),
        Seq::empty(),
        "10"@,
        "0"@,
        Seq::empty(),
        seq![(Seq::empty(), "1"@)],
        seq![(Seq::empty(), "1"@)],
        None,
    )
}

/// A string holding the literal's characters.
fn text(lit: &str) -> (s: String)
    ensures
        s@ == lit@,
{
    string_from_chars(&chars_of(lit))
}

/// One empty line of amount 1.
fn fresh_lines() -> (v: Vec<(String, String)>)
    ensures
        pair_views(v@) == seq![(Seq::<char>::empty(), "1"@)],
{
    let mut v: Vec<(String, String)> = Vec::new();
    v.push((String::new(), text("1")));
    assert(pair_views(v@) =~= seq![(Seq::<char>::empty(), "1"@)]);
    v
}

impl Default for RecipeEditorState {
    fn default() -> (s: Self)
        ensures
            s@ == default_editor_view(),
    {
        RecipeEditorState {
            editing: false,
            recipe_id: String::new(),
            name_en: String::new(),
            name_zh: String::new(),
            machine_id: String::new(),
            duration: text("10"),
            tier: text("0"),
            tags: String::new(),
            inputs: fresh_lines(),
            outputs: fresh_lines(),
            status_message: None,
        }
    }
}

/// A recipe's fields as the editor shows them, numbers already written as text.
#[derive(Debug, Clone)]
pub struct RecipeFields {
    pub id: String,
    pub name: String,
    pub name_zh: Option<String>,
    pub machine_id: String,
    pub duration: String,
    pub tier: String,
    pub tags: Vec<String>,
    pub inputs: Vec<(String, String)>,
    pub outputs: Vec<(String, String)>,
}

/// What the editor's text fields make of a recipe, before its numbers are read:
/// the lines without a resource id are left out.
#[derive(Debug, Clone)]
pub struct RecipeDraft {
    pub id: String,
    pub name: String,
    pub name_zh: Option<String>,
    pub machine_id: String,
    pub duration: String,
    pub tier: u32,
    pub tags: Vec<String>,
    pub inputs: Vec<(String, String)>,
    pub outputs: Vec<(String, String)>,
}

/// The views of a sequence of strings.
pub open spec fn text_views(v: Seq<String>) -> Seq<Seq<char>> {
    v.map_values(|s: String| s@)
}

/// A draft as plain values.
pub type DraftView = (
    Seq<char>,
    Seq<char>,
    Option<Seq<char>>,
    Seq<char>,
    Seq<char>,
    u32,
    Seq<Seq<char>>,
    Seq<(Seq<char>, Seq<char>)>,
    Seq<(Seq<char>, Seq<char>)>,
);

impl View for RecipeDraft {
    type V = DraftView;

    open spec fn view(&self) -> DraftView {
        (
            self.id@,
            self.name@,
            opt_view(self.name_zh),
            self.machine_id@,
            self.duration@,
            self.tier,
            text_views(self.tags@),
            pair_views(self.inputs@),
            pair_views(self.outputs@),
        )
    }
}

/// The lines that name a resource.
pub open spec fn named_lines(v: Seq<(Seq<char>, Seq<char>)>) -> Seq<(Seq<char>, Seq<char>)> {
    v.filter(|p: (Seq<char>, Seq<char>)| p.0.len() > 0)
}

/// Every line that names a resource has an amount that reads as a number.
pub open spec fn amounts_read(v: Seq<(Seq<char>, Seq<char>)>) -> bool {
    forall|k: int| 0 <= k < v.len() && (#[trigger] v[k]).0.len() > 0 ==> float_text_spec(v[k].1)
}

/// The draft the form describes: `None` when the id, the English name or the
/// machine is empty, when the duration is no number, or when a line that
/// names a resource has an amount that is no number. The tier is read as a number, 0 when it is not one; an
/// empty Chinese name is no name; tags are the trimmed, non-empty pieces
/// between commas.
pub open spec fn draft_spec(e: EditorView) -> Option<DraftView> {
    if e.1.len() == 0 || e.2.len() == 0 || e.4.len() == 0 || !float_text_spec(e.5) || !amounts_read(
        e.8,
    ) || !amounts_read(e.9) {
        None
    } else {
        Some(
            (
                e.1,
                e.2,
                if e.3.len() == 0 {
                    None
                } else {
                    Some(e.3)
                },
                e.4,
                e.5,
                match parse_u32_spec(e.6) {
                    Some(t) => t,
                    None => 0,
                },
                tags_spec(e.7),
                named_lines(e.8),
                named_lines(e.9),
            ),
        )
    }
}

/// The form after loading `recipe`, the status message being `status`.
pub open spec fn loaded_view(recipe: RecipeFields, status: Option<Seq<char>>) -> EditorView {
    (
        true,
        recipe.id@,
        recipe.name@,
        match recipe.name_zh {
            Some(z) => z@,
            None => Seq::empty(),
        },
        recipe.machine_id@,
        recipe.duration@,
        recipe.tier@,
        join_spec(text_views(recipe.tags@), ", "@),
        pair_views(recipe.inputs@),
        pair_views(recipe.outputs@),
        status,
    )
}

/// A recipe the form shows faithfully: id, English name and machine given, a
/// Chinese name either absent or not empty, a duration and a tier that read
/// as numbers, plain tags, and a resource and an amount that reads as a number
/// on every line.
pub open spec fn form_faithful(recipe: RecipeFields) -> bool {
    &&& recipe.id@.len() > 0
    &&& recipe.name@.len() > 0
    &&& recipe.machine_id@.len() > 0
    &&& (match recipe.name_zh {
        Some(z) => z@.len() > 0,
        None => true,
    })
    &&& float_text_spec(recipe.duration@)
    &&& parse_u32_spec(recipe.tier@) is Some
    &&& forall|k: int| 0 <= k < recipe.tags@.len() ==> plain_tag(#[trigger] recipe.tags@[k]@)
    &&& forall|k: int|
        0 <= k < recipe.inputs@.len() ==> #[trigger] recipe.inputs@[k].0@.len() > 0 && float_text_spec(
            recipe.inputs@[k].1@,
        )
    &&& forall|k: int|
        0 <= k < recipe.outputs@.len() ==> #[trigger] recipe.outputs@[k].0@.len() > 0 && float_text_spec(
            recipe.outputs@[k].1@,
        )
}

/// Lines that all name a resource are kept as they are.
proof fn lemma_named_lines_keep(v: Seq<(Seq<char>, Seq<char>)>)
    requires
        forall|k: int| 0 <= k < v.len() ==> (#[trigger] v[k]).0.len() > 0,
    ensures
        named_lines(v) == v,
    decreases v.len(),
{
    reveal(Seq::filter);
    if v.len() > 0 {
        lemma_named_lines_keep(v.drop_last());
        assert(v.drop_last().push(v.last()) =~= v);
    }
}

/// Loading a recipe into the form and building it back gives the recipe,
/// with its tier read as a number.
pub proof fn lemma_build_after_load(recipe: RecipeFields, status: Option<Seq<char>>)
    requires
        form_faithful(recipe),
    ensures
        draft_spec(loaded_view(recipe, status)) == Some(
            (
                recipe.id@,
                recipe.name@,
                opt_view(recipe.name_zh),
                recipe.machine_id@,
                recipe.duration@,
                parse_u32_spec(recipe.tier@)->0,
                text_views(recipe.tags@),
                pair_views(recipe.inputs@),
                pair_views(recipe.outputs@),
            ),
        ),
{
    let tags = text_views(recipe.tags@);
    assert forall|k: int| 0 <= k < tags.len() implies plain_tag(#[trigger] tags[k]) by {
        assert(tags[k] == recipe.tags@[k]@);
    }
    lemma_tags_round_trip(tags);
    let ins = pair_views(recipe.inputs@);
    let outs = pair_views(recipe.outputs@);
    assert forall|k: int| 0 <= k < ins.len() implies (#[trigger] ins[k]).0.len() > 0 && float_text_spec(
        ins[k].1,
    ) by {
        assert(ins[k] == (recipe.inputs@[k].0@, recipe.inputs@[k].1@));
    }
    assert forall|k: int| 0 <= k < outs.len() implies (#[trigger] outs[k]).0.len() > 0 && float_text_spec(
        outs[k].1,
    ) by {
        assert(outs[k] == (recipe.outputs@[k].0@, recipe.outputs@[k].1@));
    }
    lemma_named_lines_keep(ins);
    lemma_named_lines_keep(outs);
}

/// Whether every line that names a resource has an amount that reads as a
/// number.
fn lines_read(v: &Vec<(String, String)>) -> (b: bool)
    ensures
        b == amounts_read(pair_views(v@)),
{
    let ghost views = pair_views(v@);
    let mut i: usize = 0;
    while i < v.len()
        invariant
            i <= v@.len(),
            views == pair_views(v@),
            forall|k: int| 0 <= k < i && (#[trigger] views[k]).0.len() > 0 ==> float_text_spec(views[k].1),
        decreases v@.len() - i,
    {
        let line = &v[i];
        assert(views[i as int] == (line.0@, line.1@));
        if !line.0.as_str().is_empty() && !is_float_text(&chars_of(line.1.as_str())) {
            return false;
        }
        i = i + 1;
    }
    true
}

/// Copies the lines that name a resource.
fn copy_named_lines(v: &Vec<(String, String)>) -> (out: Vec<(String, String)>)
    ensures
        pair_views(out@) == named_lines(pair_views(v@)),
{
    let ghost views = pair_views(v@);
    let ghost pred = |p: (Seq<char>, Seq<char>)| p.0.len() > 0;
    let mut out: Vec<(String, String)> = Vec::new();
    let mut i: usize = 0;
    proof {
        reveal(Seq::filter);
        assert(views.take(0) =~= Seq::<(Seq<char>, Seq<char>)>::empty());
        assert(pair_views(out@) =~= views.take(0).filter(pred));
    }
    while i < v.len()
        invariant
            i <= v@.len(),
            views == pair_views(v@),
            pred == (|p: (Seq<char>, Seq<char>)| p.0.len() > 0),
            pair_views(out@) == views.take(i as int).filter(pred),
        decreases v@.len() - i,
    {
        let line = &v[i];
        proof {
            assert(views.take(i + 1) =~= views.take(i as int).push(views[i as int]));
            views.take(i as int).lemma_filter_push(views[i as int], pred);
        }
        if !line.0.as_str().is_empty() {
            let ghost before = out@;
            out.push((line.0.clone(), line.1.clone()));
            assert(pair_views(out@) =~= pair_views(before).push(views[i as int]));
        }
        i = i + 1;
    }
    assert(views.take(i as int) =~= views);
    out
}

/// Strings made of the given character vectors.
fn strings_of(v: &Vec<Vec<char>>) -> (out: Vec<String>)
    ensures
        text_views(out@) == views_of(v@),
{
    let mut out: Vec<String> = Vec::new();
    let mut i: usize = 0;
    while i < v.len()
        invariant
            i <= v@.len(),
            text_views(out@) == views_of(v@.take(i as int)),
        decreases v@.len() - i,
    {
        let s = string_from_chars(&v[i]);
        let ghost before = out@;
        out.push(s);
        assert(text_views(out@) =~= text_views(before).push(s@));
        assert(views_of(v@.take(i + 1)) =~= views_of(v@.take(i as int)).push(v@[i as int]@));
        i = i + 1;
    }
    assert(v@.take(i as int) =~= v@);
    out
}

/// Copies (resource id, amount) lines.
fn copy_lines(v: &Vec<(String, String)>) -> (out: Vec<(String, String)>)
    ensures
        pair_views(out@) == pair_views(v@),
{
    let mut out: Vec<(String, String)> = Vec::new();
    let mut i: usize = 0;
    while i < v.len()
        invariant
            i <= v@.len(),
            pair_views(out@) == pair_views(v@.take(i as int)),
        decreases v@.len() - i,
    {
        let ghost before = out@;
        out.push((v[i].0.clone(), v[i].1.clone()));
        assert(pair_views(out@) =~= pair_views(before).push((v@[i as int].0@, v@[i as int].1@)));
        assert(pair_views(v@.take(i + 1)) =~= pair_views(v@.take(i as int)).push(
            (v@[i as int].0@, v@[i as int].1@),
        ));
        i = i + 1;
    }
    assert(v@.take(i as int) =~= v@);
    out
}

impl RecipeEditorState {
    /// Fills the form from a recipe and marks it as editing; the tags are
    /// joined with ", " and a missing Chinese name becomes empty. The status
    /// message stays.
    pub fn load_recipe(&mut self, recipe: &RecipeFields)
        ensures
            final(self)@ == loaded_view(*recipe, opt_view(old(self).status_message)),
    {
        self.editing = true;
        self.recipe_id = recipe.id.clone();
        self.name_en = recipe.name.clone();
        self.name_zh = match &recipe.name_zh {
            Some(z) => z.clone(),
            None => String::new(),
        };
        self.machine_id = recipe.machine_id.clone();
        self.duration = recipe.duration.clone();
        self.tier = recipe.tier.clone();
        self.tags = join_strings(&recipe.tags, ", ");
        self.inputs = copy_lines(&recipe.inputs);
        self.outputs = copy_lines(&recipe.outputs);
    }

    /// Resets the form to a fresh one.
    pub fn clear(&mut self)
        ensures
            final(self)@ == default_editor_view(),
    {
        *self = Self::default();
    }

    /// The recipe draft the form describes, or `None` when the id, the English
    /// name or the machine is missing, or the duration or the amount of a line
    /// that names a resource is no number.
    pub fn build_recipe(&self) -> (draft: Option<RecipeDraft>)
        ensures
            match draft {
                Some(d) => draft_spec(self@) == Some(d@),
                None => draft_spec(self@) is None,
            },
    {
        if self.recipe_id.as_str().is_empty() || self.name_en.as_str().is_empty()
            || self.machine_id.as_str().is_empty() {
            return None;
        }
        if !is_float_text(&chars_of(self.duration.as_str())) || !lines_read(&self.inputs) || !lines_read(
            &self.outputs,
        ) {
            return None;
        }
        let tier = match parse_u32(&chars_of(self.tier.as_str())) {
            Some(t) => t,
            None => 0,
        };
        let tags = strings_of(&split_tags(self.tags.as_str()));
        let d = RecipeDraft {
            id: self.recipe_id.clone(),
            name: self.name_en.clone(),
            name_zh: if self.name_zh.as_str().is_empty() {
                None
            } else {
                Some(self.name_zh.clone())
            },
            machine_id: self.machine_id.clone(),
            duration: self.duration.clone(),
            tier,
            tags,
            inputs: copy_named_lines(&self.inputs),
            outputs: copy_named_lines(&self.outputs),
        };
        Some(d)
    }
}

} // verus!
