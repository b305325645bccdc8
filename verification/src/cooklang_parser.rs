//! Summaries and renderings of a parsed Cooklang recipe, as the validator
//! shows them next to the recipe source.

use vstd::prelude::*;
use crate::markdown_renderer::{append_items, markdown_text, plain_step, plain_text, print_md, print_plain};
use crate::recipe_model::{CookwareEntry, IngredientEntry, RecipeModel, SectionContent, SectionModel};
use crate::text::{clone_opt_string, starts_with, strs};

verus! {

/// Entry point for summarising and rendering parsed recipes.
pub struct CooklangParser;

/// An ingredient as listed in a recipe summary.
pub struct Ingredient {
    pub name: String,
    /// Grouped quantity text, including the unit.
    pub quantity: Option<String>,
    /// Always `None`: the unit is part of the quantity text.
    pub unit: Option<String>,
    pub note: Option<String>,
}

/// Summary of a recipe: its ingredients, cookware, step texts and any
/// parse errors or warnings.
pub struct ParsedRecipe {
    pub ingredients: Vec<Ingredient>,
    pub cookware: Vec<String>,
    pub steps: Vec<String>,
    pub errors: Vec<String>,
}

/// The cookware names in first-appearance order, each name once.
pub open spec fn distinct_cookware_names(es: Seq<CookwareEntry>) -> Seq<Seq<char>>
    decreases es.len(),
{
    if es.len() == 0 {
        Seq::<Seq<char>>::empty()
    } else {
        let d = distinct_cookware_names(es.drop_last());
        if d.contains(es.last().name@) {
            d
        } else {
            d.push(es.last().name@)
        }
    }
}

/// The step texts of a section's content: unnumbered step text, or the paragraph.
pub open spec fn content_step_texts(m: RecipeModel, cs: Seq<SectionContent>) -> Seq<Seq<char>>
    decreases cs.len(),
{
    if cs.len() == 0 {
        Seq::<Seq<char>>::empty()
    } else {
        content_step_texts(m, cs.drop_last()).push(
            match cs.last() {
                SectionContent::Step(st) => plain_step(m, st),
                SectionContent::Text(t) => t@,
            },
        )
    }
}

/// The section's name line `"=== {name} ==="` (when named), then its step texts.
pub open spec fn section_step_texts(m: RecipeModel, s: SectionModel) -> Seq<Seq<char>> {
    (match s.name {
        Some(n) => seq!["=== "@ + n@ + " ==="@],
        None => Seq::<Seq<char>>::empty(),
    }) + content_step_texts(m, s.content@)
}

pub open spec fn sections_step_texts(m: RecipeModel, ss: Seq<SectionModel>) -> Seq<Seq<char>>
    decreases ss.len(),
{
    if ss.len() == 0 {
        Seq::<Seq<char>>::empty()
    } else {
        sections_step_texts(m, ss.drop_last()) + section_step_texts(m, ss.last())
    }
}

/// The summary entry of a grouped ingredient.
pub open spec fn summary_ingredient(i: Ingredient, e: IngredientEntry) -> bool {
    &&& i.name@ == e.display_name@
    &&& i.quantity == e.quantity
    &&& i.unit is None
    &&& i.note == e.note
}

/// `r` summarises the parse outcome `parsed`.
pub open spec fn summarises(r: ParsedRecipe, parsed: Result<RecipeModel, String>) -> bool {
    match parsed {
        Ok(m) => {
            &&& r.ingredients@.len() == m.grouped_ingredients@.len()
            &&& forall|i: int|
                0 <= i < r.ingredients@.len() ==> summary_ingredient(
                    #[trigger] r.ingredients@[i],
                    m.grouped_ingredients@[i],
                )
            &&& strs(r.cookware@) == distinct_cookware_names(m.grouped_cookware@)
            &&& strs(r.steps@) == sections_step_texts(m, m.sections@)
            &&& strs(r.errors@) == match m.warnings {
                Some(w) => seq!["Warnings: "@ + w@],
                None => Seq::<Seq<char>>::empty(),
            }
        },
        Err(e) => {
            &&& r.ingredients@.len() == 0
            &&& r.cookware@.len() == 0
            &&& r.steps@.len() == 0
            &&& strs(r.errors@) == seq!["Parse error: "@ + e@]
        },
    }
}

/// The markdown shown for a parse outcome: the rendered recipe titled
/// `title` (default `"Recipe"`), or the parse error.
pub open spec fn markdown_of(parsed: Result<RecipeModel, String>, title: Option<Seq<char>>) -> Seq<
    char,
> {
    match parsed {
        Ok(m) => markdown_text(
            m,
            match title {
                Some(t) => t,
                None => "Recipe"@,
            },
        ),
        Err(e) => "Error parsing recipe: "@ + e@,
    }
}

/// The plain text shown for a parse outcome.
pub open spec fn plain_of(parsed: Result<RecipeModel, String>) -> Seq<char> {
    match parsed {
        Ok(m) => plain_text(m),
        Err(e) => "Error parsing recipe: "@ + e@,
    }
}

/// A parse outcome whose recipe, if any, is well formed.
pub open spec fn outcome_wf(parsed: Result<RecipeModel, String>) -> bool {
    parsed matches Ok(m) ==> m.wf()
}

fn prefixed(prefix: &str, body: &String) -> (s: String)
    ensures
        s@ == prefix@ + body@,
{
    let mut s = String::from_str(prefix);
    s.append(body.as_str());
    s
}

fn contains_name(names: &Vec<String>, name: &String) -> (found: bool)
    ensures
        found == strs(names@).contains(name@),
{
    let n = names.len();
    for i in 0..n
        invariant
            n == names@.len(),
            forall|j: int| 0 <= j < i ==> names@[j]@ != name@,
    {
        if names[i] == *name {
            proof {
                assert(strs(names@)[i as int] == name@);
            }
            return true;
        }
    }
    proof {
        if strs(names@).contains(name@) {
            let j = choose|j: int| 0 <= j < strs(names@).len() && strs(names@)[j] == name@;
            assert(names@[j]@ == name@);
        }
    }
    false
}

fn section_step_lines(steps: &mut Vec<String>, section: &SectionModel, recipe: &RecipeModel)
    requires
        recipe.section_in_range(*section),
    ensures
        strs(final(steps)@) == strs(old(steps)@) + section_step_texts(*recipe, *section),
{
    if let Some(name) = &section.name {
        let mut line = String::from_str("=== ");
        line.append(name.as_str());
        line.append(" ===");
        let ghost before = steps@;
        steps.push(line);
        proof {
            assert(strs(steps@) =~= strs(before).push("=== "@ + name@ + " ==="@));
        }
    }
    let ghost mid = steps@;
    proof {
        assert(strs(mid) =~= strs(old(steps)@) + (match section.name {
            Some(n) => seq!["=== "@ + n@ + " ==="@],
            None => Seq::<Seq<char>>::empty(),
        }));
    }
    let n = section.content.len();
    proof {
        assert(section.content@.take(0) =~= Seq::<SectionContent>::empty());
        assert(strs(mid) + Seq::<Seq<char>>::empty() =~= strs(mid));
    }
    for j in 0..n
        invariant
            n == section.content@.len(),
            recipe.section_in_range(*section),
            strs(steps@) == strs(mid) + content_step_texts(
                *recipe,
                section.content@.take(j as int),
            ),
    {
        let ghost before = steps@;
        proof {
            assert(recipe.content_in_range(section.content@[j as int]));
        }
        let text = match &section.content[j] {
            SectionContent::Step(step) => {
                let mut t = String::new();
                append_items(&mut t, step, recipe);
                t
            },
            SectionContent::Text(t) => t.clone(),
        };
        steps.push(text);
        proof {
            assert(strs(steps@) =~= strs(before).push(text@));
            assert(section.content@.take(j + 1).drop_last() =~= section.content@.take(j as int));
            assert(section.content@.take(j + 1).last() == section.content@[j as int]);
        }
    }
    proof {
        assert(section.content@.take(n as int) =~= section.content@);
    }
}

impl CooklangParser {
    /// Summarises a parse outcome: the grouped ingredients, the cookware
    /// names (each once), the step texts of every section (a named section
    /// contributes a `"=== {name} ==="` line first), and the warnings or the
    /// parse error.
    pub fn parse(parsed: &Result<RecipeModel, String>) -> (r: ParsedRecipe)
        requires
            outcome_wf(*parsed),
        ensures
            summarises(r, *parsed),
    {
        let mut ingredients: Vec<Ingredient> = Vec::new();
        let mut cookware: Vec<String> = Vec::new();
        let mut steps: Vec<String> = Vec::new();
        let mut errors: Vec<String> = Vec::new();
        match parsed {
            Ok(recipe) => {
                if let Some(w) = &recipe.warnings {
                    errors.push(prefixed("Warnings: ", w));
                    proof {
                        assert(strs(errors@) =~= seq!["Warnings: "@ + w@]);
                    }
                } else {
                    proof {
                        assert(strs(errors@) =~= Seq::<Seq<char>>::empty());
                    }
                }
                let n = recipe.grouped_ingredients.len();
                for i in 0..n
                    invariant
                        n == recipe.grouped_ingredients@.len(),
                        ingredients@.len() == i,
                        forall|k: int|
                            0 <= k < i ==> summary_ingredient(
                                #[trigger] ingredients@[k],
                                recipe.grouped_ingredients@[k],
                            ),
                {
                    let entry = &recipe.grouped_ingredients[i];
                    ingredients.push(
                        Ingredient {
                            name: entry.display_name.clone(),
                            quantity: clone_opt_string(&entry.quantity),
                            unit: None,
                            note: clone_opt_string(&entry.note),
                        },
                    );
                }
                let m = recipe.grouped_cookware.len();
                proof {
                    assert(recipe.grouped_cookware@.take(0) =~= Seq::<CookwareEntry>::empty());
                    assert(strs(cookware@) =~= Seq::<Seq<char>>::empty());
                }
                for i in 0..m
                    invariant
                        m == recipe.grouped_cookware@.len(),
                        strs(cookware@) == distinct_cookware_names(
                            recipe.grouped_cookware@.take(i as int),
                        ),
                {
                    let item = &recipe.grouped_cookware[i];
                    let ghost before = cookware@;
                    if !contains_name(&cookware, &item.name) {
                        cookware.push(item.name.clone());
                        proof {
                            assert(strs(cookware@) =~= strs(before).push(item.name@));
                        }
                    }
                    proof {
                        assert(recipe.grouped_cookware@.take(i + 1).drop_last()
                            =~= recipe.grouped_cookware@.take(i as int));
                        assert(recipe.grouped_cookware@.take(i + 1).last()
                            == recipe.grouped_cookware@[i as int]);
                    }
                }
                proof {
                    assert(recipe.grouped_cookware@.take(m as int) =~= recipe.grouped_cookware@);
                }
                let s = recipe.sections.len();
                proof {
                    assert(recipe.sections@.take(0) =~= Seq::<SectionModel>::empty());
                    assert(strs(steps@) =~= Seq::<Seq<char>>::empty());
                }
                for i in 0..s
                    invariant
                        s == recipe.sections@.len(),
                        recipe.wf(),
                        strs(steps@) == sections_step_texts(
                            *recipe,
                            recipe.sections@.take(i as int),
                        ),
                {
                    proof {
                        assert(recipe.section_in_range(recipe.sections@[i as int]));
                    }
                    section_step_lines(&mut steps, &recipe.sections[i], recipe);
                    proof {
                        assert(recipe.sections@.take(i + 1).drop_last() =~= recipe.sections@.take(
                            i as int,
                        ));
                        assert(recipe.sections@.take(i + 1).last() == recipe.sections@[i as int]);
                    }
                }
                proof {
                    assert(recipe.sections@.take(s as int) =~= recipe.sections@);
                }
            },
            Err(e) => {
                errors.push(prefixed("Parse error: ", e));
                proof {
                    assert(strs(errors@) =~= seq!["Parse error: "@ + e@]);
                }
            },
        }
        ParsedRecipe { ingredients, cookware, steps, errors }
    }

    /// Markdown of a parse outcome, titled `"Recipe"`.
    pub fn to_markdown(parsed: &Result<RecipeModel, String>) -> (md: String)
        requires
            outcome_wf(*parsed),
        ensures
            md@ == markdown_of(*parsed, None),
    {
        Self::to_markdown_with_title(parsed, None)
    }

    /// Markdown of a parse outcome: the recipe rendered with the given title
    /// (`"Recipe"` when none is given), or `"Error parsing recipe: {error}"`.
    pub fn to_markdown_with_title(parsed: &Result<RecipeModel, String>, title: Option<&str>) -> (md:
        String)
        requires
            outcome_wf(*parsed),
        ensures
            md@ == markdown_of(
                *parsed,
                match title {
                    Some(t) => Some(t@),
                    None => None,
                },
            ),
    {
        match parsed {
            Ok(recipe) => {
                let name = match title {
                    Some(t) => t,
                    None => "Recipe",
                };
                print_md(recipe, name)
            },
            Err(e) => prefixed("Error parsing recipe: ", e),
        }
    }

    /// Plain-text rendering of a parse outcome: ingredients at the top, then
    /// step paragraphs; or `"Error parsing recipe: {error}"`.
    pub fn to_plain(parsed: &Result<RecipeModel, String>) -> (txt: String)
        requires
            outcome_wf(*parsed),
        ensures
            txt@ == plain_of(*parsed),
    {
        match parsed {
            Ok(recipe) => print_plain(recipe),
            Err(e) => prefixed("Error parsing recipe: ", e),
        }
    }
}

// ---------------------------------------------------------------------------
// Laws
// ---------------------------------------------------------------------------

/// Without a title the markdown is titled `"Recipe"`.
pub proof fn lemma_markdown_default_title(parsed: Result<RecipeModel, String>)
    ensures
        markdown_of(parsed, None) == markdown_of(parsed, Some("Recipe"@)),
{
}

/// The markdown of a recipe starts with its title as a level-one heading.
pub proof fn lemma_markdown_starts_with_title(m: RecipeModel, name: Seq<char>)
    ensures
        starts_with(markdown_text(m, name), "# "@ + name),
{
    let t = "# "@ + name;
    let md = markdown_text(m, name);
    assert(md.subrange(0, t.len() as int) =~= t);
}

/// The cookware of a summary lists every cookware name once and nothing else.
pub proof fn lemma_cookware_listed_once(es: Seq<CookwareEntry>)
    ensures
        forall|a: int, b: int|
            0 <= a < b < distinct_cookware_names(es).len() ==> #[trigger] distinct_cookware_names(es)[a]
                != #[trigger] distinct_cookware_names(es)[b],
        forall|i: int| 0 <= i < es.len() ==> distinct_cookware_names(es).contains(#[trigger] es[i].name@),
        forall|k: int|
            0 <= k < distinct_cookware_names(es).len() ==> exists|i: int|
                0 <= i < es.len() && (#[trigger] es[i]).name@ == #[trigger] distinct_cookware_names(es)[k],
    decreases es.len(),
{
    if es.len() > 0 {
        let prev = es.drop_last();
        lemma_cookware_listed_once(prev);
        let d = distinct_cookware_names(prev);
        let r = distinct_cookware_names(es);
        assert forall|i: int| 0 <= i < es.len() implies r.contains(#[trigger] es[i].name@) by {
            if i < es.len() - 1 {
                assert(prev[i] == es[i]);
                let k = choose|k: int| 0 <= k < d.len() && d[k] == prev[i].name@;
                assert(r[k] == d[k]);
            } else if !d.contains(es.last().name@) {
                assert(r[d.len() as int] == es.last().name@);
            }
        }
        assert forall|k: int| 0 <= k < r.len() implies exists|i: int|
            0 <= i < es.len() && (#[trigger] es[i]).name@ == #[trigger] r[k] by {
            if k < d.len() {
                let i = choose|i: int| 0 <= i < prev.len() && (#[trigger] prev[i]).name@ == d[k];
                assert(es[i] == prev[i]);
            } else {
                assert(es[es.len() - 1].name@ == r[k]);
            }
        }
    }
}

/// The summary lists cookware names in the order in which they first
/// appear: if name `a` comes before name `b` in the summary, every
/// occurrence of `b` in the grouped cookware is preceded by an occurrence
/// of `a`.
pub proof fn lemma_cookware_in_first_appearance_order(es: Seq<CookwareEntry>, a: int, b: int, i: int)
    requires
        0 <= a < b < distinct_cookware_names(es).len(),
        0 <= i < es.len(),
        es[i].name@ == distinct_cookware_names(es)[b],
    ensures
        exists|j: int| 0 <= j < i && (#[trigger] es[j]).name@ == distinct_cookware_names(es)[a],
    decreases es.len(),
{
    let prev = es.drop_last();
    let d = distinct_cookware_names(prev);
    let r = distinct_cookware_names(es);
    let last = es.len() - 1;
    lemma_cookware_listed_once(prev);
    assert(r[a] == d[a]);
    if i < last {
        assert(es[i] == prev[i]);
        if b < d.len() {
            assert(r[b] == d[b]);
            lemma_cookware_in_first_appearance_order(prev, a, b, i);
            let j = choose|j: int| 0 <= j < i && (#[trigger] prev[j]).name@ == d[a];
            assert(es[j] == prev[j]);
        } else {
            assert(d.contains(prev[i].name@));
            assert(r[b] == es.last().name@);
        }
    } else {
        let j = choose|j: int| 0 <= j < prev.len() && (#[trigger] prev[j]).name@ == d[a];
        assert(es[j] == prev[j]);
    }
}

} // verus!
