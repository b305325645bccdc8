//! Markdown and plain-text rendering of a parsed recipe.

use vstd::prelude::*;
use crate::recipe_model::{
    CookwareEntry, IngredientEntry, RecipeModel, SectionContent, SectionModel, StepItem, StepModel,
};
use crate::text::{chars_of, decimal, lines, lines_of, push_decimal, string_from_chars, views};

verus! {

/// Simple options for markdown output.
pub struct Options {
    pub heading: Headings,
}

/// Headings of the markdown sections.
pub struct Headings {
    pub ingredients: String,
    pub cookware: String,
    pub steps: String,
}

impl Default for Headings {
    fn default() -> (h: Self)
        ensures
            h.ingredients@ == "Ingredients"@,
            h.cookware@ == "Cookware"@,
            h.steps@ == "Steps"@,
    {
        Headings {
            ingredients: String::from_str("Ingredients"),
            cookware: String::from_str("Cookware"),
            steps: String::from_str("Steps"),
        }
    }
}

impl Default for Options {
    fn default() -> (o: Self)
        ensures
            o.heading.ingredients@ == "Ingredients"@,
            o.heading.cookware@ == "Cookware"@,
            o.heading.steps@ == "Steps"@,
    {
        Options { heading: Headings::default() }
    }
}

// ---------------------------------------------------------------------------
// What the renderers produce
// ---------------------------------------------------------------------------

/// Text that a step item stands for.
pub open spec fn item_text(m: RecipeModel, it: StepItem) -> Seq<char> {
    match it {
        StepItem::Text(v) => v@,
        StepItem::Ingredient(i) => m.ingredient_names@[i as int]@,
        StepItem::Cookware(i) => m.cookware_names@[i as int]@,
        StepItem::Timer(i) => match m.timer_quantities@[i as int] {
            Some(q) => q@,
            None => Seq::<char>::empty(),
        },
        StepItem::InlineQuantity(i) => m.inline_quantities@[i as int]@,
    }
}

/// Text of a sequence of step items, concatenated.
pub open spec fn items_text(m: RecipeModel, items: Seq<StepItem>) -> Seq<char>
    decreases items.len(),
{
    if items.len() == 0 {
        Seq::<char>::empty()
    } else {
        items_text(m, items.drop_last()) + item_text(m, items.last())
    }
}

/// A numbered step: `"{number}. "` followed by its text.
pub open spec fn md_step(m: RecipeModel, st: StepModel) -> Seq<char> {
    decimal(st.number as nat) + ". "@ + items_text(m, st.items@)
}

/// A step without its number.
pub open spec fn plain_step(m: RecipeModel, st: StepModel) -> Seq<char> {
    items_text(m, st.items@)
}

/// One content block followed by a blank line; steps rendered numbered or not.
pub open spec fn content_text(m: RecipeModel, c: SectionContent, numbered: bool) -> Seq<char> {
    match c {
        SectionContent::Step(st) => (if numbered {
            md_step(m, st)
        } else {
            plain_step(m, st)
        }) + "\n\n"@,
        SectionContent::Text(t) => t@ + "\n\n"@,
    }
}

pub open spec fn contents_text(m: RecipeModel, cs: Seq<SectionContent>, numbered: bool) -> Seq<
    char,
>
    decreases cs.len(),
{
    if cs.len() == 0 {
        Seq::<char>::empty()
    } else {
        contents_text(m, cs.drop_last(), numbered) + content_text(m, cs.last(), numbered)
    }
}

/// The heading of a named section: `"### {name}"` in markdown,
/// `"=== {name} ==="` in plain text, followed by a blank line.
pub open spec fn section_heading(name: Option<String>, numbered: bool) -> Seq<char> {
    match name {
        Some(n) => if numbered {
            "### "@ + n@ + "\n\n"@
        } else {
            "=== "@ + n@ + " ===\n\n"@
        },
        None => Seq::<char>::empty(),
    }
}

pub open spec fn section_text(m: RecipeModel, s: SectionModel, numbered: bool) -> Seq<char> {
    section_heading(s.name, numbered) + contents_text(m, s.content@, numbered)
}

pub open spec fn sections_text(m: RecipeModel, ss: Seq<SectionModel>, numbered: bool) -> Seq<char>
    decreases ss.len(),
{
    if ss.len() == 0 {
        Seq::<char>::empty()
    } else {
        sections_text(m, ss.drop_last(), numbered) + section_text(m, ss.last(), numbered)
    }
}

/// `"{quantity} "` when there is a quantity.
pub open spec fn quantity_prefix(q: Option<String>) -> Seq<char> {
    match q {
        Some(s) => s@ + " "@,
        None => Seq::<char>::empty(),
    }
}

/// `" ({note})"` when there is a note.
pub open spec fn note_suffix(n: Option<String>) -> Seq<char> {
    match n {
        Some(s) => " ("@ + s@ + ")"@,
        None => Seq::<char>::empty(),
    }
}

/// An ingredient line: quantity, name and note, ended by a newline.
pub open spec fn ingredient_line(e: IngredientEntry) -> Seq<char> {
    quantity_prefix(e.quantity) + e.display_name@ + note_suffix(e.note) + "\n"@
}

/// The lines of the listed ingredients, each preceded by `bullet`.
pub open spec fn ingredient_lines(es: Seq<IngredientEntry>, bullet: Seq<char>) -> Seq<char>
    decreases es.len(),
{
    if es.len() == 0 {
        Seq::<char>::empty()
    } else {
        ingredient_lines(es.drop_last(), bullet) + (if es.last().listed {
            bullet + ingredient_line(es.last())
        } else {
            Seq::<char>::empty()
        })
    }
}

/// A cookware line: `"- "`, amount, name and note, ended by a newline.
pub open spec fn cookware_line(e: CookwareEntry) -> Seq<char> {
    "- "@ + quantity_prefix(e.quantity) + e.display_name@ + note_suffix(e.note) + "\n"@
}

pub open spec fn cookware_lines(es: Seq<CookwareEntry>) -> Seq<char>
    decreases es.len(),
{
    if es.len() == 0 {
        Seq::<char>::empty()
    } else {
        cookware_lines(es.drop_last()) + cookware_line(es.last())
    }
}

/// Each line of the description quoted with `"> "`.
pub open spec fn quoted_lines(ls: Seq<Seq<char>>) -> Seq<char>
    decreases ls.len(),
{
    if ls.len() == 0 {
        Seq::<char>::empty()
    } else {
        quoted_lines(ls.drop_last()) + "> "@ + ls.last() + "\n"@
    }
}

pub open spec fn description_block(d: Option<String>) -> Seq<char> {
    match d {
        Some(t) => quoted_lines(lines(t@)) + "\n"@,
        None => Seq::<char>::empty(),
    }
}

pub open spec fn ingredients_block(m: RecipeModel) -> Seq<char> {
    if m.ingredient_names@.len() > 0 {
        "## Ingredients\n\n"@ + ingredient_lines(m.grouped_ingredients@, "- "@) + "\n"@
    } else {
        Seq::<char>::empty()
    }
}

pub open spec fn cookware_block(m: RecipeModel) -> Seq<char> {
    if m.cookware_names@.len() > 0 {
        "## Cookware\n\n"@ + cookware_lines(m.grouped_cookware@) + "\n"@
    } else {
        Seq::<char>::empty()
    }
}

/// The whole markdown document of a recipe titled `name`.
pub open spec fn markdown_text(m: RecipeModel, name: Seq<char>) -> Seq<char> {
    "# "@ + name + "\n\n"@ + description_block(m.description) + ingredients_block(m)
        + cookware_block(m) + "## Steps\n\n"@ + sections_text(m, m.sections@, true)
}

/// The plain-text rendering: listed ingredients one per line, a blank line,
/// then the sections with unnumbered steps.
pub open spec fn plain_text(m: RecipeModel) -> Seq<char> {
    ingredient_lines(m.grouped_ingredients@, Seq::<char>::empty()) + "\n"@ + sections_text(
        m,
        m.sections@,
        false,
    )
}

// ---------------------------------------------------------------------------
// Rendering
// ---------------------------------------------------------------------------

fn append_item(out: &mut String, item: &StepItem, recipe: &RecipeModel)
    requires
        recipe.item_in_range(*item),
    ensures
        final(out)@ == old(out)@ + item_text(*recipe, *item),
{
    match item {
        StepItem::Text(value) => out.append(value.as_str()),
        StepItem::Ingredient(index) => out.append(recipe.ingredient_names[*index].as_str()),
        StepItem::Cookware(index) => out.append(recipe.cookware_names[*index].as_str()),
        StepItem::Timer(index) => {
            if let Some(quantity) = &recipe.timer_quantities[*index] {
                out.append(quantity.as_str());
            } else {
                proof {
                    assert(old(out)@ + Seq::<char>::empty() =~= old(out)@);
                }
            }
        },
        StepItem::InlineQuantity(index) => out.append(recipe.inline_quantities[*index].as_str()),
    }
}

pub(crate) fn append_items(out: &mut String, step: &StepModel, recipe: &RecipeModel)
    requires
        recipe.step_in_range(*step),
    ensures
        final(out)@ == old(out)@ + items_text(*recipe, step.items@),
{
    let n = step.items.len();
    proof {
        assert(step.items@.take(0) =~= Seq::<StepItem>::empty());
        assert(old(out)@ + Seq::<char>::empty() =~= old(out)@);
    }
    for k in 0..n
        invariant
            n == step.items@.len(),
            recipe.step_in_range(*step),
            out@ == old(out)@ + items_text(*recipe, step.items@.take(k as int)),
    {
        proof {
            assert(recipe.item_in_range(step.items@[k as int]));
        }
        append_item(out, &step.items[k], recipe);
        proof {
            assert(step.items@.take(k + 1).drop_last() =~= step.items@.take(k as int));
            assert(step.items@.take(k + 1).last() == step.items@[k as int]);
        }
    }
    proof {
        assert(step.items@.take(n as int) =~= step.items@);
    }
}

fn append_decimal(out: &mut String, n: u32)
    ensures
        final(out)@ == old(out)@ + decimal(n as nat),
{
    let mut digits: Vec<char> = Vec::new();
    push_decimal(&mut digits, n);
    proof {
        assert(digits@ =~= decimal(n as nat));
    }
    let s = string_from_chars(digits.as_slice());
    out.append(s.as_str());
}

/// Appends a numbered step: `"{number}. "` and the text of its items.
fn write_step(w: &mut String, step: &StepModel, recipe: &RecipeModel)
    requires
        recipe.step_in_range(*step),
    ensures
        final(w)@ == old(w)@ + md_step(*recipe, *step),
{
    append_decimal(w, step.number);
    w.append(". ");
    append_items(w, step, recipe);
    proof {
        assert(final(w)@ =~= old(w)@ + md_step(*recipe, *step));
    }
}

/// Appends a step without its number.
fn write_step_plain(w: &mut String, step: &StepModel, recipe: &RecipeModel)
    requires
        recipe.step_in_range(*step),
    ensures
        final(w)@ == old(w)@ + plain_step(*recipe, *step),
{
    append_items(w, step, recipe);
}

fn write_contents(w: &mut String, section: &SectionModel, recipe: &RecipeModel, numbered: bool)
    requires
        recipe.section_in_range(*section),
    ensures
        final(w)@ == old(w)@ + contents_text(*recipe, section.content@, numbered),
{
    let n = section.content.len();
    proof {
        assert(section.content@.take(0) =~= Seq::<SectionContent>::empty());
        assert(old(w)@ + Seq::<char>::empty() =~= old(w)@);
    }
    for j in 0..n
        invariant
            n == section.content@.len(),
            recipe.section_in_range(*section),
            w@ == old(w)@ + contents_text(*recipe, section.content@.take(j as int), numbered),
    {
        let ghost before = w@;
        proof {
            assert(recipe.content_in_range(section.content@[j as int]));
        }
        match &section.content[j] {
            SectionContent::Step(step) => {
                if numbered {
                    write_step(w, step, recipe);
                } else {
                    write_step_plain(w, step, recipe);
                }
                w.append("\n");
                w.append("\n");
            },
            SectionContent::Text(text) => {
                w.append(text.as_str());
                w.append("\n");
                w.append("\n");
            },
        }
        proof {
            reveal_strlit("\n");
            reveal_strlit("\n\n");
            assert(w@ =~= before + content_text(*recipe, section.content@[j as int], numbered));
            assert(section.content@.take(j + 1).drop_last() =~= section.content@.take(j as int));
            assert(section.content@.take(j + 1).last() == section.content@[j as int]);
        }
    }
    proof {
        assert(section.content@.take(n as int) =~= section.content@);
    }
}

/// Appends a markdown section: its `###` heading when named, then its content.
fn write_section(w: &mut String, section: &SectionModel, recipe: &RecipeModel)
    requires
        recipe.section_in_range(*section),
    ensures
        final(w)@ == old(w)@ + section_text(*recipe, *section, true),
{
    if let Some(name) = &section.name {
        w.append("### ");
        w.append(name.as_str());
        w.append("\n");
        w.append("\n");
        proof {
            reveal_strlit("\n");
            reveal_strlit("\n\n");
        }
    }
    let ghost mid = w@;
    proof {
        assert(mid =~= old(w)@ + section_heading(section.name, true));
    }
    write_contents(w, section, recipe, true);
}

/// Appends a plain-text section: `"=== {name} ==="` when named, then its content.
fn write_section_plain(w: &mut String, section: &SectionModel, recipe: &RecipeModel)
    requires
        recipe.section_in_range(*section),
    ensures
        final(w)@ == old(w)@ + section_text(*recipe, *section, false),
{
    if let Some(name) = &section.name {
        w.append("=== ");
        w.append(name.as_str());
        w.append(" ===");
        w.append("\n");
        w.append("\n");
        proof {
            reveal_strlit("\n");
            reveal_strlit(" ===");
            reveal_strlit(" ===\n\n");
        }
    }
    let ghost mid = w@;
    proof {
        assert(mid =~= old(w)@ + section_heading(section.name, false));
    }
    write_contents(w, section, recipe, false);
}

fn write_sections(w: &mut String, recipe: &RecipeModel, numbered: bool)
    requires
        recipe.wf(),
    ensures
        final(w)@ == old(w)@ + sections_text(*recipe, recipe.sections@, numbered),
{
    let n = recipe.sections.len();
    proof {
        assert(recipe.sections@.take(0) =~= Seq::<SectionModel>::empty());
        assert(old(w)@ + Seq::<char>::empty() =~= old(w)@);
    }
    for i in 0..n
        invariant
            n == recipe.sections@.len(),
            recipe.wf(),
            w@ == old(w)@ + sections_text(*recipe, recipe.sections@.take(i as int), numbered),
    {
        proof {
            assert(recipe.section_in_range(recipe.sections@[i as int]));
        }
        if numbered {
            write_section(w, &recipe.sections[i], recipe);
        } else {
            write_section_plain(w, &recipe.sections[i], recipe);
        }
        proof {
            assert(recipe.sections@.take(i + 1).drop_last() =~= recipe.sections@.take(i as int));
            assert(recipe.sections@.take(i + 1).last() == recipe.sections@[i as int]);
        }
    }
    proof {
        assert(recipe.sections@.take(n as int) =~= recipe.sections@);
    }
}

fn write_optional_quantity(w: &mut String, quantity: &Option<String>)
    ensures
        final(w)@ == old(w)@ + quantity_prefix(*quantity),
{
    if let Some(q) = quantity {
        w.append(q.as_str());
        w.append(" ");
    } else {
        proof {
            assert(old(w)@ + Seq::<char>::empty() =~= old(w)@);
        }
    }
}

fn write_optional_note(w: &mut String, note: &Option<String>)
    ensures
        final(w)@ == old(w)@ + note_suffix(*note),
{
    if let Some(n) = note {
        w.append(" (");
        w.append(n.as_str());
        w.append(")");
    } else {
        proof {
            assert(old(w)@ + Seq::<char>::empty() =~= old(w)@);
        }
    }
}

/// Appends the lines of the listed ingredients, each preceded by `bullet`.
fn write_ingredient_lines(w: &mut String, entries: &Vec<IngredientEntry>, bullet: &str)
    ensures
        final(w)@ == old(w)@ + ingredient_lines(entries@, bullet@),
{
    let n = entries.len();
    proof {
        assert(entries@.take(0) =~= Seq::<IngredientEntry>::empty());
        assert(old(w)@ + Seq::<char>::empty() =~= old(w)@);
    }
    for i in 0..n
        invariant
            n == entries@.len(),
            w@ == old(w)@ + ingredient_lines(entries@.take(i as int), bullet@),
    {
        let ghost before = w@;
        let entry = &entries[i];
        if entry.listed {
            w.append(bullet);
            write_optional_quantity(w, &entry.quantity);
            w.append(entry.display_name.as_str());
            write_optional_note(w, &entry.note);
            w.append("\n");
        }
        proof {
            assert(entries@.take(i + 1).drop_last() =~= entries@.take(i as int));
            assert(entries@.take(i + 1).last() == entries@[i as int]);
            assert(w@ =~= before + (if entries@[i as int].listed {
                bullet@ + ingredient_line(entries@[i as int])
            } else {
                Seq::<char>::empty()
            }));
        }
    }
    proof {
        assert(entries@.take(n as int) =~= entries@);
    }
}

fn write_cookware_lines(w: &mut String, entries: &Vec<CookwareEntry>)
    ensures
        final(w)@ == old(w)@ + cookware_lines(entries@),
{
    let n = entries.len();
    proof {
        assert(entries@.take(0) =~= Seq::<CookwareEntry>::empty());
        assert(old(w)@ + Seq::<char>::empty() =~= old(w)@);
    }
    for i in 0..n
        invariant
            n == entries@.len(),
            w@ == old(w)@ + cookware_lines(entries@.take(i as int)),
    {
        let ghost before = w@;
        let entry = &entries[i];
        w.append("- ");
        write_optional_quantity(w, &entry.quantity);
        w.append(entry.display_name.as_str());
        write_optional_note(w, &entry.note);
        w.append("\n");
        proof {
            assert(entries@.take(i + 1).drop_last() =~= entries@.take(i as int));
            assert(entries@.take(i + 1).last() == entries@[i as int]);
            assert(w@ =~= before + cookware_line(entries@[i as int]));
        }
    }
    proof {
        assert(entries@.take(n as int) =~= entries@);
    }
}

fn write_description(w: &mut String, description: &Option<String>)
    ensures
        final(w)@ == old(w)@ + description_block(*description),
{
    if let Some(desc) = description {
        let chars = chars_of(desc.as_str());
        let ls = lines_of(chars.as_slice());
        let n = ls.len();
        proof {
            assert(views(ls@).take(0) =~= Seq::<Seq<char>>::empty());
            assert(old(w)@ + Seq::<char>::empty() =~= old(w)@);
        }
        for i in 0..n
            invariant
                n == ls@.len(),
                views(ls@) == lines(desc@),
                w@ == old(w)@ + quoted_lines(views(ls@).take(i as int)),
        {
            let ghost before = w@;
            let line = string_from_chars(ls[i].as_slice());
            w.append("> ");
            w.append(line.as_str());
            w.append("\n");
            proof {
                assert(views(ls@).take(i + 1).drop_last() =~= views(ls@).take(i as int));
                assert(views(ls@).take(i + 1).last() == ls@[i as int]@);
                assert(w@ =~= before + "> "@ + ls@[i as int]@ + "\n"@);
            }
        }
        w.append("\n");
        proof {
            assert(views(ls@).take(n as int) =~= views(ls@));
        }
    } else {
        proof {
            assert(old(w)@ + Seq::<char>::empty() =~= old(w)@);
        }
    }
}

/// Renders a recipe titled `name` as markdown: title, quoted description,
/// ingredient and cookware lists, and the numbered steps of each section.
pub fn print_md(recipe: &RecipeModel, name: &str) -> (md: String)
    requires
        recipe.wf(),
    ensures
        md@ == markdown_text(*recipe, name@),
{
    let opts = Options::default();
    let mut writer = String::new();
    writer.append("# ");
    writer.append(name);
    writer.append("\n");
    writer.append("\n");
    let ghost title = writer@;
    write_description(&mut writer, &recipe.description);
    let ghost after_desc = writer@;
    if recipe.ingredient_names.len() > 0 {
        writer.append("## ");
        writer.append(opts.heading.ingredients.as_str());
        writer.append("\n");
        writer.append("\n");
        write_ingredient_lines(&mut writer, &recipe.grouped_ingredients, "- ");
        writer.append("\n");
    }
    let ghost after_ingredients = writer@;
    if recipe.cookware_names.len() > 0 {
        writer.append("## ");
        writer.append(opts.heading.cookware.as_str());
        writer.append("\n");
        writer.append("\n");
        write_cookware_lines(&mut writer, &recipe.grouped_cookware);
        writer.append("\n");
    }
    let ghost after_cookware = writer@;
    writer.append("## ");
    writer.append(opts.heading.steps.as_str());
    writer.append("\n");
    writer.append("\n");
    let ghost after_heading = writer@;
    write_sections(&mut writer, recipe, true);
    proof {
        reveal_strlit("\n");
        reveal_strlit("\n\n");
        reveal_strlit("# ");
        reveal_strlit("## ");
        reveal_strlit("Ingredients");
        reveal_strlit("Cookware");
        reveal_strlit("Steps");
        reveal_strlit("## Ingredients\n\n");
        reveal_strlit("## Cookware\n\n");
        reveal_strlit("## Steps\n\n");
        assert(title =~= "# "@ + name@ + "\n\n"@);
        assert(after_ingredients =~= after_desc + ingredients_block(*recipe));
        assert(after_cookware =~= after_ingredients + cookware_block(*recipe));
        assert(after_heading =~= after_cookware + "## Steps\n\n"@);
        assert(writer@ =~= markdown_text(*recipe, name@));
    }
    writer
}

/// Renders a recipe as plain text: the listed ingredients one per line
/// (no bullets), a blank line, then the steps as unnumbered paragraphs.
pub fn print_plain(recipe: &RecipeModel) -> (txt: String)
    requires
        recipe.wf(),
    ensures
        txt@ == plain_text(*recipe),
{
    let mut writer = String::new();
    write_ingredient_lines(&mut writer, &recipe.grouped_ingredients, "");
    proof {
        reveal_strlit("");
        assert(""@ =~= Seq::<char>::empty());
    }
    writer.append("\n");
    write_sections(&mut writer, recipe, false);
    proof {
        assert(writer@ =~= plain_text(*recipe));
    }
    writer
}

// ---------------------------------------------------------------------------
// Laws
// ---------------------------------------------------------------------------

/// A numbered step is its number and `". "` before the unnumbered step.
pub proof fn lemma_numbered_step_is_plain_step_with_number(m: RecipeModel, st: StepModel)
    ensures
        md_step(m, st) == decimal(st.number as nat) + ". "@ + plain_step(m, st),
{
}

/// The lines of the listed ingredients, each without a bullet.
pub open spec fn listed_ingredient_lines(es: Seq<IngredientEntry>) -> Seq<Seq<char>>
    decreases es.len(),
{
    if es.len() == 0 {
        Seq::empty()
    } else if es.last().listed {
        listed_ingredient_lines(es.drop_last()).push(ingredient_line(es.last()))
    } else {
        listed_ingredient_lines(es.drop_last())
    }
}

/// Lines concatenated, each preceded by `bullet`.
pub open spec fn bulleted(ls: Seq<Seq<char>>, bullet: Seq<char>) -> Seq<char>
    decreases ls.len(),
{
    if ls.len() == 0 {
        Seq::empty()
    } else {
        bulleted(ls.drop_last(), bullet) + bullet + ls.last()
    }
}

/// The markdown and plain-text renderings list the same ingredient lines in
/// the same order: with a `"- "` bullet in markdown, without in plain text.
pub proof fn lemma_plain_ingredients_are_markdown_ingredients_unbulleted(es: Seq<IngredientEntry>)
    ensures
        ingredient_lines(es, "- "@) == bulleted(listed_ingredient_lines(es), "- "@),
        ingredient_lines(es, Seq::empty()) == bulleted(listed_ingredient_lines(es), Seq::empty()),
    decreases es.len(),
{
    if es.len() > 0 {
        lemma_plain_ingredients_are_markdown_ingredients_unbulleted(es.drop_last());
        let l = listed_ingredient_lines(es.drop_last());
        if es.last().listed {
            let n = l.push(ingredient_line(es.last()));
            assert(n.drop_last() =~= l);
            assert(bulleted(n, "- "@) =~= bulleted(l, "- "@) + ("- "@ + ingredient_line(es.last())));
            assert(bulleted(n, Seq::empty()) =~= bulleted(l, Seq::empty()) + (Seq::<char>::empty() + ingredient_line(es.last())));
        } else {
            assert(ingredient_lines(es, "- "@) =~= ingredient_lines(es.drop_last(), "- "@));
            assert(ingredient_lines(es, Seq::empty()) =~= ingredient_lines(es.drop_last(), Seq::empty()));
        }
    }
}

/// Every ingredient line is the quantity and a space when there is a
/// quantity, then the display name, then `" ("`, the note and `")"` when
/// there is a note (whether or not there is a quantity), then a newline.
pub proof fn lemma_ingredient_line_shape(e: IngredientEntry)
    ensures
        ingredient_line(e) == (match e.quantity {
            Some(q) => q@ + seq![' '],
            None => Seq::<char>::empty(),
        }) + e.display_name@ + (match e.note {
            Some(n) => seq![' ', '('] + n@ + seq![')'],
            None => Seq::<char>::empty(),
        }) + seq!['\n'],
        e.quantity is None && e.note is Some ==> ingredient_line(e) == e.display_name@ + seq![' ', '(']
            + e.note->Some_0@ + seq![')', '\n'],
{
    reveal_strlit(" ");
    reveal_strlit(" (");
    reveal_strlit(")");
    reveal_strlit("\n");
    assert(" "@ =~= seq![' ']);
    assert(" ("@ =~= seq![' ', '(']);
    assert(")"@ =~= seq![')']);
    assert("\n"@ =~= seq!['\n']);
    if e.quantity is None && e.note is Some {
        let n = e.note->Some_0@;
        assert(Seq::<char>::empty() + e.display_name@ + (seq![' ', '('] + n + seq![')']) + seq!['\n']
            =~= e.display_name@ + seq![' ', '('] + n + seq![')', '\n']);
    }
}

/// A listed ingredient on its own renders in markdown as `"- "` followed
/// by its line, and in plain text as its line alone; an unlisted one
/// renders as nothing.
pub proof fn lemma_single_ingredient_rendering(e: IngredientEntry)
    ensures
        e.listed ==> ingredient_lines(seq![e], seq!['-', ' ']) == seq!['-', ' '] + ingredient_line(e),
        e.listed ==> ingredient_lines(seq![e], Seq::<char>::empty()) == ingredient_line(e),
        !e.listed ==> ingredient_lines(seq![e], seq!['-', ' ']) == Seq::<char>::empty(),
{
    let es = seq![e];
    assert(es.drop_last() =~= Seq::<IngredientEntry>::empty());
    assert(es.last() == e);
    assert(ingredient_lines(es.drop_last(), seq!['-', ' ']) == Seq::<char>::empty());
    assert(ingredient_lines(es.drop_last(), Seq::<char>::empty()) == Seq::<char>::empty());
    if e.listed {
        assert(ingredient_lines(es, seq!['-', ' ']) =~= Seq::<char>::empty() + (seq!['-', ' '] + ingredient_line(e)));
        assert(ingredient_lines(es, Seq::<char>::empty()) =~= Seq::<char>::empty() + (Seq::<char>::empty() + ingredient_line(e)));
    } else {
        assert(ingredient_lines(es, seq!['-', ' ']) =~= Seq::<char>::empty() + Seq::<char>::empty());
    }
}

/// Every cookware line is `"- "`, the quantity and a space when there is
/// one, the display name, `" ("`, the note and `")"` when there is a note,
/// and a newline.
pub proof fn lemma_cookware_line_shape(e: CookwareEntry)
    ensures
        cookware_line(e) == seq!['-', ' '] + (match e.quantity {
            Some(q) => q@ + seq![' '],
            None => Seq::<char>::empty(),
        }) + e.display_name@ + (match e.note {
            Some(n) => seq![' ', '('] + n@ + seq![')'],
            None => Seq::<char>::empty(),
        }) + seq!['\n'],
{
    reveal_strlit("- ");
    reveal_strlit(" ");
    reveal_strlit(" (");
    reveal_strlit(")");
    reveal_strlit("\n");
    assert("- "@ =~= seq!['-', ' ']);
    assert(" "@ =~= seq![' ']);
    assert(" ("@ =~= seq![' ', '(']);
    assert(")"@ =~= seq![')']);
    assert("\n"@ =~= seq!['\n']);
}

} // verus!
