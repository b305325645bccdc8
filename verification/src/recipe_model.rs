//! Plain-value model of a parsed and scaled Cooklang recipe.
//!
//! The model holds exactly what the renderers and the summary extraction
//! read from a recipe: display names, quantities already formatted as text,
//! and the step items that point into the recipe's tables by index.

use vstd::prelude::*;

verus! {

/// One item of a step.
///
/// Except for `Text`, the value is an index into the corresponding table
/// of the [`RecipeModel`].
pub enum StepItem {
    Text(String),
    Ingredient(usize),
    Cookware(usize),
    Timer(usize),
    InlineQuantity(usize),
}

/// A numbered step and its items.
pub struct StepModel {
    pub number: u32,
    pub items: Vec<StepItem>,
}

/// Content of a section: a step or a paragraph of text.
pub enum SectionContent {
    Step(StepModel),
    Text(String),
}

/// A section, optionally named, holding steps and text paragraphs.
pub struct SectionModel {
    pub name: Option<String>,
    pub content: Vec<SectionContent>,
}

/// An ingredient definition with the quantities of all its references grouped.
pub struct IngredientEntry {
    /// The grouped quantity as text; `None` when the group is empty.
    pub quantity: Option<String>,
    pub display_name: String,
    pub note: Option<String>,
    /// Whether the ingredient's modifiers let it appear in ingredient lists.
    pub listed: bool,
}

/// A cookware definition with the amounts of all its references grouped.
pub struct CookwareEntry {
    /// The grouped amount as text; `None` when the group is empty.
    pub quantity: Option<String>,
    pub name: String,
    pub display_name: String,
    pub note: Option<String>,
}

/// A parsed recipe.
pub struct RecipeModel {
    /// The `description` metadata entry, if any.
    pub description: Option<String>,
    /// Display name of every ingredient of the recipe, in recipe order.
    pub ingredient_names: Vec<String>,
    /// Name of every cookware item of the recipe, in recipe order.
    pub cookware_names: Vec<String>,
    /// Quantity text of every timer, in recipe order.
    pub timer_quantities: Vec<Option<String>>,
    /// Text of every inline quantity, in recipe order.
    pub inline_quantities: Vec<String>,
    /// Ingredient definitions with grouped quantities, in recipe order.
    pub grouped_ingredients: Vec<IngredientEntry>,
    /// Cookware definitions with grouped amounts, in recipe order.
    pub grouped_cookware: Vec<CookwareEntry>,
    pub sections: Vec<SectionModel>,
    /// The parser's warnings as text, when it reported any.
    pub warnings: Option<String>,
}

impl RecipeModel {
    /// The item points into a table entry that exists.
    pub open spec fn item_in_range(&self, item: StepItem) -> bool {
        match item {
            StepItem::Text(_) => true,
            StepItem::Ingredient(i) => i < self.ingredient_names.len(),
            StepItem::Cookware(i) => i < self.cookware_names.len(),
            StepItem::Timer(i) => i < self.timer_quantities.len(),
            StepItem::InlineQuantity(i) => i < self.inline_quantities.len(),
        }
    }

    pub open spec fn step_in_range(&self, step: StepModel) -> bool {
        forall|k: int| 0 <= k < step.items@.len() ==> self.item_in_range(#[trigger] step.items@[k])
    }

    pub open spec fn content_in_range(&self, c: SectionContent) -> bool {
        match c {
            SectionContent::Step(st) => self.step_in_range(st),
            SectionContent::Text(_) => true,
        }
    }

    pub open spec fn section_in_range(&self, s: SectionModel) -> bool {
        forall|j: int| 0 <= j < s.content@.len() ==> self.content_in_range(#[trigger] s.content@[j])
    }

    /// Every step item points into an existing table entry.
    pub open spec fn wf(&self) -> bool {
        forall|i: int| 0 <= i < self.sections@.len() ==> self.section_in_range(#[trigger] self.sections@[i])
    }

    fn check_item(&self, item: &StepItem) -> (ok: bool)
        ensures
            ok == self.item_in_range(*item),
    {
        match item {
            StepItem::Text(_) => true,
            StepItem::Ingredient(i) => *i < self.ingredient_names.len(),
            StepItem::Cookware(i) => *i < self.cookware_names.len(),
            StepItem::Timer(i) => *i < self.timer_quantities.len(),
            StepItem::InlineQuantity(i) => *i < self.inline_quantities.len(),
        }
    }

    fn check_step(&self, step: &StepModel) -> (ok: bool)
        ensures
            ok == self.step_in_range(*step),
    {
        let n = step.items.len();
        for k in 0..n
            invariant
                n == step.items@.len(),
                forall|q: int| 0 <= q < k ==> self.item_in_range(#[trigger] step.items@[q]),
        {
            if !self.check_item(&step.items[k]) {
                return false;
            }
        }
        true
    }

    fn check_section(&self, section: &SectionModel) -> (ok: bool)
        ensures
            ok == self.section_in_range(*section),
    {
        let n = section.content.len();
        for j in 0..n
            invariant
                n == section.content@.len(),
                forall|q: int| 0 <= q < j ==> self.content_in_range(#[trigger] section.content@[q]),
        {
            let ok = match &section.content[j] {
                SectionContent::Step(st) => self.check_step(st),
                SectionContent::Text(_) => true,
            };
            if !ok {
                return false;
            }
        }
        true
    }

    /// Whether every step item points into an existing table entry.
    pub fn is_well_formed(&self) -> (ok: bool)
        ensures
            ok == self.wf(),
    {
        let n = self.sections.len();
        for i in 0..n
            invariant
                n == self.sections@.len(),
                forall|q: int| 0 <= q < i ==> self.section_in_range(#[trigger] self.sections@[q]),
        {
            if !self.check_section(&self.sections[i]) {
                return false;
            }
        }
        true
    }
}

} // verus!
