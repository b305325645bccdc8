use cook_dataset::cooklang_parser::CooklangParser;
use cook_dataset::markdown_renderer::{print_md, print_plain, Headings, Options};
use cook_dataset::recipe_model::{
    CookwareEntry, IngredientEntry, RecipeModel, SectionContent, SectionModel, StepItem, StepModel,
};

fn s(x: &str) -> String {
    x.to_string()
}

fn sample_recipe() -> RecipeModel {
    RecipeModel {
        description: Some(s("A tasty dish\nwith two lines")),
        ingredient_names: vec![s("onion"), s("olive oil"), s("salt")],
        cookware_names: vec![s("pan"), s("pan")],
        timer_quantities: vec![Some(s("10 min")), None],
        inline_quantities: vec![s("200 °C")],
        grouped_ingredients: vec![
            IngredientEntry { quantity: Some(s("2")), display_name: s("onion"), note: None, listed: true },
            IngredientEntry {
                quantity: Some(s("1 tbsp")),
                display_name: s("olive oil"),
                note: Some(s("extra virgin")),
                listed: true,
            },
            IngredientEntry { quantity: None, display_name: s("salt"), note: None, listed: false },
        ],
        grouped_cookware: vec![
            CookwareEntry { quantity: None, name: s("pan"), display_name: s("pan"), note: None },
            CookwareEntry { quantity: Some(s("1")), name: s("pan"), display_name: s("skillet"), note: Some(s("large")) },
        ],
        sections: vec![
            SectionModel {
                name: None,
                content: vec![
                    SectionContent::Step(StepModel {
                        number: 1,
                        items: vec![StepItem::Text(s("Dice the ")), StepItem::Ingredient(0), StepItem::Text(s("."))],
                    }),
                    SectionContent::Step(StepModel {
                        number: 2,
                        items: vec![
                            StepItem::Text(s("Heat ")),
                            StepItem::Ingredient(1),
                            StepItem::Text(s(" in a ")),
                            StepItem::Cookware(0),
                            StepItem::Text(s(" for ")),
                            StepItem::Timer(0),
                            StepItem::Timer(1),
                            StepItem::Text(s(" at ")),
                            StepItem::InlineQuantity(0),
                            StepItem::Text(s(".")),
                        ],
                    }),
                ],
            },
            SectionModel {
                name: Some(s("Serve")),
                content: vec![
                    SectionContent::Text(s("Enjoy warm.")),
                    SectionContent::Step(StepModel { number: 12, items: vec![StepItem::Text(s("Plate it."))] }),
                ],
            },
        ],
        warnings: None,
    }
}

#[test]
fn headings_default_to_section_names() {
    let h = Headings::default();
    assert_eq!(h.ingredients, "Ingredients");
    assert_eq!(h.cookware, "Cookware");
    assert_eq!(h.steps, "Steps");
    let o = Options::default();
    assert_eq!(o.heading.steps, "Steps");
}

#[test]
fn markdown_of_full_recipe() {
    let r = sample_recipe();
    assert!(r.is_well_formed());
    let md = print_md(&r, "Test");
    let expected = "# Test\n\n\
> A tasty dish\n\
> with two lines\n\n\
## Ingredients\n\n\
- 2 onion\n\
- 1 tbsp olive oil (extra virgin)\n\n\
## Cookware\n\n\
- pan\n\
- 1 skillet (large)\n\n\
## Steps\n\n\
1. Dice the onion.\n\n\
2. Heat olive oil in a pan for 10 min at 200 °C.\n\n\
### Serve\n\n\
Enjoy warm.\n\n\
12. Plate it.\n\n";
    assert_eq!(md, expected);
}

#[test]
fn plain_text_of_full_recipe() {
    let r = sample_recipe();
    let txt = print_plain(&r);
    let expected = "2 onion\n\
1 tbsp olive oil (extra virgin)\n\n\
Dice the onion.\n\n\
Heat olive oil in a pan for 10 min at 200 °C.\n\n\
=== Serve ===\n\n\
Enjoy warm.\n\n\
Plate it.\n\n";
    assert_eq!(txt, expected);
}

#[test]
fn markdown_of_recipe_without_lists() {
    let r = RecipeModel {
        description: None,
        ingredient_names: vec![],
        cookware_names: vec![],
        timer_quantities: vec![],
        inline_quantities: vec![],
        grouped_ingredients: vec![],
        grouped_cookware: vec![],
        sections: vec![],
        warnings: None,
    };
    assert_eq!(print_md(&r, "Empty"), "# Empty\n\n## Steps\n\n");
    assert_eq!(print_plain(&r), "\n");
}

#[test]
fn description_lines_drop_carriage_returns() {
    let mut r = sample_recipe();
    r.description = Some(s("first\r\nsecond\n"));
    let md = print_md(&r, "T");
    assert!(md.starts_with("# T\n\n> first\n> second\n\n## Ingredients"));
}

#[test]
fn summary_of_parsed_recipe() {
    let parsed: Result<RecipeModel, String> = Ok(sample_recipe());
    let summary = CooklangParser::parse(&parsed);
    assert_eq!(summary.ingredients.len(), 3);
    assert_eq!(summary.ingredients[1].name, "olive oil");
    assert_eq!(summary.ingredients[1].quantity.as_deref(), Some("1 tbsp"));
    assert_eq!(summary.ingredients[1].note.as_deref(), Some("extra virgin"));
    assert!(summary.ingredients[1].unit.is_none());
    assert!(summary.ingredients[2].quantity.is_none());
    // cookware names are listed once
    assert_eq!(summary.cookware, vec![s("pan")]);
    assert_eq!(
        summary.steps,
        vec![
            s("Dice the onion."),
            s("Heat olive oil in a pan for 10 min at 200 °C."),
            s("=== Serve ==="),
            s("Enjoy warm."),
            s("Plate it."),
        ]
    );
    assert!(summary.errors.is_empty());
}

#[test]
fn summary_reports_warnings() {
    let mut r = sample_recipe();
    r.warnings = Some(s("unused ingredient"));
    let summary = CooklangParser::parse(&Ok(r));
    assert_eq!(summary.errors, vec![s("Warnings: unused ingredient")]);
}

#[test]
fn summary_of_parse_error() {
    let parsed: Result<RecipeModel, String> = Err(s("expected '}'"));
    let summary = CooklangParser::parse(&parsed);
    assert!(summary.ingredients.is_empty());
    assert!(summary.cookware.is_empty());
    assert!(summary.steps.is_empty());
    assert_eq!(summary.errors, vec![s("Parse error: expected '}'")]);
}

#[test]
fn markdown_titles() {
    let parsed: Result<RecipeModel, String> = Ok(sample_recipe());
    let default = CooklangParser::to_markdown(&parsed);
    assert!(default.starts_with("# Recipe\n\n"));
    assert_eq!(default, CooklangParser::to_markdown_with_title(&parsed, Some("Recipe")));
    let titled = CooklangParser::to_markdown_with_title(&parsed, Some("Pasta"));
    assert!(titled.starts_with("# Pasta\n\n> A tasty dish"));
}

#[test]
fn renderings_of_parse_error() {
    let parsed: Result<RecipeModel, String> = Err(s("bad input"));
    assert_eq!(CooklangParser::to_markdown(&parsed), "Error parsing recipe: bad input");
    assert_eq!(CooklangParser::to_plain(&parsed), "Error parsing recipe: bad input");
}

#[test]
fn well_formedness_checks_indices() {
    let mut r = sample_recipe();
    assert!(r.is_well_formed());
    r.sections[0].content.push(SectionContent::Step(StepModel { number: 3, items: vec![StepItem::Timer(5)] }));
    assert!(!r.is_well_formed());
}
