use cook_dataset::recipe_scanner::RecipeScanner;
use cook_dataset::validator::{next_index_after_delete, strip_frontmatter};

fn names(xs: &[&str]) -> Vec<String> {
    xs.iter().map(|x| x.to_string()).collect()
}

#[test]
fn pairs_sorted_and_numbered() {
    let files = names(&[
        "c.cook",
        "a.recipe",
        "b.cook",
        "c.recipe",
        "a.cook",
        "c.metadata",
        "notes.txt",
        ".cook",
        "x.y.cook",
        "x.y.recipe",
        "README",
    ]);
    let pairs = RecipeScanner::scan(&files);
    assert_eq!(pairs.len(), 3);
    assert_eq!(pairs[0].name, "a");
    assert_eq!((pairs[0].id, pairs[0].markdown_file, pairs[0].cooklang_file, pairs[0].metadata_file), (0, 1, 4, None));
    assert_eq!(pairs[1].name, "c");
    assert_eq!((pairs[1].id, pairs[1].markdown_file, pairs[1].cooklang_file, pairs[1].metadata_file), (1, 3, 0, Some(5)));
    assert_eq!(pairs[2].name, "x.y");
    assert_eq!((pairs[2].id, pairs[2].markdown_file, pairs[2].cooklang_file), (2, 9, 8));
}

#[test]
fn later_file_of_same_kind_wins() {
    let files = names(&["z.recipe", "z.cook", "z.recipe"]);
    let pairs = RecipeScanner::scan(&files);
    assert_eq!(pairs.len(), 1);
    assert_eq!(pairs[0].markdown_file, 2);
    assert_eq!(pairs[0].cooklang_file, 1);
}

#[test]
fn names_sort_by_character_code() {
    let files = names(&["b.recipe", "b.cook", "B.recipe", "B.cook", "ab.cook", "ab.recipe", "a.recipe", "a.cook"]);
    let pairs = RecipeScanner::scan(&files);
    let got: Vec<&str> = pairs.iter().map(|p| p.name.as_str()).collect();
    assert_eq!(got, vec!["B", "a", "ab", "b"]);
    for (i, p) in pairs.iter().enumerate() {
        assert_eq!(p.id, i);
    }
}

#[test]
fn no_pairs_without_both_files() {
    let files = names(&["only.recipe", "other.cook", "m.metadata"]);
    assert!(RecipeScanner::scan(&files).is_empty());
    assert!(RecipeScanner::scan(&Vec::new()).is_empty());
}

#[test]
fn frontmatter_removed() {
    assert_eq!(strip_frontmatter("---\ntitle: X\n---\n\nBody\nmore"), "Body\nmore");
    assert_eq!(strip_frontmatter("---\ntitle: X\n---"), "");
}

#[test]
fn text_without_frontmatter_unchanged() {
    assert_eq!(strip_frontmatter("Just text\n---\n"), "Just text\n---\n");
    assert_eq!(strip_frontmatter("---\nnever closed"), "---\nnever closed");
    assert_eq!(strip_frontmatter(""), "");
}

#[test]
fn navigation_after_removal() {
    assert_eq!(next_index_after_delete(0, 3), 0);
    assert_eq!(next_index_after_delete(1, 3), 1);
    assert_eq!(next_index_after_delete(2, 3), 1);
    assert_eq!(next_index_after_delete(0, 1), 0);
}
