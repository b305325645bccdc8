use cook_dataset::recipe_content::{
    add_image_to_content, add_pdf_to_content, clean_recipe_content, extract_image_from_html,
    extract_pdf_link, parse_u32, pick_recipe_image, prepare_recipe_content, strip_html_tags,
    tidy_stripped_text, RecipeContentError, ScrapePatterns,
};
use cook_dataset::scraper::{
    find_country, get_countries, limit_urls, select_countries, tally_outcomes, url_to_filename,
    Country, DownloadOutcome,
};
use cook_dataset::sitemap::{parse_sitemap_urls, SitemapError};

fn patterns() -> ScrapePatterns {
    match ScrapePatterns::new() {
        Ok(p) => p,
        Err(e) => panic!("pattern does not compile: {}", e.pattern),
    }
}

#[test]
fn country_table() {
    let countries = get_countries();
    assert_eq!(countries.len(), 18);
    let mut codes: Vec<&str> = countries.iter().map(|c| c.code).collect();
    codes.sort();
    codes.dedup();
    assert_eq!(codes.len(), 18);
    let gb = find_country(&countries, "gb").unwrap();
    assert_eq!(gb.name, "United Kingdom");
    assert_eq!(gb.sitemap_url(), "https://www.hellofresh.co.uk/sitemap_recipe_pages.xml");
    assert!(find_country(&countries, "xx").is_none());
}

#[test]
fn sitemap_url_of_new_country() {
    let c = Country::new("us", "com", "United States");
    assert_eq!(c.sitemap_url(), "https://www.hellofresh.com/sitemap_recipe_pages.xml");
}

#[test]
fn country_selection() {
    let countries = get_countries();
    let all = select_countries(&countries, &None).unwrap();
    assert_eq!(all.len(), 18);
    let some = select_countries(&countries, &Some(vec!["ie".to_string(), "de".to_string()])).unwrap();
    assert_eq!(some.iter().map(|c| c.domain).collect::<Vec<_>>(), vec!["ie", "de"]);
    match select_countries(&countries, &Some(vec!["de".to_string(), "xx".to_string(), "yy".to_string()])) {
        Err(code) => assert_eq!(code, "xx"),
        Ok(_) => panic!("unknown code accepted"),
    }
}

#[test]
fn filenames_from_urls() {
    assert_eq!(
        url_to_filename("https://www.hellofresh.ie/recipes/recipe-name-abc123").as_deref(),
        Some("recipe-name-abc123.recipe")
    );
    assert_eq!(url_to_filename("https://x/recipes/a/recipes/b").as_deref(), Some("a.recipe"));
    assert_eq!(url_to_filename("https://x/recipes/").as_deref(), Some(".recipe"));
    assert_eq!(url_to_filename("https://www.hellofresh.ie/about"), None);
}

#[test]
fn url_limit() {
    let urls: Vec<String> = vec!["a".into(), "b".into(), "c".into()];
    assert_eq!(limit_urls(urls.clone(), Some(2)), vec!["a".to_string(), "b".to_string()]);
    assert_eq!(limit_urls(urls.clone(), Some(5)), urls);
    assert_eq!(limit_urls(urls.clone(), None), urls);
    assert!(limit_urls(urls, Some(0)).is_empty());
}

#[test]
fn outcome_tally() {
    let t = tally_outcomes(&vec![
        DownloadOutcome::Downloaded,
        DownloadOutcome::SkippedNoPdf,
        DownloadOutcome::Failed,
        DownloadOutcome::Downloaded,
    ]);
    assert_eq!((t.success, t.skipped, t.failed), (2, 1, 1));
    assert_eq!(t.success + t.skipped + t.failed, 4);
    let empty = tally_outcomes(&vec![]);
    assert_eq!((empty.success, empty.skipped, empty.failed), (0, 0, 0));
}

#[test]
fn tags_removed_and_text_tidied() {
    let p = patterns();
    let raw = "<p>Hello\u{a0}</p>  \n\n\n\n<b>World</b>   \n";
    assert_eq!(strip_html_tags(&p, raw), "Hello\n\nWorld");
    assert_eq!(strip_html_tags(&p, "a <> b <unclosed"), "a <> b <unclosed");
}

#[test]
fn tidying_without_tags() {
    assert_eq!(tidy_stripped_text("a\n\n\n\n\nb"), "a\n\nb");
    // lines left blank by the trimming collapse too
    assert_eq!(tidy_stripped_text("a\n\u{a0}\n\u{a0}\nb"), "a\n\nb");
    assert_eq!(tidy_stripped_text("a\n\n\n\n"), "a\n");
    assert_eq!(tidy_stripped_text("a  \r\nb\t"), "a\nb");
    assert_eq!(tidy_stripped_text("  indented"), "  indented");
    assert_eq!(tidy_stripped_text(""), "");
}

#[test]
fn incomplete_image_lines_dropped() {
    let content = "---\ntitle: X\nimage: https://img.hellofresh.com/f_auto,fl_lossy,h_640,q_auto,w_1200/\n---\nbody";
    assert_eq!(clean_recipe_content(content), "---\ntitle: X\n---\nbody");
    // an empty image URL is incomplete too
    assert_eq!(clean_recipe_content("title: X\nimage:   \nrest"), "title: X\nrest");
    let ok = "---\n  image: https://img/x.jpg  \n---";
    assert_eq!(clean_recipe_content(ok), ok);
    assert_eq!(clean_recipe_content("a\nb\n"), "a\nb");
    // a carriage return is dropped only before a newline
    assert_eq!(clean_recipe_content("a\r\nb\r"), "a\nb\r");
}

#[test]
fn image_added_after_title() {
    let content = "---\ntitle: X\n---\nbody";
    assert_eq!(add_image_to_content(content, "https://img/a.jpg"), "---\ntitle: X\nimage: https://img/a.jpg\n---\nbody");
    // already present: unchanged
    let with_image = "---\ntitle: X\nimage: https://img/b.jpg\n---\n";
    assert_eq!(add_image_to_content(with_image, "https://img/a.jpg"), with_image);
    // incomplete image does not count
    let incomplete = "title: X\nimage: https://img/";
    assert_eq!(add_image_to_content(incomplete, "U"), "title: X\nimage: U\nimage: https://img/");
    // no title: unchanged
    assert_eq!(add_image_to_content("body\n", "U"), "body\n");
}

#[test]
fn pdf_added_after_image_or_title() {
    assert_eq!(add_pdf_to_content("title: X\nimage: I\nrest", "P"), "title: X\nimage: I\npdf: P\nrest");
    assert_eq!(add_pdf_to_content("title: X\nrest\n", "P"), "title: X\npdf: P\nrest");
    assert_eq!(add_pdf_to_content("nothing\n", "P"), "nothing\n");
}

#[test]
fn pdf_link_from_page() {
    let p = patterns();
    let html = r#"{"name":"x","cardLink" : "https://cdn.example.com/card.pdf","other":1}"#;
    assert_eq!(extract_pdf_link(&p, html).as_deref(), Some("https://cdn.example.com/card.pdf"));
    assert_eq!(extract_pdf_link(&p, r#""cardLink":"https://cdn.example.com/card.png""#), None);
}

#[test]
fn image_from_page_prefers_main_then_width() {
    let p = patterns();
    let html = [
        r#"<img src="https://img.hellofresh.com/w_640,q_auto/recipes/image/HF_1_main.jpg">"#,
        r#"<img src="https://media.hellofresh.com/w_1200,q_auto/recipes/image/HF_2.jpg">"#,
        r#"<img src="https://media.hellofresh.com/w_1100,q_auto/recipes/image/HF_3_Main.png">"#,
    ]
    .join("");
    let html = html.as_str();
    assert_eq!(
        extract_image_from_html(&p, html).as_deref(),
        Some("https://media.hellofresh.com/w_1100,q_auto/recipes/image/HF_3_Main.png")
    );
    let no_main = [
        r#""https://media.hellofresh.com/w_1300,q_auto/recipes/image/A.jpg""#,
        r#""https://media.hellofresh.com/w_1100,q_auto/recipes/image/B.jpg""#,
    ]
    .join("");
    let no_main = no_main.as_str();
    // equally close: the first one wins
    assert_eq!(
        extract_image_from_html(&p, no_main).as_deref(),
        Some("https://media.hellofresh.com/w_1300,q_auto/recipes/image/A.jpg")
    );
    assert_eq!(extract_image_from_html(&p, "<html></html>"), None);
}

#[test]
fn image_choice_from_groups() {
    let g = |url: &str, w: Option<&str>, f: Option<&str>| vec![Some(url.to_string()), w.map(String::from), f.map(String::from)];
    let caps = vec![g("u1", Some("99999999999"), Some("a_main.jpg")), g("u2", Some("800"), Some("b.jpg")), g("u3", None, Some("c_MAIN.jpg"))];
    // the too-large width does not parse, the group without width is skipped
    assert_eq!(pick_recipe_image(&caps).as_deref(), Some("u2"));
    assert_eq!(pick_recipe_image(&vec![]), None);
}

#[test]
fn decimal_parsing() {
    assert_eq!(parse_u32("42"), Some(42));
    assert_eq!(parse_u32("+7"), Some(7));
    assert_eq!(parse_u32("0004294967295"), Some(4294967295));
    assert_eq!(parse_u32("4294967296"), None);
    assert_eq!(parse_u32("+"), None);
    assert_eq!(parse_u32("-1"), None);
    assert_eq!(parse_u32(""), None);
    assert_eq!(parse_u32("١٢"), None);
}

#[test]
fn recipe_content_prepared() {
    let p = patterns();
    let raw = "---\ntitle: Soup\nimage: https://img.hellofresh.com/w_1200/\n---\n<p>Stir.</p>\n";
    let out = prepare_recipe_content(&p, raw, &Some("https://img/s.jpg".to_string()), "https://c/s.pdf");
    match out {
        Ok(text) => assert_eq!(text, "---\ntitle: Soup\nimage: https://img/s.jpg\npdf: https://c/s.pdf\n---\nStir."),
        Err(_) => panic!("content refused"),
    }
    assert!(matches!(prepare_recipe_content(&p, " \n\t", &None, "P"), Err(RecipeContentError::EmptyContent)));
}

#[test]
fn recipe_urls_from_sitemap() {
    let xml = "<?xml version=\"1.0\"?><urlset>\
        <url><loc> https://www.hellofresh.ie/recipes/a-1 </loc></url>\
        <url><loc>https://www.hellofresh.ie/about</loc></url>\
        <url><loc>https://www.hellofresh.ie/recipes/b&amp;c-2</loc></url>\
        <other>https://www.hellofresh.ie/recipes/not-a-loc</other>\
        </urlset>";
    match parse_sitemap_urls(xml) {
        Ok(urls) => assert_eq!(
            urls,
            vec!["https://www.hellofresh.ie/recipes/a-1".to_string(), "https://www.hellofresh.ie/recipes/b&c-2".to_string()]
        ),
        Err(_) => panic!("sitemap refused"),
    }
}

#[test]
fn sitemap_with_bad_entity_in_location() {
    let xml = "<urlset><url><loc>https://x/recipes/&bogus;</loc></url></urlset>";
    assert!(matches!(parse_sitemap_urls(xml), Err(SitemapError::InvalidText)));
}

#[test]
fn sitemap_stops_at_xml_error() {
    let xml = "<urlset><loc>https://x/recipes/a</loc></wrong><loc>https://x/recipes/b</loc></urlset>";
    match parse_sitemap_urls(xml) {
        Ok(urls) => assert_eq!(urls, vec!["https://x/recipes/a".to_string()]),
        Err(_) => panic!("sitemap refused"),
    }
    assert!(parse_sitemap_urls("").unwrap_or_default_vec().is_empty());
}

trait OrEmpty {
    fn unwrap_or_default_vec(self) -> Vec<String>;
}

impl OrEmpty for Result<Vec<String>, SitemapError> {
    fn unwrap_or_default_vec(self) -> Vec<String> {
        match self {
            Ok(v) => v,
            Err(_) => Vec::new(),
        }
    }
}
