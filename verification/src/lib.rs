//! Verified core of a Cooklang recipe dataset toolkit: cleaning scraped recipe
//! pages, pairing recipe files, and rendering parsed Cooklang recipes.

pub mod text;
pub mod recipe_model;
pub mod markdown_renderer;
pub mod cooklang_parser;
pub mod recipe_scanner;
pub mod patterns;
pub mod recipe_content;
pub mod scraper;
pub mod sitemap;
pub mod validator;
