# cook_dataset

Tools around a Cooklang fine-tuning dataset built from HelloFresh recipe
pages: a scraper that downloads and cleans recipes, and a web app that shows
each `.recipe` source next to its Cooklang conversion.

## Layout

- `src/` — the verified library (Verus):
  - `text.rs` — character-level text model: lines, trimming, searching, ordering.
  - `scraper.rs` — country table, recipe file names, URL limits, download tally.
  - `sitemap.rs` — recipe URLs from a sitemap, read with `quick-xml`.
  - `patterns.rs` — regular expressions compiled and matched by `regex`.
  - `recipe_content.rs` — tag removal and tidying, image/PDF lines, image choice.
  - `recipe_model.rs` — plain model of a parsed Cooklang recipe.
  - `markdown_renderer.rs` — markdown and plain-text renderings of a recipe.
  - `cooklang_parser.rs` — recipe summaries and renderings of a parse outcome.
  - `recipe_scanner.rs` — pairing of `.recipe`, `.cook` and `.metadata` files.
  - `validator.rs` — front matter removal and navigation after a removal.
- `tests/` — tests of the library.
- `app/` — the programs: `scrape` (HTTP, `cooklang-import`, files) and
  `serve` (the Actix web app, directory walk, Cooklang parsing and scaling).
