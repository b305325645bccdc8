//! Cleaning of scraped recipe pages: HTML tag removal, dropping incomplete
//! image lines, and adding the recipe's image and PDF card links to the
//! recipe's front matter.

use vstd::prelude::*;
use crate::patterns::{
    captures, captures_all, compile, regex_captures, regex_captures_all, regex_compiles,
    regex_replace_all, replace_all, Pattern,
};
use crate::text::{
    chars_of, contains, contains_exec, ends_with, has_prefix, has_suffix, join,
    join_lines, lines, lines_of, starts_with, string_from_chars, sub_chars, trim, trim_end,
    trim_end_len, trimmed, views,
};

verus! {

/// HTML tags: `<`, one or more characters other than `>`, then `>`.
pub const HTML_TAG_PATTERN: &'static str = "<[^>]+>";

/// Recipe image URLs on the HelloFresh image servers; group 1 is the width,
/// group 2 the image file name.
pub const RECIPE_IMAGE_PATTERN: &'static str = "https://(?:img|media)\\.hellofresh\\.com/w_(\\d+)[^/\\s\"]+/recipes/image/([^\"\\s]+\\.(?:jpg|jpeg|png|webp))";

/// The `cardLink` JSON field holding the recipe card PDF; group 1 is the URL.
pub const CARD_LINK_PATTERN: &'static str = "cardLink\"\\s*:\\s*\"(https://[^\"]+\\.pdf)";

/// A pattern that the regex crate refused to compile.
pub struct PatternError {
    pub pattern: &'static str,
}

/// The compiled patterns used to clean recipe pages.
pub struct ScrapePatterns {
    html_tag: Pattern,
    recipe_image: Pattern,
    card_link: Pattern,
}

impl ScrapePatterns {
    #[verifier::type_invariant]
    spec fn holds_patterns(self) -> bool {
        &&& self.html_tag@ == HTML_TAG_PATTERN@
        &&& self.recipe_image@ == RECIPE_IMAGE_PATTERN@
        &&& self.card_link@ == CARD_LINK_PATTERN@
    }

    /// Compiles the three patterns; fails with the first one that the regex
    /// crate refuses.
    pub fn new() -> (res: Result<ScrapePatterns, PatternError>)
        ensures
            res is Ok <==> (regex_compiles(HTML_TAG_PATTERN@) && regex_compiles(
                RECIPE_IMAGE_PATTERN@,
            ) && regex_compiles(CARD_LINK_PATTERN@)),
            res matches Err(e) ==> !regex_compiles(e.pattern@) && (e.pattern == HTML_TAG_PATTERN
                || e.pattern == RECIPE_IMAGE_PATTERN || e.pattern == CARD_LINK_PATTERN),
    {
        let html_tag = match compile(HTML_TAG_PATTERN) {
            Ok(p) => p,
            Err(_) => return Err(PatternError { pattern: HTML_TAG_PATTERN }),
        };
        let recipe_image = match compile(RECIPE_IMAGE_PATTERN) {
            Ok(p) => p,
            Err(_) => return Err(PatternError { pattern: RECIPE_IMAGE_PATTERN }),
        };
        let card_link = match compile(CARD_LINK_PATTERN) {
            Ok(p) => p,
            Err(_) => return Err(PatternError { pattern: CARD_LINK_PATTERN }),
        };
        Ok(ScrapePatterns { html_tag, recipe_image, card_link })
    }
}

// ---------------------------------------------------------------------------
// HTML tag removal and tidying
// ---------------------------------------------------------------------------

/// Non-breaking spaces replaced by spaces.
pub open spec fn replace_nbsp(s: Seq<char>) -> Seq<char> {
    s.map_values(|c: char| if c == '\u{A0}' { ' ' } else { c })
}

/// Every run of three or more newlines shortened to two, as repeatedly
/// replacing `"\n\n\n"` by `"\n\n"` until none is left does.
pub open spec fn collapse_newlines(s: Seq<char>) -> Seq<char>
    decreases s.len(),
{
    if s.len() == 0 {
        s
    } else {
        let p = collapse_newlines(s.drop_last());
        if s.last() == '\n' && p.len() >= 2 && p[p.len() - 1] == '\n' && p[p.len() - 2] == '\n' {
            p
        } else {
            p.push(s.last())
        }
    }
}

/// The text after tag removal: non-breaking spaces made plain, newline
/// runs collapsed, trailing white space removed from every line, lines
/// joined with `"\n"`, and newline runs collapsed once more, so that lines
/// left blank by the trimming collapse too.
pub open spec fn tidy_text(s: Seq<char>) -> Seq<char> {
    collapse_newlines(
        join(lines(collapse_newlines(replace_nbsp(s))).map_values(|l: Seq<char>| trim_end(l)), seq!['\n']),
    )
}

fn replace_nbsp_exec(s: &[char]) -> (res: Vec<char>)
    ensures
        res@ == replace_nbsp(s@),
{
    let mut res: Vec<char> = Vec::new();
    let n = s.len();
    for i in 0..n
        invariant
            n == s@.len(),
            res@ == replace_nbsp(s@).take(i as int),
    {
        let c = if s[i] == '\u{A0}' {
            ' '
        } else {
            s[i]
        };
        res.push(c);
        proof {
            assert(replace_nbsp(s@).take(i + 1) =~= replace_nbsp(s@).take(i as int).push(c));
        }
    }
    proof {
        assert(replace_nbsp(s@).take(n as int) =~= replace_nbsp(s@));
    }
    res
}

fn collapse_newlines_exec(s: &[char]) -> (res: Vec<char>)
    ensures
        res@ == collapse_newlines(s@),
{
    let mut res: Vec<char> = Vec::new();
    let n = s.len();
    proof {
        assert(s@.take(0) =~= Seq::<char>::empty());
    }
    for i in 0..n
        invariant
            n == s@.len(),
            res@ == collapse_newlines(s@.take(i as int)),
    {
        let c = s[i];
        let l = res.len();
        if !(c == '\n' && l >= 2 && res[l - 1] == '\n' && res[l - 2] == '\n') {
            res.push(c);
        }
        proof {
            let t = s@.take(i + 1);
            assert(t.drop_last() =~= s@.take(i as int));
            assert(t.last() == c);
        }
    }
    proof {
        assert(s@.take(n as int) =~= s@);
    }
    res
}

/// Tidies text whose HTML tags were removed: see [`tidy_text`].
pub fn tidy_stripped_text(text: &str) -> (res: String)
    ensures
        res@ == tidy_text(text@),
{
    let chars = chars_of(text);
    let plain = replace_nbsp_exec(chars.as_slice());
    let collapsed = collapse_newlines_exec(plain.as_slice());
    let ls = lines_of(collapsed.as_slice());
    let mut out_lines: Vec<Vec<char>> = Vec::new();
    let n = ls.len();
    for i in 0..n
        invariant
            n == ls@.len(),
            out_lines@.len() == i,
            forall|k: int| 0 <= k < i ==> (#[trigger] out_lines@[k])@ == trim_end(ls@[k]@),
    {
        let e = trim_end_len(ls[i].as_slice());
        out_lines.push(sub_chars(ls[i].as_slice(), 0, e));
    }
    proof {
        assert(views(out_lines@) =~= lines(collapse_newlines(replace_nbsp(text@))).map_values(
            |l: Seq<char>| trim_end(l),
        ));
    }
    let joined = join_lines(&out_lines);
    let tidied = collapse_newlines_exec(joined.as_slice());
    string_from_chars(tidied.as_slice())
}

/// Removes HTML tags and tidies the rest: see [`tidy_text`].
pub fn strip_html_tags(patterns: &ScrapePatterns, content: &str) -> (res: String)
    ensures
        res@ == tidy_text(regex_replace_all(HTML_TAG_PATTERN@, content@, ""@)),
{
    proof {
        use_type_invariant(patterns);
    }
    let removed = replace_all(&patterns.html_tag, content, "");
    tidy_stripped_text(removed.as_str())
}

// ---------------------------------------------------------------------------
// Incomplete image lines
// ---------------------------------------------------------------------------

/// The URL of a line that starts with `image:` once trimmed, trimmed.
pub open spec fn image_url_of(l: Seq<char>) -> Seq<char> {
    trim(trim(l).skip(6))
}

/// A line that starts with `image:` once trimmed and whose URL is empty or
/// ends with `/`, i.e. has no image path.
pub open spec fn is_incomplete_image_line(l: Seq<char>) -> bool {
    starts_with(trim(l), "image:"@) && (image_url_of(l).len() == 0 || ends_with(image_url_of(l), "/"@))
}

/// The lines that are not incomplete image lines, in order.
pub open spec fn kept_lines(ls: Seq<Seq<char>>) -> Seq<Seq<char>>
    decreases ls.len(),
{
    if ls.len() == 0 {
        ls
    } else if is_incomplete_image_line(ls.last()) {
        kept_lines(ls.drop_last())
    } else {
        kept_lines(ls.drop_last()).push(ls.last())
    }
}

fn incomplete_image_line(l: &[char]) -> (b: bool)
    ensures
        b == is_incomplete_image_line(l@),
{
    let t = trimmed(l);
    let prefix = chars_of("image:");
    proof {
        reveal_strlit("image:");
    }
    if has_prefix(t.as_slice(), prefix.as_slice()) {
        let rest = sub_chars(t.as_slice(), 6, t.len());
        proof {
            assert(rest@ =~= t@.skip(6));
        }
        let url = trimmed(rest.as_slice());
        url.len() == 0 || has_suffix(url.as_slice(), chars_of("/").as_slice())
    } else {
        false
    }
}

/// Drops `image:` lines whose URL is empty or has no image path, joining
/// the remaining lines with `"\n"`.
pub fn clean_recipe_content(content: &str) -> (res: String)
    ensures
        res@ == join(kept_lines(lines(content@)), seq!['\n']),
{
    let chars = chars_of(content);
    let ls = lines_of(chars.as_slice());
    let mut kept: Vec<Vec<char>> = Vec::new();
    let n = ls.len();
    proof {
        assert(views(ls@).take(0) =~= Seq::<Seq<char>>::empty());
        assert(views(kept@) =~= Seq::<Seq<char>>::empty());
    }
    for i in 0..n
        invariant
            n == ls@.len(),
            views(ls@) == lines(content@),
            views(kept@) == kept_lines(views(ls@).take(i as int)),
    {
        let ghost before = kept@;
        if !incomplete_image_line(ls[i].as_slice()) {
            kept.push(vstd::slice::slice_to_vec(ls[i].as_slice()));
            proof {
                assert(views(kept@) =~= views(before).push(ls@[i as int]@));
            }
        }
        proof {
            let t = views(ls@).take(i + 1);
            assert(t.drop_last() =~= views(ls@).take(i as int));
            assert(t.last() == ls@[i as int]@);
        }
    }
    proof {
        assert(views(ls@).take(n as int) =~= views(ls@));
    }
    let joined = join_lines(&kept);
    string_from_chars(joined.as_slice())
}

// ---------------------------------------------------------------------------
// Adding the image and PDF lines
// ---------------------------------------------------------------------------

/// `i` is the first line that starts with `p`.
pub open spec fn is_first_prefixed(ls: Seq<Seq<char>>, p: Seq<char>, i: int) -> bool {
    &&& 0 <= i < ls.len()
    &&& starts_with(ls[i], p)
    &&& forall|j: int| 0 <= j < i ==> !starts_with(#[trigger] ls[j], p)
}

/// Index of the first line that starts with `p`.
pub open spec fn first_prefixed(ls: Seq<Seq<char>>, p: Seq<char>) -> Option<int> {
    if exists|i: int| is_first_prefixed(ls, p, i) {
        Some(choose|i: int| is_first_prefixed(ls, p, i))
    } else {
        None
    }
}

/// Some line is an `image:` line whose trimmed text does not end with `/`.
pub open spec fn has_valid_image_line(ls: Seq<Seq<char>>) -> bool {
    exists|i: int|
        0 <= i < ls.len() && starts_with(#[trigger] ls[i], "image:"@) && !ends_with(
            trim(ls[i]),
            "/"@,
        )
}

/// `content` with `line` inserted after line `pos - 1`, lines joined with `"\n"`.
pub open spec fn with_line_at(content: Seq<char>, pos: int, line: Seq<char>) -> Seq<char> {
    join(lines(content).insert(pos, line), seq!['\n'])
}

/// The content after adding an image URL: unchanged when it already has a
/// valid image line or has no `title:` line; otherwise an `image: {url}`
/// line follows the first `title:` line.
pub open spec fn image_added(content: Seq<char>, url: Seq<char>) -> Seq<char> {
    let ls = lines(content);
    if has_valid_image_line(ls) {
        content
    } else {
        match first_prefixed(ls, "title:"@) {
            Some(i) => with_line_at(content, i + 1, "image: "@ + url),
            None => content,
        }
    }
}

/// The content after adding a PDF URL: a `pdf: {url}` line follows the
/// first `image:` line, or the first `title:` line when there is no image
/// line; unchanged when there is neither.
pub open spec fn pdf_added(content: Seq<char>, url: Seq<char>) -> Seq<char> {
    let ls = lines(content);
    match first_prefixed(ls, "image:"@) {
        Some(i) => with_line_at(content, i + 1, "pdf: "@ + url),
        None => match first_prefixed(ls, "title:"@) {
            Some(i) => with_line_at(content, i + 1, "pdf: "@ + url),
            None => content,
        },
    }
}

/// Index of the first line starting with `p`.
fn find_prefixed(ls: &Vec<Vec<char>>, p: &[char]) -> (res: Option<usize>)
    ensures
        res matches Some(i) ==> i < ls@.len(),
        res matches Some(i) ==> is_first_prefixed(views(ls@), p@, i as int),
        res is None ==> forall|j: int| 0 <= j < ls@.len() ==> !starts_with(#[trigger] views(ls@)[j], p@),
        first_prefixed(views(ls@), p@) == (match res {
            Some(i) => Some(i as int),
            None => None,
        }),
{
    let n = ls.len();
    for i in 0..n
        invariant
            n == ls@.len(),
            forall|j: int| 0 <= j < i ==> !starts_with(#[trigger] views(ls@)[j], p@),
    {
        if has_prefix(ls[i].as_slice(), p) {
            proof {
                assert(views(ls@)[i as int] == ls@[i as int]@);
                assert(is_first_prefixed(views(ls@), p@, i as int));
                assert forall|k: int| #[trigger] is_first_prefixed(views(ls@), p@, k) implies k == i by {
                    if k < i {
                    } else if k > i {
                        assert(starts_with(views(ls@)[i as int], p@));
                    }
                }
            }
            return Some(i);
        }
        proof {
            assert(views(ls@)[i as int] == ls@[i as int]@);
        }
    }
    None
}

fn line_with_url(label: &str, url: &str) -> (res: Vec<char>)
    ensures
        res@ == label@ + url@,
{
    let mut res = chars_of(label);
    let u = chars_of(url);
    res.extend_from_slice(u.as_slice());
    proof {
        assert(res@ =~= label@ + url@);
    }
    res
}

/// Adds an `image: {url}` line after the first `title:` line, unless the
/// content already has a valid image line: see [`image_added`].
pub fn add_image_to_content(content: &str, image_url: &str) -> (res: String)
    ensures
        res@ == image_added(content@, image_url@),
{
    let chars = chars_of(content);
    let mut ls = lines_of(chars.as_slice());
    let image = chars_of("image:");
    let slash = chars_of("/");
    let n = ls.len();
    for i in 0..n
        invariant
            n == ls@.len(),
            views(ls@) == lines(content@),
            image@ == "image:"@,
            slash@ == "/"@,
            forall|j: int|
                0 <= j < i ==> !(starts_with(#[trigger] views(ls@)[j], "image:"@) && !ends_with(
                    trim(views(ls@)[j]),
                    "/"@,
                )),
    {
        let line = &ls[i];
        if has_prefix(line.as_slice(), image.as_slice()) && !has_suffix(
            trimmed(line.as_slice()).as_slice(),
            slash.as_slice(),
        ) {
            proof {
                assert(views(ls@)[i as int] == ls@[i as int]@);
                assert(starts_with(lines(content@)[i as int], "image:"@));
                assert(has_valid_image_line(lines(content@)));
            }
            return String::from_str(content);
        }
        proof {
            assert(views(ls@)[i as int] == ls@[i as int]@);
        }
    }
    proof {
        assert(views(ls@) == lines(content@));
        assert(!has_valid_image_line(lines(content@)));
    }
    match find_prefixed(&ls, chars_of("title:").as_slice()) {
        Some(pos) => {
            let ghost before = ls@;
            let line = line_with_url("image: ", image_url);
            ls.insert(pos + 1, line);
            proof {
                assert(views(ls@) =~= views(before).insert(pos + 1, "image: "@ + image_url@));
            }
            let joined = join_lines(&ls);
            string_from_chars(joined.as_slice())
        },
        None => String::from_str(content),
    }
}

/// Adds a `pdf: {url}` line after the first `image:` line, or after the
/// first `title:` line when there is no image line: see [`pdf_added`].
pub fn add_pdf_to_content(content: &str, pdf_url: &str) -> (res: String)
    ensures
        res@ == pdf_added(content@, pdf_url@),
{
    let chars = chars_of(content);
    let mut ls = lines_of(chars.as_slice());
    let n = ls.len();
    let first_image = find_prefixed(&ls, chars_of("image:").as_slice());
    let first_title = find_prefixed(&ls, chars_of("title:").as_slice());
    let pos: Option<usize> = match first_image {
        Some(i) => {
            assert(i < n);
            Some(i + 1)
        },
        None => match first_title {
            Some(i) => {
                assert(i < n);
                Some(i + 1)
            },
            None => None,
        },
    };
    match pos {
        Some(p) => {
            let ghost before = ls@;
            let line = line_with_url("pdf: ", pdf_url);
            ls.insert(p, line);
            proof {
                assert(views(ls@) =~= views(before).insert(p as int, "pdf: "@ + pdf_url@));
            }
            let joined = join_lines(&ls);
            string_from_chars(joined.as_slice())
        },
        None => String::from_str(content),
    }
}

// ---------------------------------------------------------------------------
// Links found in the recipe page
// ---------------------------------------------------------------------------

/// Group 1 of the first match, if the pattern matched and the group took part.
pub open spec fn first_group_one(caps: Option<Seq<Option<Seq<char>>>>) -> Option<Seq<char>> {
    match caps {
        Some(g) => if g.len() > 1 {
            g[1]
        } else {
            None
        },
        None => None,
    }
}

/// Extracts the PDF card link (the `cardLink` field's URL) from page HTML.
pub fn extract_pdf_link(patterns: &ScrapePatterns, html: &str) -> (res: Option<String>)
    ensures
        res.deep_view() == first_group_one(regex_captures(CARD_LINK_PATTERN@, html@)),
{
    proof {
        use_type_invariant(patterns);
    }
    match captures(&patterns.card_link, html) {
        Some(groups) => {
            if groups.len() > 1 {
                match &groups[1] {
                    Some(url) => Some(url.clone()),
                    None => None,
                }
            } else {
                None
            }
        },
        None => None,
    }
}

pub open spec fn is_ascii_digit(c: char) -> bool {
    48 <= (c as int) <= 57
}

pub open spec fn all_ascii_digits(d: Seq<char>) -> bool {
    forall|i: int| 0 <= i < d.len() ==> is_ascii_digit(#[trigger] d[i])
}

/// Value of a string of decimal digits.
pub open spec fn digits_value(s: Seq<char>) -> nat
    decreases s.len(),
{
    if s.len() == 0 {
        0
    } else {
        (digits_value(s.drop_last()) * 10 + ((s.last() as int) - 48)) as nat
    }
}

/// What `u32::from_str` gives: an optional `+`, then one or more ASCII
/// digits whose value fits in a `u32`.
pub open spec fn parsed_u32(s: Seq<char>) -> Option<u32> {
    let d = if s.len() > 1 && s[0] == '+' {
        s.skip(1)
    } else {
        s
    };
    if d.len() > 0 && all_ascii_digits(d) && digits_value(d) <= u32::MAX {
        Some(digits_value(d) as u32)
    } else {
        None
    }
}

proof fn lemma_digits_value_grows(s: Seq<char>)
    requires
        s.len() > 0,
        is_ascii_digit(s.last()),
    ensures
        digits_value(s) >= digits_value(s.drop_last()),
{
}

/// Parses a decimal `u32` as `u32::from_str` does.
pub fn parse_u32(text: &str) -> (res: Option<u32>)
    ensures
        res == parsed_u32(text@),
{
    let s = chars_of(text);
    let start: usize = if s.len() > 1 && s[0] == '+' {
        1
    } else {
        0
    };
    let d = sub_chars(s.as_slice(), start, s.len());
    proof {
        assert(d@ =~= (if s@.len() > 1 && s@[0] == '+' {
            s@.skip(1)
        } else {
            s@
        }));
    }
    if d.len() == 0 {
        return None;
    }
    let mut acc: u64 = 0;
    let mut too_big = false;
    let n = d.len();
    proof {
        assert(d@.take(0) =~= Seq::<char>::empty());
    }
    for i in 0..n
        invariant
            n == d@.len(),
            d@ == (if text@.len() > 1 && text@[0] == '+' {
                text@.skip(1)
            } else {
                text@
            }),
            forall|k: int| 0 <= k < i ==> is_ascii_digit(#[trigger] d@[k]),
            too_big ==> digits_value(d@.take(i as int)) > u32::MAX,
            !too_big ==> acc == digits_value(d@.take(i as int)) && acc <= u32::MAX,
    {
        let c = d[i];
        if !('0' <= c && c <= '9') {
            proof {
                assert(!is_ascii_digit(d@[i as int]));
                assert(!all_ascii_digits(d@));
            }
            return None;
        }
        proof {
            let t = d@.take(i + 1);
            assert(t.drop_last() =~= d@.take(i as int));
            assert(t.last() == c);
            lemma_digits_value_grows(t);
        }
        if !too_big {
            let digit = (c as u32 - 48) as u64;
            acc = acc * 10 + digit;
            if acc > 4294967295 {
                too_big = true;
            }
        }
    }
    proof {
        assert(d@.take(n as int) =~= d@);
    }
    if too_big {
        None
    } else {
        Some(acc as u32)
    }
}

/// A recipe image found in the page: its width, full URL and file name.
pub struct ImageCandidate {
    pub width: u32,
    pub url: String,
    pub file: String,
}

pub open spec fn candidate_view(c: ImageCandidate) -> (u32, Seq<char>, Seq<char>) {
    (c.width, c.url@, c.file@)
}

/// The image matches whose width parses: width, full match, file name.
pub open spec fn image_candidates(caps: Seq<Seq<Option<Seq<char>>>>) -> Seq<(u32, Seq<char>, Seq<char>)>
    decreases caps.len(),
{
    if caps.len() == 0 {
        Seq::empty()
    } else {
        let rest = image_candidates(caps.drop_last());
        let c = caps.last();
        if c.len() > 2 && c[1] is Some && c[2] is Some && parsed_u32(c[1]->Some_0) is Some {
            rest.push((parsed_u32(c[1]->Some_0)->Some_0, c[0]->Some_0, c[2]->Some_0))
        } else {
            rest
        }
    }
}

/// A main recipe image: its file name contains `_Main`, `_MAIN` or `_main`.
pub open spec fn is_main_image(file: Seq<char>) -> bool {
    contains(file, "_Main"@) || contains(file, "_MAIN"@) || contains(file, "_main"@)
}

pub open spec fn main_images(cs: Seq<(u32, Seq<char>, Seq<char>)>) -> Seq<(u32, Seq<char>, Seq<char>)>
    decreases cs.len(),
{
    if cs.len() == 0 {
        cs
    } else if is_main_image(cs.last().2) {
        main_images(cs.drop_last()).push(cs.last())
    } else {
        main_images(cs.drop_last())
    }
}

/// Distance of a width from 1200 pixels, the width read as an `i32`.
pub open spec fn width_distance(w: u32) -> int {
    let v = (w as i32) as int;
    if v >= 1200 {
        v - 1200
    } else {
        1200 - v
    }
}

/// The first candidate whose width is closest to 1200.
pub open spec fn closest_image(cs: Seq<(u32, Seq<char>, Seq<char>)>) -> Option<(u32, Seq<char>, Seq<char>)>
    decreases cs.len(),
{
    if cs.len() == 0 {
        None
    } else {
        match closest_image(cs.drop_last()) {
            Some(b) => if width_distance(cs.last().0) < width_distance(b.0) {
                Some(cs.last())
            } else {
                Some(b)
            },
            None => Some(cs.last()),
        }
    }
}

/// The candidates the recipe image is chosen among: the main images if
/// there are any, else all candidates.
pub open spec fn image_targets(caps: Seq<Seq<Option<Seq<char>>>>) -> Seq<(u32, Seq<char>, Seq<char>)> {
    let cs = image_candidates(caps);
    if main_images(cs).len() > 0 {
        main_images(cs)
    } else {
        cs
    }
}

/// The recipe image chosen from the image matches: among the main images
/// if there are any, else among all, the first whose width is closest to
/// 1200 pixels.
pub open spec fn chosen_image(caps: Seq<Seq<Option<Seq<char>>>>) -> Option<Seq<char>> {
    match closest_image(image_targets(caps)) {
        Some(c) => Some(c.1),
        None => None,
    }
}

fn distance(w: u32) -> (d: i64)
    ensures
        d == width_distance(w),
{
    #[verifier::truncate]
    let v = (w as i32) as i64;
    if v >= 1200 {
        v - 1200
    } else {
        1200 - v
    }
}

fn closest(cs: &Vec<ImageCandidate>) -> (res: Option<String>)
    ensures
        res.deep_view() == (match closest_image(cs@.map_values(|c: ImageCandidate| candidate_view(c))) {
            Some(c) => Some(c.1),
            None => None,
        }),
{
    let ghost vs = cs@.map_values(|c: ImageCandidate| candidate_view(c));
    let mut best: Option<usize> = None;
    let n = cs.len();
    proof {
        assert(vs.take(0) =~= Seq::<(u32, Seq<char>, Seq<char>)>::empty());
    }
    for i in 0..n
        invariant
            n == cs@.len(),
            vs == cs@.map_values(|c: ImageCandidate| candidate_view(c)),
            best matches Some(b) ==> b < i,
            closest_image(vs.take(i as int)) == (match best {
                Some(b) => Some(vs[b as int]),
                None => None,
            }),
    {
        let replace = match best {
            Some(b) => distance(cs[i].width) < distance(cs[b].width),
            None => true,
        };
        if replace {
            best = Some(i);
        }
        proof {
            let t = vs.take(i + 1);
            assert(t.drop_last() =~= vs.take(i as int));
            assert(t.last() == vs[i as int]);
        }
    }
    proof {
        assert(vs.take(n as int) =~= vs);
    }
    match best {
        Some(b) => Some(cs[b].url.clone()),
        None => None,
    }
}

/// Chooses the recipe image from the groups of each image match (group 0
/// the whole match, group 1 the width, group 2 the file name): see
/// [`chosen_image`].
pub fn pick_recipe_image(caps: &Vec<Vec<Option<String>>>) -> (res: Option<String>)
    requires
        forall|k: int| 0 <= k < caps@.len() ==> (#[trigger] caps@[k])@.len() >= 1 && caps@[k]@[0] is Some,
    ensures
        res.deep_view() == chosen_image(caps.deep_view()),
{
    let ghost cv = caps.deep_view();
    let mut images: Vec<ImageCandidate> = Vec::new();
    let mut mains: Vec<ImageCandidate> = Vec::new();
    let n = caps.len();
    proof {
        assert(cv.take(0) =~= Seq::<Seq<Option<Seq<char>>>>::empty());
        assert(images@.map_values(|c: ImageCandidate| candidate_view(c)) =~= Seq::<(u32, Seq<char>, Seq<char>)>::empty());
        assert(mains@.map_values(|c: ImageCandidate| candidate_view(c)) =~= Seq::<(u32, Seq<char>, Seq<char>)>::empty());
    }
    for i in 0..n
        invariant
            n == caps@.len(),
            cv == caps.deep_view(),
            forall|k: int| 0 <= k < caps@.len() ==> (#[trigger] caps@[k])@.len() >= 1 && caps@[k]@[0] is Some,
            images@.map_values(|c: ImageCandidate| candidate_view(c)) == image_candidates(cv.take(i as int)),
            mains@.map_values(|c: ImageCandidate| candidate_view(c)) == main_images(image_candidates(cv.take(i as int))),
    {
        let ghost t = cv.take(i + 1);
        proof {
            assert(t.drop_last() =~= cv.take(i as int));
            assert(t.last() == cv[i as int]);
            assert(cv[i as int] == caps@[i as int].deep_view());
        }
        let groups = &caps[i];
        if groups.len() > 2 {
            if let (Some(width_text), Some(file)) = (&groups[1], &groups[2]) {
                if let Some(width) = parse_u32(width_text.as_str()) {
                    let url = match &groups[0] {
                        Some(u) => u.clone(),
                        None => String::new(),
                    };
                    let ghost cand = (width, url@, file@);
                    let ghost old_images = images@;
                    let ghost old_mains = mains@;
                    let main = contains_exec(chars_of(file.as_str()).as_slice(), chars_of("_Main").as_slice())
                        || contains_exec(chars_of(file.as_str()).as_slice(), chars_of("_MAIN").as_slice())
                        || contains_exec(chars_of(file.as_str()).as_slice(), chars_of("_main").as_slice());
                    if main {
                        mains.push(ImageCandidate { width, url: url.clone(), file: file.clone() });
                    }
                    images.push(ImageCandidate { width, url, file: file.clone() });
                    proof {
                        assert(is_main_image(file@) == main);
                        assert(t.last()[2] == Some(file@));
                        assert(image_candidates(t) == image_candidates(cv.take(i as int)).push(cand));
                        let ic = image_candidates(cv.take(i as int));
                        assert(ic.push(cand).drop_last() =~= ic);
                        assert(ic.push(cand).last() == cand);
                        assert(main_images(image_candidates(t)) == (if main {
                            main_images(image_candidates(cv.take(i as int))).push(cand)
                        } else {
                            main_images(image_candidates(cv.take(i as int)))
                        }));
                        assert(images@.map_values(|c: ImageCandidate| candidate_view(c)) =~= old_images.map_values(|c: ImageCandidate| candidate_view(c)).push(cand));
                        if main {
                            assert(mains@.map_values(|c: ImageCandidate| candidate_view(c)) =~= old_mains.map_values(|c: ImageCandidate| candidate_view(c)).push(cand));
                        }
                    }
                }
            }
        }
    }
    proof {
        assert(cv.take(n as int) =~= cv);
    }
    if mains.len() > 0 {
        closest(&mains)
    } else {
        closest(&images)
    }
}

/// Extracts the main recipe image URL from page HTML: see [`chosen_image`].
pub fn extract_image_from_html(patterns: &ScrapePatterns, html: &str) -> (res: Option<String>)
    ensures
        res.deep_view() == chosen_image(regex_captures_all(RECIPE_IMAGE_PATTERN@, html@)),
{
    proof {
        use_type_invariant(patterns);
    }
    let caps = captures_all(&patterns.recipe_image, html);
    pick_recipe_image(&caps)
}

/// Why scraped recipe content was refused.
pub enum RecipeContentError {
    /// The content is empty or only white space.
    EmptyContent,
}

/// The content cleaned for saving: tags removed and tidied, incomplete
/// image lines dropped, the page's image added when there is one, then the
/// PDF card link added.
pub open spec fn prepared_content(raw: Seq<char>, image_url: Option<Seq<char>>, pdf_url: Seq<char>) -> Seq<char> {
    let stripped = tidy_text(regex_replace_all(HTML_TAG_PATTERN@, raw, ""@));
    let cleaned = join(kept_lines(lines(stripped)), seq!['\n']);
    let with_image = match image_url {
        Some(u) => image_added(cleaned, u),
        None => cleaned,
    };
    pdf_added(with_image, pdf_url)
}

/// Prepares downloaded recipe content for saving: refused when it is only
/// white space, else see [`prepared_content`].
pub fn prepare_recipe_content(
    patterns: &ScrapePatterns,
    raw: &str,
    image_url: &Option<String>,
    pdf_url: &str,
) -> (res: Result<String, RecipeContentError>)
    ensures
        res is Err <==> trim(raw@).len() == 0,
        res matches Ok(s) ==> s@ == prepared_content(raw@, image_url.deep_view(), pdf_url@),
{
    let chars = chars_of(raw);
    if trimmed(chars.as_slice()).len() == 0 {
        return Err(RecipeContentError::EmptyContent);
    }
    let stripped = strip_html_tags(patterns, raw);
    let cleaned = clean_recipe_content(stripped.as_str());
    let with_image = match image_url {
        Some(u) => add_image_to_content(cleaned.as_str(), u.as_str()),
        None => cleaned,
    };
    Ok(add_pdf_to_content(with_image.as_str(), pdf_url))
}

// ---------------------------------------------------------------------------
// Laws
// ---------------------------------------------------------------------------

/// Collapsing blank-line runs leaves no three newlines in a row.
pub proof fn lemma_collapsed_text_has_no_blank_line_runs(s: Seq<char>)
    ensures
        !contains(collapse_newlines(s), "\n\n\n"@),
    decreases s.len(),
{
    reveal_strlit("\n\n\n");
    let nnn = "\n\n\n"@;
    if s.len() > 0 {
        let p = collapse_newlines(s.drop_last());
        lemma_collapsed_text_has_no_blank_line_runs(s.drop_last());
        let r = collapse_newlines(s);
        assert forall|i: int| !crate::text::occurs_at(r, nnn, i) by {
            if crate::text::occurs_at(r, nnn, i) {
                if r != p {
                    assert(r == p.push(s.last()));
                    if i + 3 <= p.len() {
                        assert(r.subrange(i, i + 3) =~= p.subrange(i, i + 3));
                        assert(crate::text::occurs_at(p, nnn, i));
                    } else {
                        assert(r.subrange(i, i + 3)[2] == r[i + 2]);
                        assert(r.subrange(i, i + 3)[1] == r[i + 1]);
                        assert(r.subrange(i, i + 3)[0] == r[i]);
                    }
                } else {
                    assert(crate::text::occurs_at(p, nnn, i));
                }
            }
        }
    }
}

/// Tidied text holds no three newlines in a row: runs of blank lines,
/// including lines left blank by the trimming, become one blank line.
pub proof fn lemma_tidy_text_has_no_blank_line_runs(s: Seq<char>)
    ensures
        !contains(tidy_text(s), "\n\n\n"@),
{
    lemma_collapsed_text_has_no_blank_line_runs(
        join(lines(collapse_newlines(replace_nbsp(s))).map_values(|l: Seq<char>| trim_end(l)), seq!['\n']),
    );
}

/// No kept line is an incomplete image line, and no line is added.
pub proof fn lemma_kept_lines_have_no_incomplete_image(ls: Seq<Seq<char>>)
    ensures
        kept_lines(ls).len() <= ls.len(),
        forall|i: int| 0 <= i < kept_lines(ls).len() ==> !is_incomplete_image_line(#[trigger] kept_lines(ls)[i]),
    decreases ls.len(),
{
    if ls.len() > 0 {
        lemma_kept_lines_have_no_incomplete_image(ls.drop_last());
    }
}

/// Content that already has a valid image line is left as it is.
pub proof fn lemma_image_not_added_twice(content: Seq<char>, url: Seq<char>)
    requires
        has_valid_image_line(lines(content)),
    ensures
        image_added(content, url) == content,
{
}

/// The distance of a width from 1200 pixels is never negative, and for
/// every width that fits an `i32` it is `|width - 1200|`.
pub proof fn lemma_width_distance_from_1200(w: u32)
    ensures
        width_distance(w) >= 0,
        w <= 2147483647 ==> width_distance(w) == (if w >= 1200 {
            w - 1200
        } else {
            1200 - w
        }),
{
    if w <= 2147483647 {
        assert((w as i32) as int == w as int) by (bit_vector)
            requires
                w <= 0x7fff_ffffu32,
        ;
    }
}

/// Of a non-empty list of candidates the closest image is one of them;
/// of an empty list there is none.
pub proof fn lemma_closest_image_is_a_candidate(cs: Seq<(u32, Seq<char>, Seq<char>)>)
    ensures
        cs.len() == 0 ==> closest_image(cs) is None,
        cs.len() > 0 ==> (closest_image(cs) matches Some(c) && exists|k: int| 0 <= k < cs.len() && cs[k] == c),
    decreases cs.len(),
{
    if cs.len() > 0 {
        let prev = cs.drop_last();
        lemma_closest_image_is_a_candidate(prev);
        if let Some(b) = closest_image(prev) {
            let k = choose|k: int| 0 <= k < prev.len() && prev[k] == b;
            assert(cs[k] == prev[k]);
        }
        assert(cs[cs.len() - 1] == cs.last());
    }
}

/// The closest image is at least as near to 1200 pixels as every
/// candidate, and no candidate before it is as near: a candidate as near
/// as the chosen one is the chosen one or comes after it.
pub proof fn lemma_closest_image_is_first_nearest(cs: Seq<(u32, Seq<char>, Seq<char>)>, j: int)
    requires
        0 <= j < cs.len(),
    ensures
        closest_image(cs) matches Some(c) && width_distance(c.0) <= width_distance(cs[j].0) && (width_distance(
            cs[j].0,
        ) == width_distance(c.0) ==> exists|k: int| 0 <= k <= j && cs[k] == c),
    decreases cs.len(),
{
    let prev = cs.drop_last();
    let last = cs.len() - 1;
    lemma_closest_image_is_a_candidate(prev);
    assert(cs[last] == cs.last());
    if j < last {
        lemma_closest_image_is_first_nearest(prev, j);
        assert(cs[j] == prev[j]);
        if let Some(b) = closest_image(prev) {
            if width_distance(b.0) == width_distance(prev[j].0) {
                let k = choose|k: int| 0 <= k <= j && prev[k] == b;
                assert(cs[k] == prev[k]);
            }
        }
    } else if let Some(b) = closest_image(prev) {
        let k = choose|k: int| 0 <= k < prev.len() && prev[k] == b;
        assert(cs[k] == prev[k]);
    }
}

/// The image chosen from a page is a candidate (a main image when there is
/// one) at least as near to 1200 pixels as every other such candidate.
pub proof fn lemma_chosen_image_is_nearest(caps: Seq<Seq<Option<Seq<char>>>>, j: int)
    requires
        0 <= j < image_targets(caps).len(),
    ensures
        chosen_image(caps) matches Some(u) && exists|k: int|
            0 <= k < image_targets(caps).len() && (#[trigger] image_targets(caps)[k]).1 == u && width_distance(
                image_targets(caps)[k].0,
            ) <= width_distance(image_targets(caps)[j].0),
{
    let targets = image_targets(caps);
    lemma_closest_image_is_first_nearest(targets, j);
    lemma_closest_image_is_a_candidate(targets);
    let c = closest_image(targets)->Some_0;
    let k = choose|k: int| 0 <= k < targets.len() && targets[k] == c;
    assert(targets[k].1 == c.1);
}

/// Replacing non-breaking spaces keeps the length and every position:
/// each non-breaking space becomes a space, every other character stays.
pub proof fn lemma_replace_nbsp_positions(s: Seq<char>)
    ensures
        replace_nbsp(s).len() == s.len(),
        forall|i: int|
            0 <= i < s.len() ==> #[trigger] replace_nbsp(s)[i] == (if s[i] == '\u{A0}' {
                ' '
            } else {
                s[i]
            }),
{
}

} // verus!
