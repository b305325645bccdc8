//! Decisions of the HelloFresh scraper: the country table, sitemap reading,
//! recipe file names, and the per-country tally.

use vstd::prelude::*;
use crate::text::{chars_of, contains, ends_with, find_from, first_from, is_first_from, lemma_first_occurrence_exists, same_chars, string_from_chars, strs, sub_chars};

verus! {

/// A HelloFresh country site.
#[derive(Clone, Copy, Debug)]
pub struct Country {
    pub code: &'static str,
    pub domain: &'static str,
    pub name: &'static str,
}

impl Country {
    pub fn new(code: &'static str, domain: &'static str, name: &'static str) -> (c: Self)
        ensures
            c.code == code,
            c.domain == domain,
            c.name == name,
    {
        Country { code, domain, name }
    }

    /// The recipe sitemap of the country's site.
    pub fn sitemap_url(&self) -> (url: String)
        ensures
            url@ == "https://www.hellofresh."@ + self.domain@ + "/sitemap_recipe_pages.xml"@,
    {
        let mut url = String::from_str("https://www.hellofresh.");
        url.append(self.domain);
        url.append("/sitemap_recipe_pages.xml");
        url
    }
}

pub open spec fn country_view(c: Country) -> (Seq<char>, Seq<char>, Seq<char>) {
    (c.code@, c.domain@, c.name@)
}

/// Code, domain suffix and name of every HelloFresh country.
pub open spec fn country_table() -> Seq<(Seq<char>, Seq<char>, Seq<char>)> {
    seq![
        ("at"@, "at"@, "Austria"@),
        ("au"@, "com.au"@, "Australia"@),
        ("be"@, "be"@, "Belgium"@),
        ("ca"@, "ca"@, "Canada"@),
        ("ch"@, "ch"@, "Switzerland"@),
        ("de"@, "de"@, "Germany"@),
        ("dk"@, "dk"@, "Denmark"@),
        ("es"@, "es"@, "Spain"@),
        ("fr"@, "fr"@, "France"@),
        ("gb"@, "co.uk"@, "United Kingdom"@),
        ("ie"@, "ie"@, "Ireland"@),
        ("it"@, "it"@, "Italy"@),
        ("lu"@, "lu"@, "Luxembourg"@),
        ("nl"@, "nl"@, "Netherlands"@),
        ("no"@, "no"@, "Norway"@),
        ("nz"@, "co.nz"@, "New Zealand"@),
        ("se"@, "se"@, "Sweden"@),
        ("us"@, "com"@, "United States"@),
    ]
}

/// All HelloFresh countries, in the order of [`country_table`].
pub fn get_countries() -> (countries: Vec<Country>)
    ensures
        countries@.map_values(|c: Country| country_view(c)) == country_table(),
{
    let mut countries: Vec<Country> = Vec::new();
    countries.push(Country::new("at", "at", "Austria"));
    countries.push(Country::new("au", "com.au", "Australia"));
    countries.push(Country::new("be", "be", "Belgium"));
    countries.push(Country::new("ca", "ca", "Canada"));
    countries.push(Country::new("ch", "ch", "Switzerland"));
    countries.push(Country::new("de", "de", "Germany"));
    countries.push(Country::new("dk", "dk", "Denmark"));
    countries.push(Country::new("es", "es", "Spain"));
    countries.push(Country::new("fr", "fr", "France"));
    countries.push(Country::new("gb", "co.uk", "United Kingdom"));
    countries.push(Country::new("ie", "ie", "Ireland"));
    countries.push(Country::new("it", "it", "Italy"));
    countries.push(Country::new("lu", "lu", "Luxembourg"));
    countries.push(Country::new("nl", "nl", "Netherlands"));
    countries.push(Country::new("no", "no", "Norway"));
    countries.push(Country::new("nz", "co.nz", "New Zealand"));
    countries.push(Country::new("se", "se", "Sweden"));
    countries.push(Country::new("us", "com", "United States"));
    proof {
        assert(countries@.map_values(|c: Country| country_view(c)) =~= country_table());
    }
    countries
}

/// The first country of `cs` with this code.
pub open spec fn lookup(cs: Seq<Country>, code: Seq<char>) -> Option<Country>
    decreases cs.len(),
{
    if cs.len() == 0 {
        None
    } else if cs[0].code@ == code {
        Some(cs[0])
    } else {
        lookup(cs.drop_first(), code)
    }
}

/// Finds the country with the given code.
pub fn find_country(countries: &Vec<Country>, code: &str) -> (res: Option<Country>)
    ensures
        res == lookup(countries@, code@),
{
    let wanted = chars_of(code);
    let n = countries.len();
    proof {
        assert(countries@.skip(0) =~= countries@);
    }
    for i in 0..n
        invariant
            n == countries@.len(),
            wanted@ == code@,
            lookup(countries@, code@) == lookup(countries@.skip(i as int), code@),
    {
        proof {
            assert(countries@.skip(i as int)[0] == countries@[i as int]);
            assert(countries@.skip(i as int).drop_first() =~= countries@.skip(i + 1));
        }
        let c = countries[i];
        if same_chars(chars_of(c.code).as_slice(), wanted.as_slice()) {
            return Some(c);
        }
    }
    proof {
        assert(countries@.skip(n as int) =~= Seq::<Country>::empty());
    }
    None
}

/// The countries named by `codes`, in order; the first unknown code when
/// there is one.
pub open spec fn selection(cs: Seq<Country>, codes: Seq<Seq<char>>) -> Result<Seq<Country>, Seq<char>>
    decreases codes.len(),
{
    if codes.len() == 0 {
        Ok(Seq::empty())
    } else {
        match selection(cs, codes.drop_last()) {
            Err(e) => Err(e),
            Ok(v) => match lookup(cs, codes.last()) {
                Some(c) => Ok(v.push(c)),
                None => Err(codes.last()),
            },
        }
    }
}

proof fn lemma_selection_error_persists(cs: Seq<Country>, codes: Seq<Seq<char>>, i: int, e: Seq<char>)
    requires
        0 <= i <= codes.len(),
        selection(cs, codes.take(i)) == Err::<Seq<Country>, Seq<char>>(e),
    ensures
        selection(cs, codes) == Err::<Seq<Country>, Seq<char>>(e),
    decreases codes.len() - i,
{
    if i < codes.len() {
        assert(codes.take(i + 1).drop_last() =~= codes.take(i));
        lemma_selection_error_persists(cs, codes, i + 1, e);
    } else {
        assert(codes.take(i) =~= codes);
    }
}

/// The countries to process: all of them when no codes are given, else the
/// country of each code in order; fails with the first unknown code.
pub fn select_countries(countries: &Vec<Country>, codes: &Option<Vec<String>>) -> (res: Result<
    Vec<Country>,
    String,
>)
    ensures
        match *codes {
            None => res matches Ok(v) && v@ == countries@,
            Some(cs) => match selection(countries@, strs(cs@)) {
                Ok(v) => res matches Ok(r) && r@ == v,
                Err(e) => res matches Err(r) && r@ == e,
            },
        },
{
    match codes {
        None => {
            let mut all: Vec<Country> = Vec::new();
            let n = countries.len();
            for i in 0..n
                invariant
                    n == countries@.len(),
                    all@ == countries@.take(i as int),
            {
                all.push(countries[i]);
                proof {
                    assert(countries@.take(i + 1) =~= countries@.take(i as int).push(countries@[i as int]));
                }
            }
            proof {
                assert(countries@.take(n as int) =~= countries@);
            }
            Ok(all)
        },
        Some(cs) => {
            let mut targets: Vec<Country> = Vec::new();
            let n = cs.len();
            proof {
                assert(strs(cs@).take(0) =~= Seq::<Seq<char>>::empty());
            }
            for i in 0..n
                invariant
                    n == cs@.len(),
                    *codes == Some(*cs),
                    selection(countries@, strs(cs@).take(i as int)) == Ok::<Seq<Country>, Seq<char>>(targets@),
            {
                proof {
                    let t = strs(cs@).take(i + 1);
                    assert(t.drop_last() =~= strs(cs@).take(i as int));
                    assert(t.last() == cs@[i as int]@);
                }
                match find_country(countries, cs[i].as_str()) {
                    Some(c) => targets.push(c),
                    None => {
                        proof {
                            assert(selection(countries@, strs(cs@).take(i + 1)) == Err::<Seq<Country>, Seq<char>>(cs@[i as int]@));
                            lemma_selection_error_persists(countries@, strs(cs@), i + 1, cs@[i as int]@);
                            assert(selection(countries@, strs(cs@)) == Err::<Seq<Country>, Seq<char>>(cs@[i as int]@));
                        }
                        let bad = cs[i].clone();
                        assert(bad@ == cs@[i as int]@);
                        return Err(bad);
                    },
                }
            }
            proof {
                assert(strs(cs@).take(n as int) =~= strs(cs@));
            }
            Ok(targets)
        },
    }
}

/// The file name of a recipe URL: the part after the first `"/recipes/"`
/// (up to the next one, if any) with `".recipe"` appended; none when the URL
/// has no `"/recipes/"`.
pub open spec fn recipe_filename(url: Seq<char>) -> Option<Seq<char>> {
    let p = "/recipes/"@;
    match first_from(url, p, 0) {
        None => None,
        Some(i) => {
            let start = i + p.len();
            Some(
                match first_from(url, p, start) {
                    Some(j) => url.subrange(start, j),
                    None => url.skip(start),
                } + ".recipe"@,
            )
        },
    }
}

/// Extracts the recipe slug from a recipe URL and makes it a file name.
pub fn url_to_filename(url: &str) -> (res: Option<String>)
    ensures
        res.deep_view() == recipe_filename(url@),
{
    let u = chars_of(url);
    let p = chars_of("/recipes/");
    let n = u.len();
    match find_from(u.as_slice(), p.as_slice(), 0) {
        None => None,
        Some(i) => {
            assert(i + p@.len() <= u@.len());
            let start = i + p.len();
            let seg = match find_from(u.as_slice(), p.as_slice(), start) {
                Some(j) => sub_chars(u.as_slice(), start, j),
                None => sub_chars(u.as_slice(), start, n),
            };
            let mut name = seg;
            name.extend_from_slice(chars_of(".recipe").as_slice());
            proof {
                assert(u@.subrange(start as int, u@.len() as int) =~= u@.skip(start as int));
            }
            Some(string_from_chars(name.as_slice()))
        },
    }
}

/// At most `limit` URLs, from the front.
pub fn limit_urls(urls: Vec<String>, limit: Option<usize>) -> (res: Vec<String>)
    ensures
        res@ == match limit {
            Some(l) => if l < urls@.len() {
                urls@.take(l as int)
            } else {
                urls@
            },
            None => urls@,
        },
{
    match limit {
        None => urls,
        Some(l) => {
            if l >= urls.len() {
                return urls;
            }
            let mut res: Vec<String> = Vec::new();
            for i in 0..l
                invariant
                    l < urls@.len(),
                    res@ == urls@.take(i as int),
            {
                res.push(urls[i].clone());
                proof {
                    assert(urls@.take(i + 1) =~= urls@.take(i as int).push(urls@[i as int]));
                }
            }
            res
        },
    }
}

/// How the download of one recipe ended.
pub enum DownloadOutcome {
    /// Written, or already present and skipped.
    Downloaded,
    /// The page has no PDF card, so the recipe was skipped.
    SkippedNoPdf,
    /// The download failed.
    Failed,
}

/// Number of outcomes of each kind.
pub struct Tally {
    pub success: usize,
    pub skipped: usize,
    pub failed: usize,
}

pub open spec fn count_downloaded(os: Seq<DownloadOutcome>) -> nat
    decreases os.len(),
{
    if os.len() == 0 {
        0
    } else {
        count_downloaded(os.drop_last()) + if os.last() is Downloaded { 1nat } else { 0nat }
    }
}

pub open spec fn count_skipped(os: Seq<DownloadOutcome>) -> nat
    decreases os.len(),
{
    if os.len() == 0 {
        0
    } else {
        count_skipped(os.drop_last()) + if os.last() is SkippedNoPdf { 1nat } else { 0nat }
    }
}

pub open spec fn count_failed(os: Seq<DownloadOutcome>) -> nat
    decreases os.len(),
{
    if os.len() == 0 {
        0
    } else {
        count_failed(os.drop_last()) + if os.last() is Failed { 1nat } else { 0nat }
    }
}

/// Counts the downloaded, skipped and failed recipes of a country.
pub fn tally_outcomes(outcomes: &Vec<DownloadOutcome>) -> (t: Tally)
    ensures
        t.success == count_downloaded(outcomes@),
        t.skipped == count_skipped(outcomes@),
        t.failed == count_failed(outcomes@),
{
    let mut t = Tally { success: 0, skipped: 0, failed: 0 };
    let n = outcomes.len();
    proof {
        assert(outcomes@.take(0) =~= Seq::<DownloadOutcome>::empty());
    }
    for i in 0..n
        invariant
            n == outcomes@.len(),
            t.success == count_downloaded(outcomes@.take(i as int)),
            t.skipped == count_skipped(outcomes@.take(i as int)),
            t.failed == count_failed(outcomes@.take(i as int)),
            t.success + t.skipped + t.failed == i,
    {
        proof {
            let s = outcomes@.take(i + 1);
            assert(s.drop_last() =~= outcomes@.take(i as int));
            assert(s.last() == outcomes@[i as int]);
        }
        match outcomes[i] {
            DownloadOutcome::Downloaded => t.success = t.success + 1,
            DownloadOutcome::SkippedNoPdf => t.skipped = t.skipped + 1,
            DownloadOutcome::Failed => t.failed = t.failed + 1,
        }
    }
    proof {
        assert(outcomes@.take(n as int) =~= outcomes@);
    }
    t
}

// ---------------------------------------------------------------------------
// Laws
// ---------------------------------------------------------------------------

/// No two countries share a code.
pub proof fn lemma_country_codes_distinct()
    ensures
        forall|a: int, b: int|
            0 <= a < b < country_table().len() ==> (#[trigger] country_table()[a]).0 != (#[trigger] country_table()[b]).0,
{
    reveal_strlit("at");
    reveal_strlit("au");
    reveal_strlit("be");
    reveal_strlit("ca");
    reveal_strlit("ch");
    reveal_strlit("de");
    reveal_strlit("dk");
    reveal_strlit("es");
    reveal_strlit("fr");
    reveal_strlit("gb");
    reveal_strlit("ie");
    reveal_strlit("it");
    reveal_strlit("lu");
    reveal_strlit("nl");
    reveal_strlit("no");
    reveal_strlit("nz");
    reveal_strlit("se");
    reveal_strlit("us");
    let t = country_table();
    assert forall|a: int, b: int| 0 <= a < b < t.len() implies (#[trigger] t[a]).0 != (#[trigger] t[b]).0 by {
        let x = t[a].0;
        let y = t[b].0;
        assert(x.len() == 2 && y.len() == 2);
        assert(x[0] != y[0] || x[1] != y[1]);
    }
}

/// A country found by code has that code and is one of the countries.
pub proof fn lemma_lookup_finds_code(cs: Seq<Country>, code: Seq<char>)
    ensures
        lookup(cs, code) matches Some(c) ==> c.code@ == code && cs.contains(c),
        lookup(cs, code) is None ==> forall|i: int| 0 <= i < cs.len() ==> (#[trigger] cs[i]).code@ != code,
    decreases cs.len(),
{
    if cs.len() > 0 {
        lemma_lookup_finds_code(cs.drop_first(), code);
        if cs[0].code@ != code {
            if let Some(c) = lookup(cs, code) {
                let k = choose|k: int| 0 <= k < cs.drop_first().len() && cs.drop_first()[k] == c;
                assert(cs[k + 1] == c);
            }
            assert forall|i: int| 0 <= i < cs.len() && lookup(cs, code) is None implies (#[trigger] cs[i]).code@ != code by {
                if i > 0 {
                    assert(cs[i] == cs.drop_first()[i - 1]);
                }
            }
        } else {
            assert(cs[0] == cs[0]);
        }
    }
}

/// Every selected country has the code it was selected by, in order.
pub proof fn lemma_selection_follows_codes(cs: Seq<Country>, codes: Seq<Seq<char>>)
    ensures
        selection(cs, codes) matches Ok(v) ==> v.len() == codes.len() && forall|k: int|
            0 <= k < v.len() ==> (#[trigger] v[k]).code@ == codes[k],
    decreases codes.len(),
{
    if codes.len() > 0 {
        lemma_selection_follows_codes(cs, codes.drop_last());
        lemma_lookup_finds_code(cs, codes.last());
    }
}

/// A URL has a recipe file name exactly when it contains `"/recipes/"`,
/// and the name ends with `".recipe"`.
pub proof fn lemma_recipe_filename_shape(url: Seq<char>)
    ensures
        recipe_filename(url) is Some <==> contains(url, "/recipes/"@),
        recipe_filename(url) matches Some(f) ==> ends_with(f, ".recipe"@),
{
    let p = "/recipes/"@;
    if contains(url, p) {
        let i = choose|i: int| crate::text::occurs_at(url, p, i);
        lemma_first_occurrence_exists(url, p, 0, i);
    }
    if first_from(url, p, 0) is Some {
        let i = choose|i: int| is_first_from(url, p, 0, i);
        assert(crate::text::occurs_at(url, p, i));
    }
    if let Some(f) = recipe_filename(url) {
        let i = first_from(url, p, 0)->Some_0;
        let start = i + p.len();
        let seg = match first_from(url, p, start) {
            Some(j) => url.subrange(start, j),
            None => url.skip(start),
        };
        assert(f == seg + ".recipe"@);
        assert(f.subrange(f.len() - ".recipe"@.len(), f.len() as int) =~= ".recipe"@);
    }
}

/// Each recipe is counted once: downloaded, skipped or failed.
pub proof fn lemma_tally_counts_every_outcome(os: Seq<DownloadOutcome>)
    ensures
        count_downloaded(os) + count_skipped(os) + count_failed(os) == os.len(),
    decreases os.len(),
{
    if os.len() > 0 {
        lemma_tally_counts_every_outcome(os.drop_last());
    }
}

/// Looking up the code of a country that no earlier country shares finds
/// that country.
proof fn lemma_lookup_first_with_code(cs: Seq<Country>, i: int)
    requires
        0 <= i < cs.len(),
        forall|j: int| 0 <= j < i ==> (#[trigger] cs[j]).code@ != cs[i].code@,
    ensures
        lookup(cs, cs[i].code@) == Some(cs[i]),
    decreases i,
{
    if i > 0 {
        let rest = cs.drop_first();
        assert(cs[0].code@ != cs[i].code@);
        assert(rest[i - 1] == cs[i]);
        assert forall|j: int| 0 <= j < i - 1 implies (#[trigger] rest[j]).code@ != rest[i - 1].code@ by {
            assert(rest[j] == cs[j + 1]);
        }
        lemma_lookup_first_with_code(rest, i - 1);
    }
}

/// In a list of countries laid out as the country table, the country
/// found for a table code is the table's country at that row.
proof fn lemma_table_row_found(cs: Seq<Country>, k: int)
    requires
        cs.map_values(|c: Country| country_view(c)) == country_table(),
        0 <= k < country_table().len(),
    ensures
        lookup(cs, country_table()[k].0) == Some(cs[k]),
        cs[k].domain@ == country_table()[k].1,
        cs[k].name@ == country_table()[k].2,
{
    let t = country_table();
    assert(cs.len() == t.len());
    assert(cs.map_values(|c: Country| country_view(c))[k] == country_view(cs[k]));
    lemma_country_codes_distinct();
    assert forall|j: int| 0 <= j < k implies (#[trigger] cs[j]).code@ != cs[k].code@ by {
        assert(cs.map_values(|c: Country| country_view(c))[j] == country_view(cs[j]));
        assert(t[j].0 != t[k].0);
    }
    lemma_lookup_first_with_code(cs, k);
}

/// Every country code leads to HelloFresh's own site for that country:
/// `com.au` for Australia, `co.uk` for the United Kingdom, `co.nz` for New
/// Zealand, `com` for the United States, and the code itself for every
/// other country.
pub proof fn lemma_country_domains(cs: Seq<Country>)
    requires
        cs.map_values(|c: Country| country_view(c)) == country_table(),
    ensures
        lookup(cs, "at"@) matches Some(c) && c.domain@ == "at"@,
        lookup(cs, "au"@) matches Some(c) && c.domain@ == "com.au"@,
        lookup(cs, "be"@) matches Some(c) && c.domain@ == "be"@,
        lookup(cs, "ca"@) matches Some(c) && c.domain@ == "ca"@,
        lookup(cs, "ch"@) matches Some(c) && c.domain@ == "ch"@,
        lookup(cs, "de"@) matches Some(c) && c.domain@ == "de"@,
        lookup(cs, "dk"@) matches Some(c) && c.domain@ == "dk"@,
        lookup(cs, "es"@) matches Some(c) && c.domain@ == "es"@,
        lookup(cs, "fr"@) matches Some(c) && c.domain@ == "fr"@,
        lookup(cs, "gb"@) matches Some(c) && c.domain@ == "co.uk"@,
        lookup(cs, "ie"@) matches Some(c) && c.domain@ == "ie"@,
        lookup(cs, "it"@) matches Some(c) && c.domain@ == "it"@,
        lookup(cs, "lu"@) matches Some(c) && c.domain@ == "lu"@,
        lookup(cs, "nl"@) matches Some(c) && c.domain@ == "nl"@,
        lookup(cs, "no"@) matches Some(c) && c.domain@ == "no"@,
        lookup(cs, "nz"@) matches Some(c) && c.domain@ == "co.nz"@,
        lookup(cs, "se"@) matches Some(c) && c.domain@ == "se"@,
        lookup(cs, "us"@) matches Some(c) && c.domain@ == "com"@,
{
    let t = country_table();
    lemma_table_row_found(cs, 0);
    lemma_table_row_found(cs, 1);
    lemma_table_row_found(cs, 2);
    lemma_table_row_found(cs, 3);
    lemma_table_row_found(cs, 4);
    lemma_table_row_found(cs, 5);
    lemma_table_row_found(cs, 6);
    lemma_table_row_found(cs, 7);
    lemma_table_row_found(cs, 8);
    lemma_table_row_found(cs, 9);
    lemma_table_row_found(cs, 10);
    lemma_table_row_found(cs, 11);
    lemma_table_row_found(cs, 12);
    lemma_table_row_found(cs, 13);
    lemma_table_row_found(cs, 14);
    lemma_table_row_found(cs, 15);
    lemma_table_row_found(cs, 16);
    lemma_table_row_found(cs, 17);
}

} // verus!
