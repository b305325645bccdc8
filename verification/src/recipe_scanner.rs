//! Pairing of recipe files: each `.recipe` source with the `.cook` file of
//! the same name, and the `.metadata` file when there is one.
//!
//! The directory walk itself is done by the caller, which hands over the
//! file names of the regular files found, in walk order.

use vstd::prelude::*;
use crate::text::{
    chars_lt, chars_of, lemma_text_lt_irreflexive,
    lemma_text_lt_total, lemma_text_lt_transitive, same_chars, string_from_chars, strs,
    sub_chars, text_lt,
};

verus! {

/// The kinds of file that make up a recipe.
pub enum FileKind {
    /// `.recipe`: the scraped source text.
    Source,
    /// `.cook`: the Cooklang conversion.
    Cooklang,
    /// `.metadata`: optional extra data.
    Metadata,
}

/// Entry point for pairing recipe files.
pub struct RecipeScanner;

/// A recipe whose source and Cooklang files were both found.
///
/// The file fields are indices into the list of file names that was scanned.
pub struct RecipePair {
    pub id: usize,
    pub name: String,
    /// The `.recipe` file.
    pub markdown_file: usize,
    /// The `.cook` file.
    pub cooklang_file: usize,
    /// The `.metadata` file, if any.
    pub metadata_file: Option<usize>,
}

/// Index of the last `.` among the first `n` characters of `name`.
pub open spec fn last_dot(name: Seq<char>, n: int) -> Option<int>
    decreases n,
{
    if n <= 0 {
        None
    } else if name[n - 1] == '.' {
        Some(n - 1)
    } else {
        last_dot(name, n - 1)
    }
}

/// Stem and extension of a file name as `Path::file_stem` and
/// `Path::extension` give them: split at the last dot, unless that dot
/// starts the name.
pub open spec fn stem_and_extension(name: Seq<char>) -> Option<(Seq<char>, Seq<char>)> {
    match last_dot(name, name.len() as int) {
        Some(i) => if i > 0 {
            Some((name.take(i), name.skip(i + 1)))
        } else {
            None
        },
        None => None,
    }
}

/// The stem and kind of a recipe file name; `None` for other files.
pub open spec fn recipe_file_kind(name: Seq<char>) -> Option<(Seq<char>, FileKind)> {
    match stem_and_extension(name) {
        Some((stem, ext)) => if ext == "recipe"@ {
            Some((stem, FileKind::Source))
        } else if ext == "cook"@ {
            Some((stem, FileKind::Cooklang))
        } else if ext == "metadata"@ {
            Some((stem, FileKind::Metadata))
        } else {
            None
        },
        None => None,
    }
}

/// Index of the last of the first `n` files that has this stem and kind.
pub open spec fn last_with(files: Seq<Seq<char>>, stem: Seq<char>, kind: FileKind, n: int) -> Option<
    int,
>
    decreases n,
{
    if n <= 0 {
        None
    } else if recipe_file_kind(files[n - 1]) == Some((stem, kind)) {
        Some(n - 1)
    } else {
        last_with(files, stem, kind, n - 1)
    }
}

pub open spec fn opt_int(o: Option<usize>) -> Option<int> {
    match o {
        Some(v) => Some(v as int),
        None => None,
    }
}

/// Both a source and a Cooklang file with this stem occur among `files`.
pub open spec fn is_paired(files: Seq<Seq<char>>, stem: Seq<char>) -> bool {
    &&& last_with(files, stem, FileKind::Source, files.len() as int) is Some
    &&& last_with(files, stem, FileKind::Cooklang, files.len() as int) is Some
}

/// The pair's files are the last files of each kind with the pair's name.
pub open spec fn pair_fits(files: Seq<Seq<char>>, p: RecipePair) -> bool {
    &&& last_with(files, p.name@, FileKind::Source, files.len() as int) == Some(
        p.markdown_file as int,
    )
    &&& last_with(files, p.name@, FileKind::Cooklang, files.len() as int) == Some(
        p.cooklang_file as int,
    )
    &&& last_with(files, p.name@, FileKind::Metadata, files.len() as int) == opt_int(
        p.metadata_file,
    )
}

/// `r` lists every paired recipe of `files` once, sorted by name, numbered
/// from zero.
pub open spec fn scan_result(files: Seq<Seq<char>>, r: Seq<RecipePair>) -> bool {
    &&& forall|k: int| 0 <= k < r.len() ==> (#[trigger] r[k]).id == k
    &&& forall|a: int, b: int| 0 <= a < b < r.len() ==> text_lt(#[trigger] r[a].name@, #[trigger] r[b].name@)
    &&& forall|k: int| 0 <= k < r.len() ==> pair_fits(files, #[trigger] r[k])
    &&& forall|s: Seq<char>| #[trigger] is_paired(files, s) ==> exists|k: int| 0 <= k < r.len() && (#[trigger] r[k]).name@ == s
}

pub open spec fn strictly_sorted(s: Seq<Seq<char>>) -> bool {
    forall|a: int, b: int| 0 <= a < b < s.len() ==> text_lt(#[trigger] s[a], #[trigger] s[b])
}

proof fn lemma_insert_sorted(s: Seq<Seq<char>>, p: int, x: Seq<char>)
    requires
        strictly_sorted(s),
        0 <= p <= s.len(),
        forall|j: int| 0 <= j < p ==> text_lt(#[trigger] s[j], x),
        p < s.len() ==> text_lt(x, s[p]),
    ensures
        strictly_sorted(s.insert(p, x)),
{
    let t = s.insert(p, x);
    assert forall|a: int, b: int| 0 <= a < b < t.len() implies text_lt(#[trigger] t[a], #[trigger] t[b]) by {
        if b < p {
        } else if b == p {
        } else if a < p {
            assert(t[b] == s[b - 1]);
            if b - 1 > p {
                lemma_text_lt_transitive(x, s[p], s[b - 1]);
            }
            lemma_text_lt_transitive(s[a], x, s[b - 1]);
        } else if a == p {
            assert(t[b] == s[b - 1]);
            if b - 1 > p {
                lemma_text_lt_transitive(x, s[p], s[b - 1]);
            }
        } else {
            assert(t[a] == s[a - 1]);
            assert(t[b] == s[b - 1]);
        }
    }
}

/// Splits a file name into stem and kind when it names a recipe file.
fn classify(name: &[char]) -> (res: Option<(Vec<char>, FileKind)>)
    ensures
        match res {
            Some((stem, kind)) => recipe_file_kind(name@) == Some((stem@, kind)),
            None => recipe_file_kind(name@) is None,
        },
{
    let n = name.len();
    let mut i = n;
    while i > 0 && name[i - 1] != '.'
        invariant
            i <= n,
            n == name@.len(),
            last_dot(name@, n as int) == last_dot(name@, i as int),
        decreases i,
    {
        i = i - 1;
    }
    if i <= 1 {
        // no dot, or the only candidate dot starts the name
        return None;
    }
    let dot = i - 1;
    let stem = sub_chars(name, 0, dot);
    let ext = sub_chars(name, i, n);
    proof {
        assert(last_dot(name@, n as int) == Some(dot as int));
        assert(stem@ == name@.take(dot as int));
        assert(ext@ =~= name@.skip(dot + 1));
        reveal_strlit("recipe");
        reveal_strlit("cook");
        reveal_strlit("metadata");
    }
    if same_chars(ext.as_slice(), chars_of("recipe").as_slice()) {
        Some((stem, FileKind::Source))
    } else if same_chars(ext.as_slice(), chars_of("cook").as_slice()) {
        Some((stem, FileKind::Cooklang))
    } else if same_chars(ext.as_slice(), chars_of("metadata").as_slice()) {
        Some((stem, FileKind::Metadata))
    } else {
        None
    }
}

/// A stem with both a source and a Cooklang file, and its files.
struct PairEntry {
    stem: Vec<char>,
    markdown: usize,
    cooklang: usize,
    metadata: Option<usize>,
}

spec fn entry_stems(es: Seq<PairEntry>) -> Seq<Seq<char>> {
    es.map_values(|e: PairEntry| e.stem@)
}

spec fn entry_fits(files: Seq<Seq<char>>, e: PairEntry) -> bool {
    &&& last_with(files, e.stem@, FileKind::Source, files.len() as int) == Some(e.markdown as int)
    &&& last_with(files, e.stem@, FileKind::Cooklang, files.len() as int) == Some(e.cooklang as int)
    &&& last_with(files, e.stem@, FileKind::Metadata, files.len() as int) == opt_int(e.metadata)
}

/// Index of the group with this stem, or the number of groups when there is none.
fn find_stem(stems: &Vec<Vec<char>>, stem: &Vec<char>) -> (q: usize)
    ensures
        q <= stems@.len(),
        q < stems@.len() ==> stems@[q as int]@ == stem@,
        q == stems@.len() ==> forall|r: int| 0 <= r < stems@.len() ==> (#[trigger] stems@[r])@ != stem@,
{
    let g = stems.len();
    let mut q: usize = 0;
    while q < g
        invariant
            g == stems@.len(),
            q <= g,
            forall|r: int| 0 <= r < q ==> (#[trigger] stems@[r])@ != stem@,
        decreases g - q,
    {
        if same_chars(stems[q].as_slice(), stem.as_slice()) {
            return q;
        }
        q = q + 1;
    }
    q
}

/// The groups found so far: distinct stems, each with the last file of each
/// kind among the first `n` files, and every recipe file's stem among them.
spec fn groups_fit(
    fs: Seq<Seq<char>>,
    stems: Seq<Vec<char>>,
    md: Seq<Option<usize>>,
    cook: Seq<Option<usize>>,
    meta: Seq<Option<usize>>,
    n: int,
) -> bool {
    &&& stems.len() == md.len()
    &&& stems.len() == cook.len()
    &&& stems.len() == meta.len()
    &&& forall|a: int, b: int| 0 <= a < b < stems.len() ==> (#[trigger] stems[a])@ != (#[trigger] stems[b])@
    &&& forall|q: int| 0 <= q < stems.len() ==> opt_int(#[trigger] md[q]) == last_with(fs, stems[q]@, FileKind::Source, n)
    &&& forall|q: int| 0 <= q < stems.len() ==> opt_int(#[trigger] cook[q]) == last_with(fs, stems[q]@, FileKind::Cooklang, n)
    &&& forall|q: int| 0 <= q < stems.len() ==> opt_int(#[trigger] meta[q]) == last_with(fs, stems[q]@, FileKind::Metadata, n)
    &&& forall|s: Seq<char>, k: FileKind| #[trigger] last_with(fs, s, k, n) is Some ==> exists|q: int| 0 <= q < stems.len() && (#[trigger] stems[q])@ == s
}

/// Position of the first stem in the sorted list that comes after `x`.
fn insertion_point(entries: &Vec<PairEntry>, x: &Vec<char>) -> (p: usize)
    requires
        strictly_sorted(entry_stems(entries@)),
        forall|k: int| 0 <= k < entries@.len() ==> (#[trigger] entries@[k]).stem@ != x@,
    ensures
        p <= entries@.len(),
        forall|j: int| 0 <= j < p ==> text_lt(#[trigger] entry_stems(entries@)[j], x@),
        p < entries@.len() ==> text_lt(x@, entry_stems(entries@)[p as int]),
{
    let n = entries.len();
    let mut p: usize = 0;
    while p < n
        invariant
            p <= n,
            n == entries@.len(),
            forall|k: int| 0 <= k < entries@.len() ==> (#[trigger] entries@[k]).stem@ != x@,
            forall|j: int| 0 <= j < p ==> text_lt(#[trigger] entry_stems(entries@)[j], x@),
        decreases n - p,
    {
        if chars_lt(x.as_slice(), entries[p].stem.as_slice()) {
            return p;
        }
        proof {
            assert(entries@[p as int].stem@ != x@);
            lemma_text_lt_total(x@, entries@[p as int].stem@);
            assert(entry_stems(entries@)[p as int] == entries@[p as int].stem@);
        }
        p = p + 1;
    }
    p
}

impl RecipeScanner {
    /// Pairs recipe files by file stem.
    ///
    /// `file_names` are the names of the regular files found, in walk
    /// order. A stem whose `.recipe` and `.cook` files were both found
    /// becomes a pair, with its `.metadata` file when one was found; when a
    /// stem has several files of one kind, the last one counts. The pairs
    /// are sorted by name and numbered from zero.
    pub fn scan(file_names: &Vec<String>) -> (recipes: Vec<RecipePair>)
        ensures
            scan_result(strs(file_names@), recipes@),
    {
        let ghost fs = strs(file_names@);
        let n = file_names.len();
        let mut stems: Vec<Vec<char>> = Vec::new();
        let mut md: Vec<Option<usize>> = Vec::new();
        let mut cook: Vec<Option<usize>> = Vec::new();
        let mut meta: Vec<Option<usize>> = Vec::new();
        for i in 0..n
            invariant
                n == file_names@.len(),
                fs == strs(file_names@),
                groups_fit(fs, stems@, md@, cook@, meta@, i as int),
        {
            let name = chars_of(file_names[i].as_str());
            proof {
                assert(name@ == fs[i as int]);
            }
            match classify(name.as_slice()) {
                None => {
                    proof {
                        assert forall|s: Seq<char>, k: FileKind|
                            last_with(fs, s, k, i + 1) == last_with(fs, s, k, i as int) by {}
                        assert forall|s: Seq<char>, k: FileKind|
                            #[trigger] last_with(fs, s, k, i + 1) is Some implies exists|r: int|
                                0 <= r < stems@.len() && (#[trigger] stems@[r])@ == s by {
                            assert(last_with(fs, s, k, i + 1) == last_with(fs, s, k, i as int));
                        }
                    }
                },
                Some((stem, kind)) => {
                    let ghost old_stems = stems@;
                    let ghost old_md = md@;
                    let ghost old_cook = cook@;
                    let ghost old_meta = meta@;
                    let g = stems.len();
                    let q = find_stem(&stems, &stem);
                    proof {
                        assert forall|s: Seq<char>, k: FileKind| (s != stem@ || k != kind) implies
                            last_with(fs, s, k, i + 1) == last_with(fs, s, k, i as int) by {}
                        assert(last_with(fs, stem@, kind, i + 1) == Some(i as int));
                    }
                    if q < g {
                        match kind {
                            FileKind::Source => md.set(q, Some(i)),
                            FileKind::Cooklang => cook.set(q, Some(i)),
                            FileKind::Metadata => meta.set(q, Some(i)),
                        }
                        proof {
                            assert(stems@[q as int]@ == stem@);
                        }
                    } else {
                        proof {
                            assert forall|k: FileKind| last_with(fs, stem@, k, i as int) is None by {
                                if last_with(fs, stem@, k, i as int) is Some {
                                    let r = choose|r: int|
                                        0 <= r < stems@.len() && (#[trigger] stems@[r])@ == stem@;
                                }
                            }
                        }
                        let ghost new_stem = stem@;
                        match kind {
                            FileKind::Source => {
                                md.push(Some(i));
                                cook.push(None);
                                meta.push(None);
                            },
                            FileKind::Cooklang => {
                                md.push(None);
                                cook.push(Some(i));
                                meta.push(None);
                            },
                            FileKind::Metadata => {
                                md.push(None);
                                cook.push(None);
                                meta.push(Some(i));
                            },
                        }
                        stems.push(stem);
                        proof {
                            assert(stems@[g as int]@ == new_stem);
                        }
                    }
                    proof {
                        assert forall|s: Seq<char>, k: FileKind|
                            #[trigger] last_with(fs, s, k, i + 1) is Some implies exists|r: int|
                                0 <= r < stems@.len() && (#[trigger] stems@[r])@ == s by {
                            if s == stem@ {
                                if q < g {
                                    assert(stems@[q as int]@ == s);
                                } else {
                                    assert(stems@[g as int]@ == s);
                                }
                            } else {
                                assert(last_with(fs, s, k, i as int) is Some);
                                let r = choose|r: int|
                                    0 <= r < old_stems.len() && (#[trigger] old_stems[r])@ == s;
                                assert(stems@[r] == old_stems[r]);
                            }
                        }
                        assert forall|r: int| 0 <= r < stems@.len() implies
                            opt_int(#[trigger] md@[r]) == last_with(fs, stems@[r]@, FileKind::Source, i + 1)
                            && opt_int(cook@[r]) == last_with(fs, stems@[r]@, FileKind::Cooklang, i + 1)
                            && opt_int(meta@[r]) == last_with(fs, stems@[r]@, FileKind::Metadata, i + 1) by {
                            let st = stems@[r]@;
                            if r < g {
                                assert(stems@[r] == old_stems[r]);
                                assert(opt_int(old_md[r]) == last_with(fs, st, FileKind::Source, i as int));
                                assert(opt_int(old_cook[r]) == last_with(fs, st, FileKind::Cooklang, i as int));
                                assert(opt_int(old_meta[r]) == last_with(fs, st, FileKind::Metadata, i as int));
                                if r != q {
                                    assert(old_stems[r]@ != stem@);
                                    assert(md@[r] == old_md[r]);
                                    assert(cook@[r] == old_cook[r]);
                                    assert(meta@[r] == old_meta[r]);
                                } else {
                                    assert(st == stem@);
                                    match kind {
                                        FileKind::Source => {
                                            assert(cook@[r] == old_cook[r]);
                                            assert(meta@[r] == old_meta[r]);
                                        },
                                        FileKind::Cooklang => {
                                            assert(md@[r] == old_md[r]);
                                            assert(meta@[r] == old_meta[r]);
                                        },
                                        FileKind::Metadata => {
                                            assert(md@[r] == old_md[r]);
                                            assert(cook@[r] == old_cook[r]);
                                        },
                                    }
                                }
                            } else {
                                assert(r == g);
                                assert(st == stem@);
                                assert(last_with(fs, stem@, FileKind::Source, i as int) is None);
                                assert(last_with(fs, stem@, FileKind::Cooklang, i as int) is None);
                                assert(last_with(fs, stem@, FileKind::Metadata, i as int) is None);
                            }
                        }
                        assert forall|a: int, b: int| 0 <= a < b < stems@.len() implies
                            (#[trigger] stems@[a])@ != (#[trigger] stems@[b])@ by {
                            if b < g {
                                assert(stems@[a] == old_stems[a]);
                                assert(stems@[b] == old_stems[b]);
                            } else {
                                assert(stems@[a] == old_stems[a]);
                            }
                        }
                    }
                },
            }
        }
        proof {
            assert(file_names@.len() == fs.len());
        }
        // Keep the stems that have both files, in sorted order.
        let g = stems.len();
        let mut entries: Vec<PairEntry> = Vec::new();
        for q in 0..g
            invariant
                g == stems@.len(),
                n == fs.len(),
                groups_fit(fs, stems@, md@, cook@, meta@, n as int),
                strictly_sorted(entry_stems(entries@)),
                forall|k: int| 0 <= k < entries@.len() ==> entry_fits(fs, #[trigger] entries@[k]),
                forall|k: int|
                    0 <= k < entries@.len() ==> exists|r: int|
                        0 <= r < q && (#[trigger] stems@[r])@ == (#[trigger] entries@[k]).stem@,
                forall|r: int|
                    0 <= r < q && (#[trigger] md@[r]) is Some && cook@[r] is Some ==> exists|k: int|
                        0 <= k < entries@.len() && (#[trigger] entries@[k]).stem@ == stems@[r]@,
        {
            if let (Some(m), Some(c)) = (md[q], cook[q]) {
                let x = vstd::slice::slice_to_vec(stems[q].as_slice());
                proof {
                    assert forall|k: int| 0 <= k < entries@.len() implies (#[trigger] entries@[k]).stem@ != x@ by {
                        let r = choose|r: int|
                            0 <= r < q && (#[trigger] stems@[r])@ == entries@[k].stem@;
                    }
                }
                let p = insertion_point(&entries, &x);
                let ghost old_entries = entries@;
                let e = PairEntry { stem: x, markdown: m, cooklang: c, metadata: meta[q] };
                let ghost e_view = e;
                entries.insert(p, e);
                proof {
                    assert(entry_stems(entries@) =~= entry_stems(old_entries).insert(p as int, x@));
                    lemma_insert_sorted(entry_stems(old_entries), p as int, x@);
                    assert forall|k: int| 0 <= k < entries@.len() implies entry_fits(fs, #[trigger] entries@[k]) by {
                        if k < p {
                            assert(entries@[k] == old_entries[k]);
                        } else if k == p {
                            assert(entries@[k] == e_view);
                        } else {
                            assert(entries@[k] == old_entries[k - 1]);
                        }
                    }
                    assert forall|k: int| 0 <= k < entries@.len() implies exists|r: int|
                        0 <= r < q + 1 && (#[trigger] stems@[r])@ == (#[trigger] entries@[k]).stem@ by {
                        if k < p {
                            assert(entries@[k] == old_entries[k]);
                            let r = choose|r: int|
                                0 <= r < q && (#[trigger] stems@[r])@ == old_entries[k].stem@;
                        } else if k == p {
                            assert(entries@[k] == e_view);
                            assert(stems@[q as int]@ == entries@[k].stem@);
                        } else {
                            assert(entries@[k] == old_entries[k - 1]);
                            let r = choose|r: int|
                                0 <= r < q && (#[trigger] stems@[r])@ == old_entries[k - 1].stem@;
                        }
                    }
                    assert forall|r: int|
                        0 <= r < q + 1 && (#[trigger] md@[r]) is Some && cook@[r] is Some implies exists|k: int|
                            0 <= k < entries@.len() && (#[trigger] entries@[k]).stem@ == stems@[r]@ by {
                        if r == q {
                            assert(entries@[p as int] == e_view);
                        } else {
                            let k = choose|k: int|
                                0 <= k < old_entries.len() && (#[trigger] old_entries[k]).stem@ == stems@[r]@;
                            if k < p {
                                assert(entries@[k] == old_entries[k]);
                            } else {
                                assert(entries@[k + 1] == old_entries[k]);
                            }
                        }
                    }
                }
            }
        }
        // Number the pairs in order.
        let mut recipes: Vec<RecipePair> = Vec::new();
        let total = entries.len();
        for k in 0..total
            invariant
                total == entries@.len(),
                n == fs.len(),
                g == stems@.len(),
                groups_fit(fs, stems@, md@, cook@, meta@, n as int),
                strictly_sorted(entry_stems(entries@)),
                forall|k: int| 0 <= k < entries@.len() ==> entry_fits(fs, #[trigger] entries@[k]),
                forall|r: int|
                    0 <= r < g && (#[trigger] md@[r]) is Some && cook@[r] is Some ==> exists|k: int|
                        0 <= k < entries@.len() && (#[trigger] entries@[k]).stem@ == stems@[r]@,
                recipes@.len() == k,
                forall|j: int| 0 <= j < k ==> (#[trigger] recipes@[j]).id == j,
                forall|j: int| 0 <= j < k ==> (#[trigger] recipes@[j]).name@ == entries@[j].stem@,
                forall|j: int| 0 <= j < k ==> pair_fits(fs, #[trigger] recipes@[j]),
        {
            let e = &entries[k];
            let name = string_from_chars(e.stem.as_slice());
            recipes.push(
                RecipePair {
                    id: k,
                    name,
                    markdown_file: e.markdown,
                    cooklang_file: e.cooklang,
                    metadata_file: e.metadata,
                },
            );
            proof {
                assert(entry_fits(fs, entries@[k as int]));
            }
        }
        proof {
            assert forall|a: int, b: int| 0 <= a < b < recipes@.len() implies text_lt(
                #[trigger] recipes@[a].name@,
                #[trigger] recipes@[b].name@,
            ) by {
                assert(entry_stems(entries@)[a] == entries@[a].stem@);
                assert(entry_stems(entries@)[b] == entries@[b].stem@);
            }
            assert forall|s: Seq<char>| #[trigger] is_paired(fs, s) implies exists|k: int|
                0 <= k < recipes@.len() && (#[trigger] recipes@[k]).name@ == s by {
                let r = choose|r: int| 0 <= r < stems@.len() && (#[trigger] stems@[r])@ == s;
                assert(md@[r] is Some);
                let k = choose|k: int|
                    0 <= k < entries@.len() && (#[trigger] entries@[k]).stem@ == stems@[r]@;
                assert(recipes@[k].name@ == s);
            }
        }
        recipes
    }
}

/// Each recipe name is paired once: no two pairs share a name or an id.
pub proof fn lemma_scan_pairs_distinct(files: Seq<Seq<char>>, r: Seq<RecipePair>)
    requires
        scan_result(files, r),
    ensures
        forall|a: int, b: int|
            0 <= a < r.len() && 0 <= b < r.len() && a != b ==> (#[trigger] r[a]).name@ != (#[trigger] r[b]).name@ && r[a].id != r[b].id,
{
    assert forall|a: int, b: int| 0 <= a < r.len() && 0 <= b < r.len() && a != b implies (#[trigger] r[a]).name@
        != (#[trigger] r[b]).name@ && r[a].id != r[b].id by {
        if a < b {
            assert(text_lt(r[a].name@, r[b].name@));
            if r[a].name@ == r[b].name@ {
                lemma_text_lt_irreflexive(r[a].name@);
            }
        } else {
            assert(text_lt(r[b].name@, r[a].name@));
            if r[a].name@ == r[b].name@ {
                lemma_text_lt_irreflexive(r[a].name@);
            }
        }
    }
}

} // verus!
