//! Decisions of the recipe validator: how a source recipe is shown and
//! where navigation goes after a recipe is removed.

use vstd::prelude::*;
use crate::text::{chars_of, find_from, first_from, has_prefix, starts_with, string_from_chars, sub_chars};

verus! {

/// `s` without its leading newlines.
pub open spec fn trim_leading_newlines(s: Seq<char>) -> Seq<char>
    decreases s.len(),
{
    if s.len() > 0 && s[0] == '\n' {
        trim_leading_newlines(s.drop_first())
    } else {
        s
    }
}

/// The body of a recipe with YAML front matter: when the text starts with
/// `"---"` and a later line starts with `"---"`, what follows that closing
/// `"\n---"` without leading newlines; otherwise the text itself.
pub open spec fn without_frontmatter(content: Seq<char>) -> Seq<char> {
    if starts_with(content, "---"@) {
        match first_from(content, "\n---"@, 3) {
            Some(j) => trim_leading_newlines(content.skip(j + 4)),
            None => content,
        }
    } else {
        content
    }
}

/// Removes the YAML front matter of a recipe: see [`without_frontmatter`].
pub fn strip_frontmatter(content: &str) -> (res: String)
    ensures
        res@ == without_frontmatter(content@),
{
    let c = chars_of(content);
    proof {
        reveal_strlit("---");
        reveal_strlit("\n---");
    }
    if has_prefix(c.as_slice(), chars_of("---").as_slice()) {
        let closing = chars_of("\n---");
        let n = c.len();
        match find_from(c.as_slice(), closing.as_slice(), 3) {
            Some(j) => {
                assert(j + closing@.len() <= c@.len());
                let mut k = j + 4;
                proof {
                    assert(c@.skip(k as int).skip(0) =~= c@.skip(k as int));
                }
                let ghost start = k;
                while k < n && c[k] == '\n'
                    invariant
                        start <= k <= c@.len(),
                        n == c@.len(),
                        start == j + 4,
                        trim_leading_newlines(c@.skip(start as int)) == trim_leading_newlines(
                            c@.skip(k as int),
                        ),
                    decreases c@.len() - k,
                {
                    proof {
                        assert(c@.skip(k as int).drop_first() =~= c@.skip(k + 1));
                    }
                    k = k + 1;
                }
                proof {
                    assert(c@.skip(k as int) =~= c@.subrange(k as int, c@.len() as int));
                }
                let body = sub_chars(c.as_slice(), k, n);
                string_from_chars(body.as_slice())
            },
            None => String::from_str(content),
        }
    } else {
        String::from_str(content)
    }
}

/// The position shown after recipe `id` of `len` was removed: the same
/// position, or the one before when the last recipe was removed (0 when
/// it was the only one).
pub open spec fn next_index(id: int, len: int) -> int {
    if id < len - 1 {
        id
    } else if id > 0 {
        id - 1
    } else {
        0
    }
}

/// The recipe to show after recipe `id` of `len` was removed: see [`next_index`].
pub fn next_index_after_delete(id: usize, len: usize) -> (next: usize)
    requires
        id < len,
    ensures
        next == next_index(id as int, len as int),
{
    if id < len - 1 {
        id
    } else {
        id.saturating_sub(1)
    }
}

/// After a removal the position shown is a valid position among the
/// recipes that remain, and never past the removed one.
pub proof fn lemma_next_index_after_delete_in_range(id: int, len: int)
    requires
        0 <= id < len,
    ensures
        next_index(id, len) <= id,
        len > 1 ==> 0 <= next_index(id, len) < len - 1,
{
}

/// Once the front matter is removed, the body does not start with a newline.
pub proof fn lemma_body_starts_without_newline(s: Seq<char>)
    ensures
        trim_leading_newlines(s).len() == 0 || trim_leading_newlines(s)[0] != '\n',
    decreases s.len(),
{
    if s.len() > 0 && s[0] == '\n' {
        lemma_body_starts_without_newline(s.drop_first());
    }
}

} // verus!
