//! The text of a script file as it is run: a first line that starts with
//! `#!` (a shebang) is dropped, and the newline that ends it is kept.
use vstd::prelude::*;
use crate::text::{chars_of, string_of, find, find_char, has_at, occurs_at, lemma_find_char_bounds};

verus! {

/// `contents` without its shebang line: from its first newline on where it
/// starts with `#!` (nothing where it holds no newline), else all of it.
pub open spec fn without_shebang(contents: Seq<char>) -> Seq<char> {
    if has_at(contents, 0, "#!"@) {
        contents.skip(find_char(contents, 0, '\n'))
    } else {
        contents
    }
}

/// Drops the shebang line of a script's text; see `without_shebang`.
pub fn strip_shebang(contents: String) -> (r: String)
    ensures
        r@ == without_shebang(contents@),
{
    let cs = chars_of(contents.as_str());
    if occurs_at(&cs, 0, "#!") {
        let n = find(&cs, 0, '\n');
        proof { lemma_find_char_bounds(cs@, 0, '\n'); }
        let r = string_of(&cs, n, cs.len());
        assert(r@ =~= contents@.skip(n as int));
        r
    } else {
        contents
    }
}

/// Dropping the shebang line twice drops no more than once: what is left
/// starts with the newline that ended the line, or is empty.
pub proof fn lemma_without_shebang_idempotent(contents: Seq<char>)
    ensures
        without_shebang(without_shebang(contents)) == without_shebang(contents),
{
    reveal_strlit("#!");
    if has_at(contents, 0, "#!"@) {
        lemma_find_char_bounds(contents, 0, '\n');
        let rest = without_shebang(contents);
        if rest.len() >= 2 {
            assert(rest.subrange(0, 2)[0] == '\n');
            assert(rest.subrange(0, 2) != "#!"@);
        }
    }
}

} // verus!
