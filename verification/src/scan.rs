//! Finding where an embedded JSON object ends.

use vstd::prelude::*;
use crate::entity::optional_text;
use crate::text::{chars_of, find, first_occurrence, occurs_at, string_of};

verus! {

/// Number of opening braces minus number of closing braces among the first
/// `n` characters of `text`.
pub open spec fn brace_balance(text: Seq<char>, n: int) -> int
    decreases n,
{
    if n <= 0 {
        0
    } else if text[n - 1] == '{' {
        brace_balance(text, n - 1) + 1
    } else if text[n - 1] == '}' {
        brace_balance(text, n - 1) - 1
    } else {
        brace_balance(text, n - 1)
    }
}

/// Position `i` holds a closing brace, and as many braces open before it as
/// close.
pub open spec fn closes_at_level(text: Seq<char>, i: int) -> bool {
    &&& 0 <= i < text.len()
    &&& text[i] == '}'
    &&& brace_balance(text, i) == 0
}

/// Position `i` holds the first closing brace that no earlier opening brace
/// pairs with: the first closing brace before which as many braces open as
/// close.
pub open spec fn first_unpaired_at(text: Seq<char>, i: int) -> bool {
    &&& closes_at_level(text, i)
    &&& forall|j: int| 0 <= j < i ==> !closes_at_level(text, j)
}

/// Where the first closing brace without an opening partner stands; `None`
/// when every closing brace is paired.
pub open spec fn json_end_of(text: Seq<char>) -> Option<int> {
    if exists|i: int| first_unpaired_at(text, i) {
        Some(choose|i: int| first_unpaired_at(text, i))
    } else {
        None
    }
}

/// Index, counted in characters, of the first closing brace that has no
/// opening partner inside `string`; `None` when every closing brace is paired.
///
/// Given the text that follows an opening brace, this is where the object
/// which that brace opened ends.
pub fn detect_json_end(string: String) -> (end: Option<usize>)
    ensures
        match end {
            Some(i) => json_end_of(string@) == Some(i as int) && first_unpaired_at(
                string@,
                i as int,
            ),
            None => json_end_of(string@) is None && forall|j: int|
                0 <= j < string@.len() ==> !closes_at_level(string@, j),
        },
{
    let text = string.as_str();
    let len: usize = text.unicode_len();
    let mut depth: usize = 0;
    let mut i: usize = 0;
    for c in it: text.chars()
        invariant
            it.seq() == string@,
            len == string@.len(),
            i == it.index(),
            depth == brace_balance(string@, i as int),
            depth <= i,
            forall|j: int| 0 <= j < i ==> !closes_at_level(string@, j),
    {
        if c == '{' {
            depth = depth + 1;
        } else if c == '}' {
            if depth == 0 {
                assert(first_unpaired_at(string@, i as int));
                let ghost chosen = choose|x: int| first_unpaired_at(string@, x);
                assert(chosen == i) by {
                    if chosen < i {
                        assert(!closes_at_level(string@, chosen));
                    } else if i < chosen {
                        assert(!closes_at_level(string@, i as int));
                    }
                }
                return Some(i);
            }
            depth = depth - 1;
        }
        i = i + 1;
    }
    assert forall|x: int| !first_unpaired_at(string@, x) by {
        if first_unpaired_at(string@, x) {
            assert(!closes_at_level(string@, x));
        }
    }
    None
}

/// The name behind which a page embeds its JSON.
pub open spec fn marker() -> Seq<char> {
    "contextJSON"@
}

/// The escaped JSON that a page embeds as a string behind [`marker`].
///
/// The page holds `"contextJSON":"…"}`: the text begins three characters
/// behind the marker, past the quote, the colon and the quote, and ends
/// before the quote that precedes the brace closing the enclosing object,
/// which is the first brace of the text without a partner. `None` when the
/// marker or that brace is missing, or nothing stands between them.
pub open spec fn embedded_json_of(document: Seq<char>) -> Option<Seq<char>> {
    match first_occurrence(document, marker()) {
        None => None,
        Some(at) => {
            let start = at + marker().len() + 3;
            if start > document.len() {
                None
            } else {
                match json_end_of(document.skip(start)) {
                    None => None,
                    Some(end) => if end == 0 {
                        None
                    } else {
                        Some(document.subrange(start, start + end - 1))
                    },
                }
            }
        },
    }
}

/// Takes the embedded JSON text out of a page, still escaped.
pub fn embedded_json(document: &str) -> (text: Option<String>)
    ensures
        optional_text(text) == embedded_json_of(document@),
{
    let chars = chars_of(document);
    let pattern = chars_of("contextJSON");
    let at = match find(&chars, &pattern) {
        Some(at) => at,
        None => {
            return None;
        },
    };
    assert(occurs_at(chars@, pattern@, at as int));
    if chars.len() - at - pattern.len() < 3 {
        return None;
    }
    let start: usize = at + pattern.len() + 3;
    let rest = string_of(&chars, start, chars.len());
    assert(rest@ =~= document@.skip(start as int));
    let end = match detect_json_end(rest) {
        Some(end) => end,
        None => {
            return None;
        },
    };
    if end == 0 {
        return None;
    }
    Some(string_of(&chars, start, start + end - 1))
}

} // verus!
