//! Lists of strings and the joins the title rules are made of.

use vstd::prelude::*;

verus! {

/// The character sequences held by a list of strings, in order.
pub open spec fn texts(list: Seq<String>) -> Seq<Seq<char>> {
    Seq::new(list.len(), |i: int| list[i]@)
}

/// `parts` written one after the other with `sep` between neighbours.
pub open spec fn joined(parts: Seq<Seq<char>>, sep: Seq<char>) -> Seq<char>
    decreases parts.len(),
{
    if parts.len() == 0 {
        Seq::empty()
    } else if parts.len() == 1 {
        parts[0]
    } else {
        parts[0] + sep + joined(parts.drop_first(), sep)
    }
}

/// The members of `parts` that are not empty, in order.
pub open spec fn present(parts: Seq<Seq<char>>) -> Seq<Seq<char>>
    decreases parts.len(),
{
    if parts.len() == 0 {
        Seq::empty()
    } else if parts.last().len() == 0 {
        present(parts.drop_last())
    } else {
        present(parts.drop_last()).push(parts.last())
    }
}

/// The non-empty members of `parts` joined with `sep`.
pub open spec fn joined_present(parts: Seq<Seq<char>>, sep: Seq<char>) -> Seq<char> {
    joined(present(parts), sep)
}

/// Appending one more part to a join adds the separator and the part, or the
/// part alone when it is the first.
pub proof fn lemma_joined_push(parts: Seq<Seq<char>>, sep: Seq<char>, last: Seq<char>)
    ensures
        joined(parts.push(last), sep) == if parts.len() == 0 {
            last
        } else {
            joined(parts, sep) + sep + last
        },
    decreases parts.len(),
{
    let whole = parts.push(last);
    if parts.len() == 0 {
    } else if parts.len() == 1 {
        assert(whole.drop_first() =~= seq![last]);
        assert(joined(whole.drop_first(), sep) == last);
    } else {
        assert(whole.drop_first() =~= parts.drop_first().push(last));
        lemma_joined_push(parts.drop_first(), sep, last);
        assert(joined(whole, sep) =~= joined(parts, sep) + sep + last);
    }
}

/// `std::string::String::push`: the character is added at the end.
#[verifier::external_body]
pub(crate) fn push_char(text: &mut String, c: char)
    ensures
        final(text)@ == old(text)@.push(c),
{
    text.push(c)
}

/// The characters of `chars` from position `from` up to, not including,
/// position `to`, as a string.
pub fn string_of(chars: &Vec<char>, from: usize, to: usize) -> (out: String)
    requires
        from <= to <= chars.len(),
    ensures
        out@ == chars@.subrange(from as int, to as int),
{
    let mut out = String::new();
    let mut i: usize = from;
    while i < to
        invariant
            from <= i <= to <= chars.len(),
            out@ == chars@.subrange(from as int, i as int),
        decreases to - i,
    {
        push_char(&mut out, chars[i]);
        assert(chars@.subrange(from as int, i + 1) =~= chars@.subrange(from as int, i as int).push(
            chars[i as int],
        ));
        i = i + 1;
    }
    out
}

/// `pattern` stands in `text` at position `at`.
pub open spec fn occurs_at(text: Seq<char>, pattern: Seq<char>, at: int) -> bool {
    &&& 0 <= at
    &&& at + pattern.len() <= text.len()
    &&& text.subrange(at, at + pattern.len()) == pattern
}

/// `pattern` stands in `text` at position `at` and at no earlier position.
pub open spec fn first_at(text: Seq<char>, pattern: Seq<char>, at: int) -> bool {
    &&& occurs_at(text, pattern, at)
    &&& forall|j: int| 0 <= j < at ==> !occurs_at(text, pattern, j)
}

/// The first position at which `pattern` stands in `text`; `None` when it
/// stands nowhere.
pub open spec fn first_occurrence(text: Seq<char>, pattern: Seq<char>) -> Option<int> {
    if exists|at: int| first_at(text, pattern, at) {
        Some(choose|at: int| first_at(text, pattern, at))
    } else {
        None
    }
}

/// The first position at which `pattern` stands in `text`; `None` when it
/// stands nowhere.
pub fn find(text: &Vec<char>, pattern: &Vec<char>) -> (found: Option<usize>)
    ensures
        match found {
            Some(at) => first_occurrence(text@, pattern@) == Some(at as int),
            None => first_occurrence(text@, pattern@) is None,
        },
{
    if pattern.len() > text.len() {
        assert forall|at: int| !first_at(text@, pattern@, at) by {}
        return None;
    }
    let last: usize = text.len() - pattern.len();
    let mut at: usize = 0;
    while at <= last
        invariant
            pattern.len() <= text.len(),
            last == text.len() - pattern.len(),
            at <= last + 1,
            forall|j: int| 0 <= j < at ==> !occurs_at(text@, pattern@, j),
        decreases last + 1 - at,
    {
        let mut k: usize = 0;
        while k < pattern.len() && text[at + k] == pattern[k]
            invariant
                at <= last,
                last == text.len() - pattern.len(),
                k <= pattern.len(),
                forall|i: int| 0 <= i < k ==> text[at + i] == pattern[i],
            decreases pattern.len() - k,
        {
            k = k + 1;
        }
        if k == pattern.len() {
            assert(text@.subrange(at as int, at + pattern.len()) =~= pattern@);
            assert(first_at(text@, pattern@, at as int));
            let ghost chosen = choose|x: int| first_at(text@, pattern@, x);
            assert(chosen == at) by {
                if chosen < at {
                    assert(!occurs_at(text@, pattern@, chosen));
                } else if at < chosen {
                    assert(!occurs_at(text@, pattern@, at as int));
                }
            }
            return Some(at);
        }
        assert(!occurs_at(text@, pattern@, at as int)) by {
            if occurs_at(text@, pattern@, at as int) {
                assert(text@.subrange(at as int, at + pattern.len())[k as int] == pattern[k as int]);
            }
        }
        at = at + 1;
    }
    assert forall|x: int| !first_at(text@, pattern@, x) by {
        if first_at(text@, pattern@, x) {
            assert(!occurs_at(text@, pattern@, x));
        }
    }
    None
}

/// The characters of `text`, in order.
pub fn chars_of(text: &str) -> (chars: Vec<char>)
    ensures
        chars@ == text@,
{
    let mut chars: Vec<char> = Vec::new();
    for c in it: text.chars()
        invariant
            chars@ == it.seq().take(it.index()),
            it.seq() == text@,
    {
        chars.push(c);
        assert(it.seq().take(it.index() + 1) =~= it.seq().take(it.index()).push(c));
    }
    assert(text@.take(text@.len() as int) =~= text@);
    chars
}

/// A copy of `list` with the same strings in the same order.
pub fn copy_texts(list: &Vec<String>) -> (copy: Vec<String>)
    ensures
        texts(copy@) == texts(list@),
{
    let mut copy: Vec<String> = Vec::new();
    let mut i: usize = 0;
    while i < list.len()
        invariant
            i <= list.len(),
            copy.len() == i,
            forall|k: int| 0 <= k < i ==> copy[k]@ == list[k]@,
        decreases list.len() - i,
    {
        copy.push(list[i].clone());
        i = i + 1;
    }
    assert(texts(copy@) =~= texts(list@));
    copy
}

/// The strings of `parts` written one after the other with `sep` between
/// neighbours.
pub fn join(parts: &Vec<String>, sep: &str) -> (out: String)
    ensures
        out@ == joined(texts(parts@), sep@),
{
    let mut out = String::new();
    let mut i: usize = 0;
    while i < parts.len()
        invariant
            i <= parts.len(),
            out@ == joined(texts(parts@).take(i as int), sep@),
        decreases parts.len() - i,
    {
        proof {
            let seen = texts(parts@).take(i as int);
            assert(texts(parts@).take(i + 1) =~= seen.push(parts[i as int]@));
            lemma_joined_push(seen, sep@, parts[i as int]@);
        }
        if i > 0 {
            out.append(sep);
        }
        out.append(parts[i].as_str());
        i = i + 1;
    }
    assert(texts(parts@).take(parts.len() as int) =~= texts(parts@));
    out
}

/// The non-empty strings of `parts` joined with `sep`.
pub fn join_present(parts: &Vec<String>, sep: &str) -> (out: String)
    ensures
        out@ == joined_present(texts(parts@), sep@),
{
    let mut out = String::new();
    let mut i: usize = 0;
    let mut first = true;
    while i < parts.len()
        invariant
            i <= parts.len(),
            first == (present(texts(parts@).take(i as int)).len() == 0),
            out@ == joined_present(texts(parts@).take(i as int), sep@),
        decreases parts.len() - i,
    {
        proof {
            let seen = texts(parts@).take(i as int);
            let next = texts(parts@).take(i + 1);
            assert(next.drop_last() =~= seen);
            assert(next.last() == parts[i as int]@);
            lemma_joined_push(present(seen), sep@, parts[i as int]@);
        }
        if !parts[i].as_str().is_empty() {
            if !first {
                out.append(sep);
            }
            out.append(parts[i].as_str());
            first = false;
        }
        i = i + 1;
    }
    assert(texts(parts@).take(parts.len() as int) =~= texts(parts@));
    out
}

} // verus!
