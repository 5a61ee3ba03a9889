//! The short name that is proposed for a newly accepted file.

use vstd::prelude::*;
use vstd::utf8::encode_utf8;
use crate::filter::{file_name, name_of};
use crate::text::{
    chars_of, is_space, is_whitespace, lead, lowercase, lowercase_of, same, string_of,
};

verus! {

/// A proposed name longer than this many bytes is abbreviated.
pub const LONGEST_PLAIN_NAME: usize = 7;

/// The end of the word that begins at `from`: the next white space, or the
/// end of the name.
pub open spec fn word_end(name: Seq<char>, from: int) -> int
    decreases name.len() - from,
{
    if from < 0 || from >= name.len() {
        name.len() as int
    } else if is_space(name[from]) {
        from
    } else {
        word_end(name, from + 1)
    }
}

/// The first word of a name; a name without any word stands for itself.
pub open spec fn first_word(name: Seq<char>) -> Seq<char> {
    let from = lead(name, 0);
    if from >= name.len() {
        name
    } else {
        name.subrange(from, word_end(name, from))
    }
}

/// The name proposed for a folded file name: its first word, or, where
/// that takes more than seven bytes, the word's first and last character.
pub open spec fn abbreviation(folded: Seq<char>) -> Seq<char> {
    let word = first_word(folded);
    if encode_utf8(word).len() > 7 && word.len() > 0 {
        seq![word[0], word[word.len() - 1]]
    } else {
        word
    }
}

/// Proposes a name for a file name that is already in lower case.
pub fn abbreviate(folded: &str) -> (name: String)
    ensures
        name@ == abbreviation(folded@),
{
    let v = chars_of(folded);
    let mut from: usize = 0;
    while from < v.len() && is_whitespace(v[from])
        invariant
            from <= v.len(),
            lead(v@, 0) == lead(v@, from as int),
        decreases v.len() - from,
    {
        from += 1;
    }
    let mut to: usize = from;
    if from == v.len() {
        from = 0;
        assert(v@.subrange(0, v@.len() as int) =~= v@);
    } else {
        while to < v.len() && !is_whitespace(v[to])
            invariant
                from <= to <= v.len(),
                word_end(v@, from as int) == word_end(v@, to as int),
            decreases v.len() - to,
        {
            to += 1;
        }
    }
    let word = string_of(&v, from, to);
    assert(word@ == first_word(folded@));
    if word.as_str().as_bytes().len() > LONGEST_PLAIN_NAME && from < to {
        let mut short: Vec<char> = Vec::new();
        short.push(v[from]);
        short.push(v[to - 1]);
        assert(short@ =~= seq![word@[0], word@[word@.len() - 1]]);
        assert(short@.subrange(0, 2) =~= short@);
        string_of(&short, 0, 2)
    } else {
        word
    }
}

/// A path that names a file: it has a file name, as the empty path and a
/// path of separators alone have not, and that is neither `.` nor `..`.
pub open spec fn names_a_file(path: Seq<char>) -> bool {
    let name = file_name(path);
    name.len() > 0 && name != seq!['.'] && name != seq!['.', '.']
}

/// Whether the last component of `file` names a file, so that a name can be
/// proposed for it.
pub fn has_file_name(file: &str) -> (b: bool)
    ensures
        b == names_a_file(file@),
{
    let v = chars_of(file);
    let name = name_of(&v);
    let one: Vec<char> = vec!['.'];
    let two: Vec<char> = vec!['.', '.'];
    assert(one@ =~= seq!['.'] && two@ =~= seq!['.', '.']);
    name.len() > 0 && !same(&name, &one) && !same(&name, &two)
}

/// Proposes the name under which a file could be called: from its file
/// name in lower case, the first word, abbreviated where it is long. The
/// path must name a file.
pub fn get_name(file: &str) -> (name: String)
    requires
        names_a_file(file@),
    ensures
        name@ == abbreviation(lowercase_of(file_name(file@))),
{
    let v = chars_of(file);
    let name = name_of(&v);
    let last = string_of(&name, 0, name.len());
    assert(last@ =~= file_name(file@));
    let folded = lowercase(last.as_str());
    abbreviate(folded.as_str())
}

} // verus!
