//! Resolving a shortcut to its target: the text format of internet
//! shortcuts, and the choice between the two kinds of shortcut.

use vstd::prelude::*;
use crate::filter::{kind, kind_of, Kind};
use crate::known::option_view;
use crate::text::{
    chars_of, has_prefix, matches_at, occurs_at, same, slice, string_of, trim, trimmed,
};

verus! {

/// How many characters stand at `from` before the next line feed.
pub open spec fn line_len(text: Seq<char>, from: int) -> nat
    decreases text.len() - from,
{
    if from < 0 || from >= text.len() || text[from] == '\n' {
        0
    } else {
        1 + line_len(text, from + 1)
    }
}

/// The line that opens the section of an internet shortcut.
pub open spec fn section_header() -> Seq<char> {
    seq![
        '[', 'I', 'n', 't', 'e', 'r', 'n', 'e', 't', 'S', 'h', 'o', 'r', 't', 'c', 'u', 't', ']',
    ]
}

/// The key whose value is the target.
pub open spec fn target_key() -> Seq<char> {
    seq!['U', 'R', 'L', '=']
}

/// Where the value begins in a line, behind every leading copy of the key.
pub open spec fn value_start(line: Seq<char>, from: int) -> int
    decreases line.len() - from,
{
    if occurs_at(line, target_key(), from) {
        value_start(line, from + 4)
    } else {
        from
    }
}

/// The target that the text of an internet shortcut names, read from
/// `from` on. Lines end at a line feed. A line that is the section header
/// but for white space opens the section; the first line after it that
/// begins with the key gives the target: what follows the key, trimmed.
pub open spec fn url_in(text: Seq<char>, from: int, in_section: bool) -> Option<Seq<char>>
    decreases text.len() - from,
{
    if from < 0 || from >= text.len() {
        None
    } else {
        let len = line_len(text, from);
        let line = text.subrange(from, from + len);
        let opens = trimmed(line) == section_header();
        if !opens && in_section && has_prefix(line, target_key()) {
            Some(trimmed(line.subrange(value_start(line, 0), line.len() as int)))
        } else if from + len + 1 > text.len() {
            None
        } else {
            url_in(text, from + len + 1, opens || in_section)
        }
    }
}

/// What a shortcut file resolves to, by the kind that its extension names
/// in whatever case. A binary shortcut has the target that its parser
/// found; an internet shortcut has the target that its text names; a file
/// that is neither, or that could not be read, has none.
pub open spec fn resolution(
    path: Seq<char>,
    link_target: Option<Seq<char>>,
    text: Option<Seq<char>>,
) -> Option<Seq<char>> {
    match kind(path) {
        Some(Kind::Lnk) => link_target,
        Some(Kind::Url) => match text {
            Some(t) => url_in(t, 0, false),
            None => None,
        },
        _ => None,
    }
}

fn header_chars() -> (r: Vec<char>)
    ensures
        r@ == section_header(),
{
    let r: Vec<char> = vec![
        '[', 'I', 'n', 't', 'e', 'r', 'n', 'e', 't', 'S', 'h', 'o', 'r', 't', 'c', 'u', 't', ']',
    ];
    assert(r@ =~= section_header());
    r
}

fn key_chars() -> (r: Vec<char>)
    ensures
        r@ == target_key(),
{
    let r: Vec<char> = vec!['U', 'R', 'L', '='];
    assert(r@ =~= target_key());
    r
}

/// The value of a line that begins with the key.
fn value_of(line: &Vec<char>, key: &Vec<char>) -> (r: Vec<char>)
    requires
        key@ == target_key(),
    ensures
        r@ == trimmed(line@.subrange(value_start(line@, 0), line@.len() as int)),
{
    let mut at: usize = 0;
    while matches_at(line, key, at)
        invariant
            at <= line.len(),
            key@ == target_key(),
            value_start(line@, 0) == value_start(line@, at as int),
        decreases line.len() - at,
    {
        at += 4;
    }
    let rest = slice(line, at, line.len());
    trim(&rest)
}

/// Reads the target out of the text of an internet shortcut. The target
/// is the value of the first `URL=` line behind the `[InternetShortcut]`
/// header; a text without such a line has none.
pub fn url_target(text: &str) -> (target: Option<String>)
    ensures
        option_view(target) == url_in(text@, 0, false),
{
    let v = chars_of(text);
    let header = header_chars();
    let key = key_chars();
    let mut in_section = false;
    let mut from: usize = 0;
    while from < v.len()
        invariant
            v@ == text@,
            header@ == section_header(),
            key@ == target_key(),
            url_in(text@, 0, false) == url_in(text@, from as int, in_section),
        decreases v.len() - from,
    {
        let mut end: usize = from;
        while end < v.len() && v[end] != '\n'
            invariant
                from <= end <= v.len(),
                line_len(v@, from as int) == (end - from) + line_len(v@, end as int),
            decreases v.len() - end,
        {
            end += 1;
        }
        let line = slice(&v, from, end);
        let bare = trim(&line);
        if same(&bare, &header) {
            in_section = true;
        } else if in_section && matches_at(&line, &key, 0) {
            let value = value_of(&line, &key);
            return Some(string_of(&value, 0, value.len()));
        }
        if end == v.len() {
            return None;
        }
        from = end + 1;
    }
    None
}

/// Resolves a shortcut from what was read of it. `link_target` is what the
/// binary shortcut parser found in the file, `text` the file as text; either
/// is `None` where reading or parsing failed. Nothing else can fail here:
/// a shortcut that does not resolve simply has no target.
pub fn read_shortcut(lnk_path: &str, link_target: Option<String>, text: Option<String>) -> (target:
    Option<String>)
    ensures
        option_view(target) == resolution(lnk_path@, option_view(link_target), option_view(text)),
{
    match kind_of(lnk_path) {
        Some(Kind::Lnk) => link_target,
        Some(Kind::Url) => match text {
            Some(t) => url_target(t.as_str()),
            None => None,
        },
        _ => None,
    }
}

} // verus!
