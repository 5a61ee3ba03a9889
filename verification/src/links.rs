//! What is laid out for each command when the commands are applied: a copy
//! of a shortcut, a new shortcut to an executable, and the batch file that
//! starts either.

use vstd::prelude::*;
use crate::filter::{extension, extension_of, file_stem, stem_of};
use crate::text::{chars_of, push_char, same};

verus! {

/// What is done for one command.
#[derive(Clone, Debug, PartialEq, Eq)]
pub enum LinkAction {
    /// The source is gone: nothing is done.
    Missing,
    /// The source is a shortcut: it is copied to a file of this name.
    Copy { file: String },
    /// The source is an executable: a shortcut of this name is made for it.
    Shortcut { file: String },
    /// The source is of no kind that can be linked.
    Unsupported,
}

/// A `LinkAction` over character sequences.
pub enum Planned {
    Missing,
    Copy(Seq<char>),
    Shortcut(Seq<char>),
    Unsupported,
}

impl LinkAction {
    /// The action as a plain value.
    pub open spec fn view(&self) -> Planned {
        match self {
            LinkAction::Missing => Planned::Missing,
            LinkAction::Copy { file } => Planned::Copy(file@),
            LinkAction::Shortcut { file } => Planned::Shortcut(file@),
            LinkAction::Unsupported => Planned::Unsupported,
        }
    }
}

/// The action for the command `key` with the source `path`. The extension
/// decides, as it is written: `url` and `lnk` are copied under the name of
/// the command with the same extension, `exe` gets a shortcut named after
/// the command.
pub open spec fn planned(key: Seq<char>, path: Seq<char>, exists: bool) -> Planned {
    if !exists {
        Planned::Missing
    } else {
        match extension(path) {
            Some(ext) => if ext == seq!['u', 'r', 'l'] || ext == seq!['l', 'n', 'k'] {
                Planned::Copy(key + seq!['.'] + ext)
            } else if ext == seq!['e', 'x', 'e'] {
                Planned::Shortcut(key + seq!['.', 'l', 'n', 'k'])
            } else {
                Planned::Unsupported
            },
            None => Planned::Unsupported,
        }
    }
}

/// The name of the batch file that starts the link at `path`.
pub open spec fn batch_name(path: Seq<char>) -> Seq<char> {
    file_stem(path) + seq!['.', 'b', 'a', 't']
}

/// The text of the batch file that starts the link at `path`.
pub open spec fn batch_text(path: Seq<char>) -> Seq<char> {
    "@echo off\nstart /B \"\" \""@ + path + "\" %*"@
}

/// Decides what to lay out for one command. `exists` says whether the
/// source was found on disk.
pub fn link_action(key: &str, path: &str, exists: bool) -> (action: LinkAction)
    ensures
        action@ == planned(key@, path@, exists),
{
    if !exists {
        return LinkAction::Missing;
    }
    let v = chars_of(path);
    match extension_of(&v) {
        Some(ext) => {
            let e = chars_of(ext.as_str());
            let url: Vec<char> = vec!['u', 'r', 'l'];
            let lnk: Vec<char> = vec!['l', 'n', 'k'];
            let exe: Vec<char> = vec!['e', 'x', 'e'];
            assert(url@ =~= seq!['u', 'r', 'l'] && lnk@ =~= seq!['l', 'n', 'k'] && exe@ =~= seq![
                'e',
                'x',
                'e',
            ]);
            if same(&e, &url) || same(&e, &lnk) {
                let mut file = key.to_owned();
                push_char(&mut file, '.');
                file.append(ext.as_str());
                assert(file@ =~= key@ + seq!['.'] + ext@);
                LinkAction::Copy { file }
            } else if same(&e, &exe) {
                let mut file = key.to_owned();
                push_char(&mut file, '.');
                push_char(&mut file, 'l');
                push_char(&mut file, 'n');
                push_char(&mut file, 'k');
                assert(file@ =~= key@ + seq!['.', 'l', 'n', 'k']);
                LinkAction::Shortcut { file }
            } else {
                LinkAction::Unsupported
            }
        },
        None => LinkAction::Unsupported,
    }
}

/// The batch file for the link at `path`: its name, made of the stem of
/// the link, and its text, which starts the link with the arguments given.
pub fn batch_file(path: &str) -> (file: (String, String))
    ensures
        file.0@ == batch_name(path@),
        file.1@ == batch_text(path@),
{
    let v = chars_of(path);
    let mut name = stem_of(&v);
    push_char(&mut name, '.');
    push_char(&mut name, 'b');
    push_char(&mut name, 'a');
    push_char(&mut name, 't');
    assert(name@ =~= batch_name(path@));
    let mut text = "@echo off\nstart /B \"\" \"".to_owned();
    text.append(path);
    text.append("\" %*");
    (name, text)
}

} // verus!
