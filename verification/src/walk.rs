//! The settings of the parallel walk.

use vstd::prelude::*;
use crate::text::views;

verus! {

/// How deep below a root the walk descends.
pub const MAX_DEPTH: usize = 10;

/// How many files pass between two progress messages.
pub const PROGRESS_STEP: usize = 1000;

/// System directories that the search of a whole drive stays out of.
pub open spec fn system_exclusions() -> Seq<Seq<char>> {
    seq![
        "C:\\Windows"@,
        "C:\\Windows.old"@,
        "C:\\ProgramData"@,
        "C:\\Program Files\\Microsoft"@,
        "C:\\Program Files\\Windows"@,
        "C:\\Program Files (x86)\\Microsoft"@,
        "C:\\Program Files (x86)\\Windows"@,
    ]
}

/// The exclusion list for the search of a whole drive.
pub fn system_exclusion_list() -> (r: Vec<String>)
    ensures
        views(r@) == system_exclusions(),
{
    let mut r: Vec<String> = Vec::new();
    r.push("C:\\Windows".to_owned());
    r.push("C:\\Windows.old".to_owned());
    r.push("C:\\ProgramData".to_owned());
    r.push("C:\\Program Files\\Microsoft".to_owned());
    r.push("C:\\Program Files\\Windows".to_owned());
    r.push("C:\\Program Files (x86)\\Microsoft".to_owned());
    r.push("C:\\Program Files (x86)\\Windows".to_owned());
    assert(views(r@) =~= system_exclusions());
    r
}

/// The places where launchable files are usually found: the desktop and
/// the two start menus.
pub open spec fn default_roots() -> Seq<Seq<char>> {
    seq![
        "~\\Desktop"@,
        "~\\AppData\\Roaming\\Microsoft\\Windows\\Start Menu"@,
        "C:\\ProgramData\\Microsoft\\Windows\\Start Menu"@,
    ]
}

/// The roots of a discovery: those that were given, or the usual places
/// where none was.
pub fn roots_for(given: Vec<String>) -> (roots: Vec<String>)
    ensures
        views(roots@) == if given@.len() == 0 {
            default_roots()
        } else {
            views(given@)
        },
{
    if given.len() > 0 {
        return given;
    }
    let mut r: Vec<String> = Vec::new();
    r.push("~\\Desktop".to_owned());
    r.push("~\\AppData\\Roaming\\Microsoft\\Windows\\Start Menu".to_owned());
    r.push("C:\\ProgramData\\Microsoft\\Windows\\Start Menu".to_owned());
    assert(views(r@) =~= default_roots());
    r
}

/// Asks `num_cpus::get` for the number of logical processors. The answer
/// depends on the machine and on the limits set for the process, so nothing
/// is claimed of it.
#[verifier::external_body]
fn available_cpus() -> (n: usize) {
    num_cpus::get()
}

/// The number of walker threads for a machine with `cpus` processors: two
/// for each, as far as that can be counted.
pub fn walker_threads(cpus: usize) -> (n: usize)
    ensures
        n == if 2 * cpus <= usize::MAX {
            2 * cpus
        } else {
            usize::MAX as int
        },
{
    if cpus <= usize::MAX / 2 {
        2 * cpus
    } else {
        usize::MAX
    }
}

/// The number of walker threads for this machine: two for each processor
/// that it reports, and never fewer than two, since a machine that runs
/// this has at least one.
pub fn default_walker_threads() -> (n: usize)
    ensures
        n >= 2,
        n % 2 == 0 || n == usize::MAX,
{
    let reported = available_cpus();
    let cpus: usize = if reported < 1 {
        1
    } else {
        reported
    };
    walker_threads(cpus)
}

/// Whether a progress message is due after `files_so_far` files.
pub fn progress_due(files_so_far: usize) -> (b: bool)
    ensures
        b == (files_so_far % 1000 == 0),
{
    files_so_far % PROGRESS_STEP == 0
}

} // verus!
