use rhiza::known::{Command, Config};
use rhiza::select::{select_step, Happening, Selector, Task};
use rhiza::session::{advance, Phase, Signal};

fn command(name: &str, target: &str) -> Command {
    Command { name: name.to_string(), target: target.to_string() }
}

#[test]
fn accept_adds_a_new_name() {
    let mut config = Config::new();
    assert!(!config.has_name(&"ff".to_string()));
    assert!(config.accept("ff".to_string(), "C:\\ff.lnk".to_string(), false));
    assert!(config.accept("vlc".to_string(), "C:\\vlc.exe".to_string(), true));
    assert_eq!(config.commands, vec![command("ff", "C:\\ff.lnk"), command("vlc", "C:\\vlc.exe")]);
    assert!(config.has_name(&"ff".to_string()));
    assert!(config.has_unique_names());
}

#[test]
fn declined_overwrite_leaves_the_state_unchanged() {
    let mut config = Config {
        commands: vec![command("ff", "C:\\old.lnk"), command("vlc", "C:\\vlc.exe")],
        skipped: vec!["C:\\hidden.exe".to_string()],
    };
    let before = config.clone();
    assert!(!config.accept("ff".to_string(), "C:\\new.lnk".to_string(), false));
    assert_eq!(config, before);
}

#[test]
fn confirmed_overwrite_replaces_only_that_target() {
    let mut config = Config {
        commands: vec![command("ff", "C:\\old.lnk"), command("vlc", "C:\\vlc.exe")],
        skipped: vec!["C:\\hidden.exe".to_string()],
    };
    assert!(config.accept("ff".to_string(), "C:\\new.lnk".to_string(), true));
    assert_eq!(config.commands, vec![command("ff", "C:\\new.lnk"), command("vlc", "C:\\vlc.exe")]);
    assert_eq!(config.skipped, vec!["C:\\hidden.exe"]);
}

#[test]
fn names_are_compared_exactly() {
    let mut config = Config { commands: vec![command("ff", "a")], skipped: vec![] };
    assert!(config.accept("FF".to_string(), "b".to_string(), false));
    assert_eq!(config.commands.len(), 2);
}

#[test]
fn skip_unselected_hides_the_rest_in_order() {
    let mut config = Config { commands: vec![command("ff", "a")], skipped: vec!["z".to_string()] };
    let offered: Vec<String> = ["p", "q", "r", "s"].iter().map(|s| s.to_string()).collect();
    let selected: Vec<String> = ["q", "s", "unrelated"].iter().map(|s| s.to_string()).collect();
    config.skip_unselected(&offered, &selected);
    assert_eq!(config.skipped, vec!["z", "p", "r"]);
    assert_eq!(config.commands, vec![command("ff", "a")]);
    config.skip_unselected(&vec![], &selected);
    assert_eq!(config.skipped, vec!["z", "p", "r"]);
    config.skip_unselected(&offered, &offered);
    assert_eq!(config.skipped, vec!["z", "p", "r"]);
}

#[test]
fn session_walks_through_its_phases() {
    let mut p = Phase::Idle;
    p = advance(p, Signal::Begin);
    assert_eq!(p, Phase::Walking);
    p = advance(p, Signal::Arrived);
    assert_eq!(p, Phase::Collecting);
    p = advance(p, Signal::Arrived);
    assert_eq!(p, Phase::Collecting);
    p = advance(p, Signal::Closed { candidates: 2 });
    assert_eq!(p, Phase::Presenting);
    p = advance(p, Signal::Chosen);
    assert_eq!(p, Phase::Updating);
    p = advance(p, Signal::Saved);
    assert_eq!(p, Phase::Done);
}

#[test]
fn session_without_candidates_skips_the_presentation() {
    assert_eq!(advance(Phase::Walking, Signal::Closed { candidates: 0 }), Phase::Done);
    assert_eq!(advance(Phase::Collecting, Signal::Closed { candidates: 0 }), Phase::Done);
    assert_eq!(advance(Phase::Walking, Signal::Closed { candidates: 1 }), Phase::Presenting);
}

#[test]
fn session_ignores_what_it_does_not_wait_for() {
    assert_eq!(advance(Phase::Idle, Signal::Saved), Phase::Idle);
    assert_eq!(advance(Phase::Idle, Signal::Closed { candidates: 0 }), Phase::Idle);
    assert_eq!(advance(Phase::Presenting, Signal::Arrived), Phase::Presenting);
    assert_eq!(advance(Phase::Presenting, Signal::Aborted), Phase::Done);
    assert_eq!(advance(Phase::Updating, Signal::Chosen), Phase::Updating);
    for s in [Signal::Begin, Signal::Arrived, Signal::Closed { candidates: 3 }, Signal::Chosen, Signal::Aborted, Signal::Saved] {
        assert_eq!(advance(Phase::Done, s), Phase::Done);
    }
}

#[test]
fn selector_streams_to_a_live_filter() {
    let (s, t) = select_step(Selector::Start, Happening::Begin);
    assert_eq!((s, t), (Selector::ProbeExternal, Task::Launch));
    let (s, t) = select_step(s, Happening::Launched);
    assert_eq!((s, t), (Selector::ExternalLive, Task::Nothing));
    let (s, t) = select_step(s, Happening::Item);
    assert_eq!((s, t), (Selector::ExternalLive, Task::WriteLine));
    let (s, t) = select_step(s, Happening::StreamClosed);
    assert_eq!((s, t), (Selector::ExternalLive, Task::CloseInput));
    let (s, t) = select_step(s, Happening::Exited { success: true });
    assert_eq!((s, t), (Selector::Resolved, Task::TakeOutput));
}

#[test]
fn selector_survives_a_broken_pipe() {
    let (s, t) = select_step(Selector::ExternalLive, Happening::WriteFailed);
    assert_eq!((s, t), (Selector::ExternalStopped, Task::Nothing));
    assert_eq!(select_step(s, Happening::Item), (Selector::ExternalStopped, Task::Nothing));
    assert_eq!(select_step(s, Happening::StreamClosed), (Selector::ExternalStopped, Task::CloseInput));
    assert_eq!(
        select_step(s, Happening::Exited { success: true }),
        (Selector::Resolved, Task::TakeOutput)
    );
    assert_eq!(
        select_step(s, Happening::Exited { success: false }),
        (Selector::Cancelled, Task::Nothing)
    );
}

#[test]
fn selector_cancels_on_a_failed_exit() {
    assert_eq!(
        select_step(Selector::ExternalLive, Happening::Exited { success: false }),
        (Selector::Cancelled, Task::Nothing)
    );
}

#[test]
fn selector_falls_back_to_the_buffered_list() {
    let (s, t) = select_step(Selector::ProbeExternal, Happening::LaunchFailed);
    assert_eq!((s, t), (Selector::BufferedFallback, Task::Nothing));
    assert_eq!(select_step(s, Happening::Item), (Selector::BufferedFallback, Task::Buffer));
    assert_eq!(select_step(s, Happening::StreamClosed), (Selector::BufferedFallback, Task::Present));
    assert_eq!(select_step(s, Happening::Picked), (Selector::Resolved, Task::Nothing));
    assert_eq!(select_step(s, Happening::Dismissed), (Selector::Cancelled, Task::Nothing));
}

#[test]
fn selector_outcomes_are_final() {
    for state in [Selector::Resolved, Selector::Cancelled] {
        for e in [
            Happening::Begin,
            Happening::Launched,
            Happening::LaunchFailed,
            Happening::Item,
            Happening::WriteFailed,
            Happening::StreamClosed,
            Happening::Exited { success: true },
            Happening::Picked,
            Happening::Dismissed,
        ] {
            assert_eq!(select_step(state, e), (state, Task::Nothing));
        }
    }
}
