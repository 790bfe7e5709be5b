use hyprnome::navigator::{
    asks_special, change_workspace, Action, Command, Event, Navigation, Stage,
};
use hyprnome::special::is_special;

#[test]
fn switch_without_active_window_only_switches() {
    let special = is_special(None);
    assert!(!special);
    assert_eq!(change_workspace(5, false, false, special), vec![Command::Switch(5)]);
}

#[test]
fn move_from_special_scratch_moves_then_closes() {
    let special = is_special(Some("special:scratch"));
    assert!(special);
    assert_eq!(
        change_workspace(5, true, false, special),
        vec![Command::MoveTo(5), Command::ToggleSpecial]
    );
}

#[test]
fn switch_from_special_closes_then_switches() {
    assert_eq!(
        change_workspace(7, false, false, true),
        vec![Command::ToggleSpecial, Command::Switch(7)]
    );
}

#[test]
fn switch_from_normal_only_switches() {
    assert_eq!(change_workspace(7, false, false, false), vec![Command::Switch(7)]);
}

#[test]
fn move_from_normal_only_moves() {
    assert_eq!(change_workspace(7, true, false, false), vec![Command::MoveTo(7)]);
}

#[test]
fn keeping_special_never_toggles() {
    for target in [1, 5, 2147483647] {
        for move_window in [false, true] {
            for special in [false, true] {
                let issued = change_workspace(target, move_window, true, special);
                assert!(!issued.contains(&Command::ToggleSpecial));
                assert_eq!(issued.len(), 1);
            }
        }
    }
    assert_eq!(change_workspace(3, true, true, true), vec![Command::MoveTo(3)]);
    assert_eq!(change_workspace(3, false, true, true), vec![Command::Switch(3)]);
}

#[test]
fn target_is_passed_on_unchanged() {
    assert_eq!(change_workspace(69273666, false, false, false), vec![Command::Switch(69273666)]);
    assert_eq!(change_workspace(-3, true, false, false), vec![Command::MoveTo(-3)]);
}

#[test]
fn a_move_always_asks_and_a_switch_asks_unless_kept() {
    assert!(asks_special(true, false));
    assert!(asks_special(true, true));
    assert!(asks_special(false, false));
    assert!(!asks_special(false, true));
}

fn run(navigation: &mut Navigation, events: &[Event]) -> Vec<Action> {
    let mut actions = Vec::new();
    for event in events {
        actions.push(navigation.step(*event));
    }
    actions
}

#[test]
fn a_new_change_has_not_begun() {
    let navigation = Navigation::new(5, true, false);
    assert_eq!(
        navigation,
        Navigation { target: 5, move_window: true, keep_special: false, stage: Stage::Start }
    );
}

#[test]
fn switch_run_without_active_window() {
    let mut navigation = Navigation::new(5, false, false);
    let special = is_special(None);
    let actions = run(&mut navigation, &[Event::Begin, Event::Special(special), Event::Done]);
    assert_eq!(
        actions,
        vec![Action::AskSpecial, Action::Issue(Command::Switch(5)), Action::Finish]
    );
    assert_eq!(navigation.stage, Stage::Ended);
}

#[test]
fn move_run_from_special_scratch() {
    let mut navigation = Navigation::new(5, true, false);
    let special = is_special(Some("special:scratch"));
    let actions =
        run(&mut navigation, &[Event::Begin, Event::Special(special), Event::Done, Event::Done]);
    assert_eq!(
        actions,
        vec![
            Action::AskSpecial,
            Action::Issue(Command::MoveTo(5)),
            Action::Issue(Command::ToggleSpecial),
            Action::Finish
        ]
    );
}

#[test]
fn switch_run_from_special_closes_first() {
    let mut navigation = Navigation::new(8, false, false);
    let actions =
        run(&mut navigation, &[Event::Begin, Event::Special(true), Event::Done, Event::Done]);
    assert_eq!(
        actions,
        vec![
            Action::AskSpecial,
            Action::Issue(Command::ToggleSpecial),
            Action::Issue(Command::Switch(8)),
            Action::Finish
        ]
    );
}

#[test]
fn kept_switch_does_not_ask() {
    let mut navigation = Navigation::new(8, false, true);
    let actions = run(&mut navigation, &[Event::Begin, Event::Done]);
    assert_eq!(actions, vec![Action::Issue(Command::Switch(8)), Action::Finish]);
}

#[test]
fn kept_move_asks_but_never_toggles() {
    let mut navigation = Navigation::new(8, true, true);
    let actions = run(&mut navigation, &[Event::Begin, Event::Special(true), Event::Done]);
    assert_eq!(
        actions,
        vec![Action::AskSpecial, Action::Issue(Command::MoveTo(8)), Action::Finish]
    );
}

#[test]
fn stages_of_a_move() {
    let mut navigation = Navigation::new(5, true, false);
    navigation.step(Event::Begin);
    assert_eq!(navigation.stage, Stage::Asked);
    navigation.step(Event::Special(true));
    assert_eq!(navigation.stage, Stage::Sending { special: true, sent: 1 });
    navigation.step(Event::Done);
    assert_eq!(navigation.stage, Stage::Sending { special: true, sent: 2 });
    navigation.step(Event::Done);
    assert_eq!(navigation.stage, Stage::Ended);
    assert_eq!(navigation.target, 5);
    assert!(navigation.move_window);
    assert!(!navigation.keep_special);
}

#[test]
fn a_failed_question_sends_nothing() {
    let mut navigation = Navigation::new(5, true, false);
    let actions = run(&mut navigation, &[Event::Begin, Event::Failed, Event::Done]);
    assert_eq!(actions, vec![Action::AskSpecial, Action::Abort, Action::Abort]);
}

#[test]
fn a_failed_command_ends_the_change() {
    let mut navigation = Navigation::new(5, true, false);
    let actions = run(
        &mut navigation,
        &[Event::Begin, Event::Special(true), Event::Failed, Event::Done, Event::Begin],
    );
    assert_eq!(
        actions,
        vec![
            Action::AskSpecial,
            Action::Issue(Command::MoveTo(5)),
            Action::Abort,
            Action::Abort,
            Action::Abort
        ]
    );
    assert_eq!(navigation.stage, Stage::Ended);
}

#[test]
fn an_event_out_of_turn_ends_the_change() {
    let mut navigation = Navigation::new(5, false, false);
    assert_eq!(navigation.step(Event::Done), Action::Abort);
    let mut navigation = Navigation::new(5, false, false);
    navigation.step(Event::Begin);
    assert_eq!(navigation.step(Event::Begin), Action::Abort);
    let mut navigation = Navigation::new(5, false, false);
    run(&mut navigation, &[Event::Begin, Event::Special(false)]);
    assert_eq!(navigation.step(Event::Special(true)), Action::Abort);
}
