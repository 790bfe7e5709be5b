//! The commands that a change of workspace sends to the compositor.

use vstd::prelude::*;

verus! {

/// A command to the compositor.
#[derive(Clone, Copy, Debug, PartialEq, Eq, Structural)]
pub enum Command {
    /// Switch focus to the workspace.
    Switch(i32),
    /// Move the focused window to the workspace.
    MoveTo(i32),
    /// Toggle the special workspace: here, to hide it again.
    ToggleSpecial,
}

/// Whether the special workspace is closed in the course of the change: not
/// where the caller keeps it, and only where the focused window sat on it.
pub open spec fn closes_special(keep_special: bool, special: bool) -> bool {
    !keep_special && special
}

/// The commands of a change to `target`, in the order in which they go out.
/// A switch closes the special workspace first; a move closes it afterwards.
pub open spec fn commands(target: i32, move_window: bool, keep_special: bool, special: bool) -> Seq<
    Command,
> {
    if move_window {
        if closes_special(keep_special, special) {
            seq![Command::MoveTo(target), Command::ToggleSpecial]
        } else {
            seq![Command::MoveTo(target)]
        }
    } else {
        if closes_special(keep_special, special) {
            seq![Command::ToggleSpecial, Command::Switch(target)]
        } else {
            seq![Command::Switch(target)]
        }
    }
}

/// Whether a change has to ask, before its first command, if the focused
/// window sits on a special workspace. A move always asks; a switch asks
/// unless the special workspace is kept anyway.
pub fn asks_special(move_window: bool, keep_special: bool) -> (asks: bool)
    ensures
        asks == (move_window || !keep_special),
{
    move_window || !keep_special
}

/// The commands of a change to workspace `id`. `special` says whether the
/// focused window sat on a special workspace before the first command.
pub fn change_workspace(id: i32, move_window: bool, keep_special: bool, special: bool) -> (issued: Vec<
    Command,
>)
    ensures
        issued@ == commands(id, move_window, keep_special, special),
{
    let mut issued: Vec<Command> = Vec::new();
    if move_window {
        issued.push(Command::MoveTo(id));
        if !keep_special && special {
            issued.push(Command::ToggleSpecial);
        }
    } else {
        if !keep_special && special {
            issued.push(Command::ToggleSpecial);
        }
        issued.push(Command::Switch(id));
    }
    proof {
        assert(issued@ =~= commands(id, move_window, keep_special, special));
    }
    issued
}

/// A switch that does not keep the special workspace closes it before it
/// switches where the focused window sat on it, and only switches otherwise.
pub proof fn lemma_switch_closes_first(target: i32, special: bool)
    ensures
        special ==> commands(target, false, false, special) == seq![
            Command::ToggleSpecial,
            Command::Switch(target),
        ],
        !special ==> commands(target, false, false, special) == seq![Command::Switch(target)],
{
}

/// A move that does not keep the special workspace closes it after the move
/// where the focused window sat on it, and only moves otherwise.
pub proof fn lemma_move_closes_last(target: i32, special: bool)
    ensures
        special ==> commands(target, true, false, special) == seq![
            Command::MoveTo(target),
            Command::ToggleSpecial,
        ],
        !special ==> commands(target, true, false, special) == seq![Command::MoveTo(target)],
{
}

/// A change that keeps the special workspace never toggles it.
pub proof fn lemma_keep_never_toggles(target: i32, move_window: bool, special: bool)
    ensures
        !commands(target, move_window, true, special).contains(Command::ToggleSpecial),
        commands(target, move_window, true, special).len() == 1,
{
    let issued = commands(target, move_window, true, special);
    assert(issued.len() == 1);
    assert forall|i: int| 0 <= i < issued.len() implies issued[i] != Command::ToggleSpecial by {
        assert(issued[0] != Command::ToggleSpecial);
    }
}

/// What the compositor's side reports back to a change under way.
#[derive(Clone, Copy, Debug, PartialEq, Eq, Structural)]
pub enum Event {
    /// The change begins.
    Begin,
    /// The answer to the question whether the focused window sits on a
    /// special workspace.
    Special(bool),
    /// The compositor took the command that went out last.
    Done,
    /// The question or the command that went out last has failed.
    Failed,
}

/// What the compositor's side has to do next for a change under way.
#[derive(Clone, Copy, Debug, PartialEq, Eq, Structural)]
pub enum Action {
    /// Ask whether the focused window sits on a special workspace.
    AskSpecial,
    /// Send the command.
    Issue(Command),
    /// The change is complete.
    Finish,
    /// The change has ended early: nothing more goes out.
    Abort,
}

/// How far a change has come.
#[derive(Clone, Copy, Debug, PartialEq, Eq, Structural)]
pub enum Stage {
    /// Nothing has happened yet.
    Start,
    /// The question has gone out and awaits its answer.
    Asked,
    /// The first `sent` commands for the given answer have gone out; the
    /// last of them awaits its outcome.
    Sending { special: bool, sent: usize },
    /// The change is over, complete or not.
    Ended,
}

/// One change of workspace under way: what was asked for, and how far it
/// has come.
#[derive(Clone, Copy, Debug, PartialEq, Eq, Structural)]
pub struct Navigation {
    pub target: i32,
    pub move_window: bool,
    pub keep_special: bool,
    pub stage: Stage,
}

impl Navigation {
    /// The commands of this change, given the answer to its question.
    pub open spec fn plan(self, special: bool) -> Seq<Command> {
        commands(self.target, self.move_window, self.keep_special, special)
    }

    /// The same change at another stage.
    pub open spec fn at(self, stage: Stage) -> Navigation {
        Navigation { stage, ..self }
    }

    /// The stage that follows on `event`, and what has to be done then. The
    /// question goes out before any command; a switch that keeps the special
    /// workspace skips it. Each command goes out once the one before it was
    /// taken. A failure, or an event that the stage does not await, ends the
    /// change.
    pub open spec fn next(self, event: Event) -> (Stage, Action) {
        match (self.stage, event) {
            (Stage::Start, Event::Begin) => if self.move_window || !self.keep_special {
                (Stage::Asked, Action::AskSpecial)
            } else {
                (Stage::Sending { special: false, sent: 1 }, Action::Issue(self.plan(false)[0]))
            },
            (Stage::Asked, Event::Special(special)) => (
                Stage::Sending { special, sent: 1 },
                Action::Issue(self.plan(special)[0]),
            ),
            (Stage::Sending { special, sent }, Event::Done) => if sent < self.plan(special).len() {
                (
                    Stage::Sending { special, sent: (sent + 1) as usize },
                    Action::Issue(self.plan(special)[sent as int]),
                )
            } else {
                (Stage::Ended, Action::Finish)
            },
            _ => (Stage::Ended, Action::Abort),
        }
    }

    /// What has to be done, one after the other, as the events come in.
    pub open spec fn run(self, events: Seq<Event>) -> Seq<Action>
        decreases events.len(),
    {
        if events.len() == 0 {
            Seq::empty()
        } else {
            let (stage, action) = self.next(events[0]);
            seq![action] + self.at(stage).run(events.drop_first())
        }
    }

    /// A change to workspace `target` that has not begun.
    pub fn new(target: i32, move_window: bool, keep_special: bool) -> (navigation: Navigation)
        ensures
            navigation == (Navigation { target, move_window, keep_special, stage: Stage::Start }),
    {
        Navigation { target, move_window, keep_special, stage: Stage::Start }
    }

    /// Takes in `event` and says what has to be done next.
    pub fn step(&mut self, event: Event) -> (action: Action)
        ensures
            *final(self) == old(self).at(old(self).next(event).0),
            action == old(self).next(event).1,
    {
        let (stage, action): (Stage, Action) = match (self.stage, event) {
            (Stage::Start, Event::Begin) => {
                if asks_special(self.move_window, self.keep_special) {
                    (Stage::Asked, Action::AskSpecial)
                } else {
                    let plan = change_workspace(self.target, self.move_window, self.keep_special, false);
                    (Stage::Sending { special: false, sent: 1 }, Action::Issue(plan[0]))
                }
            },
            (Stage::Asked, Event::Special(special)) => {
                let plan = change_workspace(self.target, self.move_window, self.keep_special, special);
                (Stage::Sending { special, sent: 1 }, Action::Issue(plan[0]))
            },
            (Stage::Sending { special, sent }, Event::Done) => {
                let plan = change_workspace(self.target, self.move_window, self.keep_special, special);
                if sent < plan.len() {
                    (Stage::Sending { special, sent: sent + 1 }, Action::Issue(plan[sent]))
                } else {
                    (Stage::Ended, Action::Finish)
                }
            },
            _ => (Stage::Ended, Action::Abort),
        };
        self.stage = stage;
        action
    }
}

/// The events of a change in which nothing fails: the beginning, the answer
/// where the change asks, and one success for each of its commands.
pub open spec fn smooth_events(asks: bool, special: bool, sent: nat) -> Seq<Event> {
    let opening = if asks {
        seq![Event::Begin, Event::Special(special)]
    } else {
        seq![Event::Begin]
    };
    opening + Seq::new(sent, |i: int| Event::Done)
}

/// The question where the change asks, then the commands in order, then the
/// end.
pub open spec fn smooth_actions(asks: bool, plan: Seq<Command>) -> Seq<Action> {
    let opening = if asks {
        seq![Action::AskSpecial]
    } else {
        Seq::empty()
    };
    opening + plan.map_values(|command: Command| Action::Issue(command)) + seq![Action::Finish]
}

/// A change in which nothing fails asks first, where it asks at all, then
/// sends exactly its commands in their order, and then ends. A switch that
/// keeps the special workspace does not ask, and is planned as from a
/// workspace that is not special.
pub proof fn lemma_smooth_run(target: i32, move_window: bool, keep_special: bool, special: bool)
    requires
        move_window || !keep_special || !special,
    ensures
        ({
            let start = Navigation { target, move_window, keep_special, stage: Stage::Start };
            let asks = move_window || !keep_special;
            let plan = commands(target, move_window, keep_special, special);
            start.run(smooth_events(asks, special, plan.len())) == smooth_actions(asks, plan)
        }),
{
    let start = Navigation { target, move_window, keep_special, stage: Stage::Start };
    let asks = move_window || !keep_special;
    let plan = commands(target, move_window, keep_special, special);
    let events = smooth_events(asks, special, plan.len());
    reveal_with_fuel(Navigation::run, 6);
    assert(start.run(events) =~= smooth_actions(asks, plan));
}

/// After a failure nothing more goes out: the change ends at once, and an
/// ended change answers every event by ending again.
pub proof fn lemma_failure_ends(navigation: Navigation, later: Event)
    ensures
        navigation.next(Event::Failed) == (Stage::Ended, Action::Abort),
        navigation.at(Stage::Ended).next(later) == (Stage::Ended, Action::Abort),
{
}

} // verus!
