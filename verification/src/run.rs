//! The run as a whole: which processes are started, when the run is over,
//! and with which exit code.

use crate::args::{Args, ArgsView, DirectiveView};
use crate::command::{
    is_blank, output_for, raw, raw_command, shell, shell_command, spawn, words, CommandView,
    Input, Spawn, SpawnView,
};
use crate::proxy::{endpoint_target, target_text};
use vstd::prelude::*;

verus! {

/// How a process ended: with an exit code, or without one where a signal
/// ended it.
#[derive(Clone, Copy, Debug, PartialEq, Eq)]
pub struct Outcome {
    pub code: Option<i32>,
}

impl Outcome {
    /// Whether the process succeeded: it ended with exit code 0.
    pub open spec fn succeeded(self) -> bool {
        self.code == Some(0i32)
    }

    /// The exit code that the process stands for in the result of the run:
    /// its own, or 1 where it ended without one.
    pub open spec fn exit_code(self) -> i32 {
        match self.code {
            Some(code) => code,
            None => 1,
        }
    }

    /// Whether the process succeeded.
    pub fn success(&self) -> (b: bool)
        ensures
            b == self.succeeded(),
    {
        match self.code {
            Some(code) => code == 0,
            None => false,
        }
    }
}

/// The exit code of the run: that of the first process, in the order in
/// which the processes were declared, that did not succeed; 0 where all
/// succeeded.
pub open spec fn exit_code(outcomes: Seq<Outcome>) -> i32
    decreases outcomes.len(),
{
    if outcomes.len() == 0 {
        0
    } else if !outcomes[0].succeeded() {
        outcomes[0].exit_code()
    } else {
        exit_code(outcomes.drop_first())
    }
}

/// Where the process at `first` failed and all before it succeeded, the
/// exit code of the run is the one that this process stands for, whatever
/// the processes after it did.
pub proof fn exit_code_is_first_failure(outcomes: Seq<Outcome>, first: int)
    requires
        0 <= first < outcomes.len(),
        !outcomes[first].succeeded(),
        forall|i: int| 0 <= i < first ==> outcomes[i].succeeded(),
    ensures
        exit_code(outcomes) == outcomes[first].exit_code(),
        exit_code(outcomes) != 0,
    decreases first,
{
    if first > 0 {
        let rest = outcomes.drop_first();
        assert forall|i: int| 0 <= i < first - 1 implies rest[i].succeeded() by {
            assert(rest[i] == outcomes[i + 1]);
        }
        exit_code_is_first_failure(rest, first - 1);
    }
}

/// The exit code of the run is 0 exactly when every process succeeded.
pub proof fn exit_code_is_zero_on_success(outcomes: Seq<Outcome>)
    ensures
        exit_code(outcomes) == 0 <==> forall|i: int|
            0 <= i < outcomes.len() ==> outcomes[i].succeeded(),
    decreases outcomes.len(),
{
    if outcomes.len() > 0 {
        let rest = outcomes.drop_first();
        exit_code_is_zero_on_success(rest);
        if outcomes[0].succeeded() {
            if exit_code(outcomes) == 0 {
                assert forall|i: int| 0 <= i < outcomes.len() implies outcomes[i].succeeded() by {
                    if i > 0 {
                        assert(outcomes[i] == rest[i - 1]);
                    }
                }
            } else {
                let i = choose|i: int| 0 <= i < rest.len() && !rest[i].succeeded();
                assert(!outcomes[i + 1].succeeded());
            }
        }
    }
}

/// The exit code of a run whose processes ended with `outcomes`.
pub fn aggregate(outcomes: &Vec<Outcome>) -> (code: i32)
    ensures
        code == exit_code(outcomes@),
{
    let mut i: usize = 0;
    assert(outcomes@.subrange(0, outcomes.len() as int) =~= outcomes@);
    while i < outcomes.len()
        invariant
            i <= outcomes.len(),
            exit_code(outcomes@) == exit_code(outcomes@.subrange(i as int, outcomes.len() as int)),
        decreases outcomes.len() - i,
    {
        let ghost rest = outcomes@.subrange(i as int, outcomes.len() as int);
        assert(rest[0] == outcomes@[i as int]);
        if !outcomes[i].success() {
            return match outcomes[i].code {
                Some(code) => code,
                None => 1,
            };
        }
        assert(rest.drop_first() =~= outcomes@.subrange(i + 1, outcomes.len() as int));
        i += 1;
    }
    assert(outcomes@.subrange(i as int, outcomes.len() as int).len() == 0);
    0
}

/// What the supervisor of a run is told.
#[derive(Clone, Copy, Debug, PartialEq, Eq)]
pub enum Event {
    /// The process at `index` has ended.
    Exited { index: usize, outcome: Outcome },
    /// A process could not be started or waited for.
    Failed,
    /// An interrupt was received.
    Interrupted,
    /// Interrupts could not be listened for.
    InterruptFailed,
}

/// What the supervisor of a run asks for.
#[derive(Clone, Copy, Debug, PartialEq, Eq)]
pub enum Action {
    /// Go on waiting: some process has not ended yet.
    Wait,
    /// End the run with this exit code, dropping whatever is still going on.
    Exit { code: i32 },
    /// End the run with an error.
    Abort,
}

/// Watches over the processes of a run until all of them have ended.
#[derive(Debug)]
pub struct Supervisor {
    outcomes: Vec<Option<Outcome>>,
    interrupted: bool,
    aborted: bool,
}

/// The mathematical value of a [`Supervisor`]: how each process ended, for
/// those that have, and whether an interrupt or an error has been met.
pub struct SupervisorView {
    pub outcomes: Seq<Option<Outcome>>,
    pub interrupted: bool,
    pub aborted: bool,
}

impl View for Supervisor {
    type V = SupervisorView;

    closed spec fn view(&self) -> SupervisorView {
        SupervisorView {
            outcomes: self.outcomes@,
            interrupted: self.interrupted,
            aborted: self.aborted,
        }
    }
}

/// Whether every process has ended.
pub open spec fn all_exited(outcomes: Seq<Option<Outcome>>) -> bool {
    forall|i: int| 0 <= i < outcomes.len() ==> outcomes[i] is Some
}

/// How the processes ended, once all of them have.
pub open spec fn known(outcomes: Seq<Option<Outcome>>) -> Seq<Outcome> {
    Seq::new(outcomes.len(), |i: int| outcomes[i]->0)
}

/// The state of a run of `count` processes before anything has happened.
pub open spec fn supervisor_start(count: nat) -> SupervisorView {
    SupervisorView {
        outcomes: Seq::new(count, |i: int| None::<Outcome>),
        interrupted: false,
        aborted: false,
    }
}

/// The state that follows `state` on `event`.
///
/// The end of a process is noted in its place; only the first word on a
/// process counts. An interrupt is noted and changes nothing else: no
/// process is stopped, and the run goes on until all have ended by
/// themselves. An error ends the run, and nothing is noted after it.
pub open spec fn supervise(state: SupervisorView, event: Event) -> SupervisorView {
    if state.aborted {
        state
    } else {
        match event {
            Event::Exited { index, outcome } => if index < state.outcomes.len()
                && state.outcomes[index as int] is None {
                SupervisorView {
                    outcomes: state.outcomes.update(index as int, Some(outcome)),
                    ..state
                }
            } else {
                state
            },
            Event::Failed => SupervisorView { aborted: true, ..state },
            Event::Interrupted => SupervisorView { interrupted: true, ..state },
            Event::InterruptFailed => SupervisorView { aborted: true, ..state },
        }
    }
}

/// What is to be done in `state`: after an error the run is aborted; once
/// every process has ended the run exits with its exit code; until then it
/// waits.
pub open spec fn supervisor_action(state: SupervisorView) -> Action {
    if state.aborted {
        Action::Abort
    } else if all_exited(state.outcomes) {
        Action::Exit { code: exit_code(known(state.outcomes)) }
    } else {
        Action::Wait
    }
}

/// The state of a run of `count` processes after `events`.
pub open spec fn supervised(count: nat, events: Seq<Event>) -> SupervisorView
    decreases events.len(),
{
    if events.len() == 0 {
        supervisor_start(count)
    } else {
        supervise(supervised(count, events.drop_last()), events.last())
    }
}

impl Supervisor {
    /// The supervisor of a run of `count` processes, none of which has
    /// ended yet.
    pub fn new(count: usize) -> (r: Supervisor)
        ensures
            r@ == supervisor_start(count as nat),
    {
        let mut outcomes: Vec<Option<Outcome>> = Vec::new();
        let mut i: usize = 0;
        while i < count
            invariant
                i <= count,
                outcomes@ == Seq::new(i as nat, |k: int| None::<Outcome>),
            decreases count - i,
        {
            outcomes.push(None);
            assert(outcomes@ =~= Seq::new((i + 1) as nat, |k: int| None::<Outcome>));
            i += 1;
        }
        Supervisor { outcomes, interrupted: false, aborted: false }
    }

    /// Whether an interrupt has been received.
    pub fn interrupted(&self) -> (b: bool)
        ensures
            b == self@.interrupted,
    {
        self.interrupted
    }

    /// What is to be done now.
    pub fn action(&self) -> (r: Action)
        ensures
            r == supervisor_action(self@),
    {
        if self.aborted {
            return Action::Abort;
        }
        let mut ended: Vec<Outcome> = Vec::new();
        let mut i: usize = 0;
        while i < self.outcomes.len()
            invariant
                i <= self.outcomes.len(),
                !self.aborted,
                forall|k: int| 0 <= k < i ==> self.outcomes@[k] is Some,
                ended@ == known(self.outcomes@).take(i as int),
            decreases self.outcomes.len() - i,
        {
            match self.outcomes[i] {
                None => {
                    assert(!(self.outcomes@[i as int] is Some));
                    return Action::Wait;
                },
                Some(outcome) => {
                    ended.push(outcome);
                    assert(ended@ =~= known(self.outcomes@).take(i + 1));
                },
            }
            i += 1;
        }
        assert(ended@ =~= known(self.outcomes@));
        Action::Exit { code: aggregate(&ended) }
    }

    /// Takes in what has happened and says what is to be done next.
    pub fn wait(&mut self, event: Event) -> (r: Action)
        ensures
            final(self)@ == supervise(old(self)@, event),
            r == supervisor_action(final(self)@),
    {
        if !self.aborted {
            match event {
                Event::Exited { index, outcome } => {
                    if index < self.outcomes.len() && self.outcomes[index].is_none() {
                        self.outcomes.set(index, Some(outcome));
                    }
                },
                Event::Failed => {
                    self.aborted = true;
                },
                Event::Interrupted => {
                    self.interrupted = true;
                },
                Event::InterruptFailed => {
                    self.aborted = true;
                },
            }
        }
        self.action()
    }
}

/// Whether `events` report the end of the process at `index`.
pub open spec fn reported(events: Seq<Event>, index: int) -> bool {
    exists|k: int|
        0 <= k < events.len() && #[trigger] events[k] is Exited && events[k]->index == index
}

/// Whether each of `events` is an interrupt or reports the end of a process
/// with the outcome that `outcomes` names for it.
pub open spec fn truthful(events: Seq<Event>, outcomes: Seq<Outcome>) -> bool {
    forall|k: int|
        0 <= k < events.len() ==> match #[trigger] events[k] {
            Event::Exited { index, outcome } => index < outcomes.len() && outcome
                == outcomes[index as int],
            Event::Interrupted => true,
            _ => false,
        }
}

/// The exit code of a run does not depend on the order in which its
/// processes end, nor on when an interrupt arrives.
///
/// Let `events` report, in any order, the end of every process with the
/// outcome that `outcomes` names for it, with interrupts anywhere between.
/// Then the supervisor knows every outcome, and asks to exit with the code
/// of the first process in the order of declaration that did not succeed.
pub proof fn exit_code_ignores_order(outcomes: Seq<Outcome>, events: Seq<Event>)
    requires
        truthful(events, outcomes),
        forall|i: int| 0 <= i < outcomes.len() ==> #[trigger] reported(events, i),
    ensures
        known(supervised(outcomes.len(), events).outcomes) == outcomes,
        supervisor_action(supervised(outcomes.len(), events)) == (Action::Exit {
            code: exit_code(outcomes),
        }),
{
    lemma_supervised_slots(outcomes, events);
    let state = supervised(outcomes.len(), events);
    assert forall|i: int| 0 <= i < outcomes.len() implies state.outcomes[i] == Some(
        outcomes[i],
    ) by {
        assert(reported(events, i));
    }
    assert(known(state.outcomes) =~= outcomes);
}

/// After events that report outcomes truly, every process whose end was
/// reported is known with its outcome, and nothing else is.
proof fn lemma_supervised_slots(outcomes: Seq<Outcome>, events: Seq<Event>)
    requires
        truthful(events, outcomes),
    ensures
        supervised(outcomes.len(), events).outcomes.len() == outcomes.len(),
        !supervised(outcomes.len(), events).aborted,
        forall|i: int|
            0 <= i < outcomes.len() ==> #[trigger] supervised(
                outcomes.len(),
                events,
            ).outcomes[i] == if reported(events, i) {
                Some(outcomes[i])
            } else {
                None
            },
    decreases events.len(),
{
    if events.len() > 0 {
        let front = events.drop_last();
        assert(truthful(front, outcomes)) by {
            assert forall|k: int| 0 <= k < front.len() implies match #[trigger] front[k] {
                Event::Exited { index, outcome } => index < outcomes.len() && outcome
                    == outcomes[index as int],
                Event::Interrupted => true,
                _ => false,
            } by {
                assert(front[k] == events[k]);
            }
        }
        lemma_supervised_slots(outcomes, front);
        let before = supervised(outcomes.len(), front);
        let after = supervised(outcomes.len(), events);
        let last = events.last();
        assert(events[events.len() - 1] == last);
        assert forall|i: int| 0 <= i < outcomes.len() implies #[trigger] after.outcomes[i]
            == if reported(events, i) {
            Some(outcomes[i])
        } else {
            None
        } by {
            if reported(front, i) {
                let k = choose|k: int|
                    0 <= k < front.len() && #[trigger] front[k] is Exited && front[k]->index == i;
                assert(events[k] == front[k]);
                assert(reported(events, i));
            }
            if last is Exited && last->index == i {
                assert(events[events.len() - 1] is Exited);
                assert(reported(events, i));
            }
            if reported(events, i) && !reported(front, i) {
                let k = choose|k: int|
                    0 <= k < events.len() && #[trigger] events[k] is Exited && events[k]->index
                        == i;
                if k < front.len() {
                    assert(front[k] == events[k]);
                    assert(false);
                }
            }
        }
    } else {
        assert forall|i: int| 0 <= i < outcomes.len() implies !reported(events, i) by {}
    }
}

/// The place of the first raw command that holds no word, and so names no
/// program to run; `None` where every raw command names one.
pub fn first_blank(raw_commands: &Vec<String>) -> (r: Option<usize>)
    ensures
        match r {
            Some(place) => {
                &&& place < raw_commands.len()
                &&& words(raw_commands@[place as int]@).len() == 0
                &&& forall|i: int| 0 <= i < place ==> words(#[trigger] raw_commands@[i]@).len() > 0
            },
            None => forall|i: int|
                0 <= i < raw_commands.len() ==> words(#[trigger] raw_commands@[i]@).len() > 0,
        },
{
    let mut i: usize = 0;
    while i < raw_commands.len()
        invariant
            i <= raw_commands.len(),
            forall|k: int| 0 <= k < i ==> words(#[trigger] raw_commands@[k]@).len() > 0,
        decreases raw_commands.len() - i,
    {
        if is_blank(raw_commands[i].as_str()) {
            return Some(i);
        }
        i += 1;
    }
    None
}

/// The process that a command becomes in a run: the command, with its output
/// and its errors going where the run as a whole sends them.
pub open spec fn spawned(command: CommandView, buffered: bool) -> SpawnView {
    SpawnView { command, stdout: output_for(buffered), stderr: output_for(buffered) }
}

/// The processes of a run, in the order in which they are started and
/// counted: the commands for the shell in the order given, then the raw
/// commands in the order given.
pub open spec fn planned(args: ArgsView) -> Seq<SpawnView> {
    Seq::new(
        args.commands.len(),
        |i: int|
            spawned(
                shell_command(args.shell, args.shell_args, args.commands[i]),
                args.buffered,
            ),
    ) + Seq::new(
        args.raw_commands.len(),
        |i: int| spawned(raw_command(args.raw_commands[i]), args.buffered),
    )
}

/// The processes to start, in order.
pub fn plan(args: &Args) -> (r: Vec<Spawn>)
    requires
        forall|i: int|
            0 <= i < args@.raw_commands.len() ==> words(#[trigger] args@.raw_commands[i]).len() > 0,
    ensures
        r.deep_view() == planned(args@),
{
    let mut all: Vec<Spawn> = Vec::new();
    let ghost in_shell = Seq::new(
        args@.commands.len(),
        |i: int|
            spawned(
                shell_command(args@.shell, args@.shell_args, args@.commands[i]),
                args@.buffered,
            ),
    );
    let ghost without = Seq::new(
        args@.raw_commands.len(),
        |i: int| spawned(raw_command(args@.raw_commands[i]), args@.buffered),
    );
    let mut i: usize = 0;
    assert(all.deep_view() =~= in_shell.take(0));
    while i < args.commands.len()
        invariant
            i <= args.commands.len(),
            in_shell == Seq::new(
                args@.commands.len(),
                |i: int|
                    spawned(
                        shell_command(args@.shell, args@.shell_args, args@.commands[i]),
                        args@.buffered,
                    ),
            ),
            all.deep_view() == in_shell.take(i as int),
        decreases args.commands.len() - i,
    {
        let ghost before = all.deep_view();
        let command = shell(args.shell.as_str(), &args.shell_args, args.commands[i].as_str());
        let process = spawn(command, args.buffered);
        assert(process@ == in_shell[i as int]);
        all.push(process);
        assert(all.deep_view() =~= before.push(process@));
        assert(all.deep_view() =~= in_shell.take(i + 1));
        i += 1;
    }
    assert(all.deep_view() =~= in_shell + without.take(0));
    let mut j: usize = 0;
    while j < args.raw_commands.len()
        invariant
            j <= args.raw_commands.len(),
            without == Seq::new(
                args@.raw_commands.len(),
                |i: int| spawned(raw_command(args@.raw_commands[i]), args@.buffered),
            ),
            all.deep_view() == in_shell + without.take(j as int),
            forall|i: int|
                0 <= i < args@.raw_commands.len() ==> words(#[trigger] args@.raw_commands[i]).len()
                    > 0,
        decreases args.raw_commands.len() - j,
    {
        let ghost before = all.deep_view();
        assert(words(args@.raw_commands[j as int]).len() > 0);
        let command = raw(args.raw_commands[j].as_str());
        let process = spawn(command, args.buffered);
        assert(process@ == without[j as int]);
        all.push(process);
        assert(all.deep_view() =~= before.push(process@));
        assert(all.deep_view() =~= in_shell + without.take(j + 1));
        j += 1;
    }
    assert(without.take(j as int) =~= without);
    all
}

/// The places, in a list of processes, of those that read from a pipe, in
/// rising order: these are given the input of the program, in this order.
pub open spec fn piped(processes: Seq<SpawnView>) -> Seq<int>
    decreases processes.len(),
{
    if processes.len() == 0 {
        Seq::empty()
    } else if processes.last().command.stdin == Input::Piped {
        piped(processes.drop_last()).push(processes.len() - 1)
    } else {
        piped(processes.drop_last())
    }
}

/// The places of the processes that are given the input of the program, in
/// the order in which each chunk of input reaches them.
pub fn receivers(processes: &Vec<Spawn>) -> (r: Vec<usize>)
    ensures
        r@.map_values(|place: usize| place as int) == piped(processes.deep_view()),
{
    let mut found: Vec<usize> = Vec::new();
    let mut i: usize = 0;
    assert(processes.deep_view().take(0).len() == 0);
    assert(found@.map_values(|place: usize| place as int) =~= Seq::<int>::empty());
    while i < processes.len()
        invariant
            i <= processes.len(),
            found@.map_values(|place: usize| place as int) == piped(
                processes.deep_view().take(i as int),
            ),
        decreases processes.len() - i,
    {
        let ghost before = found@.map_values(|place: usize| place as int);
        let ghost now = processes.deep_view().take(i + 1);
        proof {
            assert(now.drop_last() =~= processes.deep_view().take(i as int));
            assert(now.last() == processes@[i as int]@);
        }
        match processes[i].command.stdin {
            Input::Piped => {
                found.push(i);
                assert(found@.map_values(|place: usize| place as int) =~= before.push(i as int));
            },
            Input::Closed => {},
        }
        i += 1;
    }
    assert(processes.deep_view().take(i as int) =~= processes.deep_view());
    found
}

/// Every process that reads from a pipe is given the input, no other is,
/// and those that are stand in the order in which they were started.
pub proof fn receivers_are_the_piped_processes(processes: Seq<SpawnView>)
    ensures
        forall|k: int|
            0 <= k < piped(processes).len() ==> 0 <= #[trigger] piped(processes)[k]
                < processes.len() && processes[piped(processes)[k]].command.stdin == Input::Piped,
        forall|j: int, k: int|
            0 <= j < k < piped(processes).len() ==> piped(processes)[j] < piped(processes)[k],
        forall|i: int|
            0 <= i < processes.len() && (#[trigger] processes[i]).command.stdin == Input::Piped
                ==> piped(processes).contains(i),
    decreases processes.len(),
{
    if processes.len() > 0 {
        let front = processes.drop_last();
        receivers_are_the_piped_processes(front);
        let all = piped(processes);
        let head = piped(front);
        assert forall|k: int| 0 <= k < all.len() implies 0 <= #[trigger] all[k] < processes.len()
            && processes[all[k]].command.stdin == Input::Piped by {
            if k < head.len() {
                assert(all[k] == head[k]);
                assert(front[head[k]] == processes[head[k]]);
            }
        }
        assert forall|j: int, k: int| 0 <= j < k < all.len() implies all[j] < all[k] by {
            assert(all[j] == head[j]);
            if k < head.len() {
                assert(all[k] == head[k]);
            }
        }
        assert forall|i: int|
            0 <= i < processes.len() && (#[trigger] processes[i]).command.stdin
                == Input::Piped implies all.contains(i) by {
            if i < front.len() {
                assert(front[i] == processes[i]);
                assert(head.contains(i));
                let k = choose|k: int| 0 <= k < head.len() && head[k] == i;
                assert(all[k] == i);
            } else {
                assert(all[all.len() - 1] == i);
            }
        }
    }
}

/// The parts with one space between each two.
pub open spec fn spaced(parts: Seq<Seq<char>>) -> Seq<char>
    decreases parts.len(),
{
    if parts.len() == 0 {
        Seq::empty()
    } else if parts.len() == 1 {
        parts[0]
    } else {
        spaced(parts.drop_last()) + seq![' '] + parts.last()
    }
}

/// The shell as it is shown: the shell, and after a space its arguments,
/// unless they come to nothing.
pub open spec fn shell_text(shell: Seq<char>, shell_args: Seq<Seq<char>>) -> Seq<char> {
    if spaced(shell_args).len() > 0 {
        shell + seq![' '] + spaced(shell_args)
    } else {
        shell
    }
}

/// The line that announces a directive.
pub open spec fn proxy_line(directive: DirectiveView) -> Seq<char> {
    "Proxying connections from `"@ + target_text(endpoint_target(directive.source)) + "` to `"@
        + target_text(endpoint_target(directive.destination)) + "`"@
}

/// The line that announces a command for the shell.
pub open spec fn shell_line(shell: Seq<char>, command: Seq<char>) -> Seq<char> {
    "Spawning `"@ + shell + seq![' '] + command + "`"@
}

/// The line that announces a raw command.
pub open spec fn raw_line(command: Seq<char>) -> Seq<char> {
    "Spawning `"@ + command + "`"@
}

/// The empty line that closes a group of lines, if the group has any.
pub open spec fn gap(group_len: nat) -> Seq<Seq<char>> {
    if group_len > 0 {
        seq![Seq::empty()]
    } else {
        Seq::empty()
    }
}

/// The lines that announce what a run is about to do: one for each
/// directive, one for each command for the shell, one for each raw command,
/// with an empty line after the directives and one after the commands where
/// there are any.
pub open spec fn banner_lines(args: ArgsView) -> Seq<Seq<char>> {
    Seq::new(args.proxies.len(), |i: int| proxy_line(args.proxies[i])) + gap(args.proxies.len())
        + Seq::new(
        args.commands.len(),
        |i: int| shell_line(shell_text(args.shell, args.shell_args), args.commands[i]),
    ) + Seq::new(args.raw_commands.len(), |i: int| raw_line(args.raw_commands[i])) + gap(
        args.commands.len() + args.raw_commands.len(),
    )
}

/// The parts with one space between each two.
pub fn join_spaced(parts: &Vec<String>) -> (r: String)
    ensures
        r@ == spaced(parts.deep_view()),
{
    let mut out = String::new();
    let mut i: usize = 0;
    assert(parts.deep_view().take(0) =~= Seq::<Seq<char>>::empty());
    while i < parts.len()
        invariant
            i <= parts.len(),
            out@ == spaced(parts.deep_view().take(i as int)),
        decreases parts.len() - i,
    {
        let ghost now = parts.deep_view().take(i + 1);
        proof {
            reveal_strlit(" ");
            assert(now.drop_last() =~= parts.deep_view().take(i as int));
            assert(now.last() == parts@[i as int]@);
        }
        if i > 0 {
            out.append(" ");
        }
        out.append(parts[i].as_str());
        assert(out@ =~= spaced(now));
        i += 1;
    }
    assert(parts.deep_view().take(i as int) =~= parts.deep_view());
    out
}

/// The lines that announce what a run is about to do.
pub fn banner(args: &Args) -> (r: Vec<String>)
    ensures
        r.deep_view() == banner_lines(args@),
{
    let ghost proxy_lines = Seq::new(args@.proxies.len(), |i: int| proxy_line(args@.proxies[i]));
    let ghost prefix = shell_text(args@.shell, args@.shell_args);
    let ghost shell_lines = Seq::new(
        args@.commands.len(),
        |i: int| shell_line(shell_text(args@.shell, args@.shell_args), args@.commands[i]),
    );
    let ghost raw_lines = Seq::new(
        args@.raw_commands.len(),
        |i: int| raw_line(args@.raw_commands[i]),
    );
    let mut out: Vec<String> = Vec::new();
    assert(out.deep_view() =~= proxy_lines.take(0));
    let mut i: usize = 0;
    while i < args.proxies.len()
        invariant
            i <= args.proxies.len(),
            proxy_lines == Seq::new(args@.proxies.len(), |i: int| proxy_line(args@.proxies[i])),
            out.deep_view() == proxy_lines.take(i as int),
        decreases args.proxies.len() - i,
    {
        let ghost before = out.deep_view();
        let mut line = String::from_str("Proxying connections from `");
        line.append(args.proxies[i].source.format().as_str());
        line.append("` to `");
        line.append(args.proxies[i].destination.format().as_str());
        line.append("`");
        assert(line@ =~= proxy_line(args@.proxies[i as int]));
        out.push(line);
        assert(out.deep_view() =~= before.push(proxy_lines[i as int]));
        assert(out.deep_view() =~= proxy_lines.take(i + 1));
        i += 1;
    }
    assert(proxy_lines.take(i as int) =~= proxy_lines);
    if args.proxies.len() > 0 {
        let ghost before = out.deep_view();
        out.push(String::new());
        assert(out.deep_view() =~= before.push(Seq::empty()));
    }
    let ghost head = proxy_lines + gap(args@.proxies.len());
    assert(out.deep_view() =~= head + shell_lines.take(0));

    let joined = join_spaced(&args.shell_args);
    let mut shown = args.shell.clone();
    if !joined.as_str().is_empty() {
        proof {
            reveal_strlit(" ");
        }
        shown.append(" ");
        shown.append(joined.as_str());
    }
    assert(shown@ =~= prefix);
    let mut j: usize = 0;
    while j < args.commands.len()
        invariant
            j <= args.commands.len(),
            shown@ == shell_text(args@.shell, args@.shell_args),
            shell_lines == Seq::new(
                args@.commands.len(),
                |i: int| shell_line(shell_text(args@.shell, args@.shell_args), args@.commands[i]),
            ),
            out.deep_view() == head + shell_lines.take(j as int),
        decreases args.commands.len() - j,
    {
        let ghost before = out.deep_view();
        proof {
            reveal_strlit(" ");
        }
        let mut line = String::from_str("Spawning `");
        line.append(shown.as_str());
        line.append(" ");
        line.append(args.commands[j].as_str());
        line.append("`");
        assert(line@ =~= shell_lines[j as int]);
        out.push(line);
        assert(out.deep_view() =~= before.push(shell_lines[j as int]));
        assert(out.deep_view() =~= head + shell_lines.take(j + 1));
        j += 1;
    }
    assert(shell_lines.take(j as int) =~= shell_lines);
    assert(out.deep_view() =~= head + shell_lines + raw_lines.take(0));
    let mut k: usize = 0;
    while k < args.raw_commands.len()
        invariant
            k <= args.raw_commands.len(),
            raw_lines == Seq::new(
                args@.raw_commands.len(),
                |i: int| raw_line(args@.raw_commands[i]),
            ),
            out.deep_view() == head + shell_lines + raw_lines.take(k as int),
        decreases args.raw_commands.len() - k,
    {
        let ghost before = out.deep_view();
        let mut line = String::from_str("Spawning `");
        line.append(args.raw_commands[k].as_str());
        line.append("`");
        assert(line@ =~= raw_lines[k as int]);
        out.push(line);
        assert(out.deep_view() =~= before.push(raw_lines[k as int]));
        assert(out.deep_view() =~= head + shell_lines + raw_lines.take(k + 1));
        k += 1;
    }
    assert(raw_lines.take(k as int) =~= raw_lines);
    if args.commands.len() > 0 || args.raw_commands.len() > 0 {
        let ghost before = out.deep_view();
        out.push(String::new());
        assert(out.deep_view() =~= before.push(Seq::empty()));
    }
    assert(out.deep_view() =~= banner_lines(args@));
    out
}

} // verus!
