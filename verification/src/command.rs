//! Commands: how one is put together, how its output is cut into lines, and
//! how input reaches every process.

use crate::lines::{ends_line, held_back, released, unbroken, LineBuffer};
use crate::text::{chars_of, slice_of};
use vstd::prelude::*;

verus! {

/// Whether a character is white space: a character with the Unicode property
/// `White_Space`.
pub open spec fn is_whitespace(c: char) -> bool {
    let n = c as int;
    ||| 0x09 <= n <= 0x0d
    ||| n == 0x20
    ||| n == 0x85
    ||| n == 0xa0
    ||| n == 0x1680
    ||| 0x2000 <= n <= 0x200a
    ||| n == 0x2028
    ||| n == 0x2029
    ||| n == 0x202f
    ||| n == 0x205f
    ||| n == 0x3000
}

/// Whether a character is white space.
pub fn whitespace(c: char) -> (b: bool)
    ensures
        b == is_whitespace(c),
{
    let n: u32 = c as u32;
    (0x09 <= n && n <= 0x0d) || n == 0x20 || n == 0x85 || n == 0xa0 || n == 0x1680 || (0x2000
        <= n && n <= 0x200a) || n == 0x2028 || n == 0x2029 || n == 0x202f || n == 0x205f || n
        == 0x3000
}

/// How many characters stand at the start of `s` before its first white
/// space, or before its end.
pub open spec fn word_len(s: Seq<char>) -> nat
    decreases s.len(),
{
    if s.len() == 0 || is_whitespace(s[0]) {
        0
    } else {
        1 + word_len(s.drop_first())
    }
}

/// The words of `s`: its longest runs of characters that are not white
/// space, in order.
pub open spec fn words(s: Seq<char>) -> Seq<Seq<char>>
    decreases s.len(),
{
    if s.len() == 0 {
        Seq::empty()
    } else if is_whitespace(s[0]) {
        words(s.drop_first())
    } else {
        proof {
            lemma_word_len_bounds(s);
        }
        let n = word_len(s) as int;
        seq![s.subrange(0, n)] + words(s.subrange(n, s.len() as int))
    }
}

/// A word is no longer than the text it starts, and not empty where the text
/// starts with something other than white space.
pub proof fn lemma_word_len_bounds(s: Seq<char>)
    ensures
        word_len(s) <= s.len(),
        s.len() > 0 && !is_whitespace(s[0]) ==> word_len(s) >= 1,
    decreases s.len(),
{
    if s.len() > 0 && !is_whitespace(s[0]) {
        lemma_word_len_bounds(s.drop_first());
    }
}

/// Where the first `m` characters are not white space and the next one is,
/// or the text ends there, the leading word has `m` characters.
proof fn lemma_word_len_is(s: Seq<char>, m: int)
    requires
        0 <= m <= s.len(),
        forall|k: int| 0 <= k < m ==> !is_whitespace(s[k]),
        m == s.len() || is_whitespace(s[m]),
    ensures
        word_len(s) == m,
    decreases m,
{
    if m > 0 {
        let rest = s.drop_first();
        assert forall|k: int| 0 <= k < m - 1 implies !is_whitespace(rest[k]) by {
            assert(rest[k] == s[k + 1]);
        }
        lemma_word_len_is(rest, m - 1);
    }
}

/// Text has no words exactly when it is white space throughout.
pub proof fn lemma_no_words(s: Seq<char>)
    ensures
        words(s).len() == 0 <==> forall|k: int| 0 <= k < s.len() ==> is_whitespace(s[k]),
    decreases s.len(),
{
    if s.len() > 0 {
        if is_whitespace(s[0]) {
            let rest = s.drop_first();
            lemma_no_words(rest);
            if words(s).len() == 0 {
                assert forall|k: int| 0 <= k < s.len() implies is_whitespace(s[k]) by {
                    if k > 0 {
                        assert(s[k] == rest[k - 1]);
                    }
                }
            } else {
                let k = choose|k: int| 0 <= k < rest.len() && !is_whitespace(rest[k]);
                assert(!is_whitespace(s[k + 1]));
            }
        }
    }
}

/// The words of `s`.
pub fn split_words(s: &str) -> (r: Vec<String>)
    ensures
        r.deep_view() == words(s@),
{
    let chars = chars_of(s);
    let n = chars.len();
    let mut out: Vec<String> = Vec::new();
    let mut i: usize = 0;
    assert(out.deep_view() =~= Seq::<Seq<char>>::empty());
    assert(s@.subrange(0, n as int) =~= s@);
    while i < n
        invariant
            i <= n,
            n == chars.len(),
            chars@ == s@,
            words(s@) == out.deep_view() + words(s@.subrange(i as int, n as int)),
        decreases n - i,
    {
        let ghost rest = s@.subrange(i as int, n as int);
        if whitespace(chars[i]) {
            assert(rest.drop_first() =~= s@.subrange(i + 1, n as int));
            i += 1;
        } else {
            let mut j: usize = i + 1;
            while j < n && !whitespace(chars[j])
                invariant
                    i < j <= n,
                    n == chars.len(),
                    forall|k: int| i <= k < j ==> !is_whitespace(chars@[k]),
                decreases n - j,
            {
                j += 1;
            }
            proof {
                assert forall|k: int| 0 <= k < j - i implies !is_whitespace(rest[k]) by {
                    assert(rest[k] == chars@[i + k]);
                }
                lemma_word_len_is(rest, j - i);
                assert(rest.subrange(0, j - i) =~= s@.subrange(i as int, j as int));
                assert(rest.subrange(j - i, rest.len() as int) =~= s@.subrange(
                    j as int,
                    n as int,
                ));
            }
            let ghost before = out.deep_view();
            let word = slice_of(s, i, j);
            out.push(word);
            assert(out.deep_view() =~= before + seq![s@.subrange(i as int, j as int)]);
            assert(words(s@) =~= out.deep_view() + words(s@.subrange(j as int, n as int)));
            i = j;
        }
    }
    assert(words(s@.subrange(n as int, n as int)) =~= Seq::<Seq<char>>::empty());
    assert(words(s@) =~= out.deep_view());
    out
}

/// Whether `s` holds no word.
pub fn is_blank(s: &str) -> (b: bool)
    ensures
        b == (words(s@).len() == 0),
{
    let chars = chars_of(s);
    let mut i: usize = 0;
    proof {
        lemma_no_words(s@);
    }
    while i < chars.len()
        invariant
            i <= chars.len(),
            chars@ == s@,
            forall|k: int| 0 <= k < i ==> is_whitespace(chars@[k]),
            words(s@).len() == 0 <==> forall|k: int| 0 <= k < s@.len() ==> is_whitespace(s@[k]),
        decreases chars.len() - i,
    {
        if !whitespace(chars[i]) {
            assert(!is_whitespace(s@[i as int]));
            return false;
        }
        i += 1;
    }
    true
}

/// What a process reads as its input.
#[derive(Clone, Copy, Debug, PartialEq, Eq, Structural)]
pub enum Input {
    /// A pipe, whose writing end is handed out for broadcasting.
    Piped,
    /// Nothing: the input is closed from the start.
    Closed,
}

/// Where the output of a process goes.
#[derive(Clone, Copy, Debug, PartialEq, Eq, Structural)]
pub enum Output {
    /// Straight to the stream of the program itself.
    Inherited,
    /// Into a pipe that the program drains line by line.
    Piped,
}

/// A process to start: the program, its arguments, and what it reads.
#[derive(Clone, Debug, PartialEq, Eq)]
pub struct Command {
    pub program: String,
    pub args: Vec<String>,
    pub stdin: Input,
}

/// The mathematical value of a [`Command`].
pub struct CommandView {
    pub program: Seq<char>,
    pub args: Seq<Seq<char>>,
    pub stdin: Input,
}

impl View for Command {
    type V = CommandView;

    open spec fn view(&self) -> CommandView {
        CommandView { program: self.program@, args: self.args.deep_view(), stdin: self.stdin }
    }
}

impl DeepView for Command {
    type V = CommandView;

    open spec fn deep_view(&self) -> CommandView {
        self@
    }
}

/// The process that runs `cmd` in a shell: the shell is the program, and it
/// is given its own arguments and then the command as one last argument. It
/// reads from a pipe.
pub open spec fn shell_command(
    shell: Seq<char>,
    args: Seq<Seq<char>>,
    cmd: Seq<char>,
) -> CommandView {
    CommandView { program: shell, args: args.push(cmd), stdin: Input::Piped }
}

/// The process that runs `cmd` without a shell: the first word is the
/// program, the other words are its arguments. It reads nothing.
pub open spec fn raw_command(cmd: Seq<char>) -> CommandView
    recommends
        words(cmd).len() > 0,
{
    CommandView {
        program: words(cmd)[0],
        args: words(cmd).subrange(1, words(cmd).len() as int),
        stdin: Input::Closed,
    }
}

/// The process that runs `cmd` in the shell `program` with the arguments `args`.
pub fn shell(program: &str, args: &Vec<String>, cmd: &str) -> (r: Command)
    ensures
        r@ == shell_command(program@, args.deep_view(), cmd@),
{
    let mut all: Vec<String> = Vec::new();
    let mut i: usize = 0;
    assert(all.deep_view() =~= args.deep_view().take(0));
    while i < args.len()
        invariant
            i <= args.len(),
            all.deep_view() == args.deep_view().take(i as int),
        decreases args.len() - i,
    {
        let ghost before = all.deep_view();
        let arg = args[i].clone();
        all.push(arg);
        assert(all.deep_view() =~= before.push(args@[i as int]@));
        assert(all.deep_view() =~= args.deep_view().take(i + 1));
        i += 1;
    }
    let ghost before = all.deep_view();
    assert(before =~= args.deep_view());
    all.push(cmd.to_owned());
    assert(all.deep_view() =~= before.push(cmd@));
    Command { program: program.to_owned(), args: all, stdin: Input::Piped }
}

/// The process that runs `cmd` without a shell.
pub fn raw(cmd: &str) -> (r: Command)
    requires
        words(cmd@).len() > 0,
    ensures
        r@ == raw_command(cmd@),
{
    let mut all = split_words(cmd);
    let ghost before = all.deep_view();
    let program = all.remove(0);
    assert(all.deep_view() =~= before.subrange(1, before.len() as int));
    assert(program@ == before[0]);
    Command { program, args: all, stdin: Input::Closed }
}

/// A process about to start: the command, and where its output and its
/// errors go.
#[derive(Clone, Debug, PartialEq, Eq)]
pub struct Spawn {
    pub command: Command,
    pub stdout: Output,
    pub stderr: Output,
}

/// The mathematical value of a [`Spawn`].
pub struct SpawnView {
    pub command: CommandView,
    pub stdout: Output,
    pub stderr: Output,
}

impl View for Spawn {
    type V = SpawnView;

    open spec fn view(&self) -> SpawnView {
        SpawnView { command: self.command@, stdout: self.stdout, stderr: self.stderr }
    }
}

impl DeepView for Spawn {
    type V = SpawnView;

    open spec fn deep_view(&self) -> SpawnView {
        self@
    }
}

/// Where output goes for the whole run: into pipes if it is buffered, else
/// straight to the streams of the program.
pub open spec fn output_for(buffered: bool) -> Output {
    if buffered {
        Output::Piped
    } else {
        Output::Inherited
    }
}

/// Settles where the output and the errors of `command` go.
pub fn spawn(command: Command, buffered: bool) -> (r: Spawn)
    ensures
        r.command == command,
        r.stdout == output_for(buffered),
        r.stderr == output_for(buffered),
{
    let output = if buffered {
        Output::Piped
    } else {
        Output::Inherited
    };
    Spawn { command, stdout: output, stderr: output }
}

/// One of the two streams on which a process writes.
#[derive(Clone, Copy, Debug, PartialEq, Eq, Structural)]
pub enum Channel {
    Stdout,
    Stderr,
}

/// What the runner of a process waits for.
#[derive(Clone, Copy, Debug, PartialEq, Eq, Structural)]
pub enum Source {
    /// Bytes on the output of the process.
    Stdout,
    /// Bytes on the error stream of the process.
    Stderr,
    /// The end of the process.
    Exit,
}

/// The state of draining the two streams of one process.
#[derive(Debug)]
pub struct Drain {
    out: LineBuffer,
    err: LineBuffer,
    out_open: bool,
    err_open: bool,
}

/// The mathematical value of a [`Drain`]: what each stream holds back, and
/// whether it can still bring bytes.
pub struct DrainView {
    pub out: Seq<u8>,
    pub err: Seq<u8>,
    pub out_open: bool,
    pub err_open: bool,
}

impl View for Drain {
    type V = DrainView;

    closed spec fn view(&self) -> DrainView {
        DrainView {
            out: self.out@,
            err: self.err@,
            out_open: self.out_open,
            err_open: self.err_open,
        }
    }
}

/// What a read on one stream does to what that stream holds back, and what
/// is to be written to the shared stream at once.
///
/// A read of no bytes is the end of the stream: the stream is closed and what
/// was held back goes out. A read of some bytes lets all whole lines out and
/// holds the start of an unfinished line back. A stream that is closed
/// ignores what it is given.
pub open spec fn drain_channel(pending: Seq<u8>, open: bool, data: Seq<u8>) -> (
    Seq<u8>,
    bool,
    Seq<u8>,
) {
    if !open {
        (pending, false, Seq::empty())
    } else if data.len() == 0 {
        (Seq::empty(), false, pending)
    } else {
        (held_back(pending + data), true, released(pending + data))
    }
}

/// What a read of `data` on `channel` does to the state, and what is to be
/// written at once to the shared stream of that channel.
pub open spec fn drain_step(state: DrainView, channel: Channel, data: Seq<u8>) -> (
    DrainView,
    Seq<u8>,
) {
    match channel {
        Channel::Stdout => {
            let (out, out_open, chunk) = drain_channel(state.out, state.out_open, data);
            (DrainView { out, out_open, ..state }, chunk)
        },
        Channel::Stderr => {
            let (err, err_open, chunk) = drain_channel(state.err, state.err_open, data);
            (DrainView { err, err_open, ..state }, chunk)
        },
    }
}

/// What to wait for, the most urgent first: output that is ready is taken
/// before errors that are ready, and both before the end of the process.
pub open spec fn drain_order(state: DrainView) -> Seq<Source> {
    (if state.out_open {
        seq![Source::Stdout]
    } else {
        Seq::empty()
    }) + (if state.err_open {
        seq![Source::Stderr]
    } else {
        Seq::empty()
    }) + seq![Source::Exit]
}

impl Drain {
    /// The state before anything has been read: both streams are open and
    /// hold nothing back.
    pub fn new() -> (r: Drain)
        ensures
            r@ == (DrainView {
                out: Seq::empty(),
                err: Seq::empty(),
                out_open: true,
                err_open: true,
            }),
    {
        Drain { out: LineBuffer::new(), err: LineBuffer::new(), out_open: true, err_open: true }
    }

    /// Whether `channel` can still bring bytes.
    pub fn is_open(&self, channel: Channel) -> (b: bool)
        ensures
            b == match channel {
                Channel::Stdout => self@.out_open,
                Channel::Stderr => self@.err_open,
            },
    {
        match channel {
            Channel::Stdout => self.out_open,
            Channel::Stderr => self.err_open,
        }
    }

    /// What to wait for, the most urgent first.
    pub fn order(&self) -> (r: Vec<Source>)
        ensures
            r@ == drain_order(self@),
    {
        let mut r: Vec<Source> = Vec::new();
        if self.out_open {
            r.push(Source::Stdout);
        }
        if self.err_open {
            r.push(Source::Stderr);
        }
        r.push(Source::Exit);
        assert(r@ =~= drain_order(self@));
        r
    }

    /// Takes in what a read on `channel` brought, an empty `data` standing
    /// for the end of the stream, and gives out what is to be written at once,
    /// in one piece, to the shared stream of that channel.
    ///
    /// What comes out of a read that brought bytes ends a line. What comes
    /// out at the end of the stream holds no newline: it is the line that the
    /// process left unfinished.
    pub fn read(&mut self, channel: Channel, data: &[u8]) -> (chunk: Vec<u8>)
        ensures
            (final(self)@, chunk@) == drain_step(old(self)@, channel, data@),
            data@.len() > 0 ==> ends_line(chunk@),
            data@.len() == 0 ==> unbroken(chunk@),
    {
        match channel {
            Channel::Stdout => {
                if !self.out_open {
                    Vec::new()
                } else if data.len() == 0 {
                    self.out_open = false;
                    self.out.finish()
                } else {
                    self.out.push(data)
                }
            },
            Channel::Stderr => {
                if !self.err_open {
                    Vec::new()
                } else if data.len() == 0 {
                    self.err_open = false;
                    self.err.finish()
                } else {
                    self.err.push(data)
                }
            },
        }
    }
}

/// How many bytes of input are asked for at a time.
pub const CHUNK_SIZE: usize = 8192;

/// The state of handing the input of the program to every process.
#[derive(Clone, Debug, PartialEq, Eq)]
pub enum Broadcast {
    /// The next chunk of input is awaited.
    Reading,
    /// `chunk` is being handed out: the processes before `next` have it, the
    /// one at `next` is being given it.
    Writing { chunk: Vec<u8>, next: usize },
    /// The input has ended.
    Finished,
    /// A read or a write has failed: nothing more is handed to anyone.
    Failed,
}

/// What happened to the last action of the broadcast.
#[derive(Clone, Debug, PartialEq, Eq)]
pub enum BroadcastEvent {
    /// The read brought these bytes; none at the end of the input.
    Read(Vec<u8>),
    /// The read failed.
    ReadFailed,
    /// The write went through.
    Written,
    /// The write failed.
    WriteFailed,
}

/// What the broadcast asks for next.
#[derive(Clone, Copy, Debug, PartialEq, Eq)]
pub enum BroadcastAction {
    /// Read at most `limit` bytes of input.
    Read { limit: usize },
    /// Write the whole chunk of the state to the input of process `target`.
    Write { target: usize },
    /// Stop: the input has ended.
    Finish,
    /// Stop: the broadcast has failed.
    Fail,
}

/// The mathematical value of a [`Broadcast`].
pub enum BroadcastView {
    Reading,
    Writing { chunk: Seq<u8>, next: nat },
    Finished,
    Failed,
}

/// The mathematical value of a [`BroadcastEvent`].
pub enum BroadcastEventView {
    Read(Seq<u8>),
    ReadFailed,
    Written,
    WriteFailed,
}

impl View for Broadcast {
    type V = BroadcastView;

    open spec fn view(&self) -> BroadcastView {
        match self {
            Broadcast::Reading => BroadcastView::Reading,
            Broadcast::Writing { chunk, next } => BroadcastView::Writing {
                chunk: chunk@,
                next: *next as nat,
            },
            Broadcast::Finished => BroadcastView::Finished,
            Broadcast::Failed => BroadcastView::Failed,
        }
    }
}

impl View for BroadcastEvent {
    type V = BroadcastEventView;

    open spec fn view(&self) -> BroadcastEventView {
        match self {
            BroadcastEvent::Read(data) => BroadcastEventView::Read(data@),
            BroadcastEvent::ReadFailed => BroadcastEventView::ReadFailed,
            BroadcastEvent::Written => BroadcastEventView::Written,
            BroadcastEvent::WriteFailed => BroadcastEventView::WriteFailed,
        }
    }
}

/// The action that a state is waiting on.
pub open spec fn broadcast_pending(state: BroadcastView) -> BroadcastAction {
    match state {
        BroadcastView::Reading => BroadcastAction::Read { limit: CHUNK_SIZE },
        BroadcastView::Writing { chunk, next } => BroadcastAction::Write { target: next as usize },
        BroadcastView::Finished => BroadcastAction::Finish,
        BroadcastView::Failed => BroadcastAction::Fail,
    }
}

/// The state that follows `state` on `event`, with `targets` processes to
/// hand the input to.
///
/// A chunk that was read goes to the processes one by one, in their order,
/// and only then is the next chunk read. A read of no bytes ends the
/// broadcast. A read or a write that fails ends it for good. An event that
/// the state was not waiting for changes nothing.
pub open spec fn broadcast_next(
    state: BroadcastView,
    event: BroadcastEventView,
    targets: nat,
) -> BroadcastView {
    match (state, event) {
        (BroadcastView::Reading, BroadcastEventView::Read(data)) => if data.len() == 0 {
            BroadcastView::Finished
        } else if targets == 0 {
            BroadcastView::Reading
        } else {
            BroadcastView::Writing { chunk: data, next: 0 }
        },
        (BroadcastView::Reading, BroadcastEventView::ReadFailed) => BroadcastView::Failed,
        (BroadcastView::Writing { chunk, next }, BroadcastEventView::Written) => if next + 1
            < targets {
            BroadcastView::Writing { chunk, next: next + 1 }
        } else {
            BroadcastView::Reading
        },
        (BroadcastView::Writing { .. }, BroadcastEventView::WriteFailed) => BroadcastView::Failed,
        _ => state,
    }
}

/// The state in which a broadcast starts, and its first action.
pub fn broadcast_start() -> (r: (Broadcast, BroadcastAction))
    ensures
        r.0@ == BroadcastView::Reading,
        r.1 == broadcast_pending(BroadcastView::Reading),
{
    (Broadcast::Reading, BroadcastAction::Read { limit: CHUNK_SIZE })
}

impl Broadcast {
    /// The state that follows this one on `event`, with `targets` processes
    /// to hand the input to, and the action to take next.
    pub fn step(self, event: BroadcastEvent, targets: usize) -> (r: (Broadcast, BroadcastAction))
        ensures
            r.0@ == broadcast_next(self@, event@, targets as nat),
            r.1 == broadcast_pending(r.0@),
    {
        match self {
            Broadcast::Reading => match event {
                BroadcastEvent::Read(data) => {
                    if data.len() == 0 {
                        (Broadcast::Finished, BroadcastAction::Finish)
                    } else if targets == 0 {
                        (Broadcast::Reading, BroadcastAction::Read { limit: CHUNK_SIZE })
                    } else {
                        (Broadcast::Writing { chunk: data, next: 0 }, BroadcastAction::Write {
                            target: 0,
                        })
                    }
                },
                BroadcastEvent::ReadFailed => (Broadcast::Failed, BroadcastAction::Fail),
                _ => (Broadcast::Reading, BroadcastAction::Read { limit: CHUNK_SIZE }),
            },
            Broadcast::Writing { chunk, next } => match event {
                BroadcastEvent::Written => {
                    if targets > 0 && next < targets - 1 {
                        (Broadcast::Writing { chunk, next: next + 1 }, BroadcastAction::Write {
                            target: next + 1,
                        })
                    } else {
                        (Broadcast::Reading, BroadcastAction::Read { limit: CHUNK_SIZE })
                    }
                },
                BroadcastEvent::WriteFailed => (Broadcast::Failed, BroadcastAction::Fail),
                _ => (Broadcast::Writing { chunk, next }, BroadcastAction::Write { target: next }),
            },
            Broadcast::Finished => (Broadcast::Finished, BroadcastAction::Finish),
            Broadcast::Failed => (Broadcast::Failed, BroadcastAction::Fail),
        }
    }
}

/// Moves the broadcast on: takes what happened to the last action and
/// gives the next state and the next action.
pub fn broadcast(state: Broadcast, event: BroadcastEvent, targets: usize) -> (r: (
    Broadcast,
    BroadcastAction,
))
    ensures
        r.0@ == broadcast_next(state@, event@, targets as nat),
        r.1 == broadcast_pending(r.0@),
{
    state.step(event, targets)
}

/// What a broadcast has brought about: the bytes of input that were read,
/// and for each process the bytes that were written to its input.
pub struct Delivery {
    pub input: Seq<u8>,
    pub received: Seq<Seq<u8>>,
}

/// What `event`, met in `state`, adds to what has been brought about: a
/// chunk that is read is input, and a write that goes through hands the
/// chunk to the process it was for.
pub open spec fn broadcast_effect(
    state: BroadcastView,
    event: BroadcastEventView,
    so_far: Delivery,
) -> Delivery {
    match (state, event) {
        (BroadcastView::Reading, BroadcastEventView::Read(data)) => Delivery {
            input: so_far.input + data,
            ..so_far
        },
        (BroadcastView::Writing { chunk, next }, BroadcastEventView::Written) => if next
            < so_far.received.len() {
            Delivery {
                received: so_far.received.update(next as int, so_far.received[next as int] + chunk),
                ..so_far
            }
        } else {
            so_far
        },
        _ => so_far,
    }
}

/// The state of a broadcast to `targets` processes after `events`, and what
/// it has brought about by then.
pub open spec fn broadcast_run(targets: nat, events: Seq<BroadcastEventView>) -> (
    BroadcastView,
    Delivery,
)
    decreases events.len(),
{
    if events.len() == 0 {
        (
            BroadcastView::Reading,
            Delivery { input: Seq::empty(), received: Seq::new(targets, |t: int| Seq::empty()) },
        )
    } else {
        let (state, so_far) = broadcast_run(targets, events.drop_last());
        (
            broadcast_next(state, events.last(), targets),
            broadcast_effect(state, events.last(), so_far),
        )
    }
}

/// Whether `part` is the start of `whole`.
pub open spec fn is_start_of(part: Seq<u8>, whole: Seq<u8>) -> bool {
    part.len() <= whole.len() && whole.subrange(0, part.len() as int) == part
}

/// Every process is handed the input as it was read, byte for byte and in
/// order.
///
/// Whatever happens, what a process has received is the start of what was
/// read. Between two chunks, and when the input has ended, every process has
/// received all of it. While a chunk is handed out, the processes before the
/// one being written to have all of the input, and the others lack just that
/// chunk.
pub proof fn broadcast_hands_on_the_input(targets: nat, events: Seq<BroadcastEventView>)
    ensures
        broadcast_run(targets, events).1.received.len() == targets,
        forall|t: int|
            0 <= t < targets ==> is_start_of(
                #[trigger] broadcast_run(targets, events).1.received[t],
                broadcast_run(targets, events).1.input,
            ),
        broadcast_run(targets, events).0 is Reading || broadcast_run(targets, events).0
            is Finished ==> forall|t: int|
            0 <= t < targets ==> #[trigger] broadcast_run(targets, events).1.received[t]
                == broadcast_run(targets, events).1.input,
        broadcast_run(targets, events).0 matches BroadcastView::Writing { chunk, next } ==> {
            &&& next < targets
            &&& chunk.len() > 0
            &&& forall|t: int|
                0 <= t < next ==> #[trigger] broadcast_run(targets, events).1.received[t]
                    == broadcast_run(targets, events).1.input
            &&& forall|t: int|
                next <= t < targets ==> #[trigger] broadcast_run(targets, events).1.received[t]
                    + chunk == broadcast_run(targets, events).1.input
        },
    decreases events.len(),
{
    if events.len() > 0 {
        broadcast_hands_on_the_input(targets, events.drop_last());
        let (state, so_far) = broadcast_run(targets, events.drop_last());
        let event = events.last();
        let (after, now) = broadcast_run(targets, events);
        assert(after == broadcast_next(state, event, targets));
        assert(now == broadcast_effect(state, event, so_far));
        assert forall|t: int| 0 <= t < targets implies is_start_of(
            #[trigger] now.received[t],
            now.input,
        ) by {
            let had = so_far.received[t];
            assert(is_start_of(had, so_far.input));
            match (state, event) {
                (BroadcastView::Reading, BroadcastEventView::Read(data)) => {
                    assert(now.input.subrange(0, had.len() as int) =~= so_far.input.subrange(
                        0,
                        had.len() as int,
                    ));
                },
                (BroadcastView::Writing { chunk, next }, BroadcastEventView::Written) => {
                    if t == next {
                        assert(now.received[t] == had + chunk);
                        assert(now.input.subrange(0, (had + chunk).len() as int) =~= had + chunk);
                    }
                },
                _ => {},
            }
        }
        match (state, event) {
            (BroadcastView::Reading, BroadcastEventView::Read(data)) => {
                assert forall|t: int| 0 <= t < targets implies #[trigger] now.received[t] + data
                    == now.input by {
                    assert(so_far.received[t] == so_far.input);
                }
                if data.len() == 0 {
                    assert(now.input =~= so_far.input);
                }
            },
            _ => {},
        }
    } else {
        let (after, now) = broadcast_run(targets, events);
        assert forall|t: int| 0 <= t < targets implies is_start_of(
            #[trigger] now.received[t],
            now.input,
        ) by {
            assert(now.input.subrange(0, 0) =~= now.received[t]);
        }
    }
}

/// A broadcast that has failed stays failed and hands nothing more to
/// anyone, whatever happens after.
pub proof fn broadcast_stops_for_good(
    targets: nat,
    before: Seq<BroadcastEventView>,
    after: Seq<BroadcastEventView>,
)
    requires
        broadcast_run(targets, before).0 is Failed,
    ensures
        broadcast_run(targets, before + after).0 is Failed,
        broadcast_run(targets, before + after).1 == broadcast_run(targets, before).1,
    decreases after.len(),
{
    if after.len() == 0 {
        assert(before + after =~= before);
    } else {
        broadcast_stops_for_good(targets, before, after.drop_last());
        assert((before + after).drop_last() =~= before + after.drop_last());
    }
}

} // verus!
