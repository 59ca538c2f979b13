//! Endpoints, and the decisions of a proxy task.

use crate::text::{chars_of, starts_with};
use vstd::prelude::*;

verus! {

/// The family of operating systems the program runs on.
#[derive(Clone, Copy, Debug, PartialEq, Eq, Structural)]
pub enum Platform {
    Unix,
    Windows,
}

/// The kind of an endpoint.
#[derive(Clone, Copy, Debug, PartialEq, Eq, Structural)]
pub enum Scheme {
    Tcp,
    Unix,
    Pipe,
}

/// The name by which a directive selects a scheme.
pub open spec fn scheme_name(scheme: Scheme) -> Seq<char> {
    match scheme {
        Scheme::Tcp => seq!['t', 'c', 'p'],
        Scheme::Unix => seq!['u', 'n', 'i', 'x'],
        Scheme::Pipe => seq!['p', 'i', 'p', 'e'],
    }
}

/// Whether endpoints of this scheme exist on the platform: TCP everywhere,
/// Unix sockets on Unix alone, named pipes on Windows alone.
pub open spec fn scheme_supported(scheme: Scheme, platform: Platform) -> bool {
    match scheme {
        Scheme::Tcp => true,
        Scheme::Unix => platform == Platform::Unix,
        Scheme::Pipe => platform == Platform::Windows,
    }
}

impl Scheme {
    /// The name by which a directive selects this scheme.
    pub fn name(self) -> (r: &'static str)
        ensures
            r@ == scheme_name(self),
    {
        proof {
            reveal_strlit("tcp");
            reveal_strlit("unix");
            reveal_strlit("pipe");
        }
        let r = match self {
            Scheme::Tcp => "tcp",
            Scheme::Unix => "unix",
            Scheme::Pipe => "pipe",
        };
        assert(r@ =~= scheme_name(self));
        r
    }

    /// Whether endpoints of this scheme exist on `platform`.
    pub fn supported_on(self, platform: Platform) -> (b: bool)
        ensures
            b == scheme_supported(self, platform),
    {
        match self {
            Scheme::Tcp => true,
            Scheme::Unix => match platform {
                Platform::Unix => true,
                Platform::Windows => false,
            },
            Scheme::Pipe => match platform {
                Platform::Unix => false,
                Platform::Windows => true,
            },
        }
    }
}

/// The numbers of an IP address with a port.
#[derive(Clone, Copy, Debug, PartialEq, Eq)]
pub enum SocketNumbers {
    V4 { octets: [u8; 4], port: u16 },
    V6 { segments: [u16; 8], port: u16, flowinfo: u32, scope_id: u32 },
}

/// An IP address with a port: its numbers, by which it is bound and dialled,
/// and beside them the text by which it is shown.
///
/// The text is given by whoever makes the value, and is handed on as it is.
#[derive(Clone, Debug, PartialEq, Eq)]
pub struct SocketAddress {
    pub numbers: SocketNumbers,
    pub text: String,
}

/// The mathematical value of a [`SocketAddress`].
pub struct SocketAddressView {
    pub numbers: SocketNumbers,
    pub text: Seq<char>,
}

impl View for SocketAddress {
    type V = SocketAddressView;

    open spec fn view(&self) -> SocketAddressView {
        SocketAddressView { numbers: self.numbers, text: self.text@ }
    }
}

impl DeepView for SocketAddress {
    type V = SocketAddressView;

    open spec fn deep_view(&self) -> SocketAddressView {
        self@
    }
}

impl SocketAddress {
    /// A second address of the same value.
    pub fn duplicate(&self) -> (r: SocketAddress)
        ensures
            r@ == self@,
    {
        SocketAddress { numbers: self.numbers, text: self.text.clone() }
    }
}

/// An endpoint as a directive names it: a scheme and an address, before any
/// host name in it has been resolved.
#[derive(Clone, Debug, PartialEq, Eq)]
pub struct Target {
    pub scheme: Scheme,
    pub address: String,
}

/// The mathematical value of a [`Target`].
pub struct TargetView {
    pub scheme: Scheme,
    pub address: Seq<char>,
}

impl View for Target {
    type V = TargetView;

    open spec fn view(&self) -> TargetView {
        TargetView { scheme: self.scheme, address: self.address@ }
    }
}

/// What stands between a scheme and the rest of an endpoint.
pub open spec fn colon() -> Seq<char> {
    seq![':']
}

/// What may follow the colon of a scheme without belonging to the address.
pub open spec fn slashes() -> Seq<char> {
    seq!['/', '/']
}

/// What is written between the colon and an address: nothing, unless the
/// address itself begins with `//`, which would else be read as a mark and
/// not as part of the address.
pub open spec fn guard(address: Seq<char>) -> Seq<char> {
    if starts_with(address, slashes()) {
        slashes()
    } else {
        Seq::empty()
    }
}

/// A target as text: the scheme's name, a colon, and the address as it is,
/// with `//` before it only where the address itself begins with `//`.
pub open spec fn target_text(target: TargetView) -> Seq<char> {
    scheme_name(target.scheme) + colon() + guard(target.address) + target.address
}

/// Whether `s` begins with `//`.
pub fn begins_with_slashes(s: &str) -> (b: bool)
    ensures
        b == starts_with(s@, slashes()),
{
    let chars = chars_of(s);
    if chars.len() >= 2 && chars[0] == '/' && chars[1] == '/' {
        assert(s@.subrange(0, 2) =~= slashes());
        true
    } else {
        proof {
            if starts_with(s@, slashes()) {
                assert(s@.subrange(0, 2)[0] == '/');
                assert(s@.subrange(0, 2)[1] == '/');
            }
        }
        false
    }
}

impl Target {
    /// The target as text, in the form that reads back as the same target.
    pub fn format(&self) -> (r: String)
        ensures
            r@ == target_text(self@),
    {
        proof {
            reveal_strlit(":");
            reveal_strlit("//");
        }
        let mut out = String::from_str(self.scheme.name());
        out.append(":");
        if begins_with_slashes(self.address.as_str()) {
            out.append("//");
        }
        out.append(self.address.as_str());
        assert(out@ =~= target_text(self@));
        out
    }
}

/// A place to listen on or to connect to: a TCP socket address, the path of a
/// Unix domain socket, or the name of a Windows named pipe.
#[derive(Clone, Debug, PartialEq, Eq)]
pub enum Endpoint {
    Tcp(SocketAddress),
    Unix(String),
    Pipe(String),
}

/// The mathematical value of an [`Endpoint`].
pub enum EndpointView {
    Tcp(SocketAddressView),
    Unix(Seq<char>),
    Pipe(Seq<char>),
}

impl View for Endpoint {
    type V = EndpointView;

    open spec fn view(&self) -> EndpointView {
        match self {
            Endpoint::Tcp(address) => EndpointView::Tcp(address@),
            Endpoint::Unix(path) => EndpointView::Unix(path@),
            Endpoint::Pipe(name) => EndpointView::Pipe(name@),
        }
    }
}

/// The scheme of an endpoint.
pub open spec fn endpoint_scheme(endpoint: EndpointView) -> Scheme {
    match endpoint {
        EndpointView::Tcp(_) => Scheme::Tcp,
        EndpointView::Unix(_) => Scheme::Unix,
        EndpointView::Pipe(_) => Scheme::Pipe,
    }
}

/// The target that names an endpoint: its scheme, and as address the text
/// of the socket address, the path or the pipe's name.
pub open spec fn endpoint_target(endpoint: EndpointView) -> TargetView {
    match endpoint {
        EndpointView::Tcp(address) => TargetView {
            scheme: Scheme::Tcp,
            address: address.text,
        },
        EndpointView::Unix(path) => TargetView { scheme: Scheme::Unix, address: path },
        EndpointView::Pipe(name) => TargetView { scheme: Scheme::Pipe, address: name },
    }
}

impl Endpoint {
    /// The scheme of the endpoint.
    pub fn scheme(&self) -> (r: Scheme)
        ensures
            r == endpoint_scheme(self@),
    {
        match self {
            Endpoint::Tcp(_) => Scheme::Tcp,
            Endpoint::Unix(_) => Scheme::Unix,
            Endpoint::Pipe(_) => Scheme::Pipe,
        }
    }

    /// Whether the endpoint can exist on `platform`.
    pub fn supported_on(&self, platform: Platform) -> (b: bool)
        ensures
            b == scheme_supported(endpoint_scheme(self@), platform),
    {
        self.scheme().supported_on(platform)
    }

    /// The target that names the endpoint.
    pub fn target(&self) -> (r: Target)
        ensures
            r@ == endpoint_target(self@),
    {
        match self {
            Endpoint::Tcp(address) => Target {
                scheme: Scheme::Tcp,
                address: address.text.clone(),
            },
            Endpoint::Unix(path) => Target { scheme: Scheme::Unix, address: path.clone() },
            Endpoint::Pipe(name) => Target { scheme: Scheme::Pipe, address: name.clone() },
        }
    }

    /// The endpoint as text: `tcp:`, `unix:` or `pipe:`, then the address.
    pub fn format(&self) -> (r: String)
        ensures
            r@ == target_text(endpoint_target(self@)),
    {
        self.target().format()
    }

    /// A second endpoint of the same value, as a dial needs one for each connection.
    pub fn duplicate(&self) -> (r: Endpoint)
        ensures
            r@ == self@,
    {
        match self {
            Endpoint::Tcp(address) => Endpoint::Tcp(address.duplicate()),
            Endpoint::Unix(path) => Endpoint::Unix(path.clone()),
            Endpoint::Pipe(name) => Endpoint::Pipe(name.clone()),
        }
    }
}

/// The state of a proxy task, which listens on the source of a directive.
#[derive(Clone, Copy, Debug, PartialEq, Eq)]
pub enum Proxy {
    /// The listener is being bound.
    Binding,
    /// The listener waits for a connection.
    Accepting,
    /// A connection has arrived on a named pipe, and the next instance of
    /// the pipe is being made before the connection is handed on.
    Replacing,
    /// A connection has arrived and is being given to a relay of its own.
    HandingOver,
    /// The task has ended.
    Stopped,
    /// The listener could not be bound.
    Failed,
}

/// What happened to the last action of a proxy task.
#[derive(Clone, Copy, Debug, PartialEq, Eq)]
pub enum ProxyEvent {
    /// The listener is bound.
    Bound,
    /// The listener could not be bound.
    BindFailed,
    /// A connection has arrived.
    Accepted,
    /// Waiting for a connection failed.
    AcceptFailed,
    /// The next instance of the pipe is there.
    Replaced,
    /// The next instance of the pipe could not be made.
    ReplaceFailed,
    /// The connection is with its relay.
    Relayed,
}

/// What a proxy task asks for.
#[derive(Clone, Copy, Debug, PartialEq, Eq)]
pub enum ProxyAction {
    /// Bind the listener on the source; a named pipe as its first instance.
    Bind,
    /// Wait for a connection.
    Accept,
    /// Make the next instance of the named pipe, so that no client finds
    /// the pipe gone.
    Replace,
    /// Give the connection that has arrived to a relay of its own, which
    /// runs beside the task.
    Relay,
    /// End the program: without its listener the directive cannot be served.
    Abort,
    /// End the task.
    Stop,
}

/// The action that a state of a proxy task is waiting on.
pub open spec fn proxy_pending(state: Proxy) -> ProxyAction {
    match state {
        Proxy::Binding => ProxyAction::Bind,
        Proxy::Accepting => ProxyAction::Accept,
        Proxy::Replacing => ProxyAction::Replace,
        Proxy::HandingOver => ProxyAction::Relay,
        Proxy::Stopped => ProxyAction::Stop,
        Proxy::Failed => ProxyAction::Abort,
    }
}

/// The state that follows `state` on `event`, for a listener of the kind
/// `scheme`.
///
/// A listener that cannot be bound ends the program. Once bound, the task
/// accepts connections for ever: each goes to a relay of its own, and what
/// becomes of that relay is nothing to the task. A connection on a named pipe
/// is handed on only after the next instance of the pipe has been made. The
/// task ends when accepting fails. An event that the state was not waiting
/// for changes nothing.
pub open spec fn proxy_next(state: Proxy, event: ProxyEvent, scheme: Scheme) -> Proxy {
    match (state, event) {
        (Proxy::Binding, ProxyEvent::Bound) => Proxy::Accepting,
        (Proxy::Binding, ProxyEvent::BindFailed) => Proxy::Failed,
        (Proxy::Accepting, ProxyEvent::Accepted) => if scheme == Scheme::Pipe {
            Proxy::Replacing
        } else {
            Proxy::HandingOver
        },
        (Proxy::Accepting, ProxyEvent::AcceptFailed) => Proxy::Stopped,
        (Proxy::Replacing, ProxyEvent::Replaced) => Proxy::HandingOver,
        (Proxy::Replacing, ProxyEvent::ReplaceFailed) => Proxy::Stopped,
        (Proxy::HandingOver, ProxyEvent::Relayed) => Proxy::Accepting,
        _ => state,
    }
}

/// The state in which a proxy task starts, and its first action.
pub fn proxy_start() -> (r: (Proxy, ProxyAction))
    ensures
        r == (Proxy::Binding, ProxyAction::Bind),
{
    (Proxy::Binding, ProxyAction::Bind)
}

/// Moves a proxy task on: takes what happened to its last action and gives
/// the next state and the next action.
pub fn proxy(state: Proxy, event: ProxyEvent, scheme: Scheme) -> (r: (Proxy, ProxyAction))
    ensures
        r.0 == proxy_next(state, event, scheme),
        r.1 == proxy_pending(r.0),
{
    let next = match state {
        Proxy::Binding => match event {
            ProxyEvent::Bound => Proxy::Accepting,
            ProxyEvent::BindFailed => Proxy::Failed,
            _ => Proxy::Binding,
        },
        Proxy::Accepting => match event {
            ProxyEvent::Accepted => match scheme {
                Scheme::Pipe => Proxy::Replacing,
                _ => Proxy::HandingOver,
            },
            ProxyEvent::AcceptFailed => Proxy::Stopped,
            _ => Proxy::Accepting,
        },
        Proxy::Replacing => match event {
            ProxyEvent::Replaced => Proxy::HandingOver,
            ProxyEvent::ReplaceFailed => Proxy::Stopped,
            _ => Proxy::Replacing,
        },
        Proxy::HandingOver => match event {
            ProxyEvent::Relayed => Proxy::Accepting,
            _ => Proxy::HandingOver,
        },
        Proxy::Stopped => Proxy::Stopped,
        Proxy::Failed => Proxy::Failed,
    };
    let action = match next {
        Proxy::Binding => ProxyAction::Bind,
        Proxy::Accepting => ProxyAction::Accept,
        Proxy::Replacing => ProxyAction::Replace,
        Proxy::HandingOver => ProxyAction::Relay,
        Proxy::Stopped => ProxyAction::Stop,
        Proxy::Failed => ProxyAction::Abort,
    };
    (next, action)
}

/// Whatever happens to it, a proxy task that is bound goes on accepting
/// unless accepting itself fails: no event sends it from listening to an
/// end but a failure to accept or to make the next instance of its pipe.
pub proof fn proxy_keeps_listening(state: Proxy, event: ProxyEvent, scheme: Scheme)
    requires
        state is Accepting || state is Replacing || state is HandingOver,
        !(event is AcceptFailed) && !(event is ReplaceFailed),
    ensures
        ({
            let next = proxy_next(state, event, scheme);
            next is Accepting || next is Replacing || next is HandingOver
        }),
        state is Accepting && event is Accepted && scheme == Scheme::Pipe ==> proxy_pending(
            proxy_next(state, event, scheme),
        ) == ProxyAction::Replace,
{
}

/// The error of the operating system that says that all instances of a
/// named pipe are busy.
pub const PIPE_BUSY: i32 = 231;

/// The state of one relayed connection.
#[derive(Clone, Copy, Debug, PartialEq, Eq)]
pub enum Connection {
    /// The destination is being dialled; `wait` is the number of
    /// milliseconds to sleep if it is busy, 0 before the first failure.
    Dialing { wait: u64 },
    /// Bytes are being copied both ways.
    Relaying,
    /// The connection is over.
    Closed,
}

/// What happened to the last action of a connection.
#[derive(Clone, Copy, Debug, PartialEq, Eq)]
pub enum ConnectionEvent {
    /// The destination has answered.
    Connected,
    /// The dial failed, with this error of the operating system if it was one.
    DialFailed { code: Option<i32> },
    /// One side has reached its end, and both directions are done.
    RelayEnded,
    /// Copying failed.
    RelayFailed,
}

/// What a connection asks for.
#[derive(Clone, Copy, Debug, PartialEq, Eq)]
pub enum ConnectionAction {
    /// Dial the destination.
    Dial,
    /// Let other work run once, then dial again.
    YieldThenDial,
    /// Sleep for so many milliseconds, then dial again.
    SleepThenDial { millis: u64 },
    /// Copy bytes both ways until one side ends or copying fails.
    Relay,
    /// Shut both sides and forget the connection.
    Close,
}

/// Whether a failed dial is worth repeating: only a named pipe whose
/// instances are all busy is.
pub open spec fn is_transient(scheme: Scheme, code: Option<i32>) -> bool {
    scheme == Scheme::Pipe && code == Some(PIPE_BUSY)
}

/// Twice `wait`, or the largest number where that does not fit.
pub open spec fn doubled(wait: u64) -> u64 {
    if wait > u64::MAX / 2 {
        u64::MAX
    } else {
        (2 * wait) as u64
    }
}

/// The action that a state of a connection is waiting on.
pub open spec fn connection_pending(state: Connection) -> ConnectionAction {
    match state {
        Connection::Dialing { .. } => ConnectionAction::Dial,
        Connection::Relaying => ConnectionAction::Relay,
        Connection::Closed => ConnectionAction::Close,
    }
}

/// The state that follows `state` on `event`, and the action to take, for a
/// destination of the kind `scheme`.
///
/// A dial that finds a named pipe busy is repeated: after the first failure
/// other work is let run once, after each further one the connection sleeps,
/// twice as long each time, starting with a millisecond. Any other failure
/// of the dial, and the end or failure of the relay, closes this connection
/// and nothing else. An event that the state was not waiting for changes
/// nothing.
pub open spec fn connection_next(state: Connection, event: ConnectionEvent, scheme: Scheme) -> (
    Connection,
    ConnectionAction,
) {
    match (state, event) {
        (Connection::Dialing { wait }, ConnectionEvent::Connected) => (
            Connection::Relaying,
            ConnectionAction::Relay,
        ),
        (Connection::Dialing { wait }, ConnectionEvent::DialFailed { code }) => if is_transient(
            scheme,
            code,
        ) {
            if wait == 0 {
                (Connection::Dialing { wait: 1 }, ConnectionAction::YieldThenDial)
            } else {
                (
                    Connection::Dialing { wait: doubled(wait) },
                    ConnectionAction::SleepThenDial { millis: wait },
                )
            }
        } else {
            (Connection::Closed, ConnectionAction::Close)
        },
        (Connection::Relaying, ConnectionEvent::RelayEnded) => (
            Connection::Closed,
            ConnectionAction::Close,
        ),
        (Connection::Relaying, ConnectionEvent::RelayFailed) => (
            Connection::Closed,
            ConnectionAction::Close,
        ),
        _ => (state, connection_pending(state)),
    }
}

/// The state in which a connection starts, and its first action.
pub fn connection_start() -> (r: (Connection, ConnectionAction))
    ensures
        r == (Connection::Dialing { wait: 0 }, ConnectionAction::Dial),
{
    (Connection::Dialing { wait: 0 }, ConnectionAction::Dial)
}

/// Moves a connection on: takes what happened to its last action and gives
/// the next state and the next action.
pub fn connection(state: Connection, event: ConnectionEvent, scheme: Scheme) -> (r: (
    Connection,
    ConnectionAction,
))
    ensures
        r == connection_next(state, event, scheme),
{
    match state {
        Connection::Dialing { wait } => match event {
            ConnectionEvent::Connected => (Connection::Relaying, ConnectionAction::Relay),
            ConnectionEvent::DialFailed { code } => {
                let busy = match code {
                    Some(n) => n == PIPE_BUSY,
                    None => false,
                };
                let pipe = match scheme {
                    Scheme::Pipe => true,
                    _ => false,
                };
                if pipe && busy {
                    if wait == 0 {
                        (Connection::Dialing { wait: 1 }, ConnectionAction::YieldThenDial)
                    } else if wait > u64::MAX / 2 {
                        (
                            Connection::Dialing { wait: u64::MAX },
                            ConnectionAction::SleepThenDial { millis: wait },
                        )
                    } else {
                        (
                            Connection::Dialing { wait: 2 * wait },
                            ConnectionAction::SleepThenDial { millis: wait },
                        )
                    }
                } else {
                    (Connection::Closed, ConnectionAction::Close)
                }
            },
            _ => (state, ConnectionAction::Dial),
        },
        Connection::Relaying => match event {
            ConnectionEvent::RelayEnded => (Connection::Closed, ConnectionAction::Close),
            ConnectionEvent::RelayFailed => (Connection::Closed, ConnectionAction::Close),
            _ => (Connection::Relaying, ConnectionAction::Relay),
        },
        Connection::Closed => (Connection::Closed, ConnectionAction::Close),
    }
}

/// Two to the power of `n`.
pub open spec fn power_of_two(n: nat) -> nat
    decreases n,
{
    if n == 0 {
        1
    } else {
        2 * power_of_two((n - 1) as nat)
    }
}

/// The state of a dial to a named pipe that has found the pipe busy `n`
/// times in a row.
pub open spec fn after_busy(n: nat) -> Connection
    decreases n,
{
    if n == 0 {
        Connection::Dialing { wait: 0 }
    } else {
        connection_next(
            after_busy((n - 1) as nat),
            ConnectionEvent::DialFailed { code: Some(PIPE_BUSY) },
            Scheme::Pipe,
        ).0
    }
}

/// A dial to a named pipe that nobody listens on yet does not fail: however
/// often the pipe is found busy, the dial is repeated, and the connection is
/// relayed as soon as the destination answers.
///
/// The first failure lets other work run once; the failure after that sleeps
/// for a millisecond, and each further one twice as long as the one before,
/// the largest number of milliseconds being the limit.
pub proof fn pipe_dial_waits_for_listener(n: nat)
    ensures
        after_busy(n) is Dialing,
        n > 0 ==> after_busy(n)->wait == if power_of_two((n - 1) as nat) < u64::MAX {
            power_of_two((n - 1) as nat)
        } else {
            u64::MAX as nat
        },
        connection_next(after_busy(n), ConnectionEvent::Connected, Scheme::Pipe) == (
            Connection::Relaying,
            ConnectionAction::Relay,
        ),
        connection_next(
            after_busy(n),
            ConnectionEvent::DialFailed { code: Some(PIPE_BUSY) },
            Scheme::Pipe,
        ).1 == if n == 0 {
            ConnectionAction::YieldThenDial
        } else {
            ConnectionAction::SleepThenDial { millis: after_busy(n)->wait }
        },
    decreases n,
{
    if n > 0 {
        pipe_dial_waits_for_listener((n - 1) as nat);
        if n > 1 {
            let p = power_of_two((n - 2) as nat);
            assert(power_of_two((n - 1) as nat) == 2 * p);
        }
    }
}

/// A dial that fails for good closes the connection: every failure of a
/// dial to a TCP or Unix socket, and every failure of a dial to a named pipe
/// but the one that says the pipe is busy.
pub proof fn other_dial_failures_close(wait: u64, code: Option<i32>, scheme: Scheme)
    requires
        !is_transient(scheme, code),
    ensures
        connection_next(
            Connection::Dialing { wait },
            ConnectionEvent::DialFailed { code },
            scheme,
        ) == (Connection::Closed, ConnectionAction::Close),
{
}

} // verus!
