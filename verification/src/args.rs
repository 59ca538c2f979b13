//! Reading endpoints, directives and the program's arguments.

use crate::proxy::{
    colon, endpoint_scheme, endpoint_target, guard, scheme_name, scheme_supported, slashes,
    target_text, Endpoint, EndpointView, Platform, Scheme, SocketAddress, SocketAddressView,
    Target, TargetView,
};
use crate::text::{
    chars_of, contains, find, first_occurrence, lemma_first_occurrence,
    lemma_first_occurrence_exists,
    lemma_split_once_joined, occurs_at, slice_of, split_once, starts_with,
};
use vstd::prelude::*;

verus! {

/// Why an endpoint, a directive or the arguments could not be read.
#[derive(Clone, Debug, PartialEq, Eq)]
pub enum ParseError {
    /// A directive holds no `->`.
    MissingSeparator,
    /// What stands before `://` names no scheme.
    UnknownScheme { scheme: String },
    /// A Unix socket was asked for where there are none.
    UnixSocketsUnsupported,
    /// A named pipe was asked for where there are none.
    NamedPipesUnsupported,
    /// The address of a TCP endpoint could not be resolved.
    InvalidAddress { address: String, reason: String },
    /// The address of a TCP endpoint resolved to nothing.
    NoAddresses { address: String },
}

/// The mathematical value of a [`ParseError`].
pub enum ParseErrorView {
    MissingSeparator,
    UnknownScheme { scheme: Seq<char> },
    UnixSocketsUnsupported,
    NamedPipesUnsupported,
    InvalidAddress { address: Seq<char>, reason: Seq<char> },
    NoAddresses { address: Seq<char> },
}

impl View for ParseError {
    type V = ParseErrorView;

    open spec fn view(&self) -> ParseErrorView {
        match self {
            ParseError::MissingSeparator => ParseErrorView::MissingSeparator,
            ParseError::UnknownScheme { scheme } => ParseErrorView::UnknownScheme {
                scheme: scheme@,
            },
            ParseError::UnixSocketsUnsupported => ParseErrorView::UnixSocketsUnsupported,
            ParseError::NamedPipesUnsupported => ParseErrorView::NamedPipesUnsupported,
            ParseError::InvalidAddress { address, reason } => ParseErrorView::InvalidAddress {
                address: address@,
                reason: reason@,
            },
            ParseError::NoAddresses { address } => ParseErrorView::NoAddresses {
                address: address@,
            },
        }
    }
}

/// The sentence that reports an error to the user.
pub open spec fn error_text(error: ParseErrorView) -> Seq<char> {
    match error {
        ParseErrorView::MissingSeparator =>
            "Proxy directives must be of the form `<SOURCE>-><DESTINATION>`"@,
        ParseErrorView::UnknownScheme { scheme } => "Unknown endpoint type `"@ + scheme + "`"@,
        ParseErrorView::UnixSocketsUnsupported => "Unix sockets are not supported on Windows"@,
        ParseErrorView::NamedPipesUnsupported => "Named pipes are not supported on Unix"@,
        ParseErrorView::InvalidAddress { address, reason } => "Invalid address `"@ + address
            + "`: "@ + reason,
        ParseErrorView::NoAddresses { address } => "Invalid hostname `"@ + address
            + "`: no addresses found"@,
    }
}

impl ParseError {
    /// The sentence that reports the error to the user.
    pub fn message(&self) -> (r: String)
        ensures
            r@ == error_text(self@),
    {
        match self {
            ParseError::MissingSeparator => String::from_str(
                "Proxy directives must be of the form `<SOURCE>-><DESTINATION>`",
            ),
            ParseError::UnknownScheme { scheme } => {
                let mut out = String::from_str("Unknown endpoint type `");
                out.append(scheme.as_str());
                out.append("`");
                out
            },
            ParseError::UnixSocketsUnsupported => String::from_str(
                "Unix sockets are not supported on Windows",
            ),
            ParseError::NamedPipesUnsupported => String::from_str(
                "Named pipes are not supported on Unix",
            ),
            ParseError::InvalidAddress { address, reason } => {
                let mut out = String::from_str("Invalid address `");
                out.append(address.as_str());
                out.append("`: ");
                out.append(reason.as_str());
                out
            },
            ParseError::NoAddresses { address } => {
                let mut out = String::from_str("Invalid hostname `");
                out.append(address.as_str());
                out.append("`: no addresses found");
                out
            },
        }
    }
}

/// The scheme that `token` names, if it names one.
pub open spec fn scheme_of(token: Seq<char>) -> Option<Scheme> {
    if token == scheme_name(Scheme::Tcp) {
        Some(Scheme::Tcp)
    } else if token == scheme_name(Scheme::Unix) {
        Some(Scheme::Unix)
    } else if token == scheme_name(Scheme::Pipe) {
        Some(Scheme::Pipe)
    } else {
        None
    }
}

/// The target whose scheme is `scheme` and whose address is `address`, where
/// the platform has such endpoints.
pub open spec fn target_on(scheme: Scheme, address: Seq<char>, platform: Platform) -> Result<
    TargetView,
    ParseErrorView,
> {
    if scheme_supported(scheme, platform) {
        Ok(TargetView { scheme, address })
    } else if scheme == Scheme::Unix {
        Err(ParseErrorView::UnixSocketsUnsupported)
    } else {
        Err(ParseErrorView::NamedPipesUnsupported)
    }
}

/// What an endpoint string means.
///
/// The string is cut at its first colon. Where `//` follows the colon, what
/// stands before the colon must name a scheme, and the address is what follows
/// the slashes. Where no `//` follows, what stands before the colon may name a
/// scheme, and the address is then what follows the colon. In every other case
/// the whole string is the address of a TCP endpoint. A scheme that the
/// platform lacks is an error.
pub open spec fn parse_target(s: Seq<char>, platform: Platform) -> Result<
    TargetView,
    ParseErrorView,
> {
    match split_once(s, colon()) {
        None => Ok(TargetView { scheme: Scheme::Tcp, address: s }),
        Some((token, rest)) => {
            let marked = starts_with(rest, slashes());
            let address = if marked {
                rest.subrange(2, rest.len() as int)
            } else {
                rest
            };
            match scheme_of(token) {
                Some(scheme) => target_on(scheme, address, platform),
                None => if marked {
                    Err(ParseErrorView::UnknownScheme { scheme: token })
                } else {
                    Ok(TargetView { scheme: Scheme::Tcp, address: s })
                },
            }
        },
    }
}

/// The scheme that the first `len` characters name, if they name one.
fn scheme_before(chars: &Vec<char>, len: usize) -> (r: Option<Scheme>)
    requires
        len <= chars.len(),
    ensures
        r == scheme_of(chars@.subrange(0, len as int)),
{
    let ghost token = chars@.subrange(0, len as int);
    if len == 3 && chars[0] == 't' && chars[1] == 'c' && chars[2] == 'p' {
        assert(token =~= scheme_name(Scheme::Tcp));
        Some(Scheme::Tcp)
    } else if len == 4 && chars[0] == 'u' && chars[1] == 'n' && chars[2] == 'i' && chars[3]
        == 'x' {
        assert(token =~= scheme_name(Scheme::Unix));
        Some(Scheme::Unix)
    } else if len == 4 && chars[0] == 'p' && chars[1] == 'i' && chars[2] == 'p' && chars[3]
        == 'e' {
        assert(token =~= scheme_name(Scheme::Pipe));
        Some(Scheme::Pipe)
    } else {
        proof {
            assert(token.len() == len);
            assert(forall|k: int| 0 <= k < len ==> token[k] == chars@[k]);
            assert(scheme_name(Scheme::Tcp).len() == 3);
            assert(scheme_name(Scheme::Unix).len() == 4);
            assert(scheme_name(Scheme::Pipe).len() == 4);
            if token == scheme_name(Scheme::Tcp) {
                assert(token[0] == 't' && token[1] == 'c' && token[2] == 'p');
            }
            if token == scheme_name(Scheme::Unix) {
                assert(token[0] == 'u' && token[1] == 'n' && token[2] == 'i' && token[3] == 'x');
            }
            if token == scheme_name(Scheme::Pipe) {
                assert(token[0] == 'p' && token[1] == 'i' && token[2] == 'p' && token[3] == 'e');
            }
        }
        None
    }
}

impl Target {
    /// Reads an endpoint string.
    pub fn parse(s: &str, platform: Platform) -> (r: Result<Target, ParseError>)
        ensures
            match r {
                Ok(target) => parse_target(s@, platform) == Ok::<TargetView, ParseErrorView>(
                    target@,
                ),
                Err(error) => parse_target(s@, platform) == Err::<TargetView, ParseErrorView>(
                    error@,
                ),
            },
    {
        let chars = chars_of(s);
        let mut pattern: Vec<char> = Vec::new();
        pattern.push(':');
        assert(pattern@ =~= colon());
        match find(&chars, &pattern) {
            None => Ok(Target { scheme: Scheme::Tcp, address: s.to_owned() }),
            Some(at) => {
                proof {
                    lemma_first_occurrence(s@, colon(), at as int);
                }
                let ghost rest = s@.subrange(at + 1, s@.len() as int);
                let marked = chars.len() - at >= 3 && chars[at + 1] == '/' && chars[at + 2]
                    == '/';
                proof {
                    if marked {
                        assert(rest.subrange(0, 2) =~= slashes());
                    } else if starts_with(rest, slashes()) {
                        assert(rest.subrange(0, 2)[0] == '/');
                        assert(rest.subrange(0, 2)[1] == '/');
                    }
                }
                let start: usize = if marked {
                    at + 3
                } else {
                    at + 1
                };
                assert(s@.subrange(start as int, s@.len() as int) =~= if marked {
                    rest.subrange(2, rest.len() as int)
                } else {
                    rest
                });
                match scheme_before(&chars, at) {
                    Some(scheme) => {
                        if scheme.supported_on(platform) {
                            Ok(Target { scheme, address: slice_of(s, start, chars.len()) })
                        } else {
                            match scheme {
                                Scheme::Unix => Err(ParseError::UnixSocketsUnsupported),
                                _ => Err(ParseError::NamedPipesUnsupported),
                            }
                        }
                    },
                    None => {
                        if marked {
                            Err(ParseError::UnknownScheme { scheme: slice_of(s, 0, at) })
                        } else {
                            Ok(Target { scheme: Scheme::Tcp, address: s.to_owned() })
                        }
                    },
                }
            },
        }
    }
}

/// What came of resolving the address of a TCP endpoint.
#[derive(Clone, Debug, PartialEq, Eq)]
pub enum Lookup {
    /// The address could not be resolved, for the reason given.
    Failed { reason: String },
    /// The address resolved to these socket addresses, in this order.
    Found { addresses: Vec<SocketAddress> },
}

/// The mathematical value of a [`Lookup`].
pub enum LookupView {
    Failed { reason: Seq<char> },
    Found { addresses: Seq<SocketAddressView> },
}

impl View for Lookup {
    type V = LookupView;

    open spec fn view(&self) -> LookupView {
        match self {
            Lookup::Failed { reason } => LookupView::Failed { reason: reason@ },
            Lookup::Found { addresses } => LookupView::Found {
                addresses: addresses.deep_view(),
            },
        }
    }
}

impl DeepView for Lookup {
    type V = LookupView;

    open spec fn deep_view(&self) -> LookupView {
        self@
    }
}

/// The lookup at place `at` of a list, if the list reaches that far.
pub open spec fn lookup_at(lookups: Seq<LookupView>, at: int) -> Option<LookupView> {
    if 0 <= at < lookups.len() {
        Some(lookups[at])
    } else {
        None
    }
}

/// How many lookups a target takes: one for a TCP endpoint, none for the others.
pub open spec fn lookups_of(target: TargetView) -> nat {
    if target.scheme == Scheme::Tcp {
        1
    } else {
        0
    }
}

/// The endpoint that a target stands for.
///
/// A path or a pipe's name is taken as it is. A TCP endpoint is the first
/// socket address that its lookup found; a lookup that failed, found nothing
/// or was never made is an error.
pub open spec fn resolve_target(target: TargetView, lookup: Option<LookupView>) -> Result<
    EndpointView,
    ParseErrorView,
> {
    match target.scheme {
        Scheme::Unix => Ok(EndpointView::Unix(target.address)),
        Scheme::Pipe => Ok(EndpointView::Pipe(target.address)),
        Scheme::Tcp => match lookup {
            Some(LookupView::Failed { reason }) => Err(
                ParseErrorView::InvalidAddress { address: target.address, reason },
            ),
            Some(LookupView::Found { addresses }) => if addresses.len() > 0 {
                Ok(EndpointView::Tcp(addresses[0]))
            } else {
                Err(ParseErrorView::NoAddresses { address: target.address })
            },
            None => Err(ParseErrorView::NoAddresses { address: target.address }),
        },
    }
}

impl Target {
    /// The address to look up before the target can become an endpoint, if
    /// there is one.
    pub fn host(&self) -> (r: Option<String>)
        ensures
            match r {
                Some(host) => self.scheme == Scheme::Tcp && host@ == self.address@,
                None => self.scheme != Scheme::Tcp,
            },
    {
        match self.scheme {
            Scheme::Tcp => Some(self.address.clone()),
            _ => None,
        }
    }
}

impl Endpoint {
    /// Makes the endpoint that `target` stands for, given what looking up its
    /// address brought; `lookup` is not read unless the target is a TCP endpoint.
    pub fn resolve(target: Target, lookup: Option<&Lookup>) -> (r: Result<Endpoint, ParseError>)
        ensures
            match r {
                Ok(endpoint) => resolve_target(
                    target@,
                    match lookup {
                        Some(l) => Some(l@),
                        None => None,
                    },
                ) == Ok::<EndpointView, ParseErrorView>(endpoint@),
                Err(error) => resolve_target(
                    target@,
                    match lookup {
                        Some(l) => Some(l@),
                        None => None,
                    },
                ) == Err::<EndpointView, ParseErrorView>(error@),
            },
    {
        match target.scheme {
            Scheme::Unix => Ok(Endpoint::Unix(target.address)),
            Scheme::Pipe => Ok(Endpoint::Pipe(target.address)),
            Scheme::Tcp => match lookup {
                Some(Lookup::Failed { reason }) => Err(
                    ParseError::InvalidAddress { address: target.address, reason: reason.clone() },
                ),
                Some(Lookup::Found { addresses }) => {
                    if addresses.len() > 0 {
                        Ok(Endpoint::Tcp(addresses[0].duplicate()))
                    } else {
                        Err(ParseError::NoAddresses { address: target.address })
                    }
                },
                None => Err(ParseError::NoAddresses { address: target.address }),
            },
        }
    }
}

/// What stands between the two endpoints of a directive.
pub open spec fn separator() -> Seq<char> {
    seq!['-', '>']
}

/// The two targets that a directive names: what stands before its first `->`
/// is the source, what follows is the destination.
pub open spec fn split_directive(s: Seq<char>, platform: Platform) -> Result<
    (TargetView, TargetView),
    ParseErrorView,
> {
    match split_once(s, separator()) {
        None => Err(ParseErrorView::MissingSeparator),
        Some((left, right)) => match parse_target(left, platform) {
            Err(error) => Err(error),
            Ok(source) => match parse_target(right, platform) {
                Err(error) => Err(error),
                Ok(destination) => Ok((source, destination)),
            },
        },
    }
}

/// One rule for relaying: connections that arrive at `source` are passed on
/// to `destination`.
#[derive(Clone, Debug, PartialEq, Eq)]
pub struct ProxyDirective {
    pub source: Endpoint,
    pub destination: Endpoint,
}

/// The mathematical value of a [`ProxyDirective`].
pub struct DirectiveView {
    pub source: EndpointView,
    pub destination: EndpointView,
}

impl View for ProxyDirective {
    type V = DirectiveView;

    open spec fn view(&self) -> DirectiveView {
        DirectiveView { source: self.source@, destination: self.destination@ }
    }
}

impl DeepView for ProxyDirective {
    type V = DirectiveView;

    open spec fn deep_view(&self) -> DirectiveView {
        self@
    }
}

/// What a directive means, given the lookups made for it: the one at place
/// `at` is for its source, if that is a TCP endpoint, and the next one is
/// for its destination.
pub open spec fn parse_directive(
    s: Seq<char>,
    platform: Platform,
    lookups: Seq<LookupView>,
    at: int,
) -> Result<DirectiveView, ParseErrorView> {
    match split_directive(s, platform) {
        Err(error) => Err(error),
        Ok((from, to)) => match resolve_target(from, lookup_at(lookups, at)) {
            Err(error) => Err(error),
            Ok(source) => match resolve_target(to, lookup_at(lookups, at + lookups_of(from))) {
                Err(error) => Err(error),
                Ok(destination) => Ok(DirectiveView { source, destination }),
            },
        },
    }
}

/// How many lookups a directive takes; none where it cannot be split.
pub open spec fn lookups_in(s: Seq<char>, platform: Platform) -> nat {
    match split_directive(s, platform) {
        Err(_) => 0,
        Ok((from, to)) => lookups_of(from) + lookups_of(to),
    }
}

/// A directive as text: source, `->`, destination.
pub open spec fn directive_text(source: TargetView, destination: TargetView) -> Seq<char> {
    target_text(source) + separator() + target_text(destination)
}

/// Splits a directive into the targets of its source and its destination.
pub fn split(s: &str, platform: Platform) -> (r: Result<(Target, Target), ParseError>)
    ensures
        match r {
            Ok(pair) => split_directive(s@, platform) == Ok::<
                (TargetView, TargetView),
                ParseErrorView,
            >((pair.0@, pair.1@)),
            Err(error) => split_directive(s@, platform) == Err::<
                (TargetView, TargetView),
                ParseErrorView,
            >(error@),
        },
{
    let chars = chars_of(s);
    let mut pattern: Vec<char> = Vec::new();
    pattern.push('-');
    pattern.push('>');
    assert(pattern@ =~= separator());
    match find(&chars, &pattern) {
        None => Err(ParseError::MissingSeparator),
        Some(at) => {
            proof {
                lemma_first_occurrence(s@, separator(), at as int);
                assert(separator().len() == 2);
                assert(at + 2 <= chars.len());
            }
            let left = slice_of(s, 0, at);
            let right = slice_of(s, at + 2, chars.len());
            match Target::parse(left.as_str(), platform) {
                Err(error) => Err(error),
                Ok(source) => match Target::parse(right.as_str(), platform) {
                    Err(error) => Err(error),
                    Ok(destination) => Ok((source, destination)),
                },
            }
        },
    }
}

/// The lookup at place `at`, and the place of the one after it. Beyond the
/// end of the list there is no lookup, and the place stays where it is.
fn take_lookup(lookups: &Vec<Lookup>, at: usize, needed: bool) -> (r: (Option<&Lookup>, usize))
    requires
        at <= lookups.len(),
    ensures
        r.1 <= lookups.len(),
        r.1 == if needed && at < lookups.len() {
            at + 1
        } else {
            at as int
        },
        needed ==> match r.0 {
            Some(l) => lookup_at(lookups.deep_view(), at as int) == Some(l@),
            None => lookup_at(lookups.deep_view(), at as int) == None::<LookupView>,
        },
{
    if needed && at < lookups.len() {
        (Some(&lookups[at]), at + 1)
    } else {
        (None, at)
    }
}

/// Reads the directive `s` with the lookups from place `at` on, where `at`
/// has stopped at the end of the list if more lookups were taken than it
/// holds. Gives the directive and the place of the next unused lookup.
fn parse_directive_from(s: &str, platform: Platform, lookups: &Vec<Lookup>, at: usize, Ghost(
    place,
): Ghost<int>) -> (r: Result<(ProxyDirective, usize), ParseError>)
    requires
        at <= lookups.len(),
        at == if place < lookups.len() {
            place
        } else {
            lookups.len() as int
        },
        0 <= place,
    ensures
        match r {
            Ok((directive, next)) => {
                &&& parse_directive(s@, platform, lookups.deep_view(), place) == Ok::<
                    DirectiveView,
                    ParseErrorView,
                >(directive@)
                &&& next <= lookups.len()
                &&& next == if place + lookups_in(s@, platform) < lookups.len() {
                    place + lookups_in(s@, platform)
                } else {
                    lookups.len() as int
                }
            },
            Err(error) => parse_directive(s@, platform, lookups.deep_view(), place) == Err::<
                DirectiveView,
                ParseErrorView,
            >(error@),
        },
{
    match split(s, platform) {
        Err(error) => Err(error),
        Ok((from, to)) => {
            let ghost from_view = from@;
            let first_needed = match from.scheme {
                Scheme::Tcp => true,
                _ => false,
            };
            let second_needed = match to.scheme {
                Scheme::Tcp => true,
                _ => false,
            };
            let (first, middle) = take_lookup(lookups, at, first_needed);
            let (second, next) = take_lookup(lookups, middle, second_needed);
            match Endpoint::resolve(from, first) {
                Err(error) => Err(error),
                Ok(source) => match Endpoint::resolve(to, second) {
                    Err(error) => Err(error),
                    Ok(destination) => Ok((ProxyDirective { source, destination }, next)),
                },
            }
        },
    }
}

impl ProxyDirective {
    /// Reads a directive, given the lookups of its TCP addresses in the order
    /// in which the directive names them.
    pub fn parse(s: &str, platform: Platform, lookups: &Vec<Lookup>) -> (r: Result<
        ProxyDirective,
        ParseError,
    >)
        ensures
            match r {
                Ok(directive) => parse_directive(s@, platform, lookups.deep_view(), 0) == Ok::<
                    DirectiveView,
                    ParseErrorView,
                >(directive@),
                Err(error) => parse_directive(s@, platform, lookups.deep_view(), 0) == Err::<
                    DirectiveView,
                    ParseErrorView,
                >(error@),
            },
    {
        match parse_directive_from(s, platform, lookups, 0, Ghost(0)) {
            Ok((directive, _)) => Ok(directive),
            Err(error) => Err(error),
        }
    }

    /// The directive as text, in the form that reads back as the same pair
    /// of targets.
    pub fn format(&self) -> (r: String)
        ensures
            r@ == directive_text(endpoint_target(self.source@), endpoint_target(self.destination@)),
    {
        proof {
            reveal_strlit("->");
        }
        let mut out = self.source.format();
        out.append("->");
        out.append(self.destination.format().as_str());
        assert(out@ =~= directive_text(
            endpoint_target(self.source@),
            endpoint_target(self.destination@),
        ));
        out
    }
}

/// How many lookups a list of directives takes.
pub open spec fn lookups_before(proxies: Seq<Seq<char>>, platform: Platform) -> nat
    decreases proxies.len(),
{
    if proxies.len() == 0 {
        0
    } else {
        lookups_before(proxies.drop_last(), platform) + lookups_in(proxies.last(), platform)
    }
}

/// The address that a target wants looked up, if it wants one.
pub open spec fn target_hosts(target: TargetView) -> Seq<Seq<char>> {
    if target.scheme == Scheme::Tcp {
        seq![target.address]
    } else {
        Seq::empty()
    }
}

/// The addresses to look up for a list of directives: those of the TCP
/// endpoints, directive by directive, the source before the destination. The
/// first directive that cannot be split makes the whole an error.
pub open spec fn hosts_of(proxies: Seq<Seq<char>>, platform: Platform) -> Result<
    Seq<Seq<char>>,
    ParseErrorView,
>
    decreases proxies.len(),
{
    if proxies.len() == 0 {
        Ok(Seq::empty())
    } else {
        match hosts_of(proxies.drop_last(), platform) {
            Err(error) => Err(error),
            Ok(before) => match split_directive(proxies.last(), platform) {
                Err(error) => Err(error),
                Ok((from, to)) => Ok(before + target_hosts(from) + target_hosts(to)),
            },
        }
    }
}

/// What a list of directives means, given the lookups made for them in the
/// order of [`hosts_of`]. The first error, in the order of the list, makes
/// the whole an error.
pub open spec fn parse_directives(
    proxies: Seq<Seq<char>>,
    platform: Platform,
    lookups: Seq<LookupView>,
) -> Result<Seq<DirectiveView>, ParseErrorView>
    decreases proxies.len(),
{
    if proxies.len() == 0 {
        Ok(Seq::empty())
    } else {
        match parse_directives(proxies.drop_last(), platform, lookups) {
            Err(error) => Err(error),
            Ok(before) => match parse_directive(
                proxies.last(),
                platform,
                lookups,
                lookups_before(proxies.drop_last(), platform) as int,
            ) {
                Err(error) => Err(error),
                Ok(directive) => Ok(before.push(directive)),
            },
        }
    }
}

/// The addresses to look up before `proxies` can be read, in the order in
/// which [`parse`] takes their lookups; or the first error that shows without
/// looking anything up.
pub fn hosts(proxies: &Vec<String>, platform: Platform) -> (r: Result<Vec<String>, ParseError>)
    ensures
        match r {
            Ok(found) => {
                &&& hosts_of(proxies.deep_view(), platform) == Ok::<
                    Seq<Seq<char>>,
                    ParseErrorView,
                >(found.deep_view())
                &&& found.len() == lookups_before(proxies.deep_view(), platform)
            },
            Err(error) => hosts_of(proxies.deep_view(), platform) == Err::<
                Seq<Seq<char>>,
                ParseErrorView,
            >(error@),
        },
{
    let mut found: Vec<String> = Vec::new();
    let mut i: usize = 0;
    assert(found.deep_view() =~= Seq::<Seq<char>>::empty());
    assert(proxies.deep_view().take(0).len() == 0);
    while i < proxies.len()
        invariant
            i <= proxies.len(),
            hosts_of(proxies.deep_view().take(i as int), platform) == Ok::<
                Seq<Seq<char>>,
                ParseErrorView,
            >(found.deep_view()),
            found.len() == lookups_before(proxies.deep_view().take(i as int), platform),
        decreases proxies.len() - i,
    {
        let ghost all = proxies.deep_view();
        let ghost before = found.deep_view();
        proof {
            assert(all.take(i + 1).drop_last() =~= all.take(i as int));
            assert(all.take(i + 1).last() == proxies@[i as int]@);
        }
        match split(proxies[i].as_str(), platform) {
            Err(error) => {
                proof {
                    lemma_hosts_error_stays(all, platform, i + 1);
                }
                return Err(error);
            },
            Ok((from, to)) => {
                let ghost middle = before + target_hosts(from@);
                match from.host() {
                    Some(host) => {
                        found.push(host);
                    },
                    None => {},
                }
                assert(found.deep_view() =~= middle);
                match to.host() {
                    Some(host) => {
                        found.push(host);
                    },
                    None => {},
                }
                assert(found.deep_view() =~= middle + target_hosts(to@));
            },
        }
        i += 1;
    }
    assert(proxies.deep_view().take(i as int) =~= proxies.deep_view());
    Ok(found)
}

/// An error among the first `n` directives is the error of the whole list.
proof fn lemma_hosts_error_stays(proxies: Seq<Seq<char>>, platform: Platform, n: int)
    requires
        0 <= n <= proxies.len(),
        hosts_of(proxies.take(n), platform) is Err,
    ensures
        hosts_of(proxies, platform) == hosts_of(proxies.take(n), platform),
    decreases proxies.len() - n,
{
    if n < proxies.len() {
        assert(proxies.take(n + 1).drop_last() =~= proxies.take(n));
        lemma_hosts_error_stays(proxies, platform, n + 1);
    } else {
        assert(proxies.take(n) =~= proxies);
    }
}

/// An error among the first `n` directives is the error of the whole list.
proof fn lemma_parse_error_stays(
    proxies: Seq<Seq<char>>,
    platform: Platform,
    lookups: Seq<LookupView>,
    n: int,
)
    requires
        0 <= n <= proxies.len(),
        parse_directives(proxies.take(n), platform, lookups) is Err,
    ensures
        parse_directives(proxies, platform, lookups) == parse_directives(
            proxies.take(n),
            platform,
            lookups,
        ),
    decreases proxies.len() - n,
{
    if n < proxies.len() {
        assert(proxies.take(n + 1).drop_last() =~= proxies.take(n));
        lemma_parse_error_stays(proxies, platform, lookups, n + 1);
    } else {
        assert(proxies.take(n) =~= proxies);
    }
}

/// The arguments of the program as they were written, before any directive
/// has been read.
#[derive(Clone, Debug, PartialEq, Eq)]
pub struct RawArgs {
    /// The proxy directives, each as it was written.
    pub proxies: Vec<String>,
    /// The shell that runs the commands.
    pub shell: String,
    /// What the shell is given before each command.
    pub shell_args: Vec<String>,
    /// Whether output is held back until a line is whole.
    pub buffered: bool,
    /// The commands to run without a shell.
    pub raw_commands: Vec<String>,
    /// The commands to run in a shell.
    pub commands: Vec<String>,
}

/// The arguments of the program.
#[derive(Clone, Debug, PartialEq, Eq)]
pub struct Args {
    /// The proxy directives.
    pub proxies: Vec<ProxyDirective>,
    /// The shell that runs the commands.
    pub shell: String,
    /// What the shell is given before each command.
    pub shell_args: Vec<String>,
    /// Whether output is held back until a line is whole.
    pub buffered: bool,
    /// The commands to run without a shell.
    pub raw_commands: Vec<String>,
    /// The commands to run in a shell.
    pub commands: Vec<String>,
}

/// The mathematical value of [`Args`].
pub struct ArgsView {
    pub proxies: Seq<DirectiveView>,
    pub shell: Seq<char>,
    pub shell_args: Seq<Seq<char>>,
    pub buffered: bool,
    pub raw_commands: Seq<Seq<char>>,
    pub commands: Seq<Seq<char>>,
}

impl View for Args {
    type V = ArgsView;

    open spec fn view(&self) -> ArgsView {
        ArgsView {
            proxies: self.proxies.deep_view(),
            shell: self.shell@,
            shell_args: self.shell_args.deep_view(),
            buffered: self.buffered,
            raw_commands: self.raw_commands.deep_view(),
            commands: self.commands.deep_view(),
        }
    }
}

/// What the written arguments mean, given the lookups made for their
/// directives: the directives are read, everything else stays as written.
pub open spec fn parse_args(
    proxies: Seq<Seq<char>>,
    shell: Seq<char>,
    shell_args: Seq<Seq<char>>,
    buffered: bool,
    raw_commands: Seq<Seq<char>>,
    commands: Seq<Seq<char>>,
    platform: Platform,
    lookups: Seq<LookupView>,
) -> Result<ArgsView, ParseErrorView> {
    match parse_directives(proxies, platform, lookups) {
        Err(error) => Err(error),
        Ok(directives) => Ok(
            ArgsView { proxies: directives, shell, shell_args, buffered, raw_commands, commands },
        ),
    }
}

/// Reads the arguments of the program.
///
/// `lookups` holds what looking up each address of [`hosts`] brought, in the
/// same order. A lookup that is missing counts as one that found nothing.
pub fn parse(raw: RawArgs, platform: Platform, lookups: &Vec<Lookup>) -> (r: Result<
    Args,
    ParseError,
>)
    ensures
        match r {
            Ok(args) => parse_args(
                raw.proxies.deep_view(),
                raw.shell@,
                raw.shell_args.deep_view(),
                raw.buffered,
                raw.raw_commands.deep_view(),
                raw.commands.deep_view(),
                platform,
                lookups.deep_view(),
            ) == Ok::<ArgsView, ParseErrorView>(args@),
            Err(error) => parse_args(
                raw.proxies.deep_view(),
                raw.shell@,
                raw.shell_args.deep_view(),
                raw.buffered,
                raw.raw_commands.deep_view(),
                raw.commands.deep_view(),
                platform,
                lookups.deep_view(),
            ) == Err::<ArgsView, ParseErrorView>(error@),
        },
{
    let mut directives: Vec<ProxyDirective> = Vec::new();
    let mut at: usize = 0;
    let mut i: usize = 0;
    assert(directives.deep_view() =~= Seq::<DirectiveView>::empty());
    assert(raw.proxies.deep_view().take(0).len() == 0);
    while i < raw.proxies.len()
        invariant
            i <= raw.proxies.len(),
            at <= lookups.len(),
            at == if lookups_before(raw.proxies.deep_view().take(i as int), platform)
                < lookups.len() {
                lookups_before(raw.proxies.deep_view().take(i as int), platform) as int
            } else {
                lookups.len() as int
            },
            parse_directives(
                raw.proxies.deep_view().take(i as int),
                platform,
                lookups.deep_view(),
            ) == Ok::<Seq<DirectiveView>, ParseErrorView>(directives.deep_view()),
        decreases raw.proxies.len() - i,
    {
        let ghost all = raw.proxies.deep_view();
        let ghost before = directives.deep_view();
        let ghost place = lookups_before(all.take(i as int), platform) as int;
        proof {
            assert(all.take(i + 1).drop_last() =~= all.take(i as int));
            assert(all.take(i + 1).last() == raw.proxies@[i as int]@);
        }
        match parse_directive_from(raw.proxies[i].as_str(), platform, lookups, at, Ghost(place)) {
            Err(error) => {
                proof {
                    lemma_parse_error_stays(all, platform, lookups.deep_view(), i + 1);
                }
                return Err(error);
            },
            Ok((directive, next)) => {
                directives.push(directive);
                at = next;
                assert(directives.deep_view() =~= before.push(directive@));
            },
        }
        i += 1;
    }
    assert(raw.proxies.deep_view().take(i as int) =~= raw.proxies.deep_view());
    Ok(
        Args {
            proxies: directives,
            shell: raw.shell,
            shell_args: raw.shell_args,
            buffered: raw.buffered,
            raw_commands: raw.raw_commands,
            commands: raw.commands,
        },
    )
}

/// The name of a scheme holds neither a colon nor a hyphen, and names that scheme.
pub proof fn lemma_scheme_names(scheme: Scheme)
    ensures
        scheme_of(scheme_name(scheme)) == Some(scheme),
        forall|j: int|
            0 <= j < scheme_name(scheme).len() ==> scheme_name(scheme)[j] != ':'
                && scheme_name(scheme)[j] != '-',
{
    let tcp = scheme_name(Scheme::Tcp);
    let unix = scheme_name(Scheme::Unix);
    let pipe = scheme_name(Scheme::Pipe);
    assert(tcp.len() == 3 && unix.len() == 4 && pipe.len() == 4);
    assert(unix[0] == 'u' && pipe[0] == 'p');
}

/// A target that is written out and read again is the same target: the
/// scheme and the address come back as they were, whatever the address holds.
pub proof fn target_reads_back(target: TargetView, platform: Platform)
    requires
        scheme_supported(target.scheme, platform),
    ensures
        parse_target(target_text(target), platform) == Ok::<TargetView, ParseErrorView>(target),
{
    let name = scheme_name(target.scheme);
    let rest = guard(target.address) + target.address;
    let s = target_text(target);
    lemma_scheme_names(target.scheme);
    assert(s =~= name + colon() + rest);
    assert forall|j: int| 0 <= j < name.len() implies !occurs_at(name + colon(), colon(), j) by {
        if occurs_at(name + colon(), colon(), j) {
            assert((name + colon()).subrange(j, j + 1)[0] == ':');
            assert((name + colon())[j] == name[j]);
        }
    }
    lemma_split_once_joined(name, colon(), rest);
    if starts_with(target.address, slashes()) {
        assert(rest.subrange(0, 2) =~= slashes());
        assert(rest.subrange(2, rest.len() as int) =~= target.address);
    } else {
        assert(rest =~= target.address);
    }
}

/// An endpoint string that can be read gives a target that, written out and
/// read again, is that same target.
pub proof fn parsed_target_reads_back(s: Seq<char>, platform: Platform)
    requires
        parse_target(s, platform) is Ok,
    ensures
        parse_target(target_text(parse_target(s, platform)->Ok_0), platform) == parse_target(
            s,
            platform,
        ),
{
    target_reads_back(parse_target(s, platform)->Ok_0, platform);
}

/// The address of a target that was read from `s` is the end of `s`.
proof fn lemma_address_is_suffix(s: Seq<char>, platform: Platform)
    requires
        parse_target(s, platform) is Ok,
    ensures
        exists|k: int|
            0 <= k <= s.len() && parse_target(s, platform)->Ok_0.address == #[trigger] s.subrange(
                k,
                s.len() as int,
            ),
{
    let address = parse_target(s, platform)->Ok_0.address;
    if contains(s, colon()) {
        let at = first_occurrence(s, colon());
        lemma_first_occurrence_exists(s, colon());
        let rest = s.subrange(at + 1, s.len() as int);
        if address == s {
            assert(s.subrange(0, s.len() as int) =~= s);
        } else if address == rest {
        } else {
            assert(starts_with(rest, slashes()));
            assert(rest.subrange(2, rest.len() as int) =~= s.subrange(at + 3, s.len() as int));
        }
    } else {
        assert(s.subrange(0, s.len() as int) =~= s);
    }
}

/// A directive that is written out and read again names the same two
/// targets, as long as the address of its source holds no `->`: the first
/// `->` of the text is then the one between the two.
pub proof fn directive_reads_back(source: TargetView, destination: TargetView, platform: Platform)
    requires
        scheme_supported(source.scheme, platform),
        scheme_supported(destination.scheme, platform),
        !contains(source.address, separator()),
    ensures
        split_directive(directive_text(source, destination), platform) == Ok::<
            (TargetView, TargetView),
            ParseErrorView,
        >((source, destination)),
{
    let left = target_text(source);
    let right = target_text(destination);
    let name = scheme_name(source.scheme);
    let head = name + colon() + guard(source.address);
    lemma_scheme_names(source.scheme);
    assert(left =~= head + source.address);
    assert forall|j: int| 0 <= j < head.len() implies head[j] != '-' by {
        if j < name.len() {
            assert(head[j] == name[j]);
        } else if j == name.len() {
            assert(head[j] == colon()[0]);
        } else {
            assert(head[j] == slashes()[j - name.len() - 1]);
        }
    }
    assert forall|j: int| 0 <= j < left.len() implies !occurs_at(
        left + separator(),
        separator(),
        j,
    ) by {
        let joined = left + separator();
        if occurs_at(joined, separator(), j) {
            let found = joined.subrange(j, j + 2);
            assert(found[0] == '-' && found[1] == '>');
            assert(joined[j] == '-' && joined[j + 1] == '>');
            if j < head.len() {
                assert(joined[j] == head[j]);
            } else if j + 1 < left.len() {
                let k = j - head.len();
                assert(source.address.subrange(k, k + 2) =~= separator());
                assert(occurs_at(source.address, separator(), k));
            } else {
                assert(joined[j + 1] == separator()[0]);
            }
        }
    }
    lemma_split_once_joined(left, separator(), right);
    target_reads_back(source, platform);
    target_reads_back(destination, platform);
}

/// A directive that can be read gives two targets that, written out and read
/// again, are those same two targets.
pub proof fn parsed_directive_reads_back(s: Seq<char>, platform: Platform)
    requires
        split_directive(s, platform) is Ok,
    ensures
        split_directive(
            directive_text(
                split_directive(s, platform)->Ok_0.0,
                split_directive(s, platform)->Ok_0.1,
            ),
            platform,
        ) == split_directive(s, platform),
{
    let (source, destination) = split_directive(s, platform)->Ok_0;
    let at = first_occurrence(s, separator());
    lemma_first_occurrence_exists(s, separator());
    let left = s.subrange(0, at);
    lemma_address_is_suffix(left, platform);
    let k = choose|k: int|
        0 <= k <= left.len() && source.address == #[trigger] left.subrange(k, left.len() as int);
    if contains(source.address, separator()) {
        let j = choose|j: int| occurs_at(source.address, separator(), j);
        assert(s.subrange(k + j, k + j + 2) =~= source.address.subrange(j, j + 2));
        assert(occurs_at(s, separator(), k + j));
    }
    directive_reads_back(source, destination, platform);
}

/// An endpoint that is written out reads back as the target that names it;
/// and a Unix socket or a named pipe, which needs no lookup, becomes the same
/// endpoint again.
pub proof fn endpoint_reads_back(
    endpoint: EndpointView,
    platform: Platform,
    lookup: Option<LookupView>,
)
    requires
        scheme_supported(endpoint_scheme(endpoint), platform),
    ensures
        parse_target(target_text(endpoint_target(endpoint)), platform) == Ok::<
            TargetView,
            ParseErrorView,
        >(endpoint_target(endpoint)),
        !(endpoint is Tcp) ==> resolve_target(endpoint_target(endpoint), lookup) == Ok::<
            EndpointView,
            ParseErrorView,
        >(endpoint),
{
    target_reads_back(endpoint_target(endpoint), platform);
}

/// Every endpoint that reading the arguments gives exists on the platform.
pub proof fn parsed_endpoints_are_supported(
    s: Seq<char>,
    platform: Platform,
    lookups: Seq<LookupView>,
    at: int,
)
    requires
        parse_directive(s, platform, lookups, at) is Ok,
    ensures
        scheme_supported(
            endpoint_scheme(parse_directive(s, platform, lookups, at)->Ok_0.source),
            platform,
        ),
        scheme_supported(
            endpoint_scheme(parse_directive(s, platform, lookups, at)->Ok_0.destination),
            platform,
        ),
{
}

} // verus!
