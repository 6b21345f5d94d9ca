//! Gateways: what they can do, how requests are routed to them, how they fail.
use crate::config::ServerListRow;
use crate::search;
use crate::text;
use crate::text::{concat3, contains, from_chars, to_chars};
use vstd::prelude::*;

verus! {

// ---------------------------------------------------------------------------
// Capabilities
// ---------------------------------------------------------------------------
/// The set of operations that a gateway supports, a flag for each.
#[derive(Clone, Copy, Debug, PartialEq, Eq, Structural)]
pub struct Capabilities {
    bits: u32,
}

impl Capabilities {
    /// Run a command.
    pub const EXEC: u32 = 1;

    /// Copy files.
    pub const COPY: u32 = 2;

    /// Be the backend of the transparent proxy.
    pub const PROXY: u32 = 4;

    /// Enumerate reachable servers.
    pub const LIST: u32 = 8;

    /// Every flag of `flags` is set.
    pub closed spec fn has(self, flags: u32) -> bool {
        self.bits & flags == flags
    }

    /// The set of the given flags.
    pub fn of(exec: bool, copy: bool, proxy: bool, list: bool) -> (r: Capabilities)
        ensures
            r.has(Capabilities::EXEC) == exec,
            r.has(Capabilities::COPY) == copy,
            r.has(Capabilities::PROXY) == proxy,
            r.has(Capabilities::LIST) == list,
    {
        let e: u32 = if exec {
            1
        } else {
            0
        };
        let c: u32 = if copy {
            2
        } else {
            0
        };
        let p: u32 = if proxy {
            4
        } else {
            0
        };
        let l: u32 = if list {
            8
        } else {
            0
        };
        let bits: u32 = e | c | p | l;
        assert((bits & 1 == 1) == (e == 1) && (bits & 2 == 2) == (c == 2) && (bits & 4 == 4) == (p
            == 4) && (bits & 8 == 8) == (l == 8)) by (bit_vector)
            requires
                bits == e | c | p | l,
                e == 0 || e == 1,
                c == 0 || c == 2,
                p == 0 || p == 4,
                l == 0 || l == 8,
        ;
        Capabilities { bits }
    }

    /// Whether every flag of `flags` is set.
    pub fn contains(self, flags: u32) -> (r: bool)
        ensures
            r == self.has(flags),
    {
        self.bits & flags == flags
    }
}

// ---------------------------------------------------------------------------
// Kinds and routes
// ---------------------------------------------------------------------------
/// The kinds of gateways.
#[derive(Clone, Copy, Debug, PartialEq, Eq, Structural, Hash)]
pub enum GatewayKind {
    Xhod,
    Jumpserver,
    Direct,
    ReverseProxy,
    Localhost,
}

/// The name of a kind of gateway.
pub open spec fn kind_name(kind: GatewayKind) -> Seq<char> {
    match kind {
        GatewayKind::Direct => "direct"@,
        GatewayKind::Jumpserver => "jumpserver"@,
        GatewayKind::Xhod => "xhod"@,
        GatewayKind::ReverseProxy => "reverse_proxy"@,
        GatewayKind::Localhost => "localhost"@,
    }
}

impl GatewayKind {
    pub fn as_str(self) -> (r: &'static str)
        ensures
            r@ == kind_name(self),
    {
        match self {
            GatewayKind::Direct => "direct",
            GatewayKind::Jumpserver => "jumpserver",
            GatewayKind::Xhod => "xhod",
            GatewayKind::ReverseProxy => "reverse_proxy",
            GatewayKind::Localhost => "localhost",
        }
    }
}

/// A gateway and the target behind it.
#[derive(Debug)]
pub struct Route {
    pub gateway_name: String,
    pub end_target: String,
}

/// The mathematical counterpart of [`Route`].
#[verifier::ext_equal]
pub struct RouteView {
    pub gateway: Seq<char>,
    pub target: Seq<char>,
}

impl View for Route {
    type V = RouteView;

    open spec fn view(&self) -> RouteView {
        RouteView { gateway: self.gateway_name@, target: self.end_target@ }
    }
}

impl Clone for Route {
    fn clone(&self) -> (r: Self)
        ensures
            r@ == self@,
    {
        Route { gateway_name: self.gateway_name.clone(), end_target: self.end_target.clone() }
    }
}

pub open spec fn route_views(routes: Seq<Route>) -> Seq<RouteView> {
    Seq::new(routes.len(), |i: int| routes[i]@)
}

// ---------------------------------------------------------------------------
// Errors
// ---------------------------------------------------------------------------
/// What went wrong.
#[derive(Clone, Copy, Debug, PartialEq, Eq, Structural)]
pub enum ErrorKind {
    /// The target cannot be found or resolved by this gateway.
    Resolution,
    /// The connection failed.
    Transport,
    /// The remote command failed.
    Execution,
    /// The gateway does not support the operation.
    Unsupported,
}

/// The name of a kind of error.
pub open spec fn error_name(kind: ErrorKind) -> Seq<char> {
    match kind {
        ErrorKind::Resolution => "resolution"@,
        ErrorKind::Transport => "transport"@,
        ErrorKind::Execution => "execution"@,
        ErrorKind::Unsupported => "unsupported"@,
    }
}

impl ErrorKind {
    pub fn as_str(self) -> (r: &'static str)
        ensures
            r@ == error_name(self),
    {
        match self {
            ErrorKind::Resolution => "resolution",
            ErrorKind::Transport => "transport",
            ErrorKind::Execution => "execution",
            ErrorKind::Unsupported => "unsupported",
        }
    }
}

/// An error of a gateway: its kind and the message of its source.
#[derive(Debug)]
pub struct GatewayError {
    pub kind: ErrorKind,
    pub source: String,
}

impl GatewayError {
    pub fn resolution(source: String) -> (r: Self)
        ensures
            r.kind == ErrorKind::Resolution,
            r.source@ == source@,
    {
        GatewayError { kind: ErrorKind::Resolution, source }
    }

    pub fn transport(source: String) -> (r: Self)
        ensures
            r.kind == ErrorKind::Transport,
            r.source@ == source@,
    {
        GatewayError { kind: ErrorKind::Transport, source }
    }

    pub fn execution(source: String) -> (r: Self)
        ensures
            r.kind == ErrorKind::Execution,
            r.source@ == source@,
    {
        GatewayError { kind: ErrorKind::Execution, source }
    }

    pub fn unsupported(source: String) -> (r: Self)
        ensures
            r.kind == ErrorKind::Unsupported,
            r.source@ == source@,
    {
        GatewayError { kind: ErrorKind::Unsupported, source }
    }

    /// The error as text: its kind in brackets, then the message.
    pub open spec fn text(&self) -> Seq<char> {
        "["@ + error_name(self.kind) + "] "@ + self.source@
    }

    pub fn to_text(&self) -> (r: String)
        ensures
            r@ == self.text(),
    {
        let mut r = concat3("[", self.kind.as_str(), "] ");
        r.append(self.source.as_str());
        r
    }

    /// Format the error for users. A failed connection is worth another try, and says so.
    pub fn user_message(&self) -> (r: String)
        ensures
            r@ == if self.kind == ErrorKind::Transport {
                self.text() + "; please retry the operation to open a fresh connection"@
            } else {
                self.text()
            },
    {
        let mut r = self.to_text();
        if self.kind == ErrorKind::Transport {
            r.append("; please retry the operation to open a fresh connection");
        }
        r
    }
}

/// An ASCII letter in lower case.
pub open spec fn lower_of(c: char) -> char {
    if 0x41 <= c as u32 <= 0x5a {
        ((c as u32 + 0x20) as u8) as char
    } else {
        c
    }
}

/// A text with its ASCII letters in lower case.
pub open spec fn lowered(s: Seq<char>) -> Seq<char> {
    Seq::new(s.len(), |i: int| lower_of(s[i]))
}

/// Rust's `to_ascii_lowercase`.
pub fn ascii_lowercase(s: &str) -> (r: String)
    ensures
        r@ == lowered(s@),
{
    let v = to_chars(s);
    let mut out: Vec<char> = Vec::new();
    let mut i: usize = 0;
    while i < v.len()
        invariant
            i <= v.len(),
            out@ == lowered(v@).take(i as int),
        decreases v.len() - i,
    {
        let c = v[i];
        let u: u32 = c as u32;
        let l = if 0x41 <= u && u <= 0x5a {
            ((u + 0x20) as u8) as char
        } else {
            c
        };
        out.push(l);
        i += 1;
        assert(out@ == lowered(v@).take(i as int));
    }
    assert(lowered(v@).take(i as int) == lowered(v@));
    from_chars(out.as_slice())
}

/// The status of a remote call.
#[derive(Clone, Copy, Debug, PartialEq, Eq, Structural)]
pub enum StatusCode {
    Unavailable,
    Cancelled,
    Unknown,
    Internal,
    Other,
}

/// Where an error comes from.
#[derive(Debug)]
pub enum ErrorCause {
    /// A remote call ended with this status.
    Status(StatusCode),
    /// The SSH transport reported it.
    Ssh,
    /// Anything else, with its message.
    Message(String),
}

/// The message names a broken connection.
pub open spec fn names_broken_connection(message: Seq<char>) -> bool {
    let m = lowered(message);
    ||| text::holds(m, "channel closed"@)
    ||| text::holds(m, "closed unexpectedly"@)
    ||| text::holds(m, "broken pipe"@)
    ||| text::holds(m, "connection reset"@)
    ||| text::holds(m, "send error"@)
}

/// The error means that the connection is gone.
pub open spec fn means_transport(cause: ErrorCause) -> bool {
    match cause {
        ErrorCause::Status(code) => code != StatusCode::Other,
        ErrorCause::Ssh => true,
        ErrorCause::Message(m) => names_broken_connection(m@),
    }
}

/// Whether an error means that the connection is gone, so that another one may do.
pub fn is_transport_error(error: &ErrorCause) -> (r: bool)
    ensures
        r == means_transport(*error),
{
    match error {
        ErrorCause::Status(code) => match code {
            StatusCode::Other => false,
            _ => true,
        },
        ErrorCause::Ssh => true,
        ErrorCause::Message(m) => {
            let l = ascii_lowercase(m.as_str());
            let s = l.as_str();
            contains(s, "channel closed") || contains(s, "closed unexpectedly") || contains(
                s,
                "broken pipe",
            ) || contains(s, "connection reset") || contains(s, "send error")
        },
    }
}

/// Whether an error's message says that the target is not known.
pub fn is_resolution_error(error: &str) -> (r: bool)
    ensures
        r == ({
            let m = lowered(error@);
            ||| text::holds(m, "not found"@)
            ||| text::holds(m, "no match"@)
            ||| text::holds(m, "unknown target"@)
        }),
{
    let l = ascii_lowercase(error);
    let s = l.as_str();
    contains(s, "not found") || contains(s, "no match") || contains(s, "unknown target")
}

/// The kind of gateway error that a failed operation becomes.
pub open spec fn failure_kind(cause: ErrorCause) -> ErrorKind {
    if means_transport(cause) {
        ErrorKind::Transport
    } else {
        ErrorKind::Execution
    }
}

/// A failed operation as a gateway error: a transport error if the connection is gone,
/// else an execution error.
pub fn operation_error(cause: &ErrorCause, message: String) -> (r: GatewayError)
    ensures
        r.kind == failure_kind(*cause),
        r.source@ == message@,
{
    if is_transport_error(cause) {
        GatewayError::transport(message)
    } else {
        GatewayError::execution(message)
    }
}

// ---------------------------------------------------------------------------
// The trait
// ---------------------------------------------------------------------------
/// A way to reach servers.
pub trait Gateway {
    spec fn name_view(&self) -> Seq<char>;

    /// The configured name of this gateway.
    fn name(&self) -> (r: &str)
        ensures
            r@ == self.name_view(),
    ;

    /// The kind of this gateway.
    fn kind(&self) -> GatewayKind;

    /// The operations that this gateway supports.
    fn capabilities(&self) -> Capabilities;

    /// The servers that are reachable through this gateway; not supported unless a
    /// gateway says otherwise.
    fn list_servers(&self) -> (r: Result<Vec<ServerListRow>, GatewayError>)
        default_ensures
            r matches Err(e) && e.kind == ErrorKind::Unsupported && e.source@ == "gateway '"@
                + self.name_view() + "' does not support list_servers"@,
    {
        Err(
            GatewayError::unsupported(
                concat3("gateway '", self.name(), "' does not support list_servers"),
            ),
        )
    }
}

// ---------------------------------------------------------------------------
// What errors mean
// ---------------------------------------------------------------------------
/// Capital letters of the alphabet become small ones, and nothing else changes.
pub proof fn law_lowering_changes_capitals_only(s: Seq<char>, i: int)
    requires
        0 <= i < s.len(),
    ensures
        lowered(s).len() == s.len(),
        'A' as u32 <= s[i] as u32 <= 'Z' as u32 ==> lowered(s)[i] as u32 == s[i] as u32 + 32,
        !('A' as u32 <= s[i] as u32 <= 'Z' as u32) ==> lowered(s)[i] == s[i],
{
}

proof fn lemma_phrase_is_found(a: Seq<char>, phrase: Seq<char>, b: Seq<char>)
    requires
        lowered(phrase) == phrase,
    ensures
        text::holds(lowered(a + phrase + b), phrase),
{
    let m = lowered(a + phrase + b);
    let k = a.len() as int;
    assert(m.subrange(k, k + phrase.len()) =~= lowered(phrase));
    assert(search::occurs_at(m, phrase, k));
    search::lemma_find_from(m, phrase, 0);
}

/// A message that tells of a connection that broke means a failed transport, whatever stands
/// around it; so does every failure of the SSH layer. A status of any other kind means that the
/// operation failed.
pub proof fn law_broken_connections_are_transport_errors(
    a: Seq<char>,
    b: Seq<char>,
    message: String,
)
    requires
        message@ == a + "channel closed"@ + b || message@ == a + "closed unexpectedly"@ + b
            || message@ == a + "broken pipe"@ + b || message@ == a + "connection reset"@ + b
            || message@ == a + "send error"@ + b,
    ensures
        failure_kind(ErrorCause::Message(message)) is Transport,
        failure_kind(ErrorCause::Ssh) is Transport,
        failure_kind(ErrorCause::Status(StatusCode::Other)) is Execution,
        forall|code: StatusCode|
            code != StatusCode::Other ==> #[trigger] failure_kind(ErrorCause::Status(code))
                is Transport,
{
    reveal_strlit("channel closed");
    reveal_strlit("closed unexpectedly");
    reveal_strlit("broken pipe");
    reveal_strlit("connection reset");
    reveal_strlit("send error");
    assert(lowered("channel closed"@) =~= "channel closed"@);
    assert(lowered("closed unexpectedly"@) =~= "closed unexpectedly"@);
    assert(lowered("broken pipe"@) =~= "broken pipe"@);
    assert(lowered("connection reset"@) =~= "connection reset"@);
    assert(lowered("send error"@) =~= "send error"@);
    lemma_phrase_is_found(a, "channel closed"@, b);
    lemma_phrase_is_found(a, "closed unexpectedly"@, b);
    lemma_phrase_is_found(a, "broken pipe"@, b);
    lemma_phrase_is_found(a, "connection reset"@, b);
    lemma_phrase_is_found(a, "send error"@, b);
}

/// The text of an error shows its kind in brackets and then its source.
pub proof fn law_errors_show_their_kind(e: GatewayError)
    ensures
        e.kind is Resolution ==> e.text() == "[resolution] "@ + e.source@,
        e.kind is Transport ==> e.text() == "[transport] "@ + e.source@,
        e.kind is Execution ==> e.text() == "[execution] "@ + e.source@,
        e.kind is Unsupported ==> e.text() == "[unsupported] "@ + e.source@,
{
    reveal_strlit("[");
    reveal_strlit("] ");
    reveal_strlit("resolution");
    reveal_strlit("transport");
    reveal_strlit("execution");
    reveal_strlit("unsupported");
    reveal_strlit("[resolution] ");
    reveal_strlit("[transport] ");
    reveal_strlit("[execution] ");
    reveal_strlit("[unsupported] ");
    assert("["@ + "resolution"@ + "] "@ =~= "[resolution] "@);
    assert("["@ + "transport"@ + "] "@ =~= "[transport] "@);
    assert("["@ + "execution"@ + "] "@ =~= "[execution] "@);
    assert("["@ + "unsupported"@ + "] "@ =~= "[unsupported] "@);
}

/// A gateway has two capabilities together exactly where it has each of them.
pub proof fn law_capabilities_are_had_one_by_one(c: Capabilities, a: u32, b: u32)
    ensures
        c.has(a | b) == (c.has(a) && c.has(b)),
        c.has(0),
{
    let bits = c.bits;
    assert((bits & (a | b) == (a | b)) == (bits & a == a && bits & b == b)) by (bit_vector);
    assert(bits & 0 == 0) by (bit_vector);
}

} // verus!
