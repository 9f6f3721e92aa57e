//! The session bridge: the decisions of connecting to a bastion host, of
//! answering its second-factor challenge, and of a session's lifecycle.
//!
//! The transport and the channel belong to the caller, which performs each
//! [`ConnectAction`] and reports the result as a [`ConnectEvent`].
use crate::address::{ipv4_of, parse_ipv4};
use crate::config::ServerInfo;
use crate::prompt::{line_text, PromptWaiter, WaitOutcome};
use crate::text::{chars_of, contains_chars, contains_seq};
use vstd::prelude::*;

verus! {

/// Bound on opening the TCP connection, in seconds.
pub const CONNECT_TIMEOUT_SECS: u64 = 20;

/// Bound on each blocking transport operation, in milliseconds.
pub const SESSION_TIMEOUT_MILLIS: u32 = 10000;

/// Bound on waiting for a menu or shell marker while connecting, in seconds.
pub const MARKER_TIMEOUT_SECS: u64 = 10;

/// Bound on waiting for a command to complete, in seconds.
pub const COMMAND_TIMEOUT_SECS: u64 = 1200;

/// Failures of a session.
#[derive(Debug)]
pub enum BridgeError {
    /// The host is not a dotted-quad IPv4 address.
    InvalidAddress(String),
    /// The TCP connection or the transport handshake failed.
    ConnectionError(String),
    /// Public-key or challenge-response authentication failed.
    AuthError(String),
    /// The pseudo-terminal or the shell could not be set up.
    ChannelError(String),
    /// An expected marker did not appear before the deadline.
    ProtocolTimeout(String),
    /// Reading from or writing to the channel failed.
    IoError(String),
    /// Tearing the session down failed.
    CloseError(String),
    /// The session is closed or failed; its channel cannot be used.
    ChannelUnavailable,
    /// A command is already in flight on the session.
    Busy,
}

/// The marker texts of a bastion's dialect.
pub struct Dialect {
    /// Shown by the bastion's menu when it waits for a choice.
    pub menu_marker: String,
    /// Contained in the keyboard-interactive prompt that asks for the one-time code.
    pub mfa_marker: String,
}

impl Dialect {
    /// The menu marker `Opt>` and the challenge marker `OTP Code`.
    pub fn standard() -> (r: Dialect)
        ensures
            r.menu_marker@ == "Opt>"@,
            r.mfa_marker@ == "OTP Code"@,
    {
        Dialect { menu_marker: String::from_str("Opt>"), mfa_marker: String::from_str("OTP Code") }
    }
}

/// The views of a sequence of texts.
pub open spec fn texts(v: Seq<String>) -> Seq<Seq<char>> {
    Seq::new(v.len(), |i: int| v[i]@)
}

/// The answers to a list of keyboard-interactive prompts: the code for each
/// prompt that contains the marker, in order; other prompts get no answer.
pub open spec fn challenge_answers(prompts: Seq<Seq<char>>, marker: Seq<char>, code: Seq<char>) -> Seq<
    Seq<char>,
>
    decreases prompts.len(),
{
    if prompts.len() == 0 {
        seq![]
    } else {
        let rest = challenge_answers(prompts.drop_last(), marker, code);
        if contains_seq(prompts.last(), marker) {
            rest.push(code)
        } else {
            rest
        }
    }
}

/// The answer to one keyboard-interactive prompt: the code when the prompt
/// contains the marker, none otherwise.
pub fn challenge_response(prompt: &str, mfa_marker: &str, code: &str) -> (r: Option<String>)
    ensures
        match r {
            Some(a) => contains_seq(prompt@, mfa_marker@) && a@ == code@,
            None => !contains_seq(prompt@, mfa_marker@),
        },
{
    let p = chars_of(prompt);
    let m = chars_of(mfa_marker);
    if contains_chars(&p, &m) {
        Some(String::from_str(code))
    } else {
        None
    }
}

/// The answers to a list of keyboard-interactive prompts.
pub fn challenge_responses(prompts: &Vec<String>, mfa_marker: &str, code: &str) -> (r: Vec<String>)
    ensures
        texts(r@) == challenge_answers(texts(prompts@), mfa_marker@, code@),
{
    let mut r: Vec<String> = Vec::new();
    let mut i: usize = 0;
    while i < prompts.len()
        invariant
            i <= prompts@.len(),
            texts(r@) == challenge_answers(texts(prompts@.subrange(0, i as int)), mfa_marker@, code@),
        decreases prompts@.len() - i,
    {
        let ghost pre = texts(prompts@.subrange(0, i as int));
        let ghost next = texts(prompts@.subrange(0, i + 1));
        assert(next.drop_last() =~= pre);
        assert(next.last() == prompts@[i as int]@);
        match challenge_response(prompts[i].as_str(), mfa_marker, code) {
            Some(a) => {
                let ghost before = r@;
                r.push(a);
                assert(texts(r@) =~= texts(before).push(code@));
            },
            None => {},
        }
        i = i + 1;
    }
    assert(prompts@.subrange(0, prompts@.len() as int) =~= prompts@);
    r
}

/// Where a session stands once it is established.
#[derive(PartialEq, Eq, Structural, Clone, Copy, Debug)]
pub enum SessionState {
    /// Waiting for a command.
    Ready,
    /// A command is in flight.
    Executing,
    /// Being torn down.
    Closing,
    /// Torn down.
    Closed,
    /// The channel failed; it is not used again.
    Failed,
}

/// Whether closing a session in this state tears it down (otherwise closing is a no-op).
pub open spec fn close_tears_down(s: SessionState) -> bool {
    s == SessionState::Ready || s == SessionState::Executing
}

/// The state after a close has been asked for and, where it tore the session down, has finished.
pub open spec fn state_after_close(s: SessionState) -> SessionState {
    if close_tears_down(s) {
        SessionState::Closed
    } else {
        s
    }
}

/// The lifecycle of an established session: at most one command in flight,
/// no use after a failure, and a close that is safe to repeat.
pub struct SessionCore {
    state: SessionState,
}

impl SessionCore {
    /// The session's state.
    pub closed spec fn state_of(&self) -> SessionState {
        self.state
    }

    /// A session that a successful connect has just established.
    pub fn new() -> (r: Self)
        ensures
            r.state_of() == SessionState::Ready,
    {
        SessionCore { state: SessionState::Ready }
    }

    /// The session's state.
    pub fn state(&self) -> (r: SessionState)
        ensures
            r == self.state_of(),
    {
        self.state
    }

    /// Starts a command: from `Ready`, the session becomes `Executing` and the
    /// line to send and the wait for the completion markers are returned.
    pub fn begin_execute(&mut self, command: &str, completion_markers: Vec<String>) -> (r: Result<
        (String, PromptWaiter),
        BridgeError,
    >)
        ensures
            old(self).state_of() == SessionState::Ready ==> final(self).state_of() == SessionState::Executing
                && (r matches Ok((line, w)) && line@ == command@ + seq!['\r'] && w.wf() && !w.is_finished()
                && w.received() == Seq::<u8>::empty() && w.markers() == texts(completion_markers@)),
            old(self).state_of() == SessionState::Executing ==> *final(self) == *old(self) && (r matches Err(
                BridgeError::Busy,
            )),
            old(self).state_of() != SessionState::Ready && old(self).state_of() != SessionState::Executing
                ==> *final(self) == *old(self) && (r matches Err(BridgeError::ChannelUnavailable)),
    {
        match self.state {
            SessionState::Ready => {
                let ghost ms = completion_markers@;
                let w = PromptWaiter::new(completion_markers);
                assert(w.markers() =~= texts(ms));
                self.state = SessionState::Executing;
                Ok((line_text(command), w))
            },
            SessionState::Executing => Err(BridgeError::Busy),
            _ => Err(BridgeError::ChannelUnavailable),
        }
    }

    /// Ends a command with what the wait gave. A wait that ended lets the
    /// session take the next command; its transcript is returned, and when no
    /// marker was seen and `strict` is set, a protocol timeout instead. A
    /// failed read or write leaves the session failed.
    pub fn finish_execute(&mut self, outcome: Result<WaitOutcome, String>, strict: bool) -> (r: Result<
        String,
        BridgeError,
    >)
        requires
            old(self).state_of() == SessionState::Executing,
        ensures
            match outcome {
                Ok(o) => final(self).state_of() == SessionState::Ready && if strict && o.marker@.len() == 0 {
                    r matches Err(BridgeError::ProtocolTimeout(_))
                } else {
                    r matches Ok(t) && t@ == o.transcript@
                },
                Err(m) => final(self).state_of() == SessionState::Failed && (r matches Err(
                    BridgeError::IoError(e),
                ) && e@ == m@),
            },
    {
        match outcome {
            Ok(o) => {
                self.state = SessionState::Ready;
                if strict && o.marker.as_str().is_empty() {
                    Err(BridgeError::ProtocolTimeout(String::from_str("no completion marker before the deadline")))
                } else {
                    Ok(o.transcript)
                }
            },
            Err(m) => {
                self.state = SessionState::Failed;
                Err(BridgeError::IoError(m))
            },
        }
    }

    /// Asks for the session to close: true when it is to be torn down now
    /// (it becomes `Closing`); false, with nothing changed, when it is already
    /// closing, closed or failed.
    pub fn begin_close(&mut self) -> (r: bool)
        ensures
            r == close_tears_down(old(self).state_of()),
            r ==> final(self).state_of() == SessionState::Closing,
            !r ==> *final(self) == *old(self),
    {
        if self.state == SessionState::Ready || self.state == SessionState::Executing {
            self.state = SessionState::Closing;
            true
        } else {
            false
        }
    }

    /// Ends a teardown: the session is closed whatever happened; a failure is
    /// reported as a close error.
    pub fn finish_close(&mut self, result: Result<(), String>) -> (r: Result<(), BridgeError>)
        requires
            old(self).state_of() == SessionState::Closing,
        ensures
            final(self).state_of() == SessionState::Closed,
            match result {
                Ok(()) => r is Ok,
                Err(m) => r matches Err(BridgeError::CloseError(e)) && e@ == m@,
            },
    {
        self.state = SessionState::Closed;
        match result {
            Ok(()) => Ok(()),
            Err(m) => Err(BridgeError::CloseError(m)),
        }
    }
}

/// Closing twice is safe: whatever the state, once a close has been asked for
/// and finished, asking again tears nothing down and changes nothing.
pub proof fn lemma_close_twice(s: SessionState)
    ensures
        !close_tears_down(state_after_close(s)),
        state_after_close(state_after_close(s)) == state_after_close(s),
{
}

/// Where a connect attempt stands.
#[derive(PartialEq, Eq, Structural, Clone, Copy, Debug)]
pub enum ConnectPhase {
    /// Nothing done yet.
    Start,
    /// Opening the TCP connection and performing the handshake.
    Connecting,
    /// Trying the private key.
    PublicKeyAuth,
    /// Answering the keyboard-interactive challenge.
    InteractiveAuth,
    /// Asking the transport whether it is authenticated.
    CheckingAuth,
    /// Opening the channel, its pseudo-terminal and the shell.
    OpeningShell,
    /// Waiting for the bastion's menu.
    AwaitingMenu,
    /// Sending the node's name to the menu.
    SelectingNode,
    /// Waiting for the node's shell.
    AwaitingShell,
    /// Established.
    Ready,
    /// Given up.
    Failed,
}

/// What the caller does next while connecting.
pub enum ConnectAction {
    /// Open a TCP connection (bounded by `timeout_secs`) and perform the transport handshake.
    OpenTransport { address: [u8; 4], port: u16, timeout_secs: u64 },
    /// Authenticate with the private key in `key_path`.
    AuthenticatePublicKey { user: String, key_path: String },
    /// Authenticate by keyboard-interactive challenge-response, answering
    /// prompts that contain `mfa_marker` with the one-time code of `secret`.
    AuthenticateInteractive { user: String, secret: String, mfa_marker: String },
    /// Report whether the transport says it is authenticated.
    CheckAuthenticated,
    /// Open a channel, request a pseudo-terminal and start a shell.
    OpenShell,
    /// Wait, for at most `timeout_secs`, for one of the markers.
    AwaitMarkers { markers: Vec<String>, timeout_secs: u64 },
    /// Send this text (a line with its carriage return).
    SendLine(String),
    /// The session is established.
    Established,
    /// The attempt failed.
    Abort(BridgeError),
}

/// What the last action gave.
pub enum ConnectEvent {
    /// It succeeded.
    Done,
    /// It failed, for the reason given.
    Failed(String),
    /// The transport's answer to [`ConnectAction::CheckAuthenticated`].
    Authenticated(bool),
    /// The outcome of [`ConnectAction::AwaitMarkers`].
    Waited(WaitOutcome),
}

/// The reason a failing event gives.
pub open spec fn event_reason(e: ConnectEvent) -> Seq<char> {
    match e {
        ConnectEvent::Failed(m) => m@,
        _ => "unexpected event"@,
    }
}

/// The reason a failing event gives.
fn reason_of(e: ConnectEvent) -> (r: String)
    ensures
        r@ == event_reason(e),
{
    match e {
        ConnectEvent::Failed(m) => m,
        _ => String::from_str("unexpected event"),
    }
}

/// The connect sequence of one session: address, transport, public-key
/// authentication with a keyboard-interactive fallback, shell, bastion menu
/// and, when a node is given, the choice of that node in the menu.
pub struct Connector {
    phase: ConnectPhase,
    server: ServerInfo,
    dialect: Dialect,
    node: Option<String>,
    shell_markers: Vec<String>,
}

impl Connector {
    /// Where the attempt stands.
    pub closed spec fn phase_of(&self) -> ConnectPhase {
        self.phase
    }

    /// The server record connected to.
    pub closed spec fn server_of(&self) -> ServerInfo {
        self.server
    }

    /// The bastion's marker texts.
    pub closed spec fn dialect_of(&self) -> Dialect {
        self.dialect
    }

    /// The node to choose in the bastion's menu, if any.
    pub closed spec fn node_of(&self) -> Option<String> {
        self.node
    }

    /// The texts that show the node's shell is ready.
    pub closed spec fn shell_markers_of(&self) -> Seq<String> {
        self.shell_markers@
    }

    /// A connect attempt that has not started. `shell_markers` are the texts
    /// that show the target node's shell is ready.
    pub fn new(server: ServerInfo, dialect: Dialect, node: Option<String>, shell_markers: Vec<String>) -> (r: Self)
        ensures
            r.phase_of() == ConnectPhase::Start,
            r.server_of() == server,
            r.dialect_of() == dialect,
            r.node_of() == node,
            r.shell_markers_of() == shell_markers@,
    {
        Connector { phase: ConnectPhase::Start, server, dialect, node, shell_markers }
    }

    /// Where the attempt stands.
    pub fn phase(&self) -> (r: ConnectPhase)
        ensures
            r == self.phase_of(),
    {
        self.phase
    }

    /// Starts the attempt: a host that is not a dotted-quad address fails it;
    /// otherwise the transport is opened.
    pub fn start(&mut self) -> (r: ConnectAction)
        requires
            old(self).phase_of() == ConnectPhase::Start,
        ensures
            final(self).server_of() == old(self).server_of(),
            final(self).dialect_of() == old(self).dialect_of(),
            final(self).node_of() == old(self).node_of(),
            final(self).shell_markers_of() == old(self).shell_markers_of(),
            match ipv4_of(old(self).server_of().host@) {
                Some(a) => final(self).phase_of() == ConnectPhase::Connecting && (r matches ConnectAction::OpenTransport {
                    address,
                    port,
                    timeout_secs,
                } && address@ == a && port == old(self).server_of().port && timeout_secs == CONNECT_TIMEOUT_SECS),
                None => final(self).phase_of() == ConnectPhase::Failed && (r matches ConnectAction::Abort(
                    BridgeError::InvalidAddress(h),
                ) && h@ == old(self).server_of().host@),
            },
    {
        match parse_ipv4(self.server.host.as_str()) {
            Some(address) => {
                self.phase = ConnectPhase::Connecting;
                ConnectAction::OpenTransport {
                    address,
                    port: self.server.port,
                    timeout_secs: CONNECT_TIMEOUT_SECS,
                }
            },
            None => {
                self.phase = ConnectPhase::Failed;
                ConnectAction::Abort(BridgeError::InvalidAddress(self.server.host.clone()))
            },
        }
    }

    /// Takes the result of the last action and gives the next one.
    pub fn advance(&mut self, event: ConnectEvent) -> (r: ConnectAction)
        requires
            old(self).phase_of() != ConnectPhase::Start,
            old(self).phase_of() != ConnectPhase::Ready,
            old(self).phase_of() != ConnectPhase::Failed,
        ensures
            final(self).server_of() == old(self).server_of(),
            final(self).dialect_of() == old(self).dialect_of(),
            final(self).node_of() == old(self).node_of(),
            final(self).shell_markers_of() == old(self).shell_markers_of(),
            ({
                let s = old(self).server_of();
                let p = old(self).phase_of();
                let q = final(self).phase_of();
                let why = event_reason(event);
                &&& p == ConnectPhase::Connecting ==> if event is Done {
                    q == ConnectPhase::PublicKeyAuth && (r matches ConnectAction::AuthenticatePublicKey {
                        user,
                        key_path,
                    } && user@ == s.user@ && key_path@ == s.key_path@)
                } else {
                    q == ConnectPhase::Failed && (r matches ConnectAction::Abort(BridgeError::ConnectionError(e))
                        && e@ == why)
                }
                &&& p == ConnectPhase::PublicKeyAuth ==> if event is Done {
                    q == ConnectPhase::CheckingAuth && r is CheckAuthenticated
                } else {
                    match s.secret_code {
                        Some(secret) => q == ConnectPhase::InteractiveAuth && (
                        r matches ConnectAction::AuthenticateInteractive { user, secret: sc, mfa_marker }
                            && user@ == s.user@ && sc@ == secret@ && mfa_marker@
                            == old(self).dialect_of().mfa_marker@),
                        None => q == ConnectPhase::Failed && (r matches ConnectAction::Abort(
                            BridgeError::AuthError(e),
                        ) && e@ == why),
                    }
                }
                &&& p == ConnectPhase::InteractiveAuth ==> if event is Done {
                    q == ConnectPhase::CheckingAuth && r is CheckAuthenticated
                } else {
                    q == ConnectPhase::Failed && (r matches ConnectAction::Abort(BridgeError::AuthError(e)) && e@
                        == why)
                }
                &&& p == ConnectPhase::CheckingAuth ==> if event == ConnectEvent::Authenticated(true) {
                    q == ConnectPhase::OpeningShell && r is OpenShell
                } else {
                    q == ConnectPhase::Failed && (r matches ConnectAction::Abort(BridgeError::AuthError(_)))
                }
                &&& p == ConnectPhase::OpeningShell ==> if event is Done {
                    q == ConnectPhase::AwaitingMenu && (r matches ConnectAction::AwaitMarkers {
                        markers,
                        timeout_secs,
                    } && texts(markers@) == seq![old(self).dialect_of().menu_marker@] && timeout_secs
                        == MARKER_TIMEOUT_SECS)
                } else {
                    q == ConnectPhase::Failed && (r matches ConnectAction::Abort(BridgeError::ChannelError(e))
                        && e@ == why)
                }
                &&& p == ConnectPhase::AwaitingMenu ==> match event {
                    ConnectEvent::Waited(o) => if o.marker@ == old(self).dialect_of().menu_marker@ {
                        match old(self).node_of() {
                            Some(n) => q == ConnectPhase::SelectingNode && (r matches ConnectAction::SendLine(l)
                                && l@ == n@ + seq!['\r']),
                            None => q == ConnectPhase::Ready && r is Established,
                        }
                    } else {
                        q == ConnectPhase::Failed && (r matches ConnectAction::Abort(
                            BridgeError::ProtocolTimeout(_),
                        ))
                    },
                    _ => q == ConnectPhase::Failed && (r matches ConnectAction::Abort(BridgeError::IoError(e))
                        && e@ == why),
                }
                &&& p == ConnectPhase::SelectingNode ==> if event is Done {
                    q == ConnectPhase::AwaitingShell && (r matches ConnectAction::AwaitMarkers {
                        markers,
                        timeout_secs,
                    } && markers@ == old(self).shell_markers_of() && timeout_secs == MARKER_TIMEOUT_SECS)
                } else {
                    q == ConnectPhase::Failed && (r matches ConnectAction::Abort(BridgeError::IoError(e)) && e@
                        == why)
                }
                &&& p == ConnectPhase::AwaitingShell ==> match event {
                    ConnectEvent::Waited(o) => if o.marker@.len() > 0 {
                        q == ConnectPhase::Ready && r is Established
                    } else {
                        q == ConnectPhase::Failed && (r matches ConnectAction::Abort(
                            BridgeError::ProtocolTimeout(_),
                        ))
                    },
                    _ => q == ConnectPhase::Failed && (r matches ConnectAction::Abort(BridgeError::IoError(e))
                        && e@ == why),
                }
            }),
    {
        match self.phase {
            ConnectPhase::Connecting => {
                if let ConnectEvent::Done = event {
                    self.phase = ConnectPhase::PublicKeyAuth;
                    ConnectAction::AuthenticatePublicKey {
                        user: self.server.user.clone(),
                        key_path: self.server.key_path.clone(),
                    }
                } else {
                    self.phase = ConnectPhase::Failed;
                    ConnectAction::Abort(BridgeError::ConnectionError(reason_of(event)))
                }
            },
            ConnectPhase::PublicKeyAuth => {
                if let ConnectEvent::Done = event {
                    self.phase = ConnectPhase::CheckingAuth;
                    ConnectAction::CheckAuthenticated
                } else {
                    match &self.server.secret_code {
                        Some(secret) => {
                            self.phase = ConnectPhase::InteractiveAuth;
                            ConnectAction::AuthenticateInteractive {
                                user: self.server.user.clone(),
                                secret: secret.clone(),
                                mfa_marker: self.dialect.mfa_marker.clone(),
                            }
                        },
                        None => {
                            self.phase = ConnectPhase::Failed;
                            ConnectAction::Abort(BridgeError::AuthError(reason_of(event)))
                        },
                    }
                }
            },
            ConnectPhase::InteractiveAuth => {
                if let ConnectEvent::Done = event {
                    self.phase = ConnectPhase::CheckingAuth;
                    ConnectAction::CheckAuthenticated
                } else {
                    self.phase = ConnectPhase::Failed;
                    ConnectAction::Abort(BridgeError::AuthError(reason_of(event)))
                }
            },
            ConnectPhase::CheckingAuth => {
                if let ConnectEvent::Authenticated(true) = event {
                    self.phase = ConnectPhase::OpeningShell;
                    ConnectAction::OpenShell
                } else {
                    self.phase = ConnectPhase::Failed;
                    ConnectAction::Abort(BridgeError::AuthError(String::from_str("not authenticated")))
                }
            },
            ConnectPhase::OpeningShell => {
                if let ConnectEvent::Done = event {
                    self.phase = ConnectPhase::AwaitingMenu;
                    let mut markers: Vec<String> = Vec::new();
                    markers.push(self.dialect.menu_marker.clone());
                    assert(texts(markers@) =~= seq![self.dialect.menu_marker@]);
                    ConnectAction::AwaitMarkers { markers, timeout_secs: MARKER_TIMEOUT_SECS }
                } else {
                    self.phase = ConnectPhase::Failed;
                    ConnectAction::Abort(BridgeError::ChannelError(reason_of(event)))
                }
            },
            ConnectPhase::AwaitingMenu => {
                match event {
                    ConnectEvent::Waited(o) => {
                        if o.marker == self.dialect.menu_marker {
                            match &self.node {
                                Some(n) => {
                                    self.phase = ConnectPhase::SelectingNode;
                                    ConnectAction::SendLine(line_text(n.as_str()))
                                },
                                None => {
                                    self.phase = ConnectPhase::Ready;
                                    ConnectAction::Established
                                },
                            }
                        } else {
                            self.phase = ConnectPhase::Failed;
                            ConnectAction::Abort(
                                BridgeError::ProtocolTimeout(String::from_str("bastion menu marker not seen")),
                            )
                        }
                    },
                    other => {
                        self.phase = ConnectPhase::Failed;
                        ConnectAction::Abort(BridgeError::IoError(reason_of(other)))
                    },
                }
            },
            ConnectPhase::SelectingNode => {
                if let ConnectEvent::Done = event {
                    self.phase = ConnectPhase::AwaitingShell;
                    ConnectAction::AwaitMarkers {
                        markers: clone_texts(&self.shell_markers),
                        timeout_secs: MARKER_TIMEOUT_SECS,
                    }
                } else {
                    self.phase = ConnectPhase::Failed;
                    ConnectAction::Abort(BridgeError::IoError(reason_of(event)))
                }
            },
            _ => {
                match event {
                    ConnectEvent::Waited(o) => {
                        if !o.marker.as_str().is_empty() {
                            self.phase = ConnectPhase::Ready;
                            ConnectAction::Established
                        } else {
                            self.phase = ConnectPhase::Failed;
                            ConnectAction::Abort(
                                BridgeError::ProtocolTimeout(String::from_str("node shell marker not seen")),
                            )
                        }
                    },
                    other => {
                        self.phase = ConnectPhase::Failed;
                        ConnectAction::Abort(BridgeError::IoError(reason_of(other)))
                    },
                }
            },
        }
    }
}

/// A copy of a list of texts.
pub fn clone_texts(v: &Vec<String>) -> (r: Vec<String>)
    ensures
        r@ == v@,
{
    let mut r: Vec<String> = Vec::new();
    let mut i: usize = 0;
    while i < v.len()
        invariant
            i <= v@.len(),
            r@.len() == i,
            forall|j: int| 0 <= j < i ==> #[trigger] r@[j] == v@[j],
        decreases v@.len() - i,
    {
        r.push(v[i].clone());
        i = i + 1;
    }
    assert(r@ =~= v@);
    r
}

} // verus!
