//! The per-robot session: a strict request/response multiplexer over one
//! full-duplex text socket, and the identity negotiation that runs once
//! before a session enters service.
//!
//! The socket loop itself performs I/O and lives with the transport; the
//! decisions it takes are the functions here, written as an explicit
//! state machine so the protocol states and transitions are visible:
//! Idle accepts a submission and puts it on the wire; AwaitingReply
//! pairs the next socket event with that submission; Closed is terminal
//! and refuses further submissions.

use vstd::prelude::*;
use vstd::string::StringExecFns;
use crate::api::TurtleRequestError;
use crate::color::{hex_char_str, hex_digit};

verus! {

/// The state of one robot session.
#[derive(Debug, PartialEq, Eq, Clone, Structural, Copy)]
pub enum SessionState {
    /// No exchange in flight.
    Idle,
    /// A request is on the wire; its reply is owed next.
    AwaitingReply,
    /// The session is torn down; submissions fail at once.
    Closed,
}

/// What the socket yields while a reply is awaited.
#[derive(Debug, PartialEq, Eq, Clone)]
pub enum SocketEvent {
    /// A text frame: the robot's reply.
    TextReply(String),
    /// A non-text frame: a protocol error.
    NonTextReply,
    /// The peer sent a close frame.
    CloseFrame,
    /// The transport reported an error.
    SocketError,
    /// The stream ended without a frame.
    PeerGone,
    /// The reply deadline expired.
    TimedOut,
}

/// What to do with a newly submitted command.
#[derive(Debug, PartialEq, Eq, Clone, Structural, Copy)]
pub enum SubmitAction {
    /// Put the command text on the wire and await its reply.
    SendOnSocket,
    /// Fail the submission at once: the session is closed.
    RejectClosed,
}

/// Whether an event tears the session down.
pub open spec fn spec_event_closes(ev: SocketEvent) -> bool {
    !(ev matches SocketEvent::TextReply(_) || ev is NonTextReply)
}

/// The outcome owed to the submitter whose request the event answers.
pub open spec fn spec_reply_outcome(ev: SocketEvent) -> Result<String, TurtleRequestError> {
    match ev {
        SocketEvent::TextReply(t) => Ok(t),
        SocketEvent::NonTextReply => Err(TurtleRequestError::InvalidResponse),
        SocketEvent::CloseFrame => Err(TurtleRequestError::WsClosed),
        SocketEvent::SocketError => Err(TurtleRequestError::WsClosed),
        SocketEvent::PeerGone => Err(TurtleRequestError::WsClosed),
        SocketEvent::TimedOut => Err(TurtleRequestError::TimeOut),
    }
}

/// The state a reply event leaves the session in.
pub open spec fn spec_state_after(ev: SocketEvent) -> SessionState {
    if spec_event_closes(ev) {
        SessionState::Closed
    } else {
        SessionState::Idle
    }
}

/// Accept or refuse a submission. Only an idle or closed session takes
/// submissions; while a reply is owed, the multiplexer holds them back.
pub fn session_submit(state: SessionState) -> (r: (SessionState, SubmitAction))
    requires
        state != SessionState::AwaitingReply,
    ensures
        state == SessionState::Idle ==> r == (
            SessionState::AwaitingReply,
            SubmitAction::SendOnSocket,
        ),
        state == SessionState::Closed ==> r == (SessionState::Closed, SubmitAction::RejectClosed),
{
    match state {
        SessionState::Idle => (SessionState::AwaitingReply, SubmitAction::SendOnSocket),
        _ => (SessionState::Closed, SubmitAction::RejectClosed),
    }
}

/// Pair the awaited reply with the in-flight request: a text frame is
/// delivered as success and the session returns to Idle; a non-text
/// frame is a protocol error that keeps the session alive; a close,
/// error, silence or deadline fails the submitter and closes the
/// session. The returned flag says whether the socket must be shut now
/// (the deadline case; the peer is gone in the others).
pub fn session_on_reply(ev: &SocketEvent) -> (r: (
    SessionState,
    Result<String, TurtleRequestError>,
    bool,
))
    ensures
        r.0 == spec_state_after(*ev),
        r.1 == spec_reply_outcome(*ev),
        r.2 == (*ev is TimedOut),
{
    match ev {
        SocketEvent::TextReply(t) => (SessionState::Idle, Ok(t.clone()), false),
        SocketEvent::NonTextReply => (
            SessionState::Idle,
            Err(TurtleRequestError::InvalidResponse),
            false,
        ),
        SocketEvent::CloseFrame => (SessionState::Closed, Err(TurtleRequestError::WsClosed), false),
        SocketEvent::SocketError => (
            SessionState::Closed,
            Err(TurtleRequestError::WsClosed),
            false,
        ),
        SocketEvent::PeerGone => (SessionState::Closed, Err(TurtleRequestError::WsClosed), false),
        SocketEvent::TimedOut => (SessionState::Closed, Err(TurtleRequestError::TimeOut), true),
    }
}

/// No closing event occurs before index `i`.
pub open spec fn spec_open_before(events: Seq<SocketEvent>, i: int) -> bool {
    forall|j: int| 0 <= j < i ==> !spec_event_closes(#[trigger] events[j])
}

/// Session FIFO: drive one session over a scripted sequence of
/// submissions and socket events. Every submission is answered; while
/// the session lives, the i-th submission is answered by exactly the
/// i-th socket event, in order; once an event closes the session, every
/// later submission fails with `WsClosed`.
pub fn run_session(requests: &Vec<String>, events: &Vec<SocketEvent>) -> (r: Vec<
    Result<String, TurtleRequestError>,
>)
    requires
        requests@.len() == events@.len(),
    ensures
        r@.len() == requests@.len(),
        forall|i: int|
            0 <= i < r@.len() && spec_open_before(events@, i + 1) ==> r@[i] == spec_reply_outcome(
                events@[i],
            ),
        forall|i: int|
            0 <= i < r@.len() && spec_open_before(events@, i) && spec_event_closes(events@[i])
                ==> r@[i] == spec_reply_outcome(events@[i]),
        forall|i: int|
            0 <= i < r@.len() && !spec_open_before(events@, i) ==> r@[i] == Err::<
                String,
                TurtleRequestError,
            >(TurtleRequestError::WsClosed),
{
    let n = requests.len();
    let mut out: Vec<Result<String, TurtleRequestError>> = Vec::new();
    let mut state = SessionState::Idle;
    let mut i: usize = 0;
    while i < n
        invariant
            n == requests@.len() == events@.len(),
            i <= n,
            out@.len() == i,
            state != SessionState::AwaitingReply,
            state == SessionState::Idle <==> spec_open_before(events@, i as int),
            forall|k: int|
                0 <= k < i && spec_open_before(events@, k + 1) ==> out@[k] == spec_reply_outcome(
                    events@[k],
                ),
            forall|k: int|
                0 <= k < i && spec_open_before(events@, k) && spec_event_closes(events@[k])
                    ==> out@[k] == spec_reply_outcome(events@[k]),
            forall|k: int|
                0 <= k < i && !spec_open_before(events@, k) ==> out@[k] == Err::<
                    String,
                    TurtleRequestError,
                >(TurtleRequestError::WsClosed),
        decreases n - i,
    {
        let (next, action) = session_submit(state);
        state = next;
        match action {
            SubmitAction::SendOnSocket => {
                let (after, outcome, _close_now) = session_on_reply(&events[i]);
                state = after;
                out.push(outcome);
            },
            SubmitAction::RejectClosed => {
                out.push(Err(TurtleRequestError::WsClosed));
            },
        }
        proof {
            if spec_open_before(events@, i as int) && spec_event_closes(events@[i as int]) {
                assert(!spec_open_before(events@, i as int + 1));
            }
        }
        i = i + 1;
    }
    out
}

/// The 128-bit value a UUID spelling denotes, if it is one.
pub uninterp spec fn uuid_of(s: Seq<char>) -> Option<u128>;

/// Relies on uuid::Uuid::try_parse, with as_u128 carrying the value:
/// a deterministic parse of the UUID spellings that crate accepts.
#[verifier::external_body]
pub(crate) fn parse_uuid(s: &str) -> (r: Option<u128>)
    ensures
        r == uuid_of(s@),
{
    uuid::Uuid::try_parse(s).ok().map(|u| u.as_u128())
}

/// The 32 lowercase hex digits of a 128-bit identity, most significant
/// nibble first: the simple UUID spelling.
pub open spec fn spec_u128_simple(v: u128) -> Seq<char> {
    Seq::new(32, |i: int| hex_digit(((v >> ((31 - i) * 4)) & 0xf) as int))
}

/// Spell a 128-bit identity as 32 lowercase hex digits.
pub fn u128_simple_string(v: u128) -> (s: String)
    ensures
        s@ == spec_u128_simple(v),
{
    let mut s = String::new();
    let mut i: usize = 0;
    while i < 32
        invariant
            i <= 32,
            s@ == spec_u128_simple(v).take(i as int),
        decreases 32 - i,
    {
        let sh: u32 = (31 - i as u32) * 4;
        let nib: u8 = ((v >> sh) & 0xf) as u8;
        proof {
            let shg = sh;
            assert((v >> shg) & 0xf < 16) by (bit_vector);
        }
        s.append(hex_char_str(nib));
        proof {
            assert(s@ =~= spec_u128_simple(v).take(i as int + 1));
        }
        i = i + 1;
    }
    proof {
        assert(spec_u128_simple(v).take(32) =~= spec_u128_simple(v));
    }
    s
}

/// The command that stamps a fresh identity onto the robot.
pub open spec fn spec_set_label_command(v: u128) -> Seq<char> {
    "return os.setComputerLabel(\""@ + spec_u128_simple(v) + "\")"@
}

/// How the identity negotiation resolves.
#[derive(Debug, PartialEq, Eq, Clone)]
pub enum IdentityDecision {
    /// The robot already carries a parseable identity: adopt it.
    Adopt { id: u128 },
    /// It does not: assign the fresh one and stamp it with the command.
    AssignNew { id: u128, set_label_command: String },
}

/// The first negotiation message: ask the robot for its label.
pub fn get_os_label_payload() -> (r: String)
    ensures
        r@ == "local ok, err = os.computerLabel() return ok"@,
{
    "local ok, err = os.computerLabel() return ok".to_owned()
}

/// Resolve the robot's label reply: a literal "nil" or anything that is
/// not a UUID gets the fresh identity, stamped by the returned command;
/// a parseable UUID is adopted as it stands.
pub fn decide_identity(reply: &str, fresh: u128) -> (r: IdentityDecision)
    ensures
        (reply@ == "nil"@ || uuid_of(reply@) is None) ==> (r matches IdentityDecision::AssignNew {
            id,
            set_label_command,
        } && id == fresh && set_label_command@ == spec_set_label_command(fresh)),
        !(reply@ == "nil"@ || uuid_of(reply@) is None) ==> r == (IdentityDecision::Adopt {
            id: uuid_of(reply@)->0,
        }),
{
    let parsed = parse_uuid(reply);
    if crate::strutil::str_eq(reply, "nil") || parsed.is_none() {
        let simple = u128_simple_string(fresh);
        let mut cmd = "return os.setComputerLabel(\"".to_owned();
        cmd.append(simple.as_str());
        cmd.append("\")");
        proof {
            assert(cmd@ =~= spec_set_label_command(fresh));
        }
        IdentityDecision::AssignNew { id: fresh, set_label_command: cmd }
    } else {
        IdentityDecision::Adopt { id: parsed.unwrap() }
    }
}

} // verus!
