//! The daemon's end of the helper socket.
//!
//! Requests and acknowledgements are paired by order: the helper answers every
//! request with exactly one acknowledgement, so a queue of the callers waiting
//! is enough. The helper's requests for content are no answers to anything,
//! and never touch that queue.

pub mod laws;

use vstd::prelude::*;
use vstd::string::*;
use crate::os::{
    eagain, econnrefused, einprogress, enoent, eprototype, error_name, name_error,
};
use crate::text::{decimal, push_decimal, push_signed, signed_decimal};

verus! {

/// How long an ordinary call may take, and the handshake, in milliseconds.
pub const CALL_TIMEOUT: u64 = 30_000;

/// How long a call that walks the whole tree may take, in milliseconds.
pub const REGISTER_ROOT_TIMEOUT: u64 = 120_000;

/// Why a call failed.
#[derive(Debug)]
pub enum HelperError {
    NotRunning,
    /// The helper refused it, with this error.
    Refused(i32),
    Timeout,
    Io(String),
}

#[verifier::ext_equal]
pub enum HelperErrorModel {
    NotRunning,
    Refused(i32),
    Timeout,
    Io(Seq<char>),
}

impl View for HelperError {
    type V = HelperErrorModel;

    open spec fn view(&self) -> HelperErrorModel {
        match self {
            HelperError::NotRunning => HelperErrorModel::NotRunning,
            HelperError::Refused(errno) => HelperErrorModel::Refused(*errno),
            HelperError::Timeout => HelperErrorModel::Timeout,
            HelperError::Io(s) => HelperErrorModel::Io(s@),
        }
    }
}

/// What is said of an error.
pub open spec fn helper_error_text(e: HelperErrorModel) -> Seq<char> {
    match e {
        HelperErrorModel::NotRunning => "the konedrive helper is not running"@,
        HelperErrorModel::Refused(errno) => "the helper refused the request (errno "@
            + signed_decimal(errno as int) + ")"@,
        HelperErrorModel::Timeout => "the helper did not respond within its call timeout"@,
        HelperErrorModel::Io(text) => text,
    }
}

impl HelperError {
    /// What is said of it.
    pub fn message(&self) -> (r: String)
        ensures
            r@ == helper_error_text(self@),
    {
        match self {
            HelperError::NotRunning => "the konedrive helper is not running".to_owned(),
            HelperError::Refused(errno) => {
                let mut out = "the helper refused the request (errno ".to_owned();
                push_signed(&mut out, *errno as i128);
                out.append(")");
                out
            },
            HelperError::Timeout => "the helper did not respond within its call timeout".to_owned(),
            HelperError::Io(text) => text.clone(),
        }
    }
}

/// What the daemon asks of the helper.
#[derive(Debug, Clone, Copy, PartialEq, Eq, Structural)]
pub enum Request {
    Hello,
    RegisterRoot,
    UnregisterRoot,
    MarkDir,
    UnmarkDir,
    MarkFile,
    ClearIgnore,
    HydrateDone,
}

/// How long a call may take.
pub open spec fn bound_of(r: Request, call: u64, register: u64) -> u64 {
    if r == Request::RegisterRoot || r == Request::UnregisterRoot {
        register
    } else {
        call
    }
}

impl Request {
    /// How long a call may take: `register` for those that walk the whole tree
    /// inside the call, `call` for every other.
    pub fn bound(self, call: u64, register: u64) -> (r: u64)
        ensures
            r == if self == Request::RegisterRoot || self == Request::UnregisterRoot {
                register
            } else {
                call
            },
            r == bound_of(self, call, register),
    {
        match self {
            Request::RegisterRoot | Request::UnregisterRoot => register,
            _ => call,
        }
    }
}

/// What the helper sends.
#[derive(Debug, Clone, Copy, PartialEq, Eq, Structural)]
pub enum Message {
    /// Its greeting.
    Welcome { version: u32 },
    /// The answer to the oldest call.
    Ack { errno: i32 },
    /// A file to fill; `has_fd`: its descriptor came with the message.
    Hydrate { req_id: u64, has_fd: bool },
}

/// The connection: the callers waiting, and whether the helper has greeted.
pub struct HelperLink {
    /// The protocol version spoken.
    version: u32,
    greeted: bool,
    /// The callers waiting for an answer, oldest first.
    pending: Vec<u64>,
}

#[verifier::ext_equal]
pub struct LinkModel {
    pub version: u32,
    pub greeted: bool,
    pub pending: Seq<u64>,
}

impl View for HelperLink {
    type V = LinkModel;

    closed spec fn view(&self) -> LinkModel {
        LinkModel { version: self.version, greeted: self.greeted, pending: self.pending@ }
    }
}

/// What a message leads to.
pub enum Received {
    /// There is nothing to do with it.
    Nothing,
    /// Whoever waits for the greeting is told.
    Greeted(Result<(), HelperError>),
    /// The caller is answered.
    Answer { caller: u64, result: Result<(), HelperError> },
    /// The file is to be filled.
    Fill(u64),
}

#[verifier::ext_equal]
pub enum ReceivedModel {
    Nothing,
    Greeted(Result<(), HelperErrorModel>),
    Answer { caller: u64, result: Result<(), HelperErrorModel> },
    Fill(u64),
}

/// How a call's result reads.
pub open spec fn called(r: Result<(), HelperError>) -> Result<(), HelperErrorModel> {
    match r {
        Ok(_) => Ok(()),
        Err(e) => Err(e@),
    }
}

impl View for Received {
    type V = ReceivedModel;

    open spec fn view(&self) -> ReceivedModel {
        match self {
            Received::Nothing => ReceivedModel::Nothing,
            Received::Greeted(r) => ReceivedModel::Greeted(called(*r)),
            Received::Answer { caller, result } => ReceivedModel::Answer {
                caller: *caller,
                result: called(*result),
            },
            Received::Fill(req_id) => ReceivedModel::Fill(*req_id),
        }
    }
}

/// What the handshake makes of the version the helper greeted with.
pub open spec fn greeting_of(version: u32, expected: u32) -> Result<(), HelperErrorModel> {
    if version == expected {
        Ok(())
    } else {
        Err(
            HelperErrorModel::Io(
                "the helper greeted with protocol version "@ + decimal(version as nat)
                    + ", expected "@ + decimal(expected as nat),
            ),
        )
    }
}

/// What an acknowledgement answers.
pub open spec fn answer_of(errno: i32) -> Result<(), HelperErrorModel> {
    if errno == 0 {
        Ok(())
    } else {
        Err(HelperErrorModel::Refused(errno))
    }
}

/// The connection once a message has come.
pub open spec fn receiving(l: LinkModel, m: Message) -> LinkModel {
    match m {
        Message::Welcome { .. } => LinkModel { greeted: true, ..l },
        Message::Ack { .. } => if l.pending.len() == 0 {
            l
        } else {
            LinkModel { pending: l.pending.drop_first(), ..l }
        },
        Message::Hydrate { .. } => l,
    }
}

/// What a message leads to: a second greeting, an acknowledgement nobody waits
/// for and a request without its descriptor lead to nothing.
pub open spec fn received_as(l: LinkModel, m: Message) -> ReceivedModel {
    match m {
        Message::Welcome { version } => if l.greeted {
            ReceivedModel::Nothing
        } else {
            ReceivedModel::Greeted(greeting_of(version, l.version))
        },
        Message::Ack { errno } => if l.pending.len() == 0 {
            ReceivedModel::Nothing
        } else {
            ReceivedModel::Answer { caller: l.pending[0], result: answer_of(errno) }
        },
        Message::Hydrate { req_id, has_fd } => if has_fd {
            ReceivedModel::Fill(req_id)
        } else {
            ReceivedModel::Nothing
        },
    }
}

/// The connection once a call of `caller` is about to be written.
pub open spec fn calling(l: LinkModel, caller: u64) -> LinkModel {
    LinkModel { pending: l.pending.push(caller), ..l }
}

/// The connection once the call written last never left, and its caller.
pub open spec fn unsent(l: LinkModel) -> (LinkModel, Option<u64>) {
    if l.pending.len() == 0 {
        (l, None)
    } else {
        (LinkModel { pending: l.pending.drop_last(), ..l }, Some(l.pending.last()))
    }
}

/// Whether whoever waits for the greeting is told that the connection has ended,
/// and which callers are.
pub open spec fn told_of_the_end(l: LinkModel) -> (bool, Seq<u64>) {
    (!l.greeted, l.pending)
}

/// A connection that has ended: who is to be told that the helper is not
/// running.
pub struct Ended {
    /// Whoever waits for the greeting.
    pub greeting: bool,
    /// The callers, oldest first.
    pub callers: Vec<u64>,
}

impl HelperLink {
    pub fn new(version: u32) -> (r: Self)
        ensures
            r@ == (LinkModel { version, greeted: false, pending: Seq::empty() }),
    {
        HelperLink { version, greeted: false, pending: Vec::new() }
    }

    /// A call is about to be written: its caller waits, behind every other,
    /// before an answer can come.
    pub fn sending(&mut self, caller: u64)
        ensures
            final(self)@ == (LinkModel { pending: old(self)@.pending.push(caller), ..old(self)@ }),
            final(self)@ == calling(old(self)@, caller),
    {
        self.pending.push(caller);
    }

    /// The call written last never left: its caller is told so, and the
    /// connection is over.
    pub fn send_failed(&mut self) -> (r: Option<u64>)
        ensures
            match r {
                Some(caller) => old(self)@.pending.len() > 0 && caller == old(self)@.pending.last()
                    && final(self)@ == (LinkModel {
                    pending: old(self)@.pending.drop_last(),
                    ..old(self)@
                }),
                None => old(self)@.pending.len() == 0 && final(self)@ == old(self)@,
            },
            (final(self)@, r) == unsent(old(self)@),
    {
        let r = self.pending.pop();
        proof {
            if old(self).pending@.len() > 0 {
                assert(self.pending@ =~= old(self).pending@.drop_last());
            }
        }
        r
    }

    /// A message has come.
    pub fn received(&mut self, m: Message) -> (r: Received)
        ensures
            final(self)@ == receiving(old(self)@, m),
            r@ == received_as(old(self)@, m),
    {
        match m {
            Message::Welcome { version } => {
                if self.greeted {
                    return Received::Nothing;
                }
                self.greeted = true;
                if version == self.version {
                    Received::Greeted(Ok(()))
                } else {
                    let mut text = "the helper greeted with protocol version ".to_owned();
                    push_decimal(&mut text, version as u128);
                    text.append(", expected ");
                    push_decimal(&mut text, self.version as u128);
                    Received::Greeted(Err(HelperError::Io(text)))
                }
            },
            Message::Ack { errno } => {
                if self.pending.len() == 0 {
                    return Received::Nothing;
                }
                let caller = self.pending.remove(0);
                assert(self.pending@ =~= old(self).pending@.drop_first());
                let result = if errno == 0 {
                    Ok(())
                } else {
                    Err(HelperError::Refused(errno))
                };
                Received::Answer { caller, result }
            },
            Message::Hydrate { req_id, has_fd } => if has_fd {
                Received::Fill(req_id)
            } else {
                Received::Nothing
            },
        }
    }

    /// The connection has ended, whoever ended it: everyone still waiting is
    /// told that the helper is not running.
    pub fn closed(self) -> (r: Ended)
        ensures
            r.greeting == !self@.greeted,
            r.callers@ == self@.pending,
            (r.greeting, r.callers@) == told_of_the_end(self@),
    {
        Ended { greeting: !self.greeted, callers: self.pending }
    }
}

/// How the wait for an answer ended.
pub enum Waited {
    Answered(Result<(), HelperError>),
    /// Nobody is left to answer.
    Dropped,
    /// Its time was up.
    Elapsed,
}

/// What the wait comes to.
pub open spec fn waited(w: Waited) -> Result<(), HelperErrorModel> {
    match w {
        Waited::Answered(r) => called(r),
        Waited::Dropped => Err(HelperErrorModel::NotRunning),
        Waited::Elapsed => Err(HelperErrorModel::Timeout),
    }
}

/// Whether the connection is torn down once the wait has ended so.
pub open spec fn tears_down(w: Waited) -> bool {
    w is Elapsed
}

impl Waited {
    /// What the call comes to, and whether the connection is torn down: a call
    /// whose time is up cannot leave the queue alone, or the next
    /// acknowledgement would answer the wrong caller.
    pub fn call(self) -> (r: (Result<(), HelperError>, bool))
        ensures
            called(r.0) == waited(self),
            r.1 == (self is Elapsed),
            r.1 == tears_down(self),
    {
        match self {
            Waited::Answered(result) => (result, false),
            Waited::Dropped => (Err(HelperError::NotRunning), false),
            Waited::Elapsed => (Err(HelperError::Timeout), true),
        }
    }
}

/// The steps of the handshake.
#[derive(Debug, Clone, Copy, PartialEq, Eq, Structural)]
pub enum Handshake {
    /// The helper's greeting is awaited.
    Greeting,
    /// `Hello` has been said, and its acknowledgement is awaited.
    Hello,
}

/// What comes after a wait of the handshake.
pub enum HandshakeStep {
    /// `Hello` is said, and its answer waited for.
    SayHello,
    /// The connection stands.
    Done,
    /// The connection is given up.
    Failed(HelperError),
}

#[verifier::ext_equal]
pub enum HandshakeStepModel {
    SayHello,
    Done,
    Failed(HelperErrorModel),
}

impl View for HandshakeStep {
    type V = HandshakeStepModel;

    open spec fn view(&self) -> HandshakeStepModel {
        match self {
            HandshakeStep::SayHello => HandshakeStepModel::SayHello,
            HandshakeStep::Done => HandshakeStepModel::Done,
            HandshakeStep::Failed(e) => HandshakeStepModel::Failed(e@),
        }
    }
}

/// What comes after the step's wait.
pub open spec fn handshaking(h: Handshake, came: Waited) -> HandshakeStepModel {
    match waited(came) {
        Err(e) => HandshakeStepModel::Failed(e),
        Ok(_) => match h {
            Handshake::Greeting => HandshakeStepModel::SayHello,
            Handshake::Hello => HandshakeStepModel::Done,
        },
    }
}

impl Handshake {
    /// What comes after the step's wait, which ended as `came` says.
    pub fn next(self, came: Waited) -> (r: HandshakeStep)
        ensures
            r@ == handshaking(self, came),
    {
        match came.call().0 {
            Err(e) => HandshakeStep::Failed(e),
            Ok(()) => match self {
                Handshake::Greeting => HandshakeStep::SayHello,
                Handshake::Hello => HandshakeStep::Done,
            },
        }
    }
}

/// `Hello` is said only to a helper that greeted well, and the connection
/// stands exactly when it greeted well and then acknowledged `Hello`; the first
/// wait that failed is what the handshake failed with.
pub proof fn law_a_handshake_needs_both_answers(greeting: Waited, hello: Waited)
    ensures
        handshaking(Handshake::Greeting, greeting) != HandshakeStepModel::Done,
        handshaking(Handshake::Greeting, greeting) == HandshakeStepModel::SayHello <==> waited(
            greeting,
        ) is Ok,
        handshaking(Handshake::Hello, hello) != HandshakeStepModel::SayHello,
        handshaking(Handshake::Hello, hello) == HandshakeStepModel::Done <==> waited(hello) is Ok,
        waited(greeting) matches Err(e) ==> handshaking(Handshake::Greeting, greeting)
            == HandshakeStepModel::Failed(e),
        waited(hello) matches Err(e) ==> handshaking(Handshake::Hello, hello)
            == HandshakeStepModel::Failed(e),
{
}

/// What kind of error a failed handshake is.
#[derive(Debug, Clone, Copy, PartialEq, Eq, Structural)]
pub enum HandshakeKind {
    InvalidData,
    TimedOut,
    BrokenPipe,
    Other,
}

/// What a failed handshake says.
pub open spec fn handshake_text(e: HelperErrorModel, version: u32) -> Seq<char> {
    match e {
        HelperErrorModel::Refused(errno) => "the helper rejected our protocol version "@ + decimal(
            version as nat,
        ) + " during the handshake (errno "@ + signed_decimal(errno as int) + ")"@,
        HelperErrorModel::Timeout => "the helper did not complete the handshake in time"@,
        HelperErrorModel::NotRunning => "the helper connection closed during the handshake"@,
        HelperErrorModel::Io(text) => text,
    }
}

/// What kind of error a handshake that failed with `e` is.
pub open spec fn handshake_kind(e: HelperErrorModel) -> HandshakeKind {
    match e {
        HelperErrorModel::Refused(_) => HandshakeKind::InvalidData,
        HelperErrorModel::Timeout => HandshakeKind::TimedOut,
        HelperErrorModel::NotRunning => HandshakeKind::BrokenPipe,
        HelperErrorModel::Io(_) => HandshakeKind::Other,
    }
}

/// Turns a failed handshake into a clear connection error.
pub fn handshake_error(e: HelperError, version: u32) -> (r: (HandshakeKind, String))
    ensures
        r.0 == match e@ {
            HelperErrorModel::Refused(_) => HandshakeKind::InvalidData,
            HelperErrorModel::Timeout => HandshakeKind::TimedOut,
            HelperErrorModel::NotRunning => HandshakeKind::BrokenPipe,
            HelperErrorModel::Io(_) => HandshakeKind::Other,
        },
        r.0 == handshake_kind(e@),
        r.1@ == handshake_text(e@, version),
{
    match e {
        HelperError::Refused(errno) => {
            let mut text = "the helper rejected our protocol version ".to_owned();
            push_decimal(&mut text, version as u128);
            text.append(" during the handshake (errno ");
            push_signed(&mut text, errno as i128);
            text.append(")");
            (HandshakeKind::InvalidData, text)
        },
        HelperError::Timeout => (
            HandshakeKind::TimedOut,
            "the helper did not complete the handshake in time".to_owned(),
        ),
        HelperError::NotRunning => (
            HandshakeKind::BrokenPipe,
            "the helper connection closed during the handshake".to_owned(),
        ),
        HelperError::Io(text) => (HandshakeKind::Other, text),
    }
}

/// Whether anything holds a socket bound at the helper's path.
#[derive(Debug)]
pub enum HelperPresence {
    /// Nothing is bound there, so no ignore mark of ours exists.
    Absent,
    /// A socket is bound there: a helper is running, or is starting.
    Present,
    /// The question could not be answered.
    Unknown(String),
}

#[verifier::ext_equal]
pub enum PresenceModel {
    Absent,
    Present,
    Unknown(Seq<char>),
}

impl View for HelperPresence {
    type V = PresenceModel;

    open spec fn view(&self) -> PresenceModel {
        match self {
            HelperPresence::Absent => PresenceModel::Absent,
            HelperPresence::Present => PresenceModel::Present,
            HelperPresence::Unknown(s) => PresenceModel::Unknown(s@),
        }
    }
}

/// What a connection of the wrong socket type to `path` says, having ended with
/// `errno`, or gone through: the kernel refuses the type where the helper's
/// socket is bound, before anything is queued.
pub open spec fn presence_of(errno: Option<i32>, path: Seq<char>) -> PresenceModel {
    match errno {
        Some(e) => if e == 2 || e == 111 {
            PresenceModel::Absent
        } else if e == 91 {
            PresenceModel::Present
        } else if e == 11 || e == 115 {
            PresenceModel::Unknown(path + " is a stream socket, not the helper's"@)
        } else {
            PresenceModel::Unknown(path + ": "@ + error_name(e))
        },
        None => PresenceModel::Unknown(path + " is a stream socket, not the helper's"@),
    }
}

/// What the probe of `path` says, having ended with `errno`, or gone through.
pub fn helper_presence(errno: Option<i32>, path: &str) -> (r: HelperPresence)
    ensures
        r@ == presence_of(errno, path@),
{
    let strange = match errno {
        None => true,
        Some(e) => e == eagain() || e == einprogress(),
    };
    if strange {
        let mut text = path.to_owned();
        text.append(" is a stream socket, not the helper's");
        return HelperPresence::Unknown(text);
    }
    match errno {
        None => HelperPresence::Absent,
        Some(e) => if e == enoent() || e == econnrefused() {
            HelperPresence::Absent
        } else if e == eprototype() {
            HelperPresence::Present
        } else {
            let mut text = path.to_owned();
            text.append(": ");
            text.append(name_error(e).as_str());
            HelperPresence::Unknown(text)
        },
    }
}

/// How a punch makes sure it leaves no ignore mark of ours on the file it
/// empties, decided at the punch and nowhere else.
pub enum Clearance {
    /// There is a link to the helper, which was asked to clear the mark.
    Link(Result<(), HelperError>),
    /// There is none: the helper's socket was looked at.
    NoLink(HelperPresence),
}

/// Why the way for a punch is not clear.
#[derive(Debug)]
pub enum NotCleared {
    Helper(HelperError),
    Unlinked,
    Unknown(String),
}

#[verifier::ext_equal]
pub enum NotClearedModel {
    Helper(HelperErrorModel),
    Unlinked,
    Unknown(Seq<char>),
}

impl View for NotCleared {
    type V = NotClearedModel;

    open spec fn view(&self) -> NotClearedModel {
        match self {
            NotCleared::Helper(e) => NotClearedModel::Helper(e@),
            NotCleared::Unlinked => NotClearedModel::Unlinked,
            NotCleared::Unknown(s) => NotClearedModel::Unknown(s@),
        }
    }
}

/// What is said of it.
pub open spec fn not_cleared_text(e: NotClearedModel) -> Seq<char> {
    match e {
        NotClearedModel::Helper(e) => "the helper did not clear the ignore mark: "@ + helper_error_text(
            e,
        ),
        NotClearedModel::Unlinked => "a konedrive helper is running and this daemon is not connected to it yet, so the file's ignore mark cannot be cleared"@,
        NotClearedModel::Unknown(why) => "cannot tell whether a konedrive helper is running: "@ + why,
    }
}

impl NotCleared {
    /// What is said of it.
    pub fn message(&self) -> (r: String)
        ensures
            r@ == not_cleared_text(self@),
    {
        match self {
            NotCleared::Helper(e) => {
                let mut out = "the helper did not clear the ignore mark: ".to_owned();
                out.append(e.message().as_str());
                out
            },
            NotCleared::Unlinked => "a konedrive helper is running and this daemon is not connected to it yet, so the file's ignore mark cannot be cleared".to_owned(),
            NotCleared::Unknown(why) => {
                let mut out = "cannot tell whether a konedrive helper is running: ".to_owned();
                out.append(why.as_str());
                out
            },
        }
    }
}

/// What the rule on [`Clearance`] comes to.
pub open spec fn clearing(c: Clearance) -> Result<(), NotClearedModel> {
    match c {
        Clearance::Link(r) => match called(r) {
            Ok(_) => Ok(()),
            Err(e) => Err(NotClearedModel::Helper(e)),
        },
        Clearance::NoLink(p) => match p@ {
            PresenceModel::Absent => Ok(()),
            PresenceModel::Present => Err(NotClearedModel::Unlinked),
            PresenceModel::Unknown(why) => Err(NotClearedModel::Unknown(why)),
        },
    }
}

impl Clearance {
    /// Whether the way for emptying a file is clear. `Ok` is the only answer
    /// after which a punch may follow.
    pub fn clear(self) -> (r: Result<(), NotCleared>)
        ensures
            (match r {
                Ok(_) => Ok::<(), NotClearedModel>(()),
                Err(e) => Err(e@),
            }) == clearing(self),
    {
        match self {
            Clearance::Link(Ok(_)) => Ok(()),
            Clearance::Link(Err(e)) => Err(NotCleared::Helper(e)),
            Clearance::NoLink(HelperPresence::Absent) => Ok(()),
            Clearance::NoLink(HelperPresence::Present) => Err(NotCleared::Unlinked),
            Clearance::NoLink(HelperPresence::Unknown(why)) => Err(NotCleared::Unknown(why)),
        }
    }
}

/// One step on a connection.
pub enum LinkEvent {
    /// A caller's message is written.
    Send(u64),
    Receive(Message),
}

/// The connection once the first `n` events have happened.
pub open spec fn link_after(l: LinkModel, events: Seq<LinkEvent>, n: int) -> LinkModel
    decreases n,
{
    if n <= 0 {
        l
    } else {
        let before = link_after(l, events, n - 1);
        match events[n - 1] {
            LinkEvent::Send(caller) => LinkModel { pending: before.pending.push(caller), ..before },
            LinkEvent::Receive(m) => receiving(before, m),
        }
    }
}

/// The callers whose messages the first `n` events wrote, in their order.
pub open spec fn sent(events: Seq<LinkEvent>, n: int) -> Seq<u64>
    decreases n,
{
    if n <= 0 {
        Seq::empty()
    } else {
        match events[n - 1] {
            LinkEvent::Send(caller) => sent(events, n - 1).push(caller),
            LinkEvent::Receive(_) => sent(events, n - 1),
        }
    }
}

/// The callers the first `n` events answered, in their order.
pub open spec fn answered(l: LinkModel, events: Seq<LinkEvent>, n: int) -> Seq<u64>
    decreases n,
{
    if n <= 0 {
        Seq::empty()
    } else {
        let before = answered(l, events, n - 1);
        match events[n - 1] {
            LinkEvent::Send(_) => before,
            LinkEvent::Receive(m) => match received_as(link_after(l, events, n - 1), m) {
                ReceivedModel::Answer { caller, .. } => before.push(caller),
                _ => before,
            },
        }
    }
}

/// Callers are answered in the order they called, each once, whatever else the
/// helper sends in between; and those not answered are exactly those who still
/// wait — and are told when the connection ends.
pub proof fn law_answers_come_in_the_order_of_the_calls(l: LinkModel, events: Seq<LinkEvent>, n: int)
    requires
        l.pending.len() == 0,
        0 <= n <= events.len(),
    ensures
        answered(l, events, n) + link_after(l, events, n).pending == sent(events, n),
        answered(l, events, n).len() <= sent(events, n).len(),
        forall|k: int|
            0 <= k < answered(l, events, n).len() ==> #[trigger] answered(l, events, n)[k] == sent(
                events,
                n,
            )[k],
    decreases n,
{
    if n > 0 {
        law_answers_come_in_the_order_of_the_calls(l, events, n - 1);
        let before = link_after(l, events, n - 1);
        let now = link_after(l, events, n);
        let done = answered(l, events, n);
        let all = answered(l, events, n - 1) + before.pending;
        match events[n - 1] {
            LinkEvent::Send(caller) => {
                assert(done + now.pending =~= all.push(caller));
            },
            LinkEvent::Receive(m) => {
                assert(done + now.pending =~= all);
            },
        }
        assert(done + now.pending == sent(events, n));
        assert forall|k: int| 0 <= k < done.len() implies #[trigger] done[k] == sent(events, n)[k] by {
            assert((done + now.pending)[k] == done[k]);
        }
    } else {
        assert(answered(l, events, 0) + l.pending =~= Seq::empty());
    }
}

/// A file is emptied only where no ignore mark of ours can be on it: the helper
/// cleared it, or no helper has its socket bound.
pub proof fn law_a_punch_leaves_no_ignore_mark(c: Clearance)
    ensures
        clearing(c) is Ok <==> match c {
            Clearance::Link(r) => r is Ok,
            Clearance::NoLink(p) => p@ == PresenceModel::Absent,
        },
{
}

} // verus!
