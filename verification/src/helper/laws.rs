//! What holds of every message to the helper and from it.

use vstd::prelude::*;
use crate::helper::{
    bound_of, called, calling, handshake_kind, handshake_text, helper_error_text, not_cleared_text,
    presence_of, received_as, receiving, tears_down, told_of_the_end, unsent, waited,
    HandshakeKind, HelperError, HelperErrorModel, LinkModel, Message, NotClearedModel,
    PresenceModel, ReceivedModel, Request, Waited,
};
use crate::helper_status::{helper_state, state_name, unit_state, HelperState};
use crate::os::error_name;
use crate::text::{decimal, signed_decimal};

verus! {

/// An answer goes to the caller that waits longest, who then waits no more, and
/// says what the helper said: that it went through, or the error it was refused
/// with. Where nobody waits it goes to nobody.
pub proof fn law_an_answer_is_the_oldest_callers(l: LinkModel, errno: i32)
    ensures
        l.pending.len() == 0 ==> received_as(l, Message::Ack { errno }) == ReceivedModel::Nothing
            && receiving(l, Message::Ack { errno }) == l,
        l.pending.len() > 0 ==> {
            let next = receiving(l, Message::Ack { errno });
            &&& next.greeted == l.greeted && next.version == l.version
            &&& seq![l.pending[0]] + next.pending == l.pending
            &&& received_as(l, Message::Ack { errno }) == (ReceivedModel::Answer {
                caller: l.pending[0],
                result: if errno == 0 {
                    Ok(())
                } else {
                    Err(HelperErrorModel::Refused(errno))
                },
            })
        },
{
    if l.pending.len() > 0 {
        assert(seq![l.pending[0]] + l.pending.drop_first() =~= l.pending);
    }
}

/// A greeting counts once, answers no caller, and goes well only with the version
/// that is spoken.
pub proof fn law_a_greeting_counts_once(l: LinkModel, version: u32)
    ensures
        ({
            let next = receiving(l, Message::Welcome { version });
            &&& next.greeted && next.pending == l.pending && next.version == l.version
            &&& received_as(next, Message::Welcome { version }) == ReceivedModel::Nothing
            &&& l.greeted ==> received_as(l, Message::Welcome { version }) == ReceivedModel::Nothing
            &&& !l.greeted && version == l.version ==> received_as(l, Message::Welcome { version })
                == ReceivedModel::Greeted(Ok(()))
            &&& !l.greeted && version != l.version ==> received_as(l, Message::Welcome { version })
                == ReceivedModel::Greeted(
                Err(
                    HelperErrorModel::Io(
                        "the helper greeted with protocol version "@ + decimal(version as nat)
                            + ", expected "@ + decimal(l.version as nat),
                    ),
                ),
            )
        }),
{
}

/// A request for content is no answer: nobody's wait is changed by it, and the
/// file asked for is filled where its descriptor came along.
pub proof fn law_a_request_for_content_is_no_answer(l: LinkModel, req_id: u64)
    ensures
        receiving(l, Message::Hydrate { req_id, has_fd: true }) == l,
        receiving(l, Message::Hydrate { req_id, has_fd: false }) == l,
        received_as(l, Message::Hydrate { req_id, has_fd: true }) == ReceivedModel::Fill(req_id),
        received_as(l, Message::Hydrate { req_id, has_fd: false }) == ReceivedModel::Nothing,
{
}

/// A call that never left is as one never made, and its own caller is told; and
/// when the connection ends everyone is told who waits.
pub proof fn law_a_call_that_never_left_is_undone(l: LinkModel, caller: u64)
    ensures
        unsent(calling(l, caller)) == (l, Some(caller)),
        l.pending.len() == 0 ==> unsent(l) == (l, None::<u64>),
        told_of_the_end(l).0 == !l.greeted,
        told_of_the_end(l).1 == l.pending,
        told_of_the_end(calling(l, caller)).1 == l.pending.push(caller),
{
    assert(l.pending.push(caller).drop_last() =~= l.pending);
}

/// What a wait comes to: what was answered, that nobody is left, or that its time
/// was up; and only then is the connection torn down.
pub proof fn law_what_a_wait_comes_to(errno: i32)
    ensures
        waited(Waited::Answered(Ok(()))) == Ok::<(), HelperErrorModel>(()),
        waited(Waited::Answered(Err(HelperError::Refused(errno)))) == Err::<(), HelperErrorModel>(
            HelperErrorModel::Refused(errno),
        ),
        waited(Waited::Dropped) == Err::<(), HelperErrorModel>(HelperErrorModel::NotRunning),
        waited(Waited::Elapsed) == Err::<(), HelperErrorModel>(HelperErrorModel::Timeout),
        tears_down(Waited::Elapsed),
        !tears_down(Waited::Dropped),
        !tears_down(Waited::Answered(Ok(()))),
        !tears_down(Waited::Answered(Err(HelperError::Refused(errno)))),
{
}

/// The two calls that walk the whole tree have the longer time, every other the
/// shorter.
pub proof fn law_how_long_a_call_may_take(call: u64, register: u64)
    ensures
        bound_of(Request::RegisterRoot, call, register) == register,
        bound_of(Request::UnregisterRoot, call, register) == register,
        bound_of(Request::Hello, call, register) == call,
        bound_of(Request::MarkDir, call, register) == call,
        bound_of(Request::UnmarkDir, call, register) == call,
        bound_of(Request::MarkFile, call, register) == call,
        bound_of(Request::ClearIgnore, call, register) == call,
        bound_of(Request::HydrateDone, call, register) == call,
{
}

/// What a connection of the wrong type tells: that a helper is there only where
/// the type is refused, that none is only where nothing is bound or nothing
/// listens; everything else tells neither.
pub proof fn law_what_the_socket_tells(errno: Option<i32>, path: Seq<char>)
    ensures
        presence_of(errno, path) == PresenceModel::Absent <==> errno == Some(2i32) || errno == Some(
            111i32,
        ),
        presence_of(errno, path) == PresenceModel::Present <==> errno == Some(91i32),
        errno is None || errno == Some(11i32) || errno == Some(115i32) ==> presence_of(errno, path)
            == PresenceModel::Unknown(path + " is a stream socket, not the helper's"@),
        errno matches Some(e) ==> e != 2 && e != 111 && e != 91 && e != 11 && e != 115 ==> presence_of(
            errno,
            path,
        ) == PresenceModel::Unknown(path + ": "@ + error_name(e)),
{
}

/// What is said of a failed call, of a failed handshake, and of a file that may
/// not be emptied.
pub proof fn law_what_is_said_of_the_helper(errno: i32, version: u32, text: Seq<char>, e: HelperErrorModel)
    ensures
        helper_error_text(HelperErrorModel::NotRunning) == "the konedrive helper is not running"@,
        helper_error_text(HelperErrorModel::Refused(errno))
            == "the helper refused the request (errno "@ + signed_decimal(errno as int) + ")"@,
        helper_error_text(HelperErrorModel::Timeout)
            == "the helper did not respond within its call timeout"@,
        helper_error_text(HelperErrorModel::Io(text)) == text,
        handshake_text(HelperErrorModel::Refused(errno), version)
            == "the helper rejected our protocol version "@ + decimal(version as nat)
            + " during the handshake (errno "@ + signed_decimal(errno as int) + ")"@,
        handshake_text(HelperErrorModel::Timeout, version)
            == "the helper did not complete the handshake in time"@,
        handshake_text(HelperErrorModel::NotRunning, version)
            == "the helper connection closed during the handshake"@,
        handshake_text(HelperErrorModel::Io(text), version) == text,
        handshake_kind(HelperErrorModel::Refused(errno)) == HandshakeKind::InvalidData,
        handshake_kind(HelperErrorModel::Timeout) == HandshakeKind::TimedOut,
        handshake_kind(HelperErrorModel::NotRunning) == HandshakeKind::BrokenPipe,
        handshake_kind(HelperErrorModel::Io(text)) == HandshakeKind::Other,
        not_cleared_text(NotClearedModel::Helper(e))
            == "the helper did not clear the ignore mark: "@ + helper_error_text(e),
        not_cleared_text(NotClearedModel::Unlinked)
            == "a konedrive helper is running and this daemon is not connected to it yet, so the file's ignore mark cannot be cleared"@,
        not_cleared_text(NotClearedModel::Unknown(text))
            == "cannot tell whether a konedrive helper is running: "@ + text,
{
}

/// How the helper stands as systemd says: a unit that is not known is not
/// installed; one that failed, or could not be loaded, failed; one that is not
/// running, or is ending, is stopped; and of any other, or where systemd was not
/// asked, nothing is known. A link always wins.
pub proof fn law_how_the_helper_stands(load: Seq<char>, active: Seq<char>)
    ensures
        helper_state(true, Some((load, active))) == HelperState::Connected,
        helper_state(true, None) == HelperState::Connected,
        helper_state(false, None) == HelperState::Unknown,
        helper_state(false, Some((load, active))) == unit_state(load, active),
        unit_state(load, active) == HelperState::NotInstalled <==> load == "not-found"@,
        unit_state(load, active) == HelperState::Failed <==> load != "not-found"@ && (active
            == "failed"@ || load == "error"@ || load == "bad-setting"@),
        unit_state(load, active) == HelperState::Stopped <==> load != "not-found"@ && load != "error"@
            && load != "bad-setting"@ && (active == "inactive"@ || active == "deactivating"@),
        unit_state(load, active) != HelperState::Connected,
{
    reveal_strlit("failed");
    reveal_strlit("inactive");
    reveal_strlit("deactivating");
    assert("failed"@.len() != "inactive"@.len());
    assert("failed"@.len() != "deactivating"@.len());
}

/// What each state is called.
pub proof fn law_what_the_states_are_called()
    ensures
        state_name(HelperState::Connected) == "connected"@,
        state_name(HelperState::NotInstalled) == "not-installed"@,
        state_name(HelperState::Stopped) == "stopped"@,
        state_name(HelperState::Failed) == "failed"@,
        state_name(HelperState::Unknown) == "unknown"@,
{
}

} // verus!
