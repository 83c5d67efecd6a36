//! The laws the session obeys, stated over the transition function
//! [`spec_step`] and proved once for every state and every input.

use crate::chat::{
    avatar_of, is_blank, profiles_of, spec_register_frame, spec_step, ChatView, MsgView,
};
use crate::codec::{
    lemma_encode_decode_round_trip, spec_decode, spec_encode, spec_msgdata, DecodeError,
    MessageDataView, MsgTypes, WsView,
};
use vstd::prelude::*;

verus! {

/// A `users` envelope replaces the roster wholesale: the new roster is
/// exactly the envelope's name list, in its order, one profile per name with
/// the avatar derived from the name, and carries no residue of the previous
/// roster; the log, the input and the identity are untouched.
pub proof fn lemma_users_replaces_roster(pre: ChatView, raw: Seq<char>, env: WsView)
    requires
        spec_decode(raw) == Ok::<WsView, DecodeError>(env),
        env.message_type == MsgTypes::Users,
    ensures
        ({
            let names = match env.data_array {
                Some(ns) => ns,
                None => Seq::<Seq<char>>::empty(),
            };
            let step = spec_step(pre, MsgView::HandleMsg(raw));
            &&& step.post.users == profiles_of(names)
            &&& step.post.users.len() == names.len()
            &&& forall|i: int|
                0 <= i < names.len() ==> step.post.users[i].name == names[i]
                    && step.post.users[i].avatar == avatar_of(names[i])
            &&& step.post.messages == pre.messages
            &&& step.post.chat_input == pre.chat_input
            &&& step.post.current_user == pre.current_user
            &&& step.render == true
            &&& step.out is None
        }),
{
}

/// A `message` envelope whose nested record is well-formed appends exactly
/// that record to the log: every prior record is unchanged and keeps its
/// place, the new record stands last; roster, input and identity are
/// untouched.
pub proof fn lemma_message_appends(
    pre: ChatView,
    raw: Seq<char>,
    env: WsView,
    d: Seq<char>,
    md: MessageDataView,
)
    requires
        spec_decode(raw) == Ok::<WsView, DecodeError>(env),
        env.message_type == MsgTypes::Message,
        env.data == Some(d),
        spec_msgdata(d) == Ok::<MessageDataView, DecodeError>(md),
    ensures
        ({
            let step = spec_step(pre, MsgView::HandleMsg(raw));
            &&& step.post.messages == pre.messages.push(md)
            &&& step.post.messages.len() == pre.messages.len() + 1
            &&& forall|i: int|
                0 <= i < pre.messages.len() ==> step.post.messages[i] == pre.messages[i]
            &&& step.post.messages[pre.messages.len() as int] == md
            &&& step.post.users == pre.users
            &&& step.post.chat_input == pre.chat_input
            &&& step.post.current_user == pre.current_user
            &&& step.render == true
            &&& step.out is None
        }),
{
}

/// Submitting blank input — empty or whitespace only — is a silent no-op:
/// the whole state, log included, is unchanged, and nothing is handed to
/// the channel.
pub proof fn lemma_blank_submit_is_noop(pre: ChatView)
    requires
        is_blank(pre.chat_input),
    ensures
        spec_step(pre, MsgView::SubmitMessage).post == pre,
        spec_step(pre, MsgView::SubmitMessage).render == false,
        spec_step(pre, MsgView::SubmitMessage).out is None,
{
}

/// Submitting non-blank input hands the channel exactly one frame — the
/// encoded `message` envelope carrying the untrimmed input text — and
/// clears the input field, whatever later becomes of the send; the log,
/// the roster and the identity are unchanged.
pub proof fn lemma_submit_sends_input(pre: ChatView)
    requires
        !is_blank(pre.chat_input),
    ensures
        ({
            let step = spec_step(pre, MsgView::SubmitMessage);
            &&& step.out == Some(
                spec_encode(
                    WsView {
                        message_type: MsgTypes::Message,
                        data_array: None,
                        data: Some(pre.chat_input),
                    },
                ),
            )
            &&& step.post.chat_input == Seq::<char>::empty()
            &&& step.post.messages == pre.messages
            &&& step.post.users == pre.users
            &&& step.post.current_user == pre.current_user
            &&& step.render == false
        }),
{
}

/// A `message` envelope whose nested record is malformed changes nothing:
/// roster and log are exactly as they were (the frame is rejected before
/// any mutation), and no re-render is signalled.
pub proof fn lemma_malformed_nested_is_atomic(
    pre: ChatView,
    raw: Seq<char>,
    env: WsView,
    d: Seq<char>,
)
    requires
        spec_decode(raw) == Ok::<WsView, DecodeError>(env),
        env.message_type == MsgTypes::Message,
        env.data == Some(d),
        spec_msgdata(d) is Err,
    ensures
        spec_step(pre, MsgView::HandleMsg(raw)).post == pre,
        spec_step(pre, MsgView::HandleMsg(raw)).render == false,
        spec_step(pre, MsgView::HandleMsg(raw)).out is None,
{
}

/// A frame that does not decode at all is discarded whole: the session
/// state is untouched and the session goes on.
pub proof fn lemma_undecodable_frame_is_noop(pre: ChatView, raw: Seq<char>)
    requires
        spec_decode(raw) is Err,
    ensures
        spec_step(pre, MsgView::HandleMsg(raw)).post == pre,
        spec_step(pre, MsgView::HandleMsg(raw)).render == false,
        spec_step(pre, MsgView::HandleMsg(raw)).out is None,
{
}

/// A `message` envelope without a data payload, and an inbound `register`
/// envelope, are tolerated no-op frames: nothing changes and no re-render
/// is signalled.
pub proof fn lemma_noop_frames(pre: ChatView, raw: Seq<char>, env: WsView)
    requires
        spec_decode(raw) == Ok::<WsView, DecodeError>(env),
        env.message_type == MsgTypes::Register || (env.message_type == MsgTypes::Message
            && env.data is None),
    ensures
        spec_step(pre, MsgView::HandleMsg(raw)).post == pre,
        spec_step(pre, MsgView::HandleMsg(raw)).render == false,
        spec_step(pre, MsgView::HandleMsg(raw)).out is None,
{
}

/// What the peer sees: the frame a non-blank submit hands to the channel
/// decodes back to exactly one `message` envelope whose payload is the
/// submitted text — nothing more is ever sent, and nothing is lost in
/// transit encoding.
pub proof fn lemma_submitted_frame_means_the_input(pre: ChatView)
    requires
        !is_blank(pre.chat_input),
    ensures
        ({
            let step = spec_step(pre, MsgView::SubmitMessage);
            step.out is Some && spec_decode(step.out.unwrap()) == Ok::<WsView, DecodeError>(
                WsView {
                    message_type: MsgTypes::Message,
                    data_array: None,
                    data: Some(pre.chat_input),
                },
            )
        }),
{
    lemma_encode_decode_round_trip(
        WsView { message_type: MsgTypes::Message, data_array: None, data: Some(pre.chat_input) },
    );
}

/// What the peer sees of a registration: the frame built on session start
/// decodes back to exactly one `register` envelope carrying the username.
pub proof fn lemma_register_frame_means_the_username(username: Seq<char>)
    ensures
        spec_decode(spec_register_frame(username)) == Ok::<WsView, DecodeError>(
            WsView {
                message_type: MsgTypes::Register,
                data_array: None,
                data: Some(username),
            },
        ),
{
    lemma_encode_decode_round_trip(
        WsView { message_type: MsgTypes::Register, data_array: None, data: Some(username) },
    );
}

/// Invariants every event preserves: the local identity never changes after
/// creation, the log is append-only (what was logged stays, in its place —
/// never rolled back), and a step appends at most one record.
pub proof fn lemma_session_invariants(pre: ChatView, msg: MsgView)
    ensures
        spec_step(pre, msg).post.current_user == pre.current_user,
        pre.messages.is_prefix_of(spec_step(pre, msg).post.messages),
        spec_step(pre, msg).post.messages.len() <= pre.messages.len() + 1,
{
    let post = spec_step(pre, msg).post;
    assert(pre.messages.is_prefix_of(pre.messages)) by {
        assert(pre.messages =~= pre.messages.subrange(0, pre.messages.len() as int));
    }
    if post.messages != pre.messages {
        assert(pre.messages =~= post.messages.subrange(0, pre.messages.len() as int));
    }
}

/// Two names have the same avatar URL exactly when they are the same name:
/// the URL is deterministic in the name, and distinct names never collide.
pub proof fn lemma_avatar_injective(a: Seq<char>, b: Seq<char>)
    ensures
        (avatar_of(a) == avatar_of(b)) <==> (a == b),
{
    if avatar_of(a) == avatar_of(b) {
        let p = "https://avatars.dicebear.com/api/adventurer-neutral/"@;
        let s = ".svg"@;
        assert(avatar_of(a).len() == p.len() + a.len() + s.len());
        assert(avatar_of(b).len() == p.len() + b.len() + s.len());
        assert(a.len() == b.len());
        assert forall|i: int| 0 <= i < a.len() implies a[i] == b[i] by {
            assert(avatar_of(a)[p.len() + i] == a[i]);
            assert(avatar_of(b)[p.len() + i] == b[i]);
        }
        assert(a =~= b);
    }
}

} // verus!

