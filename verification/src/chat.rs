//! Session state and dispatcher of the chat client.
//!
//! A [`Chat`] holds the roster, the message log, the input field and the
//! local user's name. [`Chat::update`] consumes one event — an inbound frame
//! or a submit click — and transitions the state exactly as the transition
//! function [`spec_step`] says, returning whether a re-render is needed and
//! the frame to hand to the channel, if any. The channel itself and the
//! renderer are external: the caller performs the send (fire-and-forget) and
//! reads the state to draw it.

use crate::codec::{
    decode_message_data, decode_ws, encode_ws, seq_deep_view, spec_decode, spec_encode,
    spec_msgdata, MessageData, MessageDataView, MsgTypes, WebSocketMessage, WsView,
};
use vstd::prelude::*;

verus! {

/// The fixed image-service URL for a display name: a pure, deterministic
/// function of the name alone.
pub open spec fn avatar_of(name: Seq<char>) -> Seq<char> {
    "https://avatars.dicebear.com/api/adventurer-neutral/"@ + name + ".svg"@
}

/// Derives the avatar URL for a display name.
pub fn avatar_url(name: &str) -> (r: String)
    ensures
        r@ == avatar_of(name@),
{
    let mut out = String::from_str("https://avatars.dicebear.com/api/adventurer-neutral/");
    out.append(name);
    out.append(".svg");
    out
}

/// A roster entry: a display name and the avatar URL derived from it.
pub struct UserProfile {
    pub name: String,
    pub avatar: String,
}

/// The mathematical value of a roster entry.
#[verifier::ext_equal]
pub struct ProfileView {
    pub name: Seq<char>,
    pub avatar: Seq<char>,
}

impl View for UserProfile {
    type V = ProfileView;

    open spec fn view(&self) -> ProfileView {
        ProfileView { name: self.name@, avatar: self.avatar@ }
    }
}

/// The roster a `users` envelope yields: one profile per incoming name, in
/// incoming order, the avatar derived from the name.
pub open spec fn profiles_of(names: Seq<Seq<char>>) -> Seq<ProfileView> {
    Seq::new(names.len(), |i: int| ProfileView { name: names[i], avatar: avatar_of(names[i]) })
}

/// One chat session: roster, append-only message log, the text in the input
/// field, and the local user's name (never changed after creation).
pub struct Chat {
    pub users: Vec<UserProfile>,
    pub messages: Vec<MessageData>,
    pub chat_input: String,
    pub current_user: String,
}

/// The mathematical value of a session.
#[verifier::ext_equal]
pub struct ChatView {
    pub users: Seq<ProfileView>,
    pub messages: Seq<MessageDataView>,
    pub chat_input: Seq<char>,
    pub current_user: Seq<char>,
}

impl View for Chat {
    type V = ChatView;

    open spec fn view(&self) -> ChatView {
        ChatView {
            users: Seq::new(self.users@.len(), |i: int| self.users@[i]@),
            messages: Seq::new(self.messages@.len(), |i: int| self.messages@[i]@),
            chat_input: self.chat_input@,
            current_user: self.current_user@,
        }
    }
}

/// One event the session reacts to: an inbound frame, or the submit click.
pub enum Msg {
    HandleMsg(String),
    SubmitMessage,
}

/// The mathematical value of an event.
pub enum MsgView {
    HandleMsg(Seq<char>),
    SubmitMessage,
}

impl View for Msg {
    type V = MsgView;

    open spec fn view(&self) -> MsgView {
        match self {
            Msg::HandleMsg(raw) => MsgView::HandleMsg(raw@),
            Msg::SubmitMessage => MsgView::SubmitMessage,
        }
    }
}

/// The characters that trimming removes: the Unicode White_Space set, the
/// same set `str::trim` goes by.
pub open spec fn is_trim_ws(c: char) -> bool {
    c as u32 == 0x9 || c as u32 == 0xA || c as u32 == 0xB || c as u32 == 0xC || c as u32 == 0xD
        || c as u32 == 0x20 || c as u32 == 0x85 || c as u32 == 0xA0 || c as u32 == 0x1680 || (0x2000
        <= c as u32 && c as u32 <= 0x200A) || c as u32 == 0x2028 || c as u32 == 0x2029 || c as u32
        == 0x202F || c as u32 == 0x205F || c as u32 == 0x3000
}

/// Text that is empty or nothing but whitespace, so that trimming leaves
/// nothing.
pub open spec fn is_blank(s: Seq<char>) -> bool {
    forall|i: int| 0 <= i < s.len() ==> is_trim_ws(s[i])
}

fn trim_ws_char(c: char) -> (r: bool)
    ensures
        r == is_trim_ws(c),
{
    let u = c as u32;
    u == 0x9 || u == 0xA || u == 0xB || u == 0xC || u == 0xD || u == 0x20 || u == 0x85 || u == 0xA0
        || u == 0x1680 || (0x2000 <= u && u <= 0x200A) || u == 0x2028 || u == 0x2029 || u == 0x202F
        || u == 0x205F || u == 0x3000
}

fn blank(s: &str) -> (r: bool)
    ensures
        r == is_blank(s@),
{
    let n = s.unicode_len();
    let mut i: usize = 0;
    while i < n
        invariant
            n == s@.len(),
            i <= n,
            forall|j: int| 0 <= j < i ==> is_trim_ws(s@[j]),
        decreases n - i,
    {
        let c = s.get_char(i);
        if !trim_ws_char(c) {
            assert(!is_blank(s@));
            return false;
        }
        i = i + 1;
    }
    true
}

/// Result of one step: the next state, whether a re-render is needed, and
/// the frame to hand to the channel, if any.
#[verifier::ext_equal]
pub struct StepRes {
    pub post: ChatView,
    pub render: bool,
    pub out: Option<Seq<char>>,
}

/// What one inbound frame does to the session.
///
/// A frame that does not decode is discarded (the session never fails); a
/// `users` envelope replaces the roster wholesale; a `message` envelope with
/// a well-formed nested record appends it to the log; a `message` envelope
/// without data, or with a malformed nested record, and an inbound
/// `register` envelope change nothing.
pub open spec fn spec_handle_frame(pre: ChatView, raw: Seq<char>) -> StepRes {
    match spec_decode(raw) {
        Err(_) => StepRes { post: pre, render: false, out: None },
        Ok(env) => match env.message_type {
            MsgTypes::Users => {
                let names = match env.data_array {
                    Some(ns) => ns,
                    None => Seq::<Seq<char>>::empty(),
                };
                StepRes { post: ChatView { users: profiles_of(names), ..pre }, render: true, out: None }
            },
            MsgTypes::Message => match env.data {
                None => StepRes { post: pre, render: false, out: None },
                Some(d) => match spec_msgdata(d) {
                    Err(_) => StepRes { post: pre, render: false, out: None },
                    Ok(md) => StepRes {
                        post: ChatView { messages: pre.messages.push(md), ..pre },
                        render: true,
                        out: None,
                    },
                },
            },
            MsgTypes::Register => StepRes { post: pre, render: false, out: None },
        },
    }
}

/// What the submit click does: blank input (after trimming) is a silent
/// no-op; otherwise the untrimmed input is sent as a `message` envelope and
/// the input field is cleared. The log is never touched: the local message
/// appears only if the server echoes it back.
pub open spec fn spec_submit(pre: ChatView) -> StepRes {
    if is_blank(pre.chat_input) {
        StepRes { post: pre, render: false, out: None }
    } else {
        StepRes {
            post: ChatView { chat_input: Seq::<char>::empty(), ..pre },
            render: false,
            out: Some(
                spec_encode(
                    WsView {
                        message_type: MsgTypes::Message,
                        data_array: None,
                        data: Some(pre.chat_input),
                    },
                ),
            ),
        }
    }
}

/// The session's transition function: one event in, the next state, the
/// re-render flag and the outbound frame (if any) out.
pub open spec fn spec_step(pre: ChatView, msg: MsgView) -> StepRes {
    match msg {
        MsgView::HandleMsg(raw) => spec_handle_frame(pre, raw),
        MsgView::SubmitMessage => spec_submit(pre),
    }
}

/// The `register` envelope sent once on session start.
pub open spec fn spec_register_frame(username: Seq<char>) -> Seq<char> {
    spec_encode(
        WsView { message_type: MsgTypes::Register, data_array: None, data: Some(username) },
    )
}

impl Chat {
    /// Creates a session for `username` with empty roster, log and input,
    /// and yields the encoded `register` frame for the caller to hand to
    /// the channel. Registration is fire-and-forget: a failed send is
    /// ignored and never retried.
    pub fn create(username: String) -> (r: (Chat, String))
        ensures
            r.0@ == (ChatView {
                users: Seq::<ProfileView>::empty(),
                messages: Seq::<MessageDataView>::empty(),
                chat_input: Seq::<char>::empty(),
                current_user: username@,
            }),
            r.1@ == spec_register_frame(username@),
    {
        let reg = WebSocketMessage {
            message_type: MsgTypes::Register,
            data_array: None,
            data: Some(username.clone()),
        };
        let frame = encode_ws(&reg);
        let c = Chat {
            users: Vec::new(),
            messages: Vec::new(),
            chat_input: String::new(),
            current_user: username,
        };
        proof {
            assert(c@ =~= (ChatView {
                users: Seq::<ProfileView>::empty(),
                messages: Seq::<MessageDataView>::empty(),
                chat_input: Seq::<char>::empty(),
                current_user: c.current_user@,
            }));
            assert(reg@ =~= (WsView {
                message_type: MsgTypes::Register,
                data_array: None,
                data: Some(c.current_user@),
            }));
        }
        (c, frame)
    }

    /// Replaces the text of the input field, as typing into the UI does.
    pub fn set_input(&mut self, text: String)
        ensures
            final(self)@ == (ChatView { chat_input: text@, ..old(self)@ }),
    {
        self.chat_input = text;
        proof {
            assert(self@ =~= (ChatView { chat_input: self.chat_input@, ..old(self)@ }));
        }
    }

    /// Applies one event to the session, exactly as [`spec_step`] says.
    /// Returns the re-render flag and the frame to hand to the channel, if
    /// any; the caller sends it fire-and-forget.
    pub fn update(&mut self, msg: Msg) -> (r: (bool, Option<String>))
        ensures
            ({
                let step = spec_step(old(self)@, msg@);
                final(self)@ == step.post && r.0 == step.render && (match r.1 {
                    None => step.out is None,
                    Some(f) => step.out == Some(f@),
                })
            }),
    {
        match msg {
            Msg::HandleMsg(raw) => {
                match decode_ws(raw.as_str()) {
                    Err(_) => (false, None),
                    Ok(env) => {
                        let ghost envv = env@;
                        match env.message_type {
                            MsgTypes::Users => {
                                let names = match env.data_array {
                                    Some(ns) => ns,
                                    None => Vec::new(),
                                };
                                proof {
                                    assert(seq_deep_view(names@) =~= (match envv.data_array {
                                        Some(ns) => ns,
                                        None => Seq::<Seq<char>>::empty(),
                                    }));
                                }
                                let mut profs: Vec<UserProfile> = Vec::new();
                                let mut i: usize = 0;
                                while i < names.len()
                                    invariant
                                        i <= names@.len(),
                                        profs@.len() == i,
                                        forall|k: int|
                                            0 <= k < i ==> profs@[k]@ == profiles_of(
                                                seq_deep_view(names@),
                                            )[k],
                                    decreases names@.len() - i,
                                {
                                    let nm = names[i].clone();
                                    let av = avatar_url(names[i].as_str());
                                    profs.push(UserProfile { name: nm, avatar: av });
                                    i = i + 1;
                                }
                                self.users = profs;
                                proof {
                                    assert(self@.users =~= profiles_of(seq_deep_view(names@)));
                                    assert(self@ =~= spec_handle_frame(old(self)@, raw@).post);
                                }
                                (true, None)
                            },
                            MsgTypes::Message => {
                                match env.data {
                                    None => (false, None),
                                    Some(d) => {
                                        match decode_message_data(d.as_str()) {
                                            Err(_) => (false, None),
                                            Ok(md) => {
                                                self.messages.push(md);
                                                proof {
                                                    assert(self@.messages =~= old(
                                                        self,
                                                    )@.messages.push(self.messages@.last()@));
                                                    assert(self@ =~= spec_handle_frame(
                                                        old(self)@,
                                                        raw@,
                                                    ).post);
                                                }
                                                (true, None)
                                            },
                                        }
                                    },
                                }
                            },
                            MsgTypes::Register => (false, None),
                        }
                    },
                }
            },
            Msg::SubmitMessage => {
                if blank(self.chat_input.as_str()) {
                    (false, None)
                } else {
                    let outgoing = WebSocketMessage {
                        message_type: MsgTypes::Message,
                        data_array: None,
                        data: Some(self.chat_input.clone()),
                    };
                    let frame = encode_ws(&outgoing);
                    self.chat_input = String::new();
                    proof {
                        assert(outgoing@ =~= (WsView {
                            message_type: MsgTypes::Message,
                            data_array: None,
                            data: Some(old(self)@.chat_input),
                        }));
                        assert(self@ =~= spec_submit(old(self)@).post);
                    }
                    (false, Some(frame))
                }
            },
        }
    }

    /// Whether a message from `from` is the local user's own, and so is
    /// rendered on the send side. Exact name equality is the only identity
    /// mechanism the protocol has.
    pub fn is_local(&self, from: &String) -> (r: bool)
        ensures
            r == (from@ == self@.current_user),
    {
        *from == self.current_user
    }
}

/// The avatar shown beside a received message: the avatar of the first
/// roster entry named `from`, from position `i` on, or the empty placeholder
/// when no entry matches.
pub open spec fn spec_avatar_from(users: Seq<ProfileView>, from: Seq<char>, i: int) -> Seq<char>
    decreases users.len() - i,
{
    if i < 0 || i >= users.len() {
        Seq::<char>::empty()
    } else if users[i].name == from {
        users[i].avatar
    } else {
        spec_avatar_from(users, from, i + 1)
    }
}

/// The avatar shown beside a received message from `from`.
pub open spec fn spec_avatar_for(users: Seq<ProfileView>, from: Seq<char>) -> Seq<char> {
    spec_avatar_from(users, from, 0)
}

impl Chat {
    /// Looks up the avatar for a sender: the first roster entry whose name
    /// equals `from`, or an empty placeholder when the sender is not on the
    /// roster (left, or roster not yet synced) — never a failure.
    pub fn avatar_for(&self, from: &String) -> (r: String)
        ensures
            r@ == spec_avatar_for(self@.users, from@),
    {
        let mut i: usize = 0;
        while i < self.users.len()
            invariant
                i <= self.users@.len(),
                spec_avatar_for(self@.users, from@) == spec_avatar_from(
                    self@.users,
                    from@,
                    i as int,
                ),
            decreases self.users@.len() - i,
        {
            if self.users[i].name == *from {
                return self.users[i].avatar.clone();
            }
            i = i + 1;
        }
        String::new()
    }
}

} // verus!

