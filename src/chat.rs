//! The chat view's state machine: the roster of users and the transcript of messages,
//! changed by inbound frames and by what the user submits.
use vstd::prelude::*;
use vstd::string::StringExecFns;
use crate::envelope::{
    DecodeError, EnvelopeModel, MessageData, MessageModel, MsgTypes, WebSocketMessage, decode,
    decode_message_data, decode_message_spec, decode_spec, encode, encode_spec, lemma_decode_encode,
};
use crate::json::parse_document;

verus! {

/// A user as the roster shows them.
pub struct UserProfile {
    pub name: String,
    pub avatar: String,
}

/// The mathematical form of a [`UserProfile`].
pub struct ProfileModel {
    pub name: Seq<char>,
    pub avatar: Seq<char>,
}

impl View for UserProfile {
    type V = ProfileModel;

    open spec fn view(&self) -> ProfileModel {
        ProfileModel { name: self.name@, avatar: self.avatar@ }
    }
}

/// The address of a user's avatar image.
pub open spec fn avatar_url(name: Seq<char>) -> Seq<char> {
    "https://avatars.dicebear.com/api/adventurer-neutral/"@ + name + ".svg"@
}

/// The profile of a user named `name`.
pub open spec fn profile_of(name: Seq<char>) -> ProfileModel {
    ProfileModel { name, avatar: avatar_url(name) }
}

/// The roster for a list of user names: one profile per name, in order.
pub open spec fn roster_of(names: Seq<Seq<char>>) -> Seq<ProfileModel> {
    names.map_values(|n: Seq<char>| profile_of(n))
}

/// An event for the chat view.
pub enum Msg {
    /// A raw frame that arrived from the server.
    HandleMsg(String),
    /// The text that the user submitted from the input field.
    SubmitMessage(String),
}

/// The mathematical form of a [`Msg`].
pub enum MsgModel {
    HandleMsg(Seq<char>),
    SubmitMessage(Seq<char>),
}

impl View for Msg {
    type V = MsgModel;

    open spec fn view(&self) -> MsgModel {
        match self {
            Msg::HandleMsg(s) => MsgModel::HandleMsg(s@),
            Msg::SubmitMessage(s) => MsgModel::SubmitMessage(s@),
        }
    }
}

/// What the surroundings of the view are to do after an event.
pub struct Reaction {
    /// Whether the view is to be drawn again.
    pub rerender: bool,
    /// A frame to hand to the transport.
    pub outbound: Option<String>,
    /// Why the event was dropped, if it was.
    pub error: Option<DecodeError>,
}

/// The mathematical form of a [`Reaction`].
pub struct ReactionModel {
    pub rerender: bool,
    pub outbound: Option<Seq<char>>,
    pub error: Option<DecodeError>,
}

impl View for Reaction {
    type V = ReactionModel;

    open spec fn view(&self) -> ReactionModel {
        ReactionModel {
            rerender: self.rerender,
            outbound: match self.outbound {
                Some(s) => Some(s@),
                None => None,
            },
            error: self.error,
        }
    }
}

/// The chat view's state.
pub struct Chat {
    users: Vec<UserProfile>,
    messages: Vec<MessageData>,
}

/// The mathematical form of a [`Chat`]: the roster and the transcript.
pub struct ChatModel {
    pub users: Seq<ProfileModel>,
    pub messages: Seq<MessageModel>,
}

impl View for Chat {
    type V = ChatModel;

    closed spec fn view(&self) -> ChatModel {
        ChatModel {
            users: self.users@.map_values(|u: UserProfile| u@),
            messages: self.messages@.map_values(|m: MessageData| m@),
        }
    }
}

/// The envelope that registers user `name` with the server.
pub open spec fn register_envelope(name: Seq<char>) -> EnvelopeModel {
    EnvelopeModel { message_type: MsgTypes::Register, data_array: None, data: Some(name) }
}

/// The envelope that carries the text `text` to the server.
pub open spec fn message_envelope(text: Seq<char>) -> EnvelopeModel {
    EnvelopeModel { message_type: MsgTypes::Message, data_array: None, data: Some(text) }
}

/// A reaction that asks for nothing.
pub open spec fn quiet() -> ReactionModel {
    ReactionModel { rerender: false, outbound: None, error: None }
}

/// A reaction that drops the event for reason `e`.
pub open spec fn dropped(e: DecodeError) -> ReactionModel {
    ReactionModel { rerender: false, outbound: None, error: Some(e) }
}

/// A reaction that asks for the view to be drawn again.
pub open spec fn redraw() -> ReactionModel {
    ReactionModel { rerender: true, outbound: None, error: None }
}

/// How the state `s` takes the inbound frame `frame`.
pub open spec fn handle_spec(s: ChatModel, frame: Seq<char>) -> (ChatModel, ReactionModel) {
    match decode_spec(frame) {
        Err(e) => (s, dropped(e)),
        Ok(env) => match env.message_type {
            MsgTypes::Users => (
                ChatModel {
                    users: roster_of(
                        match env.data_array {
                            Some(l) => l,
                            None => Seq::<Seq<char>>::empty(),
                        },
                    ),
                    messages: s.messages,
                },
                redraw(),
            ),
            MsgTypes::Message => match env.data {
                Some(d) => match decode_message_spec(d) {
                    Ok(m) => (ChatModel { users: s.users, messages: s.messages.push(m) }, redraw()),
                    Err(e) => (s, dropped(e)),
                },
                None => (s, dropped(DecodeError::MalformedPayload)),
            },
            MsgTypes::Register => (s, quiet()),
        },
    }
}

/// How the state `s` takes the text `text` that the user submitted.
pub open spec fn submit_spec(s: ChatModel, text: Seq<char>) -> (ChatModel, ReactionModel) {
    if text.len() == 0 {
        (s, quiet())
    } else {
        (s, ReactionModel { rerender: false, outbound: Some(encode_spec(message_envelope(text))), error: None })
    }
}

/// How the state `s` takes the event `m`.
pub open spec fn update_spec(s: ChatModel, m: MsgModel) -> (ChatModel, ReactionModel) {
    match m {
        MsgModel::HandleMsg(frame) => handle_spec(s, frame),
        MsgModel::SubmitMessage(text) => submit_spec(s, text),
    }
}

/// The profile that the view shows for a sender named `name`: the first roster entry of
/// that name, or else one made from the name itself.
pub open spec fn profile_spec(users: Seq<ProfileModel>, name: Seq<char>) -> ProfileModel
    decreases users.len(),
{
    if users.len() == 0 {
        profile_of(name)
    } else if users[0].name == name {
        users[0]
    } else {
        profile_spec(users.drop_first(), name)
    }
}

/// The avatar address for `name`.
fn avatar_for(name: &str) -> (r: String)
    ensures
        r@ == avatar_url(name@),
{
    let mut s = "https://avatars.dicebear.com/api/adventurer-neutral/".to_owned();
    s.append(name);
    s.append(".svg");
    s
}

/// One profile per name, in order.
fn roster_from(names: &Vec<String>) -> (r: Vec<UserProfile>)
    ensures
        r@.map_values(|u: UserProfile| u@) == roster_of(names@.map_values(|x: String| x@)),
{
    let ghost want = roster_of(names@.map_values(|x: String| x@));
    let mut r: Vec<UserProfile> = Vec::new();
    let mut i: usize = 0;
    while i < names.len()
        invariant
            i <= names@.len(),
            want == roster_of(names@.map_values(|x: String| x@)),
            r@.map_values(|u: UserProfile| u@) == want.take(i as int),
        decreases names.len() - i,
    {
        let ghost r0 = r@;
        let name = names[i].clone();
        let avatar = avatar_for(name.as_str());
        r.push(UserProfile { name, avatar });
        assert(r@.map_values(|u: UserProfile| u@) =~= r0.map_values(|u: UserProfile| u@).push(want[i as int]));
        assert(want.take(i + 1) =~= want.take(i as int).push(want[i as int]));
        i = i + 1;
    }
    assert(want.take(i as int) =~= want);
    r
}

impl Chat {
    /// Mounts the view for user `username`: the state starts empty, and the one frame
    /// returned registers the user with the server.
    pub fn create(username: &str) -> (r: (Chat, String))
        ensures
            r.0@.users.len() == 0,
            r.0@.messages.len() == 0,
            r.1@ == encode_spec(register_envelope(username@)),
    {
        let message = WebSocketMessage {
            message_type: MsgTypes::Register,
            data_array: None,
            data: Some(username.to_owned()),
        };
        let frame = encode(&message);
        let chat = Chat { users: Vec::new(), messages: Vec::new() };
        proof {
            assert(chat@.users =~= Seq::<ProfileModel>::empty());
        }
        (chat, frame)
    }

    /// The roster, in order.
    pub fn users(&self) -> (r: &Vec<UserProfile>)
        ensures
            r@.map_values(|u: UserProfile| u@) == self@.users,
    {
        &self.users
    }

    /// The transcript, in order of arrival.
    pub fn messages(&self) -> (r: &Vec<MessageData>)
        ensures
            r@.map_values(|m: MessageData| m@) == self@.messages,
    {
        &self.messages
    }

    /// Applies an inbound frame.
    pub fn handle_frame(&mut self, frame: &str) -> (r: Reaction)
        ensures
            (final(self)@, r@) == handle_spec(old(self)@, frame@),
    {
        let env = match decode(frame) {
            Ok(env) => env,
            Err(e) => {
                return Reaction { rerender: false, outbound: None, error: Some(e) };
            },
        };
        match env.message_type {
            MsgTypes::Users => {
                let names = match env.data_array {
                    Some(l) => l,
                    None => Vec::new(),
                };
                proof {
                    if env.data_array is None {
                        assert(names@.map_values(|x: String| x@) =~= Seq::<Seq<char>>::empty());
                    }
                }
                self.users = roster_from(&names);
                Reaction { rerender: true, outbound: None, error: None }
            },
            MsgTypes::Message => {
                let data = match env.data {
                    Some(d) => d,
                    None => {
                        return Reaction {
                            rerender: false,
                            outbound: None,
                            error: Some(DecodeError::MalformedPayload),
                        };
                    },
                };
                match decode_message_data(data.as_str()) {
                    Ok(m) => {
                        let ghost m0 = self@.messages;
                        self.messages.push(m);
                        assert(self@.messages =~= m0.push(m@));
                        Reaction { rerender: true, outbound: None, error: None }
                    },
                    Err(e) => Reaction { rerender: false, outbound: None, error: Some(e) },
                }
            },
            MsgTypes::Register => Reaction { rerender: false, outbound: None, error: None },
        }
    }

    /// Takes the text that the user submitted: a non-empty text becomes a frame for the
    /// transport; an empty one is ignored.
    pub fn submit(&self, text: &str) -> (r: Reaction)
        ensures
            (self@, r@) == submit_spec(self@, text@),
    {
        if text.is_empty() {
            return Reaction { rerender: false, outbound: None, error: None };
        }
        let message = WebSocketMessage {
            message_type: MsgTypes::Message,
            data_array: None,
            data: Some(text.to_owned()),
        };
        Reaction { rerender: false, outbound: Some(encode(&message)), error: None }
    }

    /// Applies an event.
    pub fn update(&mut self, msg: Msg) -> (r: Reaction)
        ensures
            (final(self)@, r@) == update_spec(old(self)@, msg@),
    {
        match msg {
            Msg::HandleMsg(s) => self.handle_frame(s.as_str()),
            Msg::SubmitMessage(s) => self.submit(s.as_str()),
        }
    }

    /// The profile to show beside a message from `name`.
    pub fn profile_for(&self, name: &str) -> (r: UserProfile)
        ensures
            r@ == profile_spec(self@.users, name@),
    {
        let ghost us = self@.users;
        let key = name.to_owned();
        let mut i: usize = 0;
        assert(us.skip(0) =~= us);
        while i < self.users.len()
            invariant
                i <= self.users@.len(),
                us == self@.users,
                key@ == name@,
                profile_spec(us, name@) == profile_spec(us.skip(i as int), name@),
            decreases self.users.len() - i,
        {
            assert(us.skip(i as int)[0] == us[i as int]);
            if self.users[i].name == key {
                return UserProfile { name: self.users[i].name.clone(), avatar: self.users[i].avatar.clone() };
            }
            assert(us.skip(i as int).drop_first() =~= us.skip(i + 1));
            i = i + 1;
        }
        assert(us.skip(i as int).len() == 0);
        UserProfile { name: key, avatar: avatar_for(name) }
    }
}

/// A frame that carries a chat message whose payload decodes to `m` appends `m` to the
/// transcript, after all earlier entries, keeps the roster, and asks for a redraw.
pub proof fn lemma_message_appends(s: ChatModel, frame: Seq<char>, d: Seq<char>, m: MessageModel)
    requires
        decode_spec(frame) is Ok,
        decode_spec(frame)->Ok_0.message_type == MsgTypes::Message,
        decode_spec(frame)->Ok_0.data == Some(d),
        decode_message_spec(d) == Ok::<MessageModel, DecodeError>(m),
    ensures
        handle_spec(s, frame).0.users == s.users,
        handle_spec(s, frame).0.messages == s.messages.push(m),
        handle_spec(s, frame).1.rerender,
{
}

/// Two chat messages sent one after the other, and received in that order, end the
/// transcript in that order.
pub proof fn lemma_two_messages_in_order(
    s: ChatModel,
    d1: Seq<char>,
    d2: Seq<char>,
    m1: MessageModel,
    m2: MessageModel,
)
    requires
        decode_message_spec(d1) == Ok::<MessageModel, DecodeError>(m1),
        decode_message_spec(d2) == Ok::<MessageModel, DecodeError>(m2),
    ensures
        ({
            let s1 = handle_spec(s, encode_spec(message_envelope(d1))).0;
            let s2 = handle_spec(s1, encode_spec(message_envelope(d2))).0;
            &&& s2.messages == s.messages + seq![m1, m2]
            &&& s2.messages.len() == s.messages.len() + 2
            &&& s2.users == s.users
        }),
{
    lemma_decode_encode(message_envelope(d1));
    lemma_decode_encode(message_envelope(d2));
    let s1 = handle_spec(s, encode_spec(message_envelope(d1))).0;
    let s2 = handle_spec(s1, encode_spec(message_envelope(d2))).0;
    assert(s2.messages =~= s.messages + seq![m1, m2]);
}

/// Submitting an empty text sends nothing and changes nothing.
pub proof fn lemma_empty_submit_sends_nothing(s: ChatModel)
    ensures
        submit_spec(s, Seq::<char>::empty()).1.outbound is None,
        submit_spec(s, Seq::<char>::empty()).0 == s,
{
}

/// A registration frame that comes in changes nothing and asks for no redraw.
pub proof fn lemma_register_ignored(s: ChatModel, frame: Seq<char>)
    requires
        decode_spec(frame) is Ok,
        decode_spec(frame)->Ok_0.message_type == MsgTypes::Register,
    ensures
        handle_spec(s, frame).0 == s,
        !handle_spec(s, frame).1.rerender,
{
}

/// A frame that is not well-formed leaves the roster and the transcript as they were.
pub proof fn lemma_malformed_frame_keeps_state(s: ChatModel, frame: Seq<char>)
    requires
        parse_document(frame) is None,
    ensures
        handle_spec(s, frame).0 == s,
        handle_spec(s, frame).1.error == Some(DecodeError::MalformedEnvelope),
{
}

/// The frame sent at mount decodes to the registration of the user who mounted the view.
pub proof fn lemma_mount_registers(username: Seq<char>)
    ensures
        decode_spec(encode_spec(register_envelope(username))) == Ok::<EnvelopeModel, DecodeError>(
            register_envelope(username),
        ),
{
    lemma_decode_encode(register_envelope(username));
}

} // verus!
