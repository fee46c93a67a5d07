use yew_chat::chat::{Chat, Msg};
use yew_chat::envelope::{decode, encode, DecodeError, MsgTypes, WebSocketMessage};

const AVATAR: &str = "https://avatars.dicebear.com/api/adventurer-neutral/";

fn frame(t: MsgTypes, list: Option<Vec<&str>>, data: Option<&str>) -> String {
    encode(&WebSocketMessage {
        message_type: t,
        data_array: list.map(|l| l.into_iter().map(|s| s.to_string()).collect()),
        data: data.map(|s| s.to_string()),
    })
}

fn chat_frame(from: &str, message: &str) -> String {
    let payload = format!("{{\"from\":\"{}\",\"message\":\"{}\"}}", from, message);
    frame(MsgTypes::Message, None, Some(&payload))
}

#[test]
fn mount_sends_one_registration() {
    let (chat, out) = Chat::create("carol");
    let e = decode(&out).ok().expect("decodes");
    assert!(e.message_type == MsgTypes::Register);
    assert_eq!(e.data, Some("carol".to_string()));
    assert_eq!(e.data_array, None);
    assert!(chat.users().is_empty());
    assert!(chat.messages().is_empty());
}

#[test]
fn users_frame_replaces_roster() {
    let (mut chat, _) = Chat::create("carol");
    let r = chat.handle_frame(&frame(MsgTypes::Users, Some(vec!["zed"]), None));
    assert!(r.rerender);
    let r = chat.handle_frame(&frame(MsgTypes::Users, Some(vec!["alice", "bob"]), None));
    assert!(r.rerender && r.outbound.is_none() && r.error.is_none());
    let users = chat.users();
    assert_eq!(users.len(), 2);
    assert_eq!(users[0].name, "alice");
    assert_eq!(users[0].avatar, format!("{}alice.svg", AVATAR));
    assert_eq!(users[1].name, "bob");
    assert_eq!(users[1].avatar, format!("{}bob.svg", AVATAR));
}

#[test]
fn users_frame_without_list_empties_roster() {
    let (mut chat, _) = Chat::create("carol");
    chat.handle_frame(&frame(MsgTypes::Users, Some(vec!["alice"]), None));
    let r = chat.handle_frame(&frame(MsgTypes::Users, None, None));
    assert!(r.rerender);
    assert!(chat.users().is_empty());
}

#[test]
fn message_frame_appends_to_transcript() {
    let (mut chat, _) = Chat::create("carol");
    chat.handle_frame(&chat_frame("bob", "first"));
    let r = chat.handle_frame(&chat_frame("alice", "hi"));
    assert!(r.rerender);
    let ms = chat.messages();
    assert_eq!(ms.len(), 2);
    assert_eq!(ms[1].from, "alice");
    assert_eq!(ms[1].message, "hi");
    assert_eq!(ms[0].message, "first");
}

#[test]
fn two_messages_keep_their_order() {
    let (mut chat, _) = Chat::create("carol");
    chat.update(Msg::HandleMsg(chat_frame("alice", "one")));
    chat.update(Msg::HandleMsg(chat_frame("bob", "two")));
    let ms = chat.messages();
    assert_eq!(ms.len(), 2);
    assert_eq!((ms[0].from.as_str(), ms[0].message.as_str()), ("alice", "one"));
    assert_eq!((ms[1].from.as_str(), ms[1].message.as_str()), ("bob", "two"));
}

#[test]
fn empty_submit_sends_nothing() {
    let (mut chat, _) = Chat::create("carol");
    let r = chat.update(Msg::SubmitMessage(String::new()));
    assert!(r.outbound.is_none());
    assert!(!r.rerender);
}

#[test]
fn submit_sends_a_message_envelope() {
    let (chat, _) = Chat::create("carol");
    let r = chat.submit("hello there");
    let out = r.outbound.expect("a frame");
    assert_eq!(
        out,
        "{\"messageType\":\"message\",\"dataArray\":null,\"data\":\"hello there\"}"
    );
    assert!(chat.messages().is_empty());
}

#[test]
fn register_frame_is_ignored() {
    let (mut chat, _) = Chat::create("carol");
    chat.handle_frame(&frame(MsgTypes::Users, Some(vec!["alice"]), None));
    let r = chat.handle_frame(&frame(MsgTypes::Register, None, Some("dave")));
    assert!(!r.rerender && r.outbound.is_none() && r.error.is_none());
    assert_eq!(chat.users().len(), 1);
    assert!(chat.messages().is_empty());
}

#[test]
fn malformed_frame_keeps_state() {
    let (mut chat, _) = Chat::create("carol");
    chat.handle_frame(&frame(MsgTypes::Users, Some(vec!["alice"]), None));
    chat.handle_frame(&chat_frame("alice", "hi"));
    let r = chat.handle_frame("{\"messageType\": \"users\", \"dataArray\": [");
    assert_eq!(r.error, Some(DecodeError::MalformedEnvelope));
    assert!(!r.rerender);
    assert_eq!(chat.users().len(), 1);
    assert_eq!(chat.messages().len(), 1);
}

#[test]
fn malformed_payload_keeps_state() {
    let (mut chat, _) = Chat::create("carol");
    let r = chat.handle_frame(&frame(MsgTypes::Message, None, Some("{\"from\":\"alice\"}")));
    assert_eq!(r.error, Some(DecodeError::MalformedPayload));
    let r = chat.handle_frame(&frame(MsgTypes::Message, None, None));
    assert_eq!(r.error, Some(DecodeError::MalformedPayload));
    assert!(chat.messages().is_empty());
}

#[test]
fn profile_lookup_with_placeholder() {
    let (mut chat, _) = Chat::create("carol");
    chat.handle_frame(&frame(MsgTypes::Users, Some(vec!["alice", "bob"]), None));
    let p = chat.profile_for("bob");
    assert_eq!(p.name, "bob");
    assert_eq!(p.avatar, format!("{}bob.svg", AVATAR));
    let q = chat.profile_for("ghost");
    assert_eq!(q.name, "ghost");
    assert_eq!(q.avatar, format!("{}ghost.svg", AVATAR));
}
