use yewchat::chat::{avatar_url, Chat, Msg};

fn users_frame(names: &[&str]) -> String {
    let quoted: Vec<String> = names.iter().map(|n| format!("\"{}\"", n)).collect();
    format!(
        "{{\"messageType\":\"users\",\"dataArray\":[{}],\"data\":null}}",
        quoted.join(",")
    )
}

fn message_frame(from: &str, text: &str) -> String {
    format!(
        "{{\"messageType\":\"message\",\"dataArray\":null,\"data\":\"{{\\\"from\\\":\\\"{}\\\",\\\"message\\\":\\\"{}\\\"}}\"}}",
        from, text
    )
}

#[test]
fn create_yields_empty_session_and_register_frame() {
    let (chat, frame) = Chat::create("alice".to_string());
    assert_eq!(chat.current_user, "alice");
    assert!(chat.users.is_empty());
    assert!(chat.messages.is_empty());
    assert_eq!(chat.chat_input, "");
    assert_eq!(
        frame,
        r#"{"messageType":"register","dataArray":null,"data":"alice"}"#
    );
}

#[test]
fn users_envelope_replaces_roster_without_residue() {
    let (mut chat, _) = Chat::create("alice".to_string());
    let (render, out) = chat.update(Msg::HandleMsg(users_frame(&["alice", "bob"])));
    assert!(render);
    assert!(out.is_none());
    assert_eq!(chat.users.len(), 2);
    assert_eq!(chat.users[0].name, "alice");
    assert_eq!(chat.users[0].avatar, avatar_url("alice"));
    assert_eq!(chat.users[1].name, "bob");
    assert_eq!(chat.users[1].avatar, avatar_url("bob"));

    // the next snapshot replaces everything: no residue of alice or bob
    let (render, _) = chat.update(Msg::HandleMsg(users_frame(&["carol"])));
    assert!(render);
    assert_eq!(chat.users.len(), 1);
    assert_eq!(chat.users[0].name, "carol");
}

#[test]
fn users_envelope_with_null_list_empties_roster() {
    let (mut chat, _) = Chat::create("alice".to_string());
    chat.update(Msg::HandleMsg(users_frame(&["alice"])));
    let raw = r#"{"messageType":"users","dataArray":null,"data":null}"#;
    let (render, _) = chat.update(Msg::HandleMsg(raw.to_string()));
    assert!(render);
    assert!(chat.users.is_empty());
}

#[test]
fn message_envelopes_append_in_order() {
    let (mut chat, _) = Chat::create("alice".to_string());
    let (render, out) = chat.update(Msg::HandleMsg(message_frame("bob", "hi")));
    assert!(render);
    assert!(out.is_none());
    let (render, _) = chat.update(Msg::HandleMsg(message_frame("carol", "hello")));
    assert!(render);
    assert_eq!(chat.messages.len(), 2);
    assert_eq!(chat.messages[0].from, "bob");
    assert_eq!(chat.messages[0].message, "hi");
    assert_eq!(chat.messages[1].from, "carol");
    assert_eq!(chat.messages[1].message, "hello");
}

#[test]
fn blank_submit_is_a_silent_noop() {
    let (mut chat, _) = Chat::create("alice".to_string());
    chat.update(Msg::HandleMsg(message_frame("bob", "hi")));

    chat.set_input(String::new());
    let (render, out) = chat.update(Msg::SubmitMessage);
    assert!(!render);
    assert!(out.is_none());

    chat.set_input("  \t \n ".to_string());
    let (render, out) = chat.update(Msg::SubmitMessage);
    assert!(!render);
    assert!(out.is_none());
    // nothing was touched, the blank input included
    assert_eq!(chat.chat_input, "  \t \n ");
    assert_eq!(chat.messages.len(), 1);

    // the guard goes by the same whitespace as trimming: vertical tab, form
    // feed, carriage return, next line, no-break space, en space, line and
    // paragraph separators, ideographic space
    let exotic = "\u{000B}\u{000C}\r\u{0085}\u{00A0}\u{2002}\u{2028}\u{2029}\u{3000}";
    assert!(exotic.trim().is_empty());
    chat.set_input(exotic.to_string());
    let (render, out) = chat.update(Msg::SubmitMessage);
    assert!(!render);
    assert!(out.is_none());
    assert_eq!(chat.messages.len(), 1);
}

#[test]
fn zero_width_space_is_not_blank() {
    // U+200B is invisible but not in the Unicode White_Space set: trimming
    // keeps it, so submitting it sends a frame
    let (mut chat, _) = Chat::create("alice".to_string());
    assert!(!"\u{200B}".trim().is_empty());
    chat.set_input("\u{200B}".to_string());
    let (render, out) = chat.update(Msg::SubmitMessage);
    assert!(!render);
    assert!(out.is_some());
    assert_eq!(chat.chat_input, "");
}

#[test]
fn submit_hello_sends_one_frame_and_clears_input() {
    let (mut chat, _) = Chat::create("alice".to_string());
    chat.set_input("hello".to_string());
    let (render, out) = chat.update(Msg::SubmitMessage);
    assert!(!render);
    assert_eq!(
        out.unwrap(),
        r#"{"messageType":"message","dataArray":null,"data":"hello"}"#
    );
    // the input clears whatever becomes of the send; the log waits for the echo
    assert_eq!(chat.chat_input, "");
    assert!(chat.messages.is_empty());
}

#[test]
fn submit_keeps_surrounding_whitespace_of_nonblank_text() {
    let (mut chat, _) = Chat::create("alice".to_string());
    chat.set_input("  yo ".to_string());
    let (_, out) = chat.update(Msg::SubmitMessage);
    // trimming is only a guard: the untrimmed original is sent
    assert_eq!(
        out.unwrap(),
        r#"{"messageType":"message","dataArray":null,"data":"  yo "}"#
    );
}

#[test]
fn malformed_nested_record_changes_nothing() {
    let (mut chat, _) = Chat::create("alice".to_string());
    chat.update(Msg::HandleMsg(users_frame(&["alice", "bob"])));
    chat.update(Msg::HandleMsg(message_frame("bob", "hi")));

    let raw = r#"{"messageType":"message","dataArray":null,"data":"not a record"}"#;
    let (render, out) = chat.update(Msg::HandleMsg(raw.to_string()));
    assert!(!render);
    assert!(out.is_none());
    assert_eq!(chat.users.len(), 2);
    assert_eq!(chat.messages.len(), 1);
    assert_eq!(chat.messages[0].from, "bob");
}

#[test]
fn undecodable_frame_is_skipped() {
    let (mut chat, _) = Chat::create("alice".to_string());
    chat.update(Msg::HandleMsg(users_frame(&["bob"])));
    let (render, out) = chat.update(Msg::HandleMsg("garbage".to_string()));
    assert!(!render);
    assert!(out.is_none());
    assert_eq!(chat.users.len(), 1);
}

#[test]
fn inbound_register_and_dataless_message_are_tolerated() {
    let (mut chat, _) = Chat::create("alice".to_string());
    let raw = r#"{"messageType":"register","dataArray":null,"data":"eve"}"#;
    let (render, out) = chat.update(Msg::HandleMsg(raw.to_string()));
    assert!(!render);
    assert!(out.is_none());

    let raw = r#"{"messageType":"message","dataArray":null,"data":null}"#;
    let (render, out) = chat.update(Msg::HandleMsg(raw.to_string()));
    assert!(!render);
    assert!(out.is_none());
    assert!(chat.messages.is_empty());
}

#[test]
fn avatar_url_is_deterministic_and_distinct() {
    assert_eq!(avatar_url("alice"), avatar_url("alice"));
    assert_ne!(avatar_url("alice"), avatar_url("bob"));
    assert_eq!(
        avatar_url("alice"),
        "https://avatars.dicebear.com/api/adventurer-neutral/alice.svg"
    );
}

#[test]
fn avatar_lookup_finds_sender_or_falls_back_empty() {
    let (mut chat, _) = Chat::create("alice".to_string());
    chat.update(Msg::HandleMsg(users_frame(&["alice", "bob"])));
    assert_eq!(chat.avatar_for(&"bob".to_string()), avatar_url("bob"));
    assert_eq!(chat.avatar_for(&"mallory".to_string()), "");
}

#[test]
fn full_session_scenario() {
    // alice registers
    let (mut chat, reg) = Chat::create("alice".to_string());
    assert_eq!(
        reg,
        r#"{"messageType":"register","dataArray":null,"data":"alice"}"#
    );

    // roster snapshot arrives
    let (render, _) = chat.update(Msg::HandleMsg(users_frame(&["alice", "bob"])));
    assert!(render);
    assert_eq!(chat.users.len(), 2);
    assert_eq!(chat.users[0].name, "alice");
    assert_eq!(chat.users[1].name, "bob");

    // bob says hi: rendered on the received side, with bob's avatar
    let (render, _) = chat.update(Msg::HandleMsg(message_frame("bob", "hi")));
    assert!(render);
    assert_eq!(chat.messages.len(), 1);
    assert_eq!(chat.messages[0].from, "bob");
    assert_eq!(chat.messages[0].message, "hi");
    assert!(!chat.is_local(&chat.messages[0].from.clone()));
    assert_eq!(chat.avatar_for(&chat.messages[0].from.clone()), avatar_url("bob"));

    // alice submits "yo": one outbound frame, log unchanged until the echo
    chat.set_input("yo".to_string());
    let (render, out) = chat.update(Msg::SubmitMessage);
    assert!(!render);
    assert_eq!(
        out.unwrap(),
        r#"{"messageType":"message","dataArray":null,"data":"yo"}"#
    );
    assert_eq!(chat.messages.len(), 1);
    assert_eq!(chat.chat_input, "");
}
