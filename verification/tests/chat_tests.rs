use chat_room::avatar::avatar_url;
use chat_room::codec::decode_envelope;
use chat_room::codec::encode_envelope;
use chat_room::codec::encode_message_data;
use chat_room::Chat;
use chat_room::DecodeError;
use chat_room::MessageData;
use chat_room::Msg;
use chat_room::MsgTypes;
use chat_room::WebSocketMessage;

const AVATAR_PREFIX: &str = "https://api.dicebear.com/7.x/adventurer-neutral/svg?seed=";

fn users_frame(names: &[&str]) -> String {
    let e = WebSocketMessage {
        message_type: MsgTypes::Users,
        data_array: Some(names.iter().map(|n| n.to_string()).collect()),
        data: None,
    };
    encode_envelope(&e)
}

fn message_frame(from: &str, message: &str) -> String {
    let payload = encode_message_data(&MessageData {
        from: from.to_string(),
        message: message.to_string(),
    });
    let e = WebSocketMessage {
        message_type: MsgTypes::Message,
        data_array: None,
        data: Some(payload),
    };
    encode_envelope(&e)
}

#[test]
fn sidebar_shows_latest_roster_only() {
    let (mut chat, _reg) = Chat::create("alice".to_string());
    assert_eq!(chat.handle_frame(&users_frame(&["alice", "bob", "carol"])), Ok(true));
    assert_eq!(chat.handle_frame(&users_frame(&["dave", "alice"])), Ok(true));
    let sidebar = chat.render_sidebar();
    assert_eq!(sidebar.len(), 2);
    assert_eq!(sidebar[0].name, "dave");
    assert_eq!(sidebar[1].name, "alice");
    assert!(!sidebar[0].is_you);
    assert!(sidebar[1].is_you);
    assert_eq!(sidebar[0].status, "Online");
    assert_eq!(sidebar[1].status, "That's you!");
    assert_eq!(sidebar[0].avatar, format!("{}dave", AVATAR_PREFIX));
}

#[test]
fn users_envelope_without_array_empties_roster() {
    let (mut chat, _reg) = Chat::create("alice".to_string());
    assert_eq!(chat.handle_frame(&users_frame(&["alice"])), Ok(true));
    let frame = "{\"messageType\":\"users\",\"dataArray\":null,\"data\":null}";
    assert_eq!(chat.handle_frame(frame), Ok(true));
    assert_eq!(chat.render_sidebar().len(), 0);
}

#[test]
fn messages_append_in_order() {
    let (mut chat, _reg) = Chat::create("alice".to_string());
    assert_eq!(chat.messages.len(), 0);
    assert_eq!(chat.handle_frame(&message_frame("bob", "first")), Ok(true));
    assert_eq!(chat.messages.len(), 1);
    assert_eq!(chat.handle_frame(&message_frame("carol", "second")), Ok(true));
    assert_eq!(chat.messages.len(), 2);
    assert_eq!(chat.messages[0].from, "bob");
    assert_eq!(chat.messages[0].message, "first");
    assert_eq!(chat.messages[1].from, "carol");
    assert_eq!(chat.messages[1].message, "second");
}

#[test]
fn message_before_roster_is_kept_but_not_rendered() {
    let (mut chat, _reg) = Chat::create("alice".to_string());
    assert_eq!(chat.handle_frame(&message_frame("bob", "early bird")), Ok(true));
    assert_eq!(chat.messages.len(), 1);
    assert_eq!(chat.render_feed().len(), 0);
    // once the sender appears in a roster, the same message shows up
    assert_eq!(chat.handle_frame(&users_frame(&["bob"])), Ok(true));
    let feed = chat.render_feed();
    assert_eq!(feed.len(), 1);
    assert_eq!(feed[0].from, "bob");
    assert_eq!(feed[0].body, "early bird");
}

#[test]
fn unknown_sender_stays_invisible_amid_known_ones() {
    let (mut chat, _reg) = Chat::create("alice".to_string());
    assert_eq!(chat.handle_frame(&users_frame(&["alice", "bob"])), Ok(true));
    assert_eq!(chat.handle_frame(&message_frame("bob", "hello")), Ok(true));
    assert_eq!(chat.handle_frame(&message_frame("mallory", "psst")), Ok(true));
    assert_eq!(chat.handle_frame(&message_frame("alice", "hi bob")), Ok(true));
    let feed = chat.render_feed();
    assert_eq!(feed.len(), 2);
    assert_eq!(feed[0].from, "bob");
    assert_eq!(feed[1].from, "alice");
    assert_eq!(chat.messages.len(), 3);
}

#[test]
fn current_user_fixed_at_creation() {
    let (mut chat, _reg) = Chat::create("alice".to_string());
    assert_eq!(chat.current_user, "alice");
    let mut input = String::from("hello");
    let _ = chat.update(Msg::HandleMsg(users_frame(&["bob"])), &mut input);
    let _ = chat.update(Msg::HandleMsg(message_frame("bob", "hi")), &mut input);
    let _ = chat.update(Msg::HandleMsg("garbage".to_string()), &mut input);
    let _ = chat.update(Msg::SubmitMessage, &mut input);
    assert_eq!(chat.current_user, "alice");
}

#[test]
fn submitted_gif_echoed_back_renders_as_own_image() {
    let (mut chat, _reg) = Chat::create("alice".to_string());
    assert_eq!(chat.handle_frame(&users_frame(&["alice", "bob"])), Ok(true));
    let mut input = String::from("cat.gif");
    let outcome = chat
        .update(Msg::SubmitMessage, &mut input)
        .expect("submitting never fails");
    assert!(!outcome.render);
    assert_eq!(input, "");
    let sent = outcome.outbound.expect("a submit yields an outbound frame");
    // the server echoes the submitted text back as a message payload
    let sent_envelope = decode_envelope(&sent).expect("the outbound frame is a wire envelope");
    let echoed = message_frame("alice", &sent_envelope.data.expect("a message envelope has data"));
    assert_eq!(chat.handle_frame(&echoed), Ok(true));
    let feed = chat.render_feed();
    assert_eq!(feed.len(), 1);
    assert!(feed[0].is_image);
    assert!(feed[0].is_you);
    assert_eq!(feed[0].header, "You");
    assert_eq!(feed[0].body, "cat.gif");
}

#[test]
fn gif_suffix_detection_is_exact() {
    let (mut chat, _reg) = Chat::create("alice".to_string());
    assert_eq!(chat.handle_frame(&users_frame(&["bob"])), Ok(true));
    assert_eq!(chat.handle_frame(&message_frame("bob", ".gif")), Ok(true));
    assert_eq!(chat.handle_frame(&message_frame("bob", "x.gifs")), Ok(true));
    assert_eq!(chat.handle_frame(&message_frame("bob", "gif")), Ok(true));
    let feed = chat.render_feed();
    assert_eq!(feed.len(), 3);
    assert!(feed[0].is_image);
    assert!(!feed[1].is_image);
    assert!(!feed[2].is_image);
    assert!(!feed[0].is_you);
    assert_eq!(feed[0].header, "bob");
}

#[test]
fn submit_clears_input_even_if_send_would_fail() {
    // the submit step never consults the transport: the frame is handed
    // out and the field is cleared whatever becomes of the send
    let (mut chat, _reg) = Chat::create("alice".to_string());
    let mut input = String::from("doomed message");
    let outcome = chat
        .update(Msg::SubmitMessage, &mut input)
        .expect("submitting never fails");
    // the caller may now fail to send `outcome.outbound`; the component
    // state and the cleared field are unaffected either way
    assert_eq!(input, "");
    assert!(outcome.outbound.is_some());
    assert_eq!(chat.messages.len(), 0);
    assert_eq!(chat.render_feed().len(), 0);
}

#[test]
fn empty_input_is_submitted_as_is() {
    let (chat, _reg) = Chat::create("alice".to_string());
    let mut input = String::new();
    let frame = chat.submit_message(&mut input);
    assert_eq!(frame, "{\"messageType\":\"message\",\"dataArray\":null,\"data\":\"\"}");
    assert_eq!(input, "");
}

#[test]
fn registration_envelope_carries_the_session_name() {
    let (_chat, reg) = Chat::create("alice".to_string());
    assert_eq!(reg, "{\"messageType\":\"register\",\"dataArray\":null,\"data\":\"alice\"}");
    let e = decode_envelope(&reg).expect("the register frame is a wire envelope");
    assert!(matches!(e.message_type, MsgTypes::Register));
    assert_eq!(e.data, Some("alice".to_string()));
    assert_eq!(e.data_array, None);
}

#[test]
fn inbound_register_envelope_is_a_no_op() {
    let (mut chat, reg) = Chat::create("alice".to_string());
    assert_eq!(chat.handle_frame(&users_frame(&["alice"])), Ok(true));
    assert_eq!(chat.handle_frame(&reg), Ok(false));
    assert_eq!(chat.render_sidebar().len(), 1);
    assert_eq!(chat.messages.len(), 0);
}

#[test]
fn each_refusal_names_its_cause() {
    let (mut chat, _reg) = Chat::create("alice".to_string());
    assert_eq!(
        chat.handle_frame("{\"messageType\""),
        Err(DecodeError::MalformedEnvelope)
    );
    assert_eq!(
        chat.handle_frame("{\"messageType\":\"message\",\"data\":null}"),
        Err(DecodeError::MissingPayload)
    );
    assert_eq!(
        chat.handle_frame("{\"messageType\":\"message\",\"data\":\"oops\"}"),
        Err(DecodeError::MalformedPayload)
    );
    // a refusal leaves the state untouched
    assert_eq!(chat.messages.len(), 0);
    assert_eq!(chat.render_sidebar().len(), 0);
    assert_eq!(chat.current_user, "alice");
}

#[test]
fn avatar_url_percent_encodes_the_seed() {
    assert_eq!(avatar_url("alice"), format!("{}alice", AVATAR_PREFIX));
    assert_eq!(avatar_url("a b"), format!("{}a%20b", AVATAR_PREFIX));
    assert_eq!(avatar_url("A-z_0.~"), format!("{}A-z_0.~", AVATAR_PREFIX));
    assert_eq!(avatar_url("\u{e9}"), format!("{}%C3%A9", AVATAR_PREFIX));
    assert_eq!(avatar_url("\u{20ac}"), format!("{}%E2%82%AC", AVATAR_PREFIX));
    assert_eq!(avatar_url("\u{1f600}"), format!("{}%F0%9F%98%80", AVATAR_PREFIX));
}

#[test]
fn render_combines_sidebar_and_feed() {
    let (mut chat, _reg) = Chat::create("alice".to_string());
    assert_eq!(chat.handle_frame(&users_frame(&["alice", "bob"])), Ok(true));
    assert_eq!(chat.handle_frame(&message_frame("bob", "hello")), Ok(true));
    let view = chat.render();
    assert_eq!(view.sidebar.len(), 2);
    assert_eq!(view.feed.len(), 1);
    assert_eq!(view.sidebar[0].name, "alice");
    assert_eq!(view.feed[0].body, "hello");
}

#[test]
fn roster_replacement_hides_earlier_senders() {
    let (mut chat, _reg) = Chat::create("alice".to_string());
    assert_eq!(chat.handle_frame(&users_frame(&["bob"])), Ok(true));
    assert_eq!(chat.handle_frame(&message_frame("bob", "hi")), Ok(true));
    assert_eq!(chat.render_feed().len(), 1);
    // the roster is replaced wholesale; bob drops out, and with him his message
    assert_eq!(chat.handle_frame(&users_frame(&["alice"])), Ok(true));
    assert_eq!(chat.render_feed().len(), 0);
    assert_eq!(chat.messages.len(), 1);
}
