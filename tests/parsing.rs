use rustirc::{parse_message, Message, ParsedMessage};

#[test]
fn ping_keeps_its_token() {
    let m = parse_message(b"PING :tmi.twitch.tv\r\n");
    assert_eq!(m, ParsedMessage::Ping { token: b":tmi.twitch.tv".to_vec() });
}

#[test]
fn channel_message_gives_user_and_text() {
    let m = parse_message(b":alice!alice@host PRIVMSG #chan :!say hello world\r\n");
    assert_eq!(
        m,
        ParsedMessage::ChannelMessage(Message {
            username: "alice".to_string(),
            message: "!say hello world".to_string(),
        })
    );
}

#[test]
fn numeric_reply_is_other() {
    assert_eq!(parse_message(b":server 001 bot :Welcome\r\n"), ParsedMessage::Other);
}

#[test]
fn privmsg_with_one_colon_is_other() {
    assert_eq!(parse_message(b"PRIVMSG #chan :hi"), ParsedMessage::Other);
    assert_eq!(parse_message(b"PRIVMSG"), ParsedMessage::Other);
}

#[test]
fn payload_keeps_later_colons() {
    let m = parse_message(b":bob!b@h PRIVMSG #c :time: 12:30\n");
    assert_eq!(
        m,
        ParsedMessage::ChannelMessage(Message {
            username: "bob".to_string(),
            message: "time: 12:30".to_string(),
        })
    );
}

#[test]
fn prefix_without_bang_is_kept_whole() {
    let m = parse_message(b":carol PRIVMSG #c :yo");
    assert_eq!(
        m,
        ParsedMessage::ChannelMessage(Message {
            username: "carol PRIVMSG #c ".to_string(),
            message: "yo".to_string(),
        })
    );
}

#[test]
fn non_utf8_payload_is_other() {
    assert_eq!(parse_message(b":a!a@h PRIVMSG #c :\xff\xfe"), ParsedMessage::Other);
}

#[test]
fn utf8_payload_is_decoded() {
    let m = parse_message(":a!a@h PRIVMSG #c :caf\u{e9}".as_bytes());
    assert_eq!(
        m,
        ParsedMessage::ChannelMessage(Message { username: "a".to_string(), message: "caf\u{e9}".to_string() })
    );
}

#[test]
fn lowercase_ping_is_other() {
    assert_eq!(parse_message(b"ping :x\r\n"), ParsedMessage::Other);
    assert_eq!(parse_message(b"PING"), ParsedMessage::Other);
}

#[test]
fn empty_line_is_other() {
    assert_eq!(parse_message(b""), ParsedMessage::Other);
    assert_eq!(parse_message(b"\r\n"), ParsedMessage::Other);
}
