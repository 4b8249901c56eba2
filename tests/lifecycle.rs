use rustirc::{run, Action, Client, ClientErrors, ConnectionState, Event, ParsedMessage};

fn sent(a: Action) -> Vec<u8> {
    match a {
        Action::Send(b) => b,
        other => panic!("expected a line to send, got {:?}", other),
    }
}

/// Connects, authenticates and joins, checking each line on the way.
fn serving_client() -> Client {
    let mut c = Client::new("irc.example.org", "6667", "chan");
    assert_eq!(c.target(), "irc.example.org:6667");
    assert_eq!(c.next_action(), Action::Connect);
    assert_eq!(run(&mut c, Event::Connected), Action::Idle);
    assert_eq!(c.state(), ConnectionState::Connected);
    c.auth("bot", "secret").unwrap();
    c.join().unwrap();
    assert_eq!(sent(c.next_action()), b"PASS secret\r\n".to_vec());
    assert_eq!(sent(run(&mut c, Event::Sent)), b"NICK bot\r\n".to_vec());
    assert_eq!(sent(run(&mut c, Event::Sent)), b"JOIN #chan\r\n".to_vec());
    assert_eq!(c.state(), ConnectionState::Authenticated);
    assert_eq!(run(&mut c, Event::Sent), Action::Read);
    assert_eq!(c.state(), ConnectionState::Serving);
    c
}

#[test]
fn pong_then_say_in_order() {
    let mut c = serving_client();
    let a = run(&mut c, Event::Received(b"PING :x\r\n".to_vec()));
    assert_eq!(sent(a), b"PONG :x\r\n".to_vec());
    assert_eq!(run(&mut c, Event::Sent), Action::Read);
    let a = run(&mut c, Event::Received(b":alice!alice@host PRIVMSG #chan :!say test\r\n".to_vec()));
    assert_eq!(sent(a), b"PRIVMSG #chan :test\r\n".to_vec());
    assert_eq!(run(&mut c, Event::Sent), Action::Read);
}

#[test]
fn both_lines_in_one_read_answered_in_order() {
    let mut c = serving_client();
    let a = run(&mut c, Event::Received(b"PING :x\r\n:a!a@h PRIVMSG #chan :!say test\r\n".to_vec()));
    assert_eq!(sent(a), b"PONG :x\r\n".to_vec());
    assert_eq!(sent(run(&mut c, Event::Sent)), b"PRIVMSG #chan :test\r\n".to_vec());
    assert_eq!(run(&mut c, Event::Sent), Action::Read);
}

#[test]
fn zero_byte_read_closes_with_end_of_stream() {
    let mut c = serving_client();
    assert_eq!(run(&mut c, Event::Received(Vec::new())), Action::Stop(ClientErrors::EndOfStream));
    assert_eq!(c.state(), ConnectionState::Closed);
    assert_eq!(run(&mut c, Event::Sent), Action::Stop(ClientErrors::EndOfStream));
}

#[test]
fn failed_password_stops_the_handshake() {
    let mut c = Client::new("h", "1", "chan");
    run(&mut c, Event::Connected);
    c.auth("bot", "pw").unwrap();
    assert_eq!(sent(c.next_action()), b"PASS pw\r\n".to_vec());
    assert_eq!(run(&mut c, Event::SendFailed(ClientErrors::WriteError)), Action::Stop(ClientErrors::WriteError));
    assert_eq!(c.state(), ConnectionState::Closed);
}

#[test]
fn connect_failure_closes() {
    let mut c = Client::new("h", "1", "chan");
    assert_eq!(run(&mut c, Event::ConnectFailed), Action::Stop(ClientErrors::ConnectionError));
    assert_eq!(c.state(), ConnectionState::Closed);
}

#[test]
fn read_failure_closes() {
    let mut c = serving_client();
    assert_eq!(run(&mut c, Event::ReadFailed), Action::Stop(ClientErrors::ReadError));
}

#[test]
fn flush_failure_is_reported() {
    let mut c = serving_client();
    let a = run(&mut c, Event::Received(b"PING :y\n".to_vec()));
    assert_eq!(sent(a), b"PONG :y\r\n".to_vec());
    assert_eq!(run(&mut c, Event::SendFailed(ClientErrors::FlushError)), Action::Stop(ClientErrors::FlushError));
}

#[test]
fn other_lines_and_plain_chat_are_ignored() {
    let mut c = serving_client();
    let a = run(&mut c, Event::Received(b":server 001 bot :Welcome\r\n:a!a@h PRIVMSG #chan :hello\r\n".to_vec()));
    assert_eq!(a, Action::Read);
}

#[test]
fn partial_read_waits_for_more() {
    let mut c = serving_client();
    assert_eq!(run(&mut c, Event::Received(b":a!a@h PRIVMSG #chan :!he".to_vec())), Action::Read);
    assert_eq!(sent(run(&mut c, Event::Received(b"lp\r\n".to_vec()))), b"PRIVMSG #chan :helped\r\n".to_vec());
}

#[test]
fn unknown_command_is_answered() {
    let mut c = serving_client();
    let a = run(&mut c, Event::Received(b":a!a@h PRIVMSG #chan :!xyz 1 2\r\n".to_vec()));
    assert_eq!(sent(a), b"PRIVMSG #chan :Unknown command !xyz\r\n".to_vec());
}

#[test]
fn operations_before_connecting_fail() {
    let mut c = Client::new("h", "1", "chan");
    assert_eq!(c.say("hi"), Err(ClientErrors::ConnectionError));
    assert_eq!(c.state(), ConnectionState::Closed);
    let mut d = Client::new("h", "1", "chan");
    assert_eq!(d.read_message(b"PING :x\r\n"), Err(ClientErrors::ConnectionError));
}

#[test]
fn read_message_parses_complete_lines() {
    let mut c = Client::new("h", "1", "chan");
    run(&mut c, Event::Connected);
    let ms = c.read_message(b"PING :1\r\nPING :2\r\nPI").unwrap();
    assert_eq!(ms.len(), 2);
    assert_eq!(c.read_message(b""), Err(ClientErrors::EndOfStream));
}

#[test]
fn private_message_and_pong_lines() {
    let mut c = Client::new("h", "1", "chan");
    run(&mut c, Event::Connected);
    c.private_message("hey there").unwrap();
    c.handle_ping(b"tok").unwrap();
    assert_eq!(sent(c.next_action()), b"PRIVMSG #chan :hey there\r\n".to_vec());
    assert_eq!(sent(run(&mut c, Event::Sent)), b"PONG tok\r\n".to_vec());
    assert_eq!(run(&mut c, Event::Sent), Action::Idle);
}

#[test]
fn error_messages() {
    assert_eq!(ClientErrors::ConnectionError.message(), "Could not connect");
    assert_eq!(ClientErrors::ReadError.message(), "Could not read from stream");
    assert_eq!(ClientErrors::EndOfStream.message(), "Connection closed by peer");
}

#[test]
fn oversized_line_is_reported_then_reading_resumes() {
    let mut c = serving_client();
    let ms = c.read_message(&vec![b'a'; 9000]).unwrap();
    assert_eq!(ms, vec![Err(ClientErrors::OversizedLineError)]);
    let ms = c.read_message(b"\nPING :y\r\n").unwrap();
    assert_eq!(ms, vec![Ok(ParsedMessage::Ping { token: b":y".to_vec() })]);
    assert_eq!(c.state(), ConnectionState::Serving);
}

#[test]
fn oversized_line_closes_the_serving_client() {
    let mut c = serving_client();
    let a = run(&mut c, Event::Received(vec![b'a'; 9000]));
    assert_eq!(a, Action::Stop(ClientErrors::OversizedLineError));
    assert_eq!(c.state(), ConnectionState::Closed);
}

#[test]
fn credentials_send_the_handshake_on_connect() {
    let mut c = Client::with_credentials("irc.twitch.tv", "6667", "cobbcoding", "cobbbot", "pw");
    assert_eq!(c.next_action(), Action::Connect);
    let mut wire = sent(run(&mut c, Event::Connected));
    wire.extend(sent(run(&mut c, Event::Sent)));
    wire.extend(sent(run(&mut c, Event::Sent)));
    assert_eq!(wire, b"PASS pw\r\nNICK cobbbot\r\nJOIN #cobbcoding\r\n".to_vec());
    assert_eq!(run(&mut c, Event::Sent), Action::Read);
    assert_eq!(c.state(), ConnectionState::Serving);
}

#[test]
fn handshake_queues_password_nickname_and_join() {
    let mut c = Client::new("h", "1", "chan");
    assert_eq!(c.handshake("bot", "pw"), Err(ClientErrors::ConnectionError));
    let mut c = Client::new("h", "1", "chan");
    run(&mut c, Event::Connected);
    c.handshake("bot", "pw").unwrap();
    assert_eq!(sent(c.next_action()), b"PASS pw\r\n".to_vec());
    assert_eq!(sent(run(&mut c, Event::Sent)), b"NICK bot\r\n".to_vec());
    assert_eq!(sent(run(&mut c, Event::Sent)), b"JOIN #chan\r\n".to_vec());
}

fn answers(c: &mut Client, reads: Vec<Vec<u8>>) -> Vec<Vec<u8>> {
    let mut out = Vec::new();
    for r in reads {
        let mut a = run(c, Event::Received(r));
        while let Action::Send(b) = a {
            out.push(b);
            a = run(c, Event::Sent);
        }
        assert_eq!(a, Action::Read);
    }
    out
}

#[test]
fn answers_do_not_depend_on_read_boundaries() {
    let stream: &[u8] = b"PING :x\r\n:a!a@h PRIVMSG #chan :!say one two\n:s 001 b :hi\r\n:b!b@h PRIVMSG #chan :!help\r\n";
    let mut whole = serving_client();
    let at_once = answers(&mut whole, vec![stream.to_vec()]);
    let mut single = serving_client();
    let one_by_one = answers(&mut single, stream.iter().map(|b| vec![*b]).collect());
    assert_eq!(at_once, one_by_one);
    assert_eq!(
        at_once,
        vec![
            b"PONG :x\r\n".to_vec(),
            b"PRIVMSG #chan :one two\r\n".to_vec(),
            b"PRIVMSG #chan :helped\r\n".to_vec(),
        ]
    );
}
