use rustirc::{ClientErrors, LineFramer};

fn lines(frames: Vec<Result<Vec<u8>, ClientErrors>>) -> Vec<Vec<u8>> {
    frames.into_iter().map(|f| f.unwrap()).collect()
}

#[test]
fn several_lines_in_one_read() {
    let mut f = LineFramer::new(64);
    let out = lines(f.feed(b"PING :a\r\nPING :b\r\nPIN"));
    assert_eq!(out, vec![b"PING :a".to_vec(), b"PING :b".to_vec()]);
    let out = lines(f.feed(b"G :c\r\n"));
    assert_eq!(out, vec![b"PING :c".to_vec()]);
}

#[test]
fn partial_line_gives_nothing() {
    let mut f = LineFramer::new(64);
    assert!(f.feed(b"PING :tmi").is_empty());
    assert!(f.feed(b".twitch.tv\r").is_empty());
    assert_eq!(lines(f.feed(b"\n")), vec![b"PING :tmi.twitch.tv".to_vec()]);
}

#[test]
fn bare_line_feed_ends_a_line() {
    let mut f = LineFramer::new(64);
    assert_eq!(lines(f.feed(b"one\ntwo\r\n")), vec![b"one".to_vec(), b"two".to_vec()]);
}

#[test]
fn byte_at_a_time_matches_all_at_once() {
    let stream: &[u8] = b":a!a@h PRIVMSG #c :hi\r\nPING :x\nlong line that is too long\r\nok\r\ntail";
    let mut whole = LineFramer::new(12);
    let at_once = whole.feed(stream);
    let mut single = LineFramer::new(12);
    let mut one_by_one = Vec::new();
    for b in stream {
        one_by_one.extend(single.feed(&[*b]));
    }
    assert_eq!(at_once, one_by_one);
    assert_eq!(at_once.len(), 4);
    assert_eq!(at_once[3], Ok(b"ok".to_vec()));
}

#[test]
fn oversized_line_is_reported_and_skipped() {
    let mut f = LineFramer::new(4);
    let out = f.feed(b"abcdefgh\r\nok\r\n");
    assert_eq!(out, vec![Err(ClientErrors::OversizedLineError), Ok(b"ok".to_vec())]);
}

#[test]
fn line_of_exactly_the_limit_is_kept() {
    let mut f = LineFramer::new(4);
    assert_eq!(f.feed(b"abcd\n"), vec![Ok(b"abcd".to_vec())]);
}

#[test]
fn carriage_return_is_not_counted_toward_the_limit() {
    let mut f = LineFramer::new(4);
    assert_eq!(f.feed(b"abcd\r\n"), vec![Ok(b"abcd".to_vec())]);
    assert_eq!(f.feed(b"abcde\r\nxy\r\n"), vec![Err(ClientErrors::OversizedLineError), Ok(b"xy".to_vec())]);
}
