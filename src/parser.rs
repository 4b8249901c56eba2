use vstd::prelude::*;
use vstd::slice::{slice_subrange, slice_to_vec};
use vstd::utf8::{decode_utf8, valid_utf8};

use crate::framer::{strip_cr, CR, LF};

verus! {

/// `:`, which opens the sender prefix and the payload.
pub const COLON: u8 = 58;

/// `!`, which ends the nickname in a sender prefix.
pub const BANG: u8 = 33;

/// A message posted to a channel: who sent it and what it says.
#[derive(Debug, Clone, PartialEq, Eq)]
pub struct Message {
    pub username: String,
    pub message: String,
}

/// One protocol line, classified.
#[derive(Debug, Clone, PartialEq, Eq)]
pub enum ParsedMessage {
    /// A keep-alive request; the token is echoed back in the answer.
    Ping { token: Vec<u8> },
    /// A message posted to a channel.
    ChannelMessage(Message),
    /// Anything else.
    Other,
}

/// What a parsed line holds.
pub enum ParsedView {
    Ping(Seq<u8>),
    ChannelMessage(Seq<char>, Seq<char>),
    Other,
}

impl View for ParsedMessage {
    type V = ParsedView;

    open spec fn view(&self) -> ParsedView {
        match self {
            ParsedMessage::Ping { token } => ParsedView::Ping(token@),
            ParsedMessage::ChannelMessage(m) => ParsedView::ChannelMessage(m.username@, m.message@),
            ParsedMessage::Other => ParsedView::Other,
        }
    }
}

/// `PING ` in ASCII.
pub open spec fn ping_prefix() -> Seq<u8> {
    seq![80u8, 73, 78, 71, 32]
}

/// `PRIVMSG` in ASCII.
pub open spec fn privmsg_word() -> Seq<u8> {
    seq![80u8, 82, 73, 86, 77, 83, 71]
}

/// The line without a trailing line feed and the carriage return before it.
pub open spec fn line_body(line: Seq<u8>) -> Seq<u8> {
    if line.len() > 0 && line.last() == LF {
        strip_cr(line.drop_last())
    } else {
        strip_cr(line)
    }
}

pub open spec fn starts_with(s: Seq<u8>, p: Seq<u8>) -> bool {
    p.len() <= s.len() && s.subrange(0, p.len() as int) == p
}

pub open spec fn has_infix(s: Seq<u8>, p: Seq<u8>) -> bool {
    exists|i: int| 0 <= i && i + p.len() <= s.len() && #[trigger] s.subrange(i, i + p.len()) == p
}

/// The first position at or after `from` that holds `b`.
pub open spec fn find_from(s: Seq<u8>, b: u8, from: int) -> Option<int>
    decreases s.len() - from,
{
    if from < 0 || from >= s.len() {
        None
    } else if s[from] == b {
        Some(from)
    } else {
        find_from(s, b, from + 1)
    }
}

/// The sender's nickname and the payload of a channel-message line, as bytes:
/// the part between the first and the second `:`, up to its first `!`, and
/// everything after the second `:`. None where the line names no `PRIVMSG` or
/// has fewer than two `:`.
pub open spec fn privmsg_fields(b: Seq<u8>) -> Option<(Seq<u8>, Seq<u8>)> {
    if !has_infix(b, privmsg_word()) {
        None
    } else {
        match find_from(b, COLON, 0) {
            None => None,
            Some(c1) => match find_from(b, COLON, c1 + 1) {
                None => None,
                Some(c2) => {
                    let source = b.subrange(c1 + 1, c2);
                    let user = match find_from(source, BANG, 0) {
                        Some(k) => source.subrange(0, k),
                        None => source,
                    };
                    Some((user, b.subrange(c2 + 1, b.len() as int)))
                },
            },
        }
    }
}

/// The meaning of one protocol line.
pub open spec fn parse_line(line: Seq<u8>) -> ParsedView {
    let b = line_body(line);
    if starts_with(b, ping_prefix()) {
        ParsedView::Ping(b.subrange(5, b.len() as int))
    } else {
        match privmsg_fields(b) {
            Some((user, text)) => if valid_utf8(user) && valid_utf8(text) {
                ParsedView::ChannelMessage(decode_utf8(user), decode_utf8(text))
            } else {
                ParsedView::Other
            },
            None => ParsedView::Other,
        }
    }
}

/// Relies on String::from_utf8: it succeeds exactly on valid UTF-8, and the
/// string then holds the characters that the bytes encode.
#[verifier::external_body]
fn text_from_utf8(bytes: Vec<u8>) -> (r: Option<String>)
    ensures
        r is Some <==> valid_utf8(bytes@),
        r matches Some(s) ==> s@ == decode_utf8(bytes@),
{
    String::from_utf8(bytes).ok()
}

/// Whether `s` holds `p` at position `at`.
fn matches_at(s: &[u8], at: usize, p: &[u8]) -> (r: bool)
    requires
        at <= s@.len(),
    ensures
        r == (at + p@.len() <= s@.len() && s@.subrange(at as int, at + p@.len()) == p@),
{
    let n: usize = s.len();
    if p.len() > n - at {
        return false;
    }
    let mut j: usize = 0;
    while j < p.len()
        invariant
            n == s@.len(),
            at + p@.len() <= s@.len(),
            0 <= j <= p@.len(),
            forall|k: int| 0 <= k < j ==> s@[at + k] == p@[k],
        decreases p@.len() - j,
    {
        if s[at + j] != p[j] {
            assert(s@.subrange(at as int, at + p@.len())[j as int] != p@[j as int]);
            return false;
        }
        j = j + 1;
    }
    assert(s@.subrange(at as int, at + p@.len()) =~= p@);
    true
}

/// Whether `p` occurs anywhere in `s`.
fn contains(s: &[u8], p: &[u8]) -> (r: bool)
    ensures
        r == has_infix(s@, p@),
{
    let mut i: usize = 0;
    while i < s.len()
        invariant
            0 <= i <= s@.len(),
            forall|k: int| 0 <= k < i ==> !(k + p@.len() <= s@.len() && #[trigger] s@.subrange(k, k + p@.len()) == p@),
        decreases s@.len() - i,
    {
        if matches_at(s, i, p) {
            return true;
        }
        i = i + 1;
    }
    matches_at(s, i, p)
}

/// The first position at or after `from` that holds `b`.
fn find_byte(s: &[u8], b: u8, from: usize) -> (r: Option<usize>)
    ensures
        match find_from(s@, b, from as int) {
            Some(k) => from <= k < s@.len() && r == Some(k as usize),
            None => r is None,
        },
{
    let mut i: usize = from;
    while i < s.len()
        invariant
            from <= i,
            find_from(s@, b, from as int) == find_from(s@, b, i as int),
        decreases s@.len() - i,
    {
        if s[i] == b {
            assert(find_from(s@, b, i as int) == Some(i as int));
            return Some(i);
        }
        i = i + 1;
    }
    None
}

/// Classifies one protocol line; a line feed and carriage return at its end
/// are ignored. A line that starts with `PING ` is a keep-alive whose token is
/// the rest of the line. Otherwise a line that holds `PRIVMSG` and two `:` is a
/// channel message (see `privmsg_fields`), provided its nickname and payload
/// are valid UTF-8. Every other line is `Other`: parsing never fails.
pub fn parse_message(line: &[u8]) -> (r: ParsedMessage)
    ensures
        r@ == parse_line(line@),
{
    let mut end: usize = line.len();
    if end > 0 && line[end - 1] == LF {
        end = end - 1;
    }
    if end > 0 && line[end - 1] == CR {
        end = end - 1;
    }
    let body = slice_subrange(line, 0, end);
    assert(body@ =~= line_body(line@));
    let ping: [u8; 5] = [80, 73, 78, 71, 32];
    assert(ping@ =~= ping_prefix());
    if matches_at(body, 0, ping.as_slice()) {
        let token = slice_to_vec(slice_subrange(body, 5, body.len()));
        return ParsedMessage::Ping { token };
    }
    let word: [u8; 7] = [80, 82, 73, 86, 77, 83, 71];
    assert(word@ =~= privmsg_word());
    if !contains(body, word.as_slice()) {
        return ParsedMessage::Other;
    }
    let c1 = match find_byte(body, COLON, 0) {
        Some(c) => c,
        None => return ParsedMessage::Other,
    };
    let c2 = match find_byte(body, COLON, c1 + 1) {
        Some(c) => c,
        None => return ParsedMessage::Other,
    };
    let source = slice_subrange(body, c1 + 1, c2);
    let user = match find_byte(source, BANG, 0) {
        Some(k) => slice_subrange(source, 0, k),
        None => source,
    };
    let text = slice_subrange(body, c2 + 1, body.len());
    let username = match text_from_utf8(slice_to_vec(user)) {
        Some(u) => u,
        None => return ParsedMessage::Other,
    };
    let message = match text_from_utf8(slice_to_vec(text)) {
        Some(t) => t,
        None => return ParsedMessage::Other,
    };
    ParsedMessage::ChannelMessage(Message { username, message })
}

} // verus!
