use vstd::prelude::*;
use vstd::slice::slice_to_vec;
use vstd::string::{StrSliceExecFns, StringExecFns};
use vstd::utf8::encode_utf8;

use crate::command::{reply_for, words, Command};
use crate::error::ClientErrors;
use crate::framer::{frame_bytes, frames_view, lemma_frame_chunks, LineFramer, CR, LF};
use crate::parser::{parse_line, parse_message, ParsedMessage, ParsedView};

verus! {

/// The longest line, in bytes, that the client accepts from the server.
pub const MAX_LINE: usize = 8192;

/// Where the client stands in its lifecycle.
#[derive(Debug, Clone, Copy, PartialEq, Eq, Structural)]
pub enum ConnectionState {
    Disconnected,
    Connected,
    Authenticated,
    Joined,
    Serving,
    Closed,
}

/// The states in which the transport is up.
pub open spec fn is_open(s: ConnectionState) -> bool {
    match s {
        ConnectionState::Connected | ConnectionState::Authenticated | ConnectionState::Joined
        | ConnectionState::Serving => true,
        _ => false,
    }
}

/// What the transport reports back to the client.
#[derive(Debug, Clone, PartialEq, Eq)]
pub enum Event {
    /// The connection was opened.
    Connected,
    /// The connection could not be opened.
    ConnectFailed,
    /// The line last asked for was written and flushed.
    Sent,
    /// Writing or flushing the line last asked for failed.
    SendFailed(ClientErrors),
    /// Bytes were read; none means the peer closed the connection.
    Received(Vec<u8>),
    /// Reading failed.
    ReadFailed,
}

/// What the client asks the transport to do next.
#[derive(Debug, Clone, PartialEq, Eq)]
pub enum Action {
    /// Open the connection.
    Connect,
    /// Write these bytes, then flush.
    Send(Vec<u8>),
    /// Read whatever the server sends next.
    Read,
    /// Nothing is queued: the handshake has yet to be started.
    Idle,
    /// The client is closed, for this reason.
    Stop(ClientErrors),
}

pub enum EventView {
    Connected,
    ConnectFailed,
    Sent,
    SendFailed(ClientErrors),
    Received(Seq<u8>),
    ReadFailed,
}

pub enum ActionView {
    Connect,
    Send(Seq<u8>),
    Read,
    Idle,
    Stop(ClientErrors),
}

impl View for Event {
    type V = EventView;

    open spec fn view(&self) -> EventView {
        match self {
            Event::Connected => EventView::Connected,
            Event::ConnectFailed => EventView::ConnectFailed,
            Event::Sent => EventView::Sent,
            Event::SendFailed(e) => EventView::SendFailed(*e),
            Event::Received(b) => EventView::Received(b@),
            Event::ReadFailed => EventView::ReadFailed,
        }
    }
}

impl View for Action {
    type V = ActionView;

    open spec fn view(&self) -> ActionView {
        match self {
            Action::Connect => ActionView::Connect,
            Action::Send(b) => ActionView::Send(b@),
            Action::Read => ActionView::Read,
            Action::Idle => ActionView::Idle,
            Action::Stop(e) => ActionView::Stop(*e),
        }
    }
}

/// A line waiting to be written, and the state reached once it is.
struct Outgoing {
    line: Vec<u8>,
    reached: Option<ConnectionState>,
}

/// The client as a value: its state, why it closed, its channel, where it
/// connects, the nickname and password it logs in with once connected (if
/// given), the lines waiting to be written (each with the state reached once
/// it is), and its framer.
pub struct ClientView {
    pub state: ConnectionState,
    pub failure: ClientErrors,
    pub channel: Seq<char>,
    pub target: Seq<char>,
    pub login: Option<(Seq<char>, Seq<char>)>,
    pub outbox: Seq<(Seq<u8>, Option<ConnectionState>)>,
    pub framer: (Seq<u8>, bool),
    pub max_len: nat,
}

/// A bot client for one channel, driven by events and answering with actions.
pub struct Client {
    state: ConnectionState,
    failure: ClientErrors,
    target: String,
    server: String,
    login: Option<(String, String)>,
    framer: LineFramer,
    outbox: Vec<Outgoing>,
}

/// Text as sent on the wire: its UTF-8 bytes and a carriage return and line feed.
pub open spec fn wire(text: Seq<char>) -> Seq<u8> {
    encode_utf8(text) + seq![CR, LF]
}

/// `PONG ` in ASCII.
pub open spec fn pong_prefix() -> Seq<u8> {
    seq![80u8, 79, 78, 71, 32]
}

/// The answer to a keep-alive with this token.
pub open spec fn pong_line(token: Seq<u8>) -> Seq<u8> {
    pong_prefix() + token + seq![CR, LF]
}

/// The text of a message to the channel.
pub open spec fn channel_text(channel: Seq<char>, text: Seq<char>) -> Seq<char> {
    "PRIVMSG #"@ + channel + " :"@ + text
}

/// The bot's answer to a channel message with this text, if any.
pub open spec fn command_reply(text: Seq<char>) -> Option<Seq<char>> {
    let ws = words(text);
    if ws.len() == 0 {
        None
    } else {
        reply_for(ws[0], ws.drop_first())
    }
}

/// The lines the client writes in answer to one parsed line.
pub open spec fn response(channel: Seq<char>, m: ParsedView) -> Seq<Seq<u8>> {
    match m {
        ParsedView::Ping(token) => seq![pong_line(token)],
        ParsedView::ChannelMessage(_, text) => match command_reply(text) {
            Some(reply) => seq![wire(channel_text(channel, reply))],
            None => seq![],
        },
        ParsedView::Other => seq![],
    }
}

/// The lines the client writes in answer to one framed line; an oversized
/// line gets none.
pub open spec fn response_to(channel: Seq<char>, r: Result<ParsedView, ClientErrors>) -> Seq<Seq<u8>> {
    match r {
        Ok(m) => response(channel, m),
        Err(_) => seq![],
    }
}

/// The lines the client writes in answer to framed lines, in order.
pub open spec fn responses(channel: Seq<char>, rs: Seq<Result<ParsedView, ClientErrors>>) -> Seq<Seq<u8>>
    decreases rs.len(),
{
    if rs.len() == 0 {
        seq![]
    } else {
        responses(channel, rs.drop_last()) + response_to(channel, rs.last())
    }
}

/// A framed line, parsed.
pub open spec fn parsed_frame(f: Result<Seq<u8>, ClientErrors>) -> Result<ParsedView, ClientErrors> {
    match f {
        Ok(line) => Ok(parse_line(line)),
        Err(e) => Err(e),
    }
}

pub open spec fn parse_frames(fs: Seq<Result<Seq<u8>, ClientErrors>>) -> Seq<Result<ParsedView, ClientErrors>> {
    fs.map_values(|f: Result<Seq<u8>, ClientErrors>| parsed_frame(f))
}

pub open spec fn result_view(r: Result<ParsedMessage, ClientErrors>) -> Result<ParsedView, ClientErrors> {
    match r {
        Ok(m) => Ok(m@),
        Err(e) => Err(e),
    }
}

pub open spec fn results_view(rs: Seq<Result<ParsedMessage, ClientErrors>>) -> Seq<Result<ParsedView, ClientErrors>> {
    rs.map_values(|r: Result<ParsedMessage, ClientErrors>| result_view(r))
}

/// The first failure among framed lines, if any.
pub open spec fn first_err(rs: Seq<Result<ParsedView, ClientErrors>>) -> Option<ClientErrors>
    decreases rs.len(),
{
    if rs.len() == 0 {
        None
    } else {
        match rs[0] {
            Err(e) => Some(e),
            Ok(_) => first_err(rs.drop_first()),
        }
    }
}

/// Lines queued without a change of state.
pub open spec fn plain(lines: Seq<Seq<u8>>) -> Seq<(Seq<u8>, Option<ConnectionState>)> {
    lines.map_values(|l: Seq<u8>| (l, None::<ConnectionState>))
}

/// The client closed: nothing more is written; the first failure is kept.
pub open spec fn closed_with(v: ClientView, e: ClientErrors) -> ClientView {
    ClientView {
        state: ConnectionState::Closed,
        failure: if v.state == ConnectionState::Closed { v.failure } else { e },
        outbox: seq![],
        ..v
    }
}

/// The client with one more line queued.
pub open spec fn queued(v: ClientView, line: Seq<u8>, reached: Option<ConnectionState>) -> ClientView {
    ClientView { outbox: v.outbox.push((line, reached)), ..v }
}

/// The client after reading `bytes`, and the lines they complete, parsed,
/// with an oversized line's error in its place.
pub open spec fn read_bytes(v: ClientView, bytes: Seq<u8>) -> (ClientView, Seq<Result<ParsedView, ClientErrors>>) {
    let f = frame_bytes(v.max_len, v.framer, bytes);
    (ClientView { framer: f.0, ..v }, parse_frames(f.1))
}

/// The client with the handshake queued: the password, the nickname (after
/// which it is authenticated), and joining its channel (after which it has
/// joined).
pub open spec fn handshake_queued(v: ClientView, nickname: Seq<char>, password: Seq<char>) -> ClientView {
    queued(
        queued(
            queued(v, wire("PASS "@ + password), None),
            wire("NICK "@ + nickname),
            Some(ConnectionState::Authenticated),
        ),
        wire("JOIN #"@ + v.channel),
        Some(ConnectionState::Joined),
    )
}

/// The client after an event.
pub open spec fn on_event(v: ClientView, e: EventView) -> ClientView {
    if v.state == ConnectionState::Closed {
        v
    } else {
        match e {
            EventView::Connected => if v.state == ConnectionState::Disconnected {
                let up = ClientView { state: ConnectionState::Connected, ..v };
                match v.login {
                    Some((nickname, password)) => handshake_queued(up, nickname, password),
                    None => up,
                }
            } else {
                v
            },
            EventView::ConnectFailed => closed_with(v, ClientErrors::ConnectionError),
            EventView::Sent => if v.outbox.len() > 0 {
                ClientView {
                    state: match v.outbox[0].1 {
                        Some(s) => s,
                        None => v.state,
                    },
                    outbox: v.outbox.drop_first(),
                    ..v
                }
            } else {
                v
            },
            EventView::SendFailed(err) => closed_with(v, err),
            EventView::Received(bytes) => if !is_open(v.state) {
                closed_with(v, ClientErrors::ConnectionError)
            } else if bytes.len() == 0 {
                closed_with(v, ClientErrors::EndOfStream)
            } else {
                let (after, rs) = read_bytes(v, bytes);
                match first_err(rs) {
                    Some(err) => closed_with(after, err),
                    None => ClientView { outbox: after.outbox + plain(responses(v.channel, rs)), ..after },
                }
            },
            EventView::ReadFailed => closed_with(v, ClientErrors::ReadError),
        }
    }
}

/// What the client asks for next, and the state it is then in: a closed
/// client stops, an unconnected one connects, queued lines are written first
/// to last, and a joined client starts serving, which is reading.
pub open spec fn next_step(v: ClientView) -> (ClientView, ActionView) {
    if v.state == ConnectionState::Closed {
        (v, ActionView::Stop(v.failure))
    } else if v.state == ConnectionState::Disconnected {
        (v, ActionView::Connect)
    } else if v.outbox.len() > 0 {
        (v, ActionView::Send(v.outbox[0].0))
    } else if v.state == ConnectionState::Joined || v.state == ConnectionState::Serving {
        (ClientView { state: ConnectionState::Serving, ..v }, ActionView::Read)
    } else {
        (v, ActionView::Idle)
    }
}

impl View for Client {
    type V = ClientView;

    closed spec fn view(&self) -> ClientView {
        ClientView {
            state: self.state,
            failure: self.failure,
            channel: self.server@,
            target: self.target@,
            login: match &self.login {
                Some(l) => Some((l.0@, l.1@)),
                None => None,
            },
            outbox: self.outbox@.map_values(|o: Outgoing| (o.line@, o.reached)),
            framer: self.framer.state(),
            max_len: self.framer.max_len(),
        }
    }
}

/// `text` as it goes on the wire.
fn wire_bytes(text: &str) -> (r: Vec<u8>)
    ensures
        r@ == wire(text@),
{
    let mut v = text.as_bytes_vec();
    v.push(CR);
    v.push(LF);
    assert(v@ =~= wire(text@));
    v
}

impl Client {
    /// A client, not yet connected, for the server at `address` and `port`
    /// and the channel `server`.
    pub fn new(address: &str, port: &str, server: &str) -> (r: Client)
        ensures
            r@.state == ConnectionState::Disconnected,
            r@.channel == server@,
            r@.target == address@ + ":"@ + port@,
            r@.outbox == Seq::<(Seq<u8>, Option<ConnectionState>)>::empty(),
            r@.login is None,
            r@.framer == (Seq::<u8>::empty(), false),
            r@.max_len == MAX_LINE,
    {
        let mut target = String::from_str(address);
        target.append(":");
        target.append(port);
        let r = Client {
            state: ConnectionState::Disconnected,
            failure: ClientErrors::ConnectionError,
            target,
            server: String::from_str(server),
            login: None,
            framer: LineFramer::new(MAX_LINE),
            outbox: Vec::new(),
        };
        assert(r@.outbox =~= Seq::<(Seq<u8>, Option<ConnectionState>)>::empty());
        r
    }

    /// Like `new`, for a client that logs in as `nickname` with `password`
    /// and joins its channel as soon as it is connected.
    pub fn with_credentials(address: &str, port: &str, server: &str, nickname: &str, password: &str) -> (r: Client)
        ensures
            r@.state == ConnectionState::Disconnected,
            r@.channel == server@,
            r@.target == address@ + ":"@ + port@,
            r@.login == Some((nickname@, password@)),
            r@.outbox == Seq::<(Seq<u8>, Option<ConnectionState>)>::empty(),
            r@.framer == (Seq::<u8>::empty(), false),
            r@.max_len == MAX_LINE,
    {
        let mut r = Client::new(address, port, server);
        r.login = Some((String::from_str(nickname), String::from_str(password)));
        r
    }

    /// Where to connect: the address and the port, joined by `:`.
    pub fn target(&self) -> (r: String)
        ensures
            r@ == self@.target,
    {
        self.target.clone()
    }

    /// Where the client stands.
    pub fn state(&self) -> (r: ConnectionState)
        ensures
            r == self@.state,
    {
        self.state
    }

    fn close(&mut self, e: ClientErrors)
        ensures
            final(self)@ == closed_with(old(self)@, e),
    {
        if self.state != ConnectionState::Closed {
            self.failure = e;
        }
        self.state = ConnectionState::Closed;
        self.outbox = Vec::new();
        assert(self@.outbox =~= Seq::<(Seq<u8>, Option<ConnectionState>)>::empty());
    }

    fn queue(&mut self, line: Vec<u8>, reached: Option<ConnectionState>)
        ensures
            final(self)@ == queued(old(self)@, line@, reached),
    {
        let ghost before = self@;
        self.outbox.push(Outgoing { line, reached });
        assert(self@.outbox =~= before.outbox.push((line@, reached)));
    }

    /// Queues `message` as one line to write.
    pub fn say(&mut self, message: &str) -> (r: Result<(), ClientErrors>)
        ensures
            is_open(old(self)@.state) ==> r is Ok && final(self)@ == queued(
                old(self)@,
                wire(message@),
                None,
            ),
            !is_open(old(self)@.state) ==> r == Err::<(), ClientErrors>(ClientErrors::ConnectionError)
                && final(self)@ == closed_with(old(self)@, ClientErrors::ConnectionError),
    {
        if !self.is_up() {
            self.close(ClientErrors::ConnectionError);
            return Err(ClientErrors::ConnectionError);
        }
        self.queue(wire_bytes(message), None);
        Ok(())
    }

    fn is_up(&self) -> (r: bool)
        ensures
            r == is_open(self@.state),
    {
        match self.state {
            ConnectionState::Connected | ConnectionState::Authenticated | ConnectionState::Joined
            | ConnectionState::Serving => true,
            _ => false,
        }
    }

    /// Queues `message` as a message to the channel.
    pub fn private_message(&mut self, message: &str) -> (r: Result<(), ClientErrors>)
        ensures
            is_open(old(self)@.state) ==> r is Ok && final(self)@ == queued(
                old(self)@,
                wire(channel_text(old(self)@.channel, message@)),
                None,
            ),
            !is_open(old(self)@.state) ==> r == Err::<(), ClientErrors>(ClientErrors::ConnectionError)
                && final(self)@ == closed_with(old(self)@, ClientErrors::ConnectionError),
    {
        let mut text = String::from_str("PRIVMSG #");
        text.append(self.server.as_str());
        text.append(" :");
        text.append(message);
        self.say(text.as_str())
    }

    /// Queues the authentication: the password, then the nickname. The
    /// client is authenticated once both are written. Only a connected client
    /// that has not authenticated yet can do this.
    pub fn auth(&mut self, nickname: &str, password: &str) -> (r: Result<(), ClientErrors>)
        ensures
            old(self)@.state == ConnectionState::Connected ==> r is Ok && final(self)@ == queued(
                queued(old(self)@, wire("PASS "@ + password@), None),
                wire("NICK "@ + nickname@),
                Some(ConnectionState::Authenticated),
            ),
            old(self)@.state != ConnectionState::Connected ==> r == Err::<(), ClientErrors>(
                ClientErrors::ConnectionError,
            ) && final(self)@ == closed_with(old(self)@, ClientErrors::ConnectionError),
    {
        if self.state != ConnectionState::Connected {
            self.close(ClientErrors::ConnectionError);
            return Err(ClientErrors::ConnectionError);
        }
        let mut pass = String::from_str("PASS ");
        pass.append(password);
        let mut nick = String::from_str("NICK ");
        nick.append(nickname);
        self.queue(wire_bytes(pass.as_str()), None);
        self.queue(wire_bytes(nick.as_str()), Some(ConnectionState::Authenticated));
        Ok(())
    }

    /// Queues joining the channel; the client has joined once it is written.
    /// A connected client can do this, before or after authenticating.
    pub fn join(&mut self) -> (r: Result<(), ClientErrors>)
        ensures
            old(self)@.state == ConnectionState::Connected || old(self)@.state
                == ConnectionState::Authenticated ==> r is Ok && final(self)@ == queued(
                old(self)@,
                wire("JOIN #"@ + old(self)@.channel),
                Some(ConnectionState::Joined),
            ),
            !(old(self)@.state == ConnectionState::Connected || old(self)@.state
                == ConnectionState::Authenticated) ==> r == Err::<(), ClientErrors>(
                ClientErrors::ConnectionError,
            ) && final(self)@ == closed_with(old(self)@, ClientErrors::ConnectionError),
    {
        if self.state != ConnectionState::Connected && self.state
            != ConnectionState::Authenticated {
            self.close(ClientErrors::ConnectionError);
            return Err(ClientErrors::ConnectionError);
        }
        let mut text = String::from_str("JOIN #");
        text.append(self.server.as_str());
        self.queue(wire_bytes(text.as_str()), Some(ConnectionState::Joined));
        Ok(())
    }

    /// Queues the whole handshake: authentication, then joining the channel.
    pub fn handshake(&mut self, nickname: &str, password: &str) -> (r: Result<(), ClientErrors>)
        ensures
            old(self)@.state == ConnectionState::Connected ==> r is Ok && final(self)@
                == handshake_queued(old(self)@, nickname@, password@),
            old(self)@.state != ConnectionState::Connected ==> r == Err::<(), ClientErrors>(
                ClientErrors::ConnectionError,
            ) && final(self)@ == closed_with(old(self)@, ClientErrors::ConnectionError),
    {
        match self.auth(nickname, password) {
            Ok(()) => self.join(),
            Err(e) => Err(e),
        }
    }

    /// Queues the answer to a keep-alive with this token.
    pub fn handle_ping(&mut self, token: &[u8]) -> (r: Result<(), ClientErrors>)
        ensures
            is_open(old(self)@.state) ==> r is Ok && final(self)@ == queued(
                old(self)@,
                pong_line(token@),
                None,
            ),
            !is_open(old(self)@.state) ==> r == Err::<(), ClientErrors>(ClientErrors::ConnectionError)
                && final(self)@ == closed_with(old(self)@, ClientErrors::ConnectionError),
    {
        if !self.is_up() {
            self.close(ClientErrors::ConnectionError);
            return Err(ClientErrors::ConnectionError);
        }
        let mut line: Vec<u8> = Vec::new();
        line.push(80);
        line.push(79);
        line.push(78);
        line.push(71);
        line.push(32);
        let mut rest = slice_to_vec(token);
        line.append(&mut rest);
        line.push(CR);
        line.push(LF);
        assert(line@ =~= pong_line(token@));
        self.queue(line, None);
        Ok(())
    }

    /// Takes bytes read from the server and returns the lines they complete,
    /// parsed, in order; a line the framer refused as oversized gives
    /// `Err(OversizedLineError)` in its place, and the framer resumes after
    /// its end. Zero bytes mean that the server closed the connection: the
    /// client closes and the result is `EndOfStream`.
    pub fn read_message(&mut self, received: &[u8]) -> (r: Result<Vec<Result<ParsedMessage, ClientErrors>>, ClientErrors>)
        ensures
            !is_open(old(self)@.state) ==> r == Err::<Vec<Result<ParsedMessage, ClientErrors>>, ClientErrors>(
                ClientErrors::ConnectionError,
            ) && final(self)@ == closed_with(old(self)@, ClientErrors::ConnectionError),
            is_open(old(self)@.state) && received@.len() == 0 ==> r == Err::<
                Vec<Result<ParsedMessage, ClientErrors>>,
                ClientErrors,
            >(ClientErrors::EndOfStream) && final(self)@ == closed_with(
                old(self)@,
                ClientErrors::EndOfStream,
            ),
            is_open(old(self)@.state) && received@.len() > 0 ==> (r matches Ok(ms)
                && results_view(ms@) == read_bytes(old(self)@, received@).1)
                && final(self)@ == read_bytes(old(self)@, received@).0,
    {
        if !self.is_up() {
            self.close(ClientErrors::ConnectionError);
            return Err(ClientErrors::ConnectionError);
        }
        if received.len() == 0 {
            self.close(ClientErrors::EndOfStream);
            return Err(ClientErrors::EndOfStream);
        }
        let frames = self.framer.feed(received);
        let ghost fs = frames_view(frames@);
        let mut out: Vec<Result<ParsedMessage, ClientErrors>> = Vec::new();
        let mut i: usize = 0;
        assert(results_view(out@) =~= parse_frames(fs.take(0)));
        while i < frames.len()
            invariant
                i <= frames@.len(),
                fs == frames_view(frames@),
                results_view(out@) == parse_frames(fs.take(i as int)),
            decreases frames@.len() - i,
        {
            let ghost before = results_view(out@);
            let r = match &frames[i] {
                Ok(line) => Ok(parse_message(line.as_slice())),
                Err(e) => Err(*e),
            };
            out.push(r);
            assert(results_view(out@) =~= before.push(result_view(r)));
            assert(parse_frames(fs.take(i + 1)) =~= parse_frames(fs.take(i as int)).push(
                parsed_frame(fs[i as int]),
            ));
            i = i + 1;
        }
        assert(fs.take(frames@.len() as int) =~= fs);
        Ok(out)
    }

    /// Queues the bot's answer to one framed line.
    fn answer(&mut self, r: &Result<ParsedMessage, ClientErrors>)
        requires
            is_open(old(self)@.state),
        ensures
            final(self)@ == (ClientView {
                outbox: old(self)@.outbox + plain(response_to(old(self)@.channel, result_view(*r))),
                ..old(self)@
            }),
    {
        let ghost before = self@;
        let m = match r {
            Ok(m) => m,
            Err(_) => {
                assert(before.outbox + plain(response_to(before.channel, result_view(*r))) =~= before.outbox);
                return;
            },
        };
        match m {
            ParsedMessage::Ping { token } => {
                let _ = self.handle_ping(token.as_slice());
                assert(self@.outbox =~= before.outbox + plain(response_to(before.channel, result_view(*r))));
            },
            ParsedMessage::ChannelMessage(msg) => {
                match Command::from_text(msg.message.as_str()) {
                    Some(cmd) => match cmd.dispatch() {
                        Some(reply) => {
                            let _ = self.private_message(reply.as_str());
                            assert(self@.outbox =~= before.outbox + plain(response_to(before.channel, result_view(*r))));
                        },
                        None => {
                            assert(before.outbox + plain(response_to(before.channel, result_view(*r))) =~= before.outbox);
                        },
                    },
                    None => {
                        assert(before.outbox + plain(response_to(before.channel, result_view(*r))) =~= before.outbox);
                    },
                }
            },
            ParsedMessage::Other => {
                assert(before.outbox + plain(response_to(before.channel, result_view(*r))) =~= before.outbox);
            },
        }
    }

    /// What to do next (see `next_step`).
    pub fn next_action(&mut self) -> (r: Action)
        ensures
            (final(self)@, r@) == next_step(old(self)@),
    {
        if self.state == ConnectionState::Closed {
            Action::Stop(self.failure)
        } else if self.state == ConnectionState::Disconnected {
            Action::Connect
        } else if self.outbox.len() > 0 {
            Action::Send(slice_to_vec(self.outbox[0].line.as_slice()))
        } else if self.state == ConnectionState::Joined || self.state == ConnectionState::Serving {
            self.state = ConnectionState::Serving;
            Action::Read
        } else {
            Action::Idle
        }
    }
}

/// The first failure among framed lines, if any.
fn first_failure(results: &Vec<Result<ParsedMessage, ClientErrors>>) -> (r: Option<ClientErrors>)
    ensures
        r == first_err(results_view(results@)),
{
    let ghost rs = results_view(results@);
    let mut i: usize = 0;
    assert(rs.skip(0) =~= rs);
    while i < results.len()
        invariant
            i <= results@.len(),
            rs == results_view(results@),
            first_err(rs) == first_err(rs.skip(i as int)),
        decreases results@.len() - i,
    {
        if let Err(e) = &results[i] {
            return Some(*e);
        }
        assert(rs.skip(i as int).drop_first() =~= rs.skip(i + 1));
        i = i + 1;
    }
    assert(rs.skip(i as int) =~= Seq::<Result<ParsedView, ClientErrors>>::empty());
    None
}

/// Runs the bot for one event: the client takes what the transport reports
/// and says what to do next. A client given credentials queues its handshake
/// as soon as it is connected. Keep-alives are answered and channel commands
/// dispatched in the order their lines arrived; any failure, an oversized
/// line included, closes the client, which then stops with the first failure.
pub fn run(client: &mut Client, event: Event) -> (r: Action)
    ensures
        (final(client)@, r@) == next_step(on_event(old(client)@, event@)),
{
    if client.state == ConnectionState::Closed {
        return client.next_action();
    }
    match event {
        Event::Connected => {
            if client.state == ConnectionState::Disconnected {
                client.state = ConnectionState::Connected;
                let login = match &client.login {
                    Some(l) => Some((l.0.clone(), l.1.clone())),
                    None => None,
                };
                if let Some((nickname, password)) = login {
                    let _ = client.handshake(nickname.as_str(), password.as_str());
                }
            }
        },
        Event::ConnectFailed => client.close(ClientErrors::ConnectionError),
        Event::Sent => {
            if client.outbox.len() > 0 {
                let ghost before = client@;
                let sent = client.outbox.remove(0);
                if let Some(s) = sent.reached {
                    client.state = s;
                }
                assert(client@.outbox =~= before.outbox.drop_first());
            }
        },
        Event::SendFailed(e) => client.close(e),
        Event::Received(bytes) => {
            if let Ok(results) = client.read_message(bytes.as_slice()) {
                match first_failure(&results) {
                    Some(e) => client.close(e),
                    None => {
                        let ghost base = client@;
                        let ghost rs = results_view(results@);
                        let mut i: usize = 0;
                        assert(rs.take(0) =~= Seq::<Result<ParsedView, ClientErrors>>::empty());
                        assert(base.outbox + plain(responses(base.channel, rs.take(0))) =~= base.outbox);
                        while i < results.len()
                            invariant
                                i <= results@.len(),
                                rs == results_view(results@),
                                is_open(base.state),
                                client@ == (ClientView {
                                    outbox: base.outbox + plain(responses(base.channel, rs.take(i as int))),
                                    ..base
                                }),
                            decreases results@.len() - i,
                        {
                            client.answer(&results[i]);
                            assert(rs.take(i + 1).drop_last() =~= rs.take(i as int));
                            assert(plain(responses(base.channel, rs.take(i + 1))) =~= plain(
                                responses(base.channel, rs.take(i as int)),
                            ) + plain(response_to(base.channel, result_view(results@[i as int]))));
                            assert(base.outbox + plain(responses(base.channel, rs.take(i + 1))) =~= (
                            base.outbox + plain(responses(base.channel, rs.take(i as int)))) + plain(
                                response_to(base.channel, result_view(results@[i as int])),
                            ));
                            i = i + 1;
                        }
                        assert(rs.take(results@.len() as int) =~= rs);
                    },
                }
            }
        },
        Event::ReadFailed => client.close(ClientErrors::ReadError),
    }
    client.next_action()
}

/// Parsing framed lines keeps their order and splits over a concatenation.
proof fn lemma_parse_frames_concat(x: Seq<Result<Seq<u8>, ClientErrors>>, y: Seq<Result<Seq<u8>, ClientErrors>>)
    ensures
        parse_frames(x + y) == parse_frames(x) + parse_frames(y),
{
    assert(parse_frames(x + y) =~= parse_frames(x) + parse_frames(y));
}

/// The answers to two runs of framed lines are the answers to each, in order.
proof fn lemma_responses_concat(
    channel: Seq<char>,
    x: Seq<Result<ParsedView, ClientErrors>>,
    y: Seq<Result<ParsedView, ClientErrors>>,
)
    ensures
        responses(channel, x + y) == responses(channel, x) + responses(channel, y),
    decreases y.len(),
{
    if y.len() == 0 {
        assert(x + y =~= x);
        assert(responses(channel, x) + seq![] =~= responses(channel, x));
    } else {
        lemma_responses_concat(channel, x, y.drop_last());
        assert((x + y).drop_last() =~= x + y.drop_last());
        assert((x + y).last() == y.last());
        assert(responses(channel, x) + responses(channel, y.drop_last()) + response_to(channel, y.last())
            =~= responses(channel, x) + (responses(channel, y.drop_last()) + response_to(channel, y.last())));
    }
}

/// Two runs of framed lines hold no failure exactly when neither does.
proof fn lemma_first_err_concat(x: Seq<Result<ParsedView, ClientErrors>>, y: Seq<Result<ParsedView, ClientErrors>>)
    ensures
        first_err(x + y) is None <==> first_err(x) is None && first_err(y) is None,
    decreases x.len(),
{
    if x.len() == 0 {
        assert(x + y =~= y);
    } else {
        assert((x + y)[0] == x[0]);
        assert((x + y).drop_first() =~= x.drop_first() + y);
        lemma_first_err_concat(x.drop_first(), y);
    }
}

/// Reading does not depend on where the stream was cut: reading `a` and then
/// `b` leaves the client as reading `a + b` at once does, and gives the same
/// parsed lines, in the same order.
pub proof fn lemma_read_chunks(v: ClientView, a: Seq<u8>, b: Seq<u8>)
    ensures
        ({
            let (v1, r1) = read_bytes(v, a);
            let (v2, r2) = read_bytes(v1, b);
            read_bytes(v, a + b) == (v2, r1 + r2)
        }),
{
    lemma_frame_chunks(v.max_len, v.framer, a, b);
    let f1 = frame_bytes(v.max_len, v.framer, a);
    let f2 = frame_bytes(v.max_len, f1.0, b);
    lemma_parse_frames_concat(f1.1, f2.1);
}

/// A serving client answers the same lines in the same order however the
/// server's bytes are cut into reads: two reads, `a` then `b`, leave it as
/// one read of `a + b` does, where no line in them is oversized.
pub proof fn lemma_serve_chunks(v: ClientView, a: Seq<u8>, b: Seq<u8>)
    requires
        is_open(v.state),
        a.len() > 0,
        b.len() > 0,
        first_err(read_bytes(v, a + b).1) is None,
    ensures
        on_event(on_event(v, EventView::Received(a)), EventView::Received(b)) == on_event(
            v,
            EventView::Received(a + b),
        ),
{
    lemma_read_chunks(v, a, b);
    let (v1, r1) = read_bytes(v, a);
    let (v2, r2) = read_bytes(v1, b);
    lemma_first_err_concat(r1, r2);
    lemma_responses_concat(v.channel, r1, r2);
    let plain_all = plain(responses(v.channel, r1 + r2));
    assert(plain_all =~= plain(responses(v.channel, r1)) + plain(responses(v.channel, r2)));
    assert(v.outbox + plain(responses(v.channel, r1)) + plain(responses(v.channel, r2)) =~= v.outbox
        + plain_all);
}

/// A read of zero bytes closes a client whose connection is up, and the
/// client then stops, reporting `EndOfStream`.
pub proof fn lemma_end_of_stream_closes(v: ClientView)
    requires
        is_open(v.state),
    ensures
        ({
            let (after, act) = next_step(on_event(v, EventView::Received(seq![])));
            after.state == ConnectionState::Closed && act == ActionView::Stop(ClientErrors::EndOfStream)
        }),
{
}

} // verus!
