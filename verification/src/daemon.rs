//! Talking to a running app server: probing it, and relaying lines between
//! standard streams and its control socket.

use vstd::prelude::*;
use crate::text::{first_pos, split_once, split_words, texts, words};

verus! {

/// How long the server may take to answer, in seconds.
pub const CONTROL_SOCKET_RESPONSE_TIMEOUT_SEC: u64 = 2;

/// The number of the request that starts a conversation.
pub const INITIALIZE_REQUEST_ID: i64 = 1;

/// How many answers to pings are kept until they are sent.
pub const PONG_CHANNEL_CAPACITY: usize = 8;

/// What probing a server shows.
#[derive(Debug)]
pub struct ProbeInfo {
    pub app_server_version: String,
}

/// The first word behind the first slash of a user agent.
pub open spec fn agent_version(user_agent: Seq<char>) -> Option<Seq<char>> {
    let found = words(user_agent.skip((first_pos(user_agent, '/') + 1) as int));
    if user_agent.contains('/') && found.len() > 0 {
        Some(found[0])
    } else {
        None
    }
}

/// The version that a user agent names: the first word behind its first
/// slash.
pub fn parse_version_from_user_agent(user_agent: &str) -> (result: Result<String, String>)
    ensures
        result is Ok <==> agent_version(user_agent@) is Some,
        match result {
            Ok(version) => agent_version(user_agent@) == Some(version@),
            Err(error) => error@ == (if user_agent@.contains('/') {
                "app-server user-agent omitted version"@
            } else {
                "app-server user-agent omitted version separator"@
            }),
        },
{
    match split_once(user_agent, '/') {
        Some((_originator, rest)) => {
            let found = split_words(rest);
            if found.len() == 0 {
                assert(texts(found@).len() == 0);
                return Err("app-server user-agent omitted version".to_owned());
            }
            assert(texts(found@)[0] == found@[0]@);
            Ok(found[0].clone())
        },
        None => Err("app-server user-agent omitted version separator".to_owned()),
    }
}

/// A frame of a web socket.
#[derive(Debug)]
pub enum SocketFrame {
    Text(String),
    Binary,
    Ping(Vec<u8>),
    Pong,
    Close,
    Frame,
}

/// What a relay does about what the server sends.
#[derive(Debug)]
pub enum ProxyOutputAction {
    /// Write this, and see that it gets through.
    Write(String),
    /// Answer a ping with the same payload.
    AnswerPing(Vec<u8>),
    /// Nothing.
    Skip,
    /// See that everything gets through, and stop.
    Finish,
    /// Stop with an error.
    Fail,
}

/// What a relay receives from the server.
#[derive(Debug)]
pub enum ProxyReceived {
    Frame(SocketFrame),
    /// A frame could not be read.
    Broken,
    /// The stream of frames ended.
    Ended,
}

/// What a relay does about what the server sends, as a value.
pub enum OutputStep {
    Write(Seq<char>),
    AnswerPing(Seq<u8>),
    Skip,
    Finish,
    Fail,
}

impl View for ProxyOutputAction {
    type V = OutputStep;

    open spec fn view(&self) -> OutputStep {
        match *self {
            ProxyOutputAction::Write(line) => OutputStep::Write(line@),
            ProxyOutputAction::AnswerPing(payload) => OutputStep::AnswerPing(payload@),
            ProxyOutputAction::Skip => OutputStep::Skip,
            ProxyOutputAction::Finish => OutputStep::Finish,
            ProxyOutputAction::Fail => OutputStep::Fail,
        }
    }
}

/// What a relay does about what the server sends.
pub open spec fn output_step(received: ProxyReceived) -> OutputStep {
    match received {
        ProxyReceived::Frame(SocketFrame::Text(payload)) => OutputStep::Write(payload@.push('\n')),
        ProxyReceived::Frame(SocketFrame::Ping(payload)) => OutputStep::AnswerPing(payload@),
        ProxyReceived::Frame(SocketFrame::Close) => OutputStep::Finish,
        ProxyReceived::Frame(_) => OutputStep::Skip,
        ProxyReceived::Broken => OutputStep::Fail,
        ProxyReceived::Ended => OutputStep::Finish,
    }
}

/// What a relay does about what the server sends: a text becomes a line, as
/// it is; a ping is answered; the end of the stream is the end.
pub fn proxy_output_action(received: ProxyReceived) -> (result: ProxyOutputAction)
    ensures
        result@ == output_step(received),
{
    match received {
        ProxyReceived::Frame(SocketFrame::Text(payload)) => {
            let mut line = payload;
            line.push('\n');
            ProxyOutputAction::Write(line)
        },
        ProxyReceived::Frame(SocketFrame::Ping(payload)) => ProxyOutputAction::AnswerPing(payload),
        ProxyReceived::Frame(SocketFrame::Close) => ProxyOutputAction::Finish,
        ProxyReceived::Frame(_) => ProxyOutputAction::Skip,
        ProxyReceived::Broken => ProxyOutputAction::Fail,
        ProxyReceived::Ended => ProxyOutputAction::Finish,
    }
}

/// What a relay does, from the first that it receives on until it stops.
pub open spec fn output_steps(received: Seq<ProxyReceived>) -> Seq<OutputStep>
    decreases received.len(),
{
    if received.len() == 0 {
        Seq::empty()
    } else {
        let step = output_step(received[0]);
        if step is Finish || step is Fail {
            seq![step]
        } else {
            seq![step] + output_steps(received.skip(1))
        }
    }
}

/// All that is written.
pub open spec fn written(steps: Seq<OutputStep>) -> Seq<char>
    decreases steps.len(),
{
    if steps.len() == 0 {
        Seq::empty()
    } else {
        match steps[0] {
            OutputStep::Write(line) => line + written(steps.skip(1)),
            _ => written(steps.skip(1)),
        }
    }
}

/// The pings that are answered.
pub open spec fn answered(steps: Seq<OutputStep>) -> Seq<Seq<u8>>
    decreases steps.len(),
{
    if steps.len() == 0 {
        Seq::empty()
    } else {
        match steps[0] {
            OutputStep::AnswerPing(payload) => seq![payload] + answered(steps.skip(1)),
            _ => answered(steps.skip(1)),
        }
    }
}

/// What is received is the end of the server's stream: it closed, ended or
/// broke.
pub open spec fn is_stream_end(received: ProxyReceived) -> bool {
    match received {
        ProxyReceived::Frame(frame) => frame is Close,
        ProxyReceived::Broken => true,
        ProxyReceived::Ended => true,
    }
}

/// What is received before the end of the server's stream.
pub open spec fn before_end(received: Seq<ProxyReceived>) -> Seq<ProxyReceived>
    decreases received.len(),
{
    if received.len() == 0 || is_stream_end(received[0]) {
        Seq::empty()
    } else {
        seq![received[0]] + before_end(received.skip(1))
    }
}

/// The texts among what is received, in order.
pub open spec fn text_payloads(received: Seq<ProxyReceived>) -> Seq<Seq<char>>
    decreases received.len(),
{
    if received.len() == 0 {
        Seq::empty()
    } else {
        match received[0] {
            ProxyReceived::Frame(SocketFrame::Text(payload)) => seq![payload@] + text_payloads(
                received.skip(1),
            ),
            _ => text_payloads(received.skip(1)),
        }
    }
}

/// The pings among what is received, in order.
pub open spec fn ping_payloads(received: Seq<ProxyReceived>) -> Seq<Seq<u8>>
    decreases received.len(),
{
    if received.len() == 0 {
        Seq::empty()
    } else {
        match received[0] {
            ProxyReceived::Frame(SocketFrame::Ping(payload)) => seq![payload@] + ping_payloads(
                received.skip(1),
            ),
            _ => ping_payloads(received.skip(1)),
        }
    }
}

/// Texts one behind the other, with a line break behind each.
pub open spec fn as_lines(payloads: Seq<Seq<char>>) -> Seq<char>
    decreases payloads.len(),
{
    if payloads.len() == 0 {
        Seq::empty()
    } else {
        payloads[0].push('\n') + as_lines(payloads.skip(1))
    }
}

/// Whatever the server sends, what a relay writes is every text that comes
/// before the end of the stream, as it is and with a line break behind it, in
/// order, and nothing else: other frames leave no trace in the output. Every
/// ping that comes before the end is answered with its own payload, in order.
pub proof fn lemma_relay_writes_every_text(received: Seq<ProxyReceived>)
    ensures
        written(output_steps(received)) == as_lines(text_payloads(before_end(received))),
        answered(output_steps(received)) == ping_payloads(before_end(received)),
    decreases received.len(),
{
    let steps = output_steps(received);
    if received.len() > 0 {
        let rest = received.skip(1);
        lemma_relay_writes_every_text(rest);
        if is_stream_end(received[0]) {
            assert(steps.skip(1) =~= Seq::<OutputStep>::empty());
            assert(written(steps.skip(1)) =~= Seq::<char>::empty());
            assert(answered(steps.skip(1)) =~= Seq::<Seq<u8>>::empty());
            assert(text_payloads(before_end(received)) =~= Seq::<Seq<char>>::empty());
        } else {
            assert(steps.skip(1) =~= output_steps(rest));
            let counted = before_end(received);
            assert(counted.skip(1) =~= before_end(rest));
            match received[0] {
                ProxyReceived::Frame(SocketFrame::Text(payload)) => {
                    let payloads = text_payloads(counted);
                    assert(payloads.skip(1) =~= text_payloads(before_end(rest)));
                },
                _ => {},
            }
        }
    }
}

/// A relay stops at the end of the server's stream and not before: with an
/// error where the stream broke, and else with success.
pub proof fn lemma_relay_stops_at_the_end(received: Seq<ProxyReceived>)
    ensures
        ({
            let steps = output_steps(received);
            let count = before_end(received).len() as int;
            &&& count <= received.len()
            &&& if count < received.len() {
                &&& steps.len() == count + 1
                &&& steps.last() is Fail <==> received[count] is Broken
                &&& steps.last() is Finish <==> received[count] !is Broken
            } else {
                steps.len() == count
            }
            &&& forall|i: int|
                0 <= i < count ==> !((#[trigger] steps[i]) is Finish) && !(steps[i] is Fail)
        }),
    decreases received.len(),
{
    if received.len() > 0 && !is_stream_end(received[0]) {
        let rest = received.skip(1);
        lemma_relay_stops_at_the_end(rest);
        let steps = output_steps(received);
        let left = output_steps(rest);
        assert(steps =~= seq![output_step(received[0])] + left);
        let count = before_end(rest).len() as int;
        if count < rest.len() {
            assert(received[count + 1] == rest[count]);
            assert(steps.last() == left.last());
        }
        assert forall|i: int| 0 <= i < count + 1 implies !((#[trigger] steps[i]) is Finish) && !(
        steps[i] is Fail) by {
            if i > 0 {
                assert(steps[i] == left[i - 1]);
            }
        }
    }
}

/// What a relay has to send to the server.
#[derive(Debug)]
pub enum ProxyToSend {
    /// A line of the input, or its end.
    Line(Option<String>),
    /// The answer to a ping.
    Pong(Vec<u8>),
    /// The input could not be read.
    Broken,
}

/// What a relay does about what it has to send.
#[derive(Debug)]
pub enum ProxyInputAction {
    SendText(String),
    SendPong(Vec<u8>),
    /// Close the socket; the input is done.
    Close,
    /// Stop with an error.
    Fail,
}

/// What a relay does about what it has to send.
pub open spec fn input_step(to_send: ProxyToSend) -> ProxyInputAction {
    match to_send {
        ProxyToSend::Line(Some(line)) => ProxyInputAction::SendText(line),
        ProxyToSend::Line(None) => ProxyInputAction::Close,
        ProxyToSend::Pong(payload) => ProxyInputAction::SendPong(payload),
        ProxyToSend::Broken => ProxyInputAction::Fail,
    }
}

/// What a relay does about what it has to send: a line becomes a text, as it
/// is; the end of the input closes the socket.
pub fn proxy_input_action(to_send: ProxyToSend) -> (result: ProxyInputAction)
    ensures
        result == input_step(to_send),
{
    match to_send {
        ProxyToSend::Line(Some(line)) => ProxyInputAction::SendText(line),
        ProxyToSend::Line(None) => ProxyInputAction::Close,
        ProxyToSend::Pong(payload) => ProxyInputAction::SendPong(payload),
        ProxyToSend::Broken => ProxyInputAction::Fail,
    }
}

/// What a relay does about what it has to send, from the first on until it
/// stops.
pub open spec fn input_steps(to_send: Seq<ProxyToSend>) -> Seq<ProxyInputAction>
    decreases to_send.len(),
{
    if to_send.len() == 0 {
        Seq::empty()
    } else {
        let step = input_step(to_send[0]);
        if step is Close || step is Fail {
            seq![step]
        } else {
            seq![step] + input_steps(to_send.skip(1))
        }
    }
}

/// Every line of the input is sent as a text as it is, in order and each once,
/// until the input ends or breaks; nothing is sent after that.
pub proof fn lemma_relay_sends_every_line(to_send: Seq<ProxyToSend>, i: int)
    requires
        0 <= i < to_send.len(),
        forall|j: int| 0 <= j < i ==> !(input_step(#[trigger] to_send[j]) is Close) && !(input_step(
            to_send[j],
        ) is Fail),
    ensures
        i < input_steps(to_send).len(),
        input_steps(to_send)[i] == input_step(to_send[i]),
        input_step(to_send[i]) is Close || input_step(to_send[i]) is Fail ==> input_steps(
            to_send,
        ).len() == i + 1,
    decreases i,
{
    if i > 0 {
        let rest = to_send.skip(1);
        assert(!(input_step(to_send[0]) is Close));
        assert forall|j: int| 0 <= j < i - 1 implies !(input_step(#[trigger] rest[j]) is Close) && !(
        input_step(rest[j]) is Fail) by {
            assert(rest[j] == to_send[j + 1]);
        }
        lemma_relay_sends_every_line(rest, i - 1);
        assert(rest[i - 1] == to_send[i]);
    }
}

/// Which direction of a relay came to its end.
#[derive(Clone, Copy, Debug, PartialEq, Eq, Structural)]
pub enum ProxyEnd {
    Output { ok: bool },
    Input { ok: bool },
}

/// What becomes of a relay when one direction came to its end.
#[derive(Clone, Copy, Debug, PartialEq, Eq, Structural)]
pub enum ProxyNext {
    Succeed,
    Fail,
    /// What the server still sends is relayed first.
    AwaitOutput,
}

/// What becomes of a relay when one direction came to its end.
pub open spec fn relay_next(end: ProxyEnd) -> ProxyNext {
    match end {
        ProxyEnd::Output { ok } => if ok {
            ProxyNext::Succeed
        } else {
            ProxyNext::Fail
        },
        ProxyEnd::Input { ok } => if ok {
            ProxyNext::AwaitOutput
        } else {
            ProxyNext::Fail
        },
    }
}

/// What becomes of a relay when one direction came to its end: it ends with
/// the output. When the input is done, the output still goes on.
pub fn proxy_next(end: ProxyEnd) -> (result: ProxyNext)
    ensures
        result == relay_next(end),
{
    match end {
        ProxyEnd::Output { ok: true } => ProxyNext::Succeed,
        ProxyEnd::Input { ok: true } => ProxyNext::AwaitOutput,
        _ => ProxyNext::Fail,
    }
}

/// The identity of a request.
#[derive(Debug)]
pub enum RequestId {
    Integer(i64),
    Text(String),
}

/// What a client says of itself at the start of a conversation.
#[derive(Debug)]
pub struct InitializeParams {
    pub client_name: String,
    pub client_title: String,
    pub client_version: String,
    /// What the client can do beyond the ordinary.
    pub experimental_api: Option<bool>,
}

/// What a client says of itself at the start of a conversation.
pub fn initialize_params(client_version: &str, experimental_api: bool) -> (result:
    InitializeParams)
    ensures
        result.client_name@ == "codex_app_server_daemon"@,
        result.client_title@ == "Codex App Server Daemon"@,
        result.client_version@ == client_version@,
        result.experimental_api == (if experimental_api {
            Some(true)
        } else {
            None
        }),
{
    InitializeParams {
        client_name: "codex_app_server_daemon".to_owned(),
        client_title: "Codex App Server Daemon".to_owned(),
        client_version: client_version.to_owned(),
        experimental_api: if experimental_api {
            Some(true)
        } else {
            None
        },
    }
}

/// What kind of message the server sends.
#[derive(Debug)]
pub enum ServerMessage {
    Response { id: RequestId },
    /// A request, a notification or an error.
    Other,
}

/// A message is the answer to the start of a conversation.
pub open spec fn answers_start(message: ServerMessage) -> bool {
    message matches ServerMessage::Response { id: RequestId::Integer(1) }
}

/// Whether a message is the answer to the start of a conversation.
pub fn is_initialize_response(message: &ServerMessage) -> (result: bool)
    ensures
        result == answers_start(*message),
{
    match message {
        ServerMessage::Response { id: RequestId::Integer(id) } => *id == INITIALIZE_REQUEST_ID,
        _ => false,
    }
}

/// What is done about a frame while a message is awaited.
#[derive(Debug)]
pub enum ReadMessageStep {
    /// This is the text of the message.
    Parse(String),
    /// Wait for the next frame.
    Skip,
    /// There will be no message.
    Fail(String),
}

/// What is done about a frame while a message is awaited: messages come as
/// text, other frames do not count.
pub fn read_message_step(frame: Option<SocketFrame>) -> (result: ReadMessageStep)
    ensures
        match frame {
            None => result matches ReadMessageStep::Fail(error) && error@
                == "app-server closed the control socket"@,
            Some(SocketFrame::Text(payload)) => result == ReadMessageStep::Parse(payload),
            Some(_) => result is Skip,
        },
{
    match frame {
        None => ReadMessageStep::Fail("app-server closed the control socket".to_owned()),
        Some(SocketFrame::Text(payload)) => ReadMessageStep::Parse(payload),
        Some(_) => ReadMessageStep::Skip,
    }
}

/// The version that a user agent names is what stands behind its first slash,
/// up to the next white space; white space right behind the slash is passed
/// over. Without a slash there is none, and none where nothing follows.
pub proof fn lemma_version_in_a_user_agent(
    name: Seq<char>,
    version: Seq<char>,
    rest: Seq<char>,
)
    requires
        !name.contains('/'),
        crate::text::is_word(version),
        rest.len() == 0 || crate::text::is_whitespace(rest[0]),
    ensures
        agent_version(name) is None,
        agent_version(name + seq!['/'] + version + rest) == Some(version),
        agent_version(name + seq!['/'] + seq![' '] + version + rest) == Some(version),
        agent_version(name + seq!['/']) is None,
{
    let n = name.len() as int;
    assert forall|tail: Seq<char>| #[trigger] (name + seq!['/'] + tail).len() >= 0 implies first_pos(
        name + seq!['/'] + tail,
        '/',
    ) == n && (name + seq!['/'] + tail).contains('/') && (name + seq!['/'] + tail).skip(n + 1)
        == tail by {
        let all = name + seq!['/'] + tail;
        crate::text::lemma_first_pos(all, '/');
        assert(all[n] == '/');
        assert(all.contains('/'));
        assert forall|i: int| 0 <= i < n implies all[i] != '/' by {
            assert(all[i] == name[i]);
            assert(name.contains(name[i]));
        }
        assert(all.skip(n + 1) =~= tail);
    }
    crate::text::lemma_words_one_by_one(' ', version, rest);
    crate::text::lemma_words_one_by_one(' ', version, version + rest);
    let plain = version + rest;
    let spaced = seq![' '] + (version + rest);
    let none = Seq::<char>::empty();
    assert((name + seq!['/'] + plain).len() >= 0);
    assert((name + seq!['/'] + spaced).len() >= 0);
    assert((name + seq!['/'] + none).len() >= 0);
    assert(name + seq!['/'] + version + rest =~= name + seq!['/'] + plain);
    assert(name + seq!['/'] + seq![' '] + version + rest =~= name + seq!['/'] + spaced);
    assert(name + seq!['/'] =~= name + seq!['/'] + none);
    assert(words(plain)[0] == version);
    assert(words(spaced) == words(plain));
}

/// What each thing that is received or to be sent has a relay do.
pub proof fn lemma_what_relays_do(text: String, payload: Vec<u8>)
    ensures
        output_step(ProxyReceived::Frame(SocketFrame::Text(text))) == OutputStep::Write(
            text@.push('\n'),
        ),
        output_step(ProxyReceived::Frame(SocketFrame::Ping(payload))) == OutputStep::AnswerPing(
            payload@,
        ),
        output_step(ProxyReceived::Frame(SocketFrame::Binary)) is Skip,
        output_step(ProxyReceived::Frame(SocketFrame::Pong)) is Skip,
        output_step(ProxyReceived::Frame(SocketFrame::Frame)) is Skip,
        output_step(ProxyReceived::Frame(SocketFrame::Close)) is Finish,
        output_step(ProxyReceived::Ended) is Finish,
        output_step(ProxyReceived::Broken) is Fail,
        input_step(ProxyToSend::Line(Some(text))) == ProxyInputAction::SendText(text),
        input_step(ProxyToSend::Line(None)) is Close,
        input_step(ProxyToSend::Pong(payload)) == ProxyInputAction::SendPong(payload),
        input_step(ProxyToSend::Broken) is Fail,
{
}

/// The server's stream ends where it is closed, breaks or ends, and with no
/// other frame.
pub proof fn lemma_what_ends_a_stream(frame: SocketFrame)
    ensures
        is_stream_end(ProxyReceived::Broken),
        is_stream_end(ProxyReceived::Ended),
        is_stream_end(ProxyReceived::Frame(frame)) <==> frame is Close,
{
}

/// A relay fails where either direction failed. It succeeds with the end of the
/// output alone: when the input is done, what the server still sends is awaited.
pub proof fn lemma_end_of_a_relay(ok: bool)
    ensures
        relay_next(ProxyEnd::Output { ok }) is Succeed <==> ok,
        relay_next(ProxyEnd::Input { ok }) is AwaitOutput <==> ok,
        relay_next(ProxyEnd::Output { ok }) is Fail <==> !ok,
        relay_next(ProxyEnd::Input { ok }) is Fail <==> !ok,
{
}

/// Only a response to the first request answers the start of a conversation.
pub proof fn lemma_answer_to_the_start(id: i64, text: String)
    ensures
        answers_start(ServerMessage::Response { id: RequestId::Integer(id) }) <==> id
            == INITIALIZE_REQUEST_ID,
        !answers_start(ServerMessage::Response { id: RequestId::Text(text) }),
        !answers_start(ServerMessage::Other),
{
}

} // verus!
