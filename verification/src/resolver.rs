//! The conversation with `ty server`: which messages are sent, and what the answers mean.
//!
//! The functions here hand out the bytes to write, and are told what arrived. Starting the
//! server, writing, reading and waiting are left to the caller.

use crate::framing::{
    frame, frame_body, law_every_document_is_a_message, lemma_frame_is_read_back, messages,
};
use crate::json::{
    empty_object, field_of, integer_value, is_plain, json, json_bytes, null_value, parsed_json,
    set_field, show_value, shown_json, text_value, value_to_bytes, Json, DEPTH_LIMIT,
};
use crate::locations::{locations, locations_from_value, DefinitionLocation};
use crate::position::{lsp_position, position};
use crate::uri::{absolute_uri, file_uri};
use serde_json::Value;
use std::collections::{HashMap, HashSet};
use vstd::prelude::*;
use vstd::utf8::*;

verus! {

/// How many seconds to wait for the answer to a definition request.
pub const REQUEST_TIMEOUT_SECONDS: u64 = 20;

/// How many seconds to wait for the answer to the first request.
pub const INITIALIZE_TIMEOUT_SECONDS: u64 = 15;

/// A request with the parameters `params`.
pub open spec fn request_message(id: i64, method: Seq<char>, params: Json) -> Json {
    Json::Object(
        map![
            "jsonrpc"@ => Json::Text("2.0"@),
            "id"@ => Json::integer(id),
            "method"@ => Json::Text(method),
            "params"@ => params,
        ],
    )
}

/// A notification with the parameters `params`.
pub open spec fn notification_message(method: Seq<char>, params: Json) -> Json {
    Json::Object(
        map![
            "jsonrpc"@ => Json::Text("2.0"@),
            "method"@ => Json::Text(method),
            "params"@ => params,
        ],
    )
}

/// The answer to a request of the server: nothing.
pub open spec fn null_answer(id: i64) -> Json {
    Json::Object(
        map![
            "jsonrpc"@ => Json::Text("2.0"@),
            "id"@ => Json::integer(id),
            "result"@ => Json::Null,
        ],
    )
}

/// The parameters of the first request.
pub open spec fn initialize_params(process_id: u32, root_uri: Seq<char>) -> Json {
    let nothing = Json::Object(map![]);
    Json::Object(
        map![
            "processId"@ => Json::Unsigned(process_id as u64),
            "rootUri"@ => Json::Text(root_uri),
            "capabilities"@ => Json::Object(
                map!["textDocument"@ => Json::Object(map!["diagnostic"@ => nothing])],
            ),
        ],
    )
}

/// The parameters that open a Python document.
pub open spec fn open_params(uri: Seq<char>, source: Seq<char>) -> Json {
    Json::Object(
        map![
            "textDocument"@ => Json::Object(
                map![
                    "uri"@ => Json::Text(uri),
                    "languageId"@ => Json::Text("python"@),
                    "version"@ => Json::Unsigned(1),
                    "text"@ => Json::Text(source),
                ],
            ),
        ],
    )
}

/// The notification that opens the document with the absolute path `path`.
pub open spec fn open_message(path: Seq<char>, source: Seq<char>) -> Json {
    notification_message("textDocument/didOpen"@, open_params(file_uri(path), source))
}

/// The parameters that ask for the definitions of what stands at a position.
pub open spec fn definition_params(uri: Seq<char>, place: (u32, u32)) -> Json {
    Json::Object(
        map![
            "textDocument"@ => Json::Object(map!["uri"@ => Json::Text(uri)]),
            "position"@ => Json::Object(
                map![
                    "line"@ => Json::Unsigned(place.0 as u64),
                    "character"@ => Json::Unsigned(place.1 as u64),
                ],
            ),
        ],
    )
}

/// The bytes that send `message`.
pub open spec fn packet(message: Json) -> Seq<u8> {
    frame(json_bytes(message))
}

/// `bytes` send `message`, and who reads them gets that message and no other.
pub open spec fn carries(bytes: Seq<u8>, message: Json) -> bool {
    bytes == packet(message) && messages(bytes) == seq![message]
}

/// The bytes that send `message`.
fn send(message: &Value) -> (sent: Result<Vec<u8>, String>)
    ensures
        sent is Ok,
        sent->Ok_0@ == packet(json(*message)),
        is_plain(json(*message), DEPTH_LIMIT as nat) ==> carries(sent->Ok_0@, json(*message)),
{
    match value_to_bytes(message) {
        Ok(body) => {
            let framed = frame_body(body.as_slice());
            proof {
                assert(body@.len() == body.len());
                lemma_frame_is_read_back(body@);
            }
            Ok(framed)
        },
        Err(error) => Err(error),
    }
}

/// The bytes that send a notification.
fn notify(method: &str, params: Value) -> (sent: Result<Vec<u8>, String>)
    requires
        is_plain(json(params), (DEPTH_LIMIT - 1) as nat),
    ensures
        sent is Ok,
        carries(sent->Ok_0@, notification_message(method@, json(params))),
{
    let mut message = empty_object();
    set_field(&mut message, "jsonrpc", text_value("2.0"));
    set_field(&mut message, "method", text_value(method));
    set_field(&mut message, "params", params);
    proof {
        reveal_with_fuel(is_plain, 2);
    }
    send(&message)
}

/// A request that is to be sent: its number, and the bytes to write.
pub struct Request {
    pub id: i64,
    pub packet: Vec<u8>,
}

/// What to send next for a lookup.
pub enum Lookup {
    /// The notification that opens the document. Once it is written, the lookup goes on.
    Open(Vec<u8>),
    /// The definition request.
    Ask(Request),
}

/// What can happen while an answer is waited for.
pub enum CollectEvent {
    /// The wait begins.
    Begin,
    /// A message has arrived.
    Message(Value),
    /// The time to wait is over.
    Timeout,
    /// No message will arrive any more.
    Disconnected,
}

/// How a wait goes on.
pub enum CollectStep {
    /// The wait is over, with the answer or with an error.
    Finished(Result<Value, String>),
    /// These bytes are to be written, and the wait goes on.
    Reply(Vec<u8>),
    /// The wait goes on.
    Wait,
}

/// What a [`CollectEvent`] means.
pub enum Event {
    Begin,
    Message(Json),
    Timeout,
    Disconnected,
}

/// What a [`CollectStep`] means.
pub enum Step {
    Finished(Result<Json, Seq<char>>),
    Reply(Seq<u8>),
    Wait,
}

impl View for CollectEvent {
    type V = Event;

    open spec fn view(&self) -> Event {
        match *self {
            CollectEvent::Begin => Event::Begin,
            CollectEvent::Message(message) => Event::Message(json(message)),
            CollectEvent::Timeout => Event::Timeout,
            CollectEvent::Disconnected => Event::Disconnected,
        }
    }
}

impl View for CollectStep {
    type V = Step;

    open spec fn view(&self) -> Step {
        match *self {
            CollectStep::Finished(Ok(answer)) => Step::Finished(Ok(json(answer))),
            CollectStep::Finished(Err(error)) => Step::Finished(Err(error@)),
            CollectStep::Reply(packet) => Step::Reply(packet@),
            CollectStep::Wait => Step::Wait,
        }
    }
}

/// The number of the request that `message` is, or answers.
pub open spec fn message_number(message: Json) -> Option<i64> {
    match message.field("id"@) {
        Some(number) => number.signed(),
        None => None,
    }
}

/// The result in an answer; nothing, where it gives none.
pub open spec fn message_result(message: Json) -> Json {
    match message.field("result"@) {
        Some(result) => result,
        None => Json::Null,
    }
}

/// What a message means to one who waits for the answer to request `id` and has `pending` answers
/// to other requests. A request of the server is answered with nothing. An answer that reports an
/// error ends the wait, whichever request it answers. The awaited result ends the wait, and any
/// other result is kept. A message without a number is passed over.
pub open spec fn received(pending: Map<i64, Json>, id: i64, message: Json) -> (
    Map<i64, Json>,
    Step,
) {
    match message_number(message) {
        None => (pending, Step::Wait),
        Some(number) => if message.field("method"@) is Some {
            (pending, Step::Reply(packet(null_answer(number))))
        } else {
            match message.field("error"@) {
                Some(error) => (
                    pending,
                    Step::Finished(Err("`ty server` returned an error: "@ + shown_json(error))),
                ),
                None => if number == id {
                    (pending, Step::Finished(Ok(message_result(message))))
                } else {
                    (pending.insert(number, message_result(message)), Step::Wait)
                },
            }
        },
    }
}

/// How the wait for the answer to request `id` goes on after `event`.
pub open spec fn collected(pending: Map<i64, Json>, id: i64, event: Event) -> (
    Map<i64, Json>,
    Step,
) {
    match event {
        Event::Begin => if pending.dom().contains(id) {
            (pending.remove(id), Step::Finished(Ok(pending[id])))
        } else {
            (pending, Step::Wait)
        },
        Event::Message(message) => received(pending, id, message),
        Event::Timeout => (pending, Step::Finished(Err("`ty server` request timed out"@))),
        Event::Disconnected => (pending, Step::Finished(Err("`ty server` disconnected"@))),
    }
}

/// What a resolver remembers: the number of its next request, the documents that it has opened,
/// and the answers that came while it waited for another one.
pub struct Conversation {
    pub next_id: int,
    pub opened: Set<u64>,
    pub pending: Map<i64, Json>,
}

impl Conversation {
    /// The document with the number `document` has been opened.
    pub open spec fn opening(self, document: u64) -> Conversation {
        Conversation { opened: self.opened.insert(document), ..self }
    }

    /// A request has been numbered.
    pub open spec fn asking(self) -> Conversation {
        Conversation { next_id: self.next_id + 1, ..self }
    }

    /// A lookup in the document with the number `document` has taken its next step: the document
    /// has been opened, or, where it was open, a request has been numbered.
    pub open spec fn looking_up(self, document: u64) -> Conversation {
        if self.opened.contains(document) {
            self.asking()
        } else {
            self.opening(document)
        }
    }

    /// `event` has happened while the answer to request `id` was waited for.
    pub open spec fn waiting(self, id: i64, event: Event) -> Conversation {
        Conversation { pending: collected(self.pending, id, event).0, ..self }
    }
}

/// This side of the conversation with one server.
pub struct TyResolver {
    next_id: i64,
    opened: HashSet<u64>,
    pending: HashMap<i64, Value>,
}

impl View for TyResolver {
    type V = Conversation;

    closed spec fn view(&self) -> Conversation {
        Conversation {
            next_id: self.next_id as int,
            opened: self.opened@,
            pending: self.pending@.map_values(|answer: Value| json(answer)),
        }
    }
}

impl TyResolver {
    /// Requests are numbered from one, so that no request has the number of the last one, which
    /// ends the conversation.
    pub open spec fn well_formed(&self) -> bool {
        1 <= self@.next_id <= i64::MAX
    }

    /// Begins the conversation: the request that the server must answer before any other.
    pub fn start(process_id: u32, project_root: &str) -> (started: Result<
        (TyResolver, Request),
        String,
    >)
        ensures
            started is Ok,
            ({
                let (resolver, request) = started->Ok_0;
                &&& resolver.well_formed()
                &&& resolver@ == (Conversation {
                    next_id: 2,
                    opened: Set::empty(),
                    pending: Map::empty(),
                })
                &&& request.id == 1
                &&& carries(
                    request.packet@,
                    request_message(
                        1,
                        "initialize"@,
                        initialize_params(process_id, file_uri(project_root@)),
                    ),
                )
            }),
    {
        broadcast use vstd::std_specs::hash::group_hash_axioms;

        let mut resolver = TyResolver {
            next_id: 1,
            opened: HashSet::new(),
            pending: HashMap::new(),
        };
        let mut document = empty_object();
        set_field(&mut document, "diagnostic", empty_object());
        let mut capabilities = empty_object();
        set_field(&mut capabilities, "textDocument", document);
        let mut params = empty_object();
        set_field(&mut params, "processId", integer_value(process_id as i64));
        set_field(&mut params, "rootUri", text_value(absolute_uri(project_root).as_str()));
        set_field(&mut params, "capabilities", capabilities);
        proof {
            reveal_with_fuel(is_plain, 4);
        }
        match resolver.request("initialize", params) {
            Ok(request) => {
                assert(resolver@.pending =~= Map::<i64, Json>::empty());
                Ok((resolver, request))
            },
            Err(error) => Err(error),
        }
    }

    /// The notification that follows the answer to the first request.
    pub fn initialized() -> (sent: Result<Vec<u8>, String>)
        ensures
            sent is Ok,
            carries(sent->Ok_0@, notification_message("initialized"@, Json::Object(map![]))),
    {
        notify("initialized", empty_object())
    }

    /// What to send when the wait for the answer to the first request has ended with `answer`: the
    /// notification, if the server answered well, and otherwise nothing but the error.
    pub fn ready(answer: Result<Value, String>) -> (sent: Result<Vec<u8>, String>)
        ensures
            match answer {
                Ok(_) => sent is Ok && carries(
                    sent->Ok_0@,
                    notification_message("initialized"@, Json::Object(map![])),
                ),
                Err(error) => sent == Err::<Vec<u8>, String>(error),
            },
    {
        match answer {
            Ok(_) => TyResolver::initialized(),
            Err(error) => Err(error),
        }
    }

    /// The request that ends the conversation. Its number is that of no other request.
    pub fn shutdown() -> (sent: Result<Vec<u8>, String>)
        ensures
            sent is Ok,
            carries(sent->Ok_0@, request_message((-1) as i64, "shutdown"@, Json::Null)),
    {
        let mut message = empty_object();
        set_field(&mut message, "jsonrpc", text_value("2.0"));
        set_field(&mut message, "id", integer_value(-1));
        set_field(&mut message, "method", text_value("shutdown"));
        set_field(&mut message, "params", null_value());
        proof {
            reveal_with_fuel(is_plain, 2);
        }
        send(&message)
    }

    /// Numbers a request, and makes the bytes that send it. The number is used up, whether or not
    /// the bytes can then be written.
    pub fn request(&mut self, method: &str, params: Value) -> (sent: Result<Request, String>)
        requires
            old(self).well_formed(),
            old(self)@.next_id < i64::MAX,
        ensures
            final(self).well_formed(),
            sent is Ok,
            sent->Ok_0.id == old(self)@.next_id,
            sent->Ok_0.packet@ == packet(request_message(sent->Ok_0.id, method@, json(params))),
            is_plain(json(params), (DEPTH_LIMIT - 1) as nat) ==> carries(
                sent->Ok_0.packet@,
                request_message(sent->Ok_0.id, method@, json(params)),
            ),
            final(self)@ == old(self)@.asking(),
    {
        let id: i64 = self.next_id;
        self.next_id = id + 1;
        let mut message = empty_object();
        set_field(&mut message, "jsonrpc", text_value("2.0"));
        set_field(&mut message, "id", integer_value(id));
        set_field(&mut message, "method", text_value(method));
        set_field(&mut message, "params", params);
        proof {
            reveal_with_fuel(is_plain, 2);
        }
        match send(&message) {
            Ok(packet) => Ok(Request { id, packet }),
            Err(error) => Err(error),
        }
    }

    /// Opens a document, if it is not open. `document` is its number: the same for equal paths,
    /// and different for different ones. `path` is the text of its absolute path.
    pub fn open(&mut self, document: u64, path: &str, source: &str) -> (sent: Result<
        Option<Vec<u8>>,
        String,
    >)
        ensures
            sent is Ok,
            match sent->Ok_0 {
                Some(bytes) => {
                    &&& !old(self)@.opened.contains(document)
                    &&& carries(bytes@, open_message(path@, source@))
                },
                None => old(self)@.opened.contains(document),
            },
            final(self)@ == old(self)@.opening(document),
    {
        broadcast use vstd::std_specs::hash::group_hash_axioms;

        if !self.opened.insert(document) {
            return Ok(None);
        }
        let mut opened = empty_object();
        set_field(&mut opened, "uri", text_value(absolute_uri(path).as_str()));
        set_field(&mut opened, "languageId", text_value("python"));
        set_field(&mut opened, "version", integer_value(1));
        set_field(&mut opened, "text", text_value(source));
        let mut params = empty_object();
        set_field(&mut params, "textDocument", opened);
        proof {
            reveal_with_fuel(is_plain, 3);
        }
        match notify("textDocument/didOpen", params) {
            Ok(bytes) => Ok(Some(bytes)),
            Err(error) => Err(error),
        }
    }

    /// Whether there is a number left for another request.
    pub fn can_ask(&self) -> (answer: bool)
        ensures
            answer == (self@.next_id < i64::MAX),
    {
        self.next_id < i64::MAX
    }

    /// The next step of a lookup of the definitions of what stands at byte `offset` of a document:
    /// the notification that opens the document, if it is not open, and otherwise the request. The
    /// lookup goes on, with the same arguments, when the notification has been written; a lookup
    /// that ends because it cannot be written has used up no number. `document`, `path` and
    /// `source` are as for opening the document.
    pub fn definitions(
        &mut self,
        document: u64,
        path: &str,
        source: &str,
        offset: usize,
    ) -> (sent: Result<Lookup, String>)
        requires
            old(self).well_formed(),
            old(self)@.opened.contains(document) ==> old(self)@.next_id < i64::MAX,
        ensures
            final(self).well_formed(),
            sent is Ok,
            match sent->Ok_0 {
                Lookup::Open(bytes) => {
                    &&& !old(self)@.opened.contains(document)
                    &&& carries(bytes@, open_message(path@, source@))
                },
                Lookup::Ask(request) => {
                    &&& old(self)@.opened.contains(document)
                    &&& request.id == old(self)@.next_id
                    &&& carries(
                        request.packet@,
                        request_message(
                            request.id,
                            "textDocument/definition"@,
                            definition_params(file_uri(path@), position(source@, offset as int)),
                        ),
                    )
                },
            },
            final(self)@ == old(self)@.looking_up(document),
    {
        match self.open(document, path, source) {
            Ok(Some(bytes)) => {
                return Ok(Lookup::Open(bytes));
            },
            Ok(None) => {},
            Err(error) => {
                return Err(error);
            },
        }
        assert(old(self)@.opened.insert(document) =~= old(self)@.opened);
        let (line, character): (u32, u32) = lsp_position(source, offset);
        let mut asked = empty_object();
        set_field(&mut asked, "uri", text_value(absolute_uri(path).as_str()));
        let mut place = empty_object();
        set_field(&mut place, "line", integer_value(line as i64));
        set_field(&mut place, "character", integer_value(character as i64));
        let mut params = empty_object();
        set_field(&mut params, "textDocument", asked);
        set_field(&mut params, "position", place);
        proof {
            reveal_with_fuel(is_plain, 3);
        }
        match self.request("textDocument/definition", params) {
            Ok(request) => Ok(Lookup::Ask(request)),
            Err(error) => Err(error),
        }
    }

    /// Goes on waiting for the answer to request `id`, now that `event` has happened.
    pub fn collect(&mut self, id: i64, event: CollectEvent) -> (step: CollectStep)
        ensures
            step@ == collected(old(self)@.pending, id, event@).1,
            step matches CollectStep::Reply(bytes) ==> {
                &&& event@ is Message
                &&& carries(bytes@, null_answer(message_number(event@->Message_0)->0))
            },
            final(self)@ == old(self)@.waiting(id, event@),
    {
        match event {
            CollectEvent::Begin => match self.take_pending(id) {
                Some(answer) => CollectStep::Finished(Ok(answer)),
                None => {
                    assert(old(self)@.pending.remove(id) =~= old(self)@.pending);
                    CollectStep::Wait
                },
            },
            CollectEvent::Message(message) => self.receive(id, &message),
            CollectEvent::Timeout => CollectStep::Finished(
                Err("`ty server` request timed out".to_owned()),
            ),
            CollectEvent::Disconnected => CollectStep::Finished(
                Err("`ty server` disconnected".to_owned()),
            ),
        }
    }

    /// What a definition request has found, when the wait for its answer has ended with `answer`:
    /// the locations in it, or the error.
    pub fn found(answer: Result<Value, String>) -> (found: Result<Vec<DefinitionLocation>, String>)
        ensures
            match answer {
                Ok(result) => found is Ok && found->Ok_0@ == locations(json(result)),
                Err(error) => found == Err::<Vec<DefinitionLocation>, String>(error),
            },
    {
        match answer {
            Ok(result) => Ok(locations_from_value(&result)),
            Err(error) => Err(error),
        }
    }

    /// Takes out the answer to request `id`, if it came before it was waited for.
    fn take_pending(&mut self, id: i64) -> (answer: Option<Value>)
        ensures
            match answer {
                Some(value) => {
                    &&& old(self)@.pending.dom().contains(id)
                    &&& old(self)@.pending[id] == json(value)
                },
                None => !old(self)@.pending.dom().contains(id),
            },
            final(self)@ == (Conversation {
                pending: old(self)@.pending.remove(id),
                ..old(self)@
            }),
    {
        broadcast use vstd::std_specs::hash::group_hash_axioms;

        let answer = self.pending.remove(&id);
        assert(self@.pending =~= old(self)@.pending.remove(id));
        answer
    }

    /// Keeps the answer to request `id` until it is waited for.
    fn keep_pending(&mut self, id: i64, answer: Value)
        ensures
            final(self)@ == (Conversation {
                pending: old(self)@.pending.insert(id, json(answer)),
                ..old(self)@
            }),
    {
        broadcast use vstd::std_specs::hash::group_hash_axioms;

        self.pending.insert(id, answer);
        assert(self@.pending =~= old(self)@.pending.insert(id, json(answer)));
    }

    /// Takes in a message that arrived while the answer to request `id` was waited for.
    fn receive(&mut self, id: i64, message: &Value) -> (step: CollectStep)
        ensures
            step@ == received(old(self)@.pending, id, json(*message)).1,
            step matches CollectStep::Reply(bytes) ==> carries(
                bytes@,
                null_answer(message_number(json(*message))->0),
            ),
            final(self)@ == old(self)@.waiting(id, Event::Message(json(*message))),
    {
        let asks = field_of(message, "method").is_some();
        let number = match field_of(message, "id") {
            Some(value) => value.as_i64(),
            None => None,
        };
        let other: i64 = match number {
            Some(other) => other,
            None => {
                return CollectStep::Wait;
            },
        };
        if asks {
            return match answer_nothing(other) {
                Ok(packet) => CollectStep::Reply(packet),
                Err(error) => CollectStep::Finished(Err(error)),
            };
        }
        if let Some(error) = field_of(message, "error") {
            let mut text = "`ty server` returned an error: ".to_owned();
            let shown = show_value(error);
            proof {
                encode_utf8_decode_utf8(shown@);
            }
            text.append(shown.as_str());
            return CollectStep::Finished(Err(text));
        }
        let result = match field_of(message, "result") {
            Some(result) => result.clone(),
            None => null_value(),
        };
        if other == id {
            CollectStep::Finished(Ok(result))
        } else {
            self.keep_pending(other, result);
            CollectStep::Wait
        }
    }
}

/// The bytes that answer a request of the server with nothing.
fn answer_nothing(id: i64) -> (sent: Result<Vec<u8>, String>)
    ensures
        sent is Ok,
        carries(sent->Ok_0@, null_answer(id)),
{
    let mut message = empty_object();
    set_field(&mut message, "jsonrpc", text_value("2.0"));
    set_field(&mut message, "id", integer_value(id));
    set_field(&mut message, "result", null_value());
    proof {
        reveal_with_fuel(is_plain, 2);
    }
    send(&message)
}

/// `message` is an answer to request `id` that reports no error.
pub open spec fn answers(message: Json, id: i64) -> bool {
    &&& message_number(message) == Some(id)
    &&& message.field("method"@) is None
    &&& message.field("error"@) is None
}

/// The awaited answer ends the wait with its result, and changes nothing else.
pub proof fn law_awaited_answer_is_returned(pending: Map<i64, Json>, id: i64, message: Json)
    requires
        answers(message, id),
    ensures
        collected(pending, id, Event::Message(message)) == (
            pending,
            Step::Finished(Ok::<Json, Seq<char>>(message_result(message))),
        ),
{
}

/// A wait ends well only with an answer to the request that was waited for: one that came before,
/// or the message that has just arrived.
pub proof fn law_only_the_awaited_answer_is_returned(
    pending: Map<i64, Json>,
    id: i64,
    event: Event,
    answer: Json,
)
    requires
        collected(pending, id, event).1 == Step::Finished(Ok::<Json, Seq<char>>(answer)),
    ensures
        ({
            ||| event is Begin && pending.dom().contains(id) && pending[id] == answer
            ||| event matches Event::Message(message) && answers(message, id) && message_result(
                message,
            ) == answer
        }),
{
}

/// An answer that comes while another one is waited for is not lost: the wait goes on, and
/// whoever waits for that answer next gets it at once.
pub proof fn law_early_answer_is_kept(pending: Map<i64, Json>, id: i64, other: i64, message: Json)
    requires
        other != id,
        answers(message, other),
    ensures
        ({
            let (kept, step) = collected(pending, id, Event::Message(message));
            &&& step == Step::Wait
            &&& collected(kept, other, Event::Begin).1 == Step::Finished(
                Ok::<Json, Seq<char>>(message_result(message)),
            )
            &&& !collected(kept, other, Event::Begin).0.dom().contains(other)
        }),
{
}

/// `message` is an answer to request `id`, or an answer to any request that reports an error.
pub open spec fn ends_wait(message: Json, id: i64) -> bool {
    &&& message_number(message) is Some
    &&& message.field("method"@) is None
    &&& message.field("error"@) is Some || message_number(message) == Some(id)
}

/// A message ends the wait for request `id` if and only if it answers that request, or reports an
/// error, under whatever number; the requests of the server do neither.
pub proof fn law_what_ends_a_wait(pending: Map<i64, Json>, id: i64, message: Json)
    ensures
        collected(pending, id, Event::Message(message)).1 is Finished <==> ends_wait(message, id),
{
}

/// Every request of the server is answered, with nothing, under the number that it had; the wait
/// goes on as before.
pub proof fn law_requests_of_the_server_are_answered(
    pending: Map<i64, Json>,
    id: i64,
    number: i64,
    message: Json,
)
    requires
        message_number(message) == Some(number),
        message.field("method"@) is Some,
    ensures
        collected(pending, id, Event::Message(message)) == (
            pending,
            Step::Reply(packet(null_answer(number))),
        ),
{
}

/// A message without a number, such as a notification of the server, changes nothing.
pub proof fn law_notifications_are_passed_over(pending: Map<i64, Json>, id: i64, message: Json)
    requires
        message_number(message) is None,
    ensures
        collected(pending, id, Event::Message(message)) == (pending, Step::Wait),
{
}

/// What a resolver does that changes what it remembers.
pub enum Action {
    Open(u64),
    Ask,
    Wait(i64, Event),
}

/// What is remembered after `actions`, done one after the other.
pub open spec fn after(conversation: Conversation, actions: Seq<Action>) -> Conversation
    decreases actions.len(),
{
    if actions.len() == 0 {
        conversation
    } else {
        let before = after(conversation, actions.drop_last());
        match actions.last() {
            Action::Open(document) => before.opening(document),
            Action::Ask => before.asking(),
            Action::Wait(id, event) => before.waiting(id, event),
        }
    }
}

/// A document that is open stays open whatever is done, so that it is never opened again.
pub proof fn law_documents_stay_open(
    conversation: Conversation,
    document: u64,
    actions: Seq<Action>,
)
    ensures
        after(conversation.opening(document), actions).opened.contains(document),
    decreases actions.len(),
{
    if actions.len() > 0 {
        law_documents_stay_open(conversation, document, actions.drop_last());
    }
}

/// Taking in `messages`, one after the other, while the answer to request `id` is waited for.
pub open spec fn taking_in(id: i64, messages: Seq<Json>) -> Seq<Action> {
    messages.map_values(|message: Json| Action::Wait(id, Event::Message(message)))
}

/// A wait goes on over any messages that do not end it, and ends with the result in the first
/// answer that does: whatever else the server sends before, the awaited answer is what is
/// returned.
pub proof fn law_wait_returns_the_awaited_answer(
    conversation: Conversation,
    id: i64,
    passed: Seq<Json>,
    message: Json,
)
    requires
        forall|i: int| 0 <= i < passed.len() ==> !ends_wait(#[trigger] passed[i], id),
        answers(message, id),
    ensures
        forall|i: int|
            0 <= i < passed.len() ==> !(collected(
                after(conversation, taking_in(id, passed.take(i))).pending,
                id,
                Event::Message(#[trigger] passed[i]),
            ).1 is Finished),
        collected(
            after(conversation, taking_in(id, passed)).pending,
            id,
            Event::Message(message),
        ).1 == Step::Finished(Ok::<Json, Seq<char>>(message_result(message))),
{
    assert forall|i: int| 0 <= i < passed.len() implies !(collected(
        after(conversation, taking_in(id, passed.take(i))).pending,
        id,
        Event::Message(#[trigger] passed[i]),
    ).1 is Finished) by {
        law_what_ends_a_wait(
            after(conversation, taking_in(id, passed.take(i))).pending,
            id,
            passed[i],
        );
    }
}

/// `action` leaves the answer to request `id` alone: it neither begins to wait for it nor takes in
/// a message with its number.
pub open spec fn leaves_alone(action: Action, id: i64) -> bool {
    match action {
        Action::Wait(awaited, Event::Begin) => awaited != id,
        Action::Wait(_, Event::Message(message)) => message_number(message) != Some(id),
        _ => true,
    }
}

/// A kept answer stays as it is, whatever is done, until it is waited for or a message with the
/// same number comes.
pub proof fn law_kept_answers_stay(conversation: Conversation, id: i64, actions: Seq<Action>)
    requires
        conversation.pending.dom().contains(id),
        forall|i: int| 0 <= i < actions.len() ==> leaves_alone(#[trigger] actions[i], id),
    ensures
        after(conversation, actions).pending.dom().contains(id),
        after(conversation, actions).pending[id] == conversation.pending[id],
    decreases actions.len(),
{
    if actions.len() > 0 {
        law_kept_answers_stay(conversation, id, actions.drop_last());
        assert(leaves_alone(actions.last(), id));
    }
}

/// A lookup in a document that is not open opens it first, without using up a number, and then
/// asks. In an open document it asks at once.
pub proof fn law_lookup_opens_and_then_asks(conversation: Conversation, document: u64)
    ensures
        conversation.opened.contains(document) ==> conversation.looking_up(document)
            == conversation.asking(),
        !conversation.opened.contains(document) ==> {
            let opened = conversation.looking_up(document);
            &&& opened.opened.contains(document)
            &&& opened.next_id == conversation.next_id
            &&& opened.looking_up(document) == conversation.opening(document).asking()
        },
{
}

/// How many requests are numbered in `actions`.
pub open spec fn asked(actions: Seq<Action>) -> nat
    decreases actions.len(),
{
    if actions.len() == 0 {
        0
    } else if actions.last() is Ask {
        asked(actions.drop_last()) + 1
    } else {
        asked(actions.drop_last())
    }
}

/// Requests are numbered one after the other: the next number is larger by the number of requests
/// that were numbered since, and nothing else changes it. So the request that follows on one with
/// the number `k` has the number `k + 1`, whatever else is done between the two.
pub proof fn law_requests_are_numbered_in_a_row(conversation: Conversation, actions: Seq<Action>)
    ensures
        after(conversation, actions).next_id == conversation.next_id + asked(actions),
        asked(actions) == 0 ==> after(conversation.asking(), actions).next_id
            == conversation.next_id + 1,
    decreases actions.len(),
{
    if actions.len() > 0 {
        law_requests_are_numbered_in_a_row(conversation, actions.drop_last());
    }
}

/// Requests are numbered upwards: whatever is done after a request, the next one has a larger
/// number. So no number is used twice, nor is the negative one of the last request.
pub proof fn law_request_numbers_increase(conversation: Conversation, actions: Seq<Action>)
    ensures
        after(conversation, actions).next_id >= conversation.next_id,
        after(conversation.asking(), actions).next_id > conversation.next_id,
{
    law_requests_are_numbered_in_a_row(conversation, actions);
    law_requests_are_numbered_in_a_row(conversation.asking(), actions);
}

/// The result in an answer comes back to the one who waits for it as the server gave it, whatever
/// it is; an answer that gives none stands for null. What is kept for others stays as it was.
pub proof fn law_result_comes_back_unchanged(
    pending: Map<i64, Json>,
    id: i64,
    entries: Map<Seq<char>, Json>,
)
    requires
        entries.dom().contains("id"@),
        entries["id"@] == if id < 0 {
            Json::Negative(id)
        } else {
            Json::Unsigned(id as u64)
        },
        !entries.dom().contains("method"@),
        !entries.dom().contains("error"@),
    ensures
        entries.dom().contains("result"@) ==> collected(
            pending,
            id,
            Event::Message(Json::Object(entries)),
        ) == (pending, Step::Finished(Ok::<Json, Seq<char>>(entries["result"@]))),
        !entries.dom().contains("result"@) ==> collected(
            pending,
            id,
            Event::Message(Json::Object(entries)),
        ) == (pending, Step::Finished(Ok::<Json, Seq<char>>(Json::Null))),
{
}

/// An answer to the awaited request ends the wait with the very entry that it has under `result`.
pub proof fn law_awaited_result_is_the_entry(
    pending: Map<i64, Json>,
    id: i64,
    message: Json,
    result: Json,
)
    requires
        message_number(message) == Some(id),
        message.field("method"@) is None,
        message.field("error"@) is None,
        message.field("result"@) == Some(result),
    ensures
        collected(pending, id, Event::Message(message)).1 == Step::Finished(
            Ok::<Json, Seq<char>>(result),
        ),
{
}

/// The result in an answer to another request is kept as the server gave it, under the number of
/// that request, and is what the one who then waits for that request gets, once.
pub proof fn law_early_result_is_kept_unchanged(
    pending: Map<i64, Json>,
    id: i64,
    other: i64,
    entries: Map<Seq<char>, Json>,
    result: Json,
)
    requires
        other != id,
        entries.dom().contains("id"@),
        entries["id"@] == if other < 0 {
            Json::Negative(other)
        } else {
            Json::Unsigned(other as u64)
        },
        !entries.dom().contains("method"@),
        !entries.dom().contains("error"@),
        result == if entries.dom().contains("result"@) {
            entries["result"@]
        } else {
            Json::Null
        },
    ensures
        ({
            let (kept, step) = collected(pending, id, Event::Message(Json::Object(entries)));
            &&& step == Step::Wait
            &&& kept == pending.insert(other, result)
            &&& collected(kept, other, Event::Begin) == (
                pending.remove(other),
                Step::Finished(Ok::<Json, Seq<char>>(result)),
            )
        }),
{
    assert(pending.insert(other, result).remove(other) =~= pending.remove(other));
}

/// An answer that reports an error ends the wait with the bytes of the error, shown as text,
/// whichever request it answers and whatever else it holds. What is kept stays as it was.
pub proof fn law_reported_error_is_shown(
    pending: Map<i64, Json>,
    id: i64,
    other: i64,
    entries: Map<Seq<char>, Json>,
    shown: Seq<char>,
)
    requires
        entries.dom().contains("id"@),
        entries["id"@] == if other < 0 {
            Json::Negative(other)
        } else {
            Json::Unsigned(other as u64)
        },
        !entries.dom().contains("method"@),
        entries.dom().contains("error"@),
        encode_utf8(shown) == json_bytes(entries["error"@]),
    ensures
        collected(pending, id, Event::Message(Json::Object(entries))) == (
            pending,
            Step::Finished(Err::<Json, Seq<char>>("`ty server` returned an error: "@ + shown)),
        ),
{
    encode_utf8_decode_utf8(shown);
}

/// A message with a number and a method is a request of the server, and is answered, under its
/// number, with null: whatever else it holds, and also where its number is the awaited one.
pub proof fn law_server_is_answered_with_null(
    pending: Map<i64, Json>,
    id: i64,
    number: i64,
    entries: Map<Seq<char>, Json>,
)
    requires
        entries.dom().contains("id"@),
        entries["id"@] == if number < 0 {
            Json::Negative(number)
        } else {
            Json::Unsigned(number as u64)
        },
        entries.dom().contains("method"@),
    ensures
        collected(pending, id, Event::Message(Json::Object(entries))) == (
            pending,
            Step::Reply(
                frame(
                    json_bytes(
                        Json::Object(
                            map![
                                "jsonrpc"@ => Json::Text("2.0"@),
                                "id"@ => entries["id"@],
                                "result"@ => Json::Null,
                            ],
                        ),
                    ),
                ),
            ),
        ),
{
}

/// A message that has no integer under `id` that an `i64` holds changes nothing, and the wait goes
/// on.
pub proof fn law_unnumbered_messages_change_nothing(
    pending: Map<i64, Json>,
    id: i64,
    message: Json,
)
    requires
        message matches Json::Object(entries) ==> entries.dom().contains("id"@) ==> {
            &&& !(entries["id"@] is Negative)
            &&& entries["id"@] matches Json::Unsigned(n) ==> n > 0x7fff_ffff_ffff_ffff
        },
    ensures
        collected(pending, id, Event::Message(message)) == (pending, Step::Wait),
{
}

/// A wait that begins takes out the answer that is kept for it, if there is one, and leaves what is
/// kept for others; the end of the time and of the connection end it with their errors, and leave
/// everything.
pub proof fn law_waits_begin_and_end(pending: Map<i64, Json>, id: i64)
    ensures
        pending.dom().contains(id) ==> collected(pending, id, Event::Begin) == (
            pending.remove(id),
            Step::Finished(Ok::<Json, Seq<char>>(pending[id])),
        ),
        !pending.dom().contains(id) ==> collected(pending, id, Event::Begin) == (
            pending,
            Step::Wait,
        ),
        collected(pending, id, Event::Timeout) == (
            pending,
            Step::Finished(Err::<Json, Seq<char>>("`ty server` request timed out"@)),
        ),
        collected(pending, id, Event::Disconnected) == (
            pending,
            Step::Finished(Err::<Json, Seq<char>>("`ty server` disconnected"@)),
        ),
{
}

/// Events and steps mean what they hold.
pub proof fn law_events_and_steps_show_what_they_hold(
    value: Value,
    error: String,
    packet: Vec<u8>,
)
    ensures
        CollectEvent::Message(value)@ == Event::Message(json(value)),
        CollectEvent::Begin@ is Begin,
        CollectEvent::Timeout@ is Timeout,
        CollectEvent::Disconnected@ is Disconnected,
        CollectStep::Finished(Ok(value))@ == Step::Finished(Ok::<Json, Seq<char>>(json(value))),
        CollectStep::Finished(Err(error))@ == Step::Finished(Err::<Json, Seq<char>>(error@)),
        CollectStep::Reply(packet)@ == Step::Reply(packet@),
        CollectStep::Wait@ is Wait,
{
}

/// Opening a document adds it to those that are open and changes nothing else, asking counts the
/// number on and changes nothing else, and waiting changes only what is kept.
pub proof fn law_each_action_changes_one_thing(
    conversation: Conversation,
    document: u64,
    other: u64,
    id: i64,
    event: Event,
)
    ensures
        conversation.opening(document).opened.contains(other) <==> other == document
            || conversation.opened.contains(other),
        conversation.opening(document).next_id == conversation.next_id,
        conversation.opening(document).pending == conversation.pending,
        conversation.asking().next_id == conversation.next_id + 1,
        conversation.asking().opened == conversation.opened,
        conversation.asking().pending == conversation.pending,
        conversation.waiting(id, event).next_id == conversation.next_id,
        conversation.waiting(id, event).opened == conversation.opened,
        conversation.waiting(id, event).pending == collected(conversation.pending, id, event).0,
{
}

/// The keys of one object are different.
proof fn lemma_keys_differ()
    ensures
        "jsonrpc"@ != "id"@,
        "jsonrpc"@ != "method"@,
        "jsonrpc"@ != "params"@,
        "id"@ != "method"@,
        "id"@ != "params"@,
        "method"@ != "params"@,
        "uri"@ != "languageId"@,
        "uri"@ != "version"@,
        "uri"@ != "text"@,
        "languageId"@ != "version"@,
        "languageId"@ != "text"@,
        "version"@ != "text"@,
        "textDocument"@ != "position"@,
        "line"@ != "character"@,
        "processId"@ != "rootUri"@,
        "processId"@ != "capabilities"@,
        "rootUri"@ != "capabilities"@,
{
    reveal_strlit("jsonrpc");
    reveal_strlit("id");
    reveal_strlit("method");
    reveal_strlit("params");
    reveal_strlit("uri");
    reveal_strlit("languageId");
    reveal_strlit("version");
    reveal_strlit("text");
    reveal_strlit("textDocument");
    reveal_strlit("position");
    reveal_strlit("line");
    reveal_strlit("character");
    reveal_strlit("processId");
    reveal_strlit("rootUri");
    reveal_strlit("capabilities");
    assert("jsonrpc"@.len() == 7);
    assert("id"@.len() == 2);
    assert("method"@.len() == 6);
    assert("params"@.len() == 6);
    assert("uri"@.len() == 3);
    assert("languageId"@.len() == 10);
    assert("version"@.len() == 7);
    assert("text"@.len() == 4);
    assert("textDocument"@.len() == 12);
    assert("position"@.len() == 8);
    assert("line"@.len() == 4);
    assert("character"@.len() == 9);
    assert("processId"@.len() == 9);
    assert("rootUri"@.len() == 7);
    assert("capabilities"@.len() == 12);
    assert("method"@[0] == 'm' && "params"@[0] == 'p');
}

/// A request says which version of the protocol it speaks, its number, its method and its
/// parameters, and a notification the same without a number; both hold nothing else, and the
/// method and the parameters are as they were given.
pub proof fn law_messages_hold_what_they_were_given(id: i64, method: Seq<char>, params: Json)
    ensures
        request_message(id, method, params) matches Json::Object(entries) && {
            &&& entries.dom() == set!["jsonrpc"@, "id"@, "method"@, "params"@]
            &&& entries["jsonrpc"@] == Json::Text("2.0"@)
            &&& entries["id"@] == if id < 0 {
                Json::Negative(id)
            } else {
                Json::Unsigned(id as u64)
            }
            &&& entries["method"@] == Json::Text(method)
            &&& entries["params"@] == params
        },
        notification_message(method, params) matches Json::Object(entries) && {
            &&& entries.dom() == set!["jsonrpc"@, "method"@, "params"@]
            &&& entries["jsonrpc"@] == Json::Text("2.0"@)
            &&& entries["method"@] == Json::Text(method)
            &&& entries["params"@] == params
        },
{
    lemma_keys_differ();
    assert(request_message(id, method, params)->Object_0.dom() =~= set![
        "jsonrpc"@,
        "id"@,
        "method"@,
        "params"@,
    ]);
    assert(notification_message(method, params)->Object_0.dom() =~= set![
        "jsonrpc"@,
        "method"@,
        "params"@,
    ]);
}

/// The opening notification holds the source of the document as it is, and the URI of its path.
pub proof fn law_opening_holds_the_source(path: Seq<char>, source: Seq<char>)
    ensures
        open_message(path, source) matches Json::Object(message) && {
            &&& message.dom() == set!["jsonrpc"@, "method"@, "params"@]
            &&& message["method"@] == Json::Text("textDocument/didOpen"@)
            &&& message["params"@] matches Json::Object(params) && {
                &&& params.dom() == set!["textDocument"@]
                &&& params["textDocument"@] matches Json::Object(document) && {
                    &&& document.dom() == set!["uri"@, "languageId"@, "version"@, "text"@]
                    &&& document["uri"@] == Json::Text(file_uri(path))
                    &&& document["languageId"@] == Json::Text("python"@)
                    &&& document["version"@] == Json::Unsigned(1)
                    &&& document["text"@] == Json::Text(source)
                }
            }
        },
{
    let params = open_params(file_uri(path), source);
    law_messages_hold_what_they_were_given(0, "textDocument/didOpen"@, params);
    lemma_keys_differ();
    let document = params->Object_0["textDocument"@]->Object_0;
    assert(params->Object_0.dom() =~= set!["textDocument"@]);
    assert(document.dom() =~= set!["uri"@, "languageId"@, "version"@, "text"@]);
}

/// Documents with different sources are opened with different messages, and so are documents with
/// different URIs.
pub proof fn law_openings_tell_documents_apart(
    path: Seq<char>,
    source: Seq<char>,
    other_path: Seq<char>,
    other_source: Seq<char>,
)
    requires
        open_message(path, source) == open_message(other_path, other_source),
    ensures
        source == other_source,
        file_uri(path) == file_uri(other_path),
{
    law_opening_holds_the_source(path, source);
    law_opening_holds_the_source(other_path, other_source);
}

/// A definition request names the document by the URI that it is given, and the place by the line
/// and the column that it is given.
pub proof fn law_definition_request_names_the_place(uri: Seq<char>, place: (u32, u32))
    ensures
        definition_params(uri, place) matches Json::Object(params) && {
            &&& params.dom() == set!["textDocument"@, "position"@]
            &&& params["textDocument"@] matches Json::Object(document) && {
                &&& document.dom() == set!["uri"@]
                &&& document["uri"@] == Json::Text(uri)
            }
            &&& params["position"@] matches Json::Object(point) && {
                &&& point.dom() == set!["line"@, "character"@]
                &&& point["line"@] == Json::Unsigned(place.0 as u64)
                &&& point["character"@] == Json::Unsigned(place.1 as u64)
            }
        },
{
    lemma_keys_differ();
    let params = definition_params(uri, place)->Object_0;
    assert(params.dom() =~= set!["textDocument"@, "position"@]);
    assert(params["textDocument"@]->Object_0.dom() =~= set!["uri"@]);
    assert(params["position"@]->Object_0.dom() =~= set!["line"@, "character"@]);
}

/// Requests for different places or in different documents are different.
pub proof fn law_definition_requests_tell_places_apart(
    uri: Seq<char>,
    place: (u32, u32),
    other_uri: Seq<char>,
    other_place: (u32, u32),
)
    requires
        definition_params(uri, place) == definition_params(other_uri, other_place),
    ensures
        uri == other_uri,
        place == other_place,
{
    law_definition_request_names_the_place(uri, place);
    law_definition_request_names_the_place(other_uri, other_place);
}

/// The first request names this process and the root of the project, and says that diagnostics of
/// documents are understood, and nothing more.
pub proof fn law_first_request_names_the_project(process_id: u32, root_uri: Seq<char>)
    ensures
        initialize_params(process_id, root_uri) matches Json::Object(params) && {
            &&& params.dom() == set!["processId"@, "rootUri"@, "capabilities"@]
            &&& params["processId"@] == Json::Unsigned(process_id as u64)
            &&& params["rootUri"@] == Json::Text(root_uri)
            &&& params["capabilities"@] matches Json::Object(capabilities) && {
                &&& capabilities.dom() == set!["textDocument"@]
                &&& capabilities["textDocument"@] matches Json::Object(document) && {
                    &&& document.dom() == set!["diagnostic"@]
                    &&& document["diagnostic"@] == Json::Object(Map::empty())
                }
            }
        },
{
    lemma_keys_differ();
    let params = initialize_params(process_id, root_uri)->Object_0;
    let capabilities = params["capabilities"@]->Object_0;
    assert(params.dom() =~= set!["processId"@, "rootUri"@, "capabilities"@]);
    assert(capabilities.dom() =~= set!["textDocument"@]);
    assert(capabilities["textDocument"@]->Object_0.dom() =~= set!["diagnostic"@]);
    assert(map![] =~= Map::<Seq<char>, Json>::empty());
}

/// Bytes that carry a message are the frame of its JSON text. Who reads them gets that message, so
/// the same bytes carry no other one, and whatever is sent behind them is read behind it.
pub proof fn law_bytes_carry_one_message(bytes: Seq<u8>, message: Json, other: Json, rest: Seq<u8>)
    requires
        carries(bytes, message),
        json_bytes(message).len() <= usize::MAX,
    ensures
        bytes == frame(json_bytes(message)),
        messages(bytes) == seq![message],
        messages(bytes + rest) == seq![message] + messages(rest),
        carries(bytes, other) ==> other == message,
{
    let body = json_bytes(message);
    law_every_document_is_a_message(body, rest);
    assert(messages(bytes)[0] == message);
    if carries(bytes, other) {
        assert(seq![other][0] == other);
    }
    assert(parsed_json(body) is Some);
    assert(seq![parsed_json(body)->0][0] == message);
}

}
