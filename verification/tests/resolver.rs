use serde_json::Value;
use std::path::PathBuf;
use ty_resolver::framing::MessageReader;
use ty_resolver::locations::DefinitionLocation;
use ty_resolver::resolver::{
    CollectEvent, CollectStep, Lookup, Request, TyResolver, INITIALIZE_TIMEOUT_SECONDS, REQUEST_TIMEOUT_SECONDS,
};

fn value(text: &str) -> Value {
    serde_json::from_str(text).unwrap()
}

fn sent(packet: &[u8]) -> Value {
    let mut found = MessageReader::new().feed(packet);
    assert_eq!(found.len(), 1);
    found.remove(0)
}

fn started() -> TyResolver {
    TyResolver::start(42, "/project").unwrap().0
}

fn arrived(resolver: &mut TyResolver, id: i64, text: &str) -> CollectStep {
    resolver.collect(id, CollectEvent::Message(value(text)))
}

fn finished(step: CollectStep) -> Result<Value, String> {
    match step {
        CollectStep::Finished(answer) => answer,
        _ => panic!("the wait goes on"),
    }
}

fn opening(lookup: Lookup) -> Value {
    match lookup {
        Lookup::Open(packet) => sent(&packet),
        Lookup::Ask(_) => panic!("the document is open"),
    }
}

fn asking(lookup: Lookup) -> Request {
    match lookup {
        Lookup::Ask(request) => request,
        Lookup::Open(_) => panic!("the document is not open"),
    }
}

fn replied(step: CollectStep) -> Value {
    match step {
        CollectStep::Reply(packet) => sent(&packet),
        _ => panic!("nothing is sent"),
    }
}

#[test]
fn the_first_request_initializes() {
    let (_, request) = TyResolver::start(42, "/my project").unwrap();
    assert_eq!(request.id, 1);
    assert_eq!(
        sent(&request.packet),
        value(
            r#"{"jsonrpc":"2.0","id":1,"method":"initialize","params":{
                "processId":42,"rootUri":"file:///my%20project",
                "capabilities":{"textDocument":{"diagnostic":{}}}}}"#
        )
    );
}

#[test]
fn the_largest_process_id_is_sent() {
    let (_, request) = TyResolver::start(u32::MAX, "/p").unwrap();
    let message = sent(&request.packet);
    assert_eq!(message["params"]["processId"], Value::from(4_294_967_295_u64));
}

#[test]
fn packets_are_framed() {
    let packet = TyResolver::initialized().unwrap();
    let text = String::from_utf8(packet).unwrap();
    assert_eq!(
        text,
        "Content-Length: 52\r\n\r\n{\"jsonrpc\":\"2.0\",\"method\":\"initialized\",\"params\":{}}"
    );
}

#[test]
fn the_last_request_shuts_down() {
    assert_eq!(
        sent(&TyResolver::shutdown().unwrap()),
        value(r#"{"jsonrpc":"2.0","id":-1,"method":"shutdown","params":null}"#)
    );
}

#[test]
fn documents_are_opened_once() {
    let mut resolver = started();
    let packet = resolver.open(0, "/project/a.py", "x = \"é\"\n").unwrap().unwrap();
    assert_eq!(
        sent(&packet),
        value(
            r#"{"jsonrpc":"2.0","method":"textDocument/didOpen","params":{"textDocument":{
                "uri":"file:///project/a.py","languageId":"python","version":1,
                "text":"x = \"é\"\n"}}}"#
        )
    );
    assert_eq!(resolver.open(0, "/project/a.py", "changed").unwrap(), None);
    assert!(resolver.open(1, "/project/b.py", "").unwrap().is_some());
    assert_eq!(resolver.open(0, "/project/a.py", "").unwrap(), None);
}

#[test]
fn documents_stay_open_whatever_happens() {
    let mut resolver = started();
    assert!(resolver.open(5, "/a.py", "").unwrap().is_some());
    let _ = resolver.collect(1, CollectEvent::Timeout);
    let _ = resolver.collect(1, CollectEvent::Disconnected);
    let _ = arrived(&mut resolver, 1, r#"{"id":1,"error":{}}"#);
    assert_eq!(asking(resolver.definitions(5, "/a.py", "", 0).unwrap()).id, 2);
}

#[test]
fn definitions_are_asked_for_at_a_position() {
    let mut resolver = started();
    let source = "😀\n😀x";
    let first = opening(resolver.definitions(0, "/a b.py", source, 9).unwrap());
    assert_eq!(first["method"], Value::from("textDocument/didOpen"));
    assert_eq!(first["params"]["textDocument"]["text"], Value::from(source));
    let request = asking(resolver.definitions(0, "/a b.py", source, 9).unwrap());
    assert_eq!(request.id, 2);
    assert_eq!(
        sent(&request.packet),
        value(
            r#"{"jsonrpc":"2.0","id":2,"method":"textDocument/definition","params":{
                "textDocument":{"uri":"file:///a%20b.py"},
                "position":{"line":1,"character":2}}}"#
        )
    );
    let again = asking(resolver.definitions(0, "/a b.py", source, 0).unwrap());
    assert_eq!(again.id, 3);
}

#[test]
fn an_opening_uses_up_no_number() {
    let mut resolver = started();
    for document in 0..4 {
        let _ = opening(resolver.definitions(document, "/a.py", "", 0).unwrap());
    }
    assert_eq!(asking(resolver.definitions(1, "/a.py", "", 0).unwrap()).id, 2);
}

#[test]
fn request_numbers_increase() {
    let mut resolver = started();
    let _ = resolver.open(0, "/a.py", "");
    for number in 2..10 {
        assert!(resolver.can_ask());
        let request = asking(resolver.definitions(0, "/a.py", "", 0).unwrap());
        assert_eq!(request.id, number);
        let _ = arrived(&mut resolver, number, r#"{"id":100,"result":1}"#);
    }
}

#[test]
fn the_awaited_answer_ends_the_wait() {
    let mut resolver = started();
    assert!(matches!(resolver.collect(1, CollectEvent::Begin), CollectStep::Wait));
    let step = arrived(&mut resolver, 1, r#"{"jsonrpc":"2.0","id":1,"result":[1,2]}"#);
    assert_eq!(finished(step), Ok(value("[1,2]")));
    let without = arrived(&mut resolver, 2, r#"{"id":2}"#);
    assert_eq!(finished(without), Ok(Value::Null));
}

#[test]
fn early_answers_are_kept() {
    let mut resolver = started();
    assert!(matches!(
        arrived(&mut resolver, 2, r#"{"id":3,"result":"three"}"#),
        CollectStep::Wait
    ));
    assert!(matches!(
        arrived(&mut resolver, 2, r#"{"id":4}"#),
        CollectStep::Wait
    ));
    assert_eq!(
        finished(arrived(&mut resolver, 2, r#"{"id":2,"result":"two"}"#)),
        Ok(Value::from("two"))
    );
    assert_eq!(
        finished(resolver.collect(3, CollectEvent::Begin)),
        Ok(Value::from("three"))
    );
    assert_eq!(
        finished(resolver.collect(4, CollectEvent::Begin)),
        Ok(Value::Null)
    );
    assert!(matches!(resolver.collect(3, CollectEvent::Begin), CollectStep::Wait));
}

#[test]
fn kept_answers_survive_other_waits() {
    let mut resolver = started();
    let _ = arrived(&mut resolver, 2, r#"{"id":9,"result":"kept"}"#);
    let _ = resolver.open(0, "/a.py", "");
    let _ = resolver.definitions(1, "/b.py", "", 0);
    let _ = resolver.collect(2, CollectEvent::Begin);
    let _ = resolver.collect(2, CollectEvent::Timeout);
    let _ = arrived(&mut resolver, 2, r#"{"id":2,"error":1}"#);
    assert_eq!(
        finished(resolver.collect(9, CollectEvent::Begin)),
        Ok(Value::from("kept"))
    );
}

#[test]
fn a_second_early_answer_replaces_the_first() {
    let mut resolver = started();
    let _ = arrived(&mut resolver, 2, r#"{"id":3,"result":"old"}"#);
    let _ = arrived(&mut resolver, 2, r#"{"id":3,"result":"new"}"#);
    assert_eq!(
        finished(resolver.collect(3, CollectEvent::Begin)),
        Ok(Value::from("new"))
    );
}

#[test]
fn requests_of_the_server_are_answered_with_nothing() {
    let mut resolver = started();
    let step = arrived(
        &mut resolver,
        1,
        r#"{"id":1,"method":"workspace/configuration","params":{}}"#,
    );
    assert_eq!(
        replied(step),
        value(r#"{"jsonrpc":"2.0","id":1,"result":null}"#)
    );
    let negative = arrived(&mut resolver, 1, r#"{"id":-7,"method":null,"error":1}"#);
    assert_eq!(
        replied(negative),
        value(r#"{"jsonrpc":"2.0","id":-7,"result":null}"#)
    );
}

#[test]
fn messages_without_a_number_are_passed_over() {
    let mut resolver = started();
    for text in [
        r#"{"method":"window/logMessage","params":{}}"#,
        r#"{"id":"1","result":2}"#,
        r#"{"id":1.5,"result":2}"#,
        r#"{"id":9223372036854775808,"result":2}"#,
        r#"{"id":null,"error":"no"}"#,
        "[]",
        "null",
    ] {
        assert!(
            matches!(arrived(&mut resolver, 1, text), CollectStep::Wait),
            "{text}"
        );
    }
}

#[test]
fn errors_of_the_server_end_the_wait() {
    let mut resolver = started();
    let own = arrived(&mut resolver, 1, r#"{"id":1,"error":{"code":-1,"message":"bad"}}"#);
    assert_eq!(
        finished(own),
        Err("`ty server` returned an error: {\"code\":-1,\"message\":\"bad\"}".to_owned())
    );
    let other = arrived(&mut resolver, 1, r#"{"id":2,"result":3,"error":null}"#);
    assert_eq!(
        finished(other),
        Err("`ty server` returned an error: null".to_owned())
    );
    assert!(matches!(resolver.collect(2, CollectEvent::Begin), CollectStep::Wait));
}

#[test]
fn waits_end_in_time() {
    let mut resolver = started();
    assert_eq!(
        finished(resolver.collect(1, CollectEvent::Timeout)),
        Err("`ty server` request timed out".to_owned())
    );
    assert_eq!(
        finished(resolver.collect(1, CollectEvent::Disconnected)),
        Err("`ty server` disconnected".to_owned())
    );
    assert_eq!(INITIALIZE_TIMEOUT_SECONDS, 15);
    assert_eq!(REQUEST_TIMEOUT_SECONDS, 20);
}

#[test]
fn answers_are_read_as_locations() {
    let mut resolver = started();
    let _ = resolver.open(0, "/a.py", "x");
    let request = asking(resolver.definitions(0, "/a.py", "x", 0).unwrap());
    let step = arrived(
        &mut resolver,
        request.id,
        r#"{"id":2,"result":[{"uri":"file:///b.py","range":{"start":{"line":4}}}]}"#,
    );
    assert_eq!(
        TyResolver::found(finished(step)),
        Ok(vec![DefinitionLocation {
            path: PathBuf::from("/b.py"),
            line: 4,
        }])
    );
    let error = resolver.collect(2, CollectEvent::Timeout);
    assert_eq!(
        TyResolver::found(finished(error)),
        Err("`ty server` request timed out".to_owned())
    );
}

#[test]
fn a_wait_goes_on_until_the_awaited_answer() {
    let mut resolver = started();
    assert!(matches!(resolver.collect(5, CollectEvent::Begin), CollectStep::Wait));
    for text in [
        r#"{"method":"window/logMessage"}"#,
        r#"{"id":4,"result":"early"}"#,
        r#"{"id":5,"method":"workspace/configuration"}"#,
        r#"{"id":"5","result":"other"}"#,
    ] {
        let step = arrived(&mut resolver, 5, text);
        assert!(!matches!(step, CollectStep::Finished(_)), "{text}");
    }
    assert_eq!(
        finished(arrived(&mut resolver, 5, r#"{"id":5,"result":"awaited"}"#)),
        Ok(Value::from("awaited"))
    );
}

#[test]
fn the_server_is_told_after_its_first_answer_only() {
    let mut resolver = started();
    let answer = finished(arrived(&mut resolver, 1, r#"{"id":1,"result":{"capabilities":{}}}"#));
    assert_eq!(
        sent(&TyResolver::ready(answer).unwrap()),
        value(r#"{"jsonrpc":"2.0","method":"initialized","params":{}}"#)
    );
    let late = finished(resolver.collect(1, CollectEvent::Timeout));
    assert_eq!(
        TyResolver::ready(late),
        Err("`ty server` request timed out".to_owned())
    );
}

#[test]
fn requests_are_numbered_in_a_row() {
    let mut resolver = started();
    let first = resolver.request("a/b", value(r#"{"x":[1,2.5,null]}"#)).unwrap();
    assert_eq!(first.id, 2);
    assert_eq!(
        sent(&first.packet),
        value(r#"{"jsonrpc":"2.0","id":2,"method":"a/b","params":{"x":[1,2.5,null]}}"#)
    );
    let _ = resolver.open(0, "/a.py", "");
    let _ = resolver.collect(2, CollectEvent::Timeout);
    let _ = arrived(&mut resolver, 2, r#"{"id":77,"result":1}"#);
    assert_eq!(resolver.request("c", Value::Null).unwrap().id, 3);
    assert_eq!(asking(resolver.definitions(0, "/a.py", "", 0).unwrap()).id, 4);
}

#[test]
fn errors_are_shown_as_they_are_written() {
    let mut resolver = started();
    let step = arrived(&mut resolver, 1, r#"{"id":1,"error":{"b":"é\n","a":[1, true]}}"#);
    assert_eq!(
        finished(step),
        Err(r#"`ty server` returned an error: {"a":[1,true],"b":"é\n"}"#.to_owned())
    );
}
