use kvs::protocol::{engine_name, parse_engine, select_engine, Engine};
use kvs::protocol::{
    answer_text, engine_call, get_report, get_response, get_result, handshake_reply, remove_report,
    remove_response, remove_result, response_to, set_report, set_response, set_result, EngineAnswer,
    EngineCall, GetResponse, KvEngine, KvsError, KvsResult, RemoveResponse, Request, Response,
    SetResponse,
};
use std::collections::HashMap;

struct MapEngine {
    map: HashMap<String, String>,
}

impl KvEngine for MapEngine {
    fn get(&mut self, key: String) -> KvsResult<Option<String>> {
        Ok(self.map.get(&key).cloned())
    }
    fn set(&mut self, key: String, value: String) -> KvsResult<()> {
        self.map.insert(key, value);
        Ok(())
    }
    fn remove(&mut self, key: String) -> KvsResult<()> {
        match self.map.remove(&key) {
            Some(_) => Ok(()),
            None => Err(KvsError::StringError("Key not found".to_owned())),
        }
    }
}

fn respond(engine: &mut MapEngine, req: Request) -> Response {
    let answer = match engine_call(req) {
        EngineCall::Get { key } => EngineAnswer::Get(answer_text(engine.get(key))),
        EngineCall::Put { key, value } => EngineAnswer::Put(answer_text(engine.set(key, value))),
        EngineCall::Remove { key } => EngineAnswer::Remove(answer_text(engine.remove(key))),
    };
    response_to(answer)
}

#[test]
fn server_answers_each_request_with_its_kind() {
    let mut engine = MapEngine { map: HashMap::new() };
    let r = respond(&mut engine, Request::Put { key: "k".to_owned(), value: "v".to_owned() });
    assert_eq!(r, Response::Put(SetResponse::Success));
    assert_eq!(engine.map.get("k"), Some(&"v".to_owned()));
    let r = respond(&mut engine, Request::Get { key: "k".to_owned() });
    assert_eq!(r, Response::Get(GetResponse::Success(Some("v".to_owned()))));
    let r = respond(&mut engine, Request::Remove { key: "k".to_owned() });
    assert_eq!(r, Response::Remove(RemoveResponse::Success));
    let r = respond(&mut engine, Request::Remove { key: "k".to_owned() });
    assert_eq!(r, Response::Remove(RemoveResponse::Failure("Key not found".to_owned())));
    let r = respond(&mut engine, Request::Get { key: "k".to_owned() });
    assert_eq!(r, Response::Get(GetResponse::Success(None)));
}

#[test]
fn engine_call_hands_over_key_and_value() {
    assert_eq!(
        engine_call(Request::Put { key: "k".to_owned(), value: "v".to_owned() }),
        EngineCall::Put { key: "k".to_owned(), value: "v".to_owned() }
    );
    assert_eq!(engine_call(Request::Get { key: "g".to_owned() }), EngineCall::Get { key: "g".to_owned() });
    assert_eq!(engine_call(Request::Remove { key: "r".to_owned() }), EngineCall::Remove { key: "r".to_owned() });
    assert_eq!(
        response_to(EngineAnswer::Put(Err("full".to_owned()))),
        Response::Put(SetResponse::Failure("full".to_owned()))
    );
    assert_eq!(
        response_to(EngineAnswer::Remove(Ok(()))),
        Response::Remove(RemoveResponse::Success)
    );
    assert_eq!(answer_text::<()>(Err(KvsError::StringError("t".to_owned()))), Err("t".to_owned()));
}

#[test]
fn client_reads_back_what_the_engine_answered() {
    for answer in [Ok(Some("v".to_owned())), Ok(None)].iter() {
        let back = get_result(get_response(answer.clone())).unwrap();
        assert_eq!(&Ok(back), answer);
    }
    match get_result(get_response(Err("bad".to_owned()))) {
        Err(KvsError::StringError(m)) => assert_eq!(m, "bad"),
        _ => panic!("expected a string error"),
    }
    assert!(set_result(set_response(Ok(()))).is_ok());
    assert!(matches!(set_result(set_response(Err("x".to_owned()))), Err(KvsError::StringError(_))));
    assert!(remove_result(remove_response(Ok(()))).is_ok());
    assert!(matches!(remove_result(remove_response(Err("y".to_owned()))), Err(KvsError::StringError(_))));
}

#[test]
fn reports_of_the_command_line_client() {
    assert_eq!(get_report("k", GetResponse::Success(Some("v".to_owned()))), "the value of k is v");
    assert_eq!(get_report("k", GetResponse::Success(None)), "the key k doesn't have a value");
    assert_eq!(get_report("k", GetResponse::Failure("oops".to_owned())), "this connection has an error : oops");
    assert_eq!(set_report(SetResponse::Success), "the key/value has been saved");
    assert_eq!(remove_report(RemoveResponse::Success), "the key/value has been removed");
    assert_eq!(remove_report(RemoveResponse::Failure("e".to_owned())), "this connection has an error : e");
}

#[test]
fn handshake_replies() {
    assert_eq!(handshake_reply(b"hello world"), "good");
    assert_eq!(handshake_reply(b"hello"), "good");
    assert_eq!(handshake_reply(b"hell"), "not good");
    assert_eq!(handshake_reply(b"bye"), "not good");
    assert_eq!(handshake_reply(b""), "not good");
}

#[test]
fn client_error_messages() {
    assert_eq!(KvsError::StringError("plain".to_owned()).message(), "plain");
}

#[test]
fn engine_selection() {
    assert_eq!(select_engine(None, None), Some(Engine::kvs));
    assert_eq!(select_engine(Some(Engine::sled), None), Some(Engine::sled));
    assert_eq!(select_engine(None, Some(Engine::sled)), Some(Engine::sled));
    assert_eq!(select_engine(Some(Engine::kvs), Some(Engine::kvs)), Some(Engine::kvs));
    assert_eq!(select_engine(Some(Engine::kvs), Some(Engine::sled)), None);
    assert_eq!(parse_engine("kvs"), Some(Engine::kvs));
    assert_eq!(parse_engine("sled"), Some(Engine::sled));
    assert_eq!(parse_engine("kvs\n"), None);
    assert_eq!(parse_engine(&engine_name(Engine::sled)), Some(Engine::sled));
    assert_eq!(engine_name(Engine::kvs), "kvs");
}

#[test]
fn client_io_and_json_error_messages() {
    let io = KvsError::from(std::io::Error::new(std::io::ErrorKind::Other, "reset"));
    assert_eq!(io.message(), "reset");
    let inner = serde_json::from_str::<u8>("x").unwrap_err();
    let text = inner.to_string();
    assert_eq!(KvsError::from(inner).message(), text);
}

#[test]
fn get_answer_report_texts() {
    assert_eq!(kvs::protocol::get_answer_report(Some("v1".to_owned())), "the value is : v1");
    assert_eq!(kvs::protocol::get_answer_report(None), "the database don't have the key");
}
