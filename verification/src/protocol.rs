//! The messages that clients and servers of the networked store exchange,
//! and what each side makes of them: a server turns the answer of its
//! engine into a response, and a client turns a response back into a result.

use vstd::prelude::*;
use crate::foreign::{io_error_text, json_error_text};

verus! {

/// A request from a client.
#[derive(Debug, PartialEq, Eq)]
pub enum Request {
    Get { key: String },
    Put { key: String, value: String },
    Remove { key: String },
}

/// The answer to a `get`: the value found, or the text of an error.
#[derive(Debug, PartialEq, Eq)]
pub enum GetResponse {
    Success(Option<String>),
    Failure(String),
}

/// The answer to a `set`.
#[derive(Debug, PartialEq, Eq)]
pub enum SetResponse {
    Success,
    Failure(String),
}

/// The answer to a `remove`.
#[derive(Debug, PartialEq, Eq)]
pub enum RemoveResponse {
    Success,
    Failure(String),
}

/// The errors that a client meets.
#[derive(Debug)]
pub enum KvsError {
    Io(std::io::Error),
    Serde(serde_json::Error),
    StringError(String),
}

impl From<std::io::Error> for KvsError {
    fn from(err: std::io::Error) -> (e: Self) {
        KvsError::Io(err)
    }
}

impl vstd::std_specs::convert::FromSpecImpl<std::io::Error> for KvsError {
    open spec fn obeys_from_spec() -> bool {
        true
    }

    open spec fn from_spec(v: std::io::Error) -> Self {
        KvsError::Io(v)
    }
}

impl From<serde_json::Error> for KvsError {
    fn from(err: serde_json::Error) -> (e: Self) {
        KvsError::Serde(err)
    }
}

impl vstd::std_specs::convert::FromSpecImpl<serde_json::Error> for KvsError {
    open spec fn obeys_from_spec() -> bool {
        true
    }

    open spec fn from_spec(v: serde_json::Error) -> Self {
        KvsError::Serde(v)
    }
}

impl KvsError {
    /// The text that describes the error: the server's text for a
    /// `StringError`, that of the inner error otherwise.
    pub fn message(&self) -> (text: String)
        ensures
            self matches KvsError::StringError(m) ==> text@ == m@,
    {
        match self {
            KvsError::Io(e) => io_error_text(e),
            KvsError::Serde(e) => json_error_text(e),
            KvsError::StringError(m) => m.clone(),
        }
    }
}

/// The results that a client gives.
pub type KvsResult<T> = Result<T, KvsError>;

/// A storage engine that a server answers requests from.
pub trait KvEngine {
    /// The value of `key`, if the engine holds one.
    fn get(&mut self, key: String) -> KvsResult<Option<String>>;

    /// Gives `key` the value `value`.
    fn set(&mut self, key: String, value: String) -> KvsResult<()>;

    /// Takes `key` out of the engine.
    fn remove(&mut self, key: String) -> KvsResult<()>;
}

/// The response to one request, of the kind that answers it.
#[derive(Debug, PartialEq, Eq)]
pub enum Response {
    Get(GetResponse),
    Put(SetResponse),
    Remove(RemoveResponse),
}

/// The storage engines a server can run on.
#[allow(non_camel_case_types)]
#[derive(Debug, Clone, Copy, PartialEq, Eq, Structural)]
pub enum Engine {
    kvs,
    sled,
}

/// The engine a server runs on: the one asked for, else the one its
/// directory was last run with, else `kvs`; `None` where the one asked for
/// differs from the one the directory was last run with.
pub fn select_engine(requested: Option<Engine>, current: Option<Engine>) -> (r: Option<Engine>)
    ensures
        match current {
            Some(c) => {
                if requested is None || requested == Some(c) {
                    r == Some(c)
                } else {
                    r is None
                }
            },
            None => r == Some(
                match requested {
                    Some(e) => e,
                    None => Engine::kvs,
                },
            ),
        },
{
    let chosen = match requested {
        Some(e) => Some(e),
        None => current,
    };
    match current {
        Some(c) => {
            if chosen == Some(c) {
                Some(c)
            } else {
                None
            }
        },
        None => match chosen {
            Some(e) => Some(e),
            None => Some(Engine::kvs),
        },
    }
}

/// The name of an engine, as the engine file records it.
pub open spec fn engine_text(e: Engine) -> Seq<char> {
    match e {
        Engine::kvs => "kvs"@,
        Engine::sled => "sled"@,
    }
}

/// The engine that a text names, if any.
pub open spec fn engine_of_text(s: Seq<char>) -> Option<Engine> {
    if s == "kvs"@ {
        Some(Engine::kvs)
    } else if s == "sled"@ {
        Some(Engine::sled)
    } else {
        None
    }
}

/// The engine that the text `s` names: `kvs` or `sled`.
pub fn parse_engine(s: &str) -> (r: Option<Engine>)
    ensures
        r == engine_of_text(s@),
{
    let text = String::from_str(s);
    if text == String::from_str("kvs") {
        Some(Engine::kvs)
    } else if text == String::from_str("sled") {
        Some(Engine::sled)
    } else {
        None
    }
}

/// The name of the engine `e`, as the engine file records it.
pub fn engine_name(e: Engine) -> (name: String)
    ensures
        name@ == engine_text(e),
{
    match e {
        Engine::kvs => String::from_str("kvs"),
        Engine::sled => String::from_str("sled"),
    }
}

/// The name that the engine file records for an engine is read back as
/// that engine.
pub proof fn law_engine_name_round_trip(e: Engine)
    ensures
        engine_of_text(engine_text(e)) == Some(e),
{
    reveal_strlit("kvs");
    reveal_strlit("sled");
    assert("kvs"@.len() != "sled"@.len());
}

/// The engine method that a server calls to answer a request, with the
/// arguments it hands over.
#[derive(Debug, PartialEq, Eq)]
pub enum EngineCall {
    Get { key: String },
    Put { key: String, value: String },
    Remove { key: String },
}

/// The engine call that answers the request `req`: `get` of its key for a
/// `get`, `set` of its key and value for a `set`, `remove` of its key for a
/// `remove`.
pub fn engine_call(req: Request) -> (call: EngineCall)
    ensures
        match req {
            Request::Get { key } => call == EngineCall::Get { key },
            Request::Put { key, value } => call == EngineCall::Put { key, value },
            Request::Remove { key } => call == EngineCall::Remove { key },
        },
{
    match req {
        Request::Get { key } => EngineCall::Get { key },
        Request::Put { key, value } => EngineCall::Put { key, value },
        Request::Remove { key } => EngineCall::Remove { key },
    }
}

/// What an engine answered to a call, its error already turned into text.
#[derive(Debug, PartialEq, Eq)]
pub enum EngineAnswer {
    Get(Result<Option<String>, String>),
    Put(Result<(), String>),
    Remove(Result<(), String>),
}

/// An engine's result with its error turned into the error's text.
pub fn answer_text<T>(result: KvsResult<T>) -> (answer: Result<T, String>)
    ensures
        result is Ok <==> answer is Ok,
        result matches Ok(v) ==> answer == Ok::<T, String>(v),
        result matches Err(KvsError::StringError(m)) ==> (answer matches Err(t) && t@ == m@),
{
    match result {
        Ok(v) => Ok(v),
        Err(e) => Err(e.message()),
    }
}

/// The spec of the response to a `set` whose engine answered `answer`.
pub open spec fn server_set(answer: Result<(), String>) -> SetResponse {
    match answer {
        Ok(()) => SetResponse::Success,
        Err(msg) => SetResponse::Failure(msg),
    }
}

/// The spec of the response to a `remove` whose engine answered `answer`.
pub open spec fn server_remove(answer: Result<(), String>) -> RemoveResponse {
    match answer {
        Ok(()) => RemoveResponse::Success,
        Err(msg) => RemoveResponse::Failure(msg),
    }
}

/// The response that a server sends for the engine's answer `answer`: of
/// the kind of the call answered, carrying the answer or its error's text.
pub fn response_to(answer: EngineAnswer) -> (resp: Response)
    ensures
        match answer {
            EngineAnswer::Get(a) => resp == Response::Get(server_get(a)),
            EngineAnswer::Put(a) => resp == Response::Put(server_set(a)),
            EngineAnswer::Remove(a) => resp == Response::Remove(server_remove(a)),
        },
{
    match answer {
        EngineAnswer::Get(a) => Response::Get(get_response(a)),
        EngineAnswer::Put(a) => Response::Put(set_response(a)),
        EngineAnswer::Remove(a) => Response::Remove(remove_response(a)),
    }
}

/// The response of a server whose engine answered a `get` with `answer`:
/// the value, or the text of the engine's error.
pub fn get_response(answer: Result<Option<String>, String>) -> (resp: GetResponse)
    ensures
        resp == server_get(answer),
{
    match answer {
        Ok(v) => GetResponse::Success(v),
        Err(msg) => GetResponse::Failure(msg),
    }
}

/// The response of a server whose engine answered a `set` with `answer`.
pub fn set_response(answer: Result<(), String>) -> (resp: SetResponse)
    ensures
        resp == server_set(answer),
{
    match answer {
        Ok(()) => SetResponse::Success,
        Err(msg) => SetResponse::Failure(msg),
    }
}

/// The response of a server whose engine answered a `remove` with `answer`.
pub fn remove_response(answer: Result<(), String>) -> (resp: RemoveResponse)
    ensures
        resp == server_remove(answer),
{
    match answer {
        Ok(()) => RemoveResponse::Success,
        Err(msg) => RemoveResponse::Failure(msg),
    }
}

/// What a client gives for the response `resp` to its `get`: the value,
/// or a `StringError` with the server's text.
pub fn get_result(resp: GetResponse) -> (r: KvsResult<Option<String>>)
    ensures
        match client_get(resp) {
            Ok(v) => r matches Ok(w) && w == v,
            Err(msg) => r matches Err(KvsError::StringError(m)) && m == msg,
        },
{
    match resp {
        GetResponse::Success(value) => Ok(value),
        GetResponse::Failure(msg) => Err(KvsError::StringError(msg)),
    }
}

/// What a client gives for the response `resp` to its `set`.
pub fn set_result(resp: SetResponse) -> (r: KvsResult<()>)
    ensures
        match resp {
            SetResponse::Success => r is Ok,
            SetResponse::Failure(msg) => r matches Err(KvsError::StringError(m)) && m == msg,
        },
{
    match resp {
        SetResponse::Success => Ok(()),
        SetResponse::Failure(msg) => Err(KvsError::StringError(msg)),
    }
}

/// What a client gives for the response `resp` to its `remove`.
pub fn remove_result(resp: RemoveResponse) -> (r: KvsResult<()>)
    ensures
        match resp {
            RemoveResponse::Success => r is Ok,
            RemoveResponse::Failure(msg) => r matches Err(KvsError::StringError(m)) && m == msg,
        },
{
    match resp {
        RemoveResponse::Success => Ok(()),
        RemoveResponse::Failure(msg) => Err(KvsError::StringError(msg)),
    }
}

/// The spec of what a client gives for the response to its `get`.
pub open spec fn client_get(resp: GetResponse) -> Result<Option<String>, String> {
    match resp {
        GetResponse::Success(v) => Ok(v),
        GetResponse::Failure(msg) => Err(msg),
    }
}

/// The spec of the response of a server whose engine answered `answer`.
pub open spec fn server_get(answer: Result<Option<String>, String>) -> GetResponse {
    match answer {
        Ok(v) => GetResponse::Success(v),
        Err(msg) => GetResponse::Failure(msg),
    }
}

/// A client reads back exactly what the server's engine answered: the
/// value found, or the text of the engine's error.
pub proof fn law_get_round_trip(answer: Result<Option<String>, String>)
    ensures
        client_get(server_get(answer)) == answer,
{
}

/// What the command-line client prints for the value that the server
/// gave back for a key: the value, or that the database lacks the key.
pub fn get_answer_report(value: Option<String>) -> (text: String)
    ensures
        match value {
            Some(v) => text@ == "the value is : "@ + v@,
            None => text@ == "the database don't have the key"@,
        },
{
    match value {
        Some(v) => String::from_str("the value is : ").concat(v.as_str()),
        None => String::from_str("the database don't have the key"),
    }
}

/// What the command-line client reports of the response `resp` to its
/// `get` of `key`.
pub fn get_report(key: &str, resp: GetResponse) -> (text: String)
    ensures
        match resp {
            GetResponse::Success(Some(v)) => text@ == "the value of "@ + key@ + " is "@ + v@,
            GetResponse::Success(None) => text@ == "the key "@ + key@ + " doesn't have a value"@,
            GetResponse::Failure(msg) => text@ == "this connection has an error : "@ + msg@,
        },
{
    match resp {
        GetResponse::Success(Some(v)) => {
            let text = String::from_str("the value of ").concat(key).concat(" is ").concat(v.as_str());
            text
        },
        GetResponse::Success(None) => {
            String::from_str("the key ").concat(key).concat(" doesn't have a value")
        },
        GetResponse::Failure(msg) => {
            String::from_str("this connection has an error : ").concat(msg.as_str())
        },
    }
}

/// What the command-line client reports of the response to its `set`.
pub fn set_report(resp: SetResponse) -> (text: String)
    ensures
        match resp {
            SetResponse::Success => text@ == "the key/value has been saved"@,
            SetResponse::Failure(msg) => text@ == "this connection has an error : "@ + msg@,
        },
{
    match resp {
        SetResponse::Success => String::from_str("the key/value has been saved"),
        SetResponse::Failure(msg) => {
            String::from_str("this connection has an error : ").concat(msg.as_str())
        },
    }
}

/// What the command-line client reports of the response to its `remove`.
pub fn remove_report(resp: RemoveResponse) -> (text: String)
    ensures
        match resp {
            RemoveResponse::Success => text@ == "the key/value has been removed"@,
            RemoveResponse::Failure(msg) => text@ == "this connection has an error : "@ + msg@,
        },
{
    match resp {
        RemoveResponse::Success => String::from_str("the key/value has been removed"),
        RemoveResponse::Failure(msg) => {
            String::from_str("this connection has an error : ").concat(msg.as_str())
        },
    }
}

/// Whether `buf` starts with the bytes of `hello`.
pub open spec fn starts_with_hello(buf: Seq<u8>) -> bool {
    buf.len() >= 5 && buf.take(5) == seq![104u8, 101u8, 108u8, 108u8, 111u8]
}

/// The reply of the greeting server to the message `buf`: `good` to a
/// message that starts with `hello`, `not good` to any other.
pub fn handshake_reply(buf: &[u8]) -> (reply: String)
    ensures
        starts_with_hello(buf@) ==> reply@ == seq!['g', 'o', 'o', 'd'],
        !starts_with_hello(buf@) ==> reply@ == seq!['n', 'o', 't', ' ', 'g', 'o', 'o', 'd'],
{
    proof {
        reveal_strlit("good");
        reveal_strlit("not good");
    }
    let hello: [u8; 5] = [104u8, 101u8, 108u8, 108u8, 111u8];
    let mut greeted = buf.len() >= 5;
    let mut i: usize = 0;
    while greeted && i < 5
        invariant
            greeted ==> buf@.len() >= 5,
            i <= 5,
            hello@ == seq![104u8, 101u8, 108u8, 108u8, 111u8],
            greeted ==> forall|j: int| 0 <= j < i ==> buf@[j] == hello@[j],
            !greeted ==> !starts_with_hello(buf@),
        decreases 5 - i,
    {
        if buf[i] != hello[i] {
            assert(buf@.take(5)[i as int] != hello@[i as int]);
            greeted = false;
        }
        i = i + 1;
    }
    if greeted {
        assert(buf@.take(5) =~= seq![104u8, 101u8, 108u8, 108u8, 111u8]);
        String::from_str("good")
    } else {
        String::from_str("not good")
    }
}

} // verus!
