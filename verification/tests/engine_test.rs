use kvs::engine::{stored_value, CommandPos, KvsEngine, KvsError, KvsManager, RequestRecord};
use kvs::files::get_files_number;
use kvs::protocol::Request;
use kvs::StrMap;

fn put(k: &str, v: &str) -> Request {
    Request::Put { key: k.to_owned(), value: v.to_owned() }
}

fn rm(k: &str) -> Request {
    Request::Remove { key: k.to_owned() }
}

#[test]
fn get_files_number_test() {
    let found = get_files_number(&Vec::new());
    let engine = KvsEngine::open(&found, true, &Vec::new());
    assert!(engine.is_some());
}

#[test]
fn command_pos_new_keeps_its_fields() {
    let p = CommandPos::new(3, 14, 15);
    assert_eq!(p, CommandPos { gen: 3, pos: 14, len: 15 });
}

#[test]
fn open_replays_and_writes_to_the_next_page() {
    let logs = vec![
        vec![
            RequestRecord { request: put("a", "1"), end: 12 },
            RequestRecord { request: put("b", "2"), end: 24 },
        ],
        vec![RequestRecord { request: rm("a"), end: 9 }],
    ];
    let engine = KvsEngine::open(&vec![1, 2], true, &logs).unwrap();
    assert_eq!(engine.get(&"a".to_owned()), None);
    assert_eq!(engine.get(&"b".to_owned()), Some(CommandPos::new(1, 12, 12)));
    assert_eq!(engine.page_for_write().ok(), Some(3));
}

#[test]
fn set_and_remove_point_the_key_at_the_request() {
    let mut engine = KvsEngine::open(&vec![4], true, &vec![Vec::new()]).unwrap();
    engine.set("k".to_owned(), 0, 20).unwrap();
    assert_eq!(engine.get(&"k".to_owned()), Some(CommandPos::new(5, 0, 20)));
    engine.remove("k".to_owned(), 20, 18).unwrap();
    assert_eq!(engine.get(&"k".to_owned()), Some(CommandPos::new(5, 20, 18)));
    assert_eq!(stored_value(rm("k")), None);
    assert_eq!(stored_value(put("k", "v")), Some("v".to_owned()));
    assert_eq!(stored_value(Request::Get { key: "k".to_owned() }), None);
}

#[test]
fn writes_fail_without_the_new_log() {
    let mut engine = KvsEngine::open(&vec![1], false, &vec![Vec::new()]).unwrap();
    assert!(matches!(engine.page_for_write(), Err(KvsError::Nothing)));
    assert!(matches!(engine.set("k".to_owned(), 0, 3), Err(KvsError::Nothing)));
    assert_eq!(engine.get(&"k".to_owned()), None);
}

#[test]
fn open_refuses_a_last_generation_at_the_limit() {
    assert!(KvsEngine::open(&vec![u64::MAX], true, &vec![Vec::new()]).is_none());
}

#[test]
fn manager_load_needs_the_log_held_open() {
    let manager = KvsManager::new(vec![1, 2], 3).unwrap();
    assert!(manager.holds(2));
    assert!(!manager.holds(3));
    assert_eq!(manager.page(), 3);
    let mut index: StrMap<CommandPos> = StrMap::new();
    let records = vec![RequestRecord { request: put("x", "y"), end: 30 }];
    assert!(matches!(manager.load(9, &records, &mut index), Err(KvsError::Nothing)));
    assert_eq!(index.get(&"x".to_owned()), None);
    assert!(manager.load(2, &records, &mut index).is_ok());
    assert_eq!(index.get(&"x".to_owned()), Some(&CommandPos::new(2, 0, 30)));
}

#[test]
fn engine_error_messages() {
    assert_eq!(KvsError::Nothing.message(), "the option is None");
    let io = std::io::Error::new(std::io::ErrorKind::Other, "boom");
    assert_eq!(KvsError::from(io).message(), "IO error : boom");
}

#[test]
fn engine_json_error_message() {
    let inner = serde_json::from_str::<u8>("x").unwrap_err();
    let text = format!("serde error : {}", inner);
    assert_eq!(KvsError::from(inner).message(), text);
}

#[test]
fn manager_places_new_requests_in_the_page_written_to() {
    let manager = KvsManager::new(vec![1, 2], 2).unwrap();
    assert_eq!(manager.set(40, 12).ok(), Some(CommandPos::new(2, 40, 12)));
    assert_eq!(manager.remove(52, 9).ok(), Some(CommandPos::new(2, 52, 9)));
    let missing = KvsManager::new(vec![1], 2).unwrap();
    assert!(matches!(missing.set(0, 1), Err(KvsError::Nothing)));
    assert!(matches!(missing.remove(0, 1), Err(KvsError::Nothing)));
}

#[test]
fn engine_answer_text() {
    assert_eq!(kvs::engine::answer_text::<u8>(Ok(3)), Ok(3));
    assert_eq!(kvs::engine::answer_text::<u8>(Err(KvsError::Nothing)), Err("the option is None".to_owned()));
}

/// The value that a lookup reads back at `place` of the log `records` of
/// generation `gen`.
fn read_at(records: &[RequestRecord], gen: u64, place: CommandPos) -> Option<String> {
    let mut start = 0;
    for r in records {
        if place == CommandPos::new(gen, start, r.end - start) {
            return stored_value(copy(&r.request));
        }
        start = r.end;
    }
    panic!("no request at {:?}", place)
}

fn copy(r: &Request) -> Request {
    match r {
        Request::Get { key } => Request::Get { key: key.clone() },
        Request::Put { key, value } => put(key, value),
        Request::Remove { key } => rm(key),
    }
}

#[test]
fn reopened_engine_reads_what_the_running_engine_read() {
    let first = || vec![RequestRecord { request: put("k", "old"), end: 20 }];
    let mut engine = KvsEngine::open(&vec![1], true, &vec![first()]).unwrap();
    let written = vec![
        RequestRecord { request: put("a", "1"), end: 15 },
        RequestRecord { request: put("b", "2"), end: 30 },
        RequestRecord { request: put("a", "3"), end: 45 },
        RequestRecord { request: rm("b"), end: 57 },
    ];
    let mut start = 0;
    for r in &written {
        let result = match &r.request {
            Request::Put { key, .. } => engine.set(key.clone(), start, r.end - start),
            Request::Remove { key } => engine.remove(key.clone(), start, r.end - start),
            Request::Get { .. } => unreachable!(),
        };
        assert!(result.is_ok());
        start = r.end;
    }
    let running = |key: &str| engine.get(&key.to_owned()).map(|p| read_at(&written, 2, p));
    assert_eq!(running("a"), Some(Some("3".to_owned())));
    assert_eq!(running("b"), Some(None));

    let again: Vec<RequestRecord> =
        written.iter().map(|r| RequestRecord { request: copy(&r.request), end: r.end }).collect();
    let reopened = KvsEngine::open(&vec![1, 2], true, &vec![first(), again]).unwrap();
    let value = |key: &str| reopened.get(&key.to_owned()).and_then(|p| read_at(&written, 2, p));
    assert_eq!(value("a"), Some("3".to_owned()));
    assert_eq!(value("b"), None);
    assert_eq!(reopened.get(&"k".to_owned()), engine.get(&"k".to_owned()));
    assert_eq!(reopened.get(&"k".to_owned()), Some(CommandPos::new(1, 0, 20)));
}

#[test]
fn engine_answer_text_of_io_and_json_errors() {
    let io = std::io::Error::new(std::io::ErrorKind::Other, "disk gone");
    assert_eq!(
        kvs::engine::answer_text::<()>(Err(KvsError::from(io))),
        Err("IO error : disk gone".to_owned())
    );
    let inner = serde_json::from_str::<u8>("x").unwrap_err();
    let text = format!("serde error : {}", inner);
    assert_eq!(kvs::engine::answer_text::<()>(Err(KvsError::from(inner))), Err(text));
}
