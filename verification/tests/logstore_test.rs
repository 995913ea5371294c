use kvs::logstore::{
    load, read_value, Command, CommandPos, KvStore, KvsError, LogRecord, COMPACTION_THRESHOLD,
};
use kvs::StrMap;

/// A log held in memory: each command with the bytes it would take as JSON.
struct MemLog {
    commands: Vec<(u64, u64, Command)>,
    end: u64,
}

fn json_len(c: &Command) -> u64 {
    let text = match c {
        Command::Put { key, value } => format!("{{\"Set\":{{\"key\":\"{}\",\"value\":\"{}\"}}}}", key, value),
        Command::Remove { key } => format!("{{\"Remove\":{{\"key\":\"{}\"}}}}", key),
    };
    text.len() as u64
}

impl MemLog {
    fn new() -> Self {
        MemLog { commands: Vec::new(), end: 0 }
    }
    fn append(&mut self, c: Command) -> (u64, u64) {
        let pos = self.end;
        let end = pos + json_len(&c);
        self.commands.push((pos, end, c));
        self.end = end;
        (pos, end)
    }
    fn at(&self, p: &CommandPos) -> Command {
        for (pos, end, c) in self.commands.iter() {
            if *pos == p.pos && end - pos == p.len {
                return match c {
                    Command::Put { key, value } => Command::set(key.clone(), value.clone()),
                    Command::Remove { key } => Command::remove(key.clone()),
                };
            }
        }
        panic!("no command at {:?}", p)
    }
}

fn set(store: &mut KvStore, log: &mut MemLog, key: &str, value: &str) -> bool {
    let (pos, end) = log.append(Command::set(key.to_owned(), value.to_owned()));
    store.set(key.to_owned(), pos, end)
}

fn get(store: &KvStore, log: &MemLog, key: &str) -> Result<Option<String>, KvsError> {
    match store.get(&key.to_owned()) {
        Some(p) => read_value(log.at(&p)),
        None => Ok(None),
    }
}

#[test]
fn m() {
    let mut store = KvStore::open(&Vec::new(), &Vec::new()).unwrap();
    let mut log = MemLog::new();
    set(&mut store, &mut log, "1", "2");
    set(&mut store, &mut log, "3", "4");
    let value = get(&store, &log, "1").unwrap();
    assert_eq!(value.unwrap(), "2".to_owned());
}

#[test]
fn open_without_logs_writes_generation_one() {
    let store = KvStore::open(&Vec::new(), &Vec::new()).unwrap();
    assert_eq!(store.current_gen(), 1);
    assert_eq!(store.uncompacted(), 0);
}

#[test]
fn open_writes_after_the_last_generation() {
    let store = KvStore::open(&vec![2, 5], &vec![Vec::new(), Vec::new()]).unwrap();
    assert_eq!(store.current_gen(), 6);
    assert!(KvStore::open(&vec![u64::MAX], &vec![Vec::new()]).is_none());
}

#[test]
fn set_replaces_and_counts_the_old_command_stale() {
    let mut store = KvStore::open(&Vec::new(), &Vec::new()).unwrap();
    assert!(!store.set("k".to_owned(), 0, 10));
    assert_eq!(store.uncompacted(), 0);
    assert!(!store.set("k".to_owned(), 10, 25));
    assert_eq!(store.uncompacted(), 10);
    assert_eq!(store.get(&"k".to_owned()), Some(CommandPos { gen: 1, pos: 10, len: 15 }));
    assert_eq!(store.stale_len(&"k".to_owned()), 15);
}

#[test]
fn set_asks_for_compaction_past_the_threshold() {
    let mut store = KvStore::open(&Vec::new(), &Vec::new()).unwrap();
    assert!(!store.set("k".to_owned(), 0, COMPACTION_THRESHOLD));
    assert!(!store.set("k".to_owned(), COMPACTION_THRESHOLD, COMPACTION_THRESHOLD + 1));
    assert_eq!(store.uncompacted(), COMPACTION_THRESHOLD);
    assert!(store.set("k".to_owned(), COMPACTION_THRESHOLD + 1, COMPACTION_THRESHOLD + 2));
    assert_eq!(store.uncompacted(), COMPACTION_THRESHOLD + 1);
}

#[test]
fn remove_of_missing_key_is_key_not_found() {
    let mut store = KvStore::open(&Vec::new(), &Vec::new()).unwrap();
    assert!(matches!(store.remove_command("k".to_owned()), Err(KvsError::KeyNotFound)));
    assert!(matches!(store.remove(&"k".to_owned()), Err(KvsError::KeyNotFound)));
    assert_eq!(store.uncompacted(), 0);
}

#[test]
fn remove_takes_the_key_out() {
    let mut store = KvStore::open(&Vec::new(), &Vec::new()).unwrap();
    let mut log = MemLog::new();
    set(&mut store, &mut log, "a", "1");
    let cmd = store.remove_command("a".to_owned()).unwrap();
    assert_eq!(cmd, Command::remove("a".to_owned()));
    log.append(cmd);
    store.remove(&"a".to_owned()).unwrap();
    assert_eq!(get(&store, &log, "a").unwrap(), None);
    assert!(!store.contains_key(&"a".to_owned()));
    assert_eq!(store.uncompacted(), json_len(&Command::set("a".to_owned(), "1".to_owned())));
}

#[test]
fn read_value_of_a_remove_is_unexpected() {
    assert!(matches!(read_value(Command::remove("a".to_owned())), Err(KvsError::UnexpectedCommandType)));
    assert_eq!(read_value(Command::set("a".to_owned(), "b".to_owned())).unwrap(), Some("b".to_owned()));
}

#[test]
fn load_replays_a_log() {
    let records = vec![
        LogRecord { command: Command::set("a".to_owned(), "1".to_owned()), end: 10 },
        LogRecord { command: Command::set("b".to_owned(), "2".to_owned()), end: 20 },
        LogRecord { command: Command::set("a".to_owned(), "3".to_owned()), end: 32 },
        LogRecord { command: Command::remove("b".to_owned()), end: 40 },
    ];
    let mut index: StrMap<CommandPos> = StrMap::new();
    let stale = load(7, &records, &mut index).unwrap();
    // a's first set (10 bytes), b's set (10 bytes) and the remove itself (8 bytes)
    assert_eq!(stale, 28);
    assert_eq!(index.get(&"a".to_owned()), Some(&CommandPos { gen: 7, pos: 20, len: 12 }));
    assert_eq!(index.get(&"b".to_owned()), None);
}

#[test]
fn load_reports_overflow() {
    let records = vec![
        LogRecord { command: Command::set("a".to_owned(), "1".to_owned()), end: u64::MAX },
        LogRecord { command: Command::remove("a".to_owned()), end: u64::MAX },
    ];
    let mut index: StrMap<CommandPos> = StrMap::new();
    index.insert("a".to_owned(), CommandPos { gen: 1, pos: 0, len: 5 });
    assert_eq!(load(2, &records, &mut index), None);
}

#[test]
fn open_replays_the_logs_in_turn() {
    let logs = vec![
        vec![LogRecord { command: Command::set("a".to_owned(), "1".to_owned()), end: 10 }],
        vec![
            LogRecord { command: Command::set("a".to_owned(), "2".to_owned()), end: 10 },
            LogRecord { command: Command::remove("a".to_owned()), end: 18 },
            LogRecord { command: Command::set("c".to_owned(), "3".to_owned()), end: 30 },
        ],
    ];
    let store = KvStore::open(&vec![1, 4], &logs).unwrap();
    assert_eq!(store.current_gen(), 5);
    assert_eq!(store.uncompacted(), 10 + 10 + 8);
    assert_eq!(store.get(&"a".to_owned()), None);
    assert_eq!(store.get(&"c".to_owned()), Some(CommandPos { gen: 4, pos: 18, len: 12 }));
}

#[test]
fn command_pos_from_range() {
    assert_eq!(CommandPos::from((3, 5..9)), CommandPos { gen: 3, pos: 5, len: 4 });
    assert_eq!(CommandPos::from((0, 7..7)), CommandPos { gen: 0, pos: 7, len: 0 });
}

#[test]
fn error_messages() {
    assert_eq!(KvsError::KeyNotFound.message(), "Key Not Found");
    assert_eq!(KvsError::UnexpectedCommandType.message(), "Unexpected Command Type");
    let io = std::io::Error::new(std::io::ErrorKind::Other, "disk gone");
    assert_eq!(KvsError::from(io).message(), "disk gone");
}

#[test]
fn json_error_message_is_the_inner_text() {
    let inner = serde_json::from_str::<u8>("x").unwrap_err();
    let text = inner.to_string();
    assert_eq!(KvsError::from(inner).message(), text);
}

#[test]
fn open_counts_every_byte_once() {
    let logs = vec![
        vec![
            LogRecord { command: Command::set("a".to_owned(), "1".to_owned()), end: 10 },
            LogRecord { command: Command::set("b".to_owned(), "2".to_owned()), end: 21 },
        ],
        vec![
            LogRecord { command: Command::set("a".to_owned(), "3".to_owned()), end: 12 },
            LogRecord { command: Command::remove("b".to_owned()), end: 20 },
        ],
    ];
    let store = KvStore::open(&vec![1, 2], &logs).unwrap();
    let live: u64 = ["a", "b"]
        .iter()
        .map(|k| store.get(&k.to_string()).map(|p| p.len).unwrap_or(0))
        .sum();
    assert_eq!(store.uncompacted() + live, 21 + 20);
}

#[test]
fn runtime_set_counts_its_bytes_and_remove_does_not() {
    let mut store = KvStore::open(&Vec::new(), &Vec::new()).unwrap();
    store.set("a".to_owned(), 0, 10);
    store.set("a".to_owned(), 10, 25);
    // 25 bytes written: 15 live, 10 stale
    assert_eq!(store.uncompacted() + store.stale_len(&"a".to_owned()), 25);
    store.remove(&"a".to_owned()).unwrap();
    // the remove command's own bytes are not counted
    assert_eq!(store.uncompacted(), 25);
}

#[test]
fn reopen_finds_the_last_write() {
    let first = vec![LogRecord { command: Command::set("k".to_owned(), "old".to_owned()), end: 29 }];
    let mut store = KvStore::open(&vec![1], &vec![first.clone_records()]).unwrap();
    let mut log = MemLog::new();
    set(&mut store, &mut log, "a", "1");
    set(&mut store, &mut log, "b", "2");
    set(&mut store, &mut log, "a", "3");
    let (_, end) = log.append(Command::remove("b".to_owned()));
    let _ = end;
    store.remove(&"b".to_owned()).unwrap();
    assert_eq!(get(&store, &log, "a").unwrap(), Some("3".to_owned()));
    assert_eq!(get(&store, &log, "b").unwrap(), None);

    let written: Vec<LogRecord> = log
        .commands
        .iter()
        .map(|(_, end, c)| LogRecord { command: copy(c), end: *end })
        .collect();
    let reopened = KvStore::open(&vec![1, 2], &vec![first.clone_records(), written]).unwrap();
    for key in ["a", "b", "k"] {
        assert_eq!(reopened.get(&key.to_owned()), store.get(&key.to_owned()));
    }
    assert_eq!(get(&reopened, &log, "a").unwrap(), Some("3".to_owned()));
    assert_eq!(reopened.get(&"k".to_owned()), Some(CommandPos { gen: 1, pos: 0, len: 29 }));
}

fn copy(c: &Command) -> Command {
    match c {
        Command::Put { key, value } => Command::set(key.clone(), value.clone()),
        Command::Remove { key } => Command::remove(key.clone()),
    }
}

trait CloneRecords {
    fn clone_records(&self) -> Vec<LogRecord>;
}

impl CloneRecords for Vec<LogRecord> {
    fn clone_records(&self) -> Vec<LogRecord> {
        self.iter().map(|r| LogRecord { command: copy(&r.command), end: r.end }).collect()
    }
}
