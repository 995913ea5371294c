//! The log-structured store: every `set` and `remove` is a command appended
//! to the log of the current generation, and an in-memory index maps each
//! key to the place of the command that holds its value. Opening a store
//! replays the logs of the older generations into the index.
//!
//! The reading and writing of log files happens outside this module; here
//! stands what the store decides: where a key's value is, what the index
//! becomes after each command, and how many bytes of the logs are stale.

use vstd::prelude::*;
use crate::files::sorted;
use crate::foreign::{io_error_text, json_error_text};
use crate::strmap::StrMap;

verus! {

/// Once this many bytes of the logs are stale, the store asks for a compaction.
pub const COMPACTION_THRESHOLD: u64 = 1024 * 1024;

/// A command as it is written to a log.
#[derive(Debug, PartialEq, Eq)]
pub enum Command {
    Put { key: String, value: String },
    Remove { key: String },
}

impl Command {
    /// The command that gives `key` the value `value`.
    pub fn set(key: String, value: String) -> (c: Command)
        ensures
            c == (Command::Put { key, value }),
    {
        Command::Put { key, value }
    }

    /// The command that takes `key` out of the store.
    pub fn remove(key: String) -> (c: Command)
        ensures
            c == (Command::Remove { key }),
    {
        Command::Remove { key }
    }
}

/// Where a command lies: the generation of its log, its offset in that log
/// and its length in bytes.
#[derive(Debug, Clone, Copy, PartialEq, Eq, Structural)]
pub struct CommandPos {
    pub gen: u64,
    pub pos: u64,
    pub len: u64,
}

impl CommandPos {
    /// The place of the command of log `gen` that occupies the byte range `range`.
    pub fn from(pair: (u64, core::ops::Range<u64>)) -> (p: CommandPos)
        requires
            pair.1.start <= pair.1.end,
        ensures
            p == (CommandPos { gen: pair.0, pos: pair.1.start, len: (pair.1.end - pair.1.start) as u64 }),
    {
        let (gen, range) = pair;
        CommandPos { gen, pos: range.start, len: range.end - range.start }
    }
}

/// The errors of the store.
#[derive(Debug)]
pub enum KvsError {
    IO(std::io::Error),
    SerDe(serde_json::Error),
    KeyNotFound,
    UnexpectedCommandType,
}

impl From<std::io::Error> for KvsError {
    fn from(err: std::io::Error) -> (e: Self) {
        KvsError::IO(err)
    }
}

impl vstd::std_specs::convert::FromSpecImpl<std::io::Error> for KvsError {
    open spec fn obeys_from_spec() -> bool {
        true
    }

    open spec fn from_spec(v: std::io::Error) -> Self {
        KvsError::IO(v)
    }
}

impl From<serde_json::Error> for KvsError {
    fn from(err: serde_json::Error) -> (e: Self) {
        KvsError::SerDe(err)
    }
}

impl vstd::std_specs::convert::FromSpecImpl<serde_json::Error> for KvsError {
    open spec fn obeys_from_spec() -> bool {
        true
    }

    open spec fn from_spec(v: serde_json::Error) -> Self {
        KvsError::SerDe(v)
    }
}

impl KvsError {
    /// The text that describes the error: that of the inner error for an
    /// I/O or JSON error.
    pub fn message(&self) -> (text: String)
        ensures
            self is KeyNotFound ==> text@ == "Key Not Found"@,
            self is UnexpectedCommandType ==> text@ == "Unexpected Command Type"@,
    {
        match self {
            KvsError::IO(e) => io_error_text(e),
            KvsError::SerDe(e) => json_error_text(e),
            KvsError::KeyNotFound => String::from_str("Key Not Found"),
            KvsError::UnexpectedCommandType => String::from_str("Unexpected Command Type"),
        }
    }
}

/// The results of the store.
pub type KvResult<T> = Result<T, KvsError>;

/// A command read back from a log, with the offset just past it.
pub struct LogRecord {
    pub command: Command,
    pub end: u64,
}

/// The offset at which record `i` of a log starts: logs are read from
/// offset 0 and each command starts where the one before it ended.
pub open spec fn record_start(records: Seq<LogRecord>, i: int) -> int {
    if i <= 0 {
        0
    } else {
        records[i - 1].end as int
    }
}

/// The records' end offsets never decrease.
pub open spec fn ends_ordered(records: Seq<LogRecord>) -> bool {
    forall|i: int, j: int| 0 <= i <= j < records.len() ==> records[i].end <= records[j].end
}

/// The length of the command that a new command about `key` makes stale:
/// the one the index holds for `key`, if any.
pub open spec fn superseded_len(index: Map<Seq<char>, CommandPos>, key: Seq<char>) -> nat {
    if index.contains_key(key) {
        index[key].len as nat
    } else {
        0
    }
}

/// The index after the command `c`, found at bytes `start..end` of log
/// `gen`, and the number of bytes it makes stale: a `set` makes the command
/// it replaces stale; a `remove` makes both that command and itself stale.
pub open spec fn replay_command(
    index: Map<Seq<char>, CommandPos>,
    gen: u64,
    start: int,
    end: int,
    c: Command,
) -> (Map<Seq<char>, CommandPos>, nat) {
    match c {
        Command::Put { key, .. } => (
            index.insert(key@, CommandPos { gen, pos: start as u64, len: (end - start) as u64 }),
            superseded_len(index, key@),
        ),
        Command::Remove { key } => (
            index.remove(key@),
            superseded_len(index, key@) + (end - start) as nat,
        ),
    }
}

/// The index after replaying the records of log `gen` in order, and the
/// number of bytes they make stale.
pub open spec fn replay(index: Map<Seq<char>, CommandPos>, gen: u64, records: Seq<LogRecord>) -> (
    Map<Seq<char>, CommandPos>,
    nat,
)
    decreases records.len(),
{
    if records.len() == 0 {
        (index, 0)
    } else {
        let n = records.len() - 1;
        let before = replay(index, gen, records.drop_last());
        let step = replay_command(
            before.0,
            gen,
            record_start(records, n),
            records[n].end as int,
            records[n].command,
        );
        (step.0, before.1 + step.1)
    }
}

/// The index after replaying the first `n` logs of generations `gens`, and
/// the number of bytes they make stale.
pub open spec fn replay_logs(gens: Seq<u64>, logs: Seq<Seq<LogRecord>>, n: int) -> (
    Map<Seq<char>, CommandPos>,
    nat,
)
    decreases n,
{
    if n <= 0 {
        (Map::empty(), 0)
    } else {
        let before = replay_logs(gens, logs, n - 1);
        let step = replay(before.0, gens[n - 1], logs[n - 1]);
        (step.0, before.1 + step.1)
    }
}

/// The generation that a store opened over the logs `gens` writes to: one
/// past the last of them, or 1 where there are none.
pub open spec fn next_gen(gens: Seq<u64>) -> int {
    if gens.len() == 0 {
        1
    } else {
        gens.last() + 1
    }
}

/// The abstract state of a store: the generation being written, the index
/// and the count of stale bytes.
pub struct StoreState {
    pub current_gen: u64,
    pub index: Map<Seq<char>, CommandPos>,
    pub uncompacted: nat,
}

impl StoreState {
    /// The state after the command `set key` written at bytes `pos..end` of
    /// the current log.
    pub open spec fn set(self, key: Seq<char>, pos: u64, end: u64) -> StoreState {
        StoreState {
            current_gen: self.current_gen,
            index: self.index.insert(
                key,
                CommandPos { gen: self.current_gen, pos, len: (end - pos) as u64 },
            ),
            uncompacted: self.uncompacted + superseded_len(self.index, key),
        }
    }

    /// The state after the command `remove key` was written to the log.
    pub open spec fn remove(self, key: Seq<char>) -> StoreState {
        StoreState {
            current_gen: self.current_gen,
            index: self.index.remove(key),
            uncompacted: self.uncompacted + superseded_len(self.index, key),
        }
    }

    /// Where the value of `key` is, if the store holds it.
    pub open spec fn get(self, key: Seq<char>) -> Option<CommandPos> {
        if self.index.contains_key(key) {
            Some(self.index[key])
        } else {
            None
        }
    }

    /// The state of a store opened over the logs `logs` of generations `gens`.
    pub open spec fn opened(gens: Seq<u64>, logs: Seq<Seq<LogRecord>>) -> StoreState {
        let r = replay_logs(gens, logs, gens.len() as int);
        StoreState { current_gen: next_gen(gens) as u64, index: r.0, uncompacted: r.1 }
    }
}

/// The value that the command `command`, read back from a key's place,
/// holds: `Some(value)` for a `set`, `UnexpectedCommandType` otherwise.
pub fn read_value(command: Command) -> (r: KvResult<Option<String>>)
    ensures
        match command {
            Command::Put { value, .. } => r matches Ok(Some(v)) && v@ == value@,
            Command::Remove { .. } => r matches Err(KvsError::UnexpectedCommandType),
        },
{
    match command {
        Command::Put { value, .. } => Ok(Some(value)),
        Command::Remove { .. } => Err(KvsError::UnexpectedCommandType),
    }
}

/// The number of bytes of the commands that an index points at: the live
/// bytes of the logs.
pub open spec fn live_bytes(index: Map<Seq<char>, CommandPos>) -> nat
    decreases index.dom().len(),
{
    if index.dom().finite() && index.dom().len() > 0 {
        let k = index.dom().choose();
        index[k].len as nat + live_bytes(index.remove(k))
    } else {
        0
    }
}

/// The live bytes of an index are those of any one of its commands and
/// those of the others, whichever command is taken first.
pub proof fn lemma_live_bytes_remove(index: Map<Seq<char>, CommandPos>, key: Seq<char>)
    requires
        index.dom().finite(),
    ensures
        live_bytes(index) == superseded_len(index, key) + live_bytes(index.remove(key)),
    decreases index.dom().len(),
{
    if !index.contains_key(key) {
        assert(index.remove(key) =~= index);
    } else {
        let c = index.dom().choose();
        assert(index.dom().len() > 0);
        if c != key {
            let rc = index.remove(c);
            let rk = index.remove(key);
            lemma_live_bytes_remove(rc, key);
            lemma_live_bytes_remove(rk, c);
            assert(rc.remove(key) =~= rk.remove(c));
        }
    }
}

/// Replaying a log counts each of its bytes exactly once: in a command the
/// index then points at, or as stale.
pub proof fn law_replay_counts_every_byte(
    index: Map<Seq<char>, CommandPos>,
    gen: u64,
    records: Seq<LogRecord>,
)
    requires
        index.dom().finite(),
        ends_ordered(records),
    ensures
        replay(index, gen, records).0.dom().finite(),
        replay(index, gen, records).1 + live_bytes(replay(index, gen, records).0) == live_bytes(index)
            + record_start(records, records.len() as int),
    decreases records.len(),
{
    if records.len() > 0 {
        let n = records.len() - 1;
        let rest = records.drop_last();
        assert forall|i: int, j: int| 0 <= i <= j < rest.len() implies rest[i].end <= rest[j].end by {
            assert(rest[i] == records[i] && rest[j] == records[j]);
        }
        law_replay_counts_every_byte(index, gen, rest);
        assert(record_start(rest, rest.len() as int) == record_start(records, n));
        let before = replay(index, gen, rest);
        let start = record_start(records, n);
        let end = records[n].end as int;
        assert(start <= end) by {
            if n > 0 {
                assert(records[n - 1].end <= records[n].end);
            }
        }
        match records[n].command {
            Command::Put { key, .. } => {
                let place = CommandPos { gen, pos: start as u64, len: (end - start) as u64 };
                let after = before.0.insert(key@, place);
                lemma_live_bytes_remove(before.0, key@);
                lemma_live_bytes_remove(after, key@);
                assert(after.remove(key@) =~= before.0.remove(key@));
            },
            Command::Remove { key } => {
                lemma_live_bytes_remove(before.0, key@);
            },
        }
    }
}

/// The bytes in the first `n` logs: each log ends where its last command does.
pub open spec fn log_bytes(logs: Seq<Seq<LogRecord>>, n: int) -> nat
    decreases n,
{
    if n <= 0 {
        0
    } else {
        log_bytes(logs, n - 1) + record_start(logs[n - 1], logs[n - 1].len() as int) as nat
    }
}

/// Opening a store counts every byte of its logs exactly once: the stale
/// bytes and the live bytes of its index add up to all the bytes of the logs.
pub proof fn law_open_counts_every_byte(gens: Seq<u64>, logs: Seq<Seq<LogRecord>>, n: int)
    requires
        0 <= n <= logs.len(),
        n <= gens.len(),
        forall|i: int| 0 <= i < logs.len() ==> ends_ordered(#[trigger] logs[i]),
    ensures
        replay_logs(gens, logs, n).0.dom().finite(),
        replay_logs(gens, logs, n).1 + live_bytes(replay_logs(gens, logs, n).0) == log_bytes(logs, n),
    decreases n,
{
    if n > 0 {
        law_open_counts_every_byte(gens, logs, n - 1);
        let before = replay_logs(gens, logs, n - 1);
        assert(ends_ordered(logs[n - 1]));
        law_replay_counts_every_byte(before.0, gens[n - 1], logs[n - 1]);
        let last = logs[n - 1];
        assert(record_start(last, last.len() as int) >= 0) by {
            if last.len() > 0 {
                assert(last[last.len() - 1].end >= 0);
            }
        }
    } else {
        assert(Map::<Seq<char>, CommandPos>::empty().dom() =~= Set::<Seq<char>>::empty());
        assert(live_bytes(Map::<Seq<char>, CommandPos>::empty()) == 0);
    }
}

/// A `set` at runtime counts the bytes of the command it writes: they are
/// live, and the command it replaces turns stale.
pub proof fn law_set_counts_its_bytes(s: StoreState, key: Seq<char>, pos: u64, end: u64)
    requires
        s.index.dom().finite(),
        pos <= end,
    ensures
        s.set(key, pos, end).uncompacted + live_bytes(s.set(key, pos, end).index) == s.uncompacted
            + live_bytes(s.index) + (end - pos),
{
    let after = s.set(key, pos, end).index;
    lemma_live_bytes_remove(s.index, key);
    lemma_live_bytes_remove(after, key);
    assert(after.remove(key) =~= s.index.remove(key));
}

/// A `remove` at runtime turns the removed command's bytes stale; unlike
/// replay, it does not count the bytes of the `remove` command itself.
pub proof fn law_remove_moves_bytes_to_stale(s: StoreState, key: Seq<char>)
    requires
        s.index.dom().finite(),
    ensures
        s.remove(key).uncompacted + live_bytes(s.remove(key).index) == s.uncompacted + live_bytes(
            s.index,
        ),
{
    lemma_live_bytes_remove(s.index, key);
}

/// Replaying more records never lowers the count of stale bytes.
proof fn lemma_replay_prefix(index: Map<Seq<char>, CommandPos>, gen: u64, records: Seq<LogRecord>, i: int)
    requires
        0 <= i <= records.len(),
    ensures
        replay(index, gen, records.take(i)).1 <= replay(index, gen, records).1,
    decreases records.len() - i,
{
    if i < records.len() {
        lemma_replay_prefix(index, gen, records, i + 1);
        let t = records.take(i + 1);
        assert(t.drop_last() =~= records.take(i));
    } else {
        assert(records.take(i) =~= records);
    }
}

/// Every place in the index after a replay names log `gen` or a log named
/// by the index before it.
proof fn lemma_replay_gens(index: Map<Seq<char>, CommandPos>, gen: u64, records: Seq<LogRecord>, bound: u64)
    requires
        forall|k: Seq<char>| #[trigger] index.contains_key(k) ==> index[k].gen <= bound,
        gen <= bound,
    ensures
        forall|k: Seq<char>| #[trigger] replay(index, gen, records).0.contains_key(k)
            ==> replay(index, gen, records).0[k].gen <= bound,
    decreases records.len(),
{
    if records.len() > 0 {
        let n = records.len() - 1;
        lemma_replay_gens(index, gen, records.drop_last(), bound);
        let before = replay(index, gen, records.drop_last()).0;
        let after = replay(index, gen, records).0;
        assert forall|k: Seq<char>| #[trigger] after.contains_key(k) implies after[k].gen <= bound by {
            match records[n].command {
                Command::Put { key, .. } => {
                    if k != key@ {
                        assert(before.contains_key(k));
                    }
                },
                Command::Remove { key } => {
                    assert(before.contains_key(k));
                },
            }
        }
    }
}

/// Replays the records of log `gen` into `index` and gives the number of
/// bytes they make stale; `None` where that number does not fit in a `u64`.
pub fn load(gen: u64, records: &Vec<LogRecord>, index: &mut StrMap<CommandPos>) -> (r: Option<u64>)
    requires
        old(index).wf(),
        ends_ordered(records@),
    ensures
        final(index).wf(),
        replay(old(index)@, gen, records@).1 <= u64::MAX ==> {
            &&& r == Some(replay(old(index)@, gen, records@).1 as u64)
            &&& final(index)@ == replay(old(index)@, gen, records@).0
        },
        replay(old(index)@, gen, records@).1 > u64::MAX ==> r is None,
{
    let ghost start_index = index@;
    let mut pos: u64 = 0;
    let mut uncompacted: u64 = 0;
    let mut i: usize = 0;
    while i < records.len()
        invariant
            index.wf(),
            start_index == old(index)@,
            i <= records@.len(),
            ends_ordered(records@),
            pos as int == record_start(records@, i as int),
            (index@, uncompacted as nat) == replay(start_index, gen, records@.take(i as int)),
        decreases records@.len() - i,
    {
        let ghost prefix = records@.take(i as int);
        let ghost next = records@.take(i + 1);
        assert(next.drop_last() =~= prefix);
        assert(record_start(next, i as int) == record_start(records@, i as int));
        let record = &records[i];
        let end = record.end;
        assert(pos <= end) by {
            if i > 0 {
                assert(records@[i - 1].end <= records@[i as int].end);
            }
        }
        proof {
            lemma_replay_prefix(start_index, gen, records@, i + 1);
        }
        let ghost before = index@;
        let ghost stale_before = uncompacted as nat;
        let ghost total = replay(start_index, gen, records@).1;
        let ghost step = replay_command(before, gen, pos as int, end as int, record.command);
        assert(replay(start_index, gen, next) == (step.0, stale_before + step.1));
        match &record.command {
            Command::Put { key, .. } => {
                let prev = index.insert(key.clone(), CommandPos { gen, pos, len: end - pos });
                match prev {
                    Some(old_pos) => {
                        match uncompacted.checked_add(old_pos.len) {
                            Some(v) => {
                                uncompacted = v;
                            },
                            None => {
                                assert(step.1 == old_pos.len);
                                assert(total > u64::MAX);
                                return None;
                            },
                        }
                    },
                    None => {},
                }
            },
            Command::Remove { key } => {
                let prev = index.remove(key);
                match prev {
                    Some(old_pos) => {
                        match uncompacted.checked_add(old_pos.len) {
                            Some(v) => {
                                uncompacted = v;
                            },
                            None => {
                                assert(step.1 >= old_pos.len);
                                assert(total > u64::MAX);
                                return None;
                            },
                        }
                    },
                    None => {},
                }
                assert(uncompacted as nat == stale_before + superseded_len(before, key@));
                match uncompacted.checked_add(end - pos) {
                    Some(v) => {
                        uncompacted = v;
                    },
                    None => {
                        assert(total > u64::MAX);
                        return None;
                    },
                }
            },
        }
        pos = end;
        i = i + 1;
    }
    assert(records@.take(records@.len() as int) =~= records@);
    Some(uncompacted)
}

/// The in-memory part of a log-structured store.
pub struct KvStore {
    current_gen: u64,
    index: StrMap<CommandPos>,
    uncompacted: u64,
}

impl View for KvStore {
    type V = StoreState;

    closed spec fn view(&self) -> StoreState {
        StoreState {
            current_gen: self.current_gen,
            index: self.index@,
            uncompacted: self.uncompacted as nat,
        }
    }
}

impl KvStore {
    /// The index is well formed and names no log newer than the one being
    /// written.
    pub closed spec fn wf(&self) -> bool {
        &&& self.index.wf()
        &&& forall|k: Seq<char>| #[trigger] self.index@.contains_key(k)
            ==> self.index@[k].gen <= self.current_gen
    }

    /// Opens a store over the logs `logs` of the generations `gens`, found
    /// in ascending order: replays them in turn and writes to the
    /// generation after the last. `None` where the count of stale bytes or
    /// the next generation does not fit in a `u64`.
    pub fn open(gens: &Vec<u64>, logs: &Vec<Vec<LogRecord>>) -> (r: Option<KvStore>)
        requires
            gens@.len() == logs@.len(),
            sorted(gens@),
            forall|i: int| 0 <= i < logs@.len() ==> ends_ordered(#[trigger] logs@[i]@),
        ensures
            ({
                let opened = StoreState::opened(gens@, logs@.map_values(|l: Vec<LogRecord>| l@));
                match r {
                    Some(store) => {
                        &&& opened.uncompacted <= u64::MAX
                        &&& next_gen(gens@) <= u64::MAX
                        &&& store.wf()
                        &&& store@ == opened
                    },
                    None => opened.uncompacted > u64::MAX || next_gen(gens@) > u64::MAX,
                }
            }),
    {
        let ghost views = logs@.map_values(|l: Vec<LogRecord>| l@);
        let mut index: StrMap<CommandPos> = StrMap::new();
        let mut uncompacted: u64 = 0;
        let mut i: usize = 0;
        while i < gens.len()
            invariant
                gens@.len() == logs@.len(),
                views == logs@.map_values(|l: Vec<LogRecord>| l@),
                sorted(gens@),
                forall|j: int| 0 <= j < logs@.len() ==> ends_ordered(#[trigger] logs@[j]@),
                i <= gens@.len(),
                index.wf(),
                (index@, uncompacted as nat) == replay_logs(gens@, views, i as int),
                i > 0 ==> forall|k: Seq<char>| #[trigger] index@.contains_key(k)
                    ==> index@[k].gen <= gens@[i - 1],
                i == 0 ==> index@ == Map::<Seq<char>, CommandPos>::empty(),
            decreases gens@.len() - i,
        {
            let gen = gens[i];
            assert(views[i as int] == logs@[i as int]@);
            let ghost before = index@;
            proof {
                lemma_replay_gens(before, gen, views[i as int], gen);
                lemma_replay_logs_grows(gens@, views, i as int + 1, gens@.len() as int);
            }
            match load(gen, &logs[i], &mut index) {
                Some(added) => {
                    match uncompacted.checked_add(added) {
                        Some(v) => {
                            uncompacted = v;
                        },
                        None => {
                            return None;
                        },
                    }
                },
                None => {
                    return None;
                },
            }
            i = i + 1;
        }
        let current_gen: u64 = if gens.len() == 0 {
            1
        } else {
            let last = gens[gens.len() - 1];
            if last == u64::MAX {
                return None;
            }
            last + 1
        };
        let store = KvStore { current_gen, index, uncompacted };
        proof {
            if gens@.len() > 0 {
                assert(gens@[gens@.len() - 1] < current_gen);
            }
        }
        Some(store)
    }

    /// The generation whose log the store writes to.
    pub fn current_gen(&self) -> (g: u64)
        ensures
            g == self@.current_gen,
    {
        self.current_gen
    }

    /// The number of stale bytes in the logs.
    pub fn uncompacted(&self) -> (u: u64)
        ensures
            u == self@.uncompacted,
    {
        self.uncompacted
    }

    /// Whether the store holds a value for `key`.
    pub fn contains_key(&self, key: &String) -> (b: bool)
        requires
            self.wf(),
        ensures
            b == self@.index.contains_key(key@),
    {
        self.index.contains_key(key)
    }

    /// The length of the command that a new command about `key` makes stale.
    pub fn stale_len(&self, key: &String) -> (n: u64)
        requires
            self.wf(),
        ensures
            n == superseded_len(self@.index, key@),
    {
        match self.index.get(key) {
            Some(p) => p.len,
            None => 0,
        }
    }

    /// Records that the command `set key` was written at bytes `pos..end`
    /// of the current log, and says whether the stale bytes now exceed
    /// `COMPACTION_THRESHOLD`.
    pub fn set(&mut self, key: String, pos: u64, end: u64) -> (compact: bool)
        requires
            old(self).wf(),
            pos <= end,
            old(self)@.uncompacted + superseded_len(old(self)@.index, key@) <= u64::MAX,
        ensures
            final(self).wf(),
            final(self)@ == old(self)@.set(key@, pos, end),
            compact == (final(self)@.uncompacted > COMPACTION_THRESHOLD),
    {
        let prev = self.index.insert(key, CommandPos { gen: self.current_gen, pos, len: end - pos });
        match prev {
            Some(p) => {
                self.uncompacted = self.uncompacted + p.len;
            },
            None => {},
        }
        self.uncompacted > COMPACTION_THRESHOLD
    }

    /// Where the value of `key` is, if the store holds it.
    pub fn get(&self, key: &String) -> (r: Option<CommandPos>)
        requires
            self.wf(),
        ensures
            r == self@.get(key@),
    {
        match self.index.get(key) {
            Some(p) => Some(*p),
            None => None,
        }
    }

    /// The command to write to take `key` out of the store; `KeyNotFound`
    /// where the store holds no value for it.
    pub fn remove_command(&self, key: String) -> (r: KvResult<Command>)
        requires
            self.wf(),
        ensures
            self@.index.contains_key(key@) ==> r == Ok::<Command, KvsError>(Command::Remove { key }),
            !self@.index.contains_key(key@) ==> r matches Err(KvsError::KeyNotFound),
    {
        if self.index.contains_key(&key) {
            Ok(Command::remove(key))
        } else {
            Err(KvsError::KeyNotFound)
        }
    }

    /// Records that the command `remove key` was written to the log;
    /// `KeyNotFound`, with the store unchanged, where it holds no value for
    /// `key`.
    pub fn remove(&mut self, key: &String) -> (r: KvResult<()>)
        requires
            old(self).wf(),
            old(self)@.uncompacted + superseded_len(old(self)@.index, key@) <= u64::MAX,
        ensures
            final(self).wf(),
            old(self)@.index.contains_key(key@) ==> r is Ok && final(self)@ == old(self)@.remove(key@),
            !old(self)@.index.contains_key(key@) ==> (r matches Err(KvsError::KeyNotFound))
                && final(self)@ == old(self)@,
    {
        match self.index.remove(key) {
            Some(p) => {
                self.uncompacted = self.uncompacted + p.len;
                Ok(())
            },
            None => {
                assert(old(self)@.index.remove(key@) =~= old(self)@.index);
                Err(KvsError::KeyNotFound)
            },
        }
    }
}

/// A lookup of a key just set finds the command that set it, in the log
/// being written.
pub proof fn law_get_after_set(s: StoreState, key: Seq<char>, pos: u64, end: u64)
    requires
        pos <= end,
    ensures
        s.set(key, pos, end).get(key) == Some(
            CommandPos { gen: s.current_gen, pos, len: (end - pos) as u64 },
        ),
{
}

/// A `set` or a `remove` of one key leaves where every other key is.
pub proof fn law_other_keys_unchanged(s: StoreState, key: Seq<char>, other: Seq<char>, pos: u64, end: u64)
    requires
        other != key,
    ensures
        s.set(key, pos, end).get(other) == s.get(other),
        s.remove(key).get(other) == s.get(other),
{
}

/// A lookup of a key just removed finds nothing.
pub proof fn law_get_after_remove(s: StoreState, key: Seq<char>)
    ensures
        s.remove(key).get(key) is None,
{
}

/// The count of stale bytes never falls: not by a `set`, a `remove`, nor
/// by replaying a log.
pub proof fn law_uncompacted_grows(
    s: StoreState,
    key: Seq<char>,
    pos: u64,
    end: u64,
)
    ensures
        s.set(key, pos, end).uncompacted >= s.uncompacted,
        s.remove(key).uncompacted >= s.uncompacted,
        s.set(key, pos, end).current_gen == s.current_gen,
        s.remove(key).current_gen == s.current_gen,
{
}

/// A `set` that replaces a value makes the command it replaces stale, and
/// a `remove` makes the removed command stale: the count grows by exactly
/// the length of the command that no longer counts.
pub proof fn law_stale_bytes_of_replaced(s: StoreState, key: Seq<char>, pos: u64, end: u64)
    requires
        s.index.contains_key(key),
    ensures
        s.set(key, pos, end).uncompacted == s.uncompacted + s.index[key].len,
        s.remove(key).uncompacted == s.uncompacted + s.index[key].len,
{
}

/// Replaying a log of one command behaves as that command: a `set` points
/// its key at the command, a `remove` takes the key out and counts itself
/// stale too.
pub proof fn law_replay_single(index: Map<Seq<char>, CommandPos>, gen: u64, record: LogRecord)
    ensures
        ({
            let r = replay(index, gen, seq![record]);
            match record.command {
                Command::Put { key, .. } => {
                    &&& r.0 == index.insert(
                        key@,
                        CommandPos { gen, pos: 0, len: record.end },
                    )
                    &&& r.1 == superseded_len(index, key@)
                },
                Command::Remove { key } => {
                    &&& r.0 == index.remove(key@)
                    &&& r.1 == superseded_len(index, key@) + record.end
                },
            }
        }),
{
    let single = seq![record];
    assert(single.drop_last() =~= Seq::<LogRecord>::empty());
    assert(replay(index, gen, single.drop_last()) == (index, 0nat));
    assert(single[0] == record);
    assert(record_start(single, 0) == 0);
}

/// Every place the index of a store names lies in a log no newer than the
/// one being written, so a lookup never asks for a log that does not exist;
/// and the index holds finitely many keys.
pub proof fn law_places_not_newer(store: &KvStore, key: Seq<char>)
    requires
        store.wf(),
    ensures
        store@.get(key) matches Some(p) ==> p.gen <= store@.current_gen,
        store@.index.dom().finite(),
{
    store.index.lemma_finite();
}

/// The key that a command is about.
pub open spec fn command_key(c: Command) -> Seq<char> {
    match c {
        Command::Put { key, .. } => key@,
        Command::Remove { key } => key@,
    }
}

/// The position of the last record of `records` about `key`, or -1 where
/// none is about it.
pub open spec fn last_about(records: Seq<LogRecord>, key: Seq<char>) -> int
    decreases records.len(),
{
    if records.len() == 0 {
        -1
    } else if command_key(records.last().command) == key {
        records.len() - 1
    } else {
        last_about(records.drop_last(), key)
    }
}

proof fn lemma_last_about_bounds(records: Seq<LogRecord>, key: Seq<char>)
    ensures
        -1 <= last_about(records, key) < records.len(),
        last_about(records, key) >= 0 ==> command_key(records[last_about(records, key)].command) == key,
    decreases records.len(),
{
    if records.len() > 0 && command_key(records.last().command) != key {
        lemma_last_about_bounds(records.drop_last(), key);
        let i = last_about(records.drop_last(), key);
        if i >= 0 {
            assert(records.drop_last()[i] == records[i]);
        }
    }
}

/// The place of record `i` of the log of generation `gen`.
pub open spec fn record_place(records: Seq<LogRecord>, gen: u64, i: int) -> CommandPos {
    CommandPos {
        gen,
        pos: record_start(records, i) as u64,
        len: (records[i].end - record_start(records, i)) as u64,
    }
}

/// The state after the store writes the commands `records` one after
/// another to the log it writes, each at the bytes it occupies there.
pub open spec fn run(s: StoreState, records: Seq<LogRecord>) -> StoreState
    decreases records.len(),
{
    if records.len() == 0 {
        s
    } else {
        let n = records.len() - 1;
        let before = run(s, records.drop_last());
        match records[n].command {
            Command::Put { key, .. } => before.set(key@, record_start(records, n) as u64, records[n].end),
            Command::Remove { key } => before.remove(key@),
        }
    }
}

/// A store that has written the commands `records` to its log has the index
/// that replaying that log gives: what a reopened store finds is what the
/// running store found.
pub proof fn law_runtime_index_is_replayed_index(s: StoreState, records: Seq<LogRecord>)
    requires
        ends_ordered(records),
    ensures
        run(s, records).index == replay(s.index, s.current_gen, records).0,
        run(s, records).current_gen == s.current_gen,
    decreases records.len(),
{
    if records.len() > 0 {
        let n = records.len() - 1;
        let rest = records.drop_last();
        assert forall|i: int, j: int| 0 <= i <= j < rest.len() implies rest[i].end <= rest[j].end by {
            assert(rest[i] == records[i] && rest[j] == records[j]);
        }
        law_runtime_index_is_replayed_index(s, rest);
        assert(record_start(records, n) <= records[n].end) by {
            if n > 0 {
                assert(records[n - 1].end <= records[n].end);
            }
        }
    }
}

/// Replaying the first `n` logs does not look at the logs after them.
proof fn lemma_replay_logs_prefix(
    gens: Seq<u64>,
    logs: Seq<Seq<LogRecord>>,
    g: u64,
    records: Seq<LogRecord>,
    n: int,
)
    requires
        0 <= n <= gens.len(),
        gens.len() == logs.len(),
    ensures
        replay_logs(gens.push(g), logs.push(records), n) == replay_logs(gens, logs, n),
    decreases n,
{
    if n > 0 {
        lemma_replay_logs_prefix(gens, logs, g, records, n - 1);
        assert(gens.push(g)[n - 1] == gens[n - 1]);
        assert(logs.push(records)[n - 1] == logs[n - 1]);
    }
}

/// Opening over one more log replays that log, under its own generation,
/// on top of the index the logs before it gave, and adds the bytes it makes
/// stale to theirs, whatever the generations are; a single log is replayed
/// into the empty index.
pub proof fn law_replay_logs_appends(
    gens: Seq<u64>,
    logs: Seq<Seq<LogRecord>>,
    g: u64,
    records: Seq<LogRecord>,
)
    requires
        gens.len() == logs.len(),
    ensures
        ({
            let before = replay_logs(gens, logs, gens.len() as int);
            let step = replay(before.0, g, records);
            replay_logs(gens.push(g), logs.push(records), gens.len() + 1int) == (
                step.0,
                before.1 + step.1,
            )
        }),
        replay_logs(seq![g], seq![records], 1) == replay(Map::empty(), g, records),
{
    lemma_replay_logs_prefix(gens, logs, g, records, gens.len() as int);
    assert(gens.push(g)[gens.len() as int] == g);
    assert(logs.push(records)[logs.len() as int] == records);
    assert(seq![g][0] == g);
    assert(seq![records][0] == records);
    assert(replay_logs(seq![g], seq![records], 0) == (Map::<Seq<char>, CommandPos>::empty(), 0nat));
}

/// Reopening a store after it wrote the commands `records` to the log of
/// its generation gives the index that the running store had.
pub proof fn law_reopen_keeps_index(gens: Seq<u64>, logs: Seq<Seq<LogRecord>>, records: Seq<LogRecord>)
    requires
        gens.len() == logs.len(),
        next_gen(gens) <= u64::MAX,
        ends_ordered(records),
    ensures
        ({
            let opened = StoreState::opened(gens, logs);
            let reopened = StoreState::opened(gens.push(opened.current_gen), logs.push(records));
            reopened.index == run(opened, records).index
        }),
{
    let opened = StoreState::opened(gens, logs);
    let g = opened.current_gen;
    lemma_replay_logs_prefix(gens, logs, g, records, gens.len() as int);
    assert(gens.push(g)[gens.len() as int] == g);
    assert(logs.push(records)[logs.len() as int] == records);
    law_runtime_index_is_replayed_index(opened, records);
}

/// After replaying a log, a key's place is that of the last command about
/// it: a `set` (whose value `read_value` then gives back) leaves the key at
/// that command's bytes, a `remove` leaves the key out, and a key that no
/// command is about keeps its place.
pub proof fn law_last_write_wins(
    index: Map<Seq<char>, CommandPos>,
    gen: u64,
    records: Seq<LogRecord>,
    key: Seq<char>,
)
    requires
        ends_ordered(records),
    ensures
        ({
            let i = last_about(records, key);
            let after = replay(index, gen, records).0;
            &&& i >= 0 && records[i].command is Put ==> after.contains_key(key) && after[key]
                == record_place(records, gen, i)
            &&& i >= 0 && records[i].command is Remove ==> !after.contains_key(key)
            &&& i < 0 ==> after.contains_key(key) == index.contains_key(key)
            &&& i < 0 && index.contains_key(key) ==> after[key] == index[key]
        }),
    decreases records.len(),
{
    if records.len() > 0 {
        let n = records.len() - 1;
        let rest = records.drop_last();
        assert forall|a: int, b: int| 0 <= a <= b < rest.len() implies rest[a].end <= rest[b].end by {
            assert(rest[a] == records[a] && rest[b] == records[b]);
        }
        law_last_write_wins(index, gen, rest, key);
        lemma_last_about_bounds(rest, key);
        let i = last_about(rest, key);
        if command_key(records[n].command) != key && i >= 0 {
            assert(rest[i] == records[i]);
            assert(record_start(rest, i) == record_start(records, i)) by {
                if i > 0 {
                    assert(rest[i - 1] == records[i - 1]);
                }
            }
        }
    }
}

/// A store opened over the logs `logs` of generations `gens` writes the
/// commands `records` to its new log and is closed; a store opened again
/// over all those logs finds every key where the first one found it before
/// it closed: at the last `set` of the key among `records` (whose value
/// `read_value` gives back), nowhere after a `remove`, and, for a key that
/// no written command is about, where it was when the first store opened.
pub proof fn law_reopen_reads_last_write(
    gens: Seq<u64>,
    logs: Seq<Seq<LogRecord>>,
    records: Seq<LogRecord>,
    key: Seq<char>,
)
    requires
        gens.len() == logs.len(),
        next_gen(gens) <= u64::MAX,
        ends_ordered(records),
    ensures
        ({
            let opened = StoreState::opened(gens, logs);
            let running = run(opened, records);
            let reopened = StoreState::opened(gens.push(opened.current_gen), logs.push(records));
            let i = last_about(records, key);
            &&& reopened.get(key) == running.get(key)
            &&& i >= 0 && records[i].command is Put ==> running.get(key) == Some(
                record_place(records, opened.current_gen, i),
            )
            &&& i >= 0 && records[i].command is Remove ==> running.get(key) is None
            &&& i < 0 ==> running.get(key) == opened.get(key)
        }),
{
    let opened = StoreState::opened(gens, logs);
    law_reopen_keeps_index(gens, logs, records);
    law_runtime_index_is_replayed_index(opened, records);
    law_last_write_wins(opened.index, opened.current_gen, records, key);
}

/// Replaying more logs never lowers the count of stale bytes.
proof fn lemma_replay_logs_grows(gens: Seq<u64>, logs: Seq<Seq<LogRecord>>, i: int, n: int)
    requires
        0 <= i <= n,
    ensures
        replay_logs(gens, logs, i).1 <= replay_logs(gens, logs, n).1,
    decreases n - i,
{
    if i < n {
        lemma_replay_logs_grows(gens, logs, i, n - 1);
    }
}

} // verus!
