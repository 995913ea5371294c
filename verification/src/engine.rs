//! The engine of the multi-threaded server: an index from each key to the
//! place of the last request written about it. A `set` and a `remove` both
//! point the key at the request they wrote; a `get` reads the request at
//! the key's place back, and a `remove` request there gives no value.
//!
//! Logs are read and written outside this module; here stands what the
//! engine decides about them.

use vstd::prelude::*;
use crate::files::sorted;
use crate::foreign::{io_error_text, json_error_text};
use crate::protocol::Request;
use crate::strmap::StrMap;

verus! {

/// Where a request lies: the generation of its log, its offset and its length.
#[derive(Debug, Clone, Copy, PartialEq, Eq, Structural)]
pub struct CommandPos {
    pub gen: u64,
    pub pos: u64,
    pub len: u64,
}

impl CommandPos {
    /// The place of `len` bytes at offset `pos` of log `gen`.
    pub fn new(gen: u64, pos: u64, len: u64) -> (p: Self)
        ensures
            p == (CommandPos { gen, pos, len }),
    {
        CommandPos { gen, pos, len }
    }
}

/// The errors of the engine.
#[derive(Debug)]
pub enum KvsError {
    IO(std::io::Error),
    Serde(serde_json::Error),
    Nothing,
}

impl From<serde_json::Error> for KvsError {
    fn from(e: serde_json::Error) -> (r: Self) {
        KvsError::Serde(e)
    }
}

impl vstd::std_specs::convert::FromSpecImpl<serde_json::Error> for KvsError {
    open spec fn obeys_from_spec() -> bool {
        true
    }

    open spec fn from_spec(v: serde_json::Error) -> Self {
        KvsError::Serde(v)
    }
}

impl From<std::io::Error> for KvsError {
    fn from(e: std::io::Error) -> (r: Self) {
        KvsError::IO(e)
    }
}

impl vstd::std_specs::convert::FromSpecImpl<std::io::Error> for KvsError {
    open spec fn obeys_from_spec() -> bool {
        true
    }

    open spec fn from_spec(v: std::io::Error) -> Self {
        KvsError::IO(v)
    }
}

impl KvsError {
    /// The text that describes the error.
    pub fn message(&self) -> (text: String)
        ensures
            self is Nothing ==> text@ == "the option is None"@,
            self is IO ==> text@.take(11) == "IO error : "@,
            self is Serde ==> text@.take(14) == "serde error : "@,
    {
        match self {
            KvsError::IO(e) => {
                let prefix = String::from_str("IO error : ");
                let inner = io_error_text(e);
                let text = prefix.concat(inner.as_str());
                proof {
                    reveal_strlit("IO error : ");
                }
                assert(text@.take(11) =~= "IO error : "@);
                text
            },
            KvsError::Serde(e) => {
                let prefix = String::from_str("serde error : ");
                let inner = json_error_text(e);
                let text = prefix.concat(inner.as_str());
                proof {
                    reveal_strlit("serde error : ");
                }
                assert(text@.take(14) =~= "serde error : "@);
                text
            },
            KvsError::Nothing => String::from_str("the option is None"),
        }
    }
}

/// The results of the engine.
pub type KvsResult<T> = Result<T, KvsError>;

/// An engine's result with its error turned into the error's text, as the
/// server sends it.
pub fn answer_text<T>(result: KvsResult<T>) -> (answer: Result<T, String>)
    ensures
        result is Ok <==> answer is Ok,
        result matches Ok(v) ==> answer == Ok::<T, String>(v),
        result matches Err(KvsError::Nothing) ==> (answer matches Err(t) && t@ == "the option is None"@),
        result matches Err(KvsError::IO(_)) ==> (answer matches Err(t) && t@.take(11) == "IO error : "@),
        result matches Err(KvsError::Serde(_)) ==> (answer matches Err(t) && t@.take(14)
            == "serde error : "@),
{
    match result {
        Ok(v) => Ok(v),
        Err(e) => Err(e.message()),
    }
}

/// A storage engine that the multi-threaded server shares among its threads.
pub trait Engine: Clone + Send + 'static {
    /// The value of `key`, if the engine holds one.
    fn get(&self, key: String) -> KvsResult<Option<String>>;

    /// Gives `key` the value `value`.
    fn set(&mut self, key: String, value: String) -> KvsResult<()>;

    /// Takes `key` out of the engine.
    fn remove(&self, key: String) -> KvsResult<()>;
}

/// A request read back from a log, with the offset just past it.
pub struct RequestRecord {
    pub request: Request,
    pub end: u64,
}

/// The offset at which record `i` of a log starts.
pub open spec fn request_start(records: Seq<RequestRecord>, i: int) -> int {
    if i <= 0 {
        0
    } else {
        records[i - 1].end as int
    }
}

/// The records' end offsets never decrease, and none of them is a `get`.
pub open spec fn well_formed_log(records: Seq<RequestRecord>) -> bool {
    &&& forall|i: int, j: int| 0 <= i <= j < records.len() ==> records[i].end <= records[j].end
    &&& forall|i: int| 0 <= i < records.len() ==> !(#[trigger] records[i].request is Get)
}

/// The index after the request `r`, found at bytes `start..end` of log
/// `gen`: a `set` points its key there, a `remove` takes its key out.
pub open spec fn replay_request(
    index: Map<Seq<char>, CommandPos>,
    gen: u64,
    start: int,
    end: int,
    r: Request,
) -> Map<Seq<char>, CommandPos> {
    match r {
        Request::Put { key, .. } => index.insert(
            key@,
            CommandPos { gen, pos: start as u64, len: (end - start) as u64 },
        ),
        Request::Remove { key } => index.remove(key@),
        Request::Get { .. } => index,
    }
}

/// The index after replaying the records of log `gen` in order.
pub open spec fn replay(index: Map<Seq<char>, CommandPos>, gen: u64, records: Seq<RequestRecord>) -> Map<
    Seq<char>,
    CommandPos,
>
    decreases records.len(),
{
    if records.len() == 0 {
        index
    } else {
        let n = records.len() - 1;
        replay_request(
            replay(index, gen, records.drop_last()),
            gen,
            request_start(records, n),
            records[n].end as int,
            records[n].request,
        )
    }
}

/// The index after replaying the first `n` logs of generations `gens`.
pub open spec fn replay_logs(gens: Seq<u64>, logs: Seq<Seq<RequestRecord>>, n: int) -> Map<
    Seq<char>,
    CommandPos,
>
    decreases n,
{
    if n <= 0 {
        Map::empty()
    } else {
        replay(replay_logs(gens, logs, n - 1), gens[n - 1], logs[n - 1])
    }
}

/// The value that the request at a key's place gives: the value of a
/// `set`, none for any other request.
pub open spec fn request_value(r: Request) -> Option<Seq<char>> {
    match r {
        Request::Put { value, .. } => Some(value@),
        _ => None,
    }
}

/// The value that the request `request`, read back at a key's place, gives.
pub fn stored_value(request: Request) -> (v: Option<String>)
    ensures
        match v {
            Some(s) => request_value(request) == Some(s@),
            None => request_value(request) is None,
        },
{
    match request {
        Request::Put { value, .. } => Some(value),
        Request::Remove { .. } => None,
        Request::Get { .. } => None,
    }
}

/// What a `set` request wrote is what a read of its place gives back, and
/// a `remove` request read back at a key's place gives no value.
pub proof fn law_request_values(key: String, value: String)
    ensures
        request_value(Request::Put { key, value }) == Some(value@),
        request_value(Request::Remove { key }) is None,
{
}

/// After a `set` or `remove` request about a key is recorded, a lookup of
/// that key finds the place of that request, and every other key keeps
/// its place.
pub proof fn law_lookup_after_write(
    index: Map<Seq<char>, CommandPos>,
    key: Seq<char>,
    place: CommandPos,
    other: Seq<char>,
)
    requires
        other != key,
    ensures
        index.insert(key, place)[key] == place,
        index.insert(key, place).contains_key(other) == index.contains_key(other),
        index.contains_key(other) ==> index.insert(key, place)[other] == index[other],
{
}

/// The key that a request is about.
pub open spec fn request_key(r: Request) -> Seq<char> {
    match r {
        Request::Get { key } => key@,
        Request::Put { key, .. } => key@,
        Request::Remove { key } => key@,
    }
}

/// The position of the last record of `records` about `key`, or -1 where
/// none is about it.
pub open spec fn last_about(records: Seq<RequestRecord>, key: Seq<char>) -> int
    decreases records.len(),
{
    if records.len() == 0 {
        -1
    } else if request_key(records.last().request) == key {
        records.len() - 1
    } else {
        last_about(records.drop_last(), key)
    }
}

proof fn lemma_last_about_bounds(records: Seq<RequestRecord>, key: Seq<char>)
    ensures
        -1 <= last_about(records, key) < records.len(),
        last_about(records, key) >= 0 ==> request_key(records[last_about(records, key)].request)
            == key,
    decreases records.len(),
{
    if records.len() > 0 && request_key(records.last().request) != key {
        lemma_last_about_bounds(records.drop_last(), key);
        let i = last_about(records.drop_last(), key);
        if i >= 0 {
            assert(records.drop_last()[i] == records[i]);
        }
    }
}

/// The place of record `i` of the log of generation `gen`.
pub open spec fn request_place(records: Seq<RequestRecord>, gen: u64, i: int) -> CommandPos {
    CommandPos {
        gen,
        pos: request_start(records, i) as u64,
        len: (records[i].end - request_start(records, i)) as u64,
    }
}

/// Every record of the log takes at least one byte.
pub open spec fn records_nonempty(records: Seq<RequestRecord>) -> bool {
    forall|i: int| 0 <= i < records.len() ==> request_start(records, i) < #[trigger] records[i].end
}

/// The index of a running engine after it wrote the requests `records`,
/// one after another, to its log `gen`: a `set` and a `remove` both point
/// their key at the request written.
pub open spec fn run(index: Map<Seq<char>, CommandPos>, gen: u64, records: Seq<RequestRecord>) -> Map<
    Seq<char>,
    CommandPos,
>
    decreases records.len(),
{
    if records.len() == 0 {
        index
    } else {
        let n = records.len() - 1;
        let before = run(index, gen, records.drop_last());
        match records[n].request {
            Request::Get { .. } => before,
            _ => before.insert(request_key(records[n].request), request_place(records, gen, n)),
        }
    }
}

/// The record of the log `records` of generation `gen` that lies at the
/// place `p`.
pub open spec fn record_at(records: Seq<RequestRecord>, gen: u64, p: CommandPos) -> int {
    choose|i: int| 0 <= i < records.len() && request_place(records, gen, i) == p
}

/// What a lookup of `key` in `index` reads back, for a key whose place
/// lies in the log `records` of generation `gen`: no value where the index
/// holds no place for the key, else the value of the request at its place.
pub open spec fn value_in_log(
    index: Map<Seq<char>, CommandPos>,
    key: Seq<char>,
    gen: u64,
    records: Seq<RequestRecord>,
) -> Option<Seq<char>> {
    if index.contains_key(key) {
        request_value(records[record_at(records, gen, index[key])].request)
    } else {
        None
    }
}

/// Two records of a log never lie at the same place.
proof fn lemma_places_distinct(records: Seq<RequestRecord>, gen: u64, i: int, j: int)
    requires
        well_formed_log(records),
        records_nonempty(records),
        0 <= i < j < records.len(),
    ensures
        request_place(records, gen, i) != request_place(records, gen, j),
{
    assert(records[i].end <= records[j - 1].end);
    assert(request_start(records, i) < records[i].end);
    assert(request_start(records, j) == records[j - 1].end);
}

/// The record found at the place of record `i` is record `i`.
proof fn lemma_record_at(records: Seq<RequestRecord>, gen: u64, i: int)
    requires
        well_formed_log(records),
        records_nonempty(records),
        0 <= i < records.len(),
    ensures
        record_at(records, gen, request_place(records, gen, i)) == i,
{
    let p = request_place(records, gen, i);
    let k = record_at(records, gen, p);
    assert(0 <= i < records.len() && request_place(records, gen, i) == p);
    if k < i {
        lemma_places_distinct(records, gen, k, i);
    } else if k > i {
        lemma_places_distinct(records, gen, i, k);
    }
}

/// A prefix of a well-formed log is well formed.
proof fn lemma_log_prefix(records: Seq<RequestRecord>)
    requires
        well_formed_log(records),
        records_nonempty(records),
        records.len() > 0,
    ensures
        well_formed_log(records.drop_last()),
        records_nonempty(records.drop_last()),
{
    let rest = records.drop_last();
    assert forall|a: int, b: int| 0 <= a <= b < rest.len() implies rest[a].end <= rest[b].end by {
        assert(rest[a] == records[a] && rest[b] == records[b]);
    }
    assert forall|a: int| 0 <= a < rest.len() implies !(#[trigger] rest[a].request is Get) by {
        assert(rest[a] == records[a]);
    }
    assert forall|a: int| 0 <= a < rest.len() implies request_start(rest, a) < #[trigger] rest[a].end by {
        assert(rest[a] == records[a]);
        assert(records[a].end > request_start(records, a));
        if a > 0 {
            assert(rest[a - 1] == records[a - 1]);
        }
    }
}

/// The places that the running engine and a replay of its log give a key
/// that a request of the log is about: the running engine points it at
/// the last request about it, and the replay does so where that request is
/// a `set` and leaves the key out where it is a `remove`. A key that no
/// request is about keeps its place in both.
proof fn lemma_run_and_replay(
    index: Map<Seq<char>, CommandPos>,
    gen: u64,
    records: Seq<RequestRecord>,
    key: Seq<char>,
)
    requires
        well_formed_log(records),
        records_nonempty(records),
    ensures
        ({
            let i = last_about(records, key);
            let running = run(index, gen, records);
            let replayed = replay(index, gen, records);
            &&& i >= 0 ==> running.contains_key(key) && running[key] == request_place(records, gen, i)
            &&& i >= 0 && records[i].request is Put ==> replayed.contains_key(key) && replayed[key]
                == request_place(records, gen, i)
            &&& i >= 0 && records[i].request is Remove ==> !replayed.contains_key(key)
            &&& i < 0 ==> running.contains_key(key) == index.contains_key(key)
                && replayed.contains_key(key) == index.contains_key(key)
            &&& i < 0 && index.contains_key(key) ==> running[key] == index[key] && replayed[key]
                == index[key]
        }),
    decreases records.len(),
{
    if records.len() > 0 {
        let n = records.len() - 1;
        let rest = records.drop_last();
        lemma_log_prefix(records);
        lemma_run_and_replay(index, gen, rest, key);
        lemma_last_about_bounds(rest, key);
        assert(!(records[n].request is Get));
        let i = last_about(rest, key);
        if request_key(records[n].request) != key && i >= 0 {
            assert(rest[i] == records[i]);
            assert(request_start(rest, i) == request_start(records, i)) by {
                if i > 0 {
                    assert(rest[i - 1] == records[i - 1]);
                }
            }
        }
    }
}

/// A running engine that wrote the requests `records` to its log `gen`,
/// and an engine that replays that log, read the same value back for every
/// key that a request of the log is about: the value of the last `set` of
/// it, or none where a `remove` came last. Every other key keeps its place
/// in both.
pub proof fn law_running_reads_as_replayed(
    index: Map<Seq<char>, CommandPos>,
    gen: u64,
    records: Seq<RequestRecord>,
    key: Seq<char>,
)
    requires
        well_formed_log(records),
        records_nonempty(records),
    ensures
        ({
            let i = last_about(records, key);
            let running = run(index, gen, records);
            let replayed = replay(index, gen, records);
            &&& i >= 0 ==> value_in_log(running, key, gen, records) == request_value(
                records[i].request,
            )
            &&& i >= 0 ==> value_in_log(replayed, key, gen, records) == request_value(
                records[i].request,
            )
            &&& i < 0 ==> running.contains_key(key) == index.contains_key(key)
                && replayed.contains_key(key) == index.contains_key(key)
            &&& i < 0 && index.contains_key(key) ==> running[key] == index[key] && replayed[key]
                == index[key]
        }),
{
    lemma_run_and_replay(index, gen, records, key);
    lemma_last_about_bounds(records, key);
    let i = last_about(records, key);
    if i >= 0 {
        lemma_record_at(records, gen, i);
    }
}

/// Recording one more request written at the end of the log is what
/// `KvsEngine::set` and `KvsEngine::remove` do with its bytes: the key of
/// the request points at them.
pub proof fn law_run_records_each_write(
    index: Map<Seq<char>, CommandPos>,
    gen: u64,
    records: Seq<RequestRecord>,
    r: RequestRecord,
)
    requires
        !(r.request is Get),
    ensures
        ({
            let start = request_start(records.push(r), records.len() as int);
            run(index, gen, records.push(r)) == run(index, gen, records).insert(
                request_key(r.request),
                CommandPos { gen, pos: start as u64, len: (r.end - start) as u64 },
            )
        }),
{
    assert(records.push(r).drop_last() =~= records);
    assert(records.push(r)[records.len() as int] == r);
}

/// Replaying the first `n` logs does not look at the logs after them.
proof fn lemma_replay_logs_prefix(
    gens: Seq<u64>,
    logs: Seq<Seq<RequestRecord>>,
    g: u64,
    records: Seq<RequestRecord>,
    n: int,
)
    requires
        0 <= n <= gens.len(),
        gens.len() == logs.len(),
    ensures
        replay_logs(gens.push(g), logs.push(records), n) == replay_logs(gens, logs, n),
    decreases n,
{
    if n > 0 {
        lemma_replay_logs_prefix(gens, logs, g, records, n - 1);
        assert(gens.push(g)[n - 1] == gens[n - 1]);
        assert(logs.push(records)[n - 1] == logs[n - 1]);
    }
}

/// Opening over one more log replays that log, under its own generation,
/// on top of the index the logs before it gave, whatever the generations
/// are; a single log is replayed into the empty index.
pub proof fn law_replay_logs_appends(
    gens: Seq<u64>,
    logs: Seq<Seq<RequestRecord>>,
    g: u64,
    records: Seq<RequestRecord>,
)
    requires
        gens.len() == logs.len(),
    ensures
        replay_logs(gens.push(g), logs.push(records), gens.len() + 1int) == replay(
            replay_logs(gens, logs, gens.len() as int),
            g,
            records,
        ),
        replay_logs(seq![g], seq![records], 1) == replay(Map::empty(), g, records),
{
    lemma_replay_logs_prefix(gens, logs, g, records, gens.len() as int);
    assert(gens.push(g)[gens.len() as int] == g);
    assert(logs.push(records)[logs.len() as int] == records);
    assert(seq![g][0] == g);
    assert(seq![records][0] == records);
    assert(replay_logs(seq![g], seq![records], 0) == Map::<Seq<char>, CommandPos>::empty());
}

/// An engine opened over the logs `logs` of generations `gens` writes the
/// requests `records` to its new log and is closed; an engine opened again
/// over all those logs reads back, for every key, what the first one read
/// before it closed: for a key that a written request is about, the value
/// of the last `set` of it or none after a `remove`; for every other key
/// the place it had when the first engine opened.
pub proof fn law_reopen_reads_alike(
    gens: Seq<u64>,
    logs: Seq<Seq<RequestRecord>>,
    records: Seq<RequestRecord>,
    key: Seq<char>,
)
    requires
        gens.len() == logs.len(),
        next_gen(gens) <= u64::MAX,
        well_formed_log(records),
        records_nonempty(records),
    ensures
        ({
            let g = next_gen(gens) as u64;
            let opened = replay_logs(gens, logs, gens.len() as int);
            let running = run(opened, g, records);
            let reopened = replay_logs(gens.push(g), logs.push(records), gens.len() + 1int);
            let i = last_about(records, key);
            &&& i >= 0 ==> value_in_log(running, key, g, records) == request_value(records[i].request)
            &&& i >= 0 ==> value_in_log(reopened, key, g, records) == request_value(
                records[i].request,
            )
            &&& i < 0 ==> running.contains_key(key) == opened.contains_key(key)
                && reopened.contains_key(key) == opened.contains_key(key)
            &&& i < 0 && opened.contains_key(key) ==> running[key] == opened[key] && reopened[key]
                == opened[key]
        }),
{
    let g = next_gen(gens) as u64;
    let opened = replay_logs(gens, logs, gens.len() as int);
    lemma_replay_logs_prefix(gens, logs, g, records, gens.len() as int);
    assert(gens.push(g)[gens.len() as int] == g);
    assert(logs.push(records)[logs.len() as int] == records);
    law_running_reads_as_replayed(opened, g, records, key);
}

/// Whether `x` is one of `v`.
fn contains_u64(v: &Vec<u64>, x: u64) -> (b: bool)
    ensures
        b == v@.contains(x),
{
    let mut i: usize = 0;
    while i < v.len()
        invariant
            i <= v@.len(),
            forall|j: int| 0 <= j < i ==> v@[j] != x,
        decreases v@.len() - i,
    {
        if v[i] == x {
            return true;
        }
        i = i + 1;
    }
    false
}

/// The logs the engine holds open, and the one it writes to.
pub struct KvsManager {
    pages: Vec<u64>,
    temp_page: u64,
}

impl KvsManager {
    /// A manager of the logs `manager`, writing to log `page_id`.
    pub fn new(manager: Vec<u64>, page_id: u64) -> (r: KvsResult<Self>)
        ensures
            r matches Ok(m) && m.pages() == manager@ && m.temp_page() == page_id,
    {
        Ok(KvsManager { pages: manager, temp_page: page_id })
    }

    /// The generations of the logs held open.
    pub closed spec fn pages(&self) -> Seq<u64> {
        self.pages@
    }

    /// The generation of the log written to.
    pub closed spec fn temp_page(&self) -> u64 {
        self.temp_page
    }

    /// The generation of the log written to.
    pub fn page(&self) -> (g: u64)
        ensures
            g == self.temp_page(),
    {
        self.temp_page
    }

    /// Whether the log of generation `gen` is held open.
    pub fn holds(&self, gen: u64) -> (b: bool)
        ensures
            b == self.pages().contains(gen),
    {
        contains_u64(&self.pages, gen)
    }

    /// Replays the records of log `number` into `index`; `Nothing` where
    /// that log is not held open, with `index` left as it was.
    pub fn load(&self, number: u64, records: &Vec<RequestRecord>, index: &mut StrMap<CommandPos>) -> (r:
        KvsResult<()>)
        requires
            old(index).wf(),
            well_formed_log(records@),
        ensures
            final(index).wf(),
            self.pages().contains(number) ==> r is Ok && final(index)@ == replay(
                old(index)@,
                number,
                records@,
            ),
            !self.pages().contains(number) ==> (r matches Err(KvsError::Nothing)) && final(index)@
                == old(index)@,
    {
        if !contains_u64(&self.pages, number) {
            return Err(KvsError::Nothing);
        }
        let ghost start_index = index@;
        let mut pos: u64 = 0;
        let mut i: usize = 0;
        while i < records.len()
            invariant
                index.wf(),
                start_index == old(index)@,
                i <= records@.len(),
                well_formed_log(records@),
                pos as int == request_start(records@, i as int),
                index@ == replay(start_index, number, records@.take(i as int)),
            decreases records@.len() - i,
        {
            let ghost prefix = records@.take(i as int);
            let ghost next = records@.take(i + 1);
            assert(next.drop_last() =~= prefix);
            assert(request_start(next, i as int) == request_start(records@, i as int));
            let record = &records[i];
            let end = record.end;
            assert(pos <= end) by {
                if i > 0 {
                    assert(records@[i - 1].end <= records@[i as int].end);
                }
            }
            assert(!(records@[i as int].request is Get));
            match &record.request {
                Request::Put { key, .. } => {
                    index.insert(key.clone(), CommandPos::new(number, pos, end - pos));
                },
                Request::Remove { key } => {
                    index.remove(key);
                },
                Request::Get { .. } => {},
            }
            pos = end;
            i = i + 1;
        }
        assert(records@.take(records@.len() as int) =~= records@);
        Ok(())
    }

    /// The place of a `set` request just written at bytes `pos..pos + len`
    /// of the log written to; `Nothing` where that log is not held open.
    pub fn set(&self, pos: u64, len: u64) -> (r: KvsResult<CommandPos>)
        ensures
            self.pages().contains(self.temp_page()) ==> r == Ok::<CommandPos, KvsError>(
                CommandPos { gen: self.temp_page(), pos, len },
            ),
            !self.pages().contains(self.temp_page()) ==> r matches Err(KvsError::Nothing),
    {
        match self.page_for_write() {
            Ok(page) => Ok(CommandPos::new(page, pos, len)),
            Err(e) => Err(e),
        }
    }

    /// The place of a `remove` request just written at bytes
    /// `pos..pos + len` of the log written to; `Nothing` where that log is
    /// not held open.
    pub fn remove(&self, pos: u64, len: u64) -> (r: KvsResult<CommandPos>)
        ensures
            self.pages().contains(self.temp_page()) ==> r == Ok::<CommandPos, KvsError>(
                CommandPos { gen: self.temp_page(), pos, len },
            ),
            !self.pages().contains(self.temp_page()) ==> r matches Err(KvsError::Nothing),
    {
        match self.page_for_write() {
            Ok(page) => Ok(CommandPos::new(page, pos, len)),
            Err(e) => Err(e),
        }
    }

    /// The log that a new request goes to; `Nothing` where that log is
    /// not held open.
    pub fn page_for_write(&self) -> (r: KvsResult<u64>)
        ensures
            self.pages().contains(self.temp_page()) ==> r == Ok::<u64, KvsError>(self.temp_page()),
            !self.pages().contains(self.temp_page()) ==> r matches Err(KvsError::Nothing),
    {
        if contains_u64(&self.pages, self.temp_page) {
            Ok(self.temp_page)
        } else {
            Err(KvsError::Nothing)
        }
    }
}

/// Every place the index names lies in a log that is held open.
pub open spec fn places_held(index: Map<Seq<char>, CommandPos>, pages: Seq<u64>) -> bool {
    forall|k: Seq<char>| #[trigger] index.contains_key(k) ==> pages.contains(index[k].gen)
}

/// Replaying a log that is held open keeps every place of the index in a
/// log that is held open.
proof fn lemma_replay_held(index: Map<Seq<char>, CommandPos>, gen: u64, records: Seq<RequestRecord>, pages: Seq<u64>)
    requires
        places_held(index, pages),
        pages.contains(gen),
    ensures
        places_held(replay(index, gen, records), pages),
    decreases records.len(),
{
    if records.len() > 0 {
        let n = records.len() - 1;
        lemma_replay_held(index, gen, records.drop_last(), pages);
        let before = replay(index, gen, records.drop_last());
        let after = replay(index, gen, records);
        assert forall|k: Seq<char>| #[trigger] after.contains_key(k) implies pages.contains(after[k].gen) by {
            match records[n].request {
                Request::Put { key, .. } => {
                    if k != key@ {
                        assert(before.contains_key(k));
                    }
                },
                _ => {
                    assert(before.contains_key(k));
                },
            }
        }
    }
}

/// The generation after the last of `gens`, or 1 where there are none.
pub open spec fn next_gen(gens: Seq<u64>) -> int {
    if gens.len() == 0 {
        1
    } else {
        gens.last() + 1
    }
}

/// The generation that an engine opened over the logs `gens` writes to;
/// `None` where it does not fit in a `u64`.
pub fn next_page(gens: &Vec<u64>) -> (r: Option<u64>)
    ensures
        next_gen(gens@) <= u64::MAX ==> r == Some(next_gen(gens@) as u64),
        next_gen(gens@) > u64::MAX ==> r is None,
{
    if gens.len() == 0 {
        Some(1)
    } else {
        let last = gens[gens.len() - 1];
        if last == u64::MAX {
            None
        } else {
            Some(last + 1)
        }
    }
}

/// The engine: its index and the manager of its logs.
pub struct KvsEngine {
    index: StrMap<CommandPos>,
    manager: KvsManager,
}

impl KvsEngine {
    /// The index.
    pub closed spec fn index(&self) -> Map<Seq<char>, CommandPos> {
        self.index@
    }

    /// The manager of the logs.
    pub closed spec fn logs(&self) -> KvsManager {
        self.manager
    }

    /// The index is well formed and every place it names lies in a log
    /// that is held open.
    pub closed spec fn wf(&self) -> bool {
        &&& self.index.wf()
        &&& places_held(self.index@, self.manager.pages@)
    }

    /// Opens an engine over the logs `logs` of the generations
    /// `files_number`: holds them open, writes to the generation after the
    /// last of them (held open too where its file was `created`) and
    /// replays them in turn; the generations come in ascending order, as
    /// `get_files_number` gives them. `None` where that next generation does not fit
    /// in a `u64`.
    pub fn open(files_number: &Vec<u64>, created: bool, logs: &Vec<Vec<RequestRecord>>) -> (r: Option<
        KvsEngine,
    >)
        requires
            sorted(files_number@),
            files_number@.len() == logs@.len(),
            forall|i: int| 0 <= i < logs@.len() ==> well_formed_log(#[trigger] logs@[i]@),
        ensures
            match r {
                Some(e) => {
                    &&& next_gen(files_number@) <= u64::MAX
                    &&& e.wf()
                    &&& e.logs().temp_page() == next_gen(files_number@)
                    &&& e.logs().pages() == if created {
                        files_number@.push(next_gen(files_number@) as u64)
                    } else {
                        files_number@
                    }
                    &&& e.index() == replay_logs(
                        files_number@,
                        logs@.map_values(|l: Vec<RequestRecord>| l@),
                        files_number@.len() as int,
                    )
                },
                None => next_gen(files_number@) > u64::MAX,
            },
    {
        let new: u64 = match next_page(files_number) {
            Some(g) => g,
            None => {
                return None;
            },
        };
        let mut pages: Vec<u64> = Vec::new();
        let mut j: usize = 0;
        while j < files_number.len()
            invariant
                j <= files_number@.len(),
                pages@ == files_number@.take(j as int),
            decreases files_number@.len() - j,
        {
            pages.push(files_number[j]);
            j = j + 1;
            assert(pages@ =~= files_number@.take(j as int));
        }
        assert(files_number@.take(files_number@.len() as int) =~= files_number@);
        if created {
            pages.push(new);
        }
        let ghost all_pages = pages@;
        let manager = match KvsManager::new(pages, new) {
            Ok(m) => m,
            Err(_) => {
                return None;
            },
        };
        proof {
            assert forall|j: int| 0 <= j < files_number@.len() implies all_pages.contains(
                #[trigger] files_number@[j],
            ) by {
                assert(all_pages[j] == files_number@[j]);
            }
        }
        let ghost views = logs@.map_values(|l: Vec<RequestRecord>| l@);
        let mut index: StrMap<CommandPos> = StrMap::new();
        let mut i: usize = 0;
        while i < files_number.len()
            invariant
                files_number@.len() == logs@.len(),
                views == logs@.map_values(|l: Vec<RequestRecord>| l@),
                forall|j: int| 0 <= j < logs@.len() ==> well_formed_log(#[trigger] logs@[j]@),
                manager.pages() == all_pages,
                forall|j: int| 0 <= j < files_number@.len() ==> all_pages.contains(#[trigger] files_number@[j]),
                i <= files_number@.len(),
                index.wf(),
                index@ == replay_logs(files_number@, views, i as int),
                places_held(index@, all_pages),
            decreases files_number@.len() - i,
        {
            let gen = files_number[i];
            assert(views[i as int] == logs@[i as int]@);
            proof {
                lemma_replay_held(index@, gen, views[i as int], all_pages);
            }
            let _ = manager.load(gen, &logs[i], &mut index);
            i = i + 1;
        }
        Some(KvsEngine { index, manager })
    }

    /// Where the request last written about `key` lies, if any.
    pub fn get(&self, key: &String) -> (r: Option<CommandPos>)
        requires
            self.wf(),
        ensures
            self.index().contains_key(key@) ==> r == Some(self.index()[key@]),
            !self.index().contains_key(key@) ==> r is None,
            r matches Some(p) ==> self.logs().pages().contains(p.gen),
    {
        match self.index.get(key) {
            Some(p) => Some(*p),
            None => None,
        }
    }

    /// The log that a new request goes to; `Nothing` where it is not held open.
    pub fn page_for_write(&self) -> (r: KvsResult<u64>)
        ensures
            self.logs().pages().contains(self.logs().temp_page()) ==> r == Ok::<u64, KvsError>(
                self.logs().temp_page(),
            ),
            !self.logs().pages().contains(self.logs().temp_page()) ==> r matches Err(
                KvsError::Nothing,
            ),
    {
        self.manager.page_for_write()
    }

    /// Records that a `set` request about `key` was written at bytes
    /// `pos..pos + len` of the log written to.
    pub fn set(&mut self, key: String, pos: u64, len: u64) -> (r: KvsResult<()>)
        requires
            old(self).wf(),
        ensures
            final(self).wf(),
            final(self).logs() == old(self).logs(),
            old(self).logs().pages().contains(old(self).logs().temp_page()) ==> r is Ok
                && final(self).index() == old(self).index().insert(
                key@,
                CommandPos { gen: old(self).logs().temp_page(), pos, len },
            ),
            !old(self).logs().pages().contains(old(self).logs().temp_page()) ==> (r matches Err(
                KvsError::Nothing,
            )) && final(self).index() == old(self).index(),
    {
        match self.manager.set(pos, len) {
            Ok(place) => {
                self.index.insert(key, place);
                Ok(())
            },
            Err(e) => Err(e),
        }
    }

    /// Records that a `remove` request about `key` was written at bytes
    /// `pos..pos + len` of the log written to: the key now points at it.
    pub fn remove(&mut self, key: String, pos: u64, len: u64) -> (r: KvsResult<()>)
        requires
            old(self).wf(),
        ensures
            final(self).wf(),
            final(self).logs() == old(self).logs(),
            old(self).logs().pages().contains(old(self).logs().temp_page()) ==> r is Ok
                && final(self).index() == old(self).index().insert(
                key@,
                CommandPos { gen: old(self).logs().temp_page(), pos, len },
            ),
            !old(self).logs().pages().contains(old(self).logs().temp_page()) ==> (r matches Err(
                KvsError::Nothing,
            )) && final(self).index() == old(self).index(),
    {
        match self.manager.remove(pos, len) {
            Ok(place) => {
                self.index.insert(key, place);
                Ok(())
            },
            Err(e) => Err(e),
        }
    }
}

} // verus!
