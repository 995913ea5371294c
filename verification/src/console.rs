//! The console client of the mock store: it reads lines such as
//! `set key value` and turns each into a command for its connector. Its
//! mock server answers every request with a fixed text.

use vstd::prelude::*;
use crate::foreign::io_error_text;
use crate::protocol::{GetResponse, Request};

verus! {

/// The errors of the console client.
#[derive(Debug)]
pub enum KvsError {
    Io(std::io::Error),
    ParseLackArgs,
}

impl KvsError {
    /// The text that describes the error.
    pub fn message(&self) -> (text: String)
        ensures
            self is ParseLackArgs ==> text@ == "the command don't have enough args"@,
            self is Io ==> text@.take(10) == "IO error: "@,
    {
        match self {
            KvsError::Io(e) => {
                let prefix = String::from_str("IO error: ");
                let inner = io_error_text(e);
                let text = prefix.concat(inner.as_str());
                proof {
                    reveal_strlit("IO error: ");
                }
                assert(text@.take(10) =~= "IO error: "@);
                text
            },
            KvsError::ParseLackArgs => String::from_str("the command don't have enough args"),
        }
    }
}

/// The results of the console client.
pub type KvsResult<T> = Result<T, KvsError>;

/// A connection to a store, as the console client uses it.
pub trait Communicate {
    /// Gives `key` the value `value`.
    fn set(&self, key: String, value: String) -> KvsResult<()>;

    /// The value of `key`, if the store holds one.
    fn get(&self, key: String) -> KvsResult<Option<String>>;

    /// Takes `key` out of the store.
    fn remove(&self, key: String) -> KvsResult<()>;
}

/// A command typed at the console.
#[derive(Debug, PartialEq, Eq)]
pub enum ConsoleCommand {
    Get { key: String },
    Put { key: String, value: String },
    Remove { key: String },
    Exit,
    Unknown,
}

/// The position of the first space in `s`, or -1 where there is none.
pub open spec fn first_space(s: Seq<char>) -> int
    decreases s.len(),
{
    if s.len() == 0 {
        -1
    } else if s[0] == ' ' {
        0
    } else {
        let r = first_space(s.drop_first());
        if r < 0 {
            -1
        } else {
            r + 1
        }
    }
}

/// Piece `n` of `s` split at every space, as `str::split(" ")` yields them.
pub open spec fn piece(s: Seq<char>, n: nat) -> Option<Seq<char>>
    decreases n,
{
    let i = first_space(s);
    if n == 0 {
        Some(if i < 0 { s } else { s.take(i) })
    } else if i < 0 {
        None
    } else {
        piece(s.skip(i + 1), (n - 1) as nat)
    }
}

proof fn lemma_first_space(s: Seq<char>)
    ensures
        -1 <= first_space(s) < s.len(),
        first_space(s) >= 0 ==> s[first_space(s)] == ' ',
        forall|j: int| 0 <= j < s.len() && (first_space(s) < 0 || j < first_space(s)) ==> s[j] != ' ',
    decreases s.len(),
{
    if s.len() > 0 && s[0] != ' ' {
        let t = s.drop_first();
        lemma_first_space(t);
        assert forall|j: int| 0 <= j < s.len() && (first_space(s) < 0 || j < first_space(s)) implies s[j] != ' ' by {
            if j > 0 {
                assert(s[j] == t[j - 1]);
            }
        }
    }
}

/// A word followed by a space is the first piece of a line, and the pieces
/// after it are those of the rest of the line; a line without a space is
/// one piece. This holds whatever the lengths of the word and the rest.
pub proof fn law_pieces_of_words(word: Seq<char>, rest: Seq<char>, n: nat)
    requires
        forall|j: int| 0 <= j < word.len() ==> word[j] != ' ',
    ensures
        piece(word + seq![' '] + rest, 0) == Some(word),
        piece(word + seq![' '] + rest, n + 1) == piece(rest, n),
        piece(word, 0) == Some(word),
        piece(word, n + 1) is None,
{
    let s = word + seq![' '] + rest;
    lemma_first_space(s);
    lemma_first_space(word);
    assert(s[word.len() as int] == ' ');
    let i = first_space(s);
    if i < word.len() {
        assert(s[i] == word[i]);
    }
    if i > word.len() {
        assert(s[word.len() as int] != ' ');
    }
    assert(i == word.len());
    assert(s.take(i) =~= word);
    assert(s.skip(i + 1) =~= rest);
    if first_space(word) >= 0 {
        assert(word[first_space(word)] == ' ');
    }
}

/// `s` split at its first space: what precedes it, and what follows it if
/// there is one.
fn split_first(s: &str) -> (r: (&str, Option<&str>))
    ensures
        first_space(s@) < 0 ==> r.0@ == s@ && r.1 is None,
        first_space(s@) >= 0 ==> r.0@ == s@.take(first_space(s@)) && (r.1 matches Some(rest)
            && rest@ == s@.skip(first_space(s@) + 1)),
{
    proof {
        lemma_first_space(s@);
    }
    let n = s.unicode_len();
    let mut i: usize = 0;
    while i < n && s.get_char(i) != ' '
        invariant
            n == s@.len(),
            i <= n,
            forall|j: int| 0 <= j < i ==> s@[j] != ' ',
        decreases n - i,
    {
        i = i + 1;
    }
    if i == n {
        assert(first_space(s@) < 0) by {
            if first_space(s@) >= 0 {
                assert(s@[first_space(s@)] == ' ');
            }
        }
        (s, None)
    } else {
        assert(first_space(s@) == i) by {
            if first_space(s@) < 0 || first_space(s@) > i {
                assert(s@[i as int] != ' ');
            }
        }
        (s.substring_char(0, i), Some(s.substring_char(i + 1, n)))
    }
}

/// Whether `a` and `b` hold the same text.
fn same_text(a: &str, b: &str) -> (r: bool)
    ensures
        r == (a@ == b@),
{
    let x = String::from_str(a);
    let y = String::from_str(b);
    x == y
}

/// The command typed as the line `line`: its first piece names the
/// command and the pieces after it are its arguments. A `get`, `set` or
/// `remove` short of arguments is `ParseLackArgs`; a first piece that
/// names no command is `Unknown`.
pub fn parse_command(line: &str) -> (r: KvsResult<ConsoleCommand>)
    ensures
        ({
            let cmd = piece(line@, 0).unwrap();
            let arg1 = piece(line@, 1);
            let arg2 = piece(line@, 2);
            if cmd == "get"@ || cmd == "remove"@ {
                match arg1 {
                    Some(k) => match r {
                        Ok(ConsoleCommand::Get { key }) => cmd == "get"@ && key@ == k,
                        Ok(ConsoleCommand::Remove { key }) => cmd == "remove"@ && key@ == k,
                        _ => false,
                    },
                    None => r matches Err(KvsError::ParseLackArgs),
                }
            } else if cmd == "set"@ {
                match (arg1, arg2) {
                    (Some(k), Some(v)) => r matches Ok(ConsoleCommand::Put { key, value }) && key@ == k
                        && value@ == v,
                    _ => r matches Err(KvsError::ParseLackArgs),
                }
            } else if cmd == "exit"@ {
                r matches Ok(ConsoleCommand::Exit)
            } else {
                r matches Ok(ConsoleCommand::Unknown)
            }
        }),
{
    let (cmd, rest) = split_first(line);
    assert(piece(line@, 0) == Some(cmd@));
    let (arg1, arg2): (Option<&str>, Option<&str>) = match rest {
        Some(r1) => {
            let (a, r2) = split_first(r1);
            assert(piece(line@, 1) == piece(r1@, 0));
            assert(piece(line@, 2) == piece(r1@, 1));
            match r2 {
                Some(r2) => {
                    let (b, _) = split_first(r2);
                    assert(piece(r1@, 1) == piece(r2@, 0));
                    (Some(a), Some(b))
                },
                None => (Some(a), None),
            }
        },
        None => (None, None),
    };
    assert(match arg1 {
        Some(a) => piece(line@, 1) == Some(a@),
        None => piece(line@, 1) is None,
    });
    assert(match arg2 {
        Some(b) => piece(line@, 2) == Some(b@),
        None => piece(line@, 2) is None,
    });
    proof {
        reveal_strlit("get");
        reveal_strlit("set");
        reveal_strlit("remove");
        reveal_strlit("exit");
        assert("get"@.len() == 3 && "set"@.len() == 3 && "remove"@.len() == 6 && "exit"@.len() == 4);
        assert("get"@[0] == 'g' && "set"@[0] == 's');
        assert("get"@ != "set"@ && "remove"@ != "set"@ && "remove"@ != "exit"@ && "get"@ != "exit"@);
    }
    if same_text(cmd, "get") {
        match arg1 {
            Some(k) => Ok(ConsoleCommand::Get { key: String::from_str(k) }),
            None => Err(KvsError::ParseLackArgs),
        }
    } else if same_text(cmd, "set") {
        match (arg1, arg2) {
            (Some(k), Some(v)) => Ok(
                ConsoleCommand::Put { key: String::from_str(k), value: String::from_str(v) },
            ),
            _ => Err(KvsError::ParseLackArgs),
        }
    } else if same_text(cmd, "remove") {
        match arg1 {
            Some(k) => Ok(ConsoleCommand::Remove { key: String::from_str(k) }),
            None => Err(KvsError::ParseLackArgs),
        }
    } else if same_text(cmd, "exit") {
        Ok(ConsoleCommand::Exit)
    } else {
        Ok(ConsoleCommand::Unknown)
    }
}

/// The fixed answer of the mock server to the request `req`.
pub fn deal(req: &Request) -> (resp: GetResponse)
    ensures
        match req {
            Request::Get { .. } => resp matches GetResponse::Success(Some(t)) && t@ == "get the key 1"@,
            Request::Put { .. } => resp matches GetResponse::Success(Some(t)) && t@ == "set the key"@,
            Request::Remove { .. } => resp matches GetResponse::Success(Some(t)) && t@ == "remove the key"@,
        },
{
    match req {
        Request::Get { .. } => GetResponse::Success(Some(String::from_str("get the key 1"))),
        Request::Put { .. } => GetResponse::Success(Some(String::from_str("set the key"))),
        Request::Remove { .. } => GetResponse::Success(Some(String::from_str("remove the key"))),
    }
}

} // verus!
