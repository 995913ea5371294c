//! Names of log files: the path of the log of a generation, and the
//! generations found among the names of the files in a directory.

use vstd::prelude::*;
use crate::decimal::{
    decimal, format_u64, is_digit, law_parse_format_round_trip, lemma_decimal_digits,
    parse_u64, parse_u64_text,
};

verus! {

broadcast use vstd::seq_lib::group_to_multiset_ensures;

/// The suffix that every log file name ends with.
pub open spec fn log_suffix() -> Seq<char> {
    seq!['.', 'l', 'o', 'g']
}

/// `dir` joined with the relative name `name`, as `Path::join` does on
/// Unix: a separator goes between them unless `dir` is empty or already
/// ends with one.
pub open spec fn join(dir: Seq<char>, name: Seq<char>) -> Seq<char> {
    if dir.len() > 0 && dir.last() != '/' {
        dir + seq!['/'] + name
    } else {
        dir + name
    }
}

/// The file name of the log of generation `gen`: its decimal text and `.log`.
pub open spec fn log_name(gen: nat) -> Seq<char> {
    decimal(gen) + log_suffix()
}

/// The position of the last `.` in `s`, or -1 where there is none.
pub open spec fn last_dot(s: Seq<char>) -> int
    decreases s.len(),
{
    if s.len() == 0 {
        -1
    } else if s.last() == '.' {
        s.len() - 1
    } else {
        last_dot(s.drop_last())
    }
}

/// The extension of a file name as `Path::extension` gives it: what follows
/// the last `.`, where something precedes that dot; none for `..`.
pub open spec fn extension(name: Seq<char>) -> Option<Seq<char>> {
    if name == seq!['.', '.'] {
        None
    } else if last_dot(name) <= 0 {
        None
    } else {
        Some(name.skip(last_dot(name) + 1))
    }
}

/// `s` with every trailing copy of `pat` taken off, as `str::trim_end_matches`
/// does with a non-empty string pattern.
pub open spec fn trim_end_matches(s: Seq<char>, pat: Seq<char>) -> Seq<char>
    decreases s.len(),
{
    if pat.len() > 0 && s.len() >= pat.len() && s.skip(s.len() - pat.len()) == pat {
        trim_end_matches(s.take(s.len() - pat.len()), pat)
    } else {
        s
    }
}

/// The generation that the file `name` holds the log of, where its
/// extension is `ext`: the number left once the `.log` suffixes are
/// trimmed off, if that text is a number.
pub open spec fn gen_of_name(name: Seq<char>, ext: Seq<char>) -> Option<u64> {
    if extension(name) == Some(ext) {
        parse_u64(trim_end_matches(name, log_suffix()))
    } else {
        None
    }
}

/// The generations of the files `names`, in the order of the names.
pub open spec fn gens_of(names: Seq<Seq<char>>, ext: Seq<char>) -> Seq<u64>
    decreases names.len(),
{
    if names.len() == 0 {
        Seq::empty()
    } else {
        let rest = gens_of(names.drop_last(), ext);
        match gen_of_name(names.last(), ext) {
            Some(g) => rest.push(g),
            None => rest,
        }
    }
}

/// The generations of two lists of names one after the other are those
/// of the first list followed by those of the second: each name gives its
/// generation, however many names come before it.
pub proof fn law_gens_of_concat(a: Seq<Seq<char>>, b: Seq<Seq<char>>, ext: Seq<char>)
    ensures
        gens_of(a + b, ext) == gens_of(a, ext) + gens_of(b, ext),
    decreases b.len(),
{
    if b.len() == 0 {
        assert(a + b =~= a);
        assert(gens_of(a, ext) + gens_of(b, ext) =~= gens_of(a, ext));
    } else {
        let rest = b.drop_last();
        law_gens_of_concat(a, rest, ext);
        assert((a + b).drop_last() =~= a + rest);
        assert((a + b).last() == b.last());
        match gen_of_name(b.last(), ext) {
            Some(g) => {
                assert(gens_of(a, ext) + gens_of(rest, ext).push(g) =~= (gens_of(a, ext) + gens_of(
                    rest,
                    ext,
                )).push(g));
            },
            None => {},
        }
    }
}

/// A single name gives its generation, if it names a log, and nothing
/// otherwise.
pub proof fn law_gens_of_single(name: Seq<char>, ext: Seq<char>)
    ensures
        gens_of(seq![name], ext) == match gen_of_name(name, ext) {
            Some(g) => seq![g],
            None => Seq::<u64>::empty(),
        },
{
    let s = seq![name];
    assert(s.drop_last() =~= Seq::<Seq<char>>::empty());
    assert(gens_of(Seq::<Seq<char>>::empty(), ext) == Seq::<u64>::empty());
    assert(s.last() == name);
    match gen_of_name(name, ext) {
        Some(g) => {
            assert(Seq::<u64>::empty().push(g) =~= seq![g]);
        },
        None => {},
    }
}

/// Whether `s` is in ascending order.
pub open spec fn sorted(s: Seq<u64>) -> bool {
    forall|i: int, j: int| 0 <= i <= j < s.len() ==> s[i] <= s[j]
}

/// The character views of a list of strings.
pub open spec fn names_view(names: Seq<String>) -> Seq<Seq<char>> {
    names.map_values(|n: String| n@)
}

/// The file name of the log of generation `gen`.
pub fn log_file_name(gen: u64) -> (name: String)
    ensures
        name@ == log_name(gen as nat),
{
    let mut name = format_u64(gen);
    proof {
        reveal_strlit(".log");
    }
    name.append(".log");
    assert(name@ =~= log_name(gen as nat));
    name
}

/// The path of the log file of generation `gen` in the directory `dir`.
pub fn log_path(dir: &str, gen: u64) -> (path: String)
    ensures
        path@ == join(dir@, log_name(gen as nat)),
{
    let n = dir.unicode_len();
    let mut path = String::from_str(dir);
    if n > 0 && dir.get_char(n - 1) != '/' {
        proof {
            reveal_strlit("/");
        }
        path.append("/");
    }
    let digits = format_u64(gen);
    path.append(digits.as_str());
    proof {
        reveal_strlit(".log");
    }
    path.append(".log");
    assert(path@ =~= join(dir@, log_name(gen as nat)));
    path
}

/// The path of the log file of generation `gen` in the directory `path`.
pub fn log_file_path(path: &str, gen: u64) -> (file: String)
    ensures
        file@ == join(path@, log_name(gen as nat)),
{
    log_path(path, gen)
}

proof fn lemma_last_dot_bounds(s: Seq<char>)
    ensures
        -1 <= last_dot(s) < s.len(),
        last_dot(s) >= 0 ==> s[last_dot(s)] == '.',
        forall|j: int| last_dot(s) < j < s.len() ==> s[j] != '.',
    decreases s.len(),
{
    if s.len() > 0 && s.last() != '.' {
        let t = s.drop_last();
        lemma_last_dot_bounds(t);
        assert forall|j: int| last_dot(s) < j < s.len() implies s[j] != '.' by {
            if j < t.len() {
                assert(s[j] == t[j]);
            }
        }
    }
}

/// Whether `Path::extension` of the file name `name` is `ext`.
fn has_extension(name: &str, ext: &str) -> (b: bool)
    ensures
        b == (extension(name@) == Some(ext@)),
{
    proof {
        lemma_last_dot_bounds(name@);
    }
    let n = name.unicode_len();
    if n == 2 && name.get_char(0) == '.' && name.get_char(1) == '.' {
        assert(name@ =~= seq!['.', '.']);
        return false;
    }
    let mut i: usize = n;
    while i > 0 && name.get_char(i - 1) != '.'
        invariant
            n == name@.len(),
            i <= n,
            forall|j: int| i <= j < n ==> name@[j] != '.',
            last_dot(name@) < i,
            -1 <= last_dot(name@) < name@.len(),
            last_dot(name@) >= 0 ==> name@[last_dot(name@)] == '.',
        decreases i,
    {
        i = i - 1;
    }
    // `i` is one past the last dot, or 0 where there is no dot.
    if i <= 1 {
        return false;
    }
    let dot = i - 1;
    assert(last_dot(name@) == dot) by {
        if last_dot(name@) < dot {
            assert(name@[dot as int] == '.');
        }
    }
    assert(extension(name@) == Some(name@.skip(i as int)));
    let m = ext.unicode_len();
    if n - i != m {
        assert(name@.skip(i as int).len() != ext@.len());
        return false;
    }
    let mut j: usize = 0;
    while j < m
        invariant
            n == name@.len(),
            m == ext@.len(),
            i + m == n,
            j <= m,
            extension(name@) == Some(name@.skip(i as int)),
            forall|k: int| 0 <= k < j ==> name@[i + k] == ext@[k],
        decreases m - j,
    {
        if name.get_char(i + j) != ext.get_char(j) {
            assert(name@.skip(i as int)[j as int] != ext@[j as int]);
            return false;
        }
        j = j + 1;
    }
    assert(name@.skip(i as int) =~= ext@);
    true
}

/// Whether the first `end` characters of `name` end with `.log`.
fn ends_with_log(name: &str, end: usize) -> (b: bool)
    requires
        4 <= end <= name@.len(),
    ensures
        b == (name@.take(end as int).skip(end - 4) == log_suffix()),
{
    proof {
        reveal_strlit(".log");
    }
    let pat = ".log";
    assert(pat@ =~= log_suffix());
    let ghost s = name@.take(end as int).skip(end - 4);
    let mut k: usize = 0;
    while k < 4
        invariant
            4 <= end <= name@.len(),
            k <= 4,
            pat@ == log_suffix(),
            s == name@.take(end as int).skip(end - 4),
            forall|q: int| 0 <= q < k ==> s[q] == log_suffix()[q],
        decreases 4 - k,
    {
        assert(s[k as int] == name@[end - 4 + k]);
        if name.get_char(end - 4 + k) != pat.get_char(k) {
            return false;
        }
        k = k + 1;
    }
    assert(s =~= log_suffix());
    true
}

/// `name` with every trailing `.log` taken off.
fn trim_log_suffix(name: &str) -> (t: &str)
    ensures
        t@ == trim_end_matches(name@, log_suffix()),
{
    let n = name.unicode_len();
    let mut end: usize = n;
    assert(name@.take(n as int) =~= name@);
    while end >= 4 && ends_with_log(name, end)
        invariant
            n == name@.len(),
            end <= n,
            trim_end_matches(name@, log_suffix()) == trim_end_matches(name@.take(end as int), log_suffix()),
        decreases end,
    {
        let ghost s = name@.take(end as int);
        assert(s.take(s.len() - 4) =~= name@.take(end - 4));
        end = end - 4;
    }
    name.substring_char(0, end)
}

/// The generation that the file `name` holds the log of, where its
/// extension is `ext`.
pub fn gen_of_file_name(name: &str, ext: &str) -> (g: Option<u64>)
    ensures
        g == gen_of_name(name@, ext@),
{
    if has_extension(name, ext) {
        let stem = trim_log_suffix(name);
        parse_u64_text(stem)
    } else {
        None
    }
}

/// Puts `x` into the sorted vector `v` where it keeps the order.
fn insert_sorted(v: &mut Vec<u64>, x: u64)
    requires
        sorted(old(v)@),
    ensures
        sorted(final(v)@),
        final(v)@.to_multiset() == old(v)@.to_multiset().insert(x),
{
    let mut p: usize = 0;
    while p < v.len() && v[p] <= x
        invariant
            p <= v@.len(),
            forall|q: int| 0 <= q < p ==> v@[q] <= x,
        decreases v@.len() - p,
    {
        p = p + 1;
    }
    let ghost before = v@;
    v.insert(p, x);
    assert(v@ == before.insert(p as int, x));
    assert forall|i: int, j: int| 0 <= i <= j < v@.len() implies v@[i] <= v@[j] by {
        if j < p {
        } else if i > p {
        } else if i == p && j == p {
        } else if i == p {
            assert(v@[j] == before[j - 1]);
            assert(before[p as int] > x);
        } else {
            // i < p <= j
            if j == p {
            } else {
                assert(v@[j] == before[j - 1]);
            }
        }
    }
}

/// The generations of the files `names` whose extension is `ext`, in
/// ascending order.
pub fn gens_of_names(names: &Vec<String>, ext: &str) -> (gens: Vec<u64>)
    ensures
        sorted(gens@),
        gens@.to_multiset() == gens_of(names_view(names@), ext@).to_multiset(),
{
    let mut gens: Vec<u64> = Vec::new();
    let mut i: usize = 0;
    while i < names.len()
        invariant
            i <= names@.len(),
            sorted(gens@),
            gens@.to_multiset() == gens_of(names_view(names@).take(i as int), ext@).to_multiset(),
        decreases names@.len() - i,
    {
        let ghost prefix = names_view(names@).take(i as int);
        let ghost next = names_view(names@).take(i + 1);
        assert(next.drop_last() =~= prefix);
        assert(next.last() == names@[i as int]@);
        match gen_of_file_name(names[i].as_str(), ext) {
            Some(g) => {
                insert_sorted(&mut gens, g);
            },
            None => {},
        }
        i = i + 1;
    }
    assert(names_view(names@).take(names@.len() as int) =~= names_view(names@));
    gens
}

/// The last dot of a dot-free text followed by `.log` is the one of `.log`.
proof fn lemma_last_dot_of_log_name(s: Seq<char>)
    requires
        forall|i: int| 0 <= i < s.len() ==> s[i] != '.',
    ensures
        last_dot(s + log_suffix()) == s.len(),
{
    let n = s + log_suffix();
    let a = n.drop_last();
    let b = a.drop_last();
    let c = b.drop_last();
    assert(n.last() == 'g');
    assert(a.last() == 'o');
    assert(b.last() == 'l');
    assert(c =~= s + seq!['.']);
    assert(c.last() == '.');
    assert(last_dot(c) == s.len());
    assert(last_dot(b) == last_dot(c));
    assert(last_dot(a) == last_dot(b));
    assert(last_dot(n) == last_dot(a));
}

/// The generation of the log file that `log_name` names for `gen` is read
/// back as `gen`: what `log_file_path` writes, `get_files_number` finds.
pub proof fn law_log_name_round_trip(gen: u64)
    ensures
        gen_of_name(log_name(gen as nat), seq!['l', 'o', 'g']) == Some(gen),
{
    let s = decimal(gen as nat);
    lemma_decimal_digits(gen as nat);
    assert forall|i: int| 0 <= i < s.len() implies s[i] != '.' by {
        assert(is_digit(s[i]));
    }
    let name = log_name(gen as nat);
    assert(name == s + log_suffix());
    lemma_last_dot_of_log_name(s);
    assert(name != seq!['.', '.']) by {
        assert(name.len() >= 5);
    }
    assert(name.skip(s.len() as int + 1) =~= seq!['l', 'o', 'g']);
    assert(extension(name) == Some(seq!['l', 'o', 'g']));
    // Trimming takes off the `.log` once; the digits before it do not end in `.log`.
    assert(name.skip(name.len() - 4) =~= log_suffix());
    assert(name.take(name.len() - 4) =~= s);
    assert(trim_end_matches(s, log_suffix()) == s) by {
        if s.len() >= 4 {
            let tail = s.skip(s.len() - 4);
            assert(is_digit(s[s.len() - 1]));
            assert(tail[3] == s[s.len() - 1]);
            assert(tail != log_suffix());
        }
    }
    assert(trim_end_matches(name, log_suffix()) == s);
    law_parse_format_round_trip(gen);
}

/// An extension never holds a dot, so no file name has the extension `.log`.
proof fn lemma_no_dotted_extension(name: Seq<char>)
    ensures
        extension(name) != Some(log_suffix()),
{
    lemma_last_dot_bounds(name);
    if extension(name) == Some(log_suffix()) {
        let i = last_dot(name);
        let e = name.skip(i + 1);
        assert(e == log_suffix());
        assert(e.len() == 4);
        assert(e[0] == '.');
        assert(name[i + 1] == e[0]);
    }
}

/// Matching extensions against `.log` finds no generation at all.
pub proof fn law_dotted_extension_finds_nothing(names: Seq<Seq<char>>)
    ensures
        gens_of(names, log_suffix()) == Seq::<u64>::empty(),
    decreases names.len(),
{
    if names.len() > 0 {
        law_dotted_extension_finds_nothing(names.drop_last());
        lemma_no_dotted_extension(names.last());
    }
}

/// The generations of the log files among the file names `names`, in
/// ascending order, matching the extension against `.log`. As no extension
/// holds a dot, it finds none.
pub fn sorted_gen_list(names: &Vec<String>) -> (gens: Vec<u64>)
    ensures
        sorted(gens@),
        gens@.to_multiset() == gens_of(names_view(names@), log_suffix()).to_multiset(),
        gens@.len() == 0,
{
    proof {
        law_dotted_extension_finds_nothing(names_view(names@));
    }
    proof {
        reveal_strlit(".log");
    }
    let ext = ".log";
    assert(ext@ =~= log_suffix());
    let gens = gens_of_names(names, ext);
    assert(gens@.to_multiset().len() == gens@.len());
    assert(Seq::<u64>::empty().to_multiset().len() == 0);
    gens
}

/// The generations of the log files among the file names `names`, in
/// ascending order, matching the extension against `log`.
pub fn get_files_number(names: &Vec<String>) -> (gens: Vec<u64>)
    ensures
        sorted(gens@),
        gens@.to_multiset() == gens_of(names_view(names@), seq!['l', 'o', 'g']).to_multiset(),
{
    proof {
        reveal_strlit("log");
    }
    let ext = "log";
    assert(ext@ =~= seq!['l', 'o', 'g']);
    gens_of_names(names, ext)
}

} // verus!
