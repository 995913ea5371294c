use kvs::files::{gen_of_file_name, get_files_number, log_file_name, log_file_path, log_path, sorted_gen_list};
use std::path::Path;

fn names(v: &[&str]) -> Vec<String> {
    v.iter().map(|s| s.to_string()).collect()
}

#[test]
fn log_path_matches_path_join() {
    for dir in ["data", "data/", "", "/tmp/kvs", "a/b"].iter() {
        for gen in [0u64, 1, 42, u64::MAX].iter() {
            let expected = Path::new(dir).join(format!("{}.log", gen));
            assert_eq!(log_path(dir, *gen), expected.to_str().unwrap());
            assert_eq!(log_file_path(dir, *gen), expected.to_str().unwrap());
        }
    }
}

#[test]
fn gen_of_file_name_follows_extension_and_trim() {
    assert_eq!(gen_of_file_name("12.log", "log"), Some(12));
    assert_eq!(gen_of_file_name("3.log.log", "log"), Some(3));
    assert_eq!(gen_of_file_name("+4.log", "log"), Some(4));
    assert_eq!(gen_of_file_name(".log", "log"), None);
    assert_eq!(gen_of_file_name("x.log", "log"), None);
    assert_eq!(gen_of_file_name("5.txt", "log"), None);
    assert_eq!(gen_of_file_name("5", "log"), None);
    assert_eq!(gen_of_file_name("engine", "log"), None);
    assert_eq!(gen_of_file_name("12.log", ".log"), None);
}

#[test]
fn get_files_number_sorts_the_generations() {
    let found = get_files_number(&names(&["3.log", "engine", "1.log", "10.log", "2.txt", "7.log"]));
    assert_eq!(found, vec![1, 3, 7, 10]);
}

#[test]
fn get_files_number_keeps_duplicates() {
    let found = get_files_number(&names(&["2.log", "2.log.log", "1.log"]));
    assert_eq!(found, vec![1, 2, 2]);
}

#[test]
fn sorted_gen_list_finds_nothing() {
    let found = sorted_gen_list(&names(&["1.log", "2.log", "3.log.log", ".log"]));
    assert!(found.is_empty());
}

#[test]
fn gen_list_matches_std_path_semantics() {
    let list = ["1.log", "..", ".log", "a.log", "9.log", "b..log", "0.log", "x.y.log"];
    for name in list.iter() {
        let p = Path::new(name);
        let ext_is_log = p.extension() == Some("log".as_ref());
        let expected = if ext_is_log {
            name.trim_end_matches(".log").parse::<u64>().ok()
        } else {
            None
        };
        assert_eq!(gen_of_file_name(name, "log"), expected, "name {:?}", name);
    }
}

#[test]
fn log_file_name_is_the_decimal_generation_and_log() {
    assert_eq!(log_file_name(0), "0.log");
    assert_eq!(log_file_name(42), "42.log");
    assert_eq!(log_file_name(u64::MAX), format!("{}.log", u64::MAX));
}
