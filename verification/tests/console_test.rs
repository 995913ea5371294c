use kvs::console::{deal, parse_command, ConsoleCommand, KvsError};
use kvs::protocol::{GetResponse, Request};

#[test]
fn parses_the_three_commands() {
    assert_eq!(parse_command("get a").unwrap(), ConsoleCommand::Get { key: "a".to_owned() });
    assert_eq!(
        parse_command("set a b").unwrap(),
        ConsoleCommand::Put { key: "a".to_owned(), value: "b".to_owned() }
    );
    assert_eq!(parse_command("remove a").unwrap(), ConsoleCommand::Remove { key: "a".to_owned() });
    assert_eq!(parse_command("exit").unwrap(), ConsoleCommand::Exit);
}

#[test]
fn keeps_the_line_end_in_the_last_piece() {
    assert_eq!(parse_command("get a\n").unwrap(), ConsoleCommand::Get { key: "a\n".to_owned() });
    assert_eq!(parse_command("exit\n").unwrap(), ConsoleCommand::Unknown);
    assert_eq!(
        parse_command("set a b c").unwrap(),
        ConsoleCommand::Put { key: "a".to_owned(), value: "b".to_owned() }
    );
    assert_eq!(parse_command("get  a").unwrap(), ConsoleCommand::Get { key: "".to_owned() });
}

#[test]
fn lacking_arguments_is_an_error() {
    assert!(matches!(parse_command("get"), Err(KvsError::ParseLackArgs)));
    assert!(matches!(parse_command("set a"), Err(KvsError::ParseLackArgs)));
    assert!(matches!(parse_command("remove"), Err(KvsError::ParseLackArgs)));
    assert_eq!(parse_command("hello there").unwrap(), ConsoleCommand::Unknown);
    assert_eq!(parse_command("").unwrap(), ConsoleCommand::Unknown);
    assert_eq!(KvsError::ParseLackArgs.message(), "the command don't have enough args");
}

#[test]
fn mock_server_answers() {
    assert_eq!(
        deal(&Request::Get { key: "k".to_owned() }),
        GetResponse::Success(Some("get the key 1".to_owned()))
    );
    assert_eq!(
        deal(&Request::Put { key: "k".to_owned(), value: "v".to_owned() }),
        GetResponse::Success(Some("set the key".to_owned()))
    );
    assert_eq!(
        deal(&Request::Remove { key: "k".to_owned() }),
        GetResponse::Success(Some("remove the key".to_owned()))
    );
}

#[test]
fn console_io_error_message() {
    let e = KvsError::Io(std::io::Error::new(std::io::ErrorKind::Other, "closed"));
    assert_eq!(e.message(), "IO error: closed");
}

fn split_model(line: &str) -> Result<ConsoleCommand, ()> {
    let mut it = line.split(" ");
    let command = it.next().unwrap_or("can't find a command");
    match command {
        "get" => it.next().map(|k| ConsoleCommand::Get { key: k.to_owned() }).ok_or(()),
        "set" => {
            let k = it.next().ok_or(())?;
            let v = it.next().ok_or(())?;
            Ok(ConsoleCommand::Put { key: k.to_owned(), value: v.to_owned() })
        }
        "remove" => it.next().map(|k| ConsoleCommand::Remove { key: k.to_owned() }).ok_or(()),
        "exit" => Ok(ConsoleCommand::Exit),
        _ => Ok(ConsoleCommand::Unknown),
    }
}

#[test]
fn parse_agrees_with_split_on_spaces() {
    let lines = [
        "get k", "get", "get ", "set k v", "set k", "set  v", "remove x y", "remove", "exit", "exit ",
        " get k", "getk", "set é ü\n", "", " ", "  ", "get\tk",
    ];
    for line in lines.iter() {
        let got = parse_command(line).map_err(|_| ());
        assert_eq!(got, split_model(line), "line {:?}", line);
    }
}
