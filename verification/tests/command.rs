use supervisor::command::{keyword_of, parse_command, read_index_argument, Command, Keyword, Rejection};

#[test]
fn keywords_are_recognised() {
    assert_eq!(keyword_of(b"start"), Some(Keyword::Start));
    assert_eq!(keyword_of(b"status"), Some(Keyword::Status));
    assert_eq!(keyword_of(b"remove"), Some(Keyword::Remove));
    assert_eq!(keyword_of(b"logs"), Some(Keyword::Logs));
    assert_eq!(keyword_of(b"quit"), Some(Keyword::Quit));
}

#[test]
fn other_words_are_no_keywords() {
    for w in ["", "Start", "star", "starts", "statut", "remov", "removed", "log", "logz", "quip", "exit"] {
        assert_eq!(keyword_of(w.as_bytes()), None);
    }
}

#[test]
fn start_takes_a_file_and_a_name() {
    assert_eq!(
        parse_command(b"start echo.js pinger\n"),
        Ok(Command::Start { file_name: b"echo.js".to_vec(), logical_name: b"pinger".to_vec() })
    );
}

#[test]
fn start_with_the_wrong_number_of_arguments_is_refused() {
    assert_eq!(parse_command(b"start"), Err(Rejection::NotEnoughArgs));
    assert_eq!(parse_command(b"start echo.js"), Err(Rejection::NotEnoughArgs));
    assert_eq!(parse_command(b"start echo.js pinger extra"), Err(Rejection::NotEnoughArgs));
}

#[test]
fn status_and_quit_take_no_arguments() {
    assert_eq!(parse_command(b"status"), Ok(Command::Status));
    assert_eq!(parse_command(b"  status  \r\n"), Ok(Command::Status));
    assert_eq!(parse_command(b"status now"), Ok(Command::Status));
    assert_eq!(parse_command(b"quit"), Ok(Command::Quit));
}

#[test]
fn remove_and_logs_take_an_index() {
    assert_eq!(parse_command(b"remove 0"), Ok(Command::Remove { index: 0 }));
    assert_eq!(parse_command(b"remove 12\n"), Ok(Command::Remove { index: 12 }));
    assert_eq!(parse_command(b"logs 3"), Ok(Command::Logs { index: 3 }));
}

#[test]
fn remove_and_logs_without_one_argument_are_refused() {
    assert_eq!(parse_command(b"remove"), Err(Rejection::MissingIndex));
    assert_eq!(parse_command(b"remove 1 2"), Err(Rejection::MissingIndex));
    assert_eq!(parse_command(b"logs"), Err(Rejection::MissingIndex));
    assert_eq!(parse_command(b"logs 1 2"), Err(Rejection::MissingIndex));
}

#[test]
fn an_index_that_is_no_number_is_refused() {
    assert_eq!(parse_command(b"remove one"), Err(Rejection::BadIndex));
    assert_eq!(parse_command(b"logs -1"), Err(Rejection::BadIndex));
    assert_eq!(parse_command(b"logs 99999999999999999999999999"), Err(Rejection::BadIndex));
}

#[test]
fn anything_else_is_unknown() {
    assert_eq!(parse_command(b""), Err(Rejection::UnknownCommand));
    assert_eq!(parse_command(b"   \n"), Err(Rejection::UnknownCommand));
    assert_eq!(parse_command(b"restart 0"), Err(Rejection::UnknownCommand));
    assert_eq!(parse_command(b"START a b"), Err(Rejection::UnknownCommand));
}

#[test]
fn rejections_have_their_messages() {
    assert_eq!(Rejection::NotEnoughArgs.text(), "Not enough args");
    assert_eq!(Rejection::MissingIndex.text(), "Missing process index");
    assert_eq!(Rejection::UnknownCommand.text(), "Unknown command");
    assert_eq!(Rejection::BadIndex.text(), "Invalid process index");
}

#[test]
fn index_argument_is_the_second_word() {
    assert_eq!(read_index_argument(&vec![b"logs".to_vec(), b"4".to_vec()]), Ok(4));
    assert_eq!(read_index_argument(&vec![b"logs".to_vec()]), Err(Rejection::MissingIndex));
    assert_eq!(
        read_index_argument(&vec![b"logs".to_vec(), b"x".to_vec()]),
        Err(Rejection::BadIndex)
    );
}
