use blind_control::command::Command;

fn parse(s: &str) -> Result<Command, ()> {
    Command::parse(s.as_bytes())
}

#[test]
fn parses_stop_all() {
    assert_eq!(parse("stop"), Ok(Command::Stop { index: None }));
}

#[test]
fn parses_stop_one() {
    assert_eq!(parse("stop 3"), Ok(Command::Stop { index: Some(3) }));
}

#[test]
fn parses_up() {
    assert_eq!(parse("up 0"), Ok(Command::Up { index: 0 }));
}

#[test]
fn parses_down_largest_index() {
    assert_eq!(parse("down 255"), Ok(Command::Down { index: 255 }));
}

#[test]
fn parses_limit_up_only() {
    assert_eq!(
        parse("limit 1 up 500"),
        Ok(Command::Limit { index: 1, up_limit: Some(500), down_limit: None })
    );
}

#[test]
fn parses_limit_down_only() {
    assert_eq!(
        parse("limit 1 down 200"),
        Ok(Command::Limit { index: 1, up_limit: None, down_limit: Some(200) })
    );
}

#[test]
fn parses_limit_both() {
    assert_eq!(
        parse("limit 2 up 100 down 200"),
        Ok(Command::Limit { index: 2, up_limit: Some(100), down_limit: Some(200) })
    );
}

#[test]
fn parses_limit_none() {
    assert_eq!(
        parse("limit 4"),
        Ok(Command::Limit { index: 4, up_limit: None, down_limit: None })
    );
}

#[test]
fn parses_help() {
    assert_eq!(parse("help"), Ok(Command::Help));
}

#[test]
fn ignores_surrounding_and_repeated_blanks() {
    assert_eq!(parse("  up   7 \t"), Ok(Command::Up { index: 7 }));
    assert_eq!(
        parse("\tlimit  9  up 1   down 4294967295  "),
        Ok(Command::Limit { index: 9, up_limit: Some(1), down_limit: Some(4294967295) })
    );
}

#[test]
fn reads_leading_zeros() {
    assert_eq!(parse("down 007"), Ok(Command::Down { index: 7 }));
}

#[test]
fn rejects_limit_clauses_in_wrong_order() {
    assert_eq!(parse("limit 1 down 200 up 100"), Err(()));
}

#[test]
fn rejects_misspelled_keyword() {
    assert_eq!(parse("upp 0"), Err(()));
}

#[test]
fn rejects_missing_index() {
    assert_eq!(parse("up"), Err(()));
}

#[test]
fn rejects_index_too_large() {
    assert_eq!(parse("up 256"), Err(()));
    assert_eq!(parse("stop 256"), Err(()));
}

#[test]
fn rejects_empty_line() {
    assert_eq!(parse(""), Err(()));
    assert_eq!(parse("   "), Err(()));
}

#[test]
fn rejects_limit_too_large() {
    assert_eq!(parse("limit 1 up 4294967296"), Err(()));
}

#[test]
fn rejects_trailing_words_and_signs() {
    assert_eq!(parse("help me"), Err(()));
    assert_eq!(parse("up 1 2"), Err(()));
    assert_eq!(parse("up +1"), Err(()));
    assert_eq!(parse("up 1x"), Err(()));
    assert_eq!(parse("STOP"), Err(()));
}
