use paxos::shell::{Command, ParseCommandError};

fn parse(s: &str) -> Result<Command, ParseCommandError> {
    Command::parse(&s.as_bytes().to_vec())
}

#[test]
fn parses_start() {
    assert_eq!(parse("start 3"), Ok(Command::Start(3)));
    assert_eq!(parse("s 20"), Ok(Command::Start(20)));
    assert_eq!(parse("START 5"), Ok(Command::Start(5)));
}

#[test]
fn parses_propose() {
    assert_eq!(parse("propose 1 7"), Ok(Command::Propose(1, 7)));
    assert_eq!(parse("p 2 9"), Ok(Command::Propose(2, 9)));
    assert_eq!(parse("PrOpOsE 3 11"), Ok(Command::Propose(3, 11)));
}

#[test]
fn parses_query_and_exit() {
    assert_eq!(parse("query 2"), Ok(Command::Query(2)));
    assert_eq!(parse("q 0"), Ok(Command::Query(0)));
    assert_eq!(parse("x"), Ok(Command::Exit));
    assert_eq!(parse("exit"), Ok(Command::Exit));
    assert_eq!(parse("EXIT"), Ok(Command::Exit));
}

#[test]
fn tolerates_extra_whitespace() {
    assert_eq!(parse("  p \t 1   7  \n"), Ok(Command::Propose(1, 7)));
    assert_eq!(parse("\tstart  4"), Ok(Command::Start(4)));
}

#[test]
fn rejects_unknown_commands() {
    assert_eq!(parse(""), Err(ParseCommandError));
    assert_eq!(parse("   "), Err(ParseCommandError));
    assert_eq!(parse("foo"), Err(ParseCommandError));
    assert_eq!(parse("p1 7"), Err(ParseCommandError));
    assert_eq!(parse("starting 3"), Err(ParseCommandError));
}

#[test]
fn rejects_wrong_arity() {
    assert_eq!(parse("p 1"), Err(ParseCommandError));
    assert_eq!(parse("p 1 2 3"), Err(ParseCommandError));
    assert_eq!(parse("start"), Err(ParseCommandError));
    assert_eq!(parse("q"), Err(ParseCommandError));
    assert_eq!(parse("x 1"), Err(ParseCommandError));
}

#[test]
fn rejects_bad_numbers() {
    assert_eq!(parse("p one 7"), Err(ParseCommandError));
    assert_eq!(parse("p 1 seven"), Err(ParseCommandError));
    assert_eq!(parse("q -1"), Err(ParseCommandError));
    assert_eq!(parse("start 12x"), Err(ParseCommandError));
}

#[test]
fn rejects_overflowing_numbers() {
    // One past the largest u64 and u32.
    assert_eq!(parse("q 18446744073709551616"), Err(ParseCommandError));
    assert_eq!(parse("p 1 4294967296"), Err(ParseCommandError));
    // The largest values themselves are fine.
    assert_eq!(parse("q 18446744073709551615"), Ok(Command::Query(u64::MAX)));
    assert_eq!(parse("p 1 4294967295"), Ok(Command::Propose(1, u32::MAX)));
}
