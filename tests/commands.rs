use tsk::command::{CommandParseError, HomeCommand, TaskIdentifier};
use tsk::parse::{parse_command, parse_home_command};

#[test]
fn test_parse_push() {
    let input = "push this is a test";
    let command = parse_home_command(input);
    assert!(command.is_some());
}

#[test]
fn push_keeps_the_rest_of_the_line() {
    match parse_command("push buy milk") {
        Ok(HomeCommand::Push(t)) => assert_eq!(t, "buy milk"),
        other => panic!("unexpected {:?}", other),
    }
    match parse_command("p buy milk ") {
        Ok(HomeCommand::Push(t)) => assert_eq!(t, "buy milk "),
        other => panic!("unexpected {:?}", other),
    }
}

#[test]
fn push_lowers_the_line() {
    match parse_command("PUSH Buy Milk") {
        Ok(HomeCommand::Push(t)) => assert_eq!(t, "buy milk"),
        other => panic!("unexpected {:?}", other),
    }
}

#[test]
fn push_needs_a_title() {
    assert!(matches!(parse_command("push"), Err(CommandParseError::InvalidArgument(_))));
    assert!(matches!(parse_command("push   "), Err(CommandParseError::InvalidArgument(_))));
    assert!(matches!(parse_command("push #x"), Err(CommandParseError::InvalidArgument(_))));
}

#[test]
fn unknown_keyword() {
    match parse_command("zzz") {
        Err(CommandParseError::UnknownCommand(s)) => assert_eq!(s, "zzz"),
        other => panic!("unexpected {:?}", other),
    }
    assert!(matches!(parse_command("pushx"), Err(CommandParseError::UnknownCommand(_))));
    assert!(matches!(parse_command(" push x"), Err(CommandParseError::UnknownCommand(_))));
    assert!(matches!(parse_command(""), Err(CommandParseError::UnknownCommand(_))));
}

#[test]
fn edit_without_digits_is_invalid() {
    match parse_command("edit tsk-") {
        Err(CommandParseError::InvalidArgument(s)) => assert_eq!(s, "tsk-"),
        other => panic!("unexpected {:?}", other),
    }
}

#[test]
fn trailing_text_after_quit_fails() {
    assert!(matches!(parse_command("quit now"), Err(CommandParseError::InvalidArgument(_))));
    assert!(parse_home_command("quit now").is_none());
    assert!(matches!(parse_command("quit"), Ok(HomeCommand::Quit)));
    assert!(matches!(parse_command("quit  "), Ok(HomeCommand::Quit)));
}

#[test]
fn shorthand_and_full_word_agree() {
    let pairs = [
        ("e", "edit"),
        ("d", "drop"),
        ("c", "complete"),
        ("s", "start"),
        ("t", "todo"),
        ("-", "-rot"),
    ];
    for (short, full) in pairs {
        let a = format!("{:?}", parse_command(short));
        let b = format!("{:?}", parse_command(full));
        assert_eq!(a, b);
        let a = format!("{:?}", parse_command(&short.to_uppercase()));
        let b = format!("{:?}", parse_command(&full.to_uppercase()));
        assert_eq!(a, b);
    }
    assert_eq!(
        format!("{:?}", parse_command("m groceries")),
        format!("{:?}", parse_command("MAKE groceries"))
    );
    assert_eq!(
        format!("{:?}", parse_command("p x")),
        format!("{:?}", parse_command("Push x"))
    );
    assert_eq!(
        format!("{:?}", parse_command("e 3")),
        format!("{:?}", parse_command("EDIT 3"))
    );
}

#[test]
fn every_command_parses() {
    assert!(matches!(parse_command("swap"), Ok(HomeCommand::Swap)));
    assert!(matches!(parse_command("start"), Ok(HomeCommand::Start)));
    assert!(matches!(parse_command("s"), Ok(HomeCommand::Start)));
    assert!(matches!(parse_command("todo"), Ok(HomeCommand::Todo)));
    assert!(matches!(parse_command("rot"), Ok(HomeCommand::Rot)));
    assert!(matches!(parse_command("-rot"), Ok(HomeCommand::NRot)));
    assert!(matches!(parse_command("-"), Ok(HomeCommand::NRot)));
    assert!(matches!(parse_command("complete"), Ok(HomeCommand::Complete(None))));
    assert!(matches!(parse_command("drop"), Ok(HomeCommand::Drop(None))));
    assert!(matches!(parse_command("edit"), Ok(HomeCommand::Edit(None))));
}

#[test]
fn identifiers() {
    assert!(matches!(
        parse_command("edit 3"),
        Ok(HomeCommand::Edit(Some(TaskIdentifier::Stack(3))))
    ));
    assert!(matches!(
        parse_command("d tsk-42"),
        Ok(HomeCommand::Drop(Some(TaskIdentifier::Task(42))))
    ));
    assert!(matches!(
        parse_command("c 255"),
        Ok(HomeCommand::Complete(Some(TaskIdentifier::Stack(255))))
    ));
    assert!(matches!(parse_command("c 256"), Err(CommandParseError::InvalidArgument(_))));
    assert!(matches!(
        parse_command("c tsk-18446744073709551615"),
        Ok(HomeCommand::Complete(Some(TaskIdentifier::Task(18446744073709551615))))
    ));
    assert!(matches!(
        parse_command("c tsk-18446744073709551616"),
        Err(CommandParseError::InvalidArgument(_))
    ));
    assert!(matches!(parse_command("edit 3 x"), Err(CommandParseError::InvalidArgument(_))));
    assert!(matches!(parse_command("edit x"), Err(CommandParseError::InvalidArgument(_))));
}

#[test]
fn reprioritize_takes_an_absolute_id() {
    assert!(matches!(
        parse_command("rep tsk-7"),
        Ok(HomeCommand::Reprioritize(TaskIdentifier::Task(7)))
    ));
    assert!(matches!(parse_command("rep 7"), Err(CommandParseError::InvalidArgument(_))));
    assert!(matches!(parse_command("rep"), Err(CommandParseError::InvalidArgument(_))));
    // `p` is Push's letter first.
    assert!(matches!(parse_command("p tsk-7"), Ok(HomeCommand::Push(_))));
}

#[test]
fn make_takes_one_name() {
    match parse_command("make errands") {
        Ok(HomeCommand::Make(n)) => assert_eq!(n, "errands"),
        other => panic!("unexpected {:?}", other),
    }
    assert!(matches!(parse_command("make two words"), Err(CommandParseError::InvalidArgument(_))));
    assert!(matches!(parse_command("make"), Err(CommandParseError::InvalidArgument(_))));
}

#[test]
fn tabs_count_as_white_space() {
    assert!(matches!(parse_command("swap\t"), Ok(HomeCommand::Swap)));
    assert!(matches!(
        parse_command("edit\t5"),
        Ok(HomeCommand::Edit(Some(TaskIdentifier::Stack(5))))
    ));
}
