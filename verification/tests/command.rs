use language::command::{parse, Citizen, Command, ParseError};

#[test]
fn citizen() {
    // the list of citizens we can parse
    let table = vec![
        ("identifier", "hello", Citizen::Identifier("hello".to_string())),
        ("string", "quote hello world quote", Citizen::Str("hello world".to_string())),
    ];

    for (title, input, expected) in table {
        // make sure we can parse the string value
        match language::command::citizen(input, 0) {
            None => assert!(false, "{}", title),
            Some((res, consumed_to)) => {
                // nothing may be left over
                assert_eq!(consumed_to, input.chars().count());
                assert_eq!(expected, res);
            }
        }
    }
}

#[test]
fn action_alone() {
    let cmd = parse("hello".to_string()).unwrap();
    assert_eq!(cmd.action, "hello");
    assert!(cmd.arguments.is_empty());
}

#[test]
fn action_alone_unicode() {
    // a non-ASCII letter is a word character too
    let cmd = parse("h\u{e9}llo".to_string()).unwrap();
    assert_eq!(cmd.action, "h\u{e9}llo");
    assert!(cmd.arguments.is_empty());
}

#[test]
fn empty_input() {
    assert_eq!(parse("".to_string()).unwrap_err(), ParseError::EmptyInput);
}

#[test]
fn one_identifier_argument() {
    let cmd = parse("hello world".to_string()).unwrap();
    assert_eq!(cmd.action, "hello");
    assert_eq!(cmd.arguments, vec![Citizen::Identifier("world".to_string())]);
}

#[test]
fn one_string_argument() {
    let cmd = parse("hello quote a b quote".to_string()).unwrap();
    assert_eq!(cmd.action, "hello");
    assert_eq!(cmd.arguments, vec![Citizen::Str("a b".to_string())]);
}

#[test]
fn three_arguments() {
    let cmd = parse("hello a & b & quote c d quote".to_string()).unwrap();
    assert_eq!(cmd.action, "hello");
    assert_eq!(
        cmd.arguments,
        vec![
            Citizen::Identifier("a".to_string()),
            Citizen::Identifier("b".to_string()),
            Citizen::Str("c d".to_string()),
        ]
    );
}

#[test]
fn unterminated_string() {
    assert_eq!(
        parse("hello quote unterminated".to_string()).unwrap_err(),
        ParseError::GrammarMismatch
    );
}

#[test]
fn trailing_separator_rejected() {
    assert_eq!(parse("hello a &".to_string()).unwrap_err(), ParseError::GrammarMismatch);
}

#[test]
fn leading_separator_rejected() {
    assert_eq!(parse("&foo".to_string()).unwrap_err(), ParseError::GrammarMismatch);
}

#[test]
fn greedy_identifier() {
    // without a separator, following words join the first argument
    let cmd = parse("run a b".to_string()).unwrap();
    assert_eq!(cmd.arguments, vec![Citizen::Identifier("a b".to_string())]);
}

#[test]
fn quote_word_without_space_is_identifier() {
    let cmd = parse("hello quotes".to_string()).unwrap();
    assert_eq!(cmd.arguments, vec![Citizen::Identifier("quotes".to_string())]);
    let cmd = parse("hello quote".to_string()).unwrap();
    assert_eq!(cmd.arguments, vec![Citizen::Identifier("quote".to_string())]);
}

#[test]
fn render_citizen() {
    assert_eq!(Citizen::Identifier("a b".to_string()).render(), "a b");
    assert_eq!(Citizen::Str("a b".to_string()).render(), "quote a b quote");
}

#[test]
fn render_command() {
    let cmd = parse("hello a & b & quote c d quote".to_string()).unwrap();
    assert_eq!(cmd.render(), "hello a&b&quote c d quote");
}

#[test]
fn round_trip() {
    // re-parsing the rendering of a parsed command reproduces it
    for input in [
        "hello",
        "hello world",
        "hello quote a b quote",
        "hello a & b & quote c d quote",
        "run a  b & quote a&b quote",
    ] {
        let cmd = parse(input.to_string()).unwrap();
        let again = parse(cmd.render()).unwrap();
        assert_eq!(cmd.action, again.action);
        assert_eq!(cmd.arguments, again.arguments);
    }
}

#[test]
fn round_trip_built_command() {
    let cmd = Command {
        action: "go".to_string(),
        arguments: vec![
            Citizen::Str("x  y".to_string()),
            Citizen::Identifier("quote".to_string()),
        ],
    };
    let again = parse(cmd.render()).unwrap();
    assert_eq!(again.action, "go");
    assert_eq!(again.arguments, cmd.arguments);
}

#[test]
fn multiple_spaces_before_argument() {
    let cmd = parse("hello  world".to_string()).unwrap();
    assert_eq!(cmd.arguments, vec![Citizen::Identifier("world".to_string())]);
}
