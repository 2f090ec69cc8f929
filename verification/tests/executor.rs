use language::command::{parse, Citizen};
use language::executor::{execute, Scope};

#[test]
fn error_cases() {
    // the runtime error cases
    let cases = vec![("Undefined action", "print", Scope::new())];

    for (title, command_text, scope) in cases {
        // parse the text
        let command = parse(command_text.to_string()).unwrap();

        // execute the command
        match execute("", scope, command) {
            Ok(_) => assert!(false, "{}", title),
            // there was an error so the test passed
            Err(_) => (),
        }
    }
}

#[test]
fn defined_action_keeps_state() {
    let mut scope = Scope::new();
    scope.bind("print".to_string(), Citizen::Identifier("out".to_string()));

    let command = parse("print hello".to_string()).unwrap();
    assert_eq!(execute(41, scope, command), Ok(41));
}

#[test]
fn error_message() {
    let command = parse("print".to_string()).unwrap();
    assert_eq!(execute(0, Scope::new(), command), Err("Action not defined"));
}
