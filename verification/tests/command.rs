use wrap::command::Command;

#[test]
#[allow(non_snake_case)]
fn display__no_special_characters__not_escaped() {
    assert_eq!(
        Command {
            program: "echo".to_string(),
            arguments: vec!("argument1".to_string()),
        }
        .to_string(),
        "echo argument1",
    );
}

#[test]
#[allow(non_snake_case)]
fn display__space_in_string__escaped() {
    assert_eq!(
        Command {
            program: "echo".to_string(),
            arguments: vec!(r#"argument: "#.to_string()),
        }
        .to_string(),
        r#"echo 'argument: '"#,
    );
}

#[test]
#[allow(non_snake_case)]
fn display__double_quote_in_string__escaped() {
    assert_eq!(
        Command {
            program: "echo".to_string(),
            arguments: vec!(r#"argument:""#.to_string()),
        }
        .to_string(),
        r#"echo 'argument:"'"#,
    );
}

#[test]
#[allow(non_snake_case)]
fn display__single_quote_in_string__escaped() {
    assert_eq!(
        Command {
            program: "echo".to_string(),
            arguments: vec!(r#"argument:'"#.to_string()),
        }
        .to_string(),
        r#"echo 'argument:'\'''"#,
    );
}

#[test]
fn display_quotes_program_and_bang() {
    let command = Command {
        program: "my prog".to_string(),
        arguments: vec!["hi!".to_string(), "".to_string(), "a-b_c=d/e,f.g+h".to_string()],
    };
    assert_eq!(command.to_string(), r#"'my prog' 'hi'\!'' '' a-b_c=d/e,f.g+h"#);
}

#[test]
fn display_without_arguments_is_the_program() {
    let command = Command { program: "kubectl".to_string(), arguments: vec![] };
    assert_eq!(command.to_string(), "kubectl");
}
