use cacutils::shell::{format_prompt, parse_command_line, prompt, Command, Execution, Handler, Shell};

fn strings(v: &[&str]) -> Vec<String> {
    v.iter().map(|s| s.to_string()).collect()
}

fn command(name: &str, handler: Handler) -> Command {
    Command { name: name.to_string(), handler }
}

#[test]
fn registered_command_is_found() {
    let mut shell = Shell::new();
    assert_eq!(shell.lookup("hello"), None);
    shell.register(command("hello", Handler::Hello));
    shell.register(command("cat", Handler::Cat));
    assert_eq!(shell.lookup("hello"), Some(Handler::Hello));
    assert_eq!(shell.lookup("cat"), Some(Handler::Cat));
    assert_eq!(shell.lookup("ls"), None);
}

#[test]
fn registering_a_name_again_replaces_it() {
    let mut shell = Shell::new();
    shell.register(command("x", Handler::Ls));
    shell.register(command("y", Handler::Cd));
    shell.register(command("x", Handler::Sleep));
    assert_eq!(shell.lookup("x"), Some(Handler::Sleep));
    assert_eq!(shell.lookup("y"), Some(Handler::Cd));
    assert_eq!(shell.commands.len(), 2);
}

#[test]
fn execute_runs_the_handler_or_reports_not_found() {
    let mut shell = Shell::new();
    shell.register(command("cp", Handler::Cp));
    shell.register(command("help", Handler::Help));
    match shell.execute("cp", strings(&["a", "b"])) {
        Execution::Run { handler, arguments } => {
            assert_eq!(handler, Handler::Cp);
            assert_eq!(arguments, strings(&["a", "b"]));
        }
        Execution::NotFound { .. } => panic!("cp is registered"),
    }
    match shell.execute("rmdir", strings(&["a"])) {
        Execution::NotFound { name } => assert_eq!(name, "rmdir"),
        Execution::Run { .. } => panic!("rmdir is not registered"),
    }
}

#[test]
fn command_lines_split_at_whitespace() {
    let (name, args) = parse_command_line("  ls   -l\t/tmp \n").expect("a command");
    assert_eq!(name, "ls");
    assert_eq!(args, strings(&["-l", "/tmp"]));
    let (name, args) = parse_command_line("hello").expect("a command");
    assert_eq!(name, "hello");
    assert!(args.is_empty());
    assert!(parse_command_line("").is_none());
    assert!(parse_command_line(" \t \n").is_none());
}

#[test]
fn prompt_text() {
    assert_eq!(
        format_prompt("bob", "Linux", "/home/bob"),
        "\u{1b}[32mbob\u{1b}[0m@Linux: \u{1b}[34m/home/bob\u{1b}[0m $ "
    );
}

#[test]
fn prompt_for_a_directory() {
    if let Some(p) = prompt("/srv/data") {
        assert!(p.starts_with("\u{1b}[32m"));
        assert!(p.ends_with(": \u{1b}[34m/srv/data\u{1b}[0m $ "));
        assert!(p.contains("\u{1b}[0m@"));
    }
}

#[test]
fn a_new_shell_has_no_commands() {
    let shell = Shell::new();
    assert!(shell.commands.is_empty());
    assert!(matches!(shell.execute("ls", Vec::new()), Execution::NotFound { .. }));
}

#[test]
fn registering_a_name_again_keeps_the_table_size() {
    let mut shell = Shell::new();
    shell.register(Command { name: "ls".to_string(), handler: Handler::Ls });
    shell.register(Command { name: "cat".to_string(), handler: Handler::Cat });
    assert_eq!(shell.commands.len(), 2);
    shell.register(Command { name: "ls".to_string(), handler: Handler::Hello });
    assert_eq!(shell.commands.len(), 2);
    assert!(matches!(
        shell.execute("ls", Vec::new()),
        Execution::Run { handler: Handler::Hello, .. }
    ));
}
