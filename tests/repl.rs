use lunos::repl::{
    eval_script, handle_command, on_interrupt, pause_after, script_args, strip_line_ending,
    InterruptAction, ReplCommand,
};

#[test]
fn prompt_commands() {
    assert_eq!(handle_command(".help"), ReplCommand::Help);
    assert_eq!(handle_command(".version"), ReplCommand::Version);
    assert_eq!(handle_command(".exit"), ReplCommand::Exit);
    assert_eq!(handle_command(".clear"), ReplCommand::Clear);
    assert_eq!(
        handle_command(".answer_to_the_ultimate_question_of_life_the_universe_and_everything"),
        ReplCommand::Answer
    );
    assert_eq!(handle_command(".nope"), ReplCommand::Unknown);
    assert_eq!(handle_command("1 + 1"), ReplCommand::Eval);
    assert_eq!(handle_command(""), ReplCommand::Eval);
}

#[test]
fn eval_wrapping() {
    assert_eq!(eval_script("1+1"), "eval('1+1')");
}

#[test]
fn interrupts() {
    assert_eq!(on_interrupt(false), InterruptAction::Warn);
    assert_eq!(on_interrupt(true), InterruptAction::Exit);
}

#[test]
fn pauses() {
    assert_eq!(pause_after('.', None), 500);
    assert_eq!(pause_after('!', Some(' ')), 500);
    assert_eq!(pause_after('.', Some('.')), 15);
    assert_eq!(pause_after('a', None), 15);
}

#[test]
fn line_endings() {
    assert_eq!(strip_line_ending("abc\r\n"), "abc");
    assert_eq!(strip_line_ending("abc\n\n"), "abc\n");
    assert_eq!(strip_line_ending("abc"), "abc");
    assert_eq!(strip_line_ending(""), "");
}

#[test]
fn arguments_after_the_script() {
    let args: Vec<String> = vec!["lunos", "a.js", "x", "y"].into_iter().map(String::from).collect();
    assert_eq!(script_args(&args), vec!["x", "y"]);
    assert_eq!(script_args(&vec!["lunos".to_string()]), Vec::<String>::new());
}
