//! The decisions of the interactive prompt: what a typed line means, what
//! an interrupt does, and the script that evaluates a line.
use vstd::prelude::*;
use crate::text::{append_chars, chars_of, same_chars, string_from};

verus! {

/// What a line typed at the prompt asks for.
#[derive(Debug, Clone, Copy, PartialEq, Eq, Structural)]
pub enum ReplCommand {
    Help,
    Version,
    Exit,
    Clear,
    Answer,
    /// A line that starts with `.` but names no command.
    Unknown,
    /// Script text to evaluate.
    Eval,
}

pub open spec fn command_of(input: Seq<char>) -> ReplCommand {
    if input == ".help"@ {
        ReplCommand::Help
    } else if input == ".version"@ {
        ReplCommand::Version
    } else if input == ".exit"@ {
        ReplCommand::Exit
    } else if input == ".clear"@ {
        ReplCommand::Clear
    } else if input == ".answer_to_the_ultimate_question_of_life_the_universe_and_everything"@ {
        ReplCommand::Answer
    } else if input.len() > 0 && input[0] == '.' {
        ReplCommand::Unknown
    } else {
        ReplCommand::Eval
    }
}

/// What a (trimmed) line typed at the prompt asks for.
pub fn handle_command(input: &str) -> (r: ReplCommand)
    ensures
        r == command_of(input@),
{
    let s = chars_of(input);
    if same_chars(s.as_slice(), chars_of(".help").as_slice()) {
        ReplCommand::Help
    } else if same_chars(s.as_slice(), chars_of(".version").as_slice()) {
        ReplCommand::Version
    } else if same_chars(s.as_slice(), chars_of(".exit").as_slice()) {
        ReplCommand::Exit
    } else if same_chars(s.as_slice(), chars_of(".clear").as_slice()) {
        ReplCommand::Clear
    } else if same_chars(
        s.as_slice(),
        chars_of(".answer_to_the_ultimate_question_of_life_the_universe_and_everything").as_slice(),
    ) {
        ReplCommand::Answer
    } else if s.len() > 0 && s[0] == '.' {
        ReplCommand::Unknown
    } else {
        ReplCommand::Eval
    }
}

/// The script that evaluates a typed line: `eval('line')`.
pub fn eval_script(input: &str) -> (r: String)
    ensures
        r@ == "eval('"@ + input@ + "')"@,
{
    let mut v = chars_of("eval('");
    append_chars(&mut v, chars_of(input).as_slice());
    append_chars(&mut v, chars_of("')").as_slice());
    string_from(v.as_slice())
}

/// What an interrupt (Ctrl+C) at the prompt does.
#[derive(Debug, Clone, Copy, PartialEq, Eq, Structural)]
pub enum InterruptAction {
    /// Say how to leave, and remember the interrupt.
    Warn,
    /// Leave: this is the second interrupt in a row.
    Exit,
}

/// The second interrupt in a row leaves; the first only warns.
pub fn on_interrupt(last_was_interrupt: bool) -> (r: InterruptAction)
    ensures
        r == (if last_was_interrupt {
            InterruptAction::Exit
        } else {
            InterruptAction::Warn
        }),
{
    if last_was_interrupt {
        InterruptAction::Exit
    } else {
        InterruptAction::Warn
    }
}

/// The pause in milliseconds after printing `c` of the slowly printed
/// answer: long after the end of a sentence (`.`, `!` or `?` not followed by
/// `.`), short otherwise.
pub fn pause_after(c: char, next: Option<char>) -> (r: u64)
    ensures
        r == (if (c == '.' || c == '!' || c == '?') && next != Some('.') {
            500u64
        } else {
            15u64
        }),
{
    let next_is_dot = match next {
        Some(n) => n == '.',
        None => false,
    };
    if (c == '.' || c == '!' || c == '?') && !next_is_dot {
        500
    } else {
        15
    }
}

/// A line read from the terminal without its line ending: one `\n`, then
/// one `\r`.
pub open spec fn without_line_ending(s: Seq<char>) -> Seq<char> {
    let a = if s.len() > 0 && s.last() == '\n' {
        s.drop_last()
    } else {
        s
    };
    if a.len() > 0 && a.last() == '\r' {
        a.drop_last()
    } else {
        a
    }
}

/// A line read from the terminal without its line ending.
pub fn strip_line_ending(line: &str) -> (r: String)
    ensures
        r@ == without_line_ending(line@),
{
    let mut s = chars_of(line);
    if s.len() > 0 && s[s.len() - 1] == '\n' {
        s.pop();
    }
    if s.len() > 0 && s[s.len() - 1] == '\r' {
        s.pop();
    }
    string_from(s.as_slice())
}

/// The arguments that a script sees: those after the program and the
/// script's path.
pub fn script_args(args: &Vec<String>) -> (r: Vec<String>)
    ensures
        r@ == (if args@.len() >= 2 {
            args@.skip(2)
        } else {
            Seq::empty()
        }),
{
    let mut r: Vec<String> = Vec::new();
    if args.len() < 2 {
        return r;
    }
    let mut i: usize = 2;
    assert(r@ =~= args@.subrange(2, 2));
    while i < args.len()
        invariant
            2 <= i <= args@.len(),
            r@ == args@.subrange(2, i as int),
        decreases args.len() - i,
    {
        r.push(args[i].clone());
        i = i + 1;
        assert(r@ =~= args@.subrange(2, i as int));
    }
    assert(r@ =~= args@.skip(2));
    r
}

} // verus!
