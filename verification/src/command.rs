//! Shell escaping and the rules for running commands.
//!
//! Paths that go into a command are escaped so that the shell reads each as one
//! word with exactly that text, whatever characters it holds.  A running
//! command is polled, and killed once it has run longer than it may.

use crate::text::{
    law_replacing_goes_char_by_char, lemma_nothing_to_replace, lemma_replace_char_concat,
    replace_all, replace_all_in, replace_char, replace_char_in,
};
use vstd::prelude::*;
use vstd::string::*;

verus! {

/// The text in single quotes, each single quote in it written as `'\''`.
pub open spec fn quoted(s: Seq<char>) -> Seq<char> {
    seq!['\''] + replace_char(s, '\'', "'\\''"@) + seq!['\'']
}

/// The text in double quotes, each double quote and percent sign in it doubled.
pub open spec fn quoted_for_cmd(s: Seq<char>) -> Seq<char> {
    seq!['"'] + replace_char(replace_char(s, '"', "\"\""@), '%', "%%"@) + seq!['"']
}

/// The place in a command template that stands for the changed path.
pub open spec fn path_placeholder() -> Seq<char> {
    "{path}"@
}

/// The shell that a command is handed to.
#[derive(Debug, Clone, Copy, PartialEq, Eq, Structural)]
pub enum Shell {
    /// `sh -c`.
    Sh,
    /// `cmd /C`.
    Cmd,
}

/// The text as one word of a command for the given shell.
pub open spec fn escaped(shell: Shell, s: Seq<char>) -> Seq<char> {
    match shell {
        Shell::Sh => quoted(s),
        Shell::Cmd => quoted_for_cmd(s),
    }
}

/// A command template with the escaped path filled in.
pub open spec fn filled_in(shell: Shell, template: Seq<char>, path: Seq<char>) -> Seq<char> {
    replace_all(template, path_placeholder(), escaped(shell, path))
}

/// Escapes a string so that it can be embedded in a command passed to `sh -c`.
///
/// The value is wrapped in single quotes with any internal single quotes
/// replaced by the sequence `'\''` (end quote, escaped quote, start quote).
pub fn shell_escape(s: &str) -> (r: String)
    ensures
        r@ == quoted(s@),
{
    let mut r: String = String::new();
    r.push('\'');
    let body = replace_char_in(s, '\'', "'\\''");
    r.append(body.as_str());
    r.push('\'');
    assert(r@ =~= quoted(s@));
    r
}

/// Escapes a string so that it can be embedded in a command passed to `cmd /C`.
///
/// The value is wrapped in double quotes with internal double quotes doubled,
/// and `%` is written `%%` to prevent environment-variable expansion.
pub fn shell_escape_for_cmd(s: &str) -> (r: String)
    ensures
        r@ == quoted_for_cmd(s@),
{
    let mut r: String = String::new();
    r.push('"');
    let doubled = replace_char_in(s, '"', "\"\"");
    let body = replace_char_in(doubled.as_str(), '%', "%%");
    r.append(body.as_str());
    r.push('"');
    assert(r@ =~= quoted_for_cmd(s@));
    r
}

/// Escapes a string for the given shell.
pub fn escape_for(shell: Shell, s: &str) -> (r: String)
    ensures
        r@ == escaped(shell, s@),
{
    match shell {
        Shell::Sh => shell_escape(s),
        Shell::Cmd => shell_escape_for_cmd(s),
    }
}

/// Fills the escaped path into a command template, at each `{path}`.
pub fn fill_in(shell: Shell, template: &str, path: &str) -> (r: String)
    ensures
        r@ == filled_in(shell, template@, path@),
{
    let word = escape_for(shell, path);
    proof {
        reveal_strlit("{path}");
    }
    replace_all_in(template, "{path}", word.as_str())
}

/// How long to wait between two looks at a running command, in milliseconds.
pub const POLL_INTERVAL_MS: u64 = 50;

/// The exit code reported for a command that has none.
pub const NO_EXIT_CODE: i32 = -1;

/// What a look at a spawned command shows.
#[derive(Debug, Clone, Copy, PartialEq, Eq, Structural)]
pub enum ChildState {
    /// It has finished.
    Exited { success: bool, code: Option<i32> },
    /// It is running, and has been for the given time (nanoseconds).
    Running { elapsed: u128 },
    /// Its state could not be determined.
    Unknown,
}

/// What to do about a spawned command.
#[derive(Debug, Clone, Copy, PartialEq, Eq, Structural)]
pub enum CommandStep {
    /// It is done.
    Succeeded,
    /// It is done, with a failure to report.
    Failed { code: i32 },
    /// Kill it and collect it: it has run longer than it may.
    Kill,
    /// Look again after [`POLL_INTERVAL_MS`].
    PollAgain,
    /// Report that it cannot be watched, and leave it.
    GiveUp,
}

/// What to do about a command in a given state that may run for `timeout`
/// nanoseconds, or for as long as it takes.
pub open spec fn step_for(state: ChildState, timeout: Option<u128>) -> CommandStep {
    match state {
        ChildState::Exited { success, code } => if success {
            CommandStep::Succeeded
        } else {
            CommandStep::Failed {
                code: match code {
                    Some(c) => c,
                    None => NO_EXIT_CODE,
                },
            }
        },
        ChildState::Running { elapsed } => if timeout is Some && elapsed > timeout->0 {
            CommandStep::Kill
        } else {
            CommandStep::PollAgain
        },
        ChildState::Unknown => CommandStep::GiveUp,
    }
}

/// Decides what to do about a spawned command.
pub fn next_step(state: ChildState, timeout: Option<u128>) -> (step: CommandStep)
    ensures
        step == step_for(state, timeout),
{
    match state {
        ChildState::Exited { success, code } => {
            if success {
                CommandStep::Succeeded
            } else {
                match code {
                    Some(c) => CommandStep::Failed { code: c },
                    None => CommandStep::Failed { code: NO_EXIT_CODE },
                }
            }
        },
        ChildState::Running { elapsed } => {
            match timeout {
                Some(limit) => {
                    if elapsed > limit {
                        CommandStep::Kill
                    } else {
                        CommandStep::PollAgain
                    }
                },
                None => CommandStep::PollAgain,
            }
        },
        ChildState::Unknown => CommandStep::GiveUp,
    }
}

/// A command is killed exactly if it is still running after its time: without a
/// timeout, within it or once it has finished, a command is never killed.
pub proof fn law_only_overdue_commands_are_killed(state: ChildState, timeout: Option<u128>)
    ensures
        step_for(state, timeout) is Kill <==> state is Running && timeout is Some
            && state->elapsed > timeout->0,
{
}

/// The characters that mean nothing to the shell outside of quotes.
pub open spec fn is_plain(c: char) -> bool {
    ||| 'a' <= c <= 'z'
    ||| 'A' <= c <= 'Z'
    ||| '0' <= c <= '9'
    ||| c == '/'
    ||| c == '.'
    ||| c == '_'
    ||| c == '-'
}

/// What `sh` reads a text as, if it reads it as one word without expanding
/// anything: text in single quotes stands for itself, outside of quotes a
/// backslash takes the next character literally.
pub open spec fn sh_word(s: Seq<char>, in_quotes: bool) -> Option<Seq<char>>
    decreases s.len(),
{
    if s.len() == 0 {
        if in_quotes {
            None
        } else {
            Some(Seq::empty())
        }
    } else if in_quotes {
        if s[0] == '\'' {
            sh_word(s.skip(1), false)
        } else {
            prepend(s[0], sh_word(s.skip(1), true))
        }
    } else if s[0] == '\'' {
        sh_word(s.skip(1), true)
    } else if s[0] == '\\' {
        if s.len() >= 2 && s[1] != '\n' {
            prepend(s[1], sh_word(s.skip(2), false))
        } else {
            None
        }
    } else if is_plain(s[0]) {
        prepend(s[0], sh_word(s.skip(1), false))
    } else {
        None
    }
}

/// A character put before a text, if there is one.
pub open spec fn prepend(c: char, rest: Option<Seq<char>>) -> Option<Seq<char>> {
    match rest {
        Some(r) => Some(seq![c] + r),
        None => None,
    }
}

/// Replacing characters one by one from the front.
proof fn lemma_replace_char_front(s: Seq<char>, from: char, with: Seq<char>)
    requires
        s.len() > 0,
    ensures
        replace_char(s, from, with) == (if s[0] == from {
            with
        } else {
            seq![s[0]]
        }) + replace_char(s.skip(1), from, with),
    decreases s.len(),
{
    let head = if s[0] == from {
        with
    } else {
        seq![s[0]]
    };
    if s.len() == 1 {
        assert(s.drop_last() =~= Seq::<char>::empty());
        assert(s.skip(1) =~= Seq::<char>::empty());
        assert(replace_char(s, from, with) =~= head + replace_char(s.skip(1), from, with));
    } else {
        lemma_replace_char_front(s.drop_last(), from, with);
        assert(s.drop_last().skip(1) =~= s.skip(1).drop_last());
        assert(replace_char(s, from, with) =~= head + replace_char(s.skip(1), from, with));
    }
}

/// Inside of quotes, the escaped text and the closing quote are read as the text.
proof fn lemma_quoted_body(s: Seq<char>)
    ensures
        sh_word(replace_char(s, '\'', "'\\''"@) + seq!['\''], true) == Some(s),
    decreases s.len(),
{
    let body = replace_char(s, '\'', "'\\''"@) + seq!['\''];
    reveal_strlit("'\\''");
    if s.len() == 0 {
        assert(body =~= seq!['\'']);
        assert(body.skip(1) =~= Seq::<char>::empty());
        assert(s =~= Seq::<char>::empty());
    } else {
        let rest = replace_char(s.skip(1), '\'', "'\\''"@) + seq!['\''];
        lemma_replace_char_front(s, '\'', "'\\''"@);
        lemma_quoted_body(s.skip(1));
        assert(s =~= seq![s[0]] + s.skip(1));
        if s[0] == '\'' {
            assert(body =~= seq!['\'', '\\', '\'', '\''] + rest);
            assert(body.skip(1) =~= seq!['\\', '\'', '\''] + rest);
            assert(body.skip(1).skip(2) =~= seq!['\''] + rest);
            assert(body.skip(1).skip(2).skip(1) =~= rest);
            assert(sh_word(body.skip(1).skip(2), false) == sh_word(rest, true));
            assert(sh_word(body.skip(1), false) == prepend('\'', sh_word(rest, true)));
        } else {
            assert(body =~= seq![s[0]] + rest);
            assert(body.skip(1) =~= rest);
        }
    }
}

/// The shell reads an escaped string as one word with exactly the original
/// text: nothing in it is interpreted.
pub proof fn law_shell_reads_escaped_text_literally(s: Seq<char>)
    ensures
        sh_word(quoted(s), false) == Some(s),
{
    lemma_quoted_body(s);
    let body = replace_char(s, '\'', "'\\''"@) + seq!['\''];
    assert(quoted(s) =~= seq!['\''] + body);
    assert(quoted(s).skip(1) =~= body);
}

/// Two strings are escaped alike only if they are the same.
pub proof fn law_shell_escape_is_injective(a: Seq<char>, b: Seq<char>)
    requires
        quoted(a) == quoted(b),
    ensures
        a == b,
{
    law_shell_reads_escaped_text_literally(a);
    law_shell_reads_escaped_text_literally(b);
}

/// What `cmd` reads the inside of a double-quoted text as, if nothing in it ends
/// the quotes or is expanded: quotes and percent signs come in pairs, each pair
/// standing for one.
pub open spec fn cmd_word(s: Seq<char>) -> Option<Seq<char>>
    decreases s.len(),
{
    if s.len() == 0 {
        Some(Seq::empty())
    } else if s[0] == '"' || s[0] == '%' {
        if s.len() >= 2 && s[1] == s[0] {
            prepend(s[0], cmd_word(s.skip(2)))
        } else {
            None
        }
    } else {
        prepend(s[0], cmd_word(s.skip(1)))
    }
}

/// Inside of its quotes, a string escaped for `cmd` is read as the original
/// text: no quote in it ends the quotes and no percent sign starts a variable.
pub proof fn law_cmd_reads_escaped_text_literally(s: Seq<char>)
    ensures
        quoted_for_cmd(s).len() >= 2,
        cmd_word(quoted_for_cmd(s).subrange(1, quoted_for_cmd(s).len() - 1)) == Some(s),
{
    let body = replace_char(replace_char(s, '"', "\"\""@), '%', "%%"@);
    lemma_cmd_body(s);
    assert(quoted_for_cmd(s).subrange(1, quoted_for_cmd(s).len() - 1) =~= body);
}

proof fn lemma_cmd_body(s: Seq<char>)
    ensures
        cmd_word(replace_char(replace_char(s, '"', "\"\""@), '%', "%%"@)) == Some(s),
    decreases s.len(),
{
    reveal_strlit("\"\"");
    reveal_strlit("%%");
    let inner = replace_char(s, '"', "\"\""@);
    let body = replace_char(inner, '%', "%%"@);
    if s.len() == 0 {
        assert(s =~= Seq::<char>::empty());
    } else {
        let rest = replace_char(s.skip(1), '"', "\"\""@);
        let tail = replace_char(rest, '%', "%%"@);
        lemma_cmd_body(s.skip(1));
        lemma_replace_char_front(s, '"', "\"\""@);
        lemma_replace_char_front(inner, '%', "%%"@);
        assert(s =~= seq![s[0]] + s.skip(1));
        if s[0] == '"' {
            let once = seq!['"'] + rest;
            assert(inner.skip(1) =~= once);
            lemma_replace_char_front(once, '%', "%%"@);
            assert(once.skip(1) =~= rest);
            assert(body =~= seq!['"', '"'] + tail);
            assert(body.skip(2) =~= tail);
        } else {
            assert(inner.skip(1) =~= rest);
            if s[0] == '%' {
                assert(body =~= seq!['%', '%'] + tail);
                assert(body.skip(2) =~= tail);
            } else {
                assert(body =~= seq![s[0]] + tail);
                assert(body.skip(1) =~= tail);
            }
        }
    }
}

/// Whether the placeholder stands in a template at the position `i`.
pub open spec fn placeholder_at(template: Seq<char>, i: int) -> bool {
    0 <= i && i + path_placeholder().len() <= template.len() && template.subrange(
        i,
        i + path_placeholder().len(),
    ) == path_placeholder()
}

/// Whether the placeholder stands anywhere in a template.
pub open spec fn has_placeholder(template: Seq<char>) -> bool {
    exists|i: int| placeholder_at(template, i)
}

/// A template without the placeholder is free of it after its first character too,
/// and does not start with it.
proof fn lemma_no_placeholder(template: Seq<char>)
    requires
        template.len() > 0,
        !has_placeholder(template),
    ensures
        !has_placeholder(template.skip(1)),
        template.len() >= path_placeholder().len() ==> template.take(
            path_placeholder().len() as int,
        ) != path_placeholder(),
{
    let n = path_placeholder().len() as int;
    let rest = template.skip(1);
    if has_placeholder(rest) {
        let i = choose|i: int| placeholder_at(rest, i);
        assert(rest.subrange(i, i + n) =~= template.subrange(i + 1, i + 1 + n));
        assert(placeholder_at(template, i + 1));
    }
    if template.len() >= n && template.take(n) == path_placeholder() {
        assert(template.subrange(0, n) =~= template.take(n));
        assert(placeholder_at(template, 0));
    }
}

/// A template without the placeholder stays as it is.
pub proof fn law_template_without_placeholder(
    shell: Shell,
    template: Seq<char>,
    path: Seq<char>,
)
    requires
        !has_placeholder(template),
    ensures
        filled_in(shell, template, path) == template,
    decreases template.len(),
{
    reveal_strlit("{path}");
    if template.len() >= path_placeholder().len() {
        lemma_no_placeholder(template);
        law_template_without_placeholder(shell, template.skip(1), path);
        assert(template =~= seq![template[0]] + template.skip(1));
    }
}

/// The path stands, as one literal word, exactly where the template has the
/// placeholder: the text before the first placeholder stays as it is, and the
/// rest is filled in the same way.
pub proof fn law_placeholder_becomes_escaped_path(
    shell: Shell,
    before: Seq<char>,
    after: Seq<char>,
    path: Seq<char>,
)
    requires
        !has_placeholder(before),
    ensures
        filled_in(shell, before + path_placeholder() + after, path) == before + escaped(
            shell,
            path,
        ) + filled_in(shell, after, path),
    decreases before.len(),
{
    reveal_strlit("{path}");
    let pat = path_placeholder();
    let template = before + pat + after;
    if before.len() == 0 {
        assert(template.take(6) =~= pat);
        assert(template.skip(6) =~= after);
        assert(filled_in(shell, template, path) =~= before + escaped(shell, path) + filled_in(
            shell,
            after,
            path,
        ));
    } else {
        lemma_no_placeholder(before);
        let n = before.len() as int;
        assert(template.take(6) != pat) by {
            if template.take(6) == pat {
                if n >= 6 {
                    assert(template.take(6) =~= before.take(6));
                } else {
                    assert(template.take(6)[n] == template[n]);
                    assert(template[n] == pat[0]);
                }
            }
        }
        let rest = before.skip(1);
        law_placeholder_becomes_escaped_path(shell, rest, after, path);
        assert(template.skip(1) =~= rest + pat + after);
        assert(filled_in(shell, template, path) =~= seq![before[0]] + filled_in(
            shell,
            rest + pat + after,
            path,
        ));
        assert(before =~= seq![before[0]] + rest);
        assert(filled_in(shell, template, path) =~= before + escaped(shell, path) + filled_in(
            shell,
            after,
            path,
        ));
    }
}

/// For `sh` a text goes into single quotes as it is, and a single quote in it stands
/// between the quotes, after a backslash.
pub proof fn law_sh_word_is_quoted(a: Seq<char>, b: Seq<char>)
    ensures
        quoted(a) == escaped(Shell::Sh, a),
        !a.contains('\'') ==> escaped(Shell::Sh, a) == seq!['\''] + a + seq!['\''],
        escaped(Shell::Sh, a.push('\'') + b) == escaped(Shell::Sh, a) + seq!['\\', '\'']
            + escaped(Shell::Sh, b),
{
    reveal_strlit("'\\''");
    if !a.contains('\'') {
        lemma_nothing_to_replace(a, '\'', "'\\''"@);
    }
    law_replacing_goes_char_by_char(a, '\'', b, '\'', "'\\''"@);
    assert(escaped(Shell::Sh, a.push('\'') + b) =~= escaped(Shell::Sh, a) + seq!['\\', '\'']
        + escaped(Shell::Sh, b));
}

/// What stands between the quotes of a text that is escaped for `cmd`.
spec fn cmd_body(s: Seq<char>) -> Seq<char> {
    replace_char(replace_char(s, '"', "\"\""@), '%', "%%"@)
}

/// Two texts after each other are escaped one after the other.
proof fn lemma_cmd_body_concat(a: Seq<char>, b: Seq<char>)
    ensures
        cmd_body(a + b) == cmd_body(a) + cmd_body(b),
{
    lemma_replace_char_concat(a, b, '"', "\"\""@);
    lemma_replace_char_concat(
        replace_char(a, '"', "\"\""@),
        replace_char(b, '"', "\"\""@),
        '%',
        "%%"@,
    );
}

/// For `cmd` a text goes into double quotes as it is, but each double quote and each
/// percent sign in it is written twice.
pub proof fn law_cmd_word_is_quoted(a: Seq<char>, c: char, b: Seq<char>)
    ensures
        quoted_for_cmd(a) == escaped(Shell::Cmd, a),
        !a.contains('"') && !a.contains('%') ==> escaped(Shell::Cmd, a) == seq!['"'] + a + seq![
            '"',
        ],
        c == '"' || c == '%' ==> escaped(Shell::Cmd, a.push(c) + b) == escaped(
            Shell::Cmd,
            a,
        ).drop_last() + seq![c, c] + escaped(Shell::Cmd, b).skip(1),
{
    reveal_strlit("\"\"");
    reveal_strlit("%%");
    if !a.contains('"') && !a.contains('%') {
        lemma_nothing_to_replace(a, '"', "\"\""@);
        lemma_nothing_to_replace(a, '%', "%%"@);
    }
    if c == '"' || c == '%' {
        let one = seq![c];
        lemma_cmd_body_concat(a, one);
        lemma_cmd_body_concat(a.push(c), b);
        assert(a + one =~= a.push(c));
        assert(cmd_body(one) =~= seq![c, c]) by {
            let none = Seq::<char>::empty();
            assert(one =~= none.push(c) + none);
            law_replacing_goes_char_by_char(none, c, none, '"', "\"\""@);
            if c == '"' {
                let two = seq!['"', '"'];
                assert(replace_char(one, '"', "\"\""@) =~= two);
                assert(!two.contains('%'));
                lemma_nothing_to_replace(two, '%', "%%"@);
            } else {
                assert(replace_char(one, '"', "\"\""@) =~= one);
                law_replacing_goes_char_by_char(none, c, none, '%', "%%"@);
            }
        }
        assert(escaped(Shell::Cmd, a).drop_last() =~= seq!['"'] + cmd_body(a));
        assert(escaped(Shell::Cmd, b).skip(1) =~= cmd_body(b) + seq!['"']);
        assert(escaped(Shell::Cmd, a.push(c) + b) =~= escaped(Shell::Cmd, a).drop_last() + seq![
            c,
            c,
        ] + escaped(Shell::Cmd, b).skip(1));
    }
}

/// The outcome of a command is told by how it ended: a success is a success, a failure
/// is reported with its exit code, or -1 where there is none, and a command that is
/// running is left alone until its time is over.
pub proof fn law_command_outcome(
    code: Option<i32>,
    elapsed: u128,
    timeout: Option<u128>,
)
    ensures
        step_for(ChildState::Exited { success: true, code }, timeout) is Succeeded,
        code is Some ==> step_for(ChildState::Exited { success: false, code }, timeout) == (
        CommandStep::Failed { code: code->0 }),
        code is None ==> step_for(ChildState::Exited { success: false, code }, timeout) == (
        CommandStep::Failed { code: -1i32 }),
        timeout is None ==> step_for(ChildState::Running { elapsed }, timeout) is PollAgain,
        timeout is Some && elapsed <= timeout->0 ==> step_for(
            ChildState::Running { elapsed },
            timeout,
        ) is PollAgain,
        timeout is Some && elapsed > timeout->0 ==> step_for(
            ChildState::Running { elapsed },
            timeout,
        ) is Kill,
        step_for(ChildState::Unknown, timeout) is GiveUp,
{
}

} // verus!
