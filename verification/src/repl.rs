//! The interactive loop, one line at a time: what to do with a line that was
//! read, and what to say.

use vstd::prelude::*;
use vstd::string::{StrSliceExecFns, StringExecFns};
use crate::env::{LispEnv, Scope};
use crate::eval::{EvalError, Host};
use crate::print::{fault_text, term_text};
use crate::semantics::{Fault, HostModel, Outcome};
use crate::text::{char_is_space, chars_of, is_space};
use crate::value::{Term, Value};
use crate::{parse_eval, parse_eval_and_macro_pass, spec_parse_eval, spec_parse_eval_and_macro_pass};

verus! {

/// How many characters of white space a text starts with.
pub open spec fn leading_space(s: Seq<char>) -> nat
    decreases s.len(),
{
    if s.len() == 0 || !is_space(s[0]) {
        0
    } else {
        1 + leading_space(s.skip(1))
    }
}

/// How many characters of white space a text ends with.
pub open spec fn trailing_space(s: Seq<char>) -> nat
    decreases s.len(),
{
    if s.len() == 0 || !is_space(s.last()) {
        0
    } else {
        1 + trailing_space(s.drop_last())
    }
}

/// A text without the white space at its start and at its end.
pub open spec fn trimmed(s: Seq<char>) -> Seq<char> {
    if leading_space(s) >= s.len() {
        Seq::empty()
    } else {
        s.subrange(leading_space(s) as int, s.len() - trailing_space(s))
    }
}

proof fn lemma_leading_space_bound(s: Seq<char>)
    ensures
        leading_space(s) <= s.len(),
    decreases s.len(),
{
    if s.len() > 0 && is_space(s[0]) {
        lemma_leading_space_bound(s.skip(1));
    }
}

/// `line` without the white space at its start and at its end.
pub fn trim(line: &str) -> (r: &str)
    ensures
        r@ == trimmed(line@),
{
    let chars = chars_of(line);
    let n = chars.len();
    let mut start: usize = 0;
    assert(chars@.skip(0) =~= chars@);
    while start < n && char_is_space(chars[start])
        invariant
            start <= n,
            n == chars@.len(),
            leading_space(chars@) == start + leading_space(chars@.skip(start as int)),
        decreases n - start,
    {
        assert(chars@.skip(start as int).skip(1) =~= chars@.skip(start + 1));
        start += 1;
    }
    if start >= n {
        proof {
            lemma_leading_space_bound(chars@.skip(start as int));
        }
        return line.substring_char(0, 0);
    }
    let mut end: usize = n;
    assert(chars@.take(n as int) =~= chars@);
    while end > start && char_is_space(chars[end - 1])
        invariant
            start < end <= n,
            n == chars@.len(),
            !is_space(chars@[start as int]),
            trailing_space(chars@) == (n - end) + trailing_space(chars@.take(end as int)),
        decreases end,
    {
        assert(chars@.take(end as int).drop_last() =~= chars@.take(end - 1));
        end -= 1;
    }
    line.substring_char(start, end)
}

/// What the loop does with a line.
#[derive(Debug)]
pub enum Reply {
    /// The line was empty: nothing is printed.
    Skip,
    /// The line gave a value: its text is printed, and the loop ends where
    /// the value is the symbol `exit`.
    Value { text: String, exit: bool },
    /// The line needs the contents of the file at this path: the host reads
    /// it, records it and hands the line in again.
    ReadFile(String),
    /// The line needs the exit status of the script at this path: the host
    /// runs it, records the status and hands the line in again.
    RunScript(String),
    /// The line failed: the message is printed and the loop goes on.
    Failure(String),
}

/// The model of a [`Reply`].
pub enum ReplyModel {
    Skip,
    Value { text: Seq<char>, exit: bool },
    ReadFile(Seq<char>),
    RunScript(Seq<char>),
    Failure(Seq<char>),
}

impl View for Reply {
    type V = ReplyModel;

    open spec fn view(&self) -> ReplyModel {
        match self {
            Reply::Skip => ReplyModel::Skip,
            Reply::Value { text, exit } => ReplyModel::Value { text: text@, exit: *exit },
            Reply::ReadFile(path) => ReplyModel::ReadFile(path@),
            Reply::RunScript(path) => ReplyModel::RunScript(path@),
            Reply::Failure(message) => ReplyModel::Failure(message@),
        }
    }
}

/// The reply to the outcome of an evaluation.
pub open spec fn reply_to(outcome: Outcome) -> ReplyModel {
    match outcome {
        Ok(t) => ReplyModel::Value { text: term_text(t), exit: t == Term::Symbol("exit"@) },
        Err(Fault::NeedsFile(path)) => ReplyModel::ReadFile(path),
        Err(Fault::NeedsScript(path)) => ReplyModel::RunScript(path),
        Err(f) => ReplyModel::Failure(fault_text(f)),
    }
}

/// The reply to a line: a line of white space is skipped; any other line is
/// trimmed, parsed and evaluated, after the macro expansion pass where
/// `expand` asks for it.
pub open spec fn spec_respond(
    line: Seq<char>,
    sc: Scope,
    host: HostModel,
    depth: nat,
    expand: bool,
) -> ReplyModel {
    if trimmed(line).len() == 0 {
        ReplyModel::Skip
    } else if expand {
        reply_to(spec_parse_eval_and_macro_pass(trimmed(line), sc, host, depth))
    } else {
        reply_to(spec_parse_eval(trimmed(line), sc, host, depth))
    }
}

/// The reply of the interactive loop to a line that was read.
pub fn respond(line: &str, env: &LispEnv, host: &Host, depth: usize, expand: bool) -> (r: Reply)
    ensures
        r@ == spec_respond(line@, env@, host@, depth as nat, expand),
{
    let source = trim(line);
    if source.unicode_len() == 0 {
        return Reply::Skip;
    }
    let result = if expand {
        parse_eval_and_macro_pass(source, env, host, depth)
    } else {
        parse_eval(source, env, host, depth)
    };
    match result {
        Ok(v) => {
            let name = String::from_str("exit");
            let exit = match &v {
                Value::Symbol(s) => *s == name,
                _ => false,
            };
            Reply::Value { text: v.to_text(), exit }
        },
        Err(EvalError::NeedsFile(path)) => Reply::ReadFile(path),
        Err(EvalError::NeedsScript(path)) => Reply::RunScript(path),
        Err(e) => Reply::Failure(e.message()),
    }
}

} // verus!
