//! The HEALTHCHECK instruction.
use vstd::prelude::*;
use vstd::slice::slice_subrange;

use crate::commands::{
    container_for, flag_for, has_exec_form, is_command, is_exec_form, new_command, push_arg,
    push_flag_for, require_container, Command,
};
use crate::errors::{BuildError, BuildFailure};
use crate::external::{
    command_line, declarable, declared_once, parse_command_line, shell_words, split_words,
};
use crate::state::{BuildState, Operation, State};
use crate::text::{
    all_digits, copy_texts, decimal, decimal_text, digits_value, is_text, join_texts, joined,
    lemma_decimal, number_upto, opt_text, push_all, read_digits, read_number, same_text,
    slice_texts, tail, texts, to_chars, to_text, trim, trimmed,
};

verus! {

/// The names of the options of a HEALTHCHECK instruction.
pub open spec fn health_options() -> Seq<Seq<char>> {
    seq!["interval"@, "timeout"@, "start-period"@, "retries"@]
}

/// The number that a count of retries denotes: a signed decimal number from zero to the
/// largest `u32`.
pub open spec fn retries_value(s: Seq<char>) -> Option<nat> {
    if s.len() > 0 && s[0] == '-' {
        if all_digits(s.skip(1)) && digits_value(s.skip(1)) == 0 {
            Some(0)
        } else {
            None
        }
    } else {
        number_upto(s, u32::MAX as nat)
    }
}

fn read_retries(s: &str) -> (r: Option<u64>)
    ensures
        match r {
            Some(n) => retries_value(s@) == Some(n as nat),
            None => retries_value(s@) is None,
        },
{
    let c = to_chars(s);
    if c.len() > 0 && c[0] == '-' {
        read_digits(tail(&c, 1), 0)
    } else {
        read_number(&c, u32::MAX as u64)
    }
}

/// The test that the words behind CMD make: a JSON array, or a line for the shell.
pub open spec fn health_test(words: Seq<Seq<char>>) -> Seq<char> {
    let line = joined(words, " "@);
    if is_exec_form(line) {
        "CMD "@ + line
    } else {
        "CMD-SHELL "@ + line
    }
}

fn write_test(words: &[String]) -> (r: String)
    ensures
        r@ == health_test(texts(words@)),
{
    let line = to_chars(join_texts(words, " ").as_str());
    let mut out = if has_exec_form(&line) {
        to_chars("CMD ")
    } else {
        to_chars("CMD-SHELL ")
    };
    push_all(&mut out, &line);
    to_text(&out)
}

/// The command for given values of the options and given words behind CMD.
pub open spec fn health_config(
    options: Seq<Option<Seq<char>>>,
    test: Seq<Seq<char>>,
    c: Seq<char>,
) -> Command {
    let retries = match options[3] {
        Some(n) => match retries_value(n) {
            Some(v) => Ok(Some(decimal(v))),
            None => Err(BuildFailure::BadOptions),
        },
        None => Ok(None),
    };
    match retries {
        Ok(n) => Ok(
            seq!["config"@] + flag_for("--healthcheck-interval"@, options[0]) + flag_for(
                "--healthcheck-timeout"@,
                options[1],
            ) + flag_for("--healthcheck-start-period"@, options[2]) + flag_for(
                "--healthcheck-retries"@,
                n,
            ) + seq!["--healthcheck"@, health_test(test), c],
        ),
        Err(e) => Err(e),
    }
}

/// The command of a health check, given the values of its options in the order interval,
/// timeout, start period and retries, and the words behind CMD.
pub fn health_config_command(
    options: &Vec<Option<String>>,
    test: &[String],
    container: &str,
) -> (r: Result<Vec<String>, BuildError>)
    requires
        options@.len() == 4,
    ensures
        is_command(
            r,
            health_config(
                options@.map_values(|o: Option<String>| opt_text(o)),
                texts(test@),
                container@,
            ),
        ),
{
    let ghost opts = options@.map_values(|o: Option<String>| opt_text(o));
    let retries = match &options[3] {
        Some(n) => match read_retries(n.as_str()) {
            Some(v) => Some(decimal_text(v as u128)),
            None => {
                return Err(BuildError::BadOptions);
            },
        },
        None => None,
    };
    let mut v = new_command("config");
    push_flag_for(&mut v, "--healthcheck-interval", &options[0]);
    push_flag_for(&mut v, "--healthcheck-timeout", &options[1]);
    push_flag_for(&mut v, "--healthcheck-start-period", &options[2]);
    push_flag_for(&mut v, "--healthcheck-retries", &retries);
    let ghost before = texts(v@);
    let test_text = write_test(test);
    push_arg(&mut v, "--healthcheck");
    push_arg(&mut v, test_text.as_str());
    push_arg(&mut v, container);
    proof {
        assert(texts(v@) =~= before + seq!["--healthcheck"@, test_text@, container@]);
    }
    Ok(v)
}

/// The place of the first of some words that is a given one.
pub open spec fn word_position(ws: Seq<Seq<char>>, word: Seq<char>, from: int) -> Option<int>
    decreases ws.len() - from,
{
    if from < 0 || from >= ws.len() {
        None
    } else if ws[from] == word {
        Some(from)
    } else {
        word_position(ws, word, from + 1)
    }
}

fn find_word(ws: &Vec<String>, word: &str) -> (r: Option<usize>)
    ensures
        match r {
            Some(p) => p < ws@.len() && word_position(texts(ws@), word@, 0) == Some(p as int),
            None => word_position(texts(ws@), word@, 0) is None,
        },
{
    let mut i: usize = 0;
    while i < ws.len()
        invariant
            i <= ws@.len(),
            word_position(texts(ws@), word@, 0) == word_position(texts(ws@), word@, i as int),
        decreases ws.len() - i,
    {
        if same_text(ws[i].as_str(), word) {
            return Some(i);
        }
        i += 1;
    }
    None
}

/// The command for the words of a health check on a line.
pub open spec fn health_words(line: Seq<char>, ws: Seq<Seq<char>>, c: Seq<char>) -> Command {
    match word_position(ws, "CMD"@, 0) {
        None => Err(BuildFailure::NoHealthCommand { line }),
        Some(p) => match command_line("healthcheck"@, health_options(), seq![], ws.take(p)) {
            Some((options, _)) => health_config(options, ws.skip(p + 1), c),
            None => Err(BuildFailure::BadOptions),
        },
    }
}

proof fn lemma_health_options()
    ensures
        forall|i: int|
            0 <= i < health_options().len() ==> declarable(#[trigger] health_options()[i]),
        declared_once(health_options()),
{
    reveal_strlit("interval");
    reveal_strlit("timeout");
    reveal_strlit("start-period");
    reveal_strlit("retries");
    reveal_strlit("help");
    let o = health_options();
    assert("timeout"@[0] == 't' && "retries"@[0] == 'r');
    assert(o[0].len() == 8 && o[1].len() == 7 && o[2].len() == 12 && o[3].len() == 7);
}

/// The command of a health check, given its line and the words of it.
pub fn health_words_command(line: &str, ws: &Vec<String>, container: &str) -> (r: Result<
    Vec<String>,
    BuildError,
>)
    ensures
        is_command(r, health_words(line@, texts(ws@), container@)),
{
    let ghost all = texts(ws@);
    match find_word(ws, "CMD") {
        None => Err(BuildError::NoHealthCommand { line: to_text(&to_chars(line)) }),
        Some(p) => {
            let n: usize = ws.len();
            let options = ["interval", "timeout", "start-period", "retries"];
            let operands: [&'static str; 0] = [];
            let before = copy_texts(slice_subrange(ws.as_slice(), 0, p));
            proof {
                lemma_health_options();
                assert(slice_texts(options@) =~= health_options());
                assert(slice_texts(operands@) =~= seq![]);
                assert(slice_texts(options@) + slice_texts(operands@) =~= health_options());
                assert(texts(before@) =~= all.take(p as int));
                assert forall|i: int| 0 <= i < options@.len() implies declarable(
                    #[trigger] options@[i]@,
                ) by {
                    assert(options@[i]@ == health_options()[i]);
                }
            }
            match parse_command_line("healthcheck", &options, &operands, &before) {
                None => Err(BuildError::BadOptions),
                Some((values, _)) => {
                    let test = slice_subrange(ws.as_slice(), p + 1, n);
                    proof {
                        assert(texts(test@) =~= all.skip(p + 1));
                    }
                    health_config_command(&values, test, container)
                },
            }
        },
    }
}

/// The command of a HEALTHCHECK instruction.
pub open spec fn health_args(line: Seq<char>, s: BuildState) -> Command {
    match container_for(s, Operation::HealthCheck) {
        Err(e) => Err(e),
        Ok(c) => if trim(line) == "NONE"@ {
            Ok(seq!["config"@, "--healthcheck"@, "NONE"@, c])
        } else {
            match shell_words(trim(line)) {
                Some(ws) => health_words(line, ws, c),
                None => Err(BuildFailure::Unbalanced),
            }
        },
    }
}

/// The command that sets the health check of the current container. Supports
/// `HEALTHCHECK NONE` and `HEALTHCHECK [OPTIONS] CMD <test>` with the options `--interval`,
/// `--timeout`, `--start-period` and `--retries`. The words are split first; the options
/// are those before the first bare CMD.
pub fn healthcheck_command(line: &str, state: &State) -> (r: Result<Vec<String>, BuildError>)
    ensures
        is_command(r, health_args(line@, state@)),
{
    let container = match require_container(state, Operation::HealthCheck) {
        Ok(c) => c,
        Err(e) => {
            return Err(e);
        },
    };
    let c = to_chars(line);
    let t = trimmed(&c);
    if is_text(t, "NONE") {
        let mut v = new_command("config");
        push_arg(&mut v, "--healthcheck");
        push_arg(&mut v, "NONE");
        push_arg(&mut v, container);
        proof {
            assert(texts(v@) =~= seq!["config"@, "--healthcheck"@, "NONE"@, container@]);
        }
        return Ok(v);
    }
    match split_words(to_text(t).as_str()) {
        Some(ws) => health_words_command(line, &ws, container),
        None => Err(BuildError::Unbalanced),
    }
}

/// A count of retries is a whole number from zero to the largest that 32 bits hold, with or without
/// a plus sign; with a minus sign it is zero or nothing.
pub proof fn law_retries(n: nat, s: Seq<char>)
    ensures
        n <= 0xffff_ffff ==> retries_value(decimal(n)) == Some(n),
        n > 0xffff_ffff ==> retries_value(decimal(n)) is None,
        n > 0 ==> retries_value(seq!['-'] + decimal(n)) is None,
        retries_value(seq!['-'] + decimal(0)) == Some(0nat),
        retries_value(s) matches Some(v) ==> v <= 0xffff_ffff,
{
    lemma_decimal(n);
    lemma_decimal(0);
    let d = decimal(n);
    assert(crate::text::is_digit(d[0]));
    assert((seq!['-'] + d).skip(1) =~= d);
    assert((seq!['-'] + decimal(0)).skip(1) =~= decimal(0));
}

/// A plus sign before a count of retries is of no account.
pub proof fn law_retries_with_a_plus_sign(n: nat)
    ensures
        retries_value(seq!['+'] + decimal(n)) == retries_value(decimal(n)),
{
    lemma_decimal(n);
    let d = decimal(n);
    assert(crate::text::is_digit(d[0]));
    let s = seq!['+'] + d;
    assert(s.skip(1) =~= d);
}

/// A HEALTHCHECK line that cannot be split into words is refused.
pub proof fn law_unbalanced_health_check(line: Seq<char>, s: BuildState, c: Seq<char>)
    requires
        s.container == Some(c),
        trim(line) != "NONE"@,
        shell_words(trim(line)) is None,
    ensures
        health_args(line, s) == Err::<Seq<Seq<char>>, BuildFailure>(BuildFailure::Unbalanced),
{
}

} // verus!
