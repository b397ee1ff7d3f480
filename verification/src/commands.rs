//! The buildah command lines that the instructions of a Dockerfile come to.
use vstd::prelude::*;

use crate::errors::{BuildError, BuildFailure};
use crate::external::{
    from_json, json_array, json_strings, shell_words, split_words, to_json,
};
use crate::state::{BuildState, Operation, State, Vars};
use crate::text::{
    cut, opt_text, push_all, slice_texts, split_once, split_space, texts, to_chars, to_text, trim,
    trim_start, trimmed, trimmed_start, words,
};
use crate::textmap::pair_texts;

verus! {

/// A list of command-line arguments, or why there is none.
pub type Command = Result<Seq<Seq<char>>, BuildFailure>;

/// Whether a result is a given command.
pub open spec fn is_command(r: Result<Vec<String>, BuildError>, want: Command) -> bool {
    match r {
        Ok(v) => want == Ok::<Seq<Seq<char>>, BuildFailure>(texts(v@)),
        Err(e) => want == Err::<Seq<Seq<char>>, BuildFailure>(e@),
    }
}

pub(crate) fn push_arg(v: &mut Vec<String>, s: &str)
    ensures
        texts(final(v)@) == texts(old(v)@).push(s@),
{
    let ghost before = texts(v@);
    v.push(to_text(&to_chars(s)));
    proof {
        assert(texts(v@) =~= before.push(s@));
    }
}

pub(crate) fn new_command(name: &str) -> (r: Vec<String>)
    ensures
        texts(r@) == seq![name@],
{
    let mut r: Vec<String> = Vec::new();
    push_arg(&mut r, name);
    proof {
        assert(texts(r@) =~= seq![name@]);
    }
    r
}

/// Each of some values with a flag in front of it.
pub open spec fn flagged(flag: Seq<char>, values: Seq<Seq<char>>) -> Seq<Seq<char>>
    decreases values.len(),
{
    if values.len() == 0 {
        seq![]
    } else {
        flagged(flag, values.drop_last()) + seq![flag, values.last()]
    }
}

/// A flag and its value, where there is one.
pub open spec fn flag_for(flag: Seq<char>, value: Option<Seq<char>>) -> Seq<Seq<char>> {
    match value {
        Some(v) => seq![flag, v],
        None => seq![],
    }
}

pub(crate) fn push_flagged(v: &mut Vec<String>, flag: &str, values: &Vec<String>)
    ensures
        texts(final(v)@) == texts(old(v)@) + flagged(flag@, texts(values@)),
{
    let ghost before = texts(v@);
    let ghost all = texts(values@);
    let mut i: usize = 0;
    proof {
        assert(all.take(0) =~= seq![]);
        assert(before + flagged(flag@, all.take(0)) =~= before);
    }
    while i < values.len()
        invariant
            i <= values@.len(),
            all == texts(values@),
            texts(v@) == before + flagged(flag@, all.take(i as int)),
        decreases values.len() - i,
    {
        push_arg(v, flag);
        push_arg(v, values[i].as_str());
        proof {
            assert(all.take(i + 1).drop_last() =~= all.take(i as int));
            assert(texts(v@) =~= before + flagged(flag@, all.take(i + 1)));
        }
        i += 1;
    }
    proof {
        assert(all.take(i as int) =~= all);
    }
}

pub(crate) fn push_flag_for(v: &mut Vec<String>, flag: &str, value: &Option<String>)
    ensures
        texts(final(v)@) == texts(old(v)@) + flag_for(flag@, opt_text(*value)),
{
    let ghost before = texts(v@);
    if let Some(x) = value {
        push_arg(v, flag);
        push_arg(v, x.as_str());
    }
    proof {
        assert(texts(v@) =~= before + flag_for(flag@, opt_text(*value)));
    }
}

pub(crate) fn push_args(v: &mut Vec<String>, more: &Vec<String>)
    ensures
        texts(final(v)@) == texts(old(v)@) + texts(more@),
{
    let ghost before = texts(v@);
    let ghost all = texts(more@);
    let mut i: usize = 0;
    proof {
        assert(before + all.take(0) =~= before);
    }
    while i < more.len()
        invariant
            i <= more@.len(),
            all == texts(more@),
            texts(v@) == before + all.take(i as int),
        decreases more.len() - i,
    {
        push_arg(v, more[i].as_str());
        proof {
            assert(texts(v@) =~= before + all.take(i + 1));
        }
        i += 1;
    }
    proof {
        assert(all.take(i as int) =~= all);
    }
}

/// The container of a build, or the error of an instruction that stands before FROM.
pub open spec fn container_for(s: BuildState, op: Operation) -> Result<Seq<char>, BuildFailure> {
    match s.container {
        Some(c) => Ok(c),
        None => Err(BuildFailure::NoContainer { op }),
    }
}

pub(crate) fn require_container(state: &State, op: Operation) -> (r: Result<&str, BuildError>)
    ensures
        match r {
            Ok(c) => container_for(state@, op) == Ok::<Seq<char>, BuildFailure>(c@),
            Err(e) => container_for(state@, op) == Err::<Seq<char>, BuildFailure>(e@),
        },
{
    match &state.container {
        Some(c) => Ok(c.as_str()),
        None => Err(BuildError::NoContainer { op }),
    }
}

// ---------------------------------------------------------------------------------------
// FROM and CHECKPOINT
// ---------------------------------------------------------------------------------------
/// The image of a FROM line and the name that the stage gets, where it gets one.
pub open spec fn from_parts(line: Seq<char>) -> (Seq<char>, Option<Seq<char>>) {
    match split_once(line, " AS "@) {
        Some((from, name)) => (trim(from), Some(trim(name))),
        None => (line, None),
    }
}

pub(crate) fn split_from(line: &str) -> (r: (String, Option<String>))
    ensures
        from_parts(line@) == (r.0@, opt_text(r.1)),
{
    let c = to_chars(line);
    match cut(&c, " AS ") {
        Some((a, b)) => (to_text(trimmed(a)), Some(to_text(trimmed(b)))),
        None => (to_text(&c), None),
    }
}

/// The command that creates a container for a FROM line.
pub open spec fn from_args(line: Seq<char>, s: BuildState) -> Seq<Seq<char>> {
    seq!["from"@] + flag_for("--format"@, s.format) + seq![s.image_for(from_parts(line).0)]
}

/// The command that creates a new container from the image of a FROM line.
pub fn from_command(line: &str, state: &State) -> (r: Vec<String>)
    ensures
        texts(r@) == from_args(line@, state@),
{
    let (from, _name) = split_from(line);
    let mut r = new_command("from");
    push_flag_for(&mut r, "--format", &state.format);
    push_arg(&mut r, state.image(from.as_str()));
    proof {
        assert(texts(r@) =~= from_args(line@, state@));
    }
    r
}

/// The command that creates a new container from the last checkpoint.
pub fn checkpoint_command(state: &State) -> (r: Vec<String>)
    ensures
        texts(r@) == seq!["from"@, state@.last_id],
{
    let mut r = new_command("from");
    push_arg(&mut r, state.last_id.as_str());
    proof {
        assert(texts(r@) =~= seq!["from"@, state@.last_id]);
    }
    r
}

// ---------------------------------------------------------------------------------------
// ENV
// ---------------------------------------------------------------------------------------
/// A key and a value, of a word of the form KEY=VALUE.
#[derive(Debug)]
pub struct Kvp {
    pub key: String,
    pub value: String,
}

impl Kvp {
    /// Parses a word of the form KEY=VALUE; the value starts behind the first equals sign.
    pub fn from_str(s: &str) -> (r: Result<Kvp, BuildError>)
        ensures
            match r {
                Ok(kvp) => split_once(s@, "="@) == Some((kvp.key@, kvp.value@)),
                Err(e) => split_once(s@, "="@) is None && e@ == (BuildFailure::NotKeyValue {
                    word: s@,
                }),
            },
    {
        let c = to_chars(s);
        match cut(&c, "=") {
            Some((k, v)) => Ok(Kvp { key: to_text(k), value: to_text(v) }),
            None => Err(BuildError::NotKeyValue { word: to_text(&c) }),
        }
    }
}

/// Environment variables with each of some words KEY=VALUE set, up to the first word that
/// is not of this form.
pub open spec fn env_set(vars: Vars, ws: Seq<Seq<char>>) -> Vars
    decreases ws.len(),
{
    if ws.len() == 0 {
        vars
    } else {
        match split_once(ws[0], "="@) {
            Some((k, v)) => env_set(vars.with_env(k, v), ws.drop_first()),
            None => vars,
        }
    }
}

/// The first of some words that is not of the form KEY=VALUE.
pub open spec fn first_without_value(ws: Seq<Seq<char>>) -> Option<Seq<char>>
    decreases ws.len(),
{
    if ws.len() == 0 {
        None
    } else if split_once(ws[0], "="@) is None {
        Some(ws[0])
    } else {
        first_without_value(ws.drop_first())
    }
}

/// The state of a build with other stage variables.
pub open spec fn with_stage(s: BuildState, stage: Vars) -> BuildState {
    BuildState { stage, ..s }
}

/// Sets the stage's environment from words of the form KEY=VALUE.
pub fn set_env(ws: &Vec<String>, state: &mut State) -> (r: Result<(), BuildError>)
    ensures
        final(state)@ == with_stage(old(state)@, env_set(old(state)@.stage, texts(ws@))),
        final(state).ignore == old(state).ignore,
        match r {
            Ok(_) => first_without_value(texts(ws@)) is None,
            Err(e) => first_without_value(texts(ws@)) matches Some(w) && e@ == (
            BuildFailure::NotKeyValue { word: w }),
        },
{
    let ghost all = texts(ws@);
    let ghost start = state@;
    let mut i: usize = 0;
    proof {
        assert(all.skip(0) =~= all);
    }
    while i < ws.len()
        invariant
            i <= ws@.len(),
            all == texts(ws@),
            start == old(state)@,
            state.ignore == old(state).ignore,
            state@ == with_stage(start, state@.stage),
            env_set(start.stage, all) == env_set(state@.stage, all.skip(i as int)),
            first_without_value(all) == first_without_value(all.skip(i as int)),
        decreases ws.len() - i,
    {
        proof {
            assert(all.skip(i as int)[0] == ws@[i as int]@);
            assert(all.skip(i as int).drop_first() =~= all.skip(i + 1));
        }
        match Kvp::from_str(ws[i].as_str()) {
            Ok(kvp) => {
                state.stage.env.insert(kvp.key, kvp.value);
            },
            Err(e) => {
                return Err(e);
            },
        }
        i += 1;
    }
    Ok(())
}

/// The command of an ENV instruction with given words.
pub open spec fn env_args(ws: Seq<Seq<char>>, s: BuildState) -> Command {
    match first_without_value(ws) {
        Some(word) => Err(BuildFailure::NotKeyValue { word }),
        None => match container_for(s, Operation::Env) {
            Ok(c) => Ok(seq!["config"@] + flagged("--env"@, ws) + seq![c]),
            Err(e) => Err(e),
        },
    }
}

/// The command that sets environment variables, given the words of the instruction; the
/// variables are set for the stage too.
pub fn env_words_command(ws: &Vec<String>, state: &mut State) -> (r: Result<
    Vec<String>,
    BuildError,
>)
    ensures
        is_command(r, env_args(texts(ws@), old(state)@)),
        final(state)@ == with_stage(old(state)@, env_set(old(state)@.stage, texts(ws@))),
        final(state).ignore == old(state).ignore,
{
    let mut v = new_command("config");
    if let Err(e) = set_env(ws, state) {
        return Err(e);
    }
    push_flagged(&mut v, "--env", ws);
    match require_container(state, Operation::Env) {
        Ok(c) => {
            push_arg(&mut v, c);
            proof {
                assert(texts(v@) =~= seq!["config"@] + flagged("--env"@, texts(ws@)) + seq![c@]);
            }
            Ok(v)
        },
        Err(e) => Err(e),
    }
}

/// The command of an ENV instruction.
pub open spec fn env_line_args(line: Seq<char>, s: BuildState) -> Command {
    match shell_words(line) {
        Some(ws) => env_args(ws, s),
        None => Err(BuildFailure::Unbalanced),
    }
}

/// The variables of a stage behind an ENV line.
pub open spec fn env_line(vars: Vars, line: Seq<char>) -> Vars {
    match shell_words(line) {
        Some(ws) => env_set(vars, ws),
        None => vars,
    }
}

/// The command that sets the environment variables of an ENV line in the current container;
/// the variables are set for the stage too.
pub fn env_command(line: &str, state: &mut State) -> (r: Result<Vec<String>, BuildError>)
    ensures
        is_command(r, env_line_args(line@, old(state)@)),
        final(state)@ == with_stage(old(state)@, env_line(old(state)@.stage, line@)),
        final(state).ignore == old(state).ignore,
{
    match split_words(line) {
        Some(ws) => env_words_command(&ws, state),
        None => Err(BuildError::Unbalanced),
    }
}

// ---------------------------------------------------------------------------------------
// RUN
// ---------------------------------------------------------------------------------------
/// The words KEY=VALUE for some pairs.
pub open spec fn assignments(args: Seq<(Seq<char>, Seq<char>)>) -> Seq<Seq<char>> {
    args.map_values(|a: (Seq<char>, Seq<char>)| a.0 + "="@ + a.1)
}

pub(crate) fn write_assignments(args: &Vec<(String, String)>) -> (r: Vec<String>)
    ensures
        texts(r@) == assignments(pair_texts(args@)),
{
    let ghost all = assignments(pair_texts(args@));
    let mut r: Vec<String> = Vec::new();
    let mut i: usize = 0;
    proof {
        assert(texts(r@) =~= all.take(0));
    }
    while i < args.len()
        invariant
            i <= args@.len(),
            all == assignments(pair_texts(args@)),
            texts(r@) == all.take(i as int),
        decreases args.len() - i,
    {
        let mut c = to_chars(args[i].0.as_str());
        let eq = to_chars("=");
        let value = to_chars(args[i].1.as_str());
        push_all(&mut c, &eq);
        push_all(&mut c, &value);
        let word = to_text(&c);
        push_arg(&mut r, word.as_str());
        proof {
            assert(all[i as int] == word@);
            assert(all.take(i + 1) =~= all.take(i as int).push(word@));
        }
        i += 1;
    }
    proof {
        assert(all.take(i as int) =~= all);
    }
    r
}

/// The command of a RUN instruction.
pub open spec fn run_args(
    line: Seq<char>,
    args: Seq<(Seq<char>, Seq<char>)>,
    s: BuildState,
) -> Command {
    match container_for(s, Operation::Run) {
        Ok(c) => Ok(
            seq!["run"@] + flag_for("--network"@, s.network) + flagged(
                "--env"@,
                assignments(args),
            ) + seq![c, "--"@, "sh"@, "-c"@, line],
        ),
        Err(e) => Err(e),
    }
}

/// The command that runs a line with the shell of the current container, with the build
/// arguments in its environment.
pub fn execute_run(line: &str, state: &State, args: &Vec<(String, String)>) -> (r: Result<
    Vec<String>,
    BuildError,
>)
    ensures
        is_command(r, run_args(line@, pair_texts(args@), state@)),
{
    let mut v = new_command("run");
    push_flag_for(&mut v, "--network", &state.network);
    let env = write_assignments(args);
    push_flagged(&mut v, "--env", &env);
    match require_container(state, Operation::Run) {
        Ok(c) => {
            push_arg(&mut v, c);
            push_arg(&mut v, "--");
            push_arg(&mut v, "sh");
            push_arg(&mut v, "-c");
            push_arg(&mut v, line);
            proof {
                assert(texts(v@) =~= seq!["run"@] + flag_for("--network"@, state@.network)
                    + flagged("--env"@, assignments(pair_texts(args@))) + seq![
                    c@,
                    "--"@,
                    "sh"@,
                    "-c"@,
                    line@,
                ]);
            }
            Ok(v)
        },
        Err(e) => Err(e),
    }
}

// ---------------------------------------------------------------------------------------
// Instructions that set one value
// ---------------------------------------------------------------------------------------
/// The command that sets one value of the current container.
pub open spec fn config_args(
    flag: Seq<char>,
    value: Seq<char>,
    op: Operation,
    s: BuildState,
) -> Command {
    match container_for(s, op) {
        Ok(c) => Ok(seq!["config"@, flag, value, c]),
        Err(e) => Err(e),
    }
}

fn config_command(flag: &str, value: &str, op: Operation, state: &State) -> (r: Result<
    Vec<String>,
    BuildError,
>)
    ensures
        is_command(r, config_args(flag@, value@, op, state@)),
{
    let mut v = new_command("config");
    push_arg(&mut v, flag);
    push_arg(&mut v, value);
    match require_container(state, op) {
        Ok(c) => {
            push_arg(&mut v, c);
            proof {
                assert(texts(v@) =~= seq!["config"@, flag@, value@, c@]);
            }
            Ok(v)
        },
        Err(e) => Err(e),
    }
}

/// The command that sets the working directory of the current container.
pub fn workdir_command(line: &str, state: &State) -> (r: Result<Vec<String>, BuildError>)
    ensures
        is_command(r, config_args("--workingdir"@, line@, Operation::Workdir, state@)),
{
    config_command("--workingdir", line, Operation::Workdir, state)
}

/// The command that sets the user of the current container.
pub fn user_command(line: &str, state: &State) -> (r: Result<Vec<String>, BuildError>)
    ensures
        is_command(r, config_args("--user"@, trim(line@), Operation::User, state@)),
{
    let c = to_chars(line);
    let value = to_text(trimmed(&c));
    config_command("--user", value.as_str(), Operation::User, state)
}

/// The command that sets the stop signal of the current container.
pub fn stopsignal_command(line: &str, state: &State) -> (r: Result<Vec<String>, BuildError>)
    ensures
        is_command(r, config_args("--stop-signal"@, trim(line@), Operation::StopSignal, state@)),
{
    let c = to_chars(line);
    let value = to_text(trimmed(&c));
    config_command("--stop-signal", value.as_str(), Operation::StopSignal, state)
}

/// Whether a line is written as a JSON array.
pub open spec fn is_exec_form(line: Seq<char>) -> bool {
    trim_start(line).len() > 0 && trim_start(line)[0] == '\u{5b}'
}

pub(crate) fn has_exec_form(line: &[char]) -> (r: bool)
    ensures
        r == is_exec_form(line@),
{
    let t = trimmed_start(line);
    t.len() > 0 && t[0] == '\u{5b}'
}

/// The JSON array of a command: an array stays as it is, and anything else is handed to the
/// shell.
pub open spec fn exec_form(line: Seq<char>) -> Seq<char> {
    if is_exec_form(line) {
        trim(line)
    } else {
        json_array(seq!["/bin/sh"@, "-c"@, trim(line)])
    }
}

/// The JSON array of a command: an array stays as it is, and anything else is handed to the
/// shell.
pub fn write_exec_form(line: &str) -> (r: String)
    ensures
        r@ == exec_form(line@),
{
    let c = to_chars(line);
    let t = to_text(trimmed(&c));
    if has_exec_form(&c) {
        return t;
    }
    let words = ["/bin/sh", "-c", t.as_str()];
    proof {
        assert(slice_texts(words@) =~= seq!["/bin/sh"@, "-c"@, trim(line@)]);
    }
    match to_json(&words) {
        Ok(s) => s,
        Err(_) => t,
    }
}

/// The command that sets the entrypoint of the current container. Exec form (starting with
/// a bracket) is passed as a JSON array; shell form is wrapped in `/bin/sh -c`.
pub fn entrypoint_command(line: &str, state: &State) -> (r: Result<Vec<String>, BuildError>)
    ensures
        is_command(
            r,
            config_args("--entrypoint"@, exec_form(line@), Operation::Entrypoint, state@),
        ),
{
    let value = write_exec_form(line);
    config_command("--entrypoint", value.as_str(), Operation::Entrypoint, state)
}

/// The command that sets the default command of the current container. Exec form (starting
/// with a bracket) is passed as a JSON array; shell form is wrapped in `/bin/sh -c`.
pub fn cmd_command(line: &str, state: &State) -> (r: Result<Vec<String>, BuildError>)
    ensures
        is_command(r, config_args("--cmd"@, exec_form(line@), Operation::Cmd, state@)),
{
    let value = write_exec_form(line);
    config_command("--cmd", value.as_str(), Operation::Cmd, state)
}

// ---------------------------------------------------------------------------------------
// Instructions that set a list
// ---------------------------------------------------------------------------------------
/// The command that sets a list of values of the current container.
pub open spec fn list_args(
    flag: Seq<char>,
    values: Seq<Seq<char>>,
    op: Operation,
    s: BuildState,
) -> Command {
    match container_for(s, op) {
        Ok(c) => Ok(seq!["config"@] + flagged(flag, values) + seq![c]),
        Err(e) => Err(e),
    }
}

/// The command that gives the current container a value of the given flag for each of some
/// words.
pub fn list_command(flag: &str, values: &Vec<String>, op: Operation, state: &State) -> (r: Result<
    Vec<String>,
    BuildError,
>)
    ensures
        is_command(r, list_args(flag@, texts(values@), op, state@)),
{
    let mut v = new_command("config");
    push_flagged(&mut v, flag, values);
    match require_container(state, op) {
        Ok(c) => {
            push_arg(&mut v, c);
            proof {
                assert(texts(v@) =~= seq!["config"@] + flagged(flag@, texts(values@)) + seq![c@]);
            }
            Ok(v)
        },
        Err(e) => Err(e),
    }
}

/// The command of a LABEL instruction.
pub open spec fn label_args(line: Seq<char>, s: BuildState) -> Command {
    match shell_words(line) {
        Some(ws) => list_args("--label"@, ws, Operation::Label, s),
        None => Err(BuildFailure::Unbalanced),
    }
}

/// The command that sets the labels of the current container.
pub fn label_command(line: &str, state: &State) -> (r: Result<Vec<String>, BuildError>)
    ensures
        is_command(r, label_args(line@, state@)),
{
    match split_words(line) {
        Some(ws) => list_command("--label", &ws, Operation::Label, state),
        None => Err(BuildError::Unbalanced),
    }
}

/// The command that declares the ports of the current container, which stand between white
/// space.
pub fn expose_command(line: &str, state: &State) -> (r: Result<Vec<String>, BuildError>)
    ensures
        is_command(r, list_args("--port"@, words(line@), Operation::Expose, state@)),
{
    let c = to_chars(line);
    let ports = split_space(&c);
    list_command("--port", &ports, Operation::Expose, state)
}

/// The mount points of a VOLUME line: the strings of a JSON array, or words.
pub open spec fn volumes(line: Seq<char>) -> Result<Seq<Seq<char>>, BuildFailure> {
    if is_exec_form(line) {
        match json_strings(trim(line)) {
            Some(v) => Ok(v),
            None => Err(BuildFailure::BadVolumes),
        }
    } else {
        match shell_words(line) {
            Some(v) => Ok(v),
            None => Err(BuildFailure::Unbalanced),
        }
    }
}

/// The command of a VOLUME instruction.
pub open spec fn volume_args(line: Seq<char>, s: BuildState) -> Command {
    match container_for(s, Operation::Volume) {
        Err(e) => Err(e),
        Ok(_) => match volumes(line) {
            Ok(v) => list_args("--volume"@, v, Operation::Volume, s),
            Err(e) => Err(e),
        },
    }
}

/// The command that declares the mount points of the current container.
pub fn volume_command(line: &str, state: &State) -> (r: Result<Vec<String>, BuildError>)
    ensures
        is_command(r, volume_args(line@, state@)),
{
    if let Err(e) = require_container(state, Operation::Volume) {
        return Err(e);
    }
    let c = to_chars(line);
    let mounts = if has_exec_form(&c) {
        match from_json(to_text(trimmed(&c)).as_str()) {
            Ok(v) => v,
            Err(_) => {
                return Err(BuildError::BadVolumes);
            },
        }
    } else {
        match split_words(line) {
            Some(v) => v,
            None => {
                return Err(BuildError::Unbalanced);
            },
        }
    };
    list_command("--volume", &mounts, Operation::Volume, state)
}

// ---------------------------------------------------------------------------------------
// Images and containers
// ---------------------------------------------------------------------------------------
fn command_of(name: &str, first: &str) -> (r: Vec<String>)
    ensures
        texts(r@) == seq![name@, first@],
{
    let mut r = new_command(name);
    push_arg(&mut r, first);
    proof {
        assert(texts(r@) =~= seq![name@, first@]);
    }
    r
}

/// The command that fetches an image.
pub fn fetch_command(image: &str) -> (r: Vec<String>)
    ensures
        texts(r@) == seq!["pull"@, image@],
{
    command_of("pull", image)
}

/// The command that lists the environment of an image, one variable a line.
pub fn inspect_env_command(image: &str) -> (r: Vec<String>)
    ensures
        texts(r@) == seq![
            "inspect"@,
            "--format"@,
            "{{range .OCIv1.Config.Env}}{{.}}\n{{end}}"@,
            image@,
        ],
{
    let mut r = command_of("inspect", "--format");
    push_arg(&mut r, "{{range .OCIv1.Config.Env}}{{.}}\n{{end}}");
    push_arg(&mut r, image);
    proof {
        assert(texts(r@) =~= seq![
            "inspect"@,
            "--format"@,
            "{{range .OCIv1.Config.Env}}{{.}}\n{{end}}"@,
            image@,
        ]);
    }
    r
}

/// The command that succeeds where an image is there.
pub fn image_exists_command(image: &str) -> (r: Vec<String>)
    ensures
        texts(r@) == seq!["images"@, "--format"@, "{{.ID}}"@, image@],
{
    let mut r = command_of("images", "--format");
    push_arg(&mut r, "{{.ID}}");
    push_arg(&mut r, image);
    proof {
        assert(texts(r@) =~= seq!["images"@, "--format"@, "{{.ID}}"@, image@]);
    }
    r
}

/// The command that commits a container to an image of the given name.
pub fn commit_command(container: &str, name: &str) -> (r: Vec<String>)
    ensures
        texts(r@) == seq!["commit"@, container@, name@],
{
    let mut r = command_of("commit", container);
    push_arg(&mut r, name);
    proof {
        assert(texts(r@) =~= seq!["commit"@, container@, name@]);
    }
    r
}

/// The command that removes a container.
pub fn remove_container_command(container: &str) -> (r: Vec<String>)
    ensures
        texts(r@) == seq!["rm"@, container@],
{
    command_of("rm", container)
}

/// The command that removes a tag of an image, or an image by its ID.
pub fn remove_image_command(target: &str) -> (r: Vec<String>)
    ensures
        texts(r@) == seq!["rmi"@, target@],
{
    command_of("rmi", target)
}

/// The command that gives an image a tag.
pub fn tag_command(image: &str, tag: &str) -> (r: Vec<String>)
    ensures
        texts(r@) == seq!["tag"@, image@, tag@],
{
    let mut r = command_of("tag", image);
    push_arg(&mut r, tag);
    proof {
        assert(texts(r@) =~= seq!["tag"@, image@, tag@]);
    }
    r
}

/// The command that pushes an image to a registry under the given name.
pub fn push_image_command(image: &str, name: &str) -> (r: Vec<String>)
    ensures
        texts(r@) == seq!["push"@, image@, name@],
{
    let mut r = command_of("push", image);
    push_arg(&mut r, name);
    proof {
        assert(texts(r@) =~= seq!["push"@, image@, name@]);
    }
    r
}

} // verus!
