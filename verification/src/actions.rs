//! What a chunk asks to be done, what it is told in return, and the commands and lines that
//! its steps come to.
use vstd::prelude::*;

use crate::command_laws::{
    law_expose_command, law_label_command, law_run_command, lemma_sets_list, sets_list,
};
use crate::commands::{
    checkpoint_command, cmd_command, config_args, entrypoint_command, env_command, env_line,
    env_line_args, exec_form, execute_run, expose_command, from_args, from_command, is_command,
    label_args, label_command, list_args, run_args, stopsignal_command, user_command, volume_args,
    volume_command, volumes, with_stage, workdir_command, Command,
};
use crate::copy::{
    add_args, copy_args, execute_add, execute_copy, expanded_line, hash_sources, source_views,
    Source, SourceView,
};
use crate::errors::{BuildError, BuildFailure};
use crate::external::shell_words;
use crate::healthcheck::{health_args, healthcheck_command};
use crate::state::{op_name, operation_name, BuildState, Operation, OutOfBandWork, State};
use crate::steps::{brings_files, file_lists, step_views, Preprocessed, Step};
use crate::text::{append, opt_text, texts, to_chars, to_text, trim, words};

verus! {

// ---------------------------------------------------------------------------------------
// Actions and events
// ---------------------------------------------------------------------------------------
/// What becomes of an output of a command.
#[derive(Debug, Clone, Copy, PartialEq, Eq, Structural)]
pub enum Stream {
    /// It goes where the output of the build goes.
    Inherit,
    /// It is read.
    Capture,
    /// It is thrown away.
    Discard,
}

/// What is to be done next.
#[derive(Debug)]
pub enum Action {
    /// Print some lines. Event: `Done`.
    Announce { lines: Vec<String> },
    /// Run buildah. Event: `Output`.
    Command { args: Vec<String>, stdout: Stream, stderr: Stream },
    /// Note that a pulled image was used now. Event: `Done`.
    RecordRemote { image: String },
    /// Hash the files of each of some lists of sources. Event: `Digests`.
    HashSources { sources: Vec<Vec<Source>> },
    /// Ask the cache for the image of a hash, and note that it was used now. Event: `Row`.
    Lookup { hash: String },
    /// Hand over work to be done beside the build. Event: `Done`.
    Work { work: OutOfBandWork },
    /// Print a line and forget a hash in the cache. Event: `Done`.
    Forget { line: String, hash: String },
    /// Print a line, if any, and store the image of a hash in the cache. Event: `Done`.
    Store { line: Option<String>, hash: String, image: String },
    /// Nothing: the chunk is done.
    Finish,
}

/// What came of an action.
#[derive(Debug)]
pub enum Event {
    /// It was done.
    Done,
    /// A command ended, with success or not, and wrote this to its output.
    Output { success: bool, stdout: String },
    /// The digests of the files of each list of sources.
    Digests { files: Vec<Vec<[u8; 32]>> },
    /// The image that the cache holds for a hash, if any.
    Row { image: Option<String> },
}

/// Work to be done beside the build, with its texts as sequences of characters.
pub enum WorkView {
    LruMarkCache { hash: Seq<char> },
    PushCache { buildah_id: Seq<char>, hash: Seq<char> },
}

impl View for OutOfBandWork {
    type V = WorkView;

    open spec fn view(&self) -> WorkView {
        match self {
            OutOfBandWork::LruMarkCache { hash } => WorkView::LruMarkCache { hash: hash@ },
            OutOfBandWork::PushCache { buildah_id, hash } => WorkView::PushCache {
                buildah_id: buildah_id@,
                hash: hash@,
            },
        }
    }
}

/// Lists of sources as views.
pub open spec fn source_lists_view(v: Seq<Vec<Source>>) -> Seq<Seq<SourceView>> {
    v.map_values(|l: Vec<Source>| source_views(l@))
}

/// An `Action` with its texts as sequences of characters.
#[verifier::ext_equal]
pub enum ActionView {
    Announce { lines: Seq<Seq<char>> },
    Command { args: Seq<Seq<char>>, stdout: Stream, stderr: Stream },
    RecordRemote { image: Seq<char> },
    HashSources { sources: Seq<Seq<SourceView>> },
    Lookup { hash: Seq<char> },
    Work { work: WorkView },
    Forget { line: Seq<char>, hash: Seq<char> },
    Store { line: Option<Seq<char>>, hash: Seq<char>, image: Seq<char> },
    Finish,
}

impl View for Action {
    type V = ActionView;

    open spec fn view(&self) -> ActionView {
        match self {
            Action::Announce { lines } => ActionView::Announce { lines: texts(lines@) },
            Action::Command { args, stdout, stderr } => ActionView::Command {
                args: texts(args@),
                stdout: *stdout,
                stderr: *stderr,
            },
            Action::RecordRemote { image } => ActionView::RecordRemote { image: image@ },
            Action::HashSources { sources } => ActionView::HashSources {
                sources: source_lists_view(sources@),
            },
            Action::Lookup { hash } => ActionView::Lookup { hash: hash@ },
            Action::Work { work } => ActionView::Work { work: work@ },
            Action::Forget { line, hash } => ActionView::Forget { line: line@, hash: hash@ },
            Action::Store { line, hash, image } => ActionView::Store {
                line: opt_text(*line),
                hash: hash@,
                image: image@,
            },
            Action::Finish => ActionView::Finish,
        }
    }
}

/// An `Event` with its texts as sequences of characters.
pub enum EventView {
    Done,
    Output { success: bool, stdout: Seq<char> },
    Digests { files: Seq<Seq<Seq<u8>>> },
    Row { image: Option<Seq<char>> },
}

impl View for Event {
    type V = EventView;

    open spec fn view(&self) -> EventView {
        match self {
            Event::Done => EventView::Done,
            Event::Output { success, stdout } => EventView::Output {
                success: *success,
                stdout: stdout@,
            },
            Event::Digests { files } => EventView::Digests { files: file_lists(files@) },
            Event::Row { image } => EventView::Row { image: opt_text(*image) },
        }
    }
}

// ---------------------------------------------------------------------------------------
// Lines that are printed
// ---------------------------------------------------------------------------------------
/// A line that tells of an instruction, between a colour and its end.
pub open spec fn coloured(colour: Seq<char>, op: Operation, line: Seq<char>) -> Seq<char> {
    colour + op_name(op) + " "@ + line + "\x1b[0m"@
}

pub(crate) fn write_coloured(colour: &str, op: Operation, line: &str) -> (r: String)
    ensures
        r@ == coloured(colour@, op, line@),
{
    let mut c = to_chars(colour);
    append(&mut c, operation_name(op));
    append(&mut c, " ");
    append(&mut c, line);
    append(&mut c, "\x1b[0m");
    to_text(&c)
}

/// The line that is printed before a step is executed. The start of a stage is told of
/// before its image is known.
pub open spec fn said(step: Step) -> Option<Seq<char>> {
    match step.op {
        Operation::From => None,
        Operation::Checkpoint => Some("\x1b[34mCHECKPOINT\x1b[0m"@),
        _ => Some(coloured("\x1b[34m"@, step.op, step.line)),
    }
}

pub(crate) fn say_step(step: &Preprocessed) -> (r: Option<String>)
    ensures
        opt_text(r) == said(step@),
{
    match step.op {
        Operation::From => None,
        Operation::Checkpoint => Some(to_text(&to_chars("\x1b[34mCHECKPOINT\x1b[0m"))),
        _ => Some(write_coloured("\x1b[34m", step.op, step.line.as_str())),
    }
}

/// The lines that are printed for steps that are skipped.
pub open spec fn skipped_lines(steps: Seq<Step>) -> Seq<Seq<char>>
    decreases steps.len(),
{
    if steps.len() == 0 {
        seq![]
    } else if steps.last().op is From {
        skipped_lines(steps.drop_last())
    } else {
        skipped_lines(steps.drop_last()).push(
            coloured("\x1b[32m"@, steps.last().op, steps.last().line),
        )
    }
}

pub(crate) fn write_skipped(steps: &Vec<Preprocessed>, from: usize) -> (r: Vec<String>)
    requires
        from <= steps@.len(),
    ensures
        texts(r@) == skipped_lines(step_views(steps@).skip(from as int)),
{
    let ghost main = step_views(steps@).skip(from as int);
    let mut r: Vec<String> = Vec::new();
    let mut i: usize = from;
    proof {
        assert(main.take(0) =~= seq![]);
        assert(texts(r@) =~= seq![]);
    }
    while i < steps.len()
        invariant
            from <= i <= steps@.len(),
            main == step_views(steps@).skip(from as int),
            texts(r@) == skipped_lines(main.take(i - from)),
        decreases steps.len() - i,
    {
        proof {
            assert(main.take(i - from + 1).drop_last() =~= main.take(i - from));
            assert(main.take(i - from + 1).last() == steps@[i as int]@);
        }
        if steps[i].op != Operation::From {
            let ghost before = texts(r@);
            let line = write_coloured("\x1b[32m", steps[i].op, steps[i].line.as_str());
            let ghost lv = line@;
            r.push(line);
            proof {
                assert(texts(r@) =~= before.push(lv));
            }
        }
        i += 1;
    }
    proof {
        assert(main.take(i - from) =~= main);
    }
    r
}

/// The line that is printed where a cached image is gone.
pub open spec fn failure_line(image: Seq<char>) -> Seq<char> {
    "\x1b[31mCACHE FAILURE\x1b[0m Failed to check if image exists: "@ + image
}

/// The line that is printed where a registry holds a cached image.
pub open spec fn hit_line(name: Seq<char>) -> Seq<char> {
    "\x1b[32mCACHE HIT\x1b[0m "@ + name
}

pub(crate) fn prefixed(prefix: &str, text: &str) -> (r: String)
    ensures
        r@ == prefix@ + text@,
{
    let mut c = to_chars(prefix);
    append(&mut c, text);
    to_text(&c)
}

// ---------------------------------------------------------------------------------------
// Commands of steps
// ---------------------------------------------------------------------------------------
/// The command that a step comes to.
pub open spec fn step_args(step: Step, s: BuildState) -> Command {
    match step.op {
        Operation::From => Ok(from_args(step.line, s)),
        Operation::Checkpoint => Ok(seq!["from"@, s.last_id]),
        Operation::Env => env_line_args(step.line, s),
        Operation::Run => run_args(step.line, step.args, s),
        Operation::Workdir => config_args("--workingdir"@, step.line, step.op, s),
        Operation::Copy => copy_args(step.line, s),
        Operation::Add => add_args(step.line, s),
        Operation::Label => label_args(step.line, s),
        Operation::User => config_args("--user"@, trim(step.line), step.op, s),
        Operation::Entrypoint => config_args("--entrypoint"@, exec_form(step.line), step.op, s),
        Operation::Cmd => config_args("--cmd"@, exec_form(step.line), step.op, s),
        Operation::Expose => list_args("--port"@, words(step.line), step.op, s),
        Operation::Volume => volume_args(step.line, s),
        Operation::StopSignal => config_args("--stop-signal"@, trim(step.line), step.op, s),
        Operation::HealthCheck => health_args(step.line, s),
        Operation::Arg => Err(BuildFailure::MisplacedStart { op: step.op }),
    }
}

/// The state of a build behind the command of a step, before the command has run.
pub open spec fn step_state(step: Step, s: BuildState) -> BuildState {
    if step.op is Env {
        with_stage(s, env_line(s.stage, step.line))
    } else {
        s
    }
}

proof fn lemma_step_command(step: Step, s: BuildState, c: Seq<char>)
    requires
        s.container == Some(c),
    ensures
        step.op is Expose ==> (step_args(step, s) matches Ok(r) && sets_list(
            r,
            "--port"@,
            words(step.line),
            c,
        )),
        step.op is Label ==> match shell_words(step.line) {
            Some(ws) => step_args(step, s) matches Ok(r) && sets_list(r, "--label"@, ws, c),
            None => step_args(step, s) is Err,
        },
        step.op is Volume ==> match volumes(step.line) {
            Ok(ws) => step_args(step, s) matches Ok(r) && sets_list(r, "--volume"@, ws, c),
            Err(_) => step_args(step, s) is Err,
        },
        step.op is Env ==> match (shell_words(step.line), step_args(step, s)) {
            (Some(ws), Ok(r)) => sets_list(r, "--env"@, ws, c),
            (None, Ok(_)) => false,
            (_, Err(_)) => true,
        },
        step.op is Run ==> (step_args(step, s) matches Ok(r) && r[0] == "run"@ && r.skip(
            r.len() - 5,
        ) == seq![c, "--"@, "sh"@, "-c"@, step.line]),
        step.op is HealthCheck ==> (step_args(step, s) matches Ok(r) ==> r[0] == "config"@ && r[r.len()
            - 3] == "--healthcheck"@ && r.last() == c),
{
    match step.op {
        Operation::Expose => law_expose_command(step, s, c),
        Operation::Label => law_label_command(step, s, c),
        Operation::Volume => {
            if let Ok(ws) = volumes(step.line) {
                lemma_sets_list("--volume"@, ws, c);
            }
        },
        Operation::Env => {
            if let Some(ws) = shell_words(step.line) {
                lemma_sets_list("--env"@, ws, c);
            }
        },
        Operation::Run => {
            law_run_command(step, s, c);
            let r = step_args(step, s)->Ok_0;
            assert(r.skip(r.len() - 5) =~= seq![c, "--"@, "sh"@, "-c"@, step.line]);
        },
        _ => {},
    }
}

/// The command that a step comes to.
pub fn step_command(step: &Preprocessed, state: &mut State) -> (r: Result<Vec<String>, BuildError>)
    ensures
        is_command(r, step_args(step@, old(state)@)),
        final(state)@ == step_state(step@, old(state)@),
        final(state).ignore == old(state).ignore,
        old(state)@.container matches Some(c) ==> match step.op {
            Operation::Workdir => r matches Ok(v) && texts(v@) == seq![
                "config"@,
                "--workingdir"@,
                step.line@,
                c,
            ],
            Operation::User => r matches Ok(v) && texts(v@) == seq![
                "config"@,
                "--user"@,
                trim(step.line@),
                c,
            ],
            Operation::Entrypoint => r matches Ok(v) && texts(v@) == seq![
                "config"@,
                "--entrypoint"@,
                exec_form(step.line@),
                c,
            ],
            Operation::Cmd => r matches Ok(v) && texts(v@) == seq![
                "config"@,
                "--cmd"@,
                exec_form(step.line@),
                c,
            ],
            Operation::StopSignal => r matches Ok(v) && texts(v@) == seq![
                "config"@,
                "--stop-signal"@,
                trim(step.line@),
                c,
            ],
            Operation::Expose => r matches Ok(v) && sets_list(
                texts(v@),
                "--port"@,
                words(step.line@),
                c,
            ),
            Operation::Label => match shell_words(step.line@) {
                Some(ws) => r matches Ok(v) && sets_list(texts(v@), "--label"@, ws, c),
                None => r is Err,
            },
            Operation::Volume => match volumes(step.line@) {
                Ok(ws) => r matches Ok(v) && sets_list(texts(v@), "--volume"@, ws, c),
                Err(_) => r is Err,
            },
            Operation::Env => match (shell_words(step.line@), r) {
                (Some(ws), Ok(v)) => sets_list(texts(v@), "--env"@, ws, c),
                (None, Ok(_)) => false,
                (_, Err(_)) => true,
            },
            Operation::Run => r matches Ok(v) && texts(v@)[0] == "run"@ && texts(v@).skip(
                v@.len() - 5,
            ) == seq![c, "--"@, "sh"@, "-c"@, step.line@],
            Operation::Copy => r matches Ok(v) ==> texts(v@)[0] == "copy"@,
            Operation::Add => r matches Ok(v) ==> texts(v@)[0] == "add"@,
            Operation::HealthCheck => r matches Ok(v) ==> texts(v@)[0] == "config"@ && texts(
                v@,
            )[v@.len() - 3] == "--healthcheck"@ && texts(v@).last() == c,
            Operation::From | Operation::Checkpoint => r matches Ok(v) && texts(v@)[0] == "from"@,
            Operation::Arg => r is Err,
        },
{
    proof {
        if let Some(c) = state@.container {
            lemma_step_command(step@, state@, c);
        }
    }
    let line = step.line.as_str();
    match step.op {
        Operation::From => Ok(from_command(line, state)),
        Operation::Checkpoint => Ok(checkpoint_command(state)),
        Operation::Env => env_command(line, state),
        Operation::Run => execute_run(line, state, &step.args),
        Operation::Workdir => workdir_command(line, state),
        Operation::Copy => execute_copy(line, state),
        Operation::Add => execute_add(line, state),
        Operation::Label => label_command(line, state),
        Operation::User => user_command(line, state),
        Operation::Entrypoint => entrypoint_command(line, state),
        Operation::Cmd => cmd_command(line, state),
        Operation::Expose => expose_command(line, state),
        Operation::Volume => volume_command(line, state),
        Operation::StopSignal => stopsignal_command(line, state),
        Operation::HealthCheck => healthcheck_command(line, state),
        Operation::Arg => Err(BuildError::MisplacedStart { op: step.op }),
    }
}

/// Where the files of the steps are that bring some.
pub open spec fn source_lists(ctx: Seq<char>, steps: Seq<Step>) -> Result<
    Seq<Seq<SourceView>>,
    BuildFailure,
>
    decreases steps.len(),
{
    if steps.len() == 0 {
        Ok(seq![])
    } else {
        match source_lists(ctx, steps.drop_last()) {
            Err(e) => Err(e),
            Ok(lists) => if brings_files(steps.last().op) {
                match expanded_line(ctx, steps.last().line) {
                    Err(e) => Err(e),
                    Ok(list) => Ok(lists.push(list)),
                }
            } else {
                Ok(lists)
            },
        }
    }
}

proof fn lemma_sources_error(ctx: Seq<char>, steps: Seq<Step>, n: int)
    requires
        0 <= n <= steps.len(),
        source_lists(ctx, steps.take(n)) is Err,
    ensures
        source_lists(ctx, steps) == source_lists(ctx, steps.take(n)),
    decreases steps.len() - n,
{
    if n == steps.len() {
        assert(steps.take(n) =~= steps);
    } else {
        assert(steps.take(n + 1).drop_last() =~= steps.take(n));
        lemma_sources_error(ctx, steps, n + 1);
    }
}

pub(crate) fn list_sources(ctx: &str, steps: &Vec<Preprocessed>, from: usize) -> (r: Result<
    Vec<Vec<Source>>,
    BuildError,
>)
    requires
        from <= steps@.len(),
    ensures
        ({
            let want = source_lists(ctx@, step_views(steps@).skip(from as int));
            match r {
                Ok(v) => want == Ok::<Seq<Seq<SourceView>>, BuildFailure>(source_lists_view(v@)),
                Err(e) => want == Err::<Seq<Seq<SourceView>>, BuildFailure>(e@),
            }
        }),
{
    let ghost main = step_views(steps@).skip(from as int);
    let mut r: Vec<Vec<Source>> = Vec::new();
    let mut i: usize = from;
    proof {
        assert(main.take(0) =~= seq![]);
        assert(source_lists_view(r@) =~= seq![]);
    }
    while i < steps.len()
        invariant
            from <= i <= steps@.len(),
            main == step_views(steps@).skip(from as int),
            source_lists(ctx@, main.take(i - from)) == Ok::<Seq<Seq<SourceView>>, BuildFailure>(
                source_lists_view(r@),
            ),
        decreases steps.len() - i,
    {
        proof {
            assert(main.take(i - from + 1).drop_last() =~= main.take(i - from));
            assert(main.take(i - from + 1).last() == steps@[i as int]@);
        }
        if matches!(steps[i].op, Operation::Copy | Operation::Add) {
            match hash_sources(steps[i].line.as_str(), ctx) {
                Ok(list) => {
                    let ghost before = source_lists_view(r@);
                    let ghost lv = source_views(list@);
                    r.push(list);
                    proof {
                        assert(source_lists_view(r@) =~= before.push(lv));
                    }
                },
                Err(e) => {
                    proof {
                        lemma_sources_error(ctx@, main, i - from + 1);
                    }
                    return Err(e);
                },
            }
        }
        i += 1;
    }
    proof {
        assert(main.take(i - from) =~= main);
    }
    Ok(r)
}

} // verus!
