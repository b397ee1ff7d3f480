//! The execution of one chunk of a Dockerfile: a sequence of instructions that starts with
//! FROM or CHECKPOINT and ends before the next of them.
//!
//! A chunk is a state machine. Each turn takes the event that came of the last action and
//! gives the next action: a command to be run, a question to the cache, or a line to be
//! printed. The machine decides; whoever drives it does the work.
use vstd::prelude::*;
use vstd::utf8::encode_utf8;

use crate::actions::{
    coloured, failure_line, hit_line, list_sources, prefixed, said, say_step, skipped_lines,
    source_lists, step_args, step_command, step_state, write_coloured,
    write_skipped, Action, ActionView, Event, EventView, Stream, WorkView,
};
use crate::commands::{
    commit_command, fetch_command, from_parts, image_exists_command, inspect_env_command,
    remove_container_command, split_from, with_stage,
};
use crate::db::{cache_image_name, cache_name, remote_cache_name, remote_name};
use crate::errors::{BuildError, BuildFailure};
use crate::external::{blake3_digest, digest, feed, hashed, hex, lower_hex, new_hasher};
use crate::parse::{instructions, Instruction};
use crate::state::{BuildState, Operation, OutOfBandWork, State, VarMap, Vars};
use crate::steps::{
    brings_files, copies, count_copies, feed_tag, file_lists, hash_step, hash_steps, head_len,
    head_length, plain_step, preamble, prepare_all, prepared_all, step_record, step_views,
    steps_record, tag, take_preamble, with_global, Preprocessed, Step,
};
use crate::substitute::{expand, substitute};
use crate::text::{
    char_texts, cut, lines, opt_text, same_text, split_lines, split_once, texts, to_chars, to_text,
    trim, trimmed_text,
};
use crate::textmap::pair_texts;

verus! {

// ---------------------------------------------------------------------------------------
// States
// ---------------------------------------------------------------------------------------
/// What a chunk waits for.
#[derive(Debug)]
pub enum Phase {
    /// That the start of a stage has been told of.
    Opened,
    /// That the base image has been pulled.
    Pulled,
    /// That the use of the base image has been noted.
    Recorded { image: String },
    /// The environment of the base image.
    Inspected { image: String },
    /// That a step has been told of.
    Said { at: usize },
    /// That the command of a step has run.
    Ran { at: usize },
    /// The digests of the files of the main part.
    Sourced,
    /// What the cache holds.
    LookedUp,
    /// That a cached image has been marked as used in the registry.
    Marked { image: String },
    /// Whether a cached image is there.
    Checked { image: String },
    /// That the cache has forgotten the hash.
    Forgot,
    /// Whether the registry holds the image.
    Fetched,
    /// That the cache has stored the image of the registry.
    Stored { image: String },
    /// That the container has been removed, as the main part is skipped.
    Cleared { image: String },
    /// That the steps of the main part have been told of as skipped.
    Replayed { image: String },
    /// That the container has been committed.
    Committed,
    /// That the image has been handed over to be pushed.
    Pushed { image: String },
    /// That the cache has stored the image.
    Saved { image: String },
    /// That the container has been removed.
    Removed,
    /// Nothing.
    Finished,
}

/// A `Phase` with its texts as sequences of characters.
pub enum PhaseView {
    Opened,
    Pulled,
    Recorded { image: Seq<char> },
    Inspected { image: Seq<char> },
    Said { at: int },
    Ran { at: int },
    Sourced,
    LookedUp,
    Marked { image: Seq<char> },
    Checked { image: Seq<char> },
    Forgot,
    Fetched,
    Stored { image: Seq<char> },
    Cleared { image: Seq<char> },
    Replayed { image: Seq<char> },
    Committed,
    Pushed { image: Seq<char> },
    Saved { image: Seq<char> },
    Removed,
    Finished,
}

impl View for Phase {
    type V = PhaseView;

    open spec fn view(&self) -> PhaseView {
        match self {
            Phase::Opened => PhaseView::Opened,
            Phase::Pulled => PhaseView::Pulled,
            Phase::Recorded { image } => PhaseView::Recorded { image: image@ },
            Phase::Inspected { image } => PhaseView::Inspected { image: image@ },
            Phase::Said { at } => PhaseView::Said { at: *at as int },
            Phase::Ran { at } => PhaseView::Ran { at: *at as int },
            Phase::Sourced => PhaseView::Sourced,
            Phase::LookedUp => PhaseView::LookedUp,
            Phase::Marked { image } => PhaseView::Marked { image: image@ },
            Phase::Checked { image } => PhaseView::Checked { image: image@ },
            Phase::Forgot => PhaseView::Forgot,
            Phase::Fetched => PhaseView::Fetched,
            Phase::Stored { image } => PhaseView::Stored { image: image@ },
            Phase::Cleared { image } => PhaseView::Cleared { image: image@ },
            Phase::Replayed { image } => PhaseView::Replayed { image: image@ },
            Phase::Committed => PhaseView::Committed,
            Phase::Pushed { image } => PhaseView::Pushed { image: image@ },
            Phase::Saved { image } => PhaseView::Saved { image: image@ },
            Phase::Removed => PhaseView::Removed,
            Phase::Finished => PhaseView::Finished,
        }
    }
}

/// A chunk under execution.
#[verifier::ext_equal]
pub struct ChunkView {
    /// What the chunk waits for.
    pub phase: PhaseView,
    /// The instructions that are not prepared yet.
    pub rest: Seq<Instruction>,
    /// The steps of the chunk, of which the first is its start.
    pub steps: Seq<Step>,
    /// How many steps are executed before the chunk can be hashed.
    pub head: int,
    /// Everything that has been hashed.
    pub hashed: Seq<u8>,
    /// The hash of the chunk, once it is known.
    pub hash: Seq<char>,
}

/// One turn of a chunk: the chunk and the build behind it, and what is to be done next.
#[verifier::ext_equal]
pub struct Turn {
    pub chunk: ChunkView,
    pub state: BuildState,
    pub action: Result<ActionView, BuildFailure>,
}

/// The turn that waits for something.
pub open spec fn go(c: ChunkView, s: BuildState, phase: PhaseView, action: ActionView) -> Turn {
    Turn { chunk: ChunkView { phase, ..c }, state: s, action: Ok(action) }
}

/// The turn in which a chunk fails, which is its last.
pub open spec fn fail(c: ChunkView, s: BuildState, e: BuildFailure) -> Turn {
    Turn { chunk: ChunkView { phase: PhaseView::Finished, ..c }, state: s, action: Err(e) }
}

/// The turn in which a chunk is done.
pub open spec fn finish(c: ChunkView, s: BuildState) -> Turn {
    go(c, s, PhaseView::Finished, ActionView::Finish)
}

/// A command whose output goes where the output of the build goes.
pub open spec fn shown_command(args: Seq<Seq<char>>) -> ActionView {
    ActionView::Command { args, stdout: Stream::Inherit, stderr: Stream::Inherit }
}

/// A command whose output is read.
pub open spec fn read_command(args: Seq<Seq<char>>) -> ActionView {
    ActionView::Command { args, stdout: Stream::Capture, stderr: Stream::Inherit }
}

// ---------------------------------------------------------------------------------------
// Turns
// ---------------------------------------------------------------------------------------
/// Whether the output of a step is read: it names the container, or stands for the files
/// that were brought into the image.
pub open spec fn is_read(op: Operation) -> bool {
    op.starts_chunk() || brings_files(op)
}

/// Executes a step.
pub open spec fn perform(c: ChunkView, s: BuildState, at: int) -> Turn {
    let step = c.steps[at];
    let after = step_state(step, s);
    match step_args(step, s) {
        Err(e) => fail(c, after, e),
        Ok(args) => go(
            c,
            after,
            PhaseView::Ran { at },
            if is_read(step.op) {
                read_command(args)
            } else {
                shown_command(args)
            },
        ),
    }
}

/// Tells of a step, and executes it.
pub open spec fn reach(c: ChunkView, s: BuildState, at: int) -> Turn {
    match said(c.steps[at]) {
        Some(line) => go(c, s, PhaseView::Said { at }, ActionView::Announce { lines: seq![line] }),
        None => perform(c, s, at),
    }
}

/// Asks for the digests of the files of the main part.
pub open spec fn ask_sources(c: ChunkView, s: BuildState) -> Turn {
    match source_lists(s.context_dir, c.steps.skip(c.head)) {
        Err(e) => fail(c, s, e),
        Ok(sources) => go(c, s, PhaseView::Sourced, ActionView::HashSources { sources }),
    }
}

/// Goes on with a step of the head, or with the hash where the head is done.
pub open spec fn reach_head(c: ChunkView, s: BuildState, at: int) -> Turn {
    if at < c.head {
        reach(c, s, at)
    } else {
        ask_sources(c, s)
    }
}

/// Commits the container.
pub open spec fn commit(c: ChunkView, s: BuildState) -> Turn {
    match s.container {
        None => fail(c, s, BuildFailure::NoContainer { op: Operation::From }),
        Some(container) => go(
            c,
            s,
            PhaseView::Committed,
            read_command(seq!["commit"@, container, cache_name(c.hash)]),
        ),
    }
}

/// Goes on with a step of the main part, or with the commit where it is done.
pub open spec fn reach_main(c: ChunkView, s: BuildState, at: int) -> Turn {
    if at < c.steps.len() {
        reach(c, s, at)
    } else {
        commit(c, s)
    }
}

/// Prepares the instructions of a chunk whose base image is in the hash, and starts with the
/// head.
pub open spec fn begin(c: ChunkView, s: BuildState) -> Turn {
    let (stage, r) = prepared_all(c.rest, s.stage, s.global);
    let after = with_stage(s, stage);
    match r {
        Err(e) => fail(c, after, e),
        Ok(more) => {
            let steps = c.steps + more;
            reach_head(ChunkView { steps, head: head_len(steps), ..c }, after, 0)
        },
    }
}

/// The state of a build in which a stage has ended: its variables are gone, and if it has a
/// name, it can be referred to by it.
pub open spec fn stage_ended(s: BuildState) -> BuildState {
    match s.cur_as {
        Some(name) => BuildState {
            cur_as: None,
            as_images: s.as_images.insert(name, s.last_id),
            last_id: seq![],
            stage: Vars::none(),
            ..s
        },
        None => BuildState { stage: Vars::none(), ..s },
    }
}

/// A chunk of which nothing is known but its instructions.
pub open spec fn fresh(rest: Seq<Instruction>) -> ChunkView {
    ChunkView {
        phase: PhaseView::Finished,
        rest,
        steps: seq![],
        head: 0,
        hashed: seq![],
        hash: seq![],
    }
}

/// The first turn of a chunk. A chunk that starts neither with FROM nor with CHECKPOINT is
/// what stands before the first FROM. What a CHECKPOINT chunk is based on is the image of the
/// chunk before it.
pub open spec fn started(ops: Seq<Instruction>, s: BuildState) -> Turn {
    if ops.len() > 0 && ops[0].0 is From {
        let c = fresh(ops.drop_first());
        let ended = stage_ended(s);
        match expand(ops[0].1, ended.global) {
            Err(inner) => fail(c, ended, BuildFailure::MissingBrace { inner }),
            Ok(line) => go(
                ChunkView { steps: seq![plain_step(Operation::From, line)], ..c },
                BuildState { cur_as: from_parts(line).1, ..ended },
                PhaseView::Opened,
                ActionView::Announce { lines: seq![coloured("\x1b[34m"@, Operation::From, line)] },
            ),
        }
    } else if ops.len() > 0 && ops[0].0 is Checkpoint {
        begin(
            ChunkView {
                steps: seq![plain_step(Operation::Checkpoint, ops[0].1)],
                hashed: tag(Operation::From) + encode_utf8(s.last_id),
                ..fresh(ops.drop_first())
            },
            s,
        )
    } else {
        let (global, failure) = preamble(ops, s.global);
        match failure {
            Some(e) => fail(fresh(seq![]), with_global(s, global), e),
            None => finish(fresh(seq![]), with_global(s, global)),
        }
    }
}

/// Asks for the environment of the base image.
pub open spec fn inspect(c: ChunkView, s: BuildState, image: Seq<char>) -> Turn {
    go(
        c,
        s,
        PhaseView::Inspected { image },
        read_command(
            seq!["inspect"@, "--format"@, "{{range .OCIv1.Config.Env}}{{.}}\n{{end}}"@, image],
        ),
    )
}

/// The turn behind the start of a stage has been told of. The image may be empty, that of
/// another stage, or one that is to be pulled.
pub open spec fn opened(c: ChunkView, s: BuildState) -> Turn {
    let from = from_parts(c.steps[0].line).0;
    if from == "scratch"@ {
        begin(
            ChunkView {
                hashed: c.hashed + tag(Operation::From) + encode_utf8("scratch"@) + seq![0u8],
                ..c
            },
            s,
        )
    } else if s.as_images.dom().contains(from) {
        inspect(c, s, s.as_images[from])
    } else {
        go(c, s, PhaseView::Pulled, read_command(seq!["pull"@, from]))
    }
}

/// Variables with each line KEY=VALUE of a list of environment variables set. Other lines
/// are passed over.
pub open spec fn env_listed(vars: Vars, ls: Seq<Seq<char>>) -> Vars
    decreases ls.len(),
{
    if ls.len() == 0 {
        vars
    } else {
        env_listed(
            match split_once(ls[0], "="@) {
                Some((k, v)) => vars.with_env(k, v),
                None => vars,
            },
            ls.drop_first(),
        )
    }
}

/// The turn behind the environment of the base image is known.
pub open spec fn inspected(c: ChunkView, s: BuildState, image: Seq<char>, stdout: Seq<char>) -> Turn {
    begin(
        ChunkView { hashed: c.hashed + tag(Operation::From) + encode_utf8(image), ..c },
        with_stage(s, env_listed(s.stage, lines(stdout))),
    )
}

/// The turn behind the command of a step has run.
pub open spec fn ran(c: ChunkView, s: BuildState, at: int, stdout: Seq<char>) -> Turn {
    let step = c.steps[at];
    let after = if step.op.starts_chunk() {
        BuildState { container: Some(trim(stdout)), ..s }
    } else {
        s
    };
    if at < c.head {
        reach_head(
            ChunkView {
                hashed: c.hashed + step_record(step, encode_utf8(trim(stdout))),
                ..c
            },
            after,
            at + 1,
        )
    } else {
        reach_main(c, after, at + 1)
    }
}

/// The turn behind the files of the main part are hashed: the hash of the chunk is known.
/// Without a cache the main part is executed at once.
pub open spec fn digested(c: ChunkView, s: BuildState, files: Seq<Seq<Seq<u8>>>) -> Turn {
    let main = c.steps.skip(c.head);
    if files.len() != copies(main) {
        fail(c, s, BuildFailure::UnexpectedEvent)
    } else {
        let all = c.hashed + steps_record(main, files);
        let hash = lower_hex(blake3_digest(all));
        let known = ChunkView { hashed: all, hash, ..c };
        if s.no_cache {
            reach_main(known, s, c.head)
        } else {
            go(known, s, PhaseView::LookedUp, ActionView::Lookup { hash })
        }
    }
}

/// Asks the registry for the image, where there is one to ask.
pub open spec fn fetch(c: ChunkView, s: BuildState) -> Turn {
    match s.cache_from {
        None => reach_main(c, s, c.head),
        Some(repository) => go(
            c,
            s,
            PhaseView::Fetched,
            ActionView::Command {
                args: seq!["pull"@, remote_name(repository, c.hash)],
                stdout: Stream::Capture,
                stderr: Stream::Discard,
            },
        ),
    }
}

/// Asks whether a cached image is there.
pub open spec fn check(c: ChunkView, s: BuildState, image: Seq<char>) -> Turn {
    go(
        c,
        s,
        PhaseView::Checked { image },
        ActionView::Command {
            args: seq!["images"@, "--format"@, "{{.ID}}"@, image],
            stdout: Stream::Discard,
            stderr: Stream::Inherit,
        },
    )
}

/// The turn behind the cache has answered. An image that the cache holds is marked as used in
/// the registry too.
pub open spec fn looked_up(c: ChunkView, s: BuildState, image: Option<Seq<char>>) -> Turn {
    match image {
        None => fetch(c, s),
        Some(i) => if s.cache_from is Some {
            go(
                c,
                s,
                PhaseView::Marked { image: i },
                ActionView::Work { work: WorkView::LruMarkCache { hash: c.hash } },
            )
        } else {
            check(c, s, i)
        },
    }
}

/// Tells of the steps of the main part as skipped.
pub open spec fn replay(c: ChunkView, s: BuildState, image: Seq<char>) -> Turn {
    go(
        c,
        s,
        PhaseView::Replayed { image },
        ActionView::Announce { lines: skipped_lines(c.steps.skip(c.head)) },
    )
}

/// Skips the main part, as its image is known. A container that the head has made is removed
/// first.
pub open spec fn hit(c: ChunkView, s: BuildState, image: Seq<char>) -> Turn {
    match s.container {
        Some(container) => go(
            c,
            s,
            PhaseView::Cleared { image },
            ActionView::Command {
                args: seq!["rm"@, container],
                stdout: Stream::Discard,
                stderr: Stream::Inherit,
            },
        ),
        None => replay(c, s, image),
    }
}

/// The turn behind it is known whether a cached image is there. The hash of one that is gone
/// is forgotten.
pub open spec fn checked(c: ChunkView, s: BuildState, image: Seq<char>, there: bool) -> Turn {
    if there {
        hit(c, s, image)
    } else {
        go(
            c,
            s,
            PhaseView::Forgot,
            ActionView::Forget { line: failure_line(image), hash: c.hash },
        )
    }
}

/// The turn behind the registry has answered.
pub open spec fn fetched(c: ChunkView, s: BuildState, found: bool, stdout: Seq<char>) -> Turn {
    if found && s.cache_from is Some {
        go(
            c,
            s,
            PhaseView::Stored { image: trim(stdout) },
            ActionView::Store {
                line: Some(hit_line(remote_name(s.cache_from->0, c.hash))),
                hash: c.hash,
                image: trim(stdout),
            },
        )
    } else {
        reach_main(c, s, c.head)
    }
}

/// Stores the image of the chunk in the cache.
pub open spec fn save(c: ChunkView, s: BuildState, image: Seq<char>) -> Turn {
    go(
        c,
        s,
        PhaseView::Saved { image },
        ActionView::Store { line: None, hash: c.hash, image },
    )
}

/// The turn behind the container has been committed.
pub open spec fn committed(c: ChunkView, s: BuildState, stdout: Seq<char>) -> Turn {
    let image = trim(stdout);
    if s.cache_to {
        go(
            c,
            s,
            PhaseView::Pushed { image },
            ActionView::Work { work: WorkView::PushCache { buildah_id: image, hash: c.hash } },
        )
    } else {
        save(c, s, image)
    }
}

/// The turn behind the image of the chunk has been stored.
pub open spec fn saved(c: ChunkView, s: BuildState, image: Seq<char>) -> Turn {
    let after = BuildState { last_id: image, ..s };
    match s.container {
        None => fail(c, after, BuildFailure::NoContainer { op: Operation::From }),
        Some(container) => go(
            c,
            after,
            PhaseView::Removed,
            shown_command(seq!["rm"@, container]),
        ),
    }
}

/// The turn behind the end of a command, in each phase that waits for one.
pub open spec fn command_ended(c: ChunkView, s: BuildState, success: bool, stdout: Seq<char>) -> Turn {
    match c.phase {
        PhaseView::Checked { image } => checked(c, s, image, success),
        PhaseView::Fetched => fetched(c, s, success, stdout),
        PhaseView::Pulled | PhaseView::Inspected { .. } | PhaseView::Ran { .. }
        | PhaseView::Cleared { .. } | PhaseView::Committed | PhaseView::Removed => if !success {
            fail(c, s, BuildFailure::CommandFailed)
        } else {
            match c.phase {
                PhaseView::Pulled => go(
                    c,
                    s,
                    PhaseView::Recorded { image: trim(stdout) },
                    ActionView::RecordRemote { image: trim(stdout) },
                ),
                PhaseView::Inspected { image } => inspected(c, s, image, stdout),
                PhaseView::Ran { at } => ran(c, s, at, stdout),
                PhaseView::Cleared { image } => replay(
                    c,
                    BuildState { container: None, ..s },
                    image,
                ),
                PhaseView::Committed => committed(c, s, stdout),
                _ => finish(c, BuildState { container: None, ..s }),
            }
        },
        _ => fail(c, s, BuildFailure::UnexpectedEvent),
    }
}

/// The turn behind something has been done, in each phase that waits for that.
pub open spec fn done(c: ChunkView, s: BuildState) -> Turn {
    match c.phase {
        PhaseView::Opened => opened(c, s),
        PhaseView::Recorded { image } => inspect(c, s, image),
        PhaseView::Said { at } => perform(c, s, at),
        PhaseView::Marked { image } => check(c, s, image),
        PhaseView::Forgot => fetch(c, s),
        PhaseView::Stored { image } => hit(c, s, image),
        PhaseView::Replayed { image } => finish(c, BuildState { last_id: image, ..s }),
        PhaseView::Pushed { image } => save(c, s, image),
        PhaseView::Saved { image } => saved(c, s, image),
        _ => fail(c, s, BuildFailure::UnexpectedEvent),
    }
}

/// The turn behind an event.
pub open spec fn turn(c: ChunkView, s: BuildState, e: EventView) -> Turn {
    match e {
        EventView::Done => done(c, s),
        EventView::Output { success, stdout } => command_ended(c, s, success, stdout),
        EventView::Digests { files } => if c.phase is Sourced {
            digested(c, s, files)
        } else {
            fail(c, s, BuildFailure::UnexpectedEvent)
        },
        EventView::Row { image } => if c.phase is LookedUp {
            looked_up(c, s, image)
        } else {
            fail(c, s, BuildFailure::UnexpectedEvent)
        },
    }
}

// ---------------------------------------------------------------------------------------
// The machine
// ---------------------------------------------------------------------------------------
/// A chunk under execution.
#[derive(Debug)]
pub struct Chunk {
    phase: Phase,
    rest: Vec<(Operation, String)>,
    steps: Vec<Preprocessed>,
    head: usize,
    hasher: blake3::Hasher,
    hash: String,
}

impl View for Chunk {
    type V = ChunkView;

    closed spec fn view(&self) -> ChunkView {
        ChunkView {
            phase: self.phase@,
            rest: instructions(self.rest@),
            steps: step_views(self.steps@),
            head: self.head as int,
            hashed: hashed(self.hasher),
            hash: self.hash@,
        }
    }
}

/// Whether a chunk, a build and a result are those of a given turn.
pub open spec fn is_turn(c: Chunk, s: State, r: Result<Action, BuildError>, want: Turn) -> bool {
    &&& c@ == want.chunk
    &&& s@ == want.state
    &&& match r {
        Ok(a) => want.action == Ok::<ActionView, BuildFailure>(a@),
        Err(e) => want.action == Err::<ActionView, BuildFailure>(e@),
    }
}

fn one_line(line: String) -> (r: Action)
    ensures
        r@ == (ActionView::Announce { lines: seq![line@] }),
{
    let mut lines: Vec<String> = Vec::new();
    let ghost lv = line@;
    lines.push(line);
    proof {
        assert(texts(lines@) =~= seq![lv]);
    }
    Action::Announce { lines }
}

impl Chunk {
    /// The chunk is one that `start` and `next` can have left behind.
    pub closed spec fn wf(self) -> bool {
        &&& self.head <= self.steps@.len()
        &&& self.phase matches Phase::Said { at } ==> at < self.steps@.len()
        &&& self.phase matches Phase::Ran { at } ==> at < self.steps@.len()
        &&& self.phase is Opened ==> self.steps@.len() > 0
    }

    fn fail(&mut self, e: BuildError) -> (r: Result<Action, BuildError>)
        requires
            old(self).wf(),
        ensures
            final(self).wf(),
            final(self)@ == (ChunkView { phase: PhaseView::Finished, ..old(self)@ }),
            r matches Err(f) && f@ == e@,
    {
        self.phase = Phase::Finished;
        Err(e)
    }

    fn go(&mut self, phase: Phase, action: Action) -> (r: Result<Action, BuildError>)
        requires
            old(self).wf(),
            phase matches Phase::Said { at } ==> at < old(self)@.steps.len(),
            phase matches Phase::Ran { at } ==> at < old(self)@.steps.len(),
            !(phase is Opened),
        ensures
            final(self).wf(),
            final(self)@ == (ChunkView { phase: phase@, ..old(self)@ }),
            r matches Ok(a) && a@ == action@,
    {
        self.phase = phase;
        Ok(action)
    }

    fn perform(&mut self, state: &mut State, at: usize) -> (r: Result<Action, BuildError>)
        requires
            old(self).wf(),
            at < old(self)@.steps.len(),
        ensures
            is_turn(*final(self), *final(state), r, perform(old(self)@, old(state)@, at as int)),
            final(self).wf(),
            final(state).ignore == old(state).ignore,
    {
        proof {
            assert(self@.steps[at as int] == self.steps@[at as int]@);
        }
        let op = self.steps[at].op;
        match step_command(&self.steps[at], state) {
            Err(e) => self.fail(e),
            Ok(args) => {
                let stdout = match op {
                    Operation::From
                    | Operation::Checkpoint
                    | Operation::Copy
                    | Operation::Add => Stream::Capture,
                    _ => Stream::Inherit,
                };
                self.go(Phase::Ran { at }, Action::Command { args, stdout, stderr: Stream::Inherit })
            },
        }
    }

    fn reach(&mut self, state: &mut State, at: usize) -> (r: Result<Action, BuildError>)
        requires
            old(self).wf(),
            at < old(self)@.steps.len(),
        ensures
            is_turn(*final(self), *final(state), r, reach(old(self)@, old(state)@, at as int)),
            final(self).wf(),
            final(state).ignore == old(state).ignore,
    {
        proof {
            assert(self@.steps[at as int] == self.steps@[at as int]@);
        }
        match say_step(&self.steps[at]) {
            Some(line) => self.go(Phase::Said { at }, one_line(line)),
            None => self.perform(state, at),
        }
    }

    fn reach_head(&mut self, state: &mut State, at: usize) -> (r: Result<Action, BuildError>)
        requires
            old(self).wf(),
        ensures
            is_turn(*final(self), *final(state), r, reach_head(old(self)@, old(state)@, at as int)),
            final(self).wf(),
            final(state).ignore == old(state).ignore,
    {
        if at < self.head {
            return self.reach(state, at);
        }
        match list_sources(state.context_dir.as_str(), &self.steps, self.head) {
            Err(e) => self.fail(e),
            Ok(sources) => self.go(Phase::Sourced, Action::HashSources { sources }),
        }
    }

    fn reach_main(&mut self, state: &mut State, at: usize) -> (r: Result<Action, BuildError>)
        requires
            old(self).wf(),
        ensures
            is_turn(*final(self), *final(state), r, reach_main(old(self)@, old(state)@, at as int)),
            final(self).wf(),
            final(state).ignore == old(state).ignore,
    {
        if at < self.steps.len() {
            return self.reach(state, at);
        }
        match &state.container {
            None => self.fail(BuildError::NoContainer { op: Operation::From }),
            Some(container) => {
                let name = cache_image_name(self.hash.as_str());
                let args = commit_command(container.as_str(), name.as_str());
                self.go(
                    Phase::Committed,
                    Action::Command { args, stdout: Stream::Capture, stderr: Stream::Inherit },
                )
            },
        }
    }

    fn begin(&mut self, state: &mut State) -> (r: Result<Action, BuildError>)
        requires
            old(self).wf(),
        ensures
            is_turn(*final(self), *final(state), r, begin(old(self)@, old(state)@)),
            final(self).wf(),
            final(state).ignore == old(state).ignore,
    {
        let ghost before = self@.steps;
        match prepare_all(&self.rest, state) {
            Err(e) => self.fail(e),
            Ok(mut more) => {
                let ghost added = step_views(more@);
                self.steps.append(&mut more);
                proof {
                    assert(step_views(self.steps@) =~= before + added);
                }
                self.head = head_length(&self.steps);
                self.reach_head(state, 0)
            },
        }
    }

    fn inspect(&mut self, state: &mut State, image: String) -> (r: Result<Action, BuildError>)
        requires
            old(self).wf(),
        ensures
            is_turn(*final(self), *final(state), r, inspect(old(self)@, old(state)@, image@)),
            final(self).wf(),
            final(state).ignore == old(state).ignore,
    {
        let args = inspect_env_command(image.as_str());
        self.go(
            Phase::Inspected { image },
            Action::Command { args, stdout: Stream::Capture, stderr: Stream::Inherit },
        )
    }

    fn opened(&mut self, state: &mut State) -> (r: Result<Action, BuildError>)
        requires
            old(self).wf(),
            old(self)@.phase is Opened,
        ensures
            is_turn(*final(self), *final(state), r, opened(old(self)@, old(state)@)),
            final(self).wf(),
            final(state).ignore == old(state).ignore,
    {
        proof {
            assert(self@.steps[0] == self.steps@[0]@);
        }
        let (from, _name) = split_from(self.steps[0].line.as_str());
        if same_text(from.as_str(), "scratch") {
            let ghost start = hashed(self.hasher);
            feed_tag(&mut self.hasher, Operation::From);
            feed(&mut self.hasher, "scratch".as_bytes());
            feed(&mut self.hasher, &[0u8]);
            proof {
                assert(hashed(self.hasher) =~= start + tag(Operation::From) + encode_utf8(
                    "scratch"@,
                ) + seq![0u8]);
            }
            return self.begin(state);
        }
        if let Some(image) = state.as_images.get(from.as_str()) {
            let image = image.clone();
            return self.inspect(state, image);
        }
        let args = fetch_command(from.as_str());
        self.go(
            Phase::Pulled,
            Action::Command { args, stdout: Stream::Capture, stderr: Stream::Inherit },
        )
    }

    fn inspected(&mut self, state: &mut State, image: String, stdout: &str) -> (r: Result<
        Action,
        BuildError,
    >)
        requires
            old(self).wf(),
        ensures
            is_turn(
                *final(self),
                *final(state),
                r,
                inspected(old(self)@, old(state)@, image@, stdout@),
            ),
            final(self).wf(),
            final(state).ignore == old(state).ignore,
    {
        take_listed_env(stdout, state);
        feed_tag(&mut self.hasher, Operation::From);
        feed(&mut self.hasher, image.as_str().as_bytes());
        self.begin(state)
    }

    fn ran(&mut self, state: &mut State, at: usize, stdout: &str) -> (r: Result<Action, BuildError>)
        requires
            old(self).wf(),
            at < old(self)@.steps.len(),
        ensures
            is_turn(*final(self), *final(state), r, ran(old(self)@, old(state)@, at as int, stdout@)),
            final(self).wf(),
            final(state).ignore == old(state).ignore,
    {
        let n: usize = self.steps.len();
        let output = trimmed_text(stdout);
        proof {
            assert(self@.steps[at as int] == self.steps@[at as int]@);
        }
        if at < self.head {
            hash_step(&self.steps[at], output.as_str().as_bytes(), &mut self.hasher);
        }
        if matches!(self.steps[at].op, Operation::From | Operation::Checkpoint) {
            state.container = Some(output);
        }
        if at < self.head {
            self.reach_head(state, at + 1)
        } else {
            self.reach_main(state, at + 1)
        }
    }

    fn digested(&mut self, state: &mut State, files: &Vec<Vec<[u8; 32]>>) -> (r: Result<
        Action,
        BuildError,
    >)
        requires
            old(self).wf(),
        ensures
            is_turn(
                *final(self),
                *final(state),
                r,
                digested(old(self)@, old(state)@, file_lists(files@)),
            ),
            final(self).wf(),
            final(state).ignore == old(state).ignore,
    {
        if files.len() != count_copies(&self.steps, self.head) {
            return self.fail(BuildError::UnexpectedEvent);
        }
        hash_steps(&self.steps, self.head, files, &mut self.hasher);
        self.hash = hex(&digest(&self.hasher));
        if state.no_cache {
            let head: usize = self.head;
            return self.reach_main(state, head);
        }
        let hash = self.hash.clone();
        self.go(Phase::LookedUp, Action::Lookup { hash })
    }

    fn fetch(&mut self, state: &mut State) -> (r: Result<Action, BuildError>)
        requires
            old(self).wf(),
        ensures
            is_turn(*final(self), *final(state), r, fetch(old(self)@, old(state)@)),
            final(self).wf(),
            final(state).ignore == old(state).ignore,
    {
        let args = match &state.cache_from {
            None => {
                let head: usize = self.head;
                return self.reach_main(state, head);
            },
            Some(repository) => {
                let name = remote_cache_name(repository.as_str(), self.hash.as_str());
                fetch_command(name.as_str())
            },
        };
        self.go(
            Phase::Fetched,
            Action::Command { args, stdout: Stream::Capture, stderr: Stream::Discard },
        )
    }

    fn check(&mut self, state: &State, image: String) -> (r: Result<Action, BuildError>)
        requires
            old(self).wf(),
        ensures
            is_turn(*final(self), *state, r, check(old(self)@, state@, image@)),
            final(self).wf(),
    {
        let args = image_exists_command(image.as_str());
        self.go(
            Phase::Checked { image },
            Action::Command { args, stdout: Stream::Discard, stderr: Stream::Inherit },
        )
    }

    fn looked_up(&mut self, state: &mut State, image: Option<String>) -> (r: Result<
        Action,
        BuildError,
    >)
        requires
            old(self).wf(),
        ensures
            is_turn(
                *final(self),
                *final(state),
                r,
                looked_up(old(self)@, old(state)@, opt_text(image)),
            ),
            final(self).wf(),
            final(state).ignore == old(state).ignore,
    {
        match image {
            None => self.fetch(state),
            Some(image) => {
                if state.cache_from.is_some() {
                    let hash = self.hash.clone();
                    self.go(
                        Phase::Marked { image },
                        Action::Work { work: OutOfBandWork::LruMarkCache { hash } },
                    )
                } else {
                    self.check(state, image)
                }
            },
        }
    }

    fn replay(&mut self, state: &State, image: String) -> (r: Result<Action, BuildError>)
        requires
            old(self).wf(),
        ensures
            is_turn(*final(self), *state, r, replay(old(self)@, state@, image@)),
            final(self).wf(),
    {
        let lines = write_skipped(&self.steps, self.head);
        self.go(Phase::Replayed { image }, Action::Announce { lines })
    }

    fn hit(&mut self, state: &mut State, image: String) -> (r: Result<Action, BuildError>)
        requires
            old(self).wf(),
        ensures
            is_turn(*final(self), *final(state), r, hit(old(self)@, old(state)@, image@)),
            final(self).wf(),
            final(state).ignore == old(state).ignore,
    {
        match &state.container {
            Some(container) => {
                let args = remove_container_command(container.as_str());
                self.go(
                    Phase::Cleared { image },
                    Action::Command { args, stdout: Stream::Discard, stderr: Stream::Inherit },
                )
            },
            None => self.replay(state, image),
        }
    }

    fn fetched(&mut self, state: &mut State, found: bool, stdout: &str) -> (r: Result<
        Action,
        BuildError,
    >)
        requires
            old(self).wf(),
        ensures
            is_turn(
                *final(self),
                *final(state),
                r,
                fetched(old(self)@, old(state)@, found, stdout@),
            ),
            final(self).wf(),
            final(state).ignore == old(state).ignore,
    {
        if found {
            if let Some(repository) = &state.cache_from {
                let name = remote_cache_name(repository.as_str(), self.hash.as_str());
                let line = Some(prefixed("\x1b[32mCACHE HIT\x1b[0m ", name.as_str()));
                let hash = self.hash.clone();
                let action = Action::Store { line, hash, image: trimmed_text(stdout) };
                return self.go(Phase::Stored { image: trimmed_text(stdout) }, action);
            }
        }
        let head: usize = self.head;
        self.reach_main(state, head)
    }

    fn save(&mut self, state: &State, image: String) -> (r: Result<Action, BuildError>)
        requires
            old(self).wf(),
        ensures
            is_turn(*final(self), *state, r, save(old(self)@, state@, image@)),
            final(self).wf(),
    {
        let hash = self.hash.clone();
        let stored = image.clone();
        self.go(Phase::Saved { image }, Action::Store { line: None, hash, image: stored })
    }

    fn committed(&mut self, state: &mut State, stdout: &str) -> (r: Result<Action, BuildError>)
        requires
            old(self).wf(),
        ensures
            is_turn(*final(self), *final(state), r, committed(old(self)@, old(state)@, stdout@)),
            final(self).wf(),
            final(state).ignore == old(state).ignore,
    {
        let image = trimmed_text(stdout);
        if state.cache_to {
            let work = OutOfBandWork::PushCache {
                buildah_id: image.clone(),
                hash: self.hash.clone(),
            };
            self.go(Phase::Pushed { image }, Action::Work { work })
        } else {
            self.save(state, image)
        }
    }

    fn saved(&mut self, state: &mut State, image: String) -> (r: Result<Action, BuildError>)
        requires
            old(self).wf(),
        ensures
            is_turn(*final(self), *final(state), r, saved(old(self)@, old(state)@, image@)),
            final(self).wf(),
            final(state).ignore == old(state).ignore,
    {
        state.last_id = image;
        match &state.container {
            None => self.fail(BuildError::NoContainer { op: Operation::From }),
            Some(container) => {
                let args = remove_container_command(container.as_str());
                self.go(
                    Phase::Removed,
                    Action::Command { args, stdout: Stream::Inherit, stderr: Stream::Inherit },
                )
            },
        }
    }
}

impl Chunk {
    fn blank(rest: Vec<(Operation, String)>) -> (r: Chunk)
        ensures
            r@ == fresh(instructions(rest@)),
            r.wf(),
    {
        let steps: Vec<Preprocessed> = Vec::new();
        let c = Chunk {
            phase: Phase::Finished,
            rest,
            steps,
            head: 0,
            hasher: new_hasher(),
            hash: String::new(),
        };
        proof {
            assert(c@.steps =~= seq![]);
            assert(c@.hash =~= seq![]);
        }
        c
    }

    /// Starts a chunk, given its instructions. Returns the chunk, and what is to be done
    /// first or why the chunk cannot be executed.
    pub fn start(ops: &Vec<(Operation, String)>, state: &mut State) -> (r: (
        Chunk,
        Result<Action, BuildError>,
    ))
        ensures
            is_turn(r.0, *final(state), r.1, started(instructions(ops@), old(state)@)),
            r.0.wf(),
            final(state).ignore == old(state).ignore,
    {
        let ghost all = instructions(ops@);
        let first = if ops.len() > 0 {
            ops[0].0
        } else {
            Operation::Arg
        };
        match first {
            Operation::From => {
                let mut c = Chunk::blank(without_first(ops));
                end_stage(state);
                match substitute(ops[0].1.as_str(), &state.global) {
                    Err(e) => {
                        let r = c.fail(BuildError::MissingBrace { inner: e.inner });
                        (c, r)
                    },
                    Ok(line) => {
                        let (_from, name) = split_from(line.as_str());
                        state.cur_as = name;
                        let told = write_coloured("\x1b[34m", Operation::From, line.as_str());
                        c.push_first(Operation::From, line);
                        c.phase = Phase::Opened;
                        proof {
                            assert(c@.steps.len() == c.steps@.len());
                        }
                        (c, Ok(one_line(told)))
                    },
                }
            },
            Operation::Checkpoint => {
                let mut c = Chunk::blank(without_first(ops));
                c.push_first(Operation::Checkpoint, ops[0].1.clone());
                feed_tag(&mut c.hasher, Operation::From);
                feed(&mut c.hasher, state.last_id.as_str().as_bytes());
                proof {
                    assert(hashed(c.hasher) =~= tag(Operation::From) + encode_utf8(state@.last_id));
                }
                let r = c.begin(state);
                (c, r)
            },
            _ => {
                let none: Vec<(Operation, String)> = Vec::new();
                proof {
                    assert(instructions(none@) =~= seq![]);
                }
                let mut c = Chunk::blank(none);
                match take_preamble(ops, state) {
                    Ok(_) => (c, Ok(Action::Finish)),
                    Err(e) => {
                        let r = c.fail(e);
                        (c, r)
                    },
                }
            },
        }
    }

    fn push_first(&mut self, op: Operation, line: String)
        requires
            old(self).wf(),
            old(self)@.steps.len() == 0,
        ensures
            final(self).wf(),
            final(self)@ == (ChunkView { steps: seq![plain_step(op, line@)], ..old(self)@ }),
    {
        let args: Vec<(String, String)> = Vec::new();
        proof {
            assert(pair_texts(args@) =~= seq![]);
        }
        let ghost lv = line@;
        self.steps.push(Preprocessed { op, line, args });
        proof {
            assert(step_views(self.steps@) =~= seq![plain_step(op, lv)]);
        }
    }

    /// Takes what came of the last action. Returns what is to be done next, or why the chunk
    /// cannot go on.
    pub fn next(&mut self, event: Event, state: &mut State) -> (r: Result<Action, BuildError>)
        requires
            old(self).wf(),
        ensures
            is_turn(*final(self), *final(state), r, turn(old(self)@, old(state)@, event@)),
            final(self).wf(),
            final(state).ignore == old(state).ignore,
    {
        match event {
            Event::Done => self.done(state),
            Event::Output { success, stdout } => self.command_ended(state, success, stdout.as_str()),
            Event::Digests { files } => match &self.phase {
                Phase::Sourced => self.digested(state, &files),
                _ => self.fail(BuildError::UnexpectedEvent),
            },
            Event::Row { image } => match &self.phase {
                Phase::LookedUp => self.looked_up(state, image),
                _ => self.fail(BuildError::UnexpectedEvent),
            },
        }
    }

    fn done(&mut self, state: &mut State) -> (r: Result<Action, BuildError>)
        requires
            old(self).wf(),
        ensures
            is_turn(*final(self), *final(state), r, done(old(self)@, old(state)@)),
            final(self).wf(),
            final(state).ignore == old(state).ignore,
    {
        match &self.phase {
            Phase::Opened => self.opened(state),
            Phase::Recorded { image } => {
                let image = image.clone();
                self.inspect(state, image)
            },
            Phase::Said { at } => {
                let at: usize = *at;
                self.perform(state, at)
            },
            Phase::Marked { image } => {
                let image = image.clone();
                self.check(state, image)
            },
            Phase::Forgot => self.fetch(state),
            Phase::Stored { image } => {
                let image = image.clone();
                self.hit(state, image)
            },
            Phase::Replayed { image } => {
                state.last_id = image.clone();
                self.go(Phase::Finished, Action::Finish)
            },
            Phase::Pushed { image } => {
                let image = image.clone();
                self.save(state, image)
            },
            Phase::Saved { image } => {
                let image = image.clone();
                self.saved(state, image)
            },
            _ => self.fail(BuildError::UnexpectedEvent),
        }
    }

    fn command_ended(&mut self, state: &mut State, success: bool, stdout: &str) -> (r: Result<
        Action,
        BuildError,
    >)
        requires
            old(self).wf(),
        ensures
            is_turn(
                *final(self),
                *final(state),
                r,
                command_ended(old(self)@, old(state)@, success, stdout@),
            ),
            final(self).wf(),
            final(state).ignore == old(state).ignore,
    {
        match &self.phase {
            Phase::Checked { image } => {
                let image = image.clone();
                if success {
                    self.hit(state, image)
                } else {
                    let line = prefixed(
                        "\x1b[31mCACHE FAILURE\x1b[0m Failed to check if image exists: ",
                        image.as_str(),
                    );
                    let hash = self.hash.clone();
                    self.go(Phase::Forgot, Action::Forget { line, hash })
                }
            },
            Phase::Fetched => self.fetched(state, success, stdout),
            Phase::Pulled
            | Phase::Inspected { .. }
            | Phase::Ran { .. }
            | Phase::Cleared { .. }
            | Phase::Committed
            | Phase::Removed => if success {
                self.command_succeeded(state, stdout)
            } else {
                self.fail(BuildError::CommandFailed)
            },
            _ => self.fail(BuildError::UnexpectedEvent),
        }
    }

    fn command_succeeded(&mut self, state: &mut State, stdout: &str) -> (r: Result<
        Action,
        BuildError,
    >)
        requires
            old(self).wf(),
            old(self)@.phase is Pulled || old(self)@.phase is Inspected || old(self)@.phase is Ran
                || old(self)@.phase is Cleared || old(self)@.phase is Committed
                || old(self)@.phase is Removed,
        ensures
            is_turn(
                *final(self),
                *final(state),
                r,
                command_ended(old(self)@, old(state)@, true, stdout@),
            ),
            final(self).wf(),
            final(state).ignore == old(state).ignore,
    {
        match &self.phase {
            Phase::Pulled => {
                let image = trimmed_text(stdout);
                let phase = Phase::Recorded { image: image.clone() };
                self.go(phase, Action::RecordRemote { image })
            },
            Phase::Inspected { image } => {
                let image = image.clone();
                self.inspected(state, image, stdout)
            },
            Phase::Ran { at } => {
                let at: usize = *at;
                self.ran(state, at, stdout)
            },
            Phase::Cleared { image } => {
                let image = image.clone();
                state.container = None;
                self.replay(state, image)
            },
            Phase::Committed => self.committed(state, stdout),
            _ => {
                state.container = None;
                self.go(Phase::Finished, Action::Finish)
            },
        }
    }
}

fn without_first(ops: &Vec<(Operation, String)>) -> (r: Vec<(Operation, String)>)
    requires
        ops@.len() > 0,
    ensures
        instructions(r@) == instructions(ops@).drop_first(),
{
    let ghost all = instructions(ops@);
    let mut r: Vec<(Operation, String)> = Vec::new();
    let mut i: usize = 1;
    proof {
        assert(instructions(r@) =~= all.subrange(1, 1));
    }
    while i < ops.len()
        invariant
            1 <= i <= ops@.len(),
            all == instructions(ops@),
            instructions(r@) == all.subrange(1, i as int),
        decreases ops.len() - i,
    {
        let ghost before = instructions(r@);
        r.push((ops[i].0, ops[i].1.clone()));
        proof {
            assert(instructions(r@) =~= before.push(all[i as int]));
            assert(all.subrange(1, i + 1) =~= all.subrange(1, i as int).push(all[i as int]));
        }
        i += 1;
    }
    proof {
        assert(all.subrange(1, i as int) =~= all.drop_first());
    }
    r
}

fn end_stage(state: &mut State)
    ensures
        final(state)@ == stage_ended(old(state)@),
        final(state).ignore == old(state).ignore,
{
    state.stage = VarMap::default();
    let mut cur: Option<String> = None;
    std::mem::swap(&mut cur, &mut state.cur_as);
    if let Some(name) = cur {
        let mut last = String::new();
        std::mem::swap(&mut last, &mut state.last_id);
        state.as_images.insert(name, last);
        proof {
            assert(state@.last_id =~= seq![]);
        }
    }
}

fn take_listed_env(text: &str, state: &mut State)
    ensures
        final(state)@ == with_stage(
            old(state)@,
            env_listed(old(state)@.stage, lines(text@)),
        ),
        final(state).ignore == old(state).ignore,
{
    let c = to_chars(text);
    let ls = split_lines(&c);
    let ghost all = char_texts(ls@);
    let ghost start = state@;
    let mut i: usize = 0;
    proof {
        assert(all.skip(0) =~= all);
    }
    while i < ls.len()
        invariant
            i <= ls@.len(),
            all == char_texts(ls@),
            start == old(state)@,
            state.ignore == old(state).ignore,
            state@ == with_stage(start, state@.stage),
            env_listed(start.stage, all) == env_listed(state@.stage, all.skip(i as int)),
        decreases ls.len() - i,
    {
        proof {
            assert(all.skip(i as int)[0] == ls@[i as int]@);
            assert(all.skip(i as int).drop_first() =~= all.skip(i + 1));
        }
        if let Some((k, v)) = cut(&ls[i], "=") {
            state.stage.env.insert(to_text(k), to_text(v));
        }
        i += 1;
    }
}

} // verus!
