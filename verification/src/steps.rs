//! The steps of a chunk: its instructions with their variables substituted, what each of
//! them adds to the hash of the chunk, and how the chunk divides into a part that has to be
//! executed before the hash is known and a part that may be skipped.
use vstd::prelude::*;
use vstd::utf8::encode_utf8;

use crate::commands::{env_set, first_without_value, set_env, with_stage};
use crate::copy::{add_can_hash, add_hashable, copy_can_hash};
use crate::digests::{contents_record, digest_bytes, hash_contents};
use crate::errors::{BuildError, BuildFailure};
use crate::external::{feed, hashed, shell_words, split_words};
use crate::parse::{instructions, Instruction};
use crate::state::{op_name, operation_name, BuildState, Operation, State, Vars};
use crate::substitute::{expand, substitute};
use crate::text::{contains, cut, split_once, texts, to_chars, to_text};
use crate::textmap::{listing, pair_texts, Entry};

verus! {

/// An instruction that is ready to be hashed and executed.
#[derive(Debug)]
pub struct Preprocessed {
    /// What it does.
    pub op: Operation,
    /// Its line, with the variables substituted where the build does so.
    pub line: String,
    /// The build arguments that a RUN instruction sees, in the order of their names. Any
    /// other instruction has none.
    pub args: Vec<(String, String)>,
}

/// A `Preprocessed` with its texts as sequences of characters.
#[verifier::ext_equal]
pub struct Step {
    pub op: Operation,
    pub line: Seq<char>,
    pub args: Seq<Entry>,
}

impl View for Preprocessed {
    type V = Step;

    open spec fn view(&self) -> Step {
        Step { op: self.op, line: self.line@, args: pair_texts(self.args@) }
    }
}

/// Steps as views.
pub open spec fn step_views(v: Seq<Preprocessed>) -> Seq<Step> {
    v.map_values(|p: Preprocessed| p@)
}

/// A step without build arguments.
pub open spec fn plain_step(op: Operation, line: Seq<char>) -> Step {
    Step { op, line, args: seq![] }
}

fn new_step(op: Operation, line: String) -> (r: Preprocessed)
    ensures
        r@ == plain_step(op, line@),
{
    let args: Vec<(String, String)> = Vec::new();
    proof {
        assert(pair_texts(args@) =~= seq![]);
    }
    Preprocessed { op, line, args }
}

// ---------------------------------------------------------------------------------------
// Variables
// ---------------------------------------------------------------------------------------
/// Build arguments with defaults from words KEY=VALUE, up to the first word that is not of
/// this form. An argument that is already set stays as it is.
pub open spec fn defaults_set(vars: Vars, ws: Seq<Seq<char>>) -> Vars
    decreases ws.len(),
{
    if ws.len() == 0 {
        vars
    } else {
        match split_once(ws[0], "="@) {
            Some((k, v)) => defaults_set(
                if vars.args.dom().contains(k) {
                    vars
                } else {
                    vars.with_arg(k, v)
                },
                ws.drop_first(),
            ),
            None => vars,
        }
    }
}

/// The state of a build with other global variables.
pub open spec fn with_global(s: BuildState, global: Vars) -> BuildState {
    BuildState { global, ..s }
}

/// Gives global build arguments their defaults from words of the form KEY=VALUE.
pub fn set_defaults(ws: &Vec<String>, state: &mut State) -> (r: Result<(), BuildError>)
    ensures
        final(state)@ == with_global(old(state)@, defaults_set(old(state)@.global, texts(ws@))),
        final(state).ignore == old(state).ignore,
        match r {
            Ok(_) => first_without_value(texts(ws@)) is None,
            Err(e) => first_without_value(texts(ws@)) matches Some(w) && e@ == (
            BuildFailure::NotKeyValue { word: w }),
        },
{
    let ghost all = texts(ws@);
    let ghost start = state@;
    let mut i: usize = 0;
    proof {
        assert(all.skip(0) =~= all);
    }
    while i < ws.len()
        invariant
            i <= ws@.len(),
            all == texts(ws@),
            start == old(state)@,
            state.ignore == old(state).ignore,
            state@ == with_global(start, state@.global),
            defaults_set(start.global, all) == defaults_set(state@.global, all.skip(i as int)),
            first_without_value(all) == first_without_value(all.skip(i as int)),
        decreases ws.len() - i,
    {
        proof {
            assert(all.skip(i as int)[0] == ws@[i as int]@);
            assert(all.skip(i as int).drop_first() =~= all.skip(i + 1));
        }
        let c = to_chars(ws[i].as_str());
        match cut(&c, "=") {
            Some((k, v)) => {
                let key = to_text(k);
                if state.global.args.get(key.as_str()).is_none() {
                    state.global.args.insert(key, to_text(v));
                }
            },
            None => {
                return Err(BuildError::NotKeyValue { word: to_text(&c) });
            },
        }
        i += 1;
    }
    Ok(())
}

/// One word of an ARG instruction in a stage: KEY=VALUE sets the argument, and a bare KEY
/// takes the global value of this name, or the empty text where there is none.
pub open spec fn arg_word(stage: Vars, global: Vars, word: Seq<char>) -> Vars {
    match split_once(word, "="@) {
        Some((k, v)) => stage.with_arg(k, v),
        None => if global.args.dom().contains(word) {
            stage.with_arg(word, global.args[word])
        } else {
            stage.with_arg(word, seq![])
        },
    }
}

/// The words of an ARG instruction in a stage.
pub open spec fn args_set(stage: Vars, global: Vars, ws: Seq<Seq<char>>) -> Vars
    decreases ws.len(),
{
    if ws.len() == 0 {
        stage
    } else {
        args_set(arg_word(stage, global, ws[0]), global, ws.drop_first())
    }
}

/// Sets the build arguments of the stage from the words of an ARG instruction.
pub fn set_args(ws: &Vec<String>, state: &mut State)
    ensures
        final(state)@ == with_stage(
            old(state)@,
            args_set(old(state)@.stage, old(state)@.global, texts(ws@)),
        ),
        final(state).ignore == old(state).ignore,
{
    let ghost all = texts(ws@);
    let ghost start = state@;
    let mut i: usize = 0;
    proof {
        assert(all.skip(0) =~= all);
    }
    while i < ws.len()
        invariant
            i <= ws@.len(),
            all == texts(ws@),
            start == old(state)@,
            state.ignore == old(state).ignore,
            state@ == with_stage(start, state@.stage),
            args_set(start.stage, start.global, all) == args_set(
                state@.stage,
                start.global,
                all.skip(i as int),
            ),
        decreases ws.len() - i,
    {
        proof {
            assert(all.skip(i as int)[0] == ws@[i as int]@);
            assert(all.skip(i as int).drop_first() =~= all.skip(i + 1));
        }
        let c = to_chars(ws[i].as_str());
        match cut(&c, "=") {
            Some((k, v)) => {
                state.stage.args.insert(to_text(k), to_text(v));
            },
            None => {
                let value = match state.global.args.get(ws[i].as_str()) {
                    Some(v) => v.clone(),
                    None => String::new(),
                };
                state.stage.args.insert(to_text(&c), value);
            },
        }
        i += 1;
    }
}

/// What comes of the preparation of an instruction: the variables of the stage behind it,
/// and the step that it becomes, if any.
pub type Prepared = (Vars, Result<Option<Step>, BuildFailure>);

/// Prepares an instruction inside a chunk. RUN, ENTRYPOINT and CMD lines stay as they are:
/// the shell substitutes variables in them.
pub open spec fn prepared(ins: Instruction, stage: Vars, global: Vars) -> Prepared {
    let (op, line) = ins;
    match op {
        Operation::Run => (stage, Ok(Some(Step { op, line, args: listing(stage.args) }))),
        Operation::Entrypoint | Operation::Cmd => (stage, Ok(Some(plain_step(op, line)))),
        Operation::From | Operation::Checkpoint => (stage, Err(BuildFailure::MisplacedStart { op })),
        _ => match expand(line, stage) {
            Err(inner) => (stage, Err(BuildFailure::MissingBrace { inner })),
            Ok(text) => match op {
                Operation::Arg => match shell_words(text) {
                    None => (stage, Err(BuildFailure::Unbalanced)),
                    Some(ws) => (args_set(stage, global, ws), Ok(None)),
                },
                Operation::Env => match shell_words(text) {
                    None => (stage, Err(BuildFailure::Unbalanced)),
                    Some(ws) => (
                        env_set(stage, ws),
                        match first_without_value(ws) {
                            Some(word) => Err(BuildFailure::NotKeyValue { word }),
                            None => Ok(Some(plain_step(op, text))),
                        },
                    ),
                },
                _ => (stage, Ok(Some(plain_step(op, text)))),
            },
        },
    }
}

/// Whether a result is a given preparation.
pub open spec fn is_prepared(
    r: Result<Option<Preprocessed>, BuildError>,
    want: Result<Option<Step>, BuildFailure>,
) -> bool {
    match r {
        Ok(Some(p)) => want == Ok::<Option<Step>, BuildFailure>(Some(p@)),
        Ok(None) => want == Ok::<Option<Step>, BuildFailure>(None),
        Err(e) => want == Err::<Option<Step>, BuildFailure>(e@),
    }
}

/// Prepares an instruction inside a chunk: substitutes variables, and sets those that it
/// defines.
pub fn prepare(op: Operation, line: &str, state: &mut State) -> (r: Result<
    Option<Preprocessed>,
    BuildError,
>)
    ensures
        ({
            let want = prepared((op, line@), old(state)@.stage, old(state)@.global);
            final(state)@ == with_stage(old(state)@, want.0) && is_prepared(r, want.1)
        }),
        final(state).ignore == old(state).ignore,
{
    match op {
        Operation::Run => {
            let args = state.stage.args.entries();
            return Ok(Some(Preprocessed { op, line: to_text(&to_chars(line)), args }));
        },
        Operation::Entrypoint | Operation::Cmd => {
            return Ok(Some(new_step(op, to_text(&to_chars(line)))));
        },
        Operation::From | Operation::Checkpoint => {
            return Err(BuildError::MisplacedStart { op });
        },
        _ => {},
    }
    let text = match substitute(line, &state.stage) {
        Ok(t) => t,
        Err(e) => {
            return Err(BuildError::MissingBrace { inner: e.inner });
        },
    };
    match op {
        Operation::Arg => match split_words(text.as_str()) {
            None => Err(BuildError::Unbalanced),
            Some(ws) => {
                set_args(&ws, state);
                Ok(None)
            },
        },
        Operation::Env => match split_words(text.as_str()) {
            None => Err(BuildError::Unbalanced),
            Some(ws) => match set_env(&ws, state) {
                Ok(_) => Ok(Some(new_step(op, text))),
                Err(e) => Err(e),
            },
        },
        _ => Ok(Some(new_step(op, text))),
    }
}

/// Prepares the instructions of a chunk one after the other.
pub open spec fn prepared_all(ops: Seq<Instruction>, stage: Vars, global: Vars) -> (
    Vars,
    Result<Seq<Step>, BuildFailure>,
)
    decreases ops.len(),
{
    if ops.len() == 0 {
        (stage, Ok(seq![]))
    } else {
        let (before, r) = prepared_all(ops.drop_last(), stage, global);
        match r {
            Err(e) => (before, Err(e)),
            Ok(steps) => {
                let (after, p) = prepared(ops.last(), before, global);
                match p {
                    Err(e) => (after, Err(e)),
                    Ok(None) => (after, Ok(steps)),
                    Ok(Some(step)) => (after, Ok(steps.push(step))),
                }
            },
        }
    }
}

proof fn lemma_prepared_error(ops: Seq<Instruction>, n: int, stage: Vars, global: Vars)
    requires
        0 <= n <= ops.len(),
        prepared_all(ops.take(n), stage, global).1 is Err,
    ensures
        prepared_all(ops, stage, global) == prepared_all(ops.take(n), stage, global),
    decreases ops.len() - n,
{
    if n == ops.len() {
        assert(ops.take(n) =~= ops);
    } else {
        assert(ops.take(n + 1).drop_last() =~= ops.take(n));
        lemma_prepared_error(ops, n + 1, stage, global);
    }
}

/// Prepares the instructions of a chunk that follow its first one.
pub fn prepare_all(ops: &Vec<(Operation, String)>, state: &mut State) -> (r: Result<
    Vec<Preprocessed>,
    BuildError,
>)
    ensures
        ({
            let want = prepared_all(instructions(ops@), old(state)@.stage, old(state)@.global);
            final(state)@ == with_stage(old(state)@, want.0) && match r {
                Ok(v) => want.1 == Ok::<Seq<Step>, BuildFailure>(step_views(v@)),
                Err(e) => want.1 == Err::<Seq<Step>, BuildFailure>(e@),
            }
        }),
        final(state).ignore == old(state).ignore,
{
    let ghost all = instructions(ops@);
    let ghost start = state@;
    let mut steps: Vec<Preprocessed> = Vec::new();
    let mut i: usize = 0;
    proof {
        assert(all.take(0) =~= seq![]);
        assert(step_views(steps@) =~= seq![]);
    }
    while i < ops.len()
        invariant
            i <= ops@.len(),
            all == instructions(ops@),
            start == old(state)@,
            state.ignore == old(state).ignore,
            state@ == with_stage(start, state@.stage),
            prepared_all(all.take(i as int), start.stage, start.global) == (
                state@.stage,
                Ok::<Seq<Step>, BuildFailure>(step_views(steps@)),
            ),
        decreases ops.len() - i,
    {
        let ghost before = step_views(steps@);
        proof {
            assert(all.take(i + 1).drop_last() =~= all.take(i as int));
            assert(all.take(i + 1).last() == (ops@[i as int].0, ops@[i as int].1@));
        }
        match prepare(ops[i].0, ops[i].1.as_str(), state) {
            Ok(Some(p)) => {
                let ghost pv = p@;
                steps.push(p);
                proof {
                    assert(step_views(steps@) =~= before.push(pv));
                }
            },
            Ok(None) => {},
            Err(e) => {
                proof {
                    lemma_prepared_error(all, i + 1, start.stage, start.global);
                }
                return Err(e);
            },
        }
        i += 1;
    }
    proof {
        assert(all.take(i as int) =~= all);
    }
    Ok(steps)
}

/// Takes the instructions before the first FROM, which can only be ARG instructions. They
/// provide defaults for build arguments.
pub open spec fn preamble(ops: Seq<Instruction>, global: Vars) -> (Vars, Option<BuildFailure>)
    decreases ops.len(),
{
    if ops.len() == 0 {
        (global, None)
    } else {
        let (before, failure) = preamble(ops.drop_last(), global);
        match failure {
            Some(e) => (before, Some(e)),
            None => {
                let (op, line) = ops.last();
                if op is Arg {
                    match expand(line, before) {
                        Err(inner) => (before, Some(BuildFailure::MissingBrace { inner })),
                        Ok(text) => match shell_words(text) {
                            None => (before, Some(BuildFailure::Unbalanced)),
                            Some(ws) => (
                                defaults_set(before, ws),
                                match first_without_value(ws) {
                                    Some(word) => Some(BuildFailure::NotKeyValue { word }),
                                    None => None,
                                },
                            ),
                        },
                    }
                } else {
                    (before, Some(BuildFailure::BeforeFrom { op }))
                }
            },
        }
    }
}

proof fn lemma_preamble_error(ops: Seq<Instruction>, n: int, global: Vars)
    requires
        0 <= n <= ops.len(),
        preamble(ops.take(n), global).1 is Some,
    ensures
        preamble(ops, global) == preamble(ops.take(n), global),
    decreases ops.len() - n,
{
    if n == ops.len() {
        assert(ops.take(n) =~= ops);
    } else {
        assert(ops.take(n + 1).drop_last() =~= ops.take(n));
        lemma_preamble_error(ops, n + 1, global);
    }
}

/// Takes the instructions before the first FROM.
pub fn take_preamble(ops: &Vec<(Operation, String)>, state: &mut State) -> (r: Result<
    (),
    BuildError,
>)
    ensures
        ({
            let want = preamble(instructions(ops@), old(state)@.global);
            final(state)@ == with_global(old(state)@, want.0) && match r {
                Ok(_) => want.1 is None,
                Err(e) => want.1 == Some(e@),
            }
        }),
        final(state).ignore == old(state).ignore,
{
    let ghost all = instructions(ops@);
    let ghost start = state@;
    let mut i: usize = 0;
    proof {
        assert(all.take(0) =~= seq![]);
    }
    while i < ops.len()
        invariant
            i <= ops@.len(),
            all == instructions(ops@),
            start == old(state)@,
            state.ignore == old(state).ignore,
            state@ == with_global(start, state@.global),
            preamble(all.take(i as int), start.global) == (state@.global, None::<BuildFailure>),
        decreases ops.len() - i,
    {
        proof {
            assert(all.take(i + 1).drop_last() =~= all.take(i as int));
            assert(all.take(i + 1).last() == (ops@[i as int].0, ops@[i as int].1@));
        }
        let op = ops[i].0;
        if op != Operation::Arg {
            proof {
                lemma_preamble_error(all, i + 1, start.global);
            }
            return Err(BuildError::BeforeFrom { op });
        }
        let text = match substitute(ops[i].1.as_str(), &state.global) {
            Ok(t) => t,
            Err(e) => {
                proof {
                    lemma_preamble_error(all, i + 1, start.global);
                }
                return Err(BuildError::MissingBrace { inner: e.inner });
            },
        };
        match split_words(text.as_str()) {
            None => {
                proof {
                    lemma_preamble_error(all, i + 1, start.global);
                }
                return Err(BuildError::Unbalanced);
            },
            Some(ws) => {
                if let Err(e) = set_defaults(&ws, state) {
                    proof {
                        lemma_preamble_error(all, i + 1, start.global);
                    }
                    return Err(e);
                }
            },
        }
        i += 1;
    }
    proof {
        assert(all.take(i as int) =~= all);
    }
    Ok(())
}

// ---------------------------------------------------------------------------------------
// Hash
// ---------------------------------------------------------------------------------------
/// What marks an operation in a hash: its keyword between two zero bytes.
pub open spec fn tag(op: Operation) -> Seq<u8> {
    seq![0u8] + encode_utf8(op_name(op)) + seq![0u8]
}

pub(crate) fn feed_tag(h: &mut blake3::Hasher, op: Operation)
    ensures
        hashed(*final(h)) == hashed(*old(h)) + tag(op),
{
    let ghost start = hashed(*h);
    feed(h, &[0u8]);
    feed(h, operation_name(op).as_bytes());
    feed(h, &[0u8]);
    proof {
        assert(hashed(*h) =~= start + tag(op));
    }
}

/// What build arguments add to a hash.
pub open spec fn args_record(args: Seq<Entry>) -> Seq<u8>
    decreases args.len(),
{
    if args.len() == 0 {
        seq![]
    } else {
        args_record(args.drop_last()) + seq![1u8] + encode_utf8(args.last().0) + encode_utf8("="@)
            + encode_utf8(args.last().1)
    }
}

/// What a RUN instruction adds to a hash: the build arguments that it sees, and its line.
pub open spec fn run_record(line: Seq<char>, args: Seq<Entry>) -> Seq<u8> {
    tag(Operation::Run) + args_record(args) + seq![0u8] + encode_utf8(line)
}

pub(crate) fn hash_run(line: &str, args: &Vec<(String, String)>, h: &mut blake3::Hasher)
    ensures
        hashed(*final(h)) == hashed(*old(h)) + run_record(line@, pair_texts(args@)),
{
    let ghost start = hashed(*h);
    let ghost all = pair_texts(args@);
    feed_tag(h, Operation::Run);
    let ghost tagged = hashed(*h);
    let mut i: usize = 0;
    proof {
        assert(all.take(0) =~= seq![]);
        assert(tagged + args_record(all.take(0)) =~= tagged);
    }
    while i < args.len()
        invariant
            i <= args@.len(),
            all == pair_texts(args@),
            hashed(*h) == tagged + args_record(all.take(i as int)),
        decreases args.len() - i,
    {
        feed(h, &[1u8]);
        feed(h, args[i].0.as_str().as_bytes());
        feed(h, "=".as_bytes());
        feed(h, args[i].1.as_str().as_bytes());
        proof {
            let more = all.take(i + 1);
            assert(more.drop_last() =~= all.take(i as int));
            assert(more.last() == (args@[i as int].0@, args@[i as int].1@));
            assert(hashed(*h) =~= tagged + args_record(more));
        }
        i += 1;
    }
    feed(h, &[0u8]);
    feed(h, line.as_bytes());
    proof {
        assert(all.take(i as int) =~= all);
        assert(hashed(*h) =~= start + run_record(line@, all));
    }
}

/// Whether a step brings files into the image.
pub open spec fn brings_files(op: Operation) -> bool {
    op is Copy || op is Add
}

/// What a step that brings files adds to the hash of its chunk before the files: the
/// instruction, and a zero byte.
pub open spec fn copy_record(op: Operation, line: Seq<char>) -> Seq<u8> {
    tag(op) + encode_utf8(line) + seq![0u8]
}

/// What a step adds to the hash of its chunk. The step that starts the chunk adds nothing,
/// as its base image stands in the hash already. One that brings files adds what stands for
/// their content behind its line.
pub open spec fn step_record(step: Step, content: Seq<u8>) -> Seq<u8> {
    if step.op.starts_chunk() {
        seq![]
    } else if step.op is Run {
        run_record(step.line, step.args)
    } else if brings_files(step.op) {
        copy_record(step.op, step.line) + content
    } else {
        tag(step.op) + encode_utf8(step.line)
    }
}

fn hash_copy(step: &Preprocessed, h: &mut blake3::Hasher)
    ensures
        hashed(*final(h)) == hashed(*old(h)) + copy_record(step.op, step.line@),
{
    let ghost start = hashed(*h);
    feed_tag(h, step.op);
    feed(h, step.line.as_str().as_bytes());
    feed(h, &[0u8]);
    proof {
        assert(hashed(*h) =~= start + copy_record(step.op, step.line@));
    }
}

/// Adds a step to the hash of its chunk, given what stands for the content of the files that
/// it brings.
pub(crate) fn hash_step(step: &Preprocessed, content: &[u8], h: &mut blake3::Hasher)
    ensures
        hashed(*final(h)) == hashed(*old(h)) + step_record(step@, content@),
{
    let ghost start = hashed(*h);
    match step.op {
        Operation::From | Operation::Checkpoint => {
            proof {
                assert(start =~= start + step_record(step@, content@));
            }
        },
        Operation::Run => {
            hash_run(step.line.as_str(), &step.args, h);
        },
        Operation::Copy | Operation::Add => {
            hash_copy(step, h);
            feed(h, content);
            proof {
                assert(hashed(*h) =~= start + step_record(step@, content@));
            }
        },
        _ => {
            feed_tag(h, step.op);
            feed(h, step.line.as_str().as_bytes());
            proof {
                assert(hashed(*h) =~= start + step_record(step@, content@));
            }
        },
    }
}

/// How many of some steps bring files.
pub open spec fn copies(steps: Seq<Step>) -> nat
    decreases steps.len(),
{
    if steps.len() == 0 {
        0
    } else {
        copies(steps.drop_last()) + (if brings_files(steps.last().op) {
            1nat
        } else {
            0
        })
    }
}

/// What some steps add to the hash of their chunk, given the digests of the files of each
/// step that brings some.
pub open spec fn steps_record(steps: Seq<Step>, files: Seq<Seq<Seq<u8>>>) -> Seq<u8>
    decreases steps.len(),
{
    if steps.len() == 0 {
        seq![]
    } else if brings_files(steps.last().op) {
        steps_record(steps.drop_last(), files.drop_last()) + step_record(
            steps.last(),
            contents_record(files.last()),
        )
    } else {
        steps_record(steps.drop_last(), files) + step_record(steps.last(), seq![])
    }
}

/// The digests of the files of several steps.
pub open spec fn file_lists(v: Seq<Vec<[u8; 32]>>) -> Seq<Seq<Seq<u8>>> {
    v.map_values(|f: Vec<[u8; 32]>| digest_bytes(f@))
}

/// How many of the steps from a given one on bring files.
pub(crate) fn count_copies(steps: &Vec<Preprocessed>, from: usize) -> (r: usize)
    requires
        from <= steps@.len(),
    ensures
        r == copies(step_views(steps@).skip(from as int)),
{
    let ghost main = step_views(steps@).skip(from as int);
    let mut n: usize = 0;
    let mut i: usize = from;
    proof {
        assert(main.take(0) =~= seq![]);
    }
    while i < steps.len()
        invariant
            from <= i <= steps@.len(),
            main == step_views(steps@).skip(from as int),
            n == copies(main.take(i - from)),
            n <= i - from,
        decreases steps.len() - i,
    {
        proof {
            assert(main.take(i - from + 1).drop_last() =~= main.take(i - from));
            assert(main.take(i - from + 1).last() == steps@[i as int]@);
        }
        if matches!(steps[i].op, Operation::Copy | Operation::Add) {
            n += 1;
        }
        i += 1;
    }
    proof {
        assert(main.take(i - from) =~= main);
    }
    n
}

/// Adds the steps from a given one on to the hash of their chunk, given the digests of the
/// files of each step that brings some.
pub(crate) fn hash_steps(
    steps: &Vec<Preprocessed>,
    from: usize,
    files: &Vec<Vec<[u8; 32]>>,
    h: &mut blake3::Hasher,
)
    requires
        from <= steps@.len(),
        files@.len() == copies(step_views(steps@).skip(from as int)),
    ensures
        hashed(*final(h)) == hashed(*old(h)) + steps_record(
            step_views(steps@).skip(from as int),
            file_lists(files@),
        ),
{
    let ghost main = step_views(steps@).skip(from as int);
    let ghost lists = file_lists(files@);
    let ghost start = hashed(*h);
    let n: usize = files.len();
    let mut j: usize = 0;
    let mut i: usize = from;
    proof {
        assert(main.take(0) =~= seq![]);
        assert(lists.take(0) =~= seq![]);
        assert(start + steps_record(main.take(0), lists.take(0)) =~= start);
    }
    while i < steps.len()
        invariant
            from <= i <= steps@.len(),
            j <= n,
            n == files@.len(),
            main == step_views(steps@).skip(from as int),
            lists == file_lists(files@),
            lists.len() == copies(main),
            j == copies(main.take(i - from)),
            hashed(*h) == start + steps_record(main.take(i - from), lists.take(j as int)),
        decreases steps.len() - i,
    {
        let ghost now = main.take(i - from);
        let ghost more = main.take(i - from + 1);
        let ghost so_far = hashed(*h);
        proof {
            assert(more.drop_last() =~= now);
            assert(more.last() == steps@[i as int]@);
            lemma_copies_grow(main, i - from + 1);
        }
        if matches!(steps[i].op, Operation::Copy | Operation::Add) {
            hash_copy(&steps[i], h);
            hash_contents(files[j].as_slice(), h);
            proof {
                assert(lists.take(j + 1).drop_last() =~= lists.take(j as int));
                assert(lists.take(j + 1).last() == digest_bytes(files@[j as int]@));
                assert(hashed(*h) =~= so_far + step_record(
                    more.last(),
                    contents_record(lists.take(j + 1).last()),
                ));
                assert(hashed(*h) =~= start + steps_record(more, lists.take(j + 1)));
            }
            j += 1;
        } else {
            let none: [u8; 0] = [];
            hash_step(&steps[i], &none, h);
            proof {
                assert(none@ =~= seq![]);
                assert(hashed(*h) =~= start + steps_record(more, lists.take(j as int)));
            }
        }
        i += 1;
    }
    proof {
        assert(main.take(i - from) =~= main);
        assert(lists.take(j as int) =~= lists);
    }
}

proof fn lemma_copies_grow(steps: Seq<Step>, n: int)
    requires
        0 <= n <= steps.len(),
    ensures
        copies(steps.take(n)) <= copies(steps),
    decreases steps.len() - n,
{
    if n == steps.len() {
        assert(steps.take(n) =~= steps);
    } else {
        assert(steps.take(n + 1).drop_last() =~= steps.take(n));
        lemma_copies_grow(steps, n + 1);
    }
}

// ---------------------------------------------------------------------------------------
// Head and main part
// ---------------------------------------------------------------------------------------
/// Whether a step can be hashed without being executed: one that brings files from another
/// image or over the network cannot.
pub open spec fn hashable(step: Step) -> bool {
    if step.op is Copy {
        !contains(step.line, "--from"@)
    } else if step.op is Add {
        add_hashable(step.line)
    } else {
        true
    }
}

/// How many steps there are up to and including the last one that cannot be hashed.
pub open spec fn head_len(steps: Seq<Step>) -> int
    decreases steps.len(),
{
    if steps.len() == 0 {
        0
    } else if !hashable(steps.last()) {
        steps.len() as int
    } else {
        head_len(steps.drop_last())
    }
}

/// How many steps have to be executed before the chunk can be hashed.
pub fn head_length(steps: &Vec<Preprocessed>) -> (r: usize)
    ensures
        r == head_len(step_views(steps@)),
        r <= steps@.len(),
{
    let ghost all = step_views(steps@);
    let mut n: usize = steps.len();
    proof {
        assert(all.take(n as int) =~= all);
    }
    while n > 0
        invariant
            n <= steps@.len(),
            all == step_views(steps@),
            head_len(all) == head_len(all.take(n as int)),
        decreases n,
    {
        let line = steps[n - 1].line.as_str();
        let can = match steps[n - 1].op {
            Operation::Copy => copy_can_hash(line),
            Operation::Add => add_can_hash(line),
            _ => true,
        };
        proof {
            assert(all.take(n as int).last() == steps@[n - 1]@);
            assert(all.take(n as int).drop_last() =~= all.take(n - 1));
        }
        if !can {
            return n;
        }
        n -= 1;
    }
    n
}

/// Every step behind the head can be hashed without being executed, and the head ends in one
/// that cannot.
pub proof fn law_main_part_can_be_hashed(steps: Seq<Step>)
    ensures
        0 <= head_len(steps) <= steps.len(),
        forall|i: int| head_len(steps) <= i < steps.len() ==> hashable(#[trigger] steps[i]),
        head_len(steps) > 0 ==> !hashable(steps[head_len(steps) - 1]),
    decreases steps.len(),
{
    if steps.len() > 0 && hashable(steps.last()) {
        let d = steps.drop_last();
        law_main_part_can_be_hashed(d);
        assert forall|i: int| head_len(steps) <= i < steps.len() implies hashable(
            #[trigger] steps[i],
        ) by {
            if i < d.len() {
                assert(d[i] == steps[i]);
            }
        }
    }
}

} // verus!
