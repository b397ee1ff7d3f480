//! What holds of every chunk, whatever the events that it is told of.
use vstd::prelude::*;
use vstd::utf8::encode_utf8;

use crate::actions::{source_lists, step_args, step_state, ActionView, EventView, WorkView};
use crate::chunk::{
    begin, command_ended, digested, done, env_listed, fail, fresh, inspected, opened,
    perform, ran, reach, reach_head, reach_main, stage_ended, started, turn, ChunkView, PhaseView,
    Turn,
};
use crate::commands::{from_parts, with_stage};
use crate::errors::BuildFailure;
use crate::external::{blake3_digest, lower_hex};
use crate::parse::Instruction;
use crate::state::{BuildState, Operation, Vars};
use crate::steps::{
    copies, head_len, law_main_part_can_be_hashed, plain_step, preamble, prepared_all,
    step_record, steps_record, tag, Step,
};
use crate::text::{lines, trim};

verus! {

// ---------------------------------------------------------------------------------------
// The cache
// ---------------------------------------------------------------------------------------
/// The phases in which a chunk has to do with what the cache or the registry holds.
pub open spec fn uses_cache(phase: PhaseView) -> bool {
    ||| phase is LookedUp
    ||| phase is Marked
    ||| phase is Checked
    ||| phase is Forgot
    ||| phase is Fetched
    ||| phase is Stored
    ||| phase is Cleared
    ||| phase is Replayed
}

/// A build without a cache never asks the cache or the registry for a chunk, from the first
/// turn on.
pub proof fn law_no_cache_starts_without_the_cache(ops: Seq<Instruction>, s: BuildState)
    requires
        s.no_cache,
    ensures
        !uses_cache(started(ops, s).chunk.phase),
        started(ops, s).state.no_cache,
{
}

/// A build without a cache never asks the cache or the registry for a chunk, and so never
/// skips a step: whatever happens, the next turn is one that does not either.
pub proof fn law_no_cache_never_uses_the_cache(c: ChunkView, s: BuildState, e: EventView)
    requires
        s.no_cache,
        !uses_cache(c.phase),
    ensures
        !uses_cache(turn(c, s, e).chunk.phase),
        turn(c, s, e).state.no_cache,
        !(turn(c, s, e).action matches Ok(ActionView::Lookup { .. })),
{
    match e {
        EventView::Done => match c.phase {
            PhaseView::Opened => {
                lemma_opened_without_cache(c, s);
            },
            _ => {},
        },
        EventView::Output { success, stdout } => match c.phase {
            PhaseView::Inspected { image } => {
                lemma_inspected_without_cache(c, s, image, stdout);
            },
            PhaseView::Ran { at } => {
                lemma_ran_without_cache(c, s, at, stdout);
            },
            _ => {},
        },
        EventView::Digests { files } => {
            lemma_digested_without_cache(c, s, files);
        },
        EventView::Row { .. } => {},
    }
}

/// A turn that leaves the cache alone.
pub open spec fn without_cache(t: Turn) -> bool {
    !uses_cache(t.chunk.phase) && t.state.no_cache && !(t.action matches Ok(
        ActionView::Lookup { .. },
    ))
}

proof fn lemma_opened_without_cache(c: ChunkView, s: BuildState)
    requires
        s.no_cache,
    ensures
        without_cache(opened(c, s)),
{
}

proof fn lemma_inspected_without_cache(
    c: ChunkView,
    s: BuildState,
    image: Seq<char>,
    stdout: Seq<char>,
)
    requires
        s.no_cache,
    ensures
        without_cache(inspected(c, s, image, stdout)),
{
}

proof fn lemma_ran_without_cache(c: ChunkView, s: BuildState, at: int, stdout: Seq<char>)
    requires
        s.no_cache,
    ensures
        without_cache(ran(c, s, at, stdout)),
{
}

proof fn lemma_digested_without_cache(c: ChunkView, s: BuildState, files: Seq<Seq<Seq<u8>>>)
    requires
        s.no_cache,
    ensures
        without_cache(digested(c, s, files)),
{
}

/// The phases of a chunk whose main part is skipped, as its image is known.
pub open spec fn skips(phase: PhaseView, image: Seq<char>) -> bool {
    phase == (PhaseView::Cleared { image }) || phase == (PhaseView::Replayed { image })
}

/// An image that the cache holds is looked for, after it has been marked as used where there
/// is a registry, and where it is there the main part is skipped.
pub proof fn law_cached_image_is_reused(
    c: ChunkView,
    s: BuildState,
    image: Seq<char>,
    stdout: Seq<char>,
)
    requires
        c.phase is LookedUp,
    ensures
        ({
            let t = turn(c, s, EventView::Row { image: Some(image) });
            let u = if s.cache_from is Some {
                turn(t.chunk, t.state, EventView::Done)
            } else {
                t
            };
            let v = turn(u.chunk, u.state, EventView::Output { success: true, stdout });
            &&& u.chunk.phase == (PhaseView::Checked { image })
            &&& skips(v.chunk.phase, image)
        }),
{
}

/// An image that the registry holds is stored in the cache under the hash of the chunk, and
/// the main part is skipped.
pub proof fn law_fetched_image_is_reused(c: ChunkView, s: BuildState, stdout: Seq<char>)
    requires
        c.phase is Fetched,
        s.cache_from is Some,
    ensures
        ({
            let t = turn(c, s, EventView::Output { success: true, stdout });
            let u = turn(t.chunk, t.state, EventView::Done);
            &&& t.action matches Ok(ActionView::Store { hash, image, .. }) && hash == c.hash && image
                == trim(stdout)
            &&& skips(u.chunk.phase, trim(stdout))
        }),
{
}

/// Where neither the cache nor the registry holds the image, the main part is executed from
/// its first step on.
pub proof fn law_miss_is_executed(c: ChunkView, s: BuildState, stdout: Seq<char>)
    requires
        c.phase is Fetched || (c.phase is LookedUp && s.cache_from is None),
    ensures
        c.phase is Fetched ==> turn(c, s, EventView::Output { success: false, stdout })
            == reach_main(c, s, c.head),
        c.phase is LookedUp ==> turn(c, s, EventView::Row { image: None }) == reach_main(
            c,
            s,
            c.head,
        ),
{
}

/// A chunk whose main part is skipped executes no further step: it runs no command, and when
/// it is done its image is the one that was known.
pub proof fn law_skipped_part_is_not_executed(
    c: ChunkView,
    s: BuildState,
    e: EventView,
    image: Seq<char>,
)
    requires
        skips(c.phase, image),
    ensures
        ({
            let t = turn(c, s, e);
            &&& !(t.action matches Ok(ActionView::Command { .. }))
            &&& match t.action {
                Ok(ActionView::Finish) => t.state.last_id == image,
                Ok(_) => skips(t.chunk.phase, image),
                Err(_) => t.chunk.phase is Finished,
            }
        }),
{
}

/// An image that was committed is handed over to be pushed where the cache is exported, is
/// stored in the cache under the hash of the chunk, and is the one that the build goes on
/// from.
pub proof fn law_committed_image_is_stored(c: ChunkView, s: BuildState, stdout: Seq<char>)
    requires
        c.phase is Committed,
    ensures
        ({
            let t = turn(c, s, EventView::Output { success: true, stdout });
            let u = if s.cache_to {
                turn(t.chunk, t.state, EventView::Done)
            } else {
                t
            };
            let image = trim(stdout);
            &&& s.cache_to ==> t.action == Ok::<ActionView, BuildFailure>(
                ActionView::Work {
                    work: WorkView::PushCache { buildah_id: image, hash: c.hash },
                },
            )
            &&& u.action == Ok::<ActionView, BuildFailure>(
                ActionView::Store { line: None, hash: c.hash, image },
            )
            &&& turn(u.chunk, u.state, EventView::Done).state.last_id == image
        }),
{
}

/// A chunk that has failed or is done stays so.
pub proof fn law_finished_chunk_stays_finished(c: ChunkView, s: BuildState, e: EventView)
    requires
        c.phase is Finished,
    ensures
        turn(c, s, e) == fail(c, s, BuildFailure::UnexpectedEvent),
{
}

// ---------------------------------------------------------------------------------------
// The hash
// ---------------------------------------------------------------------------------------
/// The hash of a chunk that can be hashed before anything is executed is the digest of its
/// base image and all its steps, where each step that brings files stands with their digests.
pub proof fn law_hash_covers_base_image_and_steps(
    c: ChunkView,
    s: BuildState,
    image: Seq<char>,
    environment: Seq<char>,
    files: Seq<Seq<Seq<u8>>>,
)
    requires
        c.hashed.len() == 0,
        inspected(c, s, image, environment).chunk.phase is Sourced,
        files.len() == copies(inspected(c, s, image, environment).chunk.steps),
    ensures
        ({
            let t = inspected(c, s, image, environment);
            digested(t.chunk, t.state, files).chunk.hash == lower_hex(
                blake3_digest(
                    tag(Operation::From) + encode_utf8(image) + steps_record(t.chunk.steps, files),
                ),
            )
        }),
{
    let t = inspected(c, s, image, environment);
    law_main_part_can_be_hashed(t.chunk.steps);
    assert(t.chunk.head == 0);
    assert(t.chunk.steps.skip(0) =~= t.chunk.steps);
    assert(t.chunk.hashed =~= tag(Operation::From) + encode_utf8(image));
}

/// The hash of a chunk that starts at a checkpoint covers the image of the chunk before it in
/// the same way.
pub proof fn law_checkpoint_hash_covers_base_image_and_steps(
    ops: Seq<Instruction>,
    s: BuildState,
    files: Seq<Seq<Seq<u8>>>,
)
    requires
        ops.len() > 0,
        ops[0].0 is Checkpoint,
        started(ops, s).chunk.phase is Sourced,
        files.len() == copies(started(ops, s).chunk.steps),
    ensures
        ({
            let t = started(ops, s);
            digested(t.chunk, t.state, files).chunk.hash == lower_hex(
                blake3_digest(
                    tag(Operation::From) + encode_utf8(s.last_id) + steps_record(
                        t.chunk.steps,
                        files,
                    ),
                ),
            )
        }),
{
    let t = started(ops, s);
    law_main_part_can_be_hashed(t.chunk.steps);
    assert(t.chunk.head == 0);
    assert(t.chunk.steps.skip(0) =~= t.chunk.steps);
}

/// What the executed steps of a head add to the hash, each with what its command wrote.
pub open spec fn head_record(steps: Seq<Step>, outputs: Seq<Seq<char>>) -> Seq<u8>
    decreases steps.len(),
{
    if steps.len() == 0 {
        seq![]
    } else {
        head_record(steps.drop_last(), outputs.drop_last()) + step_record(
            steps.last(),
            encode_utf8(outputs.last()),
        )
    }
}

/// Whether a chunk has hashed its base image and some steps of its head, which wrote the given
/// outputs.
pub open spec fn has_hashed(c: ChunkView, base: Seq<u8>, outputs: Seq<Seq<char>>) -> bool {
    outputs.len() <= c.steps.len() && c.hashed == base + head_record(
        c.steps.take(outputs.len() as int),
        outputs,
    )
}

/// A step of the head that has been executed is hashed with what its command wrote, and the
/// steps stay as they are.
pub proof fn law_head_step_is_hashed_with_its_output(
    c: ChunkView,
    s: BuildState,
    stdout: Seq<char>,
    base: Seq<u8>,
    outputs: Seq<Seq<char>>,
)
    requires
        c.phase == (PhaseView::Ran { at: outputs.len() as int }),
        outputs.len() < c.head <= c.steps.len(),
        has_hashed(c, base, outputs),
    ensures
        ({
            let t = turn(c, s, EventView::Output { success: true, stdout });
            t.chunk.steps == c.steps && t.chunk.head == c.head && has_hashed(
                t.chunk,
                base,
                outputs.push(trim(stdout)),
            )
        }),
{
    let n = outputs.len() as int;
    let more = outputs.push(trim(stdout));
    assert(c.steps.take(n + 1).drop_last() =~= c.steps.take(n));
    assert(more.drop_last() =~= outputs);
    assert(c.hashed + step_record(c.steps[n], encode_utf8(trim(stdout))) =~= base + head_record(
        c.steps.take(n + 1),
        more,
    ));
}

/// The hash of any chunk is the digest of its base image, the steps of its head with what
/// their commands wrote, and the steps of its main part with the digests of their files.
pub proof fn law_hash_covers_head_and_main_part(
    c: ChunkView,
    s: BuildState,
    base: Seq<u8>,
    outputs: Seq<Seq<char>>,
    files: Seq<Seq<Seq<u8>>>,
)
    requires
        c.phase is Sourced,
        outputs.len() == c.head,
        has_hashed(c, base, outputs),
        files.len() == copies(c.steps.skip(c.head)),
    ensures
        turn(c, s, EventView::Digests { files }).chunk.hash == lower_hex(
            blake3_digest(
                base + head_record(c.steps.take(c.head), outputs) + steps_record(
                    c.steps.skip(c.head),
                    files,
                ),
            ),
        ),
{
}

/// What has been hashed is only ever added to.
pub proof fn law_hash_only_grows(c: ChunkView, s: BuildState, e: EventView)
    ensures
        c.hashed.is_prefix_of(turn(c, s, e).chunk.hashed),
{
    let t = turn(c, s, e);
    assert(c.hashed.is_prefix_of(c.hashed));
}

// ---------------------------------------------------------------------------------------
// The container
// ---------------------------------------------------------------------------------------
/// The first step of a chunk is the one that starts it, and the head is a part of the chunk.
pub open spec fn well_begun(c: ChunkView) -> bool {
    c.steps.len() > 0 && c.steps[0].op.starts_chunk() && 0 <= c.head <= c.steps.len()
}

/// Where a chunk needs a container there is one, and where it has none left there is none.
pub open spec fn sound(c: ChunkView, s: BuildState) -> bool {
    match c.phase {
        PhaseView::Finished => true,
        PhaseView::Cleared { .. } | PhaseView::Committed | PhaseView::Pushed { .. }
        | PhaseView::Saved { .. } | PhaseView::Removed => s.container is Some,
        PhaseView::Replayed { .. } => s.container is None,
        PhaseView::Said { at } | PhaseView::Ran { at } => well_begun(c) && 0 <= at < c.steps.len()
            && (at > 0 ==> s.container is Some),
        PhaseView::Opened | PhaseView::Pulled | PhaseView::Recorded { .. }
        | PhaseView::Inspected { .. } => well_begun(c),
        _ => well_begun(c) && (c.head > 0 ==> s.container is Some),
    }
}

/// A failure for want of a container.
pub open spec fn lacks_container(r: Result<ActionView, BuildFailure>) -> bool {
    r matches Err(BuildFailure::NoContainer { .. })
}

/// A turn that leaves a chunk sound, does not fail for want of a container, and leaves no
/// container behind where it is the last.
pub open spec fn keeps_container(t: Turn) -> bool {
    &&& sound(t.chunk, t.state)
    &&& !lacks_container(t.action)
    &&& t.action == Ok::<ActionView, BuildFailure>(ActionView::Finish) ==> t.state.container is None
}

proof fn lemma_prepared_errors(ops: Seq<Instruction>, stage: Vars, global: Vars)
    ensures
        !(prepared_all(ops, stage, global).1 matches Err(BuildFailure::NoContainer { .. })),
    decreases ops.len(),
{
    if ops.len() > 0 {
        lemma_prepared_errors(ops.drop_last(), stage, global);
    }
}

proof fn lemma_source_errors(ctx: Seq<char>, steps: Seq<Step>)
    ensures
        !(source_lists(ctx, steps) matches Err(BuildFailure::NoContainer { .. })),
    decreases steps.len(),
{
    if steps.len() > 0 {
        lemma_source_errors(ctx, steps.drop_last());
    }
}

proof fn lemma_step_errors(step: Step, s: BuildState)
    requires
        step.op.starts_chunk() || s.container is Some,
    ensures
        !(step_args(step, s) matches Err(BuildFailure::NoContainer { .. })),
        step_state(step, s).container == s.container,
{
}

proof fn lemma_perform_keeps(c: ChunkView, s: BuildState, at: int)
    requires
        well_begun(c),
        0 <= at < c.steps.len(),
        at > 0 ==> s.container is Some,
    ensures
        keeps_container(perform(c, s, at)),
        keeps_container(reach(c, s, at)),
{
    lemma_step_errors(c.steps[at], s);
}

proof fn lemma_reach_keeps(c: ChunkView, s: BuildState, at: int)
    requires
        well_begun(c),
        0 <= at <= c.steps.len(),
        at > 0 ==> s.container is Some,
    ensures
        at <= c.head ==> keeps_container(reach_head(c, s, at)),
        at >= c.head ==> keeps_container(reach_main(c, s, at)),
{
    if at < c.steps.len() {
        lemma_perform_keeps(c, s, at);
    }
    lemma_source_errors(s.context_dir, c.steps.skip(c.head));
}

proof fn lemma_begin_keeps(c: ChunkView, s: BuildState)
    requires
        c.steps.len() > 0,
        c.steps[0].op.starts_chunk(),
    ensures
        keeps_container(begin(c, s)),
{
    lemma_prepared_errors(c.rest, s.stage, s.global);
    let (stage, r) = prepared_all(c.rest, s.stage, s.global);
    if let Ok(more) = r {
        let steps = c.steps + more;
        law_main_part_can_be_hashed(steps);
        let next = ChunkView { steps, head: head_len(steps), ..c };
        assert(steps[0] == c.steps[0]);
        lemma_reach_keeps(next, with_stage(s, stage), 0);
    }
}

/// A chunk that is started without a container is sound.
pub proof fn law_started_chunk_is_sound(ops: Seq<Instruction>, s: BuildState)
    requires
        s.container is None,
    ensures
        keeps_container(started(ops, s)),
{
    if ops.len() > 0 && ops[0].0 is Checkpoint {
        let c = ChunkView {
            steps: seq![plain_step(Operation::Checkpoint, ops[0].1)],
            hashed: tag(Operation::From) + encode_utf8(s.last_id),
            ..fresh(ops.drop_first())
        };
        lemma_begin_keeps(c, s);
    } else if !(ops.len() > 0 && ops[0].0 is From) {
        lemma_preamble_errors(ops, s.global);
    }
}

proof fn lemma_preamble_errors(ops: Seq<Instruction>, global: Vars)
    ensures
        !(preamble(ops, global).1 matches Some(BuildFailure::NoContainer { .. })),
    decreases ops.len(),
{
    if ops.len() > 0 {
        lemma_preamble_errors(ops.drop_last(), global);
    }
}

proof fn lemma_done_keeps(c: ChunkView, s: BuildState)
    requires
        sound(c, s),
    ensures
        keeps_container(done(c, s)),
{
    match c.phase {
        PhaseView::Opened => {
            let from = from_parts(c.steps[0].line).0;
            if from == "scratch"@ {
                lemma_begin_keeps(
                    ChunkView {
                        hashed: c.hashed + tag(Operation::From) + encode_utf8("scratch"@) + seq![
                            0u8,
                        ],
                        ..c
                    },
                    s,
                );
            }
        },
        PhaseView::Said { at } => {
            lemma_perform_keeps(c, s, at);
        },
        PhaseView::Forgot => {
            lemma_reach_keeps(c, s, c.head);
        },
        _ => {},
    }
}

proof fn lemma_output_keeps(c: ChunkView, s: BuildState, success: bool, stdout: Seq<char>)
    requires
        sound(c, s),
    ensures
        keeps_container(command_ended(c, s, success, stdout)),
{
    match c.phase {
        PhaseView::Inspected { image } => {
            lemma_begin_keeps(
                ChunkView { hashed: c.hashed + tag(Operation::From) + encode_utf8(image), ..c },
                with_stage(s, env_listed(s.stage, lines(stdout))),
            );
        },
        PhaseView::Ran { at } => {
            let step = c.steps[at];
            let after = if step.op.starts_chunk() {
                BuildState { container: Some(trim(stdout)), ..s }
            } else {
                s
            };
            let more = ChunkView {
                hashed: c.hashed + step_record(step, encode_utf8(trim(stdout))),
                ..c
            };
            lemma_reach_keeps(more, after, at + 1);
            lemma_reach_keeps(c, after, at + 1);
        },
        PhaseView::Fetched => {
            lemma_reach_keeps(c, s, c.head);
        },
        _ => {},
    }
}

/// A sound chunk stays sound whatever happens. It never fails for want of a container: a step
/// is executed only where there is one, and so is the commit. A chunk that is done has left
/// no container behind.
pub proof fn law_sound_chunk_keeps_its_container(c: ChunkView, s: BuildState, e: EventView)
    requires
        sound(c, s),
    ensures
        keeps_container(turn(c, s, e)),
{
    match e {
        EventView::Done => {
            lemma_done_keeps(c, s);
        },
        EventView::Output { success, stdout } => {
            lemma_output_keeps(c, s, success, stdout);
        },
        EventView::Digests { files } => {
            if c.phase is Sourced {
                let main = c.steps.skip(c.head);
                let all = c.hashed + steps_record(main, files);
                let known = ChunkView { hashed: all, hash: lower_hex(blake3_digest(all)), ..c };
                lemma_reach_keeps(known, s, c.head);
            }
        },
        EventView::Row { image } => {
            if c.phase is LookedUp {
                lemma_reach_keeps(c, s, c.head);
            }
        },
    }
}

// ---------------------------------------------------------------------------------------
// Stages
// ---------------------------------------------------------------------------------------
/// A stage starts without the variables of the stage before it, and those of the build as a
/// whole stay as they are.
pub proof fn law_stage_starts_without_variables(ops: Seq<Instruction>, s: BuildState)
    requires
        ops.len() > 0,
        ops[0].0 is From,
    ensures
        started(ops, s).state.stage == Vars::none(),
        started(ops, s).state.global == s.global,
{
}

/// When a new stage starts, the image of a named stage before it can be referred to by its
/// name, and what other names stand for stays as it was.
pub proof fn law_named_stage_can_be_referred_to(s: BuildState, name: Seq<char>, other: Seq<char>)
    requires
        s.cur_as == Some(name),
        other != name,
    ensures
        stage_ended(s).image_for(name) == s.last_id,
        stage_ended(s).image_for(other) == s.image_for(other),
{
}

} // verus!
