//! What a chunk does next in each phase, and what it takes over from each event.
use vstd::prelude::*;
use vstd::utf8::encode_utf8;

use crate::actions::{
    skipped_lines, source_lists, step_args, step_state, ActionView, EventView, Stream, WorkView,
};
use crate::chunk::{env_listed, stage_ended, started, turn, ChunkView, PhaseView, Turn};
use crate::commands::from_parts;
use crate::copy::{expanded_line, has_url_source, operand_words, SourceView};
use crate::errors::BuildFailure;
use crate::external::{blake3_digest, lower_hex, shell_words};
use crate::parse::Instruction;
use crate::state::{op_name, BuildState, Operation, Vars};
use crate::steps::{
    copies, hashable, head_len, law_main_part_can_be_hashed, prepared_all, step_record,
    steps_record, tag, Step,
};
use crate::substitute::expand;
use crate::text::{contains, lines, split_once, trim};
use crate::text_laws::law_split_at_character;

verus! {

/// Whether a turn asks for a command with given words, whose output is treated in given ways.
pub open spec fn asks_command(
    t: Turn,
    args: Seq<Seq<char>>,
    stdout: Stream,
    stderr: Stream,
) -> bool {
    t.action == Ok::<ActionView, BuildFailure>(ActionView::Command { args, stdout, stderr })
}

/// Whether a turn tells of a step that starts no stage, with which the chunk goes on.
pub open spec fn tells_of(t: Turn, steps: Seq<Step>, at: int) -> bool {
    let step = steps[at];
    &&& t.chunk.phase == (PhaseView::Said { at })
    &&& step.op is Checkpoint ==> t.action == Ok::<ActionView, BuildFailure>(
        ActionView::Announce { lines: seq!["\x1b[34mCHECKPOINT\x1b[0m"@] },
    )
    &&& !(step.op is Checkpoint) ==> t.action == Ok::<ActionView, BuildFailure>(
        ActionView::Announce {
            lines: seq!["\x1b[34m"@ + op_name(step.op) + " "@ + step.line + "\x1b[0m"@],
        },
    )
}

/// Whether a turn goes on with a step of a chunk: one that starts a stage has been told of before
/// and is executed at once, and any other is told of.
pub open spec fn goes_on_with(t: Turn, s: BuildState, steps: Seq<Step>, at: int) -> bool {
    if steps[at].op is From {
        match step_args(steps[at], s) {
            Ok(args) => t.chunk.phase == (PhaseView::Ran { at }) && asks_command(
                t,
                args,
                Stream::Capture,
                Stream::Inherit,
            ),
            Err(e) => t.action == Err::<ActionView, BuildFailure>(e),
        }
    } else {
        tells_of(t, steps, at)
    }
}

// ---------------------------------------------------------------------------------------
// The start
// ---------------------------------------------------------------------------------------
/// A chunk that starts with FROM tells of its line, which is expanded with the global variables,
/// and takes the name of the stage from it. Where the line cannot be expanded the chunk fails.
pub proof fn law_stage_is_opened(ops: Seq<Instruction>, s: BuildState)
    requires
        ops.len() > 0,
        ops[0].0 is From,
    ensures
        match expand(ops[0].1, s.global) {
            Err(inner) => started(ops, s).action == Err::<ActionView, BuildFailure>(
                BuildFailure::MissingBrace { inner },
            ),
            Ok(line) => {
                let t = started(ops, s);
                &&& t.action == Ok::<ActionView, BuildFailure>(
                    ActionView::Announce { lines: seq!["\x1b[34mFROM "@ + line + "\x1b[0m"@] },
                )
                &&& t.chunk.phase is Opened
                &&& t.chunk.rest == ops.drop_first()
                &&& t.chunk.steps.len() == 1
                &&& t.chunk.steps[0].op is From
                &&& t.chunk.steps[0].line == line
                &&& t.chunk.hashed.len() == 0
                &&& t.state.cur_as == from_parts(line).1
            },
        },
{
    reveal_strlit("\x1b[34m");
    reveal_strlit("FROM");
    reveal_strlit(" ");
    reveal_strlit("\x1b[34mFROM ");
    assert("\x1b[34m"@ + "FROM"@ + " "@ =~= "\x1b[34mFROM "@);
}

/// What stands before the first FROM asks for nothing to be done: it is done at once, or fails,
/// and changes the global variables only.
pub proof fn law_preamble_asks_for_nothing(ops: Seq<Instruction>, s: BuildState)
    requires
        ops.len() == 0 || !ops[0].0.starts_chunk(),
    ensures
        ({
            let t = started(ops, s);
            &&& t.action is Err || t.action == Ok::<ActionView, BuildFailure>(ActionView::Finish)
            &&& t.chunk.phase is Finished
            &&& t.state.stage == s.stage
            &&& t.state.container == s.container
            &&& t.state.last_id == s.last_id
            &&& t.state.as_images == s.as_images
        }),
{
}

/// When a stage without a name ends, what the names of stages stand for stays as it was, and so
/// does the image that the build goes on from. When one with a name ends, there is no image to go
/// on from.
pub proof fn law_stage_ends(s: BuildState)
    ensures
        s.cur_as is None ==> stage_ended(s).as_images == s.as_images && stage_ended(s).last_id
            == s.last_id,
        s.cur_as is Some ==> stage_ended(s).last_id.len() == 0 && stage_ended(s).as_images
            == s.as_images.insert(s.cur_as->0, s.last_id),
        stage_ended(s).cur_as is None,
        stage_ended(s).stage == Vars::none(),
        stage_ended(s).global == s.global,
        stage_ended(s).container == s.container,
        stage_ended(s).context_dir == s.context_dir,
        stage_ended(s).no_cache == s.no_cache,
        stage_ended(s).cache_to == s.cache_to,
        stage_ended(s).cache_from == s.cache_from,
        stage_ended(s).format == s.format,
        stage_ended(s).network == s.network,
{
}

// ---------------------------------------------------------------------------------------
// The base image
// ---------------------------------------------------------------------------------------
/// The base image of a stage is that of the named stage where there is one, which is inspected
/// at once; else it is pulled. The empty image is neither.
pub proof fn law_base_image_is_found(c: ChunkView, s: BuildState)
    requires
        c.phase is Opened,
        c.steps.len() > 0,
    ensures
        ({
            let t = turn(c, s, EventView::Done);
            let from = from_parts(c.steps[0].line).0;
            &&& from == "scratch"@ ==> t.chunk.hashed == c.hashed + tag(Operation::From)
                + encode_utf8("scratch"@) + seq![0u8]
            &&& from != "scratch"@ && s.as_images.dom().contains(from) ==> t.chunk.phase == (
            PhaseView::Inspected { image: s.as_images[from] }) && asks_command(
                t,
                seq![
                    "inspect"@,
                    "--format"@,
                    "{{range .OCIv1.Config.Env}}{{.}}\n{{end}}"@,
                    s.as_images[from],
                ],
                Stream::Capture,
                Stream::Inherit,
            )
            &&& from != "scratch"@ && !s.as_images.dom().contains(from) ==> t.chunk.phase is Pulled
                && asks_command(t, seq!["pull"@, from], Stream::Capture, Stream::Inherit)
        }),
{
}

/// An image that was pulled is noted as used, under the ID that the command wrote, and then
/// inspected.
pub proof fn law_pulled_image_is_inspected(c: ChunkView, s: BuildState, stdout: Seq<char>)
    requires
        c.phase is Pulled,
    ensures
        ({
            let t = turn(c, s, EventView::Output { success: true, stdout });
            let u = turn(t.chunk, t.state, EventView::Done);
            &&& t.action == Ok::<ActionView, BuildFailure>(
                ActionView::RecordRemote { image: trim(stdout) },
            )
            &&& t.state == s
            &&& u.chunk.phase == (PhaseView::Inspected { image: trim(stdout) })
            &&& asks_command(
                u,
                seq![
                    "inspect"@,
                    "--format"@,
                    "{{range .OCIv1.Config.Env}}{{.}}\n{{end}}"@,
                    trim(stdout),
                ],
                Stream::Capture,
                Stream::Inherit,
            )
        }),
{
}

proof fn lemma_env_listed_push(vars: Vars, ls: Seq<Seq<char>>, l: Seq<char>)
    ensures
        env_listed(vars, ls.push(l)) == (match split_once(l, "="@) {
            Some((k, v)) => env_listed(vars, ls).with_env(k, v),
            None => env_listed(vars, ls),
        }),
    decreases ls.len(),
{
    let more = ls.push(l);
    if ls.len() == 0 {
        assert(more.drop_first() =~= ls);
        let next = match split_once(l, "="@) {
            Some((k, v)) => vars.with_env(k, v),
            None => vars,
        };
        assert(env_listed(next, ls) == next);
        assert(env_listed(vars, ls) == vars);
    } else {
        assert(more.drop_first() =~= ls.drop_first().push(l));
        let next = match split_once(ls[0], "="@) {
            Some((k, v)) => vars.with_env(k, v),
            None => vars,
        };
        lemma_env_listed_push(next, ls.drop_first(), l);
    }
}

/// Each line KEY=VALUE of the environment of the base image is a variable of the stage, where a
/// later line goes before an earlier one. A line without an equals sign is passed over.
pub proof fn law_base_environment_is_taken_over(
    vars: Vars,
    ls: Seq<Seq<char>>,
    key: Seq<char>,
    value: Seq<char>,
)
    requires
        !key.contains('='),
    ensures
        env_listed(vars, seq![]) == vars,
        env_listed(vars, ls.push(key + "="@ + value)).env == env_listed(vars, ls).env.insert(
            key,
            value,
        ),
        env_listed(vars, ls.push(key + "="@ + value)).args == env_listed(vars, ls).args,
        env_listed(vars, ls.push(key)) == env_listed(vars, ls),
{
    reveal_strlit("=");
    assert("="@ =~= seq!['=']);
    law_split_at_character(key, '=', value);
    lemma_env_listed_push(vars, ls, key + "="@ + value);
    lemma_env_listed_push(vars, ls, key);
}

/// The instructions of a stage are prepared with the variables of its base image. Behind its
/// start stand the steps that they become.
pub proof fn law_stage_is_prepared(
    c: ChunkView,
    s: BuildState,
    image: Seq<char>,
    stdout: Seq<char>,
)
    requires
        c.phase == (PhaseView::Inspected { image }),
    ensures
        ({
            let t = turn(c, s, EventView::Output { success: true, stdout });
            match prepared_all(c.rest, env_listed(s.stage, lines(stdout)), s.global) {
                (_, Err(e)) => t.action == Err::<ActionView, BuildFailure>(e)
                    && t.chunk.phase is Finished,
                (stage, Ok(more)) => {
                    &&& t.chunk.steps == c.steps + more
                    &&& t.chunk.head == head_len(c.steps + more)
                    &&& t.chunk.hashed == c.hashed + tag(Operation::From) + encode_utf8(image)
                    &&& t.chunk.head == 0 ==> t.state.stage == stage
                    &&& t.state.global == s.global
                },
            }
        }),
{
}

// ---------------------------------------------------------------------------------------
// Steps
// ---------------------------------------------------------------------------------------
/// A step that has been told of is executed: its command is run, and what it writes is read where
/// it names the container or stands for files, and shown otherwise. Where it comes to no command
/// the chunk fails.
pub proof fn law_step_is_executed(c: ChunkView, s: BuildState, at: int)
    requires
        c.phase == (PhaseView::Said { at }),
        0 <= at < c.steps.len(),
    ensures
        ({
            let t = turn(c, s, EventView::Done);
            let op = c.steps[at].op;
            match step_args(c.steps[at], s) {
                Err(e) => t.action == Err::<ActionView, BuildFailure>(e)
                    && t.chunk.phase is Finished,
                Ok(args) => t.chunk.phase == (PhaseView::Ran { at }) && asks_command(
                    t,
                    args,
                    if op is From || op is Checkpoint || op is Copy || op is Add {
                        Stream::Capture
                    } else {
                        Stream::Inherit
                    },
                    Stream::Inherit,
                ) && t.state == step_state(c.steps[at], s),
            }
        }),
{
}

/// The steps of a chunk are executed in their order: behind each stands the next one, up to the
/// end of the head, where the hash comes, and up to the end of the chunk, where the commit comes.
pub proof fn law_steps_are_executed_in_order(
    c: ChunkView,
    s: BuildState,
    at: int,
    stdout: Seq<char>,
)
    requires
        c.phase == (PhaseView::Ran { at }),
        0 <= at < c.steps.len(),
        0 <= c.head <= c.steps.len(),
    ensures
        ({
            let t = turn(c, s, EventView::Output { success: true, stdout });
            let on = at + 1 < c.steps.len() && at + 1 != c.head;
            &&& t.chunk.steps == c.steps
            &&& t.chunk.head == c.head
            &&& on && !(c.steps[at + 1].op is From) ==> tells_of(t, c.steps, at + 1)
            &&& at + 1 == c.head ==> t.chunk.phase is Sourced || t.action is Err
            &&& at + 1 == c.steps.len() && at >= c.head ==> t.chunk.phase is Committed
                || t.action is Err
        }),
{
}

/// The container of a build is the one that the start of a chunk has made, under the name that
/// its command wrote. No other step changes it.
pub proof fn law_start_makes_the_container(
    c: ChunkView,
    s: BuildState,
    at: int,
    stdout: Seq<char>,
)
    requires
        c.phase == (PhaseView::Ran { at }),
        0 <= at < c.steps.len(),
        0 <= c.head <= c.steps.len(),
        at + 1 < c.steps.len() ==> !(c.steps[at + 1].op is From),
    ensures
        ({
            let t = turn(c, s, EventView::Output { success: true, stdout });
            let op = c.steps[at].op;
            &&& op is From || op is Checkpoint ==> t.state == (BuildState {
                container: Some(trim(stdout)),
                ..s
            })
            &&& !(op is From) && !(op is Checkpoint) ==> t.state == s
        }),
{
}

/// A step of the head is hashed with what its command wrote, and one of the main part adds
/// nothing to the hash any more.
pub proof fn law_only_the_head_is_hashed_when_executed(
    c: ChunkView,
    s: BuildState,
    at: int,
    stdout: Seq<char>,
)
    requires
        c.phase == (PhaseView::Ran { at }),
    ensures
        ({
            let t = turn(c, s, EventView::Output { success: true, stdout });
            &&& at < c.head ==> t.chunk.hashed == c.hashed + step_record(
                c.steps[at],
                encode_utf8(trim(stdout)),
            )
            &&& at >= c.head ==> t.chunk.hashed == c.hashed
            &&& t.chunk.hash == c.hash
        }),
{
}

/// A command that fails ends the chunk, but for those that only ask whether an image is there.
pub proof fn law_failed_command_ends_the_chunk(c: ChunkView, s: BuildState, stdout: Seq<char>)
    requires
        c.phase is Pulled || c.phase is Inspected || c.phase is Ran || c.phase is Cleared
            || c.phase is Committed || c.phase is Removed,
    ensures
        ({
            let t = turn(c, s, EventView::Output { success: false, stdout });
            &&& t.action == Err::<ActionView, BuildFailure>(BuildFailure::CommandFailed)
            &&& t.chunk.phase is Finished
            &&& t.state == s
        }),
{
}

/// An event that a phase does not wait for ends the chunk.
pub proof fn law_unexpected_event_ends_the_chunk(c: ChunkView, s: BuildState, e: EventView)
    requires
        match e {
            EventView::Done => c.phase is Pulled || c.phase is Inspected || c.phase is Ran
                || c.phase is Sourced || c.phase is LookedUp || c.phase is Checked
                || c.phase is Fetched || c.phase is Cleared || c.phase is Committed
                || c.phase is Removed || c.phase is Finished,
            EventView::Output { .. } => c.phase is Opened || c.phase is Recorded || c.phase is Said
                || c.phase is Sourced || c.phase is LookedUp || c.phase is Marked
                || c.phase is Forgot || c.phase is Stored || c.phase is Replayed
                || c.phase is Pushed || c.phase is Saved || c.phase is Finished,
            EventView::Digests { .. } => !(c.phase is Sourced),
            EventView::Row { .. } => !(c.phase is LookedUp),
        },
    ensures
        turn(c, s, e).action == Err::<ActionView, BuildFailure>(BuildFailure::UnexpectedEvent),
        turn(c, s, e).chunk.phase is Finished,
        turn(c, s, e).state == s,
{
}

// ---------------------------------------------------------------------------------------
// The head
// ---------------------------------------------------------------------------------------
/// Every instruction can be hashed but a COPY or ADD that reads from another image, and an ADD
/// that fetches a source over the network.
pub proof fn law_what_can_be_hashed(step: Step)
    ensures
        !(step.op is Copy) && !(step.op is Add) ==> hashable(step),
        step.op is Copy ==> hashable(step) == !contains(step.line, "--from"@),
        step.op is Add && contains(step.line, "--from"@) ==> !hashable(step),
        step.op is Add && !contains(step.line, "--from"@) ==> match shell_words(step.line) {
            Some(ws) => hashable(step) == !has_url_source(operand_words(ws)),
            None => hashable(step),
        },
{
}

/// The head of a chunk ends behind the last step that cannot be hashed, and where every step can
/// be hashed there is no head.
pub proof fn law_head_ends_behind_the_last(steps: Seq<Step>, i: int)
    requires
        0 <= i < steps.len(),
        !hashable(steps[i]),
    ensures
        i < head_len(steps) <= steps.len(),
        !hashable(steps[head_len(steps) - 1]),
{
    law_main_part_can_be_hashed(steps);
}

/// Each step that brings files asks for the files of its own sources, in the order of the steps,
/// and no other step asks for any.
pub proof fn law_sources_are_asked_for_in_order(ctx: Seq<char>, steps: Seq<Step>, step: Step)
    ensures
        source_lists(ctx, seq![]) == Ok::<Seq<Seq<SourceView>>, BuildFailure>(seq![]),
        match (source_lists(ctx, steps), expanded_line(ctx, step.line)) {
            (Err(e), _) => source_lists(ctx, steps.push(step)) == Err::<
                Seq<Seq<SourceView>>,
                BuildFailure,
            >(e),
            (Ok(lists), r) => if step.op is Copy || step.op is Add {
                match r {
                    Ok(list) => source_lists(ctx, steps.push(step)) == Ok::<
                        Seq<Seq<SourceView>>,
                        BuildFailure,
                    >(lists.push(list)),
                    Err(e) => source_lists(ctx, steps.push(step)) == Err::<
                        Seq<Seq<SourceView>>,
                        BuildFailure,
                    >(e),
                }
            } else {
                source_lists(ctx, steps.push(step)) == Ok::<Seq<Seq<SourceView>>, BuildFailure>(
                    lists,
                )
            },
        },
{
    assert(steps.push(step).drop_last() =~= steps);
}

// ---------------------------------------------------------------------------------------
// The cache
// ---------------------------------------------------------------------------------------
/// Once the files are hashed, the hash of the chunk is the digest of all that was hashed, and the
/// cache is asked for it. A build without a cache goes on with the main part instead.
pub proof fn law_hash_is_looked_up(c: ChunkView, s: BuildState, files: Seq<Seq<Seq<u8>>>)
    requires
        c.phase is Sourced,
        files.len() == copies(c.steps.skip(c.head)),
        0 <= c.head < c.steps.len(),
    ensures
        ({
            let t = turn(c, s, EventView::Digests { files });
            let hash = lower_hex(
                blake3_digest(c.hashed + steps_record(c.steps.skip(c.head), files)),
            );
            &&& t.chunk.hash == hash
            &&& !s.no_cache ==> t.chunk.phase is LookedUp && t.action == Ok::<
                ActionView,
                BuildFailure,
            >(ActionView::Lookup { hash })
            &&& s.no_cache ==> goes_on_with(t, s, c.steps, c.head)
        }),
{
}

/// An image that the cache holds is marked as used in the registry, where there is one, and then
/// it is asked whether the image is still there.
pub proof fn law_cached_image_is_checked(c: ChunkView, s: BuildState, image: Seq<char>)
    requires
        c.phase is LookedUp,
    ensures
        ({
            let t = turn(c, s, EventView::Row { image: Some(image) });
            let u = if s.cache_from is Some {
                turn(t.chunk, t.state, EventView::Done)
            } else {
                t
            };
            &&& s.cache_from is Some ==> t.action == Ok::<ActionView, BuildFailure>(
                ActionView::Work { work: WorkView::LruMarkCache { hash: c.hash } },
            )
            &&& u.chunk.phase == (PhaseView::Checked { image })
            &&& asks_command(
                u,
                seq!["images"@, "--format"@, "{{.ID}}"@, image],
                Stream::Discard,
                Stream::Inherit,
            )
        }),
{
}

/// Where a cached image is gone, its hash is forgotten, and the registry is asked as if the cache
/// had never held it.
pub proof fn law_gone_image_is_forgotten(
    c: ChunkView,
    s: BuildState,
    image: Seq<char>,
    stdout: Seq<char>,
    d: ChunkView,
)
    requires
        c.phase == (PhaseView::Checked { image }),
        d == (ChunkView { phase: PhaseView::LookedUp, ..c }),
    ensures
        ({
            let t = turn(c, s, EventView::Output { success: false, stdout });
            &&& t.action == Ok::<ActionView, BuildFailure>(
                ActionView::Forget {
                    line: "\x1b[31mCACHE FAILURE\x1b[0m Failed to check if image exists: "@ + image,
                    hash: c.hash,
                },
            )
            &&& turn(t.chunk, t.state, EventView::Done) == turn(d, s, EventView::Row { image: None })
        }),
{
}

/// Where the cache does not hold the image, the registry is asked for it under the hash, where
/// there is one; otherwise the main part is executed.
pub proof fn law_registry_is_asked(c: ChunkView, s: BuildState)
    requires
        c.phase is LookedUp,
        0 <= c.head < c.steps.len(),
    ensures
        ({
            let t = turn(c, s, EventView::Row { image: None });
            match s.cache_from {
                Some(repository) => t.chunk.phase is Fetched && asks_command(
                    t,
                    seq!["pull"@, repository + ":"@ + c.hash],
                    Stream::Capture,
                    Stream::Discard,
                ),
                None => goes_on_with(t, s, c.steps, c.head),
            }
        }),
{
}

/// Where the registry does not hold the image either, the main part is executed from its first
/// step on. Where it does, the image is stored in the cache under the hash.
pub proof fn law_registry_has_answered(c: ChunkView, s: BuildState, stdout: Seq<char>)
    requires
        c.phase is Fetched,
        s.cache_from is Some,
        0 <= c.head < c.steps.len(),
    ensures
        goes_on_with(
            turn(c, s, EventView::Output { success: false, stdout }),
            s,
            c.steps,
            c.head,
        ),
        turn(c, s, EventView::Output { success: true, stdout }).action == Ok::<
            ActionView,
            BuildFailure,
        >(
            ActionView::Store {
                line: Some("\x1b[32mCACHE HIT\x1b[0m "@ + (s.cache_from->0 + ":"@ + c.hash)),
                hash: c.hash,
                image: trim(stdout),
            },
        ),
{
}

/// A main part that is skipped removes the container that the head has made, if any, tells of its
/// steps as skipped, and leaves the known image as the one that the build goes on from.
pub proof fn law_skipped_part_is_told_of(
    c: ChunkView,
    s: BuildState,
    image: Seq<char>,
    stdout: Seq<char>,
    rest: Seq<char>,
)
    requires
        c.phase == (PhaseView::Checked { image }),
    ensures
        ({
            let t = turn(c, s, EventView::Output { success: true, stdout });
            let u = if s.container is Some {
                turn(t.chunk, t.state, EventView::Output { success: true, stdout: rest })
            } else {
                t
            };
            let v = turn(u.chunk, u.state, EventView::Done);
            &&& s.container matches Some(k) ==> asks_command(
                t,
                seq!["rm"@, k],
                Stream::Discard,
                Stream::Inherit,
            )
            &&& u.state.container is None
            &&& u.action == Ok::<ActionView, BuildFailure>(
                ActionView::Announce { lines: skipped_lines(c.steps.skip(c.head)) },
            )
            &&& v.action == Ok::<ActionView, BuildFailure>(ActionView::Finish)
            &&& v.state == (BuildState { container: None, last_id: image, ..s })
        }),
{
}

/// Each step of a part that is skipped is told of, in order, but for the start of a stage.
pub proof fn law_each_skipped_step_is_told_of(steps: Seq<Step>, step: Step)
    ensures
        skipped_lines(seq![]) == Seq::<Seq<char>>::empty(),
        step.op is From ==> skipped_lines(steps.push(step)) == skipped_lines(steps),
        !(step.op is From) ==> skipped_lines(steps.push(step)) == skipped_lines(steps).push(
            "\x1b[32m"@ + op_name(step.op) + " "@ + step.line + "\x1b[0m"@,
        ),
{
    assert(steps.push(step).drop_last() =~= steps);
}

// ---------------------------------------------------------------------------------------
// The commit
// ---------------------------------------------------------------------------------------
/// Behind the last step the container is committed, under the name that the hash is cached under.
pub proof fn law_container_is_committed(c: ChunkView, s: BuildState, at: int, stdout: Seq<char>)
    requires
        c.phase == (PhaseView::Ran { at }),
        at + 1 == c.steps.len(),
        0 < c.head <= at || (c.head == 0 && at > 0),
        !c.steps[at].op.starts_chunk(),
        s.container is Some,
    ensures
        ({
            let t = turn(c, s, EventView::Output { success: true, stdout });
            &&& t.chunk.phase is Committed
            &&& asks_command(
                t,
                seq!["commit"@, s.container->0, "localhost/dockfoxbuild_cache:"@ + c.hash],
                Stream::Capture,
                Stream::Inherit,
            )
        }),
{
}

/// Once the image of a chunk is stored, it is the one that the build goes on from, its container
/// is removed, and the chunk is done.
pub proof fn law_chunk_is_done(
    c: ChunkView,
    s: BuildState,
    image: Seq<char>,
    container: Seq<char>,
    stdout: Seq<char>,
)
    requires
        c.phase == (PhaseView::Saved { image }),
        s.container == Some(container),
    ensures
        ({
            let t = turn(c, s, EventView::Done);
            let u = turn(t.chunk, t.state, EventView::Output { success: true, stdout });
            &&& asks_command(t, seq!["rm"@, container], Stream::Inherit, Stream::Inherit)
            &&& u.action == Ok::<ActionView, BuildFailure>(ActionView::Finish)
            &&& u.state == (BuildState { container: None, last_id: image, ..s })
        }),
{
}

/// A chunk cannot be hashed with another number of lists of digests than it asked for.
pub proof fn law_wrong_digests_are_refused(
    c: ChunkView,
    s: BuildState,
    files: Seq<Seq<Seq<u8>>>,
)
    requires
        c.phase is Sourced,
        files.len() != copies(c.steps.skip(c.head)),
    ensures
        turn(c, s, EventView::Digests { files }).action == Err::<ActionView, BuildFailure>(
            BuildFailure::UnexpectedEvent,
        ),
{
}

/// A chunk that starts at a checkpoint goes on with the variables of its stage, and with the image
/// of the chunk before it as its base image. Behind its start stand the steps that its instructions
/// become.
pub proof fn law_checkpoint_goes_on(ops: Seq<Instruction>, s: BuildState)
    requires
        ops.len() > 0,
        ops[0].0 is Checkpoint,
    ensures
        ({
            let t = started(ops, s);
            match prepared_all(ops.drop_first(), s.stage, s.global) {
                (_, Err(e)) => t.action == Err::<ActionView, BuildFailure>(e)
                    && t.chunk.phase is Finished,
                (stage, Ok(more)) => {
                    &&& t.chunk.steps == seq![
                        Step { op: Operation::Checkpoint, line: ops[0].1, args: seq![] },
                    ] + more
                    &&& t.chunk.head == head_len(t.chunk.steps)
                    &&& t.chunk.hashed == tag(Operation::From) + encode_utf8(s.last_id)
                    &&& t.state.stage == stage
                    &&& t.state.as_images == s.as_images
                    &&& t.state.cur_as == s.cur_as
                    &&& t.state.last_id == s.last_id
                    &&& t.chunk.head > 0 ==> tells_of(t, t.chunk.steps, 0)
                    &&& t.chunk.head == 0 ==> t.chunk.phase is Sourced || t.action is Err
                },
            }
        }),
{
}

/// The head of a stage is executed from its start on, before the chunk is hashed, and where there is
/// no head the files are asked for at once.
pub proof fn law_head_is_executed_first(
    c: ChunkView,
    s: BuildState,
    image: Seq<char>,
    stdout: Seq<char>,
    more: Seq<Step>,
    stage: Vars,
)
    requires
        c.phase == (PhaseView::Inspected { image }),
        c.steps.len() > 0 && c.steps[0].op is From,
        prepared_all(c.rest, env_listed(s.stage, lines(stdout)), s.global) == (
            stage,
            Ok::<Seq<Step>, BuildFailure>(more),
        ),
    ensures
        ({
            let t = turn(c, s, EventView::Output { success: true, stdout });
            let steps = c.steps + more;
            let now = BuildState { stage, ..s };
            &&& t.state == now
            &&& head_len(steps) > 0 ==> goes_on_with(t, now, steps, 0)
            &&& head_len(steps) <= 0 ==> match source_lists(
                s.context_dir,
                steps.skip(head_len(steps)),
            ) {
                Ok(sources) => t.chunk.phase is Sourced && t.action == Ok::<
                    ActionView,
                    BuildFailure,
                >(ActionView::HashSources { sources }),
                Err(e) => t.action == Err::<ActionView, BuildFailure>(e),
            }
        }),
{
}

/// When the head is done, the files of all steps behind it are asked for.
pub proof fn law_files_behind_the_head_are_asked_for(
    c: ChunkView,
    s: BuildState,
    at: int,
    stdout: Seq<char>,
)
    requires
        c.phase == (PhaseView::Ran { at }),
        at + 1 == c.head,
        0 <= at < c.steps.len(),
    ensures
        ({
            let t = turn(c, s, EventView::Output { success: true, stdout });
            match source_lists(s.context_dir, c.steps.skip(c.head)) {
                Ok(sources) => t.action == Ok::<ActionView, BuildFailure>(
                    ActionView::HashSources { sources },
                ),
                Err(e) => t.action == Err::<ActionView, BuildFailure>(e),
            }
        }),
{
}

} // verus!
