//! The build as a whole: how a Dockerfile divides into chunks, how build arguments are given,
//! and the work that is done beside the build.
use vstd::prelude::*;

use crate::commands::{fetch_command, push_image_command};
use crate::db::{opt_str, remote_cache_name, remote_name};
use crate::parse::{instructions, Instruction};
use crate::paths::{join, join_path};
use crate::state::{Operation, OutOfBandWork, State};
use crate::steps::with_global;
use crate::text::{append, cut, opt_text, split_once, texts, to_chars, to_text};
use crate::text_laws::law_split_at_character;

verus! {

// ---------------------------------------------------------------------------------------
// Chunks
// ---------------------------------------------------------------------------------------
/// Where the chunk ends that a given instruction is in.
pub open spec fn chunk_end(ops: Seq<Instruction>, i: int) -> int
    decreases ops.len() - i,
{
    if i + 1 >= ops.len() {
        ops.len() as int
    } else if ops[i + 1].0.starts_chunk() {
        i + 1
    } else {
        chunk_end(ops, i + 1)
    }
}

/// The chunks from a given instruction on.
pub open spec fn chunks_from(ops: Seq<Instruction>, i: int) -> Seq<Seq<Instruction>>
    decreases ops.len() - i,
    via chunks_from_decreases
{
    if i < 0 || i >= ops.len() {
        seq![]
    } else {
        seq![ops.subrange(i, chunk_end(ops, i))] + chunks_from(ops, chunk_end(ops, i))
    }
}

#[via_fn]
proof fn chunks_from_decreases(ops: Seq<Instruction>, i: int) {
    if 0 <= i < ops.len() {
        lemma_chunk_end(ops, i);
    }
}

proof fn lemma_chunk_end(ops: Seq<Instruction>, i: int)
    requires
        0 <= i < ops.len(),
    ensures
        i < chunk_end(ops, i) <= ops.len(),
        forall|k: int| i < k < chunk_end(ops, i) ==> !(#[trigger] ops[k]).0.starts_chunk(),
        chunk_end(ops, i) < ops.len() ==> ops[chunk_end(ops, i)].0.starts_chunk(),
    decreases ops.len() - i,
{
    if i + 1 < ops.len() && !ops[i + 1].0.starts_chunk() {
        lemma_chunk_end(ops, i + 1);
    }
}

/// Chunks as sequences of instructions.
pub open spec fn chunk_views(v: Seq<Vec<(Operation, String)>>) -> Seq<Seq<Instruction>> {
    v.map_values(|c: Vec<(Operation, String)>| instructions(c@))
}

/// Divides operations into chunks. A new chunk starts at every FROM and every CHECKPOINT, as
/// they are the boundaries of the cache.
pub fn chunks(ops: &Vec<(Operation, String)>) -> (r: Vec<Vec<(Operation, String)>>)
    ensures
        chunk_views(r@) == chunks_from(instructions(ops@), 0),
{
    let ghost all = instructions(ops@);
    let mut r: Vec<Vec<(Operation, String)>> = Vec::new();
    let mut i: usize = 0;
    proof {
        assert(chunk_views(r@) + chunks_from(all, 0) =~= chunks_from(all, 0));
    }
    while i < ops.len()
        invariant
            i <= ops@.len(),
            all == instructions(ops@),
            chunk_views(r@) + chunks_from(all, i as int) == chunks_from(all, 0),
        decreases ops.len() - i,
    {
        let ghost start = i as int;
        let ghost before = chunk_views(r@);
        let mut chunk: Vec<(Operation, String)> = Vec::new();
        chunk.push((ops[i].0, ops[i].1.clone()));
        i += 1;
        proof {
            assert(instructions(chunk@) =~= all.subrange(start, i as int));
        }
        while i < ops.len() && Operation::can_chunk(ops[i - 1].0, ops[i].0)
            invariant
                0 <= start < i <= ops@.len(),
                all == instructions(ops@),
                instructions(chunk@) == all.subrange(start, i as int),
                chunk_end(all, start) == chunk_end(all, i - 1),
            decreases ops.len() - i,
        {
            let ghost so_far = instructions(chunk@);
            chunk.push((ops[i].0, ops[i].1.clone()));
            proof {
                assert(instructions(chunk@) =~= so_far.push(all[i as int]));
                assert(all.subrange(start, i + 1) =~= all.subrange(start, i as int).push(
                    all[i as int],
                ));
            }
            i += 1;
        }
        let ghost cv = instructions(chunk@);
        r.push(chunk);
        proof {
            assert(chunk_end(all, start) == i);
            assert(chunk_views(r@) =~= before.push(cv));
            assert(chunk_views(r@) + chunks_from(all, i as int) =~= before + chunks_from(
                all,
                start,
            ));
        }
    }
    proof {
        assert(chunk_views(r@) + chunks_from(all, i as int) =~= chunk_views(r@));
    }
    r
}

/// Chunks behind one another.
pub open spec fn put_together(chunks: Seq<Seq<Instruction>>) -> Seq<Instruction>
    decreases chunks.len(),
{
    if chunks.len() == 0 {
        seq![]
    } else {
        chunks[0] + put_together(chunks.drop_first())
    }
}

proof fn lemma_put_together(ops: Seq<Instruction>, i: int)
    requires
        0 <= i <= ops.len(),
    ensures
        put_together(chunks_from(ops, i)) == ops.skip(i),
    decreases ops.len() - i,
{
    if i < ops.len() {
        lemma_chunk_end(ops, i);
        let end = chunk_end(ops, i);
        lemma_put_together(ops, end);
        assert(chunks_from(ops, i).drop_first() =~= chunks_from(ops, end));
        assert(ops.subrange(i, end) + ops.skip(end) =~= ops.skip(i));
    } else {
        assert(ops.skip(i) =~= seq![]);
    }
}

/// The chunks of a Dockerfile make up the whole of it, in order.
pub proof fn law_chunks_make_up_the_whole(ops: Seq<Instruction>)
    ensures
        put_together(chunks_from(ops, 0)) == ops,
{
    lemma_put_together(ops, 0);
    assert(ops.skip(0) =~= ops);
}

proof fn lemma_boundaries(ops: Seq<Instruction>, i: int, n: int)
    requires
        0 <= i < ops.len(),
        0 <= n < chunks_from(ops, i).len(),
    ensures
        chunks_from(ops, i)[n].len() > 0,
        n == 0 ==> chunks_from(ops, i)[n][0] == ops[i],
        n > 0 ==> chunks_from(ops, i)[n][0].0.starts_chunk(),
        forall|k: int|
            0 < k < chunks_from(ops, i)[n].len() ==> !(#[trigger] chunks_from(
                ops,
                i,
            )[n][k]).0.starts_chunk(),
    decreases ops.len() - i,
{
    lemma_chunk_end(ops, i);
    let end = chunk_end(ops, i);
    let chunk = ops.subrange(i, end);
    let rest = chunks_from(ops, end);
    assert(chunks_from(ops, i)[0] == chunk);
    if n == 0 {
        assert forall|k: int| 0 < k < chunk.len() implies !(#[trigger] chunk[k]).0.starts_chunk() by {
            assert(chunk[k] == ops[i + k]);
        }
    } else {
        assert(chunks_from(ops, i)[n] == rest[n - 1]);
        lemma_boundaries(ops, end, n - 1);
    }
}

/// A chunk starts exactly at the boundaries of the cache: no chunk is empty, every chunk but
/// the first starts with FROM or CHECKPOINT, and neither stands inside a chunk.
pub proof fn law_chunks_start_at_boundaries(ops: Seq<Instruction>, n: int, k: int)
    requires
        0 <= n < chunks_from(ops, 0).len(),
    ensures
        chunks_from(ops, 0)[n].len() > 0,
        n > 0 ==> chunks_from(ops, 0)[n][0].0.starts_chunk(),
        0 < k < chunks_from(ops, 0)[n].len() ==> !chunks_from(ops, 0)[n][k].0.starts_chunk(),
{
    if ops.len() > 0 {
        lemma_boundaries(ops, 0, n);
    }
}

// ---------------------------------------------------------------------------------------
// Arguments
// ---------------------------------------------------------------------------------------
/// The Dockerfile of a build: the one that is named, or `Dockerfile` in the context.
pub open spec fn dockerfile(context: Seq<char>, file: Option<Seq<char>>) -> Seq<char> {
    match file {
        Some(f) => f,
        None => join_path(context, "Dockerfile"@),
    }
}

/// The Dockerfile of a build: the one that is named, or `Dockerfile` in the context.
pub fn dockerfile_path(context: &str, file: Option<&str>) -> (r: String)
    ensures
        r@ == dockerfile(context@, opt_str(file)),
{
    match file {
        Some(f) => to_text(&to_chars(f)),
        None => join(context, "Dockerfile"),
    }
}

/// A build argument that is given as KEY=VALUE, or as a bare KEY that takes its value from
/// the environment of the caller.
pub open spec fn given_arg(arg: Seq<char>, inherited: Seq<char>) -> (Seq<char>, Seq<char>) {
    match split_once(arg, "="@) {
        Some((k, v)) => (k, v),
        None => (arg, inherited),
    }
}

/// Sets a global build argument, given what the environment of the caller holds under its
/// name, which is empty where it holds nothing.
pub fn seed_build_arg(arg: &str, inherited: &str, state: &mut State)
    ensures
        final(state)@ == with_global(
            old(state)@,
            old(state)@.global.with_arg(
                given_arg(arg@, inherited@).0,
                given_arg(arg@, inherited@).1,
            ),
        ),
        final(state).ignore == old(state).ignore,
{
    let c = to_chars(arg);
    match cut(&c, "=") {
        Some((k, v)) => {
            state.global.args.insert(to_text(k), to_text(v));
        },
        None => {
            state.global.args.insert(to_text(&c), to_text(&to_chars(inherited)));
        },
    }
}

// ---------------------------------------------------------------------------------------
// Work beside the build
// ---------------------------------------------------------------------------------------
/// The name of the image in the registry that some work is about, and the command that does
/// the work; `None` where no registry is given for it.
pub open spec fn job_of(
    work: OutOfBandWork,
    cache_to: Option<Seq<char>>,
    cache_from: Option<Seq<char>>,
) -> Option<(Seq<char>, Seq<Seq<char>>)> {
    match work {
        OutOfBandWork::LruMarkCache { hash } => match cache_from {
            None => None,
            Some(repository) => {
                let name = remote_name(repository, hash@);
                Some((name, seq!["pull"@, name]))
            },
        },
        OutOfBandWork::PushCache { buildah_id, hash } => match cache_to {
            None => None,
            Some(repository) => {
                let name = remote_name(repository, hash@);
                Some((name, seq!["push"@, buildah_id@, name]))
            },
        },
    }
}

/// The name of the image in the registry that some work is about, and the command that does
/// the work. An image is marked as used by pulling it.
pub fn oob_job(
    work: &OutOfBandWork,
    cache_to: &Option<String>,
    cache_from: &Option<String>,
) -> (r: Option<(String, Vec<String>)>)
    ensures
        match r {
            Some((name, args)) => job_of(*work, opt_text(*cache_to), opt_text(*cache_from)) == Some(
                (name@, texts(args@)),
            ),
            None => job_of(*work, opt_text(*cache_to), opt_text(*cache_from)) is None,
        },
{
    match work {
        OutOfBandWork::LruMarkCache { hash } => match cache_from {
            None => None,
            Some(repository) => {
                let name = remote_cache_name(repository.as_str(), hash.as_str());
                let args = fetch_command(name.as_str());
                Some((name, args))
            },
        },
        OutOfBandWork::PushCache { buildah_id, hash } => match cache_to {
            None => None,
            Some(repository) => {
                let name = remote_cache_name(repository.as_str(), hash.as_str());
                let args = push_image_command(buildah_id.as_str(), name.as_str());
                Some((name, args))
            },
        },
    }
}

/// What is told of work that was done.
pub open spec fn message_of(
    work: OutOfBandWork,
    name: Seq<char>,
    success: bool,
    output: Seq<char>,
) -> Seq<char> {
    match work {
        OutOfBandWork::LruMarkCache { .. } => "\x1b[35mUSED CACHE "@ + name + "\x1b[0m"@,
        OutOfBandWork::PushCache { .. } => if success {
            "\x1b[35mPUSHED CACHE "@ + name + "\x1b[0m"@
        } else {
            "\x1b[31mFailed to push cache image: "@ + name + "\x1b[0m\nOutput:\n"@ + output
        },
    }
}

/// What is told of work that was done, given whether its command succeeded and what it
/// wrote. Whether an image could be marked as used is of no account.
pub fn oob_message(work: &OutOfBandWork, name: &str, success: bool, output: &str) -> (r: String)
    ensures
        r@ == message_of(*work, name@, success, output@),
{
    match work {
        OutOfBandWork::LruMarkCache { .. } => {
            let mut c = to_chars("\x1b[35mUSED CACHE ");
            append(&mut c, name);
            append(&mut c, "\x1b[0m");
            to_text(&c)
        },
        OutOfBandWork::PushCache { .. } => if success {
            let mut c = to_chars("\x1b[35mPUSHED CACHE ");
            append(&mut c, name);
            append(&mut c, "\x1b[0m");
            to_text(&c)
        } else {
            let mut c = to_chars("\x1b[31mFailed to push cache image: ");
            append(&mut c, name);
            append(&mut c, "\x1b[0m\nOutput:\n");
            append(&mut c, output);
            to_text(&c)
        },
    }
}

// ---------------------------------------------------------------------------------------
// Laws
// ---------------------------------------------------------------------------------------
/// A build argument KEY=VALUE has its value from behind the first equals sign, and a bare KEY has
/// the value that the caller has for it.
pub proof fn law_given_argument(key: Seq<char>, value: Seq<char>, inherited: Seq<char>)
    requires
        !key.contains('='),
    ensures
        given_arg(key + "="@ + value, inherited) == (key, value),
        given_arg(key, inherited) == (key, inherited),
{
    reveal_strlit("=");
    assert("="@ =~= seq!['=']);
    law_split_at_character(key, '=', value);
}

/// The Dockerfile that is named is taken, wherever the context is, and else the one in the
/// context.
pub proof fn law_dockerfile(context: Seq<char>, file: Seq<char>)
    ensures
        dockerfile(context, Some(file)) == file,
        dockerfile(context, None) == join_path(context, "Dockerfile"@),
        context.len() > 0 && context.last() != '/' ==> dockerfile(context, None) == context
            + "/Dockerfile"@,
{
    reveal_strlit("Dockerfile");
    reveal_strlit("/Dockerfile");
    assert("/Dockerfile"@ =~= seq!['/'] + "Dockerfile"@);
    if context.len() > 0 && context.last() != '/' {
        assert(context + seq!['/'] + "Dockerfile"@ =~= context + "/Dockerfile"@);
    }
}

/// An image is marked as used by pulling it from the registry that the cache is read from, and is
/// pushed to the registry that the cache is written to, under its hash each time. Without that
/// registry there is nothing to be done, whatever the other one is.
pub proof fn law_work_beside_the_build(
    id: String,
    hash: String,
    repository: Seq<char>,
    other: Option<Seq<char>>,
)
    ensures
        job_of(OutOfBandWork::LruMarkCache { hash }, other, Some(repository)) == Some(
            (
                repository + ":"@ + hash@,
                seq!["pull"@, repository + ":"@ + hash@],
            ),
        ),
        job_of(OutOfBandWork::LruMarkCache { hash }, other, None) is None,
        job_of(OutOfBandWork::PushCache { buildah_id: id, hash }, Some(repository), other) == Some(
            (
                repository + ":"@ + hash@,
                seq!["push"@, id@, repository + ":"@ + hash@],
            ),
        ),
        job_of(OutOfBandWork::PushCache { buildah_id: id, hash }, None, other) is None,
{
}

/// Only a push tells of its failure, with what its command wrote.
pub proof fn law_message_of_work(
    id: String,
    hash: String,
    name: Seq<char>,
    output: Seq<char>,
    success: bool,
)
    ensures
        message_of(OutOfBandWork::LruMarkCache { hash }, name, success, output)
            == "\x1b[35mUSED CACHE "@ + name + "\x1b[0m"@,
        message_of(OutOfBandWork::PushCache { buildah_id: id, hash }, name, true, output)
            == "\x1b[35mPUSHED CACHE "@ + name + "\x1b[0m"@,
        message_of(OutOfBandWork::PushCache { buildah_id: id, hash }, name, false, output)
            == "\x1b[31mFailed to push cache image: "@ + name + "\x1b[0m\nOutput:\n"@ + output,
{
}

/// A chunk goes on up to the next FROM or checkpoint: behind an instruction of which the next one
/// starts a chunk, and behind the last one, a chunk ends, and nowhere else.
pub proof fn law_chunk_ends_before_the_next_start(ops: Seq<Instruction>, i: int, j: int)
    requires
        0 <= i < j <= ops.len(),
        forall|k: int|
            i < k < j ==> !((#[trigger] ops[k]).0 is From) && !(ops[k].0 is Checkpoint),
        j < ops.len() ==> ops[j].0 is From || ops[j].0 is Checkpoint,
    ensures
        chunks_from(ops, i) == seq![ops.subrange(i, j)] + chunks_from(ops, j),
{
    lemma_chunk_end(ops, i);
    let end = chunk_end(ops, i);
    if end < j {
        assert(!(ops[end].0 is From));
    }
    if j < end {
        assert(!ops[j].0.starts_chunk());
    }
}

} // verus!
