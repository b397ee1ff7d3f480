//! What the values of the library stand for: every part of them, as it is and in its place.
use vstd::prelude::*;

use crate::actions::{source_lists_view, Action, ActionView, Event, EventView, WorkView};
use crate::chunk::{Phase, PhaseView};
use crate::copy::{source_views, Source, SourceView};
use crate::digests::digest_bytes;
use crate::driver::chunk_views;
use crate::errors::{BuildError, BuildFailure};
use crate::parse::{instructions, DockerfileError, DockerfileFailure};
use crate::prune::{checkpoint_rows, image_views, remote_rows, ImageInfo2};
use crate::state::{Operation, OutOfBandWork, State, VarMap};
use crate::steps::{file_lists, step_views, Preprocessed};
use crate::text::{char_texts, opt_text, slice_texts, texts};
use crate::textmap::pair_texts;

verus! {

/// A list of strings stands for the texts of its items, in their order.
pub proof fn law_lists_of_texts(
    v: Seq<String>,
    w: Seq<&str>,
    x: Seq<Vec<char>>,
    y: Seq<(String, String)>,
    o: String,
    i: int,
)
    ensures
        texts(v).len() == v.len(),
        0 <= i < v.len() ==> texts(v)[i] == v[i]@,
        slice_texts(w).len() == w.len(),
        0 <= i < w.len() ==> slice_texts(w)[i] == w[i]@,
        char_texts(x).len() == x.len(),
        0 <= i < x.len() ==> char_texts(x)[i] == x[i]@,
        pair_texts(y).len() == y.len(),
        0 <= i < y.len() ==> pair_texts(y)[i] == (y[i].0@, y[i].1@),
        opt_text(Some(o)) == Some(o@),
        opt_text(None) is None,
{
}

/// A list of instructions, steps, chunks or sources stands for its items, in their order.
pub proof fn law_lists_of_a_build(
    ops: Seq<(Operation, String)>,
    steps: Seq<Preprocessed>,
    chunks: Seq<Vec<(Operation, String)>>,
    sources: Seq<Source>,
    lists: Seq<Vec<Source>>,
    i: int,
)
    ensures
        instructions(ops).len() == ops.len(),
        0 <= i < ops.len() ==> instructions(ops)[i] == (ops[i].0, ops[i].1@),
        step_views(steps).len() == steps.len(),
        0 <= i < steps.len() ==> step_views(steps)[i].op == steps[i].op && step_views(steps)[i].line
            == steps[i].line@ && step_views(steps)[i].args == pair_texts(steps[i].args@),
        chunk_views(chunks).len() == chunks.len(),
        0 <= i < chunks.len() ==> chunk_views(chunks)[i] == instructions(chunks[i]@),
        source_views(sources).len() == sources.len(),
        0 <= i < sources.len() ==> source_views(sources)[i] == sources[i]@,
        source_lists_view(lists).len() == lists.len(),
        0 <= i < lists.len() ==> source_lists_view(lists)[i] == source_views(lists[i]@),
{
}

/// A list of digests, of images or of rows stands for its items, in their order.
pub proof fn law_lists_of_records(
    digests: Seq<[u8; 32]>,
    files: Seq<Vec<[u8; 32]>>,
    images: Seq<ImageInfo2>,
    pulled: Seq<(String, i64)>,
    checkpoints: Seq<(String, String, i64)>,
    i: int,
)
    ensures
        digest_bytes(digests).len() == digests.len(),
        0 <= i < digests.len() ==> digest_bytes(digests)[i] == digests[i]@,
        file_lists(files).len() == files.len(),
        0 <= i < files.len() ==> file_lists(files)[i] == digest_bytes(files[i]@),
        image_views(images).len() == images.len(),
        0 <= i < images.len() ==> {
            let view = image_views(images)[i];
            &&& view.id == images[i].id@
            &&& view.names == texts(images[i].names@)
            &&& view.size == images[i].size
            &&& view.time == images[i].time
            &&& view.checkpoints == texts(images[i].checkpoints@)
        },
        remote_rows(pulled).len() == pulled.len(),
        0 <= i < pulled.len() ==> remote_rows(pulled)[i] == (pulled[i].0@, pulled[i].1),
        checkpoint_rows(checkpoints).len() == checkpoints.len(),
        0 <= i < checkpoints.len() ==> checkpoint_rows(checkpoints)[i] == (
            checkpoints[i].0@,
            checkpoints[i].1@,
            checkpoints[i].2,
        ),
{
}

/// The state of a build stands for its parts.
pub proof fn law_state_of_a_build(s: State, vars: VarMap)
    ensures
        s@.container == opt_text(s.container),
        s@.global == s.global@,
        s@.stage == s.stage@,
        s@.cur_as == opt_text(s.cur_as),
        s@.as_images == s.as_images@,
        s@.last_id == s.last_id@,
        s@.context_dir == s.context_dir@,
        s@.no_cache == s.no_cache,
        s@.cache_to == s.cache_to,
        s@.cache_from == opt_text(s.cache_from),
        s@.format == opt_text(s.format),
        s@.network == opt_text(s.network),
        vars@.args == vars.args@,
        vars@.env == vars.env@,
{
}

/// An error of a build stands for itself, with what it names.
pub proof fn law_errors_of_a_build(e: BuildError)
    ensures
        match e {
            BuildError::MissingBrace { inner } => e@ == (BuildFailure::MissingBrace {
                inner: inner@,
            }),
            BuildError::Unbalanced => e@ is Unbalanced,
            BuildError::NotKeyValue { word } => e@ == (BuildFailure::NotKeyValue { word: word@ }),
            BuildError::BadOptions => e@ is BadOptions,
            BuildError::NoSources => e@ is NoSources,
            BuildError::NoContainer { op } => e@ == (BuildFailure::NoContainer { op }),
            BuildError::BeforeFrom { op } => e@ == (BuildFailure::BeforeFrom { op }),
            BuildError::BadVolumes => e@ is BadVolumes,
            BuildError::NoHealthCommand { line } => e@ == (BuildFailure::NoHealthCommand {
                line: line@,
            }),
            BuildError::CommandFailed => e@ is CommandFailed,
            BuildError::MisplacedStart { op } => e@ == (BuildFailure::MisplacedStart { op }),
            BuildError::UnexpectedEvent => e@ is UnexpectedEvent,
        },
{
}

/// An error of a Dockerfile stands for itself, with what it names.
pub proof fn law_errors_of_a_dockerfile(e: DockerfileError)
    ensures
        match e {
            DockerfileError::UnexpectedEnd => e@ is UnexpectedEnd,
            DockerfileError::NoArguments { line } => e@ == DockerfileFailure::NoArguments(line@),
            DockerfileError::Unsupported { instruction } => e@ == DockerfileFailure::Unsupported(
                instruction@,
            ),
        },
{
}

/// An action stands for itself, with all that it asks for.
pub proof fn law_actions(a: Action, w: OutOfBandWork, x: Source)
    ensures
        match a {
            Action::Announce { lines } => a@ == (ActionView::Announce { lines: texts(lines@) }),
            Action::Command { args, stdout, stderr } => a@ == (ActionView::Command {
                args: texts(args@),
                stdout,
                stderr,
            }),
            Action::RecordRemote { image } => a@ == (ActionView::RecordRemote { image: image@ }),
            Action::HashSources { sources } => a@ == (ActionView::HashSources {
                sources: source_lists_view(sources@),
            }),
            Action::Lookup { hash } => a@ == (ActionView::Lookup { hash: hash@ }),
            Action::Work { work } => a@ == (ActionView::Work { work: work@ }),
            Action::Forget { line, hash } => a@ == (ActionView::Forget {
                line: line@,
                hash: hash@,
            }),
            Action::Store { line, hash, image } => a@ == (ActionView::Store {
                line: opt_text(line),
                hash: hash@,
                image: image@,
            }),
            Action::Finish => a@ is Finish,
        },
        match w {
            OutOfBandWork::LruMarkCache { hash } => w@ == (WorkView::LruMarkCache { hash: hash@ }),
            OutOfBandWork::PushCache { buildah_id, hash } => w@ == (WorkView::PushCache {
                buildah_id: buildah_id@,
                hash: hash@,
            }),
        },
        match x {
            Source::Literal { path } => x@ == (SourceView::Literal { path: path@ }),
            Source::Pattern { source, pattern } => x@ == (SourceView::Pattern {
                source: source@,
                pattern: pattern@,
            }),
        },
{
}

/// An event stands for itself, with all that it tells of.
pub proof fn law_events(e: Event)
    ensures
        match e {
            Event::Done => e@ is Done,
            Event::Output { success, stdout } => e@ == (EventView::Output {
                success,
                stdout: stdout@,
            }),
            Event::Digests { files } => e@ == (EventView::Digests { files: file_lists(files@) }),
            Event::Row { image } => e@ == (EventView::Row { image: opt_text(image) }),
        },
{
}

/// A phase stands for itself, with the image or the step that it is about.
pub proof fn law_phases(p: Phase)
    ensures
        match p {
            Phase::Opened => p@ is Opened,
            Phase::Pulled => p@ is Pulled,
            Phase::Recorded { image } => p@ == (PhaseView::Recorded { image: image@ }),
            Phase::Inspected { image } => p@ == (PhaseView::Inspected { image: image@ }),
            Phase::Said { at } => p@ == (PhaseView::Said { at: at as int }),
            Phase::Ran { at } => p@ == (PhaseView::Ran { at: at as int }),
            Phase::Sourced => p@ is Sourced,
            Phase::LookedUp => p@ is LookedUp,
            Phase::Marked { image } => p@ == (PhaseView::Marked { image: image@ }),
            Phase::Checked { image } => p@ == (PhaseView::Checked { image: image@ }),
            Phase::Forgot => p@ is Forgot,
            Phase::Fetched => p@ is Fetched,
            Phase::Stored { image } => p@ == (PhaseView::Stored { image: image@ }),
            Phase::Cleared { image } => p@ == (PhaseView::Cleared { image: image@ }),
            Phase::Replayed { image } => p@ == (PhaseView::Replayed { image: image@ }),
            Phase::Committed => p@ is Committed,
            Phase::Pushed { image } => p@ == (PhaseView::Pushed { image: image@ }),
            Phase::Saved { image } => p@ == (PhaseView::Saved { image: image@ }),
            Phase::Removed => p@ is Removed,
            Phase::Finished => p@ is Finished,
        },
{
}

} // verus!
