//! The COPY and ADD instructions: which of them can be hashed, what they read of the build
//! context, and the commands that they come to.
use vstd::prelude::*;
use vstd::seq_lib::{group_to_multiset_ensures, lemma_multiset_commutative};
use vstd::slice::slice_subrange;
use vstd::utf8::encode_utf8;

use crate::commands::{
    container_for, flag_for, is_command, new_command, push_arg, push_args, push_flag_for,
    require_container, Command,
};
use crate::digests::{
    contents_record, file_record, law_order_of_files_is_of_no_account, link_record,
};
use crate::dockerignore::{lies_in, match_of, skippable, DockerIgnore, Rule};
use crate::errors::{BuildError, BuildFailure};
use crate::external::{
    below_root, blake3_digest, command_line, declarable, declared_once, escape_glob, glob_escaped,
    kept_whole, matcher_root, matcher_rules, parse_command_line, rule_verdict, shell_words,
    split_words,
};
use crate::paths::{join, join_path};
use crate::state::{BuildState, Operation, State};
use crate::steps::{plain_step, step_record};
use crate::text::{
    contains, contains_text, copy_texts, opt_text, push_all, slice_texts, starts, texts, to_chars,
    to_text,
};

verus! {

// ---------------------------------------------------------------------------------------
// What can be hashed
// ---------------------------------------------------------------------------------------
/// Whether a COPY instruction can be hashed: one that copies from another image cannot,
/// as its files would have to be read from that image.
pub fn copy_can_hash(line: &str) -> (r: bool)
    ensures
        r == !contains(line@, "--from"@),
{
    let c = to_chars(line);
    !contains_text(&c, "--from")
}

/// Whether a word is a flag.
pub open spec fn is_flag(word: Seq<char>) -> bool {
    word.len() > 0 && word[0] == '-'
}

/// Some words without the flags among them.
pub open spec fn operand_words(ws: Seq<Seq<char>>) -> Seq<Seq<char>>
    decreases ws.len(),
{
    if ws.len() == 0 {
        seq![]
    } else if is_flag(ws.last()) {
        operand_words(ws.drop_last())
    } else {
        operand_words(ws.drop_last()).push(ws.last())
    }
}

/// Whether a source is to be fetched over the network.
pub open spec fn is_url(source: Seq<char>) -> bool {
    "http://"@.is_prefix_of(source) || "https://"@.is_prefix_of(source)
}

fn has_scheme(source: &str) -> (r: bool)
    ensures
        r == is_url(source@),
{
    let c = to_chars(source);
    starts(&c, "http://") || starts(&c, "https://")
}

/// Whether one of some words other than the last, which is the destination, is a URL.
pub open spec fn has_url_source(ws: Seq<Seq<char>>) -> bool {
    exists|i: int| 0 <= i < ws.len() - 1 && is_url(#[trigger] ws[i])
}

fn names_url(ws: &[String]) -> (r: bool)
    ensures
        r == has_url_source(texts(ws@)),
{
    let ghost all = texts(ws@);
    let n: usize = ws.len();
    let mut i: usize = 0;
    while i < n && i + 1 < n
        invariant
            i <= n,
            n == ws@.len(),
            all == texts(ws@),
            forall|k: int| 0 <= k < i && k < n - 1 ==> !is_url(#[trigger] all[k]),
        decreases n - i,
    {
        if has_scheme(ws[i].as_str()) {
            proof {
                assert(is_url(all[i as int]));
            }
            return true;
        }
        i += 1;
    }
    false
}

/// Whether an ADD instruction without `--from` can be hashed, given its words.
pub fn words_can_hash(ws: &Vec<String>) -> (r: bool)
    ensures
        r == !has_url_source(operand_words(texts(ws@))),
{
    let ghost all = texts(ws@);
    let mut operands: Vec<String> = Vec::new();
    let mut i: usize = 0;
    proof {
        assert(all.take(0) =~= seq![]);
        assert(texts(operands@) =~= operand_words(all.take(0)));
    }
    while i < ws.len()
        invariant
            i <= ws@.len(),
            all == texts(ws@),
            texts(operands@) == operand_words(all.take(i as int)),
        decreases ws.len() - i,
    {
        let c = to_chars(ws[i].as_str());
        proof {
            assert(all.take(i + 1).drop_last() =~= all.take(i as int));
            assert(all.take(i + 1).last() == c@);
        }
        if !(c.len() > 0 && c[0] == '-') {
            push_arg(&mut operands, ws[i].as_str());
        }
        i += 1;
    }
    proof {
        assert(all.take(i as int) =~= all);
    }
    !names_url(operands.as_slice())
}

/// Whether an ADD line can be hashed.
pub open spec fn add_hashable(line: Seq<char>) -> bool {
    !contains(line, "--from"@) && match shell_words(line) {
        Some(ws) => !has_url_source(operand_words(ws)),
        None => true,
    }
}

/// Whether an ADD instruction can be hashed: one that uses `--from` or has a source that is
/// a URL cannot, as its files would have to be read from another image or over the network.
pub fn add_can_hash(line: &str) -> (r: bool)
    ensures
        r == add_hashable(line@),
{
    let c = to_chars(line);
    if contains_text(&c, "--from") {
        return false;
    }
    match split_words(line) {
        Some(ws) => words_can_hash(&ws),
        None => true,
    }
}

// ---------------------------------------------------------------------------------------
// Sources
// ---------------------------------------------------------------------------------------
/// The characters that make a source a glob pattern: `*`, `?`, and character classes between
/// brackets. Brace alternation is none of them.
pub open spec fn is_wildcard(c: char) -> bool {
    c == '*' || c == '?' || c == '\u{5b}'
}

/// Whether a source is a glob pattern.
pub open spec fn is_pattern(source: Seq<char>) -> bool {
    exists|i: int| 0 <= i < source.len() && is_wildcard(#[trigger] source[i])
}

/// Where the files of a source are to be looked for.
#[derive(Debug)]
pub enum Source {
    /// The path itself.
    Literal { path: String },
    /// All paths that match a glob pattern, which the source comes to in the build context.
    Pattern { source: String, pattern: String },
}

/// A `Source` with its text as a sequence of characters.
pub enum SourceView {
    Literal { path: Seq<char> },
    Pattern { source: Seq<char>, pattern: Seq<char> },
}

impl View for Source {
    type V = SourceView;

    open spec fn view(&self) -> SourceView {
        match self {
            Source::Literal { path } => SourceView::Literal { path: path@ },
            Source::Pattern { source, pattern } => SourceView::Pattern {
                source: source@,
                pattern: pattern@,
            },
        }
    }
}

/// Where the files of a source are, in a build context.
pub open spec fn expanded(ctx: Seq<char>, source: Seq<char>) -> SourceView {
    if is_pattern(source) {
        SourceView::Pattern { source, pattern: glob_escaped(ctx) + "/"@ + source }
    } else {
        SourceView::Literal { path: join_path(ctx, source) }
    }
}

/// Expands a COPY or ADD source against the context directory. A source with a wildcard is
/// a pattern, in which the context directory stands for itself whatever characters it
/// holds; any other source is joined to the context directory as it is.
pub fn expand_source(ctx: &str, source: &str) -> (r: Source)
    ensures
        r@ == expanded(ctx@, source@),
{
    let s = to_chars(source);
    let mut i: usize = 0;
    while i < s.len()
        invariant
            i <= s@.len(),
            s@ == source@,
            forall|k: int| 0 <= k < i ==> !is_wildcard(#[trigger] s@[k]),
        decreases s.len() - i,
    {
        let c = s[i];
        if c == '*' || c == '?' || c == '\u{5b}' {
            proof {
                assert(is_wildcard(source@[i as int]));
            }
            let mut pattern = to_chars(escape_glob(ctx).as_str());
            let slash = to_chars("/");
            push_all(&mut pattern, &slash);
            push_all(&mut pattern, &s);
            return Source::Pattern { source: to_text(&s), pattern: to_text(&pattern) };
        }
        i += 1;
    }
    Source::Literal { path: join(ctx, source) }
}

/// A source without wildcards is looked for under its own path only.
pub proof fn law_plain_source_is_literal(ctx: Seq<char>, source: Seq<char>)
    requires
        forall|i: int| 0 <= i < source.len() ==> !is_wildcard(#[trigger] source[i]),
    ensures
        expanded(ctx, source) == (SourceView::Literal { path: join_path(ctx, source) }),
{
}

/// The sources among the operands of a COPY or ADD instruction: all but the last, which is
/// the destination.
pub open spec fn sources_of(rest: Seq<Seq<char>>) -> Result<Seq<Seq<char>>, BuildFailure> {
    if rest.len() == 0 {
        Err(BuildFailure::NoSources)
    } else {
        Ok(rest.drop_last())
    }
}

/// The sources among the operands of a COPY or ADD instruction.
pub fn source_operands(rest: &Vec<String>) -> (r: Result<Vec<String>, BuildError>)
    ensures
        is_command(r, sources_of(texts(rest@))),
{
    let n: usize = rest.len();
    if n == 0 {
        return Err(BuildError::NoSources);
    }
    let front = slice_subrange(rest.as_slice(), 0, n - 1);
    proof {
        assert(texts(front@) =~= texts(rest@).drop_last());
    }
    Ok(copy_texts(front))
}

/// The sources of a COPY or ADD line that is to be hashed. `--checksum` is tolerated: the
/// command checks it when the line is executed.
pub open spec fn line_sources(line: Seq<char>) -> Result<Seq<Seq<char>>, BuildFailure> {
    match shell_words(line) {
        None => Err(BuildFailure::Unbalanced),
        Some(ws) => match command_line("copy"@, seq!["from"@, "checksum"@], seq!["rest"@], ws) {
            None => Err(BuildFailure::BadOptions),
            Some((_, rest)) => sources_of(rest[0]),
        },
    }
}

proof fn lemma_copy_options()
    ensures
        declarable("from"@),
        declarable("checksum"@),
        declarable("rest"@),
        declared_once(seq!["from"@, "checksum"@, "rest"@]),
        declared_once(seq!["from"@, "rest"@]),
{
    reveal_strlit("from");
    reveal_strlit("checksum");
    reveal_strlit("rest");
    reveal_strlit("help");
    assert("from"@[0] == 'f' && "rest"@[0] == 'r' && "checksum"@[0] == 'c' && "help"@[0] == 'h');
}

type Parsed = Option<(Vec<Option<String>>, Vec<Vec<String>>)>;

fn parse_with_checksum(program: &'static str, ws: &Vec<String>) -> (r: Parsed)
    ensures
        r matches Some(v) ==> v.0@.len() == 2 && v.1@.len() == 1,
        match r {
            Some(v) => command_line(
                program@,
                seq!["from"@, "checksum"@],
                seq!["rest"@],
                texts(ws@),
            ) == Some(
                (
                    v.0@.map_values(|o: Option<String>| opt_text(o)),
                    v.1@.map_values(|w: Vec<String>| texts(w@)),
                ),
            ),
            None => command_line(
                program@,
                seq!["from"@, "checksum"@],
                seq!["rest"@],
                texts(ws@),
            ) is None,
        },
{
    let options = ["from", "checksum"];
    let operands = ["rest"];
    proof {
        lemma_copy_options();
        assert(slice_texts(options@) =~= seq!["from"@, "checksum"@]);
        assert(slice_texts(operands@) =~= seq!["rest"@]);
        assert(slice_texts(options@) + slice_texts(operands@) =~= seq![
            "from"@,
            "checksum"@,
            "rest"@,
        ]);
        assert(options@[0]@ == "from"@ && options@[1]@ == "checksum"@);
        assert(operands@[0]@ == "rest"@);
    }
    parse_command_line(program, &options, &operands, ws)
}

/// The sources of a COPY or ADD line that is to be hashed.
pub fn read_sources(line: &str) -> (r: Result<Vec<String>, BuildError>)
    ensures
        is_command(r, line_sources(line@)),
{
    match split_words(line) {
        None => Err(BuildError::Unbalanced),
        Some(ws) => match parse_with_checksum("copy", &ws) {
            None => Err(BuildError::BadOptions),
            Some((_, rest)) => {
                proof {
                    let all = rest@.map_values(|w: Vec<String>| texts(w@));
                    assert(all[0] == texts(rest@[0]@));
                }
                source_operands(&rest[0])
            },
        },
    }
}

/// Sources as views.
pub open spec fn source_views(v: Seq<Source>) -> Seq<SourceView> {
    v.map_values(|s: Source| s@)
}

/// Where the files of some sources are, in a build context.
pub fn expand_sources(ctx: &str, sources: &Vec<String>) -> (r: Vec<Source>)
    ensures
        source_views(r@) == texts(sources@).map_values(|s: Seq<char>| expanded(ctx@, s)),
{
    let ghost want = texts(sources@).map_values(|s: Seq<char>| expanded(ctx@, s));
    let mut r: Vec<Source> = Vec::new();
    let mut i: usize = 0;
    while i < sources.len()
        invariant
            i <= sources@.len(),
            want == texts(sources@).map_values(|s: Seq<char>| expanded(ctx@, s)),
            source_views(r@) == want.take(i as int),
        decreases sources.len() - i,
    {
        let ghost before = source_views(r@);
        let s = expand_source(ctx, sources[i].as_str());
        r.push(s);
        proof {
            assert(want[i as int] == s@);
            assert(source_views(r@) =~= before.push(s@));
            assert(want.take(i + 1) =~= want.take(i as int).push(s@));
        }
        i += 1;
    }
    proof {
        assert(want.take(i as int) =~= want);
    }
    r
}

/// Where the files of a COPY or ADD line are, in a build context.
pub open spec fn expanded_line(ctx: Seq<char>, line: Seq<char>) -> Result<
    Seq<SourceView>,
    BuildFailure,
> {
    match line_sources(line) {
        Ok(sources) => Ok(sources.map_values(|s: Seq<char>| expanded(ctx, s))),
        Err(e) => Err(e),
    }
}

/// Where the files that a COPY or ADD line reads are to be looked for. What is found there
/// and not excluded is what the line is hashed from.
pub fn hash_sources(line: &str, ctx: &str) -> (r: Result<Vec<Source>, BuildError>)
    ensures
        match r {
            Ok(v) => expanded_line(ctx@, line@) == Ok::<Seq<SourceView>, BuildFailure>(
                source_views(v@),
            ),
            Err(e) => expanded_line(ctx@, line@) == Err::<Seq<SourceView>, BuildFailure>(e@),
        },
{
    match read_sources(line) {
        Ok(sources) => Ok(expand_sources(ctx, &sources)),
        Err(e) => Err(e),
    }
}

// ---------------------------------------------------------------------------------------
// The walk
// ---------------------------------------------------------------------------------------
/// What is to be done with a path that a walk over the sources has come to.
#[derive(Debug, Clone, Copy, PartialEq, Eq, Structural)]
pub enum Visit {
    /// Leave out the directory and everything below it.
    Skip,
    /// Nothing; the walk goes on.
    Pass,
    /// Hash the target of the symbolic link.
    HashLink,
    /// Hash the content of the file.
    HashFile,
}

/// Whether the rules exclude a path.
pub open spec fn excluded(ignore: DockerIgnore, path: Seq<char>, is_dir: bool) -> bool {
    match_of(
        rule_verdict(matcher_root(ignore.matcher), matcher_rules(ignore.matcher), path, is_dir),
    ) is Ignore
}

/// What is to be done with a path, given whether it is excluded, and whether everything below
/// it is.
pub open spec fn decided(
    is_excluded: bool,
    can_skip: bool,
    is_dir: bool,
    is_symlink: bool,
    is_file: bool,
) -> Visit {
    if is_excluded {
        if is_dir && can_skip {
            Visit::Skip
        } else {
            Visit::Pass
        }
    } else if is_symlink {
        Visit::HashLink
    } else if is_file {
        Visit::HashFile
    } else {
        Visit::Pass
    }
}

/// What is to be done with a path.
pub open spec fn visited(
    ignore: DockerIgnore,
    path: Seq<char>,
    is_dir: bool,
    is_symlink: bool,
    is_file: bool,
) -> Visit {
    decided(
        excluded(ignore, path, is_dir),
        skippable(texts(ignore.negation_prefixes@), ignore.unbounded_negation, path),
        is_dir,
        is_symlink,
        is_file,
    )
}

/// What is to be done with a path, given whether it is excluded, and whether everything below
/// it is. An excluded directory is left out of the walk only where no negation rule could
/// re-include something beneath it; otherwise the walk must descend to find the exceptions.
pub fn decide_visit(
    is_excluded: bool,
    can_skip: bool,
    is_dir: bool,
    is_symlink: bool,
    is_file: bool,
) -> (r: Visit)
    ensures
        r == decided(is_excluded, can_skip, is_dir, is_symlink, is_file),
{
    if is_excluded {
        if is_dir && can_skip {
            return Visit::Skip;
        }
        return Visit::Pass;
    }
    if is_symlink {
        Visit::HashLink
    } else if is_file {
        Visit::HashFile
    } else {
        Visit::Pass
    }
}

/// What is to be done with a path relative to the context directory. Nothing is hashed in a
/// directory that is left out of the walk.
pub fn visit(ignore: &DockerIgnore, path: &str, is_dir: bool, is_symlink: bool, is_file: bool) -> (r:
    Visit)
    requires
        matcher_rules(ignore.matcher).len() > 0 ==> below_root(
            matcher_root(ignore.matcher),
            path@,
        ),
    ensures
        r == visited(*ignore, path@, is_dir, is_symlink, is_file),
        matcher_rules(ignore.matcher).len() == 0 ==> !excluded(*ignore, path@, is_dir),
        forall|rules: Seq<Rule>, dir: Seq<char>| #[trigger]
            ignore.may_skip(rules, dir) && lies_in(path@, dir) && kept_whole(
                matcher_root(ignore.matcher),
                path@,
            ) && excluded(*ignore, dir, true) ==> r is Skip || r is Pass,
{
    let is_excluded = ignore.matched(path, is_dir).is_ignore();
    let can_skip = is_excluded && is_dir && ignore.can_skip_dir(path);
    decide_visit(is_excluded, can_skip, is_dir, is_symlink, is_file)
}

/// An excluded path is never hashed.
pub proof fn law_excluded_paths_are_not_hashed(
    ignore: DockerIgnore,
    path: Seq<char>,
    is_dir: bool,
    is_symlink: bool,
    is_file: bool,
)
    requires
        excluded(ignore, path, is_dir),
    ensures
        visited(ignore, path, is_dir, is_symlink, is_file) is Skip || visited(
            ignore,
            path,
            is_dir,
            is_symlink,
            is_file,
        ) is Pass,
{
}

/// Every file and every symbolic link that is not excluded is hashed.
pub proof fn law_included_files_are_hashed(
    ignore: DockerIgnore,
    path: Seq<char>,
    is_dir: bool,
    is_symlink: bool,
    is_file: bool,
)
    requires
        !excluded(ignore, path, is_dir),
        is_symlink || is_file,
    ensures
        visited(ignore, path, is_dir, is_symlink, is_file) is HashLink || visited(
            ignore,
            path,
            is_dir,
            is_symlink,
            is_file,
        ) is HashFile,
{
}

/// What a walk comes to: a path, what is there, and the content of the file or the target of
/// the symbolic link.
pub struct Found {
    pub path: Seq<char>,
    pub is_dir: bool,
    pub is_symlink: bool,
    pub is_file: bool,
    pub content: Seq<u8>,
}

/// The digests of what is hashed of all that a walk comes to.
pub open spec fn digests_of(ignore: DockerIgnore, walk: Seq<Found>) -> Seq<Seq<u8>>
    decreases walk.len(),
{
    if walk.len() == 0 {
        seq![]
    } else {
        let before = digests_of(ignore, walk.drop_last());
        let f = walk.last();
        match visited(ignore, f.path, f.is_dir, f.is_symlink, f.is_file) {
            Visit::HashLink => before.push(
                blake3_digest(link_record(encode_utf8(f.path), f.content)),
            ),
            Visit::HashFile => before.push(
                blake3_digest(file_record(encode_utf8(f.path), f.content)),
            ),
            _ => before,
        }
    }
}

/// All that a walk comes to and that is not excluded.
pub open spec fn included(ignore: DockerIgnore, walk: Seq<Found>) -> Seq<Found>
    decreases walk.len(),
{
    if walk.len() == 0 {
        seq![]
    } else if excluded(ignore, walk.last().path, walk.last().is_dir) {
        included(ignore, walk.drop_last())
    } else {
        included(ignore, walk.drop_last()).push(walk.last())
    }
}

proof fn lemma_digests_of_included(ignore: DockerIgnore, walk: Seq<Found>)
    ensures
        digests_of(ignore, included(ignore, walk)) == digests_of(ignore, walk),
    decreases walk.len(),
{
    if walk.len() > 0 {
        let front = walk.drop_last();
        lemma_digests_of_included(ignore, front);
        if !excluded(ignore, walk.last().path, walk.last().is_dir) {
            let kept = included(ignore, front).push(walk.last());
            assert(kept.drop_last() =~= included(ignore, front));
            assert(kept.last() == walk.last());
        }
    }
}

proof fn lemma_digests_without(ignore: DockerIgnore, walk: Seq<Found>, i: int)
    requires
        0 <= i < walk.len(),
    ensures
        digests_of(ignore, walk).to_multiset() == digests_of(
            ignore,
            walk.remove(i),
        ).to_multiset().add(digests_of(ignore, seq![walk[i]]).to_multiset()),
    decreases walk.len(),
{
    broadcast use group_to_multiset_ensures;

    let last = walk.last();
    let front = walk.drop_last();
    let none: Seq<Found> = seq![];
    assert(digests_of(ignore, none) =~= seq![]);
    let one = seq![last];
    assert(one.drop_last() =~= none);
    assert(one.last() == last);
    if i == walk.len() - 1 {
        assert(walk.remove(i) =~= front);
        assert(walk[i] == last);
        assert(digests_of(ignore, walk) =~= digests_of(ignore, front) + digests_of(ignore, one));
        lemma_multiset_commutative(digests_of(ignore, front), digests_of(ignore, one));
    } else {
        let rest = walk.remove(i);
        let fewer = front.remove(i);
        assert(front[i] == walk[i]);
        lemma_digests_without(ignore, front, i);
        assert(rest.last() == last);
        assert(rest.drop_last() =~= fewer);
        assert(digests_of(ignore, walk) =~= digests_of(ignore, front) + digests_of(ignore, one));
        assert(digests_of(ignore, rest) =~= digests_of(ignore, fewer) + digests_of(ignore, one));
        lemma_multiset_commutative(digests_of(ignore, front), digests_of(ignore, one));
        lemma_multiset_commutative(digests_of(ignore, fewer), digests_of(ignore, one));
        assert(digests_of(ignore, walk).to_multiset() =~= digests_of(
            ignore,
            rest,
        ).to_multiset().add(digests_of(ignore, seq![walk[i]]).to_multiset()));
    }
}

proof fn lemma_digests_in_any_order(ignore: DockerIgnore, a: Seq<Found>, b: Seq<Found>)
    requires
        a.to_multiset() == b.to_multiset(),
    ensures
        digests_of(ignore, a).to_multiset() == digests_of(ignore, b).to_multiset(),
    decreases a.len(),
{
    broadcast use group_to_multiset_ensures;

    assert(a.len() == a.to_multiset().len());
    assert(b.len() == b.to_multiset().len());
    if a.len() == 0 {
        assert(a =~= b);
    } else {
        let f = a[0];
        assert(a.contains(f));
        assert(a.to_multiset().contains(f));
        assert(b.contains(f));
        let j = choose|j: int| 0 <= j < b.len() && b[j] == f;
        lemma_digests_without(ignore, a, 0);
        lemma_digests_without(ignore, b, j);
        assert(a.remove(0).to_multiset() =~= a.to_multiset().remove(f));
        assert(b.remove(j).to_multiset() =~= b.to_multiset().remove(f));
        lemma_digests_in_any_order(ignore, a.remove(0), b.remove(j));
    }
}

/// Excluded files have no influence on the hash of a COPY or ADD instruction, nor has the
/// order of a walk: two walks that come to the same files that are not excluded are hashed
/// from the same bytes.
pub proof fn law_excluded_files_have_no_influence(
    ignore: DockerIgnore,
    a: Seq<Found>,
    b: Seq<Found>,
    op: Operation,
    line: Seq<char>,
)
    requires
        included(ignore, a).to_multiset() == included(ignore, b).to_multiset(),
    ensures
        contents_record(digests_of(ignore, a)) == contents_record(digests_of(ignore, b)),
        step_record(plain_step(op, line), contents_record(digests_of(ignore, a))) == step_record(
            plain_step(op, line),
            contents_record(digests_of(ignore, b)),
        ),
{
    lemma_digests_of_included(ignore, a);
    lemma_digests_of_included(ignore, b);
    lemma_digests_in_any_order(ignore, included(ignore, a), included(ignore, b));
    law_order_of_files_is_of_no_account(digests_of(ignore, a), digests_of(ignore, b));
}

// ---------------------------------------------------------------------------------------
// Commands
// ---------------------------------------------------------------------------------------
/// The command for given values of the options and operands of a COPY instruction.
pub open spec fn copy_words(from: Option<Seq<char>>, rest: Seq<Seq<char>>, s: BuildState) -> Command {
    let place = match from {
        Some(name) => seq!["--from"@, s.image_for(name)],
        None => seq!["--contextdir"@, s.context_dir],
    };
    match container_for(s, Operation::Copy) {
        Ok(c) => Ok(seq!["copy"@] + place + seq![c] + rest),
        Err(e) => Err(e),
    }
}

/// The command of a COPY instruction, given its options and operands.
pub fn copy_words_command(from: &Option<String>, rest: &Vec<String>, state: &State) -> (r: Result<
    Vec<String>,
    BuildError,
>)
    ensures
        is_command(r, copy_words(opt_text(*from), texts(rest@), state@)),
{
    let mut v = new_command("copy");
    match from {
        Some(name) => {
            push_arg(&mut v, "--from");
            push_arg(&mut v, state.image(name.as_str()));
        },
        None => {
            push_arg(&mut v, "--contextdir");
            push_arg(&mut v, state.context_dir.as_str());
        },
    }
    match require_container(state, Operation::Copy) {
        Ok(c) => {
            push_arg(&mut v, c);
            push_args(&mut v, rest);
            proof {
                let want = copy_words(opt_text(*from), texts(rest@), state@);
                assert(texts(v@) =~= want->Ok_0);
            }
            Ok(v)
        },
        Err(e) => Err(e),
    }
}

/// The command of a COPY instruction.
pub open spec fn copy_args(line: Seq<char>, s: BuildState) -> Command {
    match shell_words(line) {
        None => Err(BuildFailure::Unbalanced),
        Some(ws) => match command_line("copy"@, seq!["from"@], seq!["rest"@], ws) {
            None => Err(BuildFailure::BadOptions),
            Some((options, rest)) => copy_words(options[0], rest[0], s),
        },
    }
}

/// The command that copies the files of a COPY line into the current container.
pub fn execute_copy(line: &str, state: &State) -> (r: Result<Vec<String>, BuildError>)
    ensures
        is_command(r, copy_args(line@, state@)),
{
    match split_words(line) {
        None => Err(BuildError::Unbalanced),
        Some(ws) => {
            let options = ["from"];
            let operands = ["rest"];
            proof {
                lemma_copy_options();
                assert(slice_texts(options@) =~= seq!["from"@]);
                assert(slice_texts(operands@) =~= seq!["rest"@]);
                assert(slice_texts(options@) + slice_texts(operands@) =~= seq!["from"@, "rest"@]);
                assert(options@[0]@ == "from"@);
                assert(operands@[0]@ == "rest"@);
            }
            match parse_command_line("copy", &options, &operands, &ws) {
                None => Err(BuildError::BadOptions),
                Some((values, rest)) => {
                    proof {
                        let opts = values@.map_values(|o: Option<String>| opt_text(o));
                        assert(opts[0] == opt_text(values@[0]));
                        let all = rest@.map_values(|w: Vec<String>| texts(w@));
                        assert(all[0] == texts(rest@[0]@));
                    }
                    copy_words_command(&values[0], &rest[0], state)
                },
            }
        },
    }
}

/// The command for given values of the options and operands of an ADD instruction. The
/// context directory is named only where no source is a URL.
pub open spec fn add_words(
    from: Option<Seq<char>>,
    checksum: Option<Seq<char>>,
    rest: Seq<Seq<char>>,
    s: BuildState,
) -> Command {
    let place = match from {
        Some(name) => seq!["--from"@, s.image_for(name)],
        None => if has_url_source(rest) {
            seq![]
        } else {
            seq!["--contextdir"@, s.context_dir]
        },
    };
    match container_for(s, Operation::Add) {
        Ok(c) => Ok(seq!["add"@] + place + flag_for("--checksum"@, checksum) + seq![c] + rest),
        Err(e) => Err(e),
    }
}

/// The command of an ADD instruction, given its options and operands.
pub fn add_words_command(
    from: &Option<String>,
    checksum: &Option<String>,
    rest: &Vec<String>,
    state: &State,
) -> (r: Result<Vec<String>, BuildError>)
    ensures
        is_command(r, add_words(opt_text(*from), opt_text(*checksum), texts(rest@), state@)),
{
    let mut v = new_command("add");
    match from {
        Some(name) => {
            push_arg(&mut v, "--from");
            push_arg(&mut v, state.image(name.as_str()));
        },
        None => {
            if !names_url(rest.as_slice()) {
                push_arg(&mut v, "--contextdir");
                push_arg(&mut v, state.context_dir.as_str());
            }
        },
    }
    push_flag_for(&mut v, "--checksum", checksum);
    match require_container(state, Operation::Add) {
        Ok(c) => {
            push_arg(&mut v, c);
            push_args(&mut v, rest);
            proof {
                let want = add_words(opt_text(*from), opt_text(*checksum), texts(rest@), state@);
                assert(texts(v@) =~= want->Ok_0);
            }
            Ok(v)
        },
        Err(e) => Err(e),
    }
}

/// The command of an ADD instruction.
pub open spec fn add_args(line: Seq<char>, s: BuildState) -> Command {
    match shell_words(line) {
        None => Err(BuildFailure::Unbalanced),
        Some(ws) => match command_line("add"@, seq!["from"@, "checksum"@], seq!["rest"@], ws) {
            None => Err(BuildFailure::BadOptions),
            Some((options, rest)) => add_words(options[0], options[1], rest[0], s),
        },
    }
}

/// The command that adds the files of an ADD line to the current container. Unlike COPY,
/// ADD takes URLs, and unpacks local archives.
pub fn execute_add(line: &str, state: &State) -> (r: Result<Vec<String>, BuildError>)
    ensures
        is_command(r, add_args(line@, state@)),
{
    match split_words(line) {
        None => Err(BuildError::Unbalanced),
        Some(ws) => match parse_with_checksum("add", &ws) {
            None => Err(BuildError::BadOptions),
            Some((values, rest)) => {
                proof {
                    let opts = values@.map_values(|o: Option<String>| opt_text(o));
                    assert(opts[0] == opt_text(values@[0]) && opts[1] == opt_text(values@[1]));
                    let all = rest@.map_values(|w: Vec<String>| texts(w@));
                    assert(all[0] == texts(rest@[0]@));
                }
                add_words_command(&values[0], &values[1], &rest[0], state)
            },
        },
    }
}

// ---------------------------------------------------------------------------------------
// Laws
// ---------------------------------------------------------------------------------------
/// A source with a star, a question mark or an opening bracket in it is looked for as a pattern
/// below the context directory, which stands for itself in the pattern.
pub proof fn law_source_with_wildcard_is_a_pattern(ctx: Seq<char>, source: Seq<char>)
    requires
        source.contains('*') || source.contains('?') || source.contains('\u{5b}'),
    ensures
        expanded(ctx, source) == (SourceView::Pattern {
            source,
            pattern: glob_escaped(ctx) + "/"@ + source,
        }),
{
    if source.contains('*') {
        let k = choose|k: int| 0 <= k < source.len() && source[k] == '*';
        assert(is_wildcard(source[k]));
    } else if source.contains('?') {
        let k = choose|k: int| 0 <= k < source.len() && source[k] == '?';
        assert(is_wildcard(source[k]));
    } else {
        let k = choose|k: int| 0 <= k < source.len() && source[k] == '\u{5b}';
        assert(is_wildcard(source[k]));
    }
}

/// A source without any of them is looked for under its own path, below the context directory
/// unless it is absolute.
pub proof fn law_source_without_wildcard_is_a_path(ctx: Seq<char>, source: Seq<char>)
    requires
        !source.contains('*') && !source.contains('?') && !source.contains('\u{5b}'),
    ensures
        expanded(ctx, source) == (SourceView::Literal { path: join_path(ctx, source) }),
{
    assert forall|i: int| 0 <= i < source.len() implies !is_wildcard(#[trigger] source[i]) by {
        assert(source.contains(source[i]));
    }
}

/// The last operand of a COPY or ADD line is where its files go, and all operands before it are
/// its sources, in their order. Each is looked for.
pub proof fn law_last_operand_is_the_destination(
    ctx: Seq<char>,
    line: Seq<char>,
    ws: Seq<Seq<char>>,
    options: Seq<Option<Seq<char>>>,
    operands: Seq<Seq<Seq<char>>>,
    sources: Seq<Seq<char>>,
    destination: Seq<char>,
)
    requires
        shell_words(line) == Some(ws),
        command_line("copy"@, seq!["from"@, "checksum"@], seq!["rest"@], ws) == Some(
            (options, operands),
        ),
        operands[0] == sources.push(destination),
    ensures
        expanded_line(ctx, line) matches Ok(found) && found.len() == sources.len() && forall|i: int|
            0 <= i < sources.len() ==> #[trigger] found[i] == expanded(ctx, sources[i]),
{
    assert(sources.push(destination).drop_last() =~= sources);
}

/// What is done with a path goes by what is there: a symbolic link that is not excluded is hashed
/// as a link whatever it points to, a file as a file, and nothing else is hashed. An excluded path
/// is never hashed, and only a directory that can be skipped is left out of the walk.
pub proof fn law_what_is_done_with_a_path(
    can_skip: bool,
    is_dir: bool,
    is_symlink: bool,
    is_file: bool,
)
    ensures
        is_symlink ==> decided(false, can_skip, is_dir, is_symlink, is_file) is HashLink,
        !is_symlink && is_file ==> decided(false, can_skip, is_dir, is_symlink, is_file) is HashFile,
        !is_symlink && !is_file ==> decided(false, can_skip, is_dir, is_symlink, is_file) is Pass,
        is_dir && can_skip ==> decided(true, can_skip, is_dir, is_symlink, is_file) is Skip,
        !is_dir || !can_skip ==> decided(true, can_skip, is_dir, is_symlink, is_file) is Pass,
{
}

/// A walk is hashed path by path: a file that is not excluded adds the digest of its path and
/// content, a symbolic link that of its path and target, and nothing else adds anything.
pub proof fn law_walk_is_hashed_path_by_path(ignore: DockerIgnore, walk: Seq<Found>, f: Found)
    ensures
        digests_of(ignore, seq![]) == Seq::<Seq<u8>>::empty(),
        excluded(ignore, f.path, f.is_dir) ==> digests_of(ignore, walk.push(f)) == digests_of(
            ignore,
            walk,
        ),
        !excluded(ignore, f.path, f.is_dir) && f.is_symlink ==> digests_of(ignore, walk.push(f))
            == digests_of(ignore, walk).push(
            blake3_digest(encode_utf8(f.path) + seq![1u8] + f.content),
        ),
        !excluded(ignore, f.path, f.is_dir) && !f.is_symlink && f.is_file ==> digests_of(
            ignore,
            walk.push(f),
        ) == digests_of(ignore, walk).push(
            blake3_digest(encode_utf8(f.path) + seq![0u8] + f.content),
        ),
        !f.is_symlink && !f.is_file ==> digests_of(ignore, walk.push(f)) == digests_of(
            ignore,
            walk,
        ),
{
    assert(walk.push(f).drop_last() =~= walk);
}

/// A line that cannot be split into words, or whose options are not those of a COPY or ADD
/// instruction, or that has no operand, has no sources.
pub proof fn law_lines_without_sources(
    ctx: Seq<char>,
    line: Seq<char>,
    ws: Seq<Seq<char>>,
    options: Seq<Option<Seq<char>>>,
    operands: Seq<Seq<Seq<char>>>,
)
    ensures
        shell_words(line) is None ==> expanded_line(ctx, line) == Err::<
            Seq<SourceView>,
            BuildFailure,
        >(BuildFailure::Unbalanced),
        shell_words(line) == Some(ws) && command_line(
            "copy"@,
            seq!["from"@, "checksum"@],
            seq!["rest"@],
            ws,
        ) is None ==> expanded_line(ctx, line) == Err::<Seq<SourceView>, BuildFailure>(
            BuildFailure::BadOptions,
        ),
        shell_words(line) == Some(ws) && command_line(
            "copy"@,
            seq!["from"@, "checksum"@],
            seq!["rest"@],
            ws,
        ) == Some((options, operands)) && operands[0].len() == 0 ==> expanded_line(ctx, line)
            == Err::<Seq<SourceView>, BuildFailure>(BuildFailure::NoSources),
{
}

/// An excluded directory is left out of the walk exactly where nothing below it can be re-included.
pub proof fn law_excluded_directory_is_left_out(
    ignore: DockerIgnore,
    path: Seq<char>,
    is_symlink: bool,
    is_file: bool,
)
    requires
        excluded(ignore, path, true),
    ensures
        visited(ignore, path, true, is_symlink, is_file) is Skip <==> skippable(
            texts(ignore.negation_prefixes@),
            ignore.unbounded_negation,
            path,
        ),
{
}

/// What a symbolic link or a file that is not excluded is hashed as.
pub proof fn law_included_path_is_hashed_as_what_it_is(
    ignore: DockerIgnore,
    path: Seq<char>,
    is_dir: bool,
    is_file: bool,
)
    requires
        !excluded(ignore, path, is_dir),
    ensures
        visited(ignore, path, is_dir, true, is_file) is HashLink,
        visited(ignore, path, is_dir, false, true) is HashFile,
        visited(ignore, path, is_dir, false, false) is Pass,
{
}

} // verus!
