//! How a .dockerignore file is found and read, and what its rules come to.
use vstd::prelude::*;

use crate::dockerignore::{
    candidates, cleaned, climbs, compiles_to, dirs_above, first_file, first_rejected, has_glob,
    is_glob_char, is_unbounded, law_trailing_slash, lemma_dirs_above, literal_path,
    literal_segments, match_of, names_below, prefixes_of, related, rule_on, rule_text, rules_on,
    search_dirs, skippable, unbounded_in, DockerIgnore, DockerIgnoreError, Rule,
};
use crate::external::{matcher_root, matcher_rules, rule_accepted};
use crate::paths::{is_absolute, join_path, names, parent_path, path_within, with_name};
use crate::text::{
    is_space, joined, lemma_split_apart, lemma_split_joined, lemma_split_whole, lemma_trim_nothing,
    lines, split_on, texts,
};
use crate::text_laws::law_trim;

verus! {

// ---------------------------------------------------------------------------------------
// Rules
// ---------------------------------------------------------------------------------------
/// Rules are read line by line and keep their order. A line that holds none changes nothing.
pub proof fn law_rules_keep_their_order(ls: Seq<Seq<char>>, line: Seq<char>)
    ensures
        rules_on(seq![]) == Seq::<Rule>::empty(),
        rule_on(line) matches Some(r) ==> rules_on(ls.push(line)) == rules_on(ls).push(r),
        rule_on(line) is None ==> rules_on(ls.push(line)) == rules_on(ls),
{
    assert(ls.push(line).drop_last() =~= ls);
}

/// A pattern that needs no tidying: it neither starts nor ends with white space, does not end with a
/// slash, does not start with `./` or with the mark of a comment or a negation, and is not the
/// context root itself.
pub open spec fn is_tidy_pattern(p: Seq<char>) -> bool {
    &&& p.len() > 0
    &&& !is_space(p[0]) && !is_space(p.last())
    &&& p.last() != '/'
    &&& p[0] != '#' && p[0] != '!'
    &&& p[0] == '.' ==> p.len() > 1 && p[1] != '/'
}

proof fn lemma_cleaned(p: Seq<char>)
    requires
        is_tidy_pattern(p),
    ensures
        cleaned(p) == p,
        cleaned(seq!['.', '/'] + p) == p,
        cleaned(p + seq!['/']) == p,
        p != "."@,
{
    reveal_strlit("./");
    reveal_strlit("/");
    reveal_strlit(".");
    assert("/"@ =~= seq!['/']);
    assert("./"@ =~= seq!['.', '/']);
    if "./"@.is_prefix_of(p) {
        assert(p.subrange(0, 2)[0] == p[0]);
        assert(p.subrange(0, 2)[1] == p[1]);
    }
    if "/"@.is_suffix_of(p) {
        assert(p.subrange(p.len() - 1, p.len() as int)[0] == p.last());
    }
    let q = seq!['.', '/'] + p;
    assert(q.subrange(0, 2) =~= "./"@);
    assert(q.skip(2) =~= p);
    law_trailing_slash(p);
    assert("."@.len() == 1 && "."@[0] == '.');
}

/// One `./` in front of a pattern and one slash behind it are of no account, and no more than one.
pub proof fn law_one_slash_is_of_no_account(q: Seq<char>)
    requires
        q.len() > 0,
        !(q.len() > 1 && q[0] == '.' && q[1] == '/'),
        q != seq!['.'],
    ensures
        cleaned(q + seq!['/']) == q,
        q.last() != '/' ==> cleaned(q) == q,
        cleaned(seq!['.', '/'] + q + seq!['/']) == q,
        q.last() != '/' ==> cleaned(seq!['.', '/'] + q) == q,
{
    reveal_strlit("./");
    reveal_strlit("/");
    assert("/"@ =~= seq!['/']);
    assert("./"@ =~= seq!['.', '/']);
    let r = q + seq!['/'];
    if "./"@.is_prefix_of(q) {
        assert(q.subrange(0, 2)[0] == q[0] && q.subrange(0, 2)[1] == q[1]);
    }
    if "./"@.is_prefix_of(r) {
        assert(r.subrange(0, 2)[0] == r[0] && r.subrange(0, 2)[1] == r[1]);
        if q.len() == 1 {
            assert(q =~= seq!['.']);
        }
    }
    if "/"@.is_suffix_of(q) {
        assert(q.subrange(q.len() - 1, q.len() as int)[0] == q.last());
    }
    assert(r.subrange(r.len() - 1, r.len() as int) =~= seq!['/']);
    assert(r.take(r.len() - 1) =~= q);
    let x = seq!['.', '/'] + q;
    assert(x.subrange(0, 2) =~= "./"@);
    assert(x.skip(2) =~= q);
    let y = seq!['.', '/'] + q + seq!['/'];
    assert(y.subrange(0, 2) =~= "./"@);
    assert(y.skip(2) =~= r);
}

/// A negation is an exclamation mark before a line that is a rule by itself, with or without white
/// space between the two. It is the rule of the same pattern.
pub proof fn law_negation_is_a_rule_behind_a_mark(x: Seq<char>, blank: Seq<char>, p: Seq<char>)
    requires
        x.len() > 0 && !is_space(x[0]) && !is_space(x.last()),
        forall|i: int| 0 <= i < blank.len() ==> is_space(#[trigger] blank[i]),
        rule_on(x) == Some((false, p)),
    ensures
        rule_on(seq!['!'] + blank + x) == Some((true, p)),
{
    let none = Seq::<char>::empty();
    let line = seq!['!'] + blank + x;
    lemma_trim_nothing(x);
    assert(line.last() == x.last());
    assert(line[0] == '!');
    lemma_trim_nothing(line);
    assert(line.skip(1) =~= blank + x + none);
    law_trim(blank, x, none);
}

/// A rule that starts with a slash or with two stars is handed to the matcher as it is, and any
/// other with a slash before it. A negation has an exclamation mark before that.
pub proof fn law_rule_is_handed_on(p: Seq<char>)
    requires
        p.len() > 0,
    ensures
        p[0] == '/' || (p.len() > 1 && p[0] == '*' && p[1] == '*') ==> rule_text((false, p)) == p,
        p[0] != '/' && !(p.len() > 1 && p[0] == '*' && p[1] == '*') ==> rule_text((false, p))
            == seq!['/'] + p,
        rule_text((true, p)) == seq!['!'] + rule_text((false, p)),
{
    reveal_strlit("**");
    if p.len() > 1 {
        assert(p.subrange(0, 2)[0] == p[0] && p.subrange(0, 2)[1] == p[1]);
        if p[0] == '*' && p[1] == '*' {
            assert(p.subrange(0, 2) =~= "**"@);
        }
    }
}

/// A line is the rule of its pattern, with or without `./` before it, a slash behind it, or white
/// space round it. With an exclamation mark before it, it is a negation.
pub proof fn law_rule_of_a_pattern(p: Seq<char>, a: Seq<char>, b: Seq<char>)
    requires
        is_tidy_pattern(p),
        forall|i: int| 0 <= i < a.len() ==> is_space(#[trigger] a[i]),
        forall|i: int| 0 <= i < b.len() ==> is_space(#[trigger] b[i]),
    ensures
        rule_on(a + p + b) == Some((false, p)),
        rule_on(a + (seq!['.', '/'] + p) + b) == Some((false, p)),
        rule_on(a + (p + seq!['/']) + b) == Some((false, p)),
        rule_on(a + (seq!['!'] + p) + b) == Some((true, p)),
{
    lemma_cleaned(p);
    law_trim(a, p, b);
    law_trim(a, seq!['.', '/'] + p, b);
    law_trim(a, p + seq!['/'], b);
    law_trim(a, seq!['!'] + p, b);
    assert((seq!['!'] + p).skip(1) =~= p);
    lemma_trim_nothing(p);
    assert((p + seq!['/'])[0] == p[0]);
}

/// A blank line and a comment hold no rule, and neither does a line for the context root itself.
pub proof fn law_lines_without_a_rule(a: Seq<char>, text: Seq<char>, b: Seq<char>)
    requires
        forall|i: int| 0 <= i < a.len() ==> is_space(#[trigger] a[i]),
        forall|i: int| 0 <= i < b.len() ==> is_space(#[trigger] b[i]),
        text.len() > 0 ==> !is_space(text.last()),
    ensures
        rule_on(a) is None,
        rule_on(a + (seq!['#'] + text) + b) is None,
        rule_on(a + seq!['.'] + b) is None,
        rule_on(a + seq!['!', '.'] + b) is None,
        rule_on(a + seq!['.', '/'] + b) is None,
        rule_on(a + seq!['/'] + b) is None,
{
    let none = Seq::<char>::empty();
    reveal_strlit("./");
    reveal_strlit("/");
    reveal_strlit(".");
    assert("/"@ =~= seq!['/']);
    assert("./"@ =~= seq!['.', '/']);
    assert("."@ =~= seq!['.']);
    law_trim(a, none, none);
    assert(a + none + none =~= a);
    let comment = seq!['#'] + text;
    assert(comment.last() == (if text.len() > 0 { text.last() } else { '#' }));
    law_trim(a, comment, b);
    law_trim(a, seq!['.'], b);
    law_trim(a, seq!['!', '.'], b);
    law_trim(a, seq!['.', '/'], b);
    law_trim(a, seq!['/'], b);
    let dot = seq!['.'];
    assert(seq!['!', '.'].skip(1) =~= dot);
    lemma_trim_nothing(dot);
    assert(!"./"@.is_prefix_of(dot));
    if "/"@.is_suffix_of(dot) {
        assert(dot.subrange(0, 1)[0] == '.');
    }
    assert(cleaned(dot) == dot);
    let here = seq!['.', '/'];
    assert(here.subrange(0, 2) =~= "./"@);
    assert(here.skip(2) =~= none);
    assert(cleaned(here) == none);
    let root = seq!['/'];
    assert(!"./"@.is_prefix_of(root));
    assert(root.subrange(0, 1) =~= "/"@);
    assert(root.take(0) =~= none);
    assert(cleaned(root) == none);
}

/// The literal leading path of a pattern is made of its segments before the first that has a
/// wildcard in it; a pattern that starts with such a segment has none.
pub proof fn law_literal_path(segs: Seq<Seq<char>>, k: int)
    requires
        0 <= k <= segs.len(),
        segs.len() > 0,
        forall|i: int| 0 <= i < segs.len() ==> !(#[trigger] segs[i]).contains('/'),
        forall|i: int| 0 <= i < k ==> (#[trigger] segs[i]).len() > 0 && !has_glob(segs[i]),
        k < segs.len() ==> segs[k].len() > 0 && has_glob(segs[k]),
    ensures
        k > 0 ==> literal_path(joined(segs, seq!['/'])) == Some(joined(segs.take(k), seq!['/'])),
        k == 0 ==> literal_path(joined(segs, seq!['/'])) is None,
{
    lemma_split_joined(segs, '/');
    lemma_literal_front(segs, k);
}

proof fn lemma_literal_front(segs: Seq<Seq<char>>, k: int)
    requires
        0 <= k <= segs.len(),
        forall|i: int| 0 <= i < k ==> (#[trigger] segs[i]).len() > 0 && !has_glob(segs[i]),
        k < segs.len() ==> segs[k].len() > 0 && has_glob(segs[k]),
    ensures
        literal_segments(segs) == segs.take(k),
    decreases segs.len(),
{
    if segs.len() > 0 && k > 0 {
        let rest = segs.drop_first();
        assert(segs[0].len() > 0 && !has_glob(segs[0]));
        assert forall|i: int| 0 <= i < k - 1 implies (#[trigger] rest[i]).len() > 0 && !has_glob(
            rest[i],
        ) by {
            assert(rest[i] == segs[i + 1]);
        }
        lemma_literal_front(rest, k - 1);
        assert(seq![segs[0]] + rest.take(k - 1) =~= segs.take(k));
    } else {
        assert(segs.take(k) =~= seq![]);
    }
}

/// A wildcard is a star, a question mark, a bracket or a brace.
pub proof fn law_wildcards(s: Seq<char>)
    ensures
        has_glob(s) == (s.contains('*') || s.contains('?') || s.contains('\u{5b}') || s.contains(
            '\u{5d}',
        ) || s.contains('{') || s.contains('}')),
{
    if has_glob(s) {
        let i = choose|i: int| 0 <= i < s.len() && is_glob_char(#[trigger] s[i]);
        assert(s.contains(s[i]));
    }
    assert forall|i: int| 0 <= i < s.len() && !has_glob(s) implies !is_glob_char(
        #[trigger] s[i],
    ) by {}
}

/// Each negation with a literal leading path adds it to what is looked at, each negation without
/// one keeps every directory from being skipped, and no other rule does either.
pub proof fn law_negations_are_noted(rules: Seq<Rule>, p: Seq<char>)
    ensures
        prefixes_of(seq![]) == Seq::<Seq<char>>::empty(),
        !unbounded_in(seq![]),
        prefixes_of(rules.push((false, p))) == prefixes_of(rules),
        unbounded_in(rules.push((false, p))) == unbounded_in(rules),
        literal_path(p) matches Some(q) ==> prefixes_of(rules.push((true, p))) == prefixes_of(
            rules,
        ).push(q) && unbounded_in(rules.push((true, p))) == unbounded_in(rules),
        literal_path(p) is None ==> prefixes_of(rules.push((true, p))) == prefixes_of(rules)
            && unbounded_in(rules.push((true, p))),
{
    let no = rules.push((false, p));
    let yes = rules.push((true, p));
    assert(no.drop_last() =~= rules);
    assert(yes.drop_last() =~= rules);
    if unbounded_in(rules) {
        let i = choose|i: int| 0 <= i < rules.len() && is_unbounded(#[trigger] rules[i]);
        assert(is_unbounded(no[i]) && is_unbounded(yes[i]));
    }
    if unbounded_in(no) {
        let i = choose|i: int| 0 <= i < no.len() && is_unbounded(#[trigger] no[i]);
        assert(is_unbounded(rules[i]));
    }
    if unbounded_in(yes) && literal_path(p) is Some {
        let i = choose|i: int| 0 <= i < yes.len() && is_unbounded(#[trigger] yes[i]);
        assert(is_unbounded(rules[i]));
    }
    if literal_path(p) is None {
        assert(is_unbounded(yes[rules.len() as int]));
    }
}

/// A directory can be skipped exactly where no negation starts with a wildcard, and none leads to
/// it, through it or into it.
pub proof fn law_what_can_be_skipped(prefixes: Seq<Seq<char>>, unbounded: bool, dir: Seq<char>)
    ensures
        skippable(prefixes, unbounded, dir) <==> !unbounded && forall|i: int|
            0 <= i < prefixes.len() ==> !path_within(#[trigger] prefixes[i], dir) && !path_within(
                dir,
                prefixes[i],
            ),
{
    if skippable(prefixes, unbounded, dir) {
        assert forall|i: int| 0 <= i < prefixes.len() implies !path_within(
            #[trigger] prefixes[i],
            dir,
        ) && !path_within(dir, prefixes[i]) by {
            assert(!related(prefixes[i], dir));
        }
    }
}

/// What the rules say of a path: it is excluded, it is re-included, or no rule speaks of it.
pub proof fn law_verdicts(v: Option<bool>)
    ensures
        match_of(v) is Ignore <==> v == Some(true),
        match_of(v) is Whitelist <==> v == Some(false),
        match_of(v) is Unmatched <==> v is None,
{
}

/// The .dockerignore that counts is the first that is there, and the others are of no account.
pub proof fn law_first_file_counts(places: Seq<Seq<char>>, files: Map<Seq<char>, Seq<char>>, i: int)
    requires
        0 <= i <= places.len(),
        forall|k: int| 0 <= k < i ==> !files.dom().contains(#[trigger] places[k]),
        i < places.len() ==> files.dom().contains(places[i]),
    ensures
        i < places.len() ==> first_file(places, files) == Some(files[places[i]]),
        i == places.len() ==> first_file(places, files) is None,
    decreases places.len(),
{
    if i > 0 {
        let rest = places.drop_first();
        assert(!files.dom().contains(places[0]));
        assert forall|k: int| 0 <= k < i - 1 implies !files.dom().contains(#[trigger] rest[k]) by {
            assert(rest[k] == places[k + 1]);
        }
        law_first_file_counts(rest, files, i - 1);
    }
}

/// A .dockerignore is looked for beside the Dockerfile first, and then in the directories above it,
/// from the nearest up to the context root.
pub proof fn law_search_goes_upwards(root: Seq<char>, dir: Seq<Seq<char>>, i: int)
    requires
        0 <= i < dir.len(),
    ensures
        dirs_above(root, dir).len() == dir.len(),
        i + 1 < dir.len() ==> dirs_above(root, dir)[i] == join_path(
            root,
            joined(dir.take(dir.len() - 1 - i), seq!['/']),
        ),
        dirs_above(root, dir)[dir.len() - 1] == root,
{
    lemma_dirs_above_len(root, dir);
    lemma_dirs_above(root, dir, i);
    lemma_dirs_above(root, dir, dir.len() - 1);
    assert(dir.take(0) =~= seq![]);
}

proof fn lemma_dirs_above_len(root: Seq<char>, names: Seq<Seq<char>>)
    ensures
        dirs_above(root, names).len() == names.len(),
    decreases names.len(),
{
    if names.len() > 0 {
        lemma_dirs_above_len(root, names.drop_last());
    }
}

/// The first place is beside the Dockerfile, and each further one is the .dockerignore of a
/// directory that is searched.
pub proof fn law_places(root: Seq<char>, docker_file: Seq<char>, i: int)
    ensures
        candidates(root, docker_file)[0] == with_name(docker_file, ".dockerignore"@),
        0 <= i < search_dirs(root, docker_file).len() ==> candidates(root, docker_file)[i + 1]
            == join_path(search_dirs(root, docker_file)[i], ".dockerignore"@),
        candidates(root, docker_file).len() == search_dirs(root, docker_file).len() + 1,
{
}

/// The matcher takes the rules of a .dockerignore file in the order of its lines, as rules for the
/// context root.
pub proof fn law_matcher_takes_the_rules_in_order(
    root: Seq<char>,
    content: Seq<char>,
    d: DockerIgnore,
    i: int,
)
    requires
        compiles_to(root, content, Ok(d)),
        0 <= i < rules_on(lines(content)).len(),
    ensures
        matcher_rules(d.matcher).len() == rules_on(lines(content)).len(),
        matcher_rules(d.matcher)[i] == rule_text(rules_on(lines(content))[i]),
        matcher_root(d.matcher) == root,
        texts(d.negation_prefixes@) == prefixes_of(rules_on(lines(content))),
        d.unbounded_negation == unbounded_in(rules_on(lines(content))),
{
}

/// The names that lead from the context root to a directory are those that the directory has on top
/// of the root. A directory whose first names are others, or that climbs out of the root, is not in
/// it.
pub proof fn law_names_below_the_root(root: Seq<char>, dir: Seq<char>, rest: Seq<Seq<char>>)
    ensures
        names(dir) == names(root) + rest && is_absolute(dir) == is_absolute(root) && !rest.contains(
            seq!['.', '.'],
        ) ==> names_below(root, dir) == Some(rest),
        names(dir) == names(root) + rest && rest.contains(seq!['.', '.']) ==> names_below(root, dir)
            is None,
        is_absolute(dir) != is_absolute(root) ==> names_below(root, dir) is None,
        names_below(root, dir) matches Some(below) ==> names(dir) == names(root) + below,
{
    if names(dir) == names(root) + rest {
        assert(names(dir).skip(names(root).len() as int) =~= rest);
        assert(names(dir).subrange(0, names(root).len() as int) =~= names(root));
        if rest.contains(seq!['.', '.']) {
            let i = choose|i: int| 0 <= i < rest.len() && rest[i] == seq!['.', '.'];
            assert(climbs(rest));
        } else if climbs(rest) {
            let i = choose|i: int| 0 <= i < rest.len() && #[trigger] rest[i] == seq!['.', '.'];
            assert(rest.contains(rest[i]));
        }
    }
    if let Some(below) = names_below(root, dir) {
        assert(names(root) =~= names(dir).subrange(0, names(root).len() as int));
        assert(names(dir) =~= names(root) + below);
    }
}

/// The search goes through the directories above that of the Dockerfile where it lies in the context
/// root, and otherwise looks in the context root alone.
pub proof fn law_directories_that_are_searched(root: Seq<char>, docker_file: Seq<char>)
    ensures
        parent_path(docker_file) is None ==> search_dirs(root, docker_file) == seq![root],
        parent_path(docker_file) matches Some(dir) ==> match names_below(root, dir) {
            Some(below) => search_dirs(root, docker_file) == dirs_above(root, below),
            None => search_dirs(root, docker_file) == seq![root],
        },
{
}

/// Slashes that follow one another, or stand at the start or the end of a pattern, are of no account
/// for its literal leading path.
pub proof fn law_empty_segments_are_of_no_account(p: Seq<char>, q: Seq<char>)
    ensures
        literal_path(seq!['/'] + p) == literal_path(p),
        literal_path(p + seq!['/']) == literal_path(p),
        literal_path(p + seq!['/', '/'] + q) == literal_path(p + seq!['/'] + q),
{
    let none = Seq::<char>::empty();
    let nothing = Seq::<Seq<char>>::empty();
    let a = split_on(p, '/');
    let b = split_on(q, '/');
    lemma_split_whole(none, '/');
    lemma_split_apart(none, '/', p);
    assert(none + seq!['/'] + p =~= seq!['/'] + p);
    lemma_empty_segment(nothing, a);
    assert(nothing + seq![none] + a =~= seq![none] + a);
    assert(nothing + a =~= a);
    lemma_split_apart(p, '/', none);
    assert(p + seq!['/'] + none =~= p + seq!['/']);
    lemma_empty_segment(a, nothing);
    assert(a + seq![none] + nothing =~= a + seq![none]);
    assert(a + nothing =~= a);
    lemma_split_apart(p, '/', q);
    let r = none + seq!['/'] + q;
    lemma_split_apart(none, '/', q);
    lemma_split_apart(p, '/', r);
    assert(p + seq!['/'] + r =~= p + seq!['/', '/'] + q);
    lemma_empty_segment(a, b);
    assert(a + (seq![none] + b) =~= a + seq![none] + b);
}

proof fn lemma_empty_segment(a: Seq<Seq<char>>, b: Seq<Seq<char>>)
    ensures
        literal_segments(a + seq![Seq::<char>::empty()] + b) == literal_segments(a + b),
    decreases a.len(),
{
    let none = Seq::<char>::empty();
    let s = a + seq![none] + b;
    let t = a + b;
    if a.len() == 0 {
        assert(s[0].len() == 0);
        assert(s.drop_first() =~= b);
        assert(t =~= b);
    } else {
        assert(s[0] == a[0] && t[0] == a[0]);
        assert(s.drop_first() =~= a.drop_first() + seq![none] + b);
        assert(t.drop_first() =~= a.drop_first() + b);
        lemma_empty_segment(a.drop_first(), b);
    }
}

/// A .dockerignore file is compiled exactly where the matcher takes each of its rules and all of them
/// together. Otherwise the first rule that it does not take is named.
pub proof fn law_first_bad_rule_is_named(
    root: Seq<char>,
    content: Seq<char>,
    r: Result<DockerIgnore, DockerIgnoreError>,
)
    requires
        compiles_to(root, content, r),
    ensures
        ({
            let rules = rules_on(lines(content));
            match r {
                Ok(_) => forall|i: int|
                    0 <= i < rules.len() ==> rule_accepted(rule_text(#[trigger] rules[i])),
                Err(DockerIgnoreError::BadRule { rule }) => exists|i: int|
                    0 <= i < rules.len() && rule@ == rule_text(#[trigger] rules[i])
                        && !rule_accepted(rule_text(rules[i])) && forall|k: int|
                        0 <= k < i ==> rule_accepted(rule_text(#[trigger] rules[k])),
                Err(DockerIgnoreError::Uncompilable) => forall|i: int|
                    0 <= i < rules.len() ==> rule_accepted(rule_text(#[trigger] rules[i])),
            }
        }),
{
    let rules = rules_on(lines(content));
    if let Err(DockerIgnoreError::BadRule { rule }) = r {
        let i = choose|i: int| #[trigger] first_rejected(rules, i) && rule@ == rule_text(rules[i]);
        assert(rule@ == rule_text(rules[i]));
    }
}

/// Of what stands in front of a pattern only one `./` is dropped, and of what stands behind it only
/// one slash.
pub proof fn law_only_one_is_dropped(q: Seq<char>)
    ensures
        cleaned(seq!['.', '/'] + q) == (if q.len() > 0 && q.last() == '/' {
            q.drop_last()
        } else {
            q
        }),
        !(q.len() > 1 && q[0] == '.' && q[1] == '/') ==> cleaned(q) == (if q.len() > 0 && q.last()
            == '/' {
            q.drop_last()
        } else {
            q
        }),
{
    reveal_strlit("./");
    reveal_strlit("/");
    assert("/"@ =~= seq!['/']);
    assert("./"@ =~= seq!['.', '/']);
    let x = seq!['.', '/'] + q;
    assert(x.subrange(0, 2) =~= "./"@);
    assert(x.skip(2) =~= q);
    if "./"@.is_prefix_of(q) {
        assert(q.subrange(0, 2)[0] == q[0] && q.subrange(0, 2)[1] == q[1]);
    }
    if q.len() > 0 {
        let end = q.subrange(q.len() - 1, q.len() as int);
        assert(end[0] == q.last());
        assert(seq!['/'][0] == '/');
        if q.last() == '/' {
            assert(end =~= seq!['/']);
            assert(q.take(q.len() - 1) =~= q.drop_last());
        }
    }
}

/// A line that is neither blank nor a comment nor a negation is the rule of its cleaned text, unless
/// that is the context root.
pub proof fn law_rule_is_the_cleaned_line(a: Seq<char>, t: Seq<char>, b: Seq<char>)
    requires
        forall|i: int| 0 <= i < a.len() ==> is_space(#[trigger] a[i]),
        forall|i: int| 0 <= i < b.len() ==> is_space(#[trigger] b[i]),
        t.len() > 0 && !is_space(t[0]) && !is_space(t.last()),
        t[0] != '#' && t[0] != '!',
    ensures
        cleaned(t).len() == 0 || cleaned(t) == seq!['.'] ==> rule_on(a + t + b) is None,
        cleaned(t).len() > 0 && cleaned(t) != seq!['.'] ==> rule_on(a + t + b) == Some(
            (false, cleaned(t)),
        ),
{
    reveal_strlit(".");
    assert("."@ =~= seq!['.']);
    law_trim(a, t, b);
}

} // verus!
