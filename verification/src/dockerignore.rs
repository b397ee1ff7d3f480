//! Compiles a .dockerignore file into a matcher, which tells the files that belong to the
//! build context from those that do not.
use ignore::gitignore::Gitignore;
use vstd::prelude::*;

use crate::external::{
    add_rule, below_root, builder_root, builder_rules, can_reinclude, compile_rules,
    compiled_pattern, compiled_rule, head_text, is_head, kept_whole, matcher_root, matcher_rules,
    new_rules, no_rules, read_text, rule_accepted, rule_verdict, rules_compile, starts_with_head,
    starts_with_whole, verdict, without_dot_slash,
};
use crate::paths::{
    all_named, components, is_absolute, is_within, join, join_path, lemma_components_joined,
    lemma_names, lemma_plain_path, lemma_trailing_slash, names, parent, parent_path, path_names,
    path_within, plain_path, with_file_name, with_name,
};
use crate::text::{
    char_texts, is_space, is_text, joined, lemma_joined_split, lemma_split_apart,
    lemma_split_front, lemma_split_pieces, lemma_split_whole, lemma_trim_end_keeps, lines, push_all,
    same, split_lines, split_on, split_pieces, starts, strip_prefix, strip_suffix, tail, texts,
    to_chars, to_text, trim, trim_end, trimmed, without_prefix, without_suffix,
};
use crate::textmap::TextMap;

verus! {

/// What the rules say of a path.
#[derive(Debug, Clone, Copy, PartialEq, Eq, Structural)]
pub enum IgnoreMatch {
    /// No rule speaks of it.
    Unmatched,
    /// It is excluded.
    Ignore,
    /// It was excluded and is re-included.
    Whitelist,
}

impl IgnoreMatch {
    /// Whether the path is excluded.
    pub fn is_ignore(&self) -> (r: bool)
        ensures
            r == (*self is Ignore),
    {
        matches!(self, IgnoreMatch::Ignore)
    }
}

/// Why a .dockerignore file cannot be compiled.
#[derive(Debug)]
pub enum DockerIgnoreError {
    /// A rule cannot be read.
    BadRule { rule: String },
    /// The rules cannot be compiled together.
    Uncompilable,
}

/// A compiled .dockerignore, combining the underlying matcher with the information needed
/// to decide whether an excluded directory may still contain a re-included (negated)
/// descendant, so that directories can safely be pruned during the walk.
#[derive(Debug)]
pub struct DockerIgnore {
    pub matcher: Gitignore,
    /// The literal leading path of every negation ("!") rule, that is the part before the
    /// first glob segment. A negation can only re-include paths that start with this
    /// prefix, so a directory whose subtree does not intersect any prefix can be pruned.
    pub negation_prefixes: Vec<String>,
    /// True if any negation rule begins with a glob segment (e.g. `**/foo`, `*.rs`).
    /// Such a rule can match at any depth, so no directory can ever be pruned.
    pub unbounded_negation: bool,
}

/// Whether two paths are the same or one lies below the other.
pub open spec fn related(a: Seq<char>, b: Seq<char>) -> bool {
    path_within(a, b) || path_within(b, a)
}

/// Whether no negation rule can re-include anything below a directory.
pub open spec fn skippable(prefixes: Seq<Seq<char>>, unbounded: bool, dir: Seq<char>) -> bool {
    !unbounded && forall|i: int| 0 <= i < prefixes.len() ==> !related(#[trigger] prefixes[i], dir)
}

/// The verdict of the rules as an `IgnoreMatch`.
pub open spec fn match_of(v: Option<bool>) -> IgnoreMatch {
    match v {
        None => IgnoreMatch::Unmatched,
        Some(true) => IgnoreMatch::Ignore,
        Some(false) => IgnoreMatch::Whitelist,
    }
}

/// Whether a path can be asked about of rules for a directory.
pub fn is_below_root(root: &str, path: &str) -> (r: bool)
    ensures
        r == below_root(root@, path@),
{
    let r = to_chars(root);
    let p = to_chars(path);
    let r = drop_dot_slash(&r);
    let p = drop_dot_slash(&p);
    if p.len() > 0 && p[0] == '/' {
        return false;
    }
    let n: usize = r.len();
    let m: usize = p.len();
    if n > m {
        return true;
    }
    let front = crate::text::head(p, n);
    let back = tail(p, n);
    proof {
        reveal_strlit("//");
        assert("//"@ =~= seq!['/', '/']);
        assert(front@ =~= p@.subrange(0, n as int));
    }
    !(same(front, r) && starts(back, "//"))
}

fn drop_dot_slash(p: &[char]) -> (r: &[char])
    ensures
        r@ == without_dot_slash(p@),
{
    if p.len() >= 2 && p[0] == '.' && p[1] == '/' {
        tail(p, 2)
    } else {
        p
    }
}

impl DockerIgnore {
    /// An empty matcher that ignores nothing.
    pub fn empty() -> (r: DockerIgnore)
        ensures
            matcher_rules(r.matcher) == Seq::<Seq<char>>::empty(),
            r.negation_prefixes@ == Seq::<String>::empty(),
            !r.unbounded_negation,
    {
        DockerIgnore { matcher: no_rules(), negation_prefixes: Vec::new(), unbounded_negation: false }
    }

    /// Whether it was compiled from some rules.
    pub open spec fn made_from(self, rules: Seq<Rule>) -> bool {
        &&& matcher_rules(self.matcher) == rule_texts(rules)
        &&& texts(self.negation_prefixes@) == prefixes_of(rules)
        &&& self.unbounded_negation == unbounded_in(rules)
    }

    /// Whether it was compiled from some rules, and allows a directory to be skipped that none
    /// of them reaches but by its literal leading path.
    pub open spec fn may_skip(self, rules: Seq<Rule>, dir: Seq<char>) -> bool {
        &&& self.made_from(rules)
        &&& all_noted(rules, dir)
        &&& skippable(texts(self.negation_prefixes@), self.unbounded_negation, dir)
    }

    /// Returns whether the given path is matched, inheriting exclusions from parent
    /// directories so that a file inside an excluded directory is also excluded unless
    /// re-included by a negation rule. Without rules nothing is matched. Nothing in a directory
    /// that may be skipped is re-included, and everything in it is excluded where it is.
    pub fn matched(&self, path: &str, is_dir: bool) -> (r: IgnoreMatch)
        requires
            matcher_rules(self.matcher).len() > 0 ==> below_root(
                matcher_root(self.matcher),
                path@,
            ),
        ensures
            r == match_of(
                rule_verdict(
                    matcher_root(self.matcher),
                    matcher_rules(self.matcher),
                    path@,
                    is_dir,
                ),
            ),
            matcher_rules(self.matcher).len() == 0 ==> r is Unmatched,
            r is Whitelist && kept_whole(matcher_root(self.matcher), path@) ==> exists|i: int|
                0 <= i < matcher_rules(self.matcher).len() && can_reinclude(
                    #[trigger] matcher_rules(self.matcher)[i],
                    path@,
                ),
            forall|rules: Seq<Rule>, dir: Seq<char>| #[trigger]
                self.may_skip(rules, dir) && path_within(path@, dir) && plain_path(path@)
                    && kept_whole(matcher_root(self.matcher), path@) ==> !(r is Whitelist),
            forall|rules: Seq<Rule>, dir: Seq<char>| #[trigger]
                self.may_skip(rules, dir) && lies_in(path@, dir) && kept_whole(
                    matcher_root(self.matcher),
                    path@,
                ) && rule_verdict(
                    matcher_root(self.matcher),
                    matcher_rules(self.matcher),
                    dir,
                    true,
                ) == Some(true) ==> r is Ignore,
    {
        proof {
            assert forall|rules: Seq<Rule>, dir: Seq<char>, i: int|
                self.may_skip(rules, dir) && path_within(path@, dir) && plain_path(path@) && 0 <= i
                    < rules.len() implies !can_reinclude(
                #[trigger] matcher_rules(self.matcher)[i],
                path@,
            ) && #[trigger] self.may_skip(rules, dir) by {
                law_skipped_directory_holds_nothing_reincluded(rules, dir, path@, i);
            }
            assert forall|dir: Seq<char>| #[trigger] lies_in(path@, dir) implies starts_with_whole(
                path@,
                dir,
            ) && 0 < dir.len() < path@.len() by {
                lemma_lies_in(path@, dir);
            }
        }
        match verdict(&self.matcher, path, is_dir) {
            None => IgnoreMatch::Unmatched,
            Some(ignored) => if ignored {
                IgnoreMatch::Ignore
            } else {
                IgnoreMatch::Whitelist
            },
        }
    }

    /// Returns true if `dir` (an excluded directory, relative to the context root) can be
    /// pruned from the walk because no negation rule could re-include anything beneath it.
    pub fn can_skip_dir(&self, dir: &str) -> (r: bool)
        ensures
            r == skippable(texts(self.negation_prefixes@), self.unbounded_negation, dir@),
    {
        if self.unbounded_negation {
            return false;
        }
        let ghost prefixes = texts(self.negation_prefixes@);
        let d = to_chars(dir);
        let mut i: usize = 0;
        while i < self.negation_prefixes.len()
            invariant
                i <= self.negation_prefixes@.len(),
                prefixes == texts(self.negation_prefixes@),
                d@ == dir@,
                forall|k: int| 0 <= k < i ==> !related(#[trigger] prefixes[k], dir@),
            decreases self.negation_prefixes.len() - i,
        {
            let n = to_chars(self.negation_prefixes[i].as_str());
            proof {
                assert(prefixes[i as int] == n@);
            }
            if is_within(&n, &d) || is_within(&d, &n) {
                return false;
            }
            i += 1;
        }
        true
    }
}

/// Whether a plain path lies in a directory given by a plain path, and is not the directory
/// itself.
pub open spec fn lies_in(path: Seq<char>, dir: Seq<char>) -> bool {
    plain_path(path) && plain_path(dir) && path_within(path, dir) && path != dir
}

proof fn lemma_lies_in(path: Seq<char>, dir: Seq<char>)
    requires
        lies_in(path, dir),
    ensures
        starts_with_whole(path, dir),
        0 < dir.len() < path.len(),
{
    let a = split_on(dir, '/');
    let b = split_on(path, '/');
    let n = a.len() as int;
    lemma_plain_path(path);
    lemma_plain_path(dir);
    lemma_joined_split(dir, '/');
    lemma_split_front(path, '/', n);
    assert(b.take(n) =~= a);
    assert(a[0].len() > 0);
    if dir.len() == 0 {
        lemma_split_whole(dir, '/');
    }
    if dir.len() == path.len() {
        assert(path.subrange(0, path.len() as int) =~= path);
    }
}

/// The characters that introduce wildcard matching in a pattern segment.
pub open spec fn is_glob_char(c: char) -> bool {
    c == '*' || c == '?' || c == '\u{5b}' || c == '\u{5d}' || c == '{' || c == '}'
}

/// Whether a segment of a pattern has a wildcard in it.
pub open spec fn has_glob(s: Seq<char>) -> bool {
    exists|i: int| 0 <= i < s.len() && is_glob_char(#[trigger] s[i])
}

/// The segments of a pattern before the first one that has a wildcard in it, without the
/// empty ones.
pub open spec fn literal_segments(segs: Seq<Seq<char>>) -> Seq<Seq<char>>
    decreases segs.len(),
{
    if segs.len() == 0 {
        seq![]
    } else if segs[0].len() == 0 {
        literal_segments(segs.drop_first())
    } else if has_glob(segs[0]) {
        seq![]
    } else {
        seq![segs[0]] + literal_segments(segs.drop_first())
    }
}

/// The literal leading path of a pattern.
pub open spec fn literal_path(pattern: Seq<char>) -> Option<Seq<char>> {
    let segs = literal_segments(split_on(pattern, '/'));
    if segs.len() == 0 {
        None
    } else {
        Some(joined(segs, seq!['/']))
    }
}

fn find_glob(s: &[char]) -> (r: bool)
    ensures
        r == has_glob(s@),
{
    let mut i: usize = 0;
    while i < s.len()
        invariant
            i <= s@.len(),
            forall|k: int| 0 <= k < i ==> !is_glob_char(#[trigger] s@[k]),
        decreases s.len() - i,
    {
        let c = s[i];
        if c == '*' || c == '?' || c == '\u{5b}' || c == '\u{5d}' || c == '{' || c == '}' {
            proof {
                assert(is_glob_char(s@[i as int]));
            }
            return true;
        }
        i += 1;
    }
    false
}

/// Extracts the literal leading path of a pattern, that is the path made up of the segments
/// before the first segment that contains a glob character. Returns `None` if the very
/// first segment is a glob (so the pattern is unanchored and can match at any depth).
pub fn literal_prefix(pattern: &str) -> (r: Option<String>)
    ensures
        match r {
            Some(p) => literal_path(pattern@) == Some(p@),
            None => literal_path(pattern@) is None,
        },
{
    let c = to_chars(pattern);
    let segs = split_pieces(&c, '/');
    let ghost all = char_texts(segs@);
    let ghost mut done: Seq<Seq<char>> = seq![];
    let mut out: Vec<char> = Vec::new();
    let mut any: bool = false;
    let mut i: usize = 0;
    proof {
        assert(all.skip(0) =~= all);
        assert(done + literal_segments(all) =~= literal_segments(all));
    }
    while i < segs.len() && !find_glob(&segs[i])
        invariant
            i <= segs@.len(),
            all == char_texts(segs@),
            done + literal_segments(all.skip(i as int)) == literal_segments(all),
            out@ == joined(done, seq!['/']),
            any == (done.len() > 0),
        decreases segs.len() - i,
    {
        proof {
            assert(all.skip(i as int).drop_first() =~= all.skip(i + 1));
            assert(all.skip(i as int)[0] == segs@[i as int]@);
        }
        if segs[i].len() > 0 {
            let ghost before = out@;
            if any {
                out.push('/');
            }
            push_all(&mut out, &segs[i]);
            proof {
                let seg = segs@[i as int]@;
                let more = done.push(seg);
                assert(more.drop_last() =~= done);
                assert(more.last() == seg);
                assert(out@ =~= joined(more, seq!['/']));
                assert(done + (seq![seg] + literal_segments(all.skip(i + 1))) =~= more
                    + literal_segments(all.skip(i + 1)));
                done = more;
            }
            any = true;
        }
        i += 1;
    }
    proof {
        if i < segs@.len() {
            assert(all.skip(i as int)[0] == segs@[i as int]@);
            assert(has_glob(segs@[i as int]@));
            assert(segs@[i as int]@.len() > 0);
        }
        assert(literal_segments(all.skip(i as int)) =~= seq![]);
        assert(done =~= literal_segments(all));
    }
    if any {
        Some(to_text(&out))
    } else {
        None
    }
}

/// A rule of a .dockerignore file: whether it re-includes, and its pattern.
pub type Rule = (bool, Seq<char>);

/// A pattern without one leading `./` and one trailing `/`.
pub open spec fn cleaned(p: Seq<char>) -> Seq<char> {
    let q = match strip_prefix(p, "./"@) {
        Some(q) => q,
        None => p,
    };
    match strip_suffix(q, "/"@) {
        Some(r) => r,
        None => q,
    }
}

/// The rule on a line, where there is one: a blank line, a comment, and a pattern for the
/// context root itself are none.
pub open spec fn rule_on(line: Seq<char>) -> Option<Rule> {
    let t = trim(line);
    if t.len() == 0 || t[0] == '#' {
        None
    } else {
        let negated = t[0] == '!';
        let p = cleaned(
            if negated {
                trim(t.skip(1))
            } else {
                t
            },
        );
        if p.len() == 0 || p == "."@ {
            None
        } else {
            Some((negated, p))
        }
    }
}

/// A pattern that holds from the context root on.
pub open spec fn anchored(p: Seq<char>) -> Seq<char> {
    if p[0] == '/' || "**"@.is_prefix_of(p) {
        p
    } else {
        seq!['/'] + p
    }
}

/// A rule as the matcher takes it.
pub open spec fn rule_text(r: Rule) -> Seq<char> {
    if r.0 {
        seq!['!'] + anchored(r.1)
    } else {
        anchored(r.1)
    }
}

/// The rules on some lines.
pub open spec fn rules_on(ls: Seq<Seq<char>>) -> Seq<Rule>
    decreases ls.len(),
{
    if ls.len() == 0 {
        seq![]
    } else {
        match rule_on(ls.last()) {
            Some(r) => rules_on(ls.drop_last()).push(r),
            None => rules_on(ls.drop_last()),
        }
    }
}

/// Some rules as the matcher takes them.
pub open spec fn rule_texts(rules: Seq<Rule>) -> Seq<Seq<char>> {
    rules.map_values(|r: Rule| rule_text(r))
}

/// The literal leading paths of the rules that re-include something and have one.
pub open spec fn prefixes_of(rules: Seq<Rule>) -> Seq<Seq<char>>
    decreases rules.len(),
{
    if rules.len() == 0 {
        seq![]
    } else {
        let before = prefixes_of(rules.drop_last());
        let (negated, p) = rules.last();
        match literal_path(p) {
            Some(q) => if negated {
                before.push(q)
            } else {
                before
            },
            None => before,
        }
    }
}

/// Whether a rule re-includes something and has no literal leading path.
pub open spec fn is_unbounded(r: Rule) -> bool {
    r.0 && literal_path(r.1) is None
}

/// Whether one of the rules re-includes something at any depth.
pub open spec fn unbounded_in(rules: Seq<Rule>) -> bool {
    exists|i: int| 0 <= i < rules.len() && is_unbounded(#[trigger] rules[i])
}

/// A rule whose literal leading path is what the matcher goes by: the path has no backslash
/// in it, which would be an escape, and a pattern without a wildcard does not end in white
/// space, which would be dropped.
pub open spec fn tidy(r: Rule) -> bool {
    let segs = literal_segments(split_on(r.1, '/'));
    &&& r.1.len() > 0
    &&& r.0 ==> forall|i: int| 0 <= i < segs.len() ==> !(#[trigger] segs[i]).contains('\\')
    &&& r.0 && is_space(r.1.last()) ==> has_glob(r.1)
}

/// Whether the text that the matcher finds at the start of a rule keeps it away from a
/// directory: the text is neither the directory, nor above it, nor in it.
pub open spec fn out_of_reach(rule: Seq<char>, dir: Seq<char>) -> bool {
    let pattern = compiled_pattern(rule);
    &&& compiled_rule(rule).len() > 1 && compiled_rule(rule)[1] == '/'
    &&& exists|k: int| #[trigger] is_head(pattern, k) && !related(head_text(pattern, k), dir)
}

/// Whether the literal leading path of a rule tells all that is to be known of it for a
/// directory: it is no negation, or it is tidy, or the matcher keeps it away from the
/// directory.
pub open spec fn noted(r: Rule, dir: Seq<char>) -> bool {
    r.1.len() > 0 && (!r.0 || tidy(r) || out_of_reach(rule_text(r), dir))
}

/// Rules of which the literal leading paths tell all that is to be known for a directory.
pub open spec fn all_noted(rules: Seq<Rule>, dir: Seq<char>) -> bool {
    forall|i: int| 0 <= i < rules.len() ==> noted(#[trigger] rules[i], dir)
}

/// Whether the matcher takes all of the rules.
pub open spec fn all_accepted(rules: Seq<Rule>) -> bool {
    forall|i: int| 0 <= i < rules.len() ==> rule_accepted(rule_text(#[trigger] rules[i]))
}

/// The first of some rules that the matcher does not take.
pub open spec fn first_rejected(rules: Seq<Rule>, i: int) -> bool {
    &&& 0 <= i < rules.len()
    &&& !rule_accepted(rule_text(rules[i]))
    &&& forall|k: int| 0 <= k < i ==> rule_accepted(rule_text(#[trigger] rules[k]))
}

fn clean(p: &[char]) -> (r: &[char])
    ensures
        r@ == cleaned(p@),
{
    let q = match without_prefix(p, "./") {
        Some(q) => q,
        None => p,
    };
    match without_suffix(q, "/") {
        Some(r) => r,
        None => q,
    }
}

fn read_rule(line: &[char]) -> (r: Option<(bool, Vec<char>)>)
    ensures
        match r {
            Some((negated, p)) => rule_on(line@) == Some((negated, p@)) && p@.len() > 0,
            None => rule_on(line@) is None,
        },
{
    let t = trimmed(line);
    if t.len() == 0 || t[0] == '#' {
        return None;
    }
    let negated = t[0] == '!';
    let p = if negated {
        clean(trimmed(tail(t, 1)))
    } else {
        clean(t)
    };
    if p.len() == 0 || is_text(p, ".") {
        return None;
    }
    let mut v: Vec<char> = Vec::new();
    push_all(&mut v, p);
    proof {
        assert(v@ =~= p@);
    }
    Some((negated, v))
}

/// A rule as the matcher takes it starts with a slash, a star or an exclamation mark.
proof fn lemma_rule_start(r: Rule)
    requires
        r.1.len() > 0,
    ensures
        rule_text(r).len() > 0,
        rule_text(r)[0] == '/' || rule_text(r)[0] == '*' || rule_text(r)[0] == '!',
{
    reveal_strlit("**");
    if "**"@.is_prefix_of(r.1) {
        assert(r.1.subrange(0, 2)[0] == r.1[0]);
    }
}

fn write_rule(negated: bool, p: &[char]) -> (r: String)
    requires
        p@.len() > 0,
    ensures
        r@ == rule_text((negated, p@)),
{
    let mut v: Vec<char> = Vec::new();
    if negated {
        v.push('!');
    }
    if p[0] != '/' && !starts(p, "**") {
        v.push('/');
    }
    push_all(&mut v, p);
    proof {
        assert(v@ =~= rule_text((negated, p@)));
    }
    to_text(&v)
}

/// What compiling the text of a .dockerignore file for a context root comes to.
pub open spec fn compiles_to(
    root: Seq<char>,
    content: Seq<char>,
    r: Result<DockerIgnore, DockerIgnoreError>,
) -> bool {
    let rules = rules_on(lines(content));
    match r {
        Ok(d) => {
            &&& all_accepted(rules)
            &&& rules_compile(rule_texts(rules))
            &&& d.made_from(rules)
            &&& rules.len() > 0 ==> matcher_root(d.matcher) == root
        },
        Err(DockerIgnoreError::BadRule { rule }) => exists|i: int| #[trigger]
            first_rejected(rules, i) && rule@ == rule_text(rules[i]),
        Err(DockerIgnoreError::Uncompilable) => all_accepted(rules) && !rules_compile(
            rule_texts(rules),
        ),
    }
}

/// Compiles the text of a .dockerignore file into a [`DockerIgnore`], anchored to the build
/// context root.
pub fn compile_dockerignore(context_root: &str, content: &str) -> (r: Result<
    DockerIgnore,
    DockerIgnoreError,
>)
    ensures
        compiles_to(context_root@, content@, r),
{
    let c = to_chars(content);
    let ls = split_lines(&c);
    let ghost all = char_texts(ls@);
    let ghost total = rules_on(all);
    let mut builder = new_rules(context_root);
    let mut prefixes: Vec<String> = Vec::new();
    let mut unbounded: bool = false;
    let mut i: usize = 0;
    proof {
        assert(all.take(0) =~= seq![]);
        assert(rule_texts(rules_on(all.take(0))) =~= seq![]);
        assert(texts(prefixes@) =~= seq![]);
    }
    while i < ls.len()
        invariant
            i <= ls@.len(),
            all == char_texts(ls@),
            all == lines(content@),
            total == rules_on(all),
            builder_root(builder) == context_root@,
            builder_rules(builder) == rule_texts(rules_on(all.take(i as int))),
            all_accepted(rules_on(all.take(i as int))),
            texts(prefixes@) == prefixes_of(rules_on(all.take(i as int))),
            unbounded == unbounded_in(rules_on(all.take(i as int))),
        decreases ls.len() - i,
    {
        let ghost before = rules_on(all.take(i as int));
        let ghost after = rules_on(all.take(i + 1));
        proof {
            assert(all.take(i + 1).drop_last() =~= all.take(i as int));
            assert(all.take(i + 1).last() == ls@[i as int]@);
        }
        if let Some((negated, p)) = read_rule(&ls[i]) {
            let ghost rule: Rule = (negated, p@);
            proof {
                assert(after == before.push(rule));
                assert(after.drop_last() =~= before);
            }
            if negated {
                let ghost old_prefixes = texts(prefixes@);
                match literal_prefix(to_text(&p).as_str()) {
                    Some(prefix) => {
                        let ghost q = prefix@;
                        prefixes.push(prefix);
                        proof {
                            assert(texts(prefixes@) =~= old_prefixes.push(q));
                        }
                    },
                    None => {
                        unbounded = true;
                        proof {
                            assert(is_unbounded(after[before.len() as int]));
                        }
                    },
                }
            }
            proof {
                lemma_unbounded_push(before, rule);
                lemma_rule_start(rule);
            }
            let text = write_rule(negated, &p);
            match add_rule(&mut builder, text.as_str()) {
                Ok(_) => {
                    proof {
                        assert(rule_texts(after) =~= rule_texts(before).push(text@));
                        assert forall|k: int| 0 <= k < after.len() implies rule_accepted(
                            rule_text(#[trigger] after[k]),
                        ) by {
                            if k < before.len() {
                                assert(after[k] == before[k]);
                            }
                        }
                    }
                },
                Err(_) => {
                    proof {
                        let k = before.len() as int;
                        lemma_rules_on_grow(all, i as int);
                        lemma_rules_on_grow(all, i + 1);
                        assert(after[k] == rule);
                        assert(total[k] == rule);
                        assert forall|j: int| 0 <= j < k implies rule_accepted(
                            rule_text(#[trigger] total[j]),
                        ) by {
                            assert(total[j] == before[j]);
                        }
                        assert(first_rejected(total, k));
                    }
                    return Err(DockerIgnoreError::BadRule { rule: text });
                },
            }
        }
        i += 1;
    }
    proof {
        assert(all.take(i as int) =~= all);
    }
    match compile_rules(&builder) {
        Ok(matcher) => Ok(
            DockerIgnore { matcher, negation_prefixes: prefixes, unbounded_negation: unbounded },
        ),
        Err(_) => Err(DockerIgnoreError::Uncompilable),
    }
}

proof fn lemma_unbounded_push(rules: Seq<Rule>, rule: Rule)
    ensures
        unbounded_in(rules.push(rule)) == (unbounded_in(rules) || is_unbounded(rule)),
{
    let more = rules.push(rule);
    if unbounded_in(rules) {
        let i = choose|i: int| 0 <= i < rules.len() && is_unbounded(#[trigger] rules[i]);
        assert(more[i] == rules[i]);
    }
    if is_unbounded(rule) {
        assert(more[rules.len() as int] == rule);
    }
    if unbounded_in(more) {
        let i = choose|i: int| 0 <= i < more.len() && is_unbounded(#[trigger] more[i]);
        if i < rules.len() {
            assert(more[i] == rules[i]);
        }
    }
}

/// More lines only put rules behind those that are there.
proof fn lemma_rules_on_grow(ls: Seq<Seq<char>>, i: int)
    requires
        0 <= i <= ls.len(),
    ensures
        rules_on(ls.take(i)).is_prefix_of(rules_on(ls)),
    decreases ls.len() - i,
{
    if i == ls.len() {
        assert(ls.take(i) =~= ls);
        assert(rules_on(ls).subrange(0, rules_on(ls).len() as int) =~= rules_on(ls));
    } else {
        lemma_rules_on_grow(ls, i + 1);
        assert(ls.take(i + 1).drop_last() =~= ls.take(i));
        let a = rules_on(ls.take(i));
        let b = rules_on(ls.take(i + 1));
        let t = rules_on(ls);
        assert(b == t.subrange(0, b.len() as int));
        assert(a =~= b.subrange(0, a.len() as int));
        assert(t.subrange(0, a.len() as int) =~= b.subrange(0, a.len() as int));
    }
}

/// Whether some names of a path lead upwards.
pub open spec fn climbs(names: Seq<Seq<char>>) -> bool {
    exists|i: int| 0 <= i < names.len() && #[trigger] names[i] == seq!['.', '.']
}

/// The names that lead from a root to a directory in it; `None` for a directory that is not
/// in it.
pub open spec fn names_below(root: Seq<char>, dir: Seq<char>) -> Option<Seq<Seq<char>>> {
    let rest = names(dir).skip(names(root).len() as int);
    if is_absolute(root) == is_absolute(dir) && names(root).is_prefix_of(names(dir)) && !climbs(
        rest,
    ) {
        Some(rest)
    } else {
        None
    }
}

/// The directory to which some names lead from a root.
pub open spec fn place(root: Seq<char>, names: Seq<Seq<char>>) -> Seq<char> {
    if names.len() == 0 {
        root
    } else {
        join_path(root, joined(names, seq!['/']))
    }
}

/// The directories above the one to which some names lead from a root, up to the root.
pub open spec fn dirs_above(root: Seq<char>, names: Seq<Seq<char>>) -> Seq<Seq<char>>
    decreases names.len(),
{
    if names.len() == 0 {
        seq![]
    } else {
        seq![place(root, names.drop_last())] + dirs_above(root, names.drop_last())
    }
}

/// The directories other than that of the Dockerfile in which a .dockerignore is looked for:
/// every directory above it, up to the context root. Where the Dockerfile does not lie in the
/// context root, it is the context root alone.
pub open spec fn search_dirs(root: Seq<char>, docker_file: Seq<char>) -> Seq<Seq<char>> {
    match parent_path(docker_file) {
        Some(dir) => match names_below(root, dir) {
            Some(names) => dirs_above(root, names),
            None => seq![root],
        },
        None => seq![root],
    }
}

/// Where the .dockerignore of a directory stands.
pub open spec fn ignore_file(dir: Seq<char>) -> Seq<char> {
    join_path(dir, ".dockerignore"@)
}

/// The places at which a .dockerignore is looked for: beside the Dockerfile, and then in
/// every directory above that, up to the context root.
pub open spec fn candidates(root: Seq<char>, docker_file: Seq<char>) -> Seq<Seq<char>> {
    seq![with_name(docker_file, ".dockerignore"@)] + search_dirs(root, docker_file).map_values(
        |d: Seq<char>| ignore_file(d),
    )
}

/// The text of the first of some places that is a file.
pub open spec fn first_file(
    places: Seq<Seq<char>>,
    files: Map<Seq<char>, Seq<char>>,
) -> Option<Seq<char>>
    decreases places.len(),
{
    if places.len() == 0 {
        None
    } else if files.dom().contains(places[0]) {
        Some(files[places[0]])
    } else {
        first_file(places.drop_first(), files)
    }
}

fn find_names_below(root: &[char], dir: &[char]) -> (r: Option<Vec<Vec<char>>>)
    ensures
        match r {
            Some(v) => names_below(root@, dir@) == Some(char_texts(v@)),
            None => names_below(root@, dir@) is None,
        },
{
    if (root.len() > 0 && root[0] == '/') != (dir.len() > 0 && dir[0] == '/') {
        return None;
    }
    let a = path_names(root);
    let b = path_names(dir);
    let ghost x = char_texts(a@);
    let ghost y = char_texts(b@);
    let n: usize = a.len();
    if n > b.len() {
        return None;
    }
    let mut i: usize = 0;
    while i < n
        invariant
            i <= n == a@.len() <= b@.len(),
            x == char_texts(a@),
            y == char_texts(b@),
            x == names(root@),
            y == names(dir@),
            forall|k: int| 0 <= k < i ==> x[k] == y[k],
        decreases n - i,
    {
        proof {
            assert(x[i as int] == a@[i as int]@ && y[i as int] == b@[i as int]@);
        }
        if !same(&a[i], &b[i]) {
            proof {
                if x.is_prefix_of(y) {
                    assert(y.subrange(0, x.len() as int)[i as int] == y[i as int]);
                }
            }
            return None;
        }
        i += 1;
    }
    proof {
        assert(y.subrange(0, x.len() as int) =~= x);
        reveal_strlit("..");
        assert(".."@ =~= seq!['.', '.']);
    }
    let ghost below = y.skip(n as int);
    let mut r: Vec<Vec<char>> = Vec::new();
    proof {
        assert(char_texts(r@) =~= below.take(0));
    }
    while i < b.len()
        invariant
            n <= i <= b@.len(),
            y == char_texts(b@),
            y == names(dir@),
            x == names(root@),
            n == x.len(),
            below == y.skip(n as int),
            ".."@ == seq!['.', '.'],
            char_texts(r@) == below.take(i - n),
            forall|k: int| 0 <= k < i - n ==> #[trigger] below[k] != seq!['.', '.'],
        decreases b.len() - i,
    {
        proof {
            assert(below[i - n] == b@[i as int]@);
        }
        if is_text(&b[i], "..") {
            proof {
                assert(climbs(below));
            }
            return None;
        }
        let ghost before = char_texts(r@);
        let mut c: Vec<char> = Vec::new();
        push_all(&mut c, &b[i]);
        proof {
            assert(c@ =~= b@[i as int]@);
        }
        r.push(c);
        proof {
            assert(char_texts(r@) =~= before.push(c@));
            assert(below.take(i + 1 - n) =~= below.take(i - n).push(c@));
        }
        i += 1;
    }
    proof {
        assert(below.take(i - n) =~= below);
    }
    Some(r)
}

fn find_place(root: &str, names: &Vec<Vec<char>>, n: usize) -> (r: String)
    requires
        n <= names@.len(),
    ensures
        r@ == place(root@, char_texts(names@).take(n as int)),
{
    let ghost all = char_texts(names@);
    if n == 0 {
        return to_text(&to_chars(root));
    }
    let mut out: Vec<char> = Vec::new();
    let mut i: usize = 0;
    while i < n
        invariant
            i <= n <= names@.len(),
            all == char_texts(names@),
            out@ == joined(all.take(i as int), seq!['/']),
        decreases n - i,
    {
        if i > 0 {
            out.push('/');
        }
        push_all(&mut out, &names[i]);
        proof {
            let more = all.take(i + 1);
            assert(more.drop_last() =~= all.take(i as int));
            assert(more.last() == names@[i as int]@);
            assert(out@ =~= joined(more, seq!['/']));
        }
        i += 1;
    }
    join(root, to_text(&out).as_str())
}

/// The places at which a .dockerignore is looked for, in the order in which they are tried:
/// from the directory of the Dockerfile up to the context root.
pub fn dockerignore_candidates(context_root: &str, docker_file: &str) -> (r: Vec<String>)
    ensures
        texts(r@) == candidates(context_root@, docker_file@),
{
    let root = to_chars(context_root);
    let ghost first = with_name(docker_file@, ".dockerignore"@);
    let ghost ignore_file_of = |d: Seq<char>| ignore_file(d);
    let mut r: Vec<String> = Vec::new();
    r.push(with_file_name(docker_file, ".dockerignore"));
    proof {
        assert(texts(r@) =~= seq![first]);
    }
    let below = match parent(docker_file) {
        Some(dir) => find_names_below(&root, &to_chars(dir.as_str())),
        None => None,
    };
    match below {
        Some(names) => {
            let ghost all = char_texts(names@);
            let ghost mut seen: Seq<Seq<char>> = seq![];
            let mut n: usize = names.len();
            proof {
                assert(all.take(n as int) =~= all);
                assert(seen + dirs_above(context_root@, all) =~= dirs_above(context_root@, all));
                assert(texts(r@) =~= seq![first] + seen.map_values(ignore_file_of));
            }
            while n > 0
                invariant
                    n <= names@.len(),
                    all == char_texts(names@),
                    ignore_file_of == (|d: Seq<char>| ignore_file(d)),
                    seen + dirs_above(context_root@, all.take(n as int)) == dirs_above(
                        context_root@,
                        all,
                    ),
                    texts(r@) == seq![first] + seen.map_values(ignore_file_of),
                decreases n,
            {
                n -= 1;
                let ghost before = texts(r@);
                let dir = find_place(context_root, &names, n);
                let ghost d = dir@;
                r.push(join(dir.as_str(), ".dockerignore"));
                proof {
                    let rest = dirs_above(context_root@, all.take(n as int));
                    assert(all.take(n + 1).drop_last() =~= all.take(n as int));
                    assert(seen + (seq![d] + rest) =~= seen.push(d) + rest);
                    assert(texts(r@) =~= before.push(ignore_file(d)));
                    assert(seen.push(d).map_values(ignore_file_of) =~= seen.map_values(
                        ignore_file_of,
                    ).push(ignore_file(d)));
                    seen = seen.push(d);
                }
            }
            proof {
                assert(seen =~= dirs_above(context_root@, all));
            }
        },
        None => {
            r.push(join(context_root, ".dockerignore"));
            proof {
                assert(seq![context_root@].map_values(ignore_file_of) =~= seq![
                    ignore_file(context_root@),
                ]);
                assert(texts(r@) =~= seq![first] + seq![ignore_file(context_root@)]);
            }
        },
    }
    r
}

/// Loads the rules for a context root by searching from the directory of the Dockerfile up to
/// the context root. `files` holds the texts of the files that were found at the places at
/// which a .dockerignore is looked for, by their paths. Where none was found, there are no
/// rules.
pub fn load_gitignore(context_root: &str, docker_file: &str, files: &TextMap) -> (r: Result<
    DockerIgnore,
    DockerIgnoreError,
>)
    ensures
        match first_file(candidates(context_root@, docker_file@), files@) {
            Some(text) => compiles_to(context_root@, text, r),
            None => r is Ok && matcher_rules(r->Ok_0.matcher).len() == 0
                && r->Ok_0.negation_prefixes@.len() == 0 && !r->Ok_0.unbounded_negation,
        },
{
    let places = dockerignore_candidates(context_root, docker_file);
    let ghost all = texts(places@);
    let mut i: usize = 0;
    proof {
        assert(all.skip(0) =~= all);
    }
    while i < places.len()
        invariant
            i <= places@.len(),
            all == texts(places@),
            all == candidates(context_root@, docker_file@),
            first_file(all, files@) == first_file(all.skip(i as int), files@),
        decreases places.len() - i,
    {
        proof {
            assert(all.skip(i as int)[0] == places@[i as int]@);
            assert(all.skip(i as int).drop_first() =~= all.skip(i + 1));
        }
        if let Some(text) = files.get(places[i].as_str()) {
            return compile_dockerignore(context_root, text.as_str());
        }
        i += 1;
    }
    Ok(DockerIgnore::empty())
}

// ---------------------------------------------------------------------------------------
// Laws
// ---------------------------------------------------------------------------------------
pub(crate) proof fn lemma_dirs_above(root: Seq<char>, names: Seq<Seq<char>>, i: int)
    requires
        0 <= i < dirs_above(root, names).len(),
    ensures
        dirs_above(root, names).len() == names.len(),
        dirs_above(root, names)[i] == place(root, names.take(names.len() - 1 - i)),
    decreases names.len(),
{
    let front = names.drop_last();
    assert(front =~= names.take(names.len() - 1));
    if i > 0 {
        lemma_dirs_above(root, front, i - 1);
        assert(front.take(front.len() - 1 - (i - 1)) =~= names.take(names.len() - 1 - i));
    } else if front.len() > 0 {
        lemma_dirs_above(root, front, 0);
    }
}

/// The search for a .dockerignore ends at the context root: every place behind the first one,
/// which is beside the Dockerfile, lies in the context root, and the way there does not lead
/// upwards.
pub proof fn law_search_ends_at_the_root(root: Seq<char>, docker_file: Seq<char>, i: int)
    requires
        0 < i < candidates(root, docker_file).len(),
    ensures
        path_within(candidates(root, docker_file)[i], root),
        !climbs(
            components(candidates(root, docker_file)[i]).skip(components(root).len() as int),
        ),
{
    let found = candidates(root, docker_file)[i];
    let dirs = search_dirs(root, docker_file);
    let d = dirs[i - 1];
    let name = ".dockerignore"@;
    reveal_strlit(".dockerignore");
    assert(found == ignore_file(d));
    let none: Seq<Seq<char>> = seq![];
    let below: Seq<Seq<char>> = match parent_path(docker_file) {
        Some(dir) => match names_below(root, dir) {
            Some(rest) => rest.take(rest.len() - i),
            None => none,
        },
        None => none,
    };
    if let Some(dir) = parent_path(docker_file) {
        lemma_names(dir);
        if let Some(rest) = names_below(root, dir) {
            lemma_dirs_above(root, rest, i - 1);
            assert forall|k: int| 0 <= k < below.len() implies (#[trigger] below[k]).len() > 0
                && below[k] != seq!['.'] && below[k] != seq!['.', '.'] && !below[k].contains(
                '/',
            ) by {
                assert(below[k] == rest[k]);
                assert(rest[k] == names(dir)[k + names(root).len()]);
            }
        }
    }
    assert(d == place(root, below));
    if below.len() > 0 {
        lemma_components_joined(root, below);
    }
    assert(components(d) =~= components(root) + below);
    let tail = seq![name];
    assert(tail[0] == name && name[0] == '.' && name[1] == 'd' && name.len() > 2);
    assert(!name.contains('/'));
    lemma_components_joined(d, tail);
    assert(joined(tail, seq!['/']) == name);
    assert(components(found) =~= components(root) + (below + tail));
    assert(components(found).subrange(0, components(root).len() as int) =~= components(root));
    assert(components(found).skip(components(root).len() as int) =~= below + tail);
    assert(name != seq!['.', '.']);
}

/// A directory is only skipped where no negation reaches into its subtree: no path at or
/// below it is at or below the literal path of a negation rule.
pub proof fn law_skipped_directory_has_no_exception(
    prefixes: Seq<Seq<char>>,
    unbounded: bool,
    dir: Seq<char>,
    path: Seq<char>,
    i: int,
)
    requires
        skippable(prefixes, unbounded, dir),
        path_within(path, dir),
        0 <= i < prefixes.len(),
    ensures
        !unbounded,
        !path_within(path, prefixes[i]),
{
    let a = components(dir);
    let b = components(prefixes[i]);
    let c = components(path);
    assert(!related(prefixes[i], dir));
    if b.is_prefix_of(c) {
        if a.len() <= b.len() {
            assert(b.subrange(0, a.len() as int) =~= c.subrange(0, a.len() as int));
        } else {
            assert(a.subrange(0, b.len() as int) =~= c.subrange(0, b.len() as int));
        }
    }
}

/// How many segments of a pattern there are up to the last one of its literal leading path.
proof fn lemma_literal_segments(segs: Seq<Seq<char>>) -> (n: int)
    requires
        literal_segments(segs).len() > 0,
    ensures
        0 < n <= segs.len(),
        segs[n - 1].len() > 0,
        forall|i: int| 0 <= i < n ==> !has_glob(#[trigger] segs[i]),
        forall|i: int|
            0 <= i < n && (#[trigger] segs[i]).len() > 0 ==> literal_segments(segs).contains(
                segs[i],
            ),
        all_named(segs.take(n)) ==> literal_segments(segs) == segs.take(n),
    decreases segs.len(),
{
    let rest = segs.drop_first();
    let all = literal_segments(segs);
    let later = literal_segments(rest);
    if segs[0].len() > 0 {
        assert(all == seq![segs[0]] + later);
        assert(all[0] == segs[0]);
    }
    if later.len() == 0 {
        assert(all =~= segs.take(1));
        1
    } else {
        let m = lemma_literal_segments(rest);
        let n = m + 1;
        assert forall|i: int| 0 <= i < n implies !has_glob(#[trigger] segs[i]) by {
            if i > 0 {
                assert(segs[i] == rest[i - 1]);
            }
        }
        assert forall|i: int| 0 <= i < n && (#[trigger] segs[i]).len() > 0 implies all.contains(
            segs[i],
        ) by {
            if i > 0 {
                assert(segs[i] == rest[i - 1]);
                let k = choose|k: int| 0 <= k < later.len() && later[k] == segs[i];
                let shift: int = if segs[0].len() > 0 {
                    1
                } else {
                    0
                };
                assert(all[k + shift] == segs[i]);
            }
        }
        assert(segs[n - 1] == rest[m - 1]);
        if all_named(segs.take(n)) {
            assert forall|i: int| 0 <= i < m implies (#[trigger] rest.take(m)[i]).len() > 0
                && rest.take(m)[i] != seq!['.'] by {
                assert(rest.take(m)[i] == segs.take(n)[i + 1]);
            }
            assert(segs.take(n)[0].len() > 0);
            assert(all =~= segs.take(n));
        }
        n
    }
}

/// A character of a pattern that stands for itself.
pub open spec fn is_literal_char(c: char) -> bool {
    !is_glob_char(c) && c != '\\'
}

proof fn lemma_read_literal(s: Seq<char>)
    requires
        forall|i: int| 0 <= i < s.len() ==> is_literal_char(#[trigger] s[i]),
    ensures
        read_text(s) == Some(s),
    decreases s.len(),
{
    if s.len() > 0 {
        let rest = s.skip(1);
        assert forall|i: int| 0 <= i < rest.len() implies is_literal_char(#[trigger] rest[i]) by {
            assert(rest[i] == s[i + 1]);
        }
        lemma_read_literal(rest);
        assert(is_literal_char(s[0]));
        assert(seq![s[0]] + rest =~= s);
    }
}

/// The literal start of a rule behind its `!/` is what the matcher finds there.
proof fn lemma_compiled_head(rule: Seq<char>, k: int)
    requires
        rule.len() > 1,
        rule[0] == '!' && rule[1] == '/',
        0 < k <= rule.len() - 2,
        forall|i: int| 0 <= i < k ==> is_literal_char(#[trigger] rule.skip(2)[i]),
        if k < rule.len() - 2 {
            rule[k + 2] == '/'
        } else {
            rule.last() != '/' && !is_space(rule.last())
        },
    ensures
        compiled_rule(rule).len() > 1,
        compiled_rule(rule)[1] == '/',
        is_head(compiled_pattern(rule), k),
        head_text(compiled_pattern(rule), k) == rule.skip(2).take(k),
{
    let body = rule.skip(2);
    let c = compiled_rule(rule);
    let last: int = if k < body.len() {
        k + 2
    } else {
        k + 1
    };
    assert(rule[last] == '/' || last == rule.len() - 1);
    lemma_trim_end_keeps(rule, last);
    assert(rule.subrange(0, rule.len() as int) =~= rule);
    assert(c =~= rule.subrange(0, c.len() as int));
    assert(last < c.len());
    let p = c.skip(2);
    let pattern = compiled_pattern(rule);
    assert forall|i: int| 0 <= i < p.len() implies p[i] == body[i] by {
        assert(p[i] == c[i + 2]);
        assert(c[i + 2] == rule[i + 2]);
    }
    assert(is_literal_char(body[k - 1]));
    if k < body.len() {
        assert(p.len() > k && p[k] == '/');
    } else {
        assert(p.len() == k);
        assert(p.last() == rule.last());
    }
    assert(k <= pattern.len());
    assert(k < pattern.len() ==> pattern[k] == '/');
    assert(pattern.take(k) =~= body.take(k));
    assert forall|i: int| 0 <= i < k implies is_literal_char(#[trigger] body.take(k)[i]) by {
        assert(is_literal_char(body[i]));
    }
    lemma_read_literal(body.take(k));
}

proof fn lemma_joined_chars(parts: Seq<Seq<char>>)
    requires
        forall|i: int, j: int|
            0 <= i < parts.len() && 0 <= j < parts[i].len() ==> is_literal_char(
                #[trigger] parts[i][j],
            ),
    ensures
        forall|j: int|
            0 <= j < joined(parts, seq!['/']).len() ==> is_literal_char(
                #[trigger] joined(parts, seq!['/'])[j],
            ),
    decreases parts.len(),
{
    if parts.len() > 1 {
        let front = parts.drop_last();
        assert forall|i: int, j: int|
            0 <= i < front.len() && 0 <= j < front[i].len() implies is_literal_char(
            #[trigger] front[i][j],
        ) by {
            assert(front[i][j] == parts[i][j]);
        }
        lemma_joined_chars(front);
        let t = joined(parts, seq!['/']);
        let u = joined(front, seq!['/']);
        assert forall|j: int| 0 <= j < t.len() implies is_literal_char(#[trigger] t[j]) by {
            if j < u.len() {
                assert(t[j] == u[j]);
            } else if j > u.len() {
                assert(t[j] == parts[parts.len() - 1][j - u.len() - 1]);
            }
        }
    }
}

proof fn lemma_first_segment(p: Seq<char>)
    requires
        p.len() > 0,
        p[0] != '/',
    ensures
        split_on(p, '/').len() > 0,
        split_on(p, '/')[0].len() > 0,
        split_on(p, '/')[0][0] == p[0],
{
    let segs = split_on(p, '/');
    assert(segs.len() > 0);
    lemma_split_front(p, '/', 1);
    let t = joined(segs.take(1), seq!['/']);
    assert(t == segs[0]);
    assert(t =~= p.subrange(0, t.len() as int));
}

/// The pattern of a negation behind its leading slash, and that its literal leading path is
/// that of the pattern.
proof fn lemma_anchored(rule: Rule) -> (body: Seq<char>)
    requires
        rule.0,
        tidy(rule),
        literal_path(rule.1) is Some,
    ensures
        rule_text(rule).len() > 1,
        rule_text(rule)[0] == '!' && rule_text(rule)[1] == '/',
        rule_text(rule).skip(2) == body,
        body == rule.1 || rule.1 == seq!['/'] + body,
        literal_segments(split_on(body, '/')) == literal_segments(split_on(rule.1, '/')),
{
    let p = rule.1;
    let text = rule_text(rule);
    if p[0] == '/' {
        let body = p.skip(1);
        let none: Seq<char> = seq![];
        assert(p =~= none + seq!['/'] + body);
        lemma_split_apart(none, '/', body);
        lemma_split_whole(none, '/');
        assert(split_on(p, '/').drop_first() =~= split_on(body, '/'));
        assert(p =~= seq!['/'] + body);
        assert(text.skip(2) =~= body);
        body
    } else {
        lemma_first_segment(p);
        reveal_strlit("**");
        if "**"@.is_prefix_of(p) {
            assert(p.subrange(0, 2)[0] == p[0]);
            assert(is_glob_char(split_on(p, '/')[0][0]));
            assert(has_glob(split_on(p, '/')[0]));
        }
        assert(text.skip(2) =~= p);
        p
    }
}

/// A negation re-includes only what is at or below its literal leading path.
#[verifier::rlimit(40)]
proof fn lemma_reach(rule: Rule, path: Seq<char>)
    requires
        rule.0,
        tidy(rule),
        literal_path(rule.1) is Some,
        plain_path(path),
        can_reinclude(rule_text(rule), path),
    ensures
        path_within(path, literal_path(rule.1)->0),
{
    let body = lemma_anchored(rule);
    let segs = split_on(body, '/');
    let n = lemma_literal_segments(segs);
    let head = segs.take(n);
    let t = joined(head, seq!['/']);
    let k = t.len() as int;
    lemma_split_front(body, '/', n);
    lemma_split_pieces(body, '/');
    assert(t =~= body.subrange(0, k));
    assert(body.take(k) =~= t);
    assert(head.last() == segs[n - 1]);
    assert(t.last() == segs[n - 1].last());
    assert forall|i: int, j: int| 0 <= i < head.len() && 0 <= j < head[i].len() implies is_literal_char(
        #[trigger] head[i][j],
    ) by {
        assert(head[i] == segs[i]);
        assert(!has_glob(segs[i]));
        assert(!is_glob_char(segs[i][j]));
        assert(literal_segments(segs).contains(segs[i]));
        assert(!segs[i].contains('\\'));
        assert(segs[i].contains(segs[i][j]));
    }
    lemma_joined_chars(head);
    assert forall|i: int| 0 <= i < k implies is_literal_char(#[trigger] body[i]) by {
        assert(body[i] == t[i]);
    }
    if k == body.len() {
        let last = segs[n - 1].last();
        assert(segs[n - 1].contains(last));
        assert(body[k - 1] == t.last());
        assert(rule.1.last() == body.last());
        if is_space(last) {
            let i = choose|i: int| 0 <= i < rule.1.len() && is_glob_char(#[trigger] rule.1[i]);
            if body == rule.1 {
                assert(is_literal_char(body[i]));
            } else {
                assert(i > 0);
                assert(rule.1[i] == body[i - 1]);
                assert(is_literal_char(body[i - 1]));
            }
        }
    }
    let text = rule_text(rule);
    assert(text.len() == body.len() + 2);
    assert(k < body.len() ==> text[k + 2] == body[k]);
    assert(text.last() == body.last());
    lemma_compiled_head(text, k);
    assert(is_head(compiled_pattern(text), k));
    assert(starts_with_head(path, t));
    assert(t.last() == segs[n - 1].last());
    assert(segs[n - 1].contains(t.last()));
    let pieces = split_on(path, '/');
    if path.len() == k {
        assert(path =~= t);
        assert(pieces =~= head);
    } else {
        let rest = path.skip(k + 1);
        assert(path =~= t + seq!['/'] + rest);
        lemma_split_apart(t, '/', rest);
        assert(pieces == head + split_on(rest, '/'));
    }
    assert(pieces.subrange(0, n) =~= head);
    assert forall|i: int| 0 <= i < head.len() implies (#[trigger] head[i]).len() > 0 && head[i]
        != seq!['.'] by {
        assert(head[i] == pieces[i]);
    }
    assert(literal_path(rule.1) == Some(t));
    lemma_plain_path(t);
    lemma_plain_path(path);
}

proof fn lemma_prefix_of(rules: Seq<Rule>, i: int) -> (k: int)
    requires
        0 <= i < rules.len(),
        rules[i].0,
        literal_path(rules[i].1) is Some,
    ensures
        0 <= k < prefixes_of(rules).len(),
        prefixes_of(rules)[k] == literal_path(rules[i].1)->0,
    decreases rules.len(),
{
    if i == rules.len() - 1 {
        prefixes_of(rules.drop_last()).len() as int
    } else {
        assert(rules.drop_last()[i] == rules[i]);
        lemma_prefix_of(rules.drop_last(), i)
    }
}

/// A rule that the matcher keeps away from a directory re-includes nothing in it.
pub proof fn law_rule_out_of_reach_re_includes_nothing(
    rule: Seq<char>,
    dir: Seq<char>,
    path: Seq<char>,
)
    requires
        out_of_reach(rule, dir),
        path_within(path, dir),
        plain_path(path),
    ensures
        !can_reinclude(rule, path),
{
    if can_reinclude(rule, path) {
        let pattern = compiled_pattern(rule);
        let k = choose|k: int| #[trigger]
            is_head(pattern, k) && !related(head_text(pattern, k), dir);
        let t = head_text(pattern, k);
        assert(pattern.take(k).len() == k);
        assert(t.len() > 0);
        assert(starts_with_head(path, t));
        assert(t =~= path.subrange(0, t.len() as int));
        lemma_plain_path(path);
        if t.last() == '/' {
            let x = t.drop_last();
            let rest = path.skip(t.len() as int);
            assert(path =~= x + seq!['/'] + rest);
            assert(t =~= x + seq!['/']);
            lemma_plain_front(path, x, rest);
            lemma_trailing_slash(x);
        } else if path.len() > t.len() {
            let rest = path.skip(t.len() as int + 1);
            assert(path =~= t + seq!['/'] + rest);
            lemma_plain_front(path, t, rest);
        } else {
            assert(path =~= t);
            assert(components(path).subrange(0, components(path).len() as int) =~= components(
                path,
            ));
        }
        assert(path_within(path, t));
        law_skipped_directory_has_no_exception(seq![t], false, dir, path, 0);
    }
}

proof fn lemma_plain_front(path: Seq<char>, front: Seq<char>, rest: Seq<char>)
    requires
        plain_path(path),
        path == front + seq!['/'] + rest,
    ensures
        plain_path(front),
        path_within(path, front),
{
    let a = split_on(front, '/');
    let pieces = split_on(path, '/');
    lemma_split_apart(front, '/', rest);
    assert forall|i: int| 0 <= i < a.len() implies (#[trigger] a[i]).len() > 0 && a[i]
        != seq!['.'] by {
        assert(a[i] == pieces[i]);
    }
    lemma_plain_path(front);
    lemma_plain_path(path);
    assert(pieces.subrange(0, a.len() as int) =~= a);
}

/// No rule re-includes anything in a directory that may be skipped, where the literal leading
/// paths tell all that is to be known of the rules for it.
pub proof fn law_skipped_directory_holds_nothing_reincluded(
    rules: Seq<Rule>,
    dir: Seq<char>,
    path: Seq<char>,
    i: int,
)
    requires
        all_noted(rules, dir),
        skippable(prefixes_of(rules), unbounded_in(rules), dir),
        path_within(path, dir),
        plain_path(path),
        0 <= i < rules.len(),
    ensures
        !can_reinclude(rule_texts(rules)[i], path),
{
    let rule = rules[i];
    assert(noted(rule, dir));
    assert(rule_texts(rules)[i] == rule_text(rule));
    if can_reinclude(rule_text(rule), path) {
        if !rule.0 {
            lemma_rule_start(rule);
            reveal_strlit("**");
            if "**"@.is_prefix_of(rule.1) {
                assert(rule.1.subrange(0, 2)[0] == rule.1[0]);
            }
        } else if !tidy(rule) {
            law_rule_out_of_reach_re_includes_nothing(rule_text(rule), dir, path);
        } else if literal_path(rule.1) is None {
            assert(is_unbounded(rules[i]));
        } else {
            lemma_reach(rule, path);
            let k = lemma_prefix_of(rules, i);
            law_skipped_directory_has_no_exception(
                prefixes_of(rules),
                unbounded_in(rules),
                dir,
                path,
                k,
            );
        }
    }
}

/// A plain path is matched as it stands by rules for an absolute context root.
pub proof fn law_plain_path_is_matched_as_it_stands(root: Seq<char>, path: Seq<char>)
    requires
        is_absolute(root),
        plain_path(path),
    ensures
        kept_whole(root, path),
        below_root(root, path),
{
    lemma_plain_path(path);
    if path.len() == 0 {
        lemma_split_whole(path, '/');
        assert(split_on(path, '/')[0].len() > 0);
    }
    if path.len() >= 2 && path[0] == '.' && path[1] == '/' {
        let dot = seq!['.'];
        let rest = path.skip(2);
        assert(path =~= dot + seq!['/'] + rest);
        lemma_split_apart(dot, '/', rest);
        lemma_split_whole(dot, '/');
        assert(split_on(path, '/')[0] == dot);
    }
    if root.is_prefix_of(path) {
        assert(root[0] == path.subrange(0, root.len() as int)[0]);
    }
}

proof fn lemma_literal_segments_in(segs: Seq<Seq<char>>, i: int)
    requires
        0 <= i < literal_segments(segs).len(),
    ensures
        segs.contains(literal_segments(segs)[i]),
    decreases segs.len(),
{
    let rest = segs.drop_first();
    let all = literal_segments(segs);
    let later = literal_segments(rest);
    let shift: int = if segs[0].len() > 0 {
        1
    } else {
        0
    };
    if i < shift {
        assert(all[i] == segs[0]);
    } else {
        lemma_literal_segments_in(rest, i - shift);
        assert(all[i] == later[i - shift]);
        let k = choose|k: int| 0 <= k < rest.len() && rest[k] == all[i];
        assert(segs[k + 1] == all[i]);
    }
}

proof fn lemma_split_contains(s: Seq<char>, i: int, x: char)
    requires
        0 <= i < split_on(s, '/').len(),
        split_on(s, '/')[i].contains(x),
    ensures
        s.contains(x),
{
    let pieces = split_on(s, '/');
    let head = pieces.take(i + 1);
    let t = joined(head, seq!['/']);
    lemma_split_front(s, '/', i + 1);
    assert(head.last() == pieces[i]);
    let j = choose|j: int| 0 <= j < pieces[i].len() && pieces[i][j] == x;
    let at = t.len() - pieces[i].len() + j;
    assert(t[at] == x);
    assert(t =~= s.subrange(0, t.len() as int));
    assert(s[at] == x);
}

/// Rules without a backslash are tidy where no negation without a wildcard ends in white
/// space.
pub proof fn law_rules_without_escapes_are_tidy(rules: Seq<Rule>)
    requires
        forall|i: int|
            0 <= i < rules.len() ==> (#[trigger] rules[i]).1.len() > 0 && !rules[i].1.contains(
                '\\',
            ) && (is_space(rules[i].1.last()) ==> has_glob(rules[i].1)),
    ensures
        forall|i: int| 0 <= i < rules.len() ==> tidy(#[trigger] rules[i]),
        forall|dir: Seq<char>| #[trigger] all_noted(rules, dir),
{
    assert forall|i: int| 0 <= i < rules.len() implies tidy(#[trigger] rules[i]) by {
        let p = rules[i].1;
        let segs = literal_segments(split_on(p, '/'));
        assert forall|k: int| 0 <= k < segs.len() implies !(#[trigger] segs[k]).contains('\\') by {
            if segs[k].contains('\\') {
                lemma_literal_segments_in(split_on(p, '/'), k);
                let j = choose|j: int|
                    0 <= j < split_on(p, '/').len() && split_on(p, '/')[j] == segs[k];
                lemma_split_contains(p, j, '\\');
            }
        }
    }
}

/// Every rule on some lines has a pattern.
pub proof fn law_rules_have_patterns(ls: Seq<Seq<char>>)
    ensures
        forall|i: int| 0 <= i < rules_on(ls).len() ==> (#[trigger] rules_on(ls)[i]).1.len() > 0,
    decreases ls.len(),
{
    if ls.len() > 0 {
        let before = rules_on(ls.drop_last());
        law_rules_have_patterns(ls.drop_last());
        assert forall|i: int| 0 <= i < rules_on(ls).len() implies (#[trigger] rules_on(
            ls,
        )[i]).1.len() > 0 by {
            if i < before.len() {
                assert(rules_on(ls)[i] == before[i]);
            }
        }
    }
}

proof fn lemma_trim_end_behind(a: Seq<char>, b: Seq<char>)
    requires
        trim_end(b).len() > 0,
    ensures
        trim_end(a + b) == a + trim_end(b),
    decreases b.len(),
{
    assert((a + b).last() == b.last());
    if is_space(b.last()) {
        assert((a + b).drop_last() =~= a + b.drop_last());
        lemma_trim_end_behind(a, b.drop_last());
    }
}

/// The matcher reads a negation without the white space at the end of its pattern, so such a
/// rule re-includes nothing in a directory that the rest of the pattern has nothing to do
/// with.
pub proof fn law_white_space_at_the_end_is_dropped(p: Seq<char>, dir: Seq<char>)
    requires
        trim_end(p).len() > 0,
        forall|i: int| 0 <= i < trim_end(p).len() ==> is_literal_char(#[trigger] trim_end(p)[i]),
        trim_end(p)[0] != '/',
        trim_end(p).last() != '/',
        !related(trim_end(p), dir),
    ensures
        noted((true, p), dir),
{
    let t = trim_end(p);
    let text = rule_text((true, p));
    let start = seq!['!', '/'];
    lemma_trim_end_is_front(p);
    assert(t[0] == p[0]);
    assert(is_literal_char(t[0]));
    reveal_strlit("**");
    if "**"@.is_prefix_of(p) {
        assert(p.subrange(0, 2)[0] == p[0]);
    }
    assert(text =~= start + p);
    lemma_trim_end_behind(start, p);
    let escaped = seq!['\\', ' '];
    if escaped.is_suffix_of(text) {
        let n = text.len() as int;
        assert(text.subrange(n - 2, n) =~= escaped);
        assert(text[n - 2] == text.subrange(n - 2, n)[0]);
        assert(text[n - 1] == text.subrange(n - 2, n)[1]);
        assert(p.len() >= 2) by {
            if p.len() == 1 {
                assert(text[n - 2] == '/');
            }
        }
        assert(p.last() == ' ' && p[p.len() - 2] == '\\');
        assert(p.drop_last().last() == '\\');
        assert(trim_end(p.drop_last()) == p.drop_last());
        assert(t == p.drop_last());
        assert(is_literal_char(t[t.len() - 1]));
    }
    let c = compiled_rule(text);
    assert(c =~= start + t);
    assert(c.skip(2) =~= t);
    assert(compiled_pattern(text) == t);
    let k = t.len() as int;
    assert(t.take(k) =~= t);
    lemma_read_literal(t);
    assert(is_head(compiled_pattern(text), k) && !related(head_text(compiled_pattern(text), k), dir));
}

proof fn lemma_trim_end_is_front(s: Seq<char>)
    ensures
        trim_end(s).is_prefix_of(s),
    decreases s.len(),
{
    if s.len() > 0 && is_space(s.last()) {
        lemma_trim_end_is_front(s.drop_last());
        let t = trim_end(s.drop_last());
        assert(t =~= s.drop_last().subrange(0, t.len() as int));
        assert(t =~= s.subrange(0, t.len() as int));
    } else {
        assert(s.subrange(0, s.len() as int) =~= s);
    }
}

/// One negation rule that starts with a wildcard keeps every directory from being skipped.
pub proof fn law_unbounded_negation_skips_nothing(prefixes: Seq<Seq<char>>, dir: Seq<char>)
    ensures
        !skippable(prefixes, true, dir),
{
}

/// Every rule holds from the context root on: behind the mark of a negation it starts with
/// a slash, or with two stars.
pub proof fn law_rules_are_anchored(line: Seq<char>)
    requires
        rule_on(line) is Some,
    ensures
        ({
            let (negated, p) = rule_on(line)->0;
            let text = rule_text((negated, p));
            let body = if negated {
                text.skip(1)
            } else {
                text
            };
            &&& negated ==> text[0] == '!'
            &&& body[0] == '/' || "**"@.is_prefix_of(body)
        }),
{
    let (negated, p) = rule_on(line)->0;
    if negated {
        assert(rule_text((negated, p)).skip(1) =~= anchored(p));
    }
}

/// A trailing slash of a pattern is of no account, so a rule for a directory holds for a
/// file of that name too.
pub proof fn law_trailing_slash(p: Seq<char>)
    requires
        p.len() > 0,
        p.last() != '/',
        !(p.len() == 1 && p[0] == '.'),
    ensures
        cleaned(p + seq!['/']) == cleaned(p),
{
    reveal_strlit("./");
    reveal_strlit("/");
    assert("/"@ =~= seq!['/']);
    let q = p + seq!['/'];
    if "./"@.is_prefix_of(p) {
        assert(q.subrange(0, 2) =~= p.subrange(0, 2));
        let r = q.skip(2);
        if p.len() > 2 {
            assert(r.subrange(r.len() - 1, r.len() as int) =~= seq!['/']);
            assert(r.take(r.len() - 1) =~= p.skip(2));
            let t = p.skip(2);
            assert(t.last() == p.last());
            if "/"@.is_suffix_of(t) {
                assert(t.subrange(t.len() - 1, t.len() as int)[0] == t.last());
            }
        } else {
            assert(p.subrange(0, 2)[1] == p.last());
        }
    } else {
        if "./"@.is_prefix_of(q) {
            assert(q.subrange(0, 2)[0] == q[0] && q.subrange(0, 2)[1] == q[1]);
            if p.len() >= 2 {
                assert(p.subrange(0, 2) =~= q.subrange(0, 2));
            }
        }
        assert(q.subrange(q.len() - 1, q.len() as int) =~= seq!['/']);
        assert(q.take(q.len() - 1) =~= p);
        if "/"@.is_suffix_of(p) {
            assert(p.subrange(p.len() - 1, p.len() as int)[0] == p.last());
        }
    }
}

} // verus!
