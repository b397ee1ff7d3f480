//! The calls into other crates, and what the rest of the library relies on of each.
//!
//! Everything in this module is taken on trust: the contracts below are read off the
//! sources of the crates they speak of, and nothing here proves them.
use ignore::gitignore::{Gitignore, GitignoreBuilder};
use vstd::prelude::*;

use crate::paths::plain_path;
use crate::text::{is_space, opt_text, slice_texts, texts, trim_end};

verus! {

/// The BLAKE3 hasher of the `blake3` crate.
#[verifier::external_type_specification]
#[verifier::external_body]
pub struct ExHasher(blake3::Hasher);

/// The compiled rule set of the `ignore` crate.
#[verifier::external_type_specification]
#[verifier::external_body]
pub struct ExGitignore(Gitignore);

/// The rule set under construction of the `ignore` crate.
#[verifier::external_type_specification]
#[verifier::external_body]
pub struct ExGitignoreBuilder(GitignoreBuilder);

/// The error of the `ignore` crate.
#[verifier::external_type_specification]
#[verifier::external_body]
pub struct ExIgnoreError(ignore::Error);

/// The error of the `serde_json` crate.
#[verifier::external_type_specification]
#[verifier::external_body]
pub struct ExJsonError(serde_json::Error);

/// The error of `chrono`'s date parsers.
#[verifier::external_type_specification]
#[verifier::external_body]
pub struct ExChronoParseError(chrono::ParseError);

/// Appends one character to a string: `String::push` of the standard library.
pub assume_specification[ String::push ](s: &mut String, c: char)
    ensures
        final(s)@ == old(s)@.push(c),
;

// ---------------------------------------------------------------------------------------
// blake3
// ---------------------------------------------------------------------------------------
/// Every byte that a hasher has been given so far, in order.
pub uninterp spec fn hashed(h: blake3::Hasher) -> Seq<u8>;

/// The BLAKE3 digest of a byte string.
pub uninterp spec fn blake3_digest(input: Seq<u8>) -> Seq<u8>;

/// `blake3::Hasher::new`: a hasher that has been given nothing.
#[verifier::external_body]
pub(crate) fn new_hasher() -> (h: blake3::Hasher)
    ensures
        hashed(h) == Seq::<u8>::empty(),
{
    blake3::Hasher::new()
}

/// `blake3::Hasher::update`: adds the input behind what the hasher already has. Feeding
/// a text in pieces is the same as feeding it at once.
#[verifier::external_body]
pub(crate) fn feed(h: &mut blake3::Hasher, input: &[u8])
    ensures
        hashed(*final(h)) == hashed(*old(h)) + input@,
{
    h.update(input);
}

/// `blake3::Hasher::finalize`: the digest of everything the hasher has been given. It
/// depends on those bytes alone; the hasher itself stays as it is.
#[verifier::external_body]
pub(crate) fn digest(h: &blake3::Hasher) -> (r: [u8; 32])
    ensures
        r@ == blake3_digest(hashed(*h)),
{
    *h.finalize().as_bytes()
}

/// The lower-case hexadecimal digit for a number below sixteen.
pub open spec fn hex_digit(n: int) -> char {
    "0123456789abcdef"@[n]
}

/// Two lower-case hexadecimal digits for each byte, the high half first.
pub open spec fn lower_hex(d: Seq<u8>) -> Seq<char> {
    Seq::new(
        2 * d.len(),
        |i: int|
            if i % 2 == 0 {
                hex_digit(d[i / 2] as int / 16)
            } else {
                hex_digit(d[i / 2] as int % 16)
            },
    )
}

/// `blake3::Hash::to_hex`: the digest in lower-case hexadecimal.
#[verifier::external_body]
pub(crate) fn hex(d: &[u8; 32]) -> (r: String)
    ensures
        r@ == lower_hex(d@),
{
    blake3::Hash::from_bytes(*d).to_hex().to_string()
}

// ---------------------------------------------------------------------------------------
// shlex
// ---------------------------------------------------------------------------------------
/// The words of a line in POSIX shell syntax; `None` for a line that ends inside a quote
/// or behind a bare backslash.
pub uninterp spec fn shell_words(line: Seq<char>) -> Option<Seq<Seq<char>>>;

/// `shlex::split`: the words of the line, which depend on the line alone.
#[verifier::external_body]
pub(crate) fn split_words(line: &str) -> (r: Option<Vec<String>>)
    ensures
        match r {
            Some(v) => shell_words(line@) == Some(texts(v@)),
            None => shell_words(line@) is None,
        },
{
    shlex::split(line)
}

// ---------------------------------------------------------------------------------------
// clap
// ---------------------------------------------------------------------------------------
/// What a command line gives: the value of each option, in the order in which the options
/// were declared, and the values of each operand. `None` for a command line that does not
/// fit the declaration.
pub uninterp spec fn command_line(
    program: Seq<char>,
    options: Seq<Seq<char>>,
    operands: Seq<Seq<char>>,
    words: Seq<Seq<char>>,
) -> Option<(Seq<Option<Seq<char>>>, Seq<Seq<Seq<char>>>)>;

/// A name that can be declared as an option or an operand: letters and hyphens, starting
/// with a letter, and not the name of the built-in help.
pub open spec fn declarable(name: Seq<char>) -> bool {
    &&& name.len() > 0
    &&& 'a' <= name[0] <= 'z'
    &&& forall|i: int| 0 <= i < name.len() ==> 'a' <= #[trigger] name[i] <= 'z' || name[i] == '-'
    &&& name != "help"@
}

/// No name is declared twice.
pub open spec fn declared_once(names: Seq<Seq<char>>) -> bool {
    forall|i: int, j: int|
        0 <= i < j < names.len() ==> #[trigger] names[i] != #[trigger] names[j]
}

/// `clap::Command::try_get_matches_from`, on a command with an option `--name` that takes
/// one value for each of `options`, and an operand that takes any number of values for
/// each of `operands`. There is an answer for each option and each operand. Whether the
/// words fit, and the values, depend on the arguments alone. A command whose declaration is
/// contradictory makes it panic.
#[verifier::external_body]
pub(crate) fn parse_command_line(
    program: &'static str,
    options: &[&'static str],
    operands: &[&'static str],
    words: &Vec<String>,
) -> (r: Option<(Vec<Option<String>>, Vec<Vec<String>>)>)
    requires
        operands@.len() <= 1,
        forall|i: int| 0 <= i < options@.len() ==> declarable(#[trigger] options@[i]@),
        forall|i: int| 0 <= i < operands@.len() ==> declarable(#[trigger] operands@[i]@),
        declared_once(slice_texts(options@) + slice_texts(operands@)),
    ensures
        r matches Some(v) ==> v.0@.len() == options@.len() && v.1@.len() == operands@.len(),
        match r {
            Some(v) => command_line(
                program@,
                slice_texts(options@),
                slice_texts(operands@),
                texts(words@),
            ) == Some(
                (
                    v.0@.map_values(|o: Option<String>| opt_text(o)),
                    v.1@.map_values(|w: Vec<String>| texts(w@)),
                ),
            ),
            None => command_line(
                program@,
                slice_texts(options@),
                slice_texts(operands@),
                texts(words@),
            ) is None,
        },
{
    let m = clap::Command::new(program)
        .args(options.iter().map(|o| clap::Arg::new(*o).long(*o)))
        .args(operands.iter().map(|o| clap::Arg::new(*o).num_args(1..).action(clap::ArgAction::Append)))
        .try_get_matches_from(std::iter::once(program).chain(words.iter().map(|w| w.as_str())))
        .ok()?;
    Some((
        options.iter().map(|o| m.get_one(o).cloned()).collect(),
        operands.iter().map(|o| m.get_many(o).into_iter().flatten().cloned().collect()).collect(),
    ))
}

// ---------------------------------------------------------------------------------------
// serde_json
// ---------------------------------------------------------------------------------------
/// How JSON writes one character inside a string.
pub open spec fn json_char(c: char) -> Seq<char> {
    if c == '"' || c == '\\' {
        seq!['\\', c]
    } else if c == '\u{8}' {
        seq!['\\', 'b']
    } else if c == '\t' {
        seq!['\\', 't']
    } else if c == '\n' {
        seq!['\\', 'n']
    } else if c == '\u{c}' {
        seq!['\\', 'f']
    } else if c == '\r' {
        seq!['\\', 'r']
    } else if c <= '\u{1f}' {
        seq!['\\', 'u', '0', '0', hex_digit(c as int / 16), hex_digit(c as int % 16)]
    } else {
        seq![c]
    }
}

/// A text as a JSON string.
pub open spec fn json_string(s: Seq<char>) -> Seq<char> {
    seq!['"'] + s.map_values(|c: char| json_char(c)).flatten() + seq!['"']
}

/// Texts behind one another with a comma between each two.
pub open spec fn comma_joined(items: Seq<Seq<char>>) -> Seq<char>
    decreases items.len(),
{
    if items.len() == 0 {
        seq![]
    } else if items.len() == 1 {
        json_string(items[0])
    } else {
        json_string(items[0]) + seq![','] + comma_joined(items.drop_first())
    }
}

/// A list of texts as a JSON array of strings, without spaces.
pub open spec fn json_array(items: Seq<Seq<char>>) -> Seq<char> {
    seq!['\u{5b}'] + comma_joined(items) + seq!['\u{5d}']
}

/// `serde_json::to_string` on a list of strings: the JSON array that holds them. Writing
/// strings into memory never fails.
#[verifier::external_body]
pub(crate) fn to_json(items: &[&str]) -> (r: Result<String, serde_json::Error>)
    ensures
        r is Ok,
        r->Ok_0@ == json_array(slice_texts(items@)),
{
    serde_json::to_string(items)
}

/// The strings that a JSON text holds as an array; `None` for any other text.
pub uninterp spec fn json_strings(text: Seq<char>) -> Option<Seq<Seq<char>>>;

/// `serde_json::from_str` into a list of strings, which depends on the text alone.
#[verifier::external_body]
pub(crate) fn from_json(text: &str) -> (r: Result<Vec<String>, serde_json::Error>)
    ensures
        match r {
            Ok(v) => json_strings(text@) == Some(texts(v@)),
            Err(_) => json_strings(text@) is None,
        },
{
    serde_json::from_str(text)
}

// ---------------------------------------------------------------------------------------
// glob
// ---------------------------------------------------------------------------------------
/// How one character is written in a glob pattern so that it matches itself only.
pub open spec fn glob_char(c: char) -> Seq<char> {
    if c == '?' || c == '*' || c == '\u{5b}' || c == '\u{5d}' {
        seq!['\u{5b}', c, '\u{5d}']
    } else {
        seq![c]
    }
}

/// A text as a glob pattern that matches the text itself only.
pub open spec fn glob_escaped(s: Seq<char>) -> Seq<char> {
    s.map_values(|c: char| glob_char(c)).flatten()
}

/// `glob::Pattern::escape`: every metacharacter is put between brackets, and the other
/// characters stay as they are.
#[verifier::external_body]
pub(crate) fn escape_glob(s: &str) -> (r: String)
    ensures
        r@ == glob_escaped(s@),
{
    glob::Pattern::escape(s)
}

// ---------------------------------------------------------------------------------------
// chrono
// ---------------------------------------------------------------------------------------
/// The moment that an RFC 3339 date denotes, as a Unix time in whole seconds and the
/// nanoseconds behind them; `None` for any other text. In a leap second the seconds are those
/// of the second before it, and the nanoseconds start at a thousand million.
pub uninterp spec fn rfc3339_time(text: Seq<char>) -> Option<(i64, u32)>;

/// `chrono::DateTime::parse_from_rfc3339`, taken to its Unix time by `timestamp` and
/// `timestamp_subsec_nanos`. It depends on the text alone.
#[verifier::external_body]
pub(crate) fn parse_time(text: &str) -> (r: Result<(i64, u32), chrono::ParseError>)
    ensures
        match r {
            Ok(t) => rfc3339_time(text@) == Some(t),
            Err(_) => rfc3339_time(text@) is None,
        },
{
    chrono::DateTime::parse_from_rfc3339(text).map(|t| (t.timestamp(), t.timestamp_subsec_nanos()))
}

// ---------------------------------------------------------------------------------------
// ignore
// ---------------------------------------------------------------------------------------
/// The rules that a rule set under construction holds, in the order of their addition.
pub uninterp spec fn builder_rules(b: GitignoreBuilder) -> Seq<Seq<char>>;

/// The directory that a rule set under construction was made for.
pub uninterp spec fn builder_root(b: GitignoreBuilder) -> Seq<char>;

/// The rules that a compiled rule set holds.
pub uninterp spec fn matcher_rules(g: Gitignore) -> Seq<Seq<char>>;

/// The directory that a compiled rule set was made for, where it has a rule.
pub uninterp spec fn matcher_root(g: Gitignore) -> Seq<char>;

/// Whether a line can be read as a rule.
pub uninterp spec fn rule_accepted(line: Seq<char>) -> bool;

/// Whether a list of rules can be compiled.
pub uninterp spec fn rules_compile(rules: Seq<Seq<char>>) -> bool;

/// What a list of rules for a directory says of a path in it: `Some(true)` that it is
/// ignored, `Some(false)` that it is re-included, `None` that no rule speaks of it or of
/// a directory above it.
pub uninterp spec fn rule_verdict(
    root: Seq<char>,
    rules: Seq<Seq<char>>,
    path: Seq<char>,
    is_dir: bool,
) -> Option<bool>;

/// `ignore::gitignore::GitignoreBuilder::new`: no rules yet, for the given directory.
#[verifier::external_body]
pub(crate) fn new_rules(root: &str) -> (b: GitignoreBuilder)
    ensures
        builder_rules(b) == Seq::<Seq<char>>::empty(),
        builder_root(b) == root@,
{
    GitignoreBuilder::new(root)
}

/// `ignore::gitignore::GitignoreBuilder::add_line`, for a line that is neither blank nor a
/// comment: adds the line as a rule, or leaves the rules as they are where it cannot be
/// read as one.
#[verifier::external_body]
pub(crate) fn add_rule(b: &mut GitignoreBuilder, line: &str) -> (r: Result<(), ignore::Error>)
    requires
        line@.len() > 0,
        line@[0] != '#',
        !is_space(line@[0]),
    ensures
        builder_root(*final(b)) == builder_root(*old(b)),
        match r {
            Ok(_) => rule_accepted(line@) && builder_rules(*final(b)) == builder_rules(
                *old(b),
            ).push(line@),
            Err(_) => !rule_accepted(line@) && builder_rules(*final(b)) == builder_rules(*old(b)),
        },
{
    b.add_line(None, line).map(|_| ())
}

/// `ignore::gitignore::GitignoreBuilder::build`: the compiled rules.
#[verifier::external_body]
pub(crate) fn compile_rules(b: &GitignoreBuilder) -> (r: Result<Gitignore, ignore::Error>)
    ensures
        match r {
            Ok(g) => {
                &&& rules_compile(builder_rules(*b))
                &&& matcher_rules(g) == builder_rules(*b)
                &&& builder_rules(*b).len() > 0 ==> matcher_root(g) == builder_root(*b)
            },
            Err(_) => !rules_compile(builder_rules(*b)),
        },
{
    b.build()
}

/// `ignore::gitignore::Gitignore::empty`: no rules at all.
#[verifier::external_body]
pub(crate) fn no_rules() -> (g: Gitignore)
    ensures
        matcher_rules(g) == Seq::<Seq<char>>::empty(),
{
    Gitignore::empty()
}

/// A leading `./` is of no account.
pub open spec fn without_dot_slash(path: Seq<char>) -> Seq<char> {
    if path.len() >= 2 && path[0] == '.' && path[1] == '/' {
        path.skip(2)
    } else {
        path
    }
}

/// The path is one below the root: neither as it stands nor behind the root's own text and
/// one slash does it start with a slash.
pub open spec fn below_root(root: Seq<char>, path: Seq<char>) -> bool {
    let p = without_dot_slash(path);
    let r = without_dot_slash(root);
    &&& !(p.len() > 0 && p[0] == '/')
    &&& r.is_prefix_of(p) ==> !seq!['/', '/'].is_prefix_of(p.skip(r.len() as int))
}

/// The path is matched as it stands, with nothing of it taken off: it has no leading slash or
/// `./`, and it does not start with the text of the root. A lone name, and a root that is
/// empty or a lone dot, are no matter.
pub open spec fn kept_whole(root: Seq<char>, path: Seq<char>) -> bool {
    let r = without_dot_slash(root);
    &&& path.len() > 0 && path[0] != '/'
    &&& without_dot_slash(path) == path
    &&& r.len() == 0 || r == seq!['.'] || !path.contains('/') || !r.is_prefix_of(path)
}

/// The path starts with some text, which ends with the path or before a slash.
pub open spec fn starts_with_whole(path: Seq<char>, base: Seq<char>) -> bool {
    base.is_prefix_of(path) && (path.len() == base.len() || path[base.len() as int] == '/')
}

/// A rule as it is compiled: without the white space at its end, unless that is a space
/// behind a backslash.
pub open spec fn compiled_rule(rule: Seq<char>) -> Seq<char> {
    if seq!['\\', ' '].is_suffix_of(rule) {
        rule
    } else {
        trim_end(rule)
    }
}

/// What is compiled of a rule behind its `!/`: without a slash at its end, and without a
/// backslash before that slash.
pub open spec fn compiled_pattern(rule: Seq<char>) -> Seq<char> {
    let p = compiled_rule(rule).skip(2);
    if p.len() > 0 && p.last() == '/' {
        let q = p.drop_last();
        if q.len() > 0 && q.last() == '\\' {
            q.drop_last()
        } else {
            q
        }
    } else {
        p
    }
}

/// The one text that a piece of a pattern stands for, where it has no wildcards, brackets or
/// braces in it. A backslash makes the character behind it stand for itself.
pub open spec fn read_text(s: Seq<char>) -> Option<Seq<char>>
    decreases s.len(),
{
    if s.len() == 0 {
        Some(seq![])
    } else if s[0] == '\\' {
        if s.len() == 1 {
            None
        } else {
            match read_text(s.skip(2)) {
                Some(t) => Some(seq![s[1]] + t),
                None => None,
            }
        }
    } else if s[0] == '*' || s[0] == '?' || s[0] == '\u{5b}' || s[0] == '\u{5d}' || s[0] == '{' || s[0]
        == '}' {
        None
    } else {
        match read_text(s.skip(1)) {
            Some(t) => Some(seq![s[0]] + t),
            None => None,
        }
    }
}

/// The text that the first `k` characters of a pattern stand for.
pub open spec fn head_text(pattern: Seq<char>, k: int) -> Seq<char> {
    read_text(pattern.take(k))->0
}

/// Whether the first `k` characters of a pattern stand for one text, and end with the pattern
/// or at a slash.
pub open spec fn is_head(pattern: Seq<char>, k: int) -> bool {
    &&& 0 < k <= pattern.len()
    &&& read_text(pattern.take(k)) is Some
    &&& k == pattern.len() || pattern[k] == '/' || head_text(pattern, k).last() == '/'
}

/// The path starts with some text, and the text ends with the path or at a slash.
pub open spec fn starts_with_head(path: Seq<char>, head: Seq<char>) -> bool {
    head.is_prefix_of(path) && (path.len() == head.len() || head.last() == '/' || path[head.len() as int]
        == '/')
}

/// What has to hold for a rule to re-include a path: the rule is a negation, and where its
/// pattern starts with a slash, the path starts with every text that the start of what follows
/// stands for.
pub open spec fn can_reinclude(rule: Seq<char>, path: Seq<char>) -> bool {
    &&& rule.len() > 0 && rule[0] == '!'
    &&& compiled_rule(rule).len() > 1 && compiled_rule(rule)[1] == '/' ==> forall|k: int| #[trigger]
        is_head(compiled_pattern(rule), k) ==> starts_with_head(
            path,
            head_text(compiled_pattern(rule), k),
        )
}

/// `ignore::gitignore::Gitignore::matched_path_or_any_parents`: what the last rule that
/// matches the path says of it, or else the last one that matches its nearest parent.
/// It depends on the rules, their directory, the path and `is_dir` alone, and without
/// rules no path is matched. A path that is matched as it stands is re-included only by a
/// negation, and by one that starts with a slash only where the path starts with the text that
/// stands at the start of its pattern; and it is matched wherever a directory above it is. A
/// path that is not below the root would make it panic.
#[verifier::external_body]
pub(crate) fn verdict(g: &Gitignore, path: &str, is_dir: bool) -> (r: Option<bool>)
    requires
        matcher_rules(*g).len() > 0 ==> below_root(matcher_root(*g), path@),
    ensures
        r == rule_verdict(matcher_root(*g), matcher_rules(*g), path@, is_dir),
        matcher_rules(*g).len() == 0 ==> r is None,
        r == Some(false) && kept_whole(matcher_root(*g), path@) ==> exists|i: int|
            0 <= i < matcher_rules(*g).len() && can_reinclude(
                #[trigger] matcher_rules(*g)[i],
                path@,
            ),
        kept_whole(matcher_root(*g), path@) && plain_path(path@) ==> forall|dir: Seq<char>|
            0 < dir.len() < path@.len() && starts_with_whole(path@, dir) && (
            #[trigger] rule_verdict(matcher_root(*g), matcher_rules(*g), dir, true)) is Some
                ==> r is Some,
{
    match g.matched_path_or_any_parents(path, is_dir) {
        ignore::Match::None => None,
        ignore::Match::Ignore(_) => Some(true),
        ignore::Match::Whitelist(_) => Some(false),
    }
}

} // verus!
