//! How a Dockerfile is read: word by word, line by line.
use vstd::prelude::*;

use crate::parse::{
    continued, instruction, keyword, lemma_keyword, logical, name_end, parse_from, parsed,
    DockerfileFailure, Instruction,
};
use crate::state::{op_name, Operation};
use crate::text::{
    is_space, joined, lemma_trim_nothing, lines, strip_suffix, trim, trim_end, trim_start,
};
use crate::text_laws::law_lines;

verus! {

// ---------------------------------------------------------------------------------------
// Instructions
// ---------------------------------------------------------------------------------------
proof fn lemma_name_ends_at(name: Seq<char>, c: char, rest: Seq<char>)
    requires
        forall|k: int|
            0 <= k < name.len() ==> #[trigger] name[k] != ' ' && name[k] != '\t' && name[k] != '\n',
        c == ' ' || c == '\t' || c == '\n',
    ensures
        name_end(name + seq![c] + rest) == name.len(),
        name_end(name) == name.len(),
    decreases name.len(),
{
    let s = name + seq![c] + rest;
    if name.len() > 0 {
        assert(name[0] != ' ');
        assert(s[0] == name[0]);
        let shorter = name.drop_first();
        assert forall|k: int| 0 <= k < shorter.len() implies #[trigger] shorter[k] != ' '
            && shorter[k] != '\t' && shorter[k] != '\n' by {
            assert(name[k + 1] != ' ');
        }
        lemma_name_ends_at(shorter, c, rest);
        assert(s.drop_first() =~= shorter + seq![c] + rest);
    } else {
        assert(s[0] == c);
    }
}

proof fn lemma_known(op: Operation, c: char, args: Seq<char>)
    requires
        !(op is Checkpoint),
        c == ' ' || c == '\t' || c == '\n',
    ensures
        instruction(op_name(op) + seq![c] + args) == Ok::<Instruction, DockerfileFailure>(
            (op, trim(args)),
        ),
{
    let name = op_name(op);
    let line = name + seq![c] + args;
    lemma_keyword(op);
    assert forall|k: int| 0 <= k < name.len() implies #[trigger] name[k] != ' ' && name[k] != '\t'
        && name[k] != '\n' by {
        assert('A' <= name[k] <= 'Z');
    }
    lemma_name_ends_at(name, c, args);
    assert(line.take(name.len() as int) =~= name);
    assert(line.skip(name.len() as int + 1) =~= args);
    assert('A' <= name[0] <= 'Z');
    assert('A' <= name[name.len() - 1] <= 'Z');
    lemma_trim_nothing(name);
}

/// Each instruction is told by its name: what stands before the first space, tab or line feed
/// of a line. What stands behind that is its arguments, without the white space round them.
pub proof fn law_instruction_names(c: char, args: Seq<char>)
    requires
        c == ' ' || c == '\t' || c == '\n',
    ensures
        instruction("FROM"@ + seq![c] + args) == Ok::<Instruction, DockerfileFailure>(
            (Operation::From, trim(args)),
        ),
        instruction("ARG"@ + seq![c] + args) == Ok::<Instruction, DockerfileFailure>(
            (Operation::Arg, trim(args)),
        ),
        instruction("ENV"@ + seq![c] + args) == Ok::<Instruction, DockerfileFailure>(
            (Operation::Env, trim(args)),
        ),
        instruction("RUN"@ + seq![c] + args) == Ok::<Instruction, DockerfileFailure>(
            (Operation::Run, trim(args)),
        ),
        instruction("WORKDIR"@ + seq![c] + args) == Ok::<Instruction, DockerfileFailure>(
            (Operation::Workdir, trim(args)),
        ),
        instruction("COPY"@ + seq![c] + args) == Ok::<Instruction, DockerfileFailure>(
            (Operation::Copy, trim(args)),
        ),
        instruction("ADD"@ + seq![c] + args) == Ok::<Instruction, DockerfileFailure>(
            (Operation::Add, trim(args)),
        ),
        instruction("LABEL"@ + seq![c] + args) == Ok::<Instruction, DockerfileFailure>(
            (Operation::Label, trim(args)),
        ),
        instruction("USER"@ + seq![c] + args) == Ok::<Instruction, DockerfileFailure>(
            (Operation::User, trim(args)),
        ),
        instruction("ENTRYPOINT"@ + seq![c] + args) == Ok::<Instruction, DockerfileFailure>(
            (Operation::Entrypoint, trim(args)),
        ),
        instruction("CMD"@ + seq![c] + args) == Ok::<Instruction, DockerfileFailure>(
            (Operation::Cmd, trim(args)),
        ),
        instruction("EXPOSE"@ + seq![c] + args) == Ok::<Instruction, DockerfileFailure>(
            (Operation::Expose, trim(args)),
        ),
        instruction("VOLUME"@ + seq![c] + args) == Ok::<Instruction, DockerfileFailure>(
            (Operation::Volume, trim(args)),
        ),
        instruction("STOPSIGNAL"@ + seq![c] + args) == Ok::<Instruction, DockerfileFailure>(
            (Operation::StopSignal, trim(args)),
        ),
        instruction("HEALTHCHECK"@ + seq![c] + args) == Ok::<Instruction, DockerfileFailure>(
            (Operation::HealthCheck, trim(args)),
        ),
{
    lemma_known(Operation::From, c, args);
    lemma_known(Operation::Arg, c, args);
    lemma_known(Operation::Env, c, args);
    lemma_known(Operation::Run, c, args);
    lemma_known(Operation::Workdir, c, args);
    lemma_known(Operation::Copy, c, args);
    lemma_known(Operation::Add, c, args);
    lemma_known(Operation::Label, c, args);
    lemma_known(Operation::User, c, args);
    lemma_known(Operation::Entrypoint, c, args);
    lemma_known(Operation::Cmd, c, args);
    lemma_known(Operation::Expose, c, args);
    lemma_known(Operation::Volume, c, args);
    lemma_known(Operation::StopSignal, c, args);
    lemma_known(Operation::HealthCheck, c, args);
}

/// A name that is none of these is refused, and so is a name with nothing behind it.
pub proof fn law_other_names_are_refused(name: Seq<char>, c: char, args: Seq<char>)
    requires
        forall|k: int|
            0 <= k < name.len() ==> #[trigger] name[k] != ' ' && name[k] != '\t' && name[k] != '\n',
        c == ' ' || c == '\t' || c == '\n',
    ensures
        instruction(name) == Err::<Instruction, DockerfileFailure>(
            DockerfileFailure::NoArguments(name),
        ),
        !seq![
            "FROM"@,
            "ARG"@,
            "ENV"@,
            "RUN"@,
            "WORKDIR"@,
            "COPY"@,
            "ADD"@,
            "LABEL"@,
            "USER"@,
            "ENTRYPOINT"@,
            "CMD"@,
            "EXPOSE"@,
            "VOLUME"@,
            "STOPSIGNAL"@,
            "HEALTHCHECK"@,
        ].contains(trim(name)) ==> instruction(name + seq![c] + args) == Err::<
            Instruction,
            DockerfileFailure,
        >(DockerfileFailure::Unsupported(name)),
{
    let line = name + seq![c] + args;
    lemma_name_ends_at(name, c, args);
    assert(line.take(name.len() as int) =~= name);
    let all = seq![
        "FROM"@,
        "ARG"@,
        "ENV"@,
        "RUN"@,
        "WORKDIR"@,
        "COPY"@,
        "ADD"@,
        "LABEL"@,
        "USER"@,
        "ENTRYPOINT"@,
        "CMD"@,
        "EXPOSE"@,
        "VOLUME"@,
        "STOPSIGNAL"@,
        "HEALTHCHECK"@,
    ];
    if keyword(trim(name)) is Some {
        assert(all[0] == "FROM"@ && all[1] == "ARG"@ && all[2] == "ENV"@ && all[3] == "RUN"@);
        assert(all[4] == "WORKDIR"@ && all[5] == "COPY"@ && all[6] == "ADD"@ && all[7] == "LABEL"@);
        assert(all[8] == "USER"@ && all[9] == "ENTRYPOINT"@ && all[10] == "CMD"@);
        assert(all[11] == "EXPOSE"@ && all[12] == "VOLUME"@ && all[13] == "STOPSIGNAL"@);
        assert(all[14] == "HEALTHCHECK"@);
        assert(all.contains(trim(name)));
    }
}

// ---------------------------------------------------------------------------------------
// Lines
// ---------------------------------------------------------------------------------------
proof fn lemma_no_suffix(line: Seq<char>)
    ensures
        strip_suffix(line, seq!['\\']) == (if line.len() > 0 && line.last() == '\\' {
            Some(line.drop_last())
        } else {
            None
        }),
{
    if line.len() > 0 {
        let end = line.subrange(line.len() - 1, line.len() as int);
        assert(end[0] == line.last());
        if line.last() == '\\' {
            assert(end =~= seq!['\\']);
            assert(line.take(line.len() - 1) =~= line.drop_last());
        } else {
            assert(seq!['\\'][0] == '\\');
        }
    }
}

proof fn lemma_no_comment(line: Seq<char>)
    requires
        line.len() == 0 || line[0] != '#',
    ensures
        !"#"@.is_prefix_of(line),
        !"# CHECKPOINT"@.is_prefix_of(line),
{
    reveal_strlit("#");
    reveal_strlit("# CHECKPOINT");
    if "#"@.is_prefix_of(line) {
        assert("#"@[0] == line.subrange(0, 1)[0]);
    }
    if "# CHECKPOINT"@.is_prefix_of(line) {
        assert("# CHECKPOINT"@[0] == line.subrange(0, 12)[0]);
    }
}

/// A line that is no comment, is not blank and is not continued is an instruction of its own,
/// which stands in front of those of the lines that follow. Where it or one of them cannot be
/// read, the whole cannot.
pub proof fn law_line_is_an_instruction(ls: Seq<Seq<char>>, i: int)
    requires
        0 <= i < ls.len(),
        trim(ls[i]).len() > 0,
        ls[i][0] != '#',
        ls[i].last() != '\\',
    ensures
        match (instruction(trim(ls[i])), parse_from(ls, i + 1)) {
            (Err(e), _) => parse_from(ls, i) == Err::<Seq<Instruction>, DockerfileFailure>(e),
            (Ok(_), Err(e)) => parse_from(ls, i) == Err::<Seq<Instruction>, DockerfileFailure>(e),
            (Ok(op), Ok(rest)) => parse_from(ls, i) == Ok::<Seq<Instruction>, DockerfileFailure>(
                seq![op] + rest,
            ),
        },
{
    if ls[i].len() == 0 {
        assert(trim_start(ls[i]) == ls[i]);
        assert(trim_end(ls[i]) == ls[i]);
    }
    lemma_no_suffix(ls[i]);
    lemma_no_comment(ls[i]);
}

proof fn lemma_trim_ends(s: Seq<char>)
    ensures
        trim(s).len() > 0 ==> !is_space(trim(s).last()),
{
    lemma_trim_end_ends(trim_start(s));
}

proof fn lemma_trim_end_ends(s: Seq<char>)
    ensures
        trim_end(s).len() > 0 ==> !is_space(trim_end(s).last()),
    decreases s.len(),
{
    if s.len() > 0 && is_space(s.last()) {
        lemma_trim_end_ends(s.drop_last());
    }
}

/// What a line says without the backslash that continues it and without the white space round
/// it.
pub open spec fn said_on(line: Seq<char>) -> Seq<char> {
    if line.len() > 0 && line.last() == '\\' {
        trim(line.drop_last())
    } else {
        trim(line)
    }
}

/// What some lines say.
pub open spec fn said_on_lines(ls: Seq<Seq<char>>, i: int, n: int) -> Seq<Seq<char>> {
    Seq::new((n - i) as nat, |k: int| said_on(ls[i + k]))
}

proof fn lemma_continued_joined(ls: Seq<Seq<char>>, i: int, k: int, n: int)
    requires
        0 <= i < k <= n < ls.len(),
        forall|j: int|
            i <= j < n ==> (#[trigger] ls[j]).len() > 0 && ls[j].last() == '\\',
        ls[n].len() > 0 ==> ls[n].last() != '\\',
        forall|j: int| i <= j <= n ==> said_on(#[trigger] ls[j]).len() > 0,
    ensures
        continued(ls, k, joined(said_on_lines(ls, i, k), seq!['\n'])) == Some(
            (joined(said_on_lines(ls, i, n + 1), seq!['\n']), n + 1),
        ),
        joined(said_on_lines(ls, i, k), seq!['\n']).len() > 0,
        !is_space(joined(said_on_lines(ls, i, k), seq!['\n']).last()),
    decreases n - k,
{
    let sep = seq!['\n'];
    let front = said_on_lines(ls, i, k);
    let more = said_on_lines(ls, i, k + 1);
    let acc = joined(front, sep);
    assert(more =~= front.push(said_on(ls[k])));
    assert(more.drop_last() =~= front);
    assert(said_on(ls[k]).len() > 0);
    assert(said_on(ls[k - 1]).len() > 0);
    assert(front.last() == said_on(ls[k - 1]));
    lemma_no_suffix(ls[k]);
    lemma_trim_ends(ls[k - 1]);
    lemma_trim_ends(ls[k - 1].drop_last());
    if front.len() == 1 {
        assert(acc == front[0]);
    } else {
        assert(acc.last() == front.last().last());
    }
    assert(joined(more, sep) == acc + sep + said_on(ls[k]));
    if k < n {
        lemma_continued_joined(ls, i, k + 1, n);
    }
}

/// A line that is continued goes on on the lines that follow it, up to the first that is not
/// continued: each says what it says without the backslash and the white space round it, and a
/// line feed stands between each two.
pub proof fn law_continued_lines_are_joined(ls: Seq<Seq<char>>, i: int, n: int)
    requires
        0 <= i <= n < ls.len(),
        forall|j: int|
            i <= j < n ==> (#[trigger] ls[j]).len() > 0 && ls[j].last() == '\\',
        ls[n].len() > 0 ==> ls[n].last() != '\\',
        forall|j: int| i <= j <= n ==> said_on(#[trigger] ls[j]).len() > 0,
    ensures
        logical(ls, i) == Some((joined(said_on_lines(ls, i, n + 1), seq!['\n']), n + 1)),
{
    let one = said_on_lines(ls, i, i + 1);
    assert(one =~= seq![said_on(ls[i])]);
    assert(joined(one, seq!['\n']) == said_on(ls[i]));
    lemma_no_suffix(ls[i]);
    if i < n {
        lemma_continued_joined(ls, i, i + 1, n);
    }
}

proof fn lemma_never_ends(ls: Seq<Seq<char>>, i: int, acc: Seq<char>)
    requires
        0 <= i <= ls.len(),
        forall|j: int| i <= j < ls.len() ==> (#[trigger] ls[j]).len() > 0 && ls[j].last() == '\\',
    ensures
        continued(ls, i, acc) is None,
    decreases ls.len() - i,
{
    if i < ls.len() {
        lemma_no_suffix(ls[i]);
        lemma_never_ends(ls, i + 1, acc + seq!['\n'] + trim(ls[i].drop_last()));
    }
}

/// A line that is continued up to the end of the file is refused.
pub proof fn law_missing_continuation_is_refused(ls: Seq<Seq<char>>, i: int)
    requires
        0 <= i < ls.len(),
        ls[i].len() > 0 && ls[i][0] != '#',
        forall|j: int| i <= j < ls.len() ==> (#[trigger] ls[j]).len() > 0 && ls[j].last() == '\\',
    ensures
        parse_from(ls, i) == Err::<Seq<Instruction>, DockerfileFailure>(
            DockerfileFailure::UnexpectedEnd,
        ),
{
    lemma_no_comment(ls[i]);
    lemma_no_suffix(ls[i]);
    lemma_never_ends(ls, i + 1, trim(ls[i].drop_last()));
}

proof fn lemma_continued_shift(l: Seq<char>, ls: Seq<Seq<char>>, i: int, acc: Seq<char>)
    requires
        0 <= i,
    ensures
        match continued(ls, i, acc) {
            None => continued(seq![l] + ls, i + 1, acc) is None,
            Some((line, next)) => continued(seq![l] + ls, i + 1, acc) == Some((line, next + 1)),
        },
    decreases ls.len() - i,
{
    if i < ls.len() {
        assert((seq![l] + ls)[i + 1] == ls[i]);
        if let Some(t) = strip_suffix(ls[i], seq!['\\']) {
            lemma_continued_shift(l, ls, i + 1, acc + seq!['\n'] + trim(t));
        }
    }
}

proof fn lemma_continued_goes_on(ls: Seq<Seq<char>>, i: int, acc: Seq<char>)
    ensures
        continued(ls, i, acc) matches Some((_, next)) ==> i < next <= ls.len(),
    decreases ls.len() - i,
{
    if 0 <= i < ls.len() {
        if let Some(t) = strip_suffix(ls[i], seq!['\\']) {
            lemma_continued_goes_on(ls, i + 1, acc + seq!['\n'] + trim(t));
        }
    }
}

proof fn lemma_parse_shift(l: Seq<char>, ls: Seq<Seq<char>>, i: int)
    requires
        0 <= i,
    ensures
        parse_from(seq![l] + ls, i + 1) == parse_from(ls, i),
    decreases ls.len() - i,
{
    let all = seq![l] + ls;
    if i < ls.len() {
        assert(all[i + 1] == ls[i]);
        if "# CHECKPOINT"@.is_prefix_of(ls[i]) || "#"@.is_prefix_of(ls[i]) {
            lemma_parse_shift(l, ls, i + 1);
        } else {
            if let Some(t) = strip_suffix(ls[i], seq!['\\']) {
                lemma_continued_shift(l, ls, i + 1, trim(t));
                lemma_continued_goes_on(ls, i + 1, trim(t));
            }
            if let Some((_, next)) = logical(ls, i) {
                lemma_parse_shift(l, ls, next);
            }
        }
    }
}

/// A Dockerfile is read line by line: an instruction on its first line stands in front of those
/// of the rest, a checkpoint comment there is a checkpoint in front of them, and a comment or a
/// blank line there leaves those of the rest.
pub proof fn law_dockerfile_is_read_line_by_line(a: Seq<char>, b: Seq<char>)
    requires
        !a.contains('\n'),
        a.len() > 0 ==> a.last() != '\r',
    ensures
        parsed(seq![]) == Ok::<Seq<Instruction>, DockerfileFailure>(seq![]),
        trim(a).len() > 0 && a[0] != '#' && a.last() != '\\' ==> match (
            instruction(trim(a)),
            parsed(b),
        ) {
            (Err(e), _) => parsed(a + seq!['\n'] + b) == Err::<
                Seq<Instruction>,
                DockerfileFailure,
            >(e),
            (Ok(_), Err(e)) => parsed(a + seq!['\n'] + b) == Err::<
                Seq<Instruction>,
                DockerfileFailure,
            >(e),
            (Ok(op), Ok(rest)) => parsed(a + seq!['\n'] + b) == Ok::<
                Seq<Instruction>,
                DockerfileFailure,
            >(seq![op] + rest),
        },
        trim(a).len() == 0 ==> parsed(a + seq!['\n'] + b) == parsed(b),
        "#"@.is_prefix_of(a) && !"# CHECKPOINT"@.is_prefix_of(a) ==> parsed(a + seq!['\n'] + b)
            == parsed(b),
        "# CHECKPOINT"@.is_prefix_of(a) ==> match parsed(b) {
            Err(e) => parsed(a + seq!['\n'] + b) == Err::<Seq<Instruction>, DockerfileFailure>(e),
            Ok(rest) => parsed(a + seq!['\n'] + b) == Ok::<Seq<Instruction>, DockerfileFailure>(
                seq![(Operation::Checkpoint, Seq::<char>::empty())] + rest,
            ),
        },
{
    law_lines(a, b);
    let ls = seq![a] + lines(b);
    assert(ls[0] == a);
    lemma_parse_shift(a, lines(b), 0);
    if trim(a).len() > 0 && a[0] != '#' && a.last() != '\\' {
        law_line_is_an_instruction(ls, 0);
    }
    if trim(a).len() == 0 {
        if a.len() > 0 && a.last() == '\\' {
            lemma_trim_keeps_last(a);
        }
        lemma_no_suffix(a);
        crate::parse::law_blank_line_is_passed_over(ls, 0);
    }
}

proof fn lemma_trim_keeps_last(s: Seq<char>)
    requires
        s.len() > 0,
        !is_space(s.last()),
    ensures
        trim(s).len() > 0,
    decreases s.len(),
{
    if is_space(s[0]) {
        if s.len() > 1 {
            assert(s.drop_first().last() == s.last());
            lemma_trim_keeps_last(s.drop_first());
        } else {
            assert(s[0] == s.last());
        }
    } else {
        assert(trim_start(s) == s);
        assert(trim_end(s) == s);
    }
}

/// A line that says nothing adds nothing where it ends a continued line or starts one, and in between
/// it adds no more than the line feed that stands there anyway.
pub proof fn law_continued_over_blank_lines(ls: Seq<Seq<char>>, i: int)
    requires
        0 <= i,
        i + 1 < ls.len(),
        ls[i].len() > 0 && ls[i].last() == '\\',
    ensures
        (ls[i + 1].len() == 0 || ls[i + 1].last() != '\\') && said_on(ls[i + 1]).len() == 0
            ==> logical(ls, i) == Some((said_on(ls[i]), i + 2)),
        (ls[i + 1].len() == 0 || ls[i + 1].last() != '\\') && said_on(ls[i]).len() == 0
            ==> logical(ls, i) == Some((said_on(ls[i + 1]), i + 2)),
        ls[i + 1].len() > 0 && ls[i + 1].last() == '\\' && said_on(ls[i + 1]).len() == 0 && i + 2
            < ls.len() && (ls[i + 2].len() == 0 || ls[i + 2].last() != '\\') ==> logical(ls, i)
            == Some((said_on(ls[i]) + seq!['\n'] + said_on(ls[i + 2]), i + 3)),
{
    lemma_no_suffix(ls[i]);
    lemma_no_suffix(ls[i + 1]);
    let first = said_on(ls[i]);
    let none = Seq::<char>::empty();
    if said_on(ls[i + 1]).len() == 0 {
        assert(said_on(ls[i + 1]) =~= none);
        assert(first + none =~= first);
        if i + 2 < ls.len() {
            lemma_no_suffix(ls[i + 2]);
            assert(first + seq!['\n'] + none =~= first + seq!['\n']);
            reveal_with_fuel(continued, 3);
        }
    }
    if first.len() == 0 {
        assert(first =~= none);
        assert(none + said_on(ls[i + 1]) =~= said_on(ls[i + 1]));
    }
}

proof fn lemma_continued_any(ls: Seq<Seq<char>>, i: int, k: int, n: int)
    requires
        0 <= i < k <= n < ls.len(),
        forall|j: int| i <= j < n ==> (#[trigger] ls[j]).len() > 0 && ls[j].last() == '\\',
        ls[n].len() > 0 ==> ls[n].last() != '\\',
    ensures
        continued(ls, k, joined(said_on_lines(ls, i, k), seq!['\n'])) == Some(
            (
                put_behind(joined(said_on_lines(ls, i, n), seq!['\n']), said_on(ls[n])),
                n + 1,
            ),
        ),
    decreases n - k,
{
    let sep = seq!['\n'];
    let front = said_on_lines(ls, i, k);
    let more = said_on_lines(ls, i, k + 1);
    assert(more =~= front.push(said_on(ls[k])));
    assert(more.drop_last() =~= front);
    lemma_no_suffix(ls[k]);
    if k < n {
        assert(joined(more, sep) == joined(front, sep) + sep + said_on(ls[k]));
        lemma_continued_any(ls, i, k + 1, n);
    }
}

/// The last of several lines behind the others, with a line feed between where the two would run
/// together.
pub open spec fn put_behind(acc: Seq<char>, last: Seq<char>) -> Seq<char> {
    if acc.len() > 0 && acc.last() != '\n' && last.len() > 0 {
        acc + seq!['\n'] + last
    } else {
        acc + last
    }
}

/// Whatever continued lines say, even nothing, a line feed stands between each two of them, and
/// before the line that ends them where neither side of it is empty and none stands there yet.
pub proof fn law_any_lines_can_be_continued(ls: Seq<Seq<char>>, i: int, n: int)
    requires
        0 <= i < n < ls.len(),
        forall|j: int| i <= j < n ==> (#[trigger] ls[j]).len() > 0 && ls[j].last() == '\\',
        ls[n].len() > 0 ==> ls[n].last() != '\\',
    ensures
        logical(ls, i) == Some(
            (
                put_behind(joined(said_on_lines(ls, i, n), seq!['\n']), said_on(ls[n])),
                n + 1,
            ),
        ),
{
    let one = said_on_lines(ls, i, i + 1);
    assert(one =~= seq![said_on(ls[i])]);
    assert(joined(one, seq!['\n']) == said_on(ls[i]));
    lemma_no_suffix(ls[i]);
    lemma_continued_any(ls, i, i + 1, n);
}

/// A line that is no comment, with the lines that continue it, is an instruction, which stands in
/// front of those of the lines that follow; where it says nothing it is passed over.
pub proof fn law_logical_line_is_an_instruction(
    ls: Seq<Seq<char>>,
    i: int,
    line: Seq<char>,
    next: int,
)
    requires
        0 <= i < ls.len(),
        ls[i].len() == 0 || ls[i][0] != '#',
        logical(ls, i) == Some((line, next)),
    ensures
        line.len() == 0 ==> parse_from(ls, i) == parse_from(ls, next),
        line.len() > 0 ==> match (instruction(line), parse_from(ls, next)) {
            (Err(e), _) => parse_from(ls, i) == Err::<Seq<Instruction>, DockerfileFailure>(e),
            (Ok(_), Err(e)) => parse_from(ls, i) == Err::<Seq<Instruction>, DockerfileFailure>(e),
            (Ok(op), Ok(rest)) => parse_from(ls, i) == Ok::<Seq<Instruction>, DockerfileFailure>(
                seq![op] + rest,
            ),
        },
{
    lemma_no_comment(ls[i]);
}

} // verus!
