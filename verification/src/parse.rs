//! Parses a Dockerfile and extracts the operations in order.
use vstd::prelude::*;

use crate::state::{op_name, Operation};
use crate::text::{
    char_texts, head, is_space, is_text, lemma_one_word, lemma_trim_keeps_first,
    lemma_trim_nothing, lemma_words_apart, lemma_words_trim, lines, push_all, split_lines, starts,
    strip_suffix, tail, to_chars, to_text, trim, trimmed, without_suffix, words,
};

verus! {

/// Why a Dockerfile cannot be parsed.
#[derive(Debug)]
pub enum DockerfileError {
    /// The last line asks for a continuation that is not there.
    UnexpectedEnd,
    /// An instruction has nothing behind its name.
    NoArguments { line: String },
    /// The name of an instruction is not known.
    Unsupported { instruction: String },
}

/// A `DockerfileError` with its text as a sequence of characters.
pub enum DockerfileFailure {
    UnexpectedEnd,
    NoArguments(Seq<char>),
    Unsupported(Seq<char>),
}

impl View for DockerfileError {
    type V = DockerfileFailure;

    open spec fn view(&self) -> DockerfileFailure {
        match self {
            DockerfileError::UnexpectedEnd => DockerfileFailure::UnexpectedEnd,
            DockerfileError::NoArguments { line } => DockerfileFailure::NoArguments(line@),
            DockerfileError::Unsupported { instruction } => DockerfileFailure::Unsupported(instruction@),
        }
    }
}

/// An operation and the text behind its name.
pub type Instruction = (Operation, Seq<char>);

/// The operations of a list with their texts.
pub open spec fn instructions(v: Seq<(Operation, String)>) -> Seq<Instruction> {
    v.map_values(|o: (Operation, String)| (o.0, o.1@))
}

/// The operation that an instruction name stands for.
pub open spec fn keyword(word: Seq<char>) -> Option<Operation> {
    if word == "FROM"@ {
        Some(Operation::From)
    } else if word == "ARG"@ {
        Some(Operation::Arg)
    } else if word == "ENV"@ {
        Some(Operation::Env)
    } else if word == "RUN"@ {
        Some(Operation::Run)
    } else if word == "WORKDIR"@ {
        Some(Operation::Workdir)
    } else if word == "COPY"@ {
        Some(Operation::Copy)
    } else if word == "ADD"@ {
        Some(Operation::Add)
    } else if word == "LABEL"@ {
        Some(Operation::Label)
    } else if word == "USER"@ {
        Some(Operation::User)
    } else if word == "ENTRYPOINT"@ {
        Some(Operation::Entrypoint)
    } else if word == "CMD"@ {
        Some(Operation::Cmd)
    } else if word == "EXPOSE"@ {
        Some(Operation::Expose)
    } else if word == "VOLUME"@ {
        Some(Operation::Volume)
    } else if word == "STOPSIGNAL"@ {
        Some(Operation::StopSignal)
    } else if word == "HEALTHCHECK"@ {
        Some(Operation::HealthCheck)
    } else {
        None
    }
}

/// Whether a character ends the name of an instruction.
pub open spec fn ends_name(c: char) -> bool {
    c == ' ' || c == '\t' || c == '\n'
}

/// The length of the name of an instruction.
pub open spec fn name_end(s: Seq<char>) -> int
    decreases s.len(),
{
    if s.len() > 0 && !ends_name(s[0]) {
        1 + name_end(s.drop_first())
    } else {
        0
    }
}

/// The instruction that a line spells out.
pub open spec fn instruction(line: Seq<char>) -> Result<Instruction, DockerfileFailure> {
    let n = name_end(line);
    if n == line.len() {
        Err(DockerfileFailure::NoArguments(line))
    } else {
        match keyword(trim(line.take(n))) {
            Some(op) => Ok((op, trim(line.skip(n + 1)))),
            None => Err(DockerfileFailure::Unsupported(line.take(n))),
        }
    }
}

/// A text with the last of its lines behind it, and a line feed between the two where they
/// would run together.
pub open spec fn closed_by(acc: Seq<char>, last: Seq<char>) -> Seq<char> {
    if acc.len() > 0 && acc.last() != '\n' && last.len() > 0 {
        acc + seq!['\n'] + last
    } else {
        acc + last
    }
}

/// The rest of a line that is continued on the line at `i`, behind the text `acc`, and the
/// line that follows it. Each line that is itself continued is put behind a line feed.
pub open spec fn continued(ls: Seq<Seq<char>>, i: int, acc: Seq<char>) -> Option<(Seq<char>, int)>
    decreases ls.len() - i,
{
    if i < 0 || i >= ls.len() {
        None
    } else {
        match strip_suffix(ls[i], seq!['\\']) {
            Some(t) => continued(ls, i + 1, acc + seq!['\n'] + trim(t)),
            None => Some((closed_by(acc, trim(ls[i])), i + 1)),
        }
    }
}

/// The logical line that starts at line `i`, and the line that follows it.
pub open spec fn logical(ls: Seq<Seq<char>>, i: int) -> Option<(Seq<char>, int)> {
    match strip_suffix(ls[i], seq!['\\']) {
        Some(t) => continued(ls, i + 1, trim(t)),
        None => Some((trim(ls[i]), i + 1)),
    }
}

/// An instruction in front of the instructions that follow.
pub open spec fn followed_by(
    op: Instruction,
    rest: Result<Seq<Instruction>, DockerfileFailure>,
) -> Result<Seq<Instruction>, DockerfileFailure> {
    match rest {
        Ok(r) => Ok(seq![op] + r),
        Err(e) => Err(e),
    }
}

/// The instructions from line `i` on.
pub open spec fn parse_from(ls: Seq<Seq<char>>, i: int) -> Result<Seq<Instruction>, DockerfileFailure>
    decreases ls.len() - i,
    via parse_from_decreases
{
    if i < 0 || i >= ls.len() {
        Ok(seq![])
    } else if "# CHECKPOINT"@.is_prefix_of(ls[i]) {
        followed_by((Operation::Checkpoint, seq![]), parse_from(ls, i + 1))
    } else if "#"@.is_prefix_of(ls[i]) {
        parse_from(ls, i + 1)
    } else {
        match logical(ls, i) {
            None => Err(DockerfileFailure::UnexpectedEnd),
            Some((line, next)) => if line.len() == 0 {
                parse_from(ls, next)
            } else {
                match instruction(line) {
                    Err(e) => Err(e),
                    Ok(op) => followed_by(op, parse_from(ls, next)),
                }
            },
        }
    }
}

#[via_fn]
proof fn parse_from_decreases(ls: Seq<Seq<char>>, i: int) {
    if 0 <= i < ls.len() {
        lemma_logical(ls, i);
    }
}

/// The instructions of a Dockerfile: a line that starts with `# CHECKPOINT` is a
/// checkpoint, any other line that starts with `#` is nothing, and so is a blank line.
pub open spec fn parsed(content: Seq<char>) -> Result<Seq<Instruction>, DockerfileFailure> {
    parse_from(lines(content), 0)
}

proof fn lemma_continued(ls: Seq<Seq<char>>, i: int, acc: Seq<char>)
    ensures
        continued(ls, i, acc) matches Some((_, next)) ==> i < next <= ls.len(),
    decreases ls.len() - i,
{
    if 0 <= i < ls.len() {
        if let Some(t) = strip_suffix(ls[i], seq!['\\']) {
            lemma_continued(ls, i + 1, acc + seq!['\n'] + trim(t));
        }
    }
}

proof fn lemma_logical(ls: Seq<Seq<char>>, i: int)
    requires
        0 <= i < ls.len(),
    ensures
        logical(ls, i) matches Some((_, next)) ==> i < next <= ls.len(),
{
    if let Some(t) = strip_suffix(ls[i], seq!['\\']) {
        lemma_continued(ls, i + 1, trim(t));
    }
}

fn find_keyword(word: &[char]) -> (r: Option<Operation>)
    ensures
        r == keyword(word@),
{
    if is_text(word, "FROM") {
        Some(Operation::From)
    } else if is_text(word, "ARG") {
        Some(Operation::Arg)
    } else if is_text(word, "ENV") {
        Some(Operation::Env)
    } else if is_text(word, "RUN") {
        Some(Operation::Run)
    } else if is_text(word, "WORKDIR") {
        Some(Operation::Workdir)
    } else if is_text(word, "COPY") {
        Some(Operation::Copy)
    } else if is_text(word, "ADD") {
        Some(Operation::Add)
    } else if is_text(word, "LABEL") {
        Some(Operation::Label)
    } else if is_text(word, "USER") {
        Some(Operation::User)
    } else if is_text(word, "ENTRYPOINT") {
        Some(Operation::Entrypoint)
    } else if is_text(word, "CMD") {
        Some(Operation::Cmd)
    } else if is_text(word, "EXPOSE") {
        Some(Operation::Expose)
    } else if is_text(word, "VOLUME") {
        Some(Operation::Volume)
    } else if is_text(word, "STOPSIGNAL") {
        Some(Operation::StopSignal)
    } else if is_text(word, "HEALTHCHECK") {
        Some(Operation::HealthCheck)
    } else {
        None
    }
}

fn find_name_end(s: &[char]) -> (r: usize)
    ensures
        r == name_end(s@),
        r <= s@.len(),
{
    let mut i: usize = 0;
    proof {
        assert(s@.skip(0) =~= s@);
    }
    while i < s.len() && s[i] != ' ' && s[i] != '\t' && s[i] != '\n'
        invariant
            i <= s@.len(),
            name_end(s@) == i + name_end(s@.skip(i as int)),
        decreases s.len() - i,
    {
        proof {
            assert(s@.skip(i as int).drop_first() =~= s@.skip(i + 1));
        }
        i += 1;
    }
    i
}

fn parse_instruction(line: &[char]) -> (r: Result<(Operation, String), DockerfileError>)
    ensures
        match r {
            Ok(op) => instruction(line@) == Ok::<Instruction, DockerfileFailure>((op.0, op.1@)),
            Err(e) => instruction(line@) == Err::<Instruction, DockerfileFailure>(e@),
        },
{
    let n = find_name_end(line);
    if n == line.len() {
        return Err(DockerfileError::NoArguments { line: to_text(line) });
    }
    match find_keyword(trimmed(head(line, n))) {
        Some(op) => Ok((op, to_text(trimmed(tail(line, n + 1))))),
        None => Err(DockerfileError::Unsupported { instruction: to_text(head(line, n)) }),
    }
}

/// The logical line that starts at line `i`, and the line that follows it.
fn read_logical(ls: &Vec<Vec<char>>, i: usize) -> (r: Option<(Vec<char>, usize)>)
    requires
        i < ls@.len(),
    ensures
        match r {
            Some((line, next)) => logical(char_texts(ls@), i as int) == Some(
                (line@, next as int),
            ),
            None => logical(char_texts(ls@), i as int) is None,
        },
{
    let ghost all = char_texts(ls@);
    proof {
        reveal_strlit("\\");
        assert("\\"@ =~= seq!['\\']);
    }
    let mut line: Vec<char> = Vec::new();
    let n: usize = ls.len();
    match without_suffix(&ls[i], "\\") {
        None => {
            push_all(&mut line, trimmed(&ls[i]));
            proof {
                assert(line@ =~= trim(all[i as int]));
            }
            Some((line, i + 1))
        },
        Some(first) => {
            push_all(&mut line, trimmed(first));
            proof {
                assert(line@ =~= trim(first@));
            }
            let mut k: usize = i + 1;
            while k < ls.len()
                invariant
                    i < k <= ls@.len(),
                    all == char_texts(ls@),
                    "\\"@ == seq!['\\'],
                    logical(all, i as int) == continued(all, k as int, line@),
                decreases ls.len() - k,
            {
                match without_suffix(&ls[k], "\\") {
                    Some(more) => {
                        let ghost before = line@;
                        line.push('\n');
                        push_all(&mut line, trimmed(more));
                        proof {
                            assert(line@ =~= before + seq!['\n'] + trim(more@));
                        }
                    },
                    None => {
                        let ghost before = line@;
                        let last = trimmed(&ls[k]);
                        if line.len() > 0 && line[line.len() - 1] != '\n' && last.len() > 0 {
                            line.push('\n');
                        }
                        push_all(&mut line, last);
                        proof {
                            assert(line@ =~= closed_by(before, trim(all[k as int])));
                        }
                        return Some((line, k + 1));
                    },
                }
                k += 1;
            }
            None
        },
    }
}

/// Some instructions in front of those that follow.
pub open spec fn all_followed_by(
    ops: Seq<Instruction>,
    rest: Result<Seq<Instruction>, DockerfileFailure>,
) -> Result<Seq<Instruction>, DockerfileFailure> {
    match rest {
        Ok(r) => Ok(ops + r),
        Err(e) => Err(e),
    }
}

proof fn lemma_one_more(
    ops: Seq<Instruction>,
    op: Instruction,
    rest: Result<Seq<Instruction>, DockerfileFailure>,
)
    ensures
        all_followed_by(ops, followed_by(op, rest)) == all_followed_by(ops.push(op), rest),
{
    match rest {
        Ok(r) => {
            assert(ops + (seq![op] + r) =~= ops.push(op) + r);
        },
        Err(_) => {},
    }
}

/// Parses the text of a Dockerfile and extracts the operations in order, including support
/// for line continuations and comments.
pub fn parse_dockerfile(content: &str) -> (r: Result<Vec<(Operation, String)>, DockerfileError>)
    ensures
        match r {
            Ok(ops) => parsed(content@) == Ok::<Seq<Instruction>, DockerfileFailure>(
                instructions(ops@),
            ),
            Err(e) => parsed(content@) == Err::<Seq<Instruction>, DockerfileFailure>(e@),
        },
{
    let chars = to_chars(content);
    let ls = split_lines(&chars);
    let ghost all = char_texts(ls@);
    let mut ops: Vec<(Operation, String)> = Vec::new();
    let mut i: usize = 0;
    proof {
        match parse_from(all, 0) {
            Ok(r) => {
                assert(instructions(ops@) + r =~= r);
            },
            Err(_) => {},
        }
    }
    while i < ls.len()
        invariant
            i <= ls@.len(),
            all == char_texts(ls@),
            all == lines(content@),
            parse_from(all, 0) == all_followed_by(
                instructions(ops@),
                parse_from(all, i as int),
            ),
        decreases ls.len() - i,
    {
        let ghost before = instructions(ops@);
        proof {
            assert(all[i as int] == ls@[i as int]@);
            lemma_logical(all, i as int);
        }
        if starts(&ls[i], "# CHECKPOINT") {
            ops.push((Operation::Checkpoint, String::new()));
            proof {
                assert(instructions(ops@) =~= before.push((Operation::Checkpoint, seq![])));
                lemma_one_more(
                    before,
                    (Operation::Checkpoint, seq![]),
                    parse_from(all, i + 1),
                );
            }
            i += 1;
        } else if starts(&ls[i], "#") {
            i += 1;
        } else {
            match read_logical(&ls, i) {
                None => {
                    return Err(DockerfileError::UnexpectedEnd);
                },
                Some((line, next)) => {
                    if line.len() > 0 {
                        match parse_instruction(&line) {
                            Err(e) => {
                                return Err(e);
                            },
                            Ok(op) => {
                                let ghost model: Instruction = (op.0, op.1@);
                                ops.push(op);
                                proof {
                                    assert(instructions(ops@) =~= before.push(model));
                                    lemma_one_more(before, model, parse_from(all, next as int));
                                }
                            },
                        }
                    }
                    i = next;
                },
            }
        }
    }
    proof {
        assert(instructions(ops@) + seq![] =~= instructions(ops@));
    }
    Ok(ops)
}

// ---------------------------------------------------------------------------------------
// Laws
// ---------------------------------------------------------------------------------------
/// A comment is passed over.
pub proof fn law_comment_is_passed_over(ls: Seq<Seq<char>>, i: int)
    requires
        0 <= i < ls.len(),
        "#"@.is_prefix_of(ls[i]),
        !"# CHECKPOINT"@.is_prefix_of(ls[i]),
    ensures
        parse_from(ls, i) == parse_from(ls, i + 1),
{
}

/// A comment that starts with CHECKPOINT is a boundary of the cache, whatever stands behind
/// that word.
pub proof fn law_checkpoint_comment_is_a_boundary(ls: Seq<Seq<char>>, i: int)
    requires
        0 <= i < ls.len(),
        "# CHECKPOINT"@.is_prefix_of(ls[i]),
    ensures
        parse_from(ls, i) == followed_by((Operation::Checkpoint, seq![]), parse_from(ls, i + 1)),
{
}

/// A blank line is passed over.
pub proof fn law_blank_line_is_passed_over(ls: Seq<Seq<char>>, i: int)
    requires
        0 <= i < ls.len(),
        trim(ls[i]).len() == 0,
        strip_suffix(ls[i], seq!['\\']) is None,
    ensures
        parse_from(ls, i) == parse_from(ls, i + 1),
{
    reveal_strlit("#");
    reveal_strlit("# CHECKPOINT");
    if ls[i].len() > 0 && ls[i][0] == '#' {
        lemma_trim_keeps_first(ls[i]);
    }
    if "#"@.is_prefix_of(ls[i]) {
        assert("#"@[0] == ls[i].subrange(0, 1)[0]);
    }
    if "# CHECKPOINT"@.is_prefix_of(ls[i]) {
        assert("# CHECKPOINT"@[0] == ls[i].subrange(0, 12)[0]);
    }
}

proof fn lemma_name_end(name: Seq<char>, rest: Seq<char>)
    requires
        forall|k: int| 0 <= k < name.len() ==> !ends_name(#[trigger] name[k]),
    ensures
        name_end(name + seq![' '] + rest) == name.len(),
    decreases name.len(),
{
    let s = name + seq![' '] + rest;
    if name.len() > 0 {
        assert(s[0] == name[0]);
        let shorter = name.drop_first();
        assert forall|k: int| 0 <= k < shorter.len() implies !ends_name(#[trigger] shorter[k]) by {
            assert(shorter[k] == name[k + 1]);
        }
        lemma_name_end(shorter, rest);
        assert(s.drop_first() =~= shorter + seq![' '] + rest);
    } else {
        assert(s[0] == ' ');
    }
}

/// The keyword of every operation but the checkpoint, which is spelled as a comment, stands
/// for it.
pub(crate) proof fn lemma_keyword(op: Operation)
    requires
        !(op is Checkpoint),
    ensures
        keyword(op_name(op)) == Some(op),
        op_name(op).len() > 0,
        forall|k: int| 0 <= k < op_name(op).len() ==> 'A' <= #[trigger] op_name(op)[k] <= 'Z',
{
    reveal_strlit("FROM");
    reveal_strlit("ARG");
    reveal_strlit("ENV");
    reveal_strlit("RUN");
    reveal_strlit("WORKDIR");
    reveal_strlit("COPY");
    reveal_strlit("ADD");
    reveal_strlit("LABEL");
    reveal_strlit("USER");
    reveal_strlit("ENTRYPOINT");
    reveal_strlit("CMD");
    reveal_strlit("EXPOSE");
    reveal_strlit("VOLUME");
    reveal_strlit("STOPSIGNAL");
    reveal_strlit("HEALTHCHECK");
    assert("ARG"@.len() == 3 && "ENV"@.len() == 3 && "RUN"@.len() == 3 && "ADD"@.len() == 3);
    assert("CMD"@.len() == 3 && "FROM"@.len() == 4 && "COPY"@.len() == 4 && "USER"@.len() == 4);
    assert("LABEL"@.len() == 5 && "EXPOSE"@.len() == 6 && "VOLUME"@.len() == 6);
    assert("WORKDIR"@.len() == 7 && "ENTRYPOINT"@.len() == 10 && "STOPSIGNAL"@.len() == 10);
    assert("HEALTHCHECK"@.len() == 11);
    assert("ARG"@[1] == 'R' && "ENV"@[1] == 'N' && "RUN"@[1] == 'U' && "ADD"@[1] == 'D');
    assert("CMD"@[1] == 'M' && "FROM"@[1] == 'R' && "COPY"@[1] == 'O' && "USER"@[1] == 'S');
    assert("EXPOSE"@[1] == 'X' && "VOLUME"@[1] == 'O');
    assert("ENTRYPOINT"@[1] == 'N' && "STOPSIGNAL"@[1] == 'T');
}

/// An instruction that is written with its keyword, a space and its arguments is read as
/// itself.
pub proof fn law_written_instruction_reads_back(op: Operation, args: Seq<char>)
    requires
        !(op is Checkpoint),
        args.len() > 0,
        !is_space(args[0]),
        !is_space(args.last()),
    ensures
        instruction(op_name(op) + seq![' '] + args) == Ok::<Instruction, DockerfileFailure>(
            (op, args),
        ),
{
    let name = op_name(op);
    let line = name + seq![' '] + args;
    lemma_keyword(op);
    assert forall|k: int| 0 <= k < name.len() implies !ends_name(#[trigger] name[k]) by {
        assert('A' <= name[k] <= 'Z');
    }
    lemma_name_end(name, args);
    assert(line.take(name.len() as int) =~= name);
    assert(line.skip(name.len() as int + 1) =~= args);
    assert('A' <= name[0] <= 'Z');
    assert('A' <= name[name.len() - 1] <= 'Z');
    lemma_trim_nothing(name);
    lemma_trim_nothing(args);
}

/// A line without the backslash that continues it.
pub open spec fn uncontinued(line: Seq<char>) -> Seq<char> {
    match strip_suffix(line, seq!['\\']) {
        Some(t) => t,
        None => line,
    }
}

/// The words of the lines from `i` on up to `next`.
pub open spec fn words_of_lines(ls: Seq<Seq<char>>, i: int, next: int) -> Seq<Seq<char>>
    decreases next - i,
{
    if i >= next {
        seq![]
    } else {
        words(uncontinued(ls[i])) + words_of_lines(ls, i + 1, next)
    }
}

proof fn lemma_closed_by_words(acc: Seq<char>, last: Seq<char>)
    ensures
        words(closed_by(acc, last)) == words(acc) + words(last),
{
    let none: Seq<char> = seq![];
    assert(words(none) =~= seq![]);
    if acc.len() == 0 {
        assert(acc =~= none);
        assert(acc + last =~= last);
        assert(words(acc) + words(last) =~= words(last));
    } else if last.len() == 0 {
        assert(last =~= none);
        assert(acc + last =~= acc);
        assert(words(acc) + words(last) =~= words(acc));
    } else if acc.last() == '\n' {
        let front = acc.drop_last();
        assert(acc =~= front + seq!['\n'] + none);
        assert(acc + last =~= front + seq!['\n'] + last);
        lemma_words_apart(front, '\n', none);
        lemma_words_apart(front, '\n', last);
        assert(words(front) + words(none) =~= words(front));
    } else {
        lemma_words_apart(acc, '\n', last);
    }
}

proof fn lemma_continued_words(ls: Seq<Seq<char>>, i: int, acc: Seq<char>)
    ensures
        continued(ls, i, acc) matches Some((line, next)) ==> words(line) == words(acc)
            + words_of_lines(ls, i, next),
    decreases ls.len() - i,
{
    if 0 <= i < ls.len() {
        let t = uncontinued(ls[i]);
        lemma_words_trim(t);
        lemma_continued(ls, i, acc);
        if let Some((line, next)) = continued(ls, i, acc) {
            if strip_suffix(ls[i], seq!['\\']) is Some {
                let more = acc + seq!['\n'] + trim(t);
                lemma_words_apart(acc, '\n', trim(t));
                lemma_continued_words(ls, i + 1, more);
                assert(words(acc) + words(t) + words_of_lines(ls, i + 1, next) =~= words(acc)
                    + words_of_lines(ls, i, next));
            } else {
                lemma_closed_by_words(acc, trim(t));
                assert(words_of_lines(ls, i + 1, next) =~= seq![]);
                assert(words(acc) + words(t) =~= words(acc) + words_of_lines(ls, i, next));
            }
        }
    }
}

/// A continued line has the words of all its lines, in order.
pub proof fn law_continued_line_has_all_words(ls: Seq<Seq<char>>, i: int)
    requires
        0 <= i < ls.len(),
    ensures
        logical(ls, i) matches Some((line, next)) ==> words(line) == words_of_lines(ls, i, next),
{
    let t = uncontinued(ls[i]);
    lemma_words_trim(t);
    if let Some((line, next)) = logical(ls, i) {
        if strip_suffix(ls[i], seq!['\\']) is Some {
            lemma_continued_words(ls, i + 1, trim(t));
            lemma_continued(ls, i + 1, trim(t));
        } else {
            assert(words_of_lines(ls, i + 1, next) =~= seq![]);
            assert(words(t) =~= words_of_lines(ls, i, next));
        }
    }
}

proof fn lemma_name_end_is_space(s: Seq<char>)
    ensures
        0 <= name_end(s) <= s.len(),
        name_end(s) < s.len() ==> ends_name(s[name_end(s)]),
    decreases s.len(),
{
    if s.len() > 0 && !ends_name(s[0]) {
        lemma_name_end_is_space(s.drop_first());
    }
}

/// An instruction has the words of its line: the first is its keyword, and the others are its
/// arguments.
pub proof fn law_instruction_has_all_words(line: Seq<char>)
    ensures
        instruction(line) matches Ok((op, args)) ==> words(line) == seq![op_name(op)] + words(args),
{
    let n = name_end(line);
    lemma_name_end_is_space(line);
    if let Ok((op, args)) = instruction(line) {
        let name = line.take(n);
        let rest = line.skip(n + 1);
        assert(line =~= name + seq![line[n]] + rest);
        lemma_words_apart(name, line[n], rest);
        lemma_words_trim(name);
        lemma_words_trim(rest);
        assert(!(op is Checkpoint) && trim(name) == op_name(op));
        lemma_keyword(op);
        assert forall|k: int| 0 <= k < op_name(op).len() implies !is_space(
            #[trigger] op_name(op)[k],
        ) by {
            assert('A' <= op_name(op)[k] <= 'Z');
        }
        lemma_one_word(op_name(op));
    }
}

/// An instruction that is continued over several lines has the words of all of them.
pub proof fn law_continued_instruction_has_all_words(ls: Seq<Seq<char>>, i: int)
    requires
        0 <= i < ls.len(),
    ensures
        logical(ls, i) matches Some((line, next)) ==> (instruction(line) matches Ok((op, args))
            ==> words_of_lines(ls, i, next) == seq![op_name(op)] + words(args)),
{
    law_continued_line_has_all_words(ls, i);
    if let Some((line, next)) = logical(ls, i) {
        law_instruction_has_all_words(line);
    }
}

} // verus!
