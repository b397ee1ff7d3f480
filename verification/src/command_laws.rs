//! Which command each instruction comes to, word by word.
use vstd::prelude::*;

use crate::actions::{step_args, step_state};
use crate::commands::{assignments, env_set, exec_form, first_without_value, flagged, from_parts};
use crate::copy::{has_url_source, is_url, operand_words};
use crate::errors::BuildFailure;
use crate::external::{command_line, json_array, json_strings, shell_words};
use crate::healthcheck::{health_test, health_words, retries_value, word_position};
use crate::state::{BuildState, Operation};
use crate::steps::Step;
use crate::text::{is_space, joined, split_once, trim, trim_start, words};
use crate::text_laws::{law_split_once, law_trim};

verus! {

/// The words of a command.
pub type Words = Seq<Seq<char>>;

// ---------------------------------------------------------------------------------------
// Flags
// ---------------------------------------------------------------------------------------
/// A list of values under a flag is the flag before each value, in the order of the values.
pub proof fn law_flag_stands_before_each_value(flag: Seq<char>, values: Seq<Seq<char>>, i: int)
    requires
        0 <= i < values.len(),
    ensures
        flagged(flag, values).len() == 2 * values.len(),
        flagged(flag, values)[2 * i] == flag,
        flagged(flag, values)[2 * i + 1] == values[i],
    decreases values.len(),
{
    lemma_flagged_len(flag, values.drop_last());
    if i < values.len() - 1 {
        law_flag_stands_before_each_value(flag, values.drop_last(), i);
    }
}

proof fn lemma_flagged_len(flag: Seq<char>, values: Seq<Seq<char>>)
    ensures
        flagged(flag, values).len() == 2 * values.len(),
    decreases values.len(),
{
    if values.len() > 0 {
        lemma_flagged_len(flag, values.drop_last());
    }
}

// ---------------------------------------------------------------------------------------
// Instructions that set one value
// ---------------------------------------------------------------------------------------
/// Each of the instructions that set one value of a container sets it under the flag of its
/// own: the working directory, the user, the entrypoint, the command, or the signal that stops
/// the container.
pub proof fn law_value_is_set_under_its_flag(step: Step, s: BuildState, c: Seq<char>)
    requires
        s.container == Some(c),
    ensures
        step.op is Workdir ==> step_args(step, s) == Ok::<Words, BuildFailure>(
            seq!["config"@, "--workingdir"@, step.line, c],
        ),
        step.op is User ==> step_args(step, s) == Ok::<Words, BuildFailure>(
            seq!["config"@, "--user"@, trim(step.line), c],
        ),
        step.op is Entrypoint ==> step_args(step, s) == Ok::<Words, BuildFailure>(
            seq!["config"@, "--entrypoint"@, exec_form(step.line), c],
        ),
        step.op is Cmd ==> step_args(step, s) == Ok::<Words, BuildFailure>(
            seq!["config"@, "--cmd"@, exec_form(step.line), c],
        ),
        step.op is StopSignal ==> step_args(step, s) == Ok::<Words, BuildFailure>(
            seq!["config"@, "--stop-signal"@, trim(step.line), c],
        ),
{
}

/// An ENTRYPOINT or CMD that is written as a JSON array stays as it is but for the white space
/// round it, and any other is handed to the shell as one argument.
pub proof fn law_exec_form(a: Seq<char>, text: Seq<char>, b: Seq<char>)
    requires
        forall|i: int| 0 <= i < a.len() ==> is_space(#[trigger] a[i]),
        forall|i: int| 0 <= i < b.len() ==> is_space(#[trigger] b[i]),
        text.len() > 0 && !is_space(text[0]) && !is_space(text.last()),
    ensures
        text[0] == '\u{5b}' ==> exec_form(a + text + b) == text,
        text[0] != '\u{5b}' ==> exec_form(a + text + b) == json_array(
            seq!["/bin/sh"@, "-c"@, text],
        ),
{
    law_trim(a, text, b);
    lemma_trim_start_front(a, text + b);
    assert(a + text + b =~= a + (text + b));
}

proof fn lemma_trim_start_front(a: Seq<char>, t: Seq<char>)
    requires
        forall|i: int| 0 <= i < a.len() ==> is_space(#[trigger] a[i]),
        t.len() > 0 && !is_space(t[0]),
    ensures
        trim_start(a + t) == t,
    decreases a.len(),
{
    if a.len() > 0 {
        let rest = a.drop_first();
        assert(is_space(a[0]));
        assert((a + t).drop_first() =~= rest + t);
        assert forall|i: int| 0 <= i < rest.len() implies is_space(#[trigger] rest[i]) by {
            assert(is_space(a[i + 1]));
        }
        lemma_trim_start_front(rest, t);
    } else {
        assert(a + t =~= t);
    }
}

// ---------------------------------------------------------------------------------------
// Instructions that set a list
// ---------------------------------------------------------------------------------------
/// A list of values with a flag before each of them.
pub open spec fn each_under(flag: Seq<char>, values: Words) -> Words {
    Seq::new(
        2 * values.len(),
        |k: int|
            if k % 2 == 0 {
                flag
            } else {
                values[k / 2]
            },
    )
}

proof fn lemma_each_under(flag: Seq<char>, values: Words)
    ensures
        flagged(flag, values) == each_under(flag, values),
{
    let f = flagged(flag, values);
    let g = each_under(flag, values);
    lemma_flagged_len(flag, values);
    assert forall|k: int| 0 <= k < g.len() implies f[k] == g[k] by {
        law_flag_stands_before_each_value(flag, values, k / 2);
    }
    assert(f =~= g);
}

/// Whether a command sets some values of a container under one flag: `config`, the flag before
/// each value, and the container.
pub open spec fn sets_list(r: Words, flag: Seq<char>, values: Words, c: Seq<char>) -> bool {
    r == seq!["config"@] + each_under(flag, values) + seq![c]
}

/// A command that is built with a flag before each of some values sets them.
pub proof fn lemma_sets_list(flag: Seq<char>, values: Words, c: Seq<char>)
    ensures
        sets_list(seq!["config"@] + flagged(flag, values) + seq![c], flag, values, c),
        values.len() > 0 ==> (seq!["config"@] + flagged(flag, values) + seq![c])[1] == flag,
{
    lemma_each_under(flag, values);
}

/// EXPOSE sets every word of its line as a port.
pub proof fn law_expose_command(step: Step, s: BuildState, c: Seq<char>)
    requires
        s.container == Some(c),
        step.op is Expose,
    ensures
        step_args(step, s) matches Ok(r) && sets_list(r, "--port"@, words(step.line), c),
{
    lemma_sets_list("--port"@, words(step.line), c);
}

/// LABEL sets every word of its line as a label, and fails only where the line cannot be split
/// into words.
pub proof fn law_label_command(step: Step, s: BuildState, c: Seq<char>)
    requires
        s.container == Some(c),
        step.op is Label,
    ensures
        match shell_words(step.line) {
            Some(ws) => step_args(step, s) matches Ok(r) && sets_list(r, "--label"@, ws, c),
            None => step_args(step, s) == Err::<Words, BuildFailure>(BuildFailure::Unbalanced),
        },
{
    if let Some(ws) = shell_words(step.line) {
        lemma_sets_list("--label"@, ws, c);
    }
}

/// VOLUME sets every string of a JSON array, or every word of any other line, as a volume.
pub proof fn law_volume_command(
    step: Step,
    s: BuildState,
    c: Seq<char>,
    a: Seq<char>,
    text: Seq<char>,
    b: Seq<char>,
)
    requires
        s.container == Some(c),
        step.op is Volume,
        step.line == a + text + b,
        forall|i: int| 0 <= i < a.len() ==> is_space(#[trigger] a[i]),
        forall|i: int| 0 <= i < b.len() ==> is_space(#[trigger] b[i]),
        text.len() > 0 && !is_space(text[0]) && !is_space(text.last()),
    ensures
        text[0] == '\u{5b}' ==> match json_strings(text) {
            Some(v) => step_args(step, s) matches Ok(r) && sets_list(r, "--volume"@, v, c),
            None => step_args(step, s) == Err::<Words, BuildFailure>(BuildFailure::BadVolumes),
        },
        text[0] != '\u{5b}' ==> match shell_words(step.line) {
            Some(v) => step_args(step, s) matches Ok(r) && sets_list(r, "--volume"@, v, c),
            None => step_args(step, s) == Err::<Words, BuildFailure>(BuildFailure::Unbalanced),
        },
{
    law_trim(a, text, b);
    lemma_trim_start_front(a, text + b);
    assert(a + text + b =~= a + (text + b));
    if let Some(v) = json_strings(text) {
        lemma_sets_list("--volume"@, v, c);
    }
    if let Some(v) = shell_words(step.line) {
        lemma_sets_list("--volume"@, v, c);
    }
}

/// ENV sets every word of its line as a variable. Where one of them has no equals sign, the
/// first such word is refused and nothing is set.
pub proof fn law_env_command(step: Step, s: BuildState, c: Seq<char>, ws: Words)
    requires
        s.container == Some(c),
        step.op is Env,
        shell_words(step.line) == Some(ws),
    ensures
        (forall|i: int| 0 <= i < ws.len() ==> (#[trigger] ws[i]).contains('=')) ==> (step_args(
            step,
            s,
        ) matches Ok(r) && sets_list(r, "--env"@, ws, c)),
        forall|i: int|
            0 <= i < ws.len() && !(#[trigger] ws[i]).contains('=') && (forall|j: int|
                0 <= j < i ==> (#[trigger] ws[j]).contains('=')) ==> step_args(step, s) == Err::<
                Words,
                BuildFailure,
            >(BuildFailure::NotKeyValue { word: ws[i] }),
{
    lemma_sets_list("--env"@, ws, c);
    law_first_word_without_value(ws);
    assert forall|i: int|
        0 <= i < ws.len() && !(#[trigger] ws[i]).contains('=') && (forall|j: int|
            0 <= j < i ==> (#[trigger] ws[j]).contains('=')) implies step_args(step, s) == Err::<
        Words,
        BuildFailure,
    >(BuildFailure::NotKeyValue { word: ws[i] }) by {
        match first_without_value(ws) {
            Some(w) => {
                let k = choose|k: int|
                    0 <= k < ws.len() && ws[k] == w && !w.contains('=') && forall|j: int|
                        0 <= j < k ==> (#[trigger] ws[j]).contains('=');
                assert(k == i);
            },
            None => {},
        }
    }
}

proof fn lemma_equals(w: Seq<char>)
    ensures
        split_once(w, "="@) is Some == w.contains('='),
{
    reveal_strlit("=");
    assert("="@ =~= seq!['=']);
    law_split_once(w, "="@);
    match split_once(w, "="@) {
        Some((a, b)) => {
            assert(w[a.len() as int] == '=');
        },
        None => {
            if w.contains('=') {
                let i = choose|i: int| 0 <= i < w.len() && w[i] == '=';
                assert(w.subrange(i, i + 1) =~= "="@);
            }
        },
    }
}

/// The word that is refused is the first one without an equals sign, and none is refused where
/// every word has one.
pub proof fn law_first_word_without_value(ws: Words)
    ensures
        match first_without_value(ws) {
            Some(w) => exists|k: int|
                0 <= k < ws.len() && #[trigger] ws[k] == w && !w.contains('=') && forall|j: int|
                    0 <= j < k ==> (#[trigger] ws[j]).contains('='),
            None => forall|k: int| 0 <= k < ws.len() ==> (#[trigger] ws[k]).contains('='),
        },
    decreases ws.len(),
{
    if ws.len() > 0 {
        lemma_equals(ws[0]);
        if ws[0].contains('=') {
            let rest = ws.drop_first();
            law_first_word_without_value(rest);
            match first_without_value(rest) {
                Some(w) => {
                    let k = choose|k: int|
                        0 <= k < rest.len() && #[trigger] rest[k] == w && !w.contains('=')
                            && forall|j: int|
                            0 <= j < k ==> (#[trigger] rest[j]).contains('=');
                    assert(ws[k + 1] == w);
                    assert forall|j: int| 0 <= j < k + 1 implies (#[trigger] ws[j]).contains(
                        '=',
                    ) by {
                        if j > 0 {
                            assert(rest[j - 1] == ws[j]);
                        }
                    }
                },
                None => {
                    assert forall|k: int| 0 <= k < ws.len() implies (#[trigger] ws[k]).contains(
                        '=',
                    ) by {
                        if k > 0 {
                            assert(rest[k - 1] == ws[k]);
                        }
                    }
                },
            }
        }
    }
}

// ---------------------------------------------------------------------------------------
// RUN
// ---------------------------------------------------------------------------------------
/// RUN runs its line in a shell in the container, as it is written, with every build argument
/// in its environment and with the network of the build, if one is given.
pub proof fn law_run_command(step: Step, s: BuildState, c: Seq<char>)
    requires
        s.container == Some(c),
        step.op is Run,
    ensures
        ({
            let k: int = if s.network is Some {
                2
            } else {
                0
            };
            let n = step.args.len() as int;
            step_args(step, s) matches Ok(r) && {
                &&& r.len() == k + 2 * n + 6
                &&& r[0] == "run"@
                &&& s.network matches Some(net) ==> r[1] == "--network"@ && r[2] == net
                &&& r.subrange(k + 1, k + 2 * n + 1) == each_under(
                    "--env"@,
                    Seq::new(step.args.len(), |i: int| step.args[i].0 + "="@ + step.args[i].1),
                )
                &&& r.skip(k + 2 * n + 1) == seq![c, "--"@, "sh"@, "-c"@, step.line]
            }
        }),
{
    let k: int = if s.network is Some {
        2
    } else {
        0
    };
    let n = step.args.len() as int;
    let env = assignments(step.args);
    let f = flagged("--env"@, env);
    lemma_flagged_len("--env"@, env);
    let r = step_args(step, s)->Ok_0;
    lemma_each_under("--env"@, env);
    assert(env =~= Seq::new(step.args.len(), |i: int| step.args[i].0 + "="@ + step.args[i].1));
    assert(r.subrange(k + 1, k + 2 * n + 1) =~= f);
    assert(r.skip(k + 2 * n + 1) =~= seq![c, "--"@, "sh"@, "-c"@, step.line]);
}

// ---------------------------------------------------------------------------------------
// FROM and CHECKPOINT
// ---------------------------------------------------------------------------------------
/// What stands before the first ` AS ` of a FROM line names the image, and what stands behind
/// it the stage; a line without ` AS ` names the image only.
pub proof fn law_from_line(line: Seq<char>, a: Seq<char>, b: Seq<char>)
    ensures
        split_once(line, " AS "@) == Some((a, b)) ==> from_parts(line) == (trim(a), Some(trim(b))),
        split_once(line, " AS "@) is None ==> from_parts(line) == (line, None::<Seq<char>>),
{
}

/// FROM makes a container of the image of the named stage where the line names one, and of the
/// image of that name otherwise, in the format of the build, if one is given.
pub proof fn law_from_command(step: Step, s: BuildState)
    requires
        step.op is From,
    ensures
        ({
            let name = from_parts(step.line).0;
            let image = if s.as_images.dom().contains(name) {
                s.as_images[name]
            } else {
                name
            };
            match s.format {
                None => step_args(step, s) == Ok::<Words, BuildFailure>(seq!["from"@, image]),
                Some(f) => step_args(step, s) == Ok::<Words, BuildFailure>(
                    seq!["from"@, "--format"@, f, image],
                ),
            }
        }),
{
    let r = step_args(step, s)->Ok_0;
    match s.format {
        None => {
            assert(r =~= seq!["from"@, r.last()]);
        },
        Some(f) => {
            assert(r =~= seq!["from"@, "--format"@, f, r.last()]);
        },
    }
}

/// A checkpoint makes a container of the image that the chunk before it became.
pub proof fn law_checkpoint_command(step: Step, s: BuildState)
    requires
        step.op is Checkpoint,
    ensures
        step_args(step, s) == Ok::<Words, BuildFailure>(seq!["from"@, s.last_id]),
{
}

// ---------------------------------------------------------------------------------------
// COPY and ADD
// ---------------------------------------------------------------------------------------
/// COPY copies its operands, in their order, into the container: out of the image of the stage
/// or name that `--from` gives, or else out of the build context.
pub proof fn law_copy_command(
    step: Step,
    s: BuildState,
    c: Seq<char>,
    ws: Words,
    options: Seq<Option<Seq<char>>>,
    operands: Seq<Words>,
)
    requires
        s.container == Some(c),
        step.op is Copy,
        shell_words(step.line) == Some(ws),
        command_line("copy"@, seq!["from"@], seq!["rest"@], ws) == Some((options, operands)),
    ensures
        match options[0] {
            None => step_args(step, s) == Ok::<Words, BuildFailure>(
                seq!["copy"@, "--contextdir"@, s.context_dir, c] + operands[0],
            ),
            Some(name) => step_args(step, s) == Ok::<Words, BuildFailure>(
                seq![
                    "copy"@,
                    "--from"@,
                    if s.as_images.dom().contains(name) {
                        s.as_images[name]
                    } else {
                        name
                    },
                    c,
                ] + operands[0],
            ),
        },
{
    let r = step_args(step, s)->Ok_0;
    match options[0] {
        None => {
            assert(r =~= seq!["copy"@, "--contextdir"@, s.context_dir, c] + operands[0]);
        },
        Some(name) => {
            assert(r =~= seq!["copy"@, "--from"@, s.image_for(name), c] + operands[0]);
        },
    }
}

/// ADD adds its operands, in their order, to the container: out of the image of the stage or
/// name that `--from` gives, or else out of the build context unless one of its sources is a
/// URL. A checksum is handed on.
pub proof fn law_add_command(
    step: Step,
    s: BuildState,
    c: Seq<char>,
    ws: Words,
    options: Seq<Option<Seq<char>>>,
    operands: Seq<Words>,
)
    requires
        s.container == Some(c),
        step.op is Add,
        shell_words(step.line) == Some(ws),
        command_line("add"@, seq!["from"@, "checksum"@], seq!["rest"@], ws) == Some(
            (options, operands),
        ),
    ensures
        step_args(step, s) matches Ok(r) && {
            let place = match options[0] {
                Some(name) => seq![
                    "--from"@,
                    if s.as_images.dom().contains(name) {
                        s.as_images[name]
                    } else {
                        name
                    },
                ],
                None => if exists|i: int|
                    0 <= i < operands[0].len() - 1 && is_url(#[trigger] operands[0][i]) {
                    seq![]
                } else {
                    seq!["--contextdir"@, s.context_dir]
                },
            };
            match options[1] {
                None => r == seq!["add"@] + place + seq![c] + operands[0],
                Some(sum) => r == seq!["add"@] + place + seq!["--checksum"@, sum, c] + operands[0],
            }
        },
{
    let r = step_args(step, s)->Ok_0;
    let place = match options[0] {
        Some(name) => seq!["--from"@, s.image_for(name)],
        None => if has_url_source(operands[0]) {
            seq![]
        } else {
            seq!["--contextdir"@, s.context_dir]
        },
    };
    match options[1] {
        None => {
            assert(r =~= seq!["add"@] + place + seq![c] + operands[0]);
        },
        Some(sum) => {
            assert(r =~= seq!["add"@] + place + seq!["--checksum"@, sum, c] + operands[0]);
        },
    }
}

/// What `http://` or `https://` stands in front of is a URL, and nothing else is.
pub proof fn law_url(rest: Seq<char>, source: Seq<char>)
    ensures
        is_url("http://"@ + rest),
        is_url("https://"@ + rest),
        is_url(source) ==> exists|t: Seq<char>|
            source == #[trigger] ("http://"@ + t) || source == "https://"@ + t,
{
    let p = "http://"@;
    let q = "https://"@;
    assert(p =~= (p + rest).subrange(0, p.len() as int));
    assert(q =~= (q + rest).subrange(0, q.len() as int));
    if p.is_prefix_of(source) {
        let t = source.skip(p.len() as int);
        assert(source =~= p + t);
    } else if q.is_prefix_of(source) {
        let t = source.skip(q.len() as int);
        assert(source =~= q + t);
        assert(p + t == "http://"@ + t);
    }
}

/// The words of an ADD line that are no flags keep their order, and a word is a flag exactly
/// where it starts with a hyphen.
pub proof fn law_operand_words(ws: Words, w: Seq<char>)
    ensures
        operand_words(seq![]) == Seq::<Seq<char>>::empty(),
        w.len() > 0 && w[0] == '-' ==> operand_words(ws.push(w)) == operand_words(ws),
        w.len() == 0 || w[0] != '-' ==> operand_words(ws.push(w)) == operand_words(ws).push(w),
{
    assert(ws.push(w).drop_last() =~= ws);
}

// ---------------------------------------------------------------------------------------
// HEALTHCHECK
// ---------------------------------------------------------------------------------------
/// HEALTHCHECK NONE takes the health check away.
pub proof fn law_health_check_is_taken_away(step: Step, s: BuildState, c: Seq<char>)
    requires
        s.container == Some(c),
        step.op is HealthCheck,
        trim(step.line) == "NONE"@,
    ensures
        step_args(step, s) == Ok::<Words, BuildFailure>(
            seq!["config"@, "--healthcheck"@, "NONE"@, c],
        ),
{
}

/// Whether a command sets a health check with given options, where they are given, and a given
/// test.
pub open spec fn sets_health_check(
    r: Words,
    interval: Option<Seq<char>>,
    timeout: Option<Seq<char>>,
    start: Option<Seq<char>>,
    retries: Option<Seq<char>>,
    test: Seq<char>,
    c: Seq<char>,
) -> bool {
    let a: Words = if interval is Some {
        seq!["--healthcheck-interval"@, interval->0]
    } else {
        seq![]
    };
    let b: Words = if timeout is Some {
        seq!["--healthcheck-timeout"@, timeout->0]
    } else {
        seq![]
    };
    let d: Words = if start is Some {
        seq!["--healthcheck-start-period"@, start->0]
    } else {
        seq![]
    };
    let e: Words = if retries is Some {
        seq!["--healthcheck-retries"@, retries->0]
    } else {
        seq![]
    };
    r == seq!["config"@] + a + b + d + e + seq!["--healthcheck"@, test, c]
}

/// HEALTHCHECK sets the options that stand before the first word CMD, each under the flag of its
/// own, and the test that the words behind it make. The count of retries is written out as the
/// number that it denotes, and is refused where it denotes none. A line without the word CMD is
/// refused.
pub proof fn law_health_command(step: Step, s: BuildState, c: Seq<char>, ws: Words, at: int)
    requires
        s.container == Some(c),
        step.op is HealthCheck,
        trim(step.line) != "NONE"@,
        shell_words(trim(step.line)) == Some(ws),
    ensures
        !ws.contains("CMD"@) ==> step_args(step, s) == Err::<Words, BuildFailure>(
            BuildFailure::NoHealthCommand { line: step.line },
        ),
        0 <= at < ws.len() && ws[at] == "CMD"@ && !ws.take(at).contains("CMD"@) ==> match command_line(
            "healthcheck"@,
            seq!["interval"@, "timeout"@, "start-period"@, "retries"@],
            seq![],
            ws.take(at),
        ) {
            None => step_args(step, s) == Err::<Words, BuildFailure>(BuildFailure::BadOptions),
            Some((options, _)) => match options[3] {
                None => step_args(step, s) matches Ok(r) && sets_health_check(
                    r,
                    options[0],
                    options[1],
                    options[2],
                    None,
                    health_test(ws.skip(at + 1)),
                    c,
                ),
                Some(n) => match retries_value(n) {
                    None => step_args(step, s) == Err::<Words, BuildFailure>(
                        BuildFailure::BadOptions,
                    ),
                    Some(v) => step_args(step, s) matches Ok(r) && sets_health_check(
                        r,
                        options[0],
                        options[1],
                        options[2],
                        Some(crate::text::decimal(v)),
                        health_test(ws.skip(at + 1)),
                        c,
                    ),
                },
            },
        },
{
    lemma_word_position(ws, "CMD"@, 0);
    if 0 <= at < ws.len() && ws[at] == "CMD"@ && !ws.take(at).contains("CMD"@) {
        match word_position(ws, "CMD"@, 0) {
            Some(p) => {
                if p < at {
                    assert(ws.take(at)[p] == "CMD"@);
                }
                assert(p == at);
            },
            None => {},
        }
        assert(health_words(step.line, ws, c) == step_args(step, s));
    }
    if !ws.contains("CMD"@) {
        if let Some(p) = word_position(ws, "CMD"@, 0) {
            assert(ws.contains(ws[p]));
        }
    }
}

proof fn lemma_word_position(ws: Words, w: Seq<char>, from: int)
    requires
        0 <= from,
    ensures
        match word_position(ws, w, from) {
            Some(p) => from <= p < ws.len() && ws[p] == w && forall|j: int|
                from <= j < p ==> #[trigger] ws[j] != w,
            None => forall|j: int| from <= j < ws.len() ==> #[trigger] ws[j] != w,
        },
    decreases ws.len() - from,
{
    if from < ws.len() && ws[from] != w {
        lemma_word_position(ws, w, from + 1);
    }
}

/// The words of a test stand in their order with a space between each two. What then starts with
/// a bracket is run as it is, and any other test by the shell.
pub proof fn law_health_test(ws: Words)
    ensures
        ({
            let line = joined(ws, " "@);
            let t = trim_start(line);
            if t.len() > 0 && t[0] == '\u{5b}' {
                health_test(ws) == "CMD "@ + line
            } else {
                health_test(ws) == "CMD-SHELL "@ + line
            }
        }),
{
}

// ---------------------------------------------------------------------------------------
// All instructions
// ---------------------------------------------------------------------------------------
/// No instruction that works on a container comes to a command before there is one. The error
/// names the instruction.
pub proof fn law_container_is_needed(step: Step, s: BuildState)
    requires
        s.container is None,
        !(step.op is From),
        !(step.op is Checkpoint),
    ensures
        step_args(step, s) is Err,
        step.op is Run || step.op is Workdir || step.op is User || step.op is Entrypoint
            || step.op is Cmd || step.op is StopSignal || step.op is Expose || step.op is Volume
            || step.op is HealthCheck ==> step_args(step, s) == Err::<Words, BuildFailure>(
            BuildFailure::NoContainer { op: step.op },
        ),
{
}

/// Whether an operation sets a property of the container.
pub open spec fn sets_property(op: Operation) -> bool {
    op is Env || op is Workdir || op is Label || op is User || op is Entrypoint || op is Cmd
        || op is Expose || op is Volume || op is StopSignal
}

/// The flag of an operation that sets a property of the container.
pub open spec fn property_flag(op: Operation) -> Seq<char> {
    match op {
        Operation::Env => "--env"@,
        Operation::Workdir => "--workingdir"@,
        Operation::Label => "--label"@,
        Operation::User => "--user"@,
        Operation::Entrypoint => "--entrypoint"@,
        Operation::Cmd => "--cmd"@,
        Operation::Expose => "--port"@,
        Operation::Volume => "--volume"@,
        _ => "--stop-signal"@,
    }
}

proof fn lemma_property_flag(step: Step, s: BuildState, r: Words)
    requires
        sets_property(step.op),
        step_args(step, s) == Ok::<Words, BuildFailure>(r),
        r.len() > 2,
    ensures
        r[0] == "config"@,
        r[1] == property_flag(step.op),
{
    if let Some(c) = s.container {
        if let Some(ws) = shell_words(step.line) {
            lemma_sets_list(property_flag(step.op), ws, c);
        }
        if let Some(v) = json_strings(trim(step.line)) {
            lemma_sets_list(property_flag(step.op), v, c);
        }
        lemma_sets_list(property_flag(step.op), words(step.line), c);
    } else {
        law_container_is_needed(step, s);
    }
}

/// Two different instructions never set the same property of a container: their commands hold
/// different flags.
pub proof fn law_operations_set_different_properties(
    a: Step,
    s: BuildState,
    x: Words,
    b: Step,
    t: BuildState,
    y: Words,
)
    requires
        sets_property(a.op),
        sets_property(b.op),
        a.op != b.op,
        step_args(a, s) == Ok::<Words, BuildFailure>(x),
        step_args(b, t) == Ok::<Words, BuildFailure>(y),
        x.len() > 2,
        y.len() > 2,
    ensures
        x[0] == y[0],
        x[1] != y[1],
{
    lemma_property_flag(a, s, x);
    lemma_property_flag(b, t, y);
    reveal_strlit("--env");
    reveal_strlit("--workingdir");
    reveal_strlit("--label");
    reveal_strlit("--user");
    reveal_strlit("--entrypoint");
    reveal_strlit("--cmd");
    reveal_strlit("--port");
    reveal_strlit("--volume");
    reveal_strlit("--stop-signal");
    let f = property_flag(a.op);
    let g = property_flag(b.op);
    assert(f[2] != g[2] || f.len() != g.len());
}

/// An instruction changes nothing of the build but ENV, which changes the environment of the
/// stage and nothing else.
pub proof fn law_command_changes_the_environment_only(step: Step, s: BuildState)
    ensures
        !(step.op is Env) ==> step_state(step, s) == s,
        step_state(step, s).stage.args == s.stage.args,
        step_state(step, s).global == s.global,
        step_state(step, s).container == s.container,
        step_state(step, s).last_id == s.last_id,
        step_state(step, s).as_images == s.as_images,
        step_state(step, s).cur_as == s.cur_as,
{
    if let Some(ws) = shell_words(step.line) {
        lemma_env_keeps_args(s.stage, ws);
    }
}

proof fn lemma_env_keeps_args(vars: crate::state::Vars, ws: Words)
    ensures
        env_set(vars, ws).args == vars.args,
    decreases ws.len(),
{
    if ws.len() > 0 {
        if let Some((k, v)) = split_once(ws[0], "="@) {
            lemma_env_keeps_args(vars.with_env(k, v), ws.drop_first());
        }
    }
}

/// When an ENV instruction is executed, the words of its line are set as variables of the stage,
/// up to the first that has no equals sign.
pub proof fn law_env_step_sets_its_variables(step: Step, s: BuildState)
    requires
        step.op is Env,
    ensures
        match shell_words(step.line) {
            Some(ws) => step_state(step, s).stage == env_set(s.stage, ws),
            None => step_state(step, s).stage == s.stage,
        },
{
}

/// An ENTRYPOINT or CMD without a text is handed to the shell as an empty argument.
pub proof fn law_blank_exec_form(blank: Seq<char>)
    requires
        forall|i: int| 0 <= i < blank.len() ==> is_space(#[trigger] blank[i]),
    ensures
        exec_form(blank) == json_array(seq!["/bin/sh"@, "-c"@, Seq::<char>::empty()]),
{
    let none = Seq::<char>::empty();
    law_trim(blank, none, none);
    assert(blank + none + none =~= blank);
    lemma_trim_start_all(blank);
}

proof fn lemma_trim_start_all(s: Seq<char>)
    requires
        forall|i: int| 0 <= i < s.len() ==> is_space(#[trigger] s[i]),
    ensures
        trim_start(s).len() == 0,
    decreases s.len(),
{
    if s.len() > 0 {
        assert(is_space(s[0]));
        assert forall|i: int| 0 <= i < s.drop_first().len() implies is_space(
            #[trigger] s.drop_first()[i],
        ) by {
            assert(is_space(s[i + 1]));
        }
        lemma_trim_start_all(s.drop_first());
    }
}

/// A COPY, ADD, ENV, LABEL or HEALTHCHECK line that cannot be split into words comes to no command,
/// and neither does a COPY or ADD line with options that the instruction does not have.
pub proof fn law_lines_without_a_command(step: Step, s: BuildState, ws: Words)
    ensures
        shell_words(step.line) is None && (step.op is Copy || step.op is Add || step.op is Env
            || step.op is Label) ==> step_args(step, s) == Err::<Words, BuildFailure>(
            BuildFailure::Unbalanced,
        ),
        shell_words(step.line) == Some(ws) && step.op is Copy && command_line(
            "copy"@,
            seq!["from"@],
            seq!["rest"@],
            ws,
        ) is None ==> step_args(step, s) == Err::<Words, BuildFailure>(BuildFailure::BadOptions),
        shell_words(step.line) == Some(ws) && step.op is Add && command_line(
            "add"@,
            seq!["from"@, "checksum"@],
            seq!["rest"@],
            ws,
        ) is None ==> step_args(step, s) == Err::<Words, BuildFailure>(BuildFailure::BadOptions),
        step.op is Arg ==> step_args(step, s) is Err,
{
}

/// A VOLUME line of white space is split into words like any other that is no JSON array.
pub proof fn law_blank_volume(step: Step, s: BuildState, c: Seq<char>)
    requires
        s.container == Some(c),
        step.op is Volume,
        forall|i: int| 0 <= i < step.line.len() ==> is_space(#[trigger] step.line[i]),
    ensures
        match shell_words(step.line) {
            Some(v) => step_args(step, s) matches Ok(r) && sets_list(r, "--volume"@, v, c),
            None => step_args(step, s) == Err::<Words, BuildFailure>(BuildFailure::Unbalanced),
        },
{
    lemma_trim_start_all(step.line);
    if let Some(v) = shell_words(step.line) {
        lemma_sets_list("--volume"@, v, c);
    }
}

} // verus!
