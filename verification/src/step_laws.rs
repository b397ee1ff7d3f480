//! What holds of the preparation and the hash of steps.
use vstd::bytes::{lemma_auto_spec_u64_to_from_le_bytes, spec_u64_to_le_bytes};
use vstd::prelude::*;
use vstd::seq_lib::group_to_multiset_ensures;
use vstd::utf8::{encode_scalar, encode_utf8, encode_utf8_decode_utf8, has_width_1_encoding};

use crate::command_laws::law_first_word_without_value;
use crate::commands::{env_set, first_without_value};
use crate::digests::{
    byte_order, chained, contents_record, lemma_byte_order, lemma_chained_injective,
    lemma_chained_len, zero_free,
};
use crate::errors::BuildFailure;
use crate::external::shell_words;
use crate::parse::{lemma_keyword, Instruction};
use crate::state::{op_name, Operation, Vars};
use crate::steps::{
    arg_word, args_record, args_set, brings_files, copies, copy_record, defaults_set, plain_step,
    preamble, prepared, prepared_all, step_record, steps_record, tag, Step,
};
use crate::substitute::{expand, law_variable_is_replaced_in_front};
use crate::text::split_once;
use crate::text_laws::law_split_at_character;
use crate::textmap::{ascending, holds_at, lemma_listing, map_of, Entry};

verus! {

// ---------------------------------------------------------------------------------------
// Defaults
// ---------------------------------------------------------------------------------------
proof fn lemma_defaults_keep(vars: Vars, ws: Seq<Seq<char>>, key: Seq<char>)
    requires
        vars.args.dom().contains(key),
    ensures
        defaults_set(vars, ws).args.dom().contains(key),
        defaults_set(vars, ws).args[key] == vars.args[key],
    decreases ws.len(),
{
    if ws.len() > 0 {
        if let Some((k, v)) = split_once(ws[0], "="@) {
            let next = if vars.args.dom().contains(k) {
                vars
            } else {
                vars.with_arg(k, v)
            };
            lemma_defaults_keep(next, ws.drop_first(), key);
        }
    }
}

/// What stands before the first FROM only provides defaults: a build argument that was given
/// keeps its value.
pub proof fn law_given_arguments_are_kept(ops: Seq<Instruction>, global: Vars, key: Seq<char>)
    requires
        global.args.dom().contains(key),
    ensures
        preamble(ops, global).0.args.dom().contains(key),
        preamble(ops, global).0.args[key] == global.args[key],
    decreases ops.len(),
{
    if ops.len() > 0 {
        law_given_arguments_are_kept(ops.drop_last(), global, key);
        let (before, failure) = preamble(ops.drop_last(), global);
        let (op, line) = ops.last();
        if failure is None && op is Arg {
            if let Ok(text) = crate::substitute::expand(line, before) {
                if let Some(ws) = crate::external::shell_words(text) {
                    lemma_defaults_keep(before, ws, key);
                }
            }
        }
    }
}

// ---------------------------------------------------------------------------------------
// Files
// ---------------------------------------------------------------------------------------
/// Every digest has the length of a BLAKE3 digest.
pub open spec fn are_digests(files: Seq<Seq<u8>>) -> bool {
    files.len() <= u64::MAX && forall|i: int|
        0 <= i < files.len() ==> (#[trigger] files[i]).len() == 32
}

/// Each of several lists is one of digests.
pub open spec fn are_lists(files: Seq<Seq<Seq<u8>>>) -> bool {
    forall|i: int| 0 <= i < files.len() ==> are_digests(#[trigger] files[i])
}

/// The record of some steps, taken apart behind the first.
pub open spec fn from_front(steps: Seq<Step>, files: Seq<Seq<Seq<u8>>>) -> Seq<u8> {
    if brings_files(steps[0].op) {
        step_record(steps[0], contents_record(files[0])) + steps_record(
            steps.drop_first(),
            files.drop_first(),
        )
    } else {
        step_record(steps[0], seq![]) + steps_record(steps.drop_first(), files)
    }
}

proof fn lemma_from_front(steps: Seq<Step>, files: Seq<Seq<Seq<u8>>>)
    requires
        steps.len() > 0,
        files.len() == copies(steps),
    ensures
        steps_record(steps, files) == from_front(steps, files),
        copies(steps) == copies(steps.drop_first()) + (if brings_files(steps[0].op) {
            1nat
        } else {
            0
        }),
    decreases steps.len(),
{
    let last = steps.last();
    let front = steps.drop_last();
    if steps.len() == 1 {
        assert(front =~= seq![]);
        assert(steps.drop_first() =~= seq![]);
        assert(copies(front) == 0);
        if brings_files(last.op) {
            assert(files.len() == 1);
            assert(files.drop_last() =~= seq![]);
            assert(files.drop_first() =~= seq![]);
            assert(files.last() == files[0]);
        }
        assert(steps_record(steps, files) =~= from_front(steps, files));
    } else {
        assert(steps.drop_first().drop_last() =~= front.drop_first());
        assert(steps.drop_first().last() == last);
        assert(front[0] == steps[0]);
        if brings_files(last.op) {
            let fewer = files.drop_last();
            lemma_from_front(front, fewer);
            if brings_files(steps[0].op) {
                lemma_copies_positive(front);
                assert(fewer[0] == files[0]);
                assert(files.drop_first().drop_last() =~= fewer.drop_first());
                assert(files.drop_first().last() == files.last());
            }
        } else {
            lemma_from_front(front, files);
        }
        assert(steps_record(steps, files) =~= from_front(steps, files));
    }
}

proof fn lemma_copies_positive(steps: Seq<Step>)
    requires
        steps.len() > 0,
        brings_files(steps[0].op),
    ensures
        copies(steps) > 0,
    decreases steps.len(),
{
    if steps.len() > 1 {
        assert(steps.drop_last()[0] == steps[0]);
        lemma_copies_positive(steps.drop_last());
    }
}

/// The record of the files of a step tells where it ends: two that are followed by anything
/// are the same only where the digests are the same.
proof fn lemma_contents_end(a: Seq<Seq<u8>>, x: Seq<u8>, b: Seq<Seq<u8>>, y: Seq<u8>)
    requires
        are_digests(a),
        are_digests(b),
        contents_record(a) + x == contents_record(b) + y,
    ensures
        a.to_multiset() == b.to_multiset(),
        x == y,
{
    broadcast use group_to_multiset_ensures;

    let leq = byte_order();
    let p = a.sort_by(leq);
    let q = b.sort_by(leq);
    lemma_byte_order();
    a.lemma_sort_by_ensures(leq);
    b.lemma_sort_by_ensures(leq);
    assert(a.len() == a.to_multiset().len());
    assert(b.len() == b.to_multiset().len());
    assert(p.len() == p.to_multiset().len());
    assert(q.len() == q.to_multiset().len());
    assert forall|i: int| 0 <= i < p.len() implies (#[trigger] p[i]).len() == 32 by {
        assert(p.contains(p[i]));
        assert(a.contains(p[i]));
    }
    assert forall|i: int| 0 <= i < q.len() implies (#[trigger] q[i]).len() == 32 by {
        assert(q.contains(q[i]));
        assert(b.contains(q[i]));
    }
    lemma_auto_spec_u64_to_from_le_bytes();
    lemma_chained_len(p);
    lemma_chained_len(q);
    let m = spec_u64_to_le_bytes(a.len() as u64);
    let n = spec_u64_to_le_bytes(b.len() as u64);
    let s = contents_record(a) + x;
    let t = contents_record(b) + y;
    assert(m =~= s.take(8));
    assert(n =~= t.take(8));
    assert(a.len() == b.len());
    let end = 8 + 32 * a.len();
    assert(chained(p) =~= s.subrange(8, end as int));
    assert(chained(q) =~= t.subrange(8, end as int));
    assert(x =~= s.skip(end as int));
    assert(y =~= t.skip(end as int));
    lemma_chained_injective(p, q);
}

/// A change in the files that a COPY or ADD instruction brings is a change in what its chunk
/// is hashed from: two records of the same steps are the same only where every step brings
/// files with the same digests.
pub proof fn law_changed_files_change_what_is_hashed(
    steps: Seq<Step>,
    a: Seq<Seq<Seq<u8>>>,
    b: Seq<Seq<Seq<u8>>>,
    at: int,
)
    requires
        a.len() == copies(steps),
        b.len() == copies(steps),
        are_lists(a),
        are_lists(b),
        0 <= at < a.len(),
        a[at].to_multiset() != b[at].to_multiset(),
    ensures
        steps_record(steps, a) != steps_record(steps, b),
{
    if steps_record(steps, a) == steps_record(steps, b) {
        lemma_same_record(steps, a, b, at);
    }
}

proof fn lemma_same_record(
    steps: Seq<Step>,
    a: Seq<Seq<Seq<u8>>>,
    b: Seq<Seq<Seq<u8>>>,
    at: int,
)
    requires
        a.len() == copies(steps),
        b.len() == copies(steps),
        are_lists(a),
        are_lists(b),
        0 <= at < a.len(),
        steps_record(steps, a) == steps_record(steps, b),
    ensures
        a[at].to_multiset() == b[at].to_multiset(),
    decreases steps.len(),
{
    if steps.len() > 0 {
        lemma_from_front(steps, a);
        lemma_from_front(steps, b);
        let rest = steps.drop_first();
        if brings_files(steps[0].op) {
            let n = copy_record(steps[0].op, steps[0].line).len() as int;
            let x = steps_record(rest, a.drop_first());
            let y = steps_record(rest, b.drop_first());
            assert(are_digests(a[0]));
            assert(are_digests(b[0]));
            assert(steps_record(steps, a).skip(n) =~= contents_record(a[0]) + x);
            assert(steps_record(steps, b).skip(n) =~= contents_record(b[0]) + y);
            lemma_contents_end(a[0], x, b[0], y);
            if at > 0 {
                let c = a.drop_first();
                let d = b.drop_first();
                assert forall|i: int| 0 <= i < c.len() implies are_digests(#[trigger] c[i]) by {
                    assert(are_digests(a[i + 1]));
                }
                assert forall|i: int| 0 <= i < d.len() implies are_digests(#[trigger] d[i]) by {
                    assert(are_digests(b[i + 1]));
                }
                lemma_same_record(rest, c, d, at - 1);
            }
        } else {
            let head = step_record(steps[0], seq![]);
            assert(steps_record(rest, a) =~= steps_record(steps, a).skip(head.len() as int));
            assert(steps_record(rest, b) =~= steps_record(steps, b).skip(head.len() as int));
            lemma_same_record(rest, a, b, at);
        }
    }
}

// ---------------------------------------------------------------------------------------
// Instructions
// ---------------------------------------------------------------------------------------
/// A text without a zero character, as every line of a Dockerfile is in practice.
pub open spec fn without_zero(s: Seq<char>) -> bool {
    forall|i: int| 0 <= i < s.len() ==> #[trigger] s[i] != '\0'
}

/// A step whose texts hold no zero character.
pub open spec fn readable(step: Step) -> bool {
    without_zero(step.line) && forall|i: int|
        0 <= i < step.args.len() ==> without_zero((#[trigger] step.args[i]).0) && without_zero(
            step.args[i].1,
        )
}

proof fn lemma_high_bits(x: u8)
    ensures
        0x80u8 | x != 0,
        0xC0u8 | x != 0,
        0xE0u8 | x != 0,
        0xF0u8 | x != 0,
{
    assert(0x80u8 | x != 0 && 0xC0u8 | x != 0 && 0xE0u8 | x != 0 && 0xF0u8 | x != 0)
        by (bit_vector);
}

proof fn lemma_scalar_without_zero(v: u32)
    requires
        v != 0,
    ensures
        zero_free(encode_scalar(v)),
{
    if has_width_1_encoding(v) {
        assert((v & 0x7F) as u8 != 0) by (bit_vector)
            requires
                0 < v <= 0x7F,
        ;
    }
    lemma_high_bits(((v >> 6) & 0x1F) as u8);
    lemma_high_bits(((v >> 12) & 0x0F) as u8);
    lemma_high_bits(((v >> 18) & 0x7) as u8);
    lemma_high_bits((v & 0x3F) as u8);
    lemma_high_bits(((v >> 6) & 0x3F) as u8);
    lemma_high_bits(((v >> 12) & 0x3F) as u8);
}

proof fn lemma_char_without_zero(c: char)
    requires
        c != '\0',
    ensures
        zero_free(encode_scalar(c as u32)),
{
    lemma_scalar_without_zero(c as u32);
}

proof fn lemma_bytes_without_zero(s: Seq<char>)
    requires
        without_zero(s),
    ensures
        zero_free(encode_utf8(s)),
    decreases s.len(),
{
    if s.len() > 0 {
        let rest = s.drop_first();
        assert forall|i: int| 0 <= i < rest.len() implies #[trigger] rest[i] != '\0' by {
            assert(rest[i] == s[i + 1]);
        }
        lemma_bytes_without_zero(rest);
        lemma_char_without_zero(s[0]);
    }
}

proof fn lemma_args_without_zero(args: Seq<Entry>)
    requires
        forall|i: int|
            0 <= i < args.len() ==> without_zero((#[trigger] args[i]).0) && without_zero(args[i].1),
    ensures
        zero_free(args_record(args)),
    decreases args.len(),
{
    if args.len() > 0 {
        let front = args.drop_last();
        assert forall|i: int| 0 <= i < front.len() implies without_zero((#[trigger] front[i]).0)
            && without_zero(front[i].1) by {
            assert(front[i] == args[i]);
        }
        lemma_args_without_zero(front);
        let last = args[args.len() - 1];
        lemma_bytes_without_zero(last.0);
        lemma_bytes_without_zero(last.1);
        reveal_strlit("=");
        lemma_bytes_without_zero("="@);
    }
}

proof fn lemma_same_bytes(a: Seq<char>, b: Seq<char>)
    requires
        encode_utf8(a) == encode_utf8(b),
    ensures
        a == b,
{
    encode_utf8_decode_utf8(a);
    encode_utf8_decode_utf8(b);
}

/// A byte string that does not hold a given byte.
pub open spec fn free_of(b: u8, s: Seq<u8>) -> bool {
    forall|i: int| 0 <= i < s.len() ==> #[trigger] s[i] != b
}

proof fn lemma_high_byte(x: u8)
    ensures
        0x80u8 | x >= 0x80,
        0xC0u8 | x >= 0x80,
        0xE0u8 | x >= 0x80,
        0xF0u8 | x >= 0x80,
{
    assert(0x80u8 | x >= 0x80 && 0xC0u8 | x >= 0x80 && 0xE0u8 | x >= 0x80 && 0xF0u8 | x >= 0x80)
        by (bit_vector);
}

proof fn lemma_scalar_free_of(b: u8, v: u32)
    requires
        b < 0x80,
        v != b,
    ensures
        free_of(b, encode_scalar(v)),
{
    if has_width_1_encoding(v) {
        assert((v & 0x7F) as u8 == v) by (bit_vector)
            requires
                v <= 0x7F,
        ;
    }
    lemma_high_byte(((v >> 6) & 0x1F) as u8);
    lemma_high_byte(((v >> 12) & 0x0F) as u8);
    lemma_high_byte(((v >> 18) & 0x7) as u8);
    lemma_high_byte((v & 0x3F) as u8);
    lemma_high_byte(((v >> 6) & 0x3F) as u8);
    lemma_high_byte(((v >> 12) & 0x3F) as u8);
}

proof fn lemma_char_free_of(b: u8, c: char, d: char)
    requires
        b < 0x80,
        c as u32 == b,
        c != d,
    ensures
        free_of(b, encode_scalar(d as u32)),
{
    lemma_scalar_free_of(b, d as u32);
}

proof fn lemma_bytes_free_of(b: u8, c: char, s: Seq<char>)
    requires
        b < 0x80,
        c as u32 == b,
        !s.contains(c),
    ensures
        free_of(b, encode_utf8(s)),
    decreases s.len(),
{
    if s.len() > 0 {
        let rest = s.drop_first();
        assert(s.contains(s[0]));
        assert forall|d: char| rest.contains(d) implies s.contains(d) by {
            let i = choose|i: int| 0 <= i < rest.len() && rest[i] == d;
            assert(s[i + 1] == d);
        }
        lemma_bytes_free_of(b, c, rest);
        lemma_char_free_of(b, c, s[0]);
    }
}

/// Two byte strings that end behind the same last occurrence of a byte.
proof fn lemma_last_cut(b: u8, p: Seq<u8>, u: Seq<u8>, q: Seq<u8>, v: Seq<u8>)
    requires
        free_of(b, u),
        free_of(b, v),
        p + seq![b] + u == q + seq![b] + v,
    ensures
        p == q,
        u == v,
{
    let s = p + seq![b] + u;
    let t = q + seq![b] + v;
    assert(s[p.len() as int] == b);
    assert(t[q.len() as int] == b);
    assert(s.len() == p.len() + 1 + u.len());
    assert(t.len() == q.len() + 1 + v.len());
    if p.len() < q.len() {
        let i = q.len() - p.len() - 1;
        assert(0 <= i < u.len());
        assert(s[q.len() as int] == u[i]);
    }
    if q.len() < p.len() {
        let i = p.len() - q.len() - 1;
        assert(0 <= i < v.len());
        assert(t[p.len() as int] == v[i]);
    }
    assert(p =~= s.take(p.len() as int));
    assert(q =~= t.take(q.len() as int));
    assert(u =~= s.skip(p.len() as int + 1));
    assert(v =~= t.skip(q.len() as int + 1));
}

/// Two byte strings that start before the same first occurrence of a byte.
proof fn lemma_first_cut(b: u8, p: Seq<u8>, u: Seq<u8>, q: Seq<u8>, v: Seq<u8>)
    requires
        free_of(b, p),
        free_of(b, q),
        p + seq![b] + u == q + seq![b] + v,
    ensures
        p == q,
        u == v,
{
    let s = p + seq![b] + u;
    let t = q + seq![b] + v;
    assert(s[p.len() as int] == b);
    assert(t[q.len() as int] == b);
    if p.len() < q.len() {
        assert(t[p.len() as int] == q[p.len() as int]);
    }
    if q.len() < p.len() {
        assert(s[q.len() as int] == p[q.len() as int]);
    }
    assert(p =~= s.take(p.len() as int));
    assert(q =~= t.take(q.len() as int));
    assert(u =~= s.skip(p.len() as int + 1));
    assert(v =~= t.skip(q.len() as int + 1));
}

/// Build arguments that can be told from each other: no text holds the character that stands
/// before an argument in a hash, and no name holds an equals sign.
pub open spec fn legible(args: Seq<Entry>) -> bool {
    forall|i: int|
        0 <= i < args.len() ==> !(#[trigger] args[i]).0.contains('=') && !args[i].0.contains(
            '\u{1}',
        ) && !args[i].1.contains('\u{1}')
}

proof fn lemma_equals_sign()
    ensures
        encode_utf8("="@) == seq![61u8],
{
    reveal_strlit("=");
    assert("="@ =~= seq!['=']);
    assert("="@.drop_first() =~= seq![]);
    assert((61u32 & 0x7F) as u8 == 61u8) by (bit_vector);
    reveal_with_fuel(encode_utf8, 2);
    assert(encode_utf8("="@) =~= seq![61u8]);
}

proof fn lemma_one_argument(args: Seq<Entry>)
    requires
        args.len() > 0,
        legible(args),
    ensures
        ({
            let (k, v) = args.last();
            let text = encode_utf8(k) + seq![61u8] + encode_utf8(v);
            &&& args_record(args) == args_record(args.drop_last()) + seq![1u8] + text
            &&& free_of(1u8, text)
            &&& free_of(61u8, encode_utf8(k))
        }),
{
    let (k, v) = args.last();
    let n = args.len() - 1;
    assert(args[n] == args.last());
    assert(!args[n].0.contains('='));
    lemma_bytes_free_of(1u8, '\u{1}', k);
    lemma_bytes_free_of(1u8, '\u{1}', v);
    lemma_bytes_free_of(61u8, '=', k);
    lemma_equals_sign();
    let text = encode_utf8(k) + seq![61u8] + encode_utf8(v);
    assert(args_record(args) =~= args_record(args.drop_last()) + seq![1u8] + text);
    assert forall|i: int| 0 <= i < text.len() implies #[trigger] text[i] != 1u8 by {
        let m = encode_utf8(k).len() as int;
        if i < m {
            assert(text[i] == encode_utf8(k)[i]);
        } else if i > m {
            assert(text[i] == encode_utf8(v)[i - m - 1]);
        }
    }
}

/// Every build argument of a RUN instruction is hashed with its name and its value, in order:
/// two lists of arguments are hashed from the same bytes only where they are the same.
pub proof fn law_every_argument_is_hashed(a: Seq<Entry>, b: Seq<Entry>)
    requires
        legible(a),
        legible(b),
        args_record(a) == args_record(b),
    ensures
        a == b,
    decreases a.len(),
{
    if a.len() > 0 {
        lemma_one_argument(a);
    }
    if b.len() > 0 {
        lemma_one_argument(b);
    }
    if a.len() > 0 && b.len() > 0 {
        let p = a.drop_last();
        let q = b.drop_last();
        let (k, v) = a.last();
        let (l, w) = b.last();
        let text = encode_utf8(k) + seq![61u8] + encode_utf8(v);
        let other = encode_utf8(l) + seq![61u8] + encode_utf8(w);
        lemma_last_cut(1u8, args_record(p), text, args_record(q), other);
        lemma_first_cut(61u8, encode_utf8(k), encode_utf8(v), encode_utf8(l), encode_utf8(w));
        lemma_same_bytes(k, l);
        lemma_same_bytes(v, w);
        assert forall|i: int| 0 <= i < p.len() implies !(#[trigger] p[i]).0.contains('=')
            && !p[i].0.contains('\u{1}') && !p[i].1.contains('\u{1}') by {
            assert(p[i] == a[i]);
        }
        assert forall|i: int| 0 <= i < q.len() implies !(#[trigger] q[i]).0.contains('=')
            && !q[i].0.contains('\u{1}') && !q[i].1.contains('\u{1}') by {
            assert(q[i] == b[i]);
        }
        law_every_argument_is_hashed(p, q);
        assert(a =~= p.push(a.last()));
        assert(b =~= q.push(b.last()));
    } else {
        assert(a =~= b);
    }
}

/// What is empty or starts with a zero byte.
pub open spec fn starts_with_zero(x: Seq<u8>) -> bool {
    x.len() == 0 || x[0] == 0
}

/// A byte string without a zero byte ends where a zero byte or nothing follows.
proof fn lemma_ends_at_zero(a: Seq<u8>, x: Seq<u8>, b: Seq<u8>, y: Seq<u8>)
    requires
        zero_free(a),
        zero_free(b),
        starts_with_zero(x),
        starts_with_zero(y),
        a + x == b + y,
    ensures
        a == b,
        x == y,
{
    let s = a + x;
    let t = b + y;
    if a.len() < b.len() {
        assert(t[a.len() as int] == b[a.len() as int]);
        assert(s[a.len() as int] == x[0]);
    }
    if b.len() < a.len() {
        assert(s[b.len() as int] == a[b.len() as int]);
        assert(t[b.len() as int] == y[0]);
    }
    assert(a =~= s.take(a.len() as int));
    assert(b =~= t.take(b.len() as int));
    assert(x =~= s.skip(a.len() as int));
    assert(y =~= t.skip(b.len() as int));
}

/// A COPY or ADD instruction is told by its line: two whose lines differ are hashed from
/// different bytes, whatever stands for the files that they bring.
pub proof fn law_copy_line_is_hashed(
    op: Operation,
    a: Seq<char>,
    x: Seq<u8>,
    b: Seq<char>,
    y: Seq<u8>,
)
    requires
        brings_files(op),
        without_zero(a),
        without_zero(b),
        a != b,
    ensures
        step_record(plain_step(op, a), x) != step_record(plain_step(op, b), y),
{
    let s = step_record(plain_step(op, a), x);
    let t = step_record(plain_step(op, b), y);
    if s == t {
        let n = tag(op).len() as int;
        let zero = seq![0u8];
        lemma_bytes_without_zero(a);
        lemma_bytes_without_zero(b);
        assert(s.skip(n) =~= encode_utf8(a) + (zero + x));
        assert(t.skip(n) =~= encode_utf8(b) + (zero + y));
        lemma_ends_at_zero(encode_utf8(a), zero + x, encode_utf8(b), zero + y);
        lemma_same_bytes(a, b);
    }
}

/// No step of a list starts a chunk, and no text in it holds a zero character.
pub open spec fn plain_list(steps: Seq<Step>) -> bool {
    forall|i: int|
        0 <= i < steps.len() ==> !(#[trigger] steps[i]).op.starts_chunk() && readable(steps[i])
}

proof fn lemma_record_start(steps: Seq<Step>, files: Seq<Seq<Seq<u8>>>)
    requires
        plain_list(steps),
        files.len() == copies(steps),
    ensures
        starts_with_zero(steps_record(steps, files)),
        steps.len() > 0 ==> steps_record(steps, files).len() > 0,
{
    if steps.len() > 0 {
        lemma_from_front(steps, files);
        let first = steps[0];
        assert(!first.op.starts_chunk());
        let rest = steps_record(steps, files);
        assert(tag(first.op)[0] == 0);
        assert(rest[0] == 0);
    }
}

/// The record of a step behind its tag.
pub open spec fn behind_tag(step: Step, content: Seq<u8>) -> Seq<u8> {
    if step.op is Run {
        args_record(step.args) + seq![0u8] + encode_utf8(step.line)
    } else if brings_files(step.op) {
        encode_utf8(step.line) + seq![0u8] + content
    } else {
        encode_utf8(step.line)
    }
}

proof fn lemma_same_op(a: Step, ca: Seq<u8>, x: Seq<u8>, b: Step, cb: Seq<u8>, y: Seq<u8>)
    requires
        !a.op.starts_chunk(),
        !b.op.starts_chunk(),
        step_record(a, ca) + x == step_record(b, cb) + y,
    ensures
        a.op == b.op,
        behind_tag(a, ca) + x == behind_tag(b, cb) + y,
{
    lemma_keyword(a.op);
    lemma_keyword(b.op);
    let m = op_name(a.op);
    let n = op_name(b.op);
    assert forall|i: int| 0 <= i < m.len() implies #[trigger] m[i] != '\0' by {
        assert('A' <= m[i] <= 'Z');
    }
    assert forall|i: int| 0 <= i < n.len() implies #[trigger] n[i] != '\0' by {
        assert('A' <= n[i] <= 'Z');
    }
    lemma_bytes_without_zero(m);
    lemma_bytes_without_zero(n);
    let zero = seq![0u8];
    let p = behind_tag(a, ca) + x;
    let q = behind_tag(b, cb) + y;
    let s = step_record(a, ca) + x;
    let t = step_record(b, cb) + y;
    assert(s =~= tag(a.op) + p);
    assert(t =~= tag(b.op) + q);
    assert(s.skip(1) =~= encode_utf8(m) + (zero + p));
    assert(t.skip(1) =~= encode_utf8(n) + (zero + q));
    lemma_ends_at_zero(encode_utf8(m), zero + p, encode_utf8(n), zero + q);
    lemma_same_bytes(m, n);
    assert(p =~= (zero + p).skip(1));
    assert(q =~= (zero + q).skip(1));
}

proof fn lemma_same_run(c: Step, x: Seq<u8>, d: Step, y: Seq<u8>)
    requires
        c.op is Run && readable(c),
        d.op is Run && readable(d),
        starts_with_zero(x),
        starts_with_zero(y),
        behind_tag(c, seq![]) + x == behind_tag(d, seq![]) + y,
    ensures
        encode_utf8(c.line) == encode_utf8(d.line),
        args_record(c.args) == args_record(d.args),
        x == y,
{
    let l = encode_utf8(c.line);
    let m = encode_utf8(d.line);
    let zero = seq![0u8];
    let r = args_record(c.args);
    let t = args_record(d.args);
    lemma_args_without_zero(c.args);
    lemma_args_without_zero(d.args);
    lemma_bytes_without_zero(c.line);
    lemma_bytes_without_zero(d.line);
    assert(behind_tag(c, seq![]) + x =~= r + (zero + (l + x)));
    assert(behind_tag(d, seq![]) + y =~= t + (zero + (m + y)));
    lemma_ends_at_zero(r, zero + (l + x), t, zero + (m + y));
    assert((zero + (l + x)).skip(1) =~= l + x);
    assert((zero + (m + y)).skip(1) =~= m + y);
    lemma_ends_at_zero(l, x, m, y);
}

proof fn lemma_same_copy(
    c: Step,
    fc: Seq<Seq<u8>>,
    x: Seq<u8>,
    d: Step,
    fd: Seq<Seq<u8>>,
    y: Seq<u8>,
)
    requires
        brings_files(c.op) && readable(c) && are_digests(fc),
        brings_files(d.op) && readable(d) && are_digests(fd),
        behind_tag(c, contents_record(fc)) + x == behind_tag(d, contents_record(fd)) + y,
    ensures
        encode_utf8(c.line) == encode_utf8(d.line),
        x == y,
{
    let l = encode_utf8(c.line);
    let m = encode_utf8(d.line);
    let zero = seq![0u8];
    let cc = contents_record(fc);
    let cd = contents_record(fd);
    lemma_bytes_without_zero(c.line);
    lemma_bytes_without_zero(d.line);
    assert(behind_tag(c, cc) + x =~= l + (zero + (cc + x)));
    assert(behind_tag(d, cd) + y =~= m + (zero + (cd + y)));
    lemma_ends_at_zero(l, zero + (cc + x), m, zero + (cd + y));
    assert((zero + (cc + x)).skip(1) =~= cc + x);
    assert((zero + (cd + y)).skip(1) =~= cd + y);
    lemma_contents_end(fc, x, fd, y);
}

/// What is hashed for a step is told from what follows it.
proof fn lemma_same_first(
    c: Step,
    fc: Seq<Seq<u8>>,
    x: Seq<u8>,
    d: Step,
    fd: Seq<Seq<u8>>,
    y: Seq<u8>,
)
    requires
        !c.op.starts_chunk() && readable(c),
        !d.op.starts_chunk() && readable(d),
        brings_files(c.op) ==> are_digests(fc),
        brings_files(d.op) ==> are_digests(fd),
        starts_with_zero(x),
        starts_with_zero(y),
        step_record(c, contents_record(fc)) + x == step_record(d, contents_record(fd)) + y,
    ensures
        c.op == d.op,
        c.line == d.line,
        c.op is Run ==> args_record(c.args) == args_record(d.args),
        x == y,
{
    let cc = contents_record(fc);
    let cd = contents_record(fd);
    lemma_same_op(c, cc, x, d, cd, y);
    if c.op is Run {
        assert(behind_tag(c, cc) == behind_tag(c, seq![]));
        assert(behind_tag(d, cd) == behind_tag(d, seq![]));
        lemma_same_run(c, x, d, y);
    } else if brings_files(c.op) {
        lemma_same_copy(c, fc, x, d, fd, y);
    } else {
        lemma_bytes_without_zero(c.line);
        lemma_bytes_without_zero(d.line);
        lemma_ends_at_zero(encode_utf8(c.line), x, encode_utf8(d.line), y);
    }
    lemma_same_bytes(c.line, d.line);
}

/// The files of a list of steps behind its first one.
pub open spec fn files_behind(step: Step, files: Seq<Seq<Seq<u8>>>) -> Seq<Seq<Seq<u8>>> {
    if brings_files(step.op) {
        files.drop_first()
    } else {
        files
    }
}

proof fn lemma_behind_first(steps: Seq<Step>, files: Seq<Seq<Seq<u8>>>)
    requires
        steps.len() > 0,
        plain_list(steps),
        files.len() == copies(steps),
        are_lists(files),
    ensures
        ({
            let g = files_behind(steps[0], files);
            let p = steps.drop_first();
            &&& plain_list(p)
            &&& g.len() == copies(p)
            &&& are_lists(g)
            &&& brings_files(steps[0].op) ==> files.len() > 0 && are_digests(files[0])
            &&& steps_record(steps, files) == step_record(steps[0], contents_record(files[0]))
                + steps_record(p, g)
        }),
{
    lemma_from_front(steps, files);
    let g = files_behind(steps[0], files);
    let p = steps.drop_first();
    assert(!steps[0].op.starts_chunk());
    assert forall|i: int| 0 <= i < p.len() implies !(#[trigger] p[i]).op.starts_chunk()
        && readable(p[i]) by {
        assert(p[i] == steps[i + 1]);
    }
    assert forall|i: int| 0 <= i < g.len() implies are_digests(#[trigger] g[i]) by {
        if brings_files(steps[0].op) {
            assert(g[i] == files[i + 1]);
        } else {
            assert(g[i] == files[i]);
        }
    }
}

proof fn lemma_same_steps(
    a: Seq<Step>,
    fa: Seq<Seq<Seq<u8>>>,
    b: Seq<Step>,
    fb: Seq<Seq<Seq<u8>>>,
)
    requires
        plain_list(a),
        plain_list(b),
        fa.len() == copies(a),
        fb.len() == copies(b),
        are_lists(fa),
        are_lists(fb),
        steps_record(a, fa) == steps_record(b, fb),
    ensures
        a.len() == b.len(),
        forall|i: int|
            0 <= i < a.len() ==> #[trigger] a[i].op == b[i].op && a[i].line == b[i].line && (
            a[i].op is Run ==> args_record(a[i].args) == args_record(b[i].args)),
    decreases a.len(),
{
    lemma_record_start(a, fa);
    lemma_record_start(b, fb);
    if a.len() > 0 && b.len() > 0 {
        let p = a.drop_first();
        let q = b.drop_first();
        let ga = files_behind(a[0], fa);
        let gb = files_behind(b[0], fb);
        lemma_behind_first(a, fa);
        lemma_behind_first(b, fb);
        lemma_record_start(p, ga);
        lemma_record_start(q, gb);
        assert(readable(a[0]) && readable(b[0]));
        lemma_same_first(a[0], fa[0], steps_record(p, ga), b[0], fb[0], steps_record(q, gb));
        lemma_same_steps(p, ga, q, gb);
        assert forall|i: int| 0 <= i < a.len() implies #[trigger] a[i].op == b[i].op && a[i].line
            == b[i].line && (a[i].op is Run ==> args_record(a[i].args) == args_record(
            b[i].args,
        )) by {
            if i > 0 {
                assert(a[i] == p[i - 1] && b[i] == q[i - 1]);
                assert(p[i - 1].op == q[i - 1].op);
            }
        }
    }
}

/// A change in an instruction is a change in what its chunk is hashed from, whatever files
/// it brings: two records are the same only where they are of the same operations with the
/// same lines. The step that starts a chunk adds nothing, as its base image is hashed in its
/// place.
pub proof fn law_changed_instruction_changes_what_is_hashed(
    a: Seq<Step>,
    fa: Seq<Seq<Seq<u8>>>,
    b: Seq<Step>,
    fb: Seq<Seq<Seq<u8>>>,
    at: int,
)
    requires
        a.len() > 0 && a[0].op.starts_chunk() && plain_list(a.drop_first()),
        b.len() > 0 && b[0].op.starts_chunk() && plain_list(b.drop_first()),
        fa.len() == copies(a),
        fb.len() == copies(b),
        are_lists(fa),
        are_lists(fb),
        a.len() != b.len() || (0 < at < a.len() && (a[at].op != b[at].op || a[at].line
            != b[at].line)),
    ensures
        steps_record(a, fa) != steps_record(b, fb),
{
    if steps_record(a, fa) == steps_record(b, fb) {
        let p = a.drop_first();
        let q = b.drop_first();
        lemma_from_front(a, fa);
        lemma_from_front(b, fb);
        assert(from_front(a, fa) =~= steps_record(p, fa));
        assert(from_front(b, fb) =~= steps_record(q, fb));
        lemma_same_steps(p, fa, q, fb);
        if a.len() == b.len() {
            assert(p[at - 1] == a[at] && q[at - 1] == b[at]);
            assert(p[at - 1].op == q[at - 1].op);
        }
    }
}

/// A change in a build argument that a RUN instruction sees is a change in what its chunk is
/// hashed from: two records are the same only where every RUN instruction sees the same
/// arguments with the same values, in the same order.
pub proof fn law_changed_argument_changes_what_is_hashed(
    a: Seq<Step>,
    fa: Seq<Seq<Seq<u8>>>,
    b: Seq<Step>,
    fb: Seq<Seq<Seq<u8>>>,
    at: int,
)
    requires
        a.len() > 0 && a[0].op.starts_chunk() && plain_list(a.drop_first()),
        b.len() > 0 && b[0].op.starts_chunk() && plain_list(b.drop_first()),
        fa.len() == copies(a),
        fb.len() == copies(b),
        are_lists(fa),
        are_lists(fb),
        steps_record(a, fa) == steps_record(b, fb),
        0 < at < a.len(),
        a[at].op is Run,
        at < b.len() ==> legible(a[at].args) && legible(b[at].args),
    ensures
        at < b.len(),
        b[at].op is Run,
        b[at].line == a[at].line,
        b[at].args == a[at].args,
{
    let p = a.drop_first();
    let q = b.drop_first();
    lemma_from_front(a, fa);
    lemma_from_front(b, fb);
    assert(from_front(a, fa) =~= steps_record(p, fa));
    assert(from_front(b, fb) =~= steps_record(q, fb));
    lemma_same_steps(p, fa, q, fb);
    assert(p[at - 1] == a[at] && q[at - 1] == b[at]);
    assert(p[at - 1].op == q[at - 1].op);
    law_every_argument_is_hashed(a[at].args, b[at].args);
}

// ---------------------------------------------------------------------------------------
// Preparation
// ---------------------------------------------------------------------------------------
/// The line of every instruction but RUN, ENTRYPOINT and CMD is expanded with the variables of
/// the stage: a step that it becomes has the expanded line and no arguments, and where the line
/// cannot be expanded there is no step.
pub proof fn law_line_is_expanded(op: Operation, line: Seq<char>, stage: Vars, global: Vars)
    requires
        op is Copy || op is Add || op is Env || op is Workdir || op is Label || op is User
            || op is Expose || op is Volume || op is StopSignal || op is HealthCheck,
    ensures
        prepared((op, line), stage, global).1 matches Ok(p) ==> (p matches Some(step) && step.op
            == op && expand(line, stage) == Ok::<Seq<char>, Seq<char>>(step.line)
            && step.args.len() == 0),
        expand(line, stage) matches Err(inner) ==> prepared((op, line), stage, global).1 == Err::<
            Option<Step>,
            BuildFailure,
        >(BuildFailure::MissingBrace { inner }),
        expand(line, stage) is Ok && !(op is Env) ==> prepared((op, line), stage, global).1 is Ok,
        !(op is Env) ==> prepared((op, line), stage, global).0 == stage,
{
}

/// A line that is a variable becomes the value of that variable.
pub proof fn law_variable_becomes_its_value(
    op: Operation,
    name: Seq<char>,
    stage: Vars,
    global: Vars,
)
    requires
        op is Copy || op is Add || op is Workdir || op is Label || op is User || op is Expose
            || op is Volume || op is StopSignal || op is HealthCheck,
        name.len() > 0,
        forall|i: int|
            0 <= i < name.len() ==> 'a' <= #[trigger] name[i] <= 'z' || 'A' <= name[i] <= 'Z' || '0'
                <= name[i] <= '9' || name[i] == '_',
    ensures
        prepared((op, seq!['$'] + name), stage, global).1 == Ok::<Option<Step>, BuildFailure>(
            Some(Step { op, line: stage.lookup(name), args: seq![] }),
        ),
{
    let none = Seq::<char>::empty();
    law_variable_is_replaced_in_front(name, none, stage);
    assert(seq!['$'] + name + none =~= seq!['$'] + name);
    assert(stage.lookup(name) + none =~= stage.lookup(name));
}

/// The lines of RUN, ENTRYPOINT and CMD stay as they are written, whatever the variables: the
/// shell in the container expands them. They change no variable.
pub proof fn law_shell_line_is_kept(op: Operation, line: Seq<char>, stage: Vars, global: Vars)
    requires
        op is Run || op is Entrypoint || op is Cmd,
    ensures
        prepared((op, line), stage, global).0 == stage,
        prepared((op, line), stage, global).1 matches Ok(Some(step)) && step.op == op && step.line
            == line && (!(op is Run) ==> step.args.len() == 0),
{
}

/// A RUN instruction sees every build argument of the stage with its value and no other, in the
/// order of their names.
pub proof fn law_run_sees_every_argument(
    line: Seq<char>,
    stage: Vars,
    global: Vars,
    p: Seq<Entry>,
    key: Seq<char>,
)
    requires
        ascending(p),
        stage.args == map_of(p),
    ensures
        prepared((Operation::Run, line), stage, global).1 matches Ok(Some(step)) && {
            &&& step.args == p
            &&& stage.args.dom().contains(key) ==> step.args.contains((key, stage.args[key]))
            &&& forall|i: int|
                0 <= i < step.args.len() ==> stage.args.dom().contains((#[trigger] step.args[i]).0)
        },
{
    lemma_listing(p);
    if stage.args.dom().contains(key) {
        let i = choose|i: int| holds_at(p, key, i);
        assert(p[i] == (key, stage.args[key]));
    }
    assert forall|i: int| 0 <= i < p.len() implies stage.args.dom().contains((#[trigger] p[i]).0) by {
        assert(holds_at(p, p[i].0, i));
    }
}

/// No instruction that starts a chunk stands inside of one.
pub proof fn law_start_is_refused_inside(op: Operation, line: Seq<char>, stage: Vars, global: Vars)
    requires
        op is From || op is Checkpoint,
    ensures
        prepared((op, line), stage, global) == (
            stage,
            Err::<Option<Step>, BuildFailure>(BuildFailure::MisplacedStart { op }),
        ),
{
}

proof fn lemma_args_set_push(stage: Vars, global: Vars, ws: Seq<Seq<char>>, w: Seq<char>)
    ensures
        args_set(stage, global, ws.push(w)) == arg_word(
            args_set(stage, global, ws),
            global,
            w,
        ),
    decreases ws.len(),
{
    let more = ws.push(w);
    if ws.len() == 0 {
        assert(more.drop_first() =~= ws);
        let next = arg_word(stage, global, w);
        assert(args_set(next, global, ws) == next);
    } else {
        assert(more.drop_first() =~= ws.drop_first().push(w));
        lemma_args_set_push(
            arg_word(stage, global, ws[0]),
            global,
            ws.drop_first(),
            w,
        );
    }
}

proof fn lemma_assignment(key: Seq<char>, value: Seq<char>)
    requires
        !key.contains('='),
    ensures
        split_once(key + "="@ + value, "="@) == Some((key, value)),
        split_once(key, "="@) is None,
{
    reveal_strlit("=");
    assert("="@ =~= seq!['=']);
    law_split_at_character(key, '=', value);
}

/// A word KEY=VALUE of an ARG instruction sets the argument to the value, whatever it was before
/// and whatever the global value is, and leaves every other one as the words before it did.
pub proof fn law_argument_is_set(
    stage: Vars,
    global: Vars,
    ws: Seq<Seq<char>>,
    key: Seq<char>,
    value: Seq<char>,
)
    requires
        !key.contains('='),
    ensures
        args_set(stage, global, ws.push(key + "="@ + value)) == (Vars {
            args: args_set(stage, global, ws).args.insert(key, value),
            env: args_set(stage, global, ws).env,
        }),
        args_set(stage, global, seq![]) == stage,
{
    lemma_args_set_push(stage, global, ws, key + "="@ + value);
    lemma_assignment(key, value);
}

/// A word KEY of an ARG instruction takes the global value of that name, or the empty text where
/// there is none, and leaves every other argument as the words before it did.
pub proof fn law_argument_is_taken_from_the_global_ones(
    stage: Vars,
    global: Vars,
    ws: Seq<Seq<char>>,
    key: Seq<char>,
)
    requires
        !key.contains('='),
    ensures
        args_set(stage, global, ws.push(key)) == (Vars {
            args: args_set(stage, global, ws).args.insert(
                key,
                if global.args.dom().contains(key) {
                    global.args[key]
                } else {
                    seq![]
                },
            ),
            env: args_set(stage, global, ws).env,
        }),
{
    lemma_args_set_push(stage, global, ws, key);
    lemma_assignment(key, seq![]);
}

/// An ARG instruction becomes no step. It sets its words as arguments, once its line has been
/// expanded.
pub proof fn law_arg_becomes_no_step(
    line: Seq<char>,
    text: Seq<char>,
    ws: Seq<Seq<char>>,
    stage: Vars,
    global: Vars,
)
    requires
        expand(line, stage) == Ok::<Seq<char>, Seq<char>>(text),
        shell_words(text) == Some(ws),
    ensures
        prepared((Operation::Arg, line), stage, global) == (
            args_set(stage, global, ws),
            Ok::<Option<Step>, BuildFailure>(None),
        ),
{
}

proof fn lemma_env_set_push(vars: Vars, ws: Seq<Seq<char>>, key: Seq<char>, value: Seq<char>)
    requires
        !key.contains('='),
        first_without_value(ws) is None,
    ensures
        env_set(vars, ws.push(key + "="@ + value)) == env_set(vars, ws).with_env(key, value),
        first_without_value(ws.push(key + "="@ + value)) is None,
    decreases ws.len(),
{
    let w = key + "="@ + value;
    let more = ws.push(w);
    lemma_assignment(key, value);
    if ws.len() == 0 {
        assert(more.drop_first() =~= ws);
        assert(env_set(vars.with_env(key, value), ws) == vars.with_env(key, value));
    } else {
        assert(more.drop_first() =~= ws.drop_first().push(w));
        let (k, v) = split_once(ws[0], "="@)->0;
        lemma_env_set_push(vars.with_env(k, v), ws.drop_first(), key, value);
    }
}

/// A word KEY=VALUE of an ENV instruction sets the variable to the value, whatever it was before,
/// and leaves every other one as the words before it did. From then on the variable has that
/// value, whatever the build arguments are.
pub proof fn law_variable_is_set(
    vars: Vars,
    ws: Seq<Seq<char>>,
    key: Seq<char>,
    value: Seq<char>,
    other: Seq<char>,
)
    requires
        !key.contains('='),
        forall|i: int| 0 <= i < ws.len() ==> (#[trigger] ws[i]).contains('='),
        other != key,
    ensures
        env_set(vars, seq![]) == vars,
        env_set(vars, ws.push(key + "="@ + value)).lookup(key) == value,
        env_set(vars, ws.push(key + "="@ + value)).lookup(other) == env_set(vars, ws).lookup(other),
        env_set(vars, ws.push(key + "="@ + value)).env == env_set(vars, ws).env.insert(key, value),
        env_set(vars, ws.push(key + "="@ + value)).args == env_set(vars, ws).args,
{
    law_first_word_without_value(ws);
    lemma_env_set_push(vars, ws, key, value);
}

/// An ENV instruction sets its variables for the instructions that follow it, and becomes a step
/// with its line expanded.
pub proof fn law_env_sets_its_variables(
    line: Seq<char>,
    text: Seq<char>,
    ws: Seq<Seq<char>>,
    stage: Vars,
    global: Vars,
)
    requires
        expand(line, stage) == Ok::<Seq<char>, Seq<char>>(text),
        shell_words(text) == Some(ws),
        forall|i: int| 0 <= i < ws.len() ==> (#[trigger] ws[i]).contains('='),
    ensures
        prepared((Operation::Env, line), stage, global) == (
            env_set(stage, ws),
            Ok::<Option<Step>, BuildFailure>(
                Some(Step { op: Operation::Env, line: text, args: seq![] }),
            ),
        ),
{
    law_first_word_without_value(ws);
}

proof fn lemma_defaults_set_push(vars: Vars, ws: Seq<Seq<char>>, key: Seq<char>, value: Seq<char>)
    requires
        !key.contains('='),
        first_without_value(ws) is None,
    ensures
        ({
            let before = defaults_set(vars, ws);
            let after = defaults_set(vars, ws.push(key + "="@ + value));
            after == (if before.args.dom().contains(key) {
                before
            } else {
                before.with_arg(key, value)
            })
        }),
    decreases ws.len(),
{
    let w = key + "="@ + value;
    let more = ws.push(w);
    lemma_assignment(key, value);
    if ws.len() == 0 {
        assert(more.drop_first() =~= ws);
        assert(defaults_set(vars, ws) == vars);
        assert(defaults_set(vars.with_arg(key, value), ws) == vars.with_arg(key, value));
    } else {
        assert(more.drop_first() =~= ws.drop_first().push(w));
        let (k, v) = split_once(ws[0], "="@)->0;
        let next = if vars.args.dom().contains(k) {
            vars
        } else {
            vars.with_arg(k, v)
        };
        lemma_defaults_set_push(next, ws.drop_first(), key, value);
    }
}

/// A word KEY=VALUE of an ARG instruction before the first FROM gives a global argument that has
/// no value this one, and changes nothing else.
pub proof fn law_default_is_set(
    vars: Vars,
    ws: Seq<Seq<char>>,
    key: Seq<char>,
    value: Seq<char>,
)
    requires
        !key.contains('='),
        forall|i: int| 0 <= i < ws.len() ==> (#[trigger] ws[i]).contains('='),
    ensures
        ({
            let before = defaults_set(vars, ws);
            let after = defaults_set(vars, ws.push(key + "="@ + value));
            &&& defaults_set(vars, seq![]) == vars
            &&& after.env == before.env
            &&& before.args.dom().contains(key) ==> after.args == before.args
            &&& !before.args.dom().contains(key) ==> after.args == before.args.insert(key, value)
        }),
{
    law_first_word_without_value(ws);
    lemma_defaults_set_push(vars, ws, key, value);
}

/// Before the first FROM only ARG instructions may stand, and each of them gives its defaults on
/// top of those before it, expanded with them.
pub proof fn law_preamble_goes_on(
    ops: Seq<Instruction>,
    op: Operation,
    line: Seq<char>,
    global: Vars,
)
    requires
        preamble(ops, global).1 is None,
    ensures
        ({
            let before = preamble(ops, global).0;
            let r = preamble(ops.push((op, line)), global);
            &&& preamble(seq![], global) == (global, None::<BuildFailure>)
            &&& !(op is Arg) ==> r == (before, Some(BuildFailure::BeforeFrom { op }))
            &&& op is Arg && r.1 is None ==> (expand(line, before) matches Ok(text)
                && shell_words(text) matches Some(ws) && r.0 == defaults_set(before, ws)
                && forall|i: int| 0 <= i < ws.len() ==> (#[trigger] ws[i]).contains('='))
        }),
{
    assert(ops.push((op, line)).drop_last() =~= ops);
    if let Ok(text) = expand(line, preamble(ops, global).0) {
        if let Some(ws) = shell_words(text) {
            law_first_word_without_value(ws);
        }
    }
}

/// The instructions of a chunk are prepared in their order, each with the variables that those
/// before it have set, and what one becomes stands behind what those before it have become. The
/// first that cannot be prepared ends the preparation.
pub proof fn law_instructions_are_prepared_in_order(
    ops: Seq<Instruction>,
    next: Instruction,
    stage: Vars,
    global: Vars,
)
    ensures
        prepared_all(seq![], stage, global) == (stage, Ok::<Seq<Step>, BuildFailure>(seq![])),
        match prepared_all(ops, stage, global) {
            (_, Err(e)) => prepared_all(ops.push(next), stage, global).1 == Err::<
                Seq<Step>,
                BuildFailure,
            >(e),
            (before, Ok(steps)) => match prepared(next, before, global) {
                (_, Err(e)) => prepared_all(ops.push(next), stage, global).1 == Err::<
                    Seq<Step>,
                    BuildFailure,
                >(e),
                (after, Ok(None)) => prepared_all(ops.push(next), stage, global) == (
                    after,
                    Ok::<Seq<Step>, BuildFailure>(steps),
                ),
                (after, Ok(Some(step))) => prepared_all(ops.push(next), stage, global) == (
                    after,
                    Ok::<Seq<Step>, BuildFailure>(steps.push(step)),
                ),
            },
        },
{
    assert(ops.push(next).drop_last() =~= ops);
}

// ---------------------------------------------------------------------------------------
// Bytes
// ---------------------------------------------------------------------------------------
/// What each step adds to a hash, byte by byte: its name between two zero bytes, and its line. A
/// RUN instruction has its arguments and a zero byte before its line, and an instruction that
/// brings files has a zero byte and what stands for the files behind it. The start of a chunk adds
/// nothing.
pub proof fn law_bytes_of_a_step(step: Step, content: Seq<u8>)
    ensures
        ({
            let mark = seq![0u8] + encode_utf8(op_name(step.op)) + seq![0u8];
            let line = encode_utf8(step.line);
            &&& step.op is From || step.op is Checkpoint ==> step_record(step, content).len() == 0
            &&& step.op is Run ==> step_record(step, content) == mark + args_record(step.args)
                + seq![0u8] + line
            &&& step.op is Copy || step.op is Add ==> step_record(step, content) == mark + line
                + seq![0u8] + content
            &&& step.op is Arg || step.op is Env || step.op is Workdir || step.op is Label
                || step.op is User || step.op is Entrypoint || step.op is Cmd || step.op is Expose
                || step.op is Volume || step.op is StopSignal || step.op is HealthCheck
                ==> step_record(step, content) == mark + line
        }),
{
}

/// What each build argument adds to a hash, byte by byte: a one byte, its name, an equals sign,
/// and its value.
pub proof fn law_bytes_of_an_argument(args: Seq<Entry>, key: Seq<char>, value: Seq<char>)
    ensures
        args_record(seq![]) == Seq::<u8>::empty(),
        args_record(args.push((key, value))) == args_record(args) + seq![1u8] + encode_utf8(key)
            + seq![61u8] + encode_utf8(value),
{
    lemma_equals_sign();
    assert(args.push((key, value)).drop_last() =~= args);
}

/// What each step adds stands behind what the steps before it add. One that brings files takes the
/// next of the lists of digests, and no other step takes any.
pub proof fn law_bytes_of_steps(
    steps: Seq<Step>,
    files: Seq<Seq<Seq<u8>>>,
    step: Step,
    list: Seq<Seq<u8>>,
)
    ensures
        steps_record(seq![], seq![]) == Seq::<u8>::empty(),
        step.op is Copy || step.op is Add ==> steps_record(steps.push(step), files.push(list))
            == steps_record(steps, files) + step_record(step, contents_record(list)),
        !(step.op is Copy) && !(step.op is Add) ==> steps_record(steps.push(step), files)
            == steps_record(steps, files) + step_record(step, seq![]),
        copies(steps.push(step)) == copies(steps) + (if step.op is Copy || step.op is Add {
            1int
        } else {
            0
        }),
        copies(seq![]) == 0,
{
    assert(steps.push(step).drop_last() =~= steps);
    assert(files.push(list).drop_last() =~= files);
}

/// A change of the base image is a change in what a chunk is hashed from, whatever its steps are.
pub proof fn law_changed_base_image_changes_what_is_hashed(
    image: Seq<char>,
    a: Seq<Step>,
    fa: Seq<Seq<Seq<u8>>>,
    other: Seq<char>,
    b: Seq<Step>,
    fb: Seq<Seq<Seq<u8>>>,
)
    requires
        without_zero(image),
        without_zero(other),
        a.len() > 0 && a[0].op.starts_chunk() && plain_list(a.drop_first()),
        b.len() > 0 && b[0].op.starts_chunk() && plain_list(b.drop_first()),
        fa.len() == copies(a),
        fb.len() == copies(b),
        tag(Operation::From) + encode_utf8(image) + steps_record(a, fa) == tag(Operation::From)
            + encode_utf8(other) + steps_record(b, fb),
    ensures
        image == other,
        steps_record(a, fa) == steps_record(b, fb),
{
    let t = tag(Operation::From);
    let x = steps_record(a, fa);
    let y = steps_record(b, fb);
    lemma_from_front(a, fa);
    lemma_from_front(b, fb);
    assert(from_front(a, fa) =~= steps_record(a.drop_first(), fa));
    assert(from_front(b, fb) =~= steps_record(b.drop_first(), fb));
    lemma_record_start(a.drop_first(), fa);
    lemma_record_start(b.drop_first(), fb);
    lemma_bytes_without_zero(image);
    lemma_bytes_without_zero(other);
    let n = t.len() as int;
    assert((t + encode_utf8(image) + x).skip(n) =~= encode_utf8(image) + x);
    assert((t + encode_utf8(other) + y).skip(n) =~= encode_utf8(other) + y);
    lemma_ends_at_zero(encode_utf8(image), x, encode_utf8(other), y);
    lemma_same_bytes(image, other);
}

/// The name that marks an operation in a hash is the one that it has in a Dockerfile, and a
/// checkpoint is named by the word that stands in its comment.
pub proof fn law_operation_names()
    ensures
        op_name(Operation::Checkpoint) == "CHECKPOINT"@,
        op_name(Operation::From) == "FROM"@,
        op_name(Operation::Arg) == "ARG"@,
        op_name(Operation::Env) == "ENV"@,
        op_name(Operation::Run) == "RUN"@,
        op_name(Operation::Workdir) == "WORKDIR"@,
        op_name(Operation::Copy) == "COPY"@,
        op_name(Operation::Add) == "ADD"@,
        op_name(Operation::Label) == "LABEL"@,
        op_name(Operation::User) == "USER"@,
        op_name(Operation::Entrypoint) == "ENTRYPOINT"@,
        op_name(Operation::Cmd) == "CMD"@,
        op_name(Operation::Expose) == "EXPOSE"@,
        op_name(Operation::Volume) == "VOLUME"@,
        op_name(Operation::StopSignal) == "STOPSIGNAL"@,
        op_name(Operation::HealthCheck) == "HEALTHCHECK"@,
{
}

/// An ARG or ENV instruction whose expanded line cannot be split into words is refused and sets
/// nothing, and an ENV instruction is refused for its first word that has no equals sign.
pub proof fn law_refused_variables(
    op: Operation,
    line: Seq<char>,
    text: Seq<char>,
    stage: Vars,
    global: Vars,
)
    requires
        op is Arg || op is Env,
        expand(line, stage) == Ok::<Seq<char>, Seq<char>>(text),
    ensures
        shell_words(text) is None ==> prepared((op, line), stage, global) == (
            stage,
            Err::<Option<Step>, BuildFailure>(BuildFailure::Unbalanced),
        ),
        shell_words(text) matches Some(ws) ==> (op is Env ==> forall|i: int|
            0 <= i < ws.len() && !(#[trigger] ws[i]).contains('=') && (forall|j: int|
                0 <= j < i ==> (#[trigger] ws[j]).contains('=')) ==> prepared(
                (op, line),
                stage,
                global,
            ).1 == Err::<Option<Step>, BuildFailure>(BuildFailure::NotKeyValue { word: ws[i] })),
{
    if let Some(ws) = shell_words(text) {
        lemma_first_refused(ws);
    }
}

proof fn lemma_first_refused(ws: Seq<Seq<char>>)
    ensures
        forall|i: int|
            0 <= i < ws.len() && !(#[trigger] ws[i]).contains('=') && (forall|j: int|
                0 <= j < i ==> (#[trigger] ws[j]).contains('=')) ==> first_without_value(ws) == Some(
                ws[i],
            ),
{
    law_first_word_without_value(ws);
    assert forall|i: int|
        0 <= i < ws.len() && !(#[trigger] ws[i]).contains('=') && (forall|j: int|
            0 <= j < i ==> (#[trigger] ws[j]).contains('=')) implies first_without_value(ws) == Some(
        ws[i],
    ) by {
        if let Some(w) = first_without_value(ws) {
            let k = choose|k: int|
                0 <= k < ws.len() && #[trigger] ws[k] == w && !w.contains('=') && forall|j: int|
                    0 <= j < k ==> (#[trigger] ws[j]).contains('=');
            assert(k == i);
        }
    }
}

/// An ARG instruction before the first FROM is refused where its line cannot be expanded, where it
/// cannot be split into words, and for its first word that has no equals sign.
pub proof fn law_refused_preamble(ops: Seq<Instruction>, line: Seq<char>, global: Vars)
    requires
        preamble(ops, global).1 is None,
    ensures
        ({
            let r = preamble(ops.push((Operation::Arg, line)), global).1;
            match expand(line, preamble(ops, global).0) {
                Err(inner) => r == Some(BuildFailure::MissingBrace { inner }),
                Ok(text) => match shell_words(text) {
                    None => r == Some(BuildFailure::Unbalanced),
                    Some(ws) => forall|i: int|
                        0 <= i < ws.len() && !(#[trigger] ws[i]).contains('=') && (forall|j: int|
                            0 <= j < i ==> (#[trigger] ws[j]).contains('=')) ==> r == Some(
                            BuildFailure::NotKeyValue { word: ws[i] },
                        ),
                },
            }
        }),
{
    assert(ops.push((Operation::Arg, line)).drop_last() =~= ops);
    if let Ok(text) = expand(line, preamble(ops, global).0) {
        if let Some(ws) = shell_words(text) {
            lemma_first_refused(ws);
        }
    }
}

} // verus!
