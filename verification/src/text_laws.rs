//! What trimming, splitting and the reading of numbers do to a text.
use vstd::prelude::*;

use crate::text::{
    all_digits, contains, decimal, digits_value, find, is_space, joined, lemma_decimal, lemma_find,
    lemma_find_is, lemma_less_irreflexive, lines, number, number_upto, occurs_at, split_once,
    strip_prefix, strip_suffix, text_less, trim, trim_end, trim_start, words,
};

verus! {

/// White space is what Unicode says it is: the five control characters from the tab to the
/// carriage return, the space, and a few other characters.
pub proof fn law_white_space(c: char)
    ensures
        is_space(c) == (set![
            9int,
            10,
            11,
            12,
            13,
            32,
            133,
            160,
            5760,
            8192,
            8193,
            8194,
            8195,
            8196,
            8197,
            8198,
            8199,
            8200,
            8201,
            8202,
            8232,
            8233,
            8239,
            8287,
            12288,
        ].contains(c as int)),
{
}

proof fn lemma_trim_start_blank(a: Seq<char>, t: Seq<char>)
    requires
        forall|i: int| 0 <= i < a.len() ==> is_space(#[trigger] a[i]),
        t.len() > 0 ==> !is_space(t[0]),
    ensures
        trim_start(a + t) == t,
    decreases a.len(),
{
    if a.len() > 0 {
        assert(is_space(a[0]));
        assert((a + t).drop_first() =~= a.drop_first() + t);
        assert forall|i: int| 0 <= i < a.drop_first().len() implies is_space(
            #[trigger] a.drop_first()[i],
        ) by {
            assert(is_space(a[i + 1]));
        }
        lemma_trim_start_blank(a.drop_first(), t);
    } else {
        assert(a + t =~= t);
    }
}

proof fn lemma_trim_end_blank(t: Seq<char>, b: Seq<char>)
    requires
        forall|i: int| 0 <= i < b.len() ==> is_space(#[trigger] b[i]),
        t.len() > 0 ==> !is_space(t.last()),
    ensures
        trim_end(t + b) == t,
    decreases b.len(),
{
    if b.len() > 0 {
        assert(is_space(b[b.len() - 1]));
        assert((t + b).drop_last() =~= t + b.drop_last());
        lemma_trim_end_blank(t, b.drop_last());
    } else {
        assert(t + b =~= t);
    }
}

/// Trimming takes the white space away at either end of a text, and nothing else.
pub proof fn law_trim(a: Seq<char>, t: Seq<char>, b: Seq<char>)
    requires
        forall|i: int| 0 <= i < a.len() ==> is_space(#[trigger] a[i]),
        forall|i: int| 0 <= i < b.len() ==> is_space(#[trigger] b[i]),
        t.len() > 0 ==> !is_space(t[0]) && !is_space(t.last()),
    ensures
        trim(a + t + b) == t,
{
    if t.len() > 0 {
        assert(a + t + b =~= a + (t + b));
        lemma_trim_start_blank(a, t + b);
        lemma_trim_end_blank(t, b);
    } else {
        let all = a + t + b;
        assert forall|i: int| 0 <= i < all.len() implies is_space(#[trigger] all[i]) by {
            if i < a.len() {
                assert(is_space(a[i]));
            } else {
                assert(is_space(b[i - a.len()]));
            }
        }
        lemma_trim_start_blank(all, t);
        assert(all + t =~= all);
        assert(t =~= seq![]);
        lemma_trim_end_blank(t, seq![]);
        assert(t + Seq::<char>::empty() =~= t);
    }
}

/// A text of white space has no words; a word alone is its only word; and where white space
/// stands between two texts, the words are those of the one and then those of the other.
pub proof fn law_words(a: Seq<char>, c: char, b: Seq<char>)
    requires
        is_space(c),
    ensures
        words(seq![]) == Seq::<Seq<char>>::empty(),
        a.len() > 0 && (forall|i: int| 0 <= i < a.len() ==> !is_space(#[trigger] a[i])) ==> words(a)
            == seq![a],
        words(a + seq![c] + b) == words(a) + words(b),
{
    crate::text::lemma_words_apart(a, c, b);
    assert(trim_start(seq![]).len() == 0);
    assert(words(seq![]) =~= seq![]);
    if a.len() > 0 && (forall|i: int| 0 <= i < a.len() ==> !is_space(#[trigger] a[i])) {
        crate::text::lemma_one_word(a);
    }
}

/// A text is cut at the first place at which the separator stands: the two sides with the
/// separator between them are the text, and it does not stand at any place before. Where the
/// text is not cut, the separator does not stand in it at all.
pub proof fn law_split_once(s: Seq<char>, p: Seq<char>)
    ensures
        match split_once(s, p) {
            Some((a, b)) => s == a + p + b && forall|i: int|
                0 <= i < a.len() && i + p.len() <= s.len() ==> #[trigger] s.subrange(
                    i,
                    i + p.len(),
                ) != p,
            None => forall|i: int|
                0 <= i && i + p.len() <= s.len() ==> #[trigger] s.subrange(i, i + p.len()) != p,
        },
{
    lemma_find(s, p);
    match find(s, p) {
        Some(i) => {
            assert(s =~= s.take(i) + s.subrange(i, i + p.len()) + s.skip(i + p.len()));
            assert forall|j: int| 0 <= j < i && j + p.len() <= s.len() implies #[trigger] s.subrange(
                j,
                j + p.len(),
            ) != p by {
                assert(!occurs_at(s, p, j));
            }
        },
        None => {
            assert forall|j: int| 0 <= j && j + p.len() <= s.len() implies #[trigger] s.subrange(
                j,
                j + p.len(),
            ) != p by {
                assert(!occurs_at(s, p, j));
            }
        },
    }
}

/// A text whose front does not hold a character is cut at the first such character behind the
/// front.
pub proof fn law_split_at_character(a: Seq<char>, c: char, b: Seq<char>)
    requires
        !a.contains(c),
    ensures
        split_once(a + seq![c] + b, seq![c]) == Some((a, b)),
        split_once(a, seq![c]) is None,
{
    let s = a + seq![c] + b;
    let n = a.len() as int;
    assert(s.subrange(n, n + 1) =~= seq![c]);
    assert forall|j: int| 0 <= j < n implies !occurs_at(s, seq![c], j) by {
        assert(a.contains(a[j]));
        assert(s.subrange(j, j + 1)[0] == a[j]);
    }
    lemma_find_is(s, seq![c], n);
    assert(s.take(n) =~= a);
    assert(s.skip(n + 1) =~= b);
    lemma_find(a, seq![c]);
    if let Some(i) = find(a, seq![c]) {
        assert(a.subrange(i, i + 1)[0] == a[i]);
        assert(a.contains(a[i]));
    }
}

/// A text contains another one exactly where it is made of something, that text, and something
/// else.
pub proof fn law_contains(a: Seq<char>, p: Seq<char>, b: Seq<char>)
    ensures
        contains(a + p + b, p),
        contains(a, p) ==> exists|x: Seq<char>, y: Seq<char>| a == #[trigger] (x + p + y),
{
    let s = a + p + b;
    let n = a.len() as int;
    assert(s.subrange(n, n + p.len()) =~= p);
    assert(occurs_at(s, p, n));
    if contains(a, p) {
        let i = choose|i: int| occurs_at(a, p, i);
        let x = a.take(i);
        let y = a.skip(i + p.len());
        assert(a =~= x + p + y);
    }
}

/// A prefix or suffix is taken away exactly where a text has it.
pub proof fn law_strip(s: Seq<char>, p: Seq<char>)
    ensures
        strip_prefix(p + s, p) == Some(s),
        strip_suffix(s + p, p) == Some(s),
        strip_prefix(s, p) matches Some(t) ==> s == p + t,
        strip_suffix(s, p) matches Some(t) ==> s == t + p,
{
    assert((p + s).subrange(0, p.len() as int) =~= p);
    assert((p + s).skip(p.len() as int) =~= s);
    assert((s + p).subrange(s.len() as int, (s + p).len() as int) =~= p);
    assert((s + p).take(s.len() as int) =~= s);
    if let Some(t) = strip_prefix(s, p) {
        assert(s =~= p + t);
    }
    if let Some(t) = strip_suffix(s, p) {
        assert(s.subrange(s.len() - p.len(), s.len() as int) =~= p);
        assert(s =~= t + p);
    }
}

/// The lines of a text are what stands before each line feed, without a carriage return right
/// before it, and what stands behind the last one, if anything does.
pub proof fn law_lines(a: Seq<char>, b: Seq<char>)
    requires
        !a.contains('\n'),
    ensures
        lines(seq![]) == Seq::<Seq<char>>::empty(),
        a.len() > 0 ==> lines(a) == seq![a],
        a.len() == 0 || a.last() != '\r' ==> lines(a + seq!['\n'] + b) == seq![a] + lines(b),
        lines(a + seq!['\r', '\n'] + b) == seq![a] + lines(b),
{
    lemma_find(a, seq!['\n']);
    if let Some(i) = find(a, seq!['\n']) {
        assert(a.subrange(i, i + 1)[0] == a[i]);
        assert(a.contains(a[i]));
    }
    lemma_line(a, b);
    let r = a.push('\r');
    assert forall|i: int| 0 <= i < r.len() implies r[i] != '\n' by {
        if i < a.len() {
            assert(a.contains(a[i]));
        }
    }
    lemma_line(r, b);
    assert(a + seq!['\r', '\n'] + b =~= r + seq!['\n'] + b);
    assert(r.drop_last() =~= a);
}

proof fn lemma_line(a: Seq<char>, b: Seq<char>)
    requires
        !a.contains('\n'),
    ensures
        lines(a + seq!['\n'] + b) == seq![
            if a.len() > 0 && a.last() == '\r' {
                a.drop_last()
            } else {
                a
            },
        ] + lines(b),
{
    let s = a + seq!['\n'] + b;
    let n = a.len() as int;
    assert(s.subrange(n, n + 1) =~= seq!['\n']);
    assert forall|j: int| 0 <= j < n implies !occurs_at(s, seq!['\n'], j) by {
        assert(a.contains(a[j]));
        assert(s.subrange(j, j + 1)[0] == a[j]);
    }
    lemma_find_is(s, seq!['\n'], n);
    assert(s.take(n) =~= a);
    assert(s.skip(n + 1) =~= b);
}

/// Joined texts stand in their order, with the separator between each two and nowhere else.
pub proof fn law_joined(parts: Seq<Seq<char>>, sep: Seq<char>, last: Seq<char>)
    ensures
        joined(seq![], sep) == Seq::<char>::empty(),
        joined(seq![last], sep) == last,
        parts.len() > 0 ==> joined(parts.push(last), sep) == joined(parts, sep) + sep + last,
{
    assert(parts.push(last).drop_last() =~= parts);
}

/// A decimal number is read digit by digit, with or without one plus sign before it; what holds
/// another character, or nothing, is no number; and one above the limit is none either.
pub proof fn law_number(s: Seq<char>, c: char, max: nat)
    ensures
        number(seq![]) is None,
        '0' <= c <= '9' && number(s) is Some ==> number(s.push(c)) == Some(
            (10 * number(s)->0 + (c as int - 48)) as nat,
        ),
        '0' <= c <= '9' ==> number(seq![c]) == Some((c as int - 48) as nat),
        s.len() > 0 && s[0] != '+' ==> number(seq!['+'] + s) == number(s),
        s.len() > 0 && number(s) is None ==> number(s.push(c)) is None || s == seq!['+'],
        s.len() > 0 && !('0' <= c <= '9') ==> number(s.push(c)) is None,
        number_upto(s, max) matches Some(n) ==> number(s) == Some(n) && n <= max,
        number_upto(s, max) is None ==> number(s) is None || number(s)->0 > max,
{
    let t = s.push(c);
    let one = seq![c];
    let zero = Seq::<char>::empty();
    assert(one.drop_last() =~= zero);
    assert(digits_value(zero) == 0);
    if '0' <= c <= '9' {
        assert(all_digits(one));
        assert(digits_value(one) == c as int - 48);
    }
    if s.len() > 0 {
        assert(t[0] == s[0]);
        let plus = seq!['+'] + s;
        assert(plus.skip(1) =~= s);
        if s.len() > 1 && s[0] == '+' {
            let u = s.skip(1);
            assert(t.skip(1) =~= u.push(c));
            lemma_one_more_digit(u, c);
        } else if s.len() == 1 && s[0] == '+' {
            assert(t.skip(1) =~= one);
            assert(s =~= seq!['+']);
            assert(!crate::text::is_digit(s[0]));
        } else {
            lemma_one_more_digit(s, c);
        }
    }
}

proof fn lemma_one_more_digit(s: Seq<char>, c: char)
    requires
        s.len() > 0,
    ensures
        all_digits(s.push(c)) == (all_digits(s) && '0' <= c <= '9'),
        all_digits(s) && '0' <= c <= '9' ==> digits_value(s.push(c)) == 10 * digits_value(s) + (
        c as int - 48),
{
    let t = s.push(c);
    assert(t.drop_last() =~= s);
    assert(t.last() == c);
    if all_digits(t) {
        assert(crate::text::is_digit(t[s.len() as int]));
        assert forall|i: int| 0 <= i < s.len() implies crate::text::is_digit(#[trigger] s[i]) by {
            assert(crate::text::is_digit(t[i]));
        }
    }
    if all_digits(s) && '0' <= c <= '9' {
        assert forall|i: int| 0 <= i < t.len() implies crate::text::is_digit(#[trigger] t[i]) by {
            if i < s.len() {
                assert(crate::text::is_digit(s[i]));
            }
        }
    }
}

/// The decimal form of a number denotes it, and has no zero in front that it could do without.
pub proof fn law_decimal(n: nat)
    ensures
        number(decimal(n)) == Some(n),
        n > 0 ==> decimal(n)[0] != '0',
        n == 0 ==> decimal(n) == seq!['0'],
    decreases n,
{
    lemma_decimal(n);
    if n >= 10 {
        law_decimal(n / 10);
        lemma_decimal(n / 10);
    }
}

/// The order of texts goes by their first difference: one that starts another comes before it,
/// and otherwise the smaller character at the first place where they differ decides.
pub proof fn law_order(a: Seq<char>, x: char, b: Seq<char>, y: char, c: Seq<char>)
    requires
        x < y,
    ensures
        text_less(a + seq![x] + b, a + seq![y] + c),
        !text_less(a + seq![y] + c, a + seq![x] + b),
        text_less(a, a + seq![x] + b),
        !text_less(a, a),
    decreases a.len(),
{
    let s = a + seq![x] + b;
    let t = a + seq![y] + c;
    lemma_less_irreflexive(a);
    if a.len() > 0 {
        let r = a.drop_first();
        assert(s.drop_first() =~= r + seq![x] + b);
        assert(t.drop_first() =~= r + seq![y] + c);
        law_order(r, x, b, y, c);
    }
}

} // verus!
