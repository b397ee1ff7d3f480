//! Texts as sequences of characters: trimming, searching, splitting, comparing, and the
//! decimal form of numbers.
use vstd::prelude::*;
use vstd::slice::slice_subrange;

verus! {

// ---------------------------------------------------------------------------------------
// Conversions
// ---------------------------------------------------------------------------------------
/// The texts of a list of strings.
pub open spec fn texts(v: Seq<String>) -> Seq<Seq<char>> {
    v.map_values(|s: String| s@)
}

/// The texts of a list of string slices.
pub open spec fn slice_texts(v: Seq<&str>) -> Seq<Seq<char>> {
    v.map_values(|s: &str| s@)
}

/// The text of an optional string.
pub open spec fn opt_text(o: Option<String>) -> Option<Seq<char>> {
    match o {
        Some(s) => Some(s@),
        None => None,
    }
}

/// The characters of a string.
pub(crate) fn to_chars(s: &str) -> (r: Vec<char>)
    ensures
        r@ == s@,
{
    let mut r: Vec<char> = Vec::new();
    for c in it: s.chars()
        invariant
            r@ == it.seq().take(it.index()),
            it.seq() == s@,
    {
        proof {
            assert(it.seq().take(it.index() + 1) =~= it.seq().take(it.index()).push(c));
        }
        r.push(c);
    }
    proof {
        assert(s@.take(s@.len() as int) =~= s@);
    }
    r
}

/// The string that some characters make up.
pub(crate) fn to_text(v: &[char]) -> (r: String)
    ensures
        r@ == v@,
{
    let mut r = String::new();
    let mut i: usize = 0;
    while i < v.len()
        invariant
            i <= v.len(),
            r@ == v@.take(i as int),
        decreases v.len() - i,
    {
        proof {
            assert(v@.take(i + 1) =~= v@.take(i as int).push(v@[i as int]));
        }
        r.push(v[i]);
        i += 1;
    }
    proof {
        assert(v@.take(v@.len() as int) =~= v@);
    }
    r
}

/// Puts some characters behind those that are there.
pub(crate) fn push_all(out: &mut Vec<char>, more: &[char])
    ensures
        final(out)@ == old(out)@ + more@,
{
    let mut i: usize = 0;
    let ghost before = out@;
    while i < more.len()
        invariant
            i <= more.len(),
            out@ == before + more@.take(i as int),
        decreases more.len() - i,
    {
        proof {
            assert(more@.take(i + 1) =~= more@.take(i as int).push(more@[i as int]));
        }
        out.push(more[i]);
        i += 1;
    }
    proof {
        assert(more@.take(more@.len() as int) =~= more@);
    }
}

/// Puts a text behind the characters that are there.
pub(crate) fn append(out: &mut Vec<char>, more: &str)
    ensures
        final(out)@ == old(out)@ + more@,
{
    let m = to_chars(more);
    push_all(out, &m);
}

/// The characters from position `from` on.
pub(crate) fn tail(s: &[char], from: usize) -> (r: &[char])
    requires
        from <= s@.len(),
    ensures
        r@ == s@.skip(from as int),
{
    let r = slice_subrange(s, from, s.len());
    proof {
        assert(r@ =~= s@.skip(from as int));
    }
    r
}

/// The characters before position `to`.
pub(crate) fn head(s: &[char], to: usize) -> (r: &[char])
    requires
        to <= s@.len(),
    ensures
        r@ == s@.take(to as int),
{
    let r = slice_subrange(s, 0, to);
    proof {
        assert(r@ =~= s@.take(to as int));
    }
    r
}

// ---------------------------------------------------------------------------------------
// White space
// ---------------------------------------------------------------------------------------
/// The characters with the Unicode property `White_Space`.
pub open spec fn is_space(c: char) -> bool {
    ||| '\u{9}' <= c <= '\u{d}'
    ||| c == ' '
    ||| c == '\u{85}'
    ||| c == '\u{a0}'
    ||| c == '\u{1680}'
    ||| '\u{2000}' <= c <= '\u{200a}'
    ||| c == '\u{2028}'
    ||| c == '\u{2029}'
    ||| c == '\u{202f}'
    ||| c == '\u{205f}'
    ||| c == '\u{3000}'
}

/// Whether a character is white space.
pub fn is_space_char(c: char) -> (r: bool)
    ensures
        r == is_space(c),
{
    ('\u{9}' <= c && c <= '\u{d}') || c == ' ' || c == '\u{85}' || c == '\u{a0}' || c
        == '\u{1680}' || ('\u{2000}' <= c && c <= '\u{200a}') || c == '\u{2028}' || c
        == '\u{2029}' || c == '\u{202f}' || c == '\u{205f}' || c == '\u{3000}'
}

/// A text without the white space that it starts with.
pub open spec fn trim_start(s: Seq<char>) -> Seq<char>
    decreases s.len(),
{
    if s.len() > 0 && is_space(s.first()) {
        trim_start(s.drop_first())
    } else {
        s
    }
}

/// A text without the white space that it ends with.
pub open spec fn trim_end(s: Seq<char>) -> Seq<char>
    decreases s.len(),
{
    if s.len() > 0 && is_space(s.last()) {
        trim_end(s.drop_last())
    } else {
        s
    }
}

/// A text without the white space at either end.
pub open spec fn trim(s: Seq<char>) -> Seq<char> {
    trim_end(trim_start(s))
}

/// A text without the white space at its end still has every character that is none, and
/// all that stands before it.
pub proof fn lemma_trim_end_keeps(s: Seq<char>, i: int)
    requires
        0 <= i < s.len(),
        !is_space(s[i]),
    ensures
        i < trim_end(s).len(),
        trim_end(s).is_prefix_of(s),
    decreases s.len(),
{
    if is_space(s.last()) {
        let front = s.drop_last();
        lemma_trim_end_keeps(front, i);
        let t = trim_end(front);
        assert(t =~= front.subrange(0, t.len() as int));
        assert(t =~= s.subrange(0, t.len() as int));
    } else {
        assert(s.subrange(0, s.len() as int) =~= s);
    }
}

/// A text that neither starts nor ends with white space stays as it is.
pub proof fn lemma_trim_nothing(s: Seq<char>)
    requires
        s.len() > 0,
        !is_space(s[0]),
        !is_space(s.last()),
    ensures
        trim(s) == s,
{
    assert(trim_start(s) == s);
    assert(trim_end(s) == s);
}

/// A text that does not start with white space starts the same when it is trimmed.
pub proof fn lemma_trim_keeps_first(s: Seq<char>)
    requires
        s.len() > 0,
        !is_space(s[0]),
    ensures
        trim(s).len() > 0,
        trim(s)[0] == s[0],
{
    assert(trim_start(s) == s);
    lemma_trim_end_keeps_first(s);
}

proof fn lemma_trim_end_keeps_first(s: Seq<char>)
    requires
        s.len() > 0,
        !is_space(s[0]),
    ensures
        trim_end(s).len() > 0,
        trim_end(s)[0] == s[0],
    decreases s.len(),
{
    if is_space(s.last()) {
        lemma_trim_end_keeps_first(s.drop_last());
    }
}

pub(crate) fn trimmed_start(s: &[char]) -> (r: &[char])
    ensures
        r@ == trim_start(s@),
{
    let mut i: usize = 0;
    proof {
        assert(s@.skip(0) =~= s@);
    }
    while i < s.len() && is_space_char(s[i])
        invariant
            i <= s.len(),
            trim_start(s@.skip(i as int)) == trim_start(s@),
        decreases s.len() - i,
    {
        proof {
            assert(s@.skip(i as int).drop_first() =~= s@.skip(i + 1));
        }
        i += 1;
    }
    tail(s, i)
}

pub(crate) fn trimmed_end(s: &[char]) -> (r: &[char])
    ensures
        r@ == trim_end(s@),
{
    let mut n: usize = s.len();
    proof {
        assert(s@.take(n as int) =~= s@);
    }
    while n > 0 && is_space_char(s[n - 1])
        invariant
            n <= s.len(),
            trim_end(s@.take(n as int)) == trim_end(s@),
        decreases n,
    {
        proof {
            assert(s@.take(n as int).drop_last() =~= s@.take(n - 1));
        }
        n -= 1;
    }
    head(s, n)
}

pub(crate) fn trimmed(s: &[char]) -> (r: &[char])
    ensures
        r@ == trim(s@),
{
    trimmed_end(trimmed_start(s))
}

/// A string without the white space at either end.
pub fn trimmed_text(s: &str) -> (r: String)
    ensures
        r@ == trim(s@),
{
    let c = to_chars(s);
    to_text(trimmed(&c))
}

/// The length of the first word of a text that does not start with white space.
pub open spec fn word_len(s: Seq<char>) -> int
    decreases s.len(),
{
    if s.len() > 0 && !is_space(s[0]) {
        1 + word_len(s.drop_first())
    } else {
        0
    }
}

/// The words of a text, between white space.
pub open spec fn words(s: Seq<char>) -> Seq<Seq<char>>
    decreases s.len(),
    via words_decreases
{
    let t = trim_start(s);
    if t.len() == 0 {
        seq![]
    } else {
        seq![t.take(word_len(t))] + words(t.skip(word_len(t)))
    }
}

#[via_fn]
proof fn words_decreases(s: Seq<char>) {
    lemma_trim_start(s);
    lemma_word_len(trim_start(s));
}

proof fn lemma_trim_start(s: Seq<char>)
    ensures
        trim_start(s).len() <= s.len(),
        trim_start(s).len() > 0 ==> !is_space(trim_start(s)[0]),
    decreases s.len(),
{
    if s.len() > 0 && is_space(s.first()) {
        lemma_trim_start(s.drop_first());
    }
}

proof fn lemma_word_len(s: Seq<char>)
    ensures
        0 <= word_len(s) <= s.len(),
        s.len() > 0 && !is_space(s[0]) ==> word_len(s) > 0,
    decreases s.len(),
{
    if s.len() > 0 && !is_space(s[0]) {
        lemma_word_len(s.drop_first());
    }
}

/// A text that starts with white space has the words of what follows it.
proof fn lemma_words_skip_space(s: Seq<char>)
    requires
        s.len() > 0,
        is_space(s[0]),
    ensures
        words(s) == words(s.drop_first()),
{
}

proof fn lemma_word_len_before_space(a: Seq<char>, c: char, b: Seq<char>)
    requires
        is_space(c),
    ensures
        word_len(a + seq![c] + b) == word_len(a),
    decreases a.len(),
{
    let s = a + seq![c] + b;
    if a.len() == 0 {
        assert(s[0] == c);
    } else {
        assert(s[0] == a[0]);
        if !is_space(a[0]) {
            assert(s.drop_first() =~= a.drop_first() + seq![c] + b);
            lemma_word_len_before_space(a.drop_first(), c, b);
        }
    }
}

/// The words of two texts with white space between them are those of the one and those of
/// the other.
pub proof fn lemma_words_apart(a: Seq<char>, c: char, b: Seq<char>)
    requires
        is_space(c),
    ensures
        words(a + seq![c] + b) == words(a) + words(b),
    decreases a.len(),
{
    let s = a + seq![c] + b;
    if a.len() == 0 {
        assert(s[0] == c);
        assert(s.drop_first() =~= b);
        lemma_words_skip_space(s);
        assert(trim_start(a).len() == 0);
        assert(words(a) =~= seq![]);
        assert(words(a) + words(b) =~= words(b));
    } else if is_space(a[0]) {
        assert(s[0] == a[0]);
        assert(s.drop_first() =~= a.drop_first() + seq![c] + b);
        lemma_words_skip_space(s);
        lemma_words_skip_space(a);
        lemma_words_apart(a.drop_first(), c, b);
    } else {
        assert(s[0] == a[0]);
        assert(trim_start(a) == a);
        assert(trim_start(s) == s);
        let n = word_len(a);
        lemma_word_len(a);
        lemma_word_len_before_space(a, c, b);
        assert(s.take(n) =~= a.take(n));
        assert(s.skip(n) =~= a.skip(n) + seq![c] + b);
        lemma_words_apart(a.skip(n), c, b);
        assert(words(s) =~= words(a) + words(b));
    }
}

proof fn lemma_words_trim_start(s: Seq<char>)
    ensures
        words(trim_start(s)) == words(s),
    decreases s.len(),
{
    if s.len() > 0 && is_space(s[0]) {
        lemma_words_trim_start(s.drop_first());
    }
}

proof fn lemma_words_trim_end(s: Seq<char>)
    ensures
        words(trim_end(s)) == words(s),
    decreases s.len(),
{
    if s.len() > 0 && is_space(s.last()) {
        lemma_words_trim_end(s.drop_last());
        let none = Seq::<char>::empty();
        assert(s =~= s.drop_last() + seq![s.last()] + none);
        lemma_words_apart(s.drop_last(), s.last(), none);
        assert(trim_start(none).len() == 0);
        assert(words(none) =~= seq![]);
        assert(words(s.drop_last()) + words(none) =~= words(s.drop_last()));
    }
}

/// Trimming a text leaves its words as they are.
pub proof fn lemma_words_trim(s: Seq<char>)
    ensures
        words(trim(s)) == words(s),
{
    lemma_words_trim_start(s);
    lemma_words_trim_end(trim_start(s));
}

/// A text without white space is its only word.
pub proof fn lemma_one_word(s: Seq<char>)
    requires
        s.len() > 0,
        forall|i: int| 0 <= i < s.len() ==> !is_space(#[trigger] s[i]),
    ensures
        words(s) == seq![s],
{
    assert(trim_start(s) == s);
    lemma_word_len_whole(s);
    let none = s.skip(s.len() as int);
    assert(none.len() == 0);
    assert(trim_start(none).len() == 0);
    assert(words(none) =~= seq![]);
    assert(s.take(s.len() as int) =~= s);
    assert(words(s) =~= seq![s]);
}

proof fn lemma_word_len_whole(s: Seq<char>)
    requires
        forall|i: int| 0 <= i < s.len() ==> !is_space(#[trigger] s[i]),
    ensures
        word_len(s) == s.len(),
    decreases s.len(),
{
    if s.len() > 0 {
        assert forall|i: int| 0 <= i < s.drop_first().len() implies !is_space(
            #[trigger] s.drop_first()[i],
        ) by {
            assert(s.drop_first()[i] == s[i + 1]);
        }
        lemma_word_len_whole(s.drop_first());
    }
}

fn find_word_len(s: &[char]) -> (r: usize)
    ensures
        r == word_len(s@),
        r <= s@.len(),
{
    let mut i: usize = 0;
    proof {
        assert(s@.skip(0) =~= s@);
    }
    while i < s.len() && !is_space_char(s[i])
        invariant
            i <= s@.len(),
            word_len(s@) == i + word_len(s@.skip(i as int)),
        decreases s.len() - i,
    {
        proof {
            assert(s@.skip(i as int).drop_first() =~= s@.skip(i + 1));
        }
        i += 1;
    }
    i
}

/// The words of a text, between white space.
pub(crate) fn split_space(s: &[char]) -> (r: Vec<String>)
    ensures
        texts(r@) == words(s@),
{
    let mut r: Vec<String> = Vec::new();
    let mut rest: &[char] = trimmed_start(s);
    proof {
        assert(texts(r@) + words(s@) =~= words(s@));
        lemma_trim_twice(s@);
    }
    while rest.len() > 0
        invariant
            trim_start(rest@) == rest@,
            texts(r@) + words(rest@) == words(s@),
        decreases rest@.len(),
    {
        let n = find_word_len(rest);
        let word = to_text(head(rest, n));
        let ghost before = texts(r@);
        let ghost w = word@;
        r.push(word);
        let next = trimmed_start(tail(rest, n));
        proof {
            lemma_trim_start(rest@);
            lemma_word_len(rest@);
            lemma_trim_start(rest@.skip(n as int));
            assert(texts(r@) =~= before.push(w));
            lemma_trim_twice(rest@.skip(n as int));
            assert(before + (seq![w] + words(next@)) =~= texts(r@) + words(next@));
        }
        rest = next;
    }
    proof {
        assert(texts(r@) + seq![] =~= texts(r@));
    }
    r
}

/// Trimming the start again changes nothing, and neither the words.
proof fn lemma_trim_twice(s: Seq<char>)
    ensures
        trim_start(trim_start(s)) == trim_start(s),
        words(trim_start(s)) == words(s),
    decreases s.len(),
{
    if s.len() > 0 && is_space(s.first()) {
        lemma_trim_twice(s.drop_first());
    }
}

// ---------------------------------------------------------------------------------------
// Comparing and searching
// ---------------------------------------------------------------------------------------
pub(crate) fn same(a: &[char], b: &[char]) -> (r: bool)
    ensures
        r == (a@ == b@),
{
    if a.len() != b.len() {
        return false;
    }
    let mut i: usize = 0;
    while i < a.len()
        invariant
            a@.len() == b@.len(),
            i <= a.len(),
            forall|k: int| 0 <= k < i ==> a@[k] == b@[k],
        decreases a.len() - i,
    {
        if a[i] != b[i] {
            return false;
        }
        i += 1;
    }
    proof {
        assert(a@ =~= b@);
    }
    true
}

pub(crate) fn is_text(a: &[char], b: &str) -> (r: bool)
    ensures
        r == (a@ == b@),
{
    let c = to_chars(b);
    same(a, &c)
}

pub(crate) fn same_text(a: &str, b: &str) -> (r: bool)
    ensures
        r == (a@ == b@),
{
    let c = to_chars(a);
    is_text(&c, b)
}

/// Whether `p` stands in `s` at position `i`.
pub open spec fn occurs_at(s: Seq<char>, p: Seq<char>, i: int) -> bool {
    0 <= i && i + p.len() <= s.len() && s.subrange(i, i + p.len()) == p
}

/// Whether `p` stands in `s` anywhere.
pub open spec fn contains(s: Seq<char>, p: Seq<char>) -> bool {
    exists|i: int| occurs_at(s, p, i)
}

/// The first position at or behind `k` at which `p` stands in `s`.
pub open spec fn find_from(s: Seq<char>, p: Seq<char>, k: int) -> Option<int>
    decreases s.len() + 1 - k,
{
    if k < 0 || k + p.len() > s.len() {
        None
    } else if occurs_at(s, p, k) {
        Some(k)
    } else {
        find_from(s, p, k + 1)
    }
}

/// The first position at which `p` stands in `s`.
pub open spec fn find(s: Seq<char>, p: Seq<char>) -> Option<int> {
    find_from(s, p, 0)
}

pub(crate) fn occurs(s: &[char], p: &[char], i: usize) -> (r: bool)
    requires
        i + p@.len() <= s@.len(),
    ensures
        r == occurs_at(s@, p@, i as int),
{
    let n: usize = s.len();
    proof {
        assert(i + p@.len() <= n);
    }
    let part = slice_subrange(s, i, i + p.len());
    same(part, p)
}

pub(crate) fn position(s: &[char], p: &[char]) -> (r: Option<usize>)
    ensures
        match r {
            Some(i) => find(s@, p@) == Some(i as int) && i + p@.len() <= s@.len(),
            None => find(s@, p@) is None,
        },
{
    if p.len() > s.len() {
        return None;
    }
    let last: usize = s.len() - p.len();
    let mut i: usize = 0;
    while i < last
        invariant
            i <= last,
            last == s@.len() - p@.len(),
            find(s@, p@) == find_from(s@, p@, i as int),
        decreases last - i,
    {
        if occurs(s, p, i) {
            return Some(i);
        }
        i += 1;
    }
    if occurs(s, p, i) {
        Some(i)
    } else {
        proof {
            assert(find_from(s@, p@, i + 1) is None);
        }
        None
    }
}

/// What a first position means: `p` stands there and nowhere before it, and where there is
/// none, `p` does not stand in `s` at all.
pub proof fn lemma_find(s: Seq<char>, p: Seq<char>)
    ensures
        match find(s, p) {
            Some(i) => occurs_at(s, p, i) && forall|j: int| 0 <= j < i ==> !occurs_at(s, p, j),
            None => forall|j: int| !occurs_at(s, p, j),
        },
        contains(s, p) == (find(s, p) is Some),
{
    lemma_find_from(s, p, 0);
}

/// A place at which `p` stands, and before which it does not, is its first position.
pub proof fn lemma_find_is(s: Seq<char>, p: Seq<char>, i: int)
    requires
        occurs_at(s, p, i),
        forall|j: int| 0 <= j < i ==> !occurs_at(s, p, j),
    ensures
        find(s, p) == Some(i),
{
    lemma_find(s, p);
}

proof fn lemma_find_from(s: Seq<char>, p: Seq<char>, k: int)
    requires
        0 <= k,
    ensures
        match find_from(s, p, k) {
            Some(i) => k <= i && occurs_at(s, p, i) && forall|j: int|
                k <= j < i ==> !occurs_at(s, p, j),
            None => forall|j: int| k <= j ==> !occurs_at(s, p, j),
        },
    decreases s.len() + 1 - k,
{
    if k + p.len() > s.len() {
    } else if occurs_at(s, p, k) {
    } else {
        lemma_find_from(s, p, k + 1);
    }
}

pub(crate) fn contains_text(s: &[char], p: &str) -> (r: bool)
    ensures
        r == contains(s@, p@),
{
    let c = to_chars(p);
    proof {
        lemma_find(s@, p@);
    }
    position(s, &c).is_some()
}

/// The two sides of the first place at which `p` stands in `s`.
pub open spec fn split_once(s: Seq<char>, p: Seq<char>) -> Option<(Seq<char>, Seq<char>)> {
    match find(s, p) {
        Some(i) => Some((s.take(i), s.skip(i + p.len()))),
        None => None,
    }
}

pub(crate) fn cut<'a>(s: &'a [char], p: &str) -> (r: Option<(&'a [char], &'a [char])>)
    ensures
        match r {
            Some((a, b)) => split_once(s@, p@) == Some((a@, b@)),
            None => split_once(s@, p@) is None,
        },
{
    let c = to_chars(p);
    let n: usize = s.len();
    match position(s, &c) {
        Some(i) => Some((head(s, i), tail(s, i + c.len()))),
        None => None,
    }
}

pub(crate) fn starts(s: &[char], p: &str) -> (r: bool)
    ensures
        r == p@.is_prefix_of(s@),
{
    let c = to_chars(p);
    if c.len() > s.len() {
        return false;
    }
    same(head(s, c.len()), &c)
}

pub(crate) fn ends(s: &[char], p: &str) -> (r: bool)
    ensures
        r == p@.is_suffix_of(s@),
{
    let c = to_chars(p);
    if c.len() > s.len() {
        return false;
    }
    let from: usize = s.len() - c.len();
    let t = tail(s, from);
    proof {
        assert(t@ =~= s@.subrange(s@.len() - p@.len(), s@.len() as int));
    }
    same(t, &c)
}

/// A text without a prefix, where it has it.
pub open spec fn strip_prefix(s: Seq<char>, p: Seq<char>) -> Option<Seq<char>> {
    if p.is_prefix_of(s) {
        Some(s.skip(p.len() as int))
    } else {
        None
    }
}

/// A text without a suffix, where it has it.
pub open spec fn strip_suffix(s: Seq<char>, p: Seq<char>) -> Option<Seq<char>> {
    if p.is_suffix_of(s) {
        Some(s.take(s.len() - p.len()))
    } else {
        None
    }
}

pub(crate) fn without_prefix<'a>(s: &'a [char], p: &str) -> (r: Option<&'a [char]>)
    ensures
        match r {
            Some(t) => strip_prefix(s@, p@) == Some(t@),
            None => strip_prefix(s@, p@) is None,
        },
{
    if starts(s, p) {
        let n: usize = to_chars(p).len();
        Some(tail(s, n))
    } else {
        None
    }
}

pub(crate) fn without_suffix<'a>(s: &'a [char], p: &str) -> (r: Option<&'a [char]>)
    ensures
        match r {
            Some(t) => strip_suffix(s@, p@) == Some(t@),
            None => strip_suffix(s@, p@) is None,
        },
{
    if ends(s, p) {
        let n: usize = to_chars(p).len();
        Some(head(s, s.len() - n))
    } else {
        None
    }
}

// ---------------------------------------------------------------------------------------
// Lines
// ---------------------------------------------------------------------------------------
/// A line that ended in a line feed, without a carriage return before it.
pub open spec fn without_return(line: Seq<char>) -> Seq<char> {
    if line.len() > 0 && line.last() == '\r' {
        line.drop_last()
    } else {
        line
    }
}

/// The lines of a text. A line ends in a line feed, or in a carriage return and a line feed;
/// the last one need not.
pub open spec fn lines(s: Seq<char>) -> Seq<Seq<char>>
    decreases s.len(),
    via lines_decreases
{
    if s.len() == 0 {
        seq![]
    } else {
        match find(s, seq!['\n']) {
            Some(i) => seq![without_return(s.take(i))] + lines(s.skip(i + 1)),
            None => seq![s],
        }
    }
}

#[via_fn]
proof fn lines_decreases(s: Seq<char>) {
    lemma_find(s, seq!['\n']);
}

/// The texts of a list of character strings.
pub open spec fn char_texts(v: Seq<Vec<char>>) -> Seq<Seq<char>> {
    v.map_values(|c: Vec<char>| c@)
}

pub(crate) fn split_lines(s: &[char]) -> (r: Vec<Vec<char>>)
    ensures
        char_texts(r@) == lines(s@),
{
    let mut r: Vec<Vec<char>> = Vec::new();
    let mut rest: &[char] = s;
    let newline: [char; 1] = ['\n'];
    proof {
        assert(newline@ =~= seq!['\n']);
        assert(char_texts(r@) + lines(rest@) =~= lines(s@));
    }
    while rest.len() > 0
        invariant
            newline@ == seq!['\n'],
            char_texts(r@) + lines(rest@) == lines(s@),
        decreases rest@.len(),
    {
        let ghost before = char_texts(r@);
        match position(rest, &newline) {
            Some(i) => {
                let mut line: Vec<char> = Vec::new();
                let n: usize = if i > 0 && rest[i - 1] == '\r' {
                    i - 1
                } else {
                    i
                };
                push_all(&mut line, head(rest, n));
                proof {
                    assert(line@ =~= without_return(rest@.take(i as int)));
                }
                r.push(line);
                proof {
                    assert(char_texts(r@) =~= before.push(line@));
                    assert(before + (seq![line@] + lines(rest@.skip(i + 1))) =~= char_texts(r@)
                        + lines(rest@.skip(i + 1)));
                }
                rest = tail(rest, i + 1);
            },
            None => {
                let mut line: Vec<char> = Vec::new();
                push_all(&mut line, rest);
                proof {
                    assert(line@ =~= rest@);
                }
                r.push(line);
                proof {
                    assert(char_texts(r@) =~= before.push(line@));
                    assert(before + seq![line@] =~= char_texts(r@));
                }
                return r;
            },
        }
    }
    proof {
        assert(char_texts(r@) + lines(rest@) =~= char_texts(r@));
    }
    r
}

// ---------------------------------------------------------------------------------------
// Pieces
// ---------------------------------------------------------------------------------------
/// The pieces of a text between the occurrences of a character.
pub open spec fn split_on(s: Seq<char>, c: char) -> Seq<Seq<char>>
    decreases s.len(),
    via split_on_decreases
{
    match find(s, seq![c]) {
        Some(i) => seq![s.take(i)] + split_on(s.skip(i + 1), c),
        None => seq![s],
    }
}

#[via_fn]
proof fn split_on_decreases(s: Seq<char>, c: char) {
    lemma_find(s, seq![c]);
}

pub(crate) fn split_pieces(s: &[char], c: char) -> (r: Vec<Vec<char>>)
    ensures
        char_texts(r@) == split_on(s@, c),
{
    let mut r: Vec<Vec<char>> = Vec::new();
    let mut rest: &[char] = s;
    let mut sep: Vec<char> = Vec::new();
    sep.push(c);
    proof {
        assert(sep@ =~= seq![c]);
        assert(char_texts(r@) + split_on(rest@, c) =~= split_on(s@, c));
    }
    loop
        invariant
            sep@ == seq![c],
            char_texts(r@) + split_on(rest@, c) == split_on(s@, c),
        decreases rest@.len(),
    {
        let ghost before = char_texts(r@);
        let mut piece: Vec<char> = Vec::new();
        let n: usize = rest.len();
        match position(rest, &sep) {
            Some(i) => {
                push_all(&mut piece, head(rest, i));
                proof {
                    assert(piece@ =~= rest@.take(i as int));
                }
                r.push(piece);
                proof {
                    assert(char_texts(r@) =~= before.push(piece@));
                    assert(before + (seq![piece@] + split_on(rest@.skip(i + 1), c)) =~= char_texts(
                        r@,
                    ) + split_on(rest@.skip(i + 1), c));
                }
                rest = tail(rest, i + 1);
            },
            None => {
                push_all(&mut piece, rest);
                proof {
                    assert(piece@ =~= rest@);
                }
                r.push(piece);
                proof {
                    assert(char_texts(r@) =~= before.push(piece@));
                    assert(before + seq![piece@] =~= char_texts(r@));
                }
                return r;
            },
        }
    }
}

/// Texts behind one another with a separator between each two.
pub open spec fn joined(parts: Seq<Seq<char>>, sep: Seq<char>) -> Seq<char>
    decreases parts.len(),
{
    if parts.len() == 0 {
        seq![]
    } else if parts.len() == 1 {
        parts[0]
    } else {
        joined(parts.drop_last(), sep) + sep + parts.last()
    }
}

proof fn lemma_char_occurs(s: Seq<char>, c: char, i: int)
    requires
        0 <= i < s.len(),
    ensures
        occurs_at(s, seq![c], i) == (s[i] == c),
{
    assert(s.subrange(i, i + 1) =~= seq![s[i]]);
    assert(seq![s[i]][0] == s[i] && seq![c][0] == c);
}

/// A text without the separator is one piece.
pub proof fn lemma_split_whole(s: Seq<char>, c: char)
    requires
        !s.contains(c),
    ensures
        split_on(s, c) == seq![s],
{
    lemma_find(s, seq![c]);
    if let Some(i) = find(s, seq![c]) {
        lemma_char_occurs(s, c, i);
        assert(s.contains(s[i]));
    }
}

/// No piece has the separator in it.
pub proof fn lemma_split_pieces(s: Seq<char>, c: char)
    ensures
        forall|i: int| 0 <= i < split_on(s, c).len() ==> !(#[trigger] split_on(s, c)[i]).contains(c),
    decreases s.len(),
{
    lemma_find(s, seq![c]);
    match find(s, seq![c]) {
        None => {
            assert forall|j: int| 0 <= j < s.len() implies s[j] != c by {
                lemma_char_occurs(s, c, j);
            }
        },
        Some(i) => {
            let front = s.take(i);
            assert forall|j: int| 0 <= j < front.len() implies front[j] != c by {
                lemma_char_occurs(s, c, j);
            }
            let rest = split_on(s.skip(i + 1), c);
            lemma_split_pieces(s.skip(i + 1), c);
            assert forall|k: int| 0 <= k < split_on(s, c).len() implies !(#[trigger] split_on(
                s,
                c,
            )[k]).contains(c) by {
                if k > 0 {
                    assert(split_on(s, c)[k] == rest[k - 1]);
                } else {
                    assert(split_on(s, c)[0] == front);
                }
            }
        },
    }
}

/// The pieces on both sides of a separator are the pieces of the whole.
pub proof fn lemma_split_apart(a: Seq<char>, c: char, b: Seq<char>)
    ensures
        split_on(a + seq![c] + b, c) == split_on(a, c) + split_on(b, c),
    decreases a.len(),
{
    let s = a + seq![c] + b;
    lemma_find(a, seq![c]);
    match find(a, seq![c]) {
        None => {
            assert forall|j: int| 0 <= j < a.len() implies !occurs_at(s, seq![c], j) by {
                lemma_char_occurs(a, c, j);
                lemma_char_occurs(s, c, j);
            }
            lemma_char_occurs(s, c, a.len() as int);
            lemma_find_is(s, seq![c], a.len() as int);
            assert(s.take(a.len() as int) =~= a);
            assert(s.skip(a.len() as int + 1) =~= b);
        },
        Some(i) => {
            lemma_char_occurs(a, c, i);
            lemma_char_occurs(s, c, i);
            assert forall|j: int| 0 <= j < i implies !occurs_at(s, seq![c], j) by {
                lemma_char_occurs(a, c, j);
                lemma_char_occurs(s, c, j);
            }
            lemma_find_is(s, seq![c], i);
            lemma_split_apart(a.skip(i + 1), c, b);
            assert(s.take(i) =~= a.take(i));
            assert(s.skip(i + 1) =~= a.skip(i + 1) + seq![c] + b);
            assert(split_on(s, c) =~= split_on(a, c) + split_on(b, c));
        },
    }
}

proof fn lemma_joined_front(first: Seq<char>, parts: Seq<Seq<char>>, sep: Seq<char>)
    requires
        parts.len() > 0,
    ensures
        joined(seq![first] + parts, sep) == first + sep + joined(parts, sep),
    decreases parts.len(),
{
    let all = seq![first] + parts;
    assert(all.last() == parts.last());
    if parts.len() == 1 {
        assert(all.drop_last() =~= seq![first]);
        assert(joined(all.drop_last(), sep) == first);
        assert(joined(all, sep) =~= first + sep + parts[0]);
    } else {
        assert(all.drop_last() =~= seq![first] + parts.drop_last());
        lemma_joined_front(first, parts.drop_last(), sep);
        assert(joined(all, sep) =~= first + sep + joined(parts, sep));
    }
}

/// The first pieces of a text are the pieces of the text up to a separator or its end.
pub proof fn lemma_split_front(s: Seq<char>, c: char, n: int)
    requires
        0 < n <= split_on(s, c).len(),
    ensures
        ({
            let t = joined(split_on(s, c).take(n), seq![c]);
            &&& t.is_prefix_of(s)
            &&& split_on(t, c) == split_on(s, c).take(n)
            &&& t == s || s[t.len() as int] == c
            &&& n < split_on(s, c).len() ==> t.len() < s.len()
        }),
    decreases s.len(),
{
    let pieces = split_on(s, c);
    let t = joined(pieces.take(n), seq![c]);
    lemma_find(s, seq![c]);
    match find(s, seq![c]) {
        None => {
            assert(pieces.take(n) =~= seq![s]);
            assert(s.subrange(0, s.len() as int) =~= s);
        },
        Some(i) => {
            let front = s.take(i);
            let back = s.skip(i + 1);
            lemma_char_occurs(s, c, i);
            if n == 1 {
                assert(pieces.take(1) =~= seq![front]);
                assert forall|j: int| 0 <= j < front.len() implies front[j] != c by {
                    lemma_char_occurs(s, c, j);
                }
                lemma_split_whole(front, c);
                assert(s.subrange(0, i) =~= front);
            } else {
                let rest = split_on(back, c);
                assert(pieces.take(n) =~= seq![front] + rest.take(n - 1));
                assert(pieces == seq![front] + rest);
                lemma_joined_front(front, rest.take(n - 1), seq![c]);
                lemma_split_front(back, c, n - 1);
                let u = joined(rest.take(n - 1), seq![c]);
                assert(u =~= back.subrange(0, u.len() as int));
                assert(s =~= front + seq![c] + back);
                assert(t =~= s.subrange(0, t.len() as int));
                lemma_split_apart(front, c, u);
                assert forall|j: int| 0 <= j < front.len() implies front[j] != c by {
                    lemma_char_occurs(s, c, j);
                }
                lemma_split_whole(front, c);
            }
        },
    }
}

/// The pieces of a text, put together, are the text.
pub proof fn lemma_joined_split(s: Seq<char>, c: char)
    ensures
        joined(split_on(s, c), seq![c]) == s,
{
    let pieces = split_on(s, c);
    let n = pieces.len() as int;
    assert(n > 0);
    lemma_split_front(s, c, n);
    assert(pieces.take(n) =~= pieces);
    let t = joined(pieces, seq![c]);
    assert(s.subrange(0, s.len() as int) =~= s);
    if t != s {
        assert(t =~= s.subrange(0, t.len() as int));
        let rest = s.skip(t.len() as int + 1);
        assert(s =~= t + seq![c] + rest);
        lemma_split_apart(t, c, rest);
        assert(split_on(rest, c).len() > 0);
    }
}

/// Pieces without the separator, put together, come apart into the same pieces.
pub proof fn lemma_split_joined(pieces: Seq<Seq<char>>, c: char)
    requires
        pieces.len() > 0,
        forall|i: int| 0 <= i < pieces.len() ==> !(#[trigger] pieces[i]).contains(c),
    ensures
        split_on(joined(pieces, seq![c]), c) == pieces,
    decreases pieces.len(),
{
    if pieces.len() == 1 {
        lemma_split_whole(pieces[0], c);
        assert(seq![pieces[0]] =~= pieces);
    } else {
        let front = pieces.drop_last();
        assert forall|i: int| 0 <= i < front.len() implies !(#[trigger] front[i]).contains(c) by {
            assert(front[i] == pieces[i]);
        }
        lemma_split_joined(front, c);
        lemma_split_apart(joined(front, seq![c]), c, pieces.last());
        lemma_split_whole(pieces.last(), c);
        assert(front + seq![pieces.last()] =~= pieces);
    }
}

pub(crate) fn copy_texts(v: &[String]) -> (r: Vec<String>)
    ensures
        texts(r@) == texts(v@),
{
    let mut r: Vec<String> = Vec::new();
    let mut i: usize = 0;
    while i < v.len()
        invariant
            i <= v@.len(),
            texts(r@) == texts(v@).take(i as int),
        decreases v.len() - i,
    {
        let ghost before = texts(r@);
        r.push(v[i].clone());
        proof {
            assert(texts(r@) =~= before.push(v@[i as int]@));
            assert(texts(v@).take(i + 1) =~= texts(v@).take(i as int).push(v@[i as int]@));
        }
        i += 1;
    }
    proof {
        assert(texts(v@).take(i as int) =~= texts(v@));
    }
    r
}

pub(crate) fn join_texts(parts: &[String], sep: &str) -> (r: String)
    ensures
        r@ == joined(texts(parts@), sep@),
{
    let ghost all = texts(parts@);
    let mut out: Vec<char> = Vec::new();
    let s = to_chars(sep);
    let mut i: usize = 0;
    proof {
        assert(all.take(0) =~= seq![]);
        assert(out@ =~= joined(all.take(0), sep@));
    }
    while i < parts.len()
        invariant
            i <= parts@.len(),
            all == texts(parts@),
            s@ == sep@,
            out@ == joined(all.take(i as int), sep@),
        decreases parts.len() - i,
    {
        if i > 0 {
            push_all(&mut out, &s);
        }
        let part = to_chars(parts[i].as_str());
        push_all(&mut out, &part);
        proof {
            let more = all.take(i + 1);
            assert(more.drop_last() =~= all.take(i as int));
            assert(more.last() == part@);
            assert(out@ =~= joined(more, sep@));
        }
        i += 1;
    }
    proof {
        assert(all.take(i as int) =~= all);
    }
    to_text(&out)
}

// ---------------------------------------------------------------------------------------
// Order
// ---------------------------------------------------------------------------------------
/// Whether `a` comes before `b` in the dictionary order of their characters.
pub open spec fn text_less(a: Seq<char>, b: Seq<char>) -> bool
    decreases a.len(),
{
    if b.len() == 0 {
        false
    } else if a.len() == 0 {
        true
    } else if a[0] == b[0] {
        text_less(a.drop_first(), b.drop_first())
    } else {
        a[0] < b[0]
    }
}

pub(crate) fn comes_before(a: &[char], b: &[char]) -> (r: bool)
    ensures
        r == text_less(a@, b@),
{
    let mut i: usize = 0;
    proof {
        assert(a@.skip(0) =~= a@);
        assert(b@.skip(0) =~= b@);
    }
    while i < a.len() && i < b.len()
        invariant
            i <= a@.len(),
            i <= b@.len(),
            text_less(a@, b@) == text_less(a@.skip(i as int), b@.skip(i as int)),
        decreases a.len() - i,
    {
        if a[i] != b[i] {
            return a[i] < b[i];
        }
        proof {
            assert(a@.skip(i as int).drop_first() =~= a@.skip(i + 1));
            assert(b@.skip(i as int).drop_first() =~= b@.skip(i + 1));
        }
        i += 1;
    }
    i < b.len()
}

/// No text comes before itself.
pub proof fn lemma_less_irreflexive(a: Seq<char>)
    ensures
        !text_less(a, a),
    decreases a.len(),
{
    if a.len() > 0 {
        lemma_less_irreflexive(a.drop_first());
    }
}

/// What comes before a text comes before everything behind that text.
pub proof fn lemma_less_transitive(a: Seq<char>, b: Seq<char>, c: Seq<char>)
    requires
        text_less(a, b),
        text_less(b, c),
    ensures
        text_less(a, c),
    decreases a.len(),
{
    if a.len() > 0 && a[0] == b[0] && b[0] == c[0] {
        lemma_less_transitive(a.drop_first(), b.drop_first(), c.drop_first());
    }
}

/// Of two different texts, one comes before the other.
pub proof fn lemma_less_total(a: Seq<char>, b: Seq<char>)
    ensures
        a == b || text_less(a, b) || text_less(b, a),
    decreases a.len(),
{
    if a.len() == 0 {
        assert(b.len() == 0 ==> a =~= b);
    } else if b.len() > 0 && a[0] == b[0] {
        lemma_less_total(a.drop_first(), b.drop_first());
        if a.drop_first() == b.drop_first() {
            assert(a =~= seq![a[0]] + a.drop_first());
            assert(b =~= seq![b[0]] + b.drop_first());
        }
    }
}

// ---------------------------------------------------------------------------------------
// Numbers
// ---------------------------------------------------------------------------------------
/// The digit for a number below ten.
pub open spec fn digit_char(n: int) -> char {
    ('0' as int + n) as char
}

/// Whether a character is a decimal digit.
pub open spec fn is_digit(c: char) -> bool {
    '0' <= c <= '9'
}

/// The decimal form of a number.
pub open spec fn decimal(n: nat) -> Seq<char>
    decreases n,
{
    if n < 10 {
        seq![digit_char(n as int)]
    } else {
        decimal(n / 10).push(digit_char((n % 10) as int))
    }
}

/// The number that some decimal digits denote.
pub open spec fn digits_value(s: Seq<char>) -> nat
    decreases s.len(),
{
    if s.len() == 0 {
        0
    } else {
        (10 * digits_value(s.drop_last()) + (s.last() as int - '0' as int)) as nat
    }
}

/// Whether a text is made of decimal digits, and of at least one.
pub open spec fn all_digits(s: Seq<char>) -> bool {
    s.len() > 0 && forall|i: int| 0 <= i < s.len() ==> is_digit(#[trigger] s[i])
}

/// A text without a plus sign before something else.
pub open spec fn without_plus(s: Seq<char>) -> Seq<char> {
    if s.len() > 1 && s[0] == '+' {
        s.skip(1)
    } else {
        s
    }
}

/// The number that a text denotes: decimal digits, with or without a plus sign before them.
pub open spec fn number(s: Seq<char>) -> Option<nat> {
    if all_digits(without_plus(s)) {
        Some(digits_value(without_plus(s)))
    } else {
        None
    }
}

/// The number that a text denotes, where it is at most `max`.
pub open spec fn number_upto(s: Seq<char>, max: nat) -> Option<nat> {
    match number(s) {
        Some(n) => if n <= max {
            Some(n)
        } else {
            None
        },
        None => None,
    }
}

/// A longer string of digits denotes no smaller number.
proof fn lemma_digits_grow(s: Seq<char>, k: int)
    requires
        0 <= k <= s.len(),
        all_digits(s),
    ensures
        digits_value(s.take(k)) <= digits_value(s),
    decreases s.len() - k,
{
    if k == s.len() {
        assert(s.take(k) =~= s);
    } else {
        assert(s.take(k + 1).drop_last() =~= s.take(k));
        assert(is_digit(s[k]));
        lemma_digits_grow(s, k + 1);
    }
}

pub(crate) fn read_digits(s: &[char], max: u64) -> (r: Option<u64>)
    ensures
        match r {
            Some(n) => all_digits(s@) && n == digits_value(s@) && n <= max,
            None => !all_digits(s@) || digits_value(s@) > max,
        },
{
    if s.len() == 0 {
        return None;
    }
    let mut n: u64 = 0;
    let mut i: usize = 0;
    let mut over: bool = false;
    while i < s.len()
        invariant
            i <= s.len(),
            forall|k: int| 0 <= k < i ==> is_digit(#[trigger] s@[k]),
            !over ==> n == digits_value(s@.take(i as int)) && n <= max,
            over ==> exists|k: int| 0 <= k <= i && #[trigger] digits_value(s@.take(k)) > max,
        decreases s.len() - i,
    {
        let c = s[i];
        if !('0' <= c && c <= '9') {
            proof {
                assert(!is_digit(s@[i as int]));
            }
            return None;
        }
        proof {
            assert(s@.take(i + 1).drop_last() =~= s@.take(i as int));
        }
        if !over {
            let d: u64 = (c as u64) - 48;
            let next: u128 = 10 * (n as u128) + (d as u128);
            proof {
                assert(next == digits_value(s@.take(i + 1)));
            }
            if next > max as u128 {
                over = true;
            } else {
                n = next as u64;
            }
        }
        i += 1;
    }
    proof {
        assert(s@.take(s@.len() as int) =~= s@);
        if over {
            let k = choose|k: int| 0 <= k <= i && #[trigger] digits_value(s@.take(k)) > max;
            lemma_digits_grow(s@, k);
        }
    }
    if over {
        None
    } else {
        Some(n)
    }
}

pub(crate) fn read_number(s: &[char], max: u64) -> (r: Option<u64>)
    ensures
        match r {
            Some(n) => number_upto(s@, max as nat) == Some(n as nat),
            None => number_upto(s@, max as nat) is None,
        },
{
    if s.len() > 1 && s[0] == '+' {
        read_digits(tail(s, 1), max)
    } else {
        read_digits(s, max)
    }
}

/// The decimal form of a number is made of digits, and denotes that number.
pub proof fn lemma_decimal(n: nat)
    ensures
        all_digits(decimal(n)),
        digits_value(decimal(n)) == n,
        number(decimal(n)) == Some(n),
    decreases n,
{
    if n < 10 {
        let d = decimal(n);
        assert(d.drop_last() =~= seq![]);
        assert(digits_value(d.drop_last()) == 0);
    } else {
        lemma_decimal(n / 10);
        let d = decimal(n);
        let h = decimal(n / 10);
        assert(d.drop_last() =~= h);
        assert(is_digit(digit_char((n % 10) as int)));
        assert forall|i: int| 0 <= i < d.len() implies is_digit(#[trigger] d[i]) by {
            if i < h.len() {
                assert(d[i] == h[i]);
            }
        }
    }
    assert(is_digit(decimal(n)[0]));
}

/// The decimal form of a number.
pub fn decimal_text(n: u128) -> (r: String)
    ensures
        r@ == decimal(n as nat),
    decreases n,
{
    let d: u8 = (n % 10) as u8;
    let c = (48 + d) as char;
    if n < 10 {
        let mut r = String::new();
        r.push(c);
        proof {
            assert(r@ =~= decimal(n as nat));
        }
        r
    } else {
        let mut r = decimal_text(n / 10);
        r.push(c);
        r
    }
}

} // verus!
