//! Unix paths as texts.
use vstd::prelude::*;

use crate::text::{
    char_texts, head, is_text, joined, lemma_split_apart, lemma_split_joined, lemma_split_pieces,
    lemma_split_whole, push_all, same, split_on, split_pieces, tail, to_chars, to_text,
};

verus! {

/// Whether a path starts at the root.
pub open spec fn is_absolute(p: Seq<char>) -> bool {
    p.len() > 0 && p[0] == '/'
}

/// A path below another one. An absolute path stays what it is.
pub open spec fn join_path(base: Seq<char>, p: Seq<char>) -> Seq<char> {
    if is_absolute(p) {
        p
    } else if base.len() == 0 || base.last() == '/' {
        base + p
    } else {
        base + seq!['/'] + p
    }
}

/// A path below another one. An absolute path stays what it is.
pub fn join(base: &str, p: &str) -> (r: String)
    ensures
        r@ == join_path(base@, p@),
{
    let b = to_chars(base);
    let c = to_chars(p);
    let mut out: Vec<char> = Vec::new();
    if !(c.len() > 0 && c[0] == '/') {
        push_all(&mut out, &b);
        if b.len() > 0 && b[b.len() - 1] != '/' {
            out.push('/');
        }
    }
    push_all(&mut out, &c);
    proof {
        assert(out@ =~= join_path(base@, p@));
    }
    to_text(&out)
}

/// The pieces of a path that name something: neither empty nor a lone dot.
pub open spec fn named(pieces: Seq<Seq<char>>) -> Seq<Seq<char>>
    decreases pieces.len(),
{
    if pieces.len() == 0 {
        seq![]
    } else if pieces[0].len() == 0 || pieces[0] == seq!['.'] {
        named(pieces.drop_first())
    } else {
        seq![pieces[0]] + named(pieces.drop_first())
    }
}

/// The components of a path. The root is a component of its own, written as a slash, and so
/// is a dot that a relative path starts with; other dots, and slashes that follow one
/// another, are of no account.
pub open spec fn components(p: Seq<char>) -> Seq<Seq<char>> {
    if is_absolute(p) {
        seq![seq!['/']] + names(p)
    } else if split_on(p, '/')[0] == seq!['.'] {
        seq![seq!['.']] + names(p)
    } else {
        names(p)
    }
}

/// The components of a path that are names: neither the root nor a leading dot.
pub open spec fn names(p: Seq<char>) -> Seq<Seq<char>> {
    named(split_on(p, '/'))
}

pub(crate) fn path_names(p: &[char]) -> (r: Vec<Vec<char>>)
    ensures
        char_texts(r@) == names(p@),
{
    let pieces = split_pieces(p, '/');
    let ghost all = char_texts(pieces@);
    let mut r: Vec<Vec<char>> = Vec::new();
    let mut i: usize = 0;
    proof {
        reveal_strlit(".");
        assert("."@ =~= seq!['.']);
        assert(all.skip(0) =~= all);
        assert(char_texts(r@) + named(all) =~= names(p@));
    }
    while i < pieces.len()
        invariant
            i <= pieces@.len(),
            all == char_texts(pieces@),
            "."@ == seq!['.'],
            char_texts(r@) + named(all.skip(i as int)) == names(p@),
        decreases pieces.len() - i,
    {
        let ghost before = char_texts(r@);
        proof {
            assert(all.skip(i as int).drop_first() =~= all.skip(i + 1));
            assert(all.skip(i as int)[0] == pieces@[i as int]@);
        }
        if pieces[i].len() > 0 && !is_text(&pieces[i], ".") {
            let mut c: Vec<char> = Vec::new();
            push_all(&mut c, &pieces[i]);
            proof {
                assert(c@ =~= pieces@[i as int]@);
            }
            r.push(c);
            proof {
                assert(char_texts(r@) =~= before.push(c@));
                assert(before + (seq![c@] + named(all.skip(i + 1))) =~= char_texts(r@) + named(
                    all.skip(i + 1),
                ));
            }
        }
        i += 1;
    }
    proof {
        assert(char_texts(r@) + named(all.skip(i as int)) =~= char_texts(r@));
    }
    r
}

pub(crate) fn path_components(p: &[char]) -> (r: Vec<Vec<char>>)
    ensures
        char_texts(r@) == components(p@),
{
    let pieces = split_pieces(p, '/');
    let ghost all = char_texts(pieces@);
    let mut r: Vec<Vec<char>> = Vec::new();
    proof {
        reveal_strlit(".");
        assert("."@ =~= seq!['.']);
        assert(all.len() > 0);
        assert(all[0] == pieces@[0]@);
    }
    let absolute = p.len() > 0 && p[0] == '/';
    if absolute || is_text(&pieces[0], ".") {
        let mut first: Vec<char> = Vec::new();
        first.push(
            if absolute {
                '/'
            } else {
                '.'
            },
        );
        proof {
            assert(absolute ==> first@ =~= seq!['/']);
            assert(!absolute ==> first@ =~= seq!['.']);
        }
        r.push(first);
        proof {
            assert(char_texts(r@) =~= seq![first@]);
        }
    }
    let ghost before = r@;
    let mut rest = path_names(p);
    let ghost behind = rest@;
    r.append(&mut rest);
    proof {
        assert(char_texts(before + behind) =~= char_texts(before) + char_texts(behind));
        assert(char_texts(r@) =~= components(p@));
    }
    r
}

/// Whether a path is another one or lies below it.
pub open spec fn path_within(p: Seq<char>, base: Seq<char>) -> bool {
    components(base).is_prefix_of(components(p))
}

pub(crate) fn is_within(p: &[char], base: &[char]) -> (r: bool)
    ensures
        r == path_within(p@, base@),
{
    let a = path_components(p);
    let b = path_components(base);
    let ghost x = char_texts(a@);
    let ghost y = char_texts(b@);
    if b.len() > a.len() {
        return false;
    }
    let mut i: usize = 0;
    while i < b.len()
        invariant
            i <= b@.len() <= a@.len(),
            x == char_texts(a@),
            y == char_texts(b@),
            x == components(p@),
            y == components(base@),
            forall|k: int| 0 <= k < i ==> x[k] == y[k],
        decreases b.len() - i,
    {
        proof {
            assert(x[i as int] == a@[i as int]@ && y[i as int] == b@[i as int]@);
        }
        if !same(&a[i], &b[i]) {
            proof {
                if y.is_prefix_of(x) {
                    assert(x.subrange(0, y.len() as int)[i as int] == x[i as int]);
                }
            }
            return false;
        }
        i += 1;
    }
    proof {
        assert(x.subrange(0, y.len() as int) =~= y);
    }
    true
}

/// Every piece of a path names something, and none of them is a lone dot. Such a path is
/// relative, and its components are its pieces.
pub open spec fn plain_path(p: Seq<char>) -> bool {
    all_named(split_on(p, '/'))
}

/// Pieces of a path each of which names something.
pub open spec fn all_named(pieces: Seq<Seq<char>>) -> bool {
    forall|i: int|
        0 <= i < pieces.len() ==> (#[trigger] pieces[i]).len() > 0 && pieces[i] != seq!['.']
}

proof fn lemma_named_apart(a: Seq<Seq<char>>, b: Seq<Seq<char>>)
    ensures
        named(a + b) == named(a) + named(b),
    decreases a.len(),
{
    if a.len() == 0 {
        assert(a + b =~= b);
        assert(named(a) + named(b) =~= named(b));
    } else {
        assert((a + b).drop_first() =~= a.drop_first() + b);
        assert((a + b)[0] == a[0]);
        lemma_named_apart(a.drop_first(), b);
        assert(named(a + b) =~= named(a) + named(b));
    }
}

proof fn lemma_all_named(pieces: Seq<Seq<char>>)
    requires
        all_named(pieces),
    ensures
        named(pieces) == pieces,
    decreases pieces.len(),
{
    if pieces.len() > 0 {
        let rest = pieces.drop_first();
        assert forall|i: int| 0 <= i < rest.len() implies (#[trigger] rest[i]).len() > 0 && rest[i]
            != seq!['.'] by {
            assert(rest[i] == pieces[i + 1]);
        }
        lemma_all_named(rest);
        assert(pieces[0].len() > 0);
        assert(named(pieces) =~= pieces);
    }
}

proof fn lemma_named(pieces: Seq<Seq<char>>)
    requires
        forall|i: int| 0 <= i < pieces.len() ==> !(#[trigger] pieces[i]).contains('/'),
    ensures
        all_named(named(pieces)),
        forall|i: int| 0 <= i < named(pieces).len() ==> !(#[trigger] named(pieces)[i]).contains('/'),
    decreases pieces.len(),
{
    if pieces.len() > 0 {
        let rest = pieces.drop_first();
        assert forall|i: int| 0 <= i < rest.len() implies !(#[trigger] rest[i]).contains('/') by {
            assert(rest[i] == pieces[i + 1]);
        }
        lemma_named(rest);
        assert(!pieces[0].contains('/'));
        if !(pieces[0].len() == 0 || pieces[0] == seq!['.']) {
            let all = named(pieces);
            assert forall|i: int| 0 <= i < all.len() implies (#[trigger] all[i]).len() > 0 && all[i]
                != seq!['.'] && !all[i].contains('/') by {
                if i > 0 {
                    assert(all[i] == named(rest)[i - 1]);
                }
            }
        }
    }
}

/// A name of a path is neither empty nor a lone dot, and has no slash in it.
pub proof fn lemma_names(p: Seq<char>)
    ensures
        all_named(names(p)),
        forall|i: int| 0 <= i < names(p).len() ==> !(#[trigger] names(p)[i]).contains('/'),
{
    lemma_split_pieces(p, '/');
    lemma_named(split_on(p, '/'));
}

/// A path whose first piece names something is relative.
proof fn lemma_first_piece(p: Seq<char>)
    ensures
        split_on(p, '/').len() > 0,
        is_absolute(p) ==> split_on(p, '/')[0].len() == 0,
{
    if is_absolute(p) {
        let none: Seq<char> = seq![];
        let rest = p.skip(1);
        assert(p =~= none + seq!['/'] + rest);
        lemma_split_apart(none, '/', rest);
        lemma_split_whole(none, '/');
    }
}

/// The components of a plain path are its pieces.
pub proof fn lemma_plain_path(p: Seq<char>)
    requires
        plain_path(p),
    ensures
        components(p) == split_on(p, '/'),
        !is_absolute(p),
{
    lemma_first_piece(p);
    lemma_all_named(split_on(p, '/'));
    assert(split_on(p, '/')[0].len() > 0);
}

/// A slash behind a plain path is of no account.
pub proof fn lemma_trailing_slash(p: Seq<char>)
    requires
        plain_path(p),
    ensures
        components(p + seq!['/']) == components(p),
{
    let none: Seq<char> = seq![];
    let nothing: Seq<Seq<char>> = seq![];
    let whole = p + seq!['/'];
    assert(whole =~= p + seq!['/'] + none);
    lemma_split_apart(p, '/', none);
    lemma_split_whole(none, '/');
    lemma_named_apart(split_on(p, '/'), seq![none]);
    assert(named(seq![none]) =~= nothing) by {
        assert(seq![none].drop_first() =~= nothing);
        assert(named(nothing) =~= nothing);
    }
    lemma_plain_path(p);
    lemma_first_piece(p);
    if p.len() == 0 {
        lemma_split_whole(p, '/');
    }
    assert(split_on(p, '/')[0].len() > 0);
    assert(whole[0] == p[0]);
    assert(split_on(whole, '/')[0] == split_on(p, '/')[0]);
    assert(names(whole) =~= names(p));
}

/// What is put behind a path stands behind its components.
pub proof fn lemma_components_joined(base: Seq<char>, rest: Seq<Seq<char>>)
    requires
        rest.len() > 0,
        all_named(rest),
        forall|i: int| 0 <= i < rest.len() ==> !(#[trigger] rest[i]).contains('/'),
    ensures
        components(join_path(base, joined(rest, seq!['/']))) == components(base) + rest,
{
    let q = joined(rest, seq!['/']);
    let whole = join_path(base, q);
    let none: Seq<char> = seq![];
    lemma_split_joined(rest, '/');
    lemma_plain_path(q);
    lemma_all_named(rest);
    lemma_split_whole(none, '/');
    assert(named(seq![none]) =~= seq![]) by {
        let nothing: Seq<Seq<char>> = seq![];
        assert(seq![none].drop_first() =~= nothing);
        assert(named(nothing) =~= nothing);
    }
    if base.len() == 0 {
        assert(base =~= none);
        assert(whole =~= q);
        assert(components(base) =~= seq![]);
        assert(components(base) + rest =~= rest);
    } else if base.last() == '/' {
        let x = base.drop_last();
        assert(base =~= x + seq!['/'] + none);
        assert(whole =~= x + seq!['/'] + q);
        lemma_split_apart(x, '/', none);
        lemma_split_apart(x, '/', q);
        lemma_named_apart(split_on(x, '/'), seq![none]);
        lemma_named_apart(split_on(x, '/'), rest);
        lemma_first_piece(x);
        assert(whole[0] == base[0]);
        assert(split_on(whole, '/')[0] == split_on(base, '/')[0]);
        assert(components(whole) =~= components(base) + rest);
    } else {
        assert(whole =~= base + seq!['/'] + q);
        lemma_split_apart(base, '/', q);
        lemma_named_apart(split_on(base, '/'), rest);
        lemma_first_piece(base);
        assert(whole[0] == base[0]);
        assert(split_on(whole, '/')[0] == split_on(base, '/')[0]);
        assert(components(whole) =~= components(base) + rest);
    }
}

/// How much of a path is the root.
pub open spec fn root_len(p: Seq<char>) -> int {
    if is_absolute(p) {
        1
    } else {
        0
    }
}

/// Where the last piece of the first `n` characters of a path starts.
pub open spec fn piece_start(p: Seq<char>, n: int) -> int
    decreases n,
{
    if n <= root_len(p) {
        root_len(p)
    } else if p[n - 1] == '/' {
        n
    } else {
        piece_start(p, n - 1)
    }
}

/// How many characters of a path are left without the slashes and lone dots behind its last
/// component, of the first `n`.
pub open spec fn settled_len(p: Seq<char>, n: int) -> int
    decreases n,
    via settled_len_decreases
{
    let i = piece_start(p, n);
    if n <= root_len(p) {
        n
    } else if i == n {
        settled_len(p, n - 1)
    } else if i + 1 == n && p[i] == '.' && i > 0 {
        settled_len(p, i)
    } else {
        n
    }
}

#[via_fn]
proof fn settled_len_decreases(p: Seq<char>, n: int) {
    lemma_piece_start(p, n);
}

proof fn lemma_piece_start(p: Seq<char>, n: int)
    ensures
        n >= root_len(p) ==> root_len(p) <= piece_start(p, n) <= n,
    decreases n,
{
    if n > root_len(p) && p[n - 1] != '/' {
        lemma_piece_start(p, n - 1);
    }
}

proof fn lemma_settled_len(p: Seq<char>, n: int)
    ensures
        0 <= n ==> 0 <= settled_len(p, n) <= n,
    decreases n,
{
    lemma_piece_start(p, n);
    let i = piece_start(p, n);
    if n <= root_len(p) {
    } else if i == n {
        lemma_settled_len(p, n - 1);
    } else if i + 1 == n && p[i] == '.' && i > 0 {
        lemma_settled_len(p, i);
    }
}

/// How many characters of a path are left without its last component; `None` where it has
/// none but the root.
pub open spec fn parent_len(p: Seq<char>) -> Option<int> {
    let n = settled_len(p, p.len() as int);
    if n <= root_len(p) {
        None
    } else {
        Some(settled_len(p, piece_start(p, n)))
    }
}

/// A path without its last component.
pub open spec fn parent_path(p: Seq<char>) -> Option<Seq<char>> {
    match parent_len(p) {
        Some(n) => Some(p.take(n)),
        None => None,
    }
}

proof fn lemma_parent_len(p: Seq<char>)
    ensures
        parent_len(p) matches Some(n) ==> 0 <= n < p.len(),
{
    let n = settled_len(p, p.len() as int);
    lemma_settled_len(p, p.len() as int);
    if n > root_len(p) {
        lemma_piece_start(p, n);
        let i = piece_start(p, n);
        lemma_settled_len(p, i);
        if i == n {
            lemma_settled_stops(p, p.len() as int);
        }
    }
}

/// What is left of a path by `settled_len` does not end in a slash.
proof fn lemma_settled_stops(p: Seq<char>, n: int)
    ensures
        settled_len(p, n) > root_len(p) ==> piece_start(p, settled_len(p, n)) < settled_len(p, n),
    decreases n,
{
    lemma_piece_start(p, n);
    let i = piece_start(p, n);
    if n <= root_len(p) {
    } else if i == n {
        lemma_settled_stops(p, n - 1);
    } else if i + 1 == n && p[i] == '.' && i > 0 {
        lemma_settled_stops(p, i);
    }
}

fn find_piece_start(p: &[char], n: usize) -> (r: usize)
    requires
        n <= p@.len(),
        n > root_len(p@),
    ensures
        r == piece_start(p@, n as int),
        r <= n,
{
    let base: usize = if p.len() > 0 && p[0] == '/' {
        1
    } else {
        0
    };
    let mut i: usize = n;
    while i > base && p[i - 1] != '/'
        invariant
            base == root_len(p@),
            base <= i <= n <= p@.len(),
            piece_start(p@, n as int) == piece_start(p@, i as int),
        decreases i,
    {
        i -= 1;
    }
    i
}

fn settle(p: &[char], start: usize) -> (r: usize)
    requires
        start <= p@.len(),
    ensures
        r == settled_len(p@, start as int),
        r <= start,
{
    let base: usize = if p.len() > 0 && p[0] == '/' {
        1
    } else {
        0
    };
    let mut n: usize = start;
    while n > base
        invariant
            base == root_len(p@),
            n <= start <= p@.len(),
            settled_len(p@, start as int) == settled_len(p@, n as int),
        decreases n,
    {
        let i = find_piece_start(p, n);
        if i == n {
            n -= 1;
        } else if i + 1 == n && p[i] == '.' && i > 0 {
            n = i;
        } else {
            return n;
        }
    }
    n
}

/// A path without its last component.
pub fn parent(path: &str) -> (r: Option<String>)
    ensures
        match r {
            Some(q) => parent_path(path@) == Some(q@) && q@.len() < path@.len(),
            None => parent_path(path@) is None,
        },
{
    let p = to_chars(path);
    let base: usize = if p.len() > 0 && p[0] == '/' {
        1
    } else {
        0
    };
    let n = settle(&p, p.len());
    if n <= base {
        return None;
    }
    let i = find_piece_start(&p, n);
    let m = settle(&p, i);
    proof {
        lemma_parent_len(path@);
    }
    Some(to_text(head(&p, m)))
}

/// The last component of a path, where it is a name and not the root, a dot or two dots.
pub open spec fn last_name(p: Seq<char>) -> Option<Seq<char>> {
    let n = settled_len(p, p.len() as int);
    let name = p.subrange(piece_start(p, n), n);
    if n <= root_len(p) || name == seq!['.'] || name == seq!['.', '.'] {
        None
    } else {
        Some(name)
    }
}

/// A path with another last component, or with one more where it has no name at its end.
pub open spec fn with_name(p: Seq<char>, name: Seq<char>) -> Seq<char> {
    match (last_name(p), parent_path(p)) {
        (Some(_), Some(q)) => join_path(q, name),
        _ => join_path(p, name),
    }
}

/// A path with another last component, or with one more where it has no name at its end.
pub fn with_file_name(path: &str, name: &str) -> (r: String)
    ensures
        r@ == with_name(path@, name@),
{
    let p = to_chars(path);
    let base: usize = if p.len() > 0 && p[0] == '/' {
        1
    } else {
        0
    };
    proof {
        reveal_strlit(".");
        reveal_strlit("..");
        assert("."@ =~= seq!['.']);
        assert(".."@ =~= seq!['.', '.']);
    }
    let n = settle(&p, p.len());
    if n > base {
        let i = find_piece_start(&p, n);
        let last = tail(head(&p, n), i);
        proof {
            assert(last@ =~= p@.subrange(i as int, n as int));
        }
        if !is_text(last, ".") && !is_text(last, "..") {
            if let Some(q) = parent(path) {
                return join(q.as_str(), name);
            }
        }
    }
    join(path, name)
}

// ---------------------------------------------------------------------------------------
// Laws
// ---------------------------------------------------------------------------------------
/// A path below another one is the two with one slash between them, and an absolute path stays
/// what it is.
pub proof fn law_join(base: Seq<char>, p: Seq<char>)
    ensures
        p.len() > 0 && p[0] == '/' ==> join_path(base, p) == p,
        base.len() > 0 && base.last() != '/' && (p.len() == 0 || p[0] != '/') ==> join_path(base, p)
            == base + seq!['/'] + p,
        base.len() > 0 && base.last() == '/' && (p.len() == 0 || p[0] != '/') ==> join_path(base, p)
            == base + p,
        join_path(seq![], p) == p,
{
    assert(Seq::<char>::empty() + p =~= p);
}

proof fn lemma_piece_starts_at(p: Seq<char>, i: int, n: int)
    requires
        root_len(p) <= i <= n <= p.len(),
        i == root_len(p) || p[i - 1] == '/',
        forall|k: int| i <= k < n ==> #[trigger] p[k] != '/',
    ensures
        piece_start(p, n) == i,
    decreases n,
{
    if n > i {
        assert(p[n - 1] != '/');
        lemma_piece_starts_at(p, i, n - 1);
    }
}

proof fn lemma_settled(p: Seq<char>, i: int, n: int)
    requires
        root_len(p) <= i < n <= p.len(),
        i == root_len(p) || p[i - 1] == '/',
        forall|k: int| i <= k < n ==> #[trigger] p[k] != '/',
        p.subrange(i, n) != seq!['.'],
    ensures
        settled_len(p, n) == n,
{
    lemma_piece_starts_at(p, i, n);
    if i + 1 == n && p[i] == '.' {
        assert(p.subrange(i, n) =~= seq!['.']);
    }
}

/// A directory and a name in it are the two sides of the last slash of a path: the path without its
/// last component is the directory, and another name in its place stands in the same directory.
pub proof fn law_last_component(
    above: Seq<char>,
    last: Seq<char>,
    name: Seq<char>,
    other: Seq<char>,
)
    requires
        !last.contains('/') && last.len() > 0 && last != seq!['.'],
        !name.contains('/') && name.len() > 0 && name != seq!['.'] && name != seq!['.', '.'],
        other.len() > 0 && other[0] != '/',
    ensures
        ({
            let dir = above + seq!['/'] + last;
            let p = dir + seq!['/'] + name;
            &&& parent_path(p) == Some(dir)
            &&& last_name(p) == Some(name)
            &&& with_name(p, other) == dir + seq!['/'] + other
        }),
{
    let dir = above + seq!['/'] + last;
    let p = dir + seq!['/'] + name;
    let a = above.len() as int + 1;
    let d = dir.len() as int;
    let n = p.len() as int;
    assert(d == a + last.len());
    assert(p[d] == '/');
    assert(p[a - 1] == '/');
    assert forall|k: int| d + 1 <= k < n implies #[trigger] p[k] != '/' by {
        assert(p[k] == name[k - d - 1]);
        assert(name.contains(name[k - d - 1]));
    }
    assert forall|k: int| a <= k < d implies #[trigger] p[k] != '/' by {
        assert(p[k] == last[k - a]);
        assert(last.contains(last[k - a]));
    }
    assert(p.subrange(d + 1, n) =~= name);
    assert(p.subrange(a, d) =~= last);
    lemma_settled(p, d + 1, n);
    lemma_piece_starts_at(p, d + 1, n);
    lemma_piece_starts_at(p, d + 1, d + 1);
    lemma_settled(p, a, d);
    lemma_piece_starts_at(p, a, d);
    assert(settled_len(p, d + 1) == settled_len(p, d));
    assert(p.take(d) =~= dir);
    assert(dir.last() == last.last());
    assert(last.contains(last.last()));
}

/// A plain path lies within each of the directories that it leads through, and none of those lies
/// within it.
pub proof fn law_path_lies_within(dir: Seq<Seq<char>>, rest: Seq<Seq<char>>)
    requires
        dir.len() > 0,
        rest.len() > 0,
        all_named(dir + rest),
        forall|i: int| 0 <= i < (dir + rest).len() ==> !(#[trigger] (dir + rest)[i]).contains('/'),
    ensures
        path_within(joined(dir + rest, seq!['/']), joined(dir, seq!['/'])),
        !path_within(joined(dir, seq!['/']), joined(dir + rest, seq!['/'])),
        path_within(joined(dir, seq!['/']), joined(dir, seq!['/'])),
{
    let all = dir + rest;
    assert forall|i: int| 0 <= i < dir.len() implies (#[trigger] dir[i]).len() > 0 && dir[i]
        != seq!['.'] && !dir[i].contains('/') by {
        assert(all[i] == dir[i]);
    }
    lemma_split_joined(all, '/');
    lemma_split_joined(dir, '/');
    lemma_plain_path(joined(all, seq!['/']));
    lemma_plain_path(joined(dir, seq!['/']));
    assert(all.subrange(0, dir.len() as int) =~= dir);
    assert(dir.subrange(0, dir.len() as int) =~= dir);
}

/// Two paths of the same length of which one name differs do not lie within each other.
pub proof fn law_other_path_lies_elsewhere(a: Seq<Seq<char>>, b: Seq<Seq<char>>, i: int)
    requires
        0 <= i < a.len(),
        i < b.len(),
        a[i] != b[i],
        all_named(a),
        all_named(b),
        forall|k: int| 0 <= k < a.len() ==> !(#[trigger] a[k]).contains('/'),
        forall|k: int| 0 <= k < b.len() ==> !(#[trigger] b[k]).contains('/'),
    ensures
        !path_within(joined(a, seq!['/']), joined(b, seq!['/'])),
{
    lemma_split_joined(a, '/');
    lemma_split_joined(b, '/');
    lemma_plain_path(joined(a, seq!['/']));
    lemma_plain_path(joined(b, seq!['/']));
    if b.is_prefix_of(a) {
        assert(a.subrange(0, b.len() as int)[i] == a[i]);
    }
}

/// A lone dot and an empty piece inside a path are of no account.
pub proof fn law_dots_and_slashes_are_of_no_account(a: Seq<char>, b: Seq<char>)
    ensures
        names(a + seq!['/', '.', '/'] + b) == names(a + seq!['/'] + b),
        names(a + seq!['/', '/'] + b) == names(a + seq!['/'] + b),
        names(a + seq!['/'] + b) == names(a) + names(b),
        names(seq![]) == Seq::<Seq<char>>::empty(),
        names(seq!['.']) == Seq::<Seq<char>>::empty(),
        b.len() > 0 && b != seq!['.'] && !b.contains('/') ==> names(b) == seq![b],
{
    let none = Seq::<char>::empty();
    let dot = seq!['.'];
    let nothing = Seq::<Seq<char>>::empty();
    lemma_split_whole(none, '/');
    lemma_split_whole(dot, '/');
    assert(named(nothing) =~= nothing);
    assert(seq![none].drop_first() =~= nothing);
    assert(seq![dot].drop_first() =~= nothing);
    assert(names(none) =~= nothing);
    assert(names(dot) =~= nothing);
    lemma_names_apart(a, b);
    let x = dot + seq!['/'] + b;
    lemma_names_apart(dot, b);
    lemma_names_apart(a, x);
    assert(a + seq!['/'] + x =~= a + seq!['/', '.', '/'] + b);
    let y = none + seq!['/'] + b;
    lemma_names_apart(none, b);
    lemma_names_apart(a, y);
    assert(a + seq!['/'] + y =~= a + seq!['/', '/'] + b);
    assert(nothing + names(b) =~= names(b));
    if b.len() > 0 && b != seq!['.'] && !b.contains('/') {
        lemma_split_whole(b, '/');
        assert(seq![b].drop_first() =~= nothing);
        assert(named(seq![b]) =~= seq![b]);
    }
}

proof fn lemma_names_apart(a: Seq<char>, b: Seq<char>)
    ensures
        names(a + seq!['/'] + b) == names(a) + names(b),
{
    lemma_split_apart(a, '/', b);
    lemma_named_apart(split_on(a, '/'), split_on(b, '/'));
}

/// The root has no directory above it, and a lone name stands in the directory without a name.
pub proof fn law_top_of_a_path(name: Seq<char>)
    requires
        !name.contains('/') && name.len() > 0,
    ensures
        parent_path(seq!['/']) is None,
        parent_path(seq![]) is None,
        parent_path(name) == Some(Seq::<char>::empty()),
        parent_path(seq!['/'] + name) == (if name == seq!['.'] {
            None
        } else {
            Some(seq!['/'])
        }),
{
    let n = name.len() as int;
    assert forall|k: int| 0 <= k < n implies #[trigger] name[k] != '/' by {
        assert(name.contains(name[k]));
    }
    assert(name[0] != '/');
    lemma_piece_starts_at(name, 0, n);
    assert(settled_len(name, n) == n);
    assert(name.take(0) =~= seq![]);
    let p = seq!['/'] + name;
    assert forall|k: int| 1 <= k < n + 1 implies #[trigger] p[k] != '/' by {
        assert(p[k] == name[k - 1]);
    }
    lemma_piece_starts_at(p, 1, n + 1);
    if name == seq!['.'] {
        assert(p[1] == '.');
        assert(settled_len(p, 1) == 1);
    } else {
        assert(p.subrange(1, n + 1) =~= name);
        lemma_settled(p, 1, n + 1);
        assert(settled_len(p, 1) == 1);
        assert(p.take(1) =~= seq!['/']);
    }
}

/// A lone name gives way to another one.
pub proof fn law_lone_name_is_replaced(name: Seq<char>, other: Seq<char>)
    requires
        !name.contains('/') && name.len() > 0 && name != seq!['.'] && name != seq!['.', '.'],
        other.len() > 0 && other[0] != '/',
    ensures
        with_name(name, other) == other,
        with_name(seq!['/'] + name, other) == seq!['/'] + other,
{
    law_top_of_a_path(name);
    let n = name.len() as int;
    assert forall|k: int| 0 <= k < n implies #[trigger] name[k] != '/' by {
        assert(name.contains(name[k]));
    }
    assert(name[0] != '/');
    lemma_piece_starts_at(name, 0, n);
    assert(settled_len(name, n) == n);
    assert(name.subrange(0, n) =~= name);
    assert(Seq::<char>::empty() + other =~= other);
    let p = seq!['/'] + name;
    assert forall|k: int| 1 <= k < n + 1 implies #[trigger] p[k] != '/' by {
        assert(p[k] == name[k - 1]);
    }
    lemma_piece_starts_at(p, 1, n + 1);
    assert(p.subrange(1, n + 1) =~= name);
    lemma_settled(p, 1, n + 1);
}

/// A name in a directory without a slash in its path gives way to another one in the same directory.
pub proof fn law_last_component_of_two(dir: Seq<char>, name: Seq<char>, other: Seq<char>)
    requires
        !dir.contains('/') && dir.len() > 0,
        !name.contains('/') && name.len() > 0 && name != seq!['.'] && name != seq!['.', '.'],
        other.len() > 0 && other[0] != '/',
    ensures
        parent_path(dir + seq!['/'] + name) == Some(dir),
        last_name(dir + seq!['/'] + name) == Some(name),
        with_name(dir + seq!['/'] + name, other) == dir + seq!['/'] + other,
{
    let p = dir + seq!['/'] + name;
    let d = dir.len() as int;
    let n = p.len() as int;
    assert(p[d] == '/');
    assert forall|k: int| d + 1 <= k < n implies #[trigger] p[k] != '/' by {
        assert(p[k] == name[k - d - 1]);
        assert(name.contains(name[k - d - 1]));
    }
    assert forall|k: int| 0 <= k < d implies #[trigger] p[k] != '/' by {
        assert(p[k] == dir[k]);
        assert(dir.contains(dir[k]));
    }
    assert(p[0] != '/');
    assert(p.subrange(d + 1, n) =~= name);
    lemma_settled(p, d + 1, n);
    lemma_piece_starts_at(p, d + 1, n);
    lemma_piece_starts_at(p, d + 1, d + 1);
    lemma_piece_starts_at(p, 0, d);
    assert(settled_len(p, d) == d);
    assert(settled_len(p, d + 1) == settled_len(p, d));
    assert(p.take(d) =~= dir);
    assert(dir.contains(dir.last()));
}

proof fn lemma_front_decides(p: Seq<char>, x: Seq<char>, n: int)
    requires
        p.len() > 0,
        0 <= n <= p.len(),
    ensures
        piece_start(p + x, n) == piece_start(p, n),
        settled_len(p + x, n) == settled_len(p, n),
    decreases n,
{
    let q = p + x;
    assert(q[0] == p[0]);
    lemma_piece_start_front(p, x, n);
    lemma_piece_start(p, n);
    let i = piece_start(p, n);
    if n > root_len(p) {
        if i == n {
            lemma_front_decides(p, x, n - 1);
        } else if i + 1 == n && p[i] == '.' && i > 0 {
            lemma_front_decides(p, x, i);
        }
    }
}

proof fn lemma_piece_start_front(p: Seq<char>, x: Seq<char>, n: int)
    requires
        p.len() > 0,
        0 <= n <= p.len(),
    ensures
        piece_start(p + x, n) == piece_start(p, n),
    decreases n,
{
    let q = p + x;
    assert(q[0] == p[0]);
    if n > root_len(p) && p[n - 1] != '/' {
        assert(q[n - 1] == p[n - 1]);
        lemma_piece_start_front(p, x, n - 1);
    }
}

/// A slash behind a path is of no account for its last component and the directory above it.
pub proof fn law_slash_behind_a_path(p: Seq<char>)
    requires
        p.len() > 0,
    ensures
        parent_path(p + seq!['/']) == parent_path(p),
        last_name(p + seq!['/']) == last_name(p),
{
    let q = p + seq!['/'];
    let n = p.len() as int;
    assert(q[0] == p[0]);
    assert(q[n] == '/');
    assert(piece_start(q, n + 1) == n + 1);
    lemma_front_decides(p, seq!['/'], n);
    assert(settled_len(q, n + 1) == settled_len(p, n));
    lemma_settled_len(p, n);
    let m = settled_len(p, n);
    lemma_front_decides(p, seq!['/'], m);
    lemma_piece_start(p, m);
    let i = piece_start(p, m);
    if m > root_len(p) {
        lemma_front_decides(p, seq!['/'], i);
        lemma_settled_len(p, i);
        assert(q.take(settled_len(p, i)) =~= p.take(settled_len(p, i)));
        assert(q.subrange(i, m) =~= p.subrange(i, m));
    }
}

} // verus!
