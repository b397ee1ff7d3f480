//! Dockerfile-style variable substitution.
//!
//! Supports `$VAR`, `${VAR}`, `${VAR:-default}`, and `${VAR:+replacement}`.
//! Only `\$` is treated as an escape sequence (producing a literal `$`).
//! All other backslash sequences are passed through unchanged, so shell
//! constructs like `\n`, `\t`, or line-continuation `\` are not disturbed.
use vstd::prelude::*;

use crate::state::{VarMap, Vars};
use crate::text::{find, head, lemma_find, lemma_find_is, occurs_at, position, push_all, tail, to_chars, to_text};

verus! {

/// A `${` without a `}` behind it, with the text that follows it.
#[derive(Debug)]
pub struct MissingBrace {
    pub inner: String,
}

/// The characters of a variable name that stands without braces.
pub open spec fn is_name_char(c: char) -> bool {
    'a' <= c <= 'z' || 'A' <= c <= 'Z' || '0' <= c <= '9' || c == '_'
}

/// How many characters at the start of a text belong to a variable name.
pub open spec fn name_len(s: Seq<char>) -> nat
    decreases s.len(),
{
    if s.len() > 0 && is_name_char(s[0]) {
        1 + name_len(s.drop_first())
    } else {
        0
    }
}

/// What stands for the text between the braces of `${...}`.
pub open spec fn braced(inner: Seq<char>, vars: Vars) -> Seq<char> {
    match find(inner, seq![':', '-']) {
        Some(i) => {
            let value = vars.lookup(inner.take(i));
            if value.len() == 0 {
                inner.skip(i + 2)
            } else {
                value
            }
        },
        None => match find(inner, seq![':', '+']) {
            Some(i) => if vars.lookup(inner.take(i)).len() == 0 {
                seq![]
            } else {
                inner.skip(i + 2)
            },
            None => vars.lookup(inner),
        },
    }
}

/// A text in front of what is left, where that could be expanded.
pub open spec fn in_front(t: Seq<char>, rest: Result<Seq<char>, Seq<char>>) -> Result<
    Seq<char>,
    Seq<char>,
> {
    match rest {
        Ok(r) => Ok(t + r),
        Err(e) => Err(e),
    }
}

/// A text with its variables replaced; where a brace is not closed, the text behind it.
pub open spec fn expand(s: Seq<char>, vars: Vars) -> Result<Seq<char>, Seq<char>>
    decreases s.len(),
    via expand_decreases
{
    if s.len() == 0 {
        Ok(seq![])
    } else if s[0] == '\\' && s.len() > 1 && s[1] == '$' {
        in_front(seq!['$'], expand(s.skip(2), vars))
    } else if s[0] == '$' && s.len() > 1 && s[1] == '{' {
        match find(s.skip(2), seq!['}']) {
            Some(i) => in_front(
                braced(s.subrange(2, i + 2), vars),
                expand(s.skip(i + 3), vars),
            ),
            None => Err(s.skip(2)),
        }
    } else if s[0] == '$' && s.len() > 1 && is_name_char(s[1]) {
        let n = name_len(s.skip(1)) as int;
        in_front(vars.lookup(s.subrange(1, n + 1)), expand(s.skip(n + 1), vars))
    } else {
        in_front(seq![s[0]], expand(s.skip(1), vars))
    }
}

#[via_fn]
proof fn expand_decreases(s: Seq<char>, vars: Vars) {
    if s.len() > 1 {
        lemma_find(s.skip(2), seq!['}']);
        lemma_name_len(s.skip(1));
    }
}

proof fn lemma_name_len(s: Seq<char>)
    ensures
        name_len(s) <= s.len(),
    decreases s.len(),
{
    if s.len() > 0 {
        lemma_name_len(s.drop_first());
    }
}

fn name_end(s: &[char]) -> (r: usize)
    ensures
        r == name_len(s@),
        r <= s@.len(),
{
    let mut i: usize = 0;
    proof {
        assert(s@.skip(0) =~= s@);
    }
    while i < s.len() && (('a' <= s[i] && s[i] <= 'z') || ('A' <= s[i] && s[i] <= 'Z') || ('0'
        <= s[i] && s[i] <= '9') || s[i] == '_')
        invariant
            i <= s@.len(),
            name_len(s@) == i + name_len(s@.skip(i as int)),
        decreases s.len() - i,
    {
        proof {
            assert(s@.skip(i as int).drop_first() =~= s@.skip(i + 1));
        }
        i += 1;
    }
    i
}

fn expand_braced(inner: &[char], vars: &VarMap) -> (r: Vec<char>)
    ensures
        r@ == braced(inner@, vars@),
{
    let minus: [char; 2] = [':', '-'];
    let plus: [char; 2] = [':', '+'];
    proof {
        assert(minus@ =~= seq![':', '-']);
        assert(plus@ =~= seq![':', '+']);
    }
    let mut r: Vec<char> = Vec::new();
    let n: usize = inner.len();
    if let Some(i) = position(inner, &minus) {
        let name = to_text(head(inner, i));
        let value = to_chars(vars.get(name.as_str()));
        if value.len() == 0 {
            push_all(&mut r, tail(inner, i + 2));
        } else {
            push_all(&mut r, &value);
        }
    } else if let Some(i) = position(inner, &plus) {
        let name = to_text(head(inner, i));
        let value = to_chars(vars.get(name.as_str()));
        if value.len() > 0 {
            push_all(&mut r, tail(inner, i + 2));
        }
    } else {
        let name = to_text(inner);
        let value = to_chars(vars.get(name.as_str()));
        push_all(&mut r, &value);
    }
    proof {
        assert(r@ =~= braced(inner@, vars@));
    }
    r
}

/// Replaces the variables in a text.
pub fn substitute(s: &str, vars: &VarMap) -> (r: Result<String, MissingBrace>)
    ensures
        match r {
            Ok(t) => expand(s@, vars@) == Ok::<Seq<char>, Seq<char>>(t@),
            Err(e) => expand(s@, vars@) == Err::<Seq<char>, Seq<char>>(e.inner@),
        },
{
    let c = to_chars(s);
    let close: [char; 1] = ['}'];
    let mut out: Vec<char> = Vec::new();
    let mut i: usize = 0;
    proof {
        assert(close@ =~= seq!['}']);
        assert(c@.skip(0) =~= s@);
        lemma_in_front_nothing(expand(s@, vars@));
    }
    while i < c.len()
        invariant
            i <= c@.len(),
            c@ == s@,
            close@ == seq!['}'],
            expand(s@, vars@) == in_front(out@, expand(c@.skip(i as int), vars@)),
        decreases c.len() - i,
    {
        let rest = tail(&c, i);
        let ghost before = out@;
        let ch = rest[0];
        if ch == '\\' && rest.len() > 1 && rest[1] == '$' {
            out.push('$');
            proof {
                lemma_next(c@, i as int, 2, before, seq!['$'], vars@);
                assert(out@ =~= before + seq!['$']);
            }
            i += 2;
        } else if ch == '$' && rest.len() > 1 && rest[1] == '{' {
            let body = tail(rest, 2);
            match position(body, &close) {
                Some(k) => {
                    let inner = head(body, k);
                    let value = expand_braced(inner, vars);
                    push_all(&mut out, &value);
                    proof {
                        assert(inner@ =~= rest@.subrange(2, k + 2));
                        lemma_next(c@, i as int, k + 3, before, value@, vars@);
                    }
                    i += k + 3;
                },
                None => {
                    return Err(MissingBrace { inner: to_text(body) });
                },
            }
        } else if ch == '$' && rest.len() > 1 && (('a' <= rest[1] && rest[1] <= 'z') || ('A'
            <= rest[1] && rest[1] <= 'Z') || ('0' <= rest[1] && rest[1] <= '9') || rest[1]
            == '_') {
            let n = name_end(tail(rest, 1));
            let name = head(tail(rest, 1), n);
            let value = to_chars(vars.get(to_text(name).as_str()));
            push_all(&mut out, &value);
            proof {
                assert(name@ =~= rest@.subrange(1, n + 1));
                lemma_next(c@, i as int, n + 1, before, value@, vars@);
            }
            i += n + 1;
        } else {
            out.push(ch);
            proof {
                lemma_next(c@, i as int, 1, before, seq![ch], vars@);
                assert(out@ =~= before + seq![ch]);
            }
            i += 1;
        }
    }
    proof {
        assert(out@ + seq![] =~= out@);
    }
    Ok(to_text(&out))
}

proof fn lemma_in_front_nothing(r: Result<Seq<char>, Seq<char>>)
    ensures
        in_front(seq![], r) == r,
{
    match r {
        Ok(t) => {
            assert(Seq::<char>::empty() + t =~= t);
        },
        Err(_) => {},
    }
}

/// One step of the expansion, behind a text that is already expanded.
proof fn lemma_next(c: Seq<char>, i: int, n: int, before: Seq<char>, t: Seq<char>, vars: Vars)
    requires
        0 <= i,
        0 <= n,
        i + n <= c.len(),
    ensures
        c.skip(i).skip(n) == c.skip(i + n),
        in_front(before, in_front(t, expand(c.skip(i + n), vars))) == in_front(
            before + t,
            expand(c.skip(i + n), vars),
        ),
{
    assert(c.skip(i).skip(n) =~= c.skip(i + n));
    match expand(c.skip(i + n), vars) {
        Ok(r) => {
            assert(before + (t + r) =~= (before + t) + r);
        },
        Err(_) => {},
    }
}

// ---------------------------------------------------------------------------------------
// Laws
// ---------------------------------------------------------------------------------------
/// A text without a dollar sign stays as it is: no other character, and no backslash,
/// means anything.
pub proof fn law_plain_text_unchanged(s: Seq<char>, vars: Vars)
    requires
        !s.contains('$'),
    ensures
        expand(s, vars) == Ok::<Seq<char>, Seq<char>>(s),
    decreases s.len(),
{
    if s.len() > 0 {
        assert(s.contains(s[0]));
        if s.len() > 1 {
            assert(s.contains(s[1]));
        }
        assert forall|c: char| s.skip(1).contains(c) implies s.contains(c) by {
            let i = choose|i: int| 0 <= i < s.skip(1).len() && s.skip(1)[i] == c;
            assert(s[i + 1] == c);
        }
        law_plain_text_unchanged(s.skip(1), vars);
        assert(seq![s[0]] + s.skip(1) =~= s);
    } else {
        assert(s =~= seq![]);
    }
}

/// A text with a backslash in front of each dollar sign.
pub open spec fn escaped(s: Seq<char>) -> Seq<char>
    decreases s.len(),
{
    if s.len() == 0 {
        seq![]
    } else if s[0] == '$' {
        seq!['\\', '$'] + escaped(s.skip(1))
    } else {
        seq![s[0]] + escaped(s.skip(1))
    }
}

/// Escaping its dollar signs keeps a text as it is, whatever the variables are.
pub proof fn law_escaped_text_unchanged(s: Seq<char>, vars: Vars)
    ensures
        expand(escaped(s), vars) == Ok::<Seq<char>, Seq<char>>(s),
    decreases s.len(),
{
    if s.len() == 0 {
        assert(s =~= seq![]);
    } else {
        law_escaped_text_unchanged(s.skip(1), vars);
        let e = escaped(s);
        let rest = escaped(s.skip(1));
        if s[0] == '$' {
            assert(e.skip(2) =~= rest);
        } else {
            assert(e.skip(1) =~= rest);
            if s[0] == '\\' && e.len() > 1 {
                assert(rest[0] == e[1]);
                lemma_escaped_start(s.skip(1));
            }
        }
        assert(seq![s[0]] + s.skip(1) =~= s);
    }
}

proof fn lemma_escaped_start(s: Seq<char>)
    ensures
        escaped(s).len() > 0 ==> escaped(s)[0] != '$',
{
}

/// A name that a variable can have without braces.
pub open spec fn is_name(name: Seq<char>) -> bool {
    name.len() > 0 && forall|i: int| 0 <= i < name.len() ==> is_name_char(#[trigger] name[i])
}

proof fn lemma_is_name(name: Seq<char>)
    requires
        forall|i: int| 0 <= i < name.len() ==> is_name_char(#[trigger] name[i]),
    ensures
        name_len(name) == name.len(),
    decreases name.len(),
{
    if name.len() > 0 {
        assert forall|i: int| 0 <= i < name.drop_first().len() implies is_name_char(
            #[trigger] name.drop_first()[i],
        ) by {
            assert(is_name_char(name[i + 1]));
        }
        assert(is_name_char(name[0]));
        lemma_is_name(name.drop_first());
    }
}

/// A text between braces that holds no closing brace expands to what stands for it.
proof fn lemma_braces(inner: Seq<char>, vars: Vars)
    requires
        !inner.contains('}'),
    ensures
        expand(seq!['$', '{'] + inner + seq!['}'], vars) == Ok::<Seq<char>, Seq<char>>(
            braced(inner, vars),
        ),
{
    let s = seq!['$', '{'] + inner + seq!['}'];
    let t = s.skip(2);
    let n = inner.len() as int;
    assert(t =~= inner + seq!['}']);
    assert(t.subrange(n, n + 1) =~= seq!['}']);
    assert forall|j: int| 0 <= j < n implies !occurs_at(t, seq!['}'], j) by {
        assert(inner.contains(inner[j]));
        assert(t.subrange(j, j + 1)[0] == inner[j]);
    }
    lemma_find_is(t, seq!['}'], n);
    assert(s.subrange(2, n + 2) =~= inner);
    assert(s.skip(n + 3) =~= seq![]);
    reveal_with_fuel(expand, 2);
    assert(braced(inner, vars) + Seq::<char>::empty() =~= braced(inner, vars));
}

/// A variable expands to its value, with braces and without; one that is not set expands to
/// nothing, which is its value then.
pub proof fn law_variable(name: Seq<char>, vars: Vars)
    requires
        is_name(name),
    ensures
        expand(seq!['$'] + name, vars) == Ok::<Seq<char>, Seq<char>>(vars.lookup(name)),
        expand(seq!['$', '{'] + name + seq!['}'], vars) == Ok::<Seq<char>, Seq<char>>(
            vars.lookup(name),
        ),
{
    let s = seq!['$'] + name;
    lemma_is_name(name);
    assert(s.skip(1) =~= name);
    assert(is_name_char(name[0]));
    assert(s[1] == name[0]);
    assert(s.subrange(1, name.len() as int + 1) =~= name);
    assert(s.skip(name.len() as int + 1) =~= seq![]);
    reveal_with_fuel(expand, 2);
    assert(vars.lookup(name) + Seq::<char>::empty() =~= vars.lookup(name));
    assert(!name.contains('}'));
    lemma_braces(name, vars);
    assert forall|p: Seq<char>| p.len() == 2 && p[0] == ':' implies find(name, p) is None by {
        lemma_find(name, p);
        assert forall|j: int| !occurs_at(name, p, j) by {
            if 0 <= j && j + 2 <= name.len() {
                assert(is_name_char(name[j]));
                assert(name.subrange(j, j + 2)[0] == name[j]);
            }
        }
    }
}

/// `${NAME:-default}` stands for the value of the variable, or for the default where the
/// variable is empty or not set.
pub proof fn law_default(name: Seq<char>, default: Seq<char>, vars: Vars)
    requires
        is_name(name),
        !default.contains('}'),
    ensures
        expand(seq!['$', '{'] + (name + seq![':', '-'] + default) + seq!['}'], vars) == Ok::<
            Seq<char>,
            Seq<char>,
        >(
            if vars.lookup(name).len() == 0 {
                default
            } else {
                vars.lookup(name)
            },
        ),
{
    let inner = name + seq![':', '-'] + default;
    lemma_operator(name, '-', default);
    lemma_braces(inner, vars);
    lemma_find_is(inner, seq![':', '-'], name.len() as int);
    assert(inner.take(name.len() as int) =~= name);
    assert(inner.skip(name.len() as int + 2) =~= default);
}

/// `${NAME:+replacement}` stands for the replacement, or for nothing where the variable is
/// empty or not set. A replacement with a `:-` in it is another matter: there the default
/// form goes first.
pub proof fn law_replacement(name: Seq<char>, replacement: Seq<char>, vars: Vars)
    requires
        is_name(name),
        !replacement.contains('}'),
        find(replacement, seq![':', '-']) is None,
    ensures
        expand(seq!['$', '{'] + (name + seq![':', '+'] + replacement) + seq!['}'], vars) == Ok::<
            Seq<char>,
            Seq<char>,
        >(
            if vars.lookup(name).len() == 0 {
                seq![]
            } else {
                replacement
            },
        ),
{
    let inner = name + seq![':', '+'] + replacement;
    let n = name.len() as int;
    lemma_operator(name, '+', replacement);
    lemma_braces(inner, vars);
    lemma_find_is(inner, seq![':', '+'], n);
    assert(inner.take(n) =~= name);
    assert(inner.skip(n + 2) =~= replacement);
    lemma_find(replacement, seq![':', '-']);
    lemma_find(inner, seq![':', '-']);
    assert forall|j: int| !occurs_at(inner, seq![':', '-'], j) by {
        if 0 <= j && j + 2 <= inner.len() {
            let w = inner.subrange(j, j + 2);
            assert(w[0] == inner[j] && w[1] == inner[j + 1]);
            if j < n {
                assert(is_name_char(name[j]));
            } else if j >= n + 2 {
                assert(!occurs_at(replacement, seq![':', '-'], j - n - 2));
                assert(replacement.subrange(j - n - 2, j - n) =~= w);
            }
        }
    }
}

proof fn lemma_operator(name: Seq<char>, op: char, text: Seq<char>)
    requires
        is_name(name),
        !text.contains('}'),
        op != '}',
    ensures
        !(name + seq![':', op] + text).contains('}'),
        occurs_at(name + seq![':', op] + text, seq![':', op], name.len() as int),
        forall|j: int|
            0 <= j < name.len() ==> !occurs_at(name + seq![':', op] + text, seq![':', op], j),
{
    let inner = name + seq![':', op] + text;
    let n = name.len() as int;
    assert(inner.subrange(n, n + 2) =~= seq![':', op]);
    assert forall|j: int| 0 <= j < n implies !occurs_at(inner, seq![':', op], j) by {
        assert(is_name_char(name[j]));
        assert(inner.subrange(j, j + 2)[0] == name[j]);
    }
    if inner.contains('}') {
        let j = choose|j: int| 0 <= j < inner.len() && inner[j] == '}';
        if j < n {
            assert(is_name_char(name[j]));
        } else if j >= n + 2 {
            assert(text[j - n - 2] == '}');
        }
    }
}

// ---------------------------------------------------------------------------------------
// Expansion goes piece by piece
// ---------------------------------------------------------------------------------------
/// Text without a dollar sign is kept, and what stands behind it is expanded as if it stood
/// alone. Only a backslash right before a dollar sign is another matter.
pub proof fn law_text_is_kept_in_front(t: Seq<char>, u: Seq<char>, vars: Vars)
    requires
        !t.contains('$'),
        t.len() > 0 && t.last() == '\\' ==> !(u.len() > 0 && u[0] == '$'),
    ensures
        match expand(u, vars) {
            Ok(r) => expand(t + u, vars) == Ok::<Seq<char>, Seq<char>>(t + r),
            Err(e) => expand(t + u, vars) == Err::<Seq<char>, Seq<char>>(e),
        },
    decreases t.len(),
{
    let s = t + u;
    if t.len() == 0 {
        assert(s =~= u);
        if let Ok(r) = expand(u, vars) {
            assert(t + r =~= r);
        }
    } else {
        let rest = t.skip(1);
        assert(t.contains(t[0]));
        assert forall|c: char| rest.contains(c) implies t.contains(c) by {
            let i = choose|i: int| 0 <= i < rest.len() && rest[i] == c;
            assert(t[i + 1] == c);
        }
        if t.len() > 1 {
            assert(t.contains(t[1]));
            assert(s[1] == t[1]);
            assert(rest.last() == t.last());
        }
        assert(s.skip(1) =~= rest + u);
        law_text_is_kept_in_front(rest, u, vars);
        if let Ok(r) = expand(u, vars) {
            assert(seq![t[0]] + (rest + r) =~= t + r);
        }
    }
}

proof fn lemma_closed(inner: Seq<char>, u: Seq<char>)
    requires
        !inner.contains('}'),
    ensures
        find(inner + seq!['}'] + u, seq!['}']) == Some(inner.len() as int),
{
    let t = inner + seq!['}'] + u;
    let n = inner.len() as int;
    assert(t.subrange(n, n + 1) =~= seq!['}']);
    assert forall|j: int| 0 <= j < n implies !occurs_at(t, seq!['}'], j) by {
        assert(inner.contains(inner[j]));
        assert(t.subrange(j, j + 1)[0] == inner[j]);
    }
    lemma_find_is(t, seq!['}'], n);
}

/// What stands in braces is replaced by what it stands for alone, and what stands behind the
/// closing brace is expanded as if it stood alone.
pub proof fn law_braces_are_replaced_in_front(inner: Seq<char>, u: Seq<char>, vars: Vars)
    requires
        !inner.contains('}'),
    ensures
        ({
            let variable = seq!['$', '{'] + inner + seq!['}'];
            expand(variable, vars) matches Ok(v) && match expand(u, vars) {
                Ok(r) => expand(variable + u, vars) == Ok::<Seq<char>, Seq<char>>(v + r),
                Err(e) => expand(variable + u, vars) == Err::<Seq<char>, Seq<char>>(e),
            }
        }),
{
    let variable = seq!['$', '{'] + inner + seq!['}'];
    let s = variable + u;
    let n = inner.len() as int;
    lemma_braces(inner, vars);
    lemma_closed(inner, u);
    assert(s.skip(2) =~= inner + seq!['}'] + u);
    assert(s.subrange(2, n + 2) =~= inner);
    assert(s.skip(n + 3) =~= u);
}

/// Expansion goes piece by piece: text without a dollar sign is kept, what stands in braces
/// behind it is replaced by what it stands for alone, and the rest is expanded as if it stood
/// alone. Where the rest cannot be expanded, neither can the whole.
pub proof fn law_expansion_goes_piece_by_piece(
    t: Seq<char>,
    inner: Seq<char>,
    u: Seq<char>,
    vars: Vars,
)
    requires
        !t.contains('$'),
        t.len() > 0 ==> t.last() != '\\',
        !inner.contains('}'),
    ensures
        ({
            let variable = seq!['$', '{'] + inner + seq!['}'];
            expand(variable, vars) matches Ok(v) && match expand(u, vars) {
                Ok(r) => expand(t + variable + u, vars) == Ok::<Seq<char>, Seq<char>>(t + v + r),
                Err(e) => expand(t + variable + u, vars) == Err::<Seq<char>, Seq<char>>(e),
            }
        }),
{
    let variable = seq!['$', '{'] + inner + seq!['}'];
    law_braces_are_replaced_in_front(inner, u, vars);
    law_text_is_kept_in_front(t, variable + u, vars);
    assert(t + (variable + u) =~= t + variable + u);
    if let (Ok(v), Ok(r)) = (expand(variable, vars), expand(u, vars)) {
        assert(t + (v + r) =~= t + v + r);
    }
}

proof fn lemma_name_ends(name: Seq<char>, u: Seq<char>)
    requires
        forall|i: int| 0 <= i < name.len() ==> is_name_char(#[trigger] name[i]),
        u.len() > 0 ==> !is_name_char(u[0]),
    ensures
        name_len(name + u) == name.len(),
    decreases name.len(),
{
    let s = name + u;
    if name.len() > 0 {
        let rest = name.drop_first();
        assert forall|i: int| 0 <= i < rest.len() implies is_name_char(#[trigger] rest[i]) by {
            assert(rest[i] == name[i + 1]);
        }
        lemma_name_ends(rest, u);
        assert(is_name_char(name[0]));
        assert(s[0] == name[0]);
        assert(s.drop_first() =~= rest + u);
    } else {
        assert(s =~= u);
    }
}

/// A variable without braces reaches as far as letters, digits and underscores do. It is
/// replaced by its value, and what stands behind it is expanded as if it stood alone.
pub proof fn law_variable_is_replaced_in_front(name: Seq<char>, u: Seq<char>, vars: Vars)
    requires
        name.len() > 0,
        forall|i: int|
            0 <= i < name.len() ==> 'a' <= #[trigger] name[i] <= 'z' || 'A' <= name[i] <= 'Z' || '0'
                <= name[i] <= '9' || name[i] == '_',
        u.len() > 0 ==> !('a' <= u[0] <= 'z' || 'A' <= u[0] <= 'Z' || '0' <= u[0] <= '9' || u[0]
            == '_'),
    ensures
        match expand(u, vars) {
            Ok(r) => expand(seq!['$'] + name + u, vars) == Ok::<Seq<char>, Seq<char>>(
                vars.lookup(name) + r,
            ),
            Err(e) => expand(seq!['$'] + name + u, vars) == Err::<Seq<char>, Seq<char>>(e),
        },
{
    let s = seq!['$'] + name + u;
    let n = name.len() as int;
    assert forall|i: int| 0 <= i < name.len() implies is_name_char(#[trigger] name[i]) by {
        assert('a' <= name[i] <= 'z' || 'A' <= name[i] <= 'Z' || '0' <= name[i] <= '9' || name[i]
            == '_');
    }
    lemma_name_ends(name, u);
    assert(s.skip(1) =~= name + u);
    assert(s[1] == name[0]);
    assert(is_name_char(name[0]));
    assert(s.subrange(1, n + 1) =~= name);
    assert(s.skip(n + 1) =~= u);
}

/// A backslash before a dollar sign goes, the dollar sign stays, and what stands behind it is
/// expanded as if it stood alone.
pub proof fn law_escape_is_replaced_in_front(u: Seq<char>, vars: Vars)
    ensures
        match expand(u, vars) {
            Ok(r) => expand(seq!['\\', '$'] + u, vars) == Ok::<Seq<char>, Seq<char>>(seq!['$'] + r),
            Err(e) => expand(seq!['\\', '$'] + u, vars) == Err::<Seq<char>, Seq<char>>(e),
        },
{
    let s = seq!['\\', '$'] + u;
    assert(s.skip(2) =~= u);
}

/// A dollar sign that starts no variable stays.
pub proof fn law_lone_dollar_is_kept(u: Seq<char>, vars: Vars)
    requires
        u.len() > 0 ==> u[0] != '{' && !('a' <= u[0] <= 'z' || 'A' <= u[0] <= 'Z' || '0' <= u[0]
            <= '9' || u[0] == '_'),
    ensures
        match expand(u, vars) {
            Ok(r) => expand(seq!['$'] + u, vars) == Ok::<Seq<char>, Seq<char>>(seq!['$'] + r),
            Err(e) => expand(seq!['$'] + u, vars) == Err::<Seq<char>, Seq<char>>(e),
        },
{
    let s = seq!['$'] + u;
    assert(s.skip(1) =~= u);
    if u.len() > 0 {
        assert(s[1] == u[0]);
    }
}

/// A brace that is not closed is an error, which names the text behind it.
pub proof fn law_open_brace_is_an_error(t: Seq<char>, u: Seq<char>, vars: Vars)
    requires
        !t.contains('$'),
        t.len() > 0 ==> t.last() != '\\',
        !u.contains('}'),
    ensures
        expand(t + seq!['$', '{'] + u, vars) == Err::<Seq<char>, Seq<char>>(u),
{
    let s = seq!['$', '{'] + u;
    assert(s.skip(2) =~= u);
    lemma_find(u, seq!['}']);
    if let Some(i) = find(u, seq!['}']) {
        assert(u.subrange(i, i + 1)[0] == u[i]);
        assert(u.contains(u[i]));
    }
    law_text_is_kept_in_front(t, s, vars);
    assert(t + s =~= t + seq!['$', '{'] + u);
}

proof fn lemma_operator_at(name: Seq<char>, op: char, text: Seq<char>)
    requires
        op != ':',
        forall|j: int| 0 <= j < name.len() - 1 && #[trigger] name[j] == ':' ==> name[j + 1] != op,
    ensures
        find(name + seq![':', op] + text, seq![':', op]) == Some(name.len() as int),
{
    let inner = name + seq![':', op] + text;
    let n = name.len() as int;
    assert(inner.subrange(n, n + 2) =~= seq![':', op]);
    assert forall|j: int| 0 <= j < n implies !occurs_at(inner, seq![':', op], j) by {
        let w = inner.subrange(j, j + 2);
        assert(w[0] == name[j]);
        assert(w[1] == inner[j + 1]);
        if name[j] == ':' && j < n - 1 {
            assert(name[j + 1] != op);
        }
    }
    lemma_find_is(inner, seq![':', op], n);
}

/// In braces any text without a colon is a name, and it stands for its value, wherever the
/// braces stand.
pub proof fn law_name_in_braces(name: Seq<char>, u: Seq<char>, vars: Vars)
    requires
        !name.contains(':'),
        !name.contains('}'),
        expand(u, vars) is Ok,
    ensures
        expand(seq!['$', '{'] + name + seq!['}'] + u, vars) == Ok::<Seq<char>, Seq<char>>(
            vars.lookup(name) + expand(u, vars)->Ok_0,
        ),
{
    lemma_find(name, seq![':', '-']);
    lemma_find(name, seq![':', '+']);
    assert forall|j: int| !occurs_at(name, seq![':', '-'], j) && !occurs_at(
        name,
        seq![':', '+'],
        j,
    ) by {
        if 0 <= j && j + 2 <= name.len() {
            assert(name.contains(name[j]));
            assert(name.subrange(j, j + 2)[0] == name[j]);
        }
    }
    lemma_braces(name, vars);
    law_braces_are_replaced_in_front(name, u, vars);
}

/// In braces what stands before the first `:-` is a name. It stands for its value, or for the text
/// behind that where the value is empty, wherever the braces stand.
pub proof fn law_default_in_braces(name: Seq<char>, text: Seq<char>, u: Seq<char>, vars: Vars)
    requires
        forall|j: int| 0 <= j < name.len() - 1 && #[trigger] name[j] == ':' ==> name[j + 1] != '-',
        !name.contains('}'),
        !text.contains('}'),
        expand(u, vars) is Ok,
    ensures
        expand(seq!['$', '{'] + (name + seq![':', '-'] + text) + seq!['}'] + u, vars) == Ok::<
            Seq<char>,
            Seq<char>,
        >(
            (if vars.lookup(name).len() > 0 {
                vars.lookup(name)
            } else {
                text
            }) + expand(u, vars)->Ok_0,
        ),
{
    let inner = name + seq![':', '-'] + text;
    let n = name.len() as int;
    assert forall|k: int| 0 <= k < inner.len() implies inner[k] != '}' by {
        if k < n {
            assert(name.contains(name[k]));
        } else if k >= n + 2 {
            assert(text.contains(text[k - n - 2]));
        }
    }
    lemma_operator_at(name, '-', text);
    assert(inner.take(n) =~= name);
    assert(inner.skip(n + 2) =~= text);
    lemma_braces(inner, vars);
    law_braces_are_replaced_in_front(inner, u, vars);
}

/// In braces a name with `:+` behind it stands for the text behind that, or for nothing where
/// its value is empty, wherever the braces stand.
pub proof fn law_replacement_in_braces(name: Seq<char>, text: Seq<char>, u: Seq<char>, vars: Vars)
    requires
        !name.contains(':'),
        !name.contains('}'),
        !text.contains('}'),
        !text.contains(':'),
        expand(u, vars) is Ok,
    ensures
        expand(seq!['$', '{'] + (name + seq![':', '+'] + text) + seq!['}'] + u, vars) == Ok::<
            Seq<char>,
            Seq<char>,
        >(
            (if vars.lookup(name).len() > 0 {
                text
            } else {
                seq![]
            }) + expand(u, vars)->Ok_0,
        ),
{
    let inner = name + seq![':', '+'] + text;
    let n = name.len() as int;
    assert forall|k: int| 0 <= k < inner.len() implies inner[k] != '}' by {
        if k < n {
            assert(name.contains(name[k]));
        } else if k >= n + 2 {
            assert(text.contains(text[k - n - 2]));
        }
    }
    lemma_operator_at(name, '+', text);
    assert(inner.take(n) =~= name);
    assert(inner.skip(n + 2) =~= text);
    lemma_find(inner, seq![':', '-']);
    assert forall|j: int| !occurs_at(inner, seq![':', '-'], j) by {
        if 0 <= j && j + 2 <= inner.len() {
            let w = inner.subrange(j, j + 2);
            assert(w[0] == inner[j] && w[1] == inner[j + 1]);
            if j < n {
                assert(name.contains(name[j]));
            } else if j >= n + 2 {
                assert(text.contains(text[j - n - 2]));
            }
        }
    }
    lemma_braces(inner, vars);
    law_braces_are_replaced_in_front(inner, u, vars);
}

} // verus!
