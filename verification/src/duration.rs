//! Human-readable durations (e.g., "6h", "2d").
use vstd::prelude::*;

use crate::text::{
    decimal, decimal_text, is_digit, is_space, lemma_decimal, lemma_trim_nothing, number_upto,
    read_number, strip_suffix, to_chars, trim, trimmed, without_suffix,
};
use crate::text_laws::{law_number, law_trim};

verus! {

/// A duration in seconds.
#[derive(Debug)]
pub struct Duration(pub u64);

/// Why a text is no duration.
#[derive(Debug, Clone, Copy, PartialEq, Eq, Structural)]
pub enum DurationError {
    /// What stands before the unit is no whole number, or one that is too large.
    NotANumber,
}

impl Clone for Duration {
    fn clone(&self) -> (r: Duration)
        ensures
            r.0 == self.0,
    {
        Duration(self.0)
    }
}

impl std::ops::Deref for Duration {
    type Target = u64;

    fn deref(&self) -> (r: &u64)
        ensures
            *r == self.0,
    {
        &self.0
    }
}

/// A text as a number and the seconds that one of its units stands for.
pub open spec fn in_units(s: Seq<char>) -> (Seq<char>, nat) {
    let t = trim(s);
    match strip_suffix(t, "m"@) {
        Some(v) => (trim(v), 60),
        None => match strip_suffix(t, "h"@) {
            Some(v) => (trim(v), 3600),
            None => match strip_suffix(t, "d"@) {
                Some(v) => (trim(v), 86_400),
                None => match strip_suffix(t, "w"@) {
                    Some(v) => (trim(v), 604_800),
                    None => (t, 1),
                },
            },
        },
    }
}

/// The seconds that a text denotes: a whole number with a unit of minutes, hours, days or
/// weeks, or one without a unit.
pub open spec fn seconds(s: Seq<char>) -> Option<nat> {
    let (v, unit) = in_units(s);
    match number_upto(v, u64::MAX as nat) {
        Some(n) => Some(n * unit),
        None => None,
    }
}

fn split_unit(t: &[char]) -> (r: (&[char], u64))
    ensures
        forall|s: Seq<char>| #[trigger] trim(s) == t@ ==> in_units(s) == (r.0@, r.1 as nat),
        r.1 <= 604_800,
{
    if let Some(v) = without_suffix(t, "m") {
        (trimmed(v), 60)
    } else if let Some(v) = without_suffix(t, "h") {
        (trimmed(v), 3600)
    } else if let Some(v) = without_suffix(t, "d") {
        (trimmed(v), 86_400)
    } else if let Some(v) = without_suffix(t, "w") {
        (trimmed(v), 604_800)
    } else {
        (t, 1)
    }
}

impl Duration {
    /// Whether a text either is no duration or is one that fits in a `Duration`.
    pub fn fits(s: &str) -> (r: bool)
        ensures
            r == (seconds(s@) matches Some(n) ==> n <= u64::MAX),
    {
        let c = to_chars(s);
        let t = trimmed(&c);
        let (v, unit) = split_unit(t);
        match read_number(v, u64::MAX) {
            Some(n) => {
                proof {
                    assert(n * unit <= u64::MAX * 604_800) by (nonlinear_arith)
                        requires
                            n <= u64::MAX,
                            unit <= 604_800,
                    ;
                }
                (n as u128) * (unit as u128) <= u64::MAX as u128
            },
            None => true,
        }
    }

    /// Parses a duration: a whole number and a suffix `m`, `h`, `d` or `w`, or a number of
    /// seconds.
    pub fn from_str(s: &str) -> (r: Result<Duration, DurationError>)
        requires
            seconds(s@) matches Some(n) ==> n <= u64::MAX,
        ensures
            match r {
                Ok(d) => seconds(s@) == Some(d.0 as nat),
                Err(e) => seconds(s@) is None && e == DurationError::NotANumber,
            },
    {
        let c = to_chars(s);
        let t = trimmed(&c);
        let (v, unit) = split_unit(t);
        match read_number(v, u64::MAX) {
            Some(n) => {
                proof {
                    assert(seconds(s@) == Some((n as nat) * (unit as nat)));
                }
                Ok(Duration(n * unit))
            },
            None => Err(DurationError::NotANumber),
        }
    }

    /// The duration in the largest unit of which it is a whole number.
    pub fn to_string(&self) -> (r: String)
        ensures
            r@ == shown(self.0 as nat),
    {
        let n = self.0;
        let (count, unit) = if n % 604_800 == 0 {
            (n / 604_800, Some('w'))
        } else if n % 86_400 == 0 {
            (n / 86_400, Some('d'))
        } else if n % 3600 == 0 {
            (n / 3600, Some('h'))
        } else if n % 60 == 0 {
            (n / 60, Some('m'))
        } else {
            (n, None)
        };
        let mut r = decimal_text(count as u128);
        if let Some(u) = unit {
            r.push(u);
        }
        r
    }
}

/// A duration in the largest unit of which it is a whole number.
pub open spec fn shown(n: nat) -> Seq<char> {
    if n % 604_800 == 0 {
        decimal(n / 604_800).push('w')
    } else if n % 86_400 == 0 {
        decimal(n / 86_400).push('d')
    } else if n % 3600 == 0 {
        decimal(n / 3600).push('h')
    } else if n % 60 == 0 {
        decimal(n / 60).push('m')
    } else {
        decimal(n)
    }
}

proof fn lemma_counted(count: nat, unit: char, length: nat)
    requires
        count <= u64::MAX,
        (unit == 'm' && length == 60) || (unit == 'h' && length == 3600) || (unit == 'd' && length
            == 86_400) || (unit == 'w' && length == 604_800),
    ensures
        seconds(decimal(count).push(unit)) == Some(count * length),
{
    reveal_strlit("m");
    reveal_strlit("h");
    reveal_strlit("d");
    reveal_strlit("w");
    lemma_decimal(count);
    let d = decimal(count);
    let s = d.push(unit);
    assert(is_digit(d[0]) && is_digit(d.last()));
    assert(s[0] == d[0]);
    lemma_trim_nothing(s);
    lemma_trim_nothing(d);
    assert(s.take(s.len() - 1) =~= d);
    assert(s.skip(s.len() - 1) =~= seq![unit]);
    assert(s.skip(s.len() - 1)[0] == unit);
    assert("m"@ =~= seq!['m'] && "h"@ =~= seq!['h'] && "d"@ =~= seq!['d'] && "w"@ =~= seq!['w']);
}

/// A duration that is written out is read back as itself.
pub proof fn law_shown_duration_reads_back(n: u64)
    ensures
        seconds(shown(n as nat)) == Some(n as nat),
{
    let m = n as nat;
    if m % 604_800 == 0 {
        lemma_counted(m / 604_800, 'w', 604_800);
    } else if m % 86_400 == 0 {
        lemma_counted(m / 86_400, 'd', 86_400);
    } else if m % 3600 == 0 {
        lemma_counted(m / 3600, 'h', 3600);
    } else if m % 60 == 0 {
        lemma_counted(m / 60, 'm', 60);
    } else {
        reveal_strlit("m");
        reveal_strlit("h");
        reveal_strlit("d");
        reveal_strlit("w");
        lemma_decimal(m);
        let d = decimal(m);
        assert(is_digit(d[0]) && is_digit(d.last()));
        lemma_trim_nothing(d);
        assert(d.subrange(d.len() - 1, d.len() as int)[0] == d.last());
        assert(in_units(d) == (d, 1nat));
        assert(m * 1 == m);
    }
}

proof fn lemma_bare(count: nat)
    requires
        count <= u64::MAX,
    ensures
        seconds(decimal(count)) == Some(count),
{
    reveal_strlit("m");
    reveal_strlit("h");
    reveal_strlit("d");
    reveal_strlit("w");
    lemma_decimal(count);
    let d = decimal(count);
    assert(is_digit(d[0]) && is_digit(d.last()));
    lemma_trim_nothing(d);
    assert(d.subrange(d.len() - 1, d.len() as int)[0] == d.last());
    assert(in_units(d) == (d, 1nat));
    assert(count * 1 == count);
}

/// A number without a unit is one of seconds. A minute has sixty of them, an hour sixty minutes, a
/// day twenty-four hours, and a week seven days.
pub proof fn law_units_of_time(n: nat)
    requires
        n <= u64::MAX,
    ensures
        seconds(decimal(n)) == Some(n),
        seconds(decimal(n).push('m')) == Some(n * 60),
        seconds(decimal(n).push('h')) == Some(n * (60 * 60)),
        seconds(decimal(n).push('d')) == Some(n * (24 * 60 * 60)),
        seconds(decimal(n).push('w')) == Some(n * (7 * 24 * 60 * 60)),
{
    lemma_bare(n);
    lemma_counted(n, 'm', 60);
    lemma_counted(n, 'h', 3600);
    lemma_counted(n, 'd', 86_400);
    lemma_counted(n, 'w', 604_800);
}

/// A text whose last character is neither a digit nor one of the four units denotes no duration.
pub proof fn law_other_units_are_refused(t: Seq<char>, c: char)
    requires
        t.len() > 0,
        !is_space(t[0]),
        !is_space(c),
        !('0' <= c <= '9'),
        c != 'm' && c != 'h' && c != 'd' && c != 'w',
    ensures
        seconds(t.push(c)) is None,
{
    reveal_strlit("m");
    reveal_strlit("h");
    reveal_strlit("d");
    reveal_strlit("w");
    let s = t.push(c);
    assert(s[0] == t[0] && s.last() == c);
    lemma_trim_nothing(s);
    assert(s.subrange(s.len() - 1, s.len() as int)[0] == c);
    assert("m"@[0] == 'm' && "h"@[0] == 'h' && "d"@[0] == 'd' && "w"@[0] == 'w');
    assert(in_units(s) == (s, 1nat));
    law_number(t, c, u64::MAX as nat);
}

/// White space round a duration, and between its number and its unit, is of no account.
pub proof fn law_duration_is_trimmed(a: Seq<char>, s: Seq<char>, b: Seq<char>)
    requires
        forall|i: int| 0 <= i < a.len() ==> is_space(#[trigger] a[i]),
        forall|i: int| 0 <= i < b.len() ==> is_space(#[trigger] b[i]),
        s.len() > 0 && !is_space(s[0]) && !is_space(s.last()),
    ensures
        seconds(a + s + b) == seconds(s),
{
    law_trim(a, s, b);
    lemma_trim_nothing(s);
}

/// A duration is written in the largest unit of which it is a whole number.
pub proof fn law_largest_unit_is_shown(n: nat)
    ensures
        shown(604_800 * n) == decimal(n).push('w'),
        n % 7 != 0 ==> shown(86_400 * n) == decimal(n).push('d'),
        n % 24 != 0 ==> shown(3600 * n) == decimal(n).push('h'),
        n % 60 != 0 ==> shown(60 * n) == decimal(n).push('m'),
        n % 60 != 0 ==> shown(n) == decimal(n),
{
    assert((604_800 * n) % 604_800 == 0 && (604_800 * n) / 604_800 == n);
    if n % 7 != 0 {
        assert((86_400 * n) % 604_800 != 0);
        assert((86_400 * n) / 86_400 == n);
    }
    if n % 24 != 0 {
        assert((3600 * n) % 86_400 != 0);
        assert((3600 * n) % 604_800 != 0);
        assert((3600 * n) / 3600 == n);
    }
    if n % 60 != 0 {
        assert((60 * n) % 3600 != 0);
        assert((60 * n) % 86_400 != 0);
        assert((60 * n) % 604_800 != 0);
        assert((60 * n) / 60 == n);
        assert(n % 3600 != 0 && n % 86_400 != 0 && n % 604_800 != 0);
    }
}

/// White space between the number and the unit of a duration is of no account.
pub proof fn law_space_before_the_unit(n: nat, blank: Seq<char>, unit: char)
    requires
        n <= u64::MAX,
        forall|i: int| 0 <= i < blank.len() ==> is_space(#[trigger] blank[i]),
        unit == 'm' || unit == 'h' || unit == 'd' || unit == 'w',
    ensures
        seconds(decimal(n) + blank + seq![unit]) == seconds(decimal(n).push(unit)),
{
    reveal_strlit("m");
    reveal_strlit("h");
    reveal_strlit("d");
    reveal_strlit("w");
    lemma_decimal(n);
    let none = Seq::<char>::empty();
    let d = decimal(n);
    let s = d + blank + seq![unit];
    let t = d.push(unit);
    let front = d + blank;
    assert(is_digit(d[0]) && is_digit(d.last()));
    assert(s[0] == d[0] && s.last() == unit);
    assert(t[0] == d[0] && t.last() == unit);
    lemma_trim_nothing(s);
    lemma_trim_nothing(t);
    lemma_trim_nothing(d);
    law_trim(none, d, blank);
    assert(none + d + blank =~= front);
    assert(s.take(s.len() - 1) =~= front);
    assert(t.take(t.len() - 1) =~= d);
    assert(s.subrange(s.len() - 1, s.len() as int) =~= seq![unit]);
    assert(t.subrange(t.len() - 1, t.len() as int) =~= seq![unit]);
    assert("m"@ =~= seq!['m'] && "h"@ =~= seq!['h'] && "d"@ =~= seq!['d'] && "w"@ =~= seq!['w']);
    assert(seq!['m'][0] == 'm' && seq!['h'][0] == 'h' && seq!['d'][0] == 'd' && seq!['w'][0] == 'w');
    assert(seq![unit][0] == unit);
}

/// However a number is written, its unit multiplies it, and without a number there is no duration.
pub proof fn law_units_of_any_number(d: Seq<char>)
    requires
        d.len() > 0 && !is_space(d[0]) && !is_space(d.last()),
    ensures
        ({
            let n = number_upto(d, u64::MAX as nat);
            &&& n is None ==> seconds(d.push('m')) is None && seconds(d.push('h')) is None
                && seconds(d.push('d')) is None && seconds(d.push('w')) is None
            &&& n is Some ==> seconds(d.push('m')) == Some(n->0 * 60) && seconds(d.push('h'))
                == Some(n->0 * 3600) && seconds(d.push('d')) == Some(n->0 * 86_400) && seconds(
                d.push('w'),
            ) == Some(n->0 * 604_800)
        }),
{
    lemma_unit(d, 'm');
    lemma_unit(d, 'h');
    lemma_unit(d, 'd');
    lemma_unit(d, 'w');
}

proof fn lemma_unit(d: Seq<char>, unit: char)
    requires
        d.len() > 0 && !is_space(d[0]) && !is_space(d.last()),
        unit == 'm' || unit == 'h' || unit == 'd' || unit == 'w',
    ensures
        in_units(d.push(unit)) == (
            d,
            if unit == 'm' {
                60nat
            } else if unit == 'h' {
                3600
            } else if unit == 'd' {
                86_400
            } else {
                604_800
            },
        ),
{
    reveal_strlit("m");
    reveal_strlit("h");
    reveal_strlit("d");
    reveal_strlit("w");
    let s = d.push(unit);
    assert(s[0] == d[0] && s.last() == unit);
    lemma_trim_nothing(s);
    lemma_trim_nothing(d);
    assert(s.take(s.len() - 1) =~= d);
    assert(s.subrange(s.len() - 1, s.len() as int) =~= seq![unit]);
    assert(seq![unit][0] == unit);
    assert("m"@ =~= seq!['m'] && "h"@ =~= seq!['h'] && "d"@ =~= seq!['d'] && "w"@ =~= seq!['w']);
    assert(seq!['m'][0] == 'm' && seq!['h'][0] == 'h' && seq!['d'][0] == 'd' && seq!['w'][0] == 'w');
}

} // verus!
