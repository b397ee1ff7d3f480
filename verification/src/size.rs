//! Human-readable sizes (e.g., "100GB", "512MB").
use vstd::prelude::*;

use crate::text::{
    decimal, decimal_text, is_digit, is_space, lemma_decimal, lemma_trim_nothing, number,
    number_upto, push_all, read_number, strip_suffix, to_chars, to_text, trim, trimmed,
    without_suffix,
};
use crate::text_laws::law_trim;

verus! {

/// A size in bytes.
#[derive(Debug)]
pub struct Size(pub u64);

/// Why a text denotes no size that a whole number can be read off.
#[derive(Debug)]
pub enum SizeError {
    /// A text without a unit is no whole number, or one that is too large.
    NotANumber,
    /// What stands before the unit is not a whole number of at most `LARGEST_WHOLE`. Whether
    /// it is a number at all, and which size it denotes, is a matter of floating point.
    Fractional { mantissa: String, unit: u64 },
}

/// The largest number up to which every whole number has a floating point form.
pub const LARGEST_WHOLE: u64 = 9_007_199_254_740_992;

impl Clone for Size {
    fn clone(&self) -> (r: Size)
        ensures
            r.0 == self.0,
    {
        Size(self.0)
    }
}

impl std::ops::Deref for Size {
    type Target = u64;

    fn deref(&self) -> (r: &u64)
        ensures
            *r == self.0,
    {
        &self.0
    }
}

impl Default for Size {
    fn default() -> (r: Size)
        ensures
            r.0 == 0,
    {
        Size(0)
    }
}

/// A text as a number and the bytes that one of its units stands for, where it has a unit.
pub open spec fn with_unit(s: Seq<char>) -> (Seq<char>, Option<nat>) {
    let t = trim(s);
    match strip_suffix(t, "KB"@) {
        Some(v) => (trim(v), Some(1024)),
        None => match strip_suffix(t, "MB"@) {
            Some(v) => (trim(v), Some(1_048_576)),
            None => match strip_suffix(t, "GB"@) {
                Some(v) => (trim(v), Some(1_073_741_824)),
                None => (t, None),
            },
        },
    }
}

/// A number of bytes, or the largest that fits.
pub open spec fn saturated(n: nat) -> nat {
    if n > u64::MAX {
        u64::MAX as nat
    } else {
        n
    }
}

fn split_unit(t: &[char]) -> (r: (&[char], Option<u64>))
    ensures
        forall|s: Seq<char>| #[trigger]
            trim(s) == t@ ==> with_unit(s) == (
                r.0@,
                match r.1 {
                    Some(u) => Some(u as nat),
                    None => None,
                },
            ),
        r.1 matches Some(u) ==> u <= 1_073_741_824,
{
    if let Some(v) = without_suffix(t, "KB") {
        (trimmed(v), Some(1024))
    } else if let Some(v) = without_suffix(t, "MB") {
        (trimmed(v), Some(1_048_576))
    } else if let Some(v) = without_suffix(t, "GB") {
        (trimmed(v), Some(1_073_741_824))
    } else {
        (t, None)
    }
}

/// A size in the largest unit of which it is a whole number.
pub open spec fn shown(n: nat) -> Seq<char> {
    if n % 1_073_741_824 == 0 {
        decimal(n / 1_073_741_824) + "GB"@
    } else if n % 1_048_576 == 0 {
        decimal(n / 1_048_576) + "MB"@
    } else if n % 1024 == 0 {
        decimal(n / 1024) + "KB"@
    } else {
        decimal(n) + "B"@
    }
}

impl Size {
    /// Parses a size: a number and a suffix `KB`, `MB` or `GB`, or a number of bytes. A size
    /// that is too large becomes the largest one.
    pub fn from_str(s: &str) -> (r: Result<Size, SizeError>)
        ensures
            match with_unit(s@) {
                (v, None) => match number_upto(v, u64::MAX as nat) {
                    Some(n) => r matches Ok(z) && z.0 == n,
                    None => r matches Err(SizeError::NotANumber),
                },
                (v, Some(unit)) => match number_upto(v, LARGEST_WHOLE as nat) {
                    Some(n) => r matches Ok(z) && z.0 == saturated(n * unit),
                    None => r matches Err(SizeError::Fractional { mantissa, unit: u })
                        && mantissa@ == v && u == unit,
                },
            },
    {
        let c = to_chars(s);
        let t = trimmed(&c);
        match split_unit(t) {
            (v, None) => match read_number(v, u64::MAX) {
                Some(n) => Ok(Size(n)),
                None => Err(SizeError::NotANumber),
            },
            (v, Some(unit)) => match read_number(v, LARGEST_WHOLE) {
                Some(n) => {
                    proof {
                        assert(n * unit <= LARGEST_WHOLE * 1_073_741_824) by (nonlinear_arith)
                            requires
                                n <= LARGEST_WHOLE,
                                unit <= 1_073_741_824,
                        ;
                        assert(n as nat * unit as nat == n * unit);
                    }
                    let bytes: u128 = (n as u128) * (unit as u128);
                    if bytes > u64::MAX as u128 {
                        Ok(Size(u64::MAX))
                    } else {
                        Ok(Size(bytes as u64))
                    }
                },
                None => Err(SizeError::Fractional { mantissa: to_text(v), unit }),
            },
        }
    }

    /// The size in the largest unit of which it is a whole number.
    pub fn to_string(&self) -> (r: String)
        ensures
            r@ == shown(self.0 as nat),
    {
        let n = self.0;
        let (count, unit) = if n % 1_073_741_824 == 0 {
            (n / 1_073_741_824, "GB")
        } else if n % 1_048_576 == 0 {
            (n / 1_048_576, "MB")
        } else if n % 1024 == 0 {
            (n / 1024, "KB")
        } else {
            (n, "B")
        };
        let mut r = to_chars(decimal_text(count as u128).as_str());
        let u = to_chars(unit);
        push_all(&mut r, &u);
        to_text(&r)
    }
}

proof fn lemma_counted(count: nat, unit: Seq<char>, length: nat)
    requires
        (unit == "KB"@ && length == 1024) || (unit == "MB"@ && length == 1_048_576) || (unit
            == "GB"@ && length == 1_073_741_824),
    ensures
        with_unit(decimal(count) + unit) == (decimal(count), Some(length)),
        number(decimal(count)) == Some(count),
{
    reveal_strlit("KB");
    reveal_strlit("MB");
    reveal_strlit("GB");
    lemma_decimal(count);
    let d = decimal(count);
    let s = d + unit;
    assert(is_digit(d[0]) && is_digit(d.last()));
    assert(s[0] == d[0]);
    assert(s.last() == unit[1]);
    lemma_trim_nothing(s);
    lemma_trim_nothing(d);
    assert(s.take(s.len() - 2) =~= d);
    let end = s.subrange(s.len() - 2, s.len() as int);
    assert(end =~= unit);
    assert("KB"@[0] == 'K' && "MB"@[0] == 'M' && "GB"@[0] == 'G');
}

/// A size that is a whole number of kilobytes, and at most half of the largest one, is read
/// back as itself when it is written out.
pub proof fn law_shown_size_reads_back(n: u64)
    requires
        n % 1024 == 0,
        n <= 0x8000_0000_0000_0000,
    ensures
        with_unit(shown(n as nat)) matches (v, Some(unit)) && number_upto(
            v,
            LARGEST_WHOLE as nat,
        ) matches Some(count) && saturated(count * unit) == n,
{
    let m = n as nat;
    if m % 1_073_741_824 == 0 {
        lemma_counted(m / 1_073_741_824, "GB"@, 1_073_741_824);
    } else if m % 1_048_576 == 0 {
        lemma_counted(m / 1_048_576, "MB"@, 1_048_576);
    } else {
        lemma_counted(m / 1024, "KB"@, 1024);
    }
}

/// A unit is a power of 1024: kilobytes, megabytes and gigabytes are told by their last two
/// characters, and a number without one of them is one of bytes.
pub proof fn law_units_of_size(n: nat)
    ensures
        with_unit(decimal(n)) == (decimal(n), None::<nat>),
        with_unit(decimal(n) + "KB"@) == (decimal(n), Some(1024nat)),
        with_unit(decimal(n) + "MB"@) == (decimal(n), Some(1024nat * 1024)),
        with_unit(decimal(n) + "GB"@) == (decimal(n), Some(1024nat * 1024 * 1024)),
{
    lemma_counted(n, "KB"@, 1024);
    lemma_counted(n, "MB"@, 1_048_576);
    lemma_counted(n, "GB"@, 1_073_741_824);
    reveal_strlit("KB");
    reveal_strlit("MB");
    reveal_strlit("GB");
    lemma_decimal(n);
    let d = decimal(n);
    assert(is_digit(d[0]) && is_digit(d.last()));
    lemma_trim_nothing(d);
    if d.len() >= 2 {
        let end = d.subrange(d.len() - 2, d.len() as int);
        assert(end[1] == d.last());
        assert("KB"@[1] == 'B' && "MB"@[1] == 'B' && "GB"@[1] == 'B');
    }
}

/// A size is written in the largest unit of which it is a whole number.
pub proof fn law_largest_size_unit_is_shown(n: nat)
    ensures
        shown(1_073_741_824 * n) == decimal(n) + "GB"@,
        n % 1024 != 0 ==> shown(1_048_576 * n) == decimal(n) + "MB"@,
        n % 1024 != 0 ==> shown(1024 * n) == decimal(n) + "KB"@,
        n % 1024 != 0 ==> shown(n) == decimal(n) + "B"@,
{
    assert((1_073_741_824 * n) % 1_073_741_824 == 0 && (1_073_741_824 * n) / 1_073_741_824 == n);
    if n % 1024 != 0 {
        assert((1_048_576 * n) % 1_073_741_824 != 0);
        assert((1_048_576 * n) / 1_048_576 == n);
        assert((1024 * n) % 1_048_576 != 0);
        assert((1024 * n) % 1_073_741_824 != 0);
        assert((1024 * n) / 1024 == n);
        assert(n % 1_048_576 != 0 && n % 1_073_741_824 != 0);
    }
}

/// A size that does not fit becomes the largest one, and any other stays as it is.
pub proof fn law_size_is_bounded(n: nat)
    ensures
        saturated(n) <= 0xffff_ffff_ffff_ffff,
        n <= 0xffff_ffff_ffff_ffff ==> saturated(n) == n,
        n > 0xffff_ffff_ffff_ffff ==> saturated(n) == 0xffff_ffff_ffff_ffff,
        LARGEST_WHOLE == 9_007_199_254_740_992,
{
}

/// White space round a size, and between its number and its unit, is of no account.
pub proof fn law_size_is_trimmed(a: Seq<char>, n: nat, blank: Seq<char>, b: Seq<char>)
    requires
        forall|i: int| 0 <= i < a.len() ==> is_space(#[trigger] a[i]),
        forall|i: int| 0 <= i < b.len() ==> is_space(#[trigger] b[i]),
        forall|i: int| 0 <= i < blank.len() ==> is_space(#[trigger] blank[i]),
    ensures
        with_unit(a + decimal(n) + b) == (decimal(n), None::<nat>),
        with_unit(a + (decimal(n) + blank + "KB"@) + b) == (decimal(n), Some(1024nat)),
        with_unit(a + (decimal(n) + blank + "MB"@) + b) == (decimal(n), Some(1_048_576nat)),
        with_unit(a + (decimal(n) + blank + "GB"@) + b) == (decimal(n), Some(1_073_741_824nat)),
{
    lemma_decimal(n);
    let d = decimal(n);
    assert(is_digit(d[0]) && is_digit(d.last()));
    law_trim(a, d, b);
    lemma_trim_nothing(d);
    law_units_of_size(n);
    lemma_spaced(a, n, blank, b, "KB"@);
    lemma_spaced(a, n, blank, b, "MB"@);
    lemma_spaced(a, n, blank, b, "GB"@);
}

proof fn lemma_spaced(
    a: Seq<char>,
    n: nat,
    blank: Seq<char>,
    b: Seq<char>,
    unit: Seq<char>,
)
    requires
        forall|i: int| 0 <= i < a.len() ==> is_space(#[trigger] a[i]),
        forall|i: int| 0 <= i < b.len() ==> is_space(#[trigger] b[i]),
        forall|i: int| 0 <= i < blank.len() ==> is_space(#[trigger] blank[i]),
        unit == "KB"@ || unit == "MB"@ || unit == "GB"@,
    ensures
        with_unit(a + (decimal(n) + blank + unit) + b) == with_unit(decimal(n) + unit),
{
    reveal_strlit("KB");
    reveal_strlit("MB");
    reveal_strlit("GB");
    lemma_decimal(n);
    let none = Seq::<char>::empty();
    let d = decimal(n);
    let s = d + blank + unit;
    let t = d + unit;
    assert(is_digit(d[0]) && is_digit(d.last()));
    assert(s[0] == d[0] && s.last() == unit[1] && unit[1] == 'B');
    assert(t[0] == d[0] && t.last() == unit[1]);
    law_trim(a, s, b);
    lemma_trim_nothing(t);
    lemma_trim_nothing(d);
    law_trim(none, d, blank);
    assert(none + d + blank =~= d + blank);
    assert(s.take(s.len() - 2) =~= d + blank);
    assert(t.take(t.len() - 2) =~= d);
    assert(s.subrange(s.len() - 2, s.len() as int) =~= unit);
    assert(t.subrange(t.len() - 2, t.len() as int) =~= unit);
    assert("KB"@[0] == 'K' && "MB"@[0] == 'M' && "GB"@[0] == 'G');
}

/// However the number of a size is written, its last two characters are its unit where they are one.
pub proof fn law_units_of_any_size(d: Seq<char>)
    requires
        d.len() > 0 && !is_space(d[0]) && !is_space(d.last()),
    ensures
        with_unit(d + "KB"@) == (d, Some(1024nat)),
        with_unit(d + "MB"@) == (d, Some(1_048_576nat)),
        with_unit(d + "GB"@) == (d, Some(1_073_741_824nat)),
        d.last() != 'B' ==> with_unit(d) == (d, None::<nat>),
        d.len() > 1 && d[d.len() - 2] != 'K' && d[d.len() - 2] != 'M' && d[d.len() - 2] != 'G'
            ==> with_unit(d) == (d, None::<nat>),
{
    reveal_strlit("KB");
    reveal_strlit("MB");
    reveal_strlit("GB");
    lemma_trim_nothing(d);
    let k = d + "KB"@;
    let m = d + "MB"@;
    let g = d + "GB"@;
    let n = d.len() as int;
    assert(k[0] == d[0] && m[0] == d[0] && g[0] == d[0]);
    assert(k.last() == 'B' && m.last() == 'B' && g.last() == 'B');
    lemma_trim_nothing(k);
    lemma_trim_nothing(m);
    lemma_trim_nothing(g);
    assert(k.take(n) =~= d && m.take(n) =~= d && g.take(n) =~= d);
    assert(k.subrange(n, n + 2) =~= "KB"@);
    assert(m.subrange(n, n + 2) =~= "MB"@);
    assert(g.subrange(n, n + 2) =~= "GB"@);
    assert("KB"@[0] == 'K' && "MB"@[0] == 'M' && "GB"@[0] == 'G');
    if d.len() > 1 {
        let end = d.subrange(n - 2, n);
        assert(end[1] == d.last() && end[0] == d[n - 2]);
    }
}

} // verus!
