use vstd::prelude::*;

use crate::error::Error;
use crate::text::{
    chars_of, decimal_value, digits_value, in_class, is_in_class, run_end, run_len, CharClass,
};

verus! {

/// The unit in which a half-life is given.
#[derive(Debug, Clone, Copy, PartialEq, Eq, Structural)]
pub enum TimeUnit {
    MicroSecond,
    MilliSecond,
    Second,
    Minute,
    Hour,
    Day,
    Year,
}

/// The unit that the text `t` names: `us`, `ms`, `s`, `m`, `h`, `d` or `y`.
pub open spec fn parse_time_unit(t: Seq<char>) -> Option<TimeUnit> {
    if t == seq!['u', 's'] {
        Some(TimeUnit::MicroSecond)
    } else if t == seq!['m', 's'] {
        Some(TimeUnit::MilliSecond)
    } else if t == seq!['s'] {
        Some(TimeUnit::Second)
    } else if t == seq!['m'] {
        Some(TimeUnit::Minute)
    } else if t == seq!['h'] {
        Some(TimeUnit::Hour)
    } else if t == seq!['d'] {
        Some(TimeUnit::Day)
    } else if t == seq!['y'] {
        Some(TimeUnit::Year)
    } else {
        None
    }
}

/// A half-life of `mantissa × 10^exponent` units of `unit`, kept exactly as written.
#[derive(Debug, Clone, Copy, PartialEq, Eq, Structural)]
pub struct HalfLife {
    pub mantissa: u32,
    pub exponent: i32,
    pub unit: TimeUnit,
}

/// 1 where a sign stands at `s[i]`, else 0.
pub open spec fn sign_len(s: Seq<char>, i: nat) -> nat {
    if i < s.len() && (s[i as int] == '+' || s[i as int] == '-') {
        1
    } else {
        0
    }
}

/// The length of the number that starts at `s[i]`: an optional sign, digits, optionally a
/// point and more digits, optionally an exponent (`e` or `E`, an optional sign and
/// digits). 0 where no number starts there.
pub open spec fn number_len(s: Seq<char>, i: nat) -> nat {
    let a = i + sign_len(s, i);
    let d = run_len(s, a, CharClass::Digit);
    if d == 0 {
        0
    } else {
        let b = a + d;
        let c = if b < s.len() && s[b as int] == '.' {
            b + 1 + run_len(s, b + 1, CharClass::Digit)
        } else {
            b
        };
        let x = c + 1 + sign_len(s, c + 1);
        let e = if c < s.len() && (s[c as int] == 'e' || s[c as int] == 'E') && run_len(
            s,
            x,
            CharClass::Digit,
        ) > 0 {
            x + run_len(s, x, CharClass::Digit)
        } else {
            c
        };
        (e - i) as nat
    }
}

/// Where the number of a half-life such as `1.23e-2 s` starts and ends, and its unit:
/// whitespace, a number, whitespace, then a unit up to the end.
pub open spec fn half_life_parts_spec(s: Seq<char>) -> Option<(nat, nat, TimeUnit)> {
    let i = run_len(s, 0, CharClass::Space);
    let n = number_len(s, i);
    let j = i + n;
    let k = j + run_len(s, j, CharClass::Space);
    if n == 0 || k > s.len() {
        None
    } else {
        match parse_time_unit(s.subrange(k as int, s.len() as int)) {
            Some(u) => Some((i, j, u)),
            None => None,
        }
    }
}

/// The largest exponent and the most fraction digits a half-life's number may have.
pub const MAX_EXPONENT_DIGITS: u32 = 100_000;

/// The half-life that `s` writes, such as `2.7489 d` or `1.23e-2s`: the digits before and
/// after the point form the mantissa, and the exponent is the written one less the number
/// of fraction digits. Refused where the number is negative, where the mantissa does not
/// fit in a `u32`, or where the exponent or the fraction is longer than
/// `MAX_EXPONENT_DIGITS`.
pub open spec fn parse_half_life(s: Seq<char>) -> Option<HalfLife> {
    match half_life_parts_spec(s) {
        None => None,
        Some((i, j, u)) => {
            let a = i + sign_len(s, i);
            let b = a + run_len(s, a, CharClass::Digit);
            let c = if b < s.len() && s[b as int] == '.' {
                b + 1 + run_len(s, b + 1, CharClass::Digit)
            } else {
                b
            };
            let frac = if c > b {
                s.subrange((b + 1) as int, c as int)
            } else {
                seq![]
            };
            let mant = s.subrange(a as int, b as int) + frac;
            let x = c + 1 + sign_len(s, c + 1);
            let ev: int = if j > c {
                digits_value(s.subrange(x as int, j as int)) as int
            } else {
                0
            };
            let exponent: int = (if j > c && s[(c + 1) as int] == '-' {
                -ev
            } else {
                ev
            }) - frac.len();
            if (sign_len(s, i) == 1 && s[i as int] == '-') || digits_value(mant) > u32::MAX || ev
                > MAX_EXPONENT_DIGITS || frac.len() > MAX_EXPONENT_DIGITS {
                None
            } else {
                Some(HalfLife { mantissa: digits_value(mant) as u32, exponent: exponent as i32, unit: u })
            }
        },
    }
}

impl HalfLife {
    /// Reads a half-life as `parse_half_life` describes.
    pub fn parse(s: &str) -> (r: Option<HalfLife>)
        ensures
            r == parse_half_life(s@),
    {
        let (i, j, u) = match half_life_parts(s) {
            Some(p) => p,
            None => {
                return None;
            },
        };
        let cs = chars_of(s);
        let n = cs.len();
        proof {
            crate::text::lemma_run_len_bound(cs@, 0, CharClass::Space);
        }
        let sg = sign_at(&cs, i);
        if sg == 1 && cs[i] == '-' {
            return None;
        }
        let a = i + sg;
        let b = run_end(&cs, a, CharClass::Digit);
        let c = if b < n && cs[b] == '.' {
            run_end(&cs, b + 1, CharClass::Digit)
        } else {
            b
        };
        let mut mant: Vec<char> = Vec::new();
        let mut p = a;
        while p < b
            invariant
                a <= p <= b <= n,
                n == cs@.len(),
                mant@ == cs@.subrange(a as int, p as int),
                forall|q: int| a <= q < b ==> in_class(#[trigger] cs@[q], CharClass::Digit),
            decreases b - p,
        {
            mant.push(cs[p]);
            p = p + 1;
        }
        let ghost int_part = mant@;
        let mut frac_len: usize = 0;
        if c > b {
            let mut q = b + 1;
            while q < c
                invariant
                    b + 1 <= q <= c <= n,
                    n == cs@.len(),
                    mant@ == int_part + cs@.subrange(b + 1, q as int),
                    forall|k: int| b + 1 <= k < c ==> in_class(#[trigger] cs@[k], CharClass::Digit),
                decreases c - q,
            {
                mant.push(cs[q]);
                q = q + 1;
            }
            frac_len = c - b - 1;
        } else {
            assert(mant@ =~= int_part + Seq::<char>::empty());
        }
        assert(forall|k: int| 0 <= k < mant@.len() ==> in_class(#[trigger] mant@[k], CharClass::Digit)) by {
            assert forall|k: int| 0 <= k < mant@.len() implies in_class(#[trigger] mant@[k], CharClass::Digit) by {
                if k < int_part.len() {
                    assert(mant@[k] == cs@[a + k]);
                } else {
                    assert(mant@[k] == cs@[b + 1 + (k - int_part.len())]);
                }
            }
        }
        assert(mant@.subrange(0, mant@.len() as int) =~= mant@);
        let mantissa = match decimal_value(&mant, 0, mant.len()) {
            Some(v) => v,
            None => {
                return None;
            },
        };
        let mut ev: u32 = 0;
        let mut negative = false;
        if j > c {
            let sx = sign_at(&cs, c + 1);
            let x = c + 1 + sx;
            let e = run_end(&cs, x, CharClass::Digit);
            assert(e == j);
            ev = match decimal_value(&cs, x, j) {
                Some(v) => v,
                None => {
                    return None;
                },
            };
            negative = cs[c + 1] == '-';
        }
        if ev > MAX_EXPONENT_DIGITS || frac_len > MAX_EXPONENT_DIGITS as usize {
            return None;
        }
        let signed: i64 = if negative {
            -(ev as i64)
        } else {
            ev as i64
        };
        let exponent = signed - frac_len as i64;
        Some(HalfLife { mantissa, exponent: exponent as i32, unit: u })
    }
}

fn sign_at(cs: &Vec<char>, i: usize) -> (r: usize)
    requires
        i <= cs@.len(),
    ensures
        r == sign_len(cs@, i as nat),
        i + r <= cs@.len(),
{
    if i < cs.len() && (cs[i] == '+' || cs[i] == '-') {
        1
    } else {
        0
    }
}

fn number_end(cs: &Vec<char>, i: usize) -> (r: usize)
    requires
        i <= cs@.len(),
    ensures
        r == i + number_len(cs@, i as nat),
        r <= cs@.len(),
{
    let n = cs.len();
    let sg = sign_at(cs, i);
    let a = i + sg;
    let b = run_end(cs, a, CharClass::Digit);
    if b == a {
        return i;
    }
    let c = if b < cs.len() && cs[b] == '.' {
        run_end(cs, b + 1, CharClass::Digit)
    } else {
        b
    };
    if c < n && (cs[c] == 'e' || cs[c] == 'E') {
        let sx = sign_at(cs, c + 1);
        let x = c + 1 + sx;
        let e = run_end(cs, x, CharClass::Digit);
        if e > x {
            return e;
        }
    }
    c
}

/// Finds the number and the unit of a half-life written as text; the number is the
/// characters from the first index to the second.
pub fn half_life_parts(s: &str) -> (r: Option<(usize, usize, TimeUnit)>)
    ensures
        match r {
            Some((i, j, u)) => half_life_parts_spec(s@) == Some((i as nat, j as nat, u)),
            None => half_life_parts_spec(s@) is None,
        },
{
    let cs = chars_of(s);
    let i = run_end(&cs, 0, CharClass::Space);
    let j = number_end(&cs, i);
    if j == i {
        return None;
    }
    let k = run_end(&cs, j, CharClass::Space);
    let mut unit_chars: Vec<char> = Vec::new();
    let mut p = k;
    while p < cs.len()
        invariant
            k <= p <= cs@.len(),
            unit_chars@ == cs@.subrange(k as int, p as int),
        decreases cs@.len() - p,
    {
        unit_chars.push(cs[p]);
        p = p + 1;
    }
    match unit_of(&unit_chars) {
        Some(u) => Some((i, j, u)),
        None => None,
    }
}

/// The unit that the characters `t` name.
fn unit_of(t: &Vec<char>) -> (r: Option<TimeUnit>)
    ensures
        r == parse_time_unit(t@),
{
    let n = t.len();
    if n == 1 {
        let c = t[0];
        assert(t@ =~= seq![c]);
        if c == 's' {
            Some(TimeUnit::Second)
        } else if c == 'm' {
            Some(TimeUnit::Minute)
        } else if c == 'h' {
            Some(TimeUnit::Hour)
        } else if c == 'd' {
            Some(TimeUnit::Day)
        } else if c == 'y' {
            Some(TimeUnit::Year)
        } else {
            None
        }
    } else if n == 2 && t[1] == 's' && (t[0] == 'u' || t[0] == 'm') {
        assert(t@ =~= seq![t@[0], t@[1]]);
        if t[0] == 'u' {
            Some(TimeUnit::MicroSecond)
        } else {
            Some(TimeUnit::MilliSecond)
        }
    } else {
        assert(parse_time_unit(t@) is None) by {
            if t@.len() == 2 {
                assert(t@ != seq!['u', 's'] || t@[0] == 'u');
            }
        }
        None
    }
}

impl TimeUnit {
    /// The unit as shown to a reader.
    pub open spec fn spec_label(self) -> Seq<char> {
        match self {
            TimeUnit::MicroSecond => seq!['μ', 's'],
            TimeUnit::MilliSecond => seq!['m', 's'],
            TimeUnit::Second => seq!['s'],
            TimeUnit::Minute => seq!['m'],
            TimeUnit::Hour => seq!['h'],
            TimeUnit::Day => seq!['d'],
            TimeUnit::Year => seq!['y'],
        }
    }

    pub fn to_string(&self) -> (r: String)
        ensures
            r@ == self.spec_label(),
    {
        proof {
            reveal_strlit("μs");
            reveal_strlit("ms");
            reveal_strlit("s");
            reveal_strlit("m");
            reveal_strlit("h");
            reveal_strlit("d");
            reveal_strlit("y");
        }
        let s = match self {
            TimeUnit::MicroSecond => "μs",
            TimeUnit::MilliSecond => "ms",
            TimeUnit::Second => "s",
            TimeUnit::Minute => "m",
            TimeUnit::Hour => "h",
            TimeUnit::Day => "d",
            TimeUnit::Year => "y",
        };
        String::from_str(s)
    }

    /// Reads a unit from its short name.
    pub fn parse(s: &str) -> (r: Option<TimeUnit>)
        ensures
            r == parse_time_unit(s@),
    {
        let cs = chars_of(s);
        unit_of(&cs)
    }
}

impl std::str::FromStr for TimeUnit {
    type Err = Error;

    fn from_str(s: &str) -> Result<TimeUnit, Error> {
        match TimeUnit::parse(s) {
            Some(u) => Ok(u),
            None => Err(Error::InvalidTimeUnit(s.to_owned())),
        }
    }
}

} // verus!
