use vstd::prelude::*;

verus! {

/// The characters of `s`, one entry each.
pub fn chars_of(s: &str) -> (r: Vec<char>)
    ensures
        r@ == s@,
{
    let n = s.unicode_len();
    let mut r: Vec<char> = Vec::new();
    let mut i: usize = 0;
    while i < n
        invariant
            i <= n,
            n == s@.len(),
            r@ == s@.subrange(0, i as int),
        decreases n - i,
    {
        r.push(s.get_char(i));
        i = i + 1;
    }
    assert(r@ =~= s@);
    r
}


/// A class of ASCII characters that a grammar reads in runs.
#[derive(Clone, Copy, PartialEq, Eq, Structural)]
pub enum CharClass {
    Digit,
    Lower,
    Upper,
    Alpha,
    Dash,
    Space,
}

pub open spec fn in_class(c: char, k: CharClass) -> bool {
    match k {
        CharClass::Digit => '0' <= c && c <= '9',
        CharClass::Lower => 'a' <= c && c <= 'z',
        CharClass::Upper => 'A' <= c && c <= 'Z',
        CharClass::Alpha => ('a' <= c && c <= 'z') || ('A' <= c && c <= 'Z'),
        CharClass::Dash => c == '-',
        CharClass::Space => c == ' ' || c == '\t' || c == '\n' || c == '\r',
    }
}

pub fn is_in_class(c: char, k: CharClass) -> (r: bool)
    ensures
        r == in_class(c, k),
{
    match k {
        CharClass::Digit => '0' <= c && c <= '9',
        CharClass::Lower => 'a' <= c && c <= 'z',
        CharClass::Upper => 'A' <= c && c <= 'Z',
        CharClass::Alpha => ('a' <= c && c <= 'z') || ('A' <= c && c <= 'Z'),
        CharClass::Dash => c == '-',
        CharClass::Space => c == ' ' || c == '\t' || c == '\n' || c == '\r',
    }
}

/// The length of the longest run of characters of class `k` that starts at `s[i]`.
pub open spec fn run_len(s: Seq<char>, i: nat, k: CharClass) -> nat
    decreases s.len() - i,
{
    if i < s.len() && in_class(s[i as int], k) {
        1 + run_len(s, i + 1, k)
    } else {
        0
    }
}

pub proof fn lemma_run_len_bound(s: Seq<char>, i: nat, k: CharClass)
    requires
        i <= s.len(),
    ensures
        i + run_len(s, i, k) <= s.len(),
        forall|j: int| i <= j < i + run_len(s, i, k) ==> in_class(#[trigger] s[j], k),
    decreases s.len() - i,
{
    if i < s.len() && in_class(s[i as int], k) {
        lemma_run_len_bound(s, i + 1, k);
    }
}

/// The end of the run of characters of class `k` that starts at `cs[i]`.
pub fn run_end(cs: &Vec<char>, i: usize, k: CharClass) -> (r: usize)
    requires
        i <= cs@.len(),
    ensures
        r == i + run_len(cs@, i as nat, k),
        i <= r <= cs@.len(),
        r < cs@.len() ==> !in_class(cs@[r as int], k),
        forall|j: int| i <= j < r ==> in_class(#[trigger] cs@[j], k),
{
    let mut j = i;
    proof {
        lemma_run_len_bound(cs@, i as nat, k);
    }
    while j < cs.len() && is_in_class(cs[j], k)
        invariant
            i <= j <= cs@.len(),
            run_len(cs@, i as nat, k) == (j - i) + run_len(cs@, j as nat, k),
        decreases cs@.len() - j,
    {
        j = j + 1;
    }
    j
}

/// The number that a string of decimal digits spells.
pub open spec fn digits_value(s: Seq<char>) -> nat
    decreases s.len(),
{
    if s.len() == 0 {
        0
    } else {
        digits_value(s.drop_last()) * 10 + (s.last() as nat - '0' as nat) as nat
    }
}

/// A decimal integer as the grammar writes it: digits only, and no leading zero but in
/// `0` itself.
pub open spec fn is_int_literal(s: Seq<char>) -> bool {
    &&& s.len() >= 1
    &&& forall|j: int| 0 <= j < s.len() ==> in_class(#[trigger] s[j], CharClass::Digit)
    &&& (s.len() == 1 || s[0] != '0')
}

proof fn lemma_digits_value_prefix(s: Seq<char>, k: int)
    requires
        0 <= k <= s.len(),
        forall|j: int| 0 <= j < s.len() ==> in_class(#[trigger] s[j], CharClass::Digit),
    ensures
        digits_value(s.subrange(0, k)) <= digits_value(s),
    decreases s.len(),
{
    if k < s.len() {
        assert(s.drop_last().subrange(0, k) =~= s.subrange(0, k));
        lemma_digits_value_prefix(s.drop_last(), k);
    } else {
        assert(s.subrange(0, k) =~= s);
    }
}

/// The value of the digits `cs[i..j]`, or `None` where it does not fit in a `u32`.
pub fn decimal_value(cs: &Vec<char>, i: usize, j: usize) -> (r: Option<u32>)
    requires
        i <= j <= cs@.len(),
        forall|p: int| i <= p < j ==> in_class(#[trigger] cs@[p], CharClass::Digit),
    ensures
        match r {
            Some(v) => v as nat == digits_value(cs@.subrange(i as int, j as int)),
            None => digits_value(cs@.subrange(i as int, j as int)) > u32::MAX,
        },
{
    let ghost s = cs@.subrange(i as int, j as int);
    let mut acc: u64 = 0;
    let mut p = i;
    assert(s.subrange(0, 0) =~= Seq::<char>::empty());
    while p < j
        invariant
            i <= p <= j <= cs@.len(),
            s == cs@.subrange(i as int, j as int),
            forall|q: int| i <= q < j ==> in_class(#[trigger] cs@[q], CharClass::Digit),
            acc as nat == digits_value(s.subrange(0, p - i)),
            acc <= u32::MAX,
        decreases j - p,
    {
        let c = cs[p];
        assert(in_class(c, CharClass::Digit));
        let d: u64 = (c as u32 - '0' as u32) as u64;
        assert(s.subrange(0, p - i + 1).drop_last() =~= s.subrange(0, p - i));
        assert(s[p - i] == cs@[p as int]);
        acc = acc * 10 + d;
        p = p + 1;
        if acc > u32::MAX as u64 {
            proof {
                assert forall|q: int| 0 <= q < s.len() implies in_class(
                    #[trigger] s[q],
                    CharClass::Digit,
                ) by {
                    assert(s[q] == cs@[i + q]);
                }
                lemma_digits_value_prefix(s, p - i);
            }
            return None;
        }
    }
    assert(s.subrange(0, j - i) =~= s);
    Some(acc as u32)
}

/// The decimal digits of `n`, most significant first, without leading zeros.
pub open spec fn decimal(n: nat) -> Seq<char>
    decreases n,
{
    if n < 10 {
        seq![digit_char(n)]
    } else {
        decimal(n / 10) + seq![digit_char(n % 10)]
    }
}

pub open spec fn digit_char(d: nat) -> char {
    if d == 0 {
        '0'
    } else if d == 1 {
        '1'
    } else if d == 2 {
        '2'
    } else if d == 3 {
        '3'
    } else if d == 4 {
        '4'
    } else if d == 5 {
        '5'
    } else if d == 6 {
        '6'
    } else if d == 7 {
        '7'
    } else if d == 8 {
        '8'
    } else {
        '9'
    }
}

fn digit_str(d: u32) -> (r: &'static str)
    requires
        d < 10,
    ensures
        r@ == seq![digit_char(d as nat)],
{
    proof {
        reveal_strlit("0");
        reveal_strlit("1");
        reveal_strlit("2");
        reveal_strlit("3");
        reveal_strlit("4");
        reveal_strlit("5");
        reveal_strlit("6");
        reveal_strlit("7");
        reveal_strlit("8");
        reveal_strlit("9");
    }
    if d == 0 {
        "0"
    } else if d == 1 {
        "1"
    } else if d == 2 {
        "2"
    } else if d == 3 {
        "3"
    } else if d == 4 {
        "4"
    } else if d == 5 {
        "5"
    } else if d == 6 {
        "6"
    } else if d == 7 {
        "7"
    } else if d == 8 {
        "8"
    } else {
        "9"
    }
}

/// Appends the decimal digits of `n` to `out`.
pub fn append_decimal(out: &mut String, n: u32)
    ensures
        final(out)@ == old(out)@ + decimal(n as nat),
    decreases n,
{
    if n >= 10 {
        append_decimal(out, n / 10);
    }
    out.append(digit_str(n % 10));
    proof {
        if n >= 10 {
            assert(final(out)@ =~= old(out)@ + decimal(n as nat));
        } else {
            assert(final(out)@ =~= old(out)@ + decimal(n as nat));
        }
    }
}

} // verus!
