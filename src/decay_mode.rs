use vstd::prelude::*;

use crate::error::Error;
use crate::text::chars_of;

verus! {

/// A single kind of decay transition.
#[derive(Debug, Clone, Copy, PartialEq, Eq, Structural)]
pub enum DecayMode {
    Alpha,
    BetaMinus,
    BetaPlus,
    ElectronCapture,
    IsometricTransition,
    SpontaneousFission,
}

impl DecayMode {
    /// The label used when a mode is shown to a reader.
    pub open spec fn spec_label(self) -> Seq<char> {
        match self {
            DecayMode::Alpha => seq!['⍺'],
            DecayMode::BetaMinus => seq!['β', '-'],
            DecayMode::BetaPlus => seq!['β', '+'],
            DecayMode::ElectronCapture => seq!['E', 'C'],
            DecayMode::IsometricTransition => seq!['I', 'T'],
            DecayMode::SpontaneousFission => seq!['S', 'F'],
        }
    }

    /// Reads one mode token, whitespace around it allowed.
    pub fn parse(s: &str) -> (r: Option<DecayMode>)
        ensures
            r == parse_single_mode(s@),
    {
        let cs = chars_of(s);
        let n = cs.len();
        let mut a: usize = 0;
        assert(cs@.subrange(0, n as int) =~= cs@);
        while a < n && is_space_char(cs[a])
            invariant
                a <= n,
                n == cs@.len(),
                trim_spaces(cs@) == trim_spaces(cs@.subrange(a as int, n as int)),
            decreases n - a,
        {
            assert(cs@.subrange(a as int, n as int).drop_first() =~= cs@.subrange(
                a as int + 1,
                n as int,
            ));
            a = a + 1;
        }
        let mut b: usize = n;
        while b > a && is_space_char(cs[b - 1])
            invariant
                a <= b <= n,
                n == cs@.len(),
                a == n || !is_space(cs@[a as int]),
                a < n ==> a < b,
                trim_spaces(cs@) == trim_spaces(cs@.subrange(a as int, b as int)),
            decreases b - a,
        {
            assert(cs@.subrange(a as int, b as int).drop_last() =~= cs@.subrange(
                a as int,
                b as int - 1,
            ));
            b = b - 1;
        }
        let ghost t = cs@.subrange(a as int, b as int);
        assert(trim_spaces(t) == t);
        match leading_mode_at(&cs, a, b) {
            Some((m, k)) => {
                if k == b - a {
                    Some(m)
                } else {
                    None
                }
            },
            None => None,
        }
    }

    pub fn label(self) -> (r: &'static str)
        ensures
            r@ == self.spec_label(),
    {
        match self {
            DecayMode::Alpha => {
                let s = "⍺";
                proof {
                    reveal_strlit("⍺");
                }
                s
            },
            DecayMode::BetaMinus => {
                let s = "β-";
                proof {
                    reveal_strlit("β-");
                }
                s
            },
            DecayMode::BetaPlus => {
                let s = "β+";
                proof {
                    reveal_strlit("β+");
                }
                s
            },
            DecayMode::ElectronCapture => {
                let s = "EC";
                proof {
                    reveal_strlit("EC");
                }
                s
            },
            DecayMode::IsometricTransition => {
                let s = "IT";
                proof {
                    reveal_strlit("IT");
                }
                s
            },
            DecayMode::SpontaneousFission => {
                let s = "SF";
                proof {
                    reveal_strlit("SF");
                }
                s
            },
        }
    }
}


/// The mode spelled by the token at the start of `s`, with the token's length.
pub open spec fn leading_mode(s: Seq<char>) -> Option<(DecayMode, nat)> {
    if s.len() >= 1 && (s[0] == 'A' || s[0] == '⍺') {
        Some((DecayMode::Alpha, 1))
    } else if s.len() >= 2 && (s[0] == 'B' || s[0] == 'β') && s[1] == '-' {
        Some((DecayMode::BetaMinus, 2))
    } else if s.len() >= 2 && (s[0] == 'B' || s[0] == 'β') && s[1] == '+' {
        Some((DecayMode::BetaPlus, 2))
    } else if s.len() >= 2 && s[0] == 'E' && s[1] == 'C' {
        Some((DecayMode::ElectronCapture, 2))
    } else if s.len() >= 2 && s[0] == 'I' && s[1] == 'T' {
        Some((DecayMode::IsometricTransition, 2))
    } else if s.len() >= 2 && s[0] == 'S' && s[1] == 'F' {
        Some((DecayMode::SpontaneousFission, 2))
    } else {
        None
    }
}

pub fn is_space_char(c: char) -> (r: bool)
    ensures
        r == is_space(c),
{
    c == ' ' || c == '\t' || c == '\n' || c == '\r'
}

/// The mode token that starts at `cs[i]`, read no further than `end`.
fn leading_mode_at(cs: &Vec<char>, i: usize, end: usize) -> (r: Option<(DecayMode, usize)>)
    requires
        i <= end <= cs@.len(),
    ensures
        match r {
            Some((m, k)) => leading_mode(cs@.subrange(i as int, end as int)) == Some((m, k as nat)),
            None => leading_mode(cs@.subrange(i as int, end as int)) is None,
        },
{
    let ghost s = cs@.subrange(i as int, end as int);
    let len = end - i;
    if len >= 1 && (cs[i] == 'A' || cs[i] == '⍺') {
        Some((DecayMode::Alpha, 1))
    } else if len >= 2 && (cs[i] == 'B' || cs[i] == 'β') && cs[i + 1] == '-' {
        Some((DecayMode::BetaMinus, 2))
    } else if len >= 2 && (cs[i] == 'B' || cs[i] == 'β') && cs[i + 1] == '+' {
        Some((DecayMode::BetaPlus, 2))
    } else if len >= 2 && cs[i] == 'E' && cs[i + 1] == 'C' {
        Some((DecayMode::ElectronCapture, 2))
    } else if len >= 2 && cs[i] == 'I' && cs[i + 1] == 'T' {
        Some((DecayMode::IsometricTransition, 2))
    } else if len >= 2 && cs[i] == 'S' && cs[i + 1] == 'F' {
        Some((DecayMode::SpontaneousFission, 2))
    } else {
        None
    }
}

/// Whitespace allowed around decay-mode tokens.
pub open spec fn is_space(c: char) -> bool {
    c == ' ' || c == '\t' || c == '\n' || c == '\r'
}

/// Reads decay-mode tokens from position `i` on, each optionally surrounded by
/// whitespace; `acc` holds the modes read so far and `seen` whether any token was read.
/// A non-empty text must name at least one mode.
pub open spec fn parse_modes_from(s: Seq<char>, i: nat, seen: bool, acc: Set<DecayMode>) -> Option<
    Set<DecayMode>,
>
    decreases s.len() - i,
{
    if i >= s.len() {
        if seen || s.len() == 0 {
            Some(acc)
        } else {
            None
        }
    } else if is_space(s[i as int]) {
        parse_modes_from(s, i + 1, seen, acc)
    } else {
        match leading_mode(s.subrange(i as int, s.len() as int)) {
            Some((m, n)) => parse_modes_from(s, i + n, true, acc.insert(m)),
            None => None,
        }
    }
}

/// The set of modes that the text `s` lists, if it is a valid list.
pub open spec fn parse_modes(s: Seq<char>) -> Option<Set<DecayMode>> {
    parse_modes_from(s, 0, false, Set::empty())
}

/// The mode that `s` names as a single token, whitespace around it allowed.
pub open spec fn parse_single_mode(s: Seq<char>) -> Option<DecayMode> {
    let t = trim_spaces(s);
    match leading_mode(t) {
        Some((m, n)) => if n == t.len() {
            Some(m)
        } else {
            None
        },
        None => None,
    }
}

/// `s` without leading and trailing whitespace.
pub open spec fn trim_spaces(s: Seq<char>) -> Seq<char>
    decreases s.len(),
{
    if s.len() == 0 {
        s
    } else if is_space(s[0]) {
        trim_spaces(s.drop_first())
    } else if is_space(s.last()) {
        trim_spaces(s.drop_last())
    } else {
        s
    }
}

/// The modes of a set, one entry each, in the order in which `DecayMode` declares them.
pub open spec fn mode_list(s: Set<DecayMode>) -> Seq<DecayMode> {
    pick(s, DecayMode::Alpha) + pick(s, DecayMode::BetaMinus) + pick(s, DecayMode::BetaPlus)
        + pick(s, DecayMode::ElectronCapture) + pick(s, DecayMode::IsometricTransition) + pick(
        s,
        DecayMode::SpontaneousFission,
    )
}

pub open spec fn pick(s: Set<DecayMode>, m: DecayMode) -> Seq<DecayMode> {
    if s.contains(m) {
        seq![m]
    } else {
        seq![]
    }
}

/// The labels of `ms` joined by `" or "`.
pub open spec fn joined_labels(ms: Seq<DecayMode>) -> Seq<char>
    decreases ms.len(),
{
    if ms.len() == 0 {
        seq![]
    } else if ms.len() == 1 {
        ms[0].spec_label()
    } else {
        joined_labels(ms.drop_last()) + seq![' ', 'o', 'r', ' '] + ms.last().spec_label()
    }
}

/// A set of decay modes: the label of one parent-to-daughter transition, which may be
/// consistent with several modes at once.
#[derive(Debug, Clone, Copy, PartialEq, Eq, Structural)]
pub struct DecayModeSet {
    alpha: bool,
    beta_minus: bool,
    beta_plus: bool,
    electron_capture: bool,
    isometric_transition: bool,
    spontaneous_fission: bool,
}

impl View for DecayModeSet {
    type V = Set<DecayMode>;

    closed spec fn view(&self) -> Set<DecayMode> {
        Set::new(|m: DecayMode| self.flag(m))
    }
}

impl DecayModeSet {
    closed spec fn flag(self, m: DecayMode) -> bool {
        match m {
            DecayMode::Alpha => self.alpha,
            DecayMode::BetaMinus => self.beta_minus,
            DecayMode::BetaPlus => self.beta_plus,
            DecayMode::ElectronCapture => self.electron_capture,
            DecayMode::IsometricTransition => self.isometric_transition,
            DecayMode::SpontaneousFission => self.spontaneous_fission,
        }
    }

    /// The set with no mode.
    pub fn empty() -> (r: Self)
        ensures
            r@ == Set::<DecayMode>::empty(),
    {
        let r = DecayModeSet {
            alpha: false,
            beta_minus: false,
            beta_plus: false,
            electron_capture: false,
            isometric_transition: false,
            spontaneous_fission: false,
        };
        assert(r@ =~= Set::<DecayMode>::empty());
        r
    }

    pub fn contains(&self, m: DecayMode) -> (r: bool)
        ensures
            r == self@.contains(m),
    {
        match m {
            DecayMode::Alpha => self.alpha,
            DecayMode::BetaMinus => self.beta_minus,
            DecayMode::BetaPlus => self.beta_plus,
            DecayMode::ElectronCapture => self.electron_capture,
            DecayMode::IsometricTransition => self.isometric_transition,
            DecayMode::SpontaneousFission => self.spontaneous_fission,
        }
    }

    /// This set with `m` added.
    pub fn with(self, m: DecayMode) -> (r: Self)
        ensures
            r@ == self@.insert(m),
    {
        let mut r = self;
        match m {
            DecayMode::Alpha => r.alpha = true,
            DecayMode::BetaMinus => r.beta_minus = true,
            DecayMode::BetaPlus => r.beta_plus = true,
            DecayMode::ElectronCapture => r.electron_capture = true,
            DecayMode::IsometricTransition => r.isometric_transition = true,
            DecayMode::SpontaneousFission => r.spontaneous_fission = true,
        }
        assert(r@ =~= self@.insert(m));
        r
    }

    /// The modes in both sets.
    pub fn intersect(self, other: Self) -> (r: Self)
        ensures
            r@ == self@.intersect(other@),
    {
        let r = DecayModeSet {
            alpha: self.alpha && other.alpha,
            beta_minus: self.beta_minus && other.beta_minus,
            beta_plus: self.beta_plus && other.beta_plus,
            electron_capture: self.electron_capture && other.electron_capture,
            isometric_transition: self.isometric_transition && other.isometric_transition,
            spontaneous_fission: self.spontaneous_fission && other.spontaneous_fission,
        };
        assert(r@ =~= self@.intersect(other@));
        r
    }

    /// The modes in either set.
    pub fn union(self, other: Self) -> (r: Self)
        ensures
            r@ == self@.union(other@),
    {
        let r = DecayModeSet {
            alpha: self.alpha || other.alpha,
            beta_minus: self.beta_minus || other.beta_minus,
            beta_plus: self.beta_plus || other.beta_plus,
            electron_capture: self.electron_capture || other.electron_capture,
            isometric_transition: self.isometric_transition || other.isometric_transition,
            spontaneous_fission: self.spontaneous_fission || other.spontaneous_fission,
        };
        assert(r@ =~= self@.union(other@));
        r
    }

    pub fn is_empty(&self) -> (r: bool)
        ensures
            r == (self@ == Set::<DecayMode>::empty()),
    {
        let r = !(self.alpha || self.beta_minus || self.beta_plus || self.electron_capture
            || self.isometric_transition || self.spontaneous_fission);
        if !r {
            assert(self@.contains(DecayMode::Alpha) || self@.contains(DecayMode::BetaMinus)
                || self@.contains(DecayMode::BetaPlus) || self@.contains(
                DecayMode::ElectronCapture,
            ) || self@.contains(DecayMode::IsometricTransition) || self@.contains(
                DecayMode::SpontaneousFission,
            ));
        } else {
            assert(self@ =~= Set::<DecayMode>::empty());
        }
        r
    }

    /// Reads a list of mode tokens such as `"A ECB-"`: tokens may stand side by side or be
    /// separated by whitespace.
    pub fn parse(s: &str) -> (r: Option<DecayModeSet>)
        ensures
            match r {
                Some(set) => parse_modes(s@) == Some(set@),
                None => parse_modes(s@) is None,
            },
    {
        let cs = chars_of(s);
        let n = cs.len();
        let mut i: usize = 0;
        let mut seen = false;
        let mut acc = DecayModeSet::empty();
        while i < n
            invariant
                i <= n,
                n == cs@.len(),
                cs@ == s@,
                parse_modes(s@) == parse_modes_from(s@, i as nat, seen, acc@),
            decreases n - i,
        {
            if is_space_char(cs[i]) {
                i = i + 1;
            } else {
                match leading_mode_at(&cs, i, n) {
                    Some((m, k)) => {
                        acc = acc.with(m);
                        seen = true;
                        i = i + k;
                    },
                    None => {
                        return None;
                    },
                }
            }
        }
        if seen || n == 0 {
            Some(acc)
        } else {
            None
        }
    }

    /// The labels of the modes, in declaration order, joined by `" or "`.
    pub fn to_string(&self) -> (r: String)
        ensures
            r@ == joined_labels(mode_list(self@)),
    {
        let ms = self.modes();
        let mut r = String::new();
        let sep = " or ";
        proof {
            reveal_strlit(" or ");
        }
        let mut i: usize = 0;
        while i < ms.len()
            invariant
                i <= ms@.len(),
                sep@ == seq![' ', 'o', 'r', ' '],
                r@ == joined_labels(ms@.subrange(0, i as int)),
            decreases ms@.len() - i,
        {
            assert(ms@.subrange(0, i as int + 1).drop_last() =~= ms@.subrange(0, i as int));
            if i > 0 {
                r.append(sep);
            }
            r.append(ms[i].label());
            i = i + 1;
        }
        assert(ms@.subrange(0, ms@.len() as int) =~= ms@);
        r
    }

    /// The modes of the set, in declaration order.
    pub fn modes(&self) -> (r: Vec<DecayMode>)
        ensures
            r@ == mode_list(self@),
    {
        let mut r: Vec<DecayMode> = Vec::new();
        if self.alpha {
            r.push(DecayMode::Alpha);
        }
        assert(r@ =~= pick(self@, DecayMode::Alpha));
        if self.beta_minus {
            r.push(DecayMode::BetaMinus);
        }
        assert(r@ =~= pick(self@, DecayMode::Alpha) + pick(self@, DecayMode::BetaMinus));
        if self.beta_plus {
            r.push(DecayMode::BetaPlus);
        }
        assert(r@ =~= pick(self@, DecayMode::Alpha) + pick(self@, DecayMode::BetaMinus) + pick(
            self@,
            DecayMode::BetaPlus,
        ));
        if self.electron_capture {
            r.push(DecayMode::ElectronCapture);
        }
        assert(r@ =~= pick(self@, DecayMode::Alpha) + pick(self@, DecayMode::BetaMinus) + pick(
            self@,
            DecayMode::BetaPlus,
        ) + pick(self@, DecayMode::ElectronCapture));
        if self.isometric_transition {
            r.push(DecayMode::IsometricTransition);
        }
        assert(r@ =~= pick(self@, DecayMode::Alpha) + pick(self@, DecayMode::BetaMinus) + pick(
            self@,
            DecayMode::BetaPlus,
        ) + pick(self@, DecayMode::ElectronCapture) + pick(self@, DecayMode::IsometricTransition));
        if self.spontaneous_fission {
            r.push(DecayMode::SpontaneousFission);
        }
        assert(r@ =~= mode_list(self@));
        r
    }
}

impl std::str::FromStr for DecayMode {
    type Err = Error;

    fn from_str(s: &str) -> Result<DecayMode, Error> {
        match DecayMode::parse(s) {
            Some(m) => Ok(m),
            None => Err(Error::InvalidDecayMode(s.to_owned())),
        }
    }
}

impl std::str::FromStr for DecayModeSet {
    type Err = Error;

    fn from_str(s: &str) -> Result<DecayModeSet, Error> {
        match DecayModeSet::parse(s) {
            Some(m) => Ok(m),
            None => Err(Error::InvalidDecayMode(s.to_owned())),
        }
    }
}

} // verus!
