use vstd::prelude::*;

use crate::error::Error;
use crate::symbol::{find_symbol, Symbol, MAX_Z};
use crate::text::{
    append_decimal, chars_of, decimal, decimal_value, digits_value, in_class, is_in_class,
    run_end, run_len, CharClass,
};

verus! {

broadcast use {vstd::std_specs::vec::axiom_vec_decreases_to_view, vstd::std_specs::vec::axiom_vec_index_decreases};

/// A chemical formula: an element with a count, or a group of formulas with a
/// multiplier, as in `(C2H5)2O`.
#[derive(Debug, PartialEq, Eq)]
pub enum Compound {
    Element(Symbol, u32),
    Molecule(Vec<Compound>, u32),
}

/// The mathematical value of a formula.
pub enum Formula {
    Atom(Symbol, nat),
    Group(Seq<Formula>, nat),
}

pub open spec fn formula_of(c: Compound) -> Formula
    decreases c, 0nat,
{
    match c {
        Compound::Element(s, n) => Formula::Atom(s, n as nat),
        Compound::Molecule(g, m) => Formula::Group(formulas_of(g@), m as nat),
    }
}

pub open spec fn formulas_of(gs: Seq<Compound>) -> Seq<Formula>
    decreases gs, 1nat,
{
    if gs.len() == 0 {
        seq![]
    } else {
        formulas_of(gs.drop_last()).push(formula_of(gs.last()))
    }
}


/// The count written after a symbol or group: its digits, or 1 where there are none or
/// they exceed a `u32`.
pub open spec fn count_value(d: Seq<char>) -> nat {
    if d.len() == 0 || digits_value(d) > u32::MAX {
        1
    } else {
        digits_value(d)
    }
}

/// Reads formulas from `s[i..]` one after another onto `acc` while the next character
/// starts one: a symbol and its count, or a parenthesised list and its count. Comes back
/// with the formulas and where reading stopped; at least one formula must be read.
pub open spec fn parse_items(s: Seq<char>, i: nat, acc: Seq<Formula>) -> Option<(Seq<Formula>, nat)>
    decreases s.len() - i,
{
    if i < s.len() && in_class(s[i as int], CharClass::Upper) {
        let k = i + 1 + run_len(s, i + 1, CharClass::Lower);
        match find_symbol(s.subrange(i as int, k as int), 1) {
            None => None,
            Some(sym) => {
                let e = k + run_len(s, k, CharClass::Digit);
                if e <= s.len() {
                    parse_items(
                        s,
                        e,
                        acc.push(Formula::Atom(sym, count_value(s.subrange(k as int, e as int)))),
                    )
                } else {
                    None
                }
            },
        }
    } else if i < s.len() && s[i as int] == '(' {
        match parse_items(s, i + 1, seq![]) {
            None => None,
            Some((inner, j)) => {
                if i < j && j < s.len() && s[j as int] == ')' {
                    let e = j + 1 + run_len(s, j + 1, CharClass::Digit);
                    if e <= s.len() {
                        parse_items(
                            s,
                            e,
                            acc.push(
                                Formula::Group(
                                    inner,
                                    count_value(s.subrange((j + 1) as int, e as int)),
                                ),
                            ),
                        )
                    } else {
                        None
                    }
                } else {
                    None
                }
            },
        }
    } else if acc.len() == 0 {
        None
    } else {
        Some((acc, i))
    }
}

/// The formula that `s` spells in full; several formulas side by side form a group with
/// multiplier 1.
pub open spec fn parse_formula(s: Seq<char>) -> Option<Formula> {
    match parse_items(s, 0, seq![]) {
        Some((items, e)) => if e == s.len() {
            if items.len() == 1 {
                Some(items[0])
            } else {
                Some(Formula::Group(items, 1))
            }
        } else {
            None
        },
        None => None,
    }
}

/// The count written after `cs[a..b]`'s symbol or group.
fn count_at(cs: &Vec<char>, a: usize, b: usize) -> (r: u32)
    requires
        a <= b <= cs@.len(),
        forall|p: int| a <= p < b ==> in_class(#[trigger] cs@[p], CharClass::Digit),
    ensures
        r as nat == count_value(cs@.subrange(a as int, b as int)),
{
    if a == b {
        return 1;
    }
    match decimal_value(cs, a, b) {
        Some(v) => v,
        None => 1,
    }
}

proof fn lemma_formulas_len(gs: Seq<Compound>)
    ensures
        formulas_of(gs).len() == gs.len(),
        forall|i: int| 0 <= i < gs.len() ==> formulas_of(gs)[i] == formula_of(#[trigger] gs[i]),
    decreases gs.len(),
{
    if gs.len() > 0 {
        lemma_formulas_len(gs.drop_last());
        assert forall|i: int| 0 <= i < gs.len() implies formulas_of(gs)[i] == formula_of(
            #[trigger] gs[i],
        ) by {
            if i < gs.len() - 1 {
                assert(gs.drop_last()[i] == gs[i]);
            }
        }
    }
}

proof fn lemma_formulas_push(acc: Seq<Compound>, c: Compound)
    ensures
        formulas_of(acc.push(c)) == formulas_of(acc).push(formula_of(c)),
{
    assert(acc.push(c).drop_last() =~= acc);
}

fn parse_items_at(cs: &Vec<char>, i: usize, acc: Vec<Compound>) -> (r: Option<(Vec<Compound>, usize)>)
    requires
        i <= cs@.len(),
    ensures
        match r {
            Some((v, e)) => parse_items(cs@, i as nat, formulas_of(acc@)) == Some(
                (formulas_of(v@), e as nat),
            ),
            None => parse_items(cs@, i as nat, formulas_of(acc@)) is None,
        },
    decreases cs@.len() - i,
{
    let n = cs.len();
    if i < n && is_in_class(cs[i], CharClass::Upper) {
        let k = run_end(cs, i + 1, CharClass::Lower);
        match Symbol::parse_chars(cs, i, k) {
            None => None,
            Some(sym) => {
                let e = run_end(cs, k, CharClass::Digit);
                let count = count_at(cs, k, e);
                let mut acc = acc;
                let ghost before = acc@;
                let c = Compound::Element(sym, count);
                acc.push(c);
                proof {
                    lemma_formulas_push(before, c);
                }
                parse_items_at(cs, e, acc)
            },
        }
    } else if i < n && cs[i] == '(' {
        let empty: Vec<Compound> = Vec::new();
        assert(formulas_of(empty@) =~= Seq::<Formula>::empty());
        match parse_items_at(cs, i + 1, empty) {
            None => None,
            Some((inner, j)) => {
                if i < j && j < n && cs[j] == ')' {
                    let e = run_end(cs, j + 1, CharClass::Digit);
                    let count = count_at(cs, j + 1, e);
                    let mut acc = acc;
                    let ghost before = acc@;
                    let ghost inner_f = formulas_of(inner@);
                    let c = Compound::Molecule(inner, count);
                    assert(formula_of(c) == Formula::Group(inner_f, count as nat));
                    acc.push(c);
                    proof {
                        lemma_formulas_push(before, c);
                    }
                    parse_items_at(cs, e, acc)
                } else {
                    None
                }
            },
        }
    } else if acc.len() == 0 {
        assert(formulas_of(acc@).len() == 0);
        None
    } else {
        Some((acc, i))
    }
}

/// How a formula is written: a symbol and its count unless that is 1; a group's members
/// one after another, in parentheses with the multiplier after them unless it is 1.
pub open spec fn render(f: Formula) -> Seq<char>
    decreases f, 0nat,
{
    match f {
        Formula::Atom(s, n) => s.spec_name() + if n != 1 {
            decimal(n)
        } else {
            seq![]
        },
        Formula::Group(g, m) => (if m != 1 {
            seq!['(']
        } else {
            seq![]
        }) + render_all(g) + if m != 1 {
            seq![')'] + decimal(m)
        } else {
            seq![]
        },
    }
}

pub open spec fn render_all(g: Seq<Formula>) -> Seq<char>
    decreases g, 1nat,
{
    if g.len() == 0 {
        seq![]
    } else {
        render_all(g.drop_last()) + render(g.last())
    }
}

impl Compound {
    /// Appends the formula as `render` writes it.
    pub fn append_to(&self, out: &mut String)
        ensures
            final(out)@ == old(out)@ + render(formula_of(*self)),
        decreases self,
    {
        proof {
            reveal_strlit("(");
            reveal_strlit(")");
        }
        match self {
            Compound::Element(sym, n) => {
                out.append(sym.name());
                if *n != 1 {
                    append_decimal(out, *n);
                }
                assert(final(out)@ =~= old(out)@ + render(formula_of(*self)));
            },
            Compound::Molecule(g, m) => {
                if *m != 1 {
                    out.append("(");
                }
                let ghost start = out@;
                let ghost fg = formulas_of(g@);
                proof {
                    lemma_formulas_len(g@);
                    assert(fg.subrange(0, 0) =~= Seq::<Formula>::empty());
                }
                let mut i: usize = 0;
                while i < g.len()
                    invariant
                        i <= g@.len(),
                        fg == formulas_of(g@),
                        fg.len() == g@.len(),
                        forall|k: int| 0 <= k < g@.len() ==> fg[k] == formula_of(#[trigger] g@[k]),
                        out@ == start + render_all(fg.subrange(0, i as int)),
                        *self == Compound::Molecule(*g, *m),
                    decreases g@.len() - i,
                {
                    proof {
                        assert((*self)->Molecule_0 == *g);
                        assert(decreases_to!(*self => (*self)->Molecule_0));
                        assert(decreases_to!(*g => g[i as int]));
                        assert(decreases_to!(*self => g[i as int]));
                    }
                    g[i].append_to(out);
                    proof {
                        assert(fg.subrange(0, i + 1).drop_last() =~= fg.subrange(0, i as int));
                        assert(fg.subrange(0, i + 1).last() == formula_of(g@[i as int]));
                    }
                    i = i + 1;
                }
                assert(fg.subrange(0, g@.len() as int) =~= fg);
                if *m != 1 {
                    out.append(")");
                    append_decimal(out, *m);
                }
                assert(final(out)@ =~= old(out)@ + render(formula_of(*self)));
            },
        }
    }

    /// The formula as `render` writes it.
    pub fn to_string(&self) -> (r: String)
        ensures
            r@ == render(formula_of(*self)),
    {
        let mut r = String::new();
        self.append_to(&mut r);
        assert(r@ =~= render(formula_of(*self)));
        r
    }

    /// Reads a formula such as `(C2H5)2O`.
    pub fn parse(s: &str) -> (r: Option<Compound>)
        ensures
            match r {
                Some(c) => parse_formula(s@) == Some(formula_of(c)),
                None => parse_formula(s@) is None,
            },
    {
        let cs = chars_of(s);
        let empty: Vec<Compound> = Vec::new();
        assert(formulas_of(empty@) =~= Seq::<Formula>::empty());
        match parse_items_at(&cs, 0, empty) {
            None => None,
            Some((items, e)) => {
                proof {
                    lemma_formulas_len(items@);
                }
                if e != cs.len() {
                    None
                } else if items.len() == 1 {
                    let mut items = items;
                    let ghost iv = items@;
                    assert(iv.drop_last() =~= Seq::<Compound>::empty());
                    assert(formulas_of(iv)[0] == formula_of(iv[0]));
                    let c = items.pop().unwrap();
                    Some(c)
                } else {
                    let c = Compound::Molecule(items, 1);
                    Some(c)
                }
            },
        }
    }
}

/// How many atoms of `s` the formula holds.
pub open spec fn count(f: Formula, s: Symbol) -> nat
    decreases f, 0nat,
{
    match f {
        Formula::Atom(t, n) => if t == s {
            n
        } else {
            0
        },
        Formula::Group(g, m) => m * count_all(g, s),
    }
}

pub open spec fn count_all(g: Seq<Formula>, s: Symbol) -> nat
    decreases g, 1nat,
{
    if g.len() == 0 {
        0
    } else {
        count_all(g.drop_last(), s) + count(g.last(), s)
    }
}

/// Whether the formula names element `s` anywhere.
pub open spec fn mentions(f: Formula, s: Symbol) -> bool
    decreases f, 0nat,
{
    match f {
        Formula::Atom(t, _) => t == s,
        Formula::Group(g, _) => mentions_any(g, s),
    }
}

pub open spec fn mentions_any(g: Seq<Formula>, s: Symbol) -> bool
    decreases g, 1nat,
{
    g.len() > 0 && (mentions_any(g.drop_last(), s) || mentions(g.last(), s))
}

/// Every count of the formula and of each formula inside it fits in a `u32`.
pub open spec fn fits(f: Formula) -> bool
    decreases f, 0nat,
{
    &&& forall|s: Symbol| #[trigger] count(f, s) <= u32::MAX
    &&& match f {
        Formula::Atom(_, _) => true,
        Formula::Group(g, _) => fits_all(g),
    }
}

pub open spec fn fits_all(g: Seq<Formula>) -> bool
    decreases g, 1nat,
{
    g.len() == 0 || (fits_all(g.drop_last()) && fits(g.last()))
}

/// The elements a formula names, each with its number of atoms.
pub open spec fn composition_of(f: Formula) -> Map<Symbol, nat> {
    Map::new(|s: Symbol| mentions(f, s), |s: Symbol| count(f, s))
}

proof fn lemma_unmentioned(f: Formula, s: Symbol)
    ensures
        !mentions(f, s) ==> count(f, s) == 0,
    decreases f, 0nat,
{
    match f {
        Formula::Atom(t, n) => {
            assert(mentions(f, s) == (t == s));
            assert(count(f, s) == if t == s {
                n
            } else {
                0
            });
        },
        Formula::Group(g, m) => {
            lemma_unmentioned_all(g, s);
            if !mentions(f, s) {
                let c = count_all(g, s);
                assert(m * c == 0) by (nonlinear_arith)
                    requires
                        c == 0,
                ;
            }
        },
    }
}

proof fn lemma_unmentioned_all(g: Seq<Formula>, s: Symbol)
    ensures
        !mentions_any(g, s) ==> count_all(g, s) == 0,
    decreases g, 1nat,
{
    if g.len() > 0 {
        lemma_unmentioned_all(g.drop_last(), s);
        lemma_unmentioned(g.last(), s);
    }
}

proof fn lemma_count_prefix(g: Seq<Formula>, i: int, s: Symbol)
    requires
        0 <= i <= g.len(),
    ensures
        count_all(g.subrange(0, i), s) <= count_all(g, s),
    decreases g.len(),
{
    if i < g.len() {
        assert(g.drop_last().subrange(0, i) =~= g.subrange(0, i));
        lemma_count_prefix(g.drop_last(), i, s);
    } else {
        assert(g.subrange(0, i) =~= g);
    }
}

proof fn lemma_fits_all(g: Seq<Formula>, i: int)
    requires
        fits_all(g),
        0 <= i < g.len(),
    ensures
        fits(g[i]),
    decreases g.len(),
{
    if i < g.len() - 1 {
        assert(g.drop_last()[i] == g[i]);
        lemma_fits_all(g.drop_last(), i);
    }
}

/// The number of atoms of each element in a formula.
pub struct Composition {
    by_z: Vec<Option<u32>>,
}

pub open spec fn entry_value(e: Option<u32>) -> nat {
    match e {
        Some(v) => v as nat,
        None => 0,
    }
}

impl View for Composition {
    type V = Map<Symbol, nat>;

    closed spec fn view(&self) -> Map<Symbol, nat> {
        Map::new(
            |s: Symbol| self.by_z@[s.spec_z() as int] is Some,
            |s: Symbol| entry_value(self.by_z@[s.spec_z() as int]),
        )
    }
}

impl Composition {
    pub closed spec fn wf(&self) -> bool {
        self.by_z@.len() == MAX_Z + 1
    }

    /// The composition of no atom.
    pub fn new() -> (r: Self)
        ensures
            r.wf(),
            r@ == Map::<Symbol, nat>::empty(),
    {
        let mut by_z: Vec<Option<u32>> = Vec::new();
        let mut z: usize = 0;
        while z <= MAX_Z as usize
            invariant
                z <= MAX_Z + 1,
                by_z@.len() == z,
                forall|k: int| 0 <= k < z ==> by_z@[k] is None,
            decreases MAX_Z + 1 - z,
        {
            by_z.push(None);
            z = z + 1;
        }
        let r = Composition { by_z };
        proof {
            assert forall|s: Symbol| !r@.contains_key(s) by {
                s.lemma_z_round_trip();
            }
            assert(r@ =~= Map::<Symbol, nat>::empty());
        }
        r
    }

    /// The number of atoms of `s`, where the formula names `s`.
    pub fn get(&self, s: &Symbol) -> (r: Option<&u32>)
        requires
            self.wf(),
        ensures
            match r {
                Some(v) => self@.contains_key(*s) && self@[*s] == *v as nat,
                None => !self@.contains_key(*s),
            },
    {
        proof {
            s.lemma_z_round_trip();
        }
        match &self.by_z[s.z() as usize] {
            Some(v) => Some(v),
            None => None,
        }
    }

    /// Adds `m` times each count of `other` to this composition.
    fn merge(&mut self, other: &Composition, m: u32)
        requires
            old(self).wf(),
            other.wf(),
            forall|s: Symbol|
                #![trigger s.spec_z()]
                entry_value(old(self).by_z@[s.spec_z() as int]) + m * entry_value(
                    other.by_z@[s.spec_z() as int],
                ) <= u32::MAX,
        ensures
            final(self).wf(),
            forall|s: Symbol| #[trigger]
                final(self)@.contains_key(s) == (old(self)@.contains_key(s) || other@.contains_key(
                    s,
                )),
            forall|s: Symbol| #[trigger]
                final(self)@.contains_key(s) ==> final(self)@[s] == entry_value(
                    old(self).by_z@[s.spec_z() as int],
                ) + m * entry_value(other.by_z@[s.spec_z() as int]),
    {
        let ghost before = self.by_z@;
        let mut z: usize = 1;
        while z <= MAX_Z as usize
            invariant
                1 <= z <= MAX_Z + 1,
                self.by_z@.len() == MAX_Z + 1,
                other.by_z@.len() == MAX_Z + 1,
                before.len() == MAX_Z + 1,
                forall|s: Symbol|
                    #![trigger s.spec_z()]
                    entry_value(before[s.spec_z() as int]) + m * entry_value(
                        other.by_z@[s.spec_z() as int],
                    ) <= u32::MAX,
                forall|k: int| 1 <= k < z ==> (#[trigger] self.by_z@[k] is Some) == (before[k] is Some
                    || other.by_z@[k] is Some),
                forall|k: int|
                    1 <= k < z ==> entry_value(#[trigger] self.by_z@[k]) == entry_value(before[k])
                        + m * entry_value(other.by_z@[k]),
                forall|k: int| z <= k <= MAX_Z ==> #[trigger] self.by_z@[k] == before[k],
            decreases MAX_Z + 1 - z,
        {
            let sym = Symbol::from_z(z as u8).unwrap();
            proof {
                assert(sym.spec_z() == z);
                assert(entry_value(before[z as int]) + m * entry_value(other.by_z@[z as int])
                    <= u32::MAX);
            }
            match other.by_z[z] {
                None => {},
                Some(n) => {
                    let ghost bz = before[z as int];
                    proof {
                        assert(m * n <= u32::MAX) by (nonlinear_arith)
                            requires
                                entry_value(bz) + m * n <= u32::MAX,
                                entry_value(bz) >= 0,
                        ;
                    }
                    let add = m * n;
                    match self.by_z[z] {
                        None => {
                            self.by_z.set(z, Some(add));
                        },
                        Some(v) => {
                            self.by_z.set(z, Some(v + add));
                        },
                    }
                },
            }
            z = z + 1;
        }
        proof {
            assert forall|s: Symbol|
                #[trigger] self@.contains_key(s) == (old(self)@.contains_key(s) || other@.contains_key(s))
                && (self@.contains_key(s) ==> self@[s] == entry_value(before[s.spec_z() as int]) + m
                * entry_value(other.by_z@[s.spec_z() as int])) by {
                s.lemma_z_round_trip();
                let k = s.spec_z() as int;
                assert(self.by_z@[k] is Some == (before[k] is Some || other.by_z@[k] is Some));
            }
        }
    }

    /// Records `n` atoms of `s` in a composition that has none of `s`.
    fn put(&mut self, s: Symbol, n: u32)
        requires
            old(self).wf(),
        ensures
            final(self).wf(),
            final(self)@ == old(self)@.insert(s, n as nat),
    {
        proof {
            s.lemma_z_round_trip();
        }
        self.by_z.set(s.z() as usize, Some(n));
        proof {
            assert forall|t: Symbol| #[trigger] self@.contains_key(t) == old(self)@.insert(s, n as nat).contains_key(t)
                && (self@.contains_key(t) ==> self@[t] == old(self)@.insert(s, n as nat)[t]) by {
                t.lemma_z_round_trip();
                if t != s {
                    assert(t.spec_z() != s.spec_z()) by {
                        if t.spec_z() == s.spec_z() {
                            assert(Symbol::spec_from_z(t.spec_z()) == Some(t));
                        }
                    }
                }
            }
            assert(self@ =~= old(self)@.insert(s, n as nat));
        }
    }
}

impl Compound {
    /// The number of atoms of each element the formula names.
    pub fn composition(&self) -> (r: Composition)
        requires
            fits(formula_of(*self)),
        ensures
            r.wf(),
            r@ == composition_of(formula_of(*self)),
        decreases self,
    {
        match self {
            Compound::Element(sym, n) => {
                let mut c = Composition::new();
                c.put(*sym, *n);
                assert(c@ =~= composition_of(formula_of(*self)));
                c
            },
            Compound::Molecule(g, m) => {
                let ghost f = formula_of(*self);
                let ghost fg = formulas_of(g@);
                proof {
                    lemma_formulas_len(g@);
                }
                let mut c = Composition::new();
                proof {
                    assert(fg.subrange(0, 0) =~= Seq::<Formula>::empty());
                    assert(c@ =~= Map::new(
                        |s: Symbol| mentions_any(fg.subrange(0, 0), s),
                        |s: Symbol| *m as nat * count_all(fg.subrange(0, 0), s),
                    ));
                }
                let mut i: usize = 0;
                while i < g.len()
                    invariant
                        i <= g@.len(),
                        f == formula_of(*self),
                        f == Formula::Group(fg, *m as nat),
                        fits(f),
                        fg == formulas_of(g@),
                        fg.len() == g@.len(),
                        forall|k: int| 0 <= k < g@.len() ==> fg[k] == formula_of(#[trigger] g@[k]),
                        *self == Compound::Molecule(*g, *m),
                        c.wf(),
                        c@ == Map::new(
                            |s: Symbol| mentions_any(fg.subrange(0, i as int), s),
                            |s: Symbol| *m as nat * count_all(fg.subrange(0, i as int), s),
                        ),
                    decreases g@.len() - i,
                {
                    proof {
                        assert((*self)->Molecule_0 == *g);
                        assert(decreases_to!(*self => (*self)->Molecule_0));
                        assert(decreases_to!(*g => g[i as int]));
                        lemma_fits_all(fg, i as int);
                    }
                    let sub = g[i].composition();
                    let ghost fi = fg[i as int];
                    let ghost pre = fg.subrange(0, i as int);
                    let ghost next = fg.subrange(0, i + 1);
                    proof {
                        assert(next.drop_last() =~= pre);
                        assert(next.last() == fi);
                        assert forall|s: Symbol| #![trigger s.spec_z()]
                            entry_value(c.by_z@[s.spec_z() as int]) + *m * entry_value(
                                sub.by_z@[s.spec_z() as int],
                            ) <= u32::MAX by {
                            s.lemma_z_round_trip();
                            lemma_unmentioned_all(pre, s);
                            lemma_unmentioned(fi, s);
                            lemma_count_prefix(fg, i + 1, s);
                            assert(count(f, s) <= u32::MAX);
                            let a = count_all(pre, s);
                            let b = count(fi, s);
                            let total = count_all(fg, s);
                            assert(c@.contains_key(s) == mentions_any(pre, s));
                            if mentions_any(pre, s) {
                                assert(c@[s] == *m as nat * a);
                            } else {
                                assert(a == 0);
                                assert(*m as nat * a == 0) by (nonlinear_arith)
                                    requires
                                        a == 0,
                                ;
                            }
                            assert(entry_value(c.by_z@[s.spec_z() as int]) == *m as nat * a);
                            assert(sub@ == composition_of(fi));
                            assert(sub@.contains_key(s) == mentions(fi, s));
                            if mentions(fi, s) {
                                assert(sub@[s] == b);
                            }
                            assert(entry_value(sub.by_z@[s.spec_z() as int]) == b);
                            assert(*m as nat * a + *m as nat * b <= *m as nat * total) by (nonlinear_arith)
                                requires
                                    a + b <= total,
                            ;
                        }
                    }
                    let ghost old_c = c;
                    c.merge(&sub, *m);
                    proof {
                        assert forall|s: Symbol| #[trigger] c@.contains_key(s) == mentions_any(next, s)
                            && (c@.contains_key(s) ==> c@[s] == *m as nat * count_all(next, s)) by {
                            s.lemma_z_round_trip();
                            lemma_unmentioned_all(pre, s);
                            lemma_unmentioned(fi, s);
                            let a = count_all(pre, s);
                            let b = count(fi, s);
                            assert(*m as nat * (a + b) == *m as nat * a + *m as nat * b) by (nonlinear_arith);
                            assert(old_c@.contains_key(s) == mentions_any(pre, s));
                            assert(sub@.contains_key(s) == mentions(fi, s));
                            if mentions_any(pre, s) {
                                assert(old_c@[s] == *m as nat * a);
                            } else {
                                assert(*m as nat * a == 0) by (nonlinear_arith)
                                    requires
                                        a == 0,
                                ;
                            }
                            assert(entry_value(old_c.by_z@[s.spec_z() as int]) == *m as nat * a);
                            if mentions(fi, s) {
                                assert(sub@[s] == b);
                            }
                            assert(entry_value(sub.by_z@[s.spec_z() as int]) == b);
                        }
                        assert(c@ =~= Map::new(
                            |s: Symbol| mentions_any(next, s),
                            |s: Symbol| *m as nat * count_all(next, s),
                        ));
                    }
                    i = i + 1;
                }
                proof {
                    assert(fg.subrange(0, g@.len() as int) =~= fg);
                    assert(c@ =~= composition_of(f));
                }
                c
            },
        }
    }
}

impl std::str::FromStr for Compound {
    type Err = Error;

    fn from_str(s: &str) -> Result<Compound, Error> {
        match Compound::parse(s) {
            Some(c) => Ok(c),
            None => Err(Error::InvalidCompound(s.to_owned())),
        }
    }
}

} // verus!
