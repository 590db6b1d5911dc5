use std::sync::Arc;

use nuclide_decay::{
    Arithmetic, BatemanDecaySolver, DecayData, DecayModeSet, Inventory, Nuclide, PathError,
    Progeny,
};

#[derive(Debug, Clone, Copy, PartialEq)]
struct F(f64);

impl Arithmetic for F {
    fn spec_zero() -> Self {
        Self::zero()
    }
    fn spec_one() -> Self {
        Self::one()
    }
    fn spec_plus(self, other: Self) -> Self {
        self.plus(other)
    }
    fn spec_minus(self, other: Self) -> Self {
        self.minus(other)
    }
    fn spec_times(self, other: Self) -> Self {
        self.times(other)
    }
    fn spec_over(self, other: Self) -> Self {
        self.over(other)
    }
    fn spec_surviving(self, t: Self) -> Self {
        self.surviving(t)
    }
    fn zero() -> Self {
        F(0.0)
    }
    fn one() -> Self {
        F(1.0)
    }
    fn plus(self, other: Self) -> Self {
        F(self.0 + other.0)
    }
    fn minus(self, other: Self) -> Self {
        F(self.0 - other.0)
    }
    fn times(self, other: Self) -> Self {
        F(self.0 * other.0)
    }
    fn over(self, other: Self) -> Self {
        F(self.0 / other.0)
    }
    fn surviving(self, t: Self) -> Self {
        F((-self.0 * t.0).exp())
    }
    fn same(self, other: Self) -> bool {
        self.0 == other.0
    }
}

fn nuc(s: &str) -> Nuclide {
    s.parse().unwrap()
}

fn edge(daughter: &str, branch_rate: f64) -> Progeny<F> {
    Progeny {
        nuclide: nuc(daughter),
        branch_rate: F(branch_rate),
        decay_mode: DecayModeSet::empty(),
    }
}

fn test_data() -> DecayData<F> {
    let mut data = DecayData::new();
    data.insert(nuc("Nb-99"), Some(F(2.0_f64.ln())), vec![edge("Mo-99", 0.7)]);
    data.insert(nuc("Mo-99"), Some(F(2.0_f64.ln() / 2.)), vec![edge("Tc-99m", 0.3)]);
    data.insert(nuc("Tc-99m"), Some(F(2.0_f64.ln() / 4.)), vec![]);
    data
}

#[test]
fn bateman_solver() {
    let data = test_data();
    let mut solver = BatemanDecaySolver::new(data);

    let mut inv = Inventory::new();
    inv.add("Nb-99".parse().unwrap(), F(1.0));

    let res = solver.decay(&inv, F(1.0)).unwrap();

    let l1 = 2.0_f64.ln();
    let l2 = 2.0_f64.ln() / 2.;
    let l3 = 2.0_f64.ln() / 4.;

    let br1 = 0.7;
    let br2 = 0.3;

    assert_eq!(res.get(&"Nb-99".parse().unwrap()), Some(&F((-l1).exp())));
    assert_eq!(
        res.get(&"Mo-99".parse().unwrap()),
        Some(&F(l2 * br1 * ((-l1).exp() / (l2 - l1) + (-l2).exp() / (l1 - l2))))
    );
    assert_eq!(
        res.get(&"Tc-99m".parse().unwrap()),
        Some(&F((l2 * l3)
            * (br1 * br2)
            * ((-l1).exp() / ((l2 - l1) * (l3 - l1))
                + (-l2).exp() / ((l1 - l2) * (l3 - l2))
                + (-l3).exp() / ((l1 - l3) * (l2 - l3)))))
    );
}

#[test]
fn decay_at_time_zero_is_identity() {
    let mut solver = BatemanDecaySolver::new(test_data());
    let mut inv = Inventory::new();
    inv.add(nuc("Nb-99"), F(3.0));
    inv.add(nuc("Mo-99"), F(2.0));
    let res = solver.decay(&inv, F(0.0)).unwrap();
    let close = |a: f64, b: f64| (a - b).abs() <= 1e-12;
    assert!(close(res.get(&nuc("Nb-99")).unwrap().0, 3.0));
    assert!(close(res.get(&nuc("Mo-99")).unwrap().0, 2.0));
    assert!(close(res.get(&nuc("Tc-99m")).unwrap().0, 0.0));
}

#[test]
fn lone_nuclide_decays_exponentially() {
    let lambda = 7.3e-10;
    let mut data = DecayData::new();
    data.insert(nuc("Cs-137"), Some(F(lambda)), vec![]);
    let mut solver = BatemanDecaySolver::new(data);
    let mut inv = Inventory::new();
    inv.add(nuc("Cs-137"), F(5.0));
    let t = 3.0e8;
    let res = solver.decay(&inv, F(t)).unwrap();
    assert_eq!(res.get(&nuc("Cs-137")), Some(&F(5.0 * (-lambda * t).exp())));
    assert_eq!(res.len(), 1);
}

#[test]
fn repeated_decay_reuses_the_path_table() {
    let mut solver = BatemanDecaySolver::new(test_data());
    let mut inv = Inventory::new();
    inv.add(nuc("Nb-99"), F(1.0));
    let first = solver.decay(&inv, F(1.0)).unwrap();
    let table = solver.path_table(nuc("Nb-99")).unwrap();
    let second = solver.decay(&inv, F(2.0)).unwrap();
    let again = solver.path_table(nuc("Nb-99")).unwrap();
    assert!(Arc::ptr_eq(&table, &again));
    assert_ne!(first.get(&nuc("Mo-99")), second.get(&nuc("Mo-99")));
    assert_eq!(first.len(), second.len());
}

#[test]
fn sources_without_decay_constant_add_nothing() {
    let mut data = test_data();
    data.insert(nuc("Pb-208"), None, vec![]);
    let mut solver = BatemanDecaySolver::new(data);
    let mut inv = Inventory::new();
    inv.add(nuc("Pb-208"), F(4.0));
    inv.add(nuc("U-238"), F(4.0));
    inv.add(nuc("Tc-99m"), F(1.0));
    let res = solver.decay(&inv, F(1.0)).unwrap();
    assert_eq!(res.len(), 1);
    assert!(res.get(&nuc("Pb-208")).is_none());
    assert!(res.get(&nuc("U-238")).is_none());
}

#[test]
fn shared_descendants_add_up() {
    let mut solver = BatemanDecaySolver::new(test_data());
    let mut both = Inventory::new();
    both.add(nuc("Nb-99"), F(1.0));
    both.add(nuc("Mo-99"), F(1.0));
    let mut only_nb = Inventory::new();
    only_nb.add(nuc("Nb-99"), F(1.0));
    let mut only_mo = Inventory::new();
    only_mo.add(nuc("Mo-99"), F(1.0));
    let t = F(1.5);
    let res = solver.decay(&both, t).unwrap();
    let a = solver.decay(&only_nb, t).unwrap();
    let b = solver.decay(&only_mo, t).unwrap();
    let sum = a.get(&nuc("Tc-99m")).unwrap().0 + b.get(&nuc("Tc-99m")).unwrap().0;
    assert!((res.get(&nuc("Tc-99m")).unwrap().0 - sum).abs() <= 1e-15);
}

#[test]
fn inventory_merges_by_summation() {
    let n = nuc("Co-60");
    let mut inv: Inventory<F> = Inventory::new();
    inv.add(n, F(3.0));
    inv.add(n, F(2.0));
    assert_eq!(inv.get(&n), Some(&F(5.0)));
    assert_eq!(inv.len(), 1);
    assert_eq!(inv.remove(n), Some((n, F(5.0))));
    assert_eq!(inv.get(&n), None);
    assert_eq!(inv.remove(n), None);
}

#[test]
fn inventory_entries_in_order_of_first_addition() {
    let mut inv: Inventory<F> = Inventory::new();
    inv.add(nuc("I-131"), F(1.0));
    inv.add(nuc("Cs-137"), F(2.0));
    inv.add(nuc("I-131"), F(1.5));
    assert_eq!(inv.entry(0), (nuc("I-131"), F(2.5)));
    assert_eq!(inv.entry(1), (nuc("Cs-137"), F(2.0)));
}

#[test]
fn equal_decay_constants_on_a_path_are_reported() {
    let mut data = DecayData::new();
    data.insert(nuc("Sr-90"), Some(F(0.5)), vec![edge("Y-90", 1.0)]);
    data.insert(nuc("Y-90"), Some(F(0.5)), vec![]);
    let mut solver = BatemanDecaySolver::new(data);
    assert_eq!(
        solver.bateman_eq(nuc("Sr-90"), F(1.0)).err(),
        Some(PathError::EqualConstants)
    );
    assert!(solver.bateman_eq(nuc("Y-90"), F(1.0)).is_ok());
    let mut inv = Inventory::new();
    inv.add(nuc("Sr-90"), F(1.0));
    assert_eq!(solver.decay(&inv, F(1.0)).err(), Some(PathError::EqualConstants));
}

#[test]
fn cyclic_data_below_a_source_is_reported() {
    let mut data = DecayData::new();
    data.insert(nuc("Mo-99"), Some(F(1.0)), vec![edge("Tc-99m", 1.0)]);
    data.insert(nuc("Tc-99m"), Some(F(2.0)), vec![edge("Mo-99", 1.0)]);
    let mut solver = BatemanDecaySolver::new(data);
    let mut inv = Inventory::new();
    inv.add(nuc("Mo-99"), F(1.0));
    assert_eq!(solver.decay(&inv, F(1.0)).err(), Some(PathError::Cyclic));
    assert_eq!(
        solver.bateman_eq(nuc("Mo-99"), F(1.0)).err(),
        Some(PathError::Cyclic)
    );
}

#[test]
fn unknown_source_is_not_found_by_bateman_eq() {
    let mut solver = BatemanDecaySolver::new(test_data());
    assert_eq!(
        solver.bateman_eq(nuc("U-238"), F(1.0)).err(),
        Some(PathError::NotFound)
    );
    assert!(!solver.is_cached(nuc("U-238")));
}

#[test]
fn removal_keeps_the_order_of_the_rest() {
    let mut inv: Inventory<F> = Inventory::new();
    inv.add(nuc("I-131"), F(1.0));
    inv.add(nuc("Cs-137"), F(2.0));
    inv.add(nuc("Co-60"), F(3.0));
    inv.remove(nuc("Cs-137"));
    assert_eq!(inv.len(), 2);
    assert_eq!(inv.entry(0), (nuc("I-131"), F(1.0)));
    assert_eq!(inv.entry(1), (nuc("Co-60"), F(3.0)));
}
