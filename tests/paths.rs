use std::sync::Arc;

use nuclide_decay::paths::{enumerate_paths, without_index};
use nuclide_decay::{
    BatemanDecaySolver, DecayData, DecayModeSet, Nuclide, PathError, Progeny,
};

fn nuc(s: &str) -> Nuclide {
    s.parse().unwrap()
}

fn edge(daughter: &str, branch_rate: f64) -> Progeny<f64> {
    Progeny {
        nuclide: nuc(daughter),
        branch_rate,
        decay_mode: DecayModeSet::empty(),
    }
}

fn two_step_data() -> DecayData<f64> {
    let mut data = DecayData::new();
    data.insert(nuc("Nb-99"), Some(2.0_f64.ln()), vec![edge("Mo-99", 0.7)]);
    data.insert(nuc("Mo-99"), Some(2.0_f64.ln() / 2.), vec![edge("Tc-99m", 0.3)]);
    data.insert(nuc("Tc-99m"), Some(2.0_f64.ln() / 4.), vec![]);
    data
}

#[test]
fn two_step_chain_paths() {
    let data = two_step_data();
    let table = enumerate_paths(&data, nuc("Nb-99")).unwrap();
    let l1 = 2.0_f64.ln();
    let l2 = 2.0_f64.ln() / 2.;
    let l3 = 2.0_f64.ln() / 4.;

    assert_eq!(table.paths.len(), 3);
    assert_eq!(table.paths[0].nuclide, nuc("Nb-99"));
    assert_eq!(table.paths[0].branch_rates, Vec::<f64>::new());
    assert_eq!(table.paths[0].lambdas, vec![l1]);
    assert_eq!(table.paths[1].nuclide, nuc("Mo-99"));
    assert_eq!(table.paths[1].branch_rates, vec![0.7]);
    assert_eq!(table.paths[1].lambdas, vec![l1, l2]);
    assert_eq!(table.paths[2].nuclide, nuc("Tc-99m"));
    assert_eq!(table.paths[2].branch_rates, vec![0.7, 0.3]);
    assert_eq!(table.paths[2].lambdas, vec![l1, l2, l3]);
}

#[test]
fn one_entry_per_distinct_path() {
    // A decays to B and to C, both of which decay to D: D is reached by two paths.
    let mut data = DecayData::new();
    data.insert(nuc("U-238"), Some(1.0), vec![edge("Th-234", 0.4), edge("Pa-234", 0.6)]);
    data.insert(nuc("Th-234"), Some(2.0), vec![edge("U-234", 1.0)]);
    data.insert(nuc("Pa-234"), Some(3.0), vec![edge("U-234", 0.5)]);
    data.insert(nuc("U-234"), Some(4.0), vec![]);
    let table = enumerate_paths(&data, nuc("U-238")).unwrap();

    let to_u234: Vec<_> = table
        .paths
        .iter()
        .filter(|p| p.nuclide == nuc("U-234"))
        .collect();
    assert_eq!(to_u234.len(), 2);
    assert_eq!(table.paths.len(), 5);
    // The stack takes the last progeny first.
    assert_eq!(table.paths[1].nuclide, nuc("Pa-234"));
    assert_eq!(table.paths[2].branch_rates, vec![0.6, 0.5]);
    assert_eq!(table.paths[2].lambdas, vec![1.0, 3.0, 4.0]);
    assert_eq!(table.paths[4].branch_rates, vec![0.4, 1.0]);
}

#[test]
fn daughters_without_decay_constant_end_the_branch() {
    let mut data = DecayData::new();
    data.insert(nuc("Mo-99"), Some(1.0), vec![edge("Tc-99m", 0.9), edge("Tc-99", 0.1)]);
    data.insert(nuc("Tc-99m"), Some(2.0), vec![]);
    data.insert(nuc("Tc-99"), None, vec![]);
    let table = enumerate_paths(&data, nuc("Mo-99")).unwrap();
    assert_eq!(table.paths.len(), 2);
    assert!(table.paths.iter().all(|p| p.nuclide != nuc("Tc-99")));
}

#[test]
fn unknown_root_has_no_table() {
    let data = two_step_data();
    assert_eq!(
        enumerate_paths(&data, nuc("Cs-137")).err(),
        Some(PathError::NotFound)
    );
    let mut stable = DecayData::<f64>::new();
    stable.insert(nuc("Pb-208"), None, vec![]);
    assert_eq!(
        enumerate_paths(&stable, nuc("Pb-208")).err(),
        Some(PathError::NotFound)
    );
}

#[test]
fn cyclic_data_is_refused() {
    let mut data = DecayData::new();
    data.insert(nuc("Mo-99"), Some(1.0), vec![edge("Tc-99m", 1.0)]);
    data.insert(nuc("Tc-99m"), Some(2.0), vec![edge("Mo-99", 1.0)]);
    assert_eq!(
        enumerate_paths(&data, nuc("Mo-99")).err(),
        Some(PathError::Cyclic)
    );
}

#[test]
fn decay_data_lookups() {
    let mut data = two_step_data();
    assert_eq!(data.len(), 3);
    assert_eq!(data.lambda(nuc("Mo-99")), Some(2.0_f64.ln() / 2.));
    assert_eq!(data.lambda(nuc("Cs-137")), None);
    assert_eq!(data.progeny(nuc("Nb-99")).unwrap().len(), 1);
    assert!(data.progeny(nuc("Cs-137")).is_none());
    data.insert(nuc("Mo-99"), Some(5.0), vec![]);
    assert_eq!(data.len(), 3);
    assert_eq!(data.lambda(nuc("Mo-99")), Some(5.0));
    assert_eq!(data.progeny(nuc("Mo-99")).unwrap().len(), 0);
}

#[test]
fn path_table_is_built_once() {
    let mut solver = BatemanDecaySolver::new(two_step_data());
    assert!(!solver.is_cached(nuc("Nb-99")));
    let first = solver.path_table(nuc("Nb-99")).unwrap();
    assert!(solver.is_cached(nuc("Nb-99")));
    let second = solver.path_table(nuc("Nb-99")).unwrap();
    assert!(Arc::ptr_eq(&first, &second));
    assert_eq!(second.paths.len(), 3);
    assert!(!solver.is_cached(nuc("Mo-99")));
    let mo = solver.path_table(nuc("Mo-99")).unwrap();
    assert_eq!(mo.paths.len(), 2);
    assert_eq!(
        solver.path_table(nuc("Cs-137")).err(),
        Some(PathError::NotFound)
    );
    assert!(!solver.is_cached(nuc("Cs-137")));
}

#[test]
fn terminal_nuclide_has_one_path() {
    let mut data = DecayData::new();
    data.insert(nuc("Cs-137"), Some(7.3e-10), vec![]);
    let table = enumerate_paths(&data, nuc("Cs-137")).unwrap();
    assert_eq!(table.paths.len(), 1);
    assert_eq!(table.paths[0].nuclide, nuc("Cs-137"));
    assert!(table.paths[0].branch_rates.is_empty());
    assert_eq!(table.paths[0].lambdas, vec![7.3e-10]);
}

#[test]
fn table_nuclides_are_the_reachable_ones() {
    // Sr-90 decays to Y-90, which decays to Zr-90 (no decay constant) and Zr-90m.
    let mut data = DecayData::new();
    data.insert(nuc("Sr-90"), Some(1.0), vec![edge("Y-90", 1.0)]);
    data.insert(nuc("Y-90"), Some(2.0), vec![edge("Zr-90", 0.9), edge("Zr-90m", 0.1)]);
    data.insert(nuc("Zr-90m"), Some(3.0), vec![]);
    data.insert(nuc("Kr-85"), Some(4.0), vec![]);
    let table = enumerate_paths(&data, nuc("Sr-90")).unwrap();
    let mut found: Vec<Nuclide> = table.paths.iter().map(|p| p.nuclide).collect();
    found.sort();
    let mut expected = vec![nuc("Sr-90"), nuc("Y-90"), nuc("Zr-90m")];
    expected.sort();
    assert_eq!(found, expected);
}

#[test]
fn without_index_skips_exactly_one_position() {
    let v = vec![0.5, 0.25, 0.5];
    assert_eq!(without_index(&v, 0), vec![0.25, 0.5]);
    assert_eq!(without_index(&v, 1), vec![0.5, 0.5]);
    assert_eq!(without_index(&v, 2), vec![0.5, 0.25]);
}
