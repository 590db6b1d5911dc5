use std::sync::Arc;

use nuclide_decay::{
    DecayChainBuilder, DecayData, DecayMode, DecayModeSet, HalfLife, Nuclide, Progeny, TimeUnit,
};

fn nuc(s: &str) -> Nuclide {
    s.parse().unwrap()
}

#[test]
fn chain_builder() {
    let mo99: Nuclide = "Mo-99".parse().unwrap();
    let tc99m: Nuclide = "Tc-99m".parse().unwrap();
    let progeny = Progeny {
        nuclide: tc99m,
        branch_rate: 1.0,
        decay_mode: DecayModeSet::empty().with("IT".parse::<DecayMode>().unwrap()),
    };
    let mut data = DecayData::new();
    data.insert(mo99, Some(2.0_f64.ln() / (2.7489 * 86_400.)), vec![progeny]);
    data.set_half_life(mo99, HalfLife { mantissa: 27489, exponent: -4, unit: TimeUnit::Day });
    data.set_half_life(tc99m, HalfLife { mantissa: 60067, exponent: -4, unit: TimeUnit::Hour });
    let data = Arc::new(data);

    let chain = DecayChainBuilder::new(data.clone()).build(mo99);

    let nodes = chain.raw_nodes();
    assert_eq!(nodes.len(), 2);
    assert_eq!(nodes[0].weight.nuclide, mo99);
    assert_eq!(
        nodes[0].weight.half_life,
        Some(HalfLife {
            mantissa: 27489,
            exponent: -4,
            unit: TimeUnit::Day
        })
    );
    assert_eq!(nodes[1].weight.nuclide, tc99m);
    assert_eq!(
        nodes[1].weight.half_life,
        Some(HalfLife {
            mantissa: 60067,
            exponent: -4,
            unit: TimeUnit::Hour,
        })
    );

    let edges = chain.raw_edges();
    assert_eq!(edges.len(), 1);
    let parent = nodes[edges[0].source().index()].weight.nuclide;
    let rate = data.progeny(parent).unwrap()[edges[0].weight.progeny_index].branch_rate;
    assert_eq!(rate, 1.0);
    assert_eq!(
        edges[0].weight.decay_mode,
        DecayModeSet::empty().with(DecayMode::IsometricTransition)
    );
}

fn link(daughter: &str, mode: DecayMode) -> Progeny<f64> {
    Progeny {
        nuclide: nuc(daughter),
        branch_rate: 0.5,
        decay_mode: DecayModeSet::empty().with(mode),
    }
}

#[test]
fn shared_daughter_has_one_node_and_two_edges() {
    let mut data = DecayData::new();
    data.insert(
        nuc("Bi-212"),
        Some(1.0),
        vec![link("Po-212", DecayMode::BetaMinus), link("Tl-208", DecayMode::Alpha)],
    );
    data.insert(nuc("Po-212"), Some(2.0), vec![link("Pb-208", DecayMode::Alpha)]);
    data.insert(nuc("Tl-208"), Some(3.0), vec![link("Pb-208", DecayMode::BetaMinus)]);
    let chain = DecayChainBuilder::new(Arc::new(data)).build(nuc("Bi-212"));

    let nodes = chain.raw_nodes();
    assert_eq!(nodes.len(), 4);
    let pb: Vec<usize> = (0..nodes.len())
        .filter(|&i| nodes[i].weight.nuclide == nuc("Pb-208"))
        .collect();
    assert_eq!(pb.len(), 1);
    let into_pb = chain
        .raw_edges()
        .iter()
        .filter(|e| e.target().index() == pb[0])
        .count();
    assert_eq!(into_pb, 2);
    assert_eq!(chain.raw_edges().len(), 4);
}

#[test]
fn unknown_root_gives_a_lone_node() {
    let data: DecayData<f64> = DecayData::new();
    let chain = DecayChainBuilder::new(Arc::new(data)).build(nuc("Cs-137"));
    assert_eq!(chain.node_count(), 1);
    assert_eq!(chain.raw_nodes()[0].weight.nuclide, nuc("Cs-137"));
    assert_eq!(chain.edge_count(), 0);
}

#[test]
fn cycles_are_expanded_once() {
    let mut data = DecayData::new();
    data.insert(nuc("Mo-99"), Some(1.0), vec![link("Tc-99m", DecayMode::BetaMinus)]);
    data.insert(nuc("Tc-99m"), Some(1.0), vec![link("Mo-99", DecayMode::IsometricTransition)]);
    let chain = DecayChainBuilder::new(Arc::new(data)).build(nuc("Mo-99"));
    assert_eq!(chain.node_count(), 2);
    assert_eq!(chain.edge_count(), 2);
}

#[test]
fn fission_products_are_a_leaf() {
    let mut data = DecayData::new();
    data.insert(
        nuc("Cf-252"),
        Some(1.0),
        vec![
            link("Cm-248", DecayMode::Alpha),
            link("SF", DecayMode::SpontaneousFission),
        ],
    );
    data.insert(Nuclide::FissionProducts, Some(1.0), vec![link("Cf-252", DecayMode::Alpha)]);
    data.set_half_life(Nuclide::FissionProducts, HalfLife::parse("1 s").unwrap());
    data.set_half_life(nuc("Cf-252"), HalfLife::parse("2.645 y").unwrap());
    let chain = DecayChainBuilder::new(Arc::new(data)).build(nuc("Cf-252"));
    assert_eq!(chain.node_count(), 3);
    assert_eq!(chain.edge_count(), 2);
    for node in chain.raw_nodes() {
        if node.weight.nuclide == Nuclide::FissionProducts {
            assert_eq!(node.weight.half_life, None);
        }
    }
    assert_eq!(
        chain.raw_nodes()[0].weight.half_life,
        Some(HalfLife { mantissa: 2645, exponent: -3, unit: TimeUnit::Year })
    );
}
