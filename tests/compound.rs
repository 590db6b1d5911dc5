use nuclide_decay::{Compound, Symbol};

#[test]
fn molecular() {
    let ether: Compound = "(C2H5)2O".parse().unwrap();

    assert_eq!(ether.to_string(), "(C2H5)2O");
    assert_eq!(ether.composition().get(&Symbol::H), Some(&10));
    assert_eq!(ether.composition().get(&Symbol::C), Some(&4));
    assert_eq!(ether.composition().get(&Symbol::O), Some(&1));
}

#[test]
fn parse_compound() {
    let ether = Compound::parse("(C2H5)2O").unwrap();
    assert_eq!(
        ether,
        Compound::Molecule(
            vec![
                Compound::Molecule(
                    vec![
                        Compound::Element(Symbol::C, 2),
                        Compound::Element(Symbol::H, 5),
                    ],
                    2
                ),
                Compound::Element(Symbol::O, 1)
            ],
            1
        )
    );
}

#[test]
fn single_element_formulas() {
    assert_eq!(Compound::parse("H2"), Some(Compound::Element(Symbol::H, 2)));
    assert_eq!(Compound::parse("Fe"), Some(Compound::Element(Symbol::Fe, 1)));
    let water = Compound::parse("H2O").unwrap();
    assert_eq!(water.to_string(), "H2O");
    assert_eq!(water.composition().get(&Symbol::H), Some(&2));
    assert_eq!(water.composition().get(&Symbol::C), None);
}

#[test]
fn invalid_formulas() {
    assert_eq!(Compound::parse(""), None);
    assert_eq!(Compound::parse("()"), None);
    assert_eq!(Compound::parse("(H2"), None);
    assert_eq!(Compound::parse("H2)"), None);
    assert_eq!(Compound::parse("Xx2"), None);
    assert_eq!(Compound::parse("h2o"), None);
    assert!("2H".parse::<Compound>().is_err());
}

#[test]
fn nested_groups_multiply() {
    let c = Compound::parse("((CH3)3C)2").unwrap();
    assert_eq!(c.to_string(), "((CH3)3C)2");
    assert_eq!(c.composition().get(&Symbol::C), Some(&8));
    assert_eq!(c.composition().get(&Symbol::H), Some(&18));
    let zero = Compound::parse("H0").unwrap();
    assert_eq!(zero.composition().get(&Symbol::H), Some(&0));
}
