use nuclide_decay::{check_decay_mode, DecayMode, DecayModeSet, Nuclide};

#[test]
fn decay_mode_deserialize_decay_mode() {
    let mode = DecayModeSet::parse("A ECB-").unwrap();

    assert_eq!(
        mode,
        DecayModeSet::empty()
            .with(DecayMode::Alpha)
            .with(DecayMode::ElectronCapture)
            .with(DecayMode::BetaMinus)
    );
}

#[test]
fn nuclide_deserialize_decay_mode() {
    let mode = DecayModeSet::parse("A ECB-").unwrap();

    assert_eq!(
        mode,
        DecayModeSet::empty()
            .with(DecayMode::Alpha)
            .with(DecayMode::ElectronCapture)
            .with(DecayMode::BetaMinus)
    );
}

#[test]
fn parse_decaymodeflags() {
    let mode = DecayModeSet::parse("AB-B+ECITSF").unwrap();
    assert_eq!(
        mode,
        DecayModeSet::empty()
            .with(DecayMode::Alpha)
            .with(DecayMode::BetaMinus)
            .with(DecayMode::BetaPlus)
            .with(DecayMode::ElectronCapture)
            .with(DecayMode::IsometricTransition)
            .with(DecayMode::SpontaneousFission)
    );

    let mode_with_padding = DecayModeSet::parse("A B- β+ ").unwrap();
    assert_eq!(
        mode_with_padding,
        DecayModeSet::empty()
            .with(DecayMode::Alpha)
            .with(DecayMode::BetaMinus)
            .with(DecayMode::BetaPlus)
    );
}

#[test]
fn decay_mode_lists_edge_cases() {
    assert_eq!(DecayModeSet::parse(""), Some(DecayModeSet::empty()));
    assert_eq!(DecayModeSet::parse("   "), None);
    assert_eq!(DecayModeSet::parse("A X"), None);
    assert_eq!(DecayModeSet::parse("B"), None);
    assert!(DecayModeSet::parse("IT IT").unwrap().contains(DecayMode::IsometricTransition));
    assert!("Q".parse::<DecayModeSet>().is_err());
}

#[test]
fn single_decay_mode() {
    assert_eq!(DecayMode::parse("IT"), Some(DecayMode::IsometricTransition));
    assert_eq!(DecayMode::parse(" β- "), Some(DecayMode::BetaMinus));
    assert_eq!(DecayMode::parse("A B-"), None);
    assert_eq!(DecayMode::parse(""), None);
    assert_eq!("SF".parse::<DecayMode>().unwrap(), DecayMode::SpontaneousFission);
}

#[test]
fn decay_modes_joined_with_or() {
    let set = DecayModeSet::empty()
        .with(DecayMode::ElectronCapture)
        .with(DecayMode::BetaPlus);
    assert_eq!(set.to_string(), "β+ or EC");
    assert_eq!(
        set.modes(),
        vec![DecayMode::BetaPlus, DecayMode::ElectronCapture]
    );
    assert_eq!(DecayModeSet::empty().with(DecayMode::Alpha).to_string(), "⍺");
    assert_eq!(DecayModeSet::empty().to_string(), "");
    assert!(DecayModeSet::empty().is_empty());
}

#[test]
fn decay_mode_set_operations() {
    let a = DecayModeSet::empty().with(DecayMode::Alpha);
    let b = DecayModeSet::empty().with(DecayMode::BetaMinus);
    let u = a.union(b);
    assert!(u.contains(DecayMode::Alpha));
    assert!(u.contains(DecayMode::BetaMinus));
    assert!(!u.contains(DecayMode::SpontaneousFission));
    assert!(!u.is_empty());
}

#[test]
fn edge_modes_follow_the_change_of_numbers() {
    let listed = DecayModeSet::parse("B-ECA").unwrap();
    let ac226: Nuclide = "Ac-226".parse().unwrap();
    let th226: Nuclide = "Th-226".parse().unwrap();
    let ra226: Nuclide = "Ra-226".parse().unwrap();
    let fr222: Nuclide = "Fr-222".parse().unwrap();
    assert_eq!(
        check_decay_mode(ac226, th226, listed),
        Some(DecayModeSet::empty().with(DecayMode::BetaMinus))
    );
    assert_eq!(
        check_decay_mode(ac226, ra226, listed),
        Some(DecayModeSet::empty().with(DecayMode::ElectronCapture))
    );
    assert_eq!(
        check_decay_mode(ac226, fr222, listed),
        Some(DecayModeSet::empty().with(DecayMode::Alpha))
    );
    let both = DecayModeSet::parse("B+EC").unwrap();
    assert_eq!(check_decay_mode(ac226, ra226, both), Some(both));
    let tc99m: Nuclide = "Tc-99m".parse().unwrap();
    let tc99: Nuclide = "Tc-99".parse().unwrap();
    assert_eq!(
        check_decay_mode(tc99m, tc99, DecayModeSet::parse("IT").unwrap()),
        Some(DecayModeSet::empty().with(DecayMode::IsometricTransition))
    );
    assert_eq!(check_decay_mode(ac226, tc99, listed), None);
    assert_eq!(check_decay_mode(ac226, th226, DecayModeSet::parse("A").unwrap()), None);
    assert_eq!(
        check_decay_mode("Cf-252".parse().unwrap(), Nuclide::FissionProducts, listed),
        Some(DecayModeSet::empty().with(DecayMode::SpontaneousFission))
    );
}
