use nuclide_decay::{
    Compound, DecayMode, DecayModeSet, Error, MetastableState, Nuclide, Symbol, TimeUnit,
};

#[test]
fn each_parser_names_its_error() {
    assert_eq!(
        "Xx".parse::<Symbol>().unwrap_err(),
        Error::InvalidSymbol("Xx".to_string())
    );
    assert_eq!(
        "q".parse::<MetastableState>().unwrap_err(),
        Error::InvalidState("q".to_string())
    );
    assert_eq!(
        "Tc-".parse::<Nuclide>().unwrap_err(),
        Error::InvalidNuclide("Tc-".to_string())
    );
    assert_eq!(
        "X".parse::<DecayMode>().unwrap_err(),
        Error::InvalidDecayMode("X".to_string())
    );
    assert_eq!(
        "A Q".parse::<DecayModeSet>().unwrap_err(),
        Error::InvalidDecayMode("A Q".to_string())
    );
    assert_eq!(
        "wk".parse::<TimeUnit>().unwrap_err(),
        Error::InvalidTimeUnit("wk".to_string())
    );
    assert_eq!(
        "(H".parse::<Compound>().unwrap_err(),
        Error::InvalidCompound("(H".to_string())
    );
}
