use nuclide_decay::{half_life_parts, HalfLife, MetastableState, Nuclide, Symbol, TimeUnit};

#[test]
fn mod_nuclide_from_string() {
    let i131: Nuclide = "I-131".parse().unwrap();
    assert_eq!(i131.id().unwrap(), 531310000);

    let tc99m: Nuclide = "Tc-99m".parse().unwrap();
    assert_eq!(tc99m.id().unwrap(), 430990001);
}

#[test]
fn mod_nuclide_to_string() {
    let i131: Nuclide = "I-131".parse().unwrap();
    assert_eq!(&i131.to_string(), "I-131");

    let tc99m: Nuclide = "Tc-99m".parse().unwrap();
    assert_eq!(&tc99m.to_string(), "Tc-99m");
}

#[test]
fn nuclide_nuclide_from_string() {
    let i131: Nuclide = "I-131".parse().unwrap();
    assert_eq!(i131.id().unwrap(), 531310000);

    let tc99m: Nuclide = "Tc-99m".parse().unwrap();
    assert_eq!(tc99m.id().unwrap(), 430990001);
}

#[test]
fn nuclide_nuclide_to_string() {
    let i131: Nuclide = "I-131".parse().unwrap();
    assert_eq!(&i131.to_string(), "I-131");

    let tc99m: Nuclide = "Tc-99m".parse().unwrap();
    assert_eq!(&tc99m.to_string(), "Tc-99m");
}

#[test]
fn parse_symbol() {
    let h = Symbol::parse("H").unwrap();
    assert_eq!(h, Symbol::H);

    let he = Symbol::parse("He").unwrap();
    assert_eq!(he, Symbol::He);
}

#[test]
fn parse_nuclide() {
    let tc99 = Nuclide::parse("Tc99").unwrap();
    assert_eq!(tc99, Nuclide::WithId(43_099_0000));

    let tc99m = Nuclide::parse("Tc-99m").unwrap();
    assert_eq!(tc99m, Nuclide::WithId(43_099_0001));

    let tc99m_from_id = Nuclide::parse("430990001").unwrap();
    assert_eq!(tc99m_from_id, Nuclide::WithId(43_099_0001));
}

#[test]
fn fission_products_read_and_written() {
    let sf: Nuclide = "SF".parse().unwrap();
    assert_eq!(sf, Nuclide::FissionProducts);
    assert_eq!(sf.id(), None);
    assert_eq!(sf.z(), None);
    assert_eq!(sf.to_string(), "various");
}

#[test]
fn nuclide_parts() {
    let tc99m: Nuclide = "Tc-99m".parse().unwrap();
    assert_eq!(tc99m.z(), Some(43));
    assert_eq!(tc99m.a(), Some(99));
    assert_eq!(tc99m.state(), Some(MetastableState::M));

    let pa234n: Nuclide = "Pa-234n".parse().unwrap();
    assert_eq!(pa234n.id(), Some(912340002));
    assert_eq!(pa234n.state(), Some(MetastableState::N));
    assert_eq!(pa234n.to_string(), "Pa-234n");

    let u238: Nuclide = "U-238".parse().unwrap();
    assert_eq!(u238.state(), None);
    assert_eq!(u238.to_string(), "U-238");
}

#[test]
fn nuclide_name_variants() {
    assert_eq!(Nuclide::parse("Tc--99"), Some(Nuclide::WithId(430990000)));
    assert_eq!(Nuclide::parse("Tc-99x"), Some(Nuclide::WithId(430990000)));
    assert_eq!(Nuclide::parse("Og-294"), Some(Nuclide::WithId(1182940000)));
    assert_eq!(Nuclide::parse("0"), Some(Nuclide::WithId(0)));
}

#[test]
fn nuclide_invalid_names() {
    assert_eq!(Nuclide::parse(""), None);
    assert_eq!(Nuclide::parse("Xx-1"), None);
    assert_eq!(Nuclide::parse("Tc-"), None);
    assert_eq!(Nuclide::parse("Tc-099"), None);
    assert_eq!(Nuclide::parse("Tc-99m!"), None);
    assert_eq!(Nuclide::parse("tc-99"), None);
    assert_eq!(Nuclide::parse("0430990001"), None);
    assert_eq!(Nuclide::parse("4294967296"), None);
    assert_eq!(Nuclide::parse("Og-999999"), None);
    assert!("Tc-99 ".parse::<Nuclide>().is_err());
}

#[test]
fn symbol_round_trip() {
    assert_eq!(Symbol::from_z(1), Some(Symbol::H));
    assert_eq!(Symbol::from_z(118), Some(Symbol::Og));
    assert_eq!(Symbol::from_z(0), None);
    assert_eq!(Symbol::from_z(119), None);
    assert_eq!(Symbol::Tc.z(), 43);
    assert_eq!(Symbol::Tc.name(), "Tc");
    assert_eq!(Symbol::parse("Xx"), None);
    assert_eq!(Symbol::parse("h"), None);
    assert_eq!("Og".parse::<Symbol>().unwrap(), Symbol::Og);
}

#[test]
fn metastable_state_names() {
    assert_eq!(MetastableState::parse("m"), Some(MetastableState::M));
    assert_eq!(MetastableState::parse("n"), Some(MetastableState::N));
    assert_eq!(MetastableState::parse("x"), None);
    assert_eq!(MetastableState::M.code(), 1);
    assert_eq!(MetastableState::from_code(2), Some(MetastableState::N));
}

#[test]
fn time_unit_names() {
    assert_eq!(TimeUnit::parse("us"), Some(TimeUnit::MicroSecond));
    assert_eq!(TimeUnit::parse("ms"), Some(TimeUnit::MilliSecond));
    assert_eq!(TimeUnit::parse("s"), Some(TimeUnit::Second));
    assert_eq!(TimeUnit::parse("m"), Some(TimeUnit::Minute));
    assert_eq!(TimeUnit::parse("h"), Some(TimeUnit::Hour));
    assert_eq!(TimeUnit::parse("d"), Some(TimeUnit::Day));
    assert_eq!(TimeUnit::parse("y"), Some(TimeUnit::Year));
    assert_eq!(TimeUnit::parse("yr"), None);
    assert_eq!(TimeUnit::MicroSecond.to_string(), "μs");
    assert_eq!(TimeUnit::Year.to_string(), "y");
}

#[test]
fn half_life_text_parts() {
    assert_eq!(half_life_parts("1 us"), Some((0, 1, TimeUnit::MicroSecond)));
    assert_eq!(half_life_parts("2h"), Some((0, 1, TimeUnit::Hour)));
    assert_eq!(half_life_parts("10y"), Some((0, 2, TimeUnit::Year)));
    assert_eq!(half_life_parts("1.1 s"), Some((0, 3, TimeUnit::Second)));
    assert_eq!(half_life_parts("1.23e-2s"), Some((0, 7, TimeUnit::Second)));
    assert_eq!(half_life_parts("321 h"), Some((0, 3, TimeUnit::Hour)));
    assert_eq!(half_life_parts(" -2. ms"), Some((1, 4, TimeUnit::MilliSecond)));
    assert_eq!(half_life_parts("1e s"), None);
    assert_eq!(half_life_parts("s"), None);
    assert_eq!(half_life_parts("1 s "), None);
    assert_eq!(half_life_parts("1 weeks"), None);
}

fn isclose(a: f64, b: f64) -> bool {
    (a - b).abs() <= 1e-8 + 1e-5 * b.abs()
}

fn value(h: &HalfLife) -> f64 {
    h.mantissa as f64 * 10f64.powi(h.exponent)
}

#[test]
fn nuclide_halflife_from_string() {
    let t1 = HalfLife::parse("1 us").unwrap();
    assert!(isclose(value(&t1), 1.));
    assert_eq!(t1.unit, TimeUnit::MicroSecond);

    let t2 = HalfLife::parse("2h").unwrap();
    assert!(isclose(value(&t2), 2.));
    assert_eq!(t2.unit, TimeUnit::Hour);

    let t3 = HalfLife::parse("10y").unwrap();
    assert!(isclose(value(&t3), 10.));
    assert_eq!(t3.unit, TimeUnit::Year);

    let t4 = HalfLife::parse("1.1 s").unwrap();
    assert!(isclose(value(&t4), 1.1));
    assert_eq!(t4.unit, TimeUnit::Second);
}

#[test]
fn half_life_halflife_from_string() {
    let t1 = HalfLife::parse("1us").unwrap();
    assert!(isclose(value(&t1), 1.));
    assert_eq!(t1.unit, TimeUnit::MicroSecond);

    let t2 = HalfLife::parse("2h").unwrap();
    assert!(isclose(value(&t2), 2.));
    assert_eq!(t2.unit, TimeUnit::Hour);

    let t3 = HalfLife::parse("10y").unwrap();
    assert!(isclose(value(&t3), 10.));
    assert_eq!(t3.unit, TimeUnit::Year);
}

#[test]
fn parse_halflife() {
    let h1 = HalfLife::parse("1.23e-2s").unwrap();
    assert_eq!(h1, HalfLife { mantissa: 123, exponent: -4, unit: TimeUnit::Second });

    let h2 = HalfLife::parse("321 h").unwrap();
    assert_eq!(h2, HalfLife { mantissa: 321, exponent: 0, unit: TimeUnit::Hour });
}

#[test]
fn half_life_decimal_edge_cases() {
    assert_eq!(
        HalfLife::parse("2.7489 d"),
        Some(HalfLife { mantissa: 27489, exponent: -4, unit: TimeUnit::Day })
    );
    assert_eq!(
        HalfLife::parse("+4E+3m"),
        Some(HalfLife { mantissa: 4, exponent: 3, unit: TimeUnit::Minute })
    );
    assert_eq!(
        HalfLife::parse("2. ms"),
        Some(HalfLife { mantissa: 2, exponent: 0, unit: TimeUnit::MilliSecond })
    );
    assert_eq!(HalfLife::parse("-1 s"), None);
    assert_eq!(HalfLife::parse("99999999999 s"), None);
    assert_eq!(HalfLife::parse("1e999999 s"), None);
    assert_eq!(HalfLife::parse("s"), None);
}
