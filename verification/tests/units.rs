use convolve_rs::BrightnessUnit;

#[test]
fn test_parse_recognised() {
    assert_eq!(BrightnessUnit::parse("K"), Some(BrightnessUnit::Kelvin));
    assert_eq!(BrightnessUnit::parse(" k "), Some(BrightnessUnit::Kelvin));
    assert_eq!(BrightnessUnit::parse("'K'"), Some(BrightnessUnit::Kelvin));
    assert_eq!(BrightnessUnit::parse("Kelvin"), Some(BrightnessUnit::Kelvin));
    assert_eq!(BrightnessUnit::parse("Jy/beam"), Some(BrightnessUnit::JyPerBeam));
    assert_eq!(BrightnessUnit::parse("JY BEAM-1"), Some(BrightnessUnit::JyPerBeam));
}

#[test]
fn test_parse_unrecognised_is_none() {
    // Unknown / ambiguous units cannot be determined automatically.
    assert_eq!(BrightnessUnit::parse(""), None);
    assert_eq!(BrightnessUnit::parse("Jy/pixel"), None);
    assert_eq!(BrightnessUnit::parse("mJy"), None);
}

#[test]
fn test_from_bunit_falls_back_to_jy_per_beam() {
    // Recognised forms classify directly; unrecognised forms are taken as Jy/beam.
    assert_eq!(BrightnessUnit::from_bunit("K"), BrightnessUnit::Kelvin);
    assert_eq!(BrightnessUnit::from_bunit("Jy/beam"), BrightnessUnit::JyPerBeam);
    assert_eq!(BrightnessUnit::from_bunit("wat"), BrightnessUnit::JyPerBeam);
}

#[test]
fn case_and_quotes_do_not_change_the_unit() {
    for unit in ["K", "Kelvin", "Jy/beam", "JY BEAM-1", "jybeam", "mJy", "", " K "] {
        let plain = BrightnessUnit::parse(unit);
        assert_eq!(BrightnessUnit::parse(&unit.to_lowercase()), plain);
        assert_eq!(BrightnessUnit::parse(&unit.to_uppercase()), plain);
        assert_eq!(BrightnessUnit::parse(&format!("'{unit}'")), plain);
        assert_eq!(BrightnessUnit::parse(&format!(" '{unit} ' ")), plain);
    }
    assert_eq!(BrightnessUnit::parse("''K''"), Some(BrightnessUnit::Kelvin));
    // White space between two layers of quotes keeps the inner layer on.
    assert_eq!(BrightnessUnit::parse("' 'K' '"), None);
}
