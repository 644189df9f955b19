use yapg::CharsetName::{
    Alpha, AlphaLower, AlphaUpper, Delim, Mathops, MiscSpecial, Numeric, Prose, Special,
};
use yapg::{
    charset_alpha_lower, charset_alpha_upper, charset_delim, charset_mathops,
    charset_misc_special, charset_numeric, charset_prose, CharsetError, CharsetName, CharsetSpec,
};

#[test]
fn parsing_charset_names() {
    // atomic
    assert_eq!(CharsetName::try_from('U').unwrap(), AlphaUpper);
    assert_eq!(CharsetName::try_from('L').unwrap(), AlphaLower);
    assert_eq!(CharsetName::try_from('N').unwrap(), Numeric);
    assert_eq!(CharsetName::try_from('M').unwrap(), Mathops);
    assert_eq!(CharsetName::try_from('P').unwrap(), Prose);
    assert_eq!(CharsetName::try_from('D').unwrap(), Delim);
    assert_eq!(CharsetName::try_from('X').unwrap(), MiscSpecial);
    // compound
    assert_eq!(CharsetName::try_from('A').unwrap(), Alpha);
    assert_eq!(CharsetName::try_from('S').unwrap(), Special);
    // invalid input
    assert!(CharsetName::try_from('Z').is_err());
}

#[test]
fn parsing_charset_specs() {
    let (alpha, alnum) = {
        let mut alpha = [charset_alpha_upper(), charset_alpha_lower()].concat();
        let mut alnum = [charset_alpha_upper(), charset_alpha_lower(), charset_numeric()].concat();
        alpha.sort();
        alnum.sort();
        (alpha, alnum)
    };

    assert_eq!("LU".parse::<CharsetSpec>().unwrap().construct(), alpha);
    assert_eq!("LUN".parse::<CharsetSpec>().unwrap().construct(), alnum);
}

#[test]
fn adding_charset_to_spec() {
    let mut spec = CharsetSpec::empty();
    spec += Mathops;
    assert_eq!(spec.construct(), vec!['*', '+', '-', '/', '<', '=', '>'])
}

#[test]
fn subtracting_charset_from_spec() {
    let mut spec = CharsetSpec::std64();
    spec -= Alpha;
    spec -= Numeric;
    assert_eq!(spec.construct(), vec!['-', '_'])
}

#[test]
fn adding_chars_to_spec() {
    let mut spec = CharsetSpec::empty();
    spec += 'a';
    spec += 'b';
    spec += 'c';
    spec += 'd';
    assert_eq!(spec.construct(), vec!['a', 'b', 'c', 'd']);
}

#[test]
fn adding_strings_to_spec() {
    let mut spec = CharsetSpec::empty();
    spec += "abcd";
    assert_eq!(spec.construct(), vec!['a', 'b', 'c', 'd']);
}

fn is_strictly_ascending(v: &[char]) -> bool {
    v.windows(2).all(|w| (w[0] as u32) < (w[1] as u32))
}

#[test]
fn preset_sizes() {
    assert_eq!(CharsetSpec::std64().construct().len(), 64);
    assert_eq!(CharsetSpec::printable_ascii().construct().len(), 95);
}

#[test]
fn printable_preset_is_printable_ascii() {
    let expected: Vec<char> = (0x20u8..0x7f).map(|b| b as char).collect();
    assert_eq!(CharsetSpec::printable_ascii().construct(), expected);
}

#[test]
fn parse_lower_upper_has_all_letters() {
    let r = CharsetSpec::parse("LU").unwrap().construct();
    assert_eq!(r.len(), 52);
    let mut expected = [charset_alpha_lower(), charset_alpha_upper()].concat();
    expected.sort();
    assert_eq!(r, expected);
}

#[test]
fn empty_spec_constructs_nothing() {
    assert_eq!(CharsetSpec::empty().construct().len(), 0);
}

#[test]
fn parse_rejects_unknown_symbol() {
    assert_eq!(CharsetSpec::parse("Z").unwrap_err(), CharsetError::InvalidInput('Z'));
    assert_eq!(CharsetSpec::parse("LUZN").unwrap_err(), CharsetError::InvalidInput('Z'));
    assert_eq!(CharsetSpec::parse("L?").unwrap_err(), CharsetError::InvalidInput('?'));
    assert_eq!(CharsetName::try_from('u'), Err(CharsetError::InvalidInput('u')));
}

#[test]
fn parse_empty_string_gives_empty_spec() {
    assert_eq!(CharsetSpec::parse("").unwrap().construct(), Vec::<char>::new());
}

#[test]
fn parsed_alphabets_are_strictly_ascending() {
    for s in ["", "L", "SA", "NXDPMUL", "LLUU", "S", "A"] {
        let r = CharsetSpec::parse(s).unwrap().construct();
        assert!(is_strictly_ascending(&r), "{}", s);
    }
    assert_eq!(CharsetSpec::parse("SA").unwrap().construct().len(), 85);
    assert_eq!(CharsetSpec::parse("SAN").unwrap().construct().len(), 95);
}

#[test]
fn add_order_does_not_matter() {
    let mut a = CharsetSpec::empty();
    a += AlphaUpper;
    a += AlphaLower;
    let mut b = CharsetSpec::empty();
    b += AlphaLower;
    b += AlphaUpper;
    assert_eq!(a.construct(), b.construct());

    let mut c = CharsetSpec::empty();
    c += "zay";
    c += Numeric;
    let mut d = CharsetSpec::empty();
    d += Numeric;
    d += 'y';
    d += "az";
    assert_eq!(c.construct(), d.construct());
}

#[test]
fn remove_compound_clears_all_its_groups() {
    let mut spec = CharsetSpec::empty();
    spec += Mathops;
    spec += Numeric;
    spec += Special;
    spec -= Special;
    assert_eq!(spec.construct(), charset_numeric());
}

#[test]
fn removing_never_added_group_changes_nothing() {
    let mut spec = CharsetSpec::empty();
    spec += Numeric;
    spec -= Alpha;
    spec -= Delim;
    assert_eq!(spec.construct(), charset_numeric());
}

#[test]
fn additions_are_deduplicated_and_merged() {
    let mut spec = CharsetSpec::empty();
    spec += "ddcba";
    spec += 'a';
    spec += Numeric;
    spec += "9z";
    assert_eq!(
        spec.construct(),
        vec!['0', '1', '2', '3', '4', '5', '6', '7', '8', '9', 'a', 'b', 'c', 'd', 'z']
    );
}

#[test]
fn special_groups() {
    let mut spec = CharsetSpec::empty();
    spec += Special;
    let mut expected =
        [charset_mathops(), charset_prose(), charset_delim(), charset_misc_special()].concat();
    expected.sort();
    assert_eq!(spec.construct(), expected);
    assert_eq!(expected.len(), 33);
}

#[test]
fn unicode_additions() {
    let mut spec = CharsetSpec::empty();
    spec += "äß€a";
    assert_eq!(spec.construct(), vec!['a', 'ß', 'ä', '€']);
}
