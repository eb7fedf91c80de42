use ecc_ansi_lib::{Channel, ColorError, Palette};

fn toks(s: &str) -> Vec<String> {
    s.split_whitespace().map(|t| t.to_string()).collect()
}

#[test]
fn build_rgb_entry() {
    let p = Palette::from_string_tokens(toks("r 255 0 0")).unwrap();
    assert_eq!(p.lookup("r").unwrap(), "\u{1B}[38;2;255;0;0m");
}

#[test]
fn build_hex_entry() {
    let p = Palette::from_string_tokens(toks("r ff0000")).unwrap();
    assert_eq!(p.lookup("r").unwrap(), "\u{1B}[38;2;255;0;0m");
}

#[test]
fn build_hex_entry_mixed_case() {
    let p = Palette::from_string_tokens(toks("sky 4FC5F8")).unwrap();
    assert_eq!(p.lookup("sky").unwrap(), "\u{1B}[38;2;79;197;248m");
}

#[test]
fn build_with_variables() {
    let p = Palette::from_string_tokens(toks("max = 255 zero = 0 r max zero zero")).unwrap();
    assert_eq!(p.lookup("r").unwrap(), "\u{1B}[38;2;255;0;0m");
}

#[test]
fn variable_redefinition_last_wins() {
    let p = Palette::from_string_tokens(toks("v = 10 v = 20 x v v v")).unwrap();
    assert_eq!(p.lookup("x").unwrap(), "\u{1B}[38;2;20;20;20m");
}

#[test]
fn duplicate_key_overwrites() {
    let p = Palette::from_string_tokens(toks("r 1 0 0 r 2 0 0")).unwrap();
    assert_eq!(p.lookup("r").unwrap(), "\u{1B}[38;2;2;0;0m");
}

#[test]
fn six_letter_variable_is_not_hex() {
    // A six-character channel token that names a variable is substituted,
    // not read as hex.
    let p = Palette::from_string_tokens(toks("bright = 200 x bright 0 0")).unwrap();
    assert_eq!(p.lookup("x").unwrap(), "\u{1B}[38;2;200;0;0m");
}

#[test]
fn invalid_key_fails() {
    let e = Palette::from_string_tokens(toks("1bad 0 0 0")).unwrap_err();
    assert_eq!(e, ColorError::InvalidKey("1bad".to_string()));
}

#[test]
fn unterminated_assignment_fails() {
    let e = Palette::from_string_tokens(toks("x =")).unwrap_err();
    assert_eq!(e, ColorError::UnterminatedAssignment("x".to_string()));
}

#[test]
fn invalid_variable_value_fails() {
    let e = Palette::from_string_tokens(toks("x = 300")).unwrap_err();
    assert_eq!(e, ColorError::InvalidVariableValue("300".to_string()));
}

#[test]
fn invalid_hex_digits_fail() {
    let e = Palette::from_string_tokens(toks("x zzzzzz")).unwrap_err();
    assert_eq!(e, ColorError::InvalidHexDigits("zzzzzz".to_string()));
}

#[test]
fn missing_channels_fail() {
    let e = Palette::from_string_tokens(toks("x 1 2")).unwrap_err();
    assert_eq!(e, ColorError::WrongChannelCount(Channel::Blue, "x".to_string()));
}

#[test]
fn bare_key_fails_on_first_channel() {
    let e = Palette::from_string_tokens(toks("x")).unwrap_err();
    assert_eq!(e, ColorError::WrongChannelCount(Channel::Red, "x".to_string()));
}

#[test]
fn invalid_channel_value_fails() {
    let e = Palette::from_string_tokens(toks("x 1 2 abc")).unwrap_err();
    assert_eq!(e, ColorError::InvalidChannelValue("abc".to_string()));
}

#[test]
fn empty_tokens_build_empty_palette() {
    let p = Palette::from_string_tokens(Vec::new()).unwrap();
    assert_eq!(p.lookup("1,2,3").unwrap(), "\u{1B}[38;2;1;2;3m");
}

#[test]
fn lookup_stored_key_returns_stored_code() {
    let p = Palette::from_string_tokens(toks("key 12 34 56")).unwrap();
    assert_eq!(p.lookup("key").unwrap(), "\u{1B}[38;2;12;34;56m");
}

#[test]
fn lookup_empty_is_reset() {
    let p = Palette::from_string_tokens(toks("r 1 2 3")).unwrap();
    assert_eq!(p.lookup("").unwrap(), "\u{1B}[m");
    assert_eq!(p.lookup("   ").unwrap(), "\u{1B}[m");
}

#[test]
fn lookup_hex_without_entry() {
    let p = Palette::from_string_tokens(Vec::new()).unwrap();
    assert_eq!(p.lookup("d23467").unwrap(), "\u{1B}[38;2;210;52;103m");
}

#[test]
fn lookup_trims_surrounding_whitespace() {
    let p = Palette::from_string_tokens(toks("r 9 8 7")).unwrap();
    assert_eq!(p.lookup("  r\t").unwrap(), "\u{1B}[38;2;9;8;7m");
}

#[test]
fn lookup_rgb_triple_with_spaces() {
    let p = Palette::from_string_tokens(Vec::new()).unwrap();
    assert_eq!(p.lookup("80, 255, 80").unwrap(), "\u{1B}[38;2;80;255;80m");
}

#[test]
fn lookup_six_char_triple_falls_through_hex() {
    // Six characters that are not hex digits still try the comma path.
    let p = Palette::from_string_tokens(Vec::new()).unwrap();
    assert_eq!(p.lookup("1,2,34").unwrap(), "\u{1B}[38;2;1;2;34m");
}

#[test]
fn lookup_unresolved_fails() {
    let p = Palette::from_string_tokens(Vec::new()).unwrap();
    let e = p.lookup("nosuch").unwrap_err();
    assert_eq!(e, ColorError::UnresolvedColor("nosuch".to_string()));
}

#[test]
fn lookup_bad_triple_channel_fails() {
    let p = Palette::from_string_tokens(Vec::new()).unwrap();
    let e = p.lookup("1,2,999").unwrap_err();
    assert_eq!(e, ColorError::InvalidChannelValue("999".to_string()));
}

#[test]
fn lookup_two_part_triple_is_unresolved() {
    let p = Palette::from_string_tokens(Vec::new()).unwrap();
    let e = p.lookup("1,2").unwrap_err();
    assert_eq!(e, ColorError::UnresolvedColor("1,2".to_string()));
}

#[test]
fn parse_hex_exact_code() {
    assert_eq!(Palette::parse_hex("4FC5F8").unwrap(), "\u{1B}[38;2;79;197;248m");
    assert_eq!(Palette::parse_hex("000000").unwrap(), "\u{1B}[38;2;0;0;0m");
}

#[test]
fn parse_hex_rejects_wrong_shapes() {
    assert_eq!(
        Palette::parse_hex("12345").unwrap_err(),
        ColorError::InvalidHexDigits("12345".to_string())
    );
    assert_eq!(
        Palette::parse_hex("+12345").unwrap_err(),
        ColorError::InvalidHexDigits("+12345".to_string())
    );
    assert_eq!(
        Palette::parse_hex("12345g").unwrap_err(),
        ColorError::InvalidHexDigits("12345g".to_string())
    );
}
