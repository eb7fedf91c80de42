use ecc_ansi_lib::{ansi_reset, apply_ansi, rgb, ColorError, Palette};

fn toks(s: &str) -> Vec<String> {
    s.split_whitespace().map(|t| t.to_string()).collect()
}

#[test]
fn rgb_formats_exactly() {
    assert_eq!(rgb(0, 10, 200), "\u{1B}[38;2;0;10;200m");
    assert_eq!(rgb(255, 255, 255), "\u{1B}[38;2;255;255;255m");
}

#[test]
fn reset_formats_exactly() {
    assert_eq!(ansi_reset(), "\u{1B}[m");
}

#[test]
fn expand_marker_and_reset() {
    let p = Palette::from_string_tokens(toks("r 1 2 3")).unwrap();
    let out = apply_ansi("a«r»b«»c", &p).unwrap();
    assert_eq!(out, format!("a{}b{}c", rgb(1, 2, 3), ansi_reset()));
}

#[test]
fn expand_escaped_opener() {
    let p = Palette::from_string_tokens(Vec::new()).unwrap();
    assert_eq!(apply_ansi("a««b", &p).unwrap(), "a«b");
}

#[test]
fn expand_standalone_closer_is_literal() {
    let p = Palette::from_string_tokens(Vec::new()).unwrap();
    assert_eq!(apply_ansi("a»b", &p).unwrap(), "a»b");
}

#[test]
fn expand_backslash_hides_marker() {
    let p = Palette::from_string_tokens(toks("r 1 2 3")).unwrap();
    assert_eq!(apply_ansi("\\«r»", &p).unwrap(), "\\«r»");
}

#[test]
fn expand_rgb_and_hex_markers() {
    let p = Palette::from_string_tokens(Vec::new()).unwrap();
    let out = apply_ansi("Okay«255,123,0»RBB«»««»«d23467»HEX«»", &p).unwrap();
    assert_eq!(
        out,
        "Okay\u{1B}[38;2;255;123;0mRBB\u{1B}[m«»\u{1B}[38;2;210;52;103mHEX\u{1B}[m"
    );
}

#[test]
fn expand_escaping_mix() {
    let p = Palette::from_string_tokens(toks("r ff0000")).unwrap();
    let out = apply_ansi("«««r»»»«»H««»i!««»«»", &p).unwrap();
    assert_eq!(
        out,
        "«\u{1B}[38;2;255;0;0m»»\u{1B}[mH«»i!«»\u{1B}[m"
    );
}

#[test]
fn expand_unterminated_marker_fails() {
    let p = Palette::from_string_tokens(toks("r 1 2 3")).unwrap();
    assert_eq!(apply_ansi("«r", &p).unwrap_err(), ColorError::UnterminatedColorCode);
}

#[test]
fn expand_unterminated_escape_fails() {
    let p = Palette::from_string_tokens(Vec::new()).unwrap();
    assert_eq!(apply_ansi("abc\\", &p).unwrap_err(), ColorError::UnterminatedEscape);
}

#[test]
fn expand_unresolved_marker_fails() {
    let p = Palette::from_string_tokens(Vec::new()).unwrap();
    assert_eq!(
        apply_ansi("«nope»", &p).unwrap_err(),
        ColorError::UnresolvedColor("nope".to_string())
    );
}

#[test]
fn expand_is_idempotent_without_markers() {
    let p = Palette::from_string_tokens(toks("r 1 2 3")).unwrap();
    let once = apply_ansi("a«r»b«»c \\x", &p).unwrap();
    assert!(!once.contains('«'));
    let twice = apply_ansi(&once, &p).unwrap();
    assert_eq!(twice, once);
}
