use ecc_ansi_lib::{apply_ansi, rgb, ColorError, Palette, wrap_arguments_with_color_codes};

fn toks(s: &str) -> Vec<String> {
    s.split_whitespace().map(|t| t.to_string()).collect()
}

#[test]
fn separated_placeholders_with_bare_reset() {
    let out = wrap_arguments_with_color_codes("{}_sep_{}_sep_{}", "", "«h»").unwrap();
    assert_eq!(out, "«h»{}«»_sep_«h»{}«»_sep_«h»{}«»");
}

#[test]
fn bordering_placeholders_share_markers() {
    let out = wrap_arguments_with_color_codes("{}{}{}", "", "«h»").unwrap();
    assert_eq!(out, "«h»{}{}{}«»");
}

#[test]
fn bordering_placeholders_with_normal_color() {
    let out = wrap_arguments_with_color_codes("{}{}{}", "«n»", "«h»").unwrap();
    assert_eq!(out, "«h»{}{}{}«»");
}

#[test]
fn escaped_braces_pass_through() {
    let out = wrap_arguments_with_color_codes("{{{}}}", "", "«h»").unwrap();
    assert_eq!(out, "{{«h»{}«»}}");
}

#[test]
fn separated_placeholders_with_normal_color() {
    let out = wrap_arguments_with_color_codes("{}_sep_{}_sep_{}", "«n»", "«h»").unwrap();
    assert_eq!(out, "«h»{}«n»_sep_«h»{}«n»_sep_«h»{}«»");
}

#[test]
fn one_placeholder_with_normal_color() {
    let out =
        wrap_arguments_with_color_codes("Arg {}.", "«normal»", "«highlight»").unwrap();
    assert_eq!(out, "«normal»Arg «highlight»{}«normal».«»");
}

#[test]
fn one_placeholder_with_reset_normal() {
    let out = wrap_arguments_with_color_codes("Arg {}. No final reset!", "«»", "«highlight»")
        .unwrap();
    assert_eq!(out, "«»Arg «highlight»{}«». No final reset!");
}

#[test]
fn no_placeholder_with_reset_normal() {
    let out = wrap_arguments_with_color_codes("Nothing to highlight.", "«»", "«h»").unwrap();
    assert_eq!(out, "«»Nothing to highlight.");
}

#[test]
fn no_placeholder_with_normal_color() {
    let out = wrap_arguments_with_color_codes("Nothing to highlight.", "«n»", "«h»").unwrap();
    assert_eq!(out, "«n»Nothing to highlight.«»");
}

#[test]
fn doubled_escaped_braces_around_placeholder() {
    let out =
        wrap_arguments_with_color_codes("Arg {{{{{}}}}}.", "«normal»", "«highlight»").unwrap();
    assert_eq!(out, "«normal»Arg {{{{«highlight»{}«normal»}}}}.«»");
}

#[test]
fn backslash_escapes_pass_through() {
    let out =
        wrap_arguments_with_color_codes("Arg \\\"{}\\\".", "«normal»", "«highlight»").unwrap();
    assert_eq!(out, "«normal»Arg \\\"«highlight»{}«normal»\\\".«»");
}

#[test]
fn empty_run_stays_empty() {
    let out = wrap_arguments_with_color_codes("", "«n»", "«h»").unwrap();
    assert_eq!(out, "");
}

#[test]
fn unterminated_placeholder_fails() {
    assert_eq!(
        wrap_arguments_with_color_codes("abc{def", "«n»", "«h»").unwrap_err(),
        ColorError::UnterminatedPlaceholder
    );
}

#[test]
fn unterminated_escape_fails() {
    assert_eq!(
        wrap_arguments_with_color_codes("x\\", "«n»", "«h»").unwrap_err(),
        ColorError::UnterminatedEscape
    );
}

#[test]
fn highlighted_run_expands_end_to_end() {
    let p = Palette::from_string_tokens(toks("h 1 2 3 n 4 5 6")).unwrap();
    let wrapped = wrap_arguments_with_color_codes("Arg {}.", "«n»", "«h»").unwrap();
    let out = apply_ansi(&wrapped, &p).unwrap();
    assert_eq!(
        out,
        format!("{}Arg {}{{}}{}.{}", rgb(4, 5, 6), rgb(1, 2, 3), rgb(4, 5, 6), "\u{1B}[m")
    );
}
