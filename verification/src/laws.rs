use vstd::prelude::*;
use crate::ansi::{expand_at, expand_marker};
use crate::codes::{digit, reset_spec, rgb_spec};
use crate::errors::ErrModel;
use crate::palette::{
    build_at, color_value_spec, hex6_ok, hex_code_spec, lookup_spec, trim_spec, valid_key_spec,
};

verus! {

/// No character of `s` is `x`.
pub open spec fn free_of(s: Seq<char>, x: char) -> bool {
    forall|j: int| 0 <= j < s.len() ==> s[j] != x
}

/// A color code never carries a backslash or a marker opener, so expansion
/// output never re-escapes or re-opens through a resolved code.
pub open spec fn clean_code(c: Seq<char>) -> bool {
    free_of(c, '\\') && free_of(c, '«')
}

/// Every code stored in the palette is clean.
pub open spec fn pal_clean(pal: Map<Seq<char>, Seq<char>>) -> bool {
    forall|k: Seq<char>| #[trigger] pal.contains_key(k) ==> clean_code(pal[k])
}

/// Backslashes come in escape pairs all the way through: no lone backslash
/// ends the text.
pub open spec fn wf_esc(s: Seq<char>) -> bool
    decreases s.len(),
{
    if s.len() == 0 {
        true
    } else if s[0] == '\\' {
        s.len() >= 2 && wf_esc(s.skip(2))
    } else {
        wf_esc(s.skip(1))
    }
}

proof fn lemma_rgb_spec_clean(r: u8, g: u8, b: u8)
    ensures
        clean_code(rgb_spec(r, g, b)),
{
    let code = rgb_spec(r, g, b);
    assert forall|j: int| 0 <= j < code.len() implies code[j] != '\\' && code[j] != '«' by {
        assert(forall|d: int| digit(d) != '\\' && digit(d) != '«');
    }
}

proof fn lemma_reset_spec_clean()
    ensures
        clean_code(reset_spec()),
{
}

/// Whatever a lookup resolves to is a clean code, provided the palette holds
/// only clean codes.
proof fn lemma_lookup_clean(pal: Map<Seq<char>, Seq<char>>, text: Seq<char>)
    requires
        pal_clean(pal),
        lookup_spec(pal, text) is Ok,
    ensures
        clean_code(lookup_spec(pal, text)->Ok_0),
{
    let t = trim_spec(text);
    if t.len() == 0 {
        lemma_reset_spec_clean();
    } else if pal.contains_key(t) {
    } else if hex6_ok(t) {
        lemma_rgb_spec_clean(
            crate::palette::hex_byte(t[0], t[1]) as u8,
            crate::palette::hex_byte(t[2], t[3]) as u8,
            crate::palette::hex_byte(t[4], t[5]) as u8,
        );
    } else {
        let parts = crate::palette::split_commas(t);
        if parts.len() == 3 {
            let p0 = trim_spec(parts[0]);
            let p1 = trim_spec(parts[1]);
            let p2 = trim_spec(parts[2]);
            match (
                crate::palette::parse_byte_spec(p0),
                crate::palette::parse_byte_spec(p1),
                crate::palette::parse_byte_spec(p2),
            ) {
                (Some(r), Some(g), Some(b)) => {
                    lemma_rgb_spec_clean(r, g, b);
                },
                _ => {},
            }
        }
    }
}

/// Whatever a color entry's value tokens yield is a clean code.
proof fn lemma_color_value_clean(
    toks: Seq<Seq<char>>,
    j: int,
    vars: Map<Seq<char>, u8>,
    key: Seq<char>,
)
    requires
        color_value_spec(toks, j, vars, key) is Ok,
    ensures
        clean_code(color_value_spec(toks, j, vars, key)->Ok_0),
{
    if crate::palette::hex_path(toks, j, vars) {
        let t = toks[j];
        if hex6_ok(t) {
            lemma_rgb_spec_clean(
                crate::palette::hex_byte(t[0], t[1]) as u8,
                crate::palette::hex_byte(t[2], t[3]) as u8,
                crate::palette::hex_byte(t[4], t[5]) as u8,
            );
        }
    } else {
        match (
            crate::palette::channel_spec(toks, j, vars, key, crate::errors::Channel::Red),
            crate::palette::channel_spec(toks, j + 1, vars, key, crate::errors::Channel::Green),
            crate::palette::channel_spec(toks, j + 2, vars, key, crate::errors::Channel::Blue),
        ) {
            (Ok(r), Ok(g), Ok(b)) => {
                lemma_rgb_spec_clean(r, g, b);
            },
            _ => {},
        }
    }
}

/// Every key stored in the palette is a well-formed key.
pub open spec fn pal_keys_valid(pal: Map<Seq<char>, Seq<char>>) -> bool {
    forall|k: Seq<char>| #[trigger] pal.contains_key(k) ==> valid_key_spec(k)
}

/// Every palette that construction yields holds only well-formed keys, so
/// `lemma_lookup_stored_key` applies to each of its entries.
pub proof fn lemma_build_keys_valid(
    toks: Seq<Seq<char>>,
    i: int,
    vars: Map<Seq<char>, u8>,
    pal: Map<Seq<char>, Seq<char>>,
)
    requires
        pal_keys_valid(pal),
        build_at(toks, i, vars, pal) is Ok,
    ensures
        pal_keys_valid(build_at(toks, i, vars, pal)->Ok_0),
    decreases crate::palette::toks_left(toks, i),
{
    if i >= toks.len() {
    } else {
        let key = toks[i];
        if !valid_key_spec(key) {
        } else if i + 1 < toks.len() && toks[i + 1] == seq!['='] {
            if i + 2 < toks.len() {
                match crate::palette::parse_byte_spec(toks[i + 2]) {
                    Some(v) => {
                        lemma_build_keys_valid(toks, i + 3, vars.insert(key, v), pal);
                    },
                    None => {},
                }
            }
        } else {
            match color_value_spec(toks, i + 1, vars, key) {
                Err(_) => {},
                Ok(code) => {
                    let pal2 = pal.insert(key, code);
                    assert(pal_keys_valid(pal2));
                    lemma_build_keys_valid(
                        toks,
                        if crate::palette::hex_path(toks, i + 1, vars) {
                            i + 2
                        } else {
                            i + 4
                        },
                        vars,
                        pal2,
                    );
                },
            }
        }
    }
}

/// Every palette that construction yields holds only clean codes.
pub proof fn lemma_build_clean(
    toks: Seq<Seq<char>>,
    i: int,
    vars: Map<Seq<char>, u8>,
    pal: Map<Seq<char>, Seq<char>>,
)
    requires
        pal_clean(pal),
        build_at(toks, i, vars, pal) is Ok,
    ensures
        pal_clean(build_at(toks, i, vars, pal)->Ok_0),
    decreases crate::palette::toks_left(toks, i),
{
    if i >= toks.len() {
    } else {
        let key = toks[i];
        if !valid_key_spec(key) {
        } else if i + 1 < toks.len() && toks[i + 1] == seq!['='] {
            if i + 2 < toks.len() {
                match crate::palette::parse_byte_spec(toks[i + 2]) {
                    Some(v) => {
                        lemma_build_clean(toks, i + 3, vars.insert(key, v), pal);
                    },
                    None => {},
                }
            }
        } else {
            match color_value_spec(toks, i + 1, vars, key) {
                Err(_) => {},
                Ok(code) => {
                    lemma_color_value_clean(toks, i + 1, vars, key);
                    let pal2 = pal.insert(key, code);
                    assert(pal_clean(pal2));
                    lemma_build_clean(
                        toks,
                        if crate::palette::hex_path(toks, i + 1, vars) {
                            i + 2
                        } else {
                            i + 4
                        },
                        vars,
                        pal2,
                    );
                },
            }
        }
    }
}

proof fn lemma_wf_concat_clean(code: Seq<char>, t: Seq<char>)
    requires
        free_of(code, '\\'),
        wf_esc(t),
    ensures
        wf_esc(code + t),
    decreases code.len(),
{
    if code.len() == 0 {
        assert(code + t =~= t);
    } else {
        assert((code + t)[0] == code[0]);
        assert((code + t).skip(1) =~= code.skip(1) + t);
        assert(free_of(code.skip(1), '\\')) by {
            assert(forall|j: int|
                0 <= j < code.skip(1).len() ==> code.skip(1)[j] == code[j + 1]);
        }
        lemma_wf_concat_clean(code.skip(1), t);
    }
}

/// Expansion output keeps its backslashes in escape pairs.
proof fn lemma_expand_wf(s: Seq<char>, i: int, pal: Map<Seq<char>, Seq<char>>)
    requires
        pal_clean(pal),
        expand_at(s, i, pal) is Ok,
    ensures
        wf_esc(expand_at(s, i, pal)->Ok_0),
    decreases crate::ansi::chars_left(s, i), 1int,
{
    if i >= s.len() {
    } else if s[i] == '\\' {
        if i + 1 < s.len() {
            lemma_expand_wf(s, i + 2, pal);
            let t2 = expand_at(s, i + 2, pal)->Ok_0;
            let t = seq![s[i], s[i + 1]] + t2;
            assert(t[0] == '\\');
            assert(t.len() >= 2);
            assert(t.skip(2) =~= t2);
        }
    } else if s[i] == '«' {
        if i + 1 < s.len() && s[i + 1] == '«' {
            lemma_expand_wf(s, i + 2, pal);
            let t2 = expand_at(s, i + 2, pal)->Ok_0;
            let t = seq!['«'] + t2;
            assert(t[0] != '\\');
            assert(t.skip(1) =~= t2);
        } else {
            lemma_marker_wf(s, i + 1, i + 1, pal);
        }
    } else {
        lemma_expand_wf(s, i + 1, pal);
        let t2 = expand_at(s, i + 1, pal)->Ok_0;
        let t = seq![s[i]] + t2;
        assert(t[0] == s[i] && s[i] != '\\');
        assert(t.skip(1) =~= t2);
    }
}

proof fn lemma_marker_wf(s: Seq<char>, start: int, k: int, pal: Map<Seq<char>, Seq<char>>)
    requires
        pal_clean(pal),
        expand_marker(s, start, k, pal) is Ok,
    ensures
        wf_esc(expand_marker(s, start, k, pal)->Ok_0),
    decreases crate::ansi::chars_left(s, k), 0int,
{
    if k >= s.len() {
    } else if s[k] == '»' {
        match lookup_spec(pal, s.subrange(start, k)) {
            Ok(code) => {
                lemma_lookup_clean(pal, s.subrange(start, k));
                lemma_expand_wf(s, k + 1, pal);
                lemma_wf_concat_clean(code, expand_at(s, k + 1, pal)->Ok_0);
            },
            Err(_) => {},
        }
    } else {
        lemma_marker_wf(s, start, k + 1, pal);
    }
}

/// A text whose backslashes pair up and which holds no marker opener
/// expands to itself.
proof fn lemma_expand_copies(t: Seq<char>, i: int, pal: Map<Seq<char>, Seq<char>>)
    requires
        0 <= i <= t.len(),
        wf_esc(t.skip(i)),
        free_of(t, '«'),
    ensures
        expand_at(t, i, pal) == Ok::<Seq<char>, ErrModel>(t.skip(i)),
    decreases t.len() - i,
{
    if i >= t.len() {
        assert(t.skip(i) =~= Seq::<char>::empty());
    } else if t[i] == '\\' {
        assert(t.skip(i)[0] == t[i]);
        assert(t.skip(i).len() >= 2);
        assert(t.skip(i).skip(2) =~= t.skip(i + 2));
        lemma_expand_copies(t, i + 2, pal);
        assert(seq![t[i], t[i + 1]] + t.skip(i + 2) =~= t.skip(i));
    } else {
        assert(t[i] != '«');
        assert(t.skip(i)[0] == t[i]);
        assert(t.skip(i).skip(1) =~= t.skip(i + 1));
        lemma_expand_copies(t, i + 1, pal);
        assert(seq![t[i]] + t.skip(i + 1) =~= t.skip(i));
    }
}

/// Looking up a key that the palette stores returns exactly the stored
/// code: a well-formed key needs no trimming, is not empty, and an exact
/// match comes before the hex and RGB readings.
pub proof fn lemma_lookup_stored_key(pal: Map<Seq<char>, Seq<char>>, k: Seq<char>)
    requires
        valid_key_spec(k),
        pal.contains_key(k),
    ensures
        lookup_spec(pal, k) == Ok::<Seq<char>, ErrModel>(pal[k]),
{
    assert(crate::palette::valid_key_char(k[0]));
    assert(crate::palette::valid_key_char(k[k.len() - 1]));
    assert(!crate::helpers::is_space_spec(k[0]));
    assert(!crate::helpers::is_space_spec(k[k.len() - 1]));
    assert(trim_spec(k) == k);
}

/// Looking up a six-hex-digit text that is not a stored key returns the
/// hex-derived code, palette or no palette.
pub proof fn lemma_lookup_hex(pal: Map<Seq<char>, Seq<char>>, k: Seq<char>)
    requires
        hex6_ok(k),
        !pal.contains_key(k),
    ensures
        lookup_spec(pal, k) == Ok::<Seq<char>, ErrModel>(hex_code_spec(k)),
{
    assert(crate::palette::is_hex_digit(k[0]));
    assert(crate::palette::is_hex_digit(k[5]));
    assert(!crate::helpers::is_space_spec(k[0]));
    assert(!crate::helpers::is_space_spec(k[5]));
    assert(trim_spec(k) == k);
}

/// Looking up the empty text yields the bare reset code, whatever the
/// palette holds.
pub proof fn lemma_lookup_empty(pal: Map<Seq<char>, Seq<char>>)
    ensures
        lookup_spec(pal, Seq::<char>::empty()) == Ok::<Seq<char>, ErrModel>(reset_spec()),
{
    assert(trim_spec(Seq::<char>::empty()).len() == 0);
}

/// Expansion is idempotent on its own output when no marker opener is left:
/// expanding such an output changes nothing. (An output that still holds a
/// `«` — possible only through the `\«` escape — is outside this statement.)
pub proof fn lemma_expand_idempotent(
    s: Seq<char>,
    t: Seq<char>,
    pal: Map<Seq<char>, Seq<char>>,
)
    requires
        pal_clean(pal),
        expand_at(s, 0, pal) == Ok::<Seq<char>, ErrModel>(t),
        free_of(t, '«'),
    ensures
        expand_at(t, 0, pal) == Ok::<Seq<char>, ErrModel>(t),
{
    lemma_expand_wf(s, 0, pal);
    assert(t.skip(0) =~= t);
    lemma_expand_copies(t, 0, pal);
}

} // verus!
