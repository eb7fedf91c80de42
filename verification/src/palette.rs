use vstd::prelude::*;
use vstd::string::StrSliceExecFns;
use crate::codes::{rgb, rgb_spec, reset_spec, ansi_reset};
use crate::errors::{Channel, ColorError, ErrModel, result_matches};
use crate::helpers::{chars_to_string, eq_str, is_space_char, is_space_spec, to_char_vec};

verus! {

// ---------------------------------------------------------------------------
// Token classes
// ---------------------------------------------------------------------------
/// The characters a palette key or variable name may consist of.
pub open spec fn valid_key_char(c: char) -> bool {
    c == '_' || ('a' as u32 <= c as u32 && c as u32 <= 'z' as u32) || ('A' as u32 <= c as u32
        && c as u32 <= 'Z' as u32)
}

/// A key is a non-empty string of letters and underscores.
pub open spec fn valid_key_spec(s: Seq<char>) -> bool {
    s.len() > 0 && (forall|i: int| 0 <= i < s.len() ==> valid_key_char(s[i]))
}

fn valid_key(s: &String) -> (r: bool)
    ensures
        r == valid_key_spec(s@),
{
    let n: usize = s.as_str().unicode_len();
    if n == 0 {
        return false;
    }
    let mut i: usize = 0;
    while i < n
        invariant
            n == s@.len(),
            i <= n,
            forall|k: int| 0 <= k < i ==> valid_key_char(s@[k]),
        decreases n - i,
    {
        let c = s.as_str().get_char(i);
        let u = c as u32;
        if !(c == '_' || (97 <= u && u <= 122) || (65 <= u && u <= 90)) {
            return false;
        }
        i = i + 1;
    }
    true
}

/// True for `=`, the single token that starts a variable assignment.
fn is_eq_token(s: &String) -> (r: bool)
    ensures
        r == (s@ == seq!['=']),
{
    if s.as_str().unicode_len() != 1 {
        return false;
    }
    let r = s.as_str().get_char(0) == '=';
    proof {
        if s@[0] == '=' {
            assert(s@ =~= seq!['=']);
        }
    }
    r
}

// ---------------------------------------------------------------------------
// Byte tokens
// ---------------------------------------------------------------------------
pub open spec fn is_digit(c: char) -> bool {
    '0' as u32 <= c as u32 && c as u32 <= '9' as u32
}

pub open spec fn digit_val(c: char) -> int {
    c as u32 - '0' as u32
}

pub open spec fn all_digits(s: Seq<char>) -> bool {
    forall|i: int| 0 <= i < s.len() ==> is_digit(s[i])
}

/// The number a digit string denotes.
pub open spec fn dec_value(s: Seq<char>) -> int
    decreases s.len(),
{
    if s.len() == 0 {
        0
    } else {
        dec_value(s.drop_last()) * 10 + digit_val(s.last())
    }
}

/// What parsing a token as a byte 0-255 yields: digits only, value in range.
pub open spec fn parse_byte_spec(s: Seq<char>) -> Option<u8> {
    if s.len() > 0 && all_digits(s) && 0 <= dec_value(s) <= 255 {
        Some(dec_value(s) as u8)
    } else {
        None
    }
}

proof fn lemma_dec_value_nonneg(s: Seq<char>)
    requires
        all_digits(s),
    ensures
        dec_value(s) >= 0,
    decreases s.len(),
{
    if s.len() > 0 {
        assert(all_digits(s.drop_last()));
        lemma_dec_value_nonneg(s.drop_last());
    }
}

/// A digit string is worth at least any of its prefixes.
proof fn lemma_dec_value_prefix(s: Seq<char>, i: int)
    requires
        all_digits(s),
        0 <= i <= s.len(),
    ensures
        dec_value(s.take(i)) <= dec_value(s),
    decreases s.len() - i,
{
    if i < s.len() {
        assert(s.take(i + 1).drop_last() =~= s.take(i));
        assert(s.take(i + 1).last() == s[i]);
        assert(all_digits(s.take(i)));
        lemma_dec_value_nonneg(s.take(i));
        assert(dec_value(s.take(i + 1)) == dec_value(s.take(i)) * 10 + digit_val(s[i]));
        lemma_dec_value_prefix(s, i + 1);
    } else {
        assert(s.take(i) =~= s);
    }
}

/// Parses a byte 0-255 written in decimal digits.
fn parse_byte(s: &str) -> (r: Option<u8>)
    ensures
        r == parse_byte_spec(s@),
{
    let n: usize = s.unicode_len();
    if n == 0 {
        return None;
    }
    let mut acc: u32 = 0;
    let mut i: usize = 0;
    while i < n
        invariant
            n == s@.len(),
            i <= n,
            all_digits(s@.take(i as int)),
            acc == dec_value(s@.take(i as int)),
            acc <= 255,
        decreases n - i,
    {
        let c = s.get_char(i);
        let u = c as u32;
        if !(48 <= u && u <= 57) {
            return None;
        }
        acc = acc * 10 + (u - 48);
        i = i + 1;
        proof {
            assert(s@.take(i as int).drop_last() =~= s@.take(i as int - 1));
            assert(s@.take(i as int).last() == s@[i as int - 1]);
        }
        if acc > 255 {
            proof {
                if all_digits(s@) {
                    assert(s@.take(i as int) =~= s@.take(i as int));
                    lemma_dec_value_prefix(s@, i as int);
                }
            }
            return None;
        }
    }
    proof {
        assert(s@.take(n as int) =~= s@);
    }
    Some(acc as u8)
}

// ---------------------------------------------------------------------------
// Hex tokens
// ---------------------------------------------------------------------------
pub open spec fn is_hex_digit(c: char) -> bool {
    is_digit(c) || ('a' as u32 <= c as u32 && c as u32 <= 'f' as u32) || ('A' as u32 <= c as u32
        && c as u32 <= 'F' as u32)
}

pub open spec fn hex_digit_val(c: char) -> int {
    if is_digit(c) {
        c as u32 - '0' as u32
    } else if 'a' as u32 <= c as u32 && c as u32 <= 'f' as u32 {
        c as u32 - 'a' as u32 + 10
    } else {
        c as u32 - 'A' as u32 + 10
    }
}

/// A well-formed hex color token: exactly six hex digits.
pub open spec fn hex6_ok(s: Seq<char>) -> bool {
    s.len() == 6 && (forall|i: int| 0 <= i < s.len() ==> is_hex_digit(s[i]))
}

/// The value of a two-hex-digit pair.
pub open spec fn hex_byte(a: char, b: char) -> int {
    hex_digit_val(a) * 16 + hex_digit_val(b)
}

/// The ANSI code a six-hex-digit token denotes: its three byte pairs as RGB.
pub open spec fn hex_code_spec(s: Seq<char>) -> Seq<char>
    recommends
        hex6_ok(s),
{
    rgb_spec(hex_byte(s[0], s[1]) as u8, hex_byte(s[2], s[3]) as u8, hex_byte(s[4], s[5]) as u8)
}

fn hex_digit(c: char) -> (r: Option<u8>)
    ensures
        match r {
            Some(v) => is_hex_digit(c) && v == hex_digit_val(c) && v < 16,
            None => !is_hex_digit(c),
        },
{
    let u = c as u32;
    if 48 <= u && u <= 57 {
        Some((u - 48) as u8)
    } else if 97 <= u && u <= 102 {
        Some((u - 87) as u8)
    } else if 65 <= u && u <= 70 {
        Some((u - 55) as u8)
    } else {
        None
    }
}

// ---------------------------------------------------------------------------
// Association tables
// ---------------------------------------------------------------------------
/// The map an association list denotes; a later entry overrides an earlier
/// one with the same key.
pub open spec fn assoc_map<V>(s: Seq<(Seq<char>, V)>) -> Map<Seq<char>, V>
    decreases s.len(),
{
    if s.len() == 0 {
        Map::empty()
    } else {
        assoc_map(s.drop_last()).insert(s.last().0, s.last().1)
    }
}

proof fn lemma_assoc_map_found<V>(s: Seq<(Seq<char>, V)>, j: int, k: Seq<char>)
    requires
        0 <= j < s.len(),
        s[j].0 == k,
        forall|idx: int| j < idx < s.len() ==> s[idx].0 != k,
    ensures
        assoc_map(s).contains_key(k),
        assoc_map(s)[k] == s[j].1,
    decreases s.len(),
{
    if j < s.len() - 1 {
        lemma_assoc_map_found(s.drop_last(), j, k);
    }
}

proof fn lemma_assoc_map_absent<V>(s: Seq<(Seq<char>, V)>, k: Seq<char>)
    requires
        forall|idx: int| 0 <= idx < s.len() ==> s[idx].0 != k,
    ensures
        !assoc_map(s).contains_key(k),
    decreases s.len(),
{
    if s.len() > 0 {
        lemma_assoc_map_absent(s.drop_last(), k);
    }
}

proof fn lemma_assoc_map_push<V>(s: Seq<(Seq<char>, V)>, k: Seq<char>, v: V)
    ensures
        assoc_map(s.push((k, v))) == assoc_map(s).insert(k, v),
{
    assert(s.push((k, v)).drop_last() =~= s);
    assert(s.push((k, v)).last() == (k, v));
}

/// The character sequences of a variable table's entries.
pub open spec fn var_entry_views(s: Seq<(String, u8)>) -> Seq<(Seq<char>, u8)> {
    s.map_values(|p: (String, u8)| (p.0@, p.1))
}

/// The palette-construction variables: names bound to byte values.
/// Modeled as the map from name to the value bound last.
#[derive(Debug)]
pub struct VarTable {
    entries: Vec<(String, u8)>,
}

impl View for VarTable {
    type V = Map<Seq<char>, u8>;

    closed spec fn view(&self) -> Map<Seq<char>, u8> {
        assoc_map(var_entry_views(self.entries@))
    }
}

impl VarTable {
    /// A table with no variables.
    pub fn new() -> (v: VarTable)
        ensures
            v@ == Map::<Seq<char>, u8>::empty(),
    {
        let v = VarTable { entries: Vec::new() };
        proof {
            assert(var_entry_views(v.entries@) =~= Seq::<(Seq<char>, u8)>::empty());
        }
        v
    }

    /// Binds a name to a value; a later binding wins.
    pub fn insert(&mut self, name: String, value: u8)
        ensures
            final(self)@ == old(self)@.insert(name@, value),
    {
        let ghost k = name@;
        self.entries.push((name, value));
        proof {
            assert(var_entry_views(self.entries@) =~= var_entry_views(old(self).entries@).push(
                (k, value),
            ));
            lemma_assoc_map_push(var_entry_views(old(self).entries@), k, value);
        }
    }

    /// The value bound to a name, if any.
    pub fn get(&self, name: &str) -> (r: Option<u8>)
        ensures
            match r {
                Some(v) => self@.contains_key(name@) && self@[name@] == v,
                None => !self@.contains_key(name@),
            },
    {
        let mut j: usize = self.entries.len();
        while j > 0
            invariant
                j <= self.entries@.len(),
                forall|idx: int|
                    j <= idx < self.entries@.len() ==> var_entry_views(self.entries@)[idx].0
                        != name@,
            decreases j,
        {
            j = j - 1;
            if eq_str(self.entries[j].0.as_str(), name) {
                proof {
                    lemma_assoc_map_found(var_entry_views(self.entries@), j as int, name@);
                }
                return Some(self.entries[j].1);
            }
        }
        proof {
            lemma_assoc_map_absent(var_entry_views(self.entries@), name@);
        }
        None
    }

    /// Whether a name is bound.
    pub fn contains(&self, name: &str) -> (r: bool)
        ensures
            r == self@.contains_key(name@),
    {
        match self.get(name) {
            Some(_) => true,
            None => false,
        }
    }
}

/// The character sequences of a palette's entries.
pub open spec fn pal_entry_views(s: Seq<(String, String)>) -> Seq<(Seq<char>, Seq<char>)> {
    s.map_values(|p: (String, String)| (p.0@, p.1@))
}

/// A finished, immutable palette: color keys bound to ANSI color codes.
/// Modeled as the map from key to the code defined last.
#[derive(Debug)]
pub struct Palette {
    entries: Vec<(String, String)>,
}

impl View for Palette {
    type V = Map<Seq<char>, Seq<char>>;

    closed spec fn view(&self) -> Map<Seq<char>, Seq<char>> {
        assoc_map(pal_entry_views(self.entries@))
    }
}

impl Palette {
    /// The stored code of an exactly matching key, cloned out.
    fn find_code(&self, key: &str) -> (r: Option<String>)
        ensures
            match r {
                Some(c) => self@.contains_key(key@) && self@[key@] == c@,
                None => !self@.contains_key(key@),
            },
    {
        let mut j: usize = self.entries.len();
        while j > 0
            invariant
                j <= self.entries@.len(),
                forall|idx: int|
                    j <= idx < self.entries@.len() ==> pal_entry_views(self.entries@)[idx].0
                        != key@,
            decreases j,
        {
            j = j - 1;
            if eq_str(self.entries[j].0.as_str(), key) {
                proof {
                    lemma_assoc_map_found(pal_entry_views(self.entries@), j as int, key@);
                }
                return Some(self.entries[j].1.clone());
            }
        }
        proof {
            lemma_assoc_map_absent(pal_entry_views(self.entries@), key@);
        }
        None
    }

    /// Parses a six-hex-digit color token into its ANSI code.
    pub fn parse_hex(format: &str) -> (r: Result<String, ColorError>)
        ensures
            match r {
                Ok(s) => hex6_ok(format@) && s@ == hex_code_spec(format@),
                Err(e) => !hex6_ok(format@) && e@ == ErrModel::InvalidHexDigits(format@),
            },
    {
        if format.unicode_len() != 6 {
            return Err(ColorError::InvalidHexDigits(format.to_owned()));
        }
        let d0 = hex_digit(format.get_char(0));
        let d1 = hex_digit(format.get_char(1));
        let d2 = hex_digit(format.get_char(2));
        let d3 = hex_digit(format.get_char(3));
        let d4 = hex_digit(format.get_char(4));
        let d5 = hex_digit(format.get_char(5));
        match (d0, d1, d2, d3, d4, d5) {
            (Some(h0), Some(h1), Some(h2), Some(h3), Some(h4), Some(h5)) => {
                let r = rgb(h0 * 16 + h1, h2 * 16 + h3, h4 * 16 + h5);
                Ok(r)
            },
            _ => Err(ColorError::InvalidHexDigits(format.to_owned())),
        }
    }
}

// ---------------------------------------------------------------------------
// Palette construction
// ---------------------------------------------------------------------------
/// What one channel token yields: a missing token names the channel and the
/// owning key, a known variable substitutes its value, anything else must be
/// a byte.
pub open spec fn channel_spec(
    toks: Seq<Seq<char>>,
    j: int,
    vars: Map<Seq<char>, u8>,
    key: Seq<char>,
    ch: Channel,
) -> Result<u8, ErrModel> {
    if j >= toks.len() {
        Err(ErrModel::WrongChannelCount(ch, key))
    } else if vars.contains_key(toks[j]) {
        Ok(vars[toks[j]])
    } else {
        match parse_byte_spec(toks[j]) {
            Some(v) => Ok(v),
            None => Err(ErrModel::InvalidChannelValue(toks[j])),
        }
    }
}

/// During construction, a six-character token that is not a variable name
/// must be a hex color; there is no falling back to the channel path.
pub open spec fn hex_path(toks: Seq<Seq<char>>, j: int, vars: Map<Seq<char>, u8>) -> bool {
    j < toks.len() && toks[j].len() == 6 && !vars.contains_key(toks[j])
}

/// What the value tokens of one color entry yield: a hex token's code, or
/// the code of three channel tokens read in order.
pub open spec fn color_value_spec(
    toks: Seq<Seq<char>>,
    j: int,
    vars: Map<Seq<char>, u8>,
    key: Seq<char>,
) -> Result<Seq<char>, ErrModel> {
    if hex_path(toks, j, vars) {
        if hex6_ok(toks[j]) {
            Ok(hex_code_spec(toks[j]))
        } else {
            Err(ErrModel::InvalidHexDigits(toks[j]))
        }
    } else {
        match channel_spec(toks, j, vars, key, Channel::Red) {
            Err(e) => Err(e),
            Ok(r) => match channel_spec(toks, j + 1, vars, key, Channel::Green) {
                Err(e) => Err(e),
                Ok(g) => match channel_spec(toks, j + 2, vars, key, Channel::Blue) {
                    Err(e) => Err(e),
                    Ok(b) => Ok(rgb_spec(r, g, b)),
                },
            },
        }
    }
}

// ---------------------------------------------------------------------------
// Trimming and comma-splitting
// ---------------------------------------------------------------------------
/// A string with its leading whitespace removed.
pub open spec fn trim_start_spec(s: Seq<char>) -> Seq<char>
    decreases s.len(),
{
    if s.len() > 0 && is_space_spec(s[0]) {
        trim_start_spec(s.skip(1))
    } else {
        s
    }
}

/// A string with its trailing whitespace removed.
pub open spec fn trim_end_spec(s: Seq<char>) -> Seq<char>
    decreases s.len(),
{
    if s.len() > 0 && is_space_spec(s.last()) {
        trim_end_spec(s.drop_last())
    } else {
        s
    }
}

/// A string with surrounding whitespace removed.
pub open spec fn trim_spec(s: Seq<char>) -> Seq<char> {
    trim_end_spec(trim_start_spec(s))
}

/// The bounds of the trimmed middle of a character vector.
fn trim_indices(chars: &Vec<char>) -> (r: (usize, usize))
    ensures
        r.0 <= r.1 <= chars@.len(),
        trim_spec(chars@) == chars@.subrange(r.0 as int, r.1 as int),
{
    let n = chars.len();
    let mut a: usize = 0;
    proof {
        assert(chars@.skip(0) =~= chars@);
    }
    while a < n && is_space_char(chars[a])
        invariant
            a <= n,
            n == chars@.len(),
            trim_start_spec(chars@) == trim_start_spec(chars@.skip(a as int)),
        decreases n - a,
    {
        proof {
            assert(chars@.skip(a as int)[0] == chars@[a as int]);
            assert(chars@.skip(a as int).skip(1) =~= chars@.skip(a as int + 1));
        }
        a = a + 1;
    }
    proof {
        if a < n {
            assert(chars@.skip(a as int)[0] == chars@[a as int]);
        }
        assert(trim_start_spec(chars@) == chars@.skip(a as int));
    }
    let mut b: usize = n;
    proof {
        assert(chars@.skip(a as int).take(n as int - a as int) =~= chars@.skip(a as int));
    }
    while b > a && is_space_char(chars[b - 1])
        invariant
            a <= b <= n,
            n == chars@.len(),
            trim_end_spec(chars@.skip(a as int)) == trim_end_spec(
                chars@.skip(a as int).take(b as int - a as int),
            ),
        decreases b,
    {
        proof {
            let t0 = chars@.skip(a as int);
            let cur = t0.take(b as int - a as int);
            assert(cur.last() == chars@[b as int - 1]);
            assert(cur.drop_last() =~= t0.take(b as int - 1 - a as int));
        }
        b = b - 1;
    }
    proof {
        let t0 = chars@.skip(a as int);
        let cur = t0.take(b as int - a as int);
        if b > a {
            assert(cur.last() == chars@[b as int - 1]);
        }
        assert(trim_end_spec(t0) == cur);
        assert(cur =~= chars@.subrange(a as int, b as int));
    }
    (a, b)
}

/// The pieces of a string cut at every comma; always at least one piece.
pub open spec fn split_commas(s: Seq<char>) -> Seq<Seq<char>>
    decreases s.len(),
{
    if s.len() == 0 {
        seq![Seq::<char>::empty()]
    } else if s[0] == ',' {
        seq![Seq::<char>::empty()] + split_commas(s.skip(1))
    } else {
        let rest = split_commas(s.skip(1));
        seq![seq![s[0]] + rest[0]] + rest.skip(1)
    }
}

proof fn lemma_split_commas_nonempty(s: Seq<char>)
    ensures
        split_commas(s).len() >= 1,
    decreases s.len(),
{
    if s.len() > 0 {
        lemma_split_commas_nonempty(s.skip(1));
    }
}

/// Cuts the characters of `chars` between `a` and `b` at every comma.
fn split_commas_exec(chars: &Vec<char>, a: usize, b: usize) -> (parts: Vec<Vec<char>>)
    requires
        a <= b <= chars@.len(),
    ensures
        parts.deep_view() == split_commas(chars@.subrange(a as int, b as int)),
        parts@.len() >= 1,
{
    let mut parts: Vec<Vec<char>> = Vec::new();
    parts.push(Vec::new());
    proof {
        assert(chars@.subrange(b as int, b as int) =~= Seq::<char>::empty());
        assert(parts.deep_view() =~~= split_commas(chars@.subrange(b as int, b as int)));
    }
    let mut i: usize = b;
    while i > a
        invariant
            a <= i <= b <= chars@.len(),
            parts@.len() >= 1,
            parts.deep_view() == split_commas(chars@.subrange(i as int, b as int)),
        decreases i,
    {
        i = i - 1;
        let ghost pre = chars@.subrange(i as int, b as int);
        let ghost rest = split_commas(chars@.subrange(i as int + 1, b as int));
        proof {
            lemma_split_commas_nonempty(chars@.subrange(i as int + 1, b as int));
            assert(pre[0] == chars@[i as int]);
            assert(pre.skip(1) =~= chars@.subrange(i as int + 1, b as int));
        }
        let c = chars[i];
        if c == ',' {
            parts.insert(0, Vec::new());
            proof {
                assert(parts.deep_view() =~~= seq![Seq::<char>::empty()] + rest);
            }
        } else {
            let mut first = parts.remove(0);
            first.insert(0, c);
            parts.insert(0, first);
            proof {
                assert(parts.deep_view() =~~= seq![seq![chars@[i as int]] + rest[0]] + rest.skip(
                    1,
                ));
            }
        }
    }
    parts
}

pub open spec fn toks_left(toks: Seq<Seq<char>>, i: int) -> int {
    if i <= toks.len() {
        toks.len() - i
    } else {
        0
    }
}

/// The whole palette construction, token by token from position `i`: each
/// round reads one key and either a variable assignment or a color value;
/// a later definition of a key silently overwrites an earlier one.
pub open spec fn build_at(
    toks: Seq<Seq<char>>,
    i: int,
    vars: Map<Seq<char>, u8>,
    pal: Map<Seq<char>, Seq<char>>,
) -> Result<Map<Seq<char>, Seq<char>>, ErrModel>
    decreases toks_left(toks, i),
{
    if i >= toks.len() {
        Ok(pal)
    } else {
        let key = toks[i];
        if !valid_key_spec(key) {
            Err(ErrModel::InvalidKey(key))
        } else if i + 1 < toks.len() && toks[i + 1] == seq!['='] {
            if i + 2 >= toks.len() {
                Err(ErrModel::UnterminatedAssignment(key))
            } else {
                match parse_byte_spec(toks[i + 2]) {
                    Some(v) => build_at(toks, i + 3, vars.insert(key, v), pal),
                    None => Err(ErrModel::InvalidVariableValue(toks[i + 2])),
                }
            }
        } else {
            match color_value_spec(toks, i + 1, vars, key) {
                Err(e) => Err(e),
                Ok(code) => build_at(
                    toks,
                    if hex_path(toks, i + 1, vars) {
                        i + 2
                    } else {
                        i + 4
                    },
                    vars,
                    pal.insert(key, code),
                ),
            }
        }
    }
}

impl Palette {
    /// Reads one channel token: a missing token fails naming the channel and
    /// key, a known variable substitutes its byte, anything else must parse
    /// as a byte 0-255.
    pub fn parse_color_channel(
        tokens: &Vec<String>,
        j: usize,
        vars: &VarTable,
        channel: Channel,
        key: &String,
    ) -> (r: Result<u8, ColorError>)
        ensures
            match r {
                Ok(v) => channel_spec(tokens.deep_view(), j as int, vars@, key@, channel)
                    == Ok::<u8, ErrModel>(v),
                Err(e) => channel_spec(tokens.deep_view(), j as int, vars@, key@, channel)
                    == Err::<u8, ErrModel>(e@),
            },
    {
        proof {
            if (j as int) < tokens.deep_view().len() {
                assert(tokens.deep_view()[j as int] == tokens@[j as int]@);
            }
        }
        if j >= tokens.len() {
            return Err(ColorError::WrongChannelCount(channel, key.clone()));
        }
        let t = &tokens[j];
        match vars.get(t.as_str()) {
            Some(v) => Ok(v),
            None => match parse_byte(t.as_str()) {
                Some(v) => Ok(v),
                None => Err(ColorError::InvalidChannelValue(t.clone())),
            },
        }
    }

    /// Reads the value tokens of one color entry beginning at `j`: a
    /// six-character non-variable token must be hex; otherwise three
    /// channel tokens are read in order.
    pub fn parse_color_value(
        tokens: &Vec<String>,
        j: usize,
        vars: &VarTable,
        key: &String,
    ) -> (r: Result<String, ColorError>)
        ensures
            match r {
                Ok(s) => color_value_spec(tokens.deep_view(), j as int, vars@, key@)
                    == Ok::<Seq<char>, ErrModel>(s@),
                Err(e) => color_value_spec(tokens.deep_view(), j as int, vars@, key@)
                    == Err::<Seq<char>, ErrModel>(e@),
            },
    {
        let ghost toks = tokens.deep_view();
        proof {
            if (j as int) < toks.len() {
                assert(toks[j as int] == tokens@[j as int]@);
            }
        }
        if j < tokens.len() && tokens[j].as_str().unicode_len() == 6
            && !vars.contains(tokens[j].as_str()) {
            return Self::parse_hex(tokens[j].as_str());
        }
        proof {
            assert(!hex_path(toks, j as int, vars@));
        }
        let r = match Self::parse_color_channel(tokens, j, vars, Channel::Red, key) {
            Err(e) => {
                return Err(e);
            },
            Ok(v) => v,
        };
        let g = match Self::parse_color_channel(tokens, j + 1, vars, Channel::Green, key) {
            Err(e) => {
                return Err(e);
            },
            Ok(v) => v,
        };
        let b = match Self::parse_color_channel(tokens, j + 2, vars, Channel::Blue, key) {
            Err(e) => {
                return Err(e);
            },
            Ok(v) => v,
        };
        Ok(rgb(r, g, b))
    }

    /// Builds a palette from a token stream: `key = byte` defines a
    /// variable, `key HEXSIX` or `key R G B` defines a color; the last
    /// definition of a key wins.
    pub fn from_string_tokens(palette_tokens: Vec<String>) -> (r: Result<Palette, ColorError>)
        ensures
            match r {
                Ok(p) => build_at(palette_tokens.deep_view(), 0, Map::empty(), Map::empty())
                    == Ok::<Map<Seq<char>, Seq<char>>, ErrModel>(p@),
                Err(e) => build_at(palette_tokens.deep_view(), 0, Map::empty(), Map::empty())
                    == Err::<Map<Seq<char>, Seq<char>>, ErrModel>(e@),
            },
    {
        let ghost toks = palette_tokens.deep_view();
        let n = palette_tokens.len();
        let mut vars = VarTable::new();
        let mut entries: Vec<(String, String)> = Vec::new();
        let mut i: usize = 0;
        proof {
            assert(pal_entry_views(entries@) =~= Seq::<(Seq<char>, Seq<char>)>::empty());
        }
        while i < n
            invariant
                n == toks.len(),
                toks == palette_tokens.deep_view(),
                i <= n,
                build_at(toks, 0, Map::empty(), Map::empty()) == build_at(
                    toks,
                    i as int,
                    vars@,
                    assoc_map(pal_entry_views(entries@)),
                ),
            decreases n - i,
        {
            proof {
                assert(toks[i as int] == palette_tokens@[i as int]@);
                if i + 1 < n {
                    assert(toks[i as int + 1] == palette_tokens@[i as int + 1]@);
                }
                if i + 2 < n {
                    assert(toks[i as int + 2] == palette_tokens@[i as int + 2]@);
                }
            }
            let key: String = palette_tokens[i].clone();
            if !valid_key(&key) {
                return Err(ColorError::InvalidKey(key));
            }
            if i + 1 < n && is_eq_token(&palette_tokens[i + 1]) {
                if i + 2 >= n {
                    return Err(ColorError::UnterminatedAssignment(key));
                }
                match parse_byte(palette_tokens[i + 2].as_str()) {
                    None => {
                        return Err(ColorError::InvalidVariableValue(
                            palette_tokens[i + 2].clone(),
                        ));
                    },
                    Some(v) => {
                        vars.insert(key, v);
                        i = i + 3;
                    },
                }
            } else {
                let is_hex = i + 1 < n && palette_tokens[i + 1].as_str().unicode_len() == 6
                    && !vars.contains(palette_tokens[i + 1].as_str());
                proof {
                    assert(is_hex == hex_path(toks, i as int + 1, vars@));
                }
                match Self::parse_color_value(&palette_tokens, i + 1, &vars, &key) {
                    Err(e) => {
                        return Err(e);
                    },
                    Ok(code) => {
                        let ghost k = key@;
                        let ghost c = code@;
                        let ghost before = pal_entry_views(entries@);
                        entries.push((key, code));
                        proof {
                            assert(pal_entry_views(entries@) =~= before.push((k, c)));
                            lemma_assoc_map_push(before, k, c);
                        }
                        if is_hex {
                            i = i + 2;
                        } else {
                            proof {
                                assert(channel_spec(toks, i as int + 3, vars@, k, Channel::Blue)
                                    is Ok);
                            }
                            i = i + 4;
                        }
                    },
                }
            }
        }
        Ok(Palette { entries })
    }
}

// ---------------------------------------------------------------------------
// Lookup
// ---------------------------------------------------------------------------
/// What looking a color text up in a palette yields, after trimming: the
/// empty text is the bare reset; an exact key match is the stored code; six
/// hex digits are a hex color; three comma-separated bytes are an RGB color;
/// anything else is unresolved. Unlike construction, a six-character text
/// that is not hex falls through to the comma path.
pub open spec fn lookup_spec(pal: Map<Seq<char>, Seq<char>>, text: Seq<char>) -> Result<
    Seq<char>,
    ErrModel,
> {
    let t = trim_spec(text);
    if t.len() == 0 {
        Ok(reset_spec())
    } else if pal.contains_key(t) {
        Ok(pal[t])
    } else if hex6_ok(t) {
        Ok(hex_code_spec(t))
    } else {
        let parts = split_commas(t);
        if parts.len() == 3 {
            let p0 = trim_spec(parts[0]);
            let p1 = trim_spec(parts[1]);
            let p2 = trim_spec(parts[2]);
            match (parse_byte_spec(p0), parse_byte_spec(p1), parse_byte_spec(p2)) {
                (Some(r), Some(g), Some(b)) => Ok(rgb_spec(r, g, b)),
                (None, _, _) => Err(ErrModel::InvalidChannelValue(p0)),
                (_, None, _) => Err(ErrModel::InvalidChannelValue(p1)),
                (_, _, None) => Err(ErrModel::InvalidChannelValue(p2)),
            }
        } else {
            Err(ErrModel::UnresolvedColor(t))
        }
    }
}

impl Palette {
    /// Resolves a color text against this palette, as `lookup_spec` says.
    pub fn lookup(&self, format: &str) -> (r: Result<String, ColorError>)
        ensures
            result_matches(r, lookup_spec(self@, format@)),
    {
        let chars = to_char_vec(format);
        let (a, b) = trim_indices(&chars);
        let ghost t = trim_spec(format@);
        if a == b {
            proof {
                assert(t =~= Seq::<char>::empty());
            }
            return Ok(ansi_reset());
        }
        let key = chars_to_string(&chars, a, b);
        match self.find_code(key.as_str()) {
            Some(code) => {
                return Ok(code);
            },
            None => {},
        }
        if b - a == 6 {
            match Self::parse_hex(key.as_str()) {
                Ok(code) => {
                    return Ok(code);
                },
                Err(_) => {},
            }
        }
        let parts = split_commas_exec(&chars, a, b);
        proof {
            assert(!hex6_ok(t));
        }
        if parts.len() == 3 {
            proof {
                assert(parts.deep_view()[0] == parts@[0]@);
                assert(parts.deep_view()[1] == parts@[1]@);
                assert(parts.deep_view()[2] == parts@[2]@);
            }
            let (a0, b0) = trim_indices(&parts[0]);
            let s0 = chars_to_string(&parts[0], a0, b0);
            let v0 = match parse_byte(s0.as_str()) {
                Some(v) => v,
                None => {
                    return Err(ColorError::InvalidChannelValue(s0));
                },
            };
            let (a1, b1) = trim_indices(&parts[1]);
            let s1 = chars_to_string(&parts[1], a1, b1);
            let v1 = match parse_byte(s1.as_str()) {
                Some(v) => v,
                None => {
                    return Err(ColorError::InvalidChannelValue(s1));
                },
            };
            let (a2, b2) = trim_indices(&parts[2]);
            let s2 = chars_to_string(&parts[2], a2, b2);
            let v2 = match parse_byte(s2.as_str()) {
                Some(v) => v,
                None => {
                    return Err(ColorError::InvalidChannelValue(s2));
                },
            };
            Ok(rgb(v0, v1, v2))
        } else {
            Err(ColorError::UnresolvedColor(key))
        }
    }
}

} // verus!
