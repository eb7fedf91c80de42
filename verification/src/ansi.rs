use vstd::prelude::*;
use vstd::string::StringExecFns;
use crate::errors::{ColorError, ErrModel, result_matches};
use crate::helpers::{chars_to_string, push_char, to_char_vec};
use crate::palette::{lookup_spec, Palette};

verus! {

/// The characters not yet scanned, never negative.
pub open spec fn chars_left(s: Seq<char>, i: int) -> int {
    if i <= s.len() {
        s.len() - i
    } else {
        0
    }
}

/// Prefixes a transform result's text; an error stays as it is.
pub open spec fn prepend_res(pre: Seq<char>, r: Result<Seq<char>, ErrModel>) -> Result<
    Seq<char>,
    ErrModel,
> {
    match r {
        Ok(t) => Ok(pre + t),
        Err(e) => Err(e),
    }
}

pub(crate) proof fn lemma_prepend_assoc(a: Seq<char>, b: Seq<char>, r: Result<Seq<char>, ErrModel>)
    ensures
        prepend_res(a, prepend_res(b, r)) == prepend_res(a + b, r),
{
    match r {
        Ok(t) => {
            assert(a + (b + t) =~= (a + b) + t);
        },
        Err(_) => {},
    }
}

/// The marker expansion of a template from position `i` on: `\X` copies both
/// characters, `««` is a literal `«`, `«key»` becomes the key's resolved
/// code, a lone `»` and every other character copy through.
pub open spec fn expand_at(s: Seq<char>, i: int, pal: Map<Seq<char>, Seq<char>>) -> Result<
    Seq<char>,
    ErrModel,
>
    decreases chars_left(s, i), 1int,
{
    if i >= s.len() {
        Ok(Seq::empty())
    } else if s[i] == '\\' {
        if i + 1 >= s.len() {
            Err(ErrModel::UnterminatedEscape)
        } else {
            prepend_res(seq![s[i], s[i + 1]], expand_at(s, i + 2, pal))
        }
    } else if s[i] == '«' {
        if i + 1 < s.len() && s[i + 1] == '«' {
            prepend_res(seq!['«'], expand_at(s, i + 2, pal))
        } else {
            expand_marker(s, i + 1, i + 1, pal)
        }
    } else {
        prepend_res(seq![s[i]], expand_at(s, i + 1, pal))
    }
}

/// Scanning an open marker: the key runs from `start` to the first `»`; the
/// template ending first is an error; the resolved code replaces the whole
/// marker, and expansion continues after the closer.
pub open spec fn expand_marker(
    s: Seq<char>,
    start: int,
    k: int,
    pal: Map<Seq<char>, Seq<char>>,
) -> Result<Seq<char>, ErrModel>
    decreases chars_left(s, k), 0int,
{
    if k >= s.len() {
        Err(ErrModel::UnterminatedColorCode)
    } else if s[k] == '»' {
        match lookup_spec(pal, s.subrange(start, k)) {
            Ok(code) => prepend_res(code, expand_at(s, k + 1, pal)),
            Err(e) => Err(e),
        }
    } else {
        expand_marker(s, start, k + 1, pal)
    }
}

/// Replaces every `«key»` marker in the template with its resolved ANSI
/// code, honoring `««` and `\` escapes, as `expand_at` from position 0 says.
pub fn apply_ansi(format: &str, palette: &Palette) -> (r: Result<String, ColorError>)
    ensures
        result_matches(r, expand_at(format@, 0, palette@)),
{
    let chars = to_char_vec(format);
    let mut output = String::new();
    match process_string_literal(&chars, 0, palette, &mut output) {
        Ok(()) => Ok(output),
        Err(e) => Err(e),
    }
}

/// Scans a template from `from` to its end, appending each expansion step to
/// `output`.
pub fn process_string_literal(
    chars: &Vec<char>,
    from: usize,
    palette: &Palette,
    output: &mut String,
) -> (r: Result<(), ColorError>)
    ensures
        match r {
            Ok(()) => expand_at(chars@, from as int, palette@) is Ok && final(output)@ == old(
                output,
            )@ + expand_at(chars@, from as int, palette@)->Ok_0,
            Err(e) => expand_at(chars@, from as int, palette@) == Err::<Seq<char>, ErrModel>(e@),
        },
{
    let ghost base = output@;
    let ghost s = chars@;
    let ghost pal = palette@;
    let n = chars.len();
    let mut i: usize = from;
    let ghost mut acc: Seq<char> = Seq::empty();
    while i < n
        invariant
            n == s.len(),
            s == chars@,
            pal == palette@,
            from <= i,
            output@ == base + acc,
            expand_at(s, from as int, pal) == prepend_res(acc, expand_at(s, i as int, pal)),
        decreases n - i,
    {
        let c = chars[i];
        if c == '\\' {
            if i + 1 >= n {
                return Err(ColorError::UnterminatedEscape);
            }
            let c2 = chars[i + 1];
            push_char(output, c);
            push_char(output, c2);
            proof {
                lemma_prepend_assoc(acc, seq![c, c2], expand_at(s, i as int + 2, pal));
                assert(acc + seq![c, c2] =~= acc.push(c).push(c2));
                acc = acc.push(c).push(c2);
                assert(output@ =~= base + acc);
            }
            i = i + 2;
        } else if c == '«' {
            let ghost before = output@;
            match process_color_format(chars, i + 1, palette, output) {
                Err(e) => {
                    return Err(e);
                },
                Ok(ni) => {
                    proof {
                        let piece = output@.skip(before.len() as int);
                        lemma_prepend_assoc(acc, piece, expand_at(s, ni as int, pal));
                        assert(before =~= base + acc);
                        assert(output@ =~= before + piece);
                        assert(before + piece =~= base + (acc + piece));
                        acc = acc + piece;
                    }
                    i = ni;
                },
            }
        } else {
            push_char(output, c);
            proof {
                lemma_prepend_assoc(acc, seq![c], expand_at(s, i as int + 1, pal));
                assert(acc + seq![c] =~= acc.push(c));
                acc = acc.push(c);
                assert(output@ =~= base + acc);
            }
            i = i + 1;
        }
    }
    proof {
        assert(expand_at(s, i as int, pal) == Ok::<Seq<char>, ErrModel>(Seq::empty()));
        assert(acc + Seq::<char>::empty() =~= acc);
    }
    Ok(())
}

/// Handles the text after a marker opener `«` at `from - 1`: a second `«`
/// yields a literal `«`; otherwise the key up to the next `»` is resolved
/// through the palette and its code appended. Returns the position right
/// after the consumed text.
pub fn process_color_format(
    chars: &Vec<char>,
    from: usize,
    palette: &Palette,
    output: &mut String,
) -> (r: Result<usize, ColorError>)
    requires
        1 <= from <= chars@.len(),
        chars@[from as int - 1] == '«',
    ensures
        match r {
            Ok(ni) => from <= ni <= chars@.len() && final(output)@.len() >= old(output)@.len()
                && final(output)@.subrange(0, old(output)@.len() as int) == old(output)@
                && expand_at(chars@, from as int - 1, palette@) == prepend_res(
                final(output)@.skip(old(output)@.len() as int),
                expand_at(chars@, ni as int, palette@),
            ),
            Err(e) => expand_at(chars@, from as int - 1, palette@) == Err::<Seq<char>, ErrModel>(
                e@,
            ),
        },
{
    let ghost s = chars@;
    let ghost pal = palette@;
    let n = chars.len();
    if from < n && chars[from] == '«' {
        push_char(output, '«');
        proof {
            assert(output@.skip(old(output)@.len() as int) =~= seq!['«']);
            assert(output@.subrange(0, old(output)@.len() as int) =~= old(output)@);
        }
        return Ok(from + 1);
    }
    let mut k: usize = from;
    while k < n && chars[k] != '»'
        invariant
            n == s.len(),
            s == chars@,
            pal == palette@,
            from <= k,
            expand_marker(s, from as int, from as int, pal) == expand_marker(
                s,
                from as int,
                k as int,
                pal,
            ),
        decreases n - k,
    {
        k = k + 1;
    }
    if k >= n {
        return Err(ColorError::UnterminatedColorCode);
    }
    let key = chars_to_string(chars, from, k);
    match palette.lookup(key.as_str()) {
        Err(e) => Err(e),
        Ok(code) => {
            output.append(code.as_str());
            proof {
                assert(output@.skip(old(output)@.len() as int) =~= code@);
                assert(output@.subrange(0, old(output)@.len() as int) =~= old(output)@);
            }
            Ok(k + 1)
        },
    }
}

} // verus!
