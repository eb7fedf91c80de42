use vstd::prelude::*;
use vstd::string::StringExecFns;
use vstd::string::StrSliceExecFns;
use crate::ansi::{chars_left, lemma_prepend_assoc, prepend_res};
use crate::errors::{ColorError, ErrModel, result_matches};
use crate::helpers::{matches_string, push_char, to_char_vec};

verus! {

/// The literal reset marker `«»`, which expansion turns into the bare reset.
pub open spec fn reset_marker() -> Seq<char> {
    seq!['«', '»']
}

/// A normal marker that changes nothing: empty, or already the reset marker.
pub open spec fn is_noop_normal(n: Seq<char>) -> bool {
    n.len() == 0 || n == reset_marker()
}

/// The marker emitted after a placeholder: the caller's normal marker, or
/// the reset marker when none was given.
pub open spec fn effective_normal(n: Seq<char>) -> Seq<char> {
    if n.len() == 0 {
        reset_marker()
    } else {
        n
    }
}

/// What follows a placeholder's closer at `k`: nothing when the run ends or
/// another placeholder opens right away, else the normal marker.
pub open spec fn after_marker(s: Seq<char>, k: int, n: Seq<char>) -> Seq<char> {
    if k + 1 >= s.len() || (s[k + 1] == '{' && !(k + 2 < s.len() && s[k + 2] == '{')) {
        Seq::empty()
    } else {
        effective_normal(n)
    }
}

/// The highlighting of a run from position `i` on, with `jc` telling whether
/// a placeholder closed right before: `\X` copies both characters, `{{`
/// copies through, an unescaped `{` opens a placeholder (sharing the
/// previous highlight marker when `jc` holds), and the run's end appends one
/// reset unless nothing needs resetting.
pub open spec fn hl_at(s: Seq<char>, i: int, jc: bool, h: Seq<char>, n: Seq<char>) -> Result<
    Seq<char>,
    ErrModel,
>
    decreases chars_left(s, i), 1int,
{
    if i >= s.len() {
        if jc || !is_noop_normal(n) {
            Ok(reset_marker())
        } else {
            Ok(Seq::empty())
        }
    } else if s[i] == '\\' {
        if i + 1 >= s.len() {
            Err(ErrModel::UnterminatedEscape)
        } else {
            prepend_res(seq![s[i], s[i + 1]], hl_at(s, i + 2, false, h, n))
        }
    } else if s[i] == '{' {
        if i + 1 < s.len() && s[i + 1] == '{' {
            prepend_res(seq!['{', '{'], hl_at(s, i + 2, false, h, n))
        } else {
            prepend_res(
                (if jc {
                    Seq::empty()
                } else {
                    h
                }) + seq!['{'],
                hl_arg(s, i + 1, h, n),
            )
        }
    } else {
        prepend_res(seq![s[i]], hl_at(s, i + 1, false, h, n))
    }
}

/// Inside a placeholder from `k` on: characters copy verbatim up to and
/// including the closing `}`, which carries its after-marker; a run ending
/// first is an error.
pub open spec fn hl_arg(s: Seq<char>, k: int, h: Seq<char>, n: Seq<char>) -> Result<
    Seq<char>,
    ErrModel,
>
    decreases chars_left(s, k), 0int,
{
    if k >= s.len() {
        Err(ErrModel::UnterminatedPlaceholder)
    } else if s[k] == '}' {
        prepend_res(seq!['}'] + after_marker(s, k, n), hl_at(s, k + 1, true, h, n))
    } else {
        prepend_res(seq![s[k]], hl_arg(s, k + 1, h, n))
    }
}

/// The marker a run begins with: none when it opens with an unescaped
/// placeholder, else the normal marker.
pub open spec fn lead_marker(s: Seq<char>, i: int, n: Seq<char>) -> Seq<char> {
    if i < s.len() && s[i] == '{' && !(i + 1 < s.len() && s[i + 1] == '{') {
        Seq::empty()
    } else {
        n
    }
}

/// A whole non-empty run: its lead marker, then the scan from its start.
pub open spec fn hl_run(s: Seq<char>, i: int, h: Seq<char>, n: Seq<char>) -> Result<
    Seq<char>,
    ErrModel,
> {
    prepend_res(lead_marker(s, i, n), hl_at(s, i, false, h, n))
}

/// The highlighting of a run: the empty run stays empty; any other run is
/// bracketed and scanned as `hl_run` says.
pub open spec fn highlight_spec(s: Seq<char>, h: Seq<char>, n: Seq<char>) -> Result<
    Seq<char>,
    ErrModel,
> {
    if s.len() == 0 {
        Ok(Seq::empty())
    } else {
        hl_run(s, 0, h, n)
    }
}

/// True when the normal marker resets nothing: empty or the reset marker.
fn is_noop_marker(normal: &str) -> (r: bool)
    ensures
        r == is_noop_normal(normal@),
{
    let len = normal.unicode_len();
    if len == 0 {
        return true;
    }
    if len == 2 && normal.get_char(0) == '«' && normal.get_char(1) == '»' {
        proof {
            assert(normal@ =~= reset_marker());
        }
        return true;
    }
    proof {
        if normal@ == reset_marker() {
            assert(normal@.len() == 2);
            assert(normal@[0] == '«' && normal@[1] == '»');
        }
    }
    false
}

/// Brackets every `{...}` placeholder of the run with the highlight and
/// normal markers, eliminating adjacent redundant markers, as
/// `highlight_spec` says. The markers are opaque strings, typically
/// themselves `«key»` sequences; the result must still pass through marker
/// expansion.
pub fn wrap_arguments_with_color_codes(format: &str, normal: &str, highlight: &str) -> (r: Result<
    String,
    ColorError,
>)
    ensures
        result_matches(r, highlight_spec(format@, highlight@, normal@)),
{
    let chars = to_char_vec(format);
    if chars.len() == 0 {
        let empty = String::new();
        return Ok(empty);
    }
    let mut output = String::new();
    match process_string_literal(&chars, 0, normal, highlight, &mut output) {
        Ok(()) => Ok(output),
        Err(e) => Err(e),
    }
}

/// Scans a run from `from` to its end: emits the lead marker, processes
/// escapes and placeholders, and closes with one reset where needed.
pub fn process_string_literal(
    chars: &Vec<char>,
    from: usize,
    normal: &str,
    highlight: &str,
    output: &mut String,
) -> (r: Result<(), ColorError>)
    ensures
        match r {
            Ok(()) => hl_run(chars@, from as int, highlight@, normal@) is Ok && final(output)@
                == old(output)@ + hl_run(chars@, from as int, highlight@, normal@)->Ok_0,
            Err(e) => hl_run(chars@, from as int, highlight@, normal@) == Err::<
                Seq<char>,
                ErrModel,
            >(e@),
        },
{
    let ghost base = output@;
    let ghost s = chars@;
    let ghost h = highlight@;
    let ghost nm = normal@;
    let n = chars.len();
    proof {
        reveal_strlit("{{");
    }
    let opens_with_placeholder = from < n && chars[from] == '{' && !matches_string(
        chars,
        from,
        "{{",
    );
    proof {
        if from < n && chars@[from as int] == '{' {
            if from + 2 <= n && chars@[from as int + 1] == '{' {
                assert(chars@.subrange(from as int, from as int + 2) =~= "{{"@);
            }
            if from + 2 <= chars@.len() && chars@.subrange(from as int, from as int + 2) == "{{"@ {
                assert(chars@.subrange(from as int, from as int + 2)[1] == chars@[from as int
                    + 1]);
                assert("{{"@[1] == '{');
                assert(chars@[from as int + 1] == '{');
            }
        }
    }
    let ghost mut acc: Seq<char> = Seq::empty();
    if !opens_with_placeholder {
        output.append(normal);
        proof {
            acc = nm;
            assert(output@ =~= base + acc);
        }
    }
    proof {
        assert(acc == lead_marker(s, from as int, nm));
        assert(output@ =~= base + acc);
    }
    let mut i: usize = from;
    let mut jc: bool = false;
    while i < n
        invariant
            n == s.len(),
            s == chars@,
            h == highlight@,
            nm == normal@,
            from <= i,
            output@ == base + acc,
            hl_run(s, from as int, h, nm) == prepend_res(acc, hl_at(s, i as int, jc, h, nm)),
        decreases n - i,
    {
        let c = chars[i];
        if c == '\\' {
            if i + 1 >= n {
                return Err(ColorError::UnterminatedEscape);
            }
            let c2 = chars[i + 1];
            push_char(output, c);
            push_char(output, c2);
            proof {
                lemma_prepend_assoc(acc, seq![c, c2], hl_at(s, i as int + 2, false, h, nm));
                assert(acc + seq![c, c2] =~= acc.push(c).push(c2));
                acc = acc.push(c).push(c2);
                assert(output@ =~= base + acc);
            }
            i = i + 2;
            jc = false;
        } else if c == '{' {
            if i + 1 < n && chars[i + 1] == '{' {
                push_char(output, '{');
                push_char(output, '{');
                proof {
                    lemma_prepend_assoc(acc, seq!['{', '{'], hl_at(s, i as int + 2, false, h, nm));
                    assert(acc + seq!['{', '{'] =~= acc.push('{').push('{'));
                    acc = acc.push('{').push('{');
                    assert(output@ =~= base + acc);
                }
                i = i + 2;
                jc = false;
            } else {
                let ghost before = output@;
                match process_string_literal_argument(chars, i + 1, normal, highlight, jc, output) {
                    Err(e) => {
                        return Err(e);
                    },
                    Ok(ni) => {
                        proof {
                            let piece = output@.skip(before.len() as int);
                            lemma_prepend_assoc(acc, piece, hl_at(s, ni as int, true, h, nm));
                            assert(before =~= base + acc);
                            assert(output@ =~= before + piece);
                            assert(before + piece =~= base + (acc + piece));
                            acc = acc + piece;
                        }
                        i = ni;
                        jc = true;
                    },
                }
            }
        } else {
            push_char(output, c);
            proof {
                lemma_prepend_assoc(acc, seq![c], hl_at(s, i as int + 1, false, h, nm));
                assert(acc + seq![c] =~= acc.push(c));
                acc = acc.push(c);
                assert(output@ =~= base + acc);
            }
            i = i + 1;
            jc = false;
        }
    }
    if jc || !is_noop_marker(normal) {
        output.append("«»");
        proof {
            reveal_strlit("«»");
            assert("«»"@ =~= reset_marker());
            assert(hl_at(s, i as int, jc, h, nm) == Ok::<Seq<char>, ErrModel>(reset_marker()));
            assert(output@ =~= base + (acc + reset_marker()));
        }
    } else {
        proof {
            assert(hl_at(s, i as int, jc, h, nm) == Ok::<Seq<char>, ErrModel>(Seq::empty()));
            assert(acc + Seq::<char>::empty() =~= acc);
        }
    }
    Ok(())
}

/// Processes one placeholder whose opener `{` stands at `from - 1`: emits
/// the highlight marker unless one placeholder just closed, copies the
/// placeholder verbatim through its `}`, and appends the normal marker
/// unless the run ends or another placeholder follows. Returns the position
/// right after the closer.
pub fn process_string_literal_argument(
    chars: &Vec<char>,
    from: usize,
    normal: &str,
    highlight: &str,
    jc: bool,
    output: &mut String,
) -> (r: Result<usize, ColorError>)
    requires
        1 <= from <= chars@.len(),
        chars@[from as int - 1] == '{',
        !(from < chars@.len() && chars@[from as int] == '{'),
    ensures
        match r {
            Ok(ni) => from <= ni <= chars@.len() && final(output)@.len() >= old(output)@.len()
                && final(output)@.subrange(0, old(output)@.len() as int) == old(output)@ && hl_at(
                chars@,
                from as int - 1,
                jc,
                highlight@,
                normal@,
            ) == prepend_res(
                final(output)@.skip(old(output)@.len() as int),
                hl_at(chars@, ni as int, true, highlight@, normal@),
            ),
            Err(e) => hl_at(chars@, from as int - 1, jc, highlight@, normal@) == Err::<
                Seq<char>,
                ErrModel,
            >(e@),
        },
{
    let ghost base = output@;
    let ghost s = chars@;
    let ghost h = highlight@;
    let ghost nm = normal@;
    let n = chars.len();
    let ghost mut acc: Seq<char> = Seq::empty();
    if !jc {
        output.append(highlight);
        proof {
            acc = h;
        }
    }
    push_char(output, '{');
    proof {
        acc = acc.push('{');
        assert(output@ =~= base + acc);
        assert(acc =~= (if jc {
            Seq::<char>::empty()
        } else {
            h
        }) + seq!['{']);
    }
    let mut k: usize = from;
    while k < n && chars[k] != '}'
        invariant
            n == s.len(),
            s == chars@,
            h == highlight@,
            nm == normal@,
            from <= k,
            output@ == base + acc,
            hl_at(s, from as int - 1, jc, h, nm) == prepend_res(acc, hl_arg(s, k as int, h, nm)),
        decreases n - k,
    {
        let c = chars[k];
        push_char(output, c);
        proof {
            lemma_prepend_assoc(acc, seq![c], hl_arg(s, k as int + 1, h, nm));
            assert(acc + seq![c] =~= acc.push(c));
            acc = acc.push(c);
            assert(output@ =~= base + acc);
        }
        k = k + 1;
    }
    if k >= n {
        return Err(ColorError::UnterminatedPlaceholder);
    }
    push_char(output, '}');
    proof {
        reveal_strlit("{{");
        reveal_strlit("«»");
    }
    let another_placeholder = k + 1 < n && chars[k + 1] == '{' && !matches_string(
        chars,
        k + 1,
        "{{",
    );
    proof {
        if k + 1 < n && chars@[k as int + 1] == '{' {
            if k + 3 <= n && chars@[k as int + 2] == '{' {
                assert(chars@.subrange(k as int + 1, k as int + 3) =~= "{{"@);
            }
            if k + 3 <= chars@.len() && chars@.subrange(k as int + 1, k as int + 3) == "{{"@ {
                assert(chars@.subrange(k as int + 1, k as int + 3)[1] == chars@[k as int + 2]);
                assert("{{"@[1] == '{');
                assert(chars@[k as int + 2] == '{');
            }
        }
    }
    if !(k + 1 >= n || another_placeholder) {
        if normal.unicode_len() == 0 {
            output.append("«»");
            proof {
                assert("«»"@ =~= reset_marker());
            }
        } else {
            output.append(normal);
        }
        proof {
            assert(after_marker(s, k as int, nm) == effective_normal(nm));
        }
    } else {
        proof {
            assert(after_marker(s, k as int, nm) =~= Seq::<char>::empty());
        }
    }
    proof {
        let after = after_marker(s, k as int, nm);
        let piece = output@.skip(base.len() as int);
        assert(piece =~= acc + (seq!['}'] + after));
        assert(hl_arg(s, k as int, h, nm) == prepend_res(
            seq!['}'] + after,
            hl_at(s, k as int + 1, true, h, nm),
        ));
        lemma_prepend_assoc(acc, seq!['}'] + after, hl_at(s, k as int + 1, true, h, nm));
        assert(output@.subrange(0, base.len() as int) =~= base);
    }
    Ok(k + 1)
}

} // verus!
