use vstd::prelude::*;
use vstd::string::StringExecFns;
use crate::helpers::push_char;

verus! {

/// The character a decimal digit prints as.
pub open spec fn digit(d: int) -> char {
    if d == 0 {
        '0'
    } else if d == 1 {
        '1'
    } else if d == 2 {
        '2'
    } else if d == 3 {
        '3'
    } else if d == 4 {
        '4'
    } else if d == 5 {
        '5'
    } else if d == 6 {
        '6'
    } else if d == 7 {
        '7'
    } else if d == 8 {
        '8'
    } else {
        '9'
    }
}

/// The decimal rendering of a byte value, without leading zeros.
pub open spec fn dec3(n: int) -> Seq<char> {
    if n < 10 {
        seq![digit(n)]
    } else if n < 100 {
        seq![digit(n / 10), digit(n % 10)]
    } else {
        seq![digit(n / 100), digit((n / 10) % 10), digit(n % 10)]
    }
}

/// The opening of a truecolor foreground escape: `ESC [ 3 8 ; 2 ;`.
pub open spec fn esc_color_prefix() -> Seq<char> {
    seq!['\u{1B}', '[', '3', '8', ';', '2', ';']
}

/// The full truecolor foreground code `ESC[38;2;R;G;Bm`.
pub open spec fn rgb_spec(r: u8, g: u8, b: u8) -> Seq<char> {
    esc_color_prefix() + dec3(r as int) + seq![';'] + dec3(g as int) + seq![';'] + dec3(b as int)
        + seq!['m']
}

/// The bare reset code `ESC[m`.
pub open spec fn reset_spec() -> Seq<char> {
    seq!['\u{1B}', '[', 'm']
}

fn digit_char(d: u8) -> (c: char)
    requires
        d < 10,
    ensures
        c == digit(d as int),
{
    if d == 0 {
        '0'
    } else if d == 1 {
        '1'
    } else if d == 2 {
        '2'
    } else if d == 3 {
        '3'
    } else if d == 4 {
        '4'
    } else if d == 5 {
        '5'
    } else if d == 6 {
        '6'
    } else if d == 7 {
        '7'
    } else if d == 8 {
        '8'
    } else {
        '9'
    }
}

fn append_dec(s: &mut String, n: u8)
    ensures
        final(s)@ == old(s)@ + dec3(n as int),
{
    if n >= 100 {
        push_char(s, digit_char(n / 100));
        push_char(s, digit_char((n / 10) % 10));
        push_char(s, digit_char(n % 10));
        proof {
            assert(s@ =~= old(s)@ + dec3(n as int));
        }
    } else if n >= 10 {
        push_char(s, digit_char(n / 10));
        push_char(s, digit_char(n % 10));
        proof {
            assert(s@ =~= old(s)@ + dec3(n as int));
        }
    } else {
        push_char(s, digit_char(n));
        proof {
            assert(s@ =~= old(s)@ + dec3(n as int));
        }
    }
}

/// Builds the ANSI truecolor foreground code for the given channels.
pub fn rgb(r: u8, g: u8, b: u8) -> (s: String)
    ensures
        s@ == rgb_spec(r, g, b),
{
    let mut s = String::new();
    s.append("\u{1B}[38;2;");
    proof {
        reveal_strlit("\u{1B}[38;2;");
    }
    append_dec(&mut s, r);
    push_char(&mut s, ';');
    append_dec(&mut s, g);
    push_char(&mut s, ';');
    append_dec(&mut s, b);
    push_char(&mut s, 'm');
    proof {
        assert(s@ =~= rgb_spec(r, g, b));
    }
    s
}

/// Builds the bare ANSI reset code.
pub fn ansi_reset() -> (s: String)
    ensures
        s@ == reset_spec(),
{
    let mut s = String::new();
    s.append("\u{1B}[m");
    proof {
        reveal_strlit("\u{1B}[m");
        assert(s@ =~= reset_spec());
    }
    s
}

} // verus!
