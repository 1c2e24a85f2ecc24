//! Writing JSON text by hand: decimal and hexadecimal numbers, point values
//! from integer units, and escaped strings.
use vstd::prelude::*;
use vstd::string::StringExecFns;
use crate::text::push_char;

verus! {

/// The decimal digit `d`.
pub open spec fn digit(d: int) -> char {
    if d == 0 {
        '0'
    } else if d == 1 {
        '1'
    } else if d == 2 {
        '2'
    } else if d == 3 {
        '3'
    } else if d == 4 {
        '4'
    } else if d == 5 {
        '5'
    } else if d == 6 {
        '6'
    } else if d == 7 {
        '7'
    } else if d == 8 {
        '8'
    } else {
        '9'
    }
}

/// The lowercase hexadecimal digit `d`.
pub open spec fn hex_digit(d: int) -> char {
    if d < 10 {
        digit(d)
    } else if d == 10 {
        'a'
    } else if d == 11 {
        'b'
    } else if d == 12 {
        'c'
    } else if d == 13 {
        'd'
    } else if d == 14 {
        'e'
    } else {
        'f'
    }
}

/// `n` in decimal, without leading zeros.
pub open spec fn dec(n: nat) -> Seq<char>
    decreases n,
{
    if n < 10 {
        seq![digit(n as int)]
    } else {
        dec(n / 10).push(digit((n % 10) as int))
    }
}

/// `n` in decimal with a minus sign when negative.
pub open spec fn idec(n: int) -> Seq<char> {
    if n < 0 {
        seq!['-'] + dec((-n) as nat)
    } else {
        dec(n as nat)
    }
}

/// The last `w` decimal digits of `n`, zero padded.
pub open spec fn padded(n: nat, w: nat) -> Seq<char>
    decreases w,
{
    if w == 0 {
        seq![]
    } else {
        padded(n / 10, (w - 1) as nat).push(digit((n % 10) as int))
    }
}

/// The last `w` hexadecimal digits of `n`, zero padded, lowercase.
pub open spec fn hex_padded(n: nat, w: nat) -> Seq<char>
    decreases w,
{
    if w == 0 {
        seq![]
    } else {
        hex_padded(n / 16, (w - 1) as nat).push(hex_digit((n % 16) as int))
    }
}

/// The value `v / den` as the trace writes numbers: one decimal when it is
/// whole (`72.0`), six otherwise (`595.300000`). `den` divides 10^6.
pub open spec fn num_frac(v: int, den: nat) -> Seq<char> {
    let a: nat = if v < 0 {
        (-v) as nat
    } else {
        v as nat
    };
    let sign: Seq<char> = if v < 0 {
        seq!['-']
    } else {
        seq![]
    };
    if a % den == 0 {
        sign + dec(a / den) + seq!['.', '0']
    } else {
        sign + dec(a / den) + seq!['.'] + padded(((a % den) * (1_000_000nat / den)) as nat, 6)
    }
}

fn digit_char(d: u64) -> (c: char)
    requires
        d < 10,
    ensures
        c == digit(d as int),
{
    if d == 0 {
        '0'
    } else if d == 1 {
        '1'
    } else if d == 2 {
        '2'
    } else if d == 3 {
        '3'
    } else if d == 4 {
        '4'
    } else if d == 5 {
        '5'
    } else if d == 6 {
        '6'
    } else if d == 7 {
        '7'
    } else if d == 8 {
        '8'
    } else {
        '9'
    }
}

fn hex_char(d: u64) -> (c: char)
    requires
        d < 16,
    ensures
        c == hex_digit(d as int),
{
    if d < 10 {
        digit_char(d)
    } else if d == 10 {
        'a'
    } else if d == 11 {
        'b'
    } else if d == 12 {
        'c'
    } else if d == 13 {
        'd'
    } else if d == 14 {
        'e'
    } else {
        'f'
    }
}

/// Appends `n` in decimal.
pub fn push_dec(out: &mut String, n: u64)
    ensures
        final(out)@ == old(out)@ + dec(n as nat),
    decreases n,
{
    if n >= 10 {
        push_dec(out, n / 10);
    }
    push_char(out, digit_char(n % 10));
    proof {
        if n >= 10 {
            assert(old(out)@ + dec(n as nat) =~= old(out)@ + dec((n / 10) as nat) + seq![digit((n % 10) as int)]);
        } else {
            assert(old(out)@ + dec(n as nat) =~= old(out)@ + seq![digit((n % 10) as int)]);
        }
    }
}

/// Appends `n` in decimal with its sign.
pub fn push_idec(out: &mut String, n: i64)
    ensures
        final(out)@ == old(out)@ + idec(n as int),
{
    if n < 0 {
        push_char(out, '-');
        let a: u64 = (-(n as i128)) as u64;
        push_dec(out, a);
        assert(final(out)@ =~= old(out)@ + idec(n as int));
    } else {
        push_dec(out, n as u64);
    }
}

/// Appends the last `w` decimal digits of `n`, zero padded.
pub fn push_padded(out: &mut String, n: u64, w: u64)
    ensures
        final(out)@ == old(out)@ + padded(n as nat, w as nat),
    decreases w,
{
    if w > 0 {
        push_padded(out, n / 10, w - 1);
        push_char(out, digit_char(n % 10));
        assert(final(out)@ =~= old(out)@ + padded(n as nat, w as nat));
    } else {
        assert(final(out)@ =~= old(out)@ + padded(n as nat, w as nat));
    }
}

/// Appends the last `w` hexadecimal digits of `n`, zero padded.
pub fn push_hex(out: &mut String, n: u64, w: u64)
    ensures
        final(out)@ == old(out)@ + hex_padded(n as nat, w as nat),
    decreases w,
{
    if w > 0 {
        push_hex(out, n / 16, w - 1);
        push_char(out, hex_char(n % 16));
        assert(final(out)@ =~= old(out)@ + hex_padded(n as nat, w as nat));
    } else {
        assert(final(out)@ =~= old(out)@ + hex_padded(n as nat, w as nat));
    }
}

/// Appends `v / den` as the trace writes numbers (see `num_frac`).
pub fn push_frac(out: &mut String, v: i64, den: u64)
    requires
        den == 20 || den == 100,
    ensures
        final(out)@ == old(out)@ + num_frac(v as int, den as nat),
{
    let a: u64 = if v < 0 {
        (-(v as i128)) as u64
    } else {
        v as u64
    };
    if v < 0 {
        push_char(out, '-');
    }
    let ghost mid = out@;
    push_dec(out, a / den);
    push_char(out, '.');
    if a % den == 0 {
        push_char(out, '0');
    } else {
        let scale: u64 = 1_000_000 / den;
        assert((a % den) * scale < 1_000_000) by (nonlinear_arith)
            requires
                a % den < den,
                scale == 1_000_000u64 / den,
                den == 20 || den == 100,
        ;
        push_padded(out, (a % den) * scale, 6);
    }
    assert(final(out)@ =~= old(out)@ + num_frac(v as int, den as nat));
}

/// Appends a string.
pub fn push_str(out: &mut String, s: &str)
    ensures
        final(out)@ == old(out)@ + s@,
{
    out.append(s);
}

} // verus!
