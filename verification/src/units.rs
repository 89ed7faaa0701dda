//! Byte counts as text, and the bar that sets one entry against its largest sibling.

use vstd::prelude::*;
use vstd::string::StringExecFns;

verus! {

/// Bytes in a KiB.
pub const KIB: u64 = 1024;

/// Bytes in a MiB.
pub const MIB: u64 = 1048576;

/// Bytes in a GiB.
pub const GIB: u64 = 1073741824;

/// Bytes in a TiB.
pub const TIB: u64 = 1099511627776;

/// The first count that a double-precision number may fail to hold exactly.
pub const EXACT_LIMIT: u64 = 9007199254740992;

/// The character of a decimal digit.
pub open spec fn digit(d: nat) -> char {
    if d == 0 {
        '0'
    } else if d == 1 {
        '1'
    } else if d == 2 {
        '2'
    } else if d == 3 {
        '3'
    } else if d == 4 {
        '4'
    } else if d == 5 {
        '5'
    } else if d == 6 {
        '6'
    } else if d == 7 {
        '7'
    } else if d == 8 {
        '8'
    } else {
        '9'
    }
}

/// `n` in decimal, without leading zeros.
pub open spec fn decimal(n: nat) -> Seq<char>
    decreases n,
{
    if n < 10 {
        seq![digit(n)]
    } else {
        decimal(n / 10).push(digit(n % 10))
    }
}

/// `c`, `n` times.
pub open spec fn repeat(c: char, n: nat) -> Seq<char> {
    Seq::new(n, |i: int| c)
}

/// `a / b` rounded to the nearest integer, a tie going to the even neighbour.
pub open spec fn round_half_even(a: nat, b: nat) -> nat
    recommends
        b > 0,
{
    let q = a / b;
    let r = a % b;
    if 2 * r < b || (2 * r == b && q % 2 == 0) {
        q
    } else {
        q + 1
    }
}

/// `a / b` rounded to the nearest integer, a tie going up.
pub open spec fn round_half_up(a: nat, b: nat) -> nat
    recommends
        b > 0,
{
    if 2 * (a % b) >= b {
        a / b + 1
    } else {
        a / b
    }
}

/// The gap between neighbouring double-precision numbers around `n`: 1 while
/// 53 bits hold `n` exactly, then doubling with each further bit.
pub open spec fn spacing(n: nat) -> nat
    decreases n,
{
    if n < EXACT_LIMIT {
        1
    } else {
        2 * spacing(n / 2)
    }
}

/// `n` as a double-precision number holds it: the nearest multiple of
/// `spacing(n)`, a tie going to the even multiple.
pub open spec fn as_double(n: nat) -> nat {
    round_half_even(n, spacing(n)) * spacing(n)
}

/// Tenths of `unit` in `size`, rounded half to even from the double-precision
/// value of `size`.
pub open spec fn tenths(size: nat, unit: nat) -> nat
    recommends
        unit > 0,
{
    round_half_even(as_double(size) * 10, unit)
}

/// `size` in `unit`s with one decimal place.
pub open spec fn scaled(size: nat, unit: nat) -> Seq<char>
    recommends
        unit > 0,
{
    decimal(tenths(size, unit) / 10) + "."@ + decimal(tenths(size, unit) % 10)
}

/// The text of a byte count: the largest binary unit that `size` reaches, with
/// one decimal place; below a KiB, the bare count of bytes.
pub open spec fn size_text(size: nat) -> Seq<char> {
    if size >= TIB {
        scaled(size, TIB as nat) + " TiB"@
    } else if size >= GIB {
        scaled(size, GIB as nat) + " GiB"@
    } else if size >= MIB {
        scaled(size, MIB as nat) + " MiB"@
    } else if size >= KIB {
        scaled(size, KIB as nat) + " KiB"@
    } else {
        decimal(size) + " B"@
    }
}

/// How many cells of a bar of `width` cells are filled for an entry of `size`
/// bytes whose largest sibling has `max_size`: the share `size / max_size` of
/// the width, rounded to the nearest cell and never more than `width`. Where
/// every sibling is empty, so is the bar.
pub open spec fn filled_cells(size: nat, max_size: nat, width: nat) -> nat {
    if max_size == 0 {
        if size == 0 {
            0
        } else {
            width
        }
    } else if round_half_up(size * width, max_size) > width {
        width
    } else {
        round_half_up(size * width, max_size)
    }
}

/// The text of a bar: the filled cells, then blanks up to `width`.
pub open spec fn bar_text(size: nat, max_size: nat, width: nat) -> Seq<char> {
    repeat('#', filled_cells(size, max_size, width)) + repeat(
        ' ',
        (width - filled_cells(size, max_size, width)) as nat,
    )
}

/// The one-character text of a decimal digit.
fn digit_str(d: u128) -> (text: &'static str)
    requires
        d < 10,
    ensures
        text@ == seq![digit(d as nat)],
{
    proof {
        reveal_strlit("0");
        reveal_strlit("1");
        reveal_strlit("2");
        reveal_strlit("3");
        reveal_strlit("4");
        reveal_strlit("5");
        reveal_strlit("6");
        reveal_strlit("7");
        reveal_strlit("8");
        reveal_strlit("9");
    }
    let text = if d == 0 {
        "0"
    } else if d == 1 {
        "1"
    } else if d == 2 {
        "2"
    } else if d == 3 {
        "3"
    } else if d == 4 {
        "4"
    } else if d == 5 {
        "5"
    } else if d == 6 {
        "6"
    } else if d == 7 {
        "7"
    } else if d == 8 {
        "8"
    } else {
        "9"
    };
    assert(text@ =~= seq![digit(d as nat)]);
    text
}

/// Appends `n` in decimal to `out`.
pub fn push_decimal(out: &mut String, n: u128)
    ensures
        final(out)@ == old(out)@ + decimal(n as nat),
    decreases n,
{
    if n >= 10 {
        push_decimal(out, n / 10);
    }
    out.append(digit_str(n % 10));
    assert(final(out)@ =~= old(out)@ + decimal(n as nat));
}

/// Appends `c` to `out`, `n` times; `unit` is `c` as a text.
pub(crate) fn push_repeated(out: &mut String, unit: &str, c: char, n: usize)
    requires
        unit@ == seq![c],
    ensures
        final(out)@ == old(out)@ + repeat(c, n as nat),
{
    let mut i: usize = 0;
    while i < n
        invariant
            i <= n,
            unit@ == seq![c],
            out@ == old(out)@ + repeat(c, i as nat),
        decreases n - i,
    {
        out.append(unit);
        i += 1;
        assert(out@ =~= old(out)@ + repeat(c, i as nat));
    }
}

/// Appends `n` blanks to `out`.
pub fn push_blanks(out: &mut String, n: usize)
    ensures
        final(out)@ == old(out)@ + repeat(' ', n as nat),
{
    proof {
        reveal_strlit(" ");
    }
    assert(" "@ =~= seq![' ']);
    push_repeated(out, " ", ' ', n);
}

/// `a / b` rounded to the nearest integer, a tie going to the even neighbour.
fn nearest(a: u128, b: u128) -> (rounded: u128)
    requires
        b > 0,
        a < 0x1000_0000_0000_0000_0000,
        b < 0x1000_0000_0000_0000_0000,
    ensures
        rounded == round_half_even(a as nat, b as nat),
        rounded <= a / b + 1,
{
    let q: u128 = a / b;
    let r: u128 = a % b;
    if 2 * r < b || (2 * r == b && q % 2 == 0) {
        q
    } else {
        q + 1
    }
}

/// `size` as a double-precision number holds it.
pub fn double_of(size: u64) -> (value: u128)
    ensures
        value == as_double(size as nat),
        value <= 0x2_0000_0000_0000_0000,
{
    let mut step: u64 = 1;
    let mut rest: u64 = size;
    while rest >= EXACT_LIMIT
        invariant
            step >= 1,
            step == 1 || rest >= 1,
            step * rest <= size,
            spacing(size as nat) == step * spacing(rest as nat),
        decreases rest,
    {
        proof {
            let half = rest / 2;
            assert(2 * step * half <= step * rest) by (nonlinear_arith)
                requires
                    2 * half <= rest,
                    step >= 1,
            ;
            assert(2 * step <= 2 * step * half) by (nonlinear_arith)
                requires
                    half >= 1,
                    step >= 1,
            ;
            assert(step * (2 * spacing(half as nat)) == (2 * step) * spacing(half as nat))
                by (nonlinear_arith);
        }
        rest = rest / 2;
        step = step * 2;
    }
    let count: u128 = nearest(size as u128, step as u128);
    proof {
        assert(spacing(rest as nat) == 1);
        assert(step * spacing(rest as nat) == step) by (nonlinear_arith)
            requires
                spacing(rest as nat) == 1,
        ;
        let q = (size as int) / (step as int);
        assert(q * step <= size && (q + 1) * step == q * step + step) by (nonlinear_arith)
            requires
                q == (size as int) / (step as int),
                step >= 1,
                size >= 0,
        ;
        assert(step <= size || step == 1) by (nonlinear_arith)
            requires
                step * rest <= size,
                rest >= 1 || step == 1,
                step >= 1,
        ;
        assert(count * step <= (q + 1) * step) by (nonlinear_arith)
            requires
                count <= q + 1,
                step >= 1,
        ;
    }
    count * (step as u128)
}

/// Appends `size` in `unit`s, with one decimal place, to `out`.
fn push_scaled(out: &mut String, size: u64, unit: u64)
    requires
        unit > 0,
    ensures
        final(out)@ == old(out)@ + scaled(size as nat, unit as nat),
{
    let value: u128 = double_of(size);
    let parts: u128 = nearest(value * 10, unit as u128);
    push_decimal(out, parts / 10);
    out.append(".");
    push_decimal(out, parts % 10);
    assert(final(out)@ =~= old(out)@ + scaled(size as nat, unit as nat));
}

/// The text of a byte count in binary units, as [`size_text`] defines it.
pub fn human_readable_size(size: u64) -> (text: String)
    ensures
        text@ == size_text(size as nat),
{
    let mut text = String::new();
    if size >= TIB {
        push_scaled(&mut text, size, TIB);
        text.append(" TiB");
    } else if size >= GIB {
        push_scaled(&mut text, size, GIB);
        text.append(" GiB");
    } else if size >= MIB {
        push_scaled(&mut text, size, MIB);
        text.append(" MiB");
    } else if size >= KIB {
        push_scaled(&mut text, size, KIB);
        text.append(" KiB");
    } else {
        push_decimal(&mut text, size as u128);
        text.append(" B");
    }
    assert(text@ =~= size_text(size as nat));
    text
}

/// The bar of an entry of `size` bytes beside a largest sibling of `max_size`
/// bytes, `bar_width` cells wide.
pub fn generate_bar(size: u64, max_size: u64, bar_width: usize) -> (bar: String)
    ensures
        bar@ == bar_text(size as nat, max_size as nat, bar_width as nat),
        bar@.len() == bar_width,
{
    let filled = filled_length(size, max_size, bar_width);
    let mut bar = String::new();
    proof {
        reveal_strlit("#");
    }
    assert("#"@ =~= seq!['#']);
    push_repeated(&mut bar, "#", '#', filled);
    push_blanks(&mut bar, bar_width - filled);
    assert(bar@ =~= bar_text(size as nat, max_size as nat, bar_width as nat));
    bar
}

/// The number of filled cells of such a bar.
pub fn filled_length(size: u64, max_size: u64, bar_width: usize) -> (filled: usize)
    ensures
        filled == filled_cells(size as nat, max_size as nat, bar_width as nat),
        filled <= bar_width,
{
    if max_size == 0 {
        if size == 0 {
            0
        } else {
            bar_width
        }
    } else {
        assert(size * bar_width <= 0xffff_ffff_ffff_ffff * 0xffff_ffff_ffff_ffff)
            by (nonlinear_arith)
            requires
                size <= 0xffff_ffff_ffff_ffff,
                bar_width <= 0xffff_ffff_ffff_ffff,
        ;
        let product: u128 = (size as u128) * (bar_width as u128);
        let divisor: u128 = max_size as u128;
        let quotient: u128 = product / divisor;
        let rest: u128 = product % divisor;
        let rounded: u128 = if 2 * rest >= divisor {
            quotient + 1
        } else {
            quotient
        };
        if rounded > bar_width as u128 {
            bar_width
        } else {
            rounded as usize
        }
    }
}

} // verus!
