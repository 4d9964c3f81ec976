//! The tray icon: a clock face with two hands, drawn with the precision of single floating-point
//! numbers, that is with 24 significant bits.
use vstd::prelude::*;

verus! {

/// Two to the 23rd: the least mantissa of a single.
pub const LEAST: u64 = 0x80_0000;

/// Two to the 24th: the first number above the mantissas of singles.
pub const ABOVE: u64 = 0x100_0000;

/// The largest icon whose bytes can be counted in 31 bits.
pub const LARGEST: i32 = 23170;

/// Two to the power `k`.
pub open spec fn two_to(k: nat) -> nat
    decreases k,
{
    if k == 0 {
        1
    } else {
        2 * two_to((k - 1) as nat)
    }
}

/// How many bits `n` has beyond the 24 of a mantissa.
pub open spec fn excess(n: nat) -> nat
    decreases n,
{
    if n < ABOVE {
        0
    } else {
        1 + excess(n / 2)
    }
}

/// `n` divided by `unit` and rounded to the nearest integer, halves to the even one.
pub open spec fn rounded_quotient(n: nat, unit: nat) -> nat {
    let q = n / unit;
    let r = n % unit;
    if 2 * r > unit || (2 * r == unit && q % 2 == 1) {
        q + 1
    } else {
        q
    }
}

/// The single nearest to the integer `n`.
pub open spec fn rounded(n: nat) -> nat {
    rounded_quotient(n, two_to(excess(n))) * two_to(excess(n))
}

/// A positive single: `m` divided by two to the power `e`, with `m` in the range of mantissas.
#[derive(Clone, Copy)]
pub struct Single {
    pub m: u64,
    pub e: u32,
}

impl Single {
    /// Whether the parts are in range.
    pub open spec fn valid(self) -> bool {
        LEAST <= self.m < ABOVE && self.e <= 27
    }

    /// The single nearest to `n` divided by two to the power `e`.
    pub open spec fn nearest(n: nat, e: nat) -> (nat, nat) {
        let k = excess(n);
        let m = rounded_quotient(n, two_to(k));
        if m == ABOVE {
            (LEAST as nat, (e - k - 1) as nat)
        } else {
            (m, (e - k) as nat)
        }
    }

    /// The mantissa and the exponent.
    pub open spec fn parts(self) -> (nat, nat) {
        (self.m as nat, self.e as nat)
    }
}

/// 0.42 as a single: 14092861 divided by two to the 25th.
pub const FACE: u64 = 14_092_861;

/// 0.72 as a single: 12079596 divided by two to the 24th.
pub const RIM: u64 = 12_079_596;

/// 0.62 as a single: 10401874 divided by two to the 24th.
pub const HAND: u64 = 10_401_874;

/// The radius of the clock face: 0.42 of the icon's size.
pub open spec fn radius(size: nat) -> (nat, nat) {
    Single::nearest(size * FACE as nat, 25)
}

/// The inner radius of the rim, which is the length of the long hand: 0.72 of the radius.
pub open spec fn inner(size: nat) -> (nat, nat) {
    let (m, e) = radius(size);
    Single::nearest(m * RIM as nat, e + 24)
}

/// The length of the short hand: 0.62 of the inner radius.
pub open spec fn reach(size: nat) -> (nat, nat) {
    let (m, e) = inner(size);
    Single::nearest(m * HAND as nat, e + 24)
}

/// Twice the distance of the pixel `x` from the middle of a line of `size` pixels.
pub open spec fn offset(size: int, x: int) -> int {
    2 * x - (size - 1)
}

/// Four times the square of a pixel's distance from the centre, from twice its distances along
/// the axes.
pub open spec fn square(dx: int, dy: int) -> nat {
    rounded(rounded((dx * dx) as nat) + rounded((dy * dy) as nat))
}

/// Whether half the root of `s`, as a single, is at most `m` divided by two to the power `e`: the
/// root stays below the point halfway to the next single.
pub open spec fn root_at_most(s: nat, bound: (nat, nat)) -> bool {
    let (m, e) = bound;
    s * two_to(e) * two_to(e) < (2 * m + 1) * (2 * m + 1)
}

/// Whether half the root of `s`, as a single, is at least `m` divided by two to the power `e`: the
/// root stays above the point halfway to the single before, which is only half as far away where
/// `m` is the least mantissa.
pub open spec fn root_at_least(s: nat, bound: (nat, nat)) -> bool {
    let (m, e) = bound;
    if m == LEAST {
        4 * (s * two_to(e) * two_to(e)) > (4 * m - 1) * (4 * m - 1)
    } else {
        s * two_to(e) * two_to(e) > (2 * m - 1) * (2 * m - 1)
    }
}

/// Whether half of `d` is at most `m` divided by two to the power `e`.
pub open spec fn half_at_most(d: int, bound: (nat, nat)) -> bool {
    d * two_to(bound.1) <= 2 * bound.0
}

/// Whether the pixel lies on the rim of the clock face.
pub open spec fn on_ring(size: nat, dx: int, dy: int) -> bool {
    root_at_most(square(dx, dy), radius(size)) && root_at_least(square(dx, dy), inner(size))
}

/// Whether the pixel lies on one of the hands: the long one points up, the short one to the right.
pub open spec fn on_hand(size: nat, dx: int, dy: int) -> bool {
    ||| -2 <= dx <= 2 && dy <= 2 && half_at_most(-dy, inner(size))
    ||| -2 <= dy <= 2 && dx >= -2 && half_at_most(dx, reach(size))
}

/// Whether the pixel in column `x` and row `y` is part of the clock.
#[verifier::opaque]
pub open spec fn is_lit(size: int, x: int, y: int) -> bool {
    let dx = offset(size, x);
    let dy = offset(size, y);
    on_ring(size as nat, dx, dy) || on_hand(size as nat, dx, dy)
}

/// The bytes of a pixel: opaque and in `color` where it is part of the clock, and else nothing.
pub open spec fn pixel(size: int, color: (u8, u8, u8), x: int, y: int) -> Seq<u8> {
    if is_lit(size, x, y) {
        seq![0xffu8, color.0, color.1, color.2]
    } else {
        seq![0u8, 0u8, 0u8, 0u8]
    }
}

/// The bytes of the first `x` pixels of row `y`.
pub open spec fn row(size: int, color: (u8, u8, u8), x: int, y: int) -> Seq<u8>
    decreases x,
{
    if x <= 0 {
        seq![]
    } else {
        row(size, color, x - 1, y) + pixel(size, color, x - 1, y)
    }
}

/// The bytes of the first `y` rows.
pub open spec fn rows(size: int, color: (u8, u8, u8), y: int) -> Seq<u8>
    decreases y,
{
    if y <= 0 {
        seq![]
    } else {
        rows(size, color, y - 1) + row(size, color, size, y - 1)
    }
}

/// An icon: its width, its height, and the bytes of its pixels in rows, four for each pixel.
pub struct TrayIcon {
    pub width: i32,
    pub height: i32,
    pub data: Vec<u8>,
}

proof fn lemma_two_to_grows(a: nat, b: nat)
    requires
        a <= b,
    ensures
        1 <= two_to(a) <= two_to(b),
    decreases b,
{
    if a < b {
        lemma_two_to_grows(a, (b - 1) as nat);
    } else if b > 0 {
        lemma_two_to_grows((a - 1) as nat, (b - 1) as nat);
    }
}

/// Without its excess bits a number is in the range of mantissas.
pub proof fn lemma_excess(n: nat)
    ensures
        n < two_to(excess(n)) * ABOVE,
        n >= LEAST ==> two_to(excess(n)) * LEAST <= n,
        two_to(excess(n)) >= 1,
    decreases n,
{
    if n >= ABOVE {
        lemma_excess(n / 2);
    }
}

pub proof fn lemma_excess_at_most(n: nat, k: nat)
    requires
        n < two_to(k) * ABOVE,
    ensures
        excess(n) <= k,
    decreases k,
{
    if n >= ABOVE {
        assert(k > 0);
        lemma_excess_at_most(n / 2, (k - 1) as nat);
    }
}

/// Rounding a number to 24 bits gives a mantissa or the first number above.
pub proof fn lemma_rounded_quotient(n: nat)
    ensures
        rounded_quotient(n, two_to(excess(n))) <= ABOVE,
        n >= LEAST ==> rounded_quotient(n, two_to(excess(n))) >= LEAST,
{
    lemma_excess(n);
    let u = two_to(excess(n));
    assert(n / u < ABOVE) by (nonlinear_arith)
        requires
            n < u * ABOVE,
            u >= 1,
    ;
    if n >= LEAST {
        assert(n / u >= LEAST) by (nonlinear_arith)
            requires
                u * LEAST <= n,
                u >= 1,
        ;
    }
}

/// A number that needs all of `k` bits beyond a mantissa has at least so many in excess.
pub proof fn lemma_excess_at_least(n: nat, k: nat)
    requires
        n >= two_to(k) * LEAST,
        k > 0,
    ensures
        excess(n) >= k,
{
    lemma_excess(n);
    if excess(n) < k {
        lemma_two_to_grows(excess(n), (k - 1) as nat);
        assert(two_to(k) == 2 * two_to((k - 1) as nat));
    }
}

/// The values of the powers of two that bound the arithmetic below.
pub proof fn lemma_powers()
    ensures
        two_to(6) == 0x40,
        two_to(8) == 0x100,
        two_to(15) == 0x8000,
        two_to(23) == 0x80_0000,
        two_to(24) == 0x100_0000,
        two_to(27) == 0x800_0000,
{
    reveal_with_fuel(two_to, 28);
}

/// Two to the power `k`.
fn power(k: u32) -> (p: u64)
    requires
        k <= 27,
    ensures
        p == two_to(k as nat),
        1 <= p <= 0x800_0000,
{
    let mut p: u64 = 1;
    let mut i: u32 = 0;
    proof {
        lemma_powers();
    }
    while i < k
        invariant
            i <= k <= 27,
            p == two_to(i as nat),
            1 <= p <= 0x800_0000,
            two_to(27) == 0x800_0000,
        decreases k - i,
    {
        proof {
            lemma_two_to_grows((i + 1) as nat, 27);
        }
        p = 2 * p;
        i = i + 1;
    }
    p
}

/// How many bits `n` has beyond the 24 of a mantissa.
fn excess_bits(n: u64) -> (k: u32)
    requires
        n < 0x1_0000_0000_0000,
    ensures
        k == excess(n as nat),
        k <= 24,
    decreases n,
{
    proof {
        lemma_powers();
        lemma_excess_at_most(n as nat, 24);
    }
    if n < ABOVE {
        0
    } else {
        1 + excess_bits(n / 2)
    }
}

/// `n` divided by `unit` and rounded to the nearest integer, halves to the even one.
fn round_quotient(n: u64, unit: u64) -> (q: u64)
    requires
        n < 0x1_0000_0000_0000,
        1 <= unit <= 0x800_0000,
    ensures
        q == rounded_quotient(n as nat, unit as nat),
{
    let q = n / unit;
    let r = n % unit;
    assert(q <= n) by (nonlinear_arith)
        requires
            q == n / unit,
            unit >= 1,
    ;
    if 2 * r > unit || (2 * r == unit && q % 2 == 1) {
        q + 1
    } else {
        q
    }
}

/// The single nearest to `n` divided by two to the power `e`.
fn nearest(n: u64, e: u32) -> (s: Single)
    requires
        LEAST <= n < 0x1_0000_0000_0000,
        excess(n as nat) < e <= 60,
    ensures
        s.parts() == Single::nearest(n as nat, e as nat),
        LEAST <= s.m < ABOVE,
        e - excess(n as nat) - 1 <= s.e <= e - excess(n as nat),
{
    let k = excess_bits(n);
    let m = round_quotient(n, power(k));
    proof {
        lemma_rounded_quotient(n as nat);
    }
    if m == ABOVE {
        Single { m: LEAST, e: e - k - 1 }
    } else {
        Single { m, e: e - k }
    }
}

/// The single nearest to the integer `n`.
fn round(n: u64) -> (r: u64)
    requires
        n <= 0x8000_0000,
    ensures
        r == rounded(n as nat),
        r <= 0x1_0000_0000,
        n <= 0x3fff_ffff ==> r <= 0x4000_0000,
{
    let k = excess_bits(n);
    let unit = power(k);
    let q = round_quotient(n, unit);
    proof {
        lemma_powers();
        lemma_rounded_quotient(n as nat);
        lemma_excess_at_most(n as nat, 8);
        lemma_two_to_grows(k as nat, 8);
        assert(q * unit <= 0x100_0000 * 0x100) by (nonlinear_arith)
            requires
                q <= 0x100_0000,
                unit <= 0x100,
        ;
        if n <= 0x3fff_ffff {
            lemma_excess_at_most(n as nat, 6);
            lemma_two_to_grows(k as nat, 6);
            assert(q * unit <= 0x100_0000 * 0x40) by (nonlinear_arith)
                requires
                    q <= 0x100_0000,
                    unit <= 0x40,
            ;
        }
    }
    q * unit
}

/// The radius of the clock face, the inner radius of the rim, and the length of the short hand.
fn measures(size: i32) -> (all: (Single, Single, Single))
    requires
        1 <= size <= LARGEST,
    ensures
        all.0.parts() == radius(size as nat),
        all.1.parts() == inner(size as nat),
        all.2.parts() == reach(size as nat),
        all.0.valid(),
        all.1.valid(),
        all.2.valid(),
{
    let n = size as u64 * FACE;
    proof {
        lemma_powers();
        lemma_excess_at_most(n as nat, 15);
    }
    let face = nearest(n, 25);
    assert(9 <= face.e <= 25);
    let n = face.m * RIM;
    proof {
        assert(0x80_0000 * 12_079_596 <= face.m * RIM <= 0x100_0000 * 12_079_596)
            by (nonlinear_arith)
            requires
                0x80_0000 <= face.m <= 0x100_0000,
                RIM == 12_079_596,
        ;
        lemma_excess_at_most(n as nat, 24);
        lemma_excess_at_least(n as nat, 23);
    }
    let rim = nearest(n, face.e + 24);
    assert(8 <= rim.e <= 26);
    let n = rim.m * HAND;
    proof {
        assert(0x80_0000 * 10_401_874 <= rim.m * HAND <= 0x100_0000 * 10_401_874)
            by (nonlinear_arith)
            requires
                0x80_0000 <= rim.m <= 0x100_0000,
                HAND == 10_401_874,
        ;
        lemma_excess_at_most(n as nat, 24);
        lemma_excess_at_least(n as nat, 23);
    }
    let hand = nearest(n, rim.e + 24);
    (face, rim, hand)
}

/// `s` times two to the power `2 * e`.
fn scaled(s: u64, e: u32) -> (p: u128)
    requires
        s <= 0x1_0000_0000,
        e <= 27,
    ensures
        p == s * two_to(e as nat) * two_to(e as nat),
        p <= 0x1_0000_0000 * 0x800_0000 * 0x800_0000,
{
    let p: u128 = power(e) as u128;
    let s: u128 = s as u128;
    assert(s * p <= 0x1_0000_0000 * 0x800_0000) by (nonlinear_arith)
        requires
            s <= 0x1_0000_0000,
            p <= 0x800_0000,
    ;
    let sp = s * p;
    assert(sp * p <= 0x1_0000_0000 * 0x800_0000 * 0x800_0000) by (nonlinear_arith)
        requires
            sp <= 0x1_0000_0000 * 0x800_0000,
            p <= 0x800_0000,
    ;
    sp * p
}

/// The square of `a`.
fn squared(a: u64) -> (p: u128)
    requires
        a <= 0x400_0000,
    ensures
        p == a * a,
{
    assert(a * a <= 0x400_0000 * 0x400_0000) by (nonlinear_arith)
        requires
            a <= 0x400_0000,
    ;
    a as u128 * a as u128
}

/// Whether half the root of `s`, as a single, is at most `bound`.
fn is_root_at_most(s: u64, bound: Single) -> (yes: bool)
    requires
        s <= 0x1_0000_0000,
        bound.valid(),
    ensures
        yes == root_at_most(s as nat, bound.parts()),
{
    scaled(s, bound.e) < squared(2 * bound.m + 1)
}

/// Whether half the root of `s`, as a single, is at least `bound`.
fn is_root_at_least(s: u64, bound: Single) -> (yes: bool)
    requires
        s <= 0x1_0000_0000,
        bound.valid(),
    ensures
        yes == root_at_least(s as nat, bound.parts()),
{
    if bound.m == LEAST {
        4 * scaled(s, bound.e) > squared(4 * bound.m - 1)
    } else {
        scaled(s, bound.e) > squared(2 * bound.m - 1)
    }
}

/// Whether half of `d` is at most `bound`.
fn is_half_at_most(d: i64, bound: Single) -> (yes: bool)
    requires
        -0x8000 <= d <= 0x8000,
        bound.valid(),
    ensures
        yes == half_at_most(d as int, bound.parts()),
{
    let p = power(bound.e) as i64;
    assert(-0x8000 * 0x800_0000 <= d * p <= 0x8000 * 0x800_0000) by (nonlinear_arith)
        requires
            -0x8000 <= d <= 0x8000,
            1 <= p <= 0x800_0000,
    ;
    d * p <= 2 * bound.m as i64
}

/// Whether the pixel in column `x` and row `y` is part of the clock.
fn lit(size: i32, x: i32, y: i32, face: Single, rim: Single, hand: Single) -> (yes: bool)
    requires
        1 <= size <= LARGEST,
        0 <= x < size,
        0 <= y < size,
        face.valid(),
        rim.valid(),
        hand.valid(),
        face.parts() == radius(size as nat),
        rim.parts() == inner(size as nat),
        hand.parts() == reach(size as nat),
    ensures
        yes == is_lit(size as int, x as int, y as int),
{
    let dx = 2 * x as i64 - (size as i64 - 1);
    let dy = 2 * y as i64 - (size as i64 - 1);
    assert(0 <= dx * dx <= 0x3fff_ffff) by (nonlinear_arith)
        requires
            -23170 <= dx <= 23170,
    ;
    assert(0 <= dy * dy <= 0x3fff_ffff) by (nonlinear_arith)
        requires
            -23170 <= dy <= 23170,
    ;
    let s = round(round((dx * dx) as u64) + round((dy * dy) as u64));
    proof {
        reveal(is_lit);
    }
    let ring = is_root_at_most(s, face) && is_root_at_least(s, rim);
    let long = -2 <= dx && dx <= 2 && dy <= 2 && is_half_at_most(-dy, rim);
    let short = -2 <= dy && dy <= 2 && dx >= -2 && is_half_at_most(dx, hand);
    ring || long || short
}

/// A square icon of a clock in the colour given by its red, green and blue.
pub fn solid_clock_icon(size: i32, color: (u8, u8, u8)) -> (icon: TrayIcon)
    requires
        -LARGEST <= size <= LARGEST,
    ensures
        icon.width == size,
        icon.height == size,
        icon.data@ == rows(size as int, color, size as int),
{
    let mut data: Vec<u8> = Vec::new();
    if size > 0 {
        let (face, rim, hand) = measures(size);
        let mut y: i32 = 0;
        while y < size
            invariant
                1 <= size <= LARGEST,
                0 <= y <= size,
                data@ == rows(size as int, color, y as int),
                face.valid(),
                rim.valid(),
                hand.valid(),
                face.parts() == radius(size as nat),
                rim.parts() == inner(size as nat),
                hand.parts() == reach(size as nat),
            decreases size - y,
        {
            let mut x: i32 = 0;
            let ghost above = data@;
            while x < size
                invariant
                    1 <= size <= LARGEST,
                    0 <= y < size,
                    0 <= x <= size,
                    data@ == above + row(size as int, color, x as int, y as int),
                    face.valid(),
                    rim.valid(),
                    hand.valid(),
                    face.parts() == radius(size as nat),
                    rim.parts() == inner(size as nat),
                    hand.parts() == reach(size as nat),
                decreases size - x,
            {
                let ghost before = data@;
                if lit(size, x, y, face, rim, hand) {
                    data.push(0xff);
                    data.push(color.0);
                    data.push(color.1);
                    data.push(color.2);
                } else {
                    data.push(0);
                    data.push(0);
                    data.push(0);
                    data.push(0);
                }
                proof {
                    let point = pixel(size as int, color, x as int, y as int);
                    assert(data@ =~= before + point);
                    assert(data@ =~= above + (row(size as int, color, x as int, y as int) + point));
                }
                x = x + 1;
            }
            y = y + 1;
        }
    }
    TrayIcon { width: size, height: size, data }
}

/// A row of pixels is four bytes a pixel long.
proof fn lemma_row_len(size: int, color: (u8, u8, u8), n: int, y: int)
    requires
        0 <= n,
    ensures
        row(size, color, n, y).len() == 4 * n,
    decreases n,
{
    if n > 0 {
        lemma_row_len(size, color, n - 1, y);
        assert(row(size, color, n, y) == row(size, color, n - 1, y) + pixel(
            size,
            color,
            n - 1,
            y,
        ));
        assert(pixel(size, color, n - 1, y).len() == 4);
    }
}

/// Each pixel of a row stands in its place.
proof fn lemma_row(size: int, color: (u8, u8, u8), n: int, x: int, y: int)
    requires
        0 <= x < n,
    ensures
        row(size, color, n, y).subrange(4 * x, 4 * x + 4) == pixel(size, color, x, y),
    decreases n,
{
    let front = row(size, color, n - 1, y);
    let last = pixel(size, color, n - 1, y);
    let all = front + last;
    lemma_row_len(size, color, n - 1, y);
    assert(last.len() == 4);
    assert(row(size, color, n, y) == all);
    if x < n - 1 {
        lemma_row(size, color, n - 1, x, y);
        lemma_front_part(front, last, 4 * x);
    } else {
        assert(all.subrange(4 * x, 4 * x + 4) =~= last);
    }
}

/// Four bytes that stand in the first of two parts stand in the same place of both together.
proof fn lemma_front_part(front: Seq<u8>, rest: Seq<u8>, at: int)
    requires
        0 <= at,
        at + 4 <= front.len(),
    ensures
        (front + rest).subrange(at, at + 4) == front.subrange(at, at + 4),
{
    assert((front + rest).subrange(at, at + 4) =~= front.subrange(at, at + 4));
}

/// Four bytes that stand in the second of two parts stand behind the first in both together.
proof fn lemma_rest_part(front: Seq<u8>, rest: Seq<u8>, at: int)
    requires
        0 <= at,
        at + 4 <= rest.len(),
    ensures
        (front + rest).subrange(front.len() + at, front.len() + at + 4) == rest.subrange(at, at + 4),
{
    assert((front + rest).subrange(front.len() + at, front.len() + at + 4) =~= rest.subrange(
        at,
        at + 4,
    ));
}

proof fn lemma_rows(size: int, color: (u8, u8, u8), n: int, x: int, y: int)
    requires
        0 <= x < size,
        0 <= y < n,
    ensures
        rows(size, color, n).len() == 4 * (n * size),
        rows(size, color, n).subrange(4 * (y * size + x), 4 * (y * size + x) + 4) == pixel(
            size,
            color,
            x,
            y,
        ),
    decreases n,
{
    let front = rows(size, color, n - 1);
    let last = row(size, color, size, n - 1);
    let all = rows(size, color, n);
    if n - 1 > 0 {
        lemma_rows(size, color, n - 1, x, if y < n - 1 { y } else { 0 });
    }
    lemma_row(size, color, size, x, n - 1);
    lemma_row_len(size, color, size, n - 1);
    assert(all == front + last);
    assert(front.len() == 4 * ((n - 1) * size));
    assert(n * size == (n - 1) * size + size) by (nonlinear_arith);
    let at = 4 * (y * size + x);
    if y < n - 1 {
        assert(y * size + size <= (n - 1) * size) by (nonlinear_arith)
            requires
                y < n - 1,
                size > 0,
        ;
        assert(y * size >= 0) by (nonlinear_arith)
            requires
                y >= 0,
                size > 0,
        ;
        lemma_front_part(front, last, at);
    } else {
        assert((n - 1) * size >= 0) by (nonlinear_arith)
            requires
                n >= 1,
                size > 0,
        ;
        lemma_rest_part(front, last, 4 * x);
    }
}

/// An icon has four bytes for each of its pixels, and the bytes of the pixel in column `x` and row
/// `y` are the ones that the clock has there.
pub proof fn law_icon_pixels(size: int, color: (u8, u8, u8), x: int, y: int)
    requires
        0 <= x < size,
        0 <= y < size,
    ensures
        rows(size, color, size).len() == 4 * (size * size),
        rows(size, color, size).subrange(4 * (y * size + x), 4 * (y * size + x) + 4) == pixel(
            size,
            color,
            x,
            y,
        ),
{
    lemma_rows(size, color, size, x, y);
}

} // verus!
