use vstd::prelude::*;

use vstd::arithmetic::div_mod::{lemma_fundamental_div_mod, lemma_fundamental_div_mod_converse};

verus! {

/// `255 * n / d` rounded to the nearest integer (halves up), for `0 <= n <= d`.
pub open spec fn to_byte(n: int, d: int) -> int {
    (510 * n + d) / (2 * d)
}

/// Red, green and blue of HSV(h, s, v) as fractions over `1_000_000 * h_den`, where the
/// hue is `h_num / h_den` turns and `s`, `v` are in thousandths. This is the six-sector
/// conversion: sector `floor(6h) mod 6`, fractional part `f`, `p = v(1 - s)`,
/// `q = v(1 - fs)`, `t = v(1 - (1 - f)s)`.
pub open spec fn hsv_fractions(h_num: int, h_den: int, s: int, v: int) -> (int, int, int) {
    let sector = (6 * h_num / h_den) % 6;
    let f = (6 * h_num) % h_den;
    let vv = v * 1000 * h_den;
    let p = v * (1000 - s) * h_den;
    let q = v * (1000 * h_den - f * s);
    let t = v * (1000 * h_den - (h_den - f) * s);
    if sector == 0 {
        (vv, t, p)
    } else if sector == 1 {
        (q, vv, p)
    } else if sector == 2 {
        (p, vv, t)
    } else if sector == 3 {
        (p, q, vv)
    } else if sector == 4 {
        (t, p, vv)
    } else {
        (vv, p, q)
    }
}

/// The HSV colour as bytes: each channel times 255, rounded.
pub open spec fn hsv_rgb(h_num: int, h_den: int, s: int, v: int) -> (int, int, int) {
    let (r, g, b) = hsv_fractions(h_num, h_den, s, v);
    let d = 1_000_000 * h_den;
    (to_byte(r, d), to_byte(g, d), to_byte(b, d))
}

proof fn lemma_mul_le(a: int, b: int, c: int, d: int)
    requires
        0 <= a <= b,
        0 <= c <= d,
    ensures
        0 <= a * c <= b * d,
{
    assert(0 <= a * c <= b * d) by (nonlinear_arith)
        requires
            0 <= a <= b,
            0 <= c <= d,
    ;
}

fn channel_byte(n: u128, d: u128) -> (r: u8)
    requires
        0 < d <= 0x1_0000_0000_0000_0000_0000_0000_0000,
        n <= d,
    ensures
        r == to_byte(n as int, d as int),
{
    proof {
        assert(510 * n + d <= 511 * d);
        assert((510 * n + d) / (2 * d) <= 255) by (nonlinear_arith)
            requires
                0 < d,
                510 * n + d <= 511 * d,
        ;
    }
    ((510 * n + d) / (2 * d)) as u8
}

/// Sector `floor(6h) mod 6` and the numerator, over `h_den`, of the fractional part of
/// `6h`, for the hue `h = h_num / h_den`, negative hues included.
fn hue_split(h_num: i128, h_den: u128) -> (r: (u128, u128))
    requires
        0 < h_den <= 0x1_0000_0000_0000_0000_0000,
        -0x10_0000_0000_0000_0000_0000_0000 <= h_num <= 0x10_0000_0000_0000_0000_0000_0000,
    ensures
        r.0 == (6 * h_num / (h_den as int)) % 6,
        r.1 == (6 * h_num) % (h_den as int),
{
    let hd: u128 = h_den;
    if h_num >= 0 {
        let a: u128 = 6 * (h_num as u128);
        (a / hd % 6, a % hd)
    } else {
        let a: u128 = 6 * ((-h_num) as u128);
        let q: u128 = a / hd;
        let r: u128 = a % hd;
        let (whole, f) = if r == 0 {
            (q, 0)
        } else {
            (q + 1, hd - r)
        };
        let b: u128 = whole % 6;
        let sector: u128 = if b == 0 {
            0
        } else {
            6 - b
        };
        proof {
            let x = 6 * h_num;
            lemma_fundamental_div_mod(a as int, hd as int);
            assert(a == q * hd + r) by (nonlinear_arith)
                requires
                    a == hd * q + r,
            ;
            assert(x == -(q * hd + r));
            if r == 0 {
                assert(x == (-q) * hd + 0) by (nonlinear_arith)
                    requires
                        x == -(q * hd + r),
                        r == 0,
                ;
            } else {
                assert(x == (-q - 1) * hd + (hd - r)) by (nonlinear_arith)
                    requires
                        x == -(q * hd + r),
                ;
            }
            lemma_fundamental_div_mod_converse(x, hd as int, -whole, f as int);
            let k = whole / 6;
            assert(whole == k * 6 + b);
            if b == 0 {
                lemma_fundamental_div_mod_converse(-whole, 6, -k, 0);
            } else {
                lemma_fundamental_div_mod_converse(-whole, 6, -k - 1, 6 - b);
            }
        }
        (sector, f)
    }
}

/// Converts HSV to RGB bytes. The hue is `h_num / h_den` of a full turn (any number of
/// turns, either way); saturation and value are in thousandths.
pub fn hsv_to_rgb(h_num: i128, h_den: u128, s: u32, v: u32) -> (rgb: (u8, u8, u8))
    requires
        0 < h_den <= 0x1_0000_0000_0000_0000_0000,
        -0x10_0000_0000_0000_0000_0000_0000 <= h_num <= 0x10_0000_0000_0000_0000_0000_0000,
        s <= 1000,
        v <= 1000,
    ensures
        (rgb.0 as int, rgb.1 as int, rgb.2 as int) == hsv_rgb(
            h_num as int,
            h_den as int,
            s as int,
            v as int,
        ),
{
    let hd: u128 = h_den;
    let s: u128 = s as u128;
    let v: u128 = v as u128;
    let (sector, f) = hue_split(h_num, hd);
    proof {
        lemma_mul_le(s as int, 1000, hd as int, hd as int);
        lemma_mul_le(f as int, hd as int, s as int, 1000);
        lemma_mul_le((hd - f) as int, hd as int, s as int, 1000);
        lemma_mul_le(v as int, 1000, 1000 * hd, 1000 * hd);
        lemma_mul_le(1000 - s, 1000, hd as int, hd as int);
        lemma_mul_le(v as int, 1000, 1000 - s, 1000);
        lemma_mul_le(v as int, 1000, (1000 - s) * hd, 1000 * hd);
        lemma_mul_le(v as int, 1000, 1000 * hd - f * s, 1000 * hd);
        lemma_mul_le(v as int, 1000, 1000 * hd - (hd - f) * s, 1000 * hd);
        assert(v * 1000 * hd == v * (1000 * hd)) by (nonlinear_arith);
        assert(v * (1000 - s) * hd == v * ((1000 - s) * hd)) by (nonlinear_arith);
    }
    let vv: u128 = v * 1000 * hd;
    let p: u128 = v * (1000 - s) * hd;
    let q: u128 = v * (1000 * hd - f * s);
    let t: u128 = v * (1000 * hd - (hd - f) * s);
    let (r, g, b) = if sector == 0 {
        (vv, t, p)
    } else if sector == 1 {
        (q, vv, p)
    } else if sector == 2 {
        (p, vv, t)
    } else if sector == 3 {
        (p, q, vv)
    } else if sector == 4 {
        (t, p, vv)
    } else {
        (vv, p, q)
    };
    let d: u128 = 1_000_000 * hd;
    (channel_byte(r, d), channel_byte(g, d), channel_byte(b, d))
}

} // verus!
