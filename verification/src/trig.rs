//! Sines and cosines of whole degrees, in millionths.
//!
//! Angles are whole degrees, counted counter-clockwise from the positive x
//! axis and kept in `0 .. 360`. One quarter wave is tabulated to the nearest
//! millionth; the other three quarters follow by symmetry.

use vstd::prelude::*;
use crate::units::{div_toward_zero, lemma_product_bound, ONE};

verus! {

/// Bound on how far the squared length of a tabulated unit vector is from
/// the square of one unit.
pub const UNIT_SLACK: i64 = 1_200_000;

/// Least difference, in cosine or in sine, between the headings of two
/// different degrees of the half turn.
pub const HEADING_GAP: i64 = 1_600;

/// Largest inner product of two representable vectors.
pub const ALIGN_MAX: i64 = 20_000_000_000_000_000;

/// Degrees in a full turn.
pub const FULL_TURN: u32 = 360;

/// Whether `deg` is a normalised angle.
pub open spec fn is_angle(deg: int) -> bool {
    0 <= deg < FULL_TURN
}

/// The sine of `d` degrees in millionths, for `d` in the first quarter.
#[verifier::opaque]
pub open spec fn quarter_sine(d: int) -> int {
    if d == 0 {
        0
    } else if d == 1 {
        17_452
    } else if d == 2 {
        34_899
    } else if d == 3 {
        52_336
    } else if d == 4 {
        69_756
    } else if d == 5 {
        87_156
    } else if d == 6 {
        104_528
    } else if d == 7 {
        121_869
    } else if d == 8 {
        139_173
    } else if d == 9 {
        156_434
    } else if d == 10 {
        173_648
    } else if d == 11 {
        190_809
    } else if d == 12 {
        207_912
    } else if d == 13 {
        224_951
    } else if d == 14 {
        241_922
    } else if d == 15 {
        258_819
    } else if d == 16 {
        275_637
    } else if d == 17 {
        292_372
    } else if d == 18 {
        309_017
    } else if d == 19 {
        325_568
    } else if d == 20 {
        342_020
    } else if d == 21 {
        358_368
    } else if d == 22 {
        374_607
    } else if d == 23 {
        390_731
    } else if d == 24 {
        406_737
    } else if d == 25 {
        422_618
    } else if d == 26 {
        438_371
    } else if d == 27 {
        453_990
    } else if d == 28 {
        469_472
    } else if d == 29 {
        484_810
    } else if d == 30 {
        500_000
    } else if d == 31 {
        515_038
    } else if d == 32 {
        529_919
    } else if d == 33 {
        544_639
    } else if d == 34 {
        559_193
    } else if d == 35 {
        573_576
    } else if d == 36 {
        587_785
    } else if d == 37 {
        601_815
    } else if d == 38 {
        615_661
    } else if d == 39 {
        629_320
    } else if d == 40 {
        642_788
    } else if d == 41 {
        656_059
    } else if d == 42 {
        669_131
    } else if d == 43 {
        681_998
    } else if d == 44 {
        694_658
    } else if d == 45 {
        707_107
    } else if d == 46 {
        719_340
    } else if d == 47 {
        731_354
    } else if d == 48 {
        743_145
    } else if d == 49 {
        754_710
    } else if d == 50 {
        766_044
    } else if d == 51 {
        777_146
    } else if d == 52 {
        788_011
    } else if d == 53 {
        798_636
    } else if d == 54 {
        809_017
    } else if d == 55 {
        819_152
    } else if d == 56 {
        829_038
    } else if d == 57 {
        838_671
    } else if d == 58 {
        848_048
    } else if d == 59 {
        857_167
    } else if d == 60 {
        866_025
    } else if d == 61 {
        874_620
    } else if d == 62 {
        882_948
    } else if d == 63 {
        891_007
    } else if d == 64 {
        898_794
    } else if d == 65 {
        906_308
    } else if d == 66 {
        913_545
    } else if d == 67 {
        920_505
    } else if d == 68 {
        927_184
    } else if d == 69 {
        933_580
    } else if d == 70 {
        939_693
    } else if d == 71 {
        945_519
    } else if d == 72 {
        951_057
    } else if d == 73 {
        956_305
    } else if d == 74 {
        961_262
    } else if d == 75 {
        965_926
    } else if d == 76 {
        970_296
    } else if d == 77 {
        974_370
    } else if d == 78 {
        978_148
    } else if d == 79 {
        981_627
    } else if d == 80 {
        984_808
    } else if d == 81 {
        987_688
    } else if d == 82 {
        990_268
    } else if d == 83 {
        992_546
    } else if d == 84 {
        994_522
    } else if d == 85 {
        996_195
    } else if d == 86 {
        997_564
    } else if d == 87 {
        998_630
    } else if d == 88 {
        999_391
    } else if d == 89 {
        999_848
    } else {
        1_000_000
    }
}

/// The sine of `deg` degrees in millionths.
pub open spec fn sin_micro(deg: int) -> int {
    if deg <= 90 {
        quarter_sine(deg)
    } else if deg <= 180 {
        quarter_sine(180 - deg)
    } else if deg <= 270 {
        -quarter_sine(deg - 180)
    } else {
        -quarter_sine(360 - deg)
    }
}

/// The cosine of `deg` degrees in millionths.
pub open spec fn cos_micro(deg: int) -> int {
    sin_micro((deg + 90) % 360)
}

/// `deg` turned by `by` degrees and brought back into `0 .. 360`.
pub open spec fn turned(deg: int, by: int) -> int {
    (deg + by) % 360
}

/// How well the direction `deg` degrees away fits a vector that lies
/// `along` the reference direction and `across` it: the inner product of
/// the two, a million times the vector's length times the cosine of the
/// angle between them. It is largest for the direction nearest the vector.
pub open spec fn alignment(along: int, across: int, deg: int) -> int {
    along * cos_micro(deg) + across * sin_micro(deg)
}

/// Among the whole degrees from zero to `last`, the one whose direction
/// fits the vector best; of several that fit equally well, the smallest.
pub open spec fn nearest_upto(along: int, across: int, last: nat) -> int
    decreases last,
{
    if last == 0 {
        0
    } else {
        let best = nearest_upto(along, across, (last - 1) as nat);
        if alignment(along, across, last as int) > alignment(along, across, best) {
            last as int
        } else {
            best
        }
    }
}

/// The whole degree of the half turn whose direction is nearest to the
/// vector that lies `along` the reference direction and `across` it.
pub open spec fn nearest_degree(along: int, across: int) -> int {
    nearest_upto(along, across, 180)
}

/// A tabulated sine and the sine of the complementary angle are the two
/// sides of a right triangle whose hypotenuse is one unit long, to within
/// two millionths: the sum of their squares differs from one by less than
/// `UNIT_SLACK`.
pub proof fn lemma_quarter_unit(d: int)
    requires
        0 <= d <= 90,
    ensures
        -UNIT_SLACK < quarter_sine(d) * quarter_sine(d) + quarter_sine(90 - d) * quarter_sine(
            90 - d,
        ) - ONE * ONE < UNIT_SLACK,
{
    reveal(quarter_sine);
    if d == 0 {
    } else if d == 1 {
    } else if d == 2 {
    } else if d == 3 {
    } else if d == 4 {
    } else if d == 5 {
    } else if d == 6 {
    } else if d == 7 {
    } else if d == 8 {
    } else if d == 9 {
    } else if d == 10 {
    } else if d == 11 {
    } else if d == 12 {
    } else if d == 13 {
    } else if d == 14 {
    } else if d == 15 {
    } else if d == 16 {
    } else if d == 17 {
    } else if d == 18 {
    } else if d == 19 {
    } else if d == 20 {
    } else if d == 21 {
    } else if d == 22 {
    } else if d == 23 {
    } else if d == 24 {
    } else if d == 25 {
    } else if d == 26 {
    } else if d == 27 {
    } else if d == 28 {
    } else if d == 29 {
    } else if d == 30 {
    } else if d == 31 {
    } else if d == 32 {
    } else if d == 33 {
    } else if d == 34 {
    } else if d == 35 {
    } else if d == 36 {
    } else if d == 37 {
    } else if d == 38 {
    } else if d == 39 {
    } else if d == 40 {
    } else if d == 41 {
    } else if d == 42 {
    } else if d == 43 {
    } else if d == 44 {
    } else if d == 45 {
    } else if d == 46 {
    } else if d == 47 {
    } else if d == 48 {
    } else if d == 49 {
    } else if d == 50 {
    } else if d == 51 {
    } else if d == 52 {
    } else if d == 53 {
    } else if d == 54 {
    } else if d == 55 {
    } else if d == 56 {
    } else if d == 57 {
    } else if d == 58 {
    } else if d == 59 {
    } else if d == 60 {
    } else if d == 61 {
    } else if d == 62 {
    } else if d == 63 {
    } else if d == 64 {
    } else if d == 65 {
    } else if d == 66 {
    } else if d == 67 {
    } else if d == 68 {
    } else if d == 69 {
    } else if d == 70 {
    } else if d == 71 {
    } else if d == 72 {
    } else if d == 73 {
    } else if d == 74 {
    } else if d == 75 {
    } else if d == 76 {
    } else if d == 77 {
    } else if d == 78 {
    } else if d == 79 {
    } else if d == 80 {
    } else if d == 81 {
    } else if d == 82 {
    } else if d == 83 {
    } else if d == 84 {
    } else if d == 85 {
    } else if d == 86 {
    } else if d == 87 {
    } else if d == 88 {
    } else if d == 89 {
    } else if d == 90 {
    } else {
    }
}

/// The sine and cosine of every angle are the two sides of a right triangle
/// whose hypotenuse is one unit long, to within two millionths.
pub proof fn lemma_unit_length(deg: int)
    requires
        is_angle(deg),
    ensures
        -UNIT_SLACK < cos_micro(deg) * cos_micro(deg) + sin_micro(deg) * sin_micro(deg) - ONE
            * ONE < UNIT_SLACK,
{
    let d = if deg <= 90 {
        deg
    } else if deg <= 180 {
        180 - deg
    } else if deg <= 270 {
        deg - 180
    } else {
        360 - deg
    };
    lemma_quarter_unit(d);
    let s = quarter_sine(d);
    let c = quarter_sine(90 - d);
    assert(sin_micro(deg) == s || sin_micro(deg) == -s);
    assert(cos_micro(deg) == c || cos_micro(deg) == -c);
    assert((-s) * (-s) == s * s) by (nonlinear_arith);
    assert((-c) * (-c) == c * c) by (nonlinear_arith);
}

/// Each tabulated sine is larger than the one before.
pub proof fn lemma_quarter_sine_step(d: int)
    requires
        0 <= d < 90,
    ensures
        quarter_sine(d) < quarter_sine(d + 1),
{
    reveal(quarter_sine);
    if d == 0 {
    } else if d == 1 {
    } else if d == 2 {
    } else if d == 3 {
    } else if d == 4 {
    } else if d == 5 {
    } else if d == 6 {
    } else if d == 7 {
    } else if d == 8 {
    } else if d == 9 {
    } else if d == 10 {
    } else if d == 11 {
    } else if d == 12 {
    } else if d == 13 {
    } else if d == 14 {
    } else if d == 15 {
    } else if d == 16 {
    } else if d == 17 {
    } else if d == 18 {
    } else if d == 19 {
    } else if d == 20 {
    } else if d == 21 {
    } else if d == 22 {
    } else if d == 23 {
    } else if d == 24 {
    } else if d == 25 {
    } else if d == 26 {
    } else if d == 27 {
    } else if d == 28 {
    } else if d == 29 {
    } else if d == 30 {
    } else if d == 31 {
    } else if d == 32 {
    } else if d == 33 {
    } else if d == 34 {
    } else if d == 35 {
    } else if d == 36 {
    } else if d == 37 {
    } else if d == 38 {
    } else if d == 39 {
    } else if d == 40 {
    } else if d == 41 {
    } else if d == 42 {
    } else if d == 43 {
    } else if d == 44 {
    } else if d == 45 {
    } else if d == 46 {
    } else if d == 47 {
    } else if d == 48 {
    } else if d == 49 {
    } else if d == 50 {
    } else if d == 51 {
    } else if d == 52 {
    } else if d == 53 {
    } else if d == 54 {
    } else if d == 55 {
    } else if d == 56 {
    } else if d == 57 {
    } else if d == 58 {
    } else if d == 59 {
    } else if d == 60 {
    } else if d == 61 {
    } else if d == 62 {
    } else if d == 63 {
    } else if d == 64 {
    } else if d == 65 {
    } else if d == 66 {
    } else if d == 67 {
    } else if d == 68 {
    } else if d == 69 {
    } else if d == 70 {
    } else if d == 71 {
    } else if d == 72 {
    } else if d == 73 {
    } else if d == 74 {
    } else if d == 75 {
    } else if d == 76 {
    } else if d == 77 {
    } else if d == 78 {
    } else if d == 79 {
    } else if d == 80 {
    } else if d == 81 {
    } else if d == 82 {
    } else if d == 83 {
    } else if d == 84 {
    } else if d == 85 {
    } else if d == 86 {
    } else if d == 87 {
    } else if d == 88 {
    } else if d == 89 {
    } else {
    }
}

/// The tabulated sines grow with the angle.
pub proof fn lemma_quarter_sine_grows(low: int, high: int)
    requires
        0 <= low < high <= 90,
    ensures
        quarter_sine(low) < quarter_sine(high),
    decreases high - low,
{
    lemma_quarter_sine_step(high - 1);
    if low < high - 1 {
        lemma_quarter_sine_grows(low, high - 1);
    }
}

/// Over the half turn the cosine falls as the angle grows.
pub proof fn lemma_cosine_falls(low: int, high: int)
    requires
        0 <= low < high <= 180,
    ensures
        cos_micro(low) > cos_micro(high),
{
    lemma_quarter_sine_bounds(0);
    if high <= 90 {
        lemma_quarter_sine_grows(90 - high, 90 - low);
    } else if low >= 90 {
        lemma_quarter_sine_grows(low - 90, high - 90);
    } else {
        lemma_quarter_sine_grows(0, high - 90);
        lemma_quarter_sine_bounds(90 - low);
    }
}

/// Up to eighty-four degrees each tabulated sine exceeds the one before by
/// `HEADING_GAP` or more.
pub proof fn lemma_quarter_sine_gap(i: int)
    requires
        0 <= i <= 84,
    ensures
        quarter_sine(i + 1) - quarter_sine(i) >= HEADING_GAP,
{
    reveal(quarter_sine);
    if i == 0 {
    } else if i == 1 {
    } else if i == 2 {
    } else if i == 3 {
    } else if i == 4 {
    } else if i == 5 {
    } else if i == 6 {
    } else if i == 7 {
    } else if i == 8 {
    } else if i == 9 {
    } else if i == 10 {
    } else if i == 11 {
    } else if i == 12 {
    } else if i == 13 {
    } else if i == 14 {
    } else if i == 15 {
    } else if i == 16 {
    } else if i == 17 {
    } else if i == 18 {
    } else if i == 19 {
    } else if i == 20 {
    } else if i == 21 {
    } else if i == 22 {
    } else if i == 23 {
    } else if i == 24 {
    } else if i == 25 {
    } else if i == 26 {
    } else if i == 27 {
    } else if i == 28 {
    } else if i == 29 {
    } else if i == 30 {
    } else if i == 31 {
    } else if i == 32 {
    } else if i == 33 {
    } else if i == 34 {
    } else if i == 35 {
    } else if i == 36 {
    } else if i == 37 {
    } else if i == 38 {
    } else if i == 39 {
    } else if i == 40 {
    } else if i == 41 {
    } else if i == 42 {
    } else if i == 43 {
    } else if i == 44 {
    } else if i == 45 {
    } else if i == 46 {
    } else if i == 47 {
    } else if i == 48 {
    } else if i == 49 {
    } else if i == 50 {
    } else if i == 51 {
    } else if i == 52 {
    } else if i == 53 {
    } else if i == 54 {
    } else if i == 55 {
    } else if i == 56 {
    } else if i == 57 {
    } else if i == 58 {
    } else if i == 59 {
    } else if i == 60 {
    } else if i == 61 {
    } else if i == 62 {
    } else if i == 63 {
    } else if i == 64 {
    } else if i == 65 {
    } else if i == 66 {
    } else if i == 67 {
    } else if i == 68 {
    } else if i == 69 {
    } else if i == 70 {
    } else if i == 71 {
    } else if i == 72 {
    } else if i == 73 {
    } else if i == 74 {
    } else if i == 75 {
    } else if i == 76 {
    } else if i == 77 {
    } else if i == 78 {
    } else if i == 79 {
    } else if i == 80 {
    } else if i == 81 {
    } else if i == 82 {
    } else if i == 83 {
    } else if i == 84 {
    } else {
    }
}

/// The headings of two different degrees of the half turn lie apart: in
/// cosine or in sine they differ by `HEADING_GAP` or more.
pub proof fn lemma_headings_apart(low: int, high: int)
    requires
        0 <= low < high <= 180,
    ensures
        cos_micro(low) - cos_micro(high) >= HEADING_GAP || sin_micro(high) - sin_micro(low)
            >= HEADING_GAP || sin_micro(low) - sin_micro(high) >= HEADING_GAP,
{
    if high <= 5 {
        // Near zero the sine separates the two.
        lemma_quarter_sine_gap(low);
        if low + 1 < high {
            lemma_quarter_sine_grows(low + 1, high);
        }
    } else if low >= 175 {
        // Near the half turn the sine separates them again.
        lemma_quarter_sine_gap(180 - high);
        if low + 1 < high {
            lemma_quarter_sine_grows(180 - high + 1, 180 - low);
        }
    } else {
        // In between, one step of a degree within the span lowers the
        // cosine by the gap.
        let d = if low < 5 {
            5
        } else {
            low
        };
        assert(low <= d < high && 5 <= d <= 174);
        if d <= 89 {
            lemma_quarter_sine_gap(89 - d);
        } else {
            lemma_quarter_sine_gap(d - 90);
        }
        lemma_quarter_sine_bounds(0);
        assert(cos_micro(d) - cos_micro(d + 1) >= HEADING_GAP);
        if low < d {
            lemma_cosine_falls(low, d);
        }
        if d + 1 < high {
            lemma_cosine_falls(d + 1, high);
        }
    }
}

/// Of all the degrees of the half turn, a heading fits its own best: its
/// inner product with the heading of any other degree is smaller than with
/// itself.
pub proof fn lemma_own_heading_fits_best(deg: int, other: int)
    requires
        0 <= deg <= 180,
        0 <= other <= 180,
        deg != other,
    ensures
        cos_micro(deg) * cos_micro(other) + sin_micro(deg) * sin_micro(other) < cos_micro(deg)
            * cos_micro(deg) + sin_micro(deg) * sin_micro(deg),
{
    let c = cos_micro(deg);
    let s = sin_micro(deg);
    let co = cos_micro(other);
    let so = sin_micro(other);
    lemma_unit_length(deg);
    lemma_unit_length(other);
    if deg < other {
        lemma_headings_apart(deg, other);
    } else {
        lemma_headings_apart(other, deg);
    }
    let dc = c - co;
    let ds = s - so;
    assert(dc >= HEADING_GAP || dc <= -HEADING_GAP || ds >= HEADING_GAP || ds <= -HEADING_GAP);
    assert(dc * dc + ds * ds >= 2_560_000) by (nonlinear_arith)
        requires
            dc >= 1_600 || dc <= -1_600 || ds >= 1_600 || ds <= -1_600,
    {
        assert(dc * dc >= 0 && ds * ds >= 0);
        if dc >= 1_600 || dc <= -1_600 {
            assert(dc * dc >= 2_560_000);
        } else {
            assert(ds * ds >= 2_560_000);
        }
    }
    assert(dc * dc + ds * ds == (c * c + s * s) + (co * co + so * so) - 2 * (c * co + s * so))
        by (nonlinear_arith)
        requires
            dc == c - co,
            ds == s - so,
    {
    }
}

/// An angle beyond the half turn mirrors the angle that completes it to a
/// full turn: the same cosine, the opposite sine.
pub proof fn lemma_mirror(deg: int)
    requires
        180 < deg < 360,
    ensures
        cos_micro(360 - deg) == cos_micro(deg),
        sin_micro(360 - deg) == -sin_micro(deg),
{
    lemma_quarter_sine_bounds(0);
}

/// The nearest degree fits the vector at least as well as every other
/// degree up to `last`, and better than every smaller one.
pub proof fn lemma_nearest_upto(along: int, across: int, last: nat)
    ensures
        0 <= nearest_upto(along, across, last) <= last,
        forall|e: int|
            0 <= e <= last ==> #[trigger] alignment(along, across, e) <= alignment(
                along,
                across,
                nearest_upto(along, across, last),
            ),
        forall|e: int|
            0 <= e < nearest_upto(along, across, last) ==> #[trigger] alignment(along, across, e)
                < alignment(along, across, nearest_upto(along, across, last)),
    decreases last,
{
    if last > 0 {
        lemma_nearest_upto(along, across, (last - 1) as nat);
    }
}

/// A degree of the half turn that fits the vector better than every other
/// is the nearest degree.
pub proof fn lemma_nearest_is_the_best(along: int, across: int, deg: int)
    requires
        0 <= deg <= 180,
        forall|e: int|
            0 <= e <= 180 && e != deg ==> #[trigger] alignment(along, across, e) < alignment(
                along,
                across,
                deg,
            ),
    ensures
        nearest_degree(along, across) == deg,
{
    lemma_nearest_upto(along, across, 180);
    let found = nearest_degree(along, across);
    if found != deg {
        assert(alignment(along, across, found) < alignment(along, across, deg));
        assert(alignment(along, across, deg) <= alignment(along, across, found));
    }
}

/// A hundredth of a tabulated heading, each component rounded down, is no
/// longer than a hundredth of a unit.
pub proof fn lemma_quarter_hundredth(d: int)
    requires
        0 <= d <= 90,
    ensures
        (quarter_sine(d) / 100) * (quarter_sine(d) / 100) + (quarter_sine(90 - d) / 100) * (
        quarter_sine(90 - d) / 100) <= 100_000_000,
{
    reveal(quarter_sine);
    let hs = quarter_sine(d) / 100;
    let hc = quarter_sine(90 - d) / 100;
    if d == 0 {
        lemma_short(hs, hc, 0, 10000);
    } else if d == 1 {
        lemma_short(hs, hc, 174, 9998);
    } else if d == 2 {
        lemma_short(hs, hc, 348, 9993);
    } else if d == 3 {
        lemma_short(hs, hc, 523, 9986);
    } else if d == 4 {
        lemma_short(hs, hc, 697, 9975);
    } else if d == 5 {
        lemma_short(hs, hc, 871, 9961);
    } else if d == 6 {
        lemma_short(hs, hc, 1045, 9945);
    } else if d == 7 {
        lemma_short(hs, hc, 1218, 9925);
    } else if d == 8 {
        lemma_short(hs, hc, 1391, 9902);
    } else if d == 9 {
        lemma_short(hs, hc, 1564, 9876);
    } else if d == 10 {
        lemma_short(hs, hc, 1736, 9848);
    } else if d == 11 {
        lemma_short(hs, hc, 1908, 9816);
    } else if d == 12 {
        lemma_short(hs, hc, 2079, 9781);
    } else if d == 13 {
        lemma_short(hs, hc, 2249, 9743);
    } else if d == 14 {
        lemma_short(hs, hc, 2419, 9702);
    } else if d == 15 {
        lemma_short(hs, hc, 2588, 9659);
    } else if d == 16 {
        lemma_short(hs, hc, 2756, 9612);
    } else if d == 17 {
        lemma_short(hs, hc, 2923, 9563);
    } else if d == 18 {
        lemma_short(hs, hc, 3090, 9510);
    } else if d == 19 {
        lemma_short(hs, hc, 3255, 9455);
    } else if d == 20 {
        lemma_short(hs, hc, 3420, 9396);
    } else if d == 21 {
        lemma_short(hs, hc, 3583, 9335);
    } else if d == 22 {
        lemma_short(hs, hc, 3746, 9271);
    } else if d == 23 {
        lemma_short(hs, hc, 3907, 9205);
    } else if d == 24 {
        lemma_short(hs, hc, 4067, 9135);
    } else if d == 25 {
        lemma_short(hs, hc, 4226, 9063);
    } else if d == 26 {
        lemma_short(hs, hc, 4383, 8987);
    } else if d == 27 {
        lemma_short(hs, hc, 4539, 8910);
    } else if d == 28 {
        lemma_short(hs, hc, 4694, 8829);
    } else if d == 29 {
        lemma_short(hs, hc, 4848, 8746);
    } else if d == 30 {
        lemma_short(hs, hc, 5000, 8660);
    } else if d == 31 {
        lemma_short(hs, hc, 5150, 8571);
    } else if d == 32 {
        lemma_short(hs, hc, 5299, 8480);
    } else if d == 33 {
        lemma_short(hs, hc, 5446, 8386);
    } else if d == 34 {
        lemma_short(hs, hc, 5591, 8290);
    } else if d == 35 {
        lemma_short(hs, hc, 5735, 8191);
    } else if d == 36 {
        lemma_short(hs, hc, 5877, 8090);
    } else if d == 37 {
        lemma_short(hs, hc, 6018, 7986);
    } else if d == 38 {
        lemma_short(hs, hc, 6156, 7880);
    } else if d == 39 {
        lemma_short(hs, hc, 6293, 7771);
    } else if d == 40 {
        lemma_short(hs, hc, 6427, 7660);
    } else if d == 41 {
        lemma_short(hs, hc, 6560, 7547);
    } else if d == 42 {
        lemma_short(hs, hc, 6691, 7431);
    } else if d == 43 {
        lemma_short(hs, hc, 6819, 7313);
    } else if d == 44 {
        lemma_short(hs, hc, 6946, 7193);
    } else if d == 45 {
        lemma_short(hs, hc, 7071, 7071);
    } else if d == 46 {
        lemma_short(hs, hc, 7193, 6946);
    } else if d == 47 {
        lemma_short(hs, hc, 7313, 6819);
    } else if d == 48 {
        lemma_short(hs, hc, 7431, 6691);
    } else if d == 49 {
        lemma_short(hs, hc, 7547, 6560);
    } else if d == 50 {
        lemma_short(hs, hc, 7660, 6427);
    } else if d == 51 {
        lemma_short(hs, hc, 7771, 6293);
    } else if d == 52 {
        lemma_short(hs, hc, 7880, 6156);
    } else if d == 53 {
        lemma_short(hs, hc, 7986, 6018);
    } else if d == 54 {
        lemma_short(hs, hc, 8090, 5877);
    } else if d == 55 {
        lemma_short(hs, hc, 8191, 5735);
    } else if d == 56 {
        lemma_short(hs, hc, 8290, 5591);
    } else if d == 57 {
        lemma_short(hs, hc, 8386, 5446);
    } else if d == 58 {
        lemma_short(hs, hc, 8480, 5299);
    } else if d == 59 {
        lemma_short(hs, hc, 8571, 5150);
    } else if d == 60 {
        lemma_short(hs, hc, 8660, 5000);
    } else if d == 61 {
        lemma_short(hs, hc, 8746, 4848);
    } else if d == 62 {
        lemma_short(hs, hc, 8829, 4694);
    } else if d == 63 {
        lemma_short(hs, hc, 8910, 4539);
    } else if d == 64 {
        lemma_short(hs, hc, 8987, 4383);
    } else if d == 65 {
        lemma_short(hs, hc, 9063, 4226);
    } else if d == 66 {
        lemma_short(hs, hc, 9135, 4067);
    } else if d == 67 {
        lemma_short(hs, hc, 9205, 3907);
    } else if d == 68 {
        lemma_short(hs, hc, 9271, 3746);
    } else if d == 69 {
        lemma_short(hs, hc, 9335, 3583);
    } else if d == 70 {
        lemma_short(hs, hc, 9396, 3420);
    } else if d == 71 {
        lemma_short(hs, hc, 9455, 3255);
    } else if d == 72 {
        lemma_short(hs, hc, 9510, 3090);
    } else if d == 73 {
        lemma_short(hs, hc, 9563, 2923);
    } else if d == 74 {
        lemma_short(hs, hc, 9612, 2756);
    } else if d == 75 {
        lemma_short(hs, hc, 9659, 2588);
    } else if d == 76 {
        lemma_short(hs, hc, 9702, 2419);
    } else if d == 77 {
        lemma_short(hs, hc, 9743, 2249);
    } else if d == 78 {
        lemma_short(hs, hc, 9781, 2079);
    } else if d == 79 {
        lemma_short(hs, hc, 9816, 1908);
    } else if d == 80 {
        lemma_short(hs, hc, 9848, 1736);
    } else if d == 81 {
        lemma_short(hs, hc, 9876, 1564);
    } else if d == 82 {
        lemma_short(hs, hc, 9902, 1391);
    } else if d == 83 {
        lemma_short(hs, hc, 9925, 1218);
    } else if d == 84 {
        lemma_short(hs, hc, 9945, 1045);
    } else if d == 85 {
        lemma_short(hs, hc, 9961, 871);
    } else if d == 86 {
        lemma_short(hs, hc, 9975, 697);
    } else if d == 87 {
        lemma_short(hs, hc, 9986, 523);
    } else if d == 88 {
        lemma_short(hs, hc, 9993, 348);
    } else if d == 89 {
        lemma_short(hs, hc, 9998, 174);
    } else if d == 90 {
        lemma_short(hs, hc, 10000, 0);
    } else {
    }
}

/// A bound on a sum of two squares holds of equal numbers too.
proof fn lemma_short(hs: int, hc: int, x: int, y: int)
    by (nonlinear_arith)
    requires
        hs == x,
        hc == y,
        x * x + y * y <= 100_000_000,
    ensures
        hs * hs + hc * hc <= 100_000_000,
{
}

/// A hundredth of a heading, each component rounded toward zero, is no
/// longer than a hundredth of a unit, and it is not the zero vector.
pub proof fn lemma_heading_hundredth(deg: int)
    requires
        is_angle(deg),
    ensures
        div_toward_zero(cos_micro(deg), 100) * div_toward_zero(cos_micro(deg), 100)
            + div_toward_zero(sin_micro(deg), 100) * div_toward_zero(sin_micro(deg), 100)
            <= 100_000_000,
        div_toward_zero(cos_micro(deg), 100) != 0 || div_toward_zero(sin_micro(deg), 100) != 0,
{
    let d = if deg <= 90 {
        deg
    } else if deg <= 180 {
        180 - deg
    } else if deg <= 270 {
        deg - 180
    } else {
        360 - deg
    };
    lemma_quarter_hundredth(d);
    lemma_quarter_unit(d);
    lemma_quarter_sine_bounds(d);
    lemma_quarter_sine_bounds(90 - d);
    let s = quarter_sine(d);
    let c = quarter_sine(90 - d);
    assert(sin_micro(deg) == s || sin_micro(deg) == -s);
    assert(cos_micro(deg) == c || cos_micro(deg) == -c);
    let hs = s / 100;
    let hc = c / 100;
    let ks = div_toward_zero(sin_micro(deg), 100);
    let kc = div_toward_zero(cos_micro(deg), 100);
    assert(ks == hs || ks == -hs);
    assert(kc == hc || kc == -hc);
    assert(ks * ks == hs * hs) by (nonlinear_arith)
        requires
            ks == hs || ks == -hs,
    {
    }
    assert(kc * kc == hc * hc) by (nonlinear_arith)
        requires
            kc == hc || kc == -hc,
    {
    }
    if hs == 0 && hc == 0 {
        assert(s * s + c * c < 20_000) by (nonlinear_arith)
            requires
                0 <= s < 100,
                0 <= c < 100,
        {
        }
    }
}

/// No tabulated sine leaves the unit interval.
pub proof fn lemma_quarter_sine_bounds(d: int)
    ensures
        0 <= quarter_sine(d) <= ONE,
        quarter_sine(0) == 0,
        quarter_sine(90) == ONE,
{
    reveal(quarter_sine);
}

/// Sines and cosines stay within one unit of zero.
pub proof fn lemma_unit_bounds(deg: int)
    requires
        is_angle(deg),
    ensures
        -ONE <= sin_micro(deg) <= ONE,
        -ONE <= cos_micro(deg) <= ONE,
{
    let shifted = (deg + 90) % 360;
    lemma_quarter_sine_bounds(deg);
    lemma_quarter_sine_bounds(180 - deg);
    lemma_quarter_sine_bounds(deg - 180);
    lemma_quarter_sine_bounds(360 - deg);
    lemma_quarter_sine_bounds(shifted);
    lemma_quarter_sine_bounds(180 - shifted);
    lemma_quarter_sine_bounds(shifted - 180);
    lemma_quarter_sine_bounds(360 - shifted);
}

/// Looks up the sine of an angle of the first quarter.
fn quarter_sine_of(d: u32) -> (r: i64)
    requires
        d <= 90,
    ensures
        r == quarter_sine(d as int),
        0 <= r <= ONE,
{
    proof {
        reveal(quarter_sine);
    }
    match d {
        0 => 0,
        1 => 17_452,
        2 => 34_899,
        3 => 52_336,
        4 => 69_756,
        5 => 87_156,
        6 => 104_528,
        7 => 121_869,
        8 => 139_173,
        9 => 156_434,
        10 => 173_648,
        11 => 190_809,
        12 => 207_912,
        13 => 224_951,
        14 => 241_922,
        15 => 258_819,
        16 => 275_637,
        17 => 292_372,
        18 => 309_017,
        19 => 325_568,
        20 => 342_020,
        21 => 358_368,
        22 => 374_607,
        23 => 390_731,
        24 => 406_737,
        25 => 422_618,
        26 => 438_371,
        27 => 453_990,
        28 => 469_472,
        29 => 484_810,
        30 => 500_000,
        31 => 515_038,
        32 => 529_919,
        33 => 544_639,
        34 => 559_193,
        35 => 573_576,
        36 => 587_785,
        37 => 601_815,
        38 => 615_661,
        39 => 629_320,
        40 => 642_788,
        41 => 656_059,
        42 => 669_131,
        43 => 681_998,
        44 => 694_658,
        45 => 707_107,
        46 => 719_340,
        47 => 731_354,
        48 => 743_145,
        49 => 754_710,
        50 => 766_044,
        51 => 777_146,
        52 => 788_011,
        53 => 798_636,
        54 => 809_017,
        55 => 819_152,
        56 => 829_038,
        57 => 838_671,
        58 => 848_048,
        59 => 857_167,
        60 => 866_025,
        61 => 874_620,
        62 => 882_948,
        63 => 891_007,
        64 => 898_794,
        65 => 906_308,
        66 => 913_545,
        67 => 920_505,
        68 => 927_184,
        69 => 933_580,
        70 => 939_693,
        71 => 945_519,
        72 => 951_057,
        73 => 956_305,
        74 => 961_262,
        75 => 965_926,
        76 => 970_296,
        77 => 974_370,
        78 => 978_148,
        79 => 981_627,
        80 => 984_808,
        81 => 987_688,
        82 => 990_268,
        83 => 992_546,
        84 => 994_522,
        85 => 996_195,
        86 => 997_564,
        87 => 998_630,
        88 => 999_391,
        89 => 999_848,
        _ => 1_000_000,
    }
}

/// The sine of `deg` degrees in millionths.
pub fn sin_deg(deg: u32) -> (r: i64)
    requires
        is_angle(deg as int),
    ensures
        r == sin_micro(deg as int),
        -ONE <= r <= ONE,
{
    if deg <= 90 {
        quarter_sine_of(deg)
    } else if deg <= 180 {
        quarter_sine_of(180 - deg)
    } else if deg <= 270 {
        -quarter_sine_of(deg - 180)
    } else {
        -quarter_sine_of(360 - deg)
    }
}

/// The cosine of `deg` degrees in millionths.
pub fn cos_deg(deg: u32) -> (r: i64)
    requires
        is_angle(deg as int),
    ensures
        r == cos_micro(deg as int),
        -ONE <= r <= ONE,
{
    sin_deg((deg + 90) % 360)
}

/// The whole degree of the half turn whose direction is nearest to the
/// vector that lies `along` the reference direction and `across` it; of
/// two equally near, the smaller.
pub fn nearest_degree_of(along: i64, across: i64) -> (deg: u32)
    requires
        -ALIGN_MAX <= along <= ALIGN_MAX,
        -ALIGN_MAX <= across <= ALIGN_MAX,
    ensures
        deg == nearest_degree(along as int, across as int),
        deg <= 180,
        forall|e: int|
            0 <= e <= 180 ==> #[trigger] alignment(along as int, across as int, e) <= alignment(
                along as int,
                across as int,
                deg as int,
            ),
        forall|e: int|
            0 <= e < deg ==> #[trigger] alignment(along as int, across as int, e) < alignment(
                along as int,
                across as int,
                deg as int,
            ),
{
    let mut best: u32 = 0;
    let mut best_fit: i128 = fit(along, across, 0);
    let mut deg: u32 = 0;
    while deg < 180
        invariant
            deg <= 180,
            -ALIGN_MAX <= along <= ALIGN_MAX,
            -ALIGN_MAX <= across <= ALIGN_MAX,
            best == nearest_upto(along as int, across as int, deg as nat),
            best_fit == alignment(along as int, across as int, best as int),
        decreases 180 - deg,
    {
        deg = deg + 1;
        let here: i128 = fit(along, across, deg);
        if here > best_fit {
            best = deg;
            best_fit = here;
        }
    }
    proof {
        lemma_nearest_upto(along as int, across as int, 180);
    }
    best
}

/// How well the direction `deg` degrees away fits the vector.
fn fit(along: i64, across: i64, deg: u32) -> (r: i128)
    requires
        -ALIGN_MAX <= along <= ALIGN_MAX,
        -ALIGN_MAX <= across <= ALIGN_MAX,
        deg <= 180,
    ensures
        r == alignment(along as int, across as int, deg as int),
{
    let c: i64 = cos_deg(deg);
    let s: i64 = sin_deg(deg);
    proof {
        lemma_product_bound(along as int, c as int, ALIGN_MAX as int, ONE as int);
        lemma_product_bound(across as int, s as int, ALIGN_MAX as int, ONE as int);
    }
    (along as i128) * (c as i128) + (across as i128) * (s as i128)
}

/// Turns `deg` by `by` degrees, counter-clockwise, and normalises the result.
pub fn turn(deg: u32, by: u32) -> (r: u32)
    requires
        is_angle(deg as int),
        is_angle(by as int),
    ensures
        r == turned(deg as int, by as int),
        is_angle(r as int),
{
    (deg + by) % 360
}

} // verus!
