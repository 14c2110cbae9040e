//! Colours, their brightness and saturation, and the choice of the theme
//! colours from a palette.
//!
//! Brightness and saturation are those of the HSV model: the value of a
//! colour is `max(r, g, b) / 255` and its saturation is
//! `(max - min) / max` (zero for black). Both are rationals with small
//! denominators, so they are compared here exactly, in integers.

use vstd::prelude::*;

verus! {

/// An RGB colour with eight bits per channel.
#[derive(Debug, Clone, Copy, PartialEq, Eq, Hash, Structural)]
pub struct Rgb {
    pub r: u8,
    pub g: u8,
    pub b: u8,
}

/// The fallback primary colour, `#33ccff`.
pub open spec fn default_primary() -> Rgb {
    Rgb { r: 51, g: 204, b: 255 }
}

/// The fallback accent colour, `#00ff99`.
pub open spec fn default_accent() -> Rgb {
    Rgb { r: 0, g: 255, b: 153 }
}

/// The largest channel of a colour.
pub open spec fn channel_max(c: Rgb) -> int {
    if c.r >= c.g && c.r >= c.b {
        c.r as int
    } else if c.g >= c.b {
        c.g as int
    } else {
        c.b as int
    }
}

/// The smallest channel of a colour.
pub open spec fn channel_min(c: Rgb) -> int {
    if c.r <= c.g && c.r <= c.b {
        c.r as int
    } else if c.g <= c.b {
        c.g as int
    } else {
        c.b as int
    }
}

/// Whether the HSV saturation of `a` is smaller than that of `b`, that is
/// `(max_a - min_a) / max_a < (max_b - min_b) / max_b`, where a colour with
/// `max == 0` (black) has saturation zero.
pub open spec fn less_saturated(a: Rgb, b: Rgb) -> bool {
    if channel_max(b) == 0 {
        false
    } else if channel_max(a) == 0 {
        channel_max(b) - channel_min(b) > 0
    } else {
        (channel_max(a) - channel_min(a)) * channel_max(b) < (channel_max(b) - channel_min(b))
            * channel_max(a)
    }
}

/// Whether a colour has mid-range brightness: its HSV value
/// `max(r, g, b) / 255` lies strictly between 0.15 and 0.95, which for
/// eight-bit channels is `39 <= max(r, g, b) <= 242`.
pub open spec fn is_accent_candidate(c: Rgb) -> bool {
    39 <= channel_max(c) && channel_max(c) <= 242
}

/// The index of the first colour of greatest saturation in `t`.
pub open spec fn first_most_saturated(t: Seq<Rgb>) -> int
    decreases t.len(),
{
    if t.len() <= 1 {
        0
    } else {
        let b = first_most_saturated(t.drop_last());
        if less_saturated(t[b], t.last()) {
            t.len() - 1
        } else {
            b
        }
    }
}

/// The palette's colours of mid-range brightness, in palette order.
pub open spec fn accent_candidates(colors: Seq<Rgb>) -> Seq<Rgb> {
    colors.filter(|c: Rgb| is_accent_candidate(c))
}

/// The primary and accent colours chosen from a palette.
///
/// The candidates of mid-range brightness, ordered by decreasing
/// saturation (a stable order, so that equally saturated colours keep their
/// palette order), give the two colours where there are at least two of
/// them. With one candidate, it is the primary and the first palette colour
/// that differs from it at index 0 or 1 is the accent (the candidate itself
/// when it is the palette's only colour); with none, the first
/// two palette colours are used. Where primary and accent coincide and the
/// palette has a third colour, that one becomes the accent. An empty palette
/// gives the fallback pair.
pub open spec fn theme_pair(colors: Seq<Rgb>) -> (Rgb, Rgb) {
    if colors.len() == 0 {
        (default_primary(), default_accent())
    } else {
        let t = accent_candidates(colors);
        let (c1, c2) = if t.len() >= 2 {
            let i = first_most_saturated(t);
            let rest = t.remove(i);
            (t[i], rest[first_most_saturated(rest)])
        } else if t.len() == 1 {
            (t[0], if colors[0] != t[0] {
                colors[0]
            } else if colors.len() > 1 {
                colors[1]
            } else {
                colors[0]
            })
        } else {
            (colors[0], if colors.len() > 1 { colors[1] } else { colors[0] })
        };
        if c1 == c2 && colors.len() > 2 {
            (c1, colors[2])
        } else {
            (c1, c2)
        }
    }
}

fn max_channel(c: Rgb) -> (m: u8)
    ensures
        m == channel_max(c),
{
    if c.r >= c.g && c.r >= c.b {
        c.r
    } else if c.g >= c.b {
        c.g
    } else {
        c.b
    }
}

fn min_channel(c: Rgb) -> (m: u8)
    ensures
        m == channel_min(c),
{
    if c.r <= c.g && c.r <= c.b {
        c.r
    } else if c.g <= c.b {
        c.g
    } else {
        c.b
    }
}

proof fn lemma_channel_bounds(c: Rgb)
    ensures
        0 <= channel_min(c) <= channel_max(c) <= 255,
{
}

/// Compares the saturation of two colours.
pub fn is_less_saturated(a: Rgb, b: Rgb) -> (res: bool)
    ensures
        res == less_saturated(a, b),
{
    let max_a = max_channel(a) as u32;
    let max_b = max_channel(b) as u32;
    let min_a = min_channel(a) as u32;
    let min_b = min_channel(b) as u32;
    proof {
        lemma_channel_bounds(a);
        lemma_channel_bounds(b);
    }
    if max_b == 0 {
        false
    } else if max_a == 0 {
        max_b - min_b > 0
    } else {
        let da = max_a - min_a;
        let db = max_b - min_b;
        assert(da * max_b <= 255 * 255) by (nonlinear_arith)
            requires
                da <= 255,
                max_b <= 255,
        ;
        assert(db * max_a <= 255 * 255) by (nonlinear_arith)
            requires
                db <= 255,
                max_a <= 255,
        ;
        da * max_b < db * max_a
    }
}

/// Whether a colour has mid-range brightness.
pub fn has_mid_brightness(c: Rgb) -> (res: bool)
    ensures
        res == is_accent_candidate(c),
{
    let m = max_channel(c);
    39 <= m && m <= 242
}

fn most_saturated_index(t: &Vec<Rgb>) -> (i: usize)
    requires
        t@.len() >= 1,
    ensures
        i == first_most_saturated(t@),
        i < t@.len(),
{
    let mut best: usize = 0;
    let mut k: usize = 1;
    assert(t@.take(1).len() == 1);
    while k < t.len()
        invariant
            1 <= k <= t@.len(),
            best < k,
            best == first_most_saturated(t@.take(k as int)),
        decreases t@.len() - k,
    {
        proof {
            let u = t@.take(k + 1);
            assert(u.drop_last() == t@.take(k as int));
            assert(u[best as int] == t@[best as int]);
            assert(u.last() == t@[k as int]);
        }
        if is_less_saturated(t[best], t[k]) {
            best = k;
        }
        k = k + 1;
    }
    assert(t@.take(t@.len() as int) == t@);
    best
}

fn mid_brightness_colors(colors: &[Rgb]) -> (t: Vec<Rgb>)
    ensures
        t@ == accent_candidates(colors@),
{
    let mut t: Vec<Rgb> = Vec::new();
    let n = colors.len();
    let mut i: usize = 0;
    proof {
        reveal_with_fuel(Seq::<_>::filter, 1);
        assert(colors@.take(0) == Seq::<Rgb>::empty());
    }
    while i < n
        invariant
            n == colors@.len(),
            0 <= i <= n,
            t@ == accent_candidates(colors@.take(i as int)),
        decreases n - i,
    {
        proof {
            reveal_with_fuel(Seq::<_>::filter, 1);
            let u = colors@.take(i + 1);
            assert(u.drop_last() == colors@.take(i as int));
            assert(u.last() == colors@[i as int]);
        }
        if has_mid_brightness(colors[i]) {
            t.push(colors[i]);
        }
        i = i + 1;
    }
    assert(colors@.take(n as int) == colors@);
    t
}

/// Selects a primary and an accent colour from an extracted palette.
///
/// Colours are ordered by saturation, and candidates with mid-range
/// brightness are preferred, for legibility; see `theme_pair`.
pub fn select_theme_colors(colors: &[Rgb]) -> (res: (Rgb, Rgb))
    ensures
        res == theme_pair(colors@),
{
    if colors.len() == 0 {
        let c1 = Rgb { r: 51, g: 204, b: 255 };
        let c2 = Rgb { r: 0, g: 255, b: 153 };
        return (c1, c2);
    }
    let candidates = mid_brightness_colors(colors);
    let (c1, c2) = if candidates.len() >= 2 {
        let i = most_saturated_index(&candidates);
        let mut rest = candidates.clone();
        let first = rest.remove(i);
        assert(rest@ == candidates@.remove(i as int));
        let j = most_saturated_index(&rest);
        (first, rest[j])
    } else if candidates.len() == 1 {
        let c1 = candidates[0];
        let c2 = if colors[0] != c1 {
            colors[0]
        } else if colors.len() > 1 {
            colors[1]
        } else {
            colors[0]
        };
        (c1, c2)
    } else {
        let c1 = colors[0];
        let c2 = if colors.len() > 1 {
            colors[1]
        } else {
            colors[0]
        };
        (c1, c2)
    };
    let mut final_c2 = c2;
    if c1 == c2 && colors.len() > 2 {
        final_c2 = colors[2];
    }
    (c1, final_c2)
}

/// The numerator of a colour's saturation, `max - min`.
pub open spec fn saturation_num(c: Rgb) -> int {
    channel_max(c) - channel_min(c)
}

/// The denominator of a colour's saturation, `max` (1 for black, whose
/// saturation is zero).
pub open spec fn saturation_den(c: Rgb) -> int {
    if channel_max(c) == 0 {
        1
    } else {
        channel_max(c)
    }
}

proof fn lemma_less_saturated_fraction(a: Rgb, b: Rgb)
    ensures
        saturation_den(a) > 0,
        saturation_den(b) > 0,
        saturation_num(a) >= 0,
        saturation_num(b) >= 0,
        less_saturated(a, b) == (saturation_num(a) * saturation_den(b) < saturation_num(b)
            * saturation_den(a)),
{
    let (xa, ya, xb, yb) = (saturation_num(a), saturation_den(a), saturation_num(b), saturation_den(b));
    if channel_max(b) == 0 {
        assert(xb == 0 && yb == 1);
        assert(xb * ya == 0) by (nonlinear_arith)
            requires
                xb == 0,
        ;
        assert(xa * yb == xa) by (nonlinear_arith)
            requires
                yb == 1,
        ;
        assert(!less_saturated(a, b));
    } else if channel_max(a) == 0 {
        assert(xa == 0 && ya == 1);
        assert(xa * yb == 0) by (nonlinear_arith)
            requires
                xa == 0,
        ;
        assert(xb * ya == xb) by (nonlinear_arith)
            requires
                ya == 1,
        ;
    } else {
        assert(xa == channel_max(a) - channel_min(a) && ya == channel_max(a));
        assert(xb == channel_max(b) - channel_min(b) && yb == channel_max(b));
    }
}

proof fn lemma_fraction_lt_le(x1: int, y1: int, x2: int, y2: int, x3: int, y3: int)
    requires
        y1 > 0,
        y2 > 0,
        y3 > 0,
        x1 * y2 < x2 * y1,
        x2 * y3 <= x3 * y2,
    ensures
        x1 * y3 < x3 * y1,
{
    assert(x1 * y2 * y3 < x2 * y1 * y3) by (nonlinear_arith)
        requires
            x1 * y2 < x2 * y1,
            y3 > 0,
    ;
    assert(x2 * y3 * y1 <= x3 * y2 * y1) by (nonlinear_arith)
        requires
            x2 * y3 <= x3 * y2,
            y1 > 0,
    ;
    assert(x1 * y3 * y2 < x3 * y1 * y2) by (nonlinear_arith)
        requires
            x1 * y2 * y3 < x2 * y1 * y3,
            x2 * y3 * y1 <= x3 * y2 * y1,
    ;
    assert(x1 * y3 < x3 * y1) by (nonlinear_arith)
        requires
            x1 * y3 * y2 < x3 * y1 * y2,
            y2 > 0,
    ;
}

proof fn lemma_fraction_le_le(x1: int, y1: int, x2: int, y2: int, x3: int, y3: int)
    requires
        y1 > 0,
        y2 > 0,
        y3 > 0,
        x1 * y2 <= x2 * y1,
        x2 * y3 <= x3 * y2,
    ensures
        x1 * y3 <= x3 * y1,
{
    assert(x1 * y2 * y3 <= x2 * y1 * y3) by (nonlinear_arith)
        requires
            x1 * y2 <= x2 * y1,
            y3 > 0,
    ;
    assert(x2 * y3 * y1 <= x3 * y2 * y1) by (nonlinear_arith)
        requires
            x2 * y3 <= x3 * y2,
            y1 > 0,
    ;
    assert(x1 * y3 * y2 <= x3 * y1 * y2) by (nonlinear_arith)
        requires
            x1 * y2 * y3 <= x2 * y1 * y3,
            x2 * y3 * y1 <= x3 * y2 * y1,
    ;
    assert(x1 * y3 <= x3 * y1) by (nonlinear_arith)
        requires
            x1 * y3 * y2 <= x3 * y1 * y2,
            y2 > 0,
    ;
}

/// Saturation is a total preorder: "not less saturated" is transitive, and
/// so is "less saturated" through it.
pub proof fn lemma_saturation_order(a: Rgb, b: Rgb, c: Rgb)
    ensures
        !less_saturated(a, a),
        less_saturated(a, b) ==> !less_saturated(b, a),
        !less_saturated(b, a) && !less_saturated(c, b) ==> !less_saturated(c, a),
        less_saturated(a, b) && !less_saturated(c, b) ==> less_saturated(a, c),
        !less_saturated(b, a) && less_saturated(b, c) ==> less_saturated(a, c),
{
    lemma_less_saturated_fraction(a, b);
    lemma_less_saturated_fraction(b, a);
    lemma_less_saturated_fraction(b, c);
    lemma_less_saturated_fraction(c, b);
    lemma_less_saturated_fraction(a, c);
    lemma_less_saturated_fraction(c, a);
    let (xa, ya) = (saturation_num(a), saturation_den(a));
    let (xb, yb) = (saturation_num(b), saturation_den(b));
    let (xc, yc) = (saturation_num(c), saturation_den(c));
    if !less_saturated(b, a) && !less_saturated(c, b) {
        lemma_fraction_le_le(xa, ya, xb, yb, xc, yc);
    }
    if less_saturated(a, b) && !less_saturated(c, b) {
        lemma_fraction_lt_le(xa, ya, xb, yb, xc, yc);
    }
    if !less_saturated(b, a) && less_saturated(b, c) {
        assert(xa * yc < xc * ya) by {
            assert(xa * yb <= xb * ya);
            assert(xb * yc < xc * yb);
            assert(xa * yb * yc <= xb * ya * yc) by (nonlinear_arith)
                requires
                    xa * yb <= xb * ya,
                    yc > 0,
            ;
            assert(xb * yc * ya < xc * yb * ya) by (nonlinear_arith)
                requires
                    xb * yc < xc * yb,
                    ya > 0,
            ;
            assert(xa * yc * yb < xc * ya * yb) by (nonlinear_arith)
                requires
                    xa * yb * yc <= xb * ya * yc,
                    xb * yc * ya < xc * yb * ya,
            ;
            assert(xa * yc < xc * ya) by (nonlinear_arith)
                requires
                    xa * yc * yb < xc * ya * yb,
                    yb > 0,
            ;
        }
    }
}

/// `first_most_saturated` finds the first colour of greatest saturation:
/// no colour is more saturated, and every colour before it is less
/// saturated.
pub proof fn lemma_first_most_saturated(t: Seq<Rgb>)
    requires
        t.len() >= 1,
    ensures
        0 <= first_most_saturated(t) < t.len(),
        forall|j: int|
            0 <= j < t.len() ==> !less_saturated(t[first_most_saturated(t)], #[trigger] t[j]),
        forall|j: int|
            0 <= j < first_most_saturated(t) ==> less_saturated(#[trigger] t[j], t[first_most_saturated(t)]),
    decreases t.len(),
{
    if t.len() > 1 {
        let u = t.drop_last();
        lemma_first_most_saturated(u);
        let b = first_most_saturated(u);
        assert(u[b] == t[b]);
        let last = t.last();
        if less_saturated(t[b], last) {
            assert forall|j: int| 0 <= j < t.len() implies !less_saturated(
                t[first_most_saturated(t)],
                #[trigger] t[j],
            ) by {
                lemma_saturation_order(t[j], t[b], last);
                lemma_saturation_order(last, t[j], last);
                if j < t.len() - 1 {
                    assert(u[j] == t[j]);
                }
            }
            assert forall|j: int| 0 <= j < first_most_saturated(t) implies less_saturated(
                #[trigger] t[j],
                t[first_most_saturated(t)],
            ) by {
                assert(u[j] == t[j]);
                lemma_saturation_order(t[j], t[b], last);
                lemma_saturation_order(t[b], t[j], last);
            }
        } else {
            assert forall|j: int| 0 <= j < t.len() implies !less_saturated(
                t[first_most_saturated(t)],
                #[trigger] t[j],
            ) by {
                if j < t.len() - 1 {
                    assert(u[j] == t[j]);
                }
            }
            assert forall|j: int| 0 <= j < first_most_saturated(t) implies less_saturated(
                #[trigger] t[j],
                t[first_most_saturated(t)],
            ) by {
                assert(u[j] == t[j]);
            }
        }
    }
}

proof fn lemma_candidates(colors: Seq<Rgb>)
    ensures
        forall|i: int|
            0 <= i < accent_candidates(colors).len() ==> is_accent_candidate(
                #[trigger] accent_candidates(colors)[i],
            ) && colors.contains(accent_candidates(colors)[i]),
        forall|i: int|
            0 <= i < colors.len() && is_accent_candidate(colors[i]) ==> #[trigger] accent_candidates(
                colors,
            ).contains(colors[i]),
        colors.no_duplicates() ==> accent_candidates(colors).no_duplicates(),
    decreases colors.len(),
{
    reveal_with_fuel(Seq::<_>::filter, 1);
    let t = accent_candidates(colors);
    if colors.len() > 0 {
        let u = colors.drop_last();
        lemma_candidates(u);
        let tu = accent_candidates(u);
        assert forall|i: int| 0 <= i < t.len() implies is_accent_candidate(#[trigger] t[i])
            && colors.contains(t[i]) by {
            if i < tu.len() {
                assert(t[i] == tu[i]);
                let k = choose|k: int| 0 <= k < u.len() && u[k] == tu[i];
                assert(colors[k] == u[k]);
            } else {
                assert(t[i] == colors.last());
                assert(colors[colors.len() - 1] == colors.last());
            }
        }
        assert forall|i: int| 0 <= i < colors.len() && is_accent_candidate(colors[i]) implies #[trigger] t.contains(
            colors[i],
        ) by {
            if i < colors.len() - 1 {
                assert(u[i] == colors[i]);
                assert(tu.contains(u[i]));
                let k = choose|k: int| 0 <= k < tu.len() && tu[k] == u[i];
                assert(t[k] == tu[k]);
            } else {
                assert(t[t.len() - 1] == colors[i]);
            }
        }
        if colors.no_duplicates() {
            assert(u.no_duplicates()) by {
                assert forall|a: int, b: int| 0 <= a < u.len() && 0 <= b < u.len() && a != b implies u[a]
                    != u[b] by {
                    assert(u[a] == colors[a]);
                    assert(u[b] == colors[b]);
                }
            }
            if is_accent_candidate(colors.last()) {
                assert forall|a: int| 0 <= a < tu.len() implies tu[a] != colors.last() by {
                    let k = choose|k: int| 0 <= k < u.len() && u[k] == tu[a];
                    assert(colors[k] == u[k]);
                    assert(colors[colors.len() - 1] == colors.last());
                }
                assert forall|a: int, b: int| 0 <= a < t.len() && 0 <= b < t.len() && a != b implies t[a]
                    != t[b] by {
                    if a < tu.len() && b < tu.len() {
                        assert(t[a] == tu[a]);
                        assert(t[b] == tu[b]);
                    } else if a < tu.len() {
                        assert(t[a] == tu[a]);
                    } else if b < tu.len() {
                        assert(t[b] == tu[b]);
                    }
                }
            }
        }
    }
}

/// The chosen colours come from the palette (or are the fallback pair for
/// an empty palette).
pub proof fn lemma_theme_from_palette(colors: Seq<Rgb>)
    requires
        colors.len() > 0,
    ensures
        colors.contains(theme_pair(colors).0),
        colors.contains(theme_pair(colors).1),
{
    lemma_candidates(colors);
    let t = accent_candidates(colors);
    assert(colors[0] == colors[0]);
    if colors.len() > 1 {
        assert(colors[1] == colors[1]);
    }
    if colors.len() > 2 {
        assert(colors[2] == colors[2]);
    }
    if t.len() >= 2 {
        lemma_first_most_saturated(t);
        let i = first_most_saturated(t);
        let rest = t.remove(i);
        assert(t[i] == t[i]);
        lemma_first_most_saturated(rest);
        let j = first_most_saturated(rest);
        let j1 = if j < i { j } else { j + 1 };
        assert(rest[j] == t[j1]);
        assert(t[j1] == t[j1]);
    } else if t.len() == 1 {
        assert(t[0] == t[0]);
    }
}

/// On a palette of pairwise distinct colours with at least two colours,
/// the primary and the accent colour differ.
pub proof fn lemma_theme_colors_differ(colors: Seq<Rgb>)
    requires
        colors.no_duplicates(),
        colors.len() >= 2,
    ensures
        theme_pair(colors).0 != theme_pair(colors).1,
{
    lemma_candidates(colors);
    let t = accent_candidates(colors);
    if t.len() >= 2 {
        lemma_first_most_saturated(t);
        let i = first_most_saturated(t);
        let rest = t.remove(i);
        lemma_first_most_saturated(rest);
        let j = first_most_saturated(rest);
        let j1 = if j < i { j } else { j + 1 };
        assert(rest[j] == t[j1]);
    }
}

/// Where the palette has colours of mid-range brightness, the primary
/// colour is one of them, and none of them is more saturated; it is the
/// first of the most saturated ones in palette order.
pub proof fn lemma_primary_most_saturated(colors: Seq<Rgb>)
    requires
        accent_candidates(colors).len() >= 1,
    ensures
        is_accent_candidate(theme_pair(colors).0),
        forall|j: int|
            0 <= j < colors.len() && is_accent_candidate(colors[j]) ==> !less_saturated(
                theme_pair(colors).0,
                #[trigger] colors[j],
            ),
        theme_pair(colors).0 == accent_candidates(colors)[first_most_saturated(
            accent_candidates(colors),
        )],
{
    lemma_candidates(colors);
    let t = accent_candidates(colors);
    lemma_first_most_saturated(t);
    assert(colors.len() > 0) by {
        let k = choose|k: int| 0 <= k < colors.len() && colors[k] == t[0];
    }
    let p = t[first_most_saturated(t)];
    assert(theme_pair(colors).0 == p);
    assert forall|j: int| 0 <= j < colors.len() && is_accent_candidate(colors[j]) implies !less_saturated(
        p,
        #[trigger] colors[j],
    ) by {
        assert(t.contains(colors[j]));
        let k = choose|k: int| 0 <= k < t.len() && t[k] == colors[j];
    }
}

/// The accent is the second colour of the saturation order: on a palette
/// of distinct colours with at least two of mid-range brightness, the
/// primary and the accent are two different such candidates (at positions
/// `i` and `j` among them); no candidate is more saturated than the
/// primary, no candidate other than the primary is more saturated than the
/// accent, and every other candidate before the accent is strictly less
/// saturated than it.
pub proof fn lemma_accent_second_most_saturated(colors: Seq<Rgb>) -> (ij: (int, int))
    requires
        colors.no_duplicates(),
        accent_candidates(colors).len() >= 2,
    ensures
        ({
            let t = accent_candidates(colors);
            let (i, j) = ij;
            &&& 0 <= i < t.len()
            &&& 0 <= j < t.len()
            &&& i != j
            &&& theme_pair(colors).0 == t[i]
            &&& theme_pair(colors).1 == t[j]
            &&& forall|k: int| 0 <= k < t.len() ==> !less_saturated(t[i], #[trigger] t[k])
            &&& forall|k: int| 0 <= k < t.len() && k != i ==> !less_saturated(t[j], #[trigger] t[k])
            &&& forall|k: int| 0 <= k < j && k != i ==> less_saturated(#[trigger] t[k], t[j])
        }),
{
    lemma_candidates(colors);
    let t = accent_candidates(colors);
    lemma_first_most_saturated(t);
    let i = first_most_saturated(t);
    let rest = t.remove(i);
    assert(rest.len() == t.len() - 1);
    assert forall|x: int| 0 <= x < rest.len() implies #[trigger] rest[x] == t[if x < i { x } else { x + 1 }] by {}
    lemma_first_most_saturated(rest);
    let jr = first_most_saturated(rest);
    let j = if jr < i { jr } else { jr + 1 };
    assert(rest[jr] == t[j]);
    assert(colors.len() > 0) by {
        let k = choose|k: int| 0 <= k < colors.len() && colors[k] == t[0];
    }
    assert(t[i] != t[j]);
    assert(theme_pair(colors) == (t[i], t[j]));
    assert forall|k: int| 0 <= k < t.len() && k != i implies !less_saturated(t[j], #[trigger] t[k]) by {
        let kr = if k < i { k } else { k - 1 };
        assert(rest[kr] == t[k]);
    }
    assert forall|k: int| 0 <= k < j && k != i implies less_saturated(#[trigger] t[k], t[j]) by {
        let kr = if k < i { k } else { k - 1 };
        assert(rest[kr] == t[k]);
        assert(kr < jr);
    }
    (i, j)
}

} // verus!
