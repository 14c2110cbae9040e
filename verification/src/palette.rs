//! The colour-popularity histogram of an image and its dominant colours.
//!
//! An image is given as its RGBA bytes, four per pixel. Pixels whose alpha
//! is below 128 are ignored; the others are quantized to bins of 16 per
//! channel, counted, and the most frequent bins make the palette.

use vstd::prelude::*;
use crate::color::{lemma_theme_colors_differ, theme_pair, Rgb};
use std::collections::HashMap;

verus! {

/// The number of colours in a palette.
pub const PALETTE_SIZE: usize = 8;

/// A channel rounded down to its bin of 16.
pub open spec fn quantize(v: u8) -> u8 {
    ((v / 16) * 16) as u8
}

/// The quantized colour of the `k`-th pixel.
pub open spec fn pixel_bin(px: Seq<u8>, k: int) -> Rgb {
    Rgb { r: quantize(px[4 * k]), g: quantize(px[4 * k + 1]), b: quantize(px[4 * k + 2]) }
}

/// Whether the `k`-th pixel counts: its alpha is at least 128.
pub open spec fn pixel_opaque(px: Seq<u8>, k: int) -> bool {
    px[4 * k + 3] >= 128
}

/// The quantized colours of the first `k` pixels that count, in order.
pub open spec fn opaque_bins(px: Seq<u8>, k: int) -> Seq<Rgb>
    decreases k,
{
    if k <= 0 {
        Seq::empty()
    } else {
        let prev = opaque_bins(px, k - 1);
        if pixel_opaque(px, k - 1) {
            prev.push(pixel_bin(px, k - 1))
        } else {
            prev
        }
    }
}

/// The quantized colours of all pixels that count (trailing bytes that do
/// not make a whole pixel are ignored).
pub open spec fn image_bins(px: Seq<u8>) -> Seq<Rgb> {
    opaque_bins(px, (px.len() / 4) as int)
}

/// The position of the entry for colour `c` in a histogram, or -1.
pub open spec fn find_bin(h: Seq<(Rgb, int)>, c: Rgb) -> int
    decreases h.len(),
{
    if h.len() == 0 {
        -1
    } else if h.last().0 == c {
        h.len() - 1
    } else {
        find_bin(h.drop_last(), c)
    }
}

/// The histogram of a sequence of colours: each distinct colour with its
/// number of occurrences, in order of first occurrence.
pub open spec fn histogram(s: Seq<Rgb>) -> Seq<(Rgb, int)>
    decreases s.len(),
{
    if s.len() == 0 {
        Seq::empty()
    } else {
        let h = histogram(s.drop_last());
        let c = s.last();
        let i = find_bin(h, c);
        if i >= 0 {
            h.update(i, (c, h[i].1 + 1))
        } else {
            h.push((c, 1))
        }
    }
}

/// The position of the first entry with the largest count.
pub open spec fn first_max(e: Seq<(Rgb, int)>) -> int
    decreases e.len(),
{
    if e.len() <= 1 {
        0
    } else {
        let b = first_max(e.drop_last());
        if e[b].1 < e.last().1 {
            e.len() - 1
        } else {
            b
        }
    }
}

/// The colours of the `k` most frequent entries, by decreasing count;
/// entries with equal counts keep their histogram order.
pub open spec fn top_colors(e: Seq<(Rgb, int)>, k: nat) -> Seq<Rgb>
    decreases k,
{
    if k == 0 || e.len() == 0 {
        Seq::empty()
    } else {
        let i = first_max(e);
        seq![e[i].0] + top_colors(e.remove(i), (k - 1) as nat)
    }
}

/// The palette of an image: its `PALETTE_SIZE` most frequent bins.
pub open spec fn palette(px: Seq<u8>) -> Seq<Rgb> {
    top_colors(histogram(image_bins(px)), PALETTE_SIZE as nat)
}

/// A histogram held with machine counts, viewed with integer counts.
pub open spec fn counts_view(v: Seq<(Rgb, usize)>) -> Seq<(Rgb, int)> {
    v.map_values(|e: (Rgb, usize)| (e.0, e.1 as int))
}

proof fn lemma_find_bin_bounds(h: Seq<(Rgb, int)>, c: Rgb)
    ensures
        -1 <= find_bin(h, c) < h.len(),
        find_bin(h, c) >= 0 ==> h[find_bin(h, c)].0 == c,
        find_bin(h, c) < 0 ==> forall|j: int| 0 <= j < h.len() ==> h[j].0 != c,
    decreases h.len(),
{
    if h.len() > 0 {
        lemma_find_bin_bounds(h.drop_last(), c);
        if h.last().0 != c {
            assert forall|j: int| 0 <= j < h.len() - 1 implies h[j] == h.drop_last()[j] by {}
        }
    }
}

proof fn lemma_opaque_bins_len(px: Seq<u8>, k: int)
    ensures
        opaque_bins(px, k).len() <= if k < 0 { 0 } else { k },
    decreases k,
{
    if k > 0 {
        lemma_opaque_bins_len(px, k - 1);
    }
}

proof fn lemma_histogram_counts_bounded(s: Seq<Rgb>)
    ensures
        forall|j: int| 0 <= j < histogram(s).len() ==> 1 <= #[trigger] histogram(s)[j].1 <= s.len(),
        histogram(s).len() <= s.len(),
    decreases s.len(),
{
    if s.len() > 0 {
        lemma_histogram_counts_bounded(s.drop_last());
        lemma_find_bin_bounds(histogram(s.drop_last()), s.last());
    }
}

/// The key of a colour in the histogram's index: its channels packed into
/// one integer.
pub open spec fn color_key(c: Rgb) -> u32 {
    ((c.r as u32) << 16u32) | ((c.g as u32) << 8u32) | (c.b as u32)
}

proof fn lemma_color_key_injective(a: Rgb, b: Rgb)
    requires
        color_key(a) == color_key(b),
    ensures
        a == b,
{
    let (ar, ag, ab, br, bg, bb) = (a.r, a.g, a.b, b.r, b.g, b.b);
    assert(ar == br && ag == bg && ab == bb) by (bit_vector)
        requires
            ((ar as u32) << 16u32) | ((ag as u32) << 8u32) | (ab as u32) == ((br as u32) << 16u32) | ((
                bg as u32) << 8u32) | (bb as u32),
    ;
}

proof fn lemma_find_bin_at(h: Seq<(Rgb, int)>, i: int)
    requires
        distinct_keys(h),
        0 <= i < h.len(),
    ensures
        find_bin(h, h[i].0) == i,
    decreases h.len(),
{
    if i < h.len() - 1 {
        assert(h.last().0 != h[i].0);
        let d = h.drop_last();
        assert(distinct_keys(d)) by {
            assert forall|x: int, y: int| 0 <= x < y < d.len() implies d[x].0 != d[y].0 by {
                assert(d[x] == h[x]);
                assert(d[y] == h[y]);
            }
        }
        assert(d[i] == h[i]);
        lemma_find_bin_at(d, i);
    }
}

fn key_of(c: Rgb) -> (k: u32)
    ensures
        k == color_key(c),
{
    ((c.r as u32) << 16u32) | ((c.g as u32) << 8u32) | (c.b as u32)
}

/// Counts the opaque pixels of an image by quantized colour. The entries
/// are found again through an index from each colour's key to its
/// position.
fn build_histogram(px: &[u8]) -> (h: Vec<(Rgb, usize)>)
    ensures
        counts_view(h@) == histogram(image_bins(px@)),
{
    broadcast use vstd::std_specs::hash::group_hash_axioms;

    let len = px.len();
    let n = len / 4;
    let mut h: Vec<(Rgb, usize)> = Vec::new();
    let mut index: HashMap<u32, usize> = HashMap::new();
    let mut k: usize = 0;
    while k < n
        invariant
            n == px@.len() / 4,
            len == px@.len(),
            0 <= k <= n,
            counts_view(h@) == histogram(opaque_bins(px@, k as int)),
            forall|key: u32|
                #[trigger] index@.contains_key(key) ==> index@[key] < h@.len() && color_key(
                    h@[index@[key] as int].0,
                ) == key,
            forall|i: int| 0 <= i < h@.len() ==> #[trigger] index@.contains_key(color_key(h@[i].0)),
        decreases n - k,
    {
        assert(4 * k + 3 < len) by (nonlinear_arith)
            requires
                k < n,
                n == len / 4,
        ;
        let a = px[4 * k + 3];
        if a >= 128 {
            let c = Rgb { r: px[4 * k] / 16 * 16, g: px[4 * k + 1] / 16 * 16, b: px[4 * k + 2] / 16 * 16 };
            let ghost s = opaque_bins(px@, k + 1);
            proof {
                assert(c == pixel_bin(px@, k as int));
                assert(s.drop_last() == opaque_bins(px@, k as int));
                assert(s.last() == c);
                lemma_opaque_bins_len(px@, k as int);
                lemma_histogram_counts_bounded(opaque_bins(px@, k as int));
                lemma_histogram_exact(opaque_bins(px@, k as int));
                lemma_find_bin_bounds(counts_view(h@), c);
            }
            let key = key_of(c);
            match index.get(&key) {
                Some(found) => {
                    let i = *found;
                    proof {
                        lemma_color_key_injective(h@[i as int].0, c);
                        assert(counts_view(h@)[i as int].0 == c);
                        lemma_find_bin_at(counts_view(h@), i as int);
                    }
                    let cnt = h[i].1;
                    assert(counts_view(h@)[i as int].1 == cnt as int);
                    let ghost before = counts_view(h@);
                    h.set(i, (c, cnt + 1));
                    assert(counts_view(h@) == before.update(i as int, (c, before[i as int].1 + 1)));
                    assert forall|j: int| 0 <= j < h@.len() implies #[trigger] index@.contains_key(
                        color_key(h@[j].0),
                    ) by {
                        assert(h@[j].0 == counts_view(h@)[j].0);
                        assert(before[j].0 == counts_view(h@)[j].0);
                    }
                }
                None => {
                    proof {
                        assert forall|j: int| 0 <= j < h@.len() implies h@[j].0 != c by {
                            assert(index@.contains_key(color_key(h@[j].0)));
                        }
                        if find_bin(counts_view(h@), c) >= 0 {
                            let j = find_bin(counts_view(h@), c);
                            assert(counts_view(h@)[j].0 == h@[j].0);
                        }
                    }
                    let ghost before = counts_view(h@);
                    let ghost old_h = h@;
                    let ghost old_index = index@;
                    let at = h.len();
                    index.insert(key, at);
                    h.push((c, 1));
                    assert(counts_view(h@) == before.push((c, 1)));
                    assert forall|key2: u32| #[trigger] index@.contains_key(key2) implies index@[key2]
                        < h@.len() && color_key(h@[index@[key2] as int].0) == key2 by {
                        if key2 != key {
                            assert(old_index.contains_key(key2));
                            assert(h@[index@[key2] as int] == old_h[old_index[key2] as int]);
                        }
                    }
                    assert forall|j: int| 0 <= j < h@.len() implies #[trigger] index@.contains_key(
                        color_key(h@[j].0),
                    ) by {
                        if j < old_h.len() {
                            assert(h@[j] == old_h[j]);
                            assert(old_index.contains_key(color_key(old_h[j].0)));
                        }
                    }
                }
            }
        }
        k = k + 1;
    }
    h
}

/// Index of the first entry with the largest count.
fn first_max_entry(e: &Vec<(Rgb, usize)>) -> (i: usize)
    requires
        e@.len() >= 1,
    ensures
        i as int == first_max(counts_view(e@)),
        i < e@.len(),
{
    let mut best: usize = 0;
    let mut k: usize = 1;
    while k < e.len()
        invariant
            1 <= k <= e@.len(),
            best < k,
            best as int == first_max(counts_view(e@).take(k as int)),
        decreases e@.len() - k,
    {
        proof {
            let u = counts_view(e@).take(k + 1);
            assert(u.drop_last() == counts_view(e@).take(k as int));
            assert(u[best as int] == counts_view(e@)[best as int]);
            assert(u.last() == counts_view(e@)[k as int]);
        }
        if e[best].1 < e[k].1 {
            best = k;
        }
        k = k + 1;
    }
    assert(counts_view(e@).take(e@.len() as int) == counts_view(e@));
    best
}

/// Extracts the dominant colours of an image from its RGBA bytes: the
/// `PALETTE_SIZE` most frequent quantized colours of its opaque pixels, most
/// frequent first.
pub fn dominant_colors(rgba: &[u8]) -> (colors: Vec<Rgb>)
    ensures
        colors@ == palette(rgba@),
{
    let mut rest = build_histogram(rgba);
    let mut colors: Vec<Rgb> = Vec::new();
    let mut step: usize = 0;
    while step < PALETTE_SIZE && rest.len() > 0
        invariant
            step <= PALETTE_SIZE,
            colors@ + top_colors(counts_view(rest@), (PALETTE_SIZE - step) as nat) == palette(rgba@),
        decreases PALETTE_SIZE - step,
    {
        let i = first_max_entry(&rest);
        let ghost before = counts_view(rest@);
        let e = rest.remove(i);
        proof {
            assert(counts_view(rest@) == before.remove(i as int));
            assert(before[i as int].0 == e.0);
        }
        colors.push(e.0);
        proof {
            let k = (PALETTE_SIZE - step) as nat;
            assert(top_colors(before, k) == seq![e.0] + top_colors(before.remove(i as int), (k - 1) as nat));
            assert(colors@ + top_colors(counts_view(rest@), (k - 1) as nat) ==
                colors@.drop_last() + top_colors(before, k));
        }
        step = step + 1;
    }
    proof {
        assert(top_colors(counts_view(rest@), (PALETTE_SIZE - step) as nat) == Seq::<Rgb>::empty());
    }
    assert(colors@ + Seq::<Rgb>::empty() == colors@);
    colors
}

/// The number of times `c` occurs in `s`.
pub open spec fn occurrences(s: Seq<Rgb>, c: Rgb) -> int
    decreases s.len(),
{
    if s.len() == 0 {
        0
    } else {
        occurrences(s.drop_last(), c) + if s.last() == c {
            1int
        } else {
            0int
        }
    }
}

/// Whether the entries of a histogram have pairwise distinct colours.
pub open spec fn distinct_keys(h: Seq<(Rgb, int)>) -> bool {
    forall|i: int, j: int| 0 <= i < j < h.len() ==> h[i].0 != h[j].0
}

/// The entries of the `k` most frequent colours (see `top_colors`).
pub open spec fn top_entries(e: Seq<(Rgb, int)>, k: nat) -> Seq<(Rgb, int)>
    decreases k,
{
    if k == 0 || e.len() == 0 {
        Seq::empty()
    } else {
        let i = first_max(e);
        seq![e[i]] + top_entries(e.remove(i), (k - 1) as nat)
    }
}

proof fn lemma_occurrences_contains(s: Seq<Rgb>, c: Rgb)
    ensures
        occurrences(s, c) >= 0,
        occurrences(s, c) > 0 ==> s.contains(c),
        occurrences(s, c) <= s.len(),
    decreases s.len(),
{
    if s.len() > 0 {
        lemma_occurrences_contains(s.drop_last(), c);
        if occurrences(s.drop_last(), c) > 0 {
            let k = choose|k: int| 0 <= k < s.drop_last().len() && s.drop_last()[k] == c;
            assert(s[k] == c);
        }
        if s.last() == c {
            assert(s[s.len() - 1] == c);
        }
    }
}

/// The histogram of a sequence of colours holds each colour that occurs in
/// it exactly once, with its number of occurrences.
pub proof fn lemma_histogram_exact(s: Seq<Rgb>)
    ensures
        distinct_keys(histogram(s)),
        forall|i: int|
            0 <= i < histogram(s).len() ==> #[trigger] histogram(s)[i].1 == occurrences(
                s,
                histogram(s)[i].0,
            ) && histogram(s)[i].1 >= 1,
        forall|c: Rgb|
            #[trigger] occurrences(s, c) > 0 ==> exists|i: int|
                0 <= i < histogram(s).len() && histogram(s)[i].0 == c,
    decreases s.len(),
{
    if s.len() > 0 {
        let t = s.drop_last();
        let c = s.last();
        let h = histogram(t);
        lemma_histogram_exact(t);
        lemma_find_bin_bounds(h, c);
        let i = find_bin(h, c);
        let h2 = histogram(s);
        if i >= 0 {
            assert(h2 == h.update(i, (c, h[i].1 + 1)));
            assert forall|j: int| 0 <= j < h2.len() implies #[trigger] h2[j].1 == occurrences(
                s,
                h2[j].0,
            ) && h2[j].1 >= 1 by {
                if j != i {
                    assert(h[j].0 != c);
                }
            }
            assert forall|x: Rgb| #[trigger] occurrences(s, x) > 0 implies exists|j: int|
                0 <= j < h2.len() && h2[j].0 == x by {
                if x == c {
                    assert(h2[i].0 == x);
                } else {
                    assert(occurrences(t, x) > 0);
                    let j = choose|j: int| 0 <= j < h.len() && h[j].0 == x;
                    assert(h2[j].0 == x);
                }
            }
        } else {
            assert(h2 == h.push((c, 1)));
            assert(occurrences(t, c) == 0) by {
                lemma_occurrences_contains(t, c);
                if occurrences(t, c) > 0 {
                    let j = choose|j: int| 0 <= j < h.len() && h[j].0 == c;
                }
            }
            assert forall|j: int| 0 <= j < h2.len() implies #[trigger] h2[j].1 == occurrences(
                s,
                h2[j].0,
            ) && h2[j].1 >= 1 by {
                if j < h.len() {
                    assert(h2[j] == h[j]);
                    assert(h[j].0 != c);
                }
            }
            assert forall|x: Rgb| #[trigger] occurrences(s, x) > 0 implies exists|j: int|
                0 <= j < h2.len() && h2[j].0 == x by {
                if x == c {
                    assert(h2[h.len() as int].0 == x);
                } else {
                    assert(occurrences(t, x) > 0);
                    let j = choose|j: int| 0 <= j < h.len() && h[j].0 == x;
                    assert(h2[j].0 == x);
                }
            }
        }
    }
}

proof fn lemma_first_max_is_max(e: Seq<(Rgb, int)>)
    requires
        e.len() >= 1,
    ensures
        0 <= first_max(e) < e.len(),
        forall|j: int| 0 <= j < e.len() ==> #[trigger] e[j].1 <= e[first_max(e)].1,
    decreases e.len(),
{
    if e.len() > 1 {
        lemma_first_max_is_max(e.drop_last());
        let b = first_max(e.drop_last());
        assert(e.drop_last()[b] == e[b]);
        assert forall|j: int| 0 <= j < e.len() implies #[trigger] e[j].1 <= e[first_max(e)].1 by {
            if j < e.len() - 1 {
                assert(e.drop_last()[j] == e[j]);
            }
        }
    }
}

proof fn lemma_top_entries(e: Seq<(Rgb, int)>, k: nat)
    requires
        distinct_keys(e),
    ensures
        top_colors(e, k) == top_entries(e, k).map_values(|x: (Rgb, int)| x.0),
        top_entries(e, k).len() == if k < e.len() { k as int } else { e.len() as int },
        forall|j: int| 0 <= j < top_entries(e, k).len() ==> e.contains(#[trigger] top_entries(e, k)[j]),
        distinct_keys(top_entries(e, k)),
        forall|i: int, j: int|
            0 <= i < j < top_entries(e, k).len() ==> top_entries(e, k)[i].1 >= top_entries(e, k)[j].1,
        forall|x: (Rgb, int), j: int|
            #![trigger e.contains(x), top_entries(e, k)[j]]
            e.contains(x) && 0 <= j < top_entries(e, k).len() && (forall|m: int|
                0 <= m < top_entries(e, k).len() ==> top_entries(e, k)[m].0 != x.0) ==> x.1
                <= top_entries(e, k)[j].1,
    decreases k,
{
    let r = top_entries(e, k);
    if k == 0 || e.len() == 0 {
        assert(top_colors(e, k) == r.map_values(|x: (Rgb, int)| x.0));
    } else {
        lemma_first_max_is_max(e);
        let i = first_max(e);
        let e2 = e.remove(i);
        assert(e2.len() == e.len() - 1);
        assert forall|a: int| 0 <= a < e2.len() implies #[trigger] e2[a] == e[if a < i { a } else { a + 1 }] by {}
        assert(distinct_keys(e2)) by {
            assert forall|a: int, b: int| 0 <= a < b < e2.len() implies e2[a].0 != e2[b].0 by {
                let a1 = if a < i { a } else { a + 1 };
                let b1 = if b < i { b } else { b + 1 };
                assert(e2[a] == e[a1]);
                assert(e2[b] == e[b1]);
            }
        }
        lemma_top_entries(e2, (k - 1) as nat);
        let r2 = top_entries(e2, (k - 1) as nat);
        assert(r == seq![e[i]] + r2);
        assert(top_colors(e, k) == seq![e[i].0] + top_colors(e2, (k - 1) as nat));
        assert(top_colors(e, k) == r.map_values(|x: (Rgb, int)| x.0));
        // every later entry comes from e2: a member of e other than e[i]
        assert forall|j: int| 0 <= j < r2.len() implies e.contains(#[trigger] r2[j]) && r2[j].0
            != e[i].0 && r2[j].1 <= e[i].1 by {
            assert(e2.contains(r2[j]));
            let a = choose|a: int| 0 <= a < e2.len() && e2[a] == r2[j];
            let a1 = if a < i { a } else { a + 1 };
            assert(e2[a] == e[a1]);
            assert(a1 != i);
        }
        assert forall|j: int| 0 <= j < r.len() implies e.contains(#[trigger] r[j]) by {
            if j > 0 {
                assert(r[j] == r2[j - 1]);
            }
        }
        assert(distinct_keys(r)) by {
            assert forall|a: int, b: int| 0 <= a < b < r.len() implies r[a].0 != r[b].0 by {
                assert(r[b] == r2[b - 1]);
                if a > 0 {
                    assert(r[a] == r2[a - 1]);
                }
            }
        }
        assert forall|a: int, b: int| 0 <= a < b < r.len() implies r[a].1 >= r[b].1 by {
            assert(r[b] == r2[b - 1]);
            if a > 0 {
                assert(r[a] == r2[a - 1]);
            }
        }
        assert forall|x: (Rgb, int), j: int|
            #![trigger e.contains(x), r[j]]
            e.contains(x) && 0 <= j < r.len() && (forall|m: int|
                0 <= m < r.len() ==> r[m].0 != x.0) implies x.1 <= r[j].1 by {
            let a = choose|a: int| 0 <= a < e.len() && e[a] == x;
            assert(r[0].0 != x.0);
            assert(a != i);
            if j == 0 {
            } else {
                let a2 = if a < i { a } else { a - 1 };
                assert(e2[a2] == e[a]);
                assert(e2.contains(x));
                assert forall|m: int| 0 <= m < r2.len() implies r2[m].0 != x.0 by {
                    assert(r[m + 1] == r2[m]);
                }
                assert(r[j] == r2[j - 1]);
            }
        }
    }
}

proof fn lemma_palette_entries(px: Seq<u8>)
    ensures
        ({
            let h = histogram(image_bins(px));
            let r = top_entries(h, PALETTE_SIZE as nat);
            &&& palette(px) == r.map_values(|x: (Rgb, int)| x.0)
            &&& r.len() == if PALETTE_SIZE < h.len() { PALETTE_SIZE as int } else { h.len() as int }
            &&& distinct_keys(r)
            &&& forall|j: int| 0 <= j < r.len() ==> #[trigger] r[j].1 == occurrences(image_bins(px), r[j].0)
                && r[j].1 >= 1
            &&& forall|i: int, j: int| 0 <= i < j < r.len() ==> r[i].1 >= r[j].1
            &&& forall|x: (Rgb, int), j: int|
                #![trigger h.contains(x), r[j]]
                h.contains(x) && 0 <= j < r.len() && (forall|m: int| 0 <= m < r.len() ==> r[m].0 != x.0)
                    ==> x.1 <= r[j].1
        }),
{
    let s = image_bins(px);
    let h = histogram(s);
    lemma_histogram_exact(s);
    lemma_top_entries(h, PALETTE_SIZE as nat);
    let r = top_entries(h, PALETTE_SIZE as nat);
    assert forall|j: int| 0 <= j < r.len() implies #[trigger] r[j].1 == occurrences(s, r[j].0)
        && r[j].1 >= 1 by {
        assert(h.contains(r[j]));
        let a = choose|a: int| 0 <= a < h.len() && h[a] == r[j];
        assert(h[a].1 == occurrences(s, h[a].0));
    }
}

/// A palette has `PALETTE_SIZE` colours, or as many as the image has
/// distinct bins where that is fewer; its colours are pairwise distinct and
/// each is the bin of at least one opaque pixel.
pub proof fn lemma_palette_members(px: Seq<u8>)
    ensures
        palette(px).len() == if PALETTE_SIZE < histogram(image_bins(px)).len() {
            PALETTE_SIZE as int
        } else {
            histogram(image_bins(px)).len() as int
        },
        palette(px).no_duplicates(),
        forall|j: int|
            0 <= j < palette(px).len() ==> occurrences(image_bins(px), #[trigger] palette(px)[j])
                >= 1,
{
    lemma_palette_entries(px);
    let r = top_entries(histogram(image_bins(px)), PALETTE_SIZE as nat);
    let p = palette(px);
    assert forall|i: int, j: int| 0 <= i < p.len() && 0 <= j < p.len() && i != j implies p[i]
        != p[j] by {
        if i < j {
            assert(r[i].0 != r[j].0);
        } else {
            assert(r[j].0 != r[i].0);
        }
    }
    assert forall|j: int| 0 <= j < p.len() implies occurrences(image_bins(px), #[trigger] p[j])
        >= 1 by {
        assert(r[j].1 == occurrences(image_bins(px), r[j].0));
    }
}

/// The palette is ordered by popularity: a colour comes before the ones
/// that are no more frequent than it, and a bin left out of the palette
/// is no more frequent than any colour in it.
pub proof fn lemma_palette_by_popularity(px: Seq<u8>)
    ensures
        forall|i: int, j: int|
            0 <= i < j < palette(px).len() ==> occurrences(image_bins(px), #[trigger] palette(px)[i])
                >= occurrences(image_bins(px), #[trigger] palette(px)[j]),
        forall|c: Rgb, j: int|
            #![trigger occurrences(image_bins(px), c), palette(px)[j]]
            occurrences(image_bins(px), c) > 0 && !palette(px).contains(c) && 0 <= j
                < palette(px).len() ==> occurrences(image_bins(px), c) <= occurrences(
                image_bins(px),
                palette(px)[j],
            ),
{
    lemma_palette_entries(px);
    lemma_histogram_exact(image_bins(px));
    let s = image_bins(px);
    let h = histogram(s);
    let r = top_entries(h, PALETTE_SIZE as nat);
    let p = palette(px);
    assert forall|i: int, j: int| 0 <= i < j < p.len() implies occurrences(s, #[trigger] p[i])
        >= occurrences(s, #[trigger] p[j]) by {
        assert(r[i].1 == occurrences(s, r[i].0));
        assert(r[j].1 == occurrences(s, r[j].0));
    }
    assert forall|c: Rgb, j: int|
        #![trigger occurrences(s, c), p[j]]
        occurrences(s, c) > 0 && !p.contains(c) && 0 <= j < p.len() implies occurrences(s, c)
            <= occurrences(s, p[j]) by {
        let a = choose|a: int| 0 <= a < h.len() && h[a].0 == c;
        assert(h.contains(h[a]));
        assert forall|m: int| 0 <= m < r.len() implies r[m].0 != h[a].0 by {
            assert(p[m] == r[m].0);
        }
        assert(r[j].1 == occurrences(s, r[j].0));
    }
}

proof fn lemma_bins_quantized(px: Seq<u8>, k: int)
    requires
        k <= px.len() / 4,
    ensures
        forall|j: int|
            0 <= j < opaque_bins(px, k).len() ==> (#[trigger] opaque_bins(px, k)[j]).r % 16 == 0
                && opaque_bins(px, k)[j].g % 16 == 0 && opaque_bins(px, k)[j].b % 16 == 0,
    decreases k,
{
    if k > 0 {
        lemma_bins_quantized(px, k - 1);
        let c = pixel_bin(px, k - 1);
        assert forall|v: u8| #[trigger] quantize(v) % 16 == 0 by {
            assert(((v / 16) * 16) as u8 % 16 == 0) by (bit_vector);
        }
        assert(c.r % 16 == 0 && c.g % 16 == 0 && c.b % 16 == 0) by {
            assert(quantize(px[4 * (k - 1)]) % 16 == 0);
            assert(quantize(px[4 * (k - 1) + 1]) % 16 == 0);
            assert(quantize(px[4 * (k - 1) + 2]) % 16 == 0);
        }
        let prev = opaque_bins(px, k - 1);
        let cur = opaque_bins(px, k);
        assert forall|j: int| 0 <= j < cur.len() implies (#[trigger] cur[j]).r % 16 == 0
            && cur[j].g % 16 == 0 && cur[j].b % 16 == 0 by {
            if j < prev.len() {
                assert(cur[j] == prev[j]);
            } else {
                assert(cur[j] == c);
            }
        }
    }
}

/// Every palette colour is a bin: its channels are multiples of 16.
pub proof fn lemma_palette_quantized(px: Seq<u8>)
    ensures
        forall|j: int|
            0 <= j < palette(px).len() ==> (#[trigger] palette(px)[j]).r % 16 == 0 && palette(
                px,
            )[j].g % 16 == 0 && palette(px)[j].b % 16 == 0,
{
    lemma_palette_members(px);
    lemma_bins_quantized(px, (px.len() / 4) as int);
    let s = image_bins(px);
    assert forall|j: int| 0 <= j < palette(px).len() implies (#[trigger] palette(px)[j]).r % 16
        == 0 && palette(px)[j].g % 16 == 0 && palette(px)[j].b % 16 == 0 by {
        lemma_occurrences_contains(s, palette(px)[j]);
        let a = choose|a: int| 0 <= a < s.len() && s[a] == palette(px)[j];
        assert(s[a] == opaque_bins(px, (px.len() / 4) as int)[a]);
    }
}

/// A palette of two or more colours always yields a primary and an accent
/// colour that differ.
pub proof fn lemma_palette_theme_differs(px: Seq<u8>)
    requires
        palette(px).len() >= 2,
    ensures
        theme_pair(palette(px)).0 != theme_pair(palette(px)).1,
{
    lemma_palette_members(px);
    lemma_theme_colors_differ(palette(px));
}

} // verus!
