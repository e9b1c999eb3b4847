//! The watch's indexed-8 image format (LVGL colour format 10): a 4-byte
//! little-endian header `cf | w << 10 | h << 21`, a 256-entry palette of
//! `B, G, R, 0xFF`, then one palette index per pixel. Colours are reduced
//! to the palette by median cut.

use vstd::prelude::*;

verus! {

/// Number of palette entries.
pub const PALETTE_SIZE: usize = 256;

/// A pixel of a box: its position in the image and its colour.
pub type Pixel = (u32, [u8; 3]);

/// Smallest value of channel `c` in a box (255 for an empty box).
pub open spec fn ch_min(b: Seq<Pixel>, c: int) -> u8
    decreases b.len(),
{
    if b.len() == 0 {
        255
    } else {
        let m = ch_min(b.drop_last(), c);
        let v = b.last().1[c];
        if v < m {
            v
        } else {
            m
        }
    }
}

/// Largest value of channel `c` in a box (0 for an empty box).
pub open spec fn ch_max(b: Seq<Pixel>, c: int) -> u8
    decreases b.len(),
{
    if b.len() == 0 {
        0
    } else {
        let m = ch_max(b.drop_last(), c);
        let v = b.last().1[c];
        if v > m {
            v
        } else {
            m
        }
    }
}

/// Spread of channel `c` in a box.
pub open spec fn ch_range(b: Seq<Pixel>, c: int) -> int {
    ch_max(b, c) - ch_min(b, c)
}

/// The channel with the widest spread in a box, and the spread: the first
/// of equally wide channels, and channel 0 with spread 0 when no channel
/// varies.
pub open spec fn widest(b: Seq<Pixel>) -> (int, int) {
    let r0 = ch_range(b, 0);
    let r1 = ch_range(b, 1);
    let r2 = ch_range(b, 2);
    let (c1, m1) = if r0 > 0 {
        (0int, r0)
    } else {
        (0int, 0int)
    };
    let (c2, m2) = if r1 > m1 {
        (1int, r1)
    } else {
        (c1, m1)
    };
    if r2 > m2 {
        (2int, r2)
    } else {
        (c2, m2)
    }
}

proof fn lemma_min_le_max(b: Seq<Pixel>, c: int)
    requires
        b.len() > 0,
    ensures
        ch_min(b, c) <= ch_max(b, c),
    decreases b.len(),
{
    if b.len() > 1 {
        lemma_min_le_max(b.drop_last(), c);
    }
}

/// The channel of a box with the widest spread, and the spread.
pub fn widest_channel(b: &Vec<Pixel>) -> (r: (usize, u8))
    requires
        b@.len() > 0,
    ensures
        r.0 as int == widest(b@).0,
        r.1 as int == widest(b@).1,
{
    let mut mn: [u8; 3] = [255u8, 255u8, 255u8];
    let mut mx: [u8; 3] = [0u8, 0u8, 0u8];
    let mut i: usize = 0;
    while i < b.len()
        invariant
            i <= b@.len(),
            forall|c: int| 0 <= c < 3 ==> mn[c] == ch_min(b@.take(i as int), c),
            forall|c: int| 0 <= c < 3 ==> mx[c] == ch_max(b@.take(i as int), c),
        decreases b.len() - i,
    {
        let p = b[i].1;
        assert(b@.take(i + 1).drop_last() =~= b@.take(i as int));
        assert(b@.take(i + 1).last() == b@[i as int]);
        let mut c: usize = 0;
        while c < 3
            invariant
                i < b@.len(),
                p == b@[i as int].1,
                c <= 3,
                forall|k: int| 0 <= k < c ==> mn[k] == ch_min(b@.take(i + 1), k),
                forall|k: int| 0 <= k < c ==> mx[k] == ch_max(b@.take(i + 1), k),
                forall|k: int| c <= k < 3 ==> mn[k] == ch_min(b@.take(i as int), k),
                forall|k: int| c <= k < 3 ==> mx[k] == ch_max(b@.take(i as int), k),
                b@.take(i + 1).drop_last() == b@.take(i as int),
                b@.take(i + 1).last() == b@[i as int],
            decreases 3 - c,
        {
            if p[c] < mn[c] {
                mn.set(c, p[c]);
            }
            if p[c] > mx[c] {
                mx.set(c, p[c]);
            }
            c = c + 1;
        }
        i = i + 1;
    }
    assert(b@.take(i as int) =~= b@);
    proof {
        lemma_min_le_max(b@, 0);
        lemma_min_le_max(b@, 1);
        lemma_min_le_max(b@, 2);
    }
    let mut best: usize = 0;
    let mut best_range: u8 = 0;
    let r0 = mx[0] - mn[0];
    if r0 > best_range {
        best_range = r0;
        best = 0;
    }
    let r1 = mx[1] - mn[1];
    if r1 > best_range {
        best_range = r1;
        best = 1;
    }
    let r2 = mx[2] - mn[2];
    if r2 > best_range {
        best_range = r2;
        best = 2;
    }
    (best, best_range)
}

/// The pixels of a box whose channel `c` has value `k`, in order.
pub open spec fn with_value(b: Seq<Pixel>, c: int, k: int) -> Seq<Pixel> {
    b.filter(|e: Pixel| e.1[c] as int == k)
}

/// A box sorted by channel `c`, keeping the order of pixels of equal value
/// (a stable sort by that channel).
pub open spec fn sorted_by_channel(b: Seq<Pixel>, c: int) -> Seq<Pixel> {
    Seq::new(256, |k: int| with_value(b, c, k)).flatten()
}

/// The pixels of buckets `k..` in total.
pub open spec fn lens_from(bs: Seq<Vec<Pixel>>, k: int) -> nat
    decreases bs.len() - k,
{
    if k >= bs.len() || k < 0 {
        0
    } else {
        bs[k]@.len() + lens_from(bs, k + 1)
    }
}

proof fn lemma_lens_from_push(bs: Seq<Vec<Pixel>>, j: int, v: Vec<Pixel>, k: int)
    requires
        0 <= j < bs.len(),
        0 <= k,
        v@.len() == bs[j]@.len() + 1,
    ensures
        lens_from(bs.update(j, v), k) == lens_from(bs, k) + if k <= j {
            1int
        } else {
            0int
        },
    decreases bs.len() - k,
{
    if k < bs.len() {
        lemma_lens_from_push(bs, j, v, k + 1);
    }
}

/// Whether every pixel of `a` is a pixel of `b`.
pub open spec fn drawn_from(a: Seq<Pixel>, b: Seq<Pixel>) -> bool {
    forall|i: int| 0 <= i < a.len() ==> occurs_in(#[trigger] a[i], b)
}

/// Whether `x` is a pixel of `b`.
pub open spec fn occurs_in(x: Pixel, b: Seq<Pixel>) -> bool {
    exists|j: int| 0 <= j < b.len() && b[j] == x
}

/// Sorts a box by channel `c`, stably (counting sort over the 256 values).
fn sort_by_channel(b: &Vec<Pixel>, c: usize) -> (r: Vec<Pixel>)
    requires
        c < 3,
    ensures
        r@ == sorted_by_channel(b@, c as int),
        r@.len() == b@.len(),
        drawn_from(r@, b@),
{
    let mut buckets: Vec<Vec<Pixel>> = Vec::new();
    let mut k: usize = 0;
    while k < 256
        invariant
            k <= 256,
            buckets@.len() == k,
            forall|j: int| 0 <= j < k ==> (#[trigger] buckets@[j])@.len() == 0,
        decreases 256 - k,
    {
        buckets.push(Vec::new());
        k = k + 1;
    }
    proof {
        lemma_lens_zero(buckets@, 256);
    }
    let mut i: usize = 0;
    while i < b.len()
        invariant
            c < 3,
            i <= b@.len(),
            buckets@.len() == 256,
            forall|j: int| 0 <= j < 256 ==> (#[trigger] buckets@[j])@ == with_value(b@.take(i as int), c as int, j),
            lens_from(buckets@, 0) == i,
            forall|j: int| 0 <= j < 256 ==> drawn_from((#[trigger] buckets@[j])@, b@),
        decreases b.len() - i,
    {
        let e = b[i];
        let key = e.1[c] as usize;
        let ghost before = buckets@;
        assert(b@.take(i + 1).drop_last() =~= b@.take(i as int));
        assert(b@.take(i + 1).last() == e);
        proof {
            reveal(Seq::filter);
        }
        buckets[key].push(e);
        proof {
            lemma_lens_from_push(before, key as int, buckets@[key as int], 0);
            assert(buckets@ == before.update(key as int, buckets@[key as int]));
            assert forall|j: int| 0 <= j < 256 implies (#[trigger] buckets@[j])@ == with_value(
                b@.take(i + 1),
                c as int,
                j,
            ) by {
                if j == key {
                    assert(with_value(b@.take(i + 1), c as int, j) == with_value(b@.take(i as int), c as int, j).push(e));
                } else {
                    assert(buckets@[j] == before[j]);
                    assert(with_value(b@.take(i + 1), c as int, j) == with_value(b@.take(i as int), c as int, j));
                }
            }
            assert forall|j: int| 0 <= j < 256 implies drawn_from((#[trigger] buckets@[j])@, b@) by {
                if j == key {
                    assert forall|m: int| 0 <= m < buckets@[j]@.len() implies occurs_in(
                        #[trigger] buckets@[j]@[m],
                        b@,
                    ) by {
                        if m < before[j]@.len() {
                            assert(buckets@[j]@[m] == before[j]@[m]);
                            assert(drawn_from(before[j]@, b@));
                        } else {
                            assert(buckets@[j]@[m] == b@[i as int]);
                            assert(occurs_in(b@[i as int], b@));
                        }
                    }
                } else {
                    assert(buckets@[j] == before[j]);
                }
            }
        }
        i = i + 1;
    }
    assert(b@.take(i as int) =~= b@);
    let ghost parts = Seq::new(256, |j: int| with_value(b@, c as int, j));
    let mut r: Vec<Pixel> = Vec::new();
    let mut k: usize = 0;
    assert(parts.take(0).flatten() =~= Seq::<Pixel>::empty());
    while k < 256
        invariant
            k <= 256,
            buckets@.len() == 256,
            parts == Seq::new(256, |j: int| with_value(b@, c as int, j)),
            forall|j: int| 0 <= j < 256 ==> (#[trigger] buckets@[j])@ == parts[j],
            forall|j: int| 0 <= j < 256 ==> drawn_from((#[trigger] buckets@[j])@, b@),
            lens_from(buckets@, 0) == b@.len(),
            r@ == parts.take(k as int).flatten(),
            r@.len() + lens_from(buckets@, k as int) == b@.len(),
            drawn_from(r@, b@),
        decreases 256 - k,
    {
        let mut m: usize = 0;
        let ghost r0 = r@;
        while m < buckets[k].len()
            invariant
                k < 256,
                buckets@.len() == 256,
                r@ == r0 + buckets@[k as int]@.take(m as int),
                m <= buckets@[k as int]@.len(),
                drawn_from(r0, b@),
                drawn_from(buckets@[k as int]@, b@),
                drawn_from(r@, b@),
            decreases buckets@[k as int]@.len() - m,
        {
            let ghost rb = r@;
            r.push(buckets[k][m]);
            assert(r@ =~= r0 + buckets@[k as int]@.take(m + 1));
            assert forall|x: int| 0 <= x < r@.len() implies occurs_in(#[trigger] r@[x], b@) by {
                if x < rb.len() {
                    assert(r@[x] == rb[x]);
                } else {
                    assert(r@[x] == buckets@[k as int]@[m as int]);
                }
            }
            m = m + 1;
        }
        assert(buckets@[k as int]@.take(m as int) =~= buckets@[k as int]@);
        assert(parts.take(k + 1) =~= parts.take(k as int).push(parts[k as int]));
        proof {
            parts.take(k as int).lemma_flatten_push(parts[k as int]);
        }
        k = k + 1;
    }
    assert(parts.take(256) =~= parts);
    r
}

proof fn lemma_lens_zero(bs: Seq<Vec<Pixel>>, j: int)
    requires
        bs.len() == 256,
        0 <= j <= 256,
        forall|x: int| 0 <= x < 256 ==> (#[trigger] bs[x])@.len() == 0,
    ensures
        lens_from(bs, 256 - j) == 0,
    decreases j,
{
    if j > 0 {
        lemma_lens_zero(bs, j - 1);
    }
}

/// A box can be cut: it has two pixels or more and some channel varies.
pub open spec fn splittable(b: Seq<Pixel>) -> bool {
    b.len() >= 2 && widest(b).1 > 0
}

/// The box to cut next, scanning from box `i` on with the best so far: the
/// first of the largest cuttable boxes.
pub open spec fn pick_from(boxes: Seq<Seq<Pixel>>, i: int, best: Option<int>, best_count: int) -> Option<
    int,
>
    decreases boxes.len() - i,
{
    if i >= boxes.len() || i < 0 {
        best
    } else if splittable(boxes[i]) && boxes[i].len() > best_count {
        pick_from(boxes, i + 1, Some(i), boxes[i].len() as int)
    } else {
        pick_from(boxes, i + 1, best, best_count)
    }
}

proof fn lemma_pick_from(boxes: Seq<Seq<Pixel>>, i: int, best: Option<int>, best_count: int)
    ensures
        pick_from(boxes, i, best, best_count) matches Some(t) ==> best == Some(t) || (0 <= t
            < boxes.len() && splittable(boxes[t])),
    decreases boxes.len() - i,
{
    if 0 <= i < boxes.len() {
        if splittable(boxes[i]) && boxes[i].len() > best_count {
            lemma_pick_from(boxes, i + 1, Some(i), boxes[i].len() as int);
        } else {
            lemma_pick_from(boxes, i + 1, best, best_count);
        }
    }
}

/// The box picked can be cut.
pub proof fn lemma_pick_splittable(boxes: Seq<Seq<Pixel>>)
    ensures
        pick(boxes) matches Some(t) ==> 0 <= t < boxes.len() && splittable(boxes[t]),
{
    lemma_pick_from(boxes, 0, None, 0);
}

/// The box to cut next: the first of the largest cuttable boxes.
pub open spec fn pick(boxes: Seq<Seq<Pixel>>) -> Option<int> {
    pick_from(boxes, 0, None, 0)
}

/// Cuts box `i` at the median of its widest channel: its lower half (after
/// a stable sort by that channel) stays in place, the upper half is added
/// at the end.
pub open spec fn split(boxes: Seq<Seq<Pixel>>, i: int) -> Seq<Seq<Pixel>> {
    let b = boxes[i];
    let s = sorted_by_channel(b, widest(b).0);
    let mid = s.len() / 2;
    boxes.update(i, s.take(mid as int)).push(s.skip(mid as int))
}

/// Median cut: boxes are cut until there are `max` of them or none can be
/// cut.
pub open spec fn cut(boxes: Seq<Seq<Pixel>>, max: nat) -> Seq<Seq<Pixel>>
    decreases max - boxes.len(),
{
    if boxes.len() >= max {
        boxes
    } else {
        match pick(boxes) {
            None => boxes,
            Some(i) => if 0 <= i < boxes.len() {
                cut(split(boxes, i), max)
            } else {
                boxes
            },
        }
    }
}

/// The single box of all pixels, each with its position.
pub open spec fn initial_box(pixels: Seq<[u8; 3]>) -> Seq<Pixel> {
    Seq::new(pixels.len(), |i: int| (i as u32, pixels[i]))
}

/// Sum of channel `c` over a box.
pub open spec fn ch_sum(b: Seq<Pixel>, c: int) -> nat
    decreases b.len(),
{
    if b.len() == 0 {
        0
    } else {
        ch_sum(b.drop_last(), c) + b.last().1[c] as nat
    }
}

/// The palette colour of a box: its average colour (black for an empty
/// box).
pub open spec fn box_colour(b: Seq<Pixel>) -> (u8, u8, u8) {
    let n: nat = if b.len() == 0 {
        1
    } else {
        b.len()
    };
    ((ch_sum(b, 0) / n) as u8, (ch_sum(b, 1) / n) as u8, (ch_sum(b, 2) / n) as u8)
}

/// The indices after giving every pixel of box `b` the index `v`.
pub open spec fn paint_box(ix: Seq<u8>, b: Seq<Pixel>, v: u8) -> Seq<u8>
    decreases b.len(),
{
    if b.len() == 0 {
        ix
    } else {
        paint_box(ix, b.drop_last(), v).update(b.last().0 as int, v)
    }
}

/// The index of each of `total` pixels: the number of its box.
pub open spec fn paint(boxes: Seq<Seq<Pixel>>, total: nat) -> Seq<u8>
    decreases boxes.len(),
{
    if boxes.len() == 0 {
        Seq::new(total, |i: int| 0u8)
    } else {
        paint_box(paint(boxes.drop_last(), total), boxes.last(), (boxes.len() - 1) as u8)
    }
}

/// The view of boxes held in vectors.
pub open spec fn boxes_view(v: Seq<Vec<Pixel>>) -> Seq<Seq<Pixel>> {
    v.map_values(|b: Vec<Pixel>| b@)
}

/// Every pixel of every box lies within the first `total` positions.
pub open spec fn positions_below(boxes: Seq<Seq<Pixel>>, total: nat) -> bool {
    forall|i: int, j: int|
        0 <= i < boxes.len() && 0 <= j < boxes[i].len() ==> (#[trigger] boxes[i][j]).0 < total
}

fn pick_box(boxes: &Vec<Vec<Pixel>>) -> (r: Option<usize>)
    ensures
        r matches Some(i) ==> pick(boxes_view(boxes@)) == Some(i as int) && i < boxes@.len(),
        r is None ==> pick(boxes_view(boxes@)) is None,
{
    let ghost bv = boxes_view(boxes@);
    let mut target: Option<usize> = None;
    let mut best_count: usize = 0;
    let mut i: usize = 0;
    while i < boxes.len()
        invariant
            bv == boxes_view(boxes@),
            i <= boxes@.len(),
            target matches Some(t) ==> t < i,
            pick(bv) == pick_from(bv, i as int, match target {
                Some(t) => Some(t as int),
                None => None,
            }, best_count as int),
        decreases boxes.len() - i,
    {
        assert(bv[i as int] == boxes@[i as int]@);
        if boxes[i].len() >= 2 {
            let (_, range) = widest_channel(&boxes[i]);
            if range > 0 && boxes[i].len() > best_count {
                best_count = boxes[i].len();
                target = Some(i);
            }
        }
        i = i + 1;
    }
    target
}

/// The palette of boxes: each box's average colour.
pub open spec fn palette_of(boxes: Seq<Seq<Pixel>>) -> Seq<(u8, u8, u8)> {
    boxes.map_values(|b: Seq<Pixel>| box_colour(b))
}

/// The boxes median cut makes of an image's pixels, for at most `max`
/// colours.
pub open spec fn quantized(pixels: Seq<[u8; 3]>, max: nat) -> Seq<Seq<Pixel>> {
    cut(seq![initial_box(pixels)], max)
}

proof fn lemma_split_positions(boxes: Seq<Seq<Pixel>>, i: int, total: nat)
    requires
        0 <= i < boxes.len(),
        positions_below(boxes, total),
        drawn_from(sorted_by_channel(boxes[i], widest(boxes[i]).0), boxes[i]),
    ensures
        positions_below(split(boxes, i), total),
{
    let b = boxes[i];
    let s = sorted_by_channel(b, widest(b).0);
    let mid = s.len() / 2;
    let nb = split(boxes, i);
    assert forall|x: int, y: int| 0 <= x < nb.len() && 0 <= y < nb[x].len() implies (
    #[trigger] nb[x][y]).0 < total by {
        if x == i {
            assert(nb[x][y] == s[y]);
            assert(occurs_in(s[y], b));
            let n = choose|n: int| 0 <= n < b.len() && b[n] == s[y];
            assert(boxes[i][n].0 < total);
        } else if x == boxes.len() {
            assert(nb[x][y] == s[y + mid]);
            assert(occurs_in(s[y + mid], b));
            let n = choose|n: int| 0 <= n < b.len() && b[n] == s[y + mid];
            assert(boxes[i][n].0 < total);
        } else {
            assert(nb[x] == boxes[x]);
        }
    }
}

/// Median-cut quantization of an image's pixels (row by row) to at most
/// `max_colors` colours: the boxes are cut as `cut` describes; the palette
/// holds each box's average colour and each pixel's index is its box's
/// number.
pub fn median_cut_quantize(pixels: &Vec<[u8; 3]>, max_colors: usize) -> (r: (
    Vec<(u8, u8, u8)>,
    Vec<u8>,
))
    requires
        pixels@.len() <= u32::MAX,
    ensures
        r.0@ == palette_of(quantized(pixels@, max_colors as nat)),
        r.1@ == paint(quantized(pixels@, max_colors as nat), pixels@.len()),
{
    let total = pixels.len();
    let mut first: Vec<Pixel> = Vec::new();
    let mut i: usize = 0;
    while i < total
        invariant
            total == pixels@.len() <= u32::MAX,
            i <= total,
            first@ == initial_box(pixels@).take(i as int),
        decreases total - i,
    {
        first.push((i as u32, pixels[i]));
        assert(first@ =~= initial_box(pixels@).take(i + 1));
        i = i + 1;
    }
    assert(first@ =~= initial_box(pixels@));
    let mut boxes: Vec<Vec<Pixel>> = Vec::new();
    boxes.push(first);
    let ghost goal = quantized(pixels@, max_colors as nat);
    assert(boxes_view(boxes@) =~= seq![initial_box(pixels@)]);
    let mut stuck = false;
    while !stuck && boxes.len() < max_colors
        invariant
            total == pixels@.len() <= u32::MAX,
            goal == quantized(pixels@, max_colors as nat),
            cut(boxes_view(boxes@), max_colors as nat) == goal,
            positions_below(boxes_view(boxes@), total as nat),
            stuck ==> pick(boxes_view(boxes@)) is None,
        decreases max_colors - boxes@.len() + if stuck {
            0int
        } else {
            1int
        },
    {
        match pick_box(&boxes) {
            None => {
                stuck = true;
            },
            Some(i) => {
                let ghost bv = boxes_view(boxes@);
                proof {
                    lemma_pick_splittable(bv);
                }
                let mut b: Vec<Pixel> = Vec::new();
                boxes.set_and_swap(i, &mut b);
                assert(b@ == bv[i as int]);
                let (chan, _) = widest_channel(&b);
                let mut lower = sort_by_channel(&b, chan);
                proof {
                    lemma_split_positions(bv, i as int, total as nat);
                }
                let mid = lower.len() / 2;
                let upper = lower.split_off(mid);
                boxes.set(i, lower);
                boxes.push(upper);
                assert(boxes_view(boxes@) =~= split(bv, i as int));
            },
        }
    }
    proof {
        assert(cut(boxes_view(boxes@), max_colors as nat) == boxes_view(boxes@));
    }
    let ghost bv = boxes_view(boxes@);
    let mut palette: Vec<(u8, u8, u8)> = Vec::new();
    let mut indices: Vec<u8> = Vec::new();
    let mut k: usize = 0;
    while k < total
        invariant
            k <= total,
            indices@ == Seq::new(k as nat, |x: int| 0u8),
        decreases total - k,
    {
        indices.push(0u8);
        assert(indices@ =~= Seq::new((k + 1) as nat, |x: int| 0u8));
        k = k + 1;
    }
    assert(bv.take(0) =~= Seq::<Seq<Pixel>>::empty());
    assert(palette_of(bv.take(0)) =~= Seq::<(u8, u8, u8)>::empty());
    let mut bi: usize = 0;
    while bi < boxes.len()
        invariant
            bv == boxes_view(boxes@),
            bv == goal,
            total == pixels@.len(),
            positions_below(bv, total as nat),
            bi <= bv.len(),
            palette@ == palette_of(bv.take(bi as int)),
            indices@ == paint(bv.take(bi as int), total as nat),
            indices@.len() == total,
        decreases boxes.len() - bi,
    {
        let b = &boxes[bi];
        assert(b@ == bv[bi as int]);
        let mut sr: u128 = 0;
        let mut sg: u128 = 0;
        let mut sb: u128 = 0;
        let mut j: usize = 0;
        while j < b.len()
            invariant
                j <= b@.len(),
                sr == ch_sum(b@.take(j as int), 0),
                sg == ch_sum(b@.take(j as int), 1),
                sb == ch_sum(b@.take(j as int), 2),
                sr <= 255 * j,
                sg <= 255 * j,
                sb <= 255 * j,
            decreases b.len() - j,
        {
            assert(b@.take(j + 1).drop_last() =~= b@.take(j as int));
            let p = b[j].1;
            sr = sr + p[0] as u128;
            sg = sg + p[1] as u128;
            sb = sb + p[2] as u128;
            j = j + 1;
        }
        assert(b@.take(j as int) =~= b@);
        let n: u128 = if b.len() == 0 { 1 } else { b.len() as u128 };
        let colour = (
            #[verifier::truncate] ((sr / n) as u8),
            #[verifier::truncate] ((sg / n) as u8),
            #[verifier::truncate] ((sb / n) as u8),
        );
        palette.push(colour);
        assert(bv.take(bi + 1) =~= bv.take(bi as int).push(bv[bi as int]));
        assert(palette@ =~= palette_of(bv.take(bi + 1)));
        let v: u8 = #[verifier::truncate] (bi as u8);
        let ghost base = indices@;
        let mut j: usize = 0;
        assert(b@.take(0) =~= Seq::<Pixel>::empty());
        while j < b.len()
            invariant
                bi < bv.len(),
                b@ == bv[bi as int],
                positions_below(bv, total as nat),
                j <= b@.len(),
                base.len() == total,
                indices@ == paint_box(base, b@.take(j as int), v),
                indices@.len() == total,
            decreases b.len() - j,
        {
            assert(b@.take(j + 1).drop_last() =~= b@.take(j as int));
            let pos = b[j].0;
            assert(bv[bi as int][j as int].0 < total);
            indices.set(pos as usize, v);
            j = j + 1;
        }
        assert(b@.take(j as int) =~= b@);
        assert(bv.take(bi + 1).drop_last() =~= bv.take(bi as int));
        bi = bi + 1;
    }
    assert(bv.take(bi as int) =~= bv);
    (palette, indices)
}

/// The image header: colour format 10 (indexed 8), width from bit 10,
/// height from bit 21 (bits shifted past the top are lost).
pub open spec fn lvgl_header(w: u32, h: u32) -> u32 {
    10u32 | (w << 10u32) | (h << 21u32)
}

/// The four bytes of `x`, least significant first.
pub open spec fn le_bytes(x: u32) -> Seq<u8> {
    seq![(x & 0xff) as u8, ((x >> 8u32) & 0xff) as u8, ((x >> 16u32) & 0xff) as u8, ((x >> 24u32) & 0xff) as u8]
}

/// Palette entry `i`, black past the palette's end.
pub open spec fn palette_entry(pal: Seq<(u8, u8, u8)>, i: int) -> (u8, u8, u8) {
    if i < pal.len() {
        pal[i]
    } else {
        (0, 0, 0)
    }
}

/// The palette block: `PALETTE_SIZE` entries of `B, G, R, 0xFF`.
pub open spec fn palette_bytes(pal: Seq<(u8, u8, u8)>) -> Seq<u8> {
    Seq::new(
        4 * PALETTE_SIZE as nat,
        |k: int|
            {
                let e = palette_entry(pal, k / 4);
                if k % 4 == 0 {
                    e.2
                } else if k % 4 == 1 {
                    e.1
                } else if k % 4 == 2 {
                    e.0
                } else {
                    0xFFu8
                }
            },
    )
}

/// The indexed-8 image of `w` by `h` pixels (given row by row).
pub open spec fn lvgl_image(w: u32, h: u32, pixels: Seq<[u8; 3]>) -> Seq<u8> {
    let boxes = quantized(pixels, PALETTE_SIZE as nat);
    le_bytes(lvgl_header(w, h)) + palette_bytes(palette_of(boxes)) + paint(boxes, pixels.len())
}

/// The palette as the watch reads it: after the 4 header bytes, entry `i`
/// takes bytes `4 + 4i .. 8 + 4i` as blue, green, red, `0xFF`, where the
/// red, green and blue are the averages, over the pixels of box `i` of the
/// median cut, of the pixels' first, second and third channel (the input
/// is red, green, blue); entries past the boxes are black.
pub proof fn law_palette_entries_blue_first(w: u32, h: u32, pixels: Seq<[u8; 3]>, i: int)
    requires
        pixels.len() <= u32::MAX,
        0 <= i < PALETTE_SIZE,
    ensures
        i < quantized(pixels, PALETTE_SIZE as nat).len() ==> {
            let b = quantized(pixels, PALETTE_SIZE as nat)[i];
            let n: nat = if b.len() == 0 { 1 } else { b.len() };
            &&& lvgl_image(w, h, pixels)[4 + 4 * i] == (ch_sum(b, 2) / n) as u8
            &&& lvgl_image(w, h, pixels)[5 + 4 * i] == (ch_sum(b, 1) / n) as u8
            &&& lvgl_image(w, h, pixels)[6 + 4 * i] == (ch_sum(b, 0) / n) as u8
        },
        i >= quantized(pixels, PALETTE_SIZE as nat).len() ==> {
            &&& lvgl_image(w, h, pixels)[4 + 4 * i] == 0
            &&& lvgl_image(w, h, pixels)[5 + 4 * i] == 0
            &&& lvgl_image(w, h, pixels)[6 + 4 * i] == 0
        },
        lvgl_image(w, h, pixels)[7 + 4 * i] == 0xFFu8,
{
    let boxes = quantized(pixels, PALETTE_SIZE as nat);
    let hd = le_bytes(lvgl_header(w, h));
    let pal = palette_of(boxes);
    let pb = palette_bytes(pal);
    let img = lvgl_image(w, h, pixels);
    assert(img == hd + pb + paint(boxes, pixels.len()));
    assert(hd.len() == 4);
    assert(pb.len() == 4 * PALETTE_SIZE);
    assert forall|j: int| 0 <= j < 4 implies img[4 + 4 * i + j] == #[trigger] pb[4 * i + j] by {
        assert((hd + pb)[4 + 4 * i + j] == pb[4 * i + j]);
    }
    assert((4 * i) / 4 == i && (4 * i) % 4 == 0);
    assert((4 * i + 1) / 4 == i && (4 * i + 1) % 4 == 1);
    assert((4 * i + 2) / 4 == i && (4 * i + 2) % 4 == 2);
    assert((4 * i + 3) / 4 == i && (4 * i + 3) % 4 == 3);
    assert(pb[4 * i + 0] == palette_entry(pal, i).2);
    assert(pb[4 * i + 1] == palette_entry(pal, i).1);
    assert(pb[4 * i + 2] == palette_entry(pal, i).0);
    assert(pb[4 * i + 3] == 0xFFu8);
    if i < boxes.len() {
        assert(pal[i] == box_colour(boxes[i]));
    }
}

/// Converts an image (`width` by `height` opaque pixels, row by row) to the
/// watch's indexed-8 format.
pub fn convert_to_lvgl_i8(width: u32, height: u32, pixels: &Vec<[u8; 3]>) -> (out: Vec<u8>)
    requires
        pixels@.len() == width * height,
        width * height <= u32::MAX,
    ensures
        out@ == lvgl_image(width, height, pixels@),
{
    let (palette, indices) = median_cut_quantize(pixels, PALETTE_SIZE);
    let header: u32 = 10u32 | (width << 10u32) | (height << 21u32);
    let mut out: Vec<u8> = Vec::new();
    out.push(#[verifier::truncate] ((header & 0xff) as u8));
    out.push(#[verifier::truncate] (((header >> 8u32) & 0xff) as u8));
    out.push(#[verifier::truncate] (((header >> 16u32) & 0xff) as u8));
    out.push(#[verifier::truncate] (((header >> 24u32) & 0xff) as u8));
    let ghost pal = palette@;
    let ghost head = le_bytes(lvgl_header(width, height));
    assert(out@ =~= head);
    let mut i: usize = 0;
    while i < PALETTE_SIZE
        invariant
            i <= PALETTE_SIZE,
            pal == palette@,
            out@ == head + palette_bytes(pal).take(4 * i as int),
        decreases PALETTE_SIZE - i,
    {
        let (r, g, b) = if i < palette.len() {
            palette[i]
        } else {
            (0u8, 0u8, 0u8)
        };
        assert(palette_entry(pal, i as int) == (r, g, b));
        let ghost pb = palette_bytes(pal);
        assert(pb[4 * i as int] == b);
        assert(pb[4 * i + 1] == g);
        assert(pb[4 * i + 2] == r);
        assert(pb[4 * i + 3] == 0xFFu8);
        out.push(b);
        out.push(g);
        out.push(r);
        out.push(0xFFu8);
        assert(pb.take(4 * (i + 1)) =~= pb.take(4 * i as int).push(b).push(g).push(r).push(0xFFu8));
        i = i + 1;
    }
    assert(palette_bytes(pal).take(4 * PALETTE_SIZE as int) =~= palette_bytes(pal));
    let mut k: usize = 0;
    let ghost front = out@;
    while k < indices.len()
        invariant
            k <= indices@.len(),
            out@ == front + indices@.take(k as int),
        decreases indices.len() - k,
    {
        out.push(indices[k]);
        assert(out@ =~= front + indices@.take(k + 1));
        k = k + 1;
    }
    assert(indices@.take(k as int) =~= indices@);
    out
}

proof fn lemma_flatten_drawn(ss: Seq<Seq<Pixel>>, b: Seq<Pixel>)
    requires
        forall|k: int| 0 <= k < ss.len() ==> drawn_from(#[trigger] ss[k], b),
    ensures
        drawn_from(ss.flatten(), b),
    decreases ss.len(),
{
    if ss.len() == 0 {
        assert(ss.flatten() =~= Seq::<Pixel>::empty());
    } else {
        assert forall|k: int| 0 <= k < ss.drop_first().len() implies drawn_from(
            #[trigger] ss.drop_first()[k],
            b,
        ) by {
            assert(ss.drop_first()[k] == ss[k + 1]);
        }
        lemma_flatten_drawn(ss.drop_first(), b);
        let f = ss.flatten();
        assert(f == ss.first() + ss.drop_first().flatten());
        assert forall|y: int| 0 <= y < f.len() implies occurs_in(#[trigger] f[y], b) by {
            if y < ss.first().len() {
                assert(f[y] == ss[0][y]);
                assert(drawn_from(ss[0], b));
                assert(occurs_in(ss[0][y], b));
            } else {
                let g = ss.drop_first().flatten();
                assert(f[y] == g[y - ss.first().len()]);
                assert(drawn_from(g, b));
                assert(occurs_in(g[y - ss.first().len()], b));
            }
        }
        assert(drawn_from(f, b));
    }
}

proof fn lemma_sorted_drawn(b: Seq<Pixel>, c: int)
    ensures
        drawn_from(sorted_by_channel(b, c), b),
{
    let ss = Seq::new(256, |k: int| with_value(b, c, k));
    assert forall|k: int| 0 <= k < ss.len() implies drawn_from(#[trigger] ss[k], b) by {
        let f = with_value(b, c, k);
        assert(ss[k] == f);
        assert forall|y: int| 0 <= y < f.len() implies occurs_in(#[trigger] f[y], b) by {
            assert(f.contains(f[y]));
            b.lemma_filter_contains_rev(|e: Pixel| e.1[c] as int == k, f[y]);
        }
    }
    lemma_flatten_drawn(ss, b);
}

proof fn lemma_cut_bounds(boxes: Seq<Seq<Pixel>>, max: nat, total: nat)
    requires
        boxes.len() <= max,
        positions_below(boxes, total),
    ensures
        boxes.len() <= cut(boxes, max).len() <= max,
        positions_below(cut(boxes, max), total),
    decreases max - boxes.len(),
{
    if boxes.len() < max {
        lemma_pick_splittable(boxes);
        if let Some(i) = pick(boxes) {
            lemma_sorted_drawn(boxes[i], widest(boxes[i]).0);
            lemma_split_positions(boxes, i, total);
            lemma_cut_bounds(split(boxes, i), max, total);
        }
    }
}

proof fn lemma_paint_box(ix: Seq<u8>, b: Seq<Pixel>, v: u8)
    requires
        forall|j: int| 0 <= j < b.len() ==> (#[trigger] b[j]).0 < ix.len(),
    ensures
        paint_box(ix, b, v).len() == ix.len(),
        forall|k: int|
            0 <= k < ix.len() ==> #[trigger] paint_box(ix, b, v)[k] == ix[k] || paint_box(ix, b, v)[k]
                == v,
    decreases b.len(),
{
    if b.len() > 0 {
        assert forall|j: int| 0 <= j < b.drop_last().len() implies (#[trigger] b.drop_last()[j]).0
            < ix.len() by {
            assert(b.drop_last()[j] == b[j]);
        }
        lemma_paint_box(ix, b.drop_last(), v);
    }
}

proof fn lemma_paint(boxes: Seq<Seq<Pixel>>, total: nat)
    requires
        positions_below(boxes, total),
        boxes.len() <= 256,
    ensures
        paint(boxes, total).len() == total,
        forall|k: int|
            0 <= k < total ==> (#[trigger] paint(boxes, total)[k]) == 0 || paint(boxes, total)[k]
                < boxes.len(),
    decreases boxes.len(),
{
    if boxes.len() > 0 {
        let rest = boxes.drop_last();
        assert forall|i: int, j: int|
            0 <= i < rest.len() && 0 <= j < rest[i].len() implies (#[trigger] rest[i][j]).0
                < total by {
            assert(rest[i] == boxes[i]);
        }
        lemma_paint(rest, total);
        let last = boxes.last();
        assert forall|j: int| 0 <= j < last.len() implies (#[trigger] last[j]).0 < paint(rest, total).len() by {
            assert(boxes[boxes.len() - 1][j] == last[j]);
        }
        lemma_paint_box(paint(rest, total), last, (boxes.len() - 1) as u8);
    }
}

/// For at most `max` colours (1 to 256), the palette has between one and
/// `max` colours, and every pixel's index names one of them.
pub proof fn law_indices_within_palette(pixels: Seq<[u8; 3]>, max: nat)
    requires
        pixels.len() <= u32::MAX,
        1 <= max <= PALETTE_SIZE,
    ensures
        1 <= palette_of(quantized(pixels, max)).len() <= max,
        paint(quantized(pixels, max), pixels.len()).len() == pixels.len(),
        forall|k: int|
            0 <= k < pixels.len() ==> (#[trigger] paint(quantized(pixels, max), pixels.len())[k])
                < palette_of(quantized(pixels, max)).len(),
{
    let start = seq![initial_box(pixels)];
    assert forall|i: int, j: int|
        0 <= i < start.len() && 0 <= j < start[i].len() implies (#[trigger] start[i][j]).0 < pixels.len() by {
        assert(start[i] == initial_box(pixels));
    }
    lemma_cut_bounds(start, max, pixels.len());
    lemma_paint(quantized(pixels, max), pixels.len());
}

/// How often pixel `x` occurs in a box.
pub open spec fn occurrences(b: Seq<Pixel>, x: Pixel) -> nat {
    b.to_multiset().count(x)
}

/// How often pixel `x` occurs over all boxes.
pub open spec fn total_occurrences(boxes: Seq<Seq<Pixel>>, x: Pixel) -> nat
    decreases boxes.len(),
{
    if boxes.len() == 0 {
        0
    } else {
        total_occurrences(boxes.drop_last(), x) + occurrences(boxes.last(), x)
    }
}

proof fn lemma_flatten_all_empty(ss: Seq<Seq<Pixel>>)
    requires
        forall|k: int| 0 <= k < ss.len() ==> (#[trigger] ss[k]).len() == 0,
    ensures
        ss.flatten() =~= Seq::<Pixel>::empty(),
    decreases ss.len(),
{
    if ss.len() > 0 {
        assert forall|k: int| 0 <= k < ss.drop_first().len() implies (#[trigger] ss.drop_first()[k]).len() == 0 by {
            assert(ss.drop_first()[k] == ss[k + 1]);
        }
        lemma_flatten_all_empty(ss.drop_first());
        assert(ss[0].len() == 0);
        assert(ss.flatten() == ss.first() + ss.drop_first().flatten());
    }
}

proof fn lemma_flatten_push_into(ss: Seq<Seq<Pixel>>, i: int, e: Pixel, x: Pixel)
    requires
        0 <= i < ss.len(),
    ensures
        occurrences(ss.update(i, ss[i].push(e)).flatten(), x) == occurrences(ss.flatten(), x) + if x
            == e {
            1nat
        } else {
            0nat
        },
    decreases ss.len(),
{
    broadcast use vstd::multiset::group_multiset_axioms;
    broadcast use vstd::seq_lib::lemma_multiset_commutative;

    let t = ss.update(i, ss[i].push(e));
    assert(t.flatten() == t.first() + t.drop_first().flatten());
    assert(ss.flatten() == ss.first() + ss.drop_first().flatten());
    ss[i].to_multiset_ensures();
    if i == 0 {
        assert(t.drop_first() =~= ss.drop_first());
        assert(t.first() == ss[0].push(e));
    } else {
        assert(t.drop_first() =~= ss.drop_first().update(i - 1, ss.drop_first()[i - 1].push(e)));
        assert(t.first() == ss.first());
        lemma_flatten_push_into(ss.drop_first(), i - 1, e, x);
    }
}

/// Sorting a box by a channel keeps its pixels: every pixel occurs as
/// often as before.
pub proof fn lemma_sorted_keeps_pixels(b: Seq<Pixel>, c: int, x: Pixel)
    requires
        0 <= c < 3,
    ensures
        occurrences(sorted_by_channel(b, c), x) == occurrences(b, x),
    decreases b.len(),
{
    broadcast use vstd::multiset::group_multiset_axioms;

    let parts = Seq::new(256, |k: int| with_value(b, c, k));
    if b.len() == 0 {
        assert forall|k: int| 0 <= k < parts.len() implies (#[trigger] parts[k]).len() == 0 by {
            reveal(Seq::filter);
        }
        lemma_flatten_all_empty(parts);
        assert(sorted_by_channel(b, c) =~= Seq::<Pixel>::empty());
        assert(b =~= Seq::<Pixel>::empty());
    } else {
        let a = b.drop_last();
        let e = b.last();
        let k0 = e.1[c] as int;
        let pa = Seq::new(256, |k: int| with_value(a, c, k));
        lemma_sorted_keeps_pixels(a, c, x);
        assert forall|k: int| 0 <= k < 256 implies #[trigger] parts[k] == (if k == k0 {
            pa[k].push(e)
        } else {
            pa[k]
        }) by {
            reveal(Seq::filter);
        }
        assert(parts =~= pa.update(k0, pa[k0].push(e)));
        lemma_flatten_push_into(pa, k0, e, x);
        assert(a.push(e) =~= b);
        a.to_multiset_ensures();
    }
}

/// Cutting a box in two keeps its pixels.
proof fn lemma_take_skip_occurrences(s: Seq<Pixel>, m: int, x: Pixel)
    requires
        0 <= m <= s.len(),
    ensures
        occurrences(s.take(m), x) + occurrences(s.skip(m), x) == occurrences(s, x),
{
    broadcast use vstd::multiset::group_multiset_axioms;
    broadcast use vstd::seq_lib::lemma_multiset_commutative;

    assert(s.take(m) + s.skip(m) =~= s);
}

proof fn lemma_total_update(ss: Seq<Seq<Pixel>>, i: int, y: Seq<Pixel>, x: Pixel)
    requires
        0 <= i < ss.len(),
    ensures
        total_occurrences(ss.update(i, y), x) + occurrences(ss[i], x) == total_occurrences(ss, x)
            + occurrences(y, x),
    decreases ss.len(),
{
    let t = ss.update(i, y);
    if i == ss.len() - 1 {
        assert(t.drop_last() =~= ss.drop_last());
    } else {
        assert(t.drop_last() =~= ss.drop_last().update(i, y));
        lemma_total_update(ss.drop_last(), i, y, x);
    }
}

/// A cut keeps every pixel, over all boxes.
proof fn lemma_split_keeps_pixels(boxes: Seq<Seq<Pixel>>, i: int, x: Pixel)
    requires
        0 <= i < boxes.len(),
    ensures
        total_occurrences(split(boxes, i), x) == total_occurrences(boxes, x),
{
    let b = boxes[i];
    let c = widest(b).0;
    assert(0 <= c < 3);
    let s = sorted_by_channel(b, c);
    let mid = s.len() / 2;
    lemma_sorted_keeps_pixels(b, c, x);
    lemma_take_skip_occurrences(s, mid as int, x);
    let u = boxes.update(i, s.take(mid as int));
    lemma_total_update(boxes, i, s.take(mid as int), x);
    assert(split(boxes, i) == u.push(s.skip(mid as int)));
    assert(u.push(s.skip(mid as int)).drop_last() =~= u);
}

/// Median cut keeps every pixel, over all boxes.
proof fn lemma_cut_keeps_pixels(boxes: Seq<Seq<Pixel>>, max: nat, x: Pixel)
    ensures
        total_occurrences(cut(boxes, max), x) == total_occurrences(boxes, x),
    decreases max - boxes.len(),
{
    if boxes.len() < max {
        if let Some(i) = pick(boxes) {
            if 0 <= i < boxes.len() {
                lemma_split_keeps_pixels(boxes, i, x);
                lemma_cut_keeps_pixels(split(boxes, i), max, x);
            }
        }
    }
}

/// Whether a box holds the pixel at position `k`.
pub open spec fn box_holds(b: Seq<Pixel>, k: int) -> bool {
    exists|j: int| 0 <= j < b.len() && b[j].0 as int == k
}

proof fn lemma_unique_holder(ss: Seq<Seq<Pixel>>, x: Pixel) -> (b: int)
    requires
        total_occurrences(ss, x) == 1,
    ensures
        0 <= b < ss.len(),
        occurrences(ss[b], x) == 1,
        forall|b2: int| 0 <= b2 < ss.len() && b2 != b ==> occurrences(#[trigger] ss[b2], x) == 0,
    decreases ss.len(),
{
    let n = ss.len() - 1;
    if occurrences(ss.last(), x) == 1 {
        lemma_total_zero(ss.drop_last(), x);
        assert forall|b2: int| 0 <= b2 < ss.len() && b2 != n implies occurrences(#[trigger] ss[b2], x) == 0 by {
            assert(ss[b2] == ss.drop_last()[b2]);
        }
        n
    } else {
        let b = lemma_unique_holder(ss.drop_last(), x);
        assert forall|b2: int| 0 <= b2 < ss.len() && b2 != b implies occurrences(#[trigger] ss[b2], x) == 0 by {
            if b2 < n {
                assert(ss[b2] == ss.drop_last()[b2]);
            }
        }
        assert(ss[b] == ss.drop_last()[b]);
        b
    }
}

proof fn lemma_total_zero(ss: Seq<Seq<Pixel>>, x: Pixel)
    requires
        total_occurrences(ss, x) == 0,
    ensures
        forall|b: int| 0 <= b < ss.len() ==> occurrences(#[trigger] ss[b], x) == 0,
    decreases ss.len(),
{
    if ss.len() > 0 {
        lemma_total_zero(ss.drop_last(), x);
        assert forall|b: int| 0 <= b < ss.len() implies occurrences(#[trigger] ss[b], x) == 0 by {
            if b < ss.len() - 1 {
                assert(ss[b] == ss.drop_last()[b]);
            }
        }
    }
}

proof fn lemma_total_ge(ss: Seq<Seq<Pixel>>, x: Pixel, b: int)
    requires
        0 <= b < ss.len(),
    ensures
        occurrences(ss[b], x) <= total_occurrences(ss, x),
    decreases ss.len(),
{
    if b < ss.len() - 1 {
        lemma_total_ge(ss.drop_last(), x, b);
        assert(ss[b] == ss.drop_last()[b]);
    }
}

proof fn lemma_paint_box_at(ix: Seq<u8>, b: Seq<Pixel>, v: u8, k: int)
    requires
        0 <= k < ix.len(),
        forall|j: int| 0 <= j < b.len() ==> (#[trigger] b[j]).0 < ix.len(),
    ensures
        paint_box(ix, b, v).len() == ix.len(),
        paint_box(ix, b, v)[k] == if box_holds(b, k) {
            v
        } else {
            ix[k]
        },
    decreases b.len(),
{
    if b.len() > 0 {
        let a = b.drop_last();
        assert forall|j: int| 0 <= j < a.len() implies (#[trigger] a[j]).0 < ix.len() by {
            assert(a[j] == b[j]);
        }
        lemma_paint_box_at(ix, a, v, k);
        lemma_paint_box(ix, a, v);
        if box_holds(b, k) && !box_holds(a, k) {
            let j = choose|j: int| 0 <= j < b.len() && b[j].0 as int == k;
            if j < a.len() {
                assert(a[j] == b[j]);
            }
        }
        if box_holds(a, k) {
            let j = choose|j: int| 0 <= j < a.len() && a[j].0 as int == k;
            assert(b[j] == a[j]);
        }
    } else {
        assert(!box_holds(b, k));
    }
}

proof fn lemma_paint_unique(boxes: Seq<Seq<Pixel>>, total: nat, k: int, b: int)
    requires
        positions_below(boxes, total),
        boxes.len() <= 256,
        0 <= k < total,
        0 <= b < boxes.len(),
        box_holds(boxes[b], k),
        forall|b2: int| 0 <= b2 < boxes.len() && b2 != b ==> !box_holds(#[trigger] boxes[b2], k),
    ensures
        paint(boxes, total)[k] as int == b,
    decreases boxes.len(),
{
    let rest = boxes.drop_last();
    let last = boxes.last();
    assert forall|i: int, j: int|
        0 <= i < rest.len() && 0 <= j < rest[i].len() implies (#[trigger] rest[i][j]).0 < total by {
        assert(rest[i] == boxes[i]);
    }
    lemma_paint(rest, total);
    assert forall|j: int| 0 <= j < last.len() implies (#[trigger] last[j]).0 < paint(rest, total).len() by {
        assert(boxes[boxes.len() - 1][j] == last[j]);
    }
    lemma_paint_box_at(paint(rest, total), last, (boxes.len() - 1) as u8, k);
    if b < boxes.len() - 1 {
        assert(!box_holds(boxes[boxes.len() - 1], k));
        assert forall|b2: int| 0 <= b2 < rest.len() && b2 != b implies !box_holds(#[trigger] rest[b2], k) by {
            assert(rest[b2] == boxes[b2]);
        }
        assert(rest[b] == boxes[b]);
        lemma_paint_unique(rest, total, k, b);
    }
}

/// For at most `max` colours (1 to 256), every pixel lies in exactly one box
/// of the median cut, and its index is the number of that box.
pub proof fn law_each_pixel_indexes_its_box(pixels: Seq<[u8; 3]>, max: nat, k: int) -> (b: int)
    requires
        pixels.len() <= u32::MAX,
        1 <= max <= PALETTE_SIZE,
        0 <= k < pixels.len(),
    ensures
        0 <= b < quantized(pixels, max).len(),
        box_holds(quantized(pixels, max)[b], k),
        forall|b2: int|
            0 <= b2 < quantized(pixels, max).len() && b2 != b ==> !box_holds(
                #[trigger] quantized(pixels, max)[b2],
                k,
            ),
        paint(quantized(pixels, max), pixels.len())[k] as int == b,
{
    broadcast use vstd::multiset::group_multiset_axioms;

    let init = initial_box(pixels);
    let start = seq![init];
    let q = quantized(pixels, max);
    let e = (k as u32, pixels[k]);
    assert(init[k] == e);
    assert(init.no_duplicates()) by {
        assert forall|i: int, j: int| 0 <= i < init.len() && 0 <= j < init.len() && i != j implies init[i] != init[j] by {
            assert(init[i].0 as int == i);
            assert(init[j].0 as int == j);
        }
    }
    init.lemma_multiset_has_no_duplicates();
    init.to_multiset_ensures();
    assert(init.contains(e));
    assert(start.drop_last() =~= Seq::<Seq<Pixel>>::empty());
    assert(start.last() == init);
    assert forall|y: Pixel| #[trigger] total_occurrences(start, y) == occurrences(init, y) by {
        assert(total_occurrences(start.drop_last(), y) == 0);
    }
    lemma_cut_keeps_pixels(start, max, e);
    let b = lemma_unique_holder(q, e);
    q[b].to_multiset_ensures();
    assert(q[b].contains(e));
    let jj = choose|j: int| 0 <= j < q[b].len() && q[b][j] == e;
    assert(q[b][jj].0 as int == k);
    assert forall|b2: int| 0 <= b2 < q.len() && b2 != b implies !box_holds(#[trigger] q[b2], k) by {
        if box_holds(q[b2], k) {
            let j = choose|j: int| 0 <= j < q[b2].len() && q[b2][j].0 as int == k;
            let y = q[b2][j];
            q[b2].to_multiset_ensures();
            assert(q[b2].contains(y));
            lemma_total_ge(q, y, b2);
            lemma_cut_keeps_pixels(start, max, y);
            assert(init.contains(y));
            let i = choose|i: int| 0 <= i < init.len() && init[i] == y;
            assert(init[i].0 as int == i);
            assert(i == k);
            assert(y == e);
        }
    }
    let start_ok = start;
    assert forall|i: int, j: int|
        0 <= i < start_ok.len() && 0 <= j < start_ok[i].len() implies (#[trigger] start_ok[i][j]).0 < pixels.len() by {
        assert(start_ok[i] == init);
    }
    lemma_cut_bounds(start, max, pixels.len());
    lemma_paint_unique(q, pixels.len(), k, b);
    b
}


proof fn lemma_sorted_len(b: Seq<Pixel>, c: int)
    requires
        0 <= c < 3,
    ensures
        sorted_by_channel(b, c).len() == b.len(),
{
    broadcast use vstd::multiset::group_multiset_axioms;

    let s = sorted_by_channel(b, c);
    assert forall|x: Pixel| s.to_multiset().count(x) == b.to_multiset().count(x) by {
        lemma_sorted_keeps_pixels(b, c, x);
    }
    assert(s.to_multiset() =~= b.to_multiset());
    s.to_multiset_ensures();
    b.to_multiset_ensures();
}

proof fn lemma_cut_nonempty(boxes: Seq<Seq<Pixel>>, max: nat)
    requires
        forall|i: int| 0 <= i < boxes.len() ==> (#[trigger] boxes[i]).len() > 0,
    ensures
        forall|i: int| 0 <= i < cut(boxes, max).len() ==> (#[trigger] cut(boxes, max)[i]).len() > 0,
    decreases max - boxes.len(),
{
    if boxes.len() < max {
        lemma_pick_splittable(boxes);
        if let Some(i) = pick(boxes) {
            let b = boxes[i];
            let c = widest(b).0;
            assert(0 <= c < 3);
            lemma_sorted_len(b, c);
            let nb = split(boxes, i);
            assert forall|j: int| 0 <= j < nb.len() implies (#[trigger] nb[j]).len() > 0 by {
                if j != i && j < boxes.len() {
                    assert(nb[j] == boxes[j]);
                }
            }
            lemma_cut_nonempty(nb, max);
            assert(cut(boxes, max) == cut(nb, max));
        } else {
            assert(cut(boxes, max) == boxes);
        }
    } else {
        assert(cut(boxes, max) == boxes);
    }
}

/// For at most `max` colours (1 to 256), every palette entry of a non-empty
/// image is used: some pixel's index names it.
pub proof fn law_every_palette_entry_used(pixels: Seq<[u8; 3]>, max: nat, b: int) -> (k: int)
    requires
        pixels.len() <= u32::MAX,
        0 < pixels.len(),
        1 <= max <= PALETTE_SIZE,
        0 <= b < palette_of(quantized(pixels, max)).len(),
    ensures
        0 <= k < pixels.len(),
        paint(quantized(pixels, max), pixels.len())[k] as int == b,
{
    let init = initial_box(pixels);
    let start = seq![init];
    let q = quantized(pixels, max);
    assert forall|i: int| 0 <= i < start.len() implies (#[trigger] start[i]).len() > 0 by {
        assert(start[i] == init);
    }
    lemma_cut_nonempty(start, max);
    assert forall|i: int, j: int|
        0 <= i < start.len() && 0 <= j < start[i].len() implies (#[trigger] start[i][j]).0 < pixels.len() by {
        assert(start[i] == init);
    }
    lemma_cut_bounds(start, max, pixels.len());
    assert(q[b].len() > 0);
    let k = q[b][0].0 as int;
    assert(k < pixels.len());
    assert(box_holds(q[b], k));
    let b2 = law_each_pixel_indexes_its_box(pixels, max, k);
    assert(b2 == b);
    k
}
} // verus!
