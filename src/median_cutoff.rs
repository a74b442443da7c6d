//! Median-cut quantization over display colors.
use vstd::multiset::Multiset;
use vstd::prelude::*;

use std::collections::VecDeque;

use crate::color::HexColor;
use crate::{check_input, input_error, PaletteError};

verus! {

/// Smallest red channel of `s`; 255 for an empty sequence.
pub open spec fn red_min(s: Seq<HexColor>) -> u8
    decreases s.len(),
{
    if s.len() == 0 {
        255u8
    } else {
        let m = red_min(s.drop_last());
        if s.last().r < m { s.last().r } else { m }
    }
}

/// Largest red channel of `s`; 0 for an empty sequence.
pub open spec fn red_max(s: Seq<HexColor>) -> u8
    decreases s.len(),
{
    if s.len() == 0 {
        0u8
    } else {
        let m = red_max(s.drop_last());
        if s.last().r > m { s.last().r } else { m }
    }
}

/// The extremes that the split rule reads, as `[minimum, maximum]`.
///
/// Every channel of both extremes is taken from the red channel of the
/// pixels: the green and blue extremes repeat the red ones. This is the
/// long-standing behaviour of the split heuristic and is kept as it is,
/// since it decides which channel a group is sorted by.
pub open spec fn min_max(s: Seq<HexColor>) -> (HexColor, HexColor) {
    (
        HexColor { r: red_min(s), g: red_min(s), b: red_min(s) },
        HexColor { r: red_max(s), g: red_max(s), b: red_max(s) },
    )
}

/// Scans `pixels` once and returns `[minimum, maximum]` as `min_max` states.
pub fn color_min_max(pixels: &[HexColor]) -> (r: [HexColor; 2])
    ensures
        r[0] == min_max(pixels@).0,
        r[1] == min_max(pixels@).1,
{
    let mut maximum = HexColor { r: u8::MIN, g: u8::MIN, b: u8::MIN };
    let mut minimum = HexColor { r: u8::MAX, g: u8::MAX, b: u8::MAX };
    let mut i: usize = 0;
    while i < pixels.len()
        invariant
            0 <= i <= pixels@.len(),
            minimum == min_max(pixels@.take(i as int)).0,
            maximum == min_max(pixels@.take(i as int)).1,
        decreases pixels@.len() - i,
    {
        let pixel = pixels[i];
        proof {
            assert(pixels@.take(i as int + 1).drop_last() =~= pixels@.take(i as int));
        }
        maximum.r = if pixel.r > maximum.r { pixel.r } else { maximum.r };
        maximum.g = if pixel.r > maximum.g { pixel.r } else { maximum.g };
        maximum.b = if pixel.r > maximum.b { pixel.r } else { maximum.b };
        minimum.r = if pixel.r < minimum.r { pixel.r } else { minimum.r };
        minimum.g = if pixel.r < minimum.g { pixel.r } else { minimum.g };
        minimum.b = if pixel.r < minimum.b { pixel.r } else { minimum.b };
        i = i + 1;
    }
    proof {
        assert(pixels@.take(i as int) =~= pixels@);
    }
    [minimum, maximum]
}

/// Channel `ch` of `c`: 0 is red, 1 green, 2 blue.
pub open spec fn channel(c: HexColor, ch: int) -> u8 {
    if ch == 0 {
        c.r
    } else if ch == 1 {
        c.g
    } else {
        c.b
    }
}

/// The pixels of `s` whose channel `ch` equals `v`, in their order in `s`.
pub open spec fn with_value(s: Seq<HexColor>, ch: int, v: int) -> Seq<HexColor>
    decreases s.len(),
{
    if s.len() == 0 {
        s
    } else {
        let sub = with_value(s.drop_last(), ch, v);
        if channel(s.last(), ch) == v {
            sub.push(s.last())
        } else {
            sub
        }
    }
}

/// The pixels of `s` whose channel `ch` is below `v`, ordered by that
/// channel, with equal values in their order in `s`.
pub open spec fn sorted_below(s: Seq<HexColor>, ch: int, v: int) -> Seq<HexColor>
    decreases v,
{
    if v <= 0 {
        Seq::empty()
    } else {
        sorted_below(s, ch, v - 1) + with_value(s, ch, v - 1)
    }
}

/// The stable sort of `s` by channel `ch`.
pub open spec fn sorted_by_channel(s: Seq<HexColor>, ch: int) -> Seq<HexColor> {
    sorted_below(s, ch, 256)
}

/// The channel a group is split on: the one of largest range, red winning
/// every tie and green winning a tie with blue.
pub open spec fn split_channel(s: Seq<HexColor>) -> int {
    let lo = min_max(s).0;
    let hi = min_max(s).1;
    let range_r = hi.r - lo.r;
    let range_g = hi.g - lo.g;
    let range_b = hi.b - lo.b;
    if range_r >= range_g && range_r >= range_b {
        0
    } else if range_g >= range_r && range_g >= range_b {
        1
    } else {
        2
    }
}

/// Since the extremes repeat the red channel in all three places, the
/// three ranges are equal and every group is sorted by red.
pub proof fn lemma_split_channel_is_red(s: Seq<HexColor>)
    ensures
        split_channel(s) == 0,
{
}

/// The two halves of a group: sorted by its split channel, cut at `len / 2`.
pub open spec fn split_halves(s: Seq<HexColor>) -> (Seq<HexColor>, Seq<HexColor>) {
    let sorted = sorted_by_channel(s, split_channel(s));
    let mid = s.len() / 2;
    (sorted.take(mid as int), sorted.skip(mid as int))
}

fn channel_of(c: HexColor, ch: u8) -> (r: u8)
    requires
        ch < 3,
    ensures
        r == channel(c, ch as int),
{
    if ch == 0 {
        c.r
    } else if ch == 1 {
        c.g
    } else {
        c.b
    }
}

fn sort_by_channel(pixels: &Vec<HexColor>, ch: u8) -> (r: Vec<HexColor>)
    requires
        ch < 3,
    ensures
        r@ == sorted_by_channel(pixels@, ch as int),
{
    let mut out: Vec<HexColor> = Vec::new();
    let mut v: u16 = 0;
    while v < 256
        invariant
            ch < 3,
            v <= 256,
            out@ == sorted_below(pixels@, ch as int, v as int),
        decreases 256 - v,
    {
        let mut i: usize = 0;
        while i < pixels.len()
            invariant
                ch < 3,
                v < 256,
                0 <= i <= pixels@.len(),
                out@ == sorted_below(pixels@, ch as int, v as int) + with_value(
                    pixels@.take(i as int),
                    ch as int,
                    v as int,
                ),
            decreases pixels@.len() - i,
        {
            let p = pixels[i];
            proof {
                assert(pixels@.take(i as int + 1).drop_last() =~= pixels@.take(i as int));
            }
            if channel_of(p, ch) as u16 == v {
                out.push(p);
                proof {
                    let a = sorted_below(pixels@, ch as int, v as int);
                    let b = with_value(pixels@.take(i as int), ch as int, v as int);
                    assert((a + b).push(p) =~= a + b.push(p));
                }
            }
            i = i + 1;
        }
        proof {
            assert(pixels@.take(i as int) =~= pixels@);
        }
        v = v + 1;
    }
    out
}

/// Sorts `pixels` by the split channel and cuts the result at `len / 2`.
pub fn split_pixels_at_median(pixels: Vec<HexColor>) -> (r: (Vec<HexColor>, Vec<HexColor>))
    ensures
        r.0@ == split_halves(pixels@).0,
        r.1@ == split_halves(pixels@).1,
{
    let extremes = color_min_max(pixels.as_slice());
    let min = extremes[0];
    let max = extremes[1];
    let range_r: i16 = max.r as i16 - min.r as i16;
    let range_g: i16 = max.g as i16 - min.g as i16;
    let range_b: i16 = max.b as i16 - min.b as i16;
    let ch: u8 = if range_r >= range_g && range_r >= range_b {
        0
    } else if range_g >= range_r && range_g >= range_b {
        1
    } else {
        2
    };
    let mut sorted = sort_by_channel(&pixels, ch);
    let median = pixels.len() / 2;
    proof {
        lemma_sorted_len(pixels@, ch as int);
    }
    let new_group = sorted.split_off(median);
    (sorted, new_group)
}

/// Number of pixels of `s` whose channel `ch` is below `v`.
pub open spec fn count_below(s: Seq<HexColor>, ch: int, v: int) -> nat
    decreases s.len(),
{
    if s.len() == 0 {
        0
    } else {
        count_below(s.drop_last(), ch, v) + if channel(s.last(), ch) < v { 1nat } else { 0nat }
    }
}

proof fn lemma_with_value_len(s: Seq<HexColor>, ch: int, v: int)
    ensures
        with_value(s, ch, v).len() + count_below(s, ch, v) == count_below(s, ch, v + 1),
    decreases s.len(),
{
    if s.len() > 0 {
        lemma_with_value_len(s.drop_last(), ch, v);
    }
}

proof fn lemma_sorted_below_len(s: Seq<HexColor>, ch: int, v: int)
    requires
        v >= 0,
    ensures
        sorted_below(s, ch, v).len() == count_below(s, ch, v),
    decreases v,
{
    if v == 0 {
        lemma_count_below_zero(s, ch);
    } else {
        lemma_sorted_below_len(s, ch, v - 1);
        lemma_with_value_len(s, ch, v - 1);
    }
}

proof fn lemma_count_below_zero(s: Seq<HexColor>, ch: int)
    ensures
        count_below(s, ch, 0) == 0,
    decreases s.len(),
{
    if s.len() > 0 {
        lemma_count_below_zero(s.drop_last(), ch);
    }
}

proof fn lemma_count_below_all(s: Seq<HexColor>, ch: int)
    ensures
        count_below(s, ch, 256) == s.len(),
    decreases s.len(),
{
    if s.len() > 0 {
        lemma_count_below_all(s.drop_last(), ch);
    }
}

/// Sorting by a channel keeps the number of pixels.
pub proof fn lemma_sorted_len(s: Seq<HexColor>, ch: int)
    ensures
        sorted_by_channel(s, ch).len() == s.len(),
{
    lemma_sorted_below_len(s, ch, 256);
    lemma_count_below_all(s, ch);
}

/// Sum of channel `ch` over `s`.
pub open spec fn channel_sum(s: Seq<HexColor>, ch: int) -> int
    decreases s.len(),
{
    if s.len() == 0 {
        0
    } else {
        channel_sum(s.drop_last(), ch) + channel(s.last(), ch)
    }
}

/// The truncating mean of channel `ch` over a non-empty `s`.
pub open spec fn channel_mean(s: Seq<HexColor>, ch: int) -> u8 {
    (channel_sum(s, ch) / (s.len() as int)) as u8
}

/// The average color of a group: each channel's sum divided by the group's
/// size, truncating. A group with no pixels averages to black.
pub open spec fn average(s: Seq<HexColor>) -> HexColor {
    if s.len() == 0 {
        HexColor { r: 0, g: 0, b: 0 }
    } else {
        HexColor { r: channel_mean(s, 0), g: channel_mean(s, 1), b: channel_mean(s, 2) }
    }
}

proof fn lemma_channel_sum_bounds(s: Seq<HexColor>, ch: int)
    ensures
        0 <= channel_sum(s, ch) <= 255 * s.len(),
    decreases s.len(),
{
    if s.len() > 0 {
        lemma_channel_sum_bounds(s.drop_last(), ch);
    }
}

proof fn lemma_mean_fits(s: Seq<HexColor>, ch: int)
    requires
        s.len() > 0,
    ensures
        channel_sum(s, ch) / (s.len() as int) <= 255,
{
    lemma_channel_sum_bounds(s, ch);
    let n = s.len() as int;
    let t = channel_sum(s, ch);
    assert(t / n <= 255) by (nonlinear_arith)
        requires
            0 <= t <= 255 * n,
            n > 0,
    ;
}

/// The average color of `group`, as `average` states.
pub fn average_color_from_group(group: &Vec<HexColor>) -> (r: HexColor)
    ensures
        r == average(group@),
{
    let mut red_sum: u128 = 0;
    let mut green_sum: u128 = 0;
    let mut blue_sum: u128 = 0;
    let mut i: usize = 0;
    while i < group.len()
        invariant
            0 <= i <= group@.len(),
            red_sum == channel_sum(group@.take(i as int), 0),
            green_sum == channel_sum(group@.take(i as int), 1),
            blue_sum == channel_sum(group@.take(i as int), 2),
        decreases group@.len() - i,
    {
        let color = group[i];
        proof {
            assert(group@.take(i as int + 1).drop_last() =~= group@.take(i as int));
            lemma_channel_sum_bounds(group@.take(i as int), 0);
            lemma_channel_sum_bounds(group@.take(i as int), 1);
            lemma_channel_sum_bounds(group@.take(i as int), 2);
        }
        red_sum = red_sum + color.r as u128;
        green_sum = green_sum + color.g as u128;
        blue_sum = blue_sum + color.b as u128;
        i = i + 1;
    }
    proof {
        assert(group@.take(i as int) =~= group@);
    }
    if group.len() == 0 {
        return HexColor { r: 0, g: 0, b: 0 };
    }
    let n = group.len() as u128;
    proof {
        lemma_mean_fits(group@, 0);
        lemma_mean_fits(group@, 1);
        lemma_mean_fits(group@, 2);
    }
    HexColor { r: (red_sum / n) as u8, g: (green_sum / n) as u8, b: (blue_sum / n) as u8 }
}

/// One step of the split queue: the front group leaves and its two halves
/// join the back, first half first.
pub open spec fn split_step(q: Seq<Seq<HexColor>>) -> Seq<Seq<HexColor>> {
    q.drop_first().push(split_halves(q[0]).0).push(split_halves(q[0]).1)
}

/// The split queue after `t` steps, starting from the single group `pixels`.
pub open spec fn queue_after(pixels: Seq<HexColor>, t: nat) -> Seq<Seq<HexColor>>
    decreases t,
{
    if t == 0 {
        seq![pixels]
    } else {
        split_step(queue_after(pixels, (t - 1) as nat))
    }
}

/// The `k` groups that median-cut ends with, in queue order.
pub open spec fn median_cut_groups(pixels: Seq<HexColor>, k: nat) -> Seq<Seq<HexColor>> {
    queue_after(pixels, (k - 1) as nat)
}

/// The palette of median-cut: the average of each final group, in queue order.
pub open spec fn median_cut_palette(pixels: Seq<HexColor>, k: nat) -> Seq<HexColor> {
    median_cut_groups(pixels, k).map_values(|g: Seq<HexColor>| average(g))
}

/// The queue holds `t + 1` groups after `t` steps.
pub proof fn lemma_queue_len(pixels: Seq<HexColor>, t: nat)
    ensures
        queue_after(pixels, t).len() == t + 1,
    decreases t,
{
    if t > 0 {
        lemma_queue_len(pixels, (t - 1) as nat);
    }
}

/// Quantizes `all_pixels` to `k` colors by median cut.
///
/// Starting from one group of all pixels, the front group of a queue is
/// split in two until the queue holds `k` groups; each group then gives its
/// average color. Where `k` exceeds the number of pixels some groups are
/// empty, and those give black.
pub fn median_cut(all_pixels: &[HexColor], k: usize) -> (r: Result<Vec<HexColor>, PaletteError>)
    ensures
        r is Err <==> input_error(all_pixels@.len(), k as nat) is Some,
        r is Err ==> input_error(all_pixels@.len(), k as nat) == Some(r->Err_0),
        r is Ok ==> r->Ok_0@ == median_cut_palette(all_pixels@, k as nat),
        r is Ok ==> r->Ok_0@.len() == k,
{
    match check_input(all_pixels.len(), k) {
        Err(e) => { return Err(e); },
        Ok(()) => {},
    }
    let hex_pixels: Vec<HexColor> = vstd::slice::slice_to_vec(all_pixels);
    let mut queue: VecDeque<Vec<HexColor>> = VecDeque::new();
    queue.push_back(hex_pixels);
    let ghost mut t: nat = 0;
    proof {
        assert(queue@.map_values(|g: Vec<HexColor>| g@) =~= queue_after(all_pixels@, 0));
    }
    while queue.len() < k
        invariant
            k > 0,
            queue@.len() == t + 1,
            queue@.len() <= k,
            queue@.map_values(|g: Vec<HexColor>| g@) == queue_after(all_pixels@, t),
        decreases k - queue@.len(),
    {
        let ghost before = queue@.map_values(|g: Vec<HexColor>| g@);
        let group_to_split = queue.pop_front().unwrap();
        let (first_half, second_half) = split_pixels_at_median(group_to_split);
        queue.push_back(first_half);
        queue.push_back(second_half);
        proof {
            t = t + 1;
            assert(queue@.map_values(|g: Vec<HexColor>| g@) =~= split_step(before));
        }
    }
    let mut res: Vec<HexColor> = Vec::new();
    let mut i: usize = 0;
    while i < queue.len()
        invariant
            0 <= i <= queue@.len(),
            queue@.len() == k,
            t == k - 1,
            queue@.map_values(|g: Vec<HexColor>| g@) == queue_after(all_pixels@, t),
            res@.len() == i,
            forall|j: int| 0 <= j < i ==> res@[j] == average(#[trigger] queue@[j]@),
        decreases queue@.len() - i,
    {
        res.push(average_color_from_group(&queue[i]));
        i = i + 1;
    }
    proof {
        lemma_queue_len(all_pixels@, t);
        let groups = queue@.map_values(|g: Vec<HexColor>| g@);
        assert(groups[0] == queue@[0]@);
        assert(res@ =~= median_cut_palette(all_pixels@, k as nat));
    }
    Ok(res)
}

/// The pixels of `s` whose channel `ch` is below `v`, in their order in `s`.
pub open spec fn elems_below(s: Seq<HexColor>, ch: int, v: int) -> Seq<HexColor>
    decreases s.len(),
{
    if s.len() == 0 {
        s
    } else {
        let sub = elems_below(s.drop_last(), ch, v);
        if channel(s.last(), ch) < v {
            sub.push(s.last())
        } else {
            sub
        }
    }
}

proof fn lemma_elems_below_step(s: Seq<HexColor>, ch: int, v: int)
    ensures
        elems_below(s, ch, v + 1).to_multiset() =~= elems_below(s, ch, v).to_multiset().add(
            with_value(s, ch, v).to_multiset(),
        ),
    decreases s.len(),
{
    broadcast use vstd::multiset::group_multiset_axioms, vstd::seq_lib::group_to_multiset_ensures;

    if s.len() > 0 {
        lemma_elems_below_step(s.drop_last(), ch, v);
    }
}

proof fn lemma_elems_below_ends(s: Seq<HexColor>, ch: int)
    ensures
        elems_below(s, ch, 0) == Seq::<HexColor>::empty(),
        elems_below(s, ch, 256) == s,
    decreases s.len(),
{
    if s.len() > 0 {
        lemma_elems_below_ends(s.drop_last(), ch);
        assert(s.drop_last().push(s.last()) =~= s);
    }
}

proof fn lemma_sorted_below_multiset(s: Seq<HexColor>, ch: int, v: int)
    requires
        v >= 0,
    ensures
        sorted_below(s, ch, v).to_multiset() =~= elems_below(s, ch, v).to_multiset(),
    decreases v,
{
    broadcast use vstd::multiset::group_multiset_axioms, vstd::seq_lib::group_to_multiset_ensures;

    if v == 0 {
        lemma_elems_below_ends(s, ch);
    } else {
        lemma_sorted_below_multiset(s, ch, v - 1);
        lemma_elems_below_step(s, ch, v - 1);
        vstd::seq_lib::lemma_multiset_commutative(
            sorted_below(s, ch, v - 1),
            with_value(s, ch, v - 1),
        );
    }
}

proof fn lemma_with_value_channel(s: Seq<HexColor>, ch: int, v: int)
    ensures
        forall|i: int|
            0 <= i < with_value(s, ch, v).len() ==> channel(
                #[trigger] with_value(s, ch, v)[i],
                ch,
            ) == v,
    decreases s.len(),
{
    if s.len() > 0 {
        lemma_with_value_channel(s.drop_last(), ch, v);
        let sub = with_value(s.drop_last(), ch, v);
        assert forall|i: int| 0 <= i < with_value(s, ch, v).len() implies channel(
            #[trigger] with_value(s, ch, v)[i],
            ch,
        ) == v by {
            if i < sub.len() {
                assert(with_value(s, ch, v)[i] == sub[i]);
            }
        }
    }
}

proof fn lemma_sorted_below_ordered(s: Seq<HexColor>, ch: int, v: int)
    requires
        v >= 0,
    ensures
        forall|i: int|
            0 <= i < sorted_below(s, ch, v).len() ==> channel(
                #[trigger] sorted_below(s, ch, v)[i],
                ch,
            ) < v,
        forall|i: int, j: int|
            0 <= i < j < sorted_below(s, ch, v).len() ==> channel(
                #[trigger] sorted_below(s, ch, v)[i],
                ch,
            ) <= channel(#[trigger] sorted_below(s, ch, v)[j], ch),
    decreases v,
{
    if v > 0 {
        lemma_sorted_below_ordered(s, ch, v - 1);
        lemma_with_value_channel(s, ch, v - 1);
        let a = sorted_below(s, ch, v - 1);
        let b = with_value(s, ch, v - 1);
        assert(sorted_below(s, ch, v) == a + b);
        assert forall|i: int| 0 <= i < (a + b).len() implies channel(#[trigger] (a + b)[i], ch)
            < v by {
            if i >= a.len() {
                assert((a + b)[i] == b[i - a.len()]);
            }
        }
        assert forall|i: int, j: int| 0 <= i < j < (a + b).len() implies channel(
            #[trigger] (a + b)[i],
            ch,
        ) <= channel(#[trigger] (a + b)[j], ch) by {
            if j < a.len() {
                assert((a + b)[i] == a[i] && (a + b)[j] == a[j]);
            } else if i < a.len() {
                assert((a + b)[i] == a[i] && (a + b)[j] == b[j - a.len()]);
            } else {
                assert((a + b)[i] == b[i - a.len()] && (a + b)[j] == b[j - a.len()]);
            }
        }
    }
}

/// Sorting by a channel is a permutation whose channel values never
/// decrease.
pub proof fn lemma_sorted_is_ordered_permutation(s: Seq<HexColor>, ch: int)
    ensures
        sorted_by_channel(s, ch).to_multiset() == s.to_multiset(),
        forall|i: int, j: int|
            0 <= i < j < sorted_by_channel(s, ch).len() ==> channel(
                #[trigger] sorted_by_channel(s, ch)[i],
                ch,
            ) <= channel(#[trigger] sorted_by_channel(s, ch)[j], ch),
{
    lemma_sorted_below_multiset(s, ch, 256);
    lemma_elems_below_ends(s, ch);
    lemma_sorted_below_ordered(s, ch, 256);
}

/// A split partitions its group: together the halves hold each pixel of the
/// group exactly as often as the group does, and no pixel of the first half
/// has a larger value on the split channel than a pixel of the second half.
pub proof fn lemma_split_is_partition(s: Seq<HexColor>)
    ensures
        split_halves(s).0.to_multiset().add(split_halves(s).1.to_multiset()) == s.to_multiset(),
        forall|i: int, j: int|
            0 <= i < split_halves(s).0.len() && 0 <= j < split_halves(s).1.len() ==> channel(
                #[trigger] split_halves(s).0[i],
                split_channel(s),
            ) <= channel(#[trigger] split_halves(s).1[j], split_channel(s)),
{
    let ch = split_channel(s);
    let sorted = sorted_by_channel(s, ch);
    let a = split_halves(s).0;
    let b = split_halves(s).1;
    lemma_sorted_is_ordered_permutation(s, ch);
    lemma_sorted_len(s, ch);
    assert(a + b =~= sorted);
    vstd::seq_lib::lemma_multiset_commutative(a, b);
    assert forall|i: int, j: int| 0 <= i < a.len() && 0 <= j < b.len() implies channel(
        #[trigger] a[i],
        ch,
    ) <= channel(#[trigger] b[j], ch) by {
        assert(a[i] == sorted[i]);
        assert(b[j] == sorted[j + a.len()]);
    }
}

/// Total number of pixels over all groups of `q`.
pub open spec fn total_pixels(q: Seq<Seq<HexColor>>) -> int
    decreases q.len(),
{
    if q.len() == 0 {
        0
    } else {
        total_pixels(q.drop_last()) + q.last().len()
    }
}

proof fn lemma_total_pixels_drop_first(q: Seq<Seq<HexColor>>)
    requires
        q.len() > 0,
    ensures
        total_pixels(q) == q[0].len() + total_pixels(q.drop_first()),
    decreases q.len(),
{
    if q.len() > 1 {
        lemma_total_pixels_drop_first(q.drop_last());
        assert(q.drop_last().drop_first() =~= q.drop_first().drop_last());
        assert(q.drop_first().last() == q.last());
        assert(q.drop_last()[0] == q[0]);
    } else {
        assert(total_pixels(q.drop_first()) == 0);
        assert(total_pixels(q.drop_last()) == 0);
        assert(q.last() == q[0]);
    }
}

/// Splitting a group keeps its number of pixels.
pub proof fn lemma_split_keeps_count(s: Seq<HexColor>)
    ensures
        split_halves(s).0.len() + split_halves(s).1.len() == s.len(),
{
    lemma_sorted_len(s, split_channel(s));
}

/// At every step of median-cut the queued groups together hold exactly as
/// many pixels as the input: a split neither drops nor repeats a pixel.
pub proof fn lemma_queue_keeps_count(pixels: Seq<HexColor>, t: nat)
    ensures
        total_pixels(queue_after(pixels, t)) == pixels.len(),
    decreases t,
{
    if t == 0 {
        let q = queue_after(pixels, 0);
        assert(total_pixels(q.drop_last()) == 0);
        assert(q.last() == pixels);
    } else {
        let q = queue_after(pixels, (t - 1) as nat);
        lemma_queue_keeps_count(pixels, (t - 1) as nat);
        lemma_queue_len(pixels, (t - 1) as nat);
        lemma_total_pixels_drop_first(q);
        lemma_split_keeps_count(q[0]);
        let a = split_halves(q[0]).0;
        let b = split_halves(q[0]).1;
        let next = q.drop_first().push(a).push(b);
        assert(next.drop_last() =~= q.drop_first().push(a));
        assert(next.drop_last().drop_last() =~= q.drop_first());
        assert(total_pixels(next) == total_pixels(next.drop_last()) + b.len());
        assert(total_pixels(next.drop_last()) == total_pixels(q.drop_first()) + a.len());
        assert(queue_after(pixels, t) == next);
    }
}

/// Every pixel over all groups of `q`, counted as often as it occurs.
pub open spec fn queued_pixels(q: Seq<Seq<HexColor>>) -> Multiset<HexColor>
    decreases q.len(),
{
    if q.len() == 0 {
        Multiset::empty()
    } else {
        queued_pixels(q.drop_last()).add(q.last().to_multiset())
    }
}

proof fn lemma_queued_pixels_drop_first(q: Seq<Seq<HexColor>>)
    requires
        q.len() > 0,
    ensures
        queued_pixels(q) =~= q[0].to_multiset().add(queued_pixels(q.drop_first())),
    decreases q.len(),
{
    broadcast use vstd::multiset::group_multiset_axioms;

    if q.len() > 1 {
        lemma_queued_pixels_drop_first(q.drop_last());
        assert(q.drop_last().drop_first() =~= q.drop_first().drop_last());
        assert(q.drop_first().last() == q.last());
        assert(q.drop_last()[0] == q[0]);
    } else {
        assert(queued_pixels(q.drop_first()) == Multiset::<HexColor>::empty());
        assert(queued_pixels(q.drop_last()) == Multiset::<HexColor>::empty());
        assert(q.last() == q[0]);
    }
}

/// At every step of median-cut the queued groups together hold exactly the
/// input's pixels, each as often as in the input.
pub proof fn lemma_queue_keeps_pixels(pixels: Seq<HexColor>, t: nat)
    ensures
        queued_pixels(queue_after(pixels, t)) =~= pixels.to_multiset(),
    decreases t,
{
    broadcast use vstd::multiset::group_multiset_axioms;

    if t == 0 {
        let q = queue_after(pixels, 0);
        assert(queued_pixels(q.drop_last()) == Multiset::<HexColor>::empty());
        assert(q.last() == pixels);
    } else {
        let q = queue_after(pixels, (t - 1) as nat);
        lemma_queue_keeps_pixels(pixels, (t - 1) as nat);
        lemma_queue_len(pixels, (t - 1) as nat);
        lemma_queued_pixels_drop_first(q);
        lemma_split_is_partition(q[0]);
        let a = split_halves(q[0]).0;
        let b = split_halves(q[0]).1;
        let next = q.drop_first().push(a).push(b);
        assert(next.drop_last() =~= q.drop_first().push(a));
        assert(next.drop_last().drop_last() =~= q.drop_first());
        assert(queued_pixels(next) == queued_pixels(next.drop_last()).add(b.to_multiset()));
        assert(queued_pixels(next.drop_last()) == queued_pixels(q.drop_first()).add(
            a.to_multiset(),
        ));
        assert(queue_after(pixels, t) == next);
    }
}

/// Median-cut depends on its input alone: equal pixels and `k` give equal
/// palettes.
pub proof fn lemma_median_cut_deterministic(
    pixels1: Seq<HexColor>,
    pixels2: Seq<HexColor>,
    k: nat,
)
    requires
        pixels1 == pixels2,
    ensures
        median_cut_palette(pixels1, k) == median_cut_palette(pixels2, k),
{
}

/// With one cluster the palette is the single average of all pixels.
pub proof fn lemma_median_cut_one_cluster(pixels: Seq<HexColor>)
    requires
        pixels.len() > 0,
    ensures
        median_cut_palette(pixels, 1) == seq![average(pixels)],
{
    assert(median_cut_palette(pixels, 1) =~= seq![average(pixels)]);
}

/// For every non-empty input and positive `k`, median-cut gives `k` colors.
pub proof fn lemma_median_cut_len(pixels: Seq<HexColor>, k: nat)
    requires
        k > 0,
    ensures
        median_cut_palette(pixels, k).len() == k,
{
    lemma_queue_len(pixels, (k - 1) as nat);
}

} // verus!
