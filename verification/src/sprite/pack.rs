//! The shelf packer: places sprite rectangles of the given sizes into a
//! power-of-two square without overlap.

use vstd::arithmetic::power2::{
    is_pow2, is_pow2_equiv, is_pow2_exists, lemma2_to64, lemma_pow2_strictly_increases,
    lemma_pow2_unfold, pow2,
};
use vstd::prelude::*;
use vstd::seq_lib::{to_multiset_build, to_multiset_insert};

use crate::sprite::{rect_in_square, rects_disjoint, Rect};

verus! {

/// Sum of the heights of the given sizes.
pub open spec fn sum_heights(sizes: Seq<(u16, u16)>) -> int
    decreases sizes.len(),
{
    if sizes.len() == 0 {
        0
    } else {
        sum_heights(sizes.drop_last()) + sizes.last().1
    }
}

/// Sum of the areas (width times height) of the given sizes.
pub open spec fn sum_area(sizes: Seq<(u16, u16)>) -> int
    decreases sizes.len(),
{
    if sizes.len() == 0 {
        0
    } else {
        sum_area(sizes.drop_last()) + sizes.last().0 * sizes.last().1
    }
}

/// The largest single dimension among the given sizes.
pub open spec fn max_dim(sizes: Seq<(u16, u16)>) -> int
    decreases sizes.len(),
{
    if sizes.len() == 0 {
        0
    } else {
        let rest = max_dim(sizes.drop_last());
        let w = sizes.last().0 as int;
        let h = sizes.last().1 as int;
        if rest >= w && rest >= h {
            rest
        } else if w >= h {
            w
        } else {
            h
        }
    }
}

/// Descending shelf order on sizes: by height first, then width.
pub open spec fn key_ge(a: (u16, u16), b: (u16, u16)) -> bool {
    a.1 > b.1 || (a.1 == b.1 && a.0 >= b.0)
}

/// One sprite during placement: its size and the position of its size
/// in the caller's input.
struct Frame {
    size: (u16, u16),
    key: usize,
}

/// Sum of the heights of the given frames.
spec fn sum_heights_f(frames: Seq<Frame>) -> int
    decreases frames.len(),
{
    if frames.len() == 0 {
        0
    } else {
        sum_heights_f(frames.drop_last()) + frames.last().size.1
    }
}

/// Inserting a frame anywhere adds its height to the sum.
proof fn lemma_sum_heights_f_insert(frames: Seq<Frame>, p: int, f: Frame)
    requires
        0 <= p <= frames.len(),
    ensures
        sum_heights_f(frames.insert(p, f)) == sum_heights_f(frames) + f.size.1,
    decreases frames.len() - p,
{
    let grown = frames.insert(p, f);
    frames.insert_ensures(p, f);
    if p == frames.len() {
        assert(grown.drop_last() =~= frames);
    } else {
        assert(grown.last() == frames.last());
        assert(grown.drop_last() =~= frames.drop_last().insert(p, f));
        lemma_sum_heights_f_insert(frames.drop_last(), p, f);
    }
}

/// The sizes the frames carry, in frame order.
spec fn frame_sizes(frames: Seq<Frame>) -> Seq<(u16, u16)> {
    Seq::new(frames.len(), |k: int| frames[k].size)
}

/// Whether some frame carries the input position `v`.
spec fn has_key(frames: Seq<Frame>, v: int) -> bool {
    exists|k: int| 0 <= k < frames.len() && (#[trigger] frames[k]).key == v
}

/// Whether `frames` records exactly the input `sizes`: each frame names
/// an input position and its size, every position appears, and none
/// appears twice.
spec fn frames_cover(frames: Seq<Frame>, sizes: Seq<(u16, u16)>) -> bool {
    &&& frames.len() == sizes.len()
    &&& forall|k: int|
        0 <= k < frames.len() ==> (#[trigger] frames[k]).key < sizes.len() && frames[k].size
            == sizes[frames[k].key as int]
    &&& forall|k: int, l: int| 0 <= k < l < frames.len() ==> frames[k].key != frames[l].key
    &&& forall|v: int| 0 <= v < sizes.len() ==> #[trigger] has_key(frames, v)
}

/// Decides the descending shelf order on two sizes.
fn key_ge_exec(a: (u16, u16), b: (u16, u16)) -> (r: bool)
    ensures
        r == key_ge(a, b),
{
    a.1 > b.1 || (a.1 == b.1 && a.0 >= b.0)
}

/// Sorts the input sizes into descending shelf order, keeping for each
/// entry the position it came from.
fn sort_frames(sizes: &Vec<(u16, u16)>) -> (r: Vec<Frame>)
    ensures
        frames_cover(r@, sizes@),
        forall|k: int, l: int| 0 <= k <= l < r@.len() ==> key_ge(r@[k].size, r@[l].size),
        sum_heights_f(r@) == sum_heights(sizes@),
        frame_sizes(r@).to_multiset() == sizes@.to_multiset(),
{
    let n = sizes.len();
    let mut r: Vec<Frame> = Vec::new();
    proof {
        assert(frame_sizes(r@) =~= sizes@.take(0));
    }
    let mut i: usize = 0;
    while i < n
        invariant
            i <= n,
            n == sizes@.len(),
            r@.len() == i,
            forall|k: int|
                0 <= k < r@.len() ==> (#[trigger] r@[k]).key < i && r@[k].size == sizes@[r@[
                k].key as int],
            forall|k: int, l: int| 0 <= k < l < r@.len() ==> r@[k].key != r@[l].key,
            forall|v: int| 0 <= v < i ==> #[trigger] has_key(r@, v),
            forall|k: int, l: int| 0 <= k <= l < r@.len() ==> key_ge(r@[k].size, r@[l].size),
            sum_heights_f(r@) == sum_heights(sizes@.take(i as int)),
            frame_sizes(r@).to_multiset() == sizes@.take(i as int).to_multiset(),
        decreases n - i,
    {
        let size = sizes[i];
        let mut p: usize = 0;
        while p < r.len() && key_ge_exec(r[p].size, size)
            invariant
                p <= r@.len(),
                forall|q: int| 0 <= q < p ==> key_ge(r@[q].size, size),
            decreases r@.len() - p,
        {
            p += 1;
        }
        let ghost before = r@;
        let f = Frame { size, key: i };
        r.insert(p, f);
        proof {
            before.insert_ensures(p as int, f);
            lemma_sum_heights_f_insert(before, p as int, f);
            assert(sizes@.take(i + 1).drop_last() =~= sizes@.take(i as int));
            assert(frame_sizes(r@) =~= frame_sizes(before).insert(p as int, size));
            to_multiset_insert(frame_sizes(before), p as int, size);
            assert(sizes@.take(i + 1) =~= sizes@.take(i as int).push(sizes@[i as int]));
            to_multiset_build(sizes@.take(i as int), sizes@[i as int]);
            assert forall|v: int| 0 <= v < i + 1 implies #[trigger] has_key(r@, v) by {
                if v == i {
                    assert(r@[p as int].key == v);
                } else {
                    assert(has_key(before, v));
                    let k = choose|k: int| 0 <= k < before.len() && (#[trigger] before[k]).key == v;
                    if k < p {
                        assert(r@[k].key == v);
                    } else {
                        assert(r@[k + 1].key == v);
                    }
                }
            }
            assert forall|k: int, l: int|
                0 <= k <= l < r@.len() implies key_ge(r@[k].size, r@[l].size) by {
                if l < p {
                } else if k > p {
                    assert(r@[k] == before[k - 1] && r@[l] == before[l - 1]);
                } else if k < p && l == p {
                    assert(key_ge(before[k].size, size));
                } else if k == p && l > p {
                    assert(r@[l] == before[l - 1]);
                    if p < before.len() {
                        assert(key_ge(before[p as int].size, before[l - 1].size) || p == l - 1);
                    }
                } else if k < p && l > p {
                    assert(r@[k] == before[k] && r@[l] == before[l - 1]);
                }
            }
        }
        i += 1;
    }
    proof {
        assert(sizes@.take(n as int) =~= sizes@);
    }
    r
}

/// A prefix of the frames weighs at most the whole.
proof fn lemma_sum_heights_f_prefix(frames: Seq<Frame>, k: int)
    requires
        0 <= k <= frames.len(),
    ensures
        sum_heights_f(frames.take(k)) <= sum_heights_f(frames),
    decreases frames.len(),
{
    if k == frames.len() {
        assert(frames.take(k) =~= frames);
    } else {
        assert(frames.drop_last().take(k) =~= frames.take(k));
        lemma_sum_heights_f_prefix(frames.drop_last(), k);
    }
}

/// One more frame adds its height to the prefix sum.
proof fn lemma_sum_heights_f_step(frames: Seq<Frame>, k: int)
    requires
        0 <= k < frames.len(),
    ensures
        sum_heights_f(frames.take(k + 1)) == sum_heights_f(frames.take(k)) + frames[k].size.1,
{
    assert(frames.take(k + 1).drop_last() =~= frames.take(k));
    assert(frames.take(k + 1).last() == frames[k]);
}

/// One step of the shelf cursor (next free x, top of the current row,
/// current row height): the row height absorbs the sprite, a sprite
/// that no longer fits the row opens the next one, and the cursor
/// advances past the sprite.
pub open spec fn shelf_step(state: (int, int, int), size: (u16, u16), side: int) -> (int, int, int) {
    let rh1 = if state.2 >= size.1 {
        state.2
    } else {
        size.1 as int
    };
    if state.0 + size.0 > side {
        (size.0 as int, state.1 + rh1, size.1 as int)
    } else {
        (state.0 + size.0, state.1, rh1)
    }
}

/// The shelf cursor after the first k sizes have been placed, starting
/// at the origin with an empty row.
pub open spec fn shelf_state(sizes: Seq<(u16, u16)>, k: int, side: int) -> (int, int, int)
    decreases k,
{
    if k <= 0 {
        (0, 0, 0)
    } else {
        shelf_step(shelf_state(sizes, k - 1, side), sizes[k - 1], side)
    }
}

/// Where the shelf pass puts size k: at the cursor, or at the start of
/// the next row when the sprite no longer fits the current one.
pub open spec fn shelf_pos(sizes: Seq<(u16, u16)>, k: int, side: int) -> (int, int) {
    let st = shelf_state(sizes, k, side);
    let rh1 = if st.2 >= sizes[k].1 {
        st.2
    } else {
        sizes[k].1 as int
    };
    if st.0 + sizes[k].0 > side {
        (0, st.1 + rh1)
    } else {
        (st.0, st.1)
    }
}

/// Whether one shelf pass over the sizes, in order, fits the square
/// with the given side: every sprite's placement stays above the
/// bottom edge.
pub open spec fn shelf_fits(sizes: Seq<(u16, u16)>, side: int) -> bool {
    forall|k: int|
        0 <= k < sizes.len() ==> #[trigger] shelf_pos(sizes, k, side).1 + sizes[k].1 <= side
}

/// Whether `sorted` is the input sizes rearranged into descending
/// shelf order: the same sizes, by height first and width second.
pub open spec fn is_sorted_of(sorted: Seq<(u16, u16)>, sizes: Seq<(u16, u16)>) -> bool {
    &&& sorted.to_multiset() == sizes.to_multiset()
    &&& forall|k: int, l: int| 0 <= k <= l < sorted.len() ==> key_ge(sorted[k], sorted[l])
}

/// The exponent of the side the doubling search settles on: the first
/// power of two, from the starting exponent up, whose shelf pass fits,
/// or the largest 16-bit power of two when none below it does.
pub open spec fn shelf_exp(sorted: Seq<(u16, u16)>, e: nat) -> nat
    decreases 15 - e,
    when e <= 15
{
    if shelf_fits(sorted, pow2(e) as int) || e >= 15 {
        e
    } else {
        shelf_exp(sorted, e + 1)
    }
}

/// Attempts one shelf pass over the sorted frames in the square with
/// the given side.
///
/// The pass returns a placement exactly when `shelf_fits` holds of the
/// frames' sizes; each rectangle then stands at the input position its
/// frame came from, at the position the shelf pass assigns, with the
/// input size, inside the square and disjoint from every other. The
/// pass always fits once the side reaches the sum of all heights.
#[verifier::rlimit(100)]
#[verifier::spinoff_prover]
fn try_pack(sizes: &Vec<(u16, u16)>, frames: &Vec<Frame>, side: u16) -> (r: Option<Vec<Rect>>)
    requires
        frames_cover(frames@, sizes@),
        forall|k: int, l: int|
            0 <= k <= l < frames@.len() ==> key_ge(frames@[k].size, frames@[l].size),
        forall|i: int| 0 <= i < sizes@.len() ==> 0 < (#[trigger] sizes@[i]).0 <= side && 0 < sizes@[i].1,
        side <= 0x8000,
    ensures
        r is Some <==> shelf_fits(frame_sizes(frames@), side as int),
        r matches Some(rects) ==> {
            &&& rects@.len() == sizes@.len()
            &&& forall|i: int| 0 <= i < sizes@.len() ==> (#[trigger] rects@[i]).size == sizes@[i]
            &&& forall|i: int|
                0 <= i < sizes@.len() ==> rect_in_square(#[trigger] rects@[i], side as int)
            &&& forall|i: int, j: int|
                0 <= i < sizes@.len() && 0 <= j < sizes@.len() && i != j ==> rects_disjoint(
                    rects@[i],
                    rects@[j],
                )
            &&& forall|k: int|
                0 <= k < frames@.len() ==> {
                    let f = rects@[(#[trigger] frames@[k]).key as int];
                    f.pos.0 == shelf_pos(frame_sizes(frames@), k, side as int).0 && f.pos.1
                        == shelf_pos(frame_sizes(frames@), k, side as int).1
                }
        },
        sum_heights_f(frames@) <= side ==> r is Some,
{
    let n = sizes.len();
    let mut rects: Vec<Rect> = Vec::new();
    while rects.len() < n
        invariant
            rects@.len() <= n,
        decreases n - rects@.len(),
    {
        rects.push(Rect::default());
    }
    let ghost fsizes = frame_sizes(frames@);
    let mut x: u32 = 0;
    let mut y: u32 = 0;
    let mut rh: u32 = 0;
    let mut k: usize = 0;
    while k < frames.len()
        invariant
            frames_cover(frames@, sizes@),
            forall|k1: int, l: int|
                0 <= k1 <= l < frames@.len() ==> key_ge(frames@[k1].size, frames@[l].size),
            forall|i: int|
                0 <= i < sizes@.len() ==> 0 < (#[trigger] sizes@[i]).0 <= side && 0 < sizes@[i].1,
            side <= 0x8000,
            n == sizes@.len(),
            rects@.len() == n,
            k <= frames@.len(),
            fsizes == frame_sizes(frames@),
            (x as int, y as int, rh as int) == shelf_state(fsizes, k as int, side as int),
            forall|j: int|
                0 <= j < k ==> #[trigger] shelf_pos(fsizes, j, side as int).1 + fsizes[j].1
                    <= side,
            x <= side,
            y <= side,
            rh <= side,
            y + rh <= sum_heights_f(frames@.take(k as int)),
            x > 0 ==> (forall|j: int|
                k <= j < frames@.len() ==> (#[trigger] frames@[j]).size.1 <= rh),
            forall|j: int|
                0 <= j < k ==> {
                    let f = rects@[(#[trigger] frames@[j]).key as int];
                    &&& f.size == sizes@[frames@[j].key as int]
                    &&& rect_in_square(f, side as int)
                    &&& f.pos.0 == shelf_pos(fsizes, j, side as int).0
                    &&& f.pos.1 == shelf_pos(fsizes, j, side as int).1
                    &&& (f.pos.1 + f.size.1 <= y || (f.pos.1 == y && f.pos.0 + f.size.0 <= x
                        && f.pos.1 + f.size.1 <= y + rh))
                },
            forall|j1: int, j2: int|
                0 <= j1 < j2 < k ==> rects_disjoint(
                    rects@[(#[trigger] frames@[j1]).key as int],
                    rects@[(#[trigger] frames@[j2]).key as int],
                ),
        decreases frames@.len() - k,
    {
        let fr_size = frames[k].size;
        let idx = frames[k].key;
        let (w, h) = fr_size;
        let ghost x0 = x;
        let ghost y0 = y;
        let ghost rh0 = rh;
        proof {
            assert((#[trigger] frames@[k as int]).key == idx);
            assert(sizes@[idx as int] == fr_size);
            assert(fsizes[k as int] == fr_size);
            assert(shelf_state(fsizes, k + 1, side as int) == shelf_step(
                shelf_state(fsizes, k as int, side as int),
                fsizes[k as int],
                side as int,
            ));
        }
        if rh < h as u32 {
            rh = h as u32;
        }
        if x + w as u32 > side as u32 {
            proof {
                assert(x0 > 0);
            }
            y = y + rh;
            rh = h as u32;
            x = 0;
        }
        proof {
            lemma_sum_heights_f_step(frames@, k as int);
            assert(shelf_pos(fsizes, k as int, side as int) == (x as int, y as int));
        }
        if y + h as u32 > side as u32 {
            proof {
                lemma_sum_heights_f_prefix(frames@, k + 1 as int);
                assert(shelf_pos(fsizes, k as int, side as int).1 + fsizes[k as int].1 > side);
                assert(!shelf_fits(fsizes, side as int));
            }
            return None;
        }
        let rect = Rect { pos: (x as u16, y as u16), size: (w, h) };
        let ghost old_rects = rects@;
        rects[idx] = rect;
        proof {
            assert forall|j: int|
                0 <= j < k implies rects@[(#[trigger] frames@[j]).key as int] == old_rects[frames@[
            j].key as int] by {
                assert(frames@[j].key != idx);
            }
            assert forall|j: int|
                0 <= j < k implies rects_disjoint(
                    rects@[(#[trigger] frames@[j]).key as int],
                    rect,
                ) by {
                let f = old_rects[frames@[j].key as int];
                if x0 + w > side {
                    assert(f.pos.1 + f.size.1 <= y);
                } else {
                    if f.pos.1 + f.size.1 <= y0 {
                    } else {
                        assert(f.pos.0 + f.size.0 <= x0);
                    }
                }
            }
        }
        proof {
            assert forall|j: int|
                k + 1 <= j < frames@.len() implies (#[trigger] frames@[j]).size.1 <= rh by {
                assert(key_ge(frames@[k as int].size, frames@[j].size));
            }
        }
        x = x + w as u32;
        k += 1;
    }
    proof {
        assert(frames@.take(n as int) =~= frames@);
        assert(shelf_fits(fsizes, side as int));
        assert forall|i: int|
            0 <= i < sizes@.len() implies (#[trigger] rects@[i]).size == sizes@[i]
            && rect_in_square(rects@[i], side as int) by {
            assert(has_key(frames@, i));
            let ki = choose|ki: int| 0 <= ki < frames@.len() && (#[trigger] frames@[ki]).key == i;
            assert(rects@[(frames@[ki]).key as int].size == sizes@[frames@[ki].key as int]);
        }
        assert forall|i: int, j: int|
            0 <= i < sizes@.len() && 0 <= j < sizes@.len() && i != j implies rects_disjoint(
            rects@[i],
            rects@[j],
        ) by {
            assert(has_key(frames@, i));
            assert(has_key(frames@, j));
            let ki = choose|ki: int| 0 <= ki < frames@.len() && (#[trigger] frames@[ki]).key == i;
            let kj = choose|kj: int| 0 <= kj < frames@.len() && (#[trigger] frames@[kj]).key == j;
            assert(ki != kj);
            if ki < kj {
                assert(rects_disjoint(
                    rects@[(frames@[ki]).key as int],
                    rects@[(frames@[kj]).key as int],
                ));
            } else {
                assert(rects_disjoint(
                    rects@[(frames@[kj]).key as int],
                    rects@[(frames@[ki]).key as int],
                ));
            }
        }
    }
    Some(rects)
}

/// The heights are never negative, so the sum is not either.
proof fn lemma_sum_heights_nonneg(sizes: Seq<(u16, u16)>)
    ensures
        sum_heights(sizes) >= 0,
    decreases sizes.len(),
{
    if sizes.len() > 0 {
        lemma_sum_heights_nonneg(sizes.drop_last());
    }
}

/// Each height takes part in the sum of heights.
pub(crate) proof fn lemma_height_le_sum(sizes: Seq<(u16, u16)>, i: int)
    requires
        0 <= i < sizes.len(),
    ensures
        sizes[i].1 <= sum_heights(sizes),
    decreases sizes.len(),
{
    if i == sizes.len() - 1 {
        lemma_sum_heights_nonneg(sizes.drop_last());
    } else {
        lemma_height_le_sum(sizes.drop_last(), i);
    }
}

/// Each dimension stays below the largest one.
proof fn lemma_dim_le_max(sizes: Seq<(u16, u16)>, i: int)
    requires
        0 <= i < sizes.len(),
    ensures
        sizes[i].0 <= max_dim(sizes),
        sizes[i].1 <= max_dim(sizes),
    decreases sizes.len(),
{
    if i < sizes.len() - 1 {
        lemma_dim_le_max(sizes.drop_last(), i);
    }
}

/// A bound on every dimension bounds the largest one.
pub(crate) proof fn lemma_max_dim_ub(sizes: Seq<(u16, u16)>, b: int)
    requires
        b >= 0,
        forall|i: int|
            0 <= i < sizes.len() ==> (#[trigger] sizes[i]).0 <= b && sizes[i].1 <= b,
    ensures
        0 <= max_dim(sizes) <= b,
    decreases sizes.len(),
{
    if sizes.len() > 0 {
        lemma_max_dim_ub(sizes.drop_last(), b);
    }
}

/// A prefix of the sizes weighs at most the whole.
proof fn lemma_sum_heights_prefix(sizes: Seq<(u16, u16)>, k: int)
    requires
        0 <= k <= sizes.len(),
    ensures
        sum_heights(sizes.take(k)) <= sum_heights(sizes),
    decreases sizes.len(),
{
    if k == sizes.len() {
        assert(sizes.take(k) =~= sizes);
    } else {
        assert(sizes.drop_last().take(k) =~= sizes.take(k));
        lemma_sum_heights_prefix(sizes.drop_last(), k);
    }
}

/// The areas are never negative, so their sum is not either.
proof fn lemma_sum_area_nonneg(sizes: Seq<(u16, u16)>)
    ensures
        sum_area(sizes) >= 0,
    decreases sizes.len(),
{
    if sizes.len() > 0 {
        lemma_sum_area_nonneg(sizes.drop_last());
        let last = sizes.last();
        assert((last.0 as int) * (last.1 as int) >= 0) by (nonlinear_arith);
    }
}

/// A prefix of the sizes covers at most the whole area.
proof fn lemma_sum_area_prefix(sizes: Seq<(u16, u16)>, k: int)
    requires
        0 <= k <= sizes.len(),
    ensures
        sum_area(sizes.take(k)) <= sum_area(sizes),
    decreases sizes.len(),
{
    if k == sizes.len() {
        assert(sizes.take(k) =~= sizes);
    } else {
        assert(sizes.drop_last().take(k) =~= sizes.take(k));
        lemma_sum_area_prefix(sizes.drop_last(), k);
        let last = sizes.last();
        assert((last.0 as int) * (last.1 as int) >= 0) by (nonlinear_arith);
    }
}

/// The total area is bounded by the widest width times the sum of
/// heights.
proof fn lemma_sum_area_bound(sizes: Seq<(u16, u16)>, wmax: int)
    requires
        forall|i: int| 0 <= i < sizes.len() ==> (#[trigger] sizes[i]).0 <= wmax,
        wmax >= 0,
    ensures
        0 <= sum_area(sizes) <= wmax * sum_heights(sizes),
    decreases sizes.len(),
{
    if sizes.len() == 0 {
    } else {
        let rest = sizes.drop_last();
        lemma_sum_area_bound(rest, wmax);
        let w = sizes.last().0 as int;
        let h = sizes.last().1 as int;
        assert(w * h >= 0 && w * h <= wmax * h && wmax * (sum_heights(rest) + h) == wmax
            * sum_heights(rest) + wmax * h) by (nonlinear_arith)
            requires
                0 <= w <= wmax,
                h >= 0,
        ;
    }
}

/// Whether `s` is the integer square root of `a`, rounded up: the
/// smallest value whose square reaches `a`.
pub open spec fn is_ceil_sqrt(s: int, a: int) -> bool {
    s >= 0 && s * s >= a && (s == 0 || (s - 1) * (s - 1) < a)
}

/// Whether `p` is the smallest power of two at least `v`.
pub open spec fn is_next_pow2(p: int, v: int) -> bool {
    is_pow2(p) && p >= v && (p == 1 || p / 2 < v)
}

/// Whether `side` is the starting side of the shelf search for the
/// given sizes: the smallest power of two at least the largest single
/// dimension and at least the square root of the total area, rounded
/// up.
pub open spec fn is_start_side(side: int, sizes: Seq<(u16, u16)>) -> bool {
    exists|s: int|
        #[trigger] is_ceil_sqrt(s, sum_area(sizes)) && is_next_pow2(
            side,
            if max_dim(sizes) >= s {
                max_dim(sizes)
            } else {
                s
            },
        )
}

/// Squares a bounded value without overflow.
fn square(v: u32) -> (r: u64)
    requires
        v <= 0x10000,
    ensures
        r == (v as int) * (v as int),
{
    proof {
        assert((v as int) * (v as int) <= 0x1_0000_0000) by (nonlinear_arith)
            requires
                v <= 0x10000,
        ;
    }
    (v as u64) * (v as u64)
}

/// Returns the smallest value with `s`·`s` at least `area`: the integer
/// square root, rounded up.
fn ceil_sqrt(area: u32) -> (s: u16)
    requires
        area <= 0x4000_0000,
    ensures
        (s as int) * (s as int) >= area,
        s > 0 ==> (s - 1) * (s - 1) < area,
        s <= 0x8000,
        area <= 0x1000_0000 ==> s <= 0x4000,
{
    let mut s: u32 = 0;
    while square(s) < area as u64
        invariant
            area <= 0x4000_0000,
            s <= 0x8000,
            s > 0 ==> (s - 1) * (s - 1) < area,
        decreases 0x8000 - s,
    {
        proof {
            assert(s < 0x8000) by (nonlinear_arith)
                requires
                    (s as int) * (s as int) < area,
                    area <= 0x4000_0000,
                    s <= 0x8000,
            ;
            assert((s + 1) * (s + 1) > s * s) by (nonlinear_arith)
                requires
                    s >= 0,
            ;
        }
        s += 1;
    }
    proof {
        if area <= 0x1000_0000 && s > 0x4000 {
            assert((s - 1) * (s - 1) >= 0x1000_0000) by (nonlinear_arith)
                requires
                    s >= 0x4001,
            ;
        }
    }
    s as u16
}

/// Returns the smallest power of two at least `v`.
fn next_pow2(v: u16) -> (p: u16)
    requires
        v <= 0x8000,
    ensures
        is_next_pow2(p as int, v as int),
        is_pow2(p as int),
        p >= v,
        1 <= p <= 0x8000,
        v <= 0x4000 ==> p <= 0x4000,
{
    let mut p: u16 = 1;
    let ghost mut e: nat = 0;
    proof {
        lemma2_to64();
    }
    while p < v
        invariant
            v <= 0x8000,
            1 <= p <= 0x8000,
            v <= 0x4000 ==> p <= 0x4000,
            p == 1 || (p as int) / 2 < v,
            p as nat == pow2(e),
        decreases 0x8000 - p,
    {
        proof {
            lemma2_to64();
            if e >= 15 {
                if e > 15 {
                    lemma_pow2_strictly_increases(15, e);
                }
                assert(false);
            }
            if e < 14 {
                lemma_pow2_strictly_increases(e, 14);
            }
            if v <= 0x4000 {
                if e >= 14 {
                    assert(false);
                }
                if e < 13 {
                    lemma_pow2_strictly_increases(e, 13);
                }
            }
            lemma_pow2_unfold(e + 1);
        }
        p = p * 2;
        proof {
            e = e + 1;
        }
    }
    proof {
        vstd::arithmetic::power::lemma_pow_positive(2, e);
        assert(vstd::arithmetic::power::pow(2, e) == p as int);
        assert(is_pow2_exists(p as int));
        is_pow2_equiv(p as int);
    }
    p
}

/// Returns the starting side for the shelf search: the smallest power
/// of two at least the largest single dimension and at least the
/// square root of the total area, rounded up.
fn calc_side(sizes: &Vec<(u16, u16)>) -> (side: u16)
    requires
        forall|i: int|
            0 <= i < sizes@.len() ==> 0 < (#[trigger] sizes@[i]).0 <= 0x8000 && 0 < sizes@[i].1
                <= 0x8000,
        sum_area(sizes@) <= 0x4000_0000,
    ensures
        is_start_side(side as int, sizes@),
        is_pow2(side as int),
        max_dim(sizes@) <= side,
        1 <= side <= 0x8000,
        max_dim(sizes@) <= 0x4000 && sum_heights(sizes@) <= 0x4000 ==> side <= 0x4000,
{
    let n = sizes.len();
    let mut max_size: u16 = 0;
    let mut area: u32 = 0;
    let mut i: usize = 0;
    while i < n
        invariant
            i <= n,
            n == sizes@.len(),
            forall|j: int|
                0 <= j < sizes@.len() ==> 0 < (#[trigger] sizes@[j]).0 <= 0x8000 && 0 < sizes@[
                j].1 <= 0x8000,
            sum_area(sizes@) <= 0x4000_0000,
            max_size as int == max_dim(sizes@.take(i as int)),
            max_size <= 0x8000,
            area as int == sum_area(sizes@.take(i as int)),
        decreases n - i,
    {
        let (w, h) = sizes[i];
        proof {
            let pre = sizes@.take(i as int);
            let cur = sizes@.take(i + 1);
            assert(cur.drop_last() =~= pre);
            assert(cur.last() == sizes@[i as int]);
            lemma_sum_area_prefix(sizes@, i + 1);
            lemma_sum_area_nonneg(pre);
            assert(0 <= (w as int) * (h as int)) by (nonlinear_arith)
                requires
                    0 < w && 0 < h,
            ;
        }
        if max_size < w {
            max_size = w;
        }
        if max_size < h {
            max_size = h;
        }
        area = area + w as u32 * h as u32;
        i += 1;
    }
    proof {
        assert(sizes@.take(n as int) =~= sizes@);
        if max_dim(sizes@) <= 0x4000 && sum_heights(sizes@) <= 0x4000 {
            assert forall|j: int|
                0 <= j < sizes@.len() implies (#[trigger] sizes@[j]).0 <= 0x4000 by {
                lemma_dim_le_max(sizes@, j);
            }
            lemma_sum_heights_nonneg(sizes@);
            lemma_sum_area_bound(sizes@, 0x4000);
            assert(0x4000 * sum_heights(sizes@) <= 0x4000 * 0x4000) by (nonlinear_arith)
                requires
                    sum_heights(sizes@) <= 0x4000,
            ;
        }
    }
    let s = ceil_sqrt(area);
    let base = if max_size > s {
        max_size
    } else {
        s
    };
    let side = next_pow2(base);
    proof {
        assert(is_ceil_sqrt(s as int, sum_area(sizes@)));
        assert(is_start_side(side as int, sizes@));
    }
    side
}

/// The result of packing: one rectangle per input size, in input order,
/// and the chosen power-of-two side of the square that holds them all.
pub struct Packed {
    /// The placed rectangle of each input, at the input's position.
    pub frames: Vec<Rect>,
    /// The side of the square atlas.
    pub side: u16,
}

impl Packed {
    /// Packs the given sprite sizes into a power-of-two square.
    ///
    /// The sizes are placed on shelves in descending height order,
    /// starting from the smallest power of two admitted by the largest
    /// dimension and the total area, and doubling the side until one
    /// shelf pass fits: the chosen side is exactly the one that search
    /// settles on. Every returned rectangle keeps its input size, lies
    /// inside the square and overlaps no other. Returns `None` exactly
    /// when even the largest 16-bit power-of-two side does not fit the
    /// pass; a sum of heights within that side always fits.
    ///
    /// Each dimension must stay within the largest possible side, and
    /// the total area within that side's square, or no 16-bit atlas
    /// could hold the sprites at all.
    pub fn pack(sizes: &Vec<(u16, u16)>) -> (r: Option<Packed>)
        requires
            forall|i: int|
                0 <= i < sizes@.len() ==> 0 < (#[trigger] sizes@[i]).0 <= 0x8000 && 0 < sizes@[
                i].1 <= 0x8000,
            sum_area(sizes@) <= 0x4000_0000,
        ensures
            sum_heights(sizes@) <= 0x8000 ==> r is Some,
            exists|sorted: Seq<(u16, u16)>, e0: nat|
                #![trigger is_sorted_of(sorted, sizes@), shelf_exp(sorted, e0)]
                {
                    &&& is_sorted_of(sorted, sizes@)
                    &&& is_start_side(pow2(e0) as int, sizes@)
                    &&& e0 <= 15
                    &&& (r is Some <==> shelf_fits(sorted, pow2(shelf_exp(sorted, e0)) as int))
                    &&& (r matches Some(p) ==> p.side as nat == pow2(shelf_exp(sorted, e0)))
                },
            r matches Some(p) ==> {
                &&& is_pow2(p.side as int)
                &&& 1 <= p.side <= 0x8000
                &&& max_dim(sizes@) <= p.side
                &&& (max_dim(sizes@) <= 0x4000 && sum_heights(sizes@) <= 0x4000 ==> p.side
                    <= 0x4000)
                &&& p.frames@.len() == sizes@.len()
                &&& forall|i: int|
                    0 <= i < sizes@.len() ==> (#[trigger] p.frames@[i]).size == sizes@[i]
                &&& forall|i: int|
                    0 <= i < sizes@.len() ==> rect_in_square(
                        #[trigger] p.frames@[i],
                        p.side as int,
                    )
                &&& forall|i: int, j: int|
                    0 <= i < sizes@.len() && 0 <= j < sizes@.len() && i != j ==> rects_disjoint(
                        p.frames@[i],
                        p.frames@[j],
                    )
            },
    {
        let frames = sort_frames(sizes);
        let ghost sorted = frame_sizes(frames@);
        let mut side = calc_side(sizes);
        let ghost mut se: nat = 0;
        proof {
            assert forall|i: int|
                0 <= i < sizes@.len() implies 0 < (#[trigger] sizes@[i]).0 <= side && 0 < sizes@[
            i].1 <= side by {
                lemma_dim_le_max(sizes@, i);
            }
            is_pow2_equiv(side as int);
            se = choose|w: nat| vstd::arithmetic::power::pow(2, w) == side as int;
            assert(pow2(se) == side as nat);
            lemma2_to64();
            if se >= 16 {
                if se > 16 {
                    lemma_pow2_strictly_increases(16, se);
                }
                assert(false);
            }
            if se == 16 {
                assert(false);
            }
            assert forall|k: int, l: int|
                0 <= k <= l < sorted.len() implies key_ge(sorted[k], sorted[l]) by {
                assert(sorted[k] == frames@[k].size && sorted[l] == frames@[l].size);
            }
            assert(is_sorted_of(sorted, sizes@));
        }
        let ghost se0 = se;
        loop
            invariant
                frames_cover(frames@, sizes@),
                forall|k: int, l: int|
                    0 <= k <= l < frames@.len() ==> key_ge(frames@[k].size, frames@[l].size),
                sum_heights_f(frames@) == sum_heights(sizes@),
                sorted == frame_sizes(frames@),
                is_sorted_of(sorted, sizes@),
                is_start_side(pow2(se0) as int, sizes@),
                shelf_exp(sorted, se0) == shelf_exp(sorted, se),
                forall|i: int|
                    0 <= i < sizes@.len() ==> 0 < (#[trigger] sizes@[i]).0 <= side && 0 < sizes@[
                    i].1 <= side,
                is_pow2(side as int),
                side as nat == pow2(se),
                se0 <= se <= 15,
                1 <= side <= 0x8000,
                max_dim(sizes@) <= side,
                max_dim(sizes@) <= 0x4000 && sum_heights(sizes@) <= 0x4000 ==> side <= 0x4000,
            decreases 0x8000 - side,
        {
            match try_pack(sizes, &frames, side) {
                Some(rects) => {
                    proof {
                        assert(shelf_fits(sorted, pow2(se) as int));
                        assert(shelf_exp(sorted, se) == se);
                        assert(is_start_side(pow2(se0) as int, sizes@));
                        assert(shelf_exp(sorted, se0) == se);
                    }
                    return Some(Packed { frames: rects, side });
                },
                None => {
                    proof {
                        lemma2_to64();
                        assert(!shelf_fits(sorted, pow2(se) as int));
                    }
                    if side == 0x8000 {
                        proof {
                            if se < 15 {
                                lemma_pow2_strictly_increases(se, 15);
                                assert(false);
                            }
                            assert(shelf_exp(sorted, se) == se);
                            assert(is_start_side(pow2(se0) as int, sizes@));
                            assert(!shelf_fits(sorted, pow2(shelf_exp(sorted, se0)) as int));
                        }
                        return None;
                    }
                    proof {
                        reveal(is_pow2);
                        assert(is_pow2(2 * (side as int)));
                        if se >= 15 {
                            assert(false);
                        }
                        if se + 1 < 15 {
                            lemma_pow2_strictly_increases(se + 1, 15);
                        }
                        if max_dim(sizes@) <= 0x4000 && sum_heights(sizes@) <= 0x4000 {
                            assert(side < 0x4000);
                            assert(se < 14);
                            if se + 1 < 14 {
                                lemma_pow2_strictly_increases(se + 1, 14);
                            }
                        }
                        lemma_pow2_unfold(se + 1);
                        assert(shelf_exp(sorted, se) == shelf_exp(sorted, se + 1));
                        se = se + 1;
                    }
                    side = side * 2;
                },
            }
        }
    }
}

} // verus!
