//! Progressive render state.
//!
//! Owns the per-pixel accumulation buffer, a pool of pre-shuffled pixel
//! visitation orders, and the cursor/counter bookkeeping that lets an
//! external driver render in bounded batches: take a batch with
//! `current_batch`, accumulate one sample per index with
//! `accumulate_sample`, then `commit_batch`.  Every order in the pool is
//! proved to be a duplicate-free sequence of in-bounds pixel indices, so
//! distinct positions of a batch always name distinct buffer cells.

use vstd::prelude::*;

use crate::color::{sat_add, Color, COLOR_ONE};
use crate::rng;

verus! {

/// Size of the pool of pre-shuffled pixel visitation orders.
pub const NUMBER_OF_ORDERS: usize = 5;

/// Progress is reported in fixed-point units of 1/PROGRESS_ONE.
pub const PROGRESS_ONE: u64 = 65536;

/// One pixel's accumulation cell: channel sums and the sample count.
#[derive(Clone, Copy, Debug, PartialEq, Eq, Structural)]
pub struct PixelCell {
    pub sum_r: u64,
    pub sum_g: u64,
    pub sum_b: u64,
    pub samples: u32,
}

/// Sum clamped to u64::MAX.
pub open spec fn sat_add64(a: int, b: int) -> int {
    if a + b > u64::MAX as int {
        u64::MAX as int
    } else {
        a + b
    }
}

impl PixelCell {
    pub open spec fn is_zero(self) -> bool {
        self.sum_r == 0 && self.sum_g == 0 && self.sum_b == 0 && self.samples == 0
    }

    pub fn zero() -> (c: PixelCell)
        ensures
            c.is_zero(),
    {
        PixelCell { sum_r: 0, sum_g: 0, sum_b: 0, samples: 0 }
    }
}

/// A visitation order over a canvas of n pixels: every pixel index below
/// n exactly once (length n, all entries in bounds, no duplicates).
pub open spec fn is_order(s: Seq<usize>, n: nat) -> bool {
    &&& s.len() == n
    &&& (forall|i: int| 0 <= i < s.len() ==> (s[i] as nat) < n)
    &&& s.no_duplicates()
}

/// Swapping two positions of a visitation order yields a visitation order.
proof fn lemma_swap_keeps_order(s: Seq<usize>, n: nat, i: int, j: int)
    requires
        is_order(s, n),
        0 <= i < s.len(),
        0 <= j < s.len(),
    ensures
        is_order(s.update(i, s[j]).update(j, s[i]), n),
{
    let t = s.update(i, s[j]).update(j, s[i]);
    assert(forall|k: int|
        0 <= k < t.len() ==> t[k] == (if k == j {
            s[i]
        } else if k == i {
            s[j]
        } else {
            s[k]
        }));
    assert forall|a: int, b: int|
        0 <= a < t.len() && 0 <= b < t.len() && a != b implies t[a] != t[b] by {
        assert(s.no_duplicates());
    }
    assert(t.no_duplicates());
}

/// One uniformly shuffled visitation order for a canvas of `len` pixels.
fn shuffled_order(len: usize) -> (v: Vec<usize>)
    ensures
        is_order(v@, len as nat),
{
    let mut v: Vec<usize> = Vec::new();
    let mut i: usize = 0;
    while i < len
        invariant
            i <= len,
            v@.len() == i,
            forall|k: int| 0 <= k < i ==> v@[k] == k,
        decreases len - i,
    {
        v.push(i);
        i += 1;
    }
    assert(v@.no_duplicates());
    // Fisher-Yates: drawing through the library's one randomness source.
    let mut j: usize = len;
    while j > 1
        invariant
            j <= len,
            is_order(v@, len as nat),
        decreases j,
    {
        let r: usize = rng::rand_below(j as u64) as usize;
        let a: usize = v[j - 1];
        let b: usize = v[r];
        proof {
            lemma_swap_keeps_order(v@, len as nat, j - 1, r as int);
        }
        v[j - 1] = b;
        v[r] = a;
        j -= 1;
    }
    v
}

/// Accumulation buffer plus scheduling state for progressive rendering.
pub struct RenderState {
    /// Pool of pixel visitation orders; rendering follows one of them and
    /// each restart moves to the next, so a static dither pattern is not
    /// replayed every time the camera stops.
    pub pixel_render_orders: Vec<Vec<usize>>,
    /// Which order of the pool is active.
    pub current_pixel_render_order: usize,
    /// Cursor into the active order: positions before it are rendered.
    pub current_render_pixel: usize,
    /// Per-pixel channel sums and sample counts.
    pub canvas: Vec<PixelCell>,
    /// Total pixel-samples accumulated since the last restart.
    pub total_rendered_pixel_samples: u64,
    /// Completed passes over the whole canvas since the last restart.
    pub rendered_samples: u32,
}

/// The RGBA8 materialization of an accumulation canvas: 4 bytes per cell,
/// channel mean rescaled from fixed point to [0, 255], alpha always 255.
pub open spec fn cell_byte(sum: int, samples: int) -> int {
    if samples == 0 {
        0
    } else {
        let m = (sum / samples) * 255 / (COLOR_ONE as int);
        if m > 255 {
            255
        } else {
            m
        }
    }
}

pub open spec fn canvas_byte_at(canvas: Seq<PixelCell>, i: int) -> int {
    let c = canvas[i / 4];
    if i % 4 == 0 {
        cell_byte(c.sum_r as int, c.samples as int)
    } else if i % 4 == 1 {
        cell_byte(c.sum_g as int, c.samples as int)
    } else if i % 4 == 2 {
        cell_byte(c.sum_b as int, c.samples as int)
    } else {
        255
    }
}

pub open spec fn canvas_bytes(canvas: Seq<PixelCell>) -> Seq<u8> {
    Seq::new(canvas.len() * 4, |i: int| canvas_byte_at(canvas, i) as u8)
}

impl RenderState {
    /// Structural invariant: a nonempty canvas of at most u32::MAX cells,
    /// a nonempty order pool whose every entry is a visitation order of
    /// the canvas, an active-order index in bounds, and a cursor no past
    /// the end of the active order.
    pub open spec fn wf(self) -> bool {
        &&& 0 < self.canvas@.len() <= u32::MAX as int
        &&& self.pixel_render_orders@.len() > 0
        &&& (forall|k: int|
            0 <= k < self.pixel_render_orders@.len() ==> is_order(
                self.pixel_render_orders@[k]@,
                self.canvas@.len(),
            ))
        &&& (self.current_pixel_render_order as int) < self.pixel_render_orders@.len()
        &&& self.current_render_pixel <= self.canvas@.len()
    }

    /// The visitation order rendering currently follows.
    pub open spec fn active_order(self) -> Seq<usize> {
        self.pixel_render_orders@[self.current_pixel_render_order as int]@
    }

    /// Pixel-samples wanted in total for a full frame.
    pub open spec fn spec_target(self, samples_per_pixel: u32) -> int {
        self.canvas@.len() * samples_per_pixel
    }

    /// A frame is finished once every pixel has all its samples.
    pub open spec fn spec_finished(self, samples_per_pixel: u32) -> bool {
        self.total_rendered_pixel_samples >= self.spec_target(samples_per_pixel)
    }

    /// Fraction of the frame done, in units of 1/PROGRESS_ONE, clamped to 1.
    pub open spec fn spec_progress(self, samples_per_pixel: u32) -> int {
        let p = self.total_rendered_pixel_samples * PROGRESS_ONE / self.spec_target(
            samples_per_pixel,
        );
        if p > PROGRESS_ONE as int {
            PROGRESS_ONE as int
        } else {
            p
        }
    }

    /// The pool of shuffled visitation orders for a canvas of `len` pixels.
    pub fn generate_pixel_render_orders(len: usize) -> (orders: Vec<Vec<usize>>)
        ensures
            orders@.len() == NUMBER_OF_ORDERS,
            forall|k: int| 0 <= k < orders@.len() ==> is_order(orders@[k]@, len as nat),
    {
        let mut orders: Vec<Vec<usize>> = Vec::new();
        let mut k: usize = 0;
        while k < NUMBER_OF_ORDERS
            invariant
                k <= NUMBER_OF_ORDERS,
                orders@.len() == k,
                forall|q: int| 0 <= q < k ==> is_order(orders@[q]@, len as nat),
            decreases NUMBER_OF_ORDERS - k,
        {
            orders.push(shuffled_order(len));
            k += 1;
        }
        orders
    }

    pub fn new(width: u32, height: u32) -> (s: RenderState)
        requires
            width > 0,
            height > 0,
            width * height <= u32::MAX,
        ensures
            s.wf(),
            s.canvas@.len() == width * height,
            forall|p: int| 0 <= p < s.canvas@.len() ==> s.canvas@[p].is_zero(),
            s.current_pixel_render_order == 0,
            s.current_render_pixel == 0,
            s.total_rendered_pixel_samples == 0,
            s.rendered_samples == 0,
    {
        proof {
            assert(1 <= width as int * height as int <= u32::MAX as int) by (nonlinear_arith)
                requires
                    1 <= width,
                    1 <= height,
                    width as int * height as int <= u32::MAX as int,
            ;
        }
        let len: usize = (width as usize) * (height as usize);
        let orders = Self::generate_pixel_render_orders(len);
        let canvas: Vec<PixelCell> = vec![PixelCell::zero(); len];
        RenderState {
            pixel_render_orders: orders,
            current_pixel_render_order: 0,
            current_render_pixel: 0,
            canvas,
            total_rendered_pixel_samples: 0,
            rendered_samples: 0,
        }
    }

    pub fn get_current_pixel_order(&self) -> (order: &Vec<usize>)
        requires
            self.wf(),
        ensures
            order@ == self.active_order(),
    {
        &self.pixel_render_orders[self.current_pixel_render_order]
    }

    /// Positions of the active order not yet rendered in this pass.
    pub fn missing_pixels_in_current_order(&self) -> (missing: usize)
        requires
            self.wf(),
        ensures
            missing == self.active_order().len() - self.current_render_pixel,
    {
        self.get_current_pixel_order().len() - self.current_render_pixel
    }

    pub fn is_finished_current_order(&self) -> (done: bool)
        requires
            self.wf(),
        ensures
            done == (self.current_render_pixel == self.active_order().len()),
    {
        self.missing_pixels_in_current_order() == 0
    }

    /// Pixel-samples wanted in total for a full frame.
    pub fn total_pixels_to_render(&self, samples_per_pixel: u32) -> (target: u64)
        requires
            self.wf(),
        ensures
            target == self.spec_target(samples_per_pixel),
    {
        proof {
            assert(self.canvas@.len() * samples_per_pixel <= u32::MAX as int * u32::MAX as int)
                by (nonlinear_arith)
                requires
                    0 < self.canvas@.len() <= u32::MAX as int,
                    0 <= samples_per_pixel <= u32::MAX,
            ;
        }
        (self.canvas.len() as u64) * (samples_per_pixel as u64)
    }

    /// Pixel-samples still to accumulate (0 once the frame is finished).
    pub fn missing_pixels(&self, samples_per_pixel: u32) -> (missing: u64)
        requires
            self.wf(),
        ensures
            missing == (if self.spec_finished(samples_per_pixel) {
                0int
            } else {
                self.spec_target(samples_per_pixel) - self.total_rendered_pixel_samples
            }),
    {
        let target = self.total_pixels_to_render(samples_per_pixel);
        if self.total_rendered_pixel_samples >= target {
            0
        } else {
            target - self.total_rendered_pixel_samples
        }
    }

    pub fn is_finished(&self, samples_per_pixel: u32) -> (done: bool)
        requires
            self.wf(),
        ensures
            done == self.spec_finished(samples_per_pixel),
    {
        self.missing_pixels(samples_per_pixel) == 0
    }

    /// Fraction of the frame rendered so far, in units of 1/PROGRESS_ONE,
    /// clamped to PROGRESS_ONE.
    pub fn progress(&self, samples_per_pixel: u32) -> (p: u64)
        requires
            self.wf(),
            samples_per_pixel > 0,
        ensures
            p == self.spec_progress(samples_per_pixel),
    {
        let target: u64 = self.total_pixels_to_render(samples_per_pixel);
        assert(target > 0) by (nonlinear_arith)
            requires
                target == self.canvas@.len() * samples_per_pixel,
                self.canvas@.len() > 0,
                samples_per_pixel > 0,
        ;
        proof {
            assert((self.total_rendered_pixel_samples as int) * (PROGRESS_ONE as int)
                <= u64::MAX as int * 65536) by (nonlinear_arith)
                requires
                    self.total_rendered_pixel_samples <= u64::MAX,
                    PROGRESS_ONE == 65536,
            ;
        }
        let scaled: u128 = (self.total_rendered_pixel_samples as u128) * (PROGRESS_ONE as u128)
            / (target as u128);
        if scaled > PROGRESS_ONE as u128 {
            PROGRESS_ONE
        } else {
            scaled as u64
        }
    }

    /// The next batch of work: the slice of the active order from the
    /// cursor, at most `max_batch` long.  Its entries are distinct
    /// in-bounds canvas indices, so concurrent samples of one batch touch
    /// pairwise-distinct cells.
    pub fn current_batch(&self, max_batch: usize) -> (batch: Vec<usize>)
        requires
            self.wf(),
        ensures
            batch@.len() == (if max_batch <= self.active_order().len()
                - self.current_render_pixel {
                max_batch as int
            } else {
                self.active_order().len() - self.current_render_pixel
            }),
            batch@ == self.active_order().subrange(
                self.current_render_pixel as int,
                self.current_render_pixel + batch@.len(),
            ),
            batch@.no_duplicates(),
            forall|i: int| 0 <= i < batch@.len() ==> (batch@[i] as int) < self.canvas@.len(),
    {
        let missing = self.missing_pixels_in_current_order();
        let size: usize = if max_batch <= missing {
            max_batch
        } else {
            missing
        };
        let order = self.get_current_pixel_order();
        let mut batch: Vec<usize> = Vec::new();
        let mut t: usize = 0;
        while t < size
            invariant
                t <= size,
                self.wf(),
                order@ == self.active_order(),
                size <= order@.len() - self.current_render_pixel,
                batch@.len() == t,
                forall|i: int|
                    0 <= i < t ==> batch@[i] == self.active_order()[self.current_render_pixel + i],
            decreases size - t,
        {
            batch.push(order[self.current_render_pixel + t]);
            t += 1;
        }
        proof {
            assert(batch@ =~= self.active_order().subrange(
                self.current_render_pixel as int,
                self.current_render_pixel + size,
            ));
            let ord = self.active_order();
            let cur = self.current_render_pixel as int;
            assert forall|x: int, y: int|
                0 <= x < batch@.len() && 0 <= y < batch@.len() && x != y implies batch@[x]
                != batch@[y] by {
                assert(batch@[x] == ord[cur + x]);
                assert(batch@[y] == ord[cur + y]);
            }
            assert(batch@.no_duplicates());
        }
        batch
    }

    /// Fold one radiance sample into the cell of pixel `index`: channel
    /// sums grow by the sample's channels (saturating) and the cell's
    /// sample count by one.  Nothing else changes.
    pub fn accumulate_sample(&mut self, index: usize, color: Color)
        requires
            old(self).wf(),
            (index as int) < old(self).canvas@.len(),
        ensures
            final(self).wf(),
            final(self).canvas@ == old(self).canvas@.update(
                index as int,
                (PixelCell {
                    sum_r: sat_add64(old(self).canvas@[index as int].sum_r as int, color.r as int) as u64,
                    sum_g: sat_add64(old(self).canvas@[index as int].sum_g as int, color.g as int) as u64,
                    sum_b: sat_add64(old(self).canvas@[index as int].sum_b as int, color.b as int) as u64,
                    samples: sat_add(old(self).canvas@[index as int].samples as int, 1) as u32,
                }),
            ),
            final(self).pixel_render_orders == old(self).pixel_render_orders,
            final(self).current_pixel_render_order == old(self).current_pixel_render_order,
            final(self).current_render_pixel == old(self).current_render_pixel,
            final(self).total_rendered_pixel_samples == old(self).total_rendered_pixel_samples,
            final(self).rendered_samples == old(self).rendered_samples,
    {
        let cell = self.canvas[index];
        let sum_r: u64 = if cell.sum_r > u64::MAX - color.r as u64 {
            u64::MAX
        } else {
            cell.sum_r + color.r as u64
        };
        let sum_g: u64 = if cell.sum_g > u64::MAX - color.g as u64 {
            u64::MAX
        } else {
            cell.sum_g + color.g as u64
        };
        let sum_b: u64 = if cell.sum_b > u64::MAX - color.b as u64 {
            u64::MAX
        } else {
            cell.sum_b + color.b as u64
        };
        let samples: u32 = if cell.samples == u32::MAX {
            u32::MAX
        } else {
            cell.samples + 1
        };
        self.canvas[index] = PixelCell { sum_r, sum_g, sum_b, samples };
    }

    /// Account for `size` freshly accumulated samples: advance the cursor
    /// and the total, and when the pass is complete but the frame is not,
    /// rewind the cursor so the same order is replayed for the next pass.
    pub fn commit_batch(&mut self, size: usize, samples_per_pixel: u32)
        requires
            old(self).wf(),
            size <= old(self).active_order().len() - old(self).current_render_pixel,
        ensures
            final(self).wf(),
            final(self).canvas == old(self).canvas,
            final(self).pixel_render_orders == old(self).pixel_render_orders,
            final(self).current_pixel_render_order == old(self).current_pixel_render_order,
            final(self).total_rendered_pixel_samples == sat_add64(
                old(self).total_rendered_pixel_samples as int,
                size as int,
            ),
            final(self).total_rendered_pixel_samples >= old(self).total_rendered_pixel_samples,
            ({
                let wrapped = old(self).current_render_pixel + size == old(
                    self,
                ).active_order().len() && !final(self).spec_finished(samples_per_pixel);
                &&& final(self).current_render_pixel == (if wrapped {
                    0int
                } else {
                    old(self).current_render_pixel + size
                })
                &&& final(self).rendered_samples == (if wrapped {
                    sat_add(old(self).rendered_samples as int, 1)
                } else {
                    old(self).rendered_samples as int
                })
            }),
    {
        let new_cursor: usize = self.current_render_pixel + size;
        self.current_render_pixel = new_cursor;
        self.total_rendered_pixel_samples = if self.total_rendered_pixel_samples > u64::MAX
            - size as u64 {
            u64::MAX
        } else {
            self.total_rendered_pixel_samples + size as u64
        };
        if self.is_finished_current_order() && !self.is_finished(samples_per_pixel) {
            self.current_render_pixel = 0;
            self.rendered_samples = if self.rendered_samples == u32::MAX {
                u32::MAX
            } else {
                self.rendered_samples + 1
            };
        }
    }

    /// Restart accumulation for a changed viewpoint: zero the buffer and
    /// the counters and move to the next order of the pool, cyclically.
    pub fn restore_canvas(&mut self)
        requires
            old(self).wf(),
        ensures
            final(self).wf(),
            final(self).canvas@.len() == old(self).canvas@.len(),
            forall|p: int| 0 <= p < final(self).canvas@.len() ==> final(self).canvas@[p].is_zero(),
            final(self).pixel_render_orders == old(self).pixel_render_orders,
            final(self).current_pixel_render_order == (old(self).current_pixel_render_order + 1)
                % (old(self).pixel_render_orders@.len() as int),
            final(self).current_render_pixel == 0,
            final(self).total_rendered_pixel_samples == 0,
            final(self).rendered_samples == 0,
    {
        let len = self.canvas.len();
        let pool = self.pixel_render_orders.len();
        assert(self.current_pixel_render_order < pool);
        self.canvas = vec![PixelCell::zero(); len];
        self.current_render_pixel = 0;
        self.current_pixel_render_order = (self.current_pixel_render_order + 1) % pool;
        self.rendered_samples = 0;
        self.total_rendered_pixel_samples = 0;
    }

    /// Adopt a new resolution: fresh visitation orders for the new pixel
    /// count, a zeroed buffer, zeroed counters.  No stale accumulation
    /// survives: afterwards progress is 0 for any positive target.
    pub fn on_resize(&mut self, width: u32, height: u32)
        requires
            old(self).wf(),
            width > 0,
            height > 0,
            width * height <= u32::MAX,
        ensures
            final(self).wf(),
            final(self).canvas@.len() == width * height,
            forall|p: int| 0 <= p < final(self).canvas@.len() ==> final(self).canvas@[p].is_zero(),
            final(self).current_render_pixel == 0,
            final(self).total_rendered_pixel_samples == 0,
            final(self).rendered_samples == 0,
            forall|spp: u32| spp > 0 ==> final(self).spec_progress(spp) == 0,
    {
        proof {
            assert(1 <= width as int * height as int <= u32::MAX as int) by (nonlinear_arith)
                requires
                    1 <= width,
                    1 <= height,
                    width as int * height as int <= u32::MAX as int,
            ;
        }
        let len: usize = (width as usize) * (height as usize);
        self.pixel_render_orders = Self::generate_pixel_render_orders(len);
        self.canvas = vec![PixelCell::zero(); len];
        self.current_render_pixel = 0;
        self.current_pixel_render_order = 0;
        self.rendered_samples = 0;
        self.total_rendered_pixel_samples = 0;
        proof {
            assert forall|spp: u32| spp > 0 implies self.spec_progress(spp) == 0 by {
                assert(self.spec_target(spp) > 0) by (nonlinear_arith)
                    requires
                        self.canvas@.len() > 0,
                        spp > 0,
                        self.spec_target(spp) == self.canvas@.len() * spp,
                ;
                vstd::arithmetic::div_mod::lemma_div_of0(self.spec_target(spp));
            }
        }
    }

    /// Materialize the canvas as tightly packed RGBA8: a pure function of
    /// the unchanged state, so repeated calls yield identical bytes.
    pub fn to_bytes(&self) -> (bytes: Vec<u8>)
        ensures
            bytes@ == canvas_bytes(self.canvas@),
    {
        let len = self.canvas.len();
        let mut bytes: Vec<u8> = Vec::new();
        let mut i: usize = 0;
        while i < len
            invariant
                i <= len,
                len == self.canvas@.len(),
                bytes@.len() == 4 * i,
                bytes@ =~= canvas_bytes(self.canvas@).take(4 * i),
            decreases len - i,
        {
            let cell = self.canvas[i];
            let r: u8 = Self::channel_byte(cell.sum_r, cell.samples);
            let g: u8 = Self::channel_byte(cell.sum_g, cell.samples);
            let b: u8 = Self::channel_byte(cell.sum_b, cell.samples);
            bytes.push(r);
            bytes.push(g);
            bytes.push(b);
            bytes.push(255);
            proof {
                assert(bytes@ =~= canvas_bytes(self.canvas@).take(4 * (i + 1)));
            }
            i += 1;
        }
        proof {
            assert(bytes@ =~= canvas_bytes(self.canvas@));
        }
        bytes
    }

    /// One channel of one cell as an 8-bit value, exact per `cell_byte`.
    fn channel_byte(sum: u64, samples: u32) -> (byte: u8)
        ensures
            byte == cell_byte(sum as int, samples as int),
    {
        if samples == 0 {
            0
        } else {
            let mean: u64 = sum / (samples as u64);
            let scaled: u128 = (mean as u128) * 255 / (COLOR_ONE as u128);
            if scaled > 255 {
                255
            } else {
                scaled as u8
            }
        }
    }
}

/// Law: progress never decreases as samples accumulate.  Of two states
/// with the same canvas size, the one with more accumulated samples
/// reports at least as much progress for any fixed target.
pub proof fn lemma_progress_monotone(
    before: RenderState,
    after: RenderState,
    samples_per_pixel: u32,
)
    requires
        before.wf(),
        after.wf(),
        after.canvas@.len() == before.canvas@.len(),
        after.total_rendered_pixel_samples >= before.total_rendered_pixel_samples,
        samples_per_pixel > 0,
    ensures
        after.spec_progress(samples_per_pixel) >= before.spec_progress(samples_per_pixel),
{
    let target = before.spec_target(samples_per_pixel);
    assert(target > 0) by (nonlinear_arith)
        requires
            target == before.canvas@.len() * samples_per_pixel,
            before.canvas@.len() > 0,
            samples_per_pixel > 0,
    ;
    assert(after.spec_target(samples_per_pixel) == target);
    let a = before.total_rendered_pixel_samples as int;
    let b = after.total_rendered_pixel_samples as int;
    assert(a * PROGRESS_ONE <= b * PROGRESS_ONE) by (nonlinear_arith)
        requires
            0 <= a <= b,
    ;
    vstd::arithmetic::div_mod::lemma_div_is_ordered(
        a * PROGRESS_ONE,
        b * PROGRESS_ONE,
        target,
    );
}

/// Law: progress reads exactly 1 (PROGRESS_ONE) precisely when the
/// frame is finished.
pub proof fn lemma_progress_complete(s: RenderState, samples_per_pixel: u32)
    requires
        s.wf(),
        samples_per_pixel > 0,
    ensures
        s.spec_finished(samples_per_pixel) <==> s.spec_progress(samples_per_pixel)
            == PROGRESS_ONE as int,
{
    let target = s.spec_target(samples_per_pixel);
    let done = s.total_rendered_pixel_samples as int;
    assert(target > 0) by (nonlinear_arith)
        requires
            target == s.canvas@.len() * samples_per_pixel,
            s.canvas@.len() > 0,
            samples_per_pixel > 0,
    ;
    if done >= target {
        assert(done * PROGRESS_ONE >= target * (PROGRESS_ONE as int)) by (nonlinear_arith)
            requires
                done >= target,
                PROGRESS_ONE > 0,
        ;
        vstd::arithmetic::div_mod::lemma_div_is_ordered(
            target * (PROGRESS_ONE as int),
            done * PROGRESS_ONE,
            target,
        );
        assert(target * (PROGRESS_ONE as int) == PROGRESS_ONE as int * target)
            by (nonlinear_arith);
        vstd::arithmetic::div_mod::lemma_div_multiples_vanish(PROGRESS_ONE as int, target);
    } else {
        assert(done < target);
        assert(done * PROGRESS_ONE < target * (PROGRESS_ONE as int)) by (nonlinear_arith)
            requires
                0 <= done < target,
                PROGRESS_ONE > 0,
        ;
        vstd::arithmetic::div_mod::lemma_multiply_divide_lt(
            done * PROGRESS_ONE,
            target,
            PROGRESS_ONE as int,
        );
    }
}

/// Law (partition safety): two disjoint chunks of one duplicate-free
/// batch touch disjoint sets of canvas cells.
pub proof fn lemma_disjoint_chunks(batch: Seq<usize>, a1: int, b1: int, a2: int, b2: int)
    requires
        batch.no_duplicates(),
        0 <= a1 <= b1 <= a2 <= b2 <= batch.len(),
    ensures
        forall|x: int, y: int|
            a1 <= x < b1 && a2 <= y < b2 ==> batch[x] != batch[y],
        batch.subrange(a1, b1).to_set().disjoint(batch.subrange(a2, b2).to_set()),
{
    let c1 = batch.subrange(a1, b1);
    let c2 = batch.subrange(a2, b2);
    assert forall|v: usize| c1.to_set().contains(v) implies !c2.to_set().contains(v) by {
        if c2.to_set().contains(v) {
            let x = choose|x: int| 0 <= x < c1.len() && c1[x] == v;
            let y = choose|y: int| 0 <= y < c2.len() && c2[y] == v;
            assert(batch[a1 + x] == v);
            assert(batch[a2 + y] == v);
        }
    }
}

} // verus!
