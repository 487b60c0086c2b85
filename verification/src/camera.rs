//! Image geometry and the sampling schedule of a render.

use vstd::prelude::*;

verus! {

/// Number of workers that render one image together. Every worker renders
/// the whole image; their buffers are averaged.
pub const THREAD_COUNT: i32 = 15;

/// The seed of a worker's random stream: the worker's index, so that a
/// render with the same workers draws the same numbers again, and no two
/// workers draw the same.
pub fn worker_seed(worker: i32) -> (seed: u64)
    requires
        0 <= worker < THREAD_COUNT,
    ensures
        seed == worker,
{
    worker as u64
}

/// Colour channels stored for each pixel.
pub const CHANNELS: usize = 3;

/// The discrete render parameters: image size in pixels, the nominal number
/// of samples per pixel and the bound on the length of a light path.
#[derive(Clone, Copy, Debug)]
pub struct Camera {
    pub width: i32,
    pub height: i32,
    pub samples: i32,
    pub max_depth: i32,
}

impl Camera {
    /// A camera that can render: the image has pixels, a path may take at
    /// least one bounce, and the sample count is not negative.
    pub open spec fn valid(&self) -> bool {
        &&& self.width > 0
        &&& self.height > 0
        &&& self.samples >= 0
        &&& self.max_depth > 0
    }

    /// Length of the image buffer: `height` rows of `width` pixels of
    /// `CHANNELS` values.
    pub open spec fn len(&self) -> int {
        self.height * self.width * CHANNELS
    }

    /// Row-major position of one channel of one pixel in the image buffer.
    pub open spec fn offset(&self, row: int, col: int, channel: int) -> int {
        (row * self.width + col) * CHANNELS + channel
    }

    /// Whether `(row, col, channel)` names a value of the image.
    pub open spec fn holds(&self, row: int, col: int, channel: int) -> bool {
        &&& 0 <= row < self.height
        &&& 0 <= col < self.width
        &&& 0 <= channel < CHANNELS
    }

    /// The nominal sample count times `depth / max_depth`, rounded to the
    /// nearest whole number, a half upward.
    pub open spec fn rounded_share(&self, depth: int) -> int {
        (2 * self.samples * depth + self.max_depth) / (2 * self.max_depth)
    }

    /// Samples for a pixel whose probe path took `depth` bounces: the
    /// rounded share of the nominal count, but never fewer than one.
    pub open spec fn scaled_samples(&self, depth: int) -> int {
        if self.rounded_share(depth) < 1 {
            1
        } else {
            self.rounded_share(depth)
        }
    }

    pub fn is_valid(&self) -> (ok: bool)
        ensures
            ok == self.valid(),
    {
        self.width > 0 && self.height > 0 && self.samples >= 0 && self.max_depth > 0
    }

    /// The length of the image buffer, or `None` where no buffer of this
    /// machine can be that long.
    pub fn buffer_len(&self) -> (n: Option<usize>)
        requires
            self.valid(),
        ensures
            n is Some <==> self.len() <= usize::MAX,
            n matches Some(k) ==> k == self.len(),
    {
        let h: u64 = self.height as u64;
        let w: u64 = self.width as u64;
        assert(h * w * 3 < 0x4000_0000_0000_0000 * 3 && h * w >= 0) by (nonlinear_arith)
            requires
                0 < h < 0x8000_0000,
                0 < w < 0x8000_0000,
        ;
        let values: u64 = h * w * (CHANNELS as u64);
        if values <= usize::MAX as u64 {
            Some(values as usize)
        } else {
            None
        }
    }

    /// Where channel `channel` of the pixel in row `row` and column `col`
    /// stands in the image buffer.
    pub fn pixel_index(&self, row: usize, col: usize, channel: usize) -> (index: usize)
        requires
            self.valid(),
            self.len() <= usize::MAX,
            self.holds(row as int, col as int, channel as int),
        ensures
            index == self.offset(row as int, col as int, channel as int),
            index < self.len(),
    {
        proof {
            self.lemma_offset_in_buffer(row as int, col as int, channel as int);
        }
        (row * (self.width as usize) + col) * CHANNELS + channel
    }

    /// The pixel and channel stored at `index`: the inverse of
    /// [`Camera::pixel_index`].
    pub fn pixel_at(&self, index: usize) -> (place: (usize, usize, usize))
        requires
            self.valid(),
            index < self.len(),
        ensures
            self.holds(place.0 as int, place.1 as int, place.2 as int),
            self.offset(place.0 as int, place.1 as int, place.2 as int) == index,
    {
        let channel = index % CHANNELS;
        let pixel = index / CHANNELS;
        let col = pixel % (self.width as usize);
        let row = pixel / (self.width as usize);
        proof {
            let w = self.width as int;
            let h = self.height as int;
            assert(pixel < h * w) by (nonlinear_arith)
                requires
                    index < h * w * 3,
                    pixel == index as int / 3,
            ;
            assert(row < h) by (nonlinear_arith)
                requires
                    pixel < h * w,
                    row == pixel as int / w,
                    w > 0,
            ;
            assert(row * w + col == pixel) by (nonlinear_arith)
                requires
                    row == pixel as int / w,
                    col == pixel as int % w,
                    w > 0,
            ;
        }
        (row, col, channel)
    }

    /// How many samples to take for a pixel whose probe path took `depth`
    /// bounces. Pixels whose paths end early get proportionally fewer
    /// samples; no pixel gets none, so the average over the samples is
    /// always defined.
    pub fn sample_count(&self, depth: i32) -> (n: i32)
        requires
            self.valid(),
            0 <= depth <= self.max_depth,
        ensures
            n == self.scaled_samples(depth as int),
            1 <= n,
            n <= self.samples || n == 1,
    {
        let s: u64 = self.samples as u64;
        let d: u64 = depth as u64;
        let m: u64 = self.max_depth as u64;
        assert(0 <= s * d <= s * m && s * m <= 0x7fff_ffff * 0x7fff_ffff) by (nonlinear_arith)
            requires
                0 <= s <= 0x7fff_ffff,
                0 <= d <= m,
                m <= 0x7fff_ffff,
        ;
        let twice: u64 = 2 * (s * d) + m;
        let share: u64 = twice / (2 * m);
        assert(share <= s) by (nonlinear_arith)
            requires
                share as int == (twice as int) / (2 * m),
                twice <= 2 * (s * m) + m,
                m > 0,
        ;
        assert(2 * self.samples * depth == 2 * (s * d)) by (nonlinear_arith)
            requires
                s == self.samples,
                d == depth,
        ;
        if share < 1 {
            1
        } else {
            share as i32
        }
    }

    /// The rounded share is the whole number nearest to
    /// `samples * depth / max_depth`: it misses that quotient by at most a
    /// half, and where two whole numbers are equally near it is the larger.
    pub proof fn lemma_share_is_nearest(&self, depth: int)
        requires
            self.valid(),
        ensures
            2 * self.samples * depth - self.max_depth < 2 * self.max_depth * self.rounded_share(
                depth,
            ) <= 2 * self.samples * depth + self.max_depth,
    {
        let x = 2 * self.samples * depth + self.max_depth;
        let y = 2 * self.max_depth;
        let r = self.rounded_share(depth);
        assert(y * r <= x < y * r + y) by (nonlinear_arith)
            requires
                r == x / y,
                y > 0,
        ;
    }

    /// A probe that ran to the full depth earns the full sample count.
    pub proof fn lemma_full_depth_full_samples(&self)
        requires
            self.valid(),
            self.samples >= 1,
        ensures
            self.scaled_samples(self.max_depth as int) == self.samples,
    {
        let s = self.samples as int;
        let m = self.max_depth as int;
        assert((2 * s * m + m) / (2 * m) == s) by (nonlinear_arith)
            requires
                m > 0,
                s >= 0,
        ;
    }

    /// A longer probe path never earns fewer samples.
    pub proof fn lemma_samples_monotone(&self, shorter: int, longer: int)
        requires
            self.valid(),
            shorter <= longer,
        ensures
            self.scaled_samples(shorter) <= self.scaled_samples(longer),
    {
        let s = self.samples as int;
        let m = self.max_depth as int;
        assert((2 * s * shorter + m) / (2 * m) <= (2 * s * longer + m) / (2 * m))
            by (nonlinear_arith)
            requires
                m > 0,
                s >= 0,
                shorter <= longer,
        ;
    }

    /// Every value of the image has its place inside the buffer.
    pub proof fn lemma_offset_in_buffer(&self, row: int, col: int, channel: int)
        requires
            self.valid(),
            self.holds(row, col, channel),
        ensures
            0 <= row * self.width,
            0 <= row * self.width + col,
            0 <= self.offset(row, col, channel) < self.len(),
    {
        let w = self.width as int;
        let h = self.height as int;
        assert(0 <= row * w && row * w + col < h * w) by (nonlinear_arith)
            requires
                0 <= row < h,
                0 <= col < w,
        ;
        assert((row * w + col) * 3 + channel < h * w * 3) by (nonlinear_arith)
            requires
                row * w + col < h * w,
                channel < 3,
        ;
    }

    /// No two values of the image share a place in the buffer.
    pub proof fn lemma_offset_injective(
        &self,
        row: int,
        col: int,
        channel: int,
        other_row: int,
        other_col: int,
        other_channel: int,
    )
        requires
            self.valid(),
            self.holds(row, col, channel),
            self.holds(other_row, other_col, other_channel),
            self.offset(row, col, channel) == self.offset(other_row, other_col, other_channel),
        ensures
            row == other_row,
            col == other_col,
            channel == other_channel,
    {
        let w = self.width as int;
        let p = row * w + col;
        let q = other_row * w + other_col;
        assert(p == q && channel == other_channel) by (nonlinear_arith)
            requires
                p * 3 + channel == q * 3 + other_channel,
                0 <= channel < 3,
                0 <= other_channel < 3,
        ;
        assert(row == other_row) by (nonlinear_arith)
            requires
                row * w + col == other_row * w + other_col,
                0 <= col < w,
                0 <= other_col < w,
        ;
    }
}

} // verus!
