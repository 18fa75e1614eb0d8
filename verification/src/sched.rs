use vstd::prelude::*;
use crate::fx::{FRAC, fdiv, fdiv_s, lemma_div_range};
use crate::vec3::{Vec3, Color};
use crate::camera::{Camera, camera_ok};
use crate::hittable_list::{HittableList, world_ok};
use crate::tracer::ray_color;
use crate::rng::{RandSource, random_01};
use vstd::arithmetic::div_mod::lemma_fundamental_div_mod_converse_div;

verus! {

/// One per-pixel unit of work: the pixel column, the pixel row, and the
/// sequential output position of the pixel.
#[derive(Clone, Copy, Debug, PartialEq, Eq, Structural)]
pub struct Task {
    pub i: usize,
    pub j: usize,
    pub index: usize,
}

/// Enumerates one task per pixel in output order: rows from the top of
/// the image (`j == height - 1`) down to the bottom, columns left to
/// right, each task carrying its position in that order.
pub fn enumerate_tasks(width: usize, height: usize) -> (tasks: Vec<Task>)
    requires
        1 <= width,
        1 <= height,
        width * height <= usize::MAX,
    ensures
        tasks@.len() == width * height,
        forall|k: int|
            0 <= k < tasks@.len() ==> {
                &&& (#[trigger] tasks@[k]).index == k
                &&& tasks@[k].i == k % (width as int)
                &&& tasks@[k].j == height - 1 - k / (width as int)
            },
{
    let mut tasks: Vec<Task> = Vec::new();
    let mut jj: usize = height;
    while jj > 0
        invariant
            jj <= height,
            width * height <= usize::MAX,
            1 <= width,
            tasks@.len() == (height - jj) * width,
            forall|k: int|
                0 <= k < tasks@.len() ==> {
                    &&& (#[trigger] tasks@[k]).index == k
                    &&& tasks@[k].i == k % (width as int)
                    &&& tasks@[k].j == height - 1 - k / (width as int)
                },
        decreases jj,
    {
        jj = jj - 1;
        let row: usize = height - 1 - jj;
        proof {
            assert((row + 1) * width == row * width + width) by (nonlinear_arith);
            assert(row * width + width <= height * width) by (nonlinear_arith)
                requires
                    row + 1 <= height,
                    1 <= width,
            ;
            assert(height * width == width * height) by (nonlinear_arith);
        }
        let base: usize = row * width;
        let mut i: usize = 0;
        while i < width
            invariant
                i <= width,
                jj < height,
                row == height - 1 - jj,
                base == row * width,
                base + width <= width * height,
                width * height <= usize::MAX,
                1 <= width,
                tasks@.len() == base + i,
                forall|k: int|
                    0 <= k < tasks@.len() ==> {
                        &&& (#[trigger] tasks@[k]).index == k
                        &&& tasks@[k].i == k % (width as int)
                        &&& tasks@[k].j == height - 1 - k / (width as int)
                    },
            decreases width - i,
        {
            let idx: usize = tasks.len();
            proof {
                lemma_fundamental_div_mod_converse_div(
                    idx as int,
                    width as int,
                    row as int,
                    i as int,
                );
                vstd::arithmetic::div_mod::lemma_fundamental_div_mod_converse_mod(
                    idx as int,
                    width as int,
                    row as int,
                    i as int,
                );
                assert(idx as int == (row as int) * (width as int) + i as int) by (nonlinear_arith)
                    requires
                        idx == base + i,
                        base == row * width,
                ;
            }
            tasks.push(Task { i, j: jj, index: idx });
            i = i + 1;
        }
        proof {
            assert((height - jj) * width == row * width + width) by (nonlinear_arith)
                requires
                    row == height - 1 - jj,
            ;
        }
    }
    proof {
        assert((height - 0) * width == width * height) by (nonlinear_arith);
    }
    tasks
}

/// Every output index below `width * height` belongs to exactly one
/// enumerated task: the one at that position.  Together with the
/// assembly step, which fails if any slot is missing, a full render
/// fills every index exactly once.
pub proof fn lemma_scheduler_completeness(tasks: Seq<Task>, width: int, height: int)
    requires
        tasks.len() == width * height,
        forall|k: int| 0 <= k < tasks.len() ==> (#[trigger] tasks[k]).index == k,
    ensures
        forall|idx: int| 0 <= idx < width * height ==> (#[trigger] tasks[idx]).index == idx,
        forall|k1: int, k2: int|
            0 <= k1 < k2 < tasks.len() ==> (#[trigger] tasks[k1]).index != (
            #[trigger] tasks[k2]).index,
{
}

/// Renders one pixel: `samples_per_pixel` jittered camera rays through
/// the pixel, traced through the scene and summed.  Each channel of the
/// sum stays within the sample count.
pub fn render_pixel(
    rng: &mut RandSource,
    cam: &Camera,
    world: &HittableList,
    i: usize,
    j: usize,
    width: usize,
    height: usize,
    samples_per_pixel: i64,
    max_depth: i64,
) -> (color: Color)
    requires
        camera_ok(*cam),
        world_ok(*world),
        2 <= width <= 100000,
        2 <= height <= 100000,
        i < width,
        j < height,
        1 <= samples_per_pixel <= 100000,
    ensures
        0 <= color.x <= samples_per_pixel * FRAC,
        0 <= color.y <= samples_per_pixel * FRAC,
        0 <= color.z <= samples_per_pixel * FRAC,
{
    let mut pixel_color = Vec3 { x: 0, y: 0, z: 0 };
    let mut s: i64 = 0;
    while s < samples_per_pixel
        invariant
            0 <= s <= samples_per_pixel,
            1 <= samples_per_pixel <= 100000,
            camera_ok(*cam),
            world_ok(*world),
            2 <= width <= 100000,
            2 <= height <= 100000,
            i < width,
            j < height,
            0 <= pixel_color.x <= s * FRAC,
            0 <= pixel_color.y <= s * FRAC,
            0 <= pixel_color.z <= s * FRAC,
        decreases samples_per_pixel - s,
    {
        let du = random_01(rng);
        let dv = random_01(rng);
        let u = sub_pixel_coord(i, width, du);
        let v = sub_pixel_coord(j, height, dv);
        let r = cam.get_ray(rng, u, v);
        let c = ray_color(rng, &r, world, max_depth);
        proof {
            assert((s + 1) * FRAC == s * FRAC + FRAC) by (nonlinear_arith);
        }
        pixel_color = pixel_color.plus(&c);
        s = s + 1;
    }
    pixel_color
}

/// The jittered viewport coordinate `(p + u) / (extent - 1)` for a pixel
/// position `p`, a sub-pixel offset `u` in `[0, 1)`, and the image
/// extent; it never exceeds two.
fn sub_pixel_coord(p: usize, extent: usize, u: i64) -> (r: i64)
    requires
        2 <= extent <= 100000,
        p < extent,
        0 <= u < FRAC,
    ensures
        0 <= r <= 2 * FRAC,
        r == fdiv_s((p as int) * FRAC + u, (extent as int - 1) * FRAC),
{
    let num: i64 = (p as i64) * FRAC + u;
    let den: i64 = (extent as i64 - 1) * FRAC;
    proof {
        let ni = num as int;
        let di = den as int;
        let f = FRAC as int;
        lemma_div_range(ni * f, di);
        assert(ni * f <= 2 * f * di) by (nonlinear_arith)
            requires
                ni <= (extent as int) * f,
                di == (extent as int - 1) * f,
                2 <= extent as int,
                f == 65536,
        ;
        vstd::arithmetic::div_mod::lemma_div_is_ordered(ni * f, 2 * f * di, di);
        vstd::arithmetic::div_mod::lemma_div_multiples_vanish(2 * f, di);
        assert(2 * f * di == di * (2 * f)) by (nonlinear_arith);
    }
    fdiv(num, den)
}

/// The per-pixel results of a render, indexed by task position.  Slots
/// are written independently by workers and read back in order; a
/// missing slot is detected at assembly instead of being skipped.
pub struct PixelResults {
    pub slots: Vec<Option<String>>,
}

impl PixelResults {
    /// A container with one empty slot per pixel.
    pub fn new(n: usize) -> (r: Self)
        ensures
            r.slots@.len() == n,
            forall|k: int| 0 <= k < n ==> (#[trigger] r.slots@[k]) is None,
    {
        let mut slots: Vec<Option<String>> = Vec::new();
        let mut k: usize = 0;
        while k < n
            invariant
                k <= n,
                slots@.len() == k,
                forall|q: int| 0 <= q < k ==> (#[trigger] slots@[q]) is None,
            decreases n - k,
        {
            slots.push(None);
            k = k + 1;
        }
        PixelResults { slots }
    }

    /// Records the formatted color of one pixel at its output index,
    /// leaving every other slot unchanged.
    pub fn set(&mut self, index: usize, line: String)
        requires
            index < old(self).slots@.len(),
        ensures
            final(self).slots@.len() == old(self).slots@.len(),
            final(self).slots@[index as int] == Some(line),
            forall|k: int|
                0 <= k < old(self).slots@.len() && k != index ==> final(self).slots@[k] == old(
                    self,
                ).slots@[k],
    {
        self.slots.set(index, Some(line));
    }

    /// Reads the results back in index order.  The assembly fails -
    /// returning `None` - exactly when some pixel never received a
    /// value, so a lost worker cannot go unnoticed.
    pub fn assemble(&self) -> (result: Option<Vec<String>>)
        ensures
            (result is Some) == (forall|k: int|
                0 <= k < self.slots@.len() ==> (#[trigger] self.slots@[k]) is Some),
            result matches Some(v) ==> {
                &&& v@.len() == self.slots@.len()
                &&& forall|k: int|
                    0 <= k < v@.len() ==> (#[trigger] self.slots@[k]) is Some && v@[k]@
                        == self.slots@[k].unwrap()@
            },
    {
        let n = self.slots.len();
        let mut out: Vec<String> = Vec::new();
        let mut k: usize = 0;
        while k < n
            invariant
                k <= n,
                n == self.slots@.len(),
                out@.len() == k,
                forall|q: int|
                    0 <= q < k ==> (#[trigger] self.slots@[q]) is Some && out@[q]@
                        == self.slots@[q].unwrap()@,
            decreases n - k,
        {
            match &self.slots[k] {
                Some(line) => {
                    out.push(line.clone());
                },
                None => {
                    return None;
                },
            }
            k = k + 1;
        }
        Some(out)
    }
}

} // verus!
