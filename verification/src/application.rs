//! Batch-render bookkeeping: the per-tile task records, the render knobs,
//! and the static division of a task list into per-thread slices.

use vstd::prelude::*;

use crate::render::RenderOptions;

verus! {

use vstd::string::StringExecFns;

/// One render job: the archive to read, the raster to write, and the tile's
/// coordinates.
#[derive(Debug)]
pub struct RenderTask {
    pub src: String,
    pub tgt: String,
    pub tile_id: (i32, i32),
}

/// Settings of the batch render stage.
pub struct AppOptions {
    pub render_options: RenderOptions,
    pub input_folder: String,
    pub output_folder: String,
    pub thread_num: usize,
}

impl Default for AppOptions {
    /// Single-threaded, with default rendering knobs and empty folders.
    fn default() -> (r: Self)
        ensures
            r.thread_num == 1,
            r.render_options.gamma_table is None,
            r.render_options.env_light == 15,
            r.input_folder@.len() == 0,
            r.output_folder@.len() == 0,
    {
        AppOptions {
            render_options: RenderOptions::default(),
            input_folder: String::new(),
            output_folder: String::new(),
            thread_num: 1,
        }
    }
}

impl AppOptions {
    /// The rendering knobs, for adjustment.
    pub fn render_option_mut(&mut self) -> (r: &mut RenderOptions)
        ensures
            *r == old(self).render_options,
            *final(self) == (AppOptions { render_options: *final(r), ..*old(self) }),
    {
        &mut self.render_options
    }

    pub fn set_thread_num(&mut self, thread_num: usize)
        ensures
            *final(self) == (AppOptions { thread_num, ..*old(self) }),
    {
        self.thread_num = thread_num;
    }

    pub fn set_input_folder(&mut self, path: &str)
        ensures
            final(self).input_folder@ == path@,
            final(self).output_folder == old(self).output_folder,
            final(self).thread_num == old(self).thread_num,
            final(self).render_options == old(self).render_options,
    {
        self.input_folder = String::from_str(path);
    }

    pub fn set_output_folder(&mut self, path: &str)
        ensures
            final(self).output_folder@ == path@,
            final(self).input_folder == old(self).input_folder,
            final(self).thread_num == old(self).thread_num,
            final(self).render_options == old(self).render_options,
    {
        self.output_folder = String::from_str(path);
    }
}

/// The slice size the render stage hands each worker: the task count divided
/// by the thread count, rounded up, and at least 1.
pub open spec fn spec_slice_size(n: int, threads: int) -> int {
    let d = (n + threads - 1) / threads;
    if d >= 1 {
        d
    } else {
        1
    }
}

/// Cuts the flat task list into contiguous per-thread slices of
/// [`spec_slice_size`] entries, the last possibly shorter; together the
/// slices are the original list in order.
#[verifier::loop_isolation(false)]
pub fn slice_tasks(tasks: Vec<RenderTask>, thread_num: usize) -> (r: Vec<Vec<RenderTask>>)
    requires
        thread_num >= 1,
        tasks@.len() <= usize::MAX / 2,
        thread_num <= usize::MAX / 2,
    ensures
        ({
            let n = tasks@.len() as int;
            let d = spec_slice_size(n, thread_num as int);
            &&& r@.len() == (if n == 0 {
                0int
            } else {
                (n + d - 1) / d
            })
            &&& forall|k: int|
                0 <= k < r@.len() ==> (#[trigger] r@[k]@) =~= tasks@.subrange(
                    k * d,
                    if (k + 1) * d <= n {
                        (k + 1) * d
                    } else {
                        n
                    },
                )
        }),
{
    let n = tasks.len();
    let d0 = (n + thread_num - 1) / thread_num;
    let divide: usize = if d0 >= 1 {
        d0
    } else {
        1
    };
    let ghost dd = divide as int;
    let mut r: Vec<Vec<RenderTask>> = Vec::new();
    if n == 0 {
        return r;
    }
    proof {
        assert(d0 <= n) by (nonlinear_arith)
            requires
                d0 == (n as int + thread_num as int - 1) / (thread_num as int),
                n >= 1,
                thread_num >= 1,
        ;
    }
    let count = (n + divide - 1) / divide;
    proof {
        vstd::arithmetic::div_mod::lemma_fundamental_div_mod(n as int + dd - 1, dd);
        assert(dd * ((n as int + dd - 1) / dd) == n + dd - 1 - ((n as int + dd - 1) % dd));
        assert(count as int * dd == dd * (count as int)) by (nonlinear_arith);
        assert((count as int - 1) * dd == dd * (count as int) - dd) by (nonlinear_arith);
        assert((count as int - 1) * dd < n <= count as int * dd);
    }
    let mut tasks = tasks;
    let ghost tasks0 = tasks@;
    let mut k: usize = 0;
    while k < count
        invariant
            0 <= k <= count,
            dd >= 1,
            n == tasks0.len(),
            n >= 1,
            (count - 1) * dd < n <= count * dd,
            k < count ==> k * dd <= n,
            tasks@ =~= tasks0.subrange(
                if k * dd <= n {
                    k as int * dd
                } else {
                    n as int
                },
                n as int,
            ),
            r@.len() == k,
            forall|j: int|
                0 <= j < k ==> (#[trigger] r@[j]@) =~= tasks0.subrange(
                    j * dd,
                    if (j + 1) * dd <= n {
                        (j + 1) * dd
                    } else {
                        n as int
                    },
                ),
        decreases count - k,
    {
        proof {
            assert(k as int * dd <= (count as int - 1) * dd) by (nonlinear_arith)
                requires
                    k as int <= count as int - 1,
                    dd >= 1,
            ;
            assert((k as int + 1) * dd == k as int * dd + dd) by (nonlinear_arith);
        }
        let start = k * divide;
        let remaining = n - start;
        let step: usize = if divide <= remaining {
            divide
        } else {
            remaining
        };
        let mut slice: Vec<RenderTask> = Vec::new();
        let mut j: usize = 0;
        while j < step
            invariant
                0 <= j <= step,
                step - j <= tasks@.len(),
                0 <= start,
                start + step <= n,
                tasks@ =~= tasks0.subrange(start as int + j, n as int),
                slice@ =~= tasks0.subrange(start as int, start as int + j),
            decreases step - j,
        {
            let t = tasks.remove(0);
            slice.push(t);
            proof {
                assert(tasks@ =~= tasks0.subrange(start as int + j + 1, n as int));
                assert(slice@ =~= tasks0.subrange(start as int, start as int + j + 1));
            }
            j = j + 1;
        }
        r.push(slice);
        k = k + 1;
        proof {
            if k < count {
                assert(k as int * dd <= (count as int - 1) * dd) by (nonlinear_arith)
                    requires
                        k as int <= count as int - 1,
                        dd >= 1,
                ;
            }
            assert(r@[k - 1]@ =~= tasks0.subrange(
                (k - 1) * dd,
                if k as int * dd <= n {
                    k as int * dd
                } else {
                    n as int
                },
            ));
        }
    }
    proof {
        assert(dd == spec_slice_size(n as int, thread_num as int));
    }
    r
}

} // verus!
