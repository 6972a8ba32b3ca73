//! Output path policy: where each merged tile of each scale is written.

use vstd::prelude::*;

use crate::numfmt::int_chars;
use crate::numfmt::push_char;
use crate::numfmt::push_i32;

verus! {

use vstd::string::StringExecFns;

/// Truncating (round-toward-zero) signed division, the meaning of `/` on
/// machine integers.
pub open spec fn div_trunc(a: int, b: int) -> int {
    if a >= 0 && b > 0 {
        a / b
    } else if a < 0 && b < 0 {
        (-a) / (-b)
    } else if a < 0 {
        -((-a) / b)
    } else {
        -(a / (-b))
    }
}

/// A strategy mapping a tile coordinate and scale to its output path.
pub trait PathGenerator {
    /// The coarsest scale this policy covers.
    spec fn spec_max_scale(&self) -> int;

    /// The path, as characters, for a tile.
    spec fn spec_path(&self, x: int, z: int, scale: int) -> Seq<char>;

    /// What `generate` demands of its arguments.
    spec fn gen_req(&self, x: int, z: int, scale: int) -> bool;

    fn get_max_scale(&self) -> (r: i32)
        ensures
            r == self.spec_max_scale(),
    ;

    fn set_max_scale(&mut self, s: i32)
        ensures
            final(self).spec_max_scale() == s,
    ;

    fn generate(&self, x: i32, z: i32, scale: i32) -> (r: String)
        requires
            self.gen_req(x as int, z as int, scale as int),
        ensures
            r@ == self.spec_path(x as int, z as int, scale as int),
    ;
}

/// The layer policy: scale `s` is written under the directory numbered
/// `start + step * s`, stepping by a signed increment so zoom labels may
/// grow or shrink with the scale.
pub struct Layer {
    root: String,
    start: i32,
    step: i32,
    max_scale: i32,
}

impl Layer {
    /// The root directory of the pyramid.
    pub closed spec fn spec_root(&self) -> Seq<char> {
        self.root@
    }

    /// The first scale's zoom label.
    pub closed spec fn spec_start(&self) -> int {
        self.start as int
    }

    /// The signed zoom step per scale.
    pub closed spec fn spec_step(&self) -> int {
        self.step as int
    }

    /// The stored coarsest scale.
    pub closed spec fn spec_ms(&self) -> int {
        self.max_scale as int
    }

    /// Builds the policy; the coarsest scale is how many steps it takes from
    /// the start zoom to the stop zoom.
    pub fn new(start: i32, step: i32, stop: i32, root: String) -> (r: Self)
        requires
            step != 0,
            i32::MIN <= stop - start <= i32::MAX,
            !(stop - start == i32::MIN && step == -1),
            i32::MIN <= div_trunc(stop as int - start as int, step as int) <= i32::MAX,
        ensures
            r.spec_root() == root@,
            r.spec_start() == start,
            r.spec_step() == step,
            r.spec_max_scale() == div_trunc(stop as int - start as int, step as int),
    {
        let a: i64 = (stop as i64) - (start as i64);
        let b: i64 = step as i64;
        let q64: i64 = if a >= 0 && b > 0 {
            a / b
        } else if a < 0 && b < 0 {
            (-a) / (-b)
        } else if a < 0 {
            -((-a) / b)
        } else {
            -(a / (-b))
        };
        proof {
            assert(q64 as int == div_trunc(a as int, b as int));
        }
        let q = q64 as i32;
        Layer { root, start, step, max_scale: q }
    }
}

impl PathGenerator for Layer {
    open spec fn spec_max_scale(&self) -> int {
        self.spec_ms()
    }

    /// `root/<start + step * scale>/<x>,<z>.png`.
    open spec fn spec_path(&self, x: int, z: int, scale: int) -> Seq<char> {
        self.spec_root() + seq!['/'] + int_chars(self.spec_start() + self.spec_step() * scale)
            + seq!['/'] + int_chars(x) + seq![','] + int_chars(z) + seq!['.', 'p', 'n', 'g']
    }

    /// The zoom label must stay representable.
    open spec fn gen_req(&self, x: int, z: int, scale: int) -> bool {
        i32::MIN <= self.spec_start() + self.spec_step() * scale <= i32::MAX
    }

    fn get_max_scale(&self) -> (r: i32) {
        self.max_scale
    }

    fn set_max_scale(&mut self, s: i32) {
        self.max_scale = s;
    }

    fn generate(&self, x: i32, z: i32, scale: i32) -> (r: String) {
        let zoom64: i64 = self.start as i64 + (self.step as i64) * (scale as i64);
        let zoom: i32 = zoom64 as i32;
        let mut s = self.root.clone();
        push_char(&mut s, '/');
        push_i32(&mut s, zoom);
        push_char(&mut s, '/');
        push_i32(&mut s, x);
        push_char(&mut s, ',');
        push_i32(&mut s, z);
        push_char(&mut s, '.');
        push_char(&mut s, 'p');
        push_char(&mut s, 'n');
        push_char(&mut s, 'g');
        proof {
            assert(zoom as int == self.spec_start() + self.spec_step() * (scale as int));
            assert(s@ =~= self.spec_root() + seq!['/'] + int_chars(
                self.spec_start() + self.spec_step() * (scale as int),
            ) + seq!['/'] + int_chars(x as int) + seq![','] + int_chars(z as int) + seq![
                '.',
                'p',
                'n',
                'g',
            ]);
        }
        s
    }
}

/// The quadtree-directory policy's configuration; no generator is built from
/// it here.
pub struct Tree {
    pub root: String,
    pub max_scale: i32,
    pub topleft: String,
    pub topright: String,
    pub bottomleft: String,
    pub bottomright: String,
}

} // verus!
