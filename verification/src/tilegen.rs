//! Quadtree pyramid assembly: tile identities, the post-order walk, and the
//! bookkeeping that partitions tiles into quadrants before merging.

pub mod pathgen;
pub mod tile;

use vstd::prelude::*;

use crate::color::blockstate::assoc_map;
use crate::numfmt::parse_i32;
use crate::numfmt::parse_i32_spec;
use crate::raster::Filter;
use crate::raster::LoadableImage;
use crate::raster::spec_merge_dims;
use crate::text::bytes_eq;
use crate::text::find_byte;
use crate::text::first_index;
use crate::text::slice_subrange;
use crate::tilegen::pathgen::Layer;
use crate::tilegen::pathgen::PathGenerator;
use crate::tilegen::pathgen::div_trunc;
use crate::tilegen::tile::TileId;

verus! {

use vstd::std_specs::bits::u32_leading_zeros;
use vstd::string::StringSliceAdditionalSpecFns;

/// The bounding box of a set of tile coordinates; a fresh bound is the empty
/// box with the minima above the maxima.
pub struct Bound {
    pub xmin: i32,
    pub xmax: i32,
    pub zmin: i32,
    pub zmax: i32,
}

impl Bound {
    pub fn new() -> (r: Self)
        ensures
            r.xmin == 0 && r.xmax == -1 && r.zmin == 0 && r.zmax == -1,
    {
        Bound { xmin: 0, xmax: -1, zmin: 0, zmax: -1 }
    }

    /// Widens the box to cover one more tile.
    pub fn extend(&mut self, tile: &TileId)
        ensures
            final(self).xmin == (if tile.x < old(self).xmin {
                tile.x
            } else {
                old(self).xmin
            }),
            final(self).xmax == (if tile.x > old(self).xmax {
                tile.x
            } else {
                old(self).xmax
            }),
            final(self).zmin == (if tile.z < old(self).zmin {
                tile.z
            } else {
                old(self).zmin
            }),
            final(self).zmax == (if tile.z > old(self).zmax {
                tile.z
            } else {
                old(self).zmax
            }),
    {
        if tile.x < self.xmin {
            self.xmin = tile.x;
        }
        if tile.x > self.xmax {
            self.xmax = tile.x;
        }
        if tile.z < self.zmin {
            self.zmin = tile.z;
        }
        if tile.z > self.zmax {
            self.zmax = tile.z;
        }
    }
}

/// The bit position above the highest set bit of `x - 1`: the number of
/// doublings needed to reach `x`, the ceiling of the base-2 logarithm for
/// `x >= 2`.
pub open spec fn spec_ceil_log2(x: int) -> int {
    32 - u32_leading_zeros(((x - 1) as i32) as u32)
}

/// Computes [`spec_ceil_log2`].
pub fn ceil_log2(x: i32) -> (r: i32)
    requires
        x > i32::MIN,
    ensures
        r == spec_ceil_log2(x as int),
{
    let u = (x - 1) as u32;
    proof {
        vstd::std_specs::bits::axiom_u32_leading_zeros(u);
    }
    32 - (u.leading_zeros() as i32)
}

/// Why a path-mode expression was rejected: a bad minimum zoom, a bad
/// maximum zoom, or an unknown mode name.
#[derive(Clone, Copy, PartialEq, Eq, Structural, Debug)]
pub enum PathModeError {
    MinZoom,
    MaxZoom,
    Unsupported,
}

/// An output path policy choice: numbered zoom layers, ascending or
/// descending with the scale, or a quadtree directory per tile.
#[derive(Debug)]
pub enum PathMode {
    Layer { reverse: bool, min_zoom: Option<i32>, max_zoom: Option<i32> },
    Tree {},
}

/// What parsing a path-mode expression yields: the `layer+` form takes
/// `minZoom[,maxZoom]`, the `layer-` form `maxZoom[,minZoom]`.
pub open spec fn spec_path_mode(s: Seq<u8>) -> Result<(bool, Option<int>, Option<int>), PathModeError> {
    let i = first_index(s, 58);
    let mode = if i < 0 {
        s
    } else {
        s.take(i)
    };
    if mode == "layer+".spec_bytes() {
        if i < 0 {
            Ok((false, None::<int>, None::<int>))
        } else {
            let params = s.skip(i + 1);
            let j = first_index(params, 44);
            if j < 0 {
                match parse_i32_spec(params) {
                    Some(mz) => Ok((false, Some(mz), None::<int>)),
                    None => Err(PathModeError::MinZoom),
                }
            } else {
                match parse_i32_spec(params.take(j)) {
                    Some(mz) => match parse_i32_spec(params.skip(j + 1)) {
                        Some(xz) => Ok((false, Some(mz), Some(xz))),
                        None => Err(PathModeError::MaxZoom),
                    },
                    None => Err(PathModeError::MinZoom),
                }
            }
        }
    } else if mode == "layer-".spec_bytes() {
        if i < 0 {
            Ok((true, None::<int>, None::<int>))
        } else {
            let params = s.skip(i + 1);
            let j = first_index(params, 44);
            if j < 0 {
                match parse_i32_spec(params) {
                    Some(mz) => Ok((true, Some(mz), None::<int>)),
                    None => Err(PathModeError::MaxZoom),
                }
            } else {
                match parse_i32_spec(params.take(j)) {
                    Some(xz) => match parse_i32_spec(params.skip(j + 1)) {
                        Some(mz) => Ok((true, Some(mz), Some(xz))),
                        None => Err(PathModeError::MinZoom),
                    },
                    None => Err(PathModeError::MaxZoom),
                }
            }
        }
    } else {
        Err(PathModeError::Unsupported)
    }
}

impl PathMode {
    /// Parses a path-mode expression, as [`spec_path_mode`] describes. The
    /// `layer-` form given one parameter reads it as the minimum zoom with
    /// the maximum left open.
    pub fn parse_mode(s: &[u8]) -> (r: Result<PathMode, PathModeError>)
        ensures
            match r {
                Ok(m) => m matches PathMode::Layer { reverse, min_zoom, max_zoom }
                    && spec_path_mode(s@) matches Ok(t) && t.0 == reverse && (match min_zoom {
                    Some(v) => t.1 == Some(v as int),
                    None => t.1 is None,
                }) && (match max_zoom {
                    Some(v) => t.2 == Some(v as int),
                    None => t.2 is None,
                }),
                Err(e) => spec_path_mode(s@) == Err::<(bool, Option<int>, Option<int>), PathModeError>(e),
            },
    {
        let n = s.len();
        let (mode, params): (&[u8], Option<&[u8]>) = match find_byte(s, 58) {
            Some(i) => {
                proof {
                    crate::text::lemma_first_index(s@, 58);
                }
                (slice_subrange(s, 0, i), Some(slice_subrange(s, i + 1, n)))
            },
            None => (slice_subrange(s, 0, n), None),
        };
        proof {
            let i = first_index(s@, 58);
            if i >= 0 {
                assert(mode@ =~= s@.take(i));
                assert(s@.subrange(i + 1, s@.len() as int) =~= s@.skip(i + 1));
            } else {
                assert(mode@ =~= s@);
            }
        }
        let reverse: bool = if bytes_eq(mode, "layer+".as_bytes()) {
            false
        } else if bytes_eq(mode, "layer-".as_bytes()) {
            true
        } else {
            return Err(PathModeError::Unsupported);
        };
        let params = match params {
            None => {
                return Ok(PathMode::Layer { reverse, min_zoom: None, max_zoom: None });
            },
            Some(p) => p,
        };
        let pn = params.len();
        let (first, second): (&[u8], Option<&[u8]>) = match find_byte(params, 44) {
            Some(j) => {
                proof {
                    crate::text::lemma_first_index(params@, 44);
                }
                (slice_subrange(params, 0, j), Some(slice_subrange(params, j + 1, pn)))
            },
            None => (slice_subrange(params, 0, pn), None),
        };
        proof {
            let j = first_index(params@, 44);
            if j >= 0 {
                assert(first@ =~= params@.take(j));
                assert(params@.subrange(j + 1, params@.len() as int) =~= params@.skip(j + 1));
            } else {
                assert(first@ =~= params@);
            }
        }
        if !reverse {
            let mz = match parse_i32(first) {
                Some(v) => v,
                None => {
                    return Err(PathModeError::MinZoom);
                },
            };
            match second {
                None => Ok(PathMode::Layer { reverse, min_zoom: Some(mz), max_zoom: None }),
                Some(sec) => {
                    match parse_i32(sec) {
                        Some(xz) => Ok(
                            PathMode::Layer { reverse, min_zoom: Some(mz), max_zoom: Some(xz) },
                        ),
                        None => Err(PathModeError::MaxZoom),
                    }
                },
            }
        } else {
            let first_val = match parse_i32(first) {
                Some(v) => v,
                None => {
                    return Err(PathModeError::MaxZoom);
                },
            };
            match second {
                None => Ok(PathMode::Layer { reverse, min_zoom: Some(first_val), max_zoom: None }),
                Some(sec) => {
                    match parse_i32(sec) {
                        Some(mz) => Ok(
                            PathMode::Layer {
                                reverse,
                                min_zoom: Some(mz),
                                max_zoom: Some(first_val),
                            },
                        ),
                        None => Err(PathModeError::MinZoom),
                    }
                },
            }
        }
    }

    /// Builds the layer policy this mode describes: an open minimum zoom
    /// defaults to 0, an open maximum is derived from the widest coordinate
    /// of the bound, and the reverse form steps the zoom label down as the
    /// scale grows.
    pub fn extract(&self, bound: &Bound, root: String) -> (r: Layer)
        requires
            *self is Layer,
            bound.xmin > i32::MIN && bound.xmax > i32::MIN && bound.zmin > i32::MIN && bound.zmax
                > i32::MIN,
            (match self->Layer_min_zoom {
                Some(v) => -0x1000_0000 <= v <= 0x1000_0000,
                None => true,
            }),
            (match self->Layer_max_zoom {
                Some(v) => -0x1000_0000 <= v <= 0x1000_0000,
                None => true,
            }),
        ensures
            ({
                let mz = match self->Layer_min_zoom {
                    Some(v) => v as int,
                    None => 0,
                };
                let xz = match self->Layer_max_zoom {
                    Some(v) => v as int,
                    None => mz + spec_ceil_log2(
                        spec_max4(
                            spec_abs(bound.xmin as int),
                            spec_abs(bound.xmax as int),
                            spec_abs(bound.zmin as int),
                            spec_abs(bound.zmax as int),
                        ),
                    ),
                };
                &&& r.spec_root() == root@
                &&& (self->Layer_reverse ==> r.spec_start() == xz && r.spec_step() == -1
                    && r.spec_max_scale() == div_trunc(mz - xz, -1))
                &&& (!self->Layer_reverse ==> r.spec_start() == mz && r.spec_step() == 1
                    && r.spec_max_scale() == div_trunc(xz - mz, 1))
            }),
    {
        match self {
            PathMode::Layer { reverse, min_zoom, max_zoom } => {
                let mz: i32 = match min_zoom {
                    Some(v) => *v,
                    None => 0,
                };
                let xz: i32 = match max_zoom {
                    Some(v) => *v,
                    None => {
                        let ax = abs_max(bound.xmin, bound.xmax);
                        let az = abs_max(bound.zmin, bound.zmax);
                        let m = if ax >= az {
                            ax
                        } else {
                            az
                        };
                        proof {
                            vstd::std_specs::bits::axiom_u32_leading_zeros(((m - 1) as i32) as u32);
                        }
                        mz + ceil_log2(m)
                    },
                };
                if *reverse {
                    Layer::new(xz, -1, mz, root)
                } else {
                    Layer::new(mz, 1, xz, root)
                }
            },
            PathMode::Tree {  } => {
                proof {
                    assert(false);
                }
                Layer::new(0, 1, 0, root)
            },
        }
    }
}

/// The absolute value.
pub open spec fn spec_abs(v: int) -> int {
    if v < 0 {
        -v
    } else {
        v
    }
}

/// The largest of four values.
pub open spec fn spec_max4(a: int, b: int, c: int, d: int) -> int {
    let ab = if a >= b {
        a
    } else {
        b
    };
    let cd = if c >= d {
        c
    } else {
        d
    };
    if ab >= cd {
        ab
    } else {
        cd
    }
}

/// The larger absolute value of two coordinates.
fn abs_max(a: i32, b: i32) -> (r: i32)
    requires
        a > i32::MIN,
        b > i32::MIN,
    ensures
        r == (if spec_abs(a as int) >= spec_abs(b as int) {
            spec_abs(a as int)
        } else {
            spec_abs(b as int)
        }),
{
    let aa = if a < 0 {
        -a
    } else {
        a
    };
    let bb = if b < 0 {
        -b
    } else {
        b
    };
    if aa >= bb {
        aa
    } else {
        bb
    }
}

/// The working cache of one quadrant's walk: each tile id holds at most one
/// image.
pub struct TileCache {
    entries: Vec<(TileId, LoadableImage)>,
}

impl TileCache {
    /// The cache as an association sequence.
    pub closed spec fn entries_seq(self) -> Seq<(TileId, LoadableImage)> {
        self.entries@
    }

    /// The cache as a map.
    pub open spec fn view_map(self) -> Map<TileId, LoadableImage> {
        assoc_map(self.entries_seq())
    }

    /// Ids are unique and every held raster is a well-formed tile of a
    /// bounded side.
    pub open spec fn wf(self) -> bool {
        &&& crate::color::blockstate::distinct_keys(self.entries_seq())
        &&& forall|i: int|
            0 <= i < self.entries_seq().len() ==> img_ok((#[trigger] self.entries_seq()[i]).1)
    }

    pub fn new() -> (r: Self)
        ensures
            r.wf(),
            r.view_map() == Map::<TileId, LoadableImage>::empty(),
            r.len() == 0,
    {
        let r = TileCache { entries: Vec::new() };
        proof {
            assert(r.entries_seq() =~= Seq::<(TileId, LoadableImage)>::empty());
        }
        r
    }

    /// How many tiles the cache holds.
    pub open spec fn len(self) -> nat {
        self.entries_seq().len()
    }

    /// The number of held tiles.
    pub fn count(&self) -> (r: usize)
        ensures
            r == self.len(),
    {
        self.entries.len()
    }

    /// Stores an image under an id not yet present.
    pub fn insert(&mut self, id: TileId, img: LoadableImage)
        requires
            old(self).wf(),
            !old(self).view_map().dom().contains(id),
            img_ok(img),
        ensures
            final(self).wf(),
            final(self).view_map() == old(self).view_map().insert(id, img),
            final(self).len() == old(self).len() + 1,
    {
        proof {
            let s = self.entries_seq();
            assert forall|i: int| 0 <= i < s.len() implies (#[trigger] s[i]).0 != id by {
                if s[i].0 == id {
                    crate::color::blockstate::lemma_assoc_map_index(s, i);
                }
            }
            crate::color::blockstate::lemma_assoc_map_insert_at(
                s,
                s.len() as int,
                id,
                img,
            );
            assert(s.insert(s.len() as int, (id, img)) =~= s.push((id, img)));
        }
        self.entries.push((id, img));
        proof {
            assert(self.entries_seq() =~= old(self).entries_seq().push((id, img)));
        }
    }

    /// Removes and hands back the image under an id; the absence marker when
    /// the id is not cached.
    #[verifier::loop_isolation(false)]
    pub fn take(&mut self, id: &TileId) -> (r: LoadableImage)
        requires
            old(self).wf(),
        ensures
            final(self).wf(),
            final(self).view_map() == old(self).view_map().remove(*id),
            old(self).view_map().dom().contains(*id) ==> r == old(self).view_map()[*id]
                && final(self).len() == old(self).len() - 1,
            !old(self).view_map().dom().contains(*id) ==> r is Empty && final(self).len() == old(
                self,
            ).len(),
            img_ok(r),
    {
        let mut i: usize = 0;
        while i < self.entries.len()
            invariant
                0 <= i <= self.entries@.len(),
                *self == *old(self),
                forall|j: int| 0 <= j < i ==> (#[trigger] self.entries_seq()[j]).0 != *id,
            decreases self.entries@.len() - i,
        {
            if self.entries[i].0 == *id {
                proof {
                    crate::color::blockstate::lemma_assoc_map_index(self.entries_seq(), i as int);
                    crate::color::blockstate::lemma_assoc_map_remove_at(
                        self.entries_seq(),
                        i as int,
                    );
                }
                let entry = self.entries.remove(i);
                proof {
                    assert(self.entries_seq() =~= old(self).entries_seq().remove(i as int));
                }
                return entry.1;
            }
            i = i + 1;
        }
        proof {
            crate::color::blockstate::lemma_assoc_map_absent(self.entries_seq(), *id);
            assert(self.view_map().remove(*id) =~= self.view_map());
        }
        LoadableImage::Empty
    }
}

/// What the cache may hold: a well-formed raster whose side stays within the
/// supported tile size.
pub open spec fn img_ok(img: LoadableImage) -> bool {
    img matches LoadableImage::Image(r) ==> r.wf() && r.width <= 0x2000 && r.height <= 0x2000
}

/// Removes a node's four children from the cache and merges them into the
/// node's own image; absent children merge as the absence marker. The caller
/// writes the result and caches it under the node's id.
pub fn merge_children(cache: &mut TileCache, id: &TileId, filter: Filter) -> (r: LoadableImage)
    requires
        old(cache).wf(),
        i32::MIN < id.scale,
        i32::MIN / 2 <= id.x < i32::MAX / 2,
        i32::MIN / 2 <= id.z < i32::MAX / 2,
    ensures
        final(cache).wf(),
        img_ok(r),
        ({
            let m0 = old(cache).view_map();
            let tl = crate::tilegen::tile::spec_topleft(*id);
            let tr = crate::tilegen::tile::spec_topright(*id);
            let bl = crate::tilegen::tile::spec_bottomleft(*id);
            let br = crate::tilegen::tile::spec_bottomright(*id);
            let get = |m: Map<TileId, LoadableImage>, t: TileId|
                if m.dom().contains(t) {
                    m[t]
                } else {
                    LoadableImage::Empty
                };
            &&& final(cache).view_map() == m0.remove(bl).remove(br).remove(tl).remove(tr)
            &&& ({
                let itl = get(m0, tl);
                let itr = get(m0, tr);
                let ibl = get(m0, bl);
                let ibr = get(m0, br);
                let (w, h) = spec_merge_dims(itl, itr, ibl, ibr);
                &&& (w == 0 || h == 0) ==> r is Empty
                &&& w > 0 && h > 0 ==> (r matches LoadableImage::Image(out) && out.width == w
                    && out.height == h)
            })
        }),
{
    let bl = cache.take(&id.bottomleft());
    let br = cache.take(&id.bottomright());
    let tl = cache.take(&id.topleft());
    let tr = cache.take(&id.topright());
    proof {
        let d = spec_merge_dims(tl, tr, bl, br);
        assert(d.0 <= 0x2000 && d.1 <= 0x2000);
        assert(16 * d.0 * d.1 <= 0x4000_0000) by (nonlinear_arith)
            requires
                0 <= d.0 <= 0x2000,
                0 <= d.1 <= 0x2000,
        ;
    }
    LoadableImage::merge(&tl, &tr, &bl, &br, filter)
}

/// Knobs of the pyramid stage: the input and output directories, the
/// resampling filter, the path policy, whether to run the quadrants on their
/// own threads, and whether existing outputs are kept.
pub struct TileGeneratorOptions {
    pub filter: Filter,
    pub multi_thread_mode: bool,
    pub input_folder: String,
    pub output_folder: String,
    pub path_mode: PathMode,
    pub check: bool,
}

impl TileGeneratorOptions {
    pub fn new(input_folder: String, output_folder: String, path_mode: PathMode) -> (r: Self)
        ensures
            r.filter is Nearest,
            r.multi_thread_mode == false,
            r.check == false,
            r.input_folder@ == input_folder@,
            r.output_folder@ == output_folder@,
            r.path_mode == path_mode,
    {
        TileGeneratorOptions {
            filter: Filter::Nearest,
            multi_thread_mode: false,
            input_folder,
            output_folder,
            path_mode,
            check: false,
        }
    }

    /// Selects the resampling filter by its name; an unknown name keeps the
    /// current filter.
    pub fn set_filter(&mut self, filter: &[u8])
        ensures
            final(self).filter == (if filter@ == "nearest".spec_bytes() {
                Filter::Nearest
            } else if filter@ == "triangle".spec_bytes() {
                Filter::Triangle
            } else if filter@ == "gaussian".spec_bytes() {
                Filter::Gaussian
            } else if filter@ == "catmullrom".spec_bytes() {
                Filter::CatmullRom
            } else if filter@ == "lanczos3".spec_bytes() {
                Filter::Lanczos3
            } else {
                old(self).filter
            }),
            final(self).multi_thread_mode == old(self).multi_thread_mode,
            final(self).check == old(self).check,
            final(self).input_folder@ == old(self).input_folder@,
            final(self).output_folder@ == old(self).output_folder@,
            final(self).path_mode == old(self).path_mode,
    {
        if bytes_eq(filter, "nearest".as_bytes()) {
            self.filter = Filter::Nearest;
        } else if bytes_eq(filter, "triangle".as_bytes()) {
            self.filter = Filter::Triangle;
        } else if bytes_eq(filter, "gaussian".as_bytes()) {
            self.filter = Filter::Gaussian;
        } else if bytes_eq(filter, "catmullrom".as_bytes()) {
            self.filter = Filter::CatmullRom;
        } else if bytes_eq(filter, "lanczos3".as_bytes()) {
            self.filter = Filter::Lanczos3;
        }
    }

    pub fn set_multi_thread_mode(&mut self, mode: bool)
        ensures
            *final(self) == (TileGeneratorOptions { multi_thread_mode: mode, ..*old(self) }),
    {
        self.multi_thread_mode = mode;
    }

    pub fn set_check_exist(&mut self, check: bool)
        ensures
            *final(self) == (TileGeneratorOptions { check, ..*old(self) }),
    {
        self.check = check;
    }
}

impl core::str::FromStr for PathMode {
    type Err = PathModeError;

    /// Parses a path-mode expression from a string, as
    /// [`PathMode::parse_mode`] does on its bytes.
    fn from_str(s: &str) -> (r: Result<PathMode, PathModeError>) {
        PathMode::parse_mode(s.as_bytes())
    }
}

} // verus!
