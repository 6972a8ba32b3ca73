//! Color resolution: the bitmask condition engine that maps block state
//! predicates to colors, biome tinting, and the baked manager that combines
//! them for the renderer.

pub mod biome;
pub mod blockstate;
pub mod calculate;

use vstd::prelude::*;

use crate::color::biome::Biome;
use crate::color::biome::BiomeColor;
use crate::color::biome::InnerColor;
use crate::color::biome::spec_foliage_tint;
use crate::color::biome::spec_grass_tint;
use crate::color::biome::spec_water_tint;
use crate::color::blockstate::BlockState;
use crate::color::blockstate::assoc_map;
use crate::color::blockstate::distinct_keys;
use crate::color::blockstate::mp_hits;
use crate::color::blockstate::query_mask;
use crate::color::calculate::Rgba;
use crate::color::calculate::blend_of;
use crate::color::calculate::blend_px;
use crate::color::calculate::color_mul;
use crate::color::calculate::lemma_byte_mul_bound;
use crate::color::calculate::spec_color_mul;
use crate::text::bytes_eq;

verus! {

use vstd::string::StringSliceAdditionalSpecFns;

/// An [`Rgba`] from a channel tuple.
pub open spec fn rgba_of(t: (u8, u8, u8, u8)) -> Rgba {
    Rgba { r: t.0, g: t.1, b: t.2, a: t.3 }
}

/// The indices a block state table serves for a query.
pub open spec fn bs_result(bs: BlockState, q: Seq<Seq<u8>>) -> Seq<usize> {
    match bs {
        BlockState::Single(m) => seq![m],
        BlockState::Variants(e) => {
            let qm = query_mask(e.key_map(), q);
            if e.val_map().dom().contains(qm) {
                seq![e.val_map()[qm]]
            } else {
                Seq::empty()
            }
        },
        BlockState::MultiPart(e, g) => mp_hits(e.val_map(), g@, query_mask(e.key_map(), q)),
    }
}

/// Stable insertion of a weighted candidate: it lands after every candidate
/// whose weight does not exceed its own.
pub open spec fn ins_by_weight(s: Seq<(Rgba, u16)>, x: (Rgba, u16)) -> Seq<(Rgba, u16)>
    decreases s.len(),
{
    if s.len() == 0 {
        seq![x]
    } else if s.last().1 <= x.1 {
        s.push(x)
    } else {
        ins_by_weight(s.drop_last(), x).push(s.last())
    }
}

/// The stable sort by ascending weight, as repeated insertion.
pub open spec fn sort_by_weight(s: Seq<(Rgba, u16)>) -> Seq<(Rgba, u16)>
    decreases s.len(),
{
    if s.len() == 0 {
        Seq::empty()
    } else {
        ins_by_weight(sort_by_weight(s.drop_last()), s.last())
    }
}

/// A candidate color scaled down by its weight's share of the maximum.
pub open spec fn scale_candidate(c: Rgba, w: u16, max_w: u16) -> Rgba {
    Rgba {
        r: ((c.r as int * w as int) / (max_w as int)) as u8,
        g: ((c.g as int * w as int) / (max_w as int)) as u8,
        b: ((c.b as int * w as int) / (max_w as int)) as u8,
        a: ((c.a as int * w as int) / (max_w as int)) as u8,
    }
}

/// Back-to-front compositing of the weighted candidates: low-coverage
/// candidates (weight below a quarter of the maximum) are discarded, the
/// rest are scaled and blended in ascending weight order.
pub open spec fn weighted_fold(s: Seq<(Rgba, u16)>, max_w: u16) -> Rgba
    decreases s.len(),
{
    if s.len() == 0 {
        Rgba { r: 0, g: 0, b: 0, a: 0 }
    } else {
        let prev = weighted_fold(s.drop_last(), max_w);
        let (c, w) = s.last();
        if w * 4 < max_w {
            prev
        } else {
            rgba_of(blend_of(prev.tup(), scale_candidate(c, w, max_w).tup()))
        }
    }
}

/// Whether every index a block state can serve stays below `n`.
pub open spec fn bs_vals_ok(bs: BlockState, n: int) -> bool {
    match bs {
        BlockState::Single(m) => m < n,
        BlockState::Variants(e) => forall|k: usize|
            e.val_map().dom().contains(k) ==> #[trigger] e.val_map()[k] < n,
        BlockState::MultiPart(e, _) => forall|k: usize|
            e.val_map().dom().contains(k) ==> #[trigger] e.val_map()[k] < n,
    }
}

/// Every index served by a bounded block state is itself bounded.
proof fn lemma_bs_result_bounded(bs: BlockState, q: Seq<Seq<u8>>, n: int)
    requires
        bs_vals_ok(bs, n),
    ensures
        forall|i: int| 0 <= i < bs_result(bs, q).len() ==> #[trigger] bs_result(bs, q)[i] < n,
{
    match bs {
        BlockState::Single(_) => {
        },
        BlockState::Variants(_) => {
        },
        BlockState::MultiPart(e, g) => {
            lemma_mp_hits_bounded(e.val_map(), g@, query_mask(e.key_map(), q), n);
        },
    }
}

proof fn lemma_mp_hits_bounded(vm: Map<usize, usize>, groups: Seq<usize>, qm: usize, n: int)
    requires
        forall|k: usize| vm.dom().contains(k) ==> #[trigger] vm[k] < n,
    ensures
        forall|i: int| 0 <= i < mp_hits(vm, groups, qm).len() ==> #[trigger] mp_hits(vm, groups, qm)[i]
            < n,
    decreases groups.len(),
{
    if groups.len() > 0 {
        lemma_mp_hits_bounded(vm, groups.drop_last(), qm, n);
        let s = mp_hits(vm, groups, qm);
        let p = mp_hits(vm, groups.drop_last(), qm);
        assert forall|i: int| 0 <= i < s.len() implies s[i] < n by {
            if i < p.len() {
                assert(s[i] == p[i]);
            } else {
                let n0 = groups.last() & qm;
                assert(vm.dom().contains(n0));
                assert(s[i] == vm[n0]);
            }
        }
    }
}

/// The baked color manager: the master block-state index, the color and
/// weight palettes it points into, the biome tint tables, and the
/// precomputed basic water color.
pub struct BakedColorManager {
    index: Vec<(Vec<u8>, BlockState)>,
    colormap: Vec<Rgba>,
    weightmap: Vec<u8>,
    biome_color: BiomeColor,
    water_basic: (Rgba, u16),
}

impl BakedColorManager {
    /// The block-name-to-table index.
    pub closed spec fn index_seq(self) -> Seq<(Seq<u8>, BlockState)> {
        self.index@.map_values(|p: (Vec<u8>, BlockState)| (p.0@, p.1))
    }

    /// The index as a map.
    pub open spec fn index_map(self) -> Map<Seq<u8>, BlockState> {
        assoc_map(self.index_seq())
    }

    /// The color palette.
    pub closed spec fn colors(self) -> Seq<Rgba> {
        self.colormap@
    }

    /// The coverage-weight palette.
    pub closed spec fn weights(self) -> Seq<u8> {
        self.weightmap@
    }

    /// The biome tint tables.
    pub closed spec fn biome(self) -> BiomeColor {
        self.biome_color
    }

    /// The precomputed basic water color and its weight.
    pub closed spec fn water(self) -> (Rgba, u16) {
        self.water_basic
    }

    /// Well-formedness: unique block names, well-formed tables whose stored
    /// indices stay inside both palettes, and usable biome tables.
    pub closed spec fn wf(self) -> bool {
        &&& distinct_keys(self.index_seq())
        &&& forall|i: int|
            0 <= i < self.index_seq().len() ==> (#[trigger] self.index_seq()[i]).1.wf()
        &&& forall|i: int|
            0 <= i < self.index_seq().len() ==> bs_vals_ok(
                (#[trigger] self.index_seq()[i]).1,
                self.colors().len() as int,
            ) && bs_vals_ok(self.index_seq()[i].1, self.weights().len() as int)
        &&& self.biome_color.wf()
    }

    /// Looks a block name up in the index.
    #[verifier::loop_isolation(false)]
    fn find_state(&self, block: &[u8]) -> (r: Option<&BlockState>)
        requires
            self.wf(),
        ensures
            match r {
                Some(bs) => self.index_map().dom().contains(block@) && *bs == self.index_map()[block@]
                    && bs.wf() && bs_vals_ok(*bs, self.colors().len() as int) && bs_vals_ok(
                    *bs,
                    self.weights().len() as int,
                ),
                None => !self.index_map().dom().contains(block@),
            },
    {
        let mut i: usize = 0;
        while i < self.index.len()
            invariant
                0 <= i <= self.index@.len(),
                forall|j: int| 0 <= j < i ==> (#[trigger] self.index_seq()[j]).0 != block@,
            decreases self.index@.len() - i,
        {
            if bytes_eq(self.index[i].0.as_slice(), block) {
                proof {
                    assert(self.index_seq()[i as int].0 == block@);
                    crate::color::blockstate::lemma_assoc_map_index(self.index_seq(), i as int);
                }
                return Some(&self.index[i].1);
            }
            i = i + 1;
        }
        proof {
            crate::color::blockstate::lemma_assoc_map_absent(self.index_seq(), block@);
        }
        None
    }

    /// Builds the manager from its parts and precomputes the basic water
    /// color: the color and weight stored under `minecraft:water`'s first
    /// served index, or fully transparent when there is none.
    pub fn from_raw(
        index: Vec<(Vec<u8>, BlockState)>,
        colormap: Vec<Rgba>,
        weightmap: Vec<u8>,
        biome_color: BiomeColor,
    ) -> (r: Self)
        requires
            distinct_keys(index@.map_values(|p: (Vec<u8>, BlockState)| (p.0@, p.1))),
            forall|i: int|
                0 <= i < index@.len() ==> (#[trigger] index@[i]).1.wf() && bs_vals_ok(
                    index@[i].1,
                    colormap@.len() as int,
                ) && bs_vals_ok(index@[i].1, weightmap@.len() as int),
            biome_color.wf(),
        ensures
            r.wf(),
            r.index_seq() == index@.map_values(|p: (Vec<u8>, BlockState)| (p.0@, p.1)),
            r.colors() == colormap@,
            r.weights() == weightmap@,
            r.biome() == biome_color,
            r.water() == spec_water_basic(r),
    {
        let mut mgr = BakedColorManager {
            index,
            colormap,
            weightmap,
            biome_color,
            water_basic: (Rgba::transparent(), 0),
        };
        proof {
            assert forall|i: int| 0 <= i < mgr.index_seq().len() implies (
            #[trigger] mgr.index_seq()[i]).1.wf() && bs_vals_ok(
                mgr.index_seq()[i].1,
                mgr.colors().len() as int,
            ) && bs_vals_ok(mgr.index_seq()[i].1, mgr.weights().len() as int) by {
                assert(mgr.index_seq()[i].1 == mgr.index@[i].1);
            }
        }
        let empty_query: Vec<Vec<u8>> = Vec::new();
        let water_idx: Option<usize> = match mgr.find_state("minecraft:water".as_bytes()) {
            Some(bs) => {
                proof {
                    assert(empty_query.deep_view() =~= Seq::<Seq<u8>>::empty());
                    lemma_bs_result_bounded(
                        *bs,
                        empty_query.deep_view(),
                        mgr.colors().len() as int,
                    );
                    lemma_bs_result_bounded(
                        *bs,
                        empty_query.deep_view(),
                        mgr.weights().len() as int,
                    );
                }
                let idxs = bs.get(&empty_query);
                if idxs.len() > 0 {
                    proof {
                        assert(idxs@[0] == bs_result(*bs, empty_query.deep_view())[0]);
                        assert(idxs@[0] < mgr.colors().len() && idxs@[0] < mgr.weights().len());
                    }
                    Some(idxs[0])
                } else {
                    None
                }
            },
            None => None,
        };
        match water_idx {
            Some(wi) => {
                mgr.water_basic = (mgr.colormap[wi], mgr.weightmap[wi] as u16);
            },
            None => {
            },
        }
        mgr
    }

    /// Resolves the basic color for a block and its state predicates: the
    /// weighted blend of every palette entry the block's table serves, or
    /// fully transparent for an unknown block or an empty non-waterlogged
    /// match.
    #[verifier::loop_isolation(false)]
    pub fn get_basic_color(&self, block: &[u8], key: &Vec<Vec<u8>>, water_logged: bool) -> (c:
        Rgba)
        requires
            self.wf(),
        ensures
            c == spec_basic_color(*self, block@, key.deep_view(), water_logged),
    {
        let ghost q = key.deep_view();
        let bs = match self.find_state(block) {
            Some(bs) => bs,
            None => {
                return Rgba::transparent();
            },
        };
        proof {
            lemma_bs_result_bounded(*bs, q, self.colors().len() as int);
            lemma_bs_result_bounded(*bs, q, self.weights().len() as int);
        }
        let idxs = bs.get(key);
        proof {
            assert(idxs@ == bs_result(*bs, q));
        }
        if idxs.len() == 0 && !water_logged {
            return Rgba::transparent();
        }
        let ghost tuple_of = |i: usize| (self.colors()[i as int], self.weights()[i as int] as u16);
        let mut tuples: Vec<(Rgba, u16)> = Vec::new();
        let mut i: usize = 0;
        while i < idxs.len()
            invariant
                0 <= i <= idxs@.len(),
                tuples@ =~= idxs@.take(i as int).map_values(tuple_of),
                forall|j: int| 0 <= j < tuples@.len() ==> (#[trigger] tuples@[j]).1 <= 255,
            decreases idxs@.len() - i,
        {
            let idx = idxs[i];
            tuples.push((self.colormap[idx], self.weightmap[idx] as u16));
            proof {
                assert(idxs@.take(i + 1).drop_last() =~= idxs@.take(i as int));
                assert(idxs@.take(i + 1).map_values(tuple_of) =~= idxs@.take(i as int).map_values(
                    tuple_of,
                ).push(tuple_of(idxs@[i as int])));
            }
            i = i + 1;
        }
        proof {
            assert(idxs@.take(i as int) =~= idxs@);
        }
        // stable insertion sort by ascending weight
        let mut sorted: Vec<(Rgba, u16)> = Vec::new();
        let mut i: usize = 0;
        while i < tuples.len()
            invariant
                0 <= i <= tuples@.len(),
                sorted@ == sort_by_weight(tuples@.take(i as int)),
                sorted@.len() == i,
                forall|x: int, y: int|
                    0 <= x <= y < sorted@.len() ==> (#[trigger] sorted@[x]).1 <= (
                    #[trigger] sorted@[y]).1,
                forall|j: int| 0 <= j < sorted@.len() ==> (#[trigger] sorted@[j]).1 <= 255,
            decreases tuples@.len() - i,
        {
            let x = tuples[i];
            let mut p: usize = sorted.len();
            while p > 0 && sorted[p - 1].1 > x.1
                invariant
                    0 <= p <= sorted@.len(),
                    forall|j: int| p <= j < sorted@.len() ==> (#[trigger] sorted@[j]).1 > x.1,
                decreases p,
            {
                p = p - 1;
            }
            proof {
                assert(forall|j: int| 0 <= j < p ==> (#[trigger] sorted@[j]).1 <= x.1) by {
                    if p > 0 {
                        assert(forall|j: int|
                            0 <= j < p ==> (#[trigger] sorted@[j]).1 <= sorted@[p - 1].1);
                    }
                }
                lemma_ins_by_weight_at(sorted@, x, p as int);
                assert(tuples@.take(i + 1).drop_last() =~= tuples@.take(i as int));
            }
            let ghost old_sorted = sorted@;
            sorted.insert(p, x);
            proof {
                assert(forall|y: int|
                    0 <= y < sorted@.len() ==> sorted@[y] == (if y < p {
                        old_sorted[y]
                    } else if y == p {
                        x
                    } else {
                        old_sorted[y - 1]
                    }));
                assert(tuples@[i as int].1 <= 255);
            }
            i = i + 1;
        }
        proof {
            assert(tuples@.take(i as int) =~= tuples@);
            assert(tuples@ =~= bs_result(*bs, q).map_values(
                |i: usize| (self.colors()[i as int], self.weights()[i as int] as u16),
            ));
        }
        let max_w: u16 = if water_logged {
            255
        } else {
            sorted[sorted.len() - 1].1
        };
        if max_w == 0 {
            return Rgba::transparent();
        }
        let mut acc = Rgba::transparent();
        let mut i: usize = 0;
        while i < sorted.len()
            invariant
                0 <= i <= sorted@.len(),
                max_w > 0,
                forall|j: int| 0 <= j < sorted@.len() ==> (#[trigger] sorted@[j]).1 <= 255,
                acc == weighted_fold(sorted@.take(i as int), max_w),
            decreases sorted@.len() - i,
        {
            let (c0, w) = sorted[i];
            proof {
                assert(sorted@.take(i + 1).drop_last() =~= sorted@.take(i as int));
                assert(sorted@[i as int].1 <= 255);
                lemma_byte_mul_bound(c0.r as int, w as int);
                lemma_byte_mul_bound(c0.g as int, w as int);
                lemma_byte_mul_bound(c0.b as int, w as int);
                lemma_byte_mul_bound(c0.a as int, w as int);
            }
            if !(w * 4 < max_w) {
                let scaled = Rgba {
                    r: ((c0.r as u32 * w as u32) / max_w as u32) as u8,
                    g: ((c0.g as u32 * w as u32) / max_w as u32) as u8,
                    b: ((c0.b as u32 * w as u32) / max_w as u32) as u8,
                    a: ((c0.a as u32 * w as u32) / max_w as u32) as u8,
                };
                proof {
                    assert(scaled == scale_candidate(c0, w, max_w));
                }
                acc = blend_px(acc, scaled);
            }
            i = i + 1;
        }
        proof {
            assert(sorted@.take(i as int) =~= sorted@);
        }
        acc
    }

    /// Applies the biome tint: water, grass and foliage blocks have their
    /// channels multiplied by the corresponding biome tint; an untinted but
    /// waterlogged block has the basic water color composited over it.
    pub fn get_modified_color(
        &self,
        basic: Rgba,
        inner_color: &InnerColor,
        height: i32,
        biome: &Biome,
        water_logged: bool,
    ) -> (c: Rgba)
        requires
            self.wf(),
        ensures
            c == spec_modified_color(
                *self,
                basic,
                *inner_color,
                height as int,
                biome.0 as int,
                water_logged,
            ),
    {
        match inner_color {
            InnerColor::Plain => {
                if water_logged {
                    let tint = self.biome_color.get_water(biome);
                    let water_color = color_mul(self.water_basic.0, tint);
                    blend_px(basic, water_color)
                } else {
                    basic
                }
            },
            InnerColor::Water => color_mul(basic, self.biome_color.get_water(biome)),
            InnerColor::Grass => color_mul(basic, self.biome_color.get_grass(biome, height)),
            InnerColor::Foliage => color_mul(basic, self.biome_color.get_foliage(biome, height)),
        }
    }
}

/// The basic water color [`BakedColorManager::from_raw`] precomputes: the
/// palette entry under the water table's first served index.
pub open spec fn spec_water_basic(mgr: BakedColorManager) -> (Rgba, u16) {
    let water = "minecraft:water".spec_bytes();
    if mgr.index_map().dom().contains(water) && bs_result(
        mgr.index_map()[water],
        Seq::empty(),
    ).len() > 0 {
        let wi = bs_result(mgr.index_map()[water], Seq::empty())[0];
        (mgr.colors()[wi as int], mgr.weights()[wi as int] as u16)
    } else {
        (Rgba { r: 0, g: 0, b: 0, a: 0 }, 0)
    }
}

/// What [`BakedColorManager::get_basic_color`] returns.
pub open spec fn spec_basic_color(
    mgr: BakedColorManager,
    block: Seq<u8>,
    q: Seq<Seq<u8>>,
    wl: bool,
) -> Rgba {
    if !mgr.index_map().dom().contains(block) {
        Rgba { r: 0, g: 0, b: 0, a: 0 }
    } else {
        let idxs = bs_result(mgr.index_map()[block], q);
        if idxs.len() == 0 && !wl {
            Rgba { r: 0, g: 0, b: 0, a: 0 }
        } else {
            let tuples = idxs.map_values(
                |i: usize| (mgr.colors()[i as int], mgr.weights()[i as int] as u16),
            );
            let sorted = sort_by_weight(tuples);
            let max_w: u16 = if wl {
                255
            } else {
                sorted.last().1
            };
            if max_w == 0 {
                Rgba { r: 0, g: 0, b: 0, a: 0 }
            } else {
                weighted_fold(sorted, max_w)
            }
        }
    }
}

/// What [`BakedColorManager::get_modified_color`] returns.
pub open spec fn spec_modified_color(
    mgr: BakedColorManager,
    basic: Rgba,
    inner: InnerColor,
    height: int,
    biome: int,
    wl: bool,
) -> Rgba {
    match inner {
        InnerColor::Plain => if wl {
            rgba_of(
                blend_of(
                    basic.tup(),
                    spec_color_mul(mgr.water().0, spec_water_tint(mgr.biome(), biome)).tup(),
                ),
            )
        } else {
            basic
        },
        InnerColor::Water => spec_color_mul(basic, spec_water_tint(mgr.biome(), biome)),
        InnerColor::Grass => spec_color_mul(basic, spec_grass_tint(mgr.biome(), biome, height)),
        InnerColor::Foliage => spec_color_mul(
            basic,
            spec_foliage_tint(mgr.biome(), biome, height),
        ),
    }
}

/// Stable insertion happens at the boundary between the weights not above
/// `x`'s and those above it.
proof fn lemma_ins_by_weight_at(s: Seq<(Rgba, u16)>, x: (Rgba, u16), p: int)
    requires
        0 <= p <= s.len(),
        forall|j: int| 0 <= j < p ==> (#[trigger] s[j]).1 <= x.1,
        forall|j: int| p <= j < s.len() ==> (#[trigger] s[j]).1 > x.1,
    ensures
        ins_by_weight(s, x) == s.insert(p, x),
    decreases s.len(),
{
    if p == s.len() {
        if s.len() == 0 {
            assert(ins_by_weight(s, x) =~= s.insert(p, x));
        } else {
            assert(s.last().1 <= x.1);
            assert(ins_by_weight(s, x) =~= s.insert(p, x));
        }
    } else {
        assert(s.last().1 > x.1);
        assert(forall|j: int| 0 <= j < s.len() - 1 ==> #[trigger] s.drop_last()[j] == s[j]);
        lemma_ins_by_weight_at(s.drop_last(), x, p);
        assert(ins_by_weight(s, x) =~= s.insert(p, x));
    }
}

} // verus!
