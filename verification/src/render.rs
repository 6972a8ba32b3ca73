//! Rendering one tile into a raster: per-cell color resolution over four
//! stacked layers, light scaling, optional gamma correction through a
//! precomputed table, and alpha compositing.

pub mod control;
pub mod data;
pub mod key;
pub mod tile;

use vstd::prelude::*;

use crate::color::BakedColorManager;
use crate::color::calculate::Rgba;
use crate::color::calculate::blend_of;
use crate::color::calculate::blend_px;
use crate::color::calculate::lemma_byte_mul_bound;
use crate::color::biome::Biome;
use crate::color::rgba_of;
use crate::color::spec_modified_color;
use crate::raster::Raster;
use crate::render::data::spec_biome;
use crate::render::data::spec_blockstate_id;
use crate::render::data::spec_blocklight;
use crate::render::data::spec_height;
use crate::render::data::TILE_DATA_LEN;
use crate::render::tile::Tile;
use crate::render::tile::TileView;

verus! {

/// Rendering knobs: the environment light floor and, when gamma correction
/// is on, a 256-entry table mapping each channel value through the
/// correction curve.
pub struct RenderOptions {
    pub gamma_table: Option<Vec<u8>>,
    pub env_light: u8,
}

impl RenderOptions {
    /// A present gamma table maps all 256 channel values.
    pub open spec fn wf(self) -> bool {
        self.gamma_table matches Some(t) ==> t@.len() == 256
    }

    /// The table as a sequence, when gamma correction is on.
    pub open spec fn table_view(self) -> Option<Seq<u8>> {
        match self.gamma_table {
            Some(t) => Some(t@),
            None => None,
        }
    }

    /// Clamps and sets the environment light floor.
    pub fn set_env_light(&mut self, light: u8)
        ensures
            final(self).env_light == (if light < 15 {
                light
            } else {
                15
            }),
            final(self).gamma_table == old(self).gamma_table,
    {
        self.env_light = if light < 15 {
            light
        } else {
            15
        };
    }

    /// Installs a gamma correction table.
    pub fn set_gamma_table(&mut self, table: Vec<u8>)
        requires
            table@.len() == 256,
        ensures
            final(self).gamma_table == Some(table),
            final(self).env_light == old(self).env_light,
            final(self).wf(),
    {
        self.gamma_table = Some(table);
    }
}

impl Default for RenderOptions {
    /// No gamma correction and full environment light.
    fn default() -> (r: Self)
        ensures
            r.gamma_table is None,
            r.env_light == 15,
            r.wf(),
    {
        RenderOptions { gamma_table: None, env_light: 15 }
    }
}

/// Scaling of a color's channels by a light level out of 15; alpha is kept.
pub open spec fn spec_light_modify(c: Rgba, light: u8) -> Rgba {
    let l = (light & 0x0F) as int;
    Rgba {
        r: ((c.r * l) / 15) as u8,
        g: ((c.g * l) / 15) as u8,
        b: ((c.b * l) / 15) as u8,
        a: c.a,
    }
}

/// Scales a color's channels by a light level.
pub fn light_modify(c: &mut Rgba, light: u8)
    ensures
        *final(c) == spec_light_modify(*old(c), light),
{
    let l = (light & 0x0F) as u16;
    proof {
        lemma_byte_mul_bound(c.r as int, l as int);
        lemma_byte_mul_bound(c.g as int, l as int);
        lemma_byte_mul_bound(c.b as int, l as int);
    }
    c.r = ((c.r as u16 * l) / 15) as u8;
    c.g = ((c.g as u16 * l) / 15) as u8;
    c.b = ((c.b as u16 * l) / 15) as u8;
}

/// The gamma table applied to a color's channels; alpha is kept.
pub open spec fn spec_gamma(table: Option<Seq<u8>>, c: Rgba) -> Rgba {
    match table {
        None => c,
        Some(t) => Rgba { r: t[c.r as int], g: t[c.g as int], b: t[c.b as int], a: c.a },
    }
}

/// Source-over compositing through the raster library.
pub open spec fn spec_blend_px(bg: Rgba, fg: Rgba) -> Rgba {
    rgba_of(blend_of(bg.tup(), fg.tup()))
}

/// One resolved layer of a cell: the lit, tinted color and the layer's
/// height; an absent layer (height 0) is fully transparent.
pub open spec fn spec_layer(t: Tile, mgr: BakedColorManager, env: u8, x: int, z: int, l: int) -> (
    Rgba,
    u8,
) {
    let v = t.version() as int;
    let d = t.data();
    let h = spec_height(d, v, x, z, l);
    if h == 0 {
        (Rgba { r: 0, g: 0, b: 0, a: 0 }, 0u8)
    } else {
        let id = spec_blockstate_id(d, v, x, z, l);
        let entry = t.key_seq()[id - 1];
        let biome = spec_biome(d, v, x, z);
        let c1 = spec_modified_color(
            mgr,
            entry.0,
            entry.1.biome_color,
            h as int,
            biome as int,
            entry.1.waterlogged,
        );
        let bl = spec_blocklight(d, v, x, z, l);
        let light = if bl >= env {
            bl
        } else {
            env
        };
        (spec_light_modify(c1, light), h)
    }
}

/// The composed color of one cell: nothing without a surface sample;
/// otherwise the seafloor (when present) under the at-or-below-surface
/// transparent and foliage layers and the surface, with the above-surface
/// layers blended on top last.
pub open spec fn spec_cell(t: Tile, mgr: BakedColorManager, opts: RenderOptions, x: int, z: int) -> Rgba {
    let s = spec_layer(t, mgr, opts.env_light, x, z, 0);
    if s.1 == 0 {
        Rgba { r: 0, g: 0, b: 0, a: 0 }
    } else {
        let b = spec_layer(t, mgr, opts.env_light, x, z, 1);
        let tr = spec_layer(t, mgr, opts.env_light, x, z, 2);
        let f = spec_layer(t, mgr, opts.env_light, x, z, 3);
        let gt = opts.table_view();
        let s0 = spec_gamma(gt, s.0);
        let b0 = spec_gamma(gt, b.0);
        let tr0 = spec_gamma(gt, tr.0);
        let f0 = spec_gamma(gt, f.0);
        let base = if b.1 > 0 {
            let c1 = b0;
            let c2 = if f.1 > 0 && f.1 <= s.1 {
                spec_blend_px(c1, f0)
            } else {
                c1
            };
            let c3 = if tr.1 > 0 && tr.1 <= s.1 {
                spec_blend_px(c2, tr0)
            } else {
                c2
            };
            spec_blend_px(c3, s0)
        } else {
            s0
        };
        let c4 = if f.1 > 0 && f.1 > s.1 {
            spec_blend_px(base, f0)
        } else {
            base
        };
        if tr.1 > 0 && tr.1 > s.1 {
            spec_blend_px(c4, tr0)
        } else {
            c4
        }
    }
}

/// Every block-state id a tile's samples reference has a key entry: this is
/// what keeps color lookup during rendering in bounds.
pub open spec fn tile_ids_ok(t: Tile) -> bool {
    forall|x: int, z: int, l: int|
        0 <= x < 256 && 0 <= z < 256 && 0 <= l < 4 && spec_height(
            t.data(),
            t.version() as int,
            x,
            z,
            l,
        ) != 0 ==> 1 <= #[trigger] spec_blockstate_id(t.data(), t.version() as int, x, z, l)
            <= t.key_seq().len()
}

/// A cell without a surface sample renders fully transparent, whatever its
/// other layers hold.
pub proof fn lemma_cell_transparent_without_surface(
    t: Tile,
    mgr: BakedColorManager,
    opts: RenderOptions,
    x: int,
    z: int,
)
    requires
        spec_height(t.data(), t.version() as int, x, z, 0) == 0,
    ensures
        spec_cell(t, mgr, opts, x, z) == (Rgba { r: 0, g: 0, b: 0, a: 0 }),
{
}

/// Checks that every referenced block-state id has a key entry, cell by
/// cell; rendering requires it, since key lookup has no fallback entry.
#[verifier::loop_isolation(false)]
pub fn check_tile_ids(tile: &Tile) -> (r: bool)
    requires
        tile.wf(),
    ensures
        r == tile_ids_ok(*tile),
{
    let key_len = tile.key_len();
    let mut x: u32 = 0;
    while x < 256
        invariant
            0 <= x <= 256,
            forall|a: int, b: int, l: int|
                0 <= a < x && 0 <= b < 256 && 0 <= l < 4 && spec_height(
                    tile.data(),
                    tile.version() as int,
                    a,
                    b,
                    l,
                ) != 0 ==> 1 <= #[trigger] spec_blockstate_id(
                    tile.data(),
                    tile.version() as int,
                    a,
                    b,
                    l,
                ) <= tile.key_seq().len(),
        decreases 256 - x,
    {
        let mut z: u32 = 0;
        while z < 256
            invariant
                0 <= x < 256,
                0 <= z <= 256,
                forall|a: int, b: int, l: int|
                    0 <= a < x && 0 <= b < 256 && 0 <= l < 4 && spec_height(
                        tile.data(),
                        tile.version() as int,
                        a,
                        b,
                        l,
                    ) != 0 ==> 1 <= #[trigger] spec_blockstate_id(
                        tile.data(),
                        tile.version() as int,
                        a,
                        b,
                        l,
                    ) <= tile.key_seq().len(),
                forall|b: int, l: int|
                    0 <= b < z && 0 <= l < 4 && spec_height(
                        tile.data(),
                        tile.version() as int,
                        x as int,
                        b,
                        l,
                    ) != 0 ==> 1 <= #[trigger] spec_blockstate_id(
                        tile.data(),
                        tile.version() as int,
                        x as int,
                        b,
                        l,
                    ) <= tile.key_seq().len(),
            decreases 256 - z,
        {
            let mut l: u32 = 0;
            while l < 4
                invariant
                    0 <= x < 256,
                    0 <= z < 256,
                    0 <= l <= 4,
                    forall|k: int|
                        0 <= k < l && spec_height(
                            tile.data(),
                            tile.version() as int,
                            x as int,
                            z as int,
                            k,
                        ) != 0 ==> 1 <= #[trigger] spec_blockstate_id(
                            tile.data(),
                            tile.version() as int,
                            x as int,
                            z as int,
                            k,
                        ) <= tile.key_seq().len(),
                decreases 4 - l,
            {
                let (h, id) = tile_layer_raw(tile, x, z, l);
                if h != 0 && (id == 0 || id as usize > key_len) {
                    return false;
                }
                l = l + 1;
            }
            z = z + 1;
        }
        x = x + 1;
    }
    true
}

/// Reads one layer's height and block-state id through the version's view.
fn tile_layer_raw(tile: &Tile, x: u32, z: u32, l: u32) -> (r: (u8, u16))
    requires
        tile.wf(),
        x < 256,
        z < 256,
        l < 4,
    ensures
        r.0 == spec_height(tile.data(), tile.version() as int, x as int, z as int, l as int),
        r.1 == spec_blockstate_id(tile.data(), tile.version() as int, x as int, z as int, l as int),
{
    let view = tile.view();
    match view {
        TileView::V1(v) => {
            proof {
                assert(v.data() == tile.data());
                assert(v.data().len() == TILE_DATA_LEN);
            }
            let el = v.element(x, z);
            let layer = if l == 0 {
                v.surface(el)
            } else if l == 1 {
                v.seafloor(el)
            } else if l == 2 {
                v.transparent(el)
            } else {
                v.foliage(el)
            };
            proof {
                assert(layer.off + 3 <= TILE_DATA_LEN);
            }
            let h = v.height(layer);
            let id = v.blockstate_id(layer);
            (h, id)
        },
        TileView::V2(v) => {
            let el = v.element(x, z);
            let layer = if l == 0 {
                v.surface(el)
            } else if l == 1 {
                v.seafloor(el)
            } else if l == 2 {
                v.transparent(el)
            } else {
                v.foliage(el)
            };
            let h = v.height(layer);
            let id = v.blockstate_id(layer);
            (h, id)
        },
    }
}

/// Resolves one layer of a cell, as [`spec_layer`] describes.
fn resolve_layer(tile: &Tile, mgr: &BakedColorManager, env: u8, x: u32, z: u32, l: u32) -> (r: (
    Rgba,
    u8,
))
    requires
        tile.wf(),
        mgr.wf(),
        tile_ids_ok(*tile),
        x < 256,
        z < 256,
        l < 4,
    ensures
        r == spec_layer(*tile, *mgr, env, x as int, z as int, l as int),
{
    let (h, id) = tile_layer_raw(tile, x, z, l);
    if h == 0 {
        (Rgba::transparent(), 0)
    } else {
        let entry = tile.get_color(id);
        let c = entry.0;
        let inner = entry.1.biome_color;
        let wl = entry.1.waterlogged;
        let biome_id = tile_biome_raw(tile, x, z);
        let bl = tile_blocklight_raw(tile, x, z, l);
        let mut c1 = mgr.get_modified_color(
            c,
            &inner,
            h as i32,
            &Biome(biome_id as usize),
            wl,
        );
        let light = if bl >= env {
            bl
        } else {
            env
        };
        light_modify(&mut c1, light);
        (c1, h)
    }
}

/// Reads a cell's biome id through the version's view.
fn tile_biome_raw(tile: &Tile, x: u32, z: u32) -> (r: u16)
    requires
        tile.wf(),
        x < 256,
        z < 256,
    ensures
        r == spec_biome(tile.data(), tile.version() as int, x as int, z as int),
{
    let view = tile.view();
    match view {
        TileView::V1(v) => {
            let el = v.element(x, z);
            v.biome(el)
        },
        TileView::V2(v) => {
            let el = v.element(x, z);
            v.biome(el)
        },
    }
}

/// Reads one layer's blocklight nibble through the version's view.
fn tile_blocklight_raw(tile: &Tile, x: u32, z: u32, l: u32) -> (r: u8)
    requires
        tile.wf(),
        x < 256,
        z < 256,
        l < 4,
    ensures
        r == spec_blocklight(tile.data(), tile.version() as int, x as int, z as int, l as int),
{
    let view = tile.view();
    match view {
        TileView::V1(v) => {
            let el = v.element(x, z);
            let layer = if l == 0 {
                v.surface(el)
            } else if l == 1 {
                v.seafloor(el)
            } else if l == 2 {
                v.transparent(el)
            } else {
                v.foliage(el)
            };
            v.blocklight(layer)
        },
        TileView::V2(v) => {
            let el = v.element(x, z);
            let layer = if l == 0 {
                v.surface(el)
            } else if l == 1 {
                v.seafloor(el)
            } else if l == 2 {
                v.transparent(el)
            } else {
                v.foliage(el)
            };
            v.blocklight(layer)
        },
    }
}

/// Puts a color through the gamma table, when one is installed.
fn apply_gamma(options: &RenderOptions, c: Rgba) -> (r: Rgba)
    requires
        options.wf(),
    ensures
        r == spec_gamma(options.table_view(), c),
{
    match &options.gamma_table {
        Some(t) => Rgba {
            r: t[c.r as usize],
            g: t[c.g as usize],
            b: t[c.b as usize],
            a: c.a,
        },
        None => c,
    }
}

/// Renders one tile: every cell of the 256 x 256 grid resolves its four
/// layers, applies light and optional gamma correction, and composites them
/// into one output pixel, exactly as [`spec_cell`] says.
#[verifier::loop_isolation(false)]
pub fn render(tile: Tile, mgr: &BakedColorManager, options: &RenderOptions) -> (r: Raster)
    requires
        tile.wf(),
        mgr.wf(),
        options.wf(),
        tile_ids_ok(tile),
    ensures
        r.wf(),
        r.width == 256,
        r.height == 256,
        forall|x: int, z: int|
            0 <= x < 256 && 0 <= z < 256 ==> r.pixels@[z * 256 + x] == spec_cell(
                tile,
                *mgr,
                *options,
                x,
                z,
            ),
{
    let mut panel = Raster::new(256, 256);
    let mut x: u32 = 0;
    while x < 256
        invariant
            0 <= x <= 256,
            panel.wf(),
            panel.width == 256,
            panel.height == 256,
            forall|a: int, b: int|
                0 <= a < x && 0 <= b < 256 ==> panel.pixels@[b * 256 + a] == spec_cell(
                    tile,
                    *mgr,
                    *options,
                    a,
                    b,
                ),
        decreases 256 - x,
    {
        let mut z: u32 = 0;
        while z < 256
            invariant
                0 <= x < 256,
                0 <= z <= 256,
                panel.wf(),
                panel.width == 256,
                panel.height == 256,
                forall|a: int, b: int|
                    0 <= a < x && 0 <= b < 256 ==> panel.pixels@[b * 256 + a] == spec_cell(
                        tile,
                        *mgr,
                        *options,
                        a,
                        b,
                    ),
                forall|b: int|
                    0 <= b < z ==> panel.pixels@[b * 256 + x] == spec_cell(
                        tile,
                        *mgr,
                        *options,
                        x as int,
                        b,
                    ),
            decreases 256 - z,
        {
            let surface = resolve_layer(&tile, mgr, options.env_light, x, z, 0);
            let color: Rgba = if surface.1 > 0 {
                let seafloor = resolve_layer(&tile, mgr, options.env_light, x, z, 1);
                let transparent = resolve_layer(&tile, mgr, options.env_light, x, z, 2);
                let foliage = resolve_layer(&tile, mgr, options.env_light, x, z, 3);
                let s0 = apply_gamma(options, surface.0);
                let b0 = apply_gamma(options, seafloor.0);
                let tr0 = apply_gamma(options, transparent.0);
                let f0 = apply_gamma(options, foliage.0);
                let mut color: Rgba = if seafloor.1 > 0 {
                    let mut c = b0;
                    if foliage.1 > 0 && foliage.1 <= surface.1 {
                        c = blend_px(c, f0);
                    }
                    if transparent.1 > 0 && transparent.1 <= surface.1 {
                        c = blend_px(c, tr0);
                    }
                    blend_px(c, s0)
                } else {
                    s0
                };
                if foliage.1 > 0 && foliage.1 > surface.1 {
                    color = blend_px(color, f0);
                }
                if transparent.1 > 0 && transparent.1 > surface.1 {
                    color = blend_px(color, tr0);
                }
                color
            } else {
                Rgba::transparent()
            };
            panel.put_pixel(x, z, color);
            proof {
                assert(panel.pixels@[z as int * 256 + x as int] == spec_cell(
                    tile,
                    *mgr,
                    *options,
                    x as int,
                    z as int,
                ));
            }
            z = z + 1;
        }
        x = x + 1;
    }
    panel
}

} // verus!
