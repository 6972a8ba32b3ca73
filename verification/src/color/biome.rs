//! Biome climate lookup: temperature and rainfall, adjusted by height, pick
//! a tint out of two small reference color grids.
//!
//! Climate values are carried as integers scaled by 3000, so that the fixed
//! per-block-height temperature decay of 1/600 is the exact integer 5 and
//! the grid coordinates round exactly as the real-valued formulas
//! `round((1-t)*(w-1))` and `round((1-r)*(h-1))` demand.

use vstd::prelude::*;

use crate::color::calculate::Rgb;

verus! {

use vstd::string::StringSliceAdditionalSpecFns;

/// Climate scale: the real interval `[0, 1]` maps to `0 ..= 3000`.
pub const CLIMATE_ONE: i32 = 3000;

/// A biome id straight out of a tile's element data.
#[derive(Clone, Copy, Debug)]
pub struct Biome(pub usize);

/// Post-processing of a looked-up tint: pass it through, replace it, or
/// average it with a fixed reference color.
#[derive(Clone, Copy, Debug)]
pub enum BiomeColorTOps {
    Keep,
    Fixed(Rgb),
    Average(Rgb),
}

/// What [`BiomeColorTOps::modify`] produces.
pub open spec fn spec_modify(ops: BiomeColorTOps, color: Rgb) -> Rgb {
    match ops {
        BiomeColorTOps::Keep => color,
        BiomeColorTOps::Fixed(fixed) => fixed,
        BiomeColorTOps::Average(base) => Rgb {
            r: (((color.r + base.r) as int / 2) as u8),
            g: (((color.g + base.g) as int / 2) as u8),
            b: (((color.b + base.b) as int / 2) as u8),
        },
    }
}

impl BiomeColorTOps {
    /// Applies the override to a grid color.
    pub fn modify(&self, color: &Rgb) -> (c: Rgb)
        ensures
            c == spec_modify(*self, *color),
    {
        match self {
            BiomeColorTOps::Keep => *color,
            BiomeColorTOps::Fixed(fixed) => *fixed,
            BiomeColorTOps::Average(base) => Rgb {
                r: (((color.r as u16) + (base.r as u16)) / 2) as u8,
                g: (((color.g as u16) + (base.g as u16)) / 2) as u8,
                b: (((color.b as u16) + (base.b as u16)) / 2) as u8,
            },
        }
    }
}

/// A biome's base climate, scaled by [`CLIMATE_ONE`].
#[derive(Clone, Copy, Debug)]
pub struct BiomeProps {
    pub temperature: i32,
    pub rainfall: i32,
}

impl BiomeProps {
    pub fn new(temperature: i32, rainfall: i32) -> (r: Self)
        ensures
            r == (BiomeProps { temperature, rainfall }),
    {
        BiomeProps { temperature, rainfall }
    }
}

/// Clamps a scaled climate value into `[0, 3000]`.
pub open spec fn clamp_climate(v: int) -> int {
    if v < 0 {
        0
    } else if v > 3000 {
        3000
    } else {
        v
    }
}

/// Sea level, above which temperature decays with height.
pub const SEA_LEVEL: i32 = 63;

/// Temperature after the height adjustment: minus 1/600 per block above sea
/// level, clamped into the unit interval. Scaled by 3000.
pub open spec fn adj_temperature(t: int, height: int) -> int {
    clamp_climate(t - (height - 63) * 5)
}

/// Rainfall after the adjustment: clamped, then damped by the adjusted
/// temperature. Scaled by 3000 * 3000.
pub open spec fn adj_rainfall(r: int, t_adj: int) -> int {
    clamp_climate(r) * t_adj
}

/// Nearest-pixel column for an adjusted temperature: `round((1-t)*(w-1))`
/// over the scaled value.
pub open spec fn grid_x(t_adj: int, w: int) -> int {
    ((3000 - t_adj) * (w - 1) * 2 + 3000) / 6000
}

/// Nearest-pixel row for an adjusted rainfall: `round((1-r)*(h-1))` over the
/// doubly scaled value.
pub open spec fn grid_y(r_adj: int, h: int) -> int {
    ((9000000 - r_adj) * (h - 1) * 2 + 9000000) / 18000000
}

/// A small RGB reference image holding one tint per climate cell.
#[derive(Clone, Debug)]
pub struct ClimateGrid {
    pub width: u32,
    pub height: u32,
    pub pixels: Vec<Rgb>,
}

impl ClimateGrid {
    /// A usable grid has both dimensions and one pixel per cell.
    pub open spec fn wf(self) -> bool {
        &&& self.width >= 1
        &&& self.height >= 1
        &&& self.pixels@.len() == self.width * self.height
    }

    pub fn new(width: u32, height: u32, pixels: Vec<Rgb>) -> (r: Self)
        requires
            width >= 1,
            height >= 1,
            pixels@.len() == width * height,
        ensures
            r == (ClimateGrid { width, height, pixels }),
            r.wf(),
    {
        ClimateGrid { width, height, pixels }
    }

    /// The tint stored at column `x`, row `y`.
    pub fn get_pixel(&self, x: u32, y: u32) -> (c: Rgb)
        requires
            self.wf(),
            x < self.width,
            y < self.height,
        ensures
            c == self.pixels@[y * self.width + x],
    {
        proof {
            assert(y * self.width + x < self.width * self.height) by (nonlinear_arith)
                requires
                    x < self.width,
                    y < self.height,
            ;
            assert(y * self.width <= y * self.width + x);
        }
        let n = self.pixels.len();
        let i = (y as usize) * (self.width as usize) + (x as usize);
        self.pixels[i]
    }
}

/// One biome's record: its name, climate, water color, and the grass and
/// foliage tint overrides.
#[derive(Clone, Debug)]
pub struct BiomeRecord {
    pub name: Vec<u8>,
    pub props: BiomeProps,
    pub water: Rgb,
    pub grass_ops: BiomeColorTOps,
    pub foliage_ops: BiomeColorTOps,
}

/// Climate-grid tint lookup for every biome.
pub struct BiomeColor {
    biomes: Vec<BiomeRecord>,
    grass: ClimateGrid,
    foliage: ClimateGrid,
}

/// The record an id selects: its own entry when the id is in range, the
/// first entry otherwise.
pub open spec fn spec_biome_index(len: int, b: int) -> int {
    if b < len {
        b
    } else {
        0
    }
}

impl BiomeColor {
    /// A usable table has at least one biome and two well-formed grids.
    pub closed spec fn wf(self) -> bool {
        &&& self.biomes@.len() > 0
        &&& self.grass.wf()
        &&& self.foliage.wf()
    }

    /// The biome records.
    pub closed spec fn biomes_seq(self) -> Seq<BiomeRecord> {
        self.biomes@
    }

    /// The grass tint grid.
    pub closed spec fn grass_grid(self) -> ClimateGrid {
        self.grass
    }

    /// The foliage tint grid.
    pub closed spec fn foliage_grid(self) -> ClimateGrid {
        self.foliage
    }

    pub fn from_raw(biomes: Vec<BiomeRecord>, grass: ClimateGrid, foliage: ClimateGrid) -> (r:
        Self)
        requires
            biomes@.len() > 0,
            grass.wf(),
            foliage.wf(),
        ensures
            r.wf(),
            r.biomes_seq() == biomes@,
            r.grass_grid() == grass,
            r.foliage_grid() == foliage,
    {
        BiomeColor { biomes, grass, foliage }
    }

    fn get_record(&self, biome: &Biome) -> (r: &BiomeRecord)
        requires
            self.wf(),
        ensures
            *r == self.biomes_seq()[spec_biome_index(self.biomes_seq().len() as int, biome.0 as int)],
    {
        if biome.0 < self.biomes.len() {
            &self.biomes[biome.0]
        } else {
            &self.biomes[0]
        }
    }

    /// The selected biome's fixed water color.
    pub fn get_water(&self, biome: &Biome) -> (c: Rgb)
        requires
            self.wf(),
        ensures
            c == self.biomes_seq()[spec_biome_index(
                self.biomes_seq().len() as int,
                biome.0 as int,
            )].water,
    {
        self.get_record(biome).water
    }

    /// Computes the clamped grid coordinates for a record's climate at a
    /// given height.
    fn coords(props: &BiomeProps, height: i32, grid: &ClimateGrid) -> (r: (u32, u32))
        requires
            grid.wf(),
        ensures
            r.0 == grid_x(adj_temperature(props.temperature as int, height as int), grid.width as int),
            r.1 == grid_y(
                adj_rainfall(
                    props.rainfall as int,
                    adj_temperature(props.temperature as int, height as int),
                ),
                grid.height as int,
            ),
            r.0 < grid.width,
            r.1 < grid.height,
    {
        let t0 = props.temperature as i64 - (height as i64 - 63) * 5;
        let t: i64 = if t0 < 0 {
            0
        } else if t0 > 3000 {
            3000
        } else {
            t0
        };
        let r0: i64 = if props.rainfall < 0 {
            0
        } else if props.rainfall > 3000 {
            3000
        } else {
            props.rainfall as i64
        };
        proof {
            assert(0 <= r0 * t <= 9000000) by (nonlinear_arith)
                requires
                    0 <= r0 <= 3000,
                    0 <= t <= 3000,
            ;
        }
        let r9: i64 = r0 * t;
        let w = grid.width as i64;
        let h = grid.height as i64;
        proof {
            assert(0 <= (3000 - t) * (w - 1) * 2 <= 6000 * (w - 1)) by (nonlinear_arith)
                requires
                    0 <= t <= 3000,
                    1 <= w,
            ;
            assert(0 <= (9000000 - r9) * (h - 1) * 2 <= 18000000 * (h - 1)) by (nonlinear_arith)
                requires
                    0 <= r9 <= 9000000,
                    1 <= h,
            ;
        }
        let x = ((3000 - t) * (w - 1) * 2 + 3000) / 6000;
        let y = ((9000000 - r9) * (h - 1) * 2 + 9000000) / 18000000;
        proof {
            assert(x < w && 0 <= x) by (nonlinear_arith)
                requires
                    0 <= t <= 3000,
                    1 <= w < 0x1_0000_0000,
                    x == ((3000 - t) * (w - 1) * 2 + 3000) / 6000,
            ;
            assert(y < h && 0 <= y) by (nonlinear_arith)
                requires
                    0 <= r9 <= 9000000,
                    1 <= h < 0x1_0000_0000,
                    y == ((9000000 - r9) * (h - 1) * 2 + 9000000) / 18000000,
            ;
        }
        (x as u32, y as u32)
    }

    /// The grass tint: climate-grid lookup, then the biome's grass override.
    pub fn get_grass(&self, biome: &Biome, height: i32) -> (c: Rgb)
        requires
            self.wf(),
        ensures
            ({
                let rec = self.biomes_seq()[spec_biome_index(
                    self.biomes_seq().len() as int,
                    biome.0 as int,
                )];
                let t = adj_temperature(rec.props.temperature as int, height as int);
                let r = adj_rainfall(rec.props.rainfall as int, t);
                let x = grid_x(t, self.grass_grid().width as int);
                let y = grid_y(r, self.grass_grid().height as int);
                c == spec_modify(
                    rec.grass_ops,
                    self.grass_grid().pixels@[y * self.grass_grid().width + x],
                )
            }),
    {
        let rec = self.get_record(biome);
        let props = rec.props;
        let ops = rec.grass_ops;
        let (x, y) = Self::coords(&props, height, &self.grass);
        let px = self.grass.get_pixel(x, y);
        ops.modify(&px)
    }

    /// The foliage tint: climate-grid lookup, then the biome's foliage
    /// override.
    pub fn get_foliage(&self, biome: &Biome, height: i32) -> (c: Rgb)
        requires
            self.wf(),
        ensures
            ({
                let rec = self.biomes_seq()[spec_biome_index(
                    self.biomes_seq().len() as int,
                    biome.0 as int,
                )];
                let t = adj_temperature(rec.props.temperature as int, height as int);
                let r = adj_rainfall(rec.props.rainfall as int, t);
                let x = grid_x(t, self.foliage_grid().width as int);
                let y = grid_y(r, self.foliage_grid().height as int);
                c == spec_modify(
                    rec.foliage_ops,
                    self.foliage_grid().pixels@[y * self.foliage_grid().width + x],
                )
            }),
    {
        let rec = self.get_record(biome);
        let props = rec.props;
        let ops = rec.foliage_ops;
        let (x, y) = Self::coords(&props, height, &self.foliage);
        let px = self.foliage.get_pixel(x, y);
        ops.modify(&px)
    }
}

/// The water tint a biome serves.
pub open spec fn spec_water_tint(bc: BiomeColor, b: int) -> Rgb {
    bc.biomes_seq()[spec_biome_index(bc.biomes_seq().len() as int, b)].water
}

/// The grass tint a biome serves at a height: the climate-grid pixel, put
/// through the biome's grass override.
pub open spec fn spec_grass_tint(bc: BiomeColor, b: int, height: int) -> Rgb {
    let rec = bc.biomes_seq()[spec_biome_index(bc.biomes_seq().len() as int, b)];
    let t = adj_temperature(rec.props.temperature as int, height);
    let r = adj_rainfall(rec.props.rainfall as int, t);
    let x = grid_x(t, bc.grass_grid().width as int);
    let y = grid_y(r, bc.grass_grid().height as int);
    spec_modify(rec.grass_ops, bc.grass_grid().pixels@[y * bc.grass_grid().width + x])
}

/// The foliage tint a biome serves at a height.
pub open spec fn spec_foliage_tint(bc: BiomeColor, b: int, height: int) -> Rgb {
    let rec = bc.biomes_seq()[spec_biome_index(bc.biomes_seq().len() as int, b)];
    let t = adj_temperature(rec.props.temperature as int, height);
    let r = adj_rainfall(rec.props.rainfall as int, t);
    let x = grid_x(t, bc.foliage_grid().width as int);
    let y = grid_y(r, bc.foliage_grid().height as int);
    spec_modify(rec.foliage_ops, bc.foliage_grid().pixels@[y * bc.foliage_grid().width + x])
}

/// Which biome tint a block's color takes.
#[derive(Clone, Copy, Debug)]
pub enum InnerColor {
    Plain,
    Water,
    Grass,
    Foliage,
}

/// Whether `s` ends in the bytes of `"leaves"`.
pub open spec fn ends_with_leaves(s: Seq<u8>) -> bool {
    s.len() >= 6 && s.skip(s.len() - 6) == "leaves".spec_bytes()
}

impl InnerColor {
    /// Classifies a block name: water and grass-like blocks take their named
    /// tints, every block whose name ends in `leaves` takes the foliage
    /// tint, and anything else takes none.
    pub fn from_name(name: &[u8]) -> (r: Self)
        ensures
            r == (if name@ == "minecraft:water".spec_bytes() {
                InnerColor::Water
            } else if name@ == "minecraft:grass_block".spec_bytes() {
                InnerColor::Grass
            } else if name@ == "minecraft:lily_pad".spec_bytes() {
                InnerColor::Grass
            } else if ends_with_leaves(name@) {
                InnerColor::Foliage
            } else {
                InnerColor::Plain
            }),
    {
        if crate::text::bytes_eq(name, "minecraft:water".as_bytes()) {
            InnerColor::Water
        } else if crate::text::bytes_eq(name, "minecraft:grass_block".as_bytes()) {
            InnerColor::Grass
        } else if crate::text::bytes_eq(name, "minecraft:lily_pad".as_bytes()) {
            InnerColor::Grass
        } else if name.len() >= 6 && crate::text::bytes_eq(
            crate::text::slice_subrange(name, name.len() - 6, name.len()),
            "leaves".as_bytes(),
        ) {
            proof {
                assert(name@.subrange(name@.len() - 6, name@.len() as int) =~= name@.skip(
                    name@.len() - 6,
                ));
            }
            InnerColor::Foliage
        } else {
            proof {
                if name@.len() >= 6 {
                    assert(name@.subrange(name@.len() - 6, name@.len() as int) =~= name@.skip(
                        name@.len() - 6,
                    ));
                }
            }
            InnerColor::Plain
        }
    }
}

} // verus!
