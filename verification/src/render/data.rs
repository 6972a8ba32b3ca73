//! Typed views over a tile's raw sample buffer.
//!
//! A tile buffer holds `256 * 256` cells of 18 bytes each: four layers of
//! four bytes (height, big-endian block-state id, light) and two trailing
//! biome bytes. Version 1 packs each cell contiguously; version 2 lays the
//! buffer out as 18 separate `256 * 256` planes. The views re-express the
//! two layouts as bounds-checked offset arithmetic over one byte slice.

use vstd::prelude::*;

verus! {

/// Cells per tile edge.
pub const TILE_SIDE: u32 = 256;

/// Bytes in a full tile buffer: four 4-byte layers and 2 biome bytes per
/// cell.
pub const TILE_DATA_LEN: usize = 256 * 256 * 18;

/// Byte offset of cell `(x, z)`, layer `l`, in the given layout version;
/// any version other than 2 uses the version-1 layout.
pub open spec fn layer_off(version: int, x: int, z: int, l: int) -> int {
    if version == 2 {
        (x + z * 256) + l * 4 * 65536
    } else {
        (x + z * 256) * 18 + l * 4
    }
}

/// The stride between one layer field byte and the next: the plane size in
/// version 2, one byte in version 1.
pub open spec fn field_step(version: int) -> int {
    if version == 2 {
        65536
    } else {
        1
    }
}

/// A layer's height sample; 0 means the layer is absent.
pub open spec fn spec_height(data: Seq<u8>, version: int, x: int, z: int, l: int) -> u8 {
    data[layer_off(version, x, z, l)]
}

/// A layer's 1-based block-state id, big endian.
pub open spec fn spec_blockstate_id(data: Seq<u8>, version: int, x: int, z: int, l: int) -> u16 {
    (((data[layer_off(version, x, z, l) + field_step(version)] as u16) << 8) | (data[layer_off(
        version,
        x,
        z,
        l,
    ) + 2 * field_step(version)] as u16)) as u16
}

/// A layer's packed light byte: skylight in the high nibble, blocklight in
/// the low one.
pub open spec fn spec_light(data: Seq<u8>, version: int, x: int, z: int, l: int) -> u8 {
    data[layer_off(version, x, z, l) + 3 * field_step(version)]
}

/// The blocklight nibble.
pub open spec fn spec_blocklight(data: Seq<u8>, version: int, x: int, z: int, l: int) -> u8 {
    spec_light(data, version, x, z, l) & 0x0F
}

/// The skylight nibble.
pub open spec fn spec_skylight(data: Seq<u8>, version: int, x: int, z: int, l: int) -> u8 {
    ((spec_light(data, version, x, z, l) & 0xF0) as u8) >> 4
}

/// A cell's big-endian biome id, stored in the two trailer bytes.
pub open spec fn spec_biome(data: Seq<u8>, version: int, x: int, z: int) -> u16 {
    if version == 2 {
        (((data[(x + z * 256) + 16 * 65536] as u16) << 8) | (data[(x + z * 256) + 17 * 65536] as u16)) as u16
    } else {
        (((data[(x + z * 256) * 18 + 16] as u16) << 8) | (data[(x + z * 256) * 18 + 17] as u16)) as u16
    }
}

/// Handle of one cell inside a view: the cell's base byte offset.
#[derive(Clone, Copy)]
pub struct ElementNode {
    pub off: usize,
}

/// Handle of one layer inside a cell: the layer's base byte offset.
#[derive(Clone, Copy)]
pub struct LayerNode {
    pub off: usize,
}

/// View of a version-1 buffer: cells row-major, fields packed per cell.
pub struct V1TileView<'a> {
    raw: &'a [u8],
}

impl<'a> V1TileView<'a> {
    /// The viewed bytes.
    pub closed spec fn data(self) -> Seq<u8> {
        self.raw@
    }

    /// Binds the view; the buffer must hold a whole tile.
    pub fn bind(raw: &'a [u8]) -> (r: V1TileView<'a>)
        requires
            raw@.len() >= TILE_DATA_LEN,
        ensures
            r.data() == raw@,
            r.data().len() >= TILE_DATA_LEN,
    {
        V1TileView { raw }
    }

    pub fn element(&self, x: u32, z: u32) -> (r: ElementNode)
        requires
            x < 256,
            z < 256,
        ensures
            r.off == (x + z * 256) * 18,
    {
        ElementNode { off: ((x + z * TILE_SIDE) * 18) as usize }
    }

    pub fn surface(&self, element: ElementNode) -> (r: LayerNode)
        ensures
            r.off == element.off,
    {
        LayerNode { off: element.off }
    }

    pub fn seafloor(&self, element: ElementNode) -> (r: LayerNode)
        requires
            element.off + 4 <= usize::MAX,
        ensures
            r.off == element.off + 4,
    {
        LayerNode { off: element.off + 4 }
    }

    pub fn transparent(&self, element: ElementNode) -> (r: LayerNode)
        requires
            element.off + 8 <= usize::MAX,
        ensures
            r.off == element.off + 8,
    {
        LayerNode { off: element.off + 8 }
    }

    pub fn foliage(&self, element: ElementNode) -> (r: LayerNode)
        requires
            element.off + 12 <= usize::MAX,
        ensures
            r.off == element.off + 12,
    {
        LayerNode { off: element.off + 12 }
    }

    pub fn biome(&self, element: ElementNode) -> (r: u16)
        requires
            element.off + 18 <= self.data().len(),
        ensures
            r == (((self.data()[element.off + 16] as u16) << 8) | (self.data()[element.off + 17] as u16)) as u16,
    {
        let n = self.raw.len();
        ((self.raw[element.off + 16] as u16) << 8) | (self.raw[element.off + 17] as u16)
    }

    pub fn height(&self, layer: LayerNode) -> (r: u8)
        requires
            layer.off < self.data().len(),
        ensures
            r == self.data()[layer.off as int],
    {
        let n = self.raw.len();
        self.raw[layer.off]
    }

    pub fn blockstate_id(&self, layer: LayerNode) -> (r: u16)
        requires
            layer.off + 3 <= self.data().len(),
        ensures
            r == (((self.data()[layer.off + 1] as u16) << 8) | (self.data()[layer.off + 2] as u16)) as u16,
    {
        let n = self.raw.len();
        ((self.raw[layer.off + 1] as u16) << 8) | (self.raw[layer.off + 2] as u16)
    }

    pub fn light(&self, layer: LayerNode) -> (r: u8)
        requires
            layer.off + 4 <= self.data().len(),
        ensures
            r == self.data()[layer.off + 3],
    {
        let n = self.raw.len();
        self.raw[layer.off + 3]
    }

    pub fn skylight(&self, layer: LayerNode) -> (r: u8)
        requires
            layer.off + 4 <= self.data().len(),
        ensures
            r == ((self.data()[layer.off + 3] & 0xF0) as u8) >> 4,
    {
        (self.light(layer) & 0xF0) >> 4
    }

    pub fn blocklight(&self, layer: LayerNode) -> (r: u8)
        requires
            layer.off + 4 <= self.data().len(),
        ensures
            r == self.data()[layer.off + 3] & 0x0F,
    {
        self.light(layer) & 0x0F
    }
}

/// View of a version-2 buffer: 18 planes of `256 * 256` bytes.
pub struct V2TileView<'a> {
    raw: &'a [u8],
}

impl<'a> V2TileView<'a> {
    /// The viewed bytes.
    pub closed spec fn data(self) -> Seq<u8> {
        self.raw@
    }

    /// Binds the view; the buffer must hold a whole tile.
    pub fn bind(raw: &'a [u8]) -> (r: V2TileView<'a>)
        requires
            raw@.len() >= TILE_DATA_LEN,
        ensures
            r.data() == raw@,
            r.data().len() >= TILE_DATA_LEN,
    {
        V2TileView { raw }
    }

    pub fn element(&self, x: u32, z: u32) -> (r: ElementNode)
        requires
            x < 256,
            z < 256,
        ensures
            r.off == x + z * 256,
    {
        ElementNode { off: (x + z * TILE_SIDE) as usize }
    }

    pub fn surface(&self, element: ElementNode) -> (r: LayerNode)
        ensures
            r.off == element.off,
    {
        LayerNode { off: element.off }
    }

    pub fn seafloor(&self, element: ElementNode) -> (r: LayerNode)
        requires
            element.off < 65536,
        ensures
            r.off == element.off + 4 * 65536,
    {
        LayerNode { off: element.off + 4 * 65536 }
    }

    pub fn transparent(&self, element: ElementNode) -> (r: LayerNode)
        requires
            element.off < 65536,
        ensures
            r.off == element.off + 8 * 65536,
    {
        LayerNode { off: element.off + 8 * 65536 }
    }

    pub fn foliage(&self, element: ElementNode) -> (r: LayerNode)
        requires
            element.off < 65536,
        ensures
            r.off == element.off + 12 * 65536,
    {
        LayerNode { off: element.off + 12 * 65536 }
    }

    pub fn biome(&self, element: ElementNode) -> (r: u16)
        requires
            element.off < 65536,
            self.data().len() >= TILE_DATA_LEN,
        ensures
            r == (((self.data()[element.off + 16 * 65536] as u16) << 8) | (self.data()[element.off
                + 17 * 65536] as u16)) as u16,
    {
        let n = self.raw.len();
        ((self.raw[element.off + 16 * 65536] as u16) << 8) | (self.raw[element.off + 17 * 65536] as u16)
    }

    pub fn height(&self, layer: LayerNode) -> (r: u8)
        requires
            layer.off < self.data().len(),
        ensures
            r == self.data()[layer.off as int],
    {
        let n = self.raw.len();
        self.raw[layer.off]
    }

    pub fn blockstate_id(&self, layer: LayerNode) -> (r: u16)
        requires
            layer.off + 2 * 65536 < self.data().len(),
        ensures
            r == (((self.data()[layer.off + 65536] as u16) << 8) | (self.data()[layer.off + 2
                * 65536] as u16)) as u16,
    {
        let n = self.raw.len();
        ((self.raw[layer.off + 65536] as u16) << 8) | (self.raw[layer.off + 2 * 65536] as u16)
    }

    pub fn light(&self, layer: LayerNode) -> (r: u8)
        requires
            layer.off + 3 * 65536 < self.data().len(),
        ensures
            r == self.data()[layer.off + 3 * 65536],
    {
        let n = self.raw.len();
        self.raw[layer.off + 3 * 65536]
    }

    pub fn skylight(&self, layer: LayerNode) -> (r: u8)
        requires
            layer.off + 3 * 65536 < self.data().len(),
        ensures
            r == ((self.data()[layer.off + 3 * 65536] & 0xF0) as u8) >> 4,
    {
        (self.light(layer) & 0xF0) >> 4
    }

    pub fn blocklight(&self, layer: LayerNode) -> (r: u8)
        requires
            layer.off + 3 * 65536 < self.data().len(),
        ensures
            r == self.data()[layer.off + 3 * 65536] & 0x0F,
    {
        self.light(layer) & 0x0F
    }
}

} // verus!
