//! Loading one tile out of its archive: the raw sample buffer, the parsed
//! key table with its precomputed colors, and the control metadata.

use vstd::prelude::*;

use crate::color::BakedColorManager;
use crate::color::spec_basic_color;
use crate::color::calculate::Rgba;
use crate::render::control::Control;
use crate::render::control::spec_control_step;
use crate::render::data::TILE_DATA_LEN;
use crate::render::data::V1TileView;
use crate::render::data::V2TileView;
use crate::render::key::BlockProps;
use crate::render::key::KeyLine;
use crate::render::key::SplitIter;
use crate::render::key::spec_block_props;
use crate::render::key::spec_keyline;
use crate::render::key::spec_state_parts;
use crate::text::lines_of;
use crate::text::split_lines;

verus! {

use vstd::string::StringSliceAdditionalSpecFns;
use vstd::utf8::valid_utf8;

/// What the archive library finds under an entry name: the entry's
/// uncompressed bytes, or nothing when the archive is unreadable or has no
/// such entry. It depends on the archive bytes and the name alone.
pub uninterp spec fn zip_entry_of(archive: Seq<u8>, name: Seq<char>) -> Option<Seq<u8>>;

/// Relies on `zip::ZipArchive::new` and `zip::ZipArchive::by_name`: entry
/// extraction is a function of the archive bytes and the entry name.
#[verifier::external_body]
fn zip_entry(archive: &[u8], name: &str) -> (r: Option<Vec<u8>>)
    ensures
        match r {
            Some(v) => zip_entry_of(archive@, name@) == Some(v@),
            None => zip_entry_of(archive@, name@) is None,
        },
{
    let mut za = zip::ZipArchive::new(std::io::Cursor::new(archive)).ok()?;
    let mut f = za.by_name(name).ok()?;
    let mut buf = Vec::new();
    std::io::Read::read_to_end(&mut f, &mut buf).ok()?;
    Some(buf)
}

/// Relies on `std::str::from_utf8`: it accepts exactly the valid UTF-8 byte
/// strings.
#[verifier::external_body]
fn utf8_ok(b: &[u8]) -> (r: bool)
    ensures
        r == valid_utf8(b@),
{
    std::str::from_utf8(b).is_ok()
}

/// Why a tile archive was rejected.
#[derive(Clone, Copy, PartialEq, Eq, Structural, Debug)]
pub enum TileError {
    /// The archive is unreadable or has no `data` entry.
    Data,
    /// The `data` entry is not exactly one tile of samples.
    DataLength,
    /// The archive has no `key` entry.
    Key,
    /// The `key` entry is not UTF-8 text.
    KeyEncoding,
}

/// One key line's table entry: the resolved basic color and the block
/// properties, or the transparent default for an unparsable line.
pub open spec fn spec_key_entry(mgr: BakedColorManager, line: Seq<u8>) -> (Rgba, BlockProps) {
    match spec_keyline(line) {
        Ok(t) => {
            let props = spec_block_props(t.1, spec_state_parts(t.2));
            (spec_basic_color(mgr, t.1, spec_state_parts(t.2), props.waterlogged), props)
        },
        Err(_) => (
            Rgba { r: 0, g: 0, b: 0, a: 0 },
            BlockProps {
                air: true,
                water: false,
                waterlogged: false,
                biome_color: crate::color::biome::InnerColor::Plain,
            },
        ),
    }
}

/// The whole key table of a tile's key text.
pub open spec fn spec_tile_key(mgr: BakedColorManager, text: Seq<u8>) -> Seq<(Rgba, BlockProps)> {
    lines_of(text).map_values(|line: Seq<u8>| spec_key_entry(mgr, line))
}

/// Control lines applied in order, stopping at the first malformed one.
pub open spec fn spec_control_fold(cur: u32, lines: Seq<Seq<u8>>) -> u32
    decreases lines.len(),
{
    if lines.len() == 0 {
        cur
    } else {
        match spec_control_step(cur, lines.first()) {
            Ok(v) => spec_control_fold(v, lines.drop_first()),
            Err(_) => cur,
        }
    }
}

/// The layout version a tile's optional control entry declares: absent or
/// non-UTF-8 control text keeps the default of 1.
pub open spec fn spec_tile_version(archive: Seq<u8>) -> u32 {
    match zip_entry_of(archive, "control"@) {
        Some(c) => if valid_utf8(c) {
            spec_control_fold(1, lines_of(c))
        } else {
            1
        },
        None => 1,
    }
}

/// One loaded tile: its coordinates, the raw sample buffer, the key table
/// with colors resolved, and the control metadata.
pub struct Tile {
    id: (i32, i32),
    data: Vec<u8>,
    key: Vec<(Rgba, BlockProps)>,
    control: Control,
}

/// Either layout's view over a tile buffer.
pub enum TileView<'a> {
    V1(V1TileView<'a>),
    V2(V2TileView<'a>),
}

impl Tile {
    /// The raw sample buffer.
    pub closed spec fn data(self) -> Seq<u8> {
        self.data@
    }

    /// The tile's `(x, z)` coordinates.
    pub closed spec fn spec_id(self) -> (i32, i32) {
        self.id
    }

    /// The key table.
    pub closed spec fn key_seq(self) -> Seq<(Rgba, BlockProps)> {
        self.key@
    }

    /// The declared layout version.
    pub closed spec fn version(self) -> u32 {
        self.control.version
    }

    /// A loaded tile always holds a full sample buffer.
    pub open spec fn wf(self) -> bool {
        self.data().len() == TILE_DATA_LEN
    }

    /// Loads a tile from its archive: the `data` entry must be exactly one
    /// tile of samples, the `key` entry must be UTF-8 text whose lines build
    /// the key table, and an optional `control` entry may change the layout
    /// version.
    #[verifier::loop_isolation(false)]
    pub fn load(archive: &[u8], id: (i32, i32), mgr: &BakedColorManager) -> (r: Result<
        Tile,
        TileError,
    >)
        requires
            mgr.wf(),
        ensures
            match r {
                Ok(t) => {
                    &&& zip_entry_of(archive@, "data"@) matches Some(d) && t.data() == d
                        && d.len() == TILE_DATA_LEN
                    &&& zip_entry_of(archive@, "key"@) matches Some(k) && valid_utf8(k)
                        && t.key_seq() == spec_tile_key(*mgr, k)
                    &&& t.version() == spec_tile_version(archive@)
                    &&& t.spec_id() == id
                    &&& t.wf()
                },
                Err(e) => match e {
                    TileError::Data => zip_entry_of(archive@, "data"@) is None,
                    TileError::DataLength => zip_entry_of(archive@, "data"@) matches Some(d)
                        && d.len() != TILE_DATA_LEN,
                    TileError::Key => zip_entry_of(archive@, "data"@) matches Some(d) && d.len()
                        == TILE_DATA_LEN && zip_entry_of(archive@, "key"@) is None,
                    TileError::KeyEncoding => zip_entry_of(archive@, "data"@) matches Some(d)
                        && d.len() == TILE_DATA_LEN && (zip_entry_of(archive@, "key"@) matches Some(
                        k,
                    ) && !valid_utf8(k)),
                },
            },
    {
        let data = match zip_entry(archive, "data") {
            Some(d) => d,
            None => {
                return Err(TileError::Data);
            },
        };
        if data.len() != TILE_DATA_LEN {
            return Err(TileError::DataLength);
        }
        let key_text = match zip_entry(archive, "key") {
            Some(k) => k,
            None => {
                return Err(TileError::Key);
            },
        };
        if !utf8_ok(key_text.as_slice()) {
            return Err(TileError::KeyEncoding);
        }
        let lines = split_lines(key_text.as_slice());
        let mut key: Vec<(Rgba, BlockProps)> = Vec::new();
        let mut i: usize = 0;
        while i < lines.len()
            invariant
                0 <= i <= lines@.len(),
                key@ =~= lines.deep_view().take(i as int).map_values(
                    |line: Seq<u8>| spec_key_entry(*mgr, line),
                ),
                mgr.wf(),
            decreases lines@.len() - i,
        {
            let ghost lv = lines.deep_view()[i as int];
            proof {
                assert(lv =~= lines@[i as int]@);
            }
            let entry = match KeyLine::try_parse(lines[i].as_slice()) {
                Ok(kl) => {
                    let parts = SplitIter::from_state(&kl.state);
                    let props = BlockProps::new_from(kl.name.as_slice(), &parts.0);
                    let wl = props.waterlogged;
                    let color = mgr.get_basic_color(kl.name.as_slice(), &parts.0, wl);
                    (color, props)
                },
                Err(_) => (Rgba::transparent(), BlockProps::new()),
            };
            proof {
                assert(entry == spec_key_entry(*mgr, lv));
            }
            key.push(entry);
            proof {
                assert(lines.deep_view().take(i + 1) =~= lines.deep_view().take(i as int).push(lv));
                assert(key@ =~= lines.deep_view().take(i + 1).map_values(
                    |line: Seq<u8>| spec_key_entry(*mgr, line),
                ));
            }
            i = i + 1;
        }
        proof {
            assert(lines.deep_view().take(i as int) =~= lines.deep_view());
        }
        let mut control = Control::default();
        match zip_entry(archive, "control") {
            Some(ctext) => {
                if utf8_ok(ctext.as_slice()) {
                    let clines = split_lines(ctext.as_slice());
                    let mut j: usize = 0;
                    let mut stopped = false;
                    proof {
                        assert(clines.deep_view().skip(0) =~= clines.deep_view());
                    }
                    while j < clines.len() && !stopped
                        invariant
                            0 <= j <= clines@.len(),
                            !stopped ==> spec_control_fold(1, clines.deep_view()) == spec_control_fold(
                                control.version,
                                clines.deep_view().skip(j as int),
                            ),
                            stopped ==> control.version == spec_control_fold(
                                1,
                                clines.deep_view(),
                            ),
                        decreases clines@.len() - j,
                    {
                        let ghost cv = clines.deep_view()[j as int];
                        let ghost pre = control.version;
                        proof {
                            assert(cv =~= clines@[j as int]@);
                            assert(clines.deep_view().skip(j as int).first() == cv);
                            assert(clines.deep_view().skip(j as int).drop_first()
                                =~= clines.deep_view().skip(j + 1));
                        }
                        match control.modify_by(clines[j].as_slice()) {
                            Ok(_) => {
                            },
                            Err(_) => {
                                stopped = true;
                            },
                        }
                        j = j + 1;
                    }
                    proof {
                        if !stopped {
                            assert(clines.deep_view().skip(j as int)
                                =~= Seq::<Seq<u8>>::empty());
                        }
                    }
                }
            },
            None => {
            },
        }
        Ok(Tile { id, data, key, control })
    }

    /// The layout view the control version selects: version 2 uses the
    /// planar view, every other version the packed one.
    pub fn view<'a>(&'a self) -> (r: TileView<'a>)
        requires
            self.wf(),
        ensures
            self.version() == 2 ==> (r matches TileView::V2(v) && v.data() == self.data()),
            self.version() != 2 ==> (r matches TileView::V1(v) && v.data() == self.data()),
    {
        if self.control.version == 2 {
            TileView::V2(V2TileView::bind(self.data.as_slice()))
        } else {
            TileView::V1(V1TileView::bind(self.data.as_slice()))
        }
    }

    /// The key entry of a 1-based block-state id.
    pub fn get_color(&self, id: u16) -> (r: &(Rgba, BlockProps))
        requires
            1 <= id,
            id <= self.key_seq().len(),
        ensures
            *r == self.key_seq()[id - 1],
    {
        &self.key[(id - 1) as usize]
    }

    /// How many entries the key table holds.
    pub fn key_len(&self) -> (r: usize)
        ensures
            r == self.key_seq().len(),
    {
        self.key.len()
    }
}

} // verus!
