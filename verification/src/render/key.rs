//! Parsing of a tile's textual key section.
//!
//! Each line reads `"<id> Block{<name>}[<k=v>,...]"`, the bracketed state
//! segment being optional. A parsed line yields the block's name, its state
//! predicates, and the derived block properties.

use vstd::prelude::*;

use crate::color::biome::InnerColor;
use crate::color::biome::ends_with_leaves;
use crate::numfmt::parse_usize;
use crate::numfmt::parse_usize_spec;
use crate::text::bytes_eq;
use crate::text::find_byte;
use crate::text::first_index;
use crate::text::slice_subrange;
use crate::text::slice_to_vec;
use crate::text::split_bytes;
use crate::text::split_on;

verus! {

use vstd::string::StringSliceAdditionalSpecFns;

/// Properties derived from a block's name and state.
pub struct BlockProps {
    pub air: bool,
    pub water: bool,
    pub waterlogged: bool,
    pub biome_color: InnerColor,
}

/// Whether one `k=v` piece declares `waterlogged=true`.
pub open spec fn is_waterlogged_true(piece: Seq<u8>) -> bool {
    let parts = split_on(piece, 61);
    parts.len() >= 2 && parts[0] == "waterlogged".spec_bytes() && parts[1] == "true".spec_bytes()
}

/// The properties a name and state resolve to.
pub open spec fn spec_block_props(name: Seq<u8>, state: Seq<Seq<u8>>) -> BlockProps {
    BlockProps {
        air: name == "minecraft:air".spec_bytes(),
        water: name == "minecraft:water".spec_bytes(),
        waterlogged: exists|i: int| 0 <= i < state.len() && is_waterlogged_true(#[trigger] state[i]),
        biome_color: spec_inner_color(name),
    }
}

/// The tint class a block name resolves to.
pub open spec fn spec_inner_color(name: Seq<u8>) -> InnerColor {
    if name == "minecraft:water".spec_bytes() {
        InnerColor::Water
    } else if name == "minecraft:grass_block".spec_bytes() {
        InnerColor::Grass
    } else if name == "minecraft:lily_pad".spec_bytes() {
        InnerColor::Grass
    } else if ends_with_leaves(name) {
        InnerColor::Foliage
    } else {
        InnerColor::Plain
    }
}

impl BlockProps {
    /// The fallback entry for an unparsable key line: plain transparent air.
    pub fn new() -> (r: Self)
        ensures
            r.air == true,
            r.water == false,
            r.waterlogged == false,
            r.biome_color is Plain,
    {
        BlockProps { air: true, water: false, waterlogged: false, biome_color: InnerColor::Plain }
    }

    /// Derives the properties from a block name and its state predicates.
    #[verifier::loop_isolation(false)]
    pub fn new_from(name: &[u8], state: &Vec<Vec<u8>>) -> (r: Self)
        ensures
            r == spec_block_props(name@, state.deep_view()),
    {
        let ghost q = state.deep_view();
        let mut waterlogged = false;
        let mut i: usize = 0;
        while i < state.len()
            invariant
                0 <= i <= q.len(),
                waterlogged == exists|j: int| 0 <= j < i && is_waterlogged_true(#[trigger] q[j]),
            decreases q.len() - i,
        {
            proof {
                assert(q[i as int] =~= state@[i as int]@);
            }
            let parts = split_bytes(state[i].as_slice(), 61);
            if parts.len() >= 2 && bytes_eq(parts[0].as_slice(), "waterlogged".as_bytes())
                && bytes_eq(parts[1].as_slice(), "true".as_bytes()) {
                proof {
                    assert(parts.deep_view()[0] =~= parts@[0]@);
                    assert(parts.deep_view()[1] =~= parts@[1]@);
                    assert(parts.deep_view()[0] == split_on(q[i as int], 61)[0]);
                    assert(parts.deep_view()[1] == split_on(q[i as int], 61)[1]);
                    assert(is_waterlogged_true(q[i as int]));
                }
                waterlogged = true;
            } else {
                proof {
                    if is_waterlogged_true(q[i as int]) {
                        assert(parts.deep_view()[0] =~= parts@[0]@);
                        assert(parts.deep_view()[1] =~= parts@[1]@);
                        assert(parts.deep_view()[0] == split_on(q[i as int], 61)[0]);
                        assert(parts.deep_view()[1] == split_on(q[i as int], 61)[1]);
                        assert(parts@[0]@ == "waterlogged".spec_bytes());
                        assert(parts@[1]@ == "true".spec_bytes());
                    }
                }
            }
            i = i + 1;
        }
        let bc = InnerColor::from_name(name);
        BlockProps {
            air: bytes_eq(name, "minecraft:air".as_bytes()),
            water: bytes_eq(name, "minecraft:water".as_bytes()),
            waterlogged,
            biome_color: bc,
        }
    }
}

/// One parsed key line: the 1-based block-state id, the block name, and the
/// optional comma-separated state segment.
#[derive(Debug)]
pub struct KeyLine {
    pub id: usize,
    pub name: Vec<u8>,
    pub state: Option<Vec<u8>>,
}

/// What parsing a key line yields: id, name and state segment, or the byte
/// position at which parsing gave up.
pub open spec fn spec_keyline(s: Seq<u8>) -> Result<(int, Seq<u8>, Option<Seq<u8>>), int> {
    let i1 = first_index(s, 32);
    if i1 < 0 {
        Err(0)
    } else if parse_usize_spec(s.take(i1)) is None {
        Err(0)
    } else {
        let id = parse_usize_spec(s.take(i1))->Some_0;
        let r1 = s.skip(i1 + 1);
        let p1 = i1 + 1;
        let i2 = first_index(r1, 123);
        if i2 < 0 {
            Err(p1)
        } else if r1.take(i2) != "Block".spec_bytes() {
            Err(p1)
        } else {
            let r2 = r1.skip(i2 + 1);
            let p2 = p1 + i2 + 1;
            let i3 = first_index(r2, 125);
            if i3 < 0 {
                Err(p2)
            } else {
                let name = r2.take(i3);
                let r3 = r2.skip(i3 + 1);
                let p3 = p2 + i3 + 1;
                if r3.len() > 0 && r3[0] == 91 {
                    let r4 = r3.skip(1);
                    let p4 = p3 + 1;
                    let i4 = first_index(r4, 93);
                    if i4 < 0 {
                        Err(p4)
                    } else {
                        Ok((id, name, Some(r4.take(i4))))
                    }
                } else {
                    Ok((id, name, None))
                }
            }
        }
    }
}

impl KeyLine {
    /// Parses one key line, handing back the byte position of the failure
    /// when the line is malformed.
    pub fn try_parse(value: &[u8]) -> (r: Result<KeyLine, usize>)
        ensures
            match r {
                Ok(kl) => spec_keyline(value@) matches Ok(t) && t.0 == kl.id && t.1 == kl.name@
                    && (match kl.state {
                    Some(st) => spec_keyline(value@)->Ok_0.2 == Some(st@),
                    None => spec_keyline(value@)->Ok_0.2 is None,
                }),
                Err(e) => spec_keyline(value@) == Err::<(int, Seq<u8>, Option<Seq<u8>>), int>(
                    e as int,
                ),
            },
    {
        let i1 = match find_byte(value, 32) {
            Some(i) => i,
            None => {
                return Err(0);
            },
        };
        proof {
            crate::text::lemma_first_index(value@, 32);
        }
        let id = match parse_usize(slice_subrange(value, 0, i1)) {
            Some(id) => id,
            None => {
                proof {
                    assert(value@.subrange(0, i1 as int) =~= value@.take(i1 as int));
                }
                return Err(0);
            },
        };
        proof {
            assert(value@.subrange(0, i1 as int) =~= value@.take(i1 as int));
        }
        let n0 = value.len();
        let r1 = slice_subrange(value, i1 + 1, n0);
        proof {
            assert(r1@ =~= value@.skip(i1 + 1));
        }
        let p1 = i1 + 1;
        let i2 = match find_byte(r1, 123) {
            Some(i) => i,
            None => {
                return Err(p1);
            },
        };
        proof {
            crate::text::lemma_first_index(r1@, 123);
        }
        if !bytes_eq(slice_subrange(r1, 0, i2), "Block".as_bytes()) {
            proof {
                assert(r1@.subrange(0, i2 as int) =~= r1@.take(i2 as int));
            }
            return Err(p1);
        }
        proof {
            assert(r1@.subrange(0, i2 as int) =~= r1@.take(i2 as int));
        }
        let n1 = r1.len();
        let r2 = slice_subrange(r1, i2 + 1, n1);
        proof {
            assert(r2@ =~= r1@.skip(i2 + 1));
        }
        let p2 = p1 + i2 + 1;
        let i3 = match find_byte(r2, 125) {
            Some(i) => i,
            None => {
                return Err(p2);
            },
        };
        proof {
            crate::text::lemma_first_index(r2@, 125);
        }
        let name = slice_to_vec(slice_subrange(r2, 0, i3));
        proof {
            assert(name@ =~= r2@.take(i3 as int));
        }
        let n2 = r2.len();
        let r3 = slice_subrange(r2, i3 + 1, n2);
        proof {
            assert(r3@ =~= r2@.skip(i3 + 1));
        }
        let p3 = p2 + i3 + 1;
        if r3.len() > 0 && r3[0] == 91 {
            let r4 = slice_subrange(r3, 1, r3.len());
            proof {
                assert(r4@ =~= r3@.skip(1));
            }
            let p4 = p3 + 1;
            let i4 = match find_byte(r4, 93) {
                Some(i) => i,
                None => {
                    return Err(p4);
                },
            };
            proof {
                crate::text::lemma_first_index(r4@, 93);
            }
            let state = slice_to_vec(slice_subrange(r4, 0, i4));
            proof {
                assert(state@ =~= r4@.take(i4 as int));
            }
            Ok(KeyLine { id, name, state: Some(state) })
        } else {
            Ok(KeyLine { id, name, state: None })
        }
    }
}

/// The comma-separated pieces of an optional state segment; an absent
/// segment yields no pieces at all.
pub struct SplitIter(pub Vec<Vec<u8>>);

impl SplitIter {
    /// Splits the state segment into its predicates.
    pub fn from_state(state: &Option<Vec<u8>>) -> (r: SplitIter)
        ensures
            r.0.deep_view() == spec_state_parts(
                match state {
                    Some(s) => Some(s@),
                    None => None,
                },
            ),
    {
        match state {
            Some(s) => {
                let parts = split_bytes(s.as_slice(), 44);
                SplitIter(parts)
            },
            None => {
                let r = SplitIter(Vec::new());
                proof {
                    assert(r.0.deep_view() =~= Seq::<Seq<u8>>::empty());
                }
                r
            },
        }
    }
}

/// The predicate pieces of an optional state segment.
pub open spec fn spec_state_parts(state: Option<Seq<u8>>) -> Seq<Seq<u8>> {
    match state {
        Some(s) => split_on(s, 44),
        None => Seq::empty(),
    }
}

} // verus!
