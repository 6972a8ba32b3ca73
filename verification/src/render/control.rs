//! The tile's optional control section: `key:value` lines, of which only
//! `version` is recognized.

use vstd::prelude::*;

use crate::numfmt::parse_u32;
use crate::numfmt::parse_usize_spec;
use crate::text::find_byte;
use crate::text::first_index;
use crate::text::bytes_eq;
use crate::text::slice_subrange;

verus! {

use vstd::string::StringSliceAdditionalSpecFns;

/// Decode-control metadata; the layout version defaults to 1.
pub struct Control {
    pub version: u32,
}

/// What one control line does to the current version: a line without a colon
/// fails at the line's length, an unparsable version value fails at the
/// key's length, and an unrecognized key changes nothing.
pub open spec fn spec_control_step(cur: u32, line: Seq<u8>) -> Result<u32, int> {
    let i = first_index(line, 58);
    if i < 0 {
        Err(line.len() as int)
    } else {
        let head = line.take(i);
        let tail = line.skip(i + 1);
        if head == "version".spec_bytes() {
            if parse_usize_spec(tail) matches Some(v) && v <= u32::MAX {
                Ok(parse_usize_spec(tail)->Some_0 as u32)
            } else {
                Err(7)
            }
        } else {
            Ok(cur)
        }
    }
}

impl Default for Control {
    /// Version 1, the packed cell layout.
    fn default() -> (r: Self)
        ensures
            r.version == 1,
    {
        Control { version: 1 }
    }
}

impl Control {
    /// Applies one control line, as [`spec_control_step`] describes.
    pub fn modify_by(&mut self, line: &[u8]) -> (r: Result<(), usize>)
        ensures
            match spec_control_step(old(self).version, line@) {
                Ok(v) => r is Ok && final(self).version == v,
                Err(e) => r matches Err(e2) && e2 == e && final(self).version == old(self).version,
            },
    {
        let i = match find_byte(line, 58) {
            Some(i) => i,
            None => {
                return Err(line.len());
            },
        };
        let n = line.len();
        proof {
            crate::text::lemma_first_index(line@, 58);
        }
        let head = slice_subrange(line, 0, i);
        let tail = slice_subrange(line, i + 1, n);
        proof {
            assert(head@ =~= line@.take(i as int));
            assert(tail@ =~= line@.skip(i + 1));
        }
        if bytes_eq(head, "version".as_bytes()) {
            match parse_u32(tail) {
                Some(v) => {
                    self.version = v;
                },
                None => {
                    return Err(7);
                },
            }
        }
        Ok(())
    }
}

} // verus!
