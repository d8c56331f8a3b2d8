//! The colour table shared by every picture of an archive.

use vstd::prelude::*;
use vstd::slice::slice_to_vec;
use crate::cursor::ByteCursor;
use crate::directory::LumpRecord;
use crate::error::WadError;

verus! {

/// The size of the colour table in bytes: 256 entries of red, green, blue.
pub const PALETTE_LEN: usize = 768;

/// The palette index that stands for "no pixel" in a decoded picture. It
/// is fixed ahead of time; `ColorUsage` tells after a run whether any
/// picture used it for a real pixel.
pub const TRANSPARENT: u8 = 251;

/// 256 colours, three bytes each, in the order red, green, blue.
#[derive(Debug)]
pub struct Palette {
    rgb: Vec<u8>,
}

impl View for Palette {
    type V = Seq<u8>;

    /// The 768 bytes of the table.
    closed spec fn view(&self) -> Seq<u8> {
        self.rgb@
    }
}

/// What is wrong with the palette lump at `offset` that announces `size`
/// bytes, if anything.
pub open spec fn palette_fault(bytes: Seq<u8>, offset: int, size: int) -> Option<WadError> {
    if offset > bytes.len() {
        Some(WadError::OutOfRange)
    } else if size < 768 || offset + 768 > bytes.len() {
        Some(WadError::Truncated)
    } else {
        None
    }
}

impl Clone for Palette {
    fn clone(&self) -> (copy: Palette)
        ensures
            copy@ == self@,
    {
        proof {
            use_type_invariant(self);
        }
        let rgb: Vec<u8> = self.rgb.clone();
        Palette { rgb }
    }
}

impl Palette {
    #[verifier::type_invariant]
    spec fn full(&self) -> bool {
        self.rgb@.len() == 768
    }

    /// A palette of the given table, where it has 768 bytes.
    pub fn new(rgb: Vec<u8>) -> (r: Option<Palette>)
        ensures
            rgb@.len() == 768 ==> r is Some && r->Some_0@ == rgb@,
            rgb@.len() != 768 ==> r is None,
    {
        if rgb.len() == PALETTE_LEN {
            Some(Palette { rgb })
        } else {
            None
        }
    }

    /// Reads the 768 bytes at the start of `lump`. No byte value is
    /// refused.
    pub fn load(bytes: &[u8], lump: &LumpRecord) -> (r: Result<Palette, WadError>)
        ensures
            match r {
                Ok(p) => palette_fault(bytes@, lump.offset as int, lump.size as int) is None && p@
                    == bytes@.subrange(lump.offset as int, lump.offset + 768),
                Err(e) => palette_fault(bytes@, lump.offset as int, lump.size as int) == Some(e),
            },
    {
        let mut c = ByteCursor::new(bytes);
        c.seek(lump.offset as u64)?;
        if lump.size < 768 {
            return Err(WadError::Truncated);
        }
        let table: &[u8] = c.read_bytes(PALETTE_LEN)?;
        Ok(Palette { rgb: slice_to_vec(table) })
    }

    /// The 768 bytes of the table.
    pub fn as_bytes(&self) -> (table: &[u8])
        ensures
            table@ == self@,
            table@.len() == 768,
    {
        proof {
            use_type_invariant(self);
        }
        self.rgb.as_slice()
    }

    /// The red, green and blue of the colour at `index`.
    pub fn color(&self, index: u8) -> (rgb: (u8, u8, u8))
        ensures
            self@.len() == 768,
            rgb.0 == self@[3 * index],
            rgb.1 == self@[3 * index + 1],
            rgb.2 == self@[3 * index + 2],
    {
        proof {
            use_type_invariant(self);
        }
        let at: usize = 3 * (index as usize);
        (self.rgb[at], self.rgb[at + 1], self.rgb[at + 2])
    }
}

} // verus!
