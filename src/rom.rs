//! The cartridge image held in memory, with its glyph table.
use vstd::prelude::*;
use crate::dictionary::CharDictionary;

verus! {

/// A ROM address or size, carried as a signed 32-bit value.
pub type RomSize = i32;

/// The image's bytes, and the glyph table used to decode them.
pub struct ROM {
    dict: CharDictionary,
    buff: Vec<u8>,
}

/// Writes applied one after the other, each setting one address to one byte.
pub open spec fn apply_writes(bytes: Seq<u8>, writes: Seq<(int, u8)>) -> Seq<u8>
    decreases writes.len(),
{
    if writes.len() == 0 {
        bytes
    } else {
        let w = writes.last();
        apply_writes(bytes, writes.drop_last()).update(w.0, w.1)
    }
}

/// A reader that hands out the image's bytes one by one from an offset.
pub struct RomReader<'a> {
    bytes: &'a [u8],
    pos: usize,
}

impl<'a> RomReader<'a> {
    /// The bytes read from.
    pub closed spec fn source(&self) -> Seq<u8> {
        self.bytes@
    }

    /// The offset of the next byte.
    pub closed spec fn position(&self) -> nat {
        self.pos as nat
    }

    /// The next byte, or `None` once the image is exhausted.
    pub fn next(&mut self) -> (r: Option<u8>)
        ensures
            final(self).source() == old(self).source(),
            old(self).position() < old(self).source().len() ==> {
                &&& r == Some(old(self).source()[old(self).position() as int])
                &&& final(self).position() == old(self).position() + 1
            },
            old(self).position() >= old(self).source().len() ==> {
                &&& r is None
                &&& final(self).position() == old(self).position()
            },
    {
        if self.pos < self.bytes.len() {
            let b = self.bytes[self.pos];
            self.pos = self.pos + 1;
            Some(b)
        } else {
            None
        }
    }
}

impl ROM {
    /// The image's bytes.
    pub closed spec fn bytes(&self) -> Seq<u8> {
        self.buff@
    }

    /// The glyph table's entries.
    pub closed spec fn glyphs(&self) -> Seq<(u8, u8)> {
        self.dict@
    }

    /// The glyph table has an entry per byte value and the size fits a
    /// `RomSize`.
    pub open spec fn wf(&self) -> bool {
        &&& self.glyphs().len() == 256
        &&& self.bytes().len() <= i32::MAX
    }

    /// The glyph table.
    pub fn dict(&self) -> (r: &CharDictionary)
        requires
            self.wf(),
        ensures
            r@ == self.glyphs(),
            r.wf(),
    {
        &self.dict
    }

    /// Takes ownership of the image read from disk.
    pub fn new(dict: CharDictionary, buff: Vec<u8>) -> (r: ROM)
        requires
            dict.wf(),
            buff@.len() <= i32::MAX,
        ensures
            r.wf(),
            r.bytes() == buff@,
            r.glyphs() == dict@,
    {
        ROM { dict, buff }
    }

    /// Number of bytes in the image.
    pub fn size(&self) -> (r: RomSize)
        requires
            self.wf(),
        ensures
            r == self.bytes().len(),
    {
        self.buff.len() as RomSize
    }

    /// A reader positioned at offset `i`.
    pub fn iterator_from(&self, i: RomSize) -> (r: RomReader<'_>)
        requires
            0 <= i,
        ensures
            r.source() == self.bytes(),
            r.position() == i,
    {
        RomReader { bytes: self.buff.as_slice(), pos: i as usize }
    }

    /// The byte at offset `i`, if there is one.
    pub fn byte_at(&self, i: RomSize) -> (r: Option<u8>)
        ensures
            0 <= i < self.bytes().len() ==> r == Some(self.bytes()[i as int]),
            !(0 <= i < self.bytes().len()) ==> r is None,
    {
        if 0 <= i && (i as usize) < self.buff.len() {
            Some(self.buff[i as usize])
        } else {
            None
        }
    }

    /// The whole image, as it would be written to disk.
    pub fn as_bytes(&self) -> (r: &[u8])
        ensures
            r@ == self.bytes(),
    {
        self.buff.as_slice()
    }

    /// Overwrites the byte at offset `i`.
    pub fn set_byte(&mut self, i: RomSize, b: u8)
        requires
            0 <= i < old(self).bytes().len(),
        ensures
            final(self).bytes() == old(self).bytes().update(i as int, b),
            final(self).glyphs() == old(self).glyphs(),
            final(self).wf() == old(self).wf(),
    {
        self.buff.set(i as usize, b);
    }
}

/// Writing bytes never changes how many there are.
pub proof fn lemma_writes_keep_size(bytes: Seq<u8>, writes: Seq<(int, u8)>)
    requires
        forall|k: int| 0 <= k < writes.len() ==> 0 <= #[trigger] writes[k].0 < bytes.len(),
    ensures
        apply_writes(bytes, writes).len() == bytes.len(),
    decreases writes.len(),
{
    if writes.len() > 0 {
        lemma_writes_keep_size(bytes, writes.drop_last());
    }
}

} // verus!
