use vstd::prelude::*;

use crate::memcard::MemcardError;
use crate::reader::ByteReader;
use crate::util::consumed;

verus! {

/// A page of the card: 512 bytes of data followed by 16 bytes of ECC.
#[derive(Debug, Clone, Copy)]
pub struct Page {
    pub raw: [u8; 512],
    pub ecc: [u8; 16],
}

/// `p` is the page stored in the first 528 bytes of `b`.
pub open spec fn page_from_bytes(p: Page, b: Seq<u8>) -> bool {
    &&& p.raw@ == b.subrange(0, 512)
    &&& p.ecc@ == b.subrange(512, 528)
}

impl Page {
    /// Reads a page and its ECC.
    pub fn read(reader: &mut ByteReader) -> (res: Result<Self, MemcardError>)
        ensures
            res is Ok <==> old(reader)@.len() >= 528,
            res matches Ok(p) ==> page_from_bytes(p, old(reader)@) && consumed(
                old(reader)@,
                final(reader)@,
                528,
            ),
            res is Err ==> res->Err_0 is Io,
    {
        let ghost b = reader@;
        let mut page = Page { raw: [0u8; 512], ecc: [0u8; 16] };
        reader.read_exact(&mut page.raw)?;
        reader.read_exact(&mut page.ecc)?;
        proof {
            assert(page.raw@ =~= b.subrange(0, 512));
            assert(page.ecc@ =~= b.subrange(512, 528));
            assert(reader@ =~= b.skip(528));
        }
        Ok(page)
    }

    /// ECC checking is not done: every page passes.
    pub fn validate_ecc(&self) -> (res: Result<(), MemcardError>)
        ensures
            res is Ok,
    {
        Ok(())
    }

    /// ECC is not computed: the page is left as it is.
    pub fn update_ecc(&self) {
    }
}

} // verus!
