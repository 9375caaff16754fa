use vstd::prelude::*;

use crate::memcard::page::{page_from_bytes, Page};
use crate::memcard::MemcardError;
use crate::reader::ByteReader;
use crate::util::consumed;

verus! {

/// A run of pages read one after the other.
#[derive(Debug, Clone)]
pub struct Block {
    pub pages: Vec<Page>,
}

impl Block {
    /// Reads 512 consecutive pages.
    pub fn read(reader: &mut ByteReader) -> (res: Result<Self, MemcardError>)
        ensures
            res is Ok <==> old(reader)@.len() >= 512 * 528,
            res matches Ok(blk) ==> {
                &&& blk.pages@.len() == 512
                &&& forall|i: int|
                    0 <= i < 512 ==> #[trigger] page_from_bytes(
                        blk.pages@[i],
                        old(reader)@.skip(528 * i),
                    )
                &&& consumed(old(reader)@, final(reader)@, 512 * 528int)
            },
            res is Err ==> res->Err_0 is Io,
    {
        let ghost b = reader@;
        let mut pages: Vec<Page> = Vec::new();
        let mut i: usize = 0;
        while i < 512
            invariant
                i <= 512,
                b == old(reader)@,
                528 * i <= b.len(),
                reader@ == b.skip(528 * i),
                pages@.len() == i,
                forall|j: int| 0 <= j < i ==> #[trigger] page_from_bytes(pages@[j], b.skip(528 * j)),
            decreases 512 - i,
        {
            let page = match Page::read(reader) {
                Ok(p) => p,
                Err(e) => {
                    assert(b.len() < 512 * 528);
                    return Err(e);
                },
            };
            proof {
                assert(b.skip(528 * i).skip(528) =~= b.skip(528 * (i + 1)));
            }
            let ghost prev = pages@;
            pages.push(page);
            i = i + 1;
            proof {
                assert forall|j: int| 0 <= j < i implies #[trigger] page_from_bytes(
                    pages@[j],
                    b.skip(528 * j),
                ) by {
                    if j < i - 1 {
                        assert(pages@[j] == prev[j]);
                    }
                }
            }
        }
        Ok(Block { pages })
    }

    /// Checks the ECC of every page; as page ECC is not checked, this always
    /// succeeds.
    pub fn validate_ecc(&self) -> (res: Result<(), MemcardError>)
        ensures
            res is Ok,
    {
        let mut i: usize = 0;
        while i < self.pages.len()
            invariant
                i <= self.pages@.len(),
            decreases self.pages@.len() - i,
        {
            self.pages[i].validate_ecc()?;
            i = i + 1;
        }
        Ok(())
    }

    /// Recomputes the ECC of every page; as page ECC is not computed, the
    /// block is left as it is.
    pub fn update_ecc(&mut self)
        ensures
            final(self).pages@ == old(self).pages@,
    {
        let mut i: usize = 0;
        while i < self.pages.len()
            invariant
                i <= self.pages@.len(),
                self.pages@ == old(self).pages@,
            decreases self.pages@.len() - i,
        {
            self.pages[i].update_ecc();
            i = i + 1;
        }
    }
}

} // verus!
