//! Guarded memory blocks.
//!
//! A block owns a zero-initialised byte buffer whose size is a whole number of
//! memory pages. Writing wipes the buffer before the new bytes go in, reading
//! gives the bytes before the first zero byte, and an access flag records
//! whether the block may be touched at all.

use vstd::prelude::*;

verus! {

/// Access permission of a block's pages.
#[derive(Clone, Copy, PartialEq, Eq, Structural, Debug)]
pub enum Protection {
    /// The block may be read and written.
    ReadWrite,
    /// The block is idle and must not be touched.
    NoAccess,
}

/// Why a block operation was refused.
#[derive(Clone, Copy, PartialEq, Eq, Structural, Debug)]
pub enum BlockError {
    /// No region of the requested size can be had.
    AllocationError,
    /// The bytes to write do not fit in the block.
    CapacityExceeded,
}

/// `size` rounded up to the next multiple of `page`.
pub open spec fn round_up_to_page(size: int, page: int) -> int {
    ((size + page - 1) / page) * page
}

/// Whether a region for `size` bytes can be had with pages of `page` bytes:
/// the region is not empty, the page size is usable, and the rounded size is
/// one that an allocation can have.
pub open spec fn allocatable(size: usize, page: usize) -> bool {
    &&& size > 0
    &&& page > 0
    &&& round_up_to_page(size as int, page as int) <= isize::MAX
}

/// `n` zero bytes.
pub open spec fn zeros(n: nat) -> Seq<u8> {
    Seq::new(n, |i: int| 0u8)
}

/// Number of bytes before the first zero byte of `bytes`, or its length where
/// it holds none.
pub open spec fn zero_free_prefix_len(bytes: Seq<u8>) -> nat
    decreases bytes.len(),
{
    if bytes.len() == 0 || bytes[0] == 0 {
        0
    } else {
        1 + zero_free_prefix_len(bytes.drop_first())
    }
}

/// What a read of a buffer holding `bytes` gives: the bytes before the first
/// zero byte.
pub open spec fn logical_content(bytes: Seq<u8>) -> Seq<u8> {
    bytes.take(zero_free_prefix_len(bytes) as int)
}

/// Whether `bytes` holds no zero byte.
pub open spec fn zero_free(bytes: Seq<u8>) -> bool {
    forall|i: int| 0 <= i < bytes.len() ==> bytes[i] != 0
}

/// The prefix length is within the buffer, the prefix holds no zero byte, and
/// it ends at a zero byte or at the end of the buffer.
pub proof fn lemma_zero_free_prefix(bytes: Seq<u8>)
    ensures
        zero_free_prefix_len(bytes) <= bytes.len(),
        zero_free(logical_content(bytes)),
        zero_free_prefix_len(bytes) < bytes.len() ==> bytes[zero_free_prefix_len(bytes) as int]
            == 0,
    decreases bytes.len(),
{
    if bytes.len() > 0 && bytes[0] != 0 {
        let rest = bytes.drop_first();
        lemma_zero_free_prefix(rest);
        let n = zero_free_prefix_len(rest);
        assert forall|i: int| 0 <= i < n + 1 implies (#[trigger] bytes.take(n as int + 1)[i])
            != 0 by {
            if i > 0 {
                assert(bytes[i] == rest.take(n as int)[i - 1]);
            }
        }
    }
}

/// A zero-free prefix followed by a zero byte is exactly what a read gives.
pub proof fn lemma_logical_content_of_padded(data: Seq<u8>, rest: Seq<u8>)
    requires
        zero_free(data),
        rest.len() == 0 || rest[0] == 0,
    ensures
        logical_content(data + rest) == data,
    decreases data.len(),
{
    let all = data + rest;
    if data.len() > 0 {
        assert(all.drop_first() =~= data.drop_first() + rest);
        lemma_logical_content_of_padded(data.drop_first(), rest);
        lemma_zero_free_prefix(all.drop_first());
    }
}

/// Rounding up gives the least multiple of the page size that holds `size`.
pub proof fn lemma_round_up_to_page(size: int, page: int)
    requires
        size >= 0,
        page > 0,
    ensures
        round_up_to_page(size, page) % page == 0,
        size <= round_up_to_page(size, page) < size + page,
{
    let q = (size + page - 1) / page;
    vstd::arithmetic::div_mod::lemma_fundamental_div_mod(size + page - 1, page);
    vstd::arithmetic::div_mod::lemma_mod_bound(size + page - 1, page);
    vstd::arithmetic::div_mod::lemma_mod_multiples_basic(q, page);
    assert(q * page == page * q) by (nonlinear_arith);
}

/// Rounding up keeps the order of sizes.
pub proof fn lemma_round_up_is_ordered(small: int, large: int, page: int)
    requires
        0 <= small <= large,
        page > 0,
    ensures
        round_up_to_page(small, page) <= round_up_to_page(large, page),
{
    vstd::arithmetic::div_mod::lemma_div_is_ordered(small + page - 1, large + page - 1, page);
    vstd::arithmetic::mul::lemma_mul_inequality(
        (small + page - 1) / page,
        (large + page - 1) / page,
        page,
    );
}

/// The size of a memory page on this machine, as `page_size::get` reports it.
/// Nothing is claimed of the number: the callers check it.
#[verifier::external_body]
pub(crate) fn system_page_size() -> usize {
    page_size::get()
}

/// The size of the region that holds `size` bytes in whole pages of `page`
/// bytes, where such a region can be had.
pub fn aligned_size(size: usize, page: usize) -> (aligned: Option<usize>)
    ensures
        aligned is Some <==> allocatable(size, page),
        aligned is Some ==> aligned->0 == round_up_to_page(size as int, page as int),
{
    if size == 0 || page == 0 {
        return None;
    }
    let limit: usize = isize::MAX as usize;
    proof {
        lemma_round_up_to_page(size as int, page as int);
    }
    if size > limit || page > limit {
        proof {
            // A region of whole pages holds at least one page and at least `size` bytes.
            let q = (size as int + page as int - 1) / (page as int);
            vstd::arithmetic::div_mod::lemma_fundamental_div_mod(
                size as int + page as int - 1,
                page as int,
            );
            vstd::arithmetic::div_mod::lemma_mod_bound(size as int + page as int - 1, page as int);
            assert(q >= 1) by (nonlinear_arith)
                requires
                    size as int + page as int - 1 == (page as int) * q + (size as int + page as int
                        - 1) % (page as int),
                    0 <= (size as int + page as int - 1) % (page as int) < page as int,
                    size >= 1,
                    page >= 1,
            ;
            assert(q * (page as int) >= page as int) by (nonlinear_arith)
                requires
                    q >= 1,
                    page >= 1,
            ;
        }
        return None;
    }
    let pages: usize = (size - 1) / page + 1;
    proof {
        // (size + page - 1) / page == (size - 1) / page + 1
        vstd::arithmetic::div_mod::lemma_div_plus_one(size as int - 1, page as int);
    }
    match pages.checked_mul(page) {
        Some(total) => {
            if total > limit {
                None
            } else {
                Some(total)
            }
        },
        None => None,
    }
}

/// An owned, zero-initialised buffer of whole pages with an access flag.
pub struct SecureMemoryBlock {
    bytes: Vec<u8>,
    page: usize,
    mode: Protection,
}

impl View for SecureMemoryBlock {
    type V = Seq<u8>;

    /// Every byte of the buffer, in order.
    closed spec fn view(&self) -> Seq<u8> {
        self.bytes@
    }
}

impl SecureMemoryBlock {
    #[verifier::type_invariant]
    spec fn well_formed(self) -> bool {
        &&& self.page > 0
        &&& self.bytes@.len() > 0
        &&& self.bytes@.len() % (self.page as nat) == 0
        &&& self.bytes@.len() <= isize::MAX
    }

    /// The page size that the block was made with.
    pub closed spec fn page_size(&self) -> usize {
        self.page
    }

    /// The access permission that the block has now.
    pub closed spec fn protection(&self) -> Protection {
        self.mode
    }

    /// A block for `size` bytes in pages of the machine's page size, zero-filled
    /// and open for reading and writing. Whether a block is made rests on the
    /// page size that the machine reports: a block that was made is one that
    /// `allocatable` allows for its own page size, and a failure is an
    /// `AllocationError`.
    pub fn new(size: usize) -> (made: Result<Self, BlockError>)
        ensures
            match made {
                Ok(block) => {
                    &&& allocatable(size, block.page_size())
                    &&& block@ == zeros(
                        round_up_to_page(size as int, block.page_size() as int) as nat,
                    )
                    &&& block.protection() == Protection::ReadWrite
                },
                Err(e) => e == BlockError::AllocationError,
            },
    {
        Self::with_page_size(size, system_page_size())
    }

    /// A block for `size` bytes in pages of `page` bytes, zero-filled and open
    /// for reading and writing.
    pub fn with_page_size(size: usize, page: usize) -> (made: Result<Self, BlockError>)
        ensures
            made is Ok <==> allocatable(size, page),
            made matches Ok(block) ==> {
                &&& block@ == zeros(round_up_to_page(size as int, page as int) as nat)
                &&& block.page_size() == page
                &&& block.protection() == Protection::ReadWrite
            },
            made matches Err(e) ==> e == BlockError::AllocationError,
    {
        match aligned_size(size, page) {
            None => Err(BlockError::AllocationError),
            Some(total) => {
                let bytes: Vec<u8> = vec![0u8; total];
                proof {
                    lemma_round_up_to_page(size as int, page as int);
                }
                Ok(SecureMemoryBlock { bytes, page, mode: Protection::ReadWrite })
            },
        }
    }

    /// Number of bytes that the block can hold: a positive multiple of its page
    /// size.
    pub fn capacity(&self) -> (n: usize)
        ensures
            n == self@.len(),
            n > 0,
            n % self.page_size() == 0,
    {
        proof {
            use_type_invariant(self);
        }
        self.bytes.len()
    }

    /// Whether the block may be read and written now.
    pub fn is_accessible(&self) -> (open: bool)
        ensures
            open == (self.protection() == Protection::ReadWrite),
    {
        match self.mode {
            Protection::ReadWrite => true,
            Protection::NoAccess => false,
        }
    }

    /// Zero-fills the block.
    pub fn clear(&mut self)
        requires
            old(self).protection() == Protection::ReadWrite,
        ensures
            final(self)@ == zeros(old(self)@.len()),
            final(self).page_size() == old(self).page_size(),
            final(self).protection() == old(self).protection(),
    {
        let mut i: usize = 0;
        while i < self.bytes.len()
            invariant
                self.bytes@.len() == old(self).bytes@.len(),
                self.page == old(self).page,
                self.mode == old(self).mode,
                i <= self.bytes@.len(),
                forall|j: int| 0 <= j < i ==> self.bytes@[j] == 0u8,
            decreases self.bytes@.len() - i,
        {
            proof {
                use_type_invariant(&*self);
            }
            self.bytes[i] = 0;
            i += 1;
        }
    }

    /// Replaces what the block holds by `data`. Bytes that do not fit are
    /// refused and leave the block as it was; otherwise the block is wiped
    /// first, so that nothing of its earlier content is left behind `data`.
    pub fn write(&mut self, data: &[u8]) -> (done: Result<(), BlockError>)
        requires
            old(self).protection() == Protection::ReadWrite,
        ensures
            final(self).page_size() == old(self).page_size(),
            final(self).protection() == old(self).protection(),
            data@.len() > old(self)@.len() ==> done == Err::<(), BlockError>(
                BlockError::CapacityExceeded,
            ) && final(self)@ == old(self)@,
            data@.len() <= old(self)@.len() ==> done is Ok && final(self)@ == data@ + zeros(
                (old(self)@.len() - data@.len()) as nat,
            ),
    {
        if data.len() > self.bytes.len() {
            return Err(BlockError::CapacityExceeded);
        }
        self.clear();
        let mut i: usize = 0;
        while i < data.len()
            invariant
                self.bytes@.len() == old(self).bytes@.len(),
                self.page == old(self).page,
                self.mode == old(self).mode,
                data@.len() <= self.bytes@.len(),
                i <= data@.len(),
                forall|j: int| 0 <= j < i ==> self.bytes@[j] == data@[j],
                forall|j: int| i <= j < self.bytes@.len() ==> self.bytes@[j] == 0u8,
            decreases data@.len() - i,
        {
            proof {
                use_type_invariant(&*self);
            }
            self.bytes[i] = data[i];
            i += 1;
        }
        Ok(())
    }

    /// The bytes before the first zero byte of the block.
    pub fn read(&self) -> (out: Vec<u8>)
        requires
            self.protection() == Protection::ReadWrite,
        ensures
            out@ == logical_content(self@),
    {
        let mut out: Vec<u8> = Vec::new();
        let mut i: usize = 0;
        assert(self.bytes@.skip(0) =~= self.bytes@);
        while i < self.bytes.len() && self.bytes[i] != 0
            invariant
                i <= self.bytes@.len(),
                out@ == self.bytes@.take(i as int),
                zero_free_prefix_len(self.bytes@) == i + zero_free_prefix_len(
                    self.bytes@.skip(i as int),
                ),
            decreases self.bytes@.len() - i,
        {
            proof {
                assert(self.bytes@.skip(i as int).drop_first() =~= self.bytes@.skip(i + 1));
                assert(self.bytes@.take(i + 1) =~= self.bytes@.take(i as int).push(
                    self.bytes@[i as int],
                ));
            }
            out.push(self.bytes[i]);
            i += 1;
        }
        out
    }

    /// The first `len` bytes of the block as they are, zero bytes too, where
    /// the block has that many.
    pub fn read_raw(&self, len: usize) -> (out: Option<Vec<u8>>)
        requires
            self.protection() == Protection::ReadWrite,
        ensures
            out is Some <==> len <= self@.len(),
            out matches Some(bytes) ==> bytes@ == self@.take(len as int),
    {
        if len > self.bytes.len() {
            return None;
        }
        let mut out: Vec<u8> = Vec::new();
        let mut i: usize = 0;
        while i < len
            invariant
                i <= len <= self.bytes@.len(),
                out@ == self.bytes@.take(i as int),
            decreases len - i,
        {
            out.push(self.bytes[i]);
            i += 1;
        }
        Some(out)
    }

    /// Sets the access permission of the block. In memory that this library
    /// owns the change cannot fail.
    pub fn protect(&mut self, mode: Protection) -> (done: Result<(), BlockError>)
        ensures
            done is Ok,
            final(self).protection() == mode,
            final(self)@ == old(self)@,
            final(self).page_size() == old(self).page_size(),
    {
        proof {
            use_type_invariant(&*self);
        }
        self.mode = mode;
        Ok(())
    }

    /// Revokes all access to the block until it is opened again.
    pub fn lock(&mut self) -> (done: Result<(), BlockError>)
        ensures
            done is Ok,
            final(self).protection() == Protection::NoAccess,
            final(self)@ == old(self)@,
            final(self).page_size() == old(self).page_size(),
    {
        self.protect(Protection::NoAccess)
    }
}

} // verus!
