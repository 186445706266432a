//! The secure store: secret names mapped to an encrypted block and the key
//! that opens it.
//!
//! A secret is sealed under a key of its own and kept in a guarded memory
//! block with room to spare; the key has a block of its own. The blocks are
//! closed while they rest and opened for the time of a read. Replacing a
//! secret swaps block and key together and wipes the blocks that leave.

use crate::cipher::{apply_key_stream, xor_stream};
use crate::cipher::lemma_xor_stream_involution;
use crate::memory::{
    allocatable, lemma_round_up_is_ordered, lemma_round_up_to_page, round_up_to_page, zeros,
    BlockError, Protection, SecureMemoryBlock,
};
use rand::RngCore;
use vstd::prelude::*;
use vstd::utf8::{
    decode_utf8, encode_utf8, encode_utf8_decode_utf8, encode_utf8_valid_utf8, valid_utf8,
};

verus! {

/// Length in bytes of the key that seals one secret.
pub const KEY_BYTES: usize = 32;

/// Room that a block has beyond the sealed bytes it is made for.
pub const BLOCK_PADDING: usize = 32;

/// Why the store refused a secret.
#[derive(Clone, Copy, PartialEq, Eq, Structural, Debug)]
pub enum StoreError {
    /// No block can be had for the secret.
    AllocationError,
    /// The sealed bytes do not fit in their block.
    CapacityExceeded,
    /// The key does not have `KEY_BYTES` bytes.
    InvalidKey,
}

impl StoreError {
    /// The store's name for a failure of the block layer.
    pub open spec fn of_block(e: BlockError) -> StoreError {
        match e {
            BlockError::AllocationError => StoreError::AllocationError,
            BlockError::CapacityExceeded => StoreError::CapacityExceeded,
        }
    }

    /// Names a failure of the block layer as a failure of the store.
    pub fn from_block(e: BlockError) -> (out: StoreError)
        ensures
            out == Self::of_block(e),
    {
        match e {
            BlockError::AllocationError => StoreError::AllocationError,
            BlockError::CapacityExceeded => StoreError::CapacityExceeded,
        }
    }
}

/// What the store holds under one name: every byte of the block, the number
/// of sealed bytes at its start, and the key.
pub ghost struct StoredSecret {
    pub block: Seq<u8>,
    pub len: nat,
    pub key: Seq<u8>,
}

/// Whether a block can be had for `value` with pages of `page` bytes.
pub open spec fn storable(value: Seq<char>, page: usize) -> bool {
    &&& encode_utf8(value).len() + BLOCK_PADDING <= usize::MAX
    &&& allocatable((encode_utf8(value).len() + BLOCK_PADDING) as usize, page)
}

/// The entry that holds `value` sealed under `key`: the bytes of the text
/// under the key stream, then zero bytes up to the end of a block of whole
/// pages made for the sealed bytes and the padding.
pub open spec fn sealed(value: Seq<char>, key: Seq<u8>, page: usize) -> StoredSecret {
    let cipher = xor_stream(encode_utf8(value), key);
    let capacity = round_up_to_page(cipher.len() + BLOCK_PADDING, page as int);
    StoredSecret { block: cipher + zeros((capacity - cipher.len()) as nat), len: cipher.len(), key }
}

/// The text that `bytes` spell, or the empty text where they are not UTF-8.
pub open spec fn text_or_empty(bytes: Seq<u8>) -> Seq<char> {
    if valid_utf8(bytes) {
        decode_utf8(bytes)
    } else {
        Seq::empty()
    }
}

/// The text recovered from an entry: the sealed bytes at the start of the
/// block, under the key stream, as text.
pub open spec fn opened(secret: StoredSecret) -> Seq<char> {
    text_or_empty(xor_stream(secret.block.take(secret.len as int), secret.key))
}

/// The contents of a store after `value` was sealed under `key` and kept
/// under `name`.
pub open spec fn after_store(
    contents: Map<Seq<char>, StoredSecret>,
    name: Seq<char>,
    value: Seq<char>,
    key: Seq<u8>,
    page: usize,
) -> Map<Seq<char>, StoredSecret> {
    contents.insert(name, sealed(value, key, page))
}

/// What a store with these contents gives for `name`: the opened secret, or
/// nothing where it holds none.
pub open spec fn lookup(contents: Map<Seq<char>, StoredSecret>, name: Seq<char>) -> Option<
    Seq<char>,
> {
    if contents.contains_key(name) {
        Some(opened(contents[name]))
    } else {
        None
    }
}

/// `count` bytes from `rand`'s thread-local generator, filled in by
/// `RngCore::fill_bytes`. Only their number is known of them; the generator
/// panics where the system gives it no entropy.
#[verifier::external_body]
fn random_bytes(count: usize) -> (bytes: Vec<u8>)
    ensures
        bytes@.len() == count,
{
    let mut bytes = vec![0u8; count];
    rand::thread_rng().fill_bytes(&mut bytes);
    bytes
}

/// `String::from_utf8`: the text that `bytes` encode, where they are valid
/// UTF-8, and nothing otherwise.
#[verifier::external_body]
fn text_from_utf8(bytes: Vec<u8>) -> (text: Option<String>)
    ensures
        text is Some <==> valid_utf8(bytes@),
        text matches Some(s) ==> s@ == decode_utf8(bytes@),
{
    std::string::String::from_utf8(bytes).ok()
}

/// The blocks that left the store: the block of a secret and the block of its
/// key.
pub struct ReleasedBlocks {
    /// The block that held the sealed bytes.
    pub data: SecureMemoryBlock,
    /// The block that held the key.
    pub key: SecureMemoryBlock,
}

impl ReleasedBlocks {
    /// Whether both blocks are open and hold zero bytes only.
    pub open spec fn wiped(&self) -> bool {
        &&& self.data@ == zeros(self.data@.len())
        &&& self.key@ == zeros(self.key@.len())
        &&& self.data.protection() == Protection::ReadWrite
        &&& self.key.protection() == Protection::ReadWrite
    }
}

struct Entry {
    name: String,
    block: SecureMemoryBlock,
    key: SecureMemoryBlock,
    len: usize,
}

impl Entry {
    spec fn secret(self) -> StoredSecret {
        StoredSecret {
            block: self.block@,
            len: self.len as nat,
            key: self.key@.take(KEY_BYTES as int),
        }
    }

    /// Whether the entry is as the store keeps it: both blocks closed, the
    /// key whole, the sealed bytes within their block.
    spec fn idle(self) -> bool {
        &&& self.block.protection() == Protection::NoAccess
        &&& self.key.protection() == Protection::NoAccess
        &&& self.key@.len() >= KEY_BYTES
        &&& self.len <= self.block@.len()
    }

    /// Opens both blocks, reads the sealed bytes and the key, and closes the
    /// blocks again.
    fn read(&mut self) -> (read: (Vec<u8>, Vec<u8>))
        requires
            old(self).idle(),
        ensures
            final(self).idle(),
            final(self).name == old(self).name,
            final(self).secret() == old(self).secret(),
            read.0@ == old(self).secret().block.take(old(self).secret().len as int),
            read.1@ == old(self).secret().key,
    {
        let _ = self.block.protect(Protection::ReadWrite);
        let _ = self.key.protect(Protection::ReadWrite);
        let sealed = match self.block.read_raw(self.len) {
            Some(sealed) => sealed,
            None => Vec::new(),
        };
        let key = match self.key.read_raw(KEY_BYTES) {
            Some(key) => key,
            None => Vec::new(),
        };
        let _ = self.block.lock();
        let _ = self.key.lock();
        (sealed, key)
    }

    /// Opens both blocks, wipes them and hands them out.
    fn release(self) -> (released: ReleasedBlocks)
        requires
            self.idle(),
        ensures
            released.wiped(),
            released.data@.len() == self.block@.len(),
            released.key@.len() == self.key@.len(),
    {
        let mut data = self.block;
        let mut key = self.key;
        let _ = data.protect(Protection::ReadWrite);
        let _ = key.protect(Protection::ReadWrite);
        data.clear();
        key.clear();
        ReleasedBlocks { data, key }
    }
}

spec fn has_name(entries: Seq<Entry>, name: Seq<char>, i: int) -> bool {
    0 <= i < entries.len() && entries[i].name@ == name
}

spec fn distinct_names(entries: Seq<Entry>) -> bool {
    forall|i: int, j: int|
        0 <= i < entries.len() && 0 <= j < entries.len() && i != j ==> (#[trigger] entries[i]).name@
            != (#[trigger] entries[j]).name@
}

spec fn model_of(entries: Seq<Entry>) -> Map<Seq<char>, StoredSecret> {
    Map::new(
        |name: Seq<char>| exists|i: int| has_name(entries, name, i),
        |name: Seq<char>| entries[choose|i: int| has_name(entries, name, i)].secret(),
    )
}

proof fn lemma_model_at(entries: Seq<Entry>, i: int)
    requires
        distinct_names(entries),
        0 <= i < entries.len(),
    ensures
        model_of(entries).contains_key(entries[i].name@),
        model_of(entries)[entries[i].name@] == entries[i].secret(),
{
    assert(has_name(entries, entries[i].name@, i));
}

proof fn lemma_model_absent(entries: Seq<Entry>, name: Seq<char>)
    requires
        forall|i: int| 0 <= i < entries.len() ==> (#[trigger] entries[i]).name@ != name,
    ensures
        !model_of(entries).contains_key(name),
{
    assert forall|i: int| !has_name(entries, name, i) by {}
}

proof fn lemma_model_push(entries: Seq<Entry>, e: Entry)
    requires
        distinct_names(entries),
        !model_of(entries).contains_key(e.name@),
    ensures
        distinct_names(entries.push(e)),
        model_of(entries.push(e)) == model_of(entries).insert(e.name@, e.secret()),
{
    let after = entries.push(e);
    assert forall|i: int, j: int|
        0 <= i < after.len() && 0 <= j < after.len() && i != j implies (#[trigger] after[i]).name@
        != (#[trigger] after[j]).name@ by {
        // The new name is none of the old ones.
        if j == entries.len() {
            assert(has_name(entries, entries[i].name@, i));
        } else if i == entries.len() {
            assert(has_name(entries, entries[j].name@, j));
        }
    }
    let want = model_of(entries).insert(e.name@, e.secret());
    assert forall|name: Seq<char>| model_of(after).contains_key(name) <==> want.contains_key(
        name,
    ) by {
        if model_of(after).contains_key(name) {
            let i = choose|i: int| has_name(after, name, i);
            if i < entries.len() {
                assert(has_name(entries, name, i));
            }
        }
        if want.contains_key(name) {
            if name == e.name@ {
                assert(has_name(after, name, entries.len() as int));
            } else {
                let i = choose|i: int| has_name(entries, name, i);
                assert(has_name(after, name, i));
            }
        }
    }
    assert forall|name: Seq<char>| model_of(after).contains_key(name) implies model_of(after)[name]
        == want[name] by {
        let i = choose|i: int| has_name(after, name, i);
        lemma_model_at(after, i);
        if i < entries.len() {
            lemma_model_at(entries, i);
        }
    }
}

proof fn lemma_model_remove(entries: Seq<Entry>, at: int)
    requires
        distinct_names(entries),
        0 <= at < entries.len(),
    ensures
        distinct_names(entries.remove(at)),
        model_of(entries.remove(at)) == model_of(entries).remove(entries[at].name@),
{
    let after = entries.remove(at);
    let gone = entries[at].name@;
    assert forall|i: int| 0 <= i < after.len() implies #[trigger] after[i] == entries[if i < at {
        i
    } else {
        i + 1
    }] by {}
    assert forall|i: int, j: int|
        0 <= i < after.len() && 0 <= j < after.len() && i != j implies (#[trigger] after[i]).name@
        != (#[trigger] after[j]).name@ by {}
    let want = model_of(entries).remove(gone);
    assert forall|name: Seq<char>| model_of(after).contains_key(name) <==> want.contains_key(
        name,
    ) by {
        if model_of(after).contains_key(name) {
            let i = choose|i: int| has_name(after, name, i);
            let a = if i < at { i } else { i + 1 };
            assert(has_name(entries, name, a));
        }
        if want.contains_key(name) {
            let a = choose|a: int| has_name(entries, name, a);
            let i = if a < at { a } else { a - 1 };
            assert(has_name(after, name, i));
        }
    }
    assert forall|name: Seq<char>| model_of(after).contains_key(name) implies model_of(after)[name]
        == want[name] by {
        let i = choose|i: int| has_name(after, name, i);
        lemma_model_at(after, i);
        let a = if i < at { i } else { i + 1 };
        lemma_model_at(entries, a);
    }
}

fn position(entries: &Vec<Entry>, name: &String) -> (at: Option<usize>)
    ensures
        match at {
            Some(i) => i < entries@.len() && entries@[i as int].name@ == name@,
            None => forall|i: int| 0 <= i < entries@.len() ==> (#[trigger] entries@[i]).name@ != name@,
        },
{
    let mut i: usize = 0;
    while i < entries.len()
        invariant
            i <= entries@.len(),
            forall|j: int| 0 <= j < i ==> (#[trigger] entries@[j]).name@ != name@,
        decreases entries@.len() - i,
    {
        if entries[i].name == *name {
            return Some(i);
        }
        i += 1;
    }
    None
}

spec fn all_idle(entries: Seq<Entry>) -> bool {
    forall|i: int| 0 <= i < entries.len() ==> (#[trigger] entries[i]).idle()
}

/// Entries with the same names and the same secrets, place by place, are the
/// same store.
proof fn lemma_model_same(entries: Seq<Entry>, others: Seq<Entry>)
    requires
        distinct_names(entries),
        entries.len() == others.len(),
        forall|i: int|
            0 <= i < entries.len() ==> (#[trigger] entries[i]).name@ == others[i].name@
                && entries[i].secret() == others[i].secret(),
    ensures
        distinct_names(others),
        model_of(others) == model_of(entries),
{
    assert forall|i: int, j: int|
        0 <= i < others.len() && 0 <= j < others.len() && i != j implies (#[trigger] others[i]).name@
        != (#[trigger] others[j]).name@ by {
        assert(entries[i].name@ != entries[j].name@);
    }
    assert forall|name: Seq<char>| model_of(others).contains_key(name) <==> model_of(
        entries,
    ).contains_key(name) by {
        if model_of(others).contains_key(name) {
            let i = choose|i: int| has_name(others, name, i);
            assert(entries[i].name@ == name);
            assert(has_name(entries, name, i));
        }
        if model_of(entries).contains_key(name) {
            let i = choose|i: int| has_name(entries, name, i);
            assert(entries[i].name@ == others[i].name@);
            assert(has_name(others, name, i));
        }
    }
    assert forall|name: Seq<char>| model_of(others).contains_key(name) implies model_of(
        others,
    )[name] == model_of(entries)[name] by {
        let i = choose|i: int| has_name(others, name, i);
        assert(entries[i].name@ == name);
        lemma_model_at(others, i);
        lemma_model_at(entries, i);
    }
    assert(model_of(others) =~= model_of(entries));
}

/// Secret names mapped to their sealed block and key.
pub struct SecureStore {
    entries: Vec<Entry>,
    page: usize,
}

impl View for SecureStore {
    type V = Map<Seq<char>, StoredSecret>;

    /// What the store holds under each name.
    closed spec fn view(&self) -> Map<Seq<char>, StoredSecret> {
        model_of(self.entries@)
    }
}

impl SecureStore {
    #[verifier::type_invariant]
    spec fn well_formed(self) -> bool {
        &&& distinct_names(self.entries@)
        &&& all_idle(self.entries@)
    }

    fn take_entries(&mut self) -> (taken: Vec<Entry>)
        ensures
            taken@ == old(self).entries@,
            distinct_names(taken@),
            all_idle(taken@),
            final(self).entries@.len() == 0,
            final(self).page == old(self).page,
    {
        proof {
            use_type_invariant(&*self);
        }
        let mut taken: Vec<Entry> = Vec::new();
        core::mem::swap(&mut self.entries, &mut taken);
        taken
    }

    fn put_entries(&mut self, entries: Vec<Entry>)
        requires
            distinct_names(entries@),
            all_idle(entries@),
        ensures
            final(self).entries@ == entries@,
            final(self).page == old(self).page,
    {
        let mut entries = entries;
        core::mem::swap(&mut self.entries, &mut entries);
    }

    /// The page size that the store makes its blocks with.
    pub closed spec fn page_size(&self) -> usize {
        self.page
    }

    /// An empty store that makes its blocks with the machine's page size.
    pub fn new() -> (store: Self)
        ensures
            store@ == Map::<Seq<char>, StoredSecret>::empty(),
    {
        Self::with_page_size(crate::memory::system_page_size())
    }

    /// An empty store that makes its blocks with pages of `page` bytes.
    pub fn with_page_size(page: usize) -> (store: Self)
        ensures
            store@ == Map::<Seq<char>, StoredSecret>::empty(),
            store.page_size() == page,
    {
        let store = SecureStore { entries: Vec::new(), page };
        proof {
            lemma_model_absent_all(store.entries@);
        }
        store
    }

    /// The page size that the store makes its blocks with.
    pub fn block_page_size(&self) -> (page: usize)
        ensures
            page == self.page_size(),
    {
        self.page
    }

    /// Whether the store holds a secret under `key`.
    pub fn contains(&self, key: &str) -> (held: bool)
        ensures
            held == self@.contains_key(key@),
    {
        let name = key.to_owned();
        let at = position(&self.entries, &name);
        proof {
            use_type_invariant(self);
            match at {
                Some(i) => lemma_model_at(self.entries@, i as int),
                None => lemma_model_absent(self.entries@, name@),
            }
        }
        at.is_some()
    }

    /// Reads the sealed bytes and the key of the secret under `key`, where
    /// the store holds one. The blocks are opened for the read and closed
    /// again; the store is left as it was.
    fn read_entry(&mut self, key: &str) -> (read: Option<(Vec<u8>, Vec<u8>)>)
        ensures
            final(self)@ == old(self)@,
            final(self).page_size() == old(self).page_size(),
            read is Some <==> old(self)@.contains_key(key@),
            read matches Some(r) ==> {
                &&& r.0@ == old(self)@[key@].block.take(old(self)@[key@].len as int)
                &&& r.1@ == old(self)@[key@].key
            },
    {
        let name = key.to_owned();
        let mut entries = self.take_entries();
        let at = position(&entries, &name);
        let read = match at {
            Some(i) => {
                let ghost before = entries@;
                let mut entry = entries.remove(i);
                let read = entry.read();
                entries.insert(i, entry);
                proof {
                    lemma_model_at(before, i as int);
                    lemma_model_same(before, entries@);
                }
                Some(read)
            },
            None => {
                proof {
                    lemma_model_absent(entries@, name@);
                }
                None
            },
        };
        self.put_entries(entries);
        read
    }

    /// The key that seals the secret under `key`, where the store holds one.
    pub fn key_of(&mut self, key: &str) -> (found: Option<Vec<u8>>)
        ensures
            final(self)@ == old(self)@,
            final(self).page_size() == old(self).page_size(),
            found is Some <==> old(self)@.contains_key(key@),
            found matches Some(k) ==> k@ == old(self)@[key@].key,
    {
        match self.read_entry(key) {
            Some(read) => Some(read.1),
            None => None,
        }
    }

    /// Takes the secret under `key` out of the store, wipes its block and the
    /// block of its key, and hands both back. Where the store holds no such
    /// secret nothing changes.
    pub fn remove_secret(&mut self, key: &str) -> (released: Option<ReleasedBlocks>)
        ensures
            final(self)@ == old(self)@.remove(key@),
            final(self).page_size() == old(self).page_size(),
            released is Some <==> old(self)@.contains_key(key@),
            released matches Some(blocks) ==> blocks.wiped() && blocks.data@.len() == old(
                self,
            )@[key@].block.len(),
    {
        let name = key.to_owned();
        let mut entries = self.take_entries();
        let at = position(&entries, &name);
        proof {
            match at {
                Some(i) => {
                    lemma_model_at(entries@, i as int);
                    lemma_model_remove(entries@, i as int);
                },
                None => {
                    lemma_model_absent(entries@, name@);
                },
            }
        }
        let released = match at {
            Some(i) => {
                let entry = entries.remove(i);
                Some(entry.release())
            },
            None => None,
        };
        self.put_entries(entries);
        released
    }

    /// Seals `value` under a fresh random key and keeps it under `key`, in place
    /// of what the store held there. Where no block can be had the store is
    /// left as it was.
    pub fn store_secret(&mut self, key: String, value: String) -> (done: Result<(), StoreError>)
        ensures
            final(self).page_size() == old(self).page_size(),
            done is Ok <==> storable(value@, old(self).page_size()),
            done is Ok ==> {
                &&& final(self)@.contains_key(key@)
                &&& final(self)@[key@].key.len() == KEY_BYTES
                &&& final(self)@ == after_store(
                    old(self)@,
                    key@,
                    value@,
                    final(self)@[key@].key,
                    old(self).page_size(),
                )
                &&& lookup(final(self)@, key@) == Some(value@)
            },
            done matches Err(e) ==> e == StoreError::AllocationError && final(self)@ == old(self)@,
    {
        let encryption_key = random_bytes(KEY_BYTES);
        self.store_secret_with_key(key, value, encryption_key)
    }

    /// Seals `value` under `encryption_key` and keeps it under `key`, in place
    /// of what the store held there. A key of the wrong length is refused, and
    /// so is a value that no block can be had for; the store is then left as it
    /// was.
    pub fn store_secret_with_key(
        &mut self,
        key: String,
        value: String,
        encryption_key: Vec<u8>,
    ) -> (done: Result<(), StoreError>)
        ensures
            final(self).page_size() == old(self).page_size(),
            done is Ok <==> encryption_key@.len() == KEY_BYTES && storable(
                value@,
                old(self).page_size(),
            ),
            done is Ok ==> final(self)@ == after_store(
                old(self)@,
                key@,
                value@,
                encryption_key@,
                old(self).page_size(),
            ) && lookup(final(self)@, key@) == Some(value@),
            done matches Err(e) ==> {
                &&& final(self)@ == old(self)@
                &&& e == if encryption_key@.len() != KEY_BYTES {
                    StoreError::InvalidKey
                } else {
                    StoreError::AllocationError
                }
            },
    {
        match self.replace_secret_with_key(key, value, encryption_key) {
            Ok(_) => Ok(()),
            Err(e) => Err(e),
        }
    }

    /// Does what `store_secret_with_key` does, and hands back the blocks that
    /// the new ones took the place of, wiped, where there were any. The new
    /// blocks are made and filled before the old ones leave, so that a failure
    /// leaves the earlier secret in place.
    pub fn replace_secret_with_key(
        &mut self,
        key: String,
        value: String,
        encryption_key: Vec<u8>,
    ) -> (done: Result<Option<ReleasedBlocks>, StoreError>)
        ensures
            final(self).page_size() == old(self).page_size(),
            done is Ok <==> encryption_key@.len() == KEY_BYTES && storable(
                value@,
                old(self).page_size(),
            ),
            done matches Ok(released) ==> {
                &&& final(self)@ == after_store(
                    old(self)@,
                    key@,
                    value@,
                    encryption_key@,
                    old(self).page_size(),
                )
                &&& lookup(final(self)@, key@) == Some(value@)
                &&& released is Some <==> old(self)@.contains_key(key@)
                &&& released matches Some(blocks) ==> blocks.wiped() && blocks.data@.len() == old(
                    self,
                )@[key@].block.len()
            },
            done matches Err(e) ==> {
                &&& final(self)@ == old(self)@
                &&& e == if encryption_key@.len() != KEY_BYTES {
                    StoreError::InvalidKey
                } else {
                    StoreError::AllocationError
                }
            },
    {
        if encryption_key.len() != KEY_BYTES {
            return Err(StoreError::InvalidKey);
        }
        let encrypted_data = Self::encrypt(value.as_str().as_bytes(), encryption_key.as_slice());
        let block_size = match encrypted_data.len().checked_add(BLOCK_PADDING) {
            Some(n) => n,
            None => {
                return Err(StoreError::AllocationError);
            },
        };
        let mut block = match SecureMemoryBlock::with_page_size(block_size, self.page) {
            Ok(block) => block,
            Err(e) => {
                return Err(StoreError::from_block(e));
            },
        };
        proof {
            lemma_round_up_to_page(block_size as int, self.page as int);
        }
        match block.write(encrypted_data.as_slice()) {
            Ok(()) => {},
            Err(e) => {
                return Err(StoreError::from_block(e));
            },
        }
        proof {
            lemma_round_up_is_ordered(KEY_BYTES as int, block_size as int, self.page as int);
        }
        let mut key_block = match SecureMemoryBlock::with_page_size(KEY_BYTES, self.page) {
            Ok(key_block) => key_block,
            Err(e) => {
                block.clear();
                return Err(StoreError::from_block(e));
            },
        };
        proof {
            lemma_round_up_to_page(KEY_BYTES as int, self.page as int);
        }
        match key_block.write(encryption_key.as_slice()) {
            Ok(()) => {},
            Err(e) => {
                block.clear();
                return Err(StoreError::from_block(e));
            },
        }
        assert(key_block@.take(KEY_BYTES as int) =~= encryption_key@);
        let _ = block.lock();
        let _ = key_block.lock();
        let released = self.remove_secret(key.as_str());
        let entry = Entry { name: key, block, key: key_block, len: encrypted_data.len() };
        let mut entries = self.take_entries();
        proof {
            lemma_store_then_get(old(self)@, entry.name@, value@, encryption_key@, self.page);
            lemma_model_push(entries@, entry);
            assert(old(self)@.remove(entry.name@).insert(entry.name@, entry.secret()) =~= old(
                self,
            )@.insert(entry.name@, entry.secret()));
        }
        entries.push(entry);
        self.put_entries(entries);
        Ok(released)
    }

    /// The secret kept under `key`, opened with its own key, or nothing where
    /// the store holds none. Bytes that are not UTF-8 open to the empty text.
    /// The blocks of the secret are opened for the read and closed again.
    pub fn get_secret(&mut self, key: &str) -> (found: Option<String>)
        ensures
            final(self)@ == old(self)@,
            final(self).page_size() == old(self).page_size(),
            match found {
                Some(text) => lookup(old(self)@, key@) == Some(text@),
                None => lookup(old(self)@, key@) is None,
            },
    {
        match self.read_entry(key) {
            Some(read) => {
                let decrypted_data = Self::decrypt(read.0.as_slice(), read.1.as_slice());
                match text_from_utf8(decrypted_data) {
                    Some(text) => Some(text),
                    None => Some(String::new()),
                }
            },
            None => None,
        }
    }

    /// `data` under the key stream of `key`.
    pub fn encrypt(data: &[u8], key: &[u8]) -> (out: Vec<u8>)
        ensures
            out@ == xor_stream(data@, key@),
    {
        apply_key_stream(data, key)
    }

    /// `data` under the key stream of `key`, which undoes `encrypt` with the
    /// same key.
    pub fn decrypt(data: &[u8], key: &[u8]) -> (out: Vec<u8>)
        ensures
            out@ == xor_stream(data@, key@),
    {
        Self::encrypt(data, key)
    }

    /// Number of secrets in the store.
    pub fn len(&self) -> (n: usize)
        ensures
            n == self@.dom().len(),
    {
        proof {
            use_type_invariant(self);
            lemma_model_len(self.entries@);
        }
        self.entries.len()
    }

    /// Wipes every block, leaves the store empty and hands the blocks back.
    pub fn wipe(&mut self) -> (released: Vec<ReleasedBlocks>)
        ensures
            final(self)@ == Map::<Seq<char>, StoredSecret>::empty(),
            final(self).page_size() == old(self).page_size(),
            released@.len() == old(self)@.dom().len(),
            forall|i: int| 0 <= i < released@.len() ==> (#[trigger] released@[i]).wiped(),
    {
        let mut entries = self.take_entries();
        let mut released: Vec<ReleasedBlocks> = Vec::new();
        proof {
            lemma_model_len(entries@);
        }
        while entries.len() > 0
            invariant
                all_idle(entries@),
                released@.len() + entries@.len() == old(self)@.dom().len(),
                forall|i: int| 0 <= i < released@.len() ==> (#[trigger] released@[i]).wiped(),
            decreases entries@.len(),
        {
            let entry = entries.remove(entries.len() - 1);
            released.push(entry.release());
        }
        proof {
            lemma_model_absent_all(self.entries@);
        }
        released
    }
}

proof fn lemma_model_absent_all(entries: Seq<Entry>)
    requires
        entries.len() == 0,
    ensures
        model_of(entries) == Map::<Seq<char>, StoredSecret>::empty(),
{
    assert forall|name: Seq<char>| !model_of(entries).contains_key(name) by {
        lemma_model_absent(entries, name);
    }
}

proof fn lemma_model_len(entries: Seq<Entry>)
    requires
        distinct_names(entries),
    ensures
        model_of(entries).dom().finite(),
        model_of(entries).dom().len() == entries.len(),
    decreases entries.len(),
{
    if entries.len() == 0 {
        lemma_model_absent_all(entries);
    } else {
        let last = entries.len() - 1;
        let rest = entries.remove(last);
        lemma_model_remove(entries, last);
        lemma_model_len(rest);
        lemma_model_at(entries, last);
    }
}

/// A text can be stored wherever the page size is not zero and the text, the
/// padding and one page more stay within what an allocation can have.
pub proof fn lemma_storable(value: Seq<char>, page: usize)
    requires
        page > 0,
        encode_utf8(value).len() + BLOCK_PADDING + page <= isize::MAX,
    ensures
        storable(value, page),
{
    lemma_round_up_to_page(encode_utf8(value).len() + BLOCK_PADDING, page as int);
}

/// Round trip: a text that was stored comes back as it went in, whatever
/// the text and whatever the bytes of the key.
pub proof fn lemma_store_then_get(
    contents: Map<Seq<char>, StoredSecret>,
    name: Seq<char>,
    value: Seq<char>,
    key: Seq<u8>,
    page: usize,
)
    requires
        key.len() == KEY_BYTES,
    ensures
        lookup(after_store(contents, name, value, key, page), name) == Some(value),
{
    let bytes = encode_utf8(value);
    let cipher = xor_stream(bytes, key);
    let secret = sealed(value, key, page);
    assert(secret.block.take(secret.len as int) =~= cipher);
    lemma_xor_stream_involution(bytes, key);
    encode_utf8_valid_utf8(value);
    encode_utf8_decode_utf8(value);
}

/// Overwrite: of two secrets stored under one name only the second is left,
/// and it is the second text that comes back, whole.
pub proof fn lemma_second_store_wins(
    contents: Map<Seq<char>, StoredSecret>,
    name: Seq<char>,
    first: Seq<char>,
    first_key: Seq<u8>,
    second: Seq<char>,
    second_key: Seq<u8>,
    page: usize,
)
    requires
        second_key.len() == KEY_BYTES,
    ensures
        after_store(
            after_store(contents, name, first, first_key, page),
            name,
            second,
            second_key,
            page,
        ) == after_store(contents, name, second, second_key, page),
        lookup(
            after_store(
                after_store(contents, name, first, first_key, page),
                name,
                second,
                second_key,
                page,
            ),
            name,
        ) == Some(second),
{
    assert(contents.insert(name, sealed(first, first_key, page)).insert(
        name,
        sealed(second, second_key, page),
    ) =~= contents.insert(name, sealed(second, second_key, page)));
    lemma_store_then_get(contents, name, second, second_key, page);
}

/// Absence: a name that the store does not hold gives nothing, and a store
/// that was just made holds no name.
pub proof fn lemma_absent_gives_nothing(contents: Map<Seq<char>, StoredSecret>, name: Seq<char>)
    ensures
        !contents.contains_key(name) ==> lookup(contents, name) is None,
        lookup(Map::<Seq<char>, StoredSecret>::empty(), name) is None,
{
}

/// Isolation: storing under one name changes nothing under another.
pub proof fn lemma_store_leaves_others(
    contents: Map<Seq<char>, StoredSecret>,
    name: Seq<char>,
    value: Seq<char>,
    key: Seq<u8>,
    page: usize,
    other: Seq<char>,
)
    requires
        other != name,
    ensures
        lookup(after_store(contents, name, value, key, page), other) == lookup(contents, other),
{
}

} // verus!
