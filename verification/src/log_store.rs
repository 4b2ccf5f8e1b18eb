//! An append-only log of text entries kept in one preallocated byte buffer.
//!
//! Each entry's bytes are copied into the buffer right behind the bytes of the
//! entry before it; a table of [`EntryMeta`] records where each entry starts
//! and how long it is, so that an entry can be read back by its index.

use vstd::prelude::*;
use vstd::utf8::{decode_utf8, encode_utf8, valid_utf8};
use vstd::slice::slice_subrange;
use crate::log_snapshot::LogSnapShot;

verus! {

broadcast use vstd::utf8::group_utf8_lib;

/// Number of entries that a store made by [`LogStore::new`] can hold.
pub const MAX_ENTRIES: usize = 1_000_000;

/// Number of bytes of entry text that a store made by [`LogStore::new`] can hold.
pub const MAX_DATA_BYTES: usize = 10_000_000;

/// Where one entry's bytes lie in the buffer.
#[derive(Debug, Clone, Copy)]
pub struct EntryMeta {
    offset: usize,
    len: usize,
}

impl EntryMeta {
    /// Position of the entry's first byte in the buffer.
    pub closed spec fn spec_offset(self) -> nat {
        self.offset as nat
    }

    /// Number of bytes of the entry.
    pub closed spec fn spec_len(self) -> nat {
        self.len as nat
    }

    pub fn new(offset: usize, len: usize) -> (meta: Self)
        ensures
            meta.spec_offset() == offset,
            meta.spec_len() == len,
    {
        Self { offset, len }
    }
}

impl Default for EntryMeta {
    fn default() -> (meta: Self)
        ensures
            meta.spec_offset() == 0,
            meta.spec_len() == 0,
    {
        Self { offset: 0, len: 0 }
    }
}

/// `std::str::from_utf8`, with its error turned into `None`. By its
/// documentation it succeeds exactly when the bytes are well-formed UTF-8, and
/// the text it then returns is the text that the bytes encode.
#[verifier::external_body]
fn text_from_utf8<'a>(bytes: &'a [u8]) -> (text: Option<&'a str>)
    ensures
        match text {
            Some(t) => valid_utf8(bytes@) && t@ == decode_utf8(bytes@),
            None => !valid_utf8(bytes@),
        },
{
    std::str::from_utf8(bytes).ok()
}

/// An append-only store of text entries.
#[derive(Debug)]
pub struct LogStore {
    data: Vec<u8>,
    metadata: Vec<EntryMeta>,
    entry_count: usize,
    data_pos: usize,
}

/// The bytes of the buffer that `meta` points at.
spec fn entry_bytes(data: Seq<u8>, meta: EntryMeta) -> Seq<u8> {
    data.subrange(meta.offset as int, meta.offset + meta.len)
}

impl View for LogStore {
    type V = Seq<Seq<char>>;

    /// The entries appended so far, in the order in which they were appended:
    /// the text that each recorded place in the buffer holds.
    closed spec fn view(&self) -> Seq<Seq<char>> {
        Seq::new(
            self.entry_count as nat,
            |i: int| decode_utf8(entry_bytes(self.data@, self.metadata@[i])),
        )
    }
}

impl LogStore {
    /// The store's own consistency: every entry's recorded place in the
    /// buffer lies below the write position and holds well-formed UTF-8.
    pub closed spec fn wf(&self) -> bool {
        &&& self.entry_count <= self.metadata@.len()
        &&& self.data_pos <= self.data@.len()
        &&& forall|i: int|
            0 <= i < self.entry_count ==> {
                let m = #[trigger] self.metadata@[i];
                &&& m.offset + m.len <= self.data_pos
                &&& valid_utf8(entry_bytes(self.data@, m))
            }
    }

    /// How many entries the store has room for.
    pub closed spec fn entry_capacity(&self) -> nat {
        self.metadata@.len()
    }

    /// How many bytes of entry text the store has room for.
    pub closed spec fn byte_capacity(&self) -> nat {
        self.data@.len()
    }

    /// How many bytes of the buffer the entries appended so far take up.
    pub closed spec fn bytes_used(&self) -> nat {
        self.data_pos as nat
    }

    /// An empty store with room for [`MAX_ENTRIES`] entries and
    /// [`MAX_DATA_BYTES`] bytes.
    pub fn new() -> (store: Self)
        ensures
            store.wf(),
            store@ == Seq::<Seq<char>>::empty(),
            store.entry_capacity() == MAX_ENTRIES,
            store.byte_capacity() == MAX_DATA_BYTES,
            store.bytes_used() == 0,
    {
        let data: Vec<u8> = vec![0u8; MAX_DATA_BYTES];
        let metadata: Vec<EntryMeta> = vec![EntryMeta::new(0, 0); MAX_ENTRIES];
        let store = Self { data, metadata, entry_count: 0, data_pos: 0 };
        assert(store@ =~= Seq::<Seq<char>>::empty());
        store
    }

    /// Number of entries appended so far.
    pub fn len(&self) -> (n: usize)
        requires
            self.wf(),
        ensures
            n == self@.len(),
    {
        self.entry_count
    }

    /// Number of buffer bytes that the entries appended so far take up.
    pub fn used_bytes(&self) -> (n: usize)
        ensures
            n == self.bytes_used(),
    {
        self.data_pos
    }

    /// Appends `data` as a new entry and returns its index.
    ///
    /// There must be room for one more entry and for the UTF-8 bytes of
    /// `data` behind the bytes already written.
    pub fn append(&mut self, data: &str) -> (index: usize)
        requires
            old(self).wf(),
            old(self)@.len() < old(self).entry_capacity(),
            old(self).bytes_used() + encode_utf8(data@).len() <= old(self).byte_capacity(),
        ensures
            final(self).wf(),
            index == old(self)@.len(),
            final(self)@ == old(self)@.push(data@),
            final(self).bytes_used() == old(self).bytes_used() + encode_utf8(data@).len(),
            final(self).entry_capacity() == old(self).entry_capacity(),
            final(self).byte_capacity() == old(self).byte_capacity(),
    {
        let index = self.entry_count;
        let offset = self.data_pos;
        let bytes = data.as_bytes();
        let n = bytes.len();
        let cap = self.data.len();
        let entry_cap = self.metadata.len();
        let ghost before = self.data@;
        let mut i: usize = 0;
        while i < n
            invariant
                0 <= i <= n,
                n == bytes@.len(),
                offset + n <= cap,
                cap == self.data@.len(),
                offset == old(self).data_pos,
                index == old(self).entry_count,
                before == old(self).data@,
                self.metadata == old(self).metadata,
                self.entry_count == old(self).entry_count,
                self.data_pos == old(self).data_pos,
                old(self).wf(),
                index < entry_cap,
                entry_cap == self.metadata@.len(),
                self.data@.len() == before.len(),
                forall|k: int| 0 <= k < offset ==> self.data@[k] == before[k],
                forall|k: int| 0 <= k < i ==> self.data@[offset + k] == bytes@[k],
            decreases n - i,
        {
            self.data.set(offset + i, bytes[i]);
            i = i + 1;
        }
        self.metadata.set(index, EntryMeta::new(offset, n));
        self.data_pos = offset + n;
        self.entry_count = index + 1;
        proof {
            assert(entry_bytes(self.data@, self.metadata@[index as int]) =~= encode_utf8(data@));
            assert forall|j: int| 0 <= j < index implies #[trigger] entry_bytes(
                self.data@,
                self.metadata@[j],
            ) == entry_bytes(before, old(self).metadata@[j]) by {
                let m = self.metadata@[j];
                assert(old(self).metadata@[j] == m);
                assert(entry_bytes(self.data@, m) =~= entry_bytes(before, m));
            }
            assert(self@ =~= old(self)@.push(data@));
        }
        index
    }

    /// The entry at `log_id`; `None` when no entry has that index.
    pub fn get(&self, log_id: usize) -> (entry: Option<&str>)
        requires
            self.wf(),
        ensures
            log_id < self@.len() ==> entry is Some && entry->0@ == self@[log_id as int],
            log_id >= self@.len() ==> entry is None,
    {
        let count = self.entry_count;
        if log_id < count {
            let meta = self.metadata[log_id];
            let offset = meta.offset;
            let len = meta.len;
            let bytes = slice_subrange(self.data.as_slice(), offset, offset + len);
            proof {
                assert(bytes@ == entry_bytes(self.data@, self.metadata@[log_id as int]));
            }
            return text_from_utf8(bytes);
        }
        None
    }

    /// A view of the entries appended so far; entries appended later are not
    /// part of it.
    pub fn snapshot(&self) -> (snap: LogSnapShot<'_>)
        requires
            self.wf(),
        ensures
            snap.store() == self,
            snap.visible_entries() == self@.len(),
    {
        let visible = self.entry_count;
        LogSnapShot::new(self, visible)
    }
}

/// Appending an entry makes it readable at the next index and leaves every
/// earlier entry as it was.
pub proof fn lemma_append_then_read(entries: Seq<Seq<char>>, data: Seq<char>)
    ensures
        entries.push(data)[entries.len() as int] == data,
        forall|i: int| 0 <= i < entries.len() ==> #[trigger] entries.push(data)[i] == entries[i],
{
}

impl Default for LogStore {
    /// An empty store with no room at all.
    fn default() -> (store: Self)
        ensures
            store.wf(),
            store@ == Seq::<Seq<char>>::empty(),
            store.entry_capacity() == 0,
            store.byte_capacity() == 0,
            store.bytes_used() == 0,
    {
        let store = Self {
            data: Vec::new(),
            metadata: Vec::new(),
            entry_count: 0,
            data_pos: 0,
        };
        assert(store@ =~= Seq::<Seq<char>>::empty());
        store
    }
}

} // verus!
