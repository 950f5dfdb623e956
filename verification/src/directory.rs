//! The directory list of a resource file, and where it places each resource.

use crate::error::{Error, ErrorKind};
use crate::metadata::{
    entry_of, DirectoryEntry, DirectoryHeader, EntryView, DIRECTORY_ENTRY_LEN,
};
use crate::source::{readable, Source};
use vstd::prelude::*;

verus! {

/// The most entries that a directory list can hold.
pub const MAX_ENTRIES: usize = 0xffff;

/// What a directory list holds.
pub struct DirectoryView {
    /// The entries, in the order in which the file stores them.
    pub entries: Seq<EntryView>,
    /// The file offset of the data segment.
    pub data_offset: u32,
}

/// What each of `items` holds.
pub open spec fn entry_views(items: Seq<DirectoryEntry>) -> Seq<EntryView> {
    items.map_values(|entry: DirectoryEntry| entry@)
}

/// The `count` directory entries that `content` stores back to back from
/// offset `start` on.
pub open spec fn decode_entries(content: Seq<u8>, start: int, count: int) -> Seq<EntryView> {
    Seq::new(
        count as nat,
        |i: int|
            entry_of(
                content.subrange(
                    start + DIRECTORY_ENTRY_LEN * i,
                    start + DIRECTORY_ENTRY_LEN * i + DIRECTORY_ENTRY_LEN,
                ),
            ),
    )
}

/// The file offset at which the resource of entry `index` begins.
///
/// Resources lie in the data segment in directory order, each taking as many
/// bytes as its entry gives as its compressed length, deleted entries included.
pub open spec fn offset_of(entries: Seq<EntryView>, data_offset: int, index: int) -> int
    decreases index,
{
    if index <= 0 {
        data_offset
    } else {
        offset_of(entries, data_offset, index - 1) + entries[index - 1].compressed_len
    }
}

/// The index of the first entry at or after `start` whose ID is `id`, or the
/// number of entries where there is none.
pub open spec fn search_from(entries: Seq<EntryView>, id: u16, start: int) -> int
    decreases entries.len() - start,
{
    if start >= entries.len() {
        entries.len() as int
    } else if entries[start].id == id {
        start
    } else {
        search_from(entries, id, start + 1)
    }
}

/// The index of the first entry whose ID is `id`, if there is one.
pub open spec fn position_of(entries: Seq<EntryView>, id: u16) -> Option<int> {
    let index = search_from(entries, id, 0);
    if index < entries.len() {
        Some(index)
    } else {
        None
    }
}

/// Whether some entry has the ID `id`.
pub open spec fn has_id(entries: Seq<EntryView>, id: u16) -> bool {
    exists|i: int| 0 <= i < entries.len() && (#[trigger] entries[i]).id == id
}

/// Whether the resource of `entry` is loaded when its file is opened.
pub open spec fn is_preload(entry: EntryView) -> bool {
    !entry.is_deleted() && entry.loads_on_open()
}

/// The IDs of the entries whose resources are loaded when the file is opened,
/// in directory order.
pub open spec fn preload_ids(entries: Seq<EntryView>) -> Seq<u16>
    decreases entries.len(),
{
    if entries.len() == 0 {
        Seq::empty()
    } else {
        let earlier = preload_ids(entries.drop_last());
        if is_preload(entries.last()) {
            earlier.push(entries.last().id)
        } else {
            earlier
        }
    }
}

/// `search_from` finds the first entry with the ID and skips none that has it.
pub proof fn lemma_search_from(entries: Seq<EntryView>, id: u16, start: int)
    requires
        0 <= start <= entries.len(),
    ensures
        start <= search_from(entries, id, start) <= entries.len(),
        search_from(entries, id, start) < entries.len() ==> entries[search_from(
            entries,
            id,
            start,
        )].id == id,
        forall|j: int| start <= j < search_from(entries, id, start) ==> entries[j].id != id,
    decreases entries.len() - start,
{
    if start < entries.len() && entries[start].id != id {
        lemma_search_from(entries, id, start + 1);
    }
}

/// An ID has a position in the directory exactly when some entry has it, and
/// its position is that of the first such entry.
pub proof fn lemma_position_of(entries: Seq<EntryView>, id: u16)
    ensures
        position_of(entries, id) is Some <==> has_id(entries, id),
        position_of(entries, id) matches Some(index) ==> {
            &&& 0 <= index < entries.len()
            &&& entries[index].id == id
            &&& forall|j: int| 0 <= j < index ==> entries[j].id != id
        },
{
    lemma_search_from(entries, id, 0);
}

/// Resources never begin before the data segment, and each of them adds less
/// than 4 GiB to the offsets of those after it.
pub proof fn lemma_offset_bounds(entries: Seq<EntryView>, data_offset: int, index: int)
    requires
        0 <= index <= entries.len(),
    ensures
        data_offset <= offset_of(entries, data_offset, index) <= data_offset + index * 0xffff_ffff,
    decreases index,
{
    if index > 0 {
        lemma_offset_bounds(entries, data_offset, index - 1);
    }
}

/// The directory list of a resource file: its entries in file order, and the
/// offset at which the data that they describe begins.
#[derive(Debug)]
pub struct DirectoryList {
    entries: Vec<DirectoryEntry>,
    data_offset: u32,
}

impl View for DirectoryList {
    type V = DirectoryView;

    open spec fn view(&self) -> DirectoryView {
        DirectoryView { entries: entry_views(self.items()), data_offset: self.data_start() }
    }
}

impl DirectoryList {
    /// A directory header counts its entries in 16 bits.
    #[verifier::type_invariant]
    spec fn counted_in_16_bits(self) -> bool {
        self.entries@.len() <= MAX_ENTRIES
    }

    /// The entries themselves, in directory order.
    pub closed spec fn items(&self) -> Seq<DirectoryEntry> {
        self.entries@
    }

    /// The file offset of the data segment.
    pub closed spec fn data_start(&self) -> u32 {
        self.data_offset
    }

    /// Reads the directory list that `header` announces from an arbitrary input stream.
    ///
    /// The input stream is assumed to be positioned at the first byte of the first
    /// directory entry. Together with the list come the IDs of the resources that
    /// are to be loaded at once, in directory order.
    pub fn from_reader<S: Source>(header: DirectoryHeader, source: &mut S) -> (result: Result<
        (DirectoryList, Vec<u16>),
        Error,
    >)
        ensures
            final(source).content() == old(source).content(),
            final(source).reliable() == old(source).reliable(),
            match result {
                Ok((list, preload)) => {
                    &&& readable(
                        old(source).content(),
                        old(source).position() as int,
                        DIRECTORY_ENTRY_LEN * header@.num_entries,
                    )
                    &&& list@.entries == decode_entries(
                        old(source).content(),
                        old(source).position() as int,
                        header@.num_entries as int,
                    )
                    &&& list@.data_offset == header@.data_offset
                    &&& preload@ == preload_ids(list@.entries)
                    &&& final(source).position() == old(source).position() + DIRECTORY_ENTRY_LEN
                        * header@.num_entries
                },
                Err(error) => {
                    &&& error.spec_kind() == ErrorKind::IO
                    &&& old(source).reliable() ==> !readable(
                        old(source).content(),
                        old(source).position() as int,
                        DIRECTORY_ENTRY_LEN * header@.num_entries,
                    )
                },
            },
    {
        let count = header.num_entries();
        let ghost content = source.content();
        let ghost start = source.position() as int;
        let mut entries: Vec<DirectoryEntry> = Vec::with_capacity(count);
        let mut preload: Vec<u16> = Vec::new();
        let mut i: usize = 0;
        while i < count
            invariant
                i <= count,
                count == header@.num_entries,
                source.content() == content,
                source.reliable() == old(source).reliable(),
                content == old(source).content(),
                start == old(source).position(),
                source.position() == start + DIRECTORY_ENTRY_LEN * i,
                i > 0 ==> start + DIRECTORY_ENTRY_LEN * i <= content.len(),
                entries@.len() == i,
                entry_views(entries@) == decode_entries(content, start, i as int),
                preload@ == preload_ids(entry_views(entries@)),
            decreases count - i,
        {
            let ghost before = entry_views(entries@);
            match DirectoryEntry::from_reader(source) {
                Ok(entry) => {
                    if !entry.is_deleted() && entry.loads_on_open() {
                        preload.push(entry.id() as u16);
                    }
                    entries.push(entry);
                },
                Err(error) => {
                    return Err(error);
                },
            }
            i += 1;
            proof {
                let after = entry_views(entries@);
                let last = i - 1;
                assert(after.drop_last() =~= before);
                assert(after[last] == entry_of(
                    content.subrange(
                        start + DIRECTORY_ENTRY_LEN * last,
                        start + DIRECTORY_ENTRY_LEN * last + DIRECTORY_ENTRY_LEN,
                    ),
                ));
                assert forall|k: int| 0 <= k < i implies after[k] == decode_entries(
                    content,
                    start,
                    i as int,
                )[k] by {
                    if k < last {
                        assert(after[k] == before[k]);
                    }
                }
                assert(after =~= decode_entries(content, start, i as int));
            }
        }
        Ok((DirectoryList { entries, data_offset: header.data_offset() as u32 }, preload))
    }

    /// Returns the entries of the directory list, in the order in which the file stores them.
    pub fn entries(&self) -> (entries: &[DirectoryEntry])
        ensures
            entries@ == self.items(),
            entries@.len() <= MAX_ENTRIES,
    {
        proof {
            use_type_invariant(self);
        }
        self.entries.as_slice()
    }

    /// Returns a file offset to the location of the file data segment.
    pub fn data_offset(&self) -> (offset: u64)
        ensures
            offset == self@.data_offset,
    {
        self.data_offset as u64
    }

    /// Returns the file offset at which the resource of entry `index` begins, if
    /// the list has such an entry.
    pub fn offset_for_index(&self, index: usize) -> (offset: Option<u64>)
        ensures
            match offset {
                Some(offset) => index < self@.entries.len() && offset == offset_of(
                    self@.entries,
                    self@.data_offset as int,
                    index as int,
                ),
                None => index >= self@.entries.len(),
            },
    {
        proof {
            use_type_invariant(self);
        }
        if index >= self.entries.len() {
            return None;
        }
        let mut offset: u64 = self.data_offset as u64;
        let mut i: usize = 0;
        while i < index
            invariant
                i <= index < self.entries@.len() <= MAX_ENTRIES,
                offset == offset_of(self@.entries, self@.data_offset as int, i as int),
            decreases index - i,
        {
            proof {
                lemma_offset_bounds(self@.entries, self@.data_offset as int, i as int);
            }
            offset = offset + self.entries[i].compressed_len() as u64;
            i += 1;
        }
        Some(offset)
    }

    /// Walks the directory for the first entry whose ID is `id`, and returns its
    /// index together with the file offset at which its resource begins.
    pub fn locate(&self, id: u16) -> (found: Option<(usize, u64)>)
        ensures
            match found {
                Some((index, offset)) => position_of(self@.entries, id) == Some(index as int)
                    && offset == offset_of(self@.entries, self@.data_offset as int, index as int),
                None => position_of(self@.entries, id) is None,
            },
    {
        proof {
            use_type_invariant(self);
        }
        let mut offset: u64 = self.data_offset as u64;
        let mut i: usize = 0;
        while i < self.entries.len()
            invariant
                i <= self.entries@.len() <= MAX_ENTRIES,
                offset == offset_of(self@.entries, self@.data_offset as int, i as int),
                search_from(self@.entries, id, 0) == search_from(self@.entries, id, i as int),
            decreases self.entries@.len() - i,
        {
            if self.entries[i].id() == id as usize {
                return Some((i, offset));
            }
            proof {
                lemma_offset_bounds(self@.entries, self@.data_offset as int, i as int);
            }
            offset = offset + self.entries[i].compressed_len() as u64;
            i += 1;
        }
        None
    }
}

} // verus!
