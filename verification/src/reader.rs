//! The resource file reader.

use crate::directory::{
    decode_entries, entry_views, has_id, is_preload, lemma_offset_bounds, lemma_position_of,
    offset_of, position_of, preload_ids, DirectoryList, DirectoryView, MAX_ENTRIES,
};
use crate::error::{opens_as, reads_as, Error, ErrorKind};
use crate::metadata::{
    decode_file_header, directory_header_of, entry_of, DirectoryEntry, DirectoryHeader,
    EntryView, FileHeader, ResourceFlags, ResourceType, COMMENT_LEN, DIRECTORY_ENTRY_LEN,
    DIRECTORY_HEADER_LEN, FILE_HEADER_LEN, SIGNATURE,
};
use crate::source::{readable, span, Source};
use std::collections::HashMap;
use vstd::prelude::*;
use vstd::string::StringSliceAdditionalSpecFns;
use vstd::utf8::valid_utf8;

verus! {

/// What a resource holds.
pub struct ResourceView {
    /// The resource type.
    pub res_type: ResourceType,
    /// The bits of the resource flags.
    pub flags: u8,
    /// The bytes of the resource.
    pub data: Seq<u8>,
}

/// A resource.
#[derive(Clone, Debug)]
pub struct Resource {
    /// The type of the resource, from its directory entry.
    res_type: ResourceType,
    /// The flags of the resource, from its directory entry.
    flags: ResourceFlags,
    /// The resource itself.
    data: Vec<u8>,
}

impl View for Resource {
    type V = ResourceView;

    closed spec fn view(&self) -> ResourceView {
        ResourceView { res_type: self.res_type, flags: self.flags@, data: self.data@ }
    }
}

impl Resource {
    /// Returns the type of the resource.
    pub fn resource_type(&self) -> (res_type: ResourceType)
        ensures
            res_type == self@.res_type,
    {
        self.res_type
    }

    /// Returns the flags of the resource.
    pub fn flags(&self) -> (flags: ResourceFlags)
        ensures
            flags@ == self@.flags,
    {
        self.flags
    }

    /// Returns the bytes of the resource.
    pub fn data(&self) -> (data: &[u8])
        ensures
            data@ == self@.data,
    {
        self.data.as_slice()
    }
}

/// What the resource of `entry` is, where it begins at `offset` of a reliable
/// stream that holds `content`.
///
/// A compressed or compound resource cannot be unpacked. Any other is the
/// bytes at `offset`, as many as the entry gives as its uncompressed length.
pub open spec fn resource_from(content: Seq<u8>, entry: EntryView, offset: int) -> Result<
    ResourceView,
    ErrorKind,
> {
    if entry.is_compressed() || entry.is_compound_resource() {
        Err(ErrorKind::Unsupported)
    } else if !readable(content, offset, entry.uncompressed_len as int) {
        Err(ErrorKind::IO)
    } else {
        Ok(
            ResourceView {
                res_type: entry.res_type,
                flags: entry.flags,
                data: span(content, offset, entry.uncompressed_len as int),
            },
        )
    }
}

/// What the resource of entry `index` of `directory` is.
pub open spec fn resource_at(content: Seq<u8>, directory: DirectoryView, index: int) -> Result<
    ResourceView,
    ErrorKind,
> {
    resource_from(
        content,
        directory.entries[index],
        offset_of(directory.entries, directory.data_offset as int, index),
    )
}

/// What the resource with the ID `id` is: that of the first entry with this ID.
pub open spec fn resource_of(content: Seq<u8>, directory: DirectoryView, id: u16) -> Result<
    ResourceView,
    ErrorKind,
> {
    match position_of(directory.entries, id) {
        Some(index) => resource_at(content, directory, index),
        None => Err(ErrorKind::ResourceNotFound),
    }
}

/// The offset just behind the bytes that are read for the resource with the
/// ID `id`, where a stream stands once they have been read.
pub open spec fn end_of(directory: DirectoryView, id: u16) -> int {
    let index = position_of(directory.entries, id)->Some_0;
    offset_of(directory.entries, directory.data_offset as int, index)
        + directory.entries[index].uncompressed_len
}

/// What a resource file holds besides its resources.
pub struct ArchiveView {
    /// The user comment, 96 bytes.
    pub comment: Seq<u8>,
    /// The directory list.
    pub directory: DirectoryView,
}

/// The header and the directory of the resource file that `content` is.
///
/// The file header stands at offset 0 and gives the offset of the directory
/// header, behind which the directory entries follow back to back.
pub open spec fn decode_archive(content: Seq<u8>) -> Result<ArchiveView, ErrorKind> {
    match decode_file_header(content) {
        Err(kind) => Err(kind),
        Ok(file_header) => {
            let at = file_header.dir_header_offset as int;
            let header = directory_header_of(content.subrange(at, at + DIRECTORY_HEADER_LEN));
            let first = at + DIRECTORY_HEADER_LEN;
            if !readable(content, at, DIRECTORY_HEADER_LEN as int) {
                Err(ErrorKind::IO)
            } else if !readable(content, first, DIRECTORY_ENTRY_LEN * header.num_entries) {
                Err(ErrorKind::IO)
            } else {
                Ok(
                    ArchiveView {
                        comment: file_header.comment,
                        directory: DirectoryView {
                            entries: decode_entries(content, first, header.num_entries as int),
                            data_offset: header.data_offset,
                        },
                    },
                )
            }
        },
    }
}

/// The kind of error that the first of `ids[0..count]` gives whose resource
/// cannot be loaded, if there is one.
pub open spec fn first_failure(
    content: Seq<u8>,
    directory: DirectoryView,
    ids: Seq<u16>,
    count: int,
) -> Option<ErrorKind>
    decreases count,
{
    if count <= 0 {
        None
    } else {
        match first_failure(content, directory, ids, count - 1) {
            Some(kind) => Some(kind),
            None => match resource_of(content, directory, ids[count - 1]) {
                Err(kind) => Some(kind),
                Ok(_) => None,
            },
        }
    }
}

/// The cache that holds the resource of each of `ids`.
pub open spec fn cache_of(content: Seq<u8>, directory: DirectoryView, ids: Seq<u16>) -> Map<
    u16,
    ResourceView,
> {
    Map::new(|id: u16| ids.contains(id), |id: u16| resource_of(content, directory, id)->Ok_0)
}

/// What a reader holds.
#[verifier::ext_equal]
pub struct ReaderView {
    /// The bytes of the stream.
    pub content: Seq<u8>,
    /// The user comment, 96 bytes.
    pub comment: Seq<u8>,
    /// The directory list.
    pub directory: DirectoryView,
    /// The resources loaded so far, by ID.
    pub cache: Map<u16, ResourceView>,
}

impl ReaderView {
    /// Whether this is the state of a reader over a resource file: header and
    /// directory are those of the file, and each resource in the cache is the
    /// one that the file holds under its ID.
    pub open spec fn valid(self) -> bool {
        &&& self.directory.entries.len() <= MAX_ENTRIES
        &&& decode_archive(self.content) == Ok::<ArchiveView, ErrorKind>(
            ArchiveView { comment: self.comment, directory: self.directory },
        )
        &&& forall|id: u16| #[trigger]
            self.cache.contains_key(id) ==> id != 0 && resource_of(
                self.content,
                self.directory,
                id,
            ) == Ok::<ResourceView, ErrorKind>(self.cache[id])
    }
}

/// The reader that opening a reliable stream with `content` gives.
///
/// Its cache holds the resources whose entries ask to be loaded at once. The
/// first of them, in directory order, that cannot be loaded stops the opening
/// with its error.
pub open spec fn open_archive(content: Seq<u8>) -> Result<ReaderView, ErrorKind> {
    match decode_archive(content) {
        Err(kind) => Err(kind),
        Ok(archive) => {
            let ids = preload_ids(archive.directory.entries);
            match first_failure(content, archive.directory, ids, ids.len() as int) {
                Some(kind) => Err(kind),
                None => Ok(
                    ReaderView {
                        content,
                        comment: archive.comment,
                        directory: archive.directory,
                        cache: cache_of(content, archive.directory, ids),
                    },
                ),
            }
        },
    }
}

/// Reads the resource of `entry`, which begins at `offset` of `source`.
fn fetch<S: Source>(source: &mut S, entry: &DirectoryEntry, offset: u64) -> (result: Result<
    Resource,
    Error,
>)
    ensures
        final(source).content() == old(source).content(),
        final(source).reliable() == old(source).reliable(),
        reads_as(
            result,
            resource_from(old(source).content(), entry@, offset as int),
            old(source).reliable(),
        ),
        result is Ok ==> final(source).position() == offset + entry@.uncompressed_len,
{
    if entry.is_compound_resource() || entry.is_compressed() {
        return Err(Error::Unsupported);
    }
    match source.seek(offset) {
        Ok(()) => {},
        Err(error) => {
            return Err(Error::IO(error));
        },
    }
    match source.read_exact(entry.uncompressed_len()) {
        Ok(data) => Ok(Resource { res_type: entry.resource_type(), flags: entry.flags(), data }),
        Err(error) => Err(Error::IO(error)),
    }
}

/// Whether `index` is the first entry of `items` that `predicate` accepts.
pub open spec fn first_accepted<P: Fn(&DirectoryEntry) -> bool>(
    predicate: P,
    items: Seq<DirectoryEntry>,
    index: int,
) -> bool {
    &&& 0 <= index < items.len()
    &&& call_ensures(predicate, (&items[index],), true)
    &&& forall|j: int| 0 <= j < index ==> call_ensures(predicate, (&#[trigger] items[j],), false)
}

/// Whether `predicate` accepts no entry of `items`.
pub open spec fn none_accepted<P: Fn(&DirectoryEntry) -> bool>(
    predicate: P,
    items: Seq<DirectoryEntry>,
) -> bool {
    forall|j: int| 0 <= j < items.len() ==> call_ensures(predicate, (&#[trigger] items[j],), false)
}

/// A file header is decoded from the first 128 bytes alone.
pub proof fn lemma_file_header_prefix(content: Seq<u8>)
    requires
        content.len() >= FILE_HEADER_LEN,
    ensures
        decode_file_header(content.subrange(0, FILE_HEADER_LEN as int)) == decode_file_header(
            content,
        ),
{
    let head = content.subrange(0, FILE_HEADER_LEN as int);
    assert(head.subrange(0, 16) =~= content.subrange(0, 16));
    assert(head.subrange(16, 112) =~= content.subrange(16, 112));
    assert(head.subrange(124, 128) =~= content.subrange(124, 128));
}

/// The resources loaded at once are those of the entries that are not deleted
/// and ask for it: none of their IDs is 0, and each ID is that of such an entry.
pub proof fn lemma_preload_ids(entries: Seq<EntryView>)
    ensures
        forall|k: int|
            0 <= k < preload_ids(entries).len() ==> (#[trigger] preload_ids(entries)[k]) != 0
                && has_id(entries, preload_ids(entries)[k]),
        forall|i: int|
            0 <= i < entries.len() && is_preload(#[trigger] entries[i]) ==> preload_ids(
                entries,
            ).contains(entries[i].id),
    decreases entries.len(),
{
    if entries.len() > 0 {
        let earlier = entries.drop_last();
        let ids = preload_ids(entries);
        lemma_preload_ids(earlier);
        assert forall|k: int| 0 <= k < ids.len() implies (#[trigger] ids[k]) != 0 && has_id(
            entries,
            ids[k],
        ) by {
            if k < preload_ids(earlier).len() {
                assert(ids[k] == preload_ids(earlier)[k]);
                let i = choose|i: int| 0 <= i < earlier.len() && earlier[i].id == ids[k];
                assert(entries[i].id == ids[k]);
            } else {
                assert(entries[entries.len() - 1].id == ids[k]);
            }
        }
        assert forall|i: int| 0 <= i < entries.len() && is_preload(
            #[trigger] entries[i],
        ) implies ids.contains(entries[i].id) by {
            if i < earlier.len() {
                assert(earlier[i] == entries[i]);
                let k = choose|k: int|
                    0 <= k < preload_ids(earlier).len() && preload_ids(earlier)[k]
                        == entries[i].id;
                assert(ids[k] == entries[i].id);
            } else {
                assert(ids[ids.len() - 1] == entries[i].id);
            }
        }
    }
}

/// Once one of the IDs has failed, the IDs behind it no longer matter.
pub proof fn lemma_first_failure_stays(
    content: Seq<u8>,
    directory: DirectoryView,
    ids: Seq<u16>,
    count: int,
    more: int,
)
    requires
        count <= more,
        first_failure(content, directory, ids, count) is Some,
    ensures
        first_failure(content, directory, ids, more) == first_failure(
            content,
            directory,
            ids,
            count,
        ),
    decreases more - count,
{
    if count < more {
        lemma_first_failure_stays(content, directory, ids, count, more - 1);
    }
}

/// A resource file reader.
#[derive(Debug)]
pub struct Reader<S> {
    /// The input stream from which to read.
    source: S,
    /// A copy of the file header.
    file_header: FileHeader,
    /// A copy of the directory list.
    directory_list: DirectoryList,
    /// The resources loaded so far, by ID.
    cache: HashMap<u16, Resource>,
}

impl<S: Source> View for Reader<S> {
    type V = ReaderView;

    closed spec fn view(&self) -> ReaderView {
        ReaderView {
            content: self.source.content(),
            comment: self.file_header@.comment,
            directory: self.directory_list@,
            cache: self.cache@.map_values(|resource: Resource| resource@),
        }
    }
}

impl<S: Source> Reader<S> {
    /// Whether the reader is in a state that `new` and the operations on a
    /// reader leave it in.
    pub open spec fn wf(&self) -> bool {
        self@.valid()
    }

    /// Whether the input stream fails only on reads that run past its end.
    pub closed spec fn reliable(&self) -> bool {
        self.source.reliable()
    }

    /// The input stream as it stands.
    pub closed spec fn stream(&self) -> S {
        self.source
    }

    /// The directory entries themselves, in directory order.
    pub closed spec fn items(&self) -> Seq<DirectoryEntry> {
        self.directory_list.items()
    }

    /// The entries of the directory are what the reader's model gives as its entries.
    pub proof fn lemma_items(&self)
        ensures
            entry_views(self.items()) == self@.directory.entries,
    {
    }

    /// Creates a new resource file reader over an input stream.
    ///
    /// The input stream's position is moved to the beginning of the stream before any reads are
    /// performed. The resources whose entries ask for it are loaded at once, in
    /// directory order; if one of them cannot be loaded there is no reader.
    pub fn new(source: S) -> (result: Result<Reader<S>, Error>)
        ensures
            opens_as(result, open_archive(source.content()), source.reliable()),
            result matches Ok(reader) ==> reader.wf() && reader.reliable() == source.reliable(),
    {
        let mut stream = source;
        let ghost content = stream.content();
        match stream.seek(0) {
            Ok(()) => {},
            Err(error) => {
                return Err(Error::IO(error));
            },
        }
        proof {
            if content.len() >= FILE_HEADER_LEN {
                lemma_file_header_prefix(content);
            }
        }
        let file_header = match FileHeader::from_reader(&mut stream) {
            Ok(file_header) => file_header,
            Err(error) => {
                return Err(error);
            },
        };
        match stream.seek(file_header.dir_header_offset()) {
            Ok(()) => {},
            Err(error) => {
                return Err(Error::IO(error));
            },
        }
        let dir_header = match DirectoryHeader::from_reader(&mut stream) {
            Ok(dir_header) => dir_header,
            Err(error) => {
                return Err(error);
            },
        };
        let (directory_list, preload) = match DirectoryList::from_reader(dir_header, &mut stream) {
            Ok(found) => found,
            Err(error) => {
                return Err(error);
            },
        };
        let mut reader = Reader {
            source: stream,
            file_header,
            directory_list,
            cache: HashMap::new(),
        };
        proof {
            lemma_preload_ids(reader@.directory.entries);
            assert(reader@.cache =~= Map::empty());
        }
        match reader.preload(&preload) {
            Ok(()) => {
                proof {
                    assert(reader@ =~= open_archive(content)->Ok_0);
                }
                Ok(reader)
            },
            Err(error) => Err(error),
        }
    }

    /// Loads the resource of each of `ids` into the cache, in their order, and
    /// stops at the first that cannot be loaded.
    fn preload(&mut self, ids: &Vec<u16>) -> (result: Result<(), Error>)
        requires
            old(self).wf(),
            old(self)@.cache == Map::<u16, ResourceView>::empty(),
            forall|k: int| 0 <= k < ids@.len() ==> (#[trigger] ids@[k]) != 0,
        ensures
            final(self).wf(),
            final(self).reliable() == old(self).reliable(),
            final(self)@.content == old(self)@.content,
            final(self)@.comment == old(self)@.comment,
            final(self)@.directory == old(self)@.directory,
            ({
                let failure = first_failure(
                    old(self)@.content,
                    old(self)@.directory,
                    ids@,
                    ids@.len() as int,
                );
                match result {
                    Ok(()) => failure is None && final(self)@.cache == cache_of(
                        old(self)@.content,
                        old(self)@.directory,
                        ids@,
                    ),
                    Err(error) => failure == Some(error.spec_kind()) || (!old(self).reliable()
                        && error.spec_kind() == ErrorKind::IO),
                }
            }),
    {
        let ghost content = self@.content;
        let ghost directory = self@.directory;
        let mut i: usize = 0;
        while i < ids.len()
            invariant
                i <= ids@.len(),
                self.wf(),
                self.reliable() == old(self).reliable(),
                self@.content == content,
                self@.comment == old(self)@.comment,
                self@.directory == directory,
                content == old(self)@.content,
                directory == old(self)@.directory,
                forall|k: int| 0 <= k < ids@.len() ==> (#[trigger] ids@[k]) != 0,
                first_failure(content, directory, ids@, i as int) is None,
                forall|id: u16| #[trigger]
                    self@.cache.contains_key(id) <==> exists|k: int| 0 <= k < i && ids@[k] == id,
            decreases ids@.len() - i,
        {
            let id = ids[i];
            let ghost before = self@.cache;
            match self.load(id) {
                Ok(()) => {},
                Err(error) => {
                    proof {
                        if first_failure(content, directory, ids@, i + 1) is Some {
                            lemma_first_failure_stays(
                                content,
                                directory,
                                ids@,
                                i + 1,
                                ids@.len() as int,
                            );
                        }
                    }
                    return Err(error);
                },
            }
            proof {
                assert forall|other: u16| #[trigger]
                    self@.cache.contains_key(other) <==> exists|k: int|
                        0 <= k < i + 1 && ids@[k] == other by {
                    if other == id {
                        assert(ids@[i as int] == id);
                    } else {
                        assert(self@.cache.contains_key(other) == before.contains_key(other));
                    }
                }
            }
            i += 1;
        }
        proof {
            let expected = cache_of(content, directory, ids@);
            assert forall|id: u16| self@.cache.contains_key(id) == expected.contains_key(id) by {
                if expected.contains_key(id) {
                    let k = choose|k: int| 0 <= k < ids@.len() && ids@[k] == id;
                    assert(ids@[k] == id);
                }
            }
            assert(self@.cache =~= expected);
        }
        Ok(())
    }

    /// Returns the input stream, which stands where the last read left it.
    pub fn source(&self) -> (source: &S)
        ensures
            *source == self.stream(),
            source.content() == self@.content,
            source.reliable() == self.reliable(),
    {
        &self.source
    }

    /// Returns a byte slice containing the user comment associated with a resource file.
    pub fn comment(&self) -> (comment: &[u8])
        ensures
            comment@ == self@.comment,
            comment@.len() == COMMENT_LEN,
    {
        self.file_header.comment()
    }

    /// Returns a string containing the user comment associated with a resource file.
    ///
    /// The comment is text exactly when its 96 bytes are well-formed UTF-8.
    pub fn comment_str(&self) -> (result: Result<&str, Error>)
        ensures
            result is Ok <==> valid_utf8(self@.comment),
            result matches Ok(text) ==> text.spec_bytes() == self@.comment,
            result matches Err(error) ==> error.spec_kind() == ErrorKind::Utf8,
    {
        self.file_header.comment_str()
    }

    /// Returns the directory list for a resource file.
    ///
    /// The directory list is a series of entries where each entry contains some metadata for its
    /// corresponding resource. Rather than storing file offsets, a resource file stores resource
    /// lengths and assumes that resources are laid out in the same order as their corresponding
    /// entries in the directory list.
    pub fn directory_list(&self) -> (entries: &[DirectoryEntry])
        ensures
            entries@ == self.items(),
            entry_views(entries@) == self@.directory.entries,
    {
        self.directory_list.entries()
    }

    /// Returns `true` if some directory entry has the ID `id`.
    pub fn contains(&self, id: u16) -> (found: bool)
        requires
            id != 0,
        ensures
            found == has_id(self@.directory.entries, id),
    {
        proof {
            lemma_position_of(self@.directory.entries, id);
        }
        self.directory_list.locate(id).is_some()
    }

    /// Returns `true` if the directory holds a deleted entry, one whose ID is 0.
    pub fn has_deleted_entries(&self) -> (found: bool)
        ensures
            found == has_id(self@.directory.entries, 0),
    {
        proof {
            lemma_position_of(self@.directory.entries, 0);
        }
        self.directory_list.locate(0).is_some()
    }

    /// Returns the resource with the ID `id` if it has been loaded, without loading it.
    pub fn loaded(&self, id: u16) -> (resource: Option<&Resource>)
        requires
            id != 0,
        ensures
            match resource {
                Some(resource) => self@.cache.contains_key(id) && resource@ == self@.cache[id],
                None => !self@.cache.contains_key(id),
            },
    {
        self.cache.get(&id)
    }

    /// Loads the resource with the ID `id` into the cache, unless it is there already.
    ///
    /// The directory is walked for the first entry with this ID, and the offsets
    /// of the resources before it are summed up to find where its bytes begin.
    /// A resource that is in the cache is not read again.
    pub fn load(&mut self, id: u16) -> (result: Result<(), Error>)
        requires
            old(self).wf(),
            id != 0,
        ensures
            final(self).wf(),
            final(self).reliable() == old(self).reliable(),
            final(self).items() == old(self).items(),
            final(self)@.content == old(self)@.content,
            final(self)@.comment == old(self)@.comment,
            final(self)@.directory == old(self)@.directory,
            old(self)@.cache.contains_key(id) ==> result is Ok && *final(self) == *old(self),
            !old(self)@.cache.contains_key(id) ==> {
                let expected = resource_of(old(self)@.content, old(self)@.directory, id);
                match result {
                    Ok(()) => expected is Ok && final(self)@.cache == old(self)@.cache.insert(
                        id,
                        expected->Ok_0,
                    ) && final(self).stream().position() == end_of(old(self)@.directory, id),
                    Err(error) => final(self)@.cache == old(self)@.cache && (expected == Err::<
                        ResourceView,
                        ErrorKind,
                    >(error.spec_kind()) || (!old(self).reliable() && expected is Ok
                        && error.spec_kind() == ErrorKind::IO)),
                }
            },
    {
        if self.cache.contains_key(&id) {
            return Ok(());
        }
        match self.directory_list.locate(id) {
            None => Err(Error::ResourceNotFound),
            Some((index, offset)) => {
                let entry = self.directory_list.entries()[index];
                match fetch(&mut self.source, &entry, offset) {
                    Ok(resource) => {
                        let ghost loaded = resource@;
                        self.cache.insert(id, resource);
                        proof {
                            assert(final(self)@.cache =~= old(self)@.cache.insert(id, loaded));
                        }
                        Ok(())
                    },
                    Err(error) => Err(error),
                }
            },
        }
    }

    /// Returns the resource with the ID `id`, loading it first if need be.
    pub fn get(&mut self, id: u16) -> (result: Result<&Resource, Error>)
        requires
            old(self).wf(),
            id != 0,
        ensures
            final(self).wf(),
            final(self).reliable() == old(self).reliable(),
            final(self).items() == old(self).items(),
            final(self)@.content == old(self)@.content,
            final(self)@.comment == old(self)@.comment,
            final(self)@.directory == old(self)@.directory,
            old(self)@.cache.contains_key(id) ==> result is Ok && *final(self) == *old(self),
            !old(self)@.cache.contains_key(id) ==> {
                let expected = resource_of(old(self)@.content, old(self)@.directory, id);
                match result {
                    Ok(_) => expected is Ok && final(self)@.cache == old(self)@.cache.insert(
                        id,
                        expected->Ok_0,
                    ) && final(self).stream().position() == end_of(old(self)@.directory, id),
                    Err(error) => final(self)@.cache == old(self)@.cache && (expected == Err::<
                        ResourceView,
                        ErrorKind,
                    >(error.spec_kind()) || (!old(self).reliable() && expected is Ok
                        && error.spec_kind() == ErrorKind::IO)),
                }
            },
            result matches Ok(resource) ==> final(self)@.cache.contains_key(id) && resource@
                == final(self)@.cache[id],
    {
        match self.load(id) {
            Ok(()) => {},
            Err(error) => {
                return Err(error);
            },
        }
        proof {
            assert(self@.cache.contains_key(id));
            assert(self.cache@.contains_key(id));
        }
        match self.cache.get(&id) {
            Some(resource) => Ok(resource),
            None => vstd::pervasive::unreached(),
        }
    }

    /// Returns the first resource from a resource file whose corresponding entry in the directory
    /// list matches a given predicate.
    ///
    /// The resource is read from the stream and handed over; the cache plays no part.
    pub fn find_resource<P: Fn(&DirectoryEntry) -> bool>(&mut self, predicate: P) -> (result:
        Result<Resource, Error>)
        requires
            old(self).wf(),
            forall|i: int|
                0 <= i < old(self).items().len() ==> call_requires(
                    predicate,
                    (&#[trigger] old(self).items()[i],),
                ),
        ensures
            final(self).wf(),
            final(self).reliable() == old(self).reliable(),
            final(self).items() == old(self).items(),
            final(self)@ == old(self)@,
            match result {
                Err(Error::ResourceNotFound) => none_accepted(predicate, old(self).items()),
                _ => exists|index: int|
                    first_accepted(predicate, old(self).items(), index) && reads_as(
                        result,
                        resource_at(old(self)@.content, old(self)@.directory, index),
                        old(self).reliable(),
                    ) && (result is Ok ==> final(self).stream().position() == offset_of(
                        old(self)@.directory.entries,
                        old(self)@.directory.data_offset as int,
                        index,
                    ) + old(self)@.directory.entries[index].uncompressed_len),
            },
    {
        let entries = self.directory_list.entries();
        let mut index: usize = 0;
        let mut found = false;
        while !found && index < entries.len()
            invariant
                index <= entries@.len(),
                entries@ == self.items(),
                forall|i: int|
                    0 <= i < entries@.len() ==> call_requires(predicate, (&#[trigger] entries@[i],)),
                forall|j: int|
                    0 <= j < index ==> call_ensures(predicate, (&#[trigger] entries@[j],), false),
                found ==> index < entries@.len() && call_ensures(
                    predicate,
                    (&entries@[index as int],),
                    true,
                ),
            decreases entries@.len() - index + if found { 0int } else { 1int },
        {
            if predicate(&entries[index]) {
                found = true;
            } else {
                index += 1;
            }
        }
        if !found {
            return Err(Error::ResourceNotFound);
        }
        let entry = entries[index];
        match self.directory_list.offset_for_index(index) {
            Some(offset) => {
                let result = fetch(&mut self.source, &entry, offset);
                proof {
                    assert(first_accepted(predicate, old(self).items(), index as int));
                }
                result
            },
            None => vstd::pervasive::unreached(),
        }
    }
}

/// Where no ID has failed, the resource of each can be loaded.
pub proof fn lemma_no_failure(
    content: Seq<u8>,
    directory: DirectoryView,
    ids: Seq<u16>,
    count: int,
)
    requires
        first_failure(content, directory, ids, count) is None,
    ensures
        forall|k: int| 0 <= k < count ==> resource_of(content, directory, #[trigger] ids[k]) is Ok,
    decreases count,
{
    if count > 0 {
        lemma_no_failure(content, directory, ids, count - 1);
    }
}

/// A reader that has just been opened is in a valid state over the bytes it
/// was opened on.
pub proof fn lemma_opened_is_valid(content: Seq<u8>)
    requires
        open_archive(content) is Ok,
    ensures
        open_archive(content)->Ok_0.valid(),
        open_archive(content)->Ok_0.content == content,
{
    let view = open_archive(content)->Ok_0;
    let ids = preload_ids(view.directory.entries);
    lemma_preload_ids(view.directory.entries);
    lemma_no_failure(content, view.directory, ids, ids.len() as int);
    assert forall|id: u16| #[trigger] view.cache.contains_key(id) implies id != 0 && resource_of(
        content,
        view.directory,
        id,
    ) == Ok::<ResourceView, ErrorKind>(view.cache[id]) by {
        let k = choose|k: int| 0 <= k < ids.len() && ids[k] == id;
        assert(resource_of(content, view.directory, ids[k]) is Ok);
    }
}

/// The directory of a reader is the one that the file stores: it has as many
/// entries as the directory header counts, and they are the entries that
/// follow the directory header, in file order.
pub proof fn lemma_directory_as_stored(view: ReaderView)
    requires
        view.valid(),
    ensures
        decode_file_header(view.content) is Ok,
        view.comment == view.content.subrange(16, 112),
        ({
            let at = decode_file_header(view.content)->Ok_0.dir_header_offset as int;
            let header = directory_header_of(view.content.subrange(at, at + DIRECTORY_HEADER_LEN));
            &&& view.directory.entries.len() == header.num_entries
            &&& view.directory.data_offset == header.data_offset
            &&& forall|i: int|
                0 <= i < header.num_entries ==> #[trigger] view.directory.entries[i] == entry_of(
                    view.content.subrange(
                        at + DIRECTORY_HEADER_LEN + DIRECTORY_ENTRY_LEN * i,
                        at + DIRECTORY_HEADER_LEN + DIRECTORY_ENTRY_LEN * i + DIRECTORY_ENTRY_LEN,
                    ),
                )
        }),
{
}

/// After a file has been opened, the cache holds the resource of every entry
/// that is not deleted and asks to be loaded at once, and no other resource.
pub proof fn lemma_preloaded(content: Seq<u8>)
    requires
        open_archive(content) is Ok,
    ensures
        ({
            let view = open_archive(content)->Ok_0;
            let entries = view.directory.entries;
            &&& forall|i: int|
                0 <= i < entries.len() && is_preload(#[trigger] entries[i])
                    ==> view.cache.contains_key(entries[i].id) && resource_of(
                    content,
                    view.directory,
                    entries[i].id,
                ) == Ok::<ResourceView, ErrorKind>(view.cache[entries[i].id])
            &&& forall|id: u16| #[trigger]
                view.cache.contains_key(id) ==> exists|i: int|
                    0 <= i < entries.len() && is_preload(#[trigger] entries[i]) && entries[i].id
                        == id
        }),
{
    let view = open_archive(content)->Ok_0;
    let entries = view.directory.entries;
    let ids = preload_ids(entries);
    lemma_opened_is_valid(content);
    lemma_preload_ids(entries);
    lemma_preload_sources(entries);
    assert(view.cache == cache_of(content, view.directory, ids));
    assert forall|i: int| 0 <= i < entries.len() && is_preload(
        #[trigger] entries[i],
    ) implies view.cache.contains_key(entries[i].id) && resource_of(
        content,
        view.directory,
        entries[i].id,
    ) == Ok::<ResourceView, ErrorKind>(view.cache[entries[i].id]) by {
        assert(ids.contains(entries[i].id));
    }
    assert forall|id: u16| #[trigger] view.cache.contains_key(id) implies exists|i: int|
        0 <= i < entries.len() && is_preload(#[trigger] entries[i]) && entries[i].id == id by {
        assert(ids.contains(id));
    }
}

/// Each of the IDs loaded at once is that of an entry that is not deleted and
/// asks for it.
pub proof fn lemma_preload_sources(entries: Seq<EntryView>)
    ensures
        forall|id: u16|
            preload_ids(entries).contains(id) ==> exists|i: int|
                0 <= i < entries.len() && is_preload(#[trigger] entries[i]) && entries[i].id == id,
    decreases entries.len(),
{
    if entries.len() > 0 {
        let earlier = entries.drop_last();
        lemma_preload_sources(earlier);
        assert forall|id: u16| preload_ids(entries).contains(id) implies exists|i: int|
            0 <= i < entries.len() && is_preload(#[trigger] entries[i]) && entries[i].id == id by {
            let k = choose|k: int| 0 <= k < preload_ids(entries).len() && preload_ids(entries)[k] == id;
            if k < preload_ids(earlier).len() {
                assert(preload_ids(earlier)[k] == id);
                assert(preload_ids(earlier).contains(id));
                let i = choose|i: int|
                    0 <= i < earlier.len() && is_preload(#[trigger] earlier[i]) && earlier[i].id
                        == id;
                assert(is_preload(entries[i]) && entries[i].id == id);
            } else {
                let last = entries.len() - 1;
                assert(is_preload(entries[last]) && entries[last].id == id);
            }
        }
    }
}

/// A resource in the cache is the one that the file holds under its ID: its
/// type and flags are those of the first directory entry with this ID, and
/// its bytes are the bytes of the file at the offset that the entries before
/// it add up to, as many as the entry gives as its uncompressed length.
pub proof fn lemma_cached_resource(view: ReaderView, id: u16)
    requires
        view.valid(),
        view.cache.contains_key(id),
    ensures
        id != 0,
        position_of(view.directory.entries, id) is Some,
        ({
            let index = position_of(view.directory.entries, id)->Some_0;
            let entry = view.directory.entries[index];
            let offset = offset_of(view.directory.entries, view.directory.data_offset as int, index);
            let resource = view.cache[id];
            &&& 0 <= index < view.directory.entries.len()
            &&& entry.id == id
            &&& !entry.is_compressed()
            &&& !entry.is_compound_resource()
            &&& resource.res_type == entry.res_type
            &&& resource.flags == entry.flags
            &&& resource.data.len() == entry.uncompressed_len
            &&& resource.data == span(view.content, offset, entry.uncompressed_len as int)
        }),
{
    lemma_position_of(view.directory.entries, id);
    let index = position_of(view.directory.entries, id)->Some_0;
    lemma_offset_bounds(view.directory.entries, view.directory.data_offset as int, index);
}

/// A file of at least 128 bytes whose first 16 bytes are not the signature
/// cannot be opened, whatever follows them.
pub proof fn lemma_bad_signature(content: Seq<u8>)
    requires
        content.len() >= FILE_HEADER_LEN,
        content.subrange(0, 16) != SIGNATURE@,
    ensures
        open_archive(content) == Err::<ReaderView, ErrorKind>(ErrorKind::BadSignature),
{
}

/// An ID that no directory entry has stands for no resource.
pub proof fn lemma_unknown_id(content: Seq<u8>, directory: DirectoryView, id: u16)
    requires
        !has_id(directory.entries, id),
    ensures
        resource_of(content, directory, id) == Err::<ResourceView, ErrorKind>(
            ErrorKind::ResourceNotFound,
        ),
{
    lemma_position_of(directory.entries, id);
}

/// A resource whose entry marks it as compressed or as compound cannot be
/// unpacked, wherever it lies and whatever it holds.
pub proof fn lemma_packed_unsupported(content: Seq<u8>, directory: DirectoryView, id: u16)
    requires
        position_of(directory.entries, id) matches Some(index) && (
        directory.entries[index].is_compressed() || directory.entries[index].is_compound_resource()),
    ensures
        resource_of(content, directory, id) == Err::<ResourceView, ErrorKind>(
            ErrorKind::Unsupported,
        ),
{
}

} // verus!
