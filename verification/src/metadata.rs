//! Resource headers, flags and other metadata.

use crate::error::{agrees, Error, ErrorKind};
use crate::source::{readable, span, unexpected_eof, Source};
use vstd::prelude::*;
use vstd::string::StringSliceAdditionalSpecFns;
use vstd::utf8::valid_utf8;

verus! {

/// The length in bytes of the signature that opens a resource file.
pub const SIGNATURE_LEN: usize = 16;

/// The length in bytes of the user comment in a file header.
pub const COMMENT_LEN: usize = 96;

/// The length in bytes of a file header.
pub const FILE_HEADER_LEN: usize = 128;

/// The length in bytes of a directory header.
pub const DIRECTORY_HEADER_LEN: usize = 6;

/// The length in bytes of a directory entry.
pub const DIRECTORY_ENTRY_LEN: usize = 10;

/// Indicates that a resource is stored using LZW compression.
pub const RDF_LZW: u8 = 0x01;

/// Indicates that a resource is a compound resource.
pub const RDF_COMPOUND: u8 = 0x02;

/// Reserved for future use.
pub const RDF_RESERVED: u8 = 0x04;

/// Indicates that a resource should be loaded into memory when the resource file
/// containing it is opened.
pub const RDF_LOADONOPEN: u8 = 0x08;

/// Indicates that a resource is on a virtual CD-ROM drive(?).
pub const RDF_CDSPOOF: u8 = 0x10;

/// Every bit that stands for a flag.
pub const RDF_ALL: u8 = 0x1f;

/// The signature identifying a valid resource file: `"LG Res File v2\r\n"`.
pub const SIGNATURE: [u8; 16] = [
    0x4c, 0x47, 0x20, 0x52, 0x65, 0x73, 0x20, 0x46, 0x69, 0x6c, 0x65, 0x20, 0x76, 0x32, 0x0d, 0x0a,
];

/// The value of two bytes read as a little-endian unsigned integer.
pub open spec fn le16(bytes: Seq<u8>) -> int {
    bytes[0] + 0x100 * bytes[1]
}

/// The value of three bytes read as a little-endian unsigned integer.
pub open spec fn le24(bytes: Seq<u8>) -> int {
    bytes[0] + 0x100 * bytes[1] + 0x1_0000 * bytes[2]
}

/// The value of four bytes read as a little-endian unsigned integer.
pub open spec fn le32(bytes: Seq<u8>) -> int {
    bytes[0] + 0x100 * bytes[1] + 0x1_0000 * bytes[2] + 0x100_0000 * bytes[3]
}

/// Interprets a byte array as a 16-bit unsigned little endian integer.
pub fn u16_from_le_array(array: [u8; 2]) -> (value: u16)
    ensures
        value == le16(array@),
{
    let a1: u8 = array[1];
    let a0: u8 = array[0];
    let b1: u16 = (a1 as u16) << 8;
    let b0: u16 = a0 as u16;
    assert(((a1 as u16) << 8) | (a0 as u16) == a0 + 0x100 * a1) by (bit_vector);
    b1 | b0
}

/// Interprets a byte array as a 32-bit unsigned little endian integer.
pub fn u32_from_le_array(array: [u8; 4]) -> (value: u32)
    ensures
        value == le32(array@),
{
    let a3: u8 = array[3];
    let a2: u8 = array[2];
    let a1: u8 = array[1];
    let a0: u8 = array[0];
    let b3: u32 = (a3 as u32) << 24;
    let b2: u32 = (a2 as u32) << 16;
    let b1: u32 = (a1 as u32) << 8;
    let b0: u32 = a0 as u32;
    assert(((a3 as u32) << 24) | ((a2 as u32) << 16) | ((a1 as u32) << 8) | (a0 as u32) == a0
        + 0x100 * a1 + 0x1_0000 * a2 + 0x100_0000 * a3) by (bit_vector);
    b3 | b2 | b1 | b0
}

/// A 24-bit unsigned integer.
#[derive(Clone, Copy, Debug)]
pub struct U24([u8; 3]);

impl View for U24 {
    type V = u32;

    closed spec fn view(&self) -> u32 {
        le24(self.0@) as u32
    }
}

impl U24 {
    /// Interprets a byte array as a 24-bit unsigned little-endian integer.
    pub fn from_le_array(array: [u8; 3]) -> (value: U24)
        ensures
            value@ == le24(array@),
    {
        U24(array)
    }

    /// Casts a 24-bit unsigned integer into a 32-bit unsigned integer.
    pub fn value(&self) -> (value: u32)
        ensures
            value == self@,
            value < 0x100_0000,
    {
        let a2: u8 = self.0[2];
        let a1: u8 = self.0[1];
        let a0: u8 = self.0[0];
        let b2: u32 = (a2 as u32) << 16;
        let b1: u32 = (a1 as u32) << 8;
        let b0: u32 = a0 as u32;
        assert(((a2 as u32) << 16) | ((a1 as u32) << 8) | (a0 as u32) == a0 + 0x100 * a1 + 0x1_0000
            * a2) by (bit_vector);
        b2 | b1 | b0
    }
}

/// Resource types.
#[derive(Clone, Copy, Debug, PartialEq, Eq, Structural)]
pub enum ResourceType {
    /// Unknown resource type.
    Unknown,
    /// A string.
    String,
    /// A bitmapped image.
    Image,
    /// A bitmapped font.
    Font,
    /// An animation script.
    AnimationScript,
    /// A palette.
    Palette,
    /// A shading table.
    ShadingTable,
    /// A .voc sound file.
    Voc,
    /// A shape.
    Shape,
    /// A picture.
    Picture,
    /// BABL2 extern records.
    Babl2Extern,
    /// BABL2 relocation records.
    Babl2Reloc,
    /// BABL2 object code.
    Babl2Code,
    /// A BABL2 linked resource header.
    Babl2Header,
    /// Reserved.
    Babl2Reserved,
    /// A 3D object.
    Object3d,
    /// A stencil.
    Stencil,
    /// An LG .mov movie file.
    Movie,
    /// A list of bounding rectangles for images.
    Rectangle,
    /// An application-defined resource type.
    AppDefined0,
    /// An application-defined resource type.
    AppDefined1,
    /// An application-defined resource type.
    AppDefined2,
    /// An application-defined resource type.
    AppDefined3,
    /// An application-defined resource type.
    AppDefined4,
    /// An application-defined resource type.
    AppDefined5,
    /// An application-defined resource type.
    AppDefined6,
    /// An application-defined resource type.
    AppDefined7,
    /// An application-defined resource type.
    AppDefined8,
    /// An application-defined resource type.
    AppDefined9,
    /// An application-defined resource type.
    AppDefined10,
    /// An application-defined resource type.
    AppDefined11,
    /// An application-defined resource type.
    AppDefined12,
    /// An application-defined resource type.
    AppDefined13,
    /// An application-defined resource type.
    AppDefined14,
    /// An application-defined resource type.
    AppDefined15,
}

/// Whether `code` is the number of a resource type other than `Unknown`.
pub open spec fn is_type_code(code: u8) -> bool {
    1 <= code <= 18 || 48 <= code <= 63
}

impl ResourceType {
    /// The number that stands for this resource type in a directory entry.
    pub open spec fn spec_code(self) -> u8 {
        match self {
            ResourceType::Unknown => 0,
            ResourceType::String => 1,
            ResourceType::Image => 2,
            ResourceType::Font => 3,
            ResourceType::AnimationScript => 4,
            ResourceType::Palette => 5,
            ResourceType::ShadingTable => 6,
            ResourceType::Voc => 7,
            ResourceType::Shape => 8,
            ResourceType::Picture => 9,
            ResourceType::Babl2Extern => 10,
            ResourceType::Babl2Reloc => 11,
            ResourceType::Babl2Code => 12,
            ResourceType::Babl2Header => 13,
            ResourceType::Babl2Reserved => 14,
            ResourceType::Object3d => 15,
            ResourceType::Stencil => 16,
            ResourceType::Movie => 17,
            ResourceType::Rectangle => 18,
            ResourceType::AppDefined0 => 48,
            ResourceType::AppDefined1 => 49,
            ResourceType::AppDefined2 => 50,
            ResourceType::AppDefined3 => 51,
            ResourceType::AppDefined4 => 52,
            ResourceType::AppDefined5 => 53,
            ResourceType::AppDefined6 => 54,
            ResourceType::AppDefined7 => 55,
            ResourceType::AppDefined8 => 56,
            ResourceType::AppDefined9 => 57,
            ResourceType::AppDefined10 => 58,
            ResourceType::AppDefined11 => 59,
            ResourceType::AppDefined12 => 60,
            ResourceType::AppDefined13 => 61,
            ResourceType::AppDefined14 => 62,
            ResourceType::AppDefined15 => 63,
        }
    }

    /// The resource type that `code` stands for: the one with that number, or
    /// `Unknown` where no type has it.
    pub open spec fn spec_from_u8(code: u8) -> ResourceType {
        if is_type_code(code) {
            choose|t: ResourceType| t.spec_code() == code
        } else {
            ResourceType::Unknown
        }
    }

    /// Returns the number that stands for this resource type in a directory entry.
    #[verifier::when_used_as_spec(spec_code)]
    pub fn code(self) -> (code: u8)
        ensures
            code == self.spec_code(),
    {
        match self {
            ResourceType::Unknown => 0,
            ResourceType::String => 1,
            ResourceType::Image => 2,
            ResourceType::Font => 3,
            ResourceType::AnimationScript => 4,
            ResourceType::Palette => 5,
            ResourceType::ShadingTable => 6,
            ResourceType::Voc => 7,
            ResourceType::Shape => 8,
            ResourceType::Picture => 9,
            ResourceType::Babl2Extern => 10,
            ResourceType::Babl2Reloc => 11,
            ResourceType::Babl2Code => 12,
            ResourceType::Babl2Header => 13,
            ResourceType::Babl2Reserved => 14,
            ResourceType::Object3d => 15,
            ResourceType::Stencil => 16,
            ResourceType::Movie => 17,
            ResourceType::Rectangle => 18,
            ResourceType::AppDefined0 => 48,
            ResourceType::AppDefined1 => 49,
            ResourceType::AppDefined2 => 50,
            ResourceType::AppDefined3 => 51,
            ResourceType::AppDefined4 => 52,
            ResourceType::AppDefined5 => 53,
            ResourceType::AppDefined6 => 54,
            ResourceType::AppDefined7 => 55,
            ResourceType::AppDefined8 => 56,
            ResourceType::AppDefined9 => 57,
            ResourceType::AppDefined10 => 58,
            ResourceType::AppDefined11 => 59,
            ResourceType::AppDefined12 => 60,
            ResourceType::AppDefined13 => 61,
            ResourceType::AppDefined14 => 62,
            ResourceType::AppDefined15 => 63,
        }
    }

    /// Casts a `u8` into its equivalent resource type, or `Unknown` if there is no equivalent.
    #[verifier::when_used_as_spec(spec_from_u8)]
    pub fn from_u8(other: u8) -> (res_type: ResourceType)
        ensures
            res_type == ResourceType::spec_from_u8(other),
            is_type_code(other) ==> res_type.spec_code() == other,
            !is_type_code(other) ==> res_type == ResourceType::Unknown,
    {
        let res_type = match other {
            1 => ResourceType::String,
            2 => ResourceType::Image,
            3 => ResourceType::Font,
            4 => ResourceType::AnimationScript,
            5 => ResourceType::Palette,
            6 => ResourceType::ShadingTable,
            7 => ResourceType::Voc,
            8 => ResourceType::Shape,
            9 => ResourceType::Picture,
            10 => ResourceType::Babl2Extern,
            11 => ResourceType::Babl2Reloc,
            12 => ResourceType::Babl2Code,
            13 => ResourceType::Babl2Header,
            14 => ResourceType::Babl2Reserved,
            15 => ResourceType::Object3d,
            16 => ResourceType::Stencil,
            17 => ResourceType::Movie,
            18 => ResourceType::Rectangle,
            48 => ResourceType::AppDefined0,
            49 => ResourceType::AppDefined1,
            50 => ResourceType::AppDefined2,
            51 => ResourceType::AppDefined3,
            52 => ResourceType::AppDefined4,
            53 => ResourceType::AppDefined5,
            54 => ResourceType::AppDefined6,
            55 => ResourceType::AppDefined7,
            56 => ResourceType::AppDefined8,
            57 => ResourceType::AppDefined9,
            58 => ResourceType::AppDefined10,
            59 => ResourceType::AppDefined11,
            60 => ResourceType::AppDefined12,
            61 => ResourceType::AppDefined13,
            62 => ResourceType::AppDefined14,
            63 => ResourceType::AppDefined15,
            _ => ResourceType::Unknown,
        };
        proof {
            if is_type_code(other) {
                Self::lemma_code_injective(res_type, ResourceType::spec_from_u8(other));
            }
        }
        res_type
    }

    /// No two resource types share a number.
    pub proof fn lemma_code_injective(a: ResourceType, b: ResourceType)
        requires
            a.spec_code() == b.spec_code(),
        ensures
            a == b,
    {
    }

    /// Every resource type is the one that its own number stands for, and a
    /// number stands for a type other than `Unknown` exactly when it is a type code.
    pub proof fn lemma_code_round_trip(t: ResourceType)
        ensures
            ResourceType::spec_from_u8(t.spec_code()) == t,
            t != ResourceType::Unknown <==> is_type_code(t.spec_code()),
    {
        if is_type_code(t.spec_code()) {
            Self::lemma_code_injective(t, ResourceType::spec_from_u8(t.spec_code()));
        }
    }
}

/// A set of resource flags.
#[derive(Clone, Copy, Debug, PartialEq, Eq, Structural)]
pub struct ResourceFlags {
    bits: u8,
}

impl View for ResourceFlags {
    type V = u8;

    closed spec fn view(&self) -> u8 {
        self.bits
    }
}

impl ResourceFlags {
    /// A set of flags holds no bit that stands for no flag.
    #[verifier::type_invariant]
    spec fn only_flag_bits(self) -> bool {
        self.bits <= RDF_ALL
    }

    /// Returns an empty set of flags.
    pub fn empty() -> (flags: ResourceFlags)
        ensures
            flags@ == 0,
    {
        ResourceFlags { bits: 0 }
    }

    /// Returns the set containing all flags.
    pub fn all() -> (flags: ResourceFlags)
        ensures
            flags@ == RDF_ALL,
    {
        ResourceFlags { bits: RDF_ALL }
    }

    /// Returns the raw value of the flags currently stored.
    pub fn bits(&self) -> (bits: u8)
        ensures
            bits == self@,
            bits <= RDF_ALL,
    {
        proof {
            use_type_invariant(self);
        }
        self.bits
    }

    /// Convert from underlying bit representation, unless that representation contains bits
    /// that do not correspond to a flag.
    pub fn from_bits(bits: u8) -> (flags: Option<ResourceFlags>)
        ensures
            flags is Some <==> bits <= RDF_ALL,
            flags matches Some(f) ==> f@ == bits,
    {
        assert((bits & !RDF_ALL == 0) <==> bits <= RDF_ALL) by (bit_vector);
        if (bits & !RDF_ALL) == 0 {
            Some(ResourceFlags { bits })
        } else {
            None
        }
    }

    /// Convert from underlying bit representation, dropping any bits that do not correspond
    /// to flags.
    pub fn from_bits_truncate(bits: u8) -> (flags: ResourceFlags)
        ensures
            flags@ == bits & RDF_ALL,
    {
        assert(bits & RDF_ALL <= RDF_ALL) by (bit_vector);
        ResourceFlags { bits: bits & RDF_ALL }
    }

    /// Returns `true` if no flag is set.
    pub fn is_empty(&self) -> (empty: bool)
        ensures
            empty == (self@ == 0),
    {
        self.bits == 0
    }

    /// Returns `true` if all of the flags in `other` are contained within `self`.
    pub fn contains(&self, other: ResourceFlags) -> (contained: bool)
        ensures
            contained == (self@ & other@ == other@),
    {
        (self.bits & other.bits) == other.bits
    }

    /// Returns the union of the flags in `self` and `other`.
    pub fn union(self, other: ResourceFlags) -> (flags: ResourceFlags)
        ensures
            flags@ == self@ | other@,
    {
        proof {
            use_type_invariant(self);
            use_type_invariant(other);
        }
        let a: u8 = self.bits;
        let b: u8 = other.bits;
        assert(a <= RDF_ALL && b <= RDF_ALL ==> a | b <= RDF_ALL) by (bit_vector);
        ResourceFlags { bits: a | b }
    }
}

/// `core::str::from_utf8` accepts exactly the byte strings that are well-formed
/// UTF-8, and the string it then returns is made of the bytes it was given.
pub assume_specification[ core::str::from_utf8 ](v: &[u8]) -> (result: Result<
    &str,
    core::str::Utf8Error,
>)
    ensures
        result is Ok <==> valid_utf8(v@),
        result matches Ok(text) ==> text.spec_bytes() == v@,
;

/// What a file header holds.
pub struct FileHeaderView {
    /// The user comment, 96 bytes.
    pub comment: Seq<u8>,
    /// The file offset of the directory header.
    pub dir_header_offset: u32,
}

/// What the first 128 bytes of `bytes` hold as a file header.
pub open spec fn decode_file_header(bytes: Seq<u8>) -> Result<FileHeaderView, ErrorKind> {
    if bytes.len() < FILE_HEADER_LEN {
        Err(ErrorKind::IO)
    } else if bytes.subrange(0, 16) != SIGNATURE@ {
        Err(ErrorKind::BadSignature)
    } else {
        Ok(
            FileHeaderView {
                comment: bytes.subrange(16, 112),
                dir_header_offset: le32(bytes.subrange(124, 128)) as u32,
            },
        )
    }
}

/// A resource file header.
#[derive(Clone, Copy, Debug)]
pub struct FileHeader {
    /// A user comment.
    comment: [u8; 96],
    /// A file offset to the directory header.
    dir_header_offset: u32,
}

impl View for FileHeader {
    type V = FileHeaderView;

    closed spec fn view(&self) -> FileHeaderView {
        FileHeaderView { comment: self.comment@, dir_header_offset: self.dir_header_offset }
    }
}

/// Whether `bytes` begins with the signature of a resource file.
fn has_signature(bytes: &[u8]) -> (found: bool)
    requires
        bytes@.len() >= SIGNATURE_LEN,
    ensures
        found == (bytes@.subrange(0, 16) == SIGNATURE@),
{
    let mut i: usize = 0;
    while i < SIGNATURE_LEN
        invariant
            i <= SIGNATURE_LEN,
            bytes@.len() >= SIGNATURE_LEN,
            forall|j: int| 0 <= j < i ==> bytes@[j] == SIGNATURE@[j],
        decreases SIGNATURE_LEN - i,
    {
        if bytes[i] != SIGNATURE[i] {
            assert(bytes@.subrange(0, 16)[i as int] != SIGNATURE@[i as int]);
            return false;
        }
        i += 1;
    }
    assert(bytes@.subrange(0, 16) =~= SIGNATURE@);
    true
}

impl FileHeader {
    /// Decodes a file header from the first 128 bytes of `bytes`.
    ///
    /// Fewer bytes than a header holds are an I/O error; a header that does not
    /// begin with the signature is refused.
    pub fn from_bytes(bytes: &[u8]) -> (result: Result<FileHeader, Error>)
        ensures
            agrees(result, decode_file_header(bytes@)),
    {
        if bytes.len() < FILE_HEADER_LEN {
            return Err(Error::IO(unexpected_eof()));
        }
        if !has_signature(bytes) {
            return Err(Error::BadSignature);
        }
        let mut comment = [0u8; 96];
        let mut i: usize = 0;
        while i < COMMENT_LEN
            invariant
                i <= COMMENT_LEN,
                bytes@.len() >= FILE_HEADER_LEN,
                forall|j: int| 0 <= j < i ==> comment@[j] == bytes@[16 + j],
            decreases COMMENT_LEN - i,
        {
            comment[i] = bytes[16 + i];
            i += 1;
        }
        let dir_header_offset = u32_from_le_array([bytes[124], bytes[125], bytes[126], bytes[127]]);
        let header = FileHeader { comment, dir_header_offset };
        proof {
            assert(header@.comment =~= bytes@.subrange(16, 112));
            assert(le32(bytes@.subrange(124, 128)) == dir_header_offset);
        }
        Ok(header)
    }

    /// Reads a file header from an arbitrary input stream.
    ///
    /// The input stream is assumed to be positioned at the first byte of a file header.
    /// An I/O error aside, the stream is left just past the header, whether or not
    /// its signature was accepted.
    pub fn from_reader<S: Source>(source: &mut S) -> (result: Result<FileHeader, Error>)
        ensures
            final(source).content() == old(source).content(),
            final(source).reliable() == old(source).reliable(),
            match result {
                Err(Error::IO(_)) => old(source).reliable() ==> !readable(
                    old(source).content(),
                    old(source).position() as int,
                    FILE_HEADER_LEN as int,
                ),
                _ => {
                    &&& readable(
                        old(source).content(),
                        old(source).position() as int,
                        FILE_HEADER_LEN as int,
                    )
                    &&& agrees(
                        result,
                        decode_file_header(
                            span(
                                old(source).content(),
                                old(source).position() as int,
                                FILE_HEADER_LEN as int,
                            ),
                        ),
                    )
                    &&& final(source).position() == old(source).position() + FILE_HEADER_LEN
                },
            },
    {
        match source.read_exact(FILE_HEADER_LEN) {
            Ok(buffer) => FileHeader::from_bytes(buffer.as_slice()),
            Err(error) => Err(Error::IO(error)),
        }
    }

    /// Returns the user comment stored in a header file as a byte slice.
    pub fn comment(&self) -> (comment: &[u8])
        ensures
            comment@ == self@.comment,
            comment@.len() == COMMENT_LEN,
    {
        self.comment.as_slice()
    }

    /// Returns the user comment stored in a header file as a string slice.
    ///
    /// The comment is text exactly when its 96 bytes are well-formed UTF-8.
    pub fn comment_str(&self) -> (result: Result<&str, Error>)
        ensures
            result is Ok <==> valid_utf8(self@.comment),
            result matches Ok(text) ==> text.spec_bytes() == self@.comment,
            result matches Err(error) ==> error.spec_kind() == ErrorKind::Utf8,
    {
        match core::str::from_utf8(self.comment.as_slice()) {
            Ok(text) => Ok(text),
            Err(error) => Err(Error::Utf8(error)),
        }
    }

    /// Returns the file offset of the directory header.
    pub fn dir_header_offset(&self) -> (offset: u64)
        ensures
            offset == self@.dir_header_offset,
    {
        self.dir_header_offset as u64
    }
}

/// What a directory header holds.
pub struct DirectoryHeaderView {
    /// The number of items in the directory list.
    pub num_entries: u16,
    /// The file offset of the data segment.
    pub data_offset: u32,
}

/// The directory header that the first 6 bytes of `bytes` stand for.
pub open spec fn directory_header_of(bytes: Seq<u8>) -> DirectoryHeaderView {
    DirectoryHeaderView {
        num_entries: le16(bytes.subrange(0, 2)) as u16,
        data_offset: le32(bytes.subrange(2, 6)) as u32,
    }
}

/// What the first 6 bytes of `bytes` hold as a directory header.
pub open spec fn decode_directory_header(bytes: Seq<u8>) -> Result<DirectoryHeaderView, ErrorKind> {
    if bytes.len() < DIRECTORY_HEADER_LEN {
        Err(ErrorKind::IO)
    } else {
        Ok(directory_header_of(bytes))
    }
}

/// A resource file directory header.
#[derive(Clone, Copy, Debug)]
pub struct DirectoryHeader {
    /// The number of items in the directory list.
    num_entries: u16,
    /// A file offset to where the data segment resides.
    data_offset: u32,
}

impl View for DirectoryHeader {
    type V = DirectoryHeaderView;

    closed spec fn view(&self) -> DirectoryHeaderView {
        DirectoryHeaderView { num_entries: self.num_entries, data_offset: self.data_offset }
    }
}

impl DirectoryHeader {
    /// Decodes a directory header from the first 6 bytes of `bytes`.
    ///
    /// Fewer bytes than a header holds are an I/O error.
    pub fn from_bytes(bytes: &[u8]) -> (result: Result<DirectoryHeader, Error>)
        ensures
            agrees(result, decode_directory_header(bytes@)),
    {
        if bytes.len() < DIRECTORY_HEADER_LEN {
            return Err(Error::IO(unexpected_eof()));
        }
        let num_entries = u16_from_le_array([bytes[0], bytes[1]]);
        let data_offset = u32_from_le_array([bytes[2], bytes[3], bytes[4], bytes[5]]);
        proof {
            assert(le16(bytes@.subrange(0, 2)) == num_entries);
            assert(le32(bytes@.subrange(2, 6)) == data_offset);
        }
        Ok(DirectoryHeader { num_entries, data_offset })
    }

    /// Reads a directory header from an arbitrary input stream.
    ///
    /// The input stream is assumed to be positioned at the first byte of a directory header.
    pub fn from_reader<S: Source>(source: &mut S) -> (result: Result<DirectoryHeader, Error>)
        ensures
            final(source).content() == old(source).content(),
            final(source).reliable() == old(source).reliable(),
            match result {
                Err(Error::IO(_)) => old(source).reliable() ==> !readable(
                    old(source).content(),
                    old(source).position() as int,
                    DIRECTORY_HEADER_LEN as int,
                ),
                _ => {
                    &&& readable(
                        old(source).content(),
                        old(source).position() as int,
                        DIRECTORY_HEADER_LEN as int,
                    )
                    &&& agrees(
                        result,
                        decode_directory_header(
                            span(
                                old(source).content(),
                                old(source).position() as int,
                                DIRECTORY_HEADER_LEN as int,
                            ),
                        ),
                    )
                    &&& final(source).position() == old(source).position() + DIRECTORY_HEADER_LEN
                },
            },
    {
        match source.read_exact(DIRECTORY_HEADER_LEN) {
            Ok(buffer) => DirectoryHeader::from_bytes(buffer.as_slice()),
            Err(error) => Err(Error::IO(error)),
        }
    }

    /// Returns the number of entries in the directory list.
    pub fn num_entries(&self) -> (count: usize)
        ensures
            count == self@.num_entries,
    {
        self.num_entries as usize
    }

    /// Returns a file offset to the location of the file data segment.
    pub fn data_offset(&self) -> (offset: u64)
        ensures
            offset == self@.data_offset,
    {
        self.data_offset as u64
    }
}

/// What a directory entry holds.
pub struct EntryView {
    /// The resource ID; 0 marks a deleted entry.
    pub id: u16,
    /// The length in bytes of the resource once loaded into memory.
    pub uncompressed_len: u32,
    /// The bits of the resource flags.
    pub flags: u8,
    /// The length in bytes of the resource as stored in the file.
    pub compressed_len: u32,
    /// The resource type.
    pub res_type: ResourceType,
}

impl EntryView {
    /// Whether this is a "deleted" directory entry.
    pub open spec fn is_deleted(self) -> bool {
        self.id == 0
    }

    /// Whether the resource is stored using LZW compression.
    pub open spec fn is_compressed(self) -> bool {
        self.flags & RDF_LZW == RDF_LZW
    }

    /// Whether the resource is a compound resource.
    pub open spec fn is_compound_resource(self) -> bool {
        self.flags & RDF_COMPOUND == RDF_COMPOUND
    }

    /// Whether the resource is to be loaded when its file is opened.
    pub open spec fn loads_on_open(self) -> bool {
        self.flags & RDF_LOADONOPEN == RDF_LOADONOPEN
    }
}

/// The directory entry that the first 10 bytes of `bytes` stand for.
///
/// Flag bits that stand for no flag are dropped, and a type code that stands
/// for no type gives `Unknown`.
pub open spec fn entry_of(bytes: Seq<u8>) -> EntryView {
    EntryView {
        id: le16(bytes.subrange(0, 2)) as u16,
        uncompressed_len: le24(bytes.subrange(2, 5)) as u32,
        flags: bytes[5] & RDF_ALL,
        compressed_len: le24(bytes.subrange(6, 9)) as u32,
        res_type: ResourceType::spec_from_u8(bytes[9]),
    }
}

/// What the first 10 bytes of `bytes` hold as a directory entry.
pub open spec fn decode_directory_entry(bytes: Seq<u8>) -> Result<EntryView, ErrorKind> {
    if bytes.len() < DIRECTORY_ENTRY_LEN {
        Err(ErrorKind::IO)
    } else {
        Ok(entry_of(bytes))
    }
}

/// A resource file directory entry.
#[derive(Clone, Copy, Debug)]
pub struct DirectoryEntry {
    /// The resource ID.
    id: u16,
    /// The uncompressed length of the resource in bytes.
    uncompressed_len: U24,
    /// The resource flags.
    flags: ResourceFlags,
    /// The compressed length of the resource in bytes.
    compressed_len: U24,
    /// The resource type.
    res_type: ResourceType,
}

impl View for DirectoryEntry {
    type V = EntryView;

    closed spec fn view(&self) -> EntryView {
        EntryView {
            id: self.id,
            uncompressed_len: self.uncompressed_len@,
            flags: self.flags@,
            compressed_len: self.compressed_len@,
            res_type: self.res_type,
        }
    }
}

impl DirectoryEntry {
    /// Decodes a directory entry from the first 10 bytes of `bytes`.
    ///
    /// Fewer bytes than an entry holds are an I/O error.
    pub fn from_bytes(bytes: &[u8]) -> (result: Result<DirectoryEntry, Error>)
        ensures
            agrees(result, decode_directory_entry(bytes@)),
    {
        if bytes.len() < DIRECTORY_ENTRY_LEN {
            return Err(Error::IO(unexpected_eof()));
        }
        let id = u16_from_le_array([bytes[0], bytes[1]]);
        let uncompressed_len = U24::from_le_array([bytes[2], bytes[3], bytes[4]]);
        let flags = ResourceFlags::from_bits_truncate(bytes[5]);
        let compressed_len = U24::from_le_array([bytes[6], bytes[7], bytes[8]]);
        let res_type = ResourceType::from_u8(bytes[9]);
        proof {
            assert(le16(bytes@.subrange(0, 2)) == id);
            assert(le24(bytes@.subrange(2, 5)) == uncompressed_len@);
            assert(le24(bytes@.subrange(6, 9)) == compressed_len@);
        }
        Ok(DirectoryEntry { id, uncompressed_len, flags, compressed_len, res_type })
    }

    /// Reads a directory entry from an arbitrary input stream.
    ///
    /// The input stream is assumed to be positioned at the first byte of a directory entry.
    pub fn from_reader<S: Source>(source: &mut S) -> (result: Result<DirectoryEntry, Error>)
        ensures
            final(source).content() == old(source).content(),
            final(source).reliable() == old(source).reliable(),
            match result {
                Err(Error::IO(_)) => old(source).reliable() ==> !readable(
                    old(source).content(),
                    old(source).position() as int,
                    DIRECTORY_ENTRY_LEN as int,
                ),
                _ => {
                    &&& readable(
                        old(source).content(),
                        old(source).position() as int,
                        DIRECTORY_ENTRY_LEN as int,
                    )
                    &&& agrees(
                        result,
                        decode_directory_entry(
                            span(
                                old(source).content(),
                                old(source).position() as int,
                                DIRECTORY_ENTRY_LEN as int,
                            ),
                        ),
                    )
                    &&& final(source).position() == old(source).position() + DIRECTORY_ENTRY_LEN
                },
            },
    {
        match source.read_exact(DIRECTORY_ENTRY_LEN) {
            Ok(buffer) => DirectoryEntry::from_bytes(buffer.as_slice()),
            Err(error) => Err(Error::IO(error)),
        }
    }

    /// Returns the ID of a directory entry.
    pub fn id(&self) -> (id: usize)
        ensures
            id == self@.id,
    {
        self.id as usize
    }

    /// Returns `true` if this is a "deleted" directory entry, or `false` otherwise.
    pub fn is_deleted(&self) -> (deleted: bool)
        ensures
            deleted == self@.is_deleted(),
    {
        self.id() == 0
    }

    /// Returns the length in bytes of a directory entry's corresponding resource when loaded into
    /// memory.
    pub fn uncompressed_len(&self) -> (len: usize)
        ensures
            len == self@.uncompressed_len,
            len < 0x100_0000,
    {
        self.uncompressed_len.value() as usize
    }

    /// Returns the flags associated with a directory entry's corresponding resource.
    pub fn flags(&self) -> (flags: ResourceFlags)
        ensures
            flags@ == self@.flags,
    {
        self.flags
    }

    /// Returns the length in bytes of a directory entry's corresponding resource when stored on
    /// physical media.
    pub fn compressed_len(&self) -> (len: usize)
        ensures
            len == self@.compressed_len,
            len < 0x100_0000,
    {
        self.compressed_len.value() as usize
    }

    /// Returns the type of a directory entry's corresponding resource.
    pub fn resource_type(&self) -> (res_type: ResourceType)
        ensures
            res_type == self@.res_type,
    {
        self.res_type
    }

    /// Returns `true` if the resource is stored using LZW compression.
    pub fn is_compressed(&self) -> (compressed: bool)
        ensures
            compressed == self@.is_compressed(),
    {
        assert(RDF_LZW & RDF_ALL == RDF_LZW) by (bit_vector);
        self.flags.contains(ResourceFlags::from_bits_truncate(RDF_LZW))
    }

    /// Returns `true` if the resource is a compound resource.
    pub fn is_compound_resource(&self) -> (compound: bool)
        ensures
            compound == self@.is_compound_resource(),
    {
        assert(RDF_COMPOUND & RDF_ALL == RDF_COMPOUND) by (bit_vector);
        self.flags.contains(ResourceFlags::from_bits_truncate(RDF_COMPOUND))
    }

    /// Returns `true` if the resource is to be loaded when its file is opened.
    pub fn loads_on_open(&self) -> (preload: bool)
        ensures
            preload == self@.loads_on_open(),
    {
        assert(RDF_LOADONOPEN & RDF_ALL == RDF_LOADONOPEN) by (bit_vector);
        self.flags.contains(ResourceFlags::from_bits_truncate(RDF_LOADONOPEN))
    }
}

} // verus!
