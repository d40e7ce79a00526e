//! Walking an in-memory TAR archive buffer.
//!
//! [`TarArchiveRef`] borrows a byte buffer whose length is a positive
//! multiple of the block size and at least three blocks; [`TarArchive`] owns
//! such a buffer on the heap.  [`ArchiveHeaderIterator`] walks the buffer
//! block by block yielding every header while skipping each regular file's
//! payload; [`ArchiveEntryIterator`] builds on it and yields only the
//! regular-file entries, with their resolved names and their payload bytes
//! sliced straight out of the buffer.
//!
//! The whole walk is specified by two step functions over the buffer's byte
//! sequence, [`spec_header_step`] and [`spec_entry_step`]: each `next` call
//! returns exactly what the step function says for the iterator's current
//! position, so iteration is a pure function of the buffer.

use vstd::prelude::*;

verus! {

use crate::header::PosixHeader;
use crate::header::lemma_header_field_offsets;
use crate::header::spec_is_regular_file_byte;
use crate::header::spec_is_zero_block;
use crate::header::spec_payload_block_count;
use crate::header::spec_type_flag;
use crate::tar_format_types::ParseNumberError;
use crate::tar_format_types::TarFormatString;
use crate::tar_format_types::lemma_append_str_len;
use crate::tar_format_types::lemma_first_index_of;
use crate::tar_format_types::spec_append;
use crate::tar_format_types::spec_field_number;
use crate::tar_format_types::spec_str_len;
use crate::tar_format_types::spec_text;
use crate::tar_format_types::spec_text_until_space;
use crate::tar_format_types::utf8_from_slice;
use vstd::string::StringSliceAdditionalSpecFns;
use vstd::utf8::valid_utf8;

/// The data is corrupt and does not present a valid TAR archive.  The
/// reasons for that are:
/// - the data is empty,
/// - the data is not a multiple of 512 (the block size),
/// - the data is shorter than three blocks (one header plus the two
///   terminating zero blocks).
#[derive(Copy, Clone, Debug, PartialEq, Eq, Structural)]
pub struct CorruptDataError;

/// Number of whole 512-byte blocks the buffer holds.
pub open spec fn spec_block_count(data: Seq<u8>) -> int {
    data.len() as int / 512
}

/// The bytes of the block at index `i`.
pub open spec fn spec_header_block(data: Seq<u8>, i: int) -> Seq<u8> {
    data.subrange(512 * i, 512 * (i + 1))
}

/// The sanity condition a buffer must meet before it is read as an archive:
/// a positive length that is a whole number of blocks, with room for at
/// least one header and the two terminating zero blocks.
pub open spec fn spec_archive_ok(data: Seq<u8>) -> bool {
    data.len() > 0 && data.len() % 512 == 0 && spec_block_count(data) >= 3
}

/// One step of the raw header walk at block `i`: the yielded pair of block
/// index and header bytes (or `None` when the walk ends there), and the
/// block index the walk continues at.
///
/// A header of a regular file is yielded only when its size field parses;
/// the walk then skips the payload blocks.  Any other header is yielded as
/// it stands, directories included.  The walk ends at the end of the buffer
/// and on a regular file whose size field does not parse.
pub open spec fn spec_header_step(data: Seq<u8>, i: int) -> (Option<(int, Seq<u8>)>, int) {
    if !(0 <= i < spec_block_count(data)) {
        (None, i)
    } else {
        let hb = spec_header_block(data, i);
        if spec_is_regular_file_byte(hb[156]) {
            match spec_payload_block_count(hb.subrange(124, 136)) {
                Ok(pbc) => (Some((i, hb)), i + 1 + pbc),
                Err(_) => (None, i + 1),
            }
        } else {
            (Some((i, hb)), i + 1)
        }
    }
}

/// Wrapper type around bytes that represents a TAR archive.  To iterate the
/// entries, use [`TarArchiveRef::entries`].
#[derive(Debug, PartialEq, Eq)]
pub struct TarArchiveRef<'a> {
    data: &'a [u8],
}

impl<'a> TarArchiveRef<'a> {
    /// The archive buffer's bytes.
    pub closed spec fn spec_data(&self) -> Seq<u8> {
        self.data@
    }

    #[verifier::type_invariant]
    closed spec fn archive_sane(&self) -> bool {
        spec_archive_ok(self.data@)
    }

    /// Creates a new archive wrapper type.  The provided bytes are
    /// interpreted as a TAR archive; a buffer failing the sanity checks is
    /// rejected with a [`CorruptDataError`], never panicked on.
    pub fn new(data: &'a [u8]) -> (r: Result<Self, CorruptDataError>)
        ensures
            r is Ok <==> spec_archive_ok(data@),
            r matches Ok(a) ==> a.spec_data() == data@,
    {
        match Self::validate(data) {
            Ok(()) => Ok(Self { data }),
            Err(e) => Err(e),
        }
    }

    /// The sanity checks of [`Self::new`], on their own.
    fn validate(data: &[u8]) -> (r: Result<(), CorruptDataError>)
        ensures
            r is Ok <==> spec_archive_ok(data@),
    {
        let is_malformed = (data.len() % 512) != 0;
        let has_min_block_count = data.len() / 512 >= 3;
        if data.len() > 0 && !is_malformed && has_min_block_count {
            Ok(())
        } else {
            Err(CorruptDataError)
        }
    }

    /// Creates an [`ArchiveEntryIterator`] over the archive's regular-file
    /// entries, starting at the first block.
    pub fn entries(&self) -> (it: ArchiveEntryIterator<'a>)
        ensures
            it.wf(),
            it.spec_data() == self.spec_data(),
            it.spec_index() == 0,
    {
        proof {
            use_type_invariant(self);
        }
        ArchiveEntryIterator::new(self.data)
    }
}

/// Type that owns its archive bytes on the heap.  Unlike [`TarArchiveRef`],
/// this type takes ownership of the data; the buffer can be taken back with
/// `Vec::<u8>::from`.
#[derive(Debug, PartialEq, Eq)]
pub struct TarArchive {
    data: Vec<u8>,
}

impl TarArchive {
    /// The archive buffer's bytes.
    pub closed spec fn spec_data(&self) -> Seq<u8> {
        self.data@
    }

    #[verifier::type_invariant]
    closed spec fn archive_sane(&self) -> bool {
        spec_archive_ok(self.data@)
    }

    /// Creates a new archive wrapper type owning the given bytes.  A buffer
    /// failing the sanity checks is rejected with a [`CorruptDataError`],
    /// never panicked on.
    pub fn new(data: Vec<u8>) -> (r: Result<Self, CorruptDataError>)
        ensures
            r is Ok <==> spec_archive_ok(data@),
            r matches Ok(a) ==> a.spec_data() == data@,
    {
        match TarArchiveRef::validate(data.as_slice()) {
            Ok(()) => Ok(Self { data }),
            Err(e) => Err(e),
        }
    }

    /// Creates an [`ArchiveEntryIterator`] over the archive's regular-file
    /// entries, starting at the first block.
    pub fn entries<'a>(&'a self) -> (it: ArchiveEntryIterator<'a>)
        ensures
            it.wf(),
            it.spec_data() == self.spec_data(),
            it.spec_index() == 0,
    {
        proof {
            use_type_invariant(self);
        }
        ArchiveEntryIterator::new(self.data.as_slice())
    }
}

impl<'a> Clone for TarArchiveRef<'a> {
    /// Clones the borrowing wrapper; the clone reads the same buffer, so
    /// both values yield the same entries.
    fn clone(&self) -> (r: Self)
        ensures
            r == *self,
    {
        proof {
            use_type_invariant(self);
        }
        TarArchiveRef { data: self.data }
    }
}

impl Clone for TarArchive {
    /// Clones the owning wrapper, copying the buffer; the clone yields the
    /// same entries.
    fn clone(&self) -> (r: Self)
        ensures
            r.spec_data() == self.spec_data(),
    {
        proof {
            use_type_invariant(self);
        }
        let data = self.data.clone();
        proof {
            assert forall|i: int| 0 <= i < self.data@.len() implies data@[i] == self.data@[i] by {
                assert(vstd::pervasive::cloned::<u8>(self.data[i], data[i]));
            }
            assert(data@ =~= self.data@);
        }
        TarArchive { data }
    }
}

impl From<TarArchive> for Vec<u8> {
    /// Hands the owned archive bytes back to the caller.
    fn from(ar: TarArchive) -> (r: Vec<u8>) {
        ar.data
    }
}

/// The owning wrapper hands back exactly the bytes it was given: the
/// conversion of a [`TarArchive`] to `Vec<u8>` returns the archive's own
/// buffer, unmodified.
pub proof fn lemma_archive_into_vec(ar: TarArchive)
    ensures
        (<Vec<u8> as vstd::std_specs::convert::FromSpec<TarArchive>>::from_spec(ar))@
            == ar.spec_data(),
{
}

impl vstd::std_specs::convert::FromSpecImpl<TarArchive> for Vec<u8> {
    open spec fn obeys_from_spec() -> bool {
        true
    }

    closed spec fn from_spec(ar: TarArchive) -> Vec<u8> {
        ar.data
    }
}

/// Iterates over the headers of a TAR archive, block by block.
#[derive(Debug)]
pub struct ArchiveHeaderIterator<'a> {
    archive_data: &'a [u8],
    next_hdr_block_index: usize,
}

impl<'a> ArchiveHeaderIterator<'a> {
    /// The archive buffer the iterator walks.
    pub closed spec fn spec_data(&self) -> Seq<u8> {
        self.archive_data@
    }

    /// The block index the next call of [`Self::next`] reads.
    pub closed spec fn spec_index(&self) -> int {
        self.next_hdr_block_index as int
    }

    /// Creates a new iterator at the archive's first block.  The buffer
    /// must be non-empty and a whole number of blocks.
    pub fn new(archive: &'a [u8]) -> (it: Self)
        requires
            archive@.len() > 0,
            archive@.len() % 512 == 0,
        ensures
            it.spec_data() == archive@,
            it.spec_index() == 0,
    {
        Self { archive_data: archive, next_hdr_block_index: 0 }
    }

    /// Reads the memory at the given block as a [`PosixHeader`].
    fn block_as_header(&self, block_index: usize) -> (h: PosixHeader)
        requires
            0 <= block_index < spec_block_count(self.spec_data()),
        ensures
            h@ == spec_header_block(self.spec_data(), block_index as int),
    {
        proof {
            lemma_block_in_bounds(self.spec_data(), block_index as int);
        }
        // reading the length brings its usize bound into scope for the
        // index arithmetic below
        let len = self.archive_data.len();
        let begin = block_index * 512;
        proof {
            assert(begin + 512 <= len);
        }
        let block = vstd::slice::slice_subrange(self.archive_data, begin, begin + 512);
        PosixHeader::from_bytes(block)
    }

    /// Returns the next header together with its block index, advancing the
    /// iterator past the header and, for a regular file, past its payload
    /// blocks.  Returns `None` at the end of the buffer, and on a regular
    /// file whose size field cannot be parsed (the archive is then treated
    /// as corrupt and the walk stops).
    pub fn next(&mut self) -> (r: Option<(usize, PosixHeader)>)
        ensures
            final(self).spec_data() == old(self).spec_data(),
            ({
                let (item, ni) = spec_header_step(old(self).spec_data(), old(self).spec_index());
                &&& final(self).spec_index() == ni
                &&& (r is Some <==> item is Some)
                &&& (r matches Some(p) ==> item matches Some(q) && p.0 == q.0 && p.1@ == q.1)
            }),
    {
        let total_block_count = self.archive_data.len() / 512;
        if self.next_hdr_block_index >= total_block_count {
            return None;
        }
        let hdr = self.block_as_header(self.next_hdr_block_index);
        let block_index = self.next_hdr_block_index;
        proof {
            lemma_header_field_offsets(&hdr);
        }

        // Start at the next block on the next iteration.
        self.next_hdr_block_index += 1;

        // The block index moves past the payload only for types that carry
        // one.  In directory entries, for example, the size field has other
        // semantics, so only the header block itself is skipped.
        let type_flag_ok = match hdr.typeflag.try_to_type_flag() {
            Ok(typeflag) => typeflag.is_regular_file(),
            Err(_) => false,
        };
        if type_flag_ok {
            let payload_block_count = match hdr.payload_block_count() {
                Ok(c) => c,
                Err(_) => {
                    return None;
                },
            };
            proof {
                let n = spec_field_number(hdr.size@, 8)->Ok_0;
                lemma_index_step_in_bounds(self.spec_data(), block_index as int, n);
            }
            self.next_hdr_block_index += payload_block_count;
        }

        Some((block_index, hdr))
    }
}

/// The ustar long-name condition of a header block: the magic field reads
/// exactly "ustar" (NUL-terminated), the version field reads "00", and the
/// prefix field is non-empty.  Only then is the entry's name composed from
/// the prefix.
pub open spec fn spec_is_ustar_with_prefix(hb: Seq<u8>) -> bool {
    &&& spec_str_len(hb.subrange(257, 263)) == 5
    &&& hb[257] == 117  // 'u'
    &&& hb[258] == 115  // 's'
    &&& hb[259] == 116  // 't'
    &&& hb[260] == 97  // 'a'
    &&& hb[261] == 114  // 'r'
    &&& spec_str_len(hb.subrange(263, 265)) == 2
    &&& hb[263] == 48  // '0'
    &&& hb[264] == 48  // '0'
    &&& hb[345] != 0
}

/// The resolved file name of the entry whose header block is `hb`, laid
/// out in its 256-byte storage: `prefix + "/" + name` for a ustar header
/// with a non-empty prefix, plain `name` otherwise.
pub open spec fn spec_resolved_name(hb: Seq<u8>) -> Seq<u8> {
    let name = hb.subrange(0, 100);
    let prefix = hb.subrange(345, 500);
    let empty = Seq::new(256, |i: int| 0u8);
    if spec_is_ustar_with_prefix(hb) {
        spec_append(spec_append(spec_append(empty, prefix), seq![47u8]), name)
    } else {
        spec_append(empty, name)
    }
}

/// One yielded entry, as mathematical data: the resolved name in its
/// 256-byte storage, the payload bytes, the declared size, the header
/// block's bytes, and the header's block index.
pub struct ArchiveEntryModel {
    /// The resolved name, in its 256-byte storage.
    pub name: Seq<u8>,
    /// The payload bytes, sliced out of the archive buffer.
    pub data: Seq<u8>,
    /// The declared payload size in bytes.
    pub size: int,
    /// The bytes of the entry's header block.
    pub header: Seq<u8>,
    /// The block index of the entry's header.
    pub block: int,
}

/// One step of the entry walk at block `i`: the yielded entry (or `None`
/// when the walk ends), and the block index the walk continues at.
///
/// Headers of valid non-regular types (directories among them) are skipped.
/// The walk ends at the end of the buffer, on an unknown type-flag byte, on
/// a regular file whose size field does not parse, and on a payload that
/// would reach into the mandatory two trailing zero blocks.
pub open spec fn spec_entry_step(data: Seq<u8>, i: int) -> (Option<ArchiveEntryModel>, int)
    decreases spec_block_count(data) - i,
{
    if !(0 <= i < spec_block_count(data)) {
        (None, i)
    } else {
        let hb = spec_header_block(data, i);
        if spec_type_flag(hb[156]) is None {
            (None, i + 1)
        } else if !spec_is_regular_file_byte(hb[156]) {
            spec_entry_step(data, i + 1)
        } else {
            match spec_field_number(hb.subrange(124, 136), 8) {
                Err(_) => (None, i + 1),
                Ok(n) => {
                    let ni = i + 1 + (n + 511) / 512;
                    let begin = 512 * (i + 1);
                    let end = begin + n;
                    if end > data.len() - 1024 {
                        (None, ni)
                    } else {
                        (
                            Some(
                                ArchiveEntryModel {
                                    name: spec_resolved_name(hb),
                                    data: data.subrange(begin, end),
                                    size: n as int,
                                    header: hb,
                                    block: i,
                                },
                            ),
                            ni,
                        )
                    }
                },
            }
        }
    }
}

/// A step that yields an entry moves the walk forward.
pub proof fn lemma_entry_step_advances(data: Seq<u8>, i: int)
    ensures
        spec_entry_step(data, i).0 is Some ==> i < spec_entry_step(data, i).1,
    decreases spec_block_count(data) - i,
{
    if 0 <= i < spec_block_count(data) {
        let hb = spec_header_block(data, i);
        if spec_type_flag(hb[156]) is Some && !spec_is_regular_file_byte(hb[156]) {
            lemma_entry_step_advances(data, i + 1);
        }
    }
}

/// All entries of the walk from block `i` on, in order.
pub open spec fn spec_entries_from(data: Seq<u8>, i: int) -> Seq<ArchiveEntryModel>
    decreases
            (if spec_block_count(data) - i >= 0 {
                spec_block_count(data) - i
            } else {
                0
            }),
    via spec_entries_from_decreases
{
    match spec_entry_step(data, i) {
        (Some(m), ni) => seq![m] + spec_entries_from(data, ni),
        (None, _) => Seq::empty(),
    }
}

#[via_fn]
proof fn spec_entries_from_decreases(data: Seq<u8>, i: int) {
    lemma_entry_step_advances(data, i);
}

/// Describes an entry of an archive: a regular file with its resolved name
/// and its payload bytes, borrowed straight from the archive buffer.
#[derive(Debug)]
pub struct ArchiveEntry<'a> {
    filename: TarFormatString<256>,
    data: &'a [u8],
    size: usize,
    posix_header: PosixHeader,
}

impl<'a> ArchiveEntry<'a> {
    /// The resolved file name, in its 256-byte storage.
    pub closed spec fn spec_filename(&self) -> Seq<u8> {
        self.filename@
    }

    /// The payload bytes.
    pub closed spec fn spec_data(&self) -> Seq<u8> {
        self.data@
    }

    /// The payload size in bytes.
    pub closed spec fn spec_size(&self) -> int {
        self.size as int
    }

    /// The entry's header record.
    pub closed spec fn spec_header(&self) -> PosixHeader {
        self.posix_header
    }

    fn new(filename: TarFormatString<256>, data: &'a [u8], posix_header: PosixHeader) -> (e: Self)
        ensures
            e.spec_filename() == filename@,
            e.spec_data() == data@,
            e.spec_size() == data@.len(),
            e.spec_header() == posix_header,
    {
        ArchiveEntry { filename, data, size: data.len(), posix_header }
    }

    /// File name of the entry, with a maximum of 256 characters (including
    /// the terminating NUL byte).
    pub fn filename(&self) -> (r: TarFormatString<256>)
        ensures
            r@ == self.spec_filename(),
    {
        self.filename
    }

    /// Data of the file.
    pub fn data(&self) -> (r: &'a [u8])
        ensures
            r@ == self.spec_data(),
    {
        self.data
    }

    /// Data of the file as a string slice, if the data is valid UTF-8.
    /// Fails without panicking otherwise.
    pub fn data_as_str(&self) -> (r: Result<&'a str, core::str::Utf8Error>)
        ensures
            r is Ok <==> valid_utf8(self.spec_data()),
            r matches Ok(s) ==> s.spec_bytes() == self.spec_data(),
    {
        let r = utf8_from_slice(self.data, 0, self.data.len());
        proof {
            assert(self.data@.subrange(0, self.data@.len() as int) =~= self.data@);
        }
        r
    }

    /// File size in bytes.
    pub fn size(&self) -> (r: usize)
        ensures
            r == self.spec_size(),
    {
        self.size
    }

    /// The [`PosixHeader`] of the entry.
    pub fn posix_header(&self) -> (r: &PosixHeader)
        ensures
            *r == self.spec_header(),
    {
        &self.posix_header
    }
}

/// Tests the ustar long-name condition of a header: magic "ustar", version
/// "00", and a non-empty prefix field.
fn header_is_ustar_with_prefix(h: &PosixHeader) -> (r: bool)
    ensures
        r == spec_is_ustar_with_prefix(h@),
{
    proof {
        lemma_header_field_offsets(h);
    }
    let magic_ok = h.magic.size() == 5 && h.magic.get(0) == 117 && h.magic.get(1) == 115
        && h.magic.get(2) == 116 && h.magic.get(3) == 97 && h.magic.get(4) == 114;
    let version_ok = h.version.size() == 2 && h.version.get(0) == 48 && h.version.get(1) == 48;
    magic_ok && version_ok && !h.prefix.is_empty()
}

/// Iterator over the regular-file entries of an archive.
///
/// Only regular files are yielded; directories, links and the other special
/// types ([`crate::header::TypeFlag`]) are skipped.  The full path of each
/// file is reflected in its own name (and, for ustar long names, in its
/// header's prefix field), so nothing is lost by the skipping.
#[derive(Debug)]
pub struct ArchiveEntryIterator<'a>(ArchiveHeaderIterator<'a>);

impl<'a> ArchiveEntryIterator<'a> {
    /// The archive buffer the iterator walks.
    pub closed spec fn spec_data(&self) -> Seq<u8> {
        self.0.spec_data()
    }

    /// The block index the underlying header walk continues at.
    pub closed spec fn spec_index(&self) -> int {
        self.0.spec_index()
    }

    /// The buffer the iterator was built over has passed the archive sanity
    /// checks.
    pub open spec fn wf(&self) -> bool {
        spec_archive_ok(self.spec_data())
    }

    /// Creates a new iterator at the archive's first block.
    fn new(archive: &'a [u8]) -> (it: Self)
        requires
            spec_archive_ok(archive@),
        ensures
            it.wf(),
            it.spec_data() == archive@,
            it.spec_index() == 0,
    {
        Self(ArchiveHeaderIterator::new(archive))
    }

    /// Pulls the next raw header from the underlying header walk.
    fn next_hdr(&mut self) -> (r: Option<(usize, PosixHeader)>)
        ensures
            final(self).spec_data() == old(self).spec_data(),
            ({
                let (item, ni) = spec_header_step(old(self).spec_data(), old(self).spec_index());
                &&& final(self).spec_index() == ni
                &&& (r is Some <==> item is Some)
                &&& (r matches Some(p) ==> item matches Some(q) && p.0 == q.0 && p.1@ == q.1)
            }),
    {
        self.0.next()
    }

    /// Returns the next regular-file entry, or `None` once the walk has
    /// ended: at the end of the buffer, on an unknown type flag, on an
    /// unparsable size field, or on a payload that would reach into the
    /// mandatory trailing zero blocks.  The result is exactly what
    /// [`spec_entry_step`] says for the iterator's position, so the walk
    /// never reads out of bounds and never panics.
    pub fn next(&mut self) -> (r: Option<ArchiveEntry<'a>>)
        requires
            old(self).wf(),
        ensures
            final(self).wf(),
            final(self).spec_data() == old(self).spec_data(),
            ({
                let (item, ni) = spec_entry_step(old(self).spec_data(), old(self).spec_index());
                &&& final(self).spec_index() == ni
                &&& (r is Some <==> item is Some)
                &&& (r matches Some(e) ==> item matches Some(m) && e.spec_filename() == m.name
                    && e.spec_data() == m.data && e.spec_size() == m.size && e.spec_header()@
                    == m.header)
            }),
    {
        let ghost gdata = self.spec_data();
        let ghost i0 = self.spec_index();
        let (mut block_index, mut hdr) = match self.next_hdr() {
            Some(p) => p,
            None => {
                return None;
            },
        };

        // Ignore directory entries and other special types: only regular
        // files are yielded.  Nothing is lost by this, as file names in
        // archives are fully qualified (e.g. dir_a/dir_b/file).
        loop
            invariant
                gdata == old(self).spec_data(),
                i0 == old(self).spec_index(),
                self.wf(),
                self.spec_data() == gdata,
                0 <= block_index < spec_block_count(gdata),
                hdr@ == spec_header_block(gdata, block_index as int),
                spec_header_step(gdata, block_index as int).0 is Some,
                self.spec_index() == spec_header_step(gdata, block_index as int).1,
                spec_entry_step(gdata, i0) == spec_entry_step(gdata, block_index as int),
            ensures
                self.wf(),
                self.spec_data() == gdata,
                0 <= block_index < spec_block_count(gdata),
                hdr@ == spec_header_block(gdata, block_index as int),
                spec_header_step(gdata, block_index as int).0 is Some,
                self.spec_index() == spec_header_step(gdata, block_index as int).1,
                spec_entry_step(gdata, i0) == spec_entry_step(gdata, block_index as int),
                spec_is_regular_file_byte(hdr@[156]),
            decreases spec_block_count(gdata) - block_index,
        {
            proof {
                lemma_header_field_offsets(&hdr);
            }
            let type_flag = match hdr.typeflag.try_to_type_flag() {
                Ok(t) => t,
                Err(_) => {
                    // an unknown type flag: the archive is corrupt, stop
                    return None;
                },
            };
            if type_flag.is_regular_file() {
                break;
            }
            let nxt = match self.next_hdr() {
                Some(p) => p,
                None => {
                    proof {
                        let bi = block_index as int;
                        assert(!spec_is_regular_file_byte(hdr@[156]));
                        let j = spec_header_step(gdata, bi).1;
                        assert(j == bi + 1);
                        assert(spec_entry_step(gdata, bi) == spec_entry_step(gdata, j));
                        if j < spec_block_count(gdata) {
                            let hb2 = spec_header_block(gdata, j);
                            assert(spec_is_regular_file_byte(hb2[156]));
                            assert(spec_field_number(hb2.subrange(124, 136), 8) is Err);
                            assert(spec_entry_step(gdata, j) == (
                                None::<ArchiveEntryModel>,
                                j + 1,
                            ));
                        } else {
                            assert(spec_entry_step(gdata, j) == (None::<ArchiveEntryModel>, j));
                        }
                    }
                    return None;
                },
            };
            block_index = nxt.0;
            hdr = nxt.1;
        }

        proof {
            lemma_header_field_offsets(&hdr);
        }

        // The header walk only yields a regular-file header whose size
        // field parses, and a zero block's size field is empty and cannot
        // parse; so a zero block can never arrive here.  A lone zero block
        // (one with no second zero block after it) would be unrecoverably
        // corrupt; this reader proves the case impossible instead of
        // checking for it at run time.
        if hdr.is_zero_block() {
            proof {
                lemma_zero_block_has_no_size(hdr@);
            }
            return vstd::pervasive::unreached();
        }

        let payload_size = match hdr.size.as_number() {
            Ok(n) => n,
            Err(_) => {
                // unreachable: the size field of a yielded header parses
                return None;
            },
        };

        let idx_first_data_block = block_index + 1;
        let data_len = self.0.archive_data.len();
        proof {
            lemma_block_in_bounds(gdata, block_index as int);
            crate::header::lemma_pbc_fits(payload_size);
        }
        let idx_begin = idx_first_data_block * 512;
        proof {
            vstd::arithmetic::div_mod::lemma_fundamental_div_mod(gdata.len() as int, 512);
        }
        // The payload must end before the mandatory trailing double zero
        // block; the minimum length of the constructor makes the
        // subtraction safe.
        let max_data_end_index_exclusive = data_len - 2 * 512;
        if idx_begin > max_data_end_index_exclusive {
            return None;
        }
        if payload_size > max_data_end_index_exclusive - idx_begin {
            return None;
        }
        let idx_end_exclusive = idx_begin + payload_size;

        let file_bytes = vstd::slice::slice_subrange(
            self.0.archive_data,
            idx_begin,
            idx_end_exclusive,
        );

        let mut filename: TarFormatString<256> = TarFormatString::new([0u8; 256]);
        proof {
            assert(filename@ =~= Seq::new(256, |i: int| 0u8));
            assert(spec_str_len(filename@) == 0);
            lemma_first_index_of(hdr.prefix@, 0);
            lemma_first_index_of(hdr.name@, 0);
        }

        // The POSIX 1003.1 long-name scheme: the full path is the prefix
        // field, a slash, and the name field.
        if header_is_ustar_with_prefix(&hdr) {
            let ghost f0 = filename@;
            filename.append(&hdr.prefix);
            proof {
                lemma_append_str_len(f0, hdr.prefix@);
            }
            let ghost f1 = filename@;
            let slash = TarFormatString::<1>::new([47u8]);
            proof {
                assert(slash@ =~= seq![47u8]);
                crate::tar_format_types::lemma_first_index_of_unique(slash@, 0, 1);
            }
            filename.append(&slash);
            proof {
                lemma_append_str_len(f1, slash@);
            }
            let ghost f2 = filename@;
            filename.append(&hdr.name);
            proof {
                lemma_append_str_len(f2, hdr.name@);
            }
        } else {
            let ghost f0 = filename@;
            filename.append(&hdr.name);
            proof {
                lemma_append_str_len(f0, hdr.name@);
            }
        }
        proof {
            assert(filename@ == spec_resolved_name(hdr@));
        }

        Some(ArchiveEntry::new(filename, file_bytes, hdr))
    }
}

/// Round trip of an embedded file: when the header at block `i` declares a
/// regular file of `n` bytes and the payload fits in front of the trailing
/// zero-block reservation, the walk at `i` yields exactly the buffer bytes
/// at `[(i+1)*512, (i+1)*512 + n)` — the payload comes back byte for byte.
pub proof fn lemma_round_trip(data: Seq<u8>, i: int, n: usize)
    requires
        0 <= i < spec_block_count(data),
        spec_is_regular_file_byte(spec_header_block(data, i)[156]),
        spec_field_number(spec_header_block(data, i).subrange(124, 136), 8) == Ok::<
            usize,
            ParseNumberError,
        >(n),
        512 * (i + 1) + n <= data.len() - 1024,
    ensures
        ({
            let begin = 512 * (i + 1);
            &&& spec_entry_step(data, i).0 matches Some(m) && m.block == i && m.size == n
                && m.data == data.subrange(begin, begin + n)
        }),
{
}

/// Decoding is deterministic: walks of equal archive buffers from equal
/// positions yield equal entry sequences.  Two independent iterators over
/// the same buffer therefore see identical entries, and a second pass over
/// an archive repeats the first exactly.
pub proof fn lemma_iteration_deterministic(data1: Seq<u8>, data2: Seq<u8>, i: int)
    requires
        data1 == data2,
    ensures
        spec_entries_from(data1, i) == spec_entries_from(data2, i),
{
}

/// Every yielded entry is a regular file — directories and the other
/// special types are never yielded — and carries exactly as many payload
/// bytes as its header's size field declares.
pub proof fn lemma_entry_is_regular_and_exact(data: Seq<u8>, i: int)
    ensures
        spec_entry_step(data, i).0 matches Some(m) ==> {
            &&& spec_is_regular_file_byte(m.header[156])
            &&& m.data.len() == m.size
            &&& spec_field_number(m.header.subrange(124, 136), 8) == Ok::<
                usize,
                ParseNumberError,
            >(m.size as usize)
        },
    decreases spec_block_count(data) - i,
{
    if 0 <= i < spec_block_count(data) {
        let hb = spec_header_block(data, i);
        if spec_type_flag(hb[156]) is Some && !spec_is_regular_file_byte(hb[156]) {
            lemma_entry_is_regular_and_exact(data, i + 1);
        }
    }
}

/// The payload of a yielded entry is exactly the run of buffer bytes that
/// begins right after the entry's header block and spans the declared size;
/// it lies entirely inside the buffer, clear of the trailing zero-block
/// reservation, and the entry's name is resolved from that same header.
pub proof fn lemma_payload_is_buffer_slice(data: Seq<u8>, i: int)
    ensures
        spec_entry_step(data, i).0 matches Some(m) ==> {
            let begin = 512 * (m.block + 1);
            &&& i <= m.block < spec_block_count(data)
            &&& m.block < spec_entry_step(data, i).1
            &&& m.header == spec_header_block(data, m.block)
            &&& m.name == spec_resolved_name(m.header)
            &&& m.data == data.subrange(begin, begin + m.size)
            &&& 0 <= begin
            &&& begin + m.size <= data.len() - 1024
        },
    decreases spec_block_count(data) - i,
{
    if 0 <= i < spec_block_count(data) {
        let hb = spec_header_block(data, i);
        if spec_type_flag(hb[156]) is Some && !spec_is_regular_file_byte(hb[156]) {
            lemma_payload_is_buffer_slice(data, i + 1);
        }
    }
}

/// Every entry of the walk from block `i` on sits at block `i` or later.
pub proof fn lemma_entries_blocks_lower_bound(data: Seq<u8>, i: int)
    ensures
        forall|k: int|
            0 <= k < spec_entries_from(data, i).len() ==> #[trigger] spec_entries_from(
                data,
                i,
            )[k].block >= i,
    decreases
            (if spec_block_count(data) - i >= 0 {
                spec_block_count(data) - i
            } else {
                0
            }),
{
    lemma_entry_step_advances(data, i);
    lemma_payload_is_buffer_slice(data, i);
    match spec_entry_step(data, i) {
        (Some(m), ni) => {
            lemma_entries_blocks_lower_bound(data, ni);
            let es = spec_entries_from(data, i);
            let rest = spec_entries_from(data, ni);
            assert forall|k: int| 0 <= k < es.len() implies #[trigger] es[k].block >= i by {
                if k == 0 {
                    assert(es[0] == m);
                } else {
                    assert(es[k] == rest[k - 1]);
                }
            }
        },
        (None, _) => {},
    }
}

/// Entries come out in on-disk order: along the walk, each entry's header
/// stands at a strictly larger block index than the one before it.
pub proof fn lemma_entries_in_disk_order(data: Seq<u8>, i: int)
    ensures
        forall|j: int, k: int|
            0 <= j < k < spec_entries_from(data, i).len() ==> #[trigger] spec_entries_from(
                data,
                i,
            )[j].block < #[trigger] spec_entries_from(data, i)[k].block,
    decreases
            (if spec_block_count(data) - i >= 0 {
                spec_block_count(data) - i
            } else {
                0
            }),
{
    lemma_entry_step_advances(data, i);
    lemma_payload_is_buffer_slice(data, i);
    match spec_entry_step(data, i) {
        (Some(m), ni) => {
            lemma_entries_in_disk_order(data, ni);
            lemma_entries_blocks_lower_bound(data, ni);
            let es = spec_entries_from(data, i);
            let rest = spec_entries_from(data, ni);
            assert(m.block < ni);
            assert forall|j: int, k: int| 0 <= j < k < es.len() implies #[trigger] es[j].block
                < #[trigger] es[k].block by {
                if j == 0 {
                    assert(es[k] == rest[k - 1]);
                    assert(rest[k - 1].block >= ni);
                } else {
                    assert(es[j] == rest[j - 1]);
                    assert(es[k] == rest[k - 1]);
                }
            }
        },
        (None, _) => {},
    }
}

/// The size field of an all-zero block is empty, so it parses to the
/// "empty digit string" failure, never to a number.
proof fn lemma_zero_block_has_no_size(hb: Seq<u8>)
    requires
        hb.len() == 512,
        spec_is_zero_block(hb),
    ensures
        spec_field_number(hb.subrange(124, 136), 8) == Err::<usize, ParseNumberError>(
            ParseNumberError::Empty,
        ),
{
    let f = hb.subrange(124, 136);
    assert(f[0] == 0);
    assert(spec_str_len(f) == 0);
    assert(spec_text(f) =~= Seq::<u8>::empty());
    assert(valid_utf8(spec_text(f)));
    assert(spec_text_until_space(f) =~= Seq::<u8>::empty());
}

/// A block index inside the buffer spans bytes inside the buffer.
proof fn lemma_block_in_bounds(data: Seq<u8>, i: int)
    requires
        0 <= i < spec_block_count(data),
    ensures
        0 <= 512 * i,
        512 * (i + 1) <= data.len(),
{
    vstd::arithmetic::div_mod::lemma_fundamental_div_mod(data.len() as int, 512);
    vstd::arithmetic::div_mod::lemma_mod_division_less_than_divisor(data.len() as int, 512);
    vstd::arithmetic::mul::lemma_mul_inequality(i + 1, spec_block_count(data), 512);
    assert(512 * (i + 1) == (i + 1) * 512) by (nonlinear_arith);
    assert(spec_block_count(data) * 512 == 512 * spec_block_count(data)) by (nonlinear_arith);
}

/// Advancing a block index inside the buffer by one header and one
/// payload's worth of blocks stays within `usize`.
proof fn lemma_index_step_in_bounds(data: Seq<u8>, i: int, n: usize)
    requires
        0 <= i < spec_block_count(data),
        data.len() <= usize::MAX,
    ensures
        i + 1 + (n + 511) / 512 <= usize::MAX,
{
    vstd::arithmetic::div_mod::lemma_div_is_ordered(n + 511, usize::MAX as int + 511, 512);
    vstd::arithmetic::div_mod::lemma_div_is_ordered(
        data.len() as int,
        usize::MAX as int,
        512,
    );
    assert((usize::MAX as int + 511) / 512 == usize::MAX as int / 512 + 1);
    assert(usize::MAX as int / 512 + usize::MAX as int / 512 + 2 <= usize::MAX as int);
}

} // verus!
