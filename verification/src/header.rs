//! The TAR header: one 512-byte block describing a single archive member.
//!
//! The layout is the POSIX 1003.1-1990 one, bit-exact:
//! name(100), mode(8), uid(8), gid(8), size(12), mtime(12), cksum(8),
//! typeflag(1), linkname(100), magic(6), version(2), uname(32), gname(32),
//! devmajor(8), devminor(8), prefix(155), padding(12).  The numeric fields
//! hold octal ASCII text except the timestamp, which is decimal.

use vstd::prelude::*;

verus! {

use crate::tar_format_types::ParseNumberError;
use crate::tar_format_types::TarFormatDecimal;
use crate::tar_format_types::TarFormatOctal;
use crate::tar_format_types::TarFormatString;
use crate::tar_format_types::spec_field_number;

/// Why the permission bits of a header could not be decoded.
#[derive(Debug)]
pub enum ModeError {
    /// The octal mode field did not parse as a number.
    ParseInt(ParseNumberError),
    /// The mode value holds bits outside the known permission bits.
    IllegalMode,
}

/// All permission and special bits a mode value may carry.
pub const MODE_BITS_MASK: u64 = 0o7777;

/// UNIX file permission bits decoded from the octal mode field: the three
/// r/w/x triples for owner, group and others, plus set-uid, set-gid and the
/// sticky bit.
#[derive(Debug, Clone, Copy, PartialEq, Eq, Structural)]
pub struct ModeFlags {
    bits: u64,
}

impl View for ModeFlags {
    type V = u64;

    closed spec fn view(&self) -> u64 {
        self.bits
    }
}

#[allow(non_upper_case_globals)]
impl ModeFlags {
    /// Set UID on execution.
    pub const SetUID: u64 = 0o4000;

    /// Set GID on execution.
    pub const SetGID: u64 = 0o2000;

    /// Reserved (the sticky bit).
    pub const TSVTX: u64 = 0o1000;

    /// Owner read.
    pub const OwnerRead: u64 = 0o400;

    /// Owner write.
    pub const OwnerWrite: u64 = 0o200;

    /// Owner execute.
    pub const OwnerExec: u64 = 0o100;

    /// Group read.
    pub const GroupRead: u64 = 0o040;

    /// Group write.
    pub const GroupWrite: u64 = 0o020;

    /// Group execute.
    pub const GroupExec: u64 = 0o010;

    /// Others read.
    pub const OthersRead: u64 = 0o004;

    /// Others write.
    pub const OthersWrite: u64 = 0o002;

    /// Others execute.
    pub const OthersExec: u64 = 0o001;

    /// Wraps a bit value whose set bits all lie inside
    /// [`MODE_BITS_MASK`]; returns `None` when an unknown bit is set.
    pub fn from_bits(bits: u64) -> (r: Option<ModeFlags>)
        ensures
            r is Some <==> bits <= MODE_BITS_MASK,
            r matches Some(f) ==> f@ == bits,
    {
        if bits <= MODE_BITS_MASK {
            Some(ModeFlags { bits })
        } else {
            None
        }
    }

    /// The raw bit value.
    pub fn bits(&self) -> (r: u64)
        ensures
            r == self@,
    {
        self.bits
    }

    /// The flags common to `self` and `other`.
    pub fn intersection(self, other: ModeFlags) -> (r: ModeFlags)
        ensures
            r@ == self@ & other@,
    {
        ModeFlags { bits: self.bits & other.bits }
    }

    /// The flags of `self` together with those of `other`.
    pub fn union(self, other: ModeFlags) -> (r: ModeFlags)
        ensures
            r@ == self@ | other@,
    {
        ModeFlags { bits: self.bits | other.bits }
    }

    /// True when every flag of `other` is also set in `self`.
    pub fn contains(self, other: ModeFlags) -> (r: bool)
        ensures
            r == (self@ & other@ == other@),
    {
        self.bits & other.bits == other.bits
    }
}

/// Wrapper around the UNIX file permissions given in octal ASCII.
#[derive(Copy, Clone, Debug, PartialEq, Eq)]
pub struct Mode(TarFormatOctal<8>);

impl View for Mode {
    type V = Seq<u8>;

    closed spec fn view(&self) -> Seq<u8> {
        self.0@
    }
}

impl Mode {
    /// Decodes the permission bits from the octal mode text.
    pub fn to_flags(self) -> (r: Result<ModeFlags, ModeError>)
        ensures
            ({
                let parsed = spec_field_number(self@, 8);
                match r {
                    Ok(f) => parsed matches Ok(n) && n <= MODE_BITS_MASK && f@ == n,
                    Err(ModeError::ParseInt(e)) => parsed == Err::<usize, ParseNumberError>(e),
                    Err(ModeError::IllegalMode) => parsed matches Ok(n) && n > MODE_BITS_MASK,
                }
            }),
    {
        let n = match self.0.as_number() {
            Ok(n) => n,
            Err(e) => {
                return Err(ModeError::ParseInt(e));
            },
        };
        match ModeFlags::from_bits(n as u64) {
            Some(f) => Ok(f),
            None => Err(ModeError::IllegalMode),
        }
    }
}

/// An unrecognised type-flag byte, carrying the offending value.
#[derive(Copy, Clone, Debug, PartialOrd, PartialEq, Eq)]
pub struct InvalidTypeFlagError(u8);

impl InvalidTypeFlagError {
    /// The byte that is no valid type flag.
    pub closed spec fn spec_byte(&self) -> u8 {
        self.0
    }

    /// The byte that is no valid type flag.
    pub fn byte(&self) -> (r: u8)
        ensures
            r == self.spec_byte(),
    {
        self.0
    }
}

/// The raw, still undecoded type-flag byte of a header.
#[derive(Copy, Clone, Debug, PartialOrd, PartialEq, Eq)]
pub struct TypeFlagRaw(u8);

impl View for TypeFlagRaw {
    type V = u8;

    closed spec fn view(&self) -> u8 {
        self.0
    }
}

/// Describes the kind of payload that follows a [`PosixHeader`].
#[derive(Debug, Copy, Clone, PartialEq, Eq, Structural)]
#[allow(non_camel_case_types)]
pub enum TypeFlag {
    /// A regular file, as written by modern archivers.
    REGTYPE,
    /// A regular file in the legacy encoding (a NUL byte); treated exactly
    /// like [`TypeFlag::REGTYPE`].
    AREGTYPE,
    /// A hard link to a previously archived file.
    LINK,
    /// A symbolic link; the target stands in the linkname field.
    SYMTYPE,
    /// A character special file.
    CHRTYPE,
    /// A block special file.
    BLKTYPE,
    /// A directory; the path stands in the name field.
    DIRTYPE,
    /// A FIFO special file.
    FIFOTYPE,
    /// A contiguous file; treated as a regular file by systems that do not
    /// support contiguous allocation.
    CONTTYPE,
    /// An extended header referring to the next member.
    XHDTYPE,
    /// A global extended header.
    XGLTYPE,
}

/// The decoded meaning of a type-flag byte, or `None` for a byte outside
/// the format.
pub open spec fn spec_type_flag(b: u8) -> Option<TypeFlag> {
    if b == 48 {  // '0'
        Some(TypeFlag::REGTYPE)
    } else if b == 0 {
        Some(TypeFlag::AREGTYPE)
    } else if b == 49 {  // '1'
        Some(TypeFlag::LINK)
    } else if b == 50 {  // '2'
        Some(TypeFlag::SYMTYPE)
    } else if b == 51 {  // '3'
        Some(TypeFlag::CHRTYPE)
    } else if b == 52 {  // '4'
        Some(TypeFlag::BLKTYPE)
    } else if b == 53 {  // '5'
        Some(TypeFlag::DIRTYPE)
    } else if b == 54 {  // '6'
        Some(TypeFlag::FIFOTYPE)
    } else if b == 55 {  // '7'
        Some(TypeFlag::CONTTYPE)
    } else if b == 120 {  // 'x'
        Some(TypeFlag::XHDTYPE)
    } else if b == 103 {  // 'g'
        Some(TypeFlag::XGLTYPE)
    } else {
        None
    }
}

/// True when the type-flag byte marks a regular file (either encoding).
pub open spec fn spec_is_regular_file_byte(b: u8) -> bool {
    b == 48 || b == 0
}

impl TypeFlagRaw {
    /// Tries to decode the byte as a [`TypeFlag`].  An unknown byte means
    /// the archive is corrupt; it is reported in the error, never panicked
    /// on.
    pub fn try_to_type_flag(self) -> (r: Result<TypeFlag, InvalidTypeFlagError>)
        ensures
            r matches Ok(t) ==> spec_type_flag(self@) == Some(t),
            r matches Err(e) ==> spec_type_flag(self@) is None && e.spec_byte() == self@,
    {
        match self.0 {
            48 => Ok(TypeFlag::REGTYPE),
            0 => Ok(TypeFlag::AREGTYPE),
            49 => Ok(TypeFlag::LINK),
            50 => Ok(TypeFlag::SYMTYPE),
            51 => Ok(TypeFlag::CHRTYPE),
            52 => Ok(TypeFlag::BLKTYPE),
            53 => Ok(TypeFlag::DIRTYPE),
            54 => Ok(TypeFlag::FIFOTYPE),
            55 => Ok(TypeFlag::CONTTYPE),
            120 => Ok(TypeFlag::XHDTYPE),
            103 => Ok(TypeFlag::XGLTYPE),
            e => Err(InvalidTypeFlagError(e)),
        }
    }
}

impl TypeFlag {
    /// Whether the flag marks a regular file.  The two encodings are
    /// equivalent by the format's backward compatibility rule.
    pub fn is_regular_file(self) -> (r: bool)
        ensures
            r == (self == TypeFlag::REGTYPE || self == TypeFlag::AREGTYPE),
    {
        self == TypeFlag::AREGTYPE || self == TypeFlag::REGTYPE
    }
}

/// Reads `K` bytes of `block` starting at `off` into an owned array.
fn read_field<const K: usize>(block: &[u8], off: usize) -> (a: [u8; K])
    requires
        off + K <= block@.len(),
    ensures
        a@ == block@.subrange(off as int, off + K),
{
    let blen = block.len();
    let mut a: [u8; K] = vstd::array::array_fill_for_copy_types(0u8);
    let mut i: usize = 0;
    while i < K
        invariant
            0 <= i <= K,
            off + K <= blen,
            blen == block@.len(),
            a@.len() == K,
            forall|j: int| 0 <= j < i ==> a@[j] == block@[off + j],
        decreases K - i,
    {
        a[i] = block[off + i];
        i += 1;
    }
    proof {
        assert(a@ =~= block@.subrange(off as int, off + K));
    }
    a
}

/// Header of the TAR format as specified by POSIX 1003.1-1990, read as an
/// owned copy of one 512-byte block.  Each member of the archive starts with
/// such a header; its payload follows in whole blocks, and the declared size
/// field tells how many.
///
/// The view of a header is the 512-byte block it was read from, with each
/// field at its fixed offset.
#[derive(Debug, Copy, Clone, PartialEq, Eq)]
pub struct PosixHeader {
    pub name: TarFormatString<100>,
    pub mode: Mode,
    pub uid: TarFormatOctal<8>,
    pub gid: TarFormatOctal<8>,
    /// The payload size, stored as octal ASCII text.
    pub size: TarFormatOctal<12>,
    pub mtime: TarFormatDecimal<12>,
    pub cksum: TarFormatOctal<8>,
    pub typeflag: TypeFlagRaw,
    /// Target of a link.  There is always a NUL byte, so the longest
    /// meaningful content is 99 bytes.
    pub linkname: TarFormatString<100>,
    pub magic: TarFormatString<6>,
    pub version: TarFormatString<2>,
    /// User name.  There is always a NUL byte.
    pub uname: TarFormatString<32>,
    /// Group name.  There is always a NUL byte.
    pub gname: TarFormatString<32>,
    pub dev_major: TarFormatOctal<8>,
    pub dev_minor: TarFormatOctal<8>,
    /// Directory prefix of the name in the ustar long-name scheme.
    pub prefix: TarFormatString<155>,
    /// Padding up to the block size.
    pub _pad: [u8; 12],
}

impl View for PosixHeader {
    type V = Seq<u8>;

    open spec fn view(&self) -> Seq<u8> {
        self.name@ + self.mode@ + self.uid@ + self.gid@ + self.size@ + self.mtime@ + self.cksum@
            + seq![self.typeflag@] + self.linkname@ + self.magic@ + self.version@ + self.uname@
            + self.gname@ + self.dev_major@ + self.dev_minor@ + self.prefix@ + self._pad@
    }
}

/// A header's view is one block long, and every field of the header reads
/// back the bytes at its fixed offset of that block.
pub proof fn lemma_header_field_offsets(h: &PosixHeader)
    ensures
        h@.len() == 512,
        h.name@ == h@.subrange(0, 100),
        h.mode@ == h@.subrange(100, 108),
        h.uid@ == h@.subrange(108, 116),
        h.gid@ == h@.subrange(116, 124),
        h.size@ == h@.subrange(124, 136),
        h.mtime@ == h@.subrange(136, 148),
        h.cksum@ == h@.subrange(148, 156),
        h.typeflag@ == h@[156],
        h.linkname@ == h@.subrange(157, 257),
        h.magic@ == h@.subrange(257, 263),
        h.version@ == h@.subrange(263, 265),
        h.uname@ == h@.subrange(265, 297),
        h.gname@ == h@.subrange(297, 329),
        h.dev_major@ == h@.subrange(329, 337),
        h.dev_minor@ == h@.subrange(337, 345),
        h.prefix@ == h@.subrange(345, 500),
        h._pad@ == h@.subrange(500, 512),
{
    broadcast use crate::tar_format_types::group_tar_format_view_len_axioms;

    assert(h.name@ == h@.subrange(0, 100)) by {
        assert(h.name@ =~= h@.subrange(0, 100));
    }
    assert(h.mode@ =~= h@.subrange(100, 108));
    assert(h.uid@ =~= h@.subrange(108, 116));
    assert(h.gid@ =~= h@.subrange(116, 124));
    assert(h.size@ =~= h@.subrange(124, 136));
    assert(h.mtime@ =~= h@.subrange(136, 148));
    assert(h.cksum@ =~= h@.subrange(148, 156));
    assert(h.linkname@ =~= h@.subrange(157, 257));
    assert(h.magic@ =~= h@.subrange(257, 263));
    assert(h.version@ =~= h@.subrange(263, 265));
    assert(h.uname@ =~= h@.subrange(265, 297));
    assert(h.gname@ =~= h@.subrange(297, 329));
    assert(h.dev_major@ =~= h@.subrange(329, 337));
    assert(h.dev_minor@ =~= h@.subrange(337, 345));
    assert(h.prefix@ =~= h@.subrange(345, 500));
    assert(h._pad@ =~= h@.subrange(500, 512));
}

/// True when every byte of the block is zero.  Two consecutive such header
/// blocks terminate a well-formed archive.
pub open spec fn spec_is_zero_block(b: Seq<u8>) -> bool {
    forall|i: int| 0 <= i < b.len() ==> b[i] == 0
}

/// The number of whole blocks the declared payload size fills, rounded up;
/// or the failure of the size field's parse.
pub open spec fn spec_payload_block_count(size_field: Seq<u8>) -> Result<usize, ParseNumberError> {
    match spec_field_number(size_field, 8) {
        Ok(n) => Ok((((n + 511) / 512) as usize)),
        Err(e) => Err(e),
    }
}

/// The payload block count fits a `usize` for every declared size.
pub proof fn lemma_pbc_fits(n: usize)
    ensures
        0 <= (n + 511) / 512 <= usize::MAX,
        (((n + 511) / 512) as usize) == (n + 511) / 512,
{
    vstd::arithmetic::div_mod::lemma_div_is_ordered(n + 511, usize::MAX as int + 511, 512);
    assert((usize::MAX as int + 511) / 512 == usize::MAX as int / 512 + 1);
    assert(usize::MAX as int / 512 + 1 <= usize::MAX as int);
}

impl PosixHeader {
    /// Reads the header record out of one 512-byte block.
    pub fn from_bytes(block: &[u8]) -> (h: PosixHeader)
        requires
            block@.len() == 512,
        ensures
            h@ == block@,
    {
        let h = PosixHeader {
            name: TarFormatString::new(read_field::<100>(block, 0)),
            mode: Mode(TarFormatOctal::new(read_field::<8>(block, 100))),
            uid: TarFormatOctal::new(read_field::<8>(block, 108)),
            gid: TarFormatOctal::new(read_field::<8>(block, 116)),
            size: TarFormatOctal::new(read_field::<12>(block, 124)),
            mtime: TarFormatDecimal::new(read_field::<12>(block, 136)),
            cksum: TarFormatOctal::new(read_field::<8>(block, 148)),
            typeflag: TypeFlagRaw(block[156]),
            linkname: TarFormatString::new(read_field::<100>(block, 157)),
            magic: TarFormatString::new(read_field::<6>(block, 257)),
            version: TarFormatString::new(read_field::<2>(block, 263)),
            uname: TarFormatString::new(read_field::<32>(block, 265)),
            gname: TarFormatString::new(read_field::<32>(block, 297)),
            dev_major: TarFormatOctal::new(read_field::<8>(block, 329)),
            dev_minor: TarFormatOctal::new(read_field::<8>(block, 337)),
            prefix: TarFormatString::new(read_field::<155>(block, 345)),
            _pad: read_field::<12>(block, 500),
        };
        proof {
            assert(h@ =~= block@);
        }
        h
    }

    /// Returns the number of blocks required to hold the whole payload, or
    /// the error of the size field's parse.  Callers must treat the error as
    /// "archive corrupt, stop reading", not as a fatal condition.
    pub fn payload_block_count(&self) -> (r: Result<usize, ParseNumberError>)
        ensures
            r == spec_payload_block_count(self.size@),
    {
        match self.size.as_number() {
            Ok(n) => {
                let whole = n / 512;
                let rest: usize = if n % 512 == 0 {
                    0
                } else {
                    1
                };
                proof {
                    assert(whole + rest == (n + 511) / 512) by (nonlinear_arith)
                        requires
                            whole == n as int / 512,
                            rest == (if n as int % 512 == 0 { 0int } else { 1int }),
                            0 <= n as int,
                    ;
                }
                Ok(whole + rest)
            },
            Err(e) => Err(e),
        }
    }

    /// A TAR archive is terminated by two consecutive blocks of zero bytes;
    /// this tests whether this header is such a block.
    pub fn is_zero_block(&self) -> (r: bool)
        ensures
            r == spec_is_zero_block(self@),
    {
        proof {
            lemma_header_field_offsets(self);
        }
        let r = self.name.is_all_zero() && self.mode.0.as_inner().is_all_zero()
            && self.uid.as_inner().is_all_zero() && self.gid.as_inner().is_all_zero()
            && self.size.as_inner().is_all_zero() && self.mtime.as_inner().is_all_zero()
            && self.cksum.as_inner().is_all_zero() && self.typeflag.0 == 0
            && self.linkname.is_all_zero() && self.magic.is_all_zero()
            && self.version.is_all_zero() && self.uname.is_all_zero()
            && self.gname.is_all_zero() && self.dev_major.as_inner().is_all_zero()
            && self.dev_minor.as_inner().is_all_zero() && self.prefix.is_all_zero()
            && pad_all_zero(&self._pad);
        proof {
            broadcast use crate::tar_format_types::group_tar_format_view_len_axioms;

            if r {
                assert forall|i: int| 0 <= i < self@.len() implies self@[i] == 0 by {
                    assert(self@[i] == 0);
                }
            }
        }
        r
    }
}

/// True when every byte of the padding array is zero.
fn pad_all_zero(a: &[u8; 12]) -> (r: bool)
    ensures
        r == (forall|i: int| 0 <= i < a@.len() ==> a@[i] == 0),
{
    let mut i: usize = 0;
    while i < 12
        invariant
            0 <= i <= 12,
            a@.len() == 12,
            forall|j: int| 0 <= j < i ==> a@[j] == 0,
        decreases 12 - i,
    {
        if a[i] != 0 {
            return false;
        }
        i += 1;
    }
    true
}

} // verus!
