//! Fixed-width binary field types of the TAR header.
//!
//! Every header field is a byte array of compile-time width `N` holding
//! NUL-terminated text.  A field's logical content runs up to its first NUL
//! byte, or over the whole array when no NUL is present.  Numeric fields hold
//! that text as ASCII digits in a fixed radix (octal for sizes, modes and
//! ids, decimal for timestamps), optionally padded with trailing spaces.

use vstd::prelude::*;

verus! {

use vstd::string::StringSliceAdditionalSpecFns;
use vstd::utf8::is_continuation_byte;
use vstd::utf8::is_char_boundary;
use vstd::utf8::is_char_boundary_iff_not_is_continuation_byte;
use vstd::utf8::is_char_boundary_start_end_of_seq;
use vstd::utf8::valid_utf8;
use vstd::utf8::valid_utf8_split;

/// Declares core::str::Utf8Error to the verifier, so that the string
/// getters can hand back the standard library's own decode failure.
#[verifier::external_type_specification]
#[verifier::external_body]
pub struct ExUtf8Error(core::str::Utf8Error);

/// Relies on core::str::from_utf8: it returns `Ok` exactly when the given
/// bytes are valid UTF-8, and the returned string slice is backed by those
/// same bytes.  The wrapper restricts the call to the range
/// `start..end` of `b`.
#[verifier::external_body]
pub(crate) fn utf8_from_slice<'a>(
    b: &'a [u8],
    start: usize,
    end: usize,
) -> (r: Result<&'a str, core::str::Utf8Error>)
    requires
        start <= end <= b@.len(),
    ensures
        r is Ok <==> valid_utf8(b@.subrange(start as int, end as int)),
        r matches Ok(s) ==> s.spec_bytes() == b@.subrange(start as int, end as int),
{
    core::str::from_utf8(&b[start..end])
}

/// The ASCII space byte, which ends the digits of a space-padded numeric
/// field.
pub const SPACE: u8 = 32;

/// Index of the first occurrence of `target` in `s`, or `s.len()` when
/// `target` does not occur.
pub open spec fn spec_first_index_of(s: Seq<u8>, target: u8) -> int
    decreases s.len(),
{
    if s.len() == 0 {
        0
    } else if s[0] == target {
        0
    } else {
        1 + spec_first_index_of(s.skip(1), target)
    }
}

/// Logical length of a fixed-width text field: the position of the first NUL
/// byte, or the full width when every byte is populated.
pub open spec fn spec_str_len(s: Seq<u8>) -> int {
    spec_first_index_of(s, 0)
}

/// `spec_first_index_of` is the unique position characterised by: it is in
/// bounds or equal to the length, everything before it differs from `target`,
/// and the byte there (when in bounds) equals `target`.
pub proof fn lemma_first_index_of(s: Seq<u8>, target: u8)
    ensures
        0 <= spec_first_index_of(s, target) <= s.len(),
        spec_first_index_of(s, target) < s.len() ==> s[spec_first_index_of(s, target)] == target,
        forall|j: int| 0 <= j < spec_first_index_of(s, target) ==> s[j] != target,
    decreases s.len(),
{
    if s.len() != 0 && s[0] != target {
        lemma_first_index_of(s.skip(1), target);
        assert forall|j: int| 0 <= j < spec_first_index_of(s, target) implies s[j] != target by {
            if j > 0 {
                assert(s.skip(1)[j - 1] == s[j]);
            }
        }
    }
}

/// Any position with the characterisation of `lemma_first_index_of` is that
/// first index.
pub proof fn lemma_first_index_of_unique(s: Seq<u8>, target: u8, i: int)
    requires
        0 <= i <= s.len(),
        i < s.len() ==> s[i] == target,
        forall|j: int| 0 <= j < i ==> s[j] != target,
    ensures
        i == spec_first_index_of(s, target),
{
    lemma_first_index_of(s, target);
    let f = spec_first_index_of(s, target);
    if f < i {
        assert(s[f] != target);
    } else if i < f {
        assert(s[i] != target);
    }
}

/// The logical text of a fixed-width field: its bytes up to the first NUL.
pub open spec fn spec_text(s: Seq<u8>) -> Seq<u8> {
    s.take(spec_str_len(s))
}

/// The logical text of a fixed-width field truncated at its first space
/// byte.  Some archivers pad numeric fields with spaces, which must not reach
/// the digit parser.
pub open spec fn spec_text_until_space(s: Seq<u8>) -> Seq<u8> {
    spec_text(s).take(spec_first_index_of(spec_text(s), SPACE))
}

/// Result of appending the logical text of `b` to the logical text of `a`
/// inside `a`'s storage: the bytes of `b`'s text land right after `a`'s
/// text, one NUL byte follows when room remains, and all other storage bytes
/// keep their old values.
pub open spec fn spec_append(a: Seq<u8>, b: Seq<u8>) -> Seq<u8> {
    let la = spec_str_len(a);
    let lb = spec_str_len(b);
    Seq::new(
        a.len(),
        |i: int|
            if i < la {
                a[i]
            } else if i < la + lb {
                b[i - la]
            } else if i == la + lb {
                0u8
            } else {
                a[i]
            },
    )
}

/// Appending inside sufficient capacity concatenates the logical texts: the
/// combined text's length is the sum of the two lengths.
pub proof fn lemma_append_str_len(a: Seq<u8>, b: Seq<u8>)
    requires
        spec_str_len(a) + spec_str_len(b) <= a.len(),
    ensures
        spec_str_len(spec_append(a, b)) == spec_str_len(a) + spec_str_len(b),
        spec_text(spec_append(a, b)) == spec_text(a) + spec_text(b),
{
    let la = spec_str_len(a);
    let lb = spec_str_len(b);
    let c = spec_append(a, b);
    lemma_first_index_of(a, 0);
    lemma_first_index_of(b, 0);
    assert forall|j: int| 0 <= j < la + lb implies c[j] != 0 by {
        if j < la {
            assert(c[j] == a[j]);
        } else {
            assert(c[j] == b[j - la]);
        }
    }
    lemma_first_index_of_unique(c, 0, la + lb);
    assert(spec_text(c) =~= spec_text(a) + spec_text(b));
}

/// An optionally NUL-terminated string held inline in a fixed-width byte
/// array.  The contents are either a fully populated string with no NUL
/// termination, or a partially populated string where the first unused byte
/// is NUL.
#[derive(Copy, Clone, Debug, PartialEq, Eq)]
pub struct TarFormatString<const N: usize> {
    bytes: [u8; N],
}

impl<const N: usize> View for TarFormatString<N> {
    type V = Seq<u8>;

    closed spec fn view(&self) -> Seq<u8> {
        self.bytes@
    }
}

impl<const N: usize> TarFormatString<N> {
    /// Wraps a byte array as a field.  The array must have at least one
    /// element.
    pub fn new(bytes: [u8; N]) -> (r: Self)
        requires
            N > 0,
        ensures
            r@ == bytes@,
    {
        Self { bytes }
    }

    /// True when the string is empty (its first byte is NUL).
    pub fn is_empty(&self) -> (r: bool)
        requires
            N > 0,
        ensures
            r == (self@[0] == 0),
    {
        self.bytes[0] == 0
    }

    /// True when the string is NUL-terminated (its last byte is NUL).
    pub fn is_nul_terminated(&self) -> (r: bool)
        requires
            N > 0,
        ensures
            r == (self@[N - 1] == 0),
    {
        self.bytes[N - 1] == 0
    }

    /// Number of meaningful bytes: the data up to the first NUL byte, or the
    /// full capacity `N` when no byte is NUL.
    pub fn size(&self) -> (r: usize)
        ensures
            r == spec_str_len(self@),
    {
        let mut i: usize = 0;
        while i < N
            invariant
                0 <= i <= N,
                forall|j: int| 0 <= j < i ==> self@[j] != 0,
            decreases N - i,
        {
            if self.bytes[i] == 0 {
                proof {
                    lemma_first_index_of_unique(self@, 0, i as int);
                }
                return i;
            }
            i += 1;
        }
        proof {
            lemma_first_index_of_unique(self@, 0, N as int);
        }
        N
    }

    /// The storage byte at position `i`.
    pub fn get(&self, i: usize) -> (r: u8)
        requires
            i < N,
        ensures
            r == self@[i as int],
    {
        self.bytes[i]
    }

    /// True when every storage byte of the field is zero.
    pub fn is_all_zero(&self) -> (r: bool)
        ensures
            r == (forall|i: int| 0 <= i < self@.len() ==> self@[i] == 0),
    {
        let mut i: usize = 0;
        while i < N
            invariant
                0 <= i <= N,
                self@.len() == N,
                forall|j: int| 0 <= j < i ==> self@[j] == 0,
            decreases N - i,
        {
            if self.bytes[i] != 0 {
                return false;
            }
            i += 1;
        }
        true
    }

    /// The logical text as a string slice, truncated at the first NUL byte.
    /// Fails without panicking when the text is not valid UTF-8.
    pub fn as_str<'a>(&'a self) -> (r: Result<&'a str, core::str::Utf8Error>)
        ensures
            r is Ok <==> valid_utf8(spec_text(self@)),
            r matches Ok(s) ==> s.spec_bytes() == spec_text(self@),
    {
        proof {
            lemma_first_index_of(self@, 0);
        }
        let sz = self.size();
        let r = utf8_from_slice(self.bytes.as_slice(), 0, sz);
        proof {
            assert(self@.subrange(0, sz as int) =~= spec_text(self@));
        }
        r
    }

    /// Like [`Self::as_str`], but the returned slice additionally stops at
    /// the first space of the text.  The whole text must still be valid
    /// UTF-8, exactly as for [`Self::as_str`].
    pub fn as_str_until_first_space<'a>(&'a self) -> (r: Result<
        &'a str,
        core::str::Utf8Error,
    >)
        ensures
            r is Ok <==> valid_utf8(spec_text(self@)),
            r matches Ok(s) ==> s.spec_bytes() == spec_text_until_space(self@),
    {
        let ghost text = spec_text(self@);
        proof {
            lemma_first_index_of(self@, 0);
        }
        let sz = self.size();
        proof {
            assert(self@.subrange(0, sz as int) =~= text);
        }
        match utf8_from_slice(self.bytes.as_slice(), 0, sz) {
            Err(e) => Err(e),
            Ok(_) => {
                let mut sp: usize = 0;
                while sp < sz && self.bytes[sp] != SPACE
                    invariant
                        0 <= sp <= sz,
                        sz == spec_str_len(self@),
                        sz <= N,
                        forall|j: int| 0 <= j < sp ==> self@[j] != SPACE,
                    decreases sz - sp,
                {
                    sp += 1;
                }
                proof {
                    assert forall|j: int| 0 <= j < sp implies text[j] != SPACE by {
                        assert(text[j] == self@[j]);
                    }
                    lemma_first_index_of_unique(text, SPACE, sp as int);
                    if sp < sz {
                        assert(!is_continuation_byte(text[sp as int]));
                        is_char_boundary_iff_not_is_continuation_byte(text, sp as int);
                    } else {
                        is_char_boundary_start_end_of_seq(text);
                    }
                    assert(is_char_boundary(text, sp as int));
                    valid_utf8_split(text, sp as int);
                    assert(self@.subrange(0, sp as int) =~= text.subrange(0, sp as int));
                    assert(text.subrange(0, sp as int) =~= spec_text_until_space(self@));
                }
                match utf8_from_slice(self.bytes.as_slice(), 0, sp) {
                    Ok(s) => Ok(s),
                    // a prefix of valid UTF-8 that ends on a character
                    // boundary is itself valid UTF-8, so this arm is
                    // unreachable
                    Err(_) => vstd::pervasive::unreached(),
                }
            },
        }
    }

    /// Appends the logical text of `other` to this string's text in place,
    /// re-terminating with a NUL byte when capacity remains.  The caller must
    /// have established that the combined text fits the capacity `N`.
    pub fn append<const S: usize>(&mut self, other: &TarFormatString<S>)
        requires
            spec_str_len(old(self)@) + spec_str_len(other@) <= N,
        ensures
            final(self)@ == spec_append(old(self)@, other@),
    {
        let ghost orig: TarFormatString<N> = *self;
        proof {
            lemma_first_index_of(self@, 0);
            lemma_first_index_of(other@, 0);
        }
        let self_size = self.size();
        let other_size = other.size();
        let mut j: usize = 0;
        while j < other_size
            invariant
                0 <= j <= other_size,
                self_size == spec_str_len(orig@),
                other_size == spec_str_len(other@),
                self_size + other_size <= N,
                other_size <= S,
                self@.len() == N,
                forall|k: int| 0 <= k < self_size ==> self@[k] == orig@[k],
                forall|k: int| 0 <= k < j ==> self@[self_size + k] == other@[k],
                forall|k: int| self_size + j <= k < N ==> self@[k] == orig@[k],
            decreases other_size - j,
        {
            self.bytes[self_size + j] = other.bytes[j];
            j += 1;
        }
        if self_size + other_size < N {
            self.bytes[self_size + other_size] = 0;
        }
        proof {
            assert(final(self)@ =~= spec_append(orig@, other@));
        }
    }
}

/// The ASCII plus sign, accepted in front of the digits of a number.
pub const PLUS: u8 = 43;

/// Why a fixed-width numeric field failed to parse as a number.
#[derive(Copy, Clone, Debug, PartialEq, Eq, Structural)]
pub enum ParseNumberError {
    /// The digit string was empty.
    Empty,
    /// A character of the digit string is no digit of the field's radix.
    InvalidDigit,
    /// The value does not fit in a `usize`.
    PosOverflow,
}

/// Numeric value of an ASCII digit byte under `radix`, or -1 when the byte
/// is no digit of that radix.  As in conventional positional notation,
/// letters continue the digit range beyond 9.
pub open spec fn spec_digit_val(b: u8, radix: u32) -> int {
    let d: int = if 48 <= b <= 57 {
        b - 48
    } else if 97 <= b <= 122 {
        b - 97 + 10
    } else if 65 <= b <= 90 {
        b - 65 + 10
    } else {
        36
    };
    if d < radix {
        d
    } else {
        -1
    }
}

/// True when every byte of `s` is a digit of `radix`.
pub open spec fn spec_all_digits(s: Seq<u8>, radix: u32) -> bool {
    forall|i: int| 0 <= i < s.len() ==> spec_digit_val(s[i], radix) >= 0
}

/// Value of the digit string `s` read in base `radix`.
pub open spec fn spec_radix_value(s: Seq<u8>, radix: u32) -> int
    decreases s.len(),
{
    if s.len() == 0 {
        0
    } else {
        spec_radix_value(s.drop_last(), radix) * radix + spec_digit_val(s.last(), radix)
    }
}

/// Parse of a digit string as an unsigned number: an optional leading plus
/// sign, then at least one digit, rejected on a foreign character and on a
/// value beyond `usize::MAX`.
pub open spec fn spec_parse_radix(s: Seq<u8>, radix: u32) -> Result<usize, ParseNumberError> {
    if s.len() == 0 {
        Err(ParseNumberError::Empty)
    } else {
        let digits = if s[0] == PLUS {
            s.skip(1)
        } else {
            s
        };
        if digits.len() == 0 {
            Err(ParseNumberError::InvalidDigit)
        } else if !spec_all_digits(digits, radix) {
            Err(ParseNumberError::InvalidDigit)
        } else if spec_radix_value(digits, radix) > usize::MAX {
            Err(ParseNumberError::PosOverflow)
        } else {
            Ok(spec_radix_value(digits, radix) as usize)
        }
    }
}

/// The number held by a fixed-width field: the field's logical text,
/// truncated at the first space, parsed in the given radix.  A field whose
/// text is not valid UTF-8 holds no digits at all and is rejected like any
/// other malformed digit string.
pub open spec fn spec_field_number(s: Seq<u8>, radix: u32) -> Result<usize, ParseNumberError> {
    if !valid_utf8(spec_text(s)) {
        Err(ParseNumberError::InvalidDigit)
    } else {
        spec_parse_radix(spec_text_until_space(s), radix)
    }
}

/// Numeric value of an ASCII digit byte under `radix`, where `None` stands
/// for a byte that is no digit of that radix.
fn exec_digit_val(b: u8, radix: u32) -> (r: Option<usize>)
    ensures
        r is Some <==> spec_digit_val(b, radix) >= 0,
        r matches Some(d) ==> d == spec_digit_val(b, radix),
{
    let d: u32 = if 48 <= b && b <= 57 {
        (b - 48) as u32
    } else if 97 <= b && b <= 122 {
        (b - 97) as u32 + 10
    } else if 65 <= b && b <= 90 {
        (b - 65) as u32 + 10
    } else {
        36
    };
    if d < radix {
        Some(d as usize)
    } else {
        None
    }
}

/// Parses the byte string `s` as an unsigned number in base `radix`,
/// following [`spec_parse_radix`] exactly.
fn parse_radix_bytes(s: &[u8], radix: u32) -> (r: Result<usize, ParseNumberError>)
    requires
        2 <= radix <= 36,
    ensures
        r == spec_parse_radix(s@, radix),
{
    let n = s.len();
    if n == 0 {
        return Err(ParseNumberError::Empty);
    }
    let start: usize = if s[0] == PLUS {
        1
    } else {
        0
    };
    if n == start {
        return Err(ParseNumberError::InvalidDigit);
    }
    let ghost digits = if s@[0] == PLUS {
        s@.skip(1)
    } else {
        s@
    };
    proof {
        assert(digits =~= s@.subrange(start as int, n as int));
    }
    let radixus: usize = radix as usize;
    let mut value: usize = 0;
    let mut overflow: bool = false;
    let mut i: usize = start;
    while i < n
        invariant
            2 <= radix <= 36,
            radixus == radix,
            start <= i <= n,
            n == s@.len(),
            n > 0,
            start as int == (if s@[0] == PLUS { 1int } else { 0int }),
            digits == (if s@[0] == PLUS { s@.skip(1) } else { s@ }),
            digits == s@.subrange(start as int, n as int),
            forall|j: int| start <= j < i ==> spec_digit_val(s@[j], radix) >= 0,
            !overflow ==> value == spec_radix_value(s@.subrange(start as int, i as int), radix),
            overflow ==> spec_radix_value(s@.subrange(start as int, i as int), radix)
                > usize::MAX,
        decreases n - i,
    {
        let d = match exec_digit_val(s[i], radix) {
            Some(d) => d,
            None => {
                proof {
                    assert(digits[i - start] == s@[i as int]);
                    assert(spec_digit_val(digits[i - start], radix) < 0);
                    assert(!spec_all_digits(digits, radix));
                }
                return Err(ParseNumberError::InvalidDigit);
            },
        };
        let ghost prefix = s@.subrange(start as int, i as int);
        let ghost extended = s@.subrange(start as int, i + 1);
        proof {
            assert(extended.drop_last() =~= prefix);
            assert(extended.last() == s@[i as int]);
        }
        if !overflow {
            if value <= (usize::MAX - d) / radixus {
                proof {
                    assert((value as int) * (radixus as int) + (d as int) <= usize::MAX as int)
                        by (nonlinear_arith)
                        requires
                            (value as int) <= ((usize::MAX as int) - (d as int)) / (
                            radixus as int),
                            2 <= radixus as int,
                            0 <= d as int,
                            (d as int) <= usize::MAX as int,
                    ;
                }
                value = value * radixus + d;
                proof {
                    assert(value == spec_radix_value(extended, radix));
                }
            } else {
                proof {
                    assert((value as int) * (radixus as int) + (d as int) > usize::MAX as int)
                        by (nonlinear_arith)
                        requires
                            (value as int) > ((usize::MAX as int) - (d as int)) / (
                            radixus as int),
                            2 <= radixus as int,
                            0 <= d as int,
                            (d as int) <= usize::MAX as int,
                    ;
                    assert(spec_radix_value(extended, radix) == (value as int) * (radixus as int)
                        + (d as int));
                    assert(spec_radix_value(extended, radix) > usize::MAX);
                }
                overflow = true;
            }
        } else {
            proof {
                let pv = spec_radix_value(prefix, radix);
                assert(pv > usize::MAX);
                assert(pv * (radix as int) >= pv) by (nonlinear_arith)
                    requires
                        pv > 0,
                        1 <= radix as int,
                ;
                assert(spec_radix_value(extended, radix) == pv * (radix as int) + spec_digit_val(
                    s@[i as int],
                    radix,
                ));
                assert(spec_radix_value(extended, radix) > usize::MAX);
            }
        }
        i += 1;
    }
    proof {
        assert(s@.subrange(start as int, n as int) == digits);
        assert(spec_all_digits(digits, radix));
    }
    if overflow {
        Err(ParseNumberError::PosOverflow)
    } else {
        Ok(value)
    }
}

/// A number with radix `R` held as optionally space-padded ASCII text in a
/// fixed-width field of `N` bytes.
#[derive(Copy, Clone, Debug, PartialEq, Eq)]
pub struct TarFormatNumber<const N: usize, const R: u32>(TarFormatString<N>);

/// An octal number held as ASCII text in a fixed-width field of `N` bytes.
#[derive(Copy, Clone, Debug, PartialEq, Eq)]
pub struct TarFormatOctal<const N: usize>(TarFormatNumber<N, 8>);

/// A decimal number held as ASCII text in a fixed-width field of `N` bytes.
#[derive(Copy, Clone, Debug, PartialEq, Eq)]
pub struct TarFormatDecimal<const N: usize>(TarFormatNumber<N, 10>);

impl<const N: usize, const R: u32> View for TarFormatNumber<N, R> {
    type V = Seq<u8>;

    closed spec fn view(&self) -> Seq<u8> {
        self.0@
    }
}

impl<const N: usize> View for TarFormatOctal<N> {
    type V = Seq<u8>;

    closed spec fn view(&self) -> Seq<u8> {
        self.0@
    }
}

impl<const N: usize> View for TarFormatDecimal<N> {
    type V = Seq<u8>;

    closed spec fn view(&self) -> Seq<u8> {
        self.0@
    }
}

impl<const N: usize, const R: u32> TarFormatNumber<N, R> {
    /// Wraps a byte array as a numeric field.
    pub fn new(bytes: [u8; N]) -> (r: Self)
        requires
            N > 0,
        ensures
            r@ == bytes@,
    {
        Self(TarFormatString::new(bytes))
    }

    /// The field's value: its text up to the first space or NUL, read in
    /// base `R`.  Returns the parse failure instead of panicking on
    /// malformed digits.
    pub fn as_number(&self) -> (r: Result<usize, ParseNumberError>)
        requires
            2 <= R <= 36,
        ensures
            r == spec_field_number(self@, R),
    {
        match self.0.as_str_until_first_space() {
            Err(_) => Err(ParseNumberError::InvalidDigit),
            Ok(s) => parse_radix_bytes(s.as_bytes(), R),
        }
    }

    /// The underlying fixed-width string.
    pub fn as_inner(&self) -> (r: &TarFormatString<N>)
        ensures
            r@ == self@,
    {
        &self.0
    }
}

impl<const N: usize> TarFormatOctal<N> {
    /// Wraps a byte array as an octal field.
    pub fn new(bytes: [u8; N]) -> (r: Self)
        requires
            N > 0,
        ensures
            r@ == bytes@,
    {
        Self(TarFormatNumber::new(bytes))
    }

    /// The field's value read in base 8; see [`TarFormatNumber::as_number`].
    pub fn as_number(&self) -> (r: Result<usize, ParseNumberError>)
        ensures
            r == spec_field_number(self@, 8),
    {
        self.0.as_number()
    }

    /// The underlying fixed-width string.
    pub fn as_inner(&self) -> (r: &TarFormatString<N>)
        ensures
            r@ == self@,
    {
        self.0.as_inner()
    }
}

impl<const N: usize> TarFormatDecimal<N> {
    /// Wraps a byte array as a decimal field.
    pub fn new(bytes: [u8; N]) -> (r: Self)
        requires
            N > 0,
        ensures
            r@ == bytes@,
    {
        Self(TarFormatNumber::new(bytes))
    }

    /// The field's value read in base 10; see
    /// [`TarFormatNumber::as_number`].
    pub fn as_number(&self) -> (r: Result<usize, ParseNumberError>)
        ensures
            r == spec_field_number(self@, 10),
    {
        self.0.as_number()
    }

    /// The underlying fixed-width string.
    pub fn as_inner(&self) -> (r: &TarFormatString<N>)
        ensures
            r@ == self@,
    {
        self.0.as_inner()
    }
}


/// The view of a fixed-width string has exactly its capacity as length.
pub broadcast proof fn lemma_string_view_len<const N: usize>(s: &TarFormatString<N>)
    ensures
        (#[trigger] s@.len()) == N,
{
}

/// The view of a fixed-width number has exactly its capacity as length.
pub broadcast proof fn lemma_number_view_len<const N: usize, const R: u32>(
    s: &TarFormatNumber<N, R>,
)
    ensures
        (#[trigger] s@.len()) == N,
{
}

/// The view of an octal field has exactly its capacity as length.
pub broadcast proof fn lemma_octal_view_len<const N: usize>(s: &TarFormatOctal<N>)
    ensures
        (#[trigger] s@.len()) == N,
{
}

/// The view of a decimal field has exactly its capacity as length.
pub broadcast proof fn lemma_decimal_view_len<const N: usize>(s: &TarFormatDecimal<N>)
    ensures
        (#[trigger] s@.len()) == N,
{
}

/// Group of the view-length facts of the fixed-width field types.
pub broadcast group group_tar_format_view_len_axioms {
    lemma_string_view_len,
    lemma_number_view_len,
    lemma_octal_view_len,
    lemma_decimal_view_len,
}

} // verus!
