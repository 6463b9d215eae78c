use vstd::prelude::*;
use vstd::slice::slice_subrange;
use core::marker::PhantomData;
use crate::from_bytes::{int_from_bytes, FromBytes};
use crate::read::{compose_forward, lemma_skip_skip, ByteSource, DecodeError, ReadOutcome, Readable};

verus! {

/// What `String::from_utf8_lossy` yields on the given bytes: a pure function
/// of the bytes alone.
pub uninterp spec fn utf8_lossy(bytes: Seq<u8>) -> Seq<char>;

/// Relies on String::from_utf8_lossy: the result depends on the bytes alone,
/// and valid UTF-8 input decodes exactly, invalid sequences becoming
/// replacement characters.
#[verifier::external_body]
fn decode_utf8_lossy(bytes: &[u8]) -> (r: String)
    ensures
        r@ == utf8_lossy(bytes@),
        vstd::utf8::valid_utf8(bytes@) ==> r@ == vstd::utf8::decode_utf8(bytes@),
{
    String::from_utf8_lossy(bytes).to_string()
}

/// What `String::from_utf16_lossy` yields on the given 16-bit units: a pure
/// function of the units alone.
pub uninterp spec fn utf16_lossy(units: Seq<u16>) -> Seq<char>;

/// Relies on String::from_utf16_lossy: the result depends on the units
/// alone; a sequence without surrogate-range units is valid UTF-16 in which
/// every unit is its own code point, and invalid data becomes replacement
/// characters.
#[verifier::external_body]
fn decode_utf16_lossy(units: &Vec<u16>) -> (r: String)
    ensures
        r@ == utf16_lossy(units@),
        (forall|i: int| 0 <= i < units@.len() ==> units@[i] < 0xD800 || units@[i] >= 0xE000)
            ==> r@ == Seq::new(units@.len(), |i: int| (units@[i] as u32) as char),
{
    String::from_utf16_lossy(units.as_slice())
}

/// Relies on the standard collection of an iterator of chars into a String:
/// the string holds exactly the given characters in order.
#[verifier::external_body]
fn string_from_chars(chars: Vec<char>) -> (r: String)
    ensures
        r@ == chars@,
{
    chars.into_iter().collect()
}

/// Relies on char::from_u32: it returns the character with the given code
/// point, or None exactly for surrogate code points and values beyond the
/// largest code point.
pub assume_specification[ char::from_u32 ](v: u32) -> (r: Option<char>)
    ensures
        r matches Some(c) ==> c as u32 == v,
        r is Some <==> (v < 0xD800 || (0xE000 <= v && v <= 0x10FFFF)),
;

/// A byte taken as its own character value (no multi-byte decoding).
pub open spec fn byte_char(b: u8) -> char {
    (b as u32) as char
}

fn byte_to_char(b: u8) -> (c: char)
    ensures
        c == byte_char(b),
{
    let c = b as char;
    proof {
        vstd::utf8::char_u32_cast(c, b as u32);
    }
    c
}

/// A 16-bit unit taken on its own as a code point; surrogate-range units
/// become the replacement character (no surrogate-pair combination).
pub open spec fn wide_unit_char(u: u16) -> char {
    if u < 0xD800 || u >= 0xE000 {
        (u as u32) as char
    } else {
        '\u{FFFD}'
    }
}

fn unit_to_char(u: u16) -> (c: char)
    ensures
        c == wide_unit_char(u),
{
    match char::from_u32(u as u32) {
        Some(c) => {
            proof {
                vstd::utf8::char_u32_cast(c, u as u32);
            }
            c
        },
        None => '\u{FFFD}',
    }
}

/// What a null-terminated narrow string makes of its input: characters up
/// to the first zero byte, or to the end if no zero occurs, and the bytes
/// consumed (the terminator included, when present).
pub open spec fn narrow_null_read(input: Seq<u8>) -> (Seq<char>, int)
    decreases input.len(),
{
    if input.len() == 0 {
        (Seq::<char>::empty(), 0int)
    } else if input[0] == 0 {
        (Seq::<char>::empty(), 1int)
    } else {
        let rest = narrow_null_read(input.drop_first());
        (seq![byte_char(input[0])] + rest.0, 1 + rest.1)
    }
}

pub proof fn lemma_narrow_null_read_bounds(input: Seq<u8>)
    ensures
        0 <= narrow_null_read(input).1 <= input.len(),
    decreases input.len(),
{
    if input.len() == 0 {
    } else if input[0] == 0 {
    } else {
        lemma_narrow_null_read_bounds(input.drop_first());
    }
}

/// A null-terminated narrow string: bytes are read one at a time up to a
/// zero byte or the end of the source, and each byte is its own character.
/// Decoding is best-effort and never fails.
#[derive(Debug, PartialEq, Eq, PartialOrd, Ord)]
pub struct NullString(pub String);

impl View for NullString {
    type V = Seq<char>;

    open spec fn view(&self) -> Seq<char> {
        self.0@
    }
}

impl Readable for NullString {
    open spec fn read_req() -> bool {
        true
    }

    open spec fn spec_read(input: Seq<u8>, little: bool) -> ReadOutcome<Seq<char>> {
        ReadOutcome::Value {
            value: narrow_null_read(input).0,
            consumed: narrow_null_read(input).1,
        }
    }

    proof fn spec_read_in_bounds(input: Seq<u8>, little: bool) {
        lemma_narrow_null_read_bounds(input);
    }

    fn read_ordered<S: ByteSource>(source: &mut S, little: bool) -> (r: Result<
        Self,
        DecodeError,
    >) {
        let ghost pre = *source;
        let mut chars: Vec<char> = Vec::new();
        let ghost mut consumed: int = 0;
        loop
            invariant_except_break
                0 <= consumed <= pre.remaining().len(),
                (*source).remaining() == pre.remaining().skip(consumed),
                (*source).is_exact() == pre.is_exact(),
                pre.is_exact() ==> {
                    &&& consumed + narrow_null_read((*source).remaining()).1
                        == narrow_null_read(pre.remaining()).1
                    &&& chars@ + narrow_null_read((*source).remaining()).0 == narrow_null_read(
                        pre.remaining(),
                    ).0
                },
            ensures
                0 <= consumed <= pre.remaining().len(),
                (*source).remaining() == pre.remaining().skip(consumed),
                (*source).is_exact() == pre.is_exact(),
                pre.is_exact() ==> narrow_null_read(pre.remaining()).0 == chars@
                    && narrow_null_read(pre.remaining()).1 == consumed,
            decreases pre.remaining().len() - consumed,
        {
            let ghost cur = (*source).remaining();
            let buf = source.read(1);
            proof {
                assert(pre.remaining().skip(consumed).skip(buf@.len() as int) =~= pre.remaining()
                    .skip(consumed + buf@.len()));
            }
            if buf.len() == 0 {
                proof {
                    if pre.is_exact() {
                        assert(cur.len() == 0);
                        assert(chars@ + narrow_null_read(cur).0 =~= chars@);
                    }
                }
                break;
            }
            let b = buf[0];
            proof {
                consumed = consumed + 1;
                if pre.is_exact() {
                    assert(cur[0] == b);
                    if b != 0 {
                        assert(cur.drop_first() =~= cur.skip(1));
                        assert(narrow_null_read(cur).0 == seq![byte_char(b)] + narrow_null_read(
                            cur.skip(1),
                        ).0);
                        assert((chars@ + seq![byte_char(b)]) + narrow_null_read(cur.skip(1)).0
                            =~= chars@ + narrow_null_read(cur).0);
                    } else {
                        assert(chars@ + narrow_null_read(cur).0 =~= chars@);
                    }
                }
            }
            if b == 0 {
                break;
            }
            chars.push(byte_to_char(b));
        }
        let text = string_from_chars(chars);
        Ok(NullString(text))
    }
}

/// What a null-terminated wide string makes of its input: one 16-bit unit
/// at a time under the given order, up to a zero unit or to where no whole
/// unit is left, each unit its own code point.
pub open spec fn wide_null_read(input: Seq<u8>, little: bool) -> (Seq<char>, int)
    decreases input.len(),
{
    if input.len() < 2 {
        (Seq::<char>::empty(), input.len() as int)
    } else {
        let unit = int_from_bytes(input.take(2), little) as u16;
        if unit == 0 {
            (Seq::<char>::empty(), 2int)
        } else {
            let rest = wide_null_read(input.skip(2), little);
            (seq![wide_unit_char(unit)] + rest.0, 2 + rest.1)
        }
    }
}

pub proof fn lemma_wide_null_read_bounds(input: Seq<u8>, little: bool)
    ensures
        0 <= wide_null_read(input, little).1 <= input.len(),
    decreases input.len(),
{
    if input.len() < 2 {
    } else if int_from_bytes(input.take(2), little) as u16 == 0 {
    } else {
        lemma_wide_null_read_bounds(input.skip(2), little);
    }
}

/// A null-terminated wide string: 16-bit units are read one at a time under
/// the given order, up to a zero unit or the end of the source; each unit is
/// its own code point, surrogate-range units becoming the replacement
/// character. Decoding is best-effort and never fails.
#[derive(Debug)]
pub struct WideNullString(pub String);

impl View for WideNullString {
    type V = Seq<char>;

    open spec fn view(&self) -> Seq<char> {
        self.0@
    }
}

impl Readable for WideNullString {
    open spec fn read_req() -> bool {
        true
    }

    open spec fn spec_read(input: Seq<u8>, little: bool) -> ReadOutcome<Seq<char>> {
        ReadOutcome::Value {
            value: wide_null_read(input, little).0,
            consumed: wide_null_read(input, little).1,
        }
    }

    proof fn spec_read_in_bounds(input: Seq<u8>, little: bool) {
        lemma_wide_null_read_bounds(input, little);
    }

    fn read_ordered<S: ByteSource>(source: &mut S, little: bool) -> (r: Result<
        Self,
        DecodeError,
    >) {
        let ghost pre = *source;
        let mut chars: Vec<char> = Vec::new();
        let ghost mut consumed: int = 0;
        loop
            invariant_except_break
                0 <= consumed <= pre.remaining().len(),
                (*source).remaining() == pre.remaining().skip(consumed),
                (*source).is_exact() == pre.is_exact(),
                pre.is_exact() ==> {
                    &&& consumed + wide_null_read((*source).remaining(), little).1
                        == wide_null_read(pre.remaining(), little).1
                    &&& chars@ + wide_null_read((*source).remaining(), little).0 == wide_null_read(
                        pre.remaining(),
                        little,
                    ).0
                },
            ensures
                0 <= consumed <= pre.remaining().len(),
                (*source).remaining() == pre.remaining().skip(consumed),
                (*source).is_exact() == pre.is_exact(),
                pre.is_exact() ==> wide_null_read(pre.remaining(), little).0 == chars@
                    && wide_null_read(pre.remaining(), little).1 == consumed,
            decreases pre.remaining().len() - consumed,
        {
            let ghost cur = (*source).remaining();
            let buf = source.read(2);
            proof {
                assert(pre.remaining().skip(consumed).skip(buf@.len() as int) =~= pre.remaining()
                    .skip(consumed + buf@.len()));
            }
            if buf.len() < 2 {
                proof {
                    consumed = consumed + buf@.len();
                    if pre.is_exact() {
                        assert(cur.len() < 2);
                        assert(buf@.len() == cur.len());
                        assert(chars@ + wide_null_read(cur, little).0 =~= chars@);
                    }
                }
                break;
            }
            let unit = u16::from_bytes_ordered(buf.as_slice(), little);
            proof {
                consumed = consumed + 2;
                if pre.is_exact() {
                    assert(buf@ == cur.take(2));
                    assert(unit == int_from_bytes(cur.take(2), little) as u16);
                    if unit != 0 {
                        assert(wide_null_read(cur, little).0 == seq![wide_unit_char(unit)]
                            + wide_null_read(cur.skip(2), little).0);
                        assert((chars@ + seq![wide_unit_char(unit)]) + wide_null_read(
                            cur.skip(2),
                            little,
                        ).0 =~= chars@ + wide_null_read(cur, little).0);
                    } else {
                        assert(chars@ + wide_null_read(cur, little).0 =~= chars@);
                    }
                }
            }
            if unit == 0 {
                break;
            }
            chars.push(unit_to_char(unit));
        }
        let text = string_from_chars(chars);
        Ok(WideNullString(text))
    }
}

/// The 16-bit units held by an even-length byte sequence, each pair of
/// bytes one unit under the given order.
pub open spec fn wide_units(bytes: Seq<u8>, little: bool) -> Seq<u16> {
    Seq::new(
        (bytes.len() / 2) as nat,
        |i: int| int_from_bytes(bytes.subrange(2 * i, 2 * i + 2), little) as u16,
    )
}

fn collect_units(bytes: &[u8], little: bool) -> (units: Vec<u16>)
    requires
        bytes@.len() % 2 == 0,
    ensures
        units@ == wide_units(bytes@, little),
{
    let total = bytes.len();
    let count = total / 2;
    let mut units: Vec<u16> = Vec::new();
    let mut i: usize = 0;
    while i < count
        invariant
            i <= count,
            count == bytes@.len() / 2,
            total == bytes@.len(),
            bytes@.len() % 2 == 0,
            units@ =~= wide_units(bytes@, little).take(i as int),
        decreases count - i,
    {
        let unit = u16::from_bytes_ordered(slice_subrange(bytes, 2 * i, 2 * i + 2), little);
        units.push(unit);
        proof {
            assert(units@ =~= wide_units(bytes@, little).take(i as int + 1));
        }
        i = i + 1;
    }
    proof {
        assert(wide_units(bytes@, little).take(count as int) =~= wide_units(bytes@, little));
    }
    units
}

/// A fixed-width narrow string: exactly `N` bytes, decoded as UTF-8 text
/// with invalid sequences replaced by the replacement character; trailing
/// padding or null bytes are not trimmed and stay in the text. Fixed-size,
/// never fails.
#[derive(Debug)]
pub struct FixedString<const N: usize>(pub String);

impl<const N: usize> View for FixedString<N> {
    type V = Seq<char>;

    open spec fn view(&self) -> Seq<char> {
        self.0@
    }
}

impl<const N: usize> FromBytes for FixedString<N> {
    open spec fn spec_size() -> nat {
        N as nat
    }

    open spec fn spec_from_bytes(bytes: Seq<u8>, little: bool) -> Seq<char> {
        utf8_lossy(bytes)
    }

    fn size() -> usize {
        N
    }

    fn from_bytes_ordered(bytes: &[u8], little: bool) -> FixedString<N> {
        FixedString(decode_utf8_lossy(bytes))
    }
}

/// A fixed-width wide string: exactly `N` 16-bit units (2·`N` bytes) under
/// the given order, decoded as UTF-16 text with surrogate pairs combined and
/// invalid sequences replaced. Fixed-size, never fails.
#[derive(Debug)]
pub struct WideFixedString<const N: usize>(pub String);

impl<const N: usize> View for WideFixedString<N> {
    type V = Seq<char>;

    open spec fn view(&self) -> Seq<char> {
        self.0@
    }
}

impl<const N: usize> FromBytes for WideFixedString<N> {
    open spec fn spec_size() -> nat {
        2 * (N as nat)
    }

    open spec fn spec_from_bytes(bytes: Seq<u8>, little: bool) -> Seq<char> {
        utf16_lossy(wide_units(bytes, little))
    }

    fn size() -> usize {
        N * 2
    }

    fn from_bytes_ordered(bytes: &[u8], little: bool) -> WideFixedString<N> {
        let units = collect_units(bytes, little);
        WideFixedString(decode_utf16_lossy(&units))
    }
}

/// A numeric type usable as the length prefix of a length-prefixed string:
/// the decoded value converts to an unsigned item count, and a value with no
/// such count (negative, or beyond the platform's addressable range) counts
/// as zero.
pub trait LengthPrefix: FromBytes {
    /// The item count a decoded prefix value stands for.
    spec fn spec_length(v: Self::V) -> nat;

    /// An item count always fits the platform's addressable range.
    proof fn spec_length_fits(v: Self::V)
        ensures
            Self::spec_length(v) <= usize::MAX as nat,
    ;

    /// The item count as a runtime value.
    fn length_value(&self) -> (n: usize)
        ensures
            n as nat == Self::spec_length(self@),
    ;
}

impl LengthPrefix for u8 {
    open spec fn spec_length(v: u8) -> nat {
        v as nat
    }

    proof fn spec_length_fits(v: u8) {
    }

    fn length_value(&self) -> usize {
        *self as usize
    }
}

impl LengthPrefix for u16 {
    open spec fn spec_length(v: u16) -> nat {
        v as nat
    }

    proof fn spec_length_fits(v: u16) {
    }

    fn length_value(&self) -> usize {
        *self as usize
    }
}

impl LengthPrefix for u32 {
    open spec fn spec_length(v: u32) -> nat {
        if v as nat <= usize::MAX as nat {
            v as nat
        } else {
            0
        }
    }

    proof fn spec_length_fits(v: u32) {
    }

    fn length_value(&self) -> usize {
        if (*self as u64) <= (usize::MAX as u64) {
            *self as usize
        } else {
            0
        }
    }
}

impl LengthPrefix for u64 {
    open spec fn spec_length(v: u64) -> nat {
        if v as nat <= usize::MAX as nat {
            v as nat
        } else {
            0
        }
    }

    proof fn spec_length_fits(v: u64) {
    }

    fn length_value(&self) -> usize {
        if *self <= (usize::MAX as u64) {
            *self as usize
        } else {
            0
        }
    }
}

impl LengthPrefix for u128 {
    open spec fn spec_length(v: u128) -> nat {
        if v as nat <= usize::MAX as nat {
            v as nat
        } else {
            0
        }
    }

    proof fn spec_length_fits(v: u128) {
    }

    fn length_value(&self) -> usize {
        if *self <= (usize::MAX as u128) {
            *self as usize
        } else {
            0
        }
    }
}

impl LengthPrefix for i8 {
    open spec fn spec_length(v: i8) -> nat {
        if v >= 0 {
            v as nat
        } else {
            0
        }
    }

    proof fn spec_length_fits(v: i8) {
    }

    fn length_value(&self) -> usize {
        if *self >= 0 {
            *self as usize
        } else {
            0
        }
    }
}

impl LengthPrefix for i16 {
    open spec fn spec_length(v: i16) -> nat {
        if v >= 0 {
            v as nat
        } else {
            0
        }
    }

    proof fn spec_length_fits(v: i16) {
    }

    fn length_value(&self) -> usize {
        if *self >= 0 {
            *self as usize
        } else {
            0
        }
    }
}

impl LengthPrefix for i32 {
    open spec fn spec_length(v: i32) -> nat {
        if v >= 0 {
            v as nat
        } else {
            0
        }
    }

    proof fn spec_length_fits(v: i32) {
    }

    fn length_value(&self) -> usize {
        if *self >= 0 {
            *self as usize
        } else {
            0
        }
    }
}

impl LengthPrefix for i64 {
    open spec fn spec_length(v: i64) -> nat {
        if 0 <= v && v as int <= usize::MAX as int {
            v as nat
        } else {
            0
        }
    }

    proof fn spec_length_fits(v: i64) {
    }

    fn length_value(&self) -> usize {
        if *self >= 0 && (*self as u64) <= (usize::MAX as u64) {
            *self as usize
        } else {
            0
        }
    }
}

impl LengthPrefix for i128 {
    open spec fn spec_length(v: i128) -> nat {
        if 0 <= v && v as int <= usize::MAX as int {
            v as nat
        } else {
            0
        }
    }

    proof fn spec_length_fits(v: i128) {
    }

    fn length_value(&self) -> usize {
        if *self >= 0 && (*self as u128) <= (usize::MAX as u128) {
            *self as usize
        } else {
            0
        }
    }
}

/// What a length-prefixed narrow string makes of its input: a `T` prefix
/// gives a byte count; a count over `max` is a bound error before any data
/// is read, a count that outruns the input is a truncation, and otherwise
/// exactly that many data bytes decode as lossy UTF-8 text.
pub open spec fn lengthed_read<T: LengthPrefix>(
    input: Seq<u8>,
    little: bool,
    max: nat,
) -> ReadOutcome<Seq<char>> {
    if input.len() < T::spec_size() {
        ReadOutcome::Fail { error: DecodeError::Truncated, consumed: input.len() as int }
    } else {
        let len = T::spec_length(T::spec_from_bytes(input.take(T::spec_size() as int), little));
        if len > max {
            ReadOutcome::Fail {
                error: DecodeError::LengthBound { length: len as usize, max: max as usize },
                consumed: T::spec_size() as int,
            }
        } else if input.len() >= T::spec_size() + len {
            ReadOutcome::Value {
                value: utf8_lossy(
                    input.subrange(T::spec_size() as int, T::spec_size() as int + len),
                ),
                consumed: T::spec_size() as int + len,
            }
        } else {
            ReadOutcome::Fail { error: DecodeError::Truncated, consumed: input.len() as int }
        }
    }
}

/// A narrow string preceded by its length in bytes, the length read with a
/// caller-chosen numeric prefix type `T`; a declared length over `MAX`
/// aborts the decode with a bound error before any data bytes are read.
#[derive(Debug)]
pub struct LengthedString<T, const MAX: usize>(pub String, pub PhantomData<T>);

impl<T, const MAX: usize> View for LengthedString<T, MAX> {
    type V = Seq<char>;

    open spec fn view(&self) -> Seq<char> {
        self.0@
    }
}

impl<T: LengthPrefix, const MAX: usize> Readable for LengthedString<T, MAX> {
    open spec fn read_req() -> bool {
        T::spec_size() <= usize::MAX as nat
    }

    open spec fn spec_read(input: Seq<u8>, little: bool) -> ReadOutcome<Seq<char>> {
        lengthed_read::<T>(input, little, MAX as nat)
    }

    proof fn spec_read_in_bounds(input: Seq<u8>, little: bool) {
    }

    fn read_ordered<S: ByteSource>(source: &mut S, little: bool) -> (r: Result<
        Self,
        DecodeError,
    >) {
        let ghost pre = *source;
        let ghost input = pre.remaining();
        let prefix: T = match T::read_ordered(source, little) {
            Ok(p) => p,
            Err(err) => {
                return Err(err);
            },
        };
        let ghost mid = *source;
        let length = prefix.length_value();
        proof {
            T::spec_length_fits(prefix@);
        }
        if length > MAX {
            return Err(DecodeError::LengthBound { length, max: MAX });
        }
        let buf = source.read(length);
        proof {
            compose_forward(pre, mid, *source);
            if pre.is_exact() {
                lemma_skip_skip(input, T::spec_size() as int, buf@.len() as int);
            }
        }
        if buf.len() < length {
            proof {
                if pre.is_exact() {
                    assert(mid.remaining().len() < length);
                    assert((*source).remaining() =~= input.skip(input.len() as int));
                }
            }
            return Err(DecodeError::Truncated);
        }
        proof {
            if pre.is_exact() {
                let n = T::spec_size() as int;
                assert(buf@ =~= input.subrange(n, n + length as int));
            }
        }
        let text = decode_utf8_lossy(buf.as_slice());
        Ok(LengthedString(text, PhantomData))
    }
}

/// What a length-prefixed wide string makes of its input: a `T` prefix gives
/// a character-unit count (not a byte count); a count over `max` is a bound
/// error, a unit sequence that outruns the input is a truncation, and
/// otherwise exactly that many 16-bit units decode as lossy UTF-16 text.
pub open spec fn wide_lengthed_read<T: LengthPrefix>(
    input: Seq<u8>,
    little: bool,
    max: nat,
) -> ReadOutcome<Seq<char>> {
    if input.len() < T::spec_size() {
        ReadOutcome::Fail { error: DecodeError::Truncated, consumed: input.len() as int }
    } else {
        let len = T::spec_length(T::spec_from_bytes(input.take(T::spec_size() as int), little));
        if len > max {
            ReadOutcome::Fail {
                error: DecodeError::LengthBound { length: len as usize, max: max as usize },
                consumed: T::spec_size() as int,
            }
        } else if input.len() >= T::spec_size() + 2 * len {
            ReadOutcome::Value {
                value: utf16_lossy(
                    wide_units(
                        input.subrange(T::spec_size() as int, T::spec_size() as int + 2 * len),
                        little,
                    ),
                ),
                consumed: T::spec_size() as int + 2 * len,
            }
        } else {
            ReadOutcome::Fail { error: DecodeError::Truncated, consumed: input.len() as int }
        }
    }
}

/// A wide string preceded by its length, the length read with a
/// caller-chosen numeric prefix type `T` and counting 16-bit units, not
/// bytes; a declared length over `MAX` aborts the decode with a bound error
/// before any data is read.
#[derive(Debug)]
pub struct WideLengthedString<T, const MAX: usize>(pub String, pub PhantomData<T>);

impl<T, const MAX: usize> View for WideLengthedString<T, MAX> {
    type V = Seq<char>;

    open spec fn view(&self) -> Seq<char> {
        self.0@
    }
}

impl<T: LengthPrefix, const MAX: usize> Readable for WideLengthedString<T, MAX> {
    open spec fn read_req() -> bool {
        T::spec_size() <= usize::MAX as nat && 2 * (MAX as nat) <= usize::MAX as nat
    }

    open spec fn spec_read(input: Seq<u8>, little: bool) -> ReadOutcome<Seq<char>> {
        wide_lengthed_read::<T>(input, little, MAX as nat)
    }

    proof fn spec_read_in_bounds(input: Seq<u8>, little: bool) {
    }

    fn read_ordered<S: ByteSource>(source: &mut S, little: bool) -> (r: Result<
        Self,
        DecodeError,
    >) {
        let ghost pre = *source;
        let ghost input = pre.remaining();
        let prefix: T = match T::read_ordered(source, little) {
            Ok(p) => p,
            Err(err) => {
                return Err(err);
            },
        };
        let ghost mid = *source;
        let length = prefix.length_value();
        proof {
            T::spec_length_fits(prefix@);
        }
        if length > MAX {
            return Err(DecodeError::LengthBound { length, max: MAX });
        }
        let byte_count = length * 2;
        let buf = source.read(byte_count);
        proof {
            compose_forward(pre, mid, *source);
            if pre.is_exact() {
                lemma_skip_skip(input, T::spec_size() as int, buf@.len() as int);
            }
        }
        if buf.len() < byte_count {
            proof {
                if pre.is_exact() {
                    assert(mid.remaining().len() < byte_count);
                    assert((*source).remaining() =~= input.skip(input.len() as int));
                }
            }
            return Err(DecodeError::Truncated);
        }
        proof {
            if pre.is_exact() {
                let n = T::spec_size() as int;
                assert(buf@ =~= input.subrange(n, n + byte_count as int));
            }
        }
        let units = collect_units(buf.as_slice(), little);
        let text = decode_utf16_lossy(&units);
        Ok(WideLengthedString(text, PhantomData))
    }
}

/// Holds nothing; used to skip reserved or unneeded regions while keeping
/// aggregate composition uniform. Decoding discards exactly `N` input bytes
/// and produces the unit value.
#[derive(Debug)]
pub struct Padding<const N: usize>;

impl<const N: usize> View for Padding<N> {
    type V = ();

    open spec fn view(&self) -> () {
        ()
    }
}

impl<const N: usize> FromBytes for Padding<N> {
    open spec fn spec_size() -> nat {
        N as nat
    }

    open spec fn spec_from_bytes(bytes: Seq<u8>, little: bool) -> () {
        ()
    }

    fn size() -> usize {
        N
    }

    fn from_bytes_ordered(bytes: &[u8], little: bool) -> Padding<N> {
        Padding
    }
}

/// Padding carries no information: whatever bytes it is given and under
/// whichever order, its decoded view is the same unit value — nothing of the
/// skipped region ever appears in an observable decoded value.
pub proof fn lemma_padding_opaque<const N: usize>(
    b1: Seq<u8>,
    little1: bool,
    b2: Seq<u8>,
    little2: bool,
)
    ensures
        <Padding<N> as FromBytes>::spec_from_bytes(b1, little1) == <Padding<
            N,
        > as FromBytes>::spec_from_bytes(b2, little2),
{
}

/// Streamed padding of size `N` consumes exactly `N` bytes whenever they
/// are available, and produces only the unit value.
pub proof fn lemma_padding_consumes<const N: usize>(input: Seq<u8>, little: bool)
    requires
        input.len() >= N,
    ensures
        <Padding<N> as Readable>::spec_read(input, little) matches ReadOutcome::Value {
            value,
            consumed,
        } && consumed == N as int && value == (),
{
}

} // verus!
