use vstd::prelude::*;
use crate::endianness::{endianness_resolves, resolve_order, Endianness};
use crate::from_bytes::FromBytes;

verus! {

/// Why a streaming decode failed.
#[derive(Clone, Copy, PartialEq, Eq, Structural, Debug)]
pub enum DecodeError {
    /// The source was exhausted before the required bytes were obtained.
    Truncated,
    /// A length prefix declared `length` items, more than the configured
    /// bound `max`.
    LengthBound { length: usize, max: usize },
}

/// The outcome a streaming decoder is specified to produce on a given input:
/// a decoded value or an error, together with how many leading bytes of the
/// input the decode consumes.
pub enum ReadOutcome<V> {
    Value { value: V, consumed: int },
    Fail { error: DecodeError, consumed: int },
}

impl<V> ReadOutcome<V> {
    /// How many leading bytes of the input the outcome consumes.
    pub open spec fn spec_consumed(self) -> int {
        match self {
            ReadOutcome::Value { value, consumed } => consumed,
            ReadOutcome::Fail { error, consumed } => consumed,
        }
    }

    /// The outcome consumes no more than the input offers.
    pub open spec fn in_bounds(self, input: Seq<u8>) -> bool {
        0 <= self.spec_consumed() <= input.len()
    }
}

/// A sequential byte source: the abstract interface streaming decoders
/// consume. `remaining()` models the bytes the source will still yield;
/// `is_exact()` says that every read returns as many of them as requested,
/// never fewer while bytes remain.
pub trait ByteSource: Sized {
    /// The bytes this source will still yield, in order.
    spec fn remaining(&self) -> Seq<u8>;

    /// Whether every read returns `min(count, remaining)` bytes.
    spec fn is_exact(&self) -> bool;

    /// Reads up to `count` bytes: what comes back is the next prefix of
    /// `remaining()`, which advances by exactly that many bytes. An exact
    /// source returns `min(count, remaining)` bytes; any other source may
    /// return fewer, and an empty result signals exhaustion to best-effort
    /// decoders.
    fn read(&mut self, count: usize) -> (bytes: Vec<u8>)
        ensures
            bytes@.len() <= count,
            bytes@.len() <= old(self).remaining().len(),
            bytes@ == old(self).remaining().take(bytes@.len() as int),
            final(self).remaining() == old(self).remaining().skip(bytes@.len() as int),
            final(self).is_exact() == old(self).is_exact(),
            old(self).is_exact() ==> bytes@.len() == if count as int <= old(self).remaining().len() {
                count as int
            } else {
                old(self).remaining().len() as int
            },
    ;
}

/// Relates a streaming decode's result, and the source before and after it,
/// to the decoder's specified outcome: any source only moves forward, and an
/// exact source realises the specified outcome precisely — the specified
/// value on success, the specified error on failure, consuming exactly the
/// specified bytes either way.
pub open spec fn read_post<T: View, S: ByteSource>(
    pre: S,
    post: S,
    outcome: ReadOutcome<T::V>,
    r: Result<T, DecodeError>,
) -> bool {
    &&& post.is_exact() == pre.is_exact()
    &&& exists|n: int|
        0 <= n <= pre.remaining().len() && post.remaining() == pre.remaining().skip(n)
    &&& pre.is_exact() ==> {
        match r {
            Ok(v) => outcome matches ReadOutcome::Value { value, consumed } && v@ == value
                && post.remaining() == pre.remaining().skip(consumed),
            Err(e) => outcome matches ReadOutcome::Fail { error, consumed } && e == error
                && post.remaining() == pre.remaining().skip(consumed),
        }
    }
}

/// A type decodable by sequential reads from a byte source, whose byte
/// footprint need not be known in advance. Every `FromBytes` type is
/// automatically `Readable` through the bounded exact-read bridge below.
pub trait Readable: View + Sized {
    /// The premise a concrete decoder needs before it can run; only machine
    /// limits stand here.
    spec fn read_req() -> bool;

    /// The outcome decoding is specified to produce when the source holds
    /// exactly `input` and yields it faithfully.
    spec fn spec_read(input: Seq<u8>, little: bool) -> ReadOutcome<Self::V>;

    /// The specified outcome never consumes more than the input offers.
    proof fn spec_read_in_bounds(input: Seq<u8>, little: bool)
        ensures
            Self::spec_read(input, little).in_bounds(input),
    ;

    /// Decodes from the source under an already-resolved byte order.
    fn read_ordered<S: ByteSource>(source: &mut S, little: bool) -> (r: Result<
        Self,
        DecodeError,
    >)
        requires
            Self::read_req(),
        ensures
            read_post::<Self, S>(
                *old(source),
                *final(source),
                Self::spec_read(old(source).remaining(), little),
                r,
            ),
    ;

    /// Decodes from the source, resolving `Native` against the executing
    /// platform.
    fn read_from<S: ByteSource>(source: &mut S, e: Endianness) -> (r: Result<Self, DecodeError>)
        requires
            Self::read_req(),
        ensures
            exists|little: bool|
                endianness_resolves(e, little) && read_post::<Self, S>(
                    *old(source),
                    *final(source),
                    Self::spec_read(old(source).remaining(), little),
                    r,
                ),
    {
        let little = resolve_order(e);
        Self::read_ordered(source, little)
    }
}

/// The bridge from fixed-size to streaming decoding: reading a `FromBytes`
/// type streams exactly its footprint into a buffer and delegates to the
/// fixed-size decoder; a short read is a hard `Truncated` error, never a
/// zero-filled decode.
impl<F: FromBytes> Readable for F {
    open spec fn read_req() -> bool {
        F::spec_size() <= usize::MAX as nat
    }

    open spec fn spec_read(input: Seq<u8>, little: bool) -> ReadOutcome<F::V> {
        if input.len() >= F::spec_size() {
            ReadOutcome::Value {
                value: F::spec_from_bytes(input.take(F::spec_size() as int), little),
                consumed: F::spec_size() as int,
            }
        } else {
            ReadOutcome::Fail { error: DecodeError::Truncated, consumed: input.len() as int }
        }
    }

    proof fn spec_read_in_bounds(input: Seq<u8>, little: bool) {
    }

    fn read_ordered<S: ByteSource>(source: &mut S, little: bool) -> (r: Result<
        Self,
        DecodeError,
    >) {
        let ghost pre = *source;
        let n = F::size();
        let buf = source.read(n);
        if buf.len() == n {
            proof {
                assert(buf@ == pre.remaining().take(F::spec_size() as int));
            }
            Ok(F::from_bytes_ordered(buf.as_slice(), little))
        } else {
            proof {
                if pre.is_exact() {
                    assert(pre.remaining().len() < F::spec_size());
                    assert(buf@.len() == pre.remaining().len());
                }
            }
            Err(DecodeError::Truncated)
        }
    }
}

/// The automatic upgrade from fixed-size to streaming decoding reads
/// exactly the type's footprint: on an input that holds at least
/// `spec_size()` bytes it consumes exactly that many and decodes exactly
/// those, by the type's own fixed-size rule.
pub proof fn lemma_bridge_reads_exact_footprint<F: FromBytes>(input: Seq<u8>, little: bool)
    requires
        input.len() >= F::spec_size(),
    ensures
        <F as Readable>::spec_read(input, little) == (ReadOutcome::<F::V>::Value {
            value: F::spec_from_bytes(input.take(F::spec_size() as int), little),
            consumed: F::spec_size() as int,
        }),
{
}

/// A short input is a hard error for the fixed-to-streaming bridge: fewer
/// bytes than the footprint are never zero-filled or partially decoded.
pub proof fn lemma_bridge_short_input_fails<F: FromBytes>(input: Seq<u8>, little: bool)
    requires
        input.len() < F::spec_size(),
    ensures
        <F as Readable>::spec_read(input, little) == (ReadOutcome::<F::V>::Fail {
            error: DecodeError::Truncated,
            consumed: input.len() as int,
        }),
{
}

/// Reads any `Readable` object out of any byte source: the convenience
/// entry point `source.read_object(order)`.
pub trait ReadExt: ByteSource + Sized {
    fn read_object<O: Readable>(&mut self, e: Endianness) -> (r: Result<O, DecodeError>)
        requires
            O::read_req(),
        ensures
            exists|little: bool|
                endianness_resolves(e, little) && read_post::<O, Self>(
                    *old(self),
                    *final(self),
                    O::spec_read(old(self).remaining(), little),
                    r,
                ),
    {
        O::read_from(self, e)
    }
}

impl<S: ByteSource> ReadExt for S {

}

/// The streaming composition rule for an aggregate of two members, written
/// out over their specified outcomes: the first member reads from the front
/// of the input, the second from what it left; the first failure aborts the
/// whole aggregate and propagates unchanged.
pub open spec fn record_read<A: Readable, B: Readable>(input: Seq<u8>, little: bool) -> ReadOutcome<
    (A::V, B::V),
> {
    match A::spec_read(input, little) {
        ReadOutcome::Value { value: a, consumed: n } => match B::spec_read(input.skip(n), little) {
            ReadOutcome::Value { value: b, consumed: m } => ReadOutcome::Value {
                value: (a, b),
                consumed: n + m,
            },
            ReadOutcome::Fail { error, consumed: m } => ReadOutcome::Fail {
                error,
                consumed: n + m,
            },
        },
        ReadOutcome::Fail { error, consumed } => ReadOutcome::Fail { error, consumed },
    }
}

/// An aggregate of two streaming members, decoded against the same source in
/// declared order. Members with variable footprints are welcome; nest
/// `Record`s for wider aggregates. No partial aggregate is ever returned:
/// the first member failure aborts the decode with that member's error.
#[derive(Debug)]
pub struct Record<A, B>(pub A, pub B);

impl<A: View, B: View> View for Record<A, B> {
    type V = (A::V, B::V);

    open spec fn view(&self) -> (A::V, B::V) {
        (self.0@, self.1@)
    }
}

impl<A: Readable, B: Readable> Readable for Record<A, B> {
    open spec fn read_req() -> bool {
        A::read_req() && B::read_req()
    }

    open spec fn spec_read(input: Seq<u8>, little: bool) -> ReadOutcome<(A::V, B::V)> {
        record_read::<A, B>(input, little)
    }

    proof fn spec_read_in_bounds(input: Seq<u8>, little: bool) {
        A::spec_read_in_bounds(input, little);
        match A::spec_read(input, little) {
            ReadOutcome::Value { value, consumed } => {
                B::spec_read_in_bounds(input.skip(consumed), little);
            },
            ReadOutcome::Fail { error, consumed } => {},
        }
    }

    fn read_ordered<S: ByteSource>(source: &mut S, little: bool) -> (r: Result<
        Self,
        DecodeError,
    >) {
        let ghost pre = *source;
        let a = match A::read_ordered(source, little) {
            Ok(a) => a,
            Err(e) => {
                return Err(e);
            },
        };
        let ghost mid = *source;
        let b = match B::read_ordered(source, little) {
            Ok(b) => b,
            Err(e) => {
                proof {
                    compose_forward(pre, mid, *source);
                    if pre.is_exact() {
                        A::spec_read_in_bounds(pre.remaining(), little);
                        B::spec_read_in_bounds(mid.remaining(), little);
                        let ca = A::spec_read(pre.remaining(), little).spec_consumed();
                        let cb = B::spec_read(mid.remaining(), little).spec_consumed();
                        lemma_skip_skip(pre.remaining(), ca, cb);
                    }
                }
                return Err(e);
            },
        };
        proof {
            compose_forward(pre, mid, *source);
            if pre.is_exact() {
                A::spec_read_in_bounds(pre.remaining(), little);
                B::spec_read_in_bounds(mid.remaining(), little);
                let ca = A::spec_read(pre.remaining(), little).spec_consumed();
                let cb = B::spec_read(mid.remaining(), little).spec_consumed();
                lemma_skip_skip(pre.remaining(), ca, cb);
            }
        }
        Ok(Record(a, b))
    }
}

/// The streaming aggregate short-circuits: when its first member fails, the
/// aggregate fails with exactly that member's error, having consumed exactly
/// what that member consumed, and the second member is never consulted.
pub proof fn lemma_record_short_circuit<A: Readable, B: Readable>(
    input: Seq<u8>,
    little: bool,
    error: DecodeError,
    consumed: int,
)
    requires
        A::spec_read(input, little) == (ReadOutcome::<A::V>::Fail { error, consumed }),
    ensures
        record_read::<A, B>(input, little) == (ReadOutcome::<(A::V, B::V)>::Fail {
            error,
            consumed,
        }),
{
}

/// A decode that runs as two decodes in sequence still only moves the
/// source forward, by the total of the two advances.
pub(crate) proof fn compose_forward<S: ByteSource>(pre: S, mid: S, post: S)
    requires
        exists|n: int|
            0 <= n <= pre.remaining().len() && mid.remaining() == pre.remaining().skip(n),
        exists|m: int|
            0 <= m <= mid.remaining().len() && post.remaining() == mid.remaining().skip(m),
    ensures
        exists|k: int|
            0 <= k <= pre.remaining().len() && post.remaining() == pre.remaining().skip(k),
{
    let n = choose|n: int|
        0 <= n <= pre.remaining().len() && mid.remaining() == pre.remaining().skip(n);
    let m = choose|m: int|
        0 <= m <= mid.remaining().len() && post.remaining() == mid.remaining().skip(m);
    lemma_skip_skip(pre.remaining(), n, m);
    assert(0 <= n + m <= pre.remaining().len() && post.remaining() == pre.remaining().skip(n + m));
}

/// Skipping twice is skipping once by the sum: the second member of an
/// aggregate picks up exactly where the first stopped.
pub(crate) proof fn lemma_skip_skip(s: Seq<u8>, n: int, m: int)
    requires
        0 <= n,
        0 <= m,
        n + m <= s.len(),
    ensures
        s.skip(n).skip(m) == s.skip(n + m),
{
    assert(s.skip(n).skip(m) =~= s.skip(n + m));
}

} // verus!
