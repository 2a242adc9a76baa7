//! The fixed-size inline payload and the typed records stored in it.
use vstd::prelude::*;
use crate::asset_ptr::AssetPtr;
use crate::asset_surface::GroupSurface;
use crate::bytes::{
    array64_of, le_u32, le_u64, lemma_array64_of, lemma_u32_le_roundtrip, lemma_u64_le_roundtrip,
    splice, u32_le, u64_le, zeros,
};
use crate::fields::Uuid;
use crate::MAX_INLINE_DATA;

verus! {

/// Why a write into, or a read from, a [`Buffer`] was refused.
#[derive(Debug, Clone, Copy, PartialEq, Eq, Structural)]
pub enum BufferError {
    Overflow,
    Corrupted,
    MismatchedLengths,
    InvalidUtf8,
}

impl BufferError {
    /// The human-readable description of the error.
    pub fn message(&self) -> (m: &'static str)
        ensures
            m@ == (match *self {
                BufferError::Overflow => "Data exceeds buffer capacity"@,
                BufferError::Corrupted => "Corrupted or invalid buffer data"@,
                BufferError::MismatchedLengths => "Mismatched slice lengths"@,
                BufferError::InvalidUtf8 => "Invalid UTF-8 sequence"@,
            }),
    {
        match self {
            BufferError::Overflow => "Data exceeds buffer capacity",
            BufferError::Corrupted => "Corrupted or invalid buffer data",
            BufferError::MismatchedLengths => "Mismatched slice lengths",
            BufferError::InvalidUtf8 => "Invalid UTF-8 sequence",
        }
    }
}

/// A value with a fixed-width byte image, as laid out in the inline payload.
pub trait WireItem: Sized {
    /// Number of bytes in the image of one value.
    spec fn spec_wire_size() -> nat;

    /// The byte image of the value.
    spec fn spec_to_wire(&self) -> Seq<u8>;

    /// The value whose image starts `bytes`.
    spec fn spec_from_wire(bytes: Seq<u8>) -> Self;

    /// Number of bytes in the image of one value.
    fn wire_size() -> (n: usize)
        ensures
            n as nat == Self::spec_wire_size(),
            1 <= n <= 256,
    ;

    /// Writes the image of the value into `out` at `at`.
    fn to_wire(&self, out: &mut [u8], at: usize)
        requires
            at + Self::spec_wire_size() <= old(out)@.len(),
        ensures
            final(out)@ == splice(old(out)@, at as int, self.spec_to_wire()),
    ;

    /// Reads the value whose image is in `src` at `at`.
    fn from_wire(src: &[u8], at: usize) -> (v: Self)
        requires
            at + Self::spec_wire_size() <= src@.len(),
        ensures
            v == Self::spec_from_wire(src@.subrange(at as int, at + Self::spec_wire_size())),
    ;

    /// The image has exactly `spec_wire_size()` bytes.
    proof fn lemma_wire_len(&self)
        ensures
            self.spec_to_wire().len() == Self::spec_wire_size(),
            1 <= Self::spec_wire_size() <= 256,
    ;

    /// Reading an image back gives the value that was written.
    proof fn lemma_wire_roundtrip(&self)
        ensures
            Self::spec_from_wire(self.spec_to_wire()) == *self,
    ;
}

/// The images of `items`, one after the other.
pub open spec fn wire_seq<T: WireItem>(items: Seq<T>) -> Seq<u8>
    decreases items.len(),
{
    if items.len() == 0 {
        Seq::empty()
    } else {
        wire_seq(items.drop_last()) + items.last().spec_to_wire()
    }
}

/// The `count` values whose images lie one after the other at the start of
/// `bytes`.
pub open spec fn items_from_wire<T: WireItem>(bytes: Seq<u8>, count: nat) -> Seq<T> {
    Seq::new(
        count,
        |i: int|
            T::spec_from_wire(
                bytes.subrange(
                    i * T::spec_wire_size(),
                    i * T::spec_wire_size() + T::spec_wire_size(),
                ),
            ),
    )
}

/// The images of `n` values take `n` times the size of one image.
pub proof fn lemma_wire_seq_len<T: WireItem>(items: Seq<T>)
    ensures
        wire_seq(items).len() == items.len() * T::spec_wire_size(),
    decreases items.len(),
{
    if items.len() > 0 {
        lemma_wire_seq_len(items.drop_last());
        items.last().lemma_wire_len();
        let n = items.len() as int;
        let w = T::spec_wire_size() as int;
        assert((n - 1) * w + w == n * w) by (nonlinear_arith);
    }
}

/// The images of the first `k` values are the first bytes of the images.
pub proof fn lemma_wire_seq_prefix<T: WireItem>(items: Seq<T>, k: int)
    requires
        0 <= k <= items.len(),
    ensures
        wire_seq(items.take(k)) == wire_seq(items).take(k * T::spec_wire_size()),
    decreases items.len(),
{
    lemma_wire_seq_len(items.take(k));
    lemma_wire_seq_len(items);
    if k == items.len() {
        assert(items.take(k) =~= items);
        assert(wire_seq(items).take(k * T::spec_wire_size()) =~= wire_seq(items));
    } else {
        let prev = items.drop_last();
        assert(prev.take(k) =~= items.take(k));
        lemma_wire_seq_prefix(prev, k);
        lemma_wire_seq_len(prev);
        let w = T::spec_wire_size() as int;
        assert(k * w <= (items.len() - 1) * w) by (nonlinear_arith)
            requires
                k <= items.len() - 1,
                0 <= w,
        ;
        assert(0 <= k * w) by (nonlinear_arith)
            requires
                0 <= k,
                0 <= w,
        ;
        assert(wire_seq(items).take(k * w) =~= wire_seq(prev).take(k * w));
    }
}

/// The `i`-th image sits at `i` times the size of one image.
pub proof fn lemma_wire_seq_index<T: WireItem>(items: Seq<T>, i: int)
    requires
        0 <= i < items.len(),
    ensures
        ({
            let w = T::spec_wire_size() as int;
            wire_seq(items).subrange(i * w, i * w + w) == items[i].spec_to_wire()
        }),
    decreases items.len(),
{
    let w = T::spec_wire_size() as int;
    let n = items.len() as int;
    let prev = items.drop_last();
    lemma_wire_seq_len(prev);
    items.last().lemma_wire_len();
    if i == n - 1 {
        assert(wire_seq(items).subrange(i * w, i * w + w) =~= items[i].spec_to_wire());
    } else {
        lemma_wire_seq_index(prev, i);
        assert(i * w + w <= (n - 1) * w) by (nonlinear_arith)
            requires
                i < n - 1,
                0 <= w,
        ;
        assert(0 <= i * w) by (nonlinear_arith)
            requires
                0 <= i,
                0 <= w,
        ;
        assert(wire_seq(items).subrange(i * w, i * w + w) =~= wire_seq(prev).subrange(
            i * w,
            i * w + w,
        ));
    }
}

/// Reading `n` values from bytes that start with the images of `n` values
/// gives those values back, whatever follows them.
pub proof fn lemma_items_from_wire_seq<T: WireItem>(items: Seq<T>, rest: Seq<u8>)
    ensures
        items_from_wire::<T>(wire_seq(items) + rest, items.len()) == items,
{
    let w = T::spec_wire_size() as int;
    let bytes = wire_seq(items) + rest;
    lemma_wire_seq_len(items);
    assert forall|i: int| 0 <= i < items.len() implies #[trigger] items_from_wire::<T>(
        bytes,
        items.len(),
    )[i] == items[i] by {
        lemma_wire_seq_index(items, i);
        items[i].lemma_wire_roundtrip();
        assert(i * w + w <= items.len() * w) by (nonlinear_arith)
            requires
                i < items.len(),
                0 <= w,
        ;
        assert(0 <= i * w) by (nonlinear_arith)
            requires
                0 <= i,
                0 <= w,
        ;
        assert(bytes.subrange(i * w, i * w + w) =~= wire_seq(items).subrange(i * w, i * w + w));
    }
    assert(items_from_wire::<T>(bytes, items.len()) =~= items);
}

/// Writing values at the start of a payload and reading as many back gives
/// the same values.
pub proof fn lemma_write_read_roundtrip<T: WireItem>(payload: Seq<u8>, items: Seq<T>)
    requires
        items.len() * T::spec_wire_size() <= payload.len(),
    ensures
        items_from_wire::<T>(splice(payload, 0, wire_seq(items)), items.len()) == items,
{
    lemma_wire_seq_len(items);
    let rest = payload.skip(wire_seq(items).len() as int);
    assert(splice(payload, 0, wire_seq(items)) =~= wire_seq(items) + rest);
    lemma_items_from_wire_seq(items, rest);
}

/// Reading values only looks at the bytes their images occupy.
pub proof fn lemma_items_from_wire_prefix<T: WireItem>(a: Seq<u8>, b: Seq<u8>, count: nat)
    requires
        count * T::spec_wire_size() <= a.len(),
        count * T::spec_wire_size() <= b.len(),
        a.take((count * T::spec_wire_size()) as int) == b.take((count * T::spec_wire_size()) as int),
    ensures
        items_from_wire::<T>(a, count) == items_from_wire::<T>(b, count),
{
    let w = T::spec_wire_size() as int;
    assert forall|i: int| 0 <= i < count implies #[trigger] items_from_wire::<T>(a, count)[i]
        == items_from_wire::<T>(b, count)[i] by {
        assert(i * w + w <= count * w) by (nonlinear_arith)
            requires
                i < count,
                0 <= w,
        ;
        assert(0 <= i * w) by (nonlinear_arith)
            requires
                0 <= i,
                0 <= w,
        ;
        assert(a.subrange(i * w, i * w + w) =~= a.take(count * w).subrange(i * w, i * w + w));
        assert(b.subrange(i * w, i * w + w) =~= b.take(count * w).subrange(i * w, i * w + w));
    }
    assert(items_from_wire::<T>(a, count) =~= items_from_wire::<T>(b, count));
}

/// Reading values from bytes that hold their images at `at` gives them back.
pub proof fn lemma_read_back_at<T: WireItem>(payload: Seq<u8>, at: int, items: Seq<T>)
    requires
        0 <= at,
        at + items.len() * T::spec_wire_size() <= payload.len(),
        payload.subrange(at, at + items.len() * T::spec_wire_size()) == wire_seq(items),
    ensures
        items_from_wire::<T>(payload.skip(at), items.len()) == items,
{
    lemma_wire_seq_len(items);
    let n = items.len() * T::spec_wire_size();
    lemma_items_from_wire_seq(items, Seq::<u8>::empty());
    assert(wire_seq(items) + Seq::<u8>::empty() =~= wire_seq(items));
    assert(payload.skip(at).take(n as int) =~= wire_seq(items).take(n as int));
    lemma_items_from_wire_prefix::<T>(payload.skip(at), wire_seq(items), items.len());
}

impl WireItem for u64 {
    open spec fn spec_wire_size() -> nat {
        8
    }

    open spec fn spec_to_wire(&self) -> Seq<u8> {
        u64_le(*self)
    }

    open spec fn spec_from_wire(bytes: Seq<u8>) -> u64 {
        le_u64(bytes)
    }

    fn wire_size() -> (n: usize) {
        8
    }

    fn to_wire(&self, out: &mut [u8], at: usize) {
        crate::bytes::put_u64_le(out, at, *self);
    }

    fn from_wire(src: &[u8], at: usize) -> (v: u64) {
        crate::bytes::get_u64_le(src, at)
    }

    proof fn lemma_wire_len(&self) {
        lemma_u64_le_roundtrip(*self);
    }

    proof fn lemma_wire_roundtrip(&self) {
        lemma_u64_le_roundtrip(*self);
    }
}

impl WireItem for u32 {
    open spec fn spec_wire_size() -> nat {
        4
    }

    open spec fn spec_to_wire(&self) -> Seq<u8> {
        u32_le(*self)
    }

    open spec fn spec_from_wire(bytes: Seq<u8>) -> u32 {
        le_u32(bytes)
    }

    fn wire_size() -> (n: usize) {
        4
    }

    fn to_wire(&self, out: &mut [u8], at: usize) {
        crate::bytes::put_u32_le(out, at, *self);
    }

    fn from_wire(src: &[u8], at: usize) -> (v: u32) {
        crate::bytes::get_u32_le(src, at)
    }

    proof fn lemma_wire_len(&self) {
        lemma_u32_le_roundtrip(*self);
    }

    proof fn lemma_wire_roundtrip(&self) {
        lemma_u32_le_roundtrip(*self);
    }
}

impl WireItem for [u8; 64] {
    open spec fn spec_wire_size() -> nat {
        64
    }

    open spec fn spec_to_wire(&self) -> Seq<u8> {
        self@
    }

    open spec fn spec_from_wire(bytes: Seq<u8>) -> [u8; 64] {
        array64_of(bytes)
    }

    fn wire_size() -> (n: usize) {
        64
    }

    fn to_wire(&self, out: &mut [u8], at: usize) {
        crate::bytes::put_bytes(out, at, self.as_slice());
    }

    fn from_wire(src: &[u8], at: usize) -> (v: [u8; 64]) {
        crate::bytes::get_array64(src, at)
    }

    proof fn lemma_wire_len(&self) {
    }

    proof fn lemma_wire_roundtrip(&self) {
        assert(self@.take(64) =~= self@);
        lemma_array64_of(*self, self@);
    }
}

impl WireItem for usize {
    open spec fn spec_wire_size() -> nat {
        8
    }

    open spec fn spec_to_wire(&self) -> Seq<u8> {
        u64_le(*self as u64)
    }

    open spec fn spec_from_wire(bytes: Seq<u8>) -> usize {
        le_u64(bytes) as usize
    }

    fn wire_size() -> (n: usize) {
        8
    }

    fn to_wire(&self, out: &mut [u8], at: usize) {
        crate::bytes::put_u64_le(out, at, *self as u64);
    }

    fn from_wire(src: &[u8], at: usize) -> (v: usize) {
        crate::bytes::get_u64_le(src, at) as usize
    }

    proof fn lemma_wire_len(&self) {
        lemma_u64_le_roundtrip(*self as u64);
    }

    proof fn lemma_wire_roundtrip(&self) {
        lemma_u64_le_roundtrip(*self as u64);
    }
}

/// Writes the images of `items` one after the other into `out` at `at`.
pub fn put_items<T: WireItem>(out: &mut [u8], at: usize, items: &[T])
    requires
        at + items@.len() * T::spec_wire_size() <= old(out)@.len(),
    ensures
        final(out)@ == splice(old(out)@, at as int, wire_seq(items@)),
{
    let n = items.len();
    let w = T::wire_size();
    let olen = out.len();
    let mut i: usize = 0;
    let mut pos: usize = at;
    proof {
        assert(items@.take(0) =~= Seq::<T>::empty());
        assert(out@ =~= splice(old(out)@, at as int, wire_seq(items@.take(0))));
    }
    while i < n
        invariant
            n == items@.len(),
            w as nat == T::spec_wire_size(),
            1 <= w <= 256,
            olen == out@.len(),
            out@.len() == old(out)@.len(),
            at + n * w <= olen,
            i <= n,
            pos == at + i * w,
            out@ == splice(old(out)@, at as int, wire_seq(items@.take(i as int))),
        decreases n - i,
    {
        assert((i + 1) * w <= n * w) by (nonlinear_arith)
            requires
                i < n,
                0 <= w,
        ;
        assert((i + 1) * w == i * w + w) by (nonlinear_arith);
        let ghost before = out@;
        let ghost pre = wire_seq(items@.take(i as int));
        proof {
            lemma_wire_seq_len(items@.take(i as int));
            items@[i as int].lemma_wire_len();
        }
        items[i].to_wire(out, pos);
        proof {
            let e = items@[i as int].spec_to_wire();
            assert(items@.take(i + 1).drop_last() =~= items@.take(i as int));
            assert(wire_seq(items@.take(i + 1)) == pre + e);
            assert(out@ =~= splice(old(out)@, at as int, pre + e));
        }
        i = i + 1;
        pos = pos + w;
    }
    assert(items@.take(n as int) =~= items@);
}

/// Reads `count` values whose images lie one after the other in `src` at
/// `at`.
pub fn get_items<T: WireItem>(src: &[u8], at: usize, count: usize) -> (v: Vec<T>)
    requires
        at + count * T::spec_wire_size() <= src@.len(),
    ensures
        v@ == items_from_wire::<T>(src@.skip(at as int), count as nat),
{
    let w = T::wire_size();
    let slen = src.len();
    let mut v: Vec<T> = Vec::new();
    let mut i: usize = 0;
    let mut pos: usize = at;
    while i < count
        invariant
            slen == src@.len(),
            w as nat == T::spec_wire_size(),
            1 <= w <= 256,
            at + count * w <= src@.len(),
            i <= count,
            pos == at + i * w,
            v@ == items_from_wire::<T>(src@.skip(at as int), count as nat).take(i as int),
        decreases count - i,
    {
        assert((i + 1) * w <= count * w) by (nonlinear_arith)
            requires
                i < count,
                0 <= w,
        ;
        assert((i + 1) * w == i * w + w) by (nonlinear_arith);
        let item = T::from_wire(src, pos);
        proof {
            assert(0 <= i * w) by (nonlinear_arith)
                requires
                    0 <= i,
                    0 <= w,
            ;
            assert(src@.subrange(pos as int, pos + w) =~= src@.skip(at as int).subrange(
                i * w,
                i * w + w,
            ));
        }
        v.push(item);
        i = i + 1;
        pos = pos + w;
        assert(v@ =~= items_from_wire::<T>(src@.skip(at as int), count as nat).take(i as int));
    }
    assert(v@ =~= items_from_wire::<T>(src@.skip(at as int), count as nat));
    v
}

/// Whether `align` is a power of two.
pub open spec fn is_pow2(align: usize) -> bool {
    align > 0 && align & ((align - 1) as usize) == 0
}

/// The 64 KiB payload carried inline by every command and response.
#[derive(Clone, Copy, Debug)]
pub struct Buffer {
    data: [u8; MAX_INLINE_DATA],
}

impl View for Buffer {
    type V = Seq<u8>;

    closed spec fn view(&self) -> Seq<u8> {
        self.data@
    }
}

/// A payload always holds exactly `MAX_INLINE_DATA` bytes.
pub broadcast proof fn lemma_buffer_len(b: Buffer)
    ensures
        #[trigger] b@.len() == MAX_INLINE_DATA,
{
}

/// The result of writing `count` values of `size` bytes each at `offset`:
/// refused with `Overflow` when they would end past the payload.
pub open spec fn write_fits(offset: int, count: int, size: int) -> bool {
    offset + count * size <= MAX_INLINE_DATA
}

impl Buffer {
    /// A payload of zero bytes.
    pub fn new() -> (b: Buffer)
        ensures
            b@ == zeros(MAX_INLINE_DATA as nat),
    {
        let b = Buffer { data: [0u8; MAX_INLINE_DATA] };
        assert(b@ =~= zeros(MAX_INLINE_DATA as nat));
        b
    }

    /// Rounds `offset` up to a multiple of `align` (a power of two).
    #[verifier::rlimit(100)]
    pub fn align_up(offset: usize, align: usize) -> (r: usize)
        requires
            align >= 1,
            offset + align - 1 <= usize::MAX,
        ensures
            r == (((offset + align - 1) as usize) & !((align - 1) as usize)),
            is_pow2(align) ==> r & ((align - 1) as usize) == 0 && r % align == 0 && offset <= r
                < offset + align,
    {
        let m = align - 1;
        let x = offset + m;
        let r = x & !m;
        proof {
            let a = align;
            assert((x & !m) & m == 0 && (x & !m) <= x && x - (x & !m) <= m) by (bit_vector);
            let y = x & !m;
            assert(a > 0 && a & m == 0 && m == (a - 1) as usize && y & m == 0 ==> y % a == 0)
                by (bit_vector);
        }
        r
    }

    /// The payload bytes.
    pub fn as_ref(&self) -> (r: &[u8])
        ensures
            r@ == self@,
    {
        self.data.as_slice()
    }

    /// The payload bytes, for writing.
    pub fn as_mut(&mut self) -> (r: &mut [u8])
        ensures
            r@ == old(self)@,
            final(self)@ == final(r)@,
    {
        &mut self.data
    }

    /// Writes the images of `items` one after the other at `offset`; refused
    /// with `Overflow`, leaving the payload unchanged, when they would end past
    /// the payload.
    pub fn write_slice<T: WireItem>(&mut self, items: &[T], offset: usize) -> (r: Result<
        (),
        BufferError,
    >)
        ensures
            write_fits(offset as int, items@.len() as int, T::spec_wire_size() as int) ==> r is Ok
                && final(self)@ == splice(old(self)@, offset as int, wire_seq(items@)),
            !write_fits(offset as int, items@.len() as int, T::spec_wire_size() as int) ==> r
                == Err::<(), BufferError>(BufferError::Overflow) && final(self)@ == old(self)@,
    {
        let w = T::wire_size();
        let n = items.len();
        let size = match n.checked_mul(w) {
            Some(s) => s,
            None => {
                proof {
                    assert(n * w > MAX_INLINE_DATA) by (nonlinear_arith)
                        requires
                            n * w > usize::MAX,
                    ;
                }
                return Err(BufferError::Overflow);
            },
        };
        let end = match offset.checked_add(size) {
            Some(e) => e,
            None => return Err(BufferError::Overflow),
        };
        if end > MAX_INLINE_DATA {
            return Err(BufferError::Overflow);
        }
        put_items(&mut self.data, offset, items);
        Ok(())
    }

    /// Writes `uuids` at the start of the payload.
    pub fn write_uuids(&mut self, uuids: &[Uuid]) -> (r: Result<(), BufferError>)
        ensures
            write_fits(0, uuids@.len() as int, 32) ==> r is Ok && final(self)@ == splice(
                old(self)@,
                0,
                wire_seq(uuids@),
            ),
            !write_fits(0, uuids@.len() as int, 32) ==> r == Err::<(), BufferError>(
                BufferError::Overflow,
            ) && final(self)@ == old(self)@,
    {
        self.write_slice(uuids, 0)
    }

    /// Writes `ptrs` at the start of the payload.
    pub fn write_asset_ptrs(&mut self, ptrs: &[AssetPtr]) -> (r: Result<(), BufferError>)
        ensures
            write_fits(0, ptrs@.len() as int, 8) ==> r is Ok && final(self)@ == splice(
                old(self)@,
                0,
                wire_seq(ptrs@),
            ),
            !write_fits(0, ptrs@.len() as int, 8) ==> r == Err::<(), BufferError>(
                BufferError::Overflow,
            ) && final(self)@ == old(self)@,
    {
        self.write_slice(ptrs, 0)
    }

    /// Writes `surfaces` at the start of the payload.
    pub fn write_group_surfaces(&mut self, surfaces: &[GroupSurface]) -> (r: Result<
        (),
        BufferError,
    >)
        ensures
            write_fits(0, surfaces@.len() as int, 40) ==> r is Ok && final(self)@ == splice(
                old(self)@,
                0,
                wire_seq(surfaces@),
            ),
            !write_fits(0, surfaces@.len() as int, 40) ==> r == Err::<(), BufferError>(
                BufferError::Overflow,
            ) && final(self)@ == old(self)@,
    {
        self.write_slice(surfaces, 0)
    }

    /// Reads `count` values from the start of the payload; refused with
    /// `Overflow` when their images would end past the payload.
    pub fn read_slice<T: WireItem>(&self, count: usize) -> (r: Result<Vec<T>, BufferError>)
        ensures
            r matches Ok(v) ==> v@ == items_from_wire::<T>(self@, count as nat),
            r is Ok <==> write_fits(0, count as int, T::spec_wire_size() as int),
            r is Err ==> r == Err::<Vec<T>, BufferError>(BufferError::Overflow),
    {
        let w = T::wire_size();
        let required = match count.checked_mul(w) {
            Some(s) => s,
            None => {
                proof {
                    assert(count * w > MAX_INLINE_DATA) by (nonlinear_arith)
                        requires
                            count * w > usize::MAX,
                    ;
                }
                return Err(BufferError::Overflow);
            },
        };
        if required > MAX_INLINE_DATA {
            return Err(BufferError::Overflow);
        }
        let v = get_items(self.data.as_slice(), 0, count);
        assert(self@.skip(0) =~= self@);
        Ok(v)
    }

    /// Reads `count` identifiers from the start of the payload.
    pub fn read_uuids(&self, count: usize) -> (r: Result<Vec<Uuid>, BufferError>)
        ensures
            r matches Ok(v) ==> v@ == items_from_wire::<Uuid>(self@, count as nat),
            r is Ok <==> write_fits(0, count as int, 32),
            r is Err ==> r == Err::<Vec<Uuid>, BufferError>(BufferError::Overflow),
    {
        self.read_slice(count)
    }

    /// Reads `count` asset pointers from the start of the payload.
    pub fn read_asset_ptrs(&self, count: usize) -> (r: Result<Vec<AssetPtr>, BufferError>)
        ensures
            r matches Ok(v) ==> v@ == items_from_wire::<AssetPtr>(self@, count as nat),
            r is Ok <==> write_fits(0, count as int, 8),
            r is Err ==> r == Err::<Vec<AssetPtr>, BufferError>(BufferError::Overflow),
    {
        self.read_slice(count)
    }

    /// Reads `count` group surfaces from the start of the payload.
    pub fn read_group_surfaces(&self, count: usize) -> (r: Result<Vec<GroupSurface>, BufferError>)
        ensures
            r matches Ok(v) ==> v@ == items_from_wire::<GroupSurface>(self@, count as nat),
            r is Ok <==> write_fits(0, count as int, 40),
            r is Err ==> r == Err::<Vec<GroupSurface>, BufferError>(BufferError::Overflow),
    {
        self.read_slice(count)
    }
}

} // verus!
