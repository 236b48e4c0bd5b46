//! Byte order, the reader that decoding walks along, and the codec of field
//! elements and of the fixed-width integers that frame a record.
use vstd::prelude::*;
use vstd::slice::{slice_subrange, slice_to_vec};

use crate::bytes::{
    be_value, bytes_of, le_value, lemma_bytes_len, lemma_bytes_of_value, lemma_radix_values,
    lemma_skip_prefix, lemma_value_bound, lemma_value_of_bytes, limbs_value, value_of,
};
use crate::error::CodecError;
use crate::field::{Num, PrimeField};

verus! {

/// One of the two orders in which the bytes of an integer stand on the wire.
#[derive(Debug, Clone, Copy, PartialEq, Eq, Structural)]
pub enum Endianness {
    Little,
    Big,
}

/// `LittleEndian` of byteorder: a type without values that names the byte
/// order. Nothing is claimed of it.
#[verifier::external_type_specification]
#[verifier::external_body]
pub struct ExLittleEndian(byteorder::LittleEndian);

/// `BigEndian` of byteorder: a type without values that names the byte
/// order. Nothing is claimed of it.
#[verifier::external_type_specification]
#[verifier::external_body]
pub struct ExBigEndian(byteorder::BigEndian);

/// A byte order chosen by type, as the `byteorder` crate names them.
pub trait ByteOrderExt {
    /// The byte order that the type stands for.
    spec fn order() -> Endianness;

    /// The byte order that the type stands for.
    fn endianness() -> (e: Endianness)
        ensures
            e == Self::order(),
    ;
}

impl ByteOrderExt for byteorder::LittleEndian {
    open spec fn order() -> Endianness {
        Endianness::Little
    }

    fn endianness() -> (e: Endianness) {
        Endianness::Little
    }
}

impl ByteOrderExt for byteorder::BigEndian {
    open spec fn order() -> Endianness {
        Endianness::Big
    }

    fn endianness() -> (e: Endianness) {
        Endianness::Big
    }
}

/// `<LittleEndian as ByteOrder>::read_u16` of byteorder: the number that the
/// first two bytes spell, least significant first.
#[verifier::external_body]
fn le_read_u16(buf: &[u8]) -> (v: u16)
    requires
        buf@.len() >= 2,
    ensures
        v == le_value(buf@.subrange(0, 2)),
{
    <byteorder::LittleEndian as byteorder::ByteOrder>::read_u16(buf)
}

/// `<BigEndian as ByteOrder>::read_u16` of byteorder: the number that the
/// first two bytes spell, most significant first.
#[verifier::external_body]
fn be_read_u16(buf: &[u8]) -> (v: u16)
    requires
        buf@.len() >= 2,
    ensures
        v == be_value(buf@.subrange(0, 2)),
{
    <byteorder::BigEndian as byteorder::ByteOrder>::read_u16(buf)
}

/// `<LittleEndian as ByteOrder>::read_u32` of byteorder: the number that the
/// first four bytes spell, least significant first.
#[verifier::external_body]
fn le_read_u32(buf: &[u8]) -> (v: u32)
    requires
        buf@.len() >= 4,
    ensures
        v == le_value(buf@.subrange(0, 4)),
{
    <byteorder::LittleEndian as byteorder::ByteOrder>::read_u32(buf)
}

/// `<BigEndian as ByteOrder>::read_u32` of byteorder: the number that the
/// first four bytes spell, most significant first.
#[verifier::external_body]
fn be_read_u32(buf: &[u8]) -> (v: u32)
    requires
        buf@.len() >= 4,
    ensures
        v == be_value(buf@.subrange(0, 4)),
{
    <byteorder::BigEndian as byteorder::ByteOrder>::read_u32(buf)
}

/// `<LittleEndian as ByteOrder>::write_u16` of byteorder, on a buffer of two
/// bytes: they spell `n`, least significant first.
#[verifier::external_body]
fn le_write_u16(n: u16) -> (buf: [u8; 2])
    ensures
        le_value(buf@) == n,
{
    let mut buf = [0u8; 2];
    <byteorder::LittleEndian as byteorder::ByteOrder>::write_u16(&mut buf, n);
    buf
}

/// `<BigEndian as ByteOrder>::write_u16` of byteorder, on a buffer of two
/// bytes: they spell `n`, most significant first.
#[verifier::external_body]
fn be_write_u16(n: u16) -> (buf: [u8; 2])
    ensures
        be_value(buf@) == n,
{
    let mut buf = [0u8; 2];
    <byteorder::BigEndian as byteorder::ByteOrder>::write_u16(&mut buf, n);
    buf
}

/// `<LittleEndian as ByteOrder>::write_u32` of byteorder, on a buffer of four
/// bytes: they spell `n`, least significant first.
#[verifier::external_body]
fn le_write_u32(n: u32) -> (buf: [u8; 4])
    ensures
        le_value(buf@) == n,
{
    let mut buf = [0u8; 4];
    <byteorder::LittleEndian as byteorder::ByteOrder>::write_u32(&mut buf, n);
    buf
}

/// `<BigEndian as ByteOrder>::write_u32` of byteorder, on a buffer of four
/// bytes: they spell `n`, most significant first.
#[verifier::external_body]
fn be_write_u32(n: u32) -> (buf: [u8; 4])
    ensures
        be_value(buf@) == n,
{
    let mut buf = [0u8; 4];
    <byteorder::BigEndian as byteorder::ByteOrder>::write_u32(&mut buf, n);
    buf
}

/// `Uint::from_little_endian` of ff-uint, for the 256-bit integer of
/// fawkes-crypto: the limbs spell the number that the bytes spell, least
/// significant byte first.
#[verifier::external_body]
fn uint_from_little_endian(bytes: &[u8]) -> (limbs: [u64; 4])
    requires
        bytes@.len() <= 32,
    ensures
        limbs_value(limbs@) == le_value(bytes@),
{
    <fawkes_crypto::engines::U256 as fawkes_crypto::ff_uint::Uint>::from_little_endian(bytes).0
}

/// `Uint::from_big_endian` of ff-uint, for the 256-bit integer of
/// fawkes-crypto: the limbs spell the number that the bytes spell, most
/// significant byte first.
#[verifier::external_body]
fn uint_from_big_endian(bytes: &[u8]) -> (limbs: [u64; 4])
    requires
        bytes@.len() <= 32,
    ensures
        limbs_value(limbs@) == be_value(bytes@),
{
    <fawkes_crypto::engines::U256 as fawkes_crypto::ff_uint::Uint>::from_big_endian(bytes).0
}

/// `Uint::put_little_endian` of ff-uint, for the 256-bit integer of
/// fawkes-crypto, on a buffer of 32 bytes: they spell the number that the
/// limbs spell, least significant byte first.
#[verifier::external_body]
fn uint_put_little_endian(limbs: &[u64; 4]) -> (bytes: [u8; 32])
    ensures
        le_value(bytes@) == limbs_value(limbs@),
{
    let mut bytes = [0u8; 32];
    let uint = fawkes_crypto::engines::U256::new(*limbs);
    fawkes_crypto::ff_uint::Uint::put_little_endian(&uint, &mut bytes);
    bytes
}

/// `Uint::put_big_endian` of ff-uint, for the 256-bit integer of
/// fawkes-crypto, on a buffer of 32 bytes: they spell the number that the
/// limbs spell, most significant byte first.
#[verifier::external_body]
fn uint_put_big_endian(limbs: &[u64; 4]) -> (bytes: [u8; 32])
    ensures
        be_value(bytes@) == limbs_value(limbs@),
{
    let mut bytes = [0u8; 32];
    let uint = fawkes_crypto::engines::U256::new(*limbs);
    fawkes_crypto::ff_uint::Uint::put_big_endian(&uint, &mut bytes);
    bytes
}

/// What a read makes of the bytes before it: what it returns, and the bytes
/// that it leaves unread.
///
/// A read that fails has consumed what it looked at before it failed. The one
/// exception is a read that finds too few bytes for its next fixed step: that
/// step consumes nothing.
pub ghost struct Decoded<T> {
    pub result: Result<T, CodecError>,
    pub rest: Seq<u8>,
}

impl<T> Decoded<T> {
    /// The same refusal, for a read of another type.
    pub open spec fn failed<U>(self) -> Decoded<U> {
        Decoded { result: Err(self.result->Err_0), rest: self.rest }
    }
}

/// A read that returned `value` and left `rest` unread.
pub open spec fn accepted<T>(value: T, rest: Seq<u8>) -> Decoded<T> {
    Decoded { result: Ok(value), rest }
}

/// A read that failed with `e` and left `rest` unread.
pub open spec fn refused<T>(e: CodecError, rest: Seq<u8>) -> Decoded<T> {
    Decoded { result: Err(e), rest }
}

/// A place in a byte slice. Reading moves it forward; what lies behind it is
/// never read again.
#[derive(Debug, Clone, Copy)]
pub struct Reader<'a> {
    buf: &'a [u8],
    pos: usize,
}

impl<'a> View for Reader<'a> {
    type V = Seq<u8>;

    /// The bytes that are still to be read.
    closed spec fn view(&self) -> Seq<u8> {
        self.buf@.subrange(self.pos as int, self.buf@.len() as int)
    }
}

/// What `Reader::take` makes of the bytes `b`: the first `n`, when there are
/// that many.
pub open spec fn take_decoding(b: Seq<u8>, n: nat) -> Decoded<Seq<u8>> {
    if b.len() < n {
        refused(CodecError::Truncated, b)
    } else {
        accepted(b.subrange(0, n as int), b.skip(n as int))
    }
}

impl<'a> Reader<'a> {
    #[verifier::type_invariant]
    spec fn in_bounds(self) -> bool {
        self.pos <= self.buf@.len()
    }

    /// A reader at the start of `buf`.
    pub fn new(buf: &'a [u8]) -> (r: Self)
        ensures
            r@ == buf@,
    {
        let r = Reader { buf, pos: 0 };
        assert(r@ =~= buf@);
        r
    }

    /// The number of bytes that are still to be read.
    pub fn remaining(&self) -> (n: usize)
        ensures
            n == self@.len(),
    {
        proof {
            use_type_invariant(self);
        }
        self.buf.len() - self.pos
    }

    /// Reads the next `n` bytes. When fewer are left it fails and reads none.
    pub fn take(&mut self, n: usize) -> (r: Result<&'a [u8], CodecError>)
        ensures
            match r {
                Ok(s) => take_decoding(old(self)@, n as nat).result == Ok::<Seq<u8>, CodecError>(
                    s@,
                ),
                Err(e) => take_decoding(old(self)@, n as nat).result == Err::<
                    Seq<u8>,
                    CodecError,
                >(e) && *final(self) == *old(self),
            },
            final(self)@ == take_decoding(old(self)@, n as nat).rest,
    {
        proof {
            use_type_invariant(&*self);
        }
        if n <= self.buf.len() - self.pos {
            let out = slice_subrange(self.buf, self.pos, self.pos + n);
            self.pos = self.pos + n;
            assert(out@ =~= old(self)@.subrange(0, n as int));
            assert(self@ =~= old(self)@.skip(n as int));
            Ok(out)
        } else {
            Err(CodecError::Truncated)
        }
    }

    /// Reads all the bytes that are left.
    pub fn take_rest(&mut self) -> (s: &'a [u8])
        ensures
            s@ == old(self)@,
            final(self)@ == Seq::<u8>::empty(),
    {
        proof {
            use_type_invariant(&*self);
        }
        let out = slice_subrange(self.buf, self.pos, self.buf.len());
        self.pos = self.buf.len();
        assert(self@ =~= Seq::<u8>::empty());
        out
    }
}

/// Appends `bytes` to `w`.
pub fn write_all(w: &mut Vec<u8>, bytes: &[u8])
    ensures
        final(w)@ == old(w)@ + bytes@,
{
    let mut i: usize = 0;
    while i < bytes.len()
        invariant
            i <= bytes@.len(),
            w@ == old(w)@ + bytes@.subrange(0, i as int),
        decreases bytes@.len() - i,
    {
        w.push(bytes[i]);
        i = i + 1;
        assert(w@ =~= old(w)@ + bytes@.subrange(0, i as int));
    }
    assert(bytes@.subrange(0, i as int) =~= bytes@);
}

/// Whether two byte slices hold the same bytes.
pub fn same_bytes(a: &[u8], b: &[u8]) -> (r: bool)
    ensures
        r == (a@ == b@),
{
    if a.len() != b.len() {
        return false;
    }
    let mut i: usize = 0;
    while i < a.len()
        invariant
            i <= a@.len(),
            a@.len() == b@.len(),
            a@.subrange(0, i as int) == b@.subrange(0, i as int),
        decreases a@.len() - i,
    {
        if a[i] != b[i] {
            assert(a@[i as int] != b@[i as int]);
            return false;
        }
        assert(a@.subrange(0, i + 1) =~= a@.subrange(0, i as int).push(a@[i as int]));
        assert(b@.subrange(0, i + 1) =~= b@.subrange(0, i as int).push(b@[i as int]));
        i = i + 1;
    }
    assert(a@.subrange(0, i as int) =~= a@);
    assert(b@.subrange(0, i as int) =~= b@);
    true
}

/// What `read_u16` makes of the bytes `b`: the number that the first two
/// spell, when there are two.
pub open spec fn u16_decoding(b: Seq<u8>, order: Endianness) -> Decoded<u16> {
    if b.len() < 2 {
        refused(CodecError::Truncated, b)
    } else {
        accepted(value_of(b.subrange(0, 2), order) as u16, b.skip(2))
    }
}

/// What `read_u32` makes of the bytes `b`: the number that the first four
/// spell, when there are four.
pub open spec fn u32_decoding(b: Seq<u8>, order: Endianness) -> Decoded<u32> {
    if b.len() < 4 {
        refused(CodecError::Truncated, b)
    } else {
        accepted(value_of(b.subrange(0, 4), order) as u32, b.skip(4))
    }
}

/// What `read_num` makes of the bytes `b`: the number that the first 32
/// spell, when there are 32 and the number is below the modulus of `F`. A
/// number that is refused has been read: its 32 bytes are consumed.
pub open spec fn num_decoding<F: PrimeField>(b: Seq<u8>, order: Endianness) -> Decoded<nat> {
    if b.len() < 32 {
        refused(CodecError::Truncated, b)
    } else if value_of(b.subrange(0, 32), order) >= F::modulus() {
        refused(CodecError::InvalidFieldElement, b.skip(32))
    } else {
        accepted(value_of(b.subrange(0, 32), order), b.skip(32))
    }
}

/// The 32 bytes that stand for a field element on the wire.
pub open spec fn num_encoding(v: nat, order: Endianness) -> Seq<u8> {
    bytes_of(v, 32, order)
}

/// Reads a 16-bit integer in the byte order `O`.
pub fn read_u16<O: ByteOrderExt>(r: &mut Reader) -> (res: Result<u16, CodecError>)
    ensures
        res == u16_decoding(old(r)@, O::order()).result,
        final(r)@ == u16_decoding(old(r)@, O::order()).rest,
{
    let bytes = r.take(2)?;
    assert(bytes@.subrange(0, 2) =~= bytes@);
    proof {
        lemma_value_bound(bytes@, O::order());
        lemma_radix_values();
    }
    match O::endianness() {
        Endianness::Little => Ok(le_read_u16(bytes)),
        Endianness::Big => Ok(be_read_u16(bytes)),
    }
}

/// Reads a 32-bit integer in the byte order `O`.
pub fn read_u32<O: ByteOrderExt>(r: &mut Reader) -> (res: Result<u32, CodecError>)
    ensures
        res == u32_decoding(old(r)@, O::order()).result,
        final(r)@ == u32_decoding(old(r)@, O::order()).rest,
{
    let bytes = r.take(4)?;
    assert(bytes@.subrange(0, 4) =~= bytes@);
    proof {
        lemma_value_bound(bytes@, O::order());
        lemma_radix_values();
    }
    match O::endianness() {
        Endianness::Little => Ok(le_read_u32(bytes)),
        Endianness::Big => Ok(be_read_u32(bytes)),
    }
}

/// Appends a 16-bit integer in the byte order `O`.
pub fn write_u16<O: ByteOrderExt>(w: &mut Vec<u8>, n: u16)
    ensures
        final(w)@ == old(w)@ + bytes_of(n as nat, 2, O::order()),
{
    let buf = match O::endianness() {
        Endianness::Little => le_write_u16(n),
        Endianness::Big => be_write_u16(n),
    };
    proof {
        lemma_bytes_of_value(buf@, O::order());
    }
    write_all(w, buf.as_slice());
}

/// Appends a 32-bit integer in the byte order `O`.
pub fn write_u32<O: ByteOrderExt>(w: &mut Vec<u8>, n: u32)
    ensures
        final(w)@ == old(w)@ + bytes_of(n as nat, 4, O::order()),
{
    let buf = match O::endianness() {
        Endianness::Little => le_write_u32(n),
        Endianness::Big => be_write_u32(n),
    };
    proof {
        lemma_bytes_of_value(buf@, O::order());
    }
    write_all(w, buf.as_slice());
}

/// Reads a field element: 32 bytes that spell, in the byte order `O`, an
/// integer below the modulus of `F`. The 32 bytes are consumed whether the
/// integer is accepted or not.
pub fn read_num<O: ByteOrderExt, F: PrimeField>(r: &mut Reader) -> (res: Result<
    Num<F>,
    CodecError,
>)
    ensures
        match res {
            Ok(num) => num_decoding::<F>(old(r)@, O::order()).result == Ok::<nat, CodecError>(
                num@,
            ),
            Err(e) => num_decoding::<F>(old(r)@, O::order()).result == Err::<nat, CodecError>(e),
        },
        final(r)@ == num_decoding::<F>(old(r)@, O::order()).rest,
{
    let bytes = r.take(32)?;
    assert(bytes@.subrange(0, 32) =~= bytes@);
    let uint = match O::endianness() {
        Endianness::Little => uint_from_little_endian(bytes),
        Endianness::Big => uint_from_big_endian(bytes),
    };
    match Num::from_uint(uint) {
        Some(num) => Ok(num),
        None => Err(CodecError::InvalidFieldElement),
    }
}

/// Appends a field element: the 32 bytes that spell, in the byte order `O`,
/// the integer that stands for it.
pub fn write_num<O: ByteOrderExt, F: PrimeField>(w: &mut Vec<u8>, num: &Num<F>)
    ensures
        final(w)@ == old(w)@ + num_encoding(num@, O::order()),
        num@ < F::modulus(),
{
    let uint = num.to_uint();
    let bytes = match O::endianness() {
        Endianness::Little => uint_put_little_endian(&uint),
        Endianness::Big => uint_put_big_endian(&uint),
    };
    proof {
        lemma_bytes_of_value(bytes@, O::order());
    }
    write_all(w, bytes.as_slice());
}

/// The length that a 32-bit prefix at the start of `b` declares.
pub open spec fn declared_len(b: Seq<u8>, order: Endianness) -> nat {
    value_of(b.subrange(0, 4), order)
}

/// The bytes that stand for the block `a`: its length in 32 bits, then `a`.
pub open spec fn block_encoding(a: Seq<u8>, order: Endianness) -> Seq<u8> {
    bytes_of(a.len(), 4, order) + a
}

/// What `read_block` makes of the bytes `b`: the block behind the prefix,
/// when the prefix and as many bytes as it declares are there. A prefix that
/// declares more than is there has been read: its four bytes are consumed.
pub open spec fn block_decoding(b: Seq<u8>, order: Endianness) -> Decoded<Seq<u8>> {
    if b.len() < 4 {
        refused(CodecError::Truncated, b)
    } else if b.len() - 4 < declared_len(b, order) {
        refused(CodecError::Truncated, b.skip(4))
    } else {
        accepted(
            b.subrange(4, 4 + declared_len(b, order) as int),
            b.skip(4 + declared_len(b, order) as int),
        )
    }
}

/// Reads a block of bytes behind its length of 32 bits in the byte order `O`.
pub fn read_block<'a, O: ByteOrderExt>(r: &mut Reader<'a>) -> (res: Result<&'a [u8], CodecError>)
    ensures
        match res {
            Ok(a) => block_decoding(old(r)@, O::order()).result == Ok::<Seq<u8>, CodecError>(a@),
            Err(e) => block_decoding(old(r)@, O::order()).result == Err::<Seq<u8>, CodecError>(e),
        },
        final(r)@ == block_decoding(old(r)@, O::order()).rest,
{
    let len = read_u32::<O>(r)?;
    proof {
        lemma_radix_values();
        lemma_value_bound(old(r)@.subrange(0, 4), O::order());
    }
    let bytes = r.take(len as usize)?;
    assert(bytes@ =~= old(r)@.subrange(4, 4 + len));
    assert(r@ =~= old(r)@.skip(4 + len));
    Ok(bytes)
}

/// Appends a block of bytes behind its length of 32 bits in the byte order
/// `O`, or leaves `w` as it is when the length takes more than 32 bits.
pub fn write_block<O: ByteOrderExt>(w: &mut Vec<u8>, a: &[u8]) -> (r: Result<(), CodecError>)
    ensures
        match r {
            Ok(_) => a@.len() <= u32::MAX && final(w)@ == old(w)@ + block_encoding(
                a@,
                O::order(),
            ),
            Err(e) => a@.len() > u32::MAX && e == CodecError::FieldTooLarge && final(w)@ == old(
                w,
            )@,
        },
{
    if a.len() > u32::MAX as usize {
        return Err(CodecError::FieldTooLarge);
    }
    write_u32::<O>(w, a.len() as u32);
    write_all(w, a);
    assert(w@ =~= old(w)@ + block_encoding(a@, O::order()));
    Ok(())
}

/// Decoding the bytes of a block gives the block back and leaves what
/// follows them.
pub proof fn lemma_block_decoding_of_encoding(a: Seq<u8>, order: Endianness, rest: Seq<u8>)
    requires
        a.len() <= u32::MAX,
    ensures
        block_decoding(block_encoding(a, order) + rest, order) == accepted(a, rest),
{
    let all = block_encoding(a, order) + rest;
    lemma_radix_values();
    lemma_bytes_len(a.len(), 4, order);
    lemma_value_of_bytes(a.len(), 4, order);
    assert(all.subrange(0, 4) =~= bytes_of(a.len(), 4, order));
    assert(all.subrange(4, 4 + a.len() as int) =~= a);
    assert(all.skip(4 + a.len() as int) =~= rest);
}

/// A block that decoding accepts is no longer than 32 bits can say, and its
/// bytes with what is left unread are the bytes that were there.
pub proof fn lemma_block_encoding_of_decoding(b: Seq<u8>, order: Endianness)
    requires
        block_decoding(b, order).result is Ok,
    ensures
        block_decoding(b, order).result->Ok_0.len() <= u32::MAX,
        block_encoding(block_decoding(b, order).result->Ok_0, order) + block_decoding(
            b,
            order,
        ).rest == b,
{
    let n = declared_len(b, order);
    lemma_radix_values();
    lemma_value_bound(b.subrange(0, 4), order);
    lemma_bytes_of_value(b.subrange(0, 4), order);
    assert(b.subrange(0, 4) + b.subrange(4, 4 + n as int) + b.skip(4 + n as int) =~= b);
}

/// The length of the suffix that is split off a trailing block: a key of 32
/// bytes and a signature of 64.
pub const SUFFIX_LEN: usize = 96;

/// A trailing block split into what stands before its last 96 bytes and
/// those 96 bytes, when it has that many.
pub open spec fn suffix_split(block: Seq<u8>) -> Result<(Seq<u8>, Seq<u8>), CodecError> {
    if block.len() < SUFFIX_LEN {
        Err(CodecError::MalformedTrailingData)
    } else {
        Ok(
            (
                block.subrange(0, block.len() - SUFFIX_LEN),
                block.skip(block.len() - SUFFIX_LEN),
            ),
        )
    }
}

/// Splits a trailing block before its last 96 bytes, or fails when it is
/// shorter than that.
pub fn split_suffix(block: &[u8]) -> (res: Result<(Vec<u8>, Vec<u8>), CodecError>)
    ensures
        match res {
            Ok((front, suffix)) => suffix_split(block@) == Ok::<(Seq<u8>, Seq<u8>), CodecError>(
                (front@, suffix@),
            ),
            Err(e) => suffix_split(block@) == Err::<(Seq<u8>, Seq<u8>), CodecError>(e),
        },
{
    if block.len() < SUFFIX_LEN {
        return Err(CodecError::MalformedTrailingData);
    }
    let at = block.len() - SUFFIX_LEN;
    let front = slice_to_vec(slice_subrange(block, 0, at));
    let suffix = slice_to_vec(slice_subrange(block, at, block.len()));
    Ok((front, suffix))
}

/// Splitting a block that ends in a suffix of 96 bytes gives the two parts back.
pub proof fn lemma_suffix_split_of_concat(front: Seq<u8>, suffix: Seq<u8>)
    requires
        suffix.len() == SUFFIX_LEN,
    ensures
        suffix_split(front + suffix) == Ok::<(Seq<u8>, Seq<u8>), CodecError>((front, suffix)),
{
    let block = front + suffix;
    assert(block.subrange(0, block.len() - SUFFIX_LEN) =~= front);
    assert(block.skip(block.len() - SUFFIX_LEN) =~= suffix);
}

/// Decoding the bytes of a 16-bit integer gives the integer back and leaves
/// what follows them.
pub proof fn lemma_u16_decoding_of_encoding(n: u16, order: Endianness, rest: Seq<u8>)
    ensures
        u16_decoding(bytes_of(n as nat, 2, order) + rest, order) == accepted(n, rest),
{
    lemma_radix_values();
    lemma_bytes_len(n as nat, 2, order);
    lemma_value_of_bytes(n as nat, 2, order);
    lemma_skip_prefix(bytes_of(n as nat, 2, order), rest);
}

/// Decoding the bytes of a field element gives the element back and leaves
/// what follows them.
pub proof fn lemma_num_decoding_of_encoding<F: PrimeField>(
    v: nat,
    order: Endianness,
    rest: Seq<u8>,
)
    requires
        v < F::modulus(),
    ensures
        num_decoding::<F>(num_encoding(v, order) + rest, order) == accepted(v, rest),
{
    F::lemma_modulus_fits();
    lemma_bytes_len(v, 32, order);
    lemma_value_of_bytes(v, 32, order);
    lemma_skip_prefix(num_encoding(v, order), rest);
}

/// Encoding what 32 bytes decode to gives those bytes back, in the byte order
/// they were read in.
pub proof fn lemma_num_encoding_of_decoding<F: PrimeField>(b: Seq<u8>, order: Endianness)
    requires
        num_decoding::<F>(b, order).result is Ok,
    ensures
        num_encoding(num_decoding::<F>(b, order).result->Ok_0, order) == b.subrange(0, 32),
        num_encoding(num_decoding::<F>(b, order).result->Ok_0, order) + num_decoding::<F>(
            b,
            order,
        ).rest == b,
{
    lemma_bytes_of_value(b.subrange(0, 32), order);
    assert(b.subrange(0, 32) + b.skip(32) =~= b);
}

} // verus!
