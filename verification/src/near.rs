//! The layout of the account chain: no header, little-endian integers, and a
//! length prefix of 32 bits before the token identifier and before the memo.
//! The extra data is whatever follows the memo.
use byteorder::LittleEndian;
use vstd::prelude::*;
use vstd::slice::slice_to_vec;
use vstd::utf8::{decode_utf8, encode_utf8, encode_utf8_decode_utf8, encode_utf8_valid_utf8, valid_utf8};

use crate::bytes::lemma_skip_prefix;
use crate::error::CodecError;
use crate::field::PrimeField;
use crate::proofs::Proof;
use crate::utils::{
    accepted, block_decoding, block_encoding, lemma_block_decoding_of_encoding,
    lemma_num_decoding_of_encoding, num_decoding, num_encoding, read_block, read_num, refused,
    take_decoding, write_all, write_block, write_num, Decoded, Endianness, Reader,
};
use crate::{TxData, TxDataView, TxType};

verus! {

/// `String::from_utf8` of std: the string whose bytes are `bytes`, when
/// they are valid UTF-8, and nothing when they are not.
#[verifier::external_body]
fn string_from_utf8(bytes: Vec<u8>) -> (r: Option<String>)
    ensures
        r is Some <==> valid_utf8(bytes@),
        r is Some ==> encode_utf8(r->0@) == bytes@,
{
    String::from_utf8(bytes).ok()
}

/// The bytes that stand for a string: its UTF-8 bytes as a block.
pub open spec fn string_encoding(s: Seq<char>) -> Seq<u8> {
    block_encoding(encode_utf8(s), Endianness::Little)
}

/// What `read_borsh_string` makes of the bytes `b`: the string at their
/// start, when a block is there and holds valid UTF-8. A block that is
/// refused for its bytes has been read.
pub open spec fn string_decoding(b: Seq<u8>) -> Decoded<Seq<char>> {
    let block = block_decoding(b, Endianness::Little);
    if block.result is Err {
        block.failed()
    } else if !valid_utf8(block.result->Ok_0) {
        refused(CodecError::InvalidUtf8, block.rest)
    } else {
        accepted(decode_utf8(block.result->Ok_0), block.rest)
    }
}

/// Whether `write` can express every length in `d`: the token identifier's
/// and the memo's in 32 bits each, the proofs' own in theirs.
pub open spec fn fits<P: Proof>(d: TxDataView<P::V>) -> bool {
    &&& encode_utf8(d.token_id).len() <= u32::MAX
    &&& d.memo.len() <= u32::MAX
    &&& P::fits(d.proof)
    &&& P::fits(d.tree_proof)
}

/// The kind in one byte, the memo as a block, and the extra data.
pub open spec fn tail_encoding<P: Proof>(d: TxDataView<P::V>) -> Seq<u8> {
    seq![d.tx_type.spec_code() as u8] + (block_encoding(d.memo, Endianness::Little)
        + d.extra_data)
}

/// The bytes that stand for the record `d`.
pub open spec fn encoding<P: Proof>(d: TxDataView<P::V>) -> Seq<u8> {
    num_encoding(d.nullifier, Endianness::Little) + (num_encoding(
        d.out_commit,
        Endianness::Little,
    ) + (string_encoding(d.token_id) + (num_encoding(d.delta, Endianness::Little) + (P::encoding(
        d.proof,
        Endianness::Little,
    ) + (num_encoding(d.root_after, Endianness::Little) + (P::encoding(
        d.tree_proof,
        Endianness::Little,
    ) + tail_encoding::<P>(d)))))))
}

/// What `read` makes of the bytes `t` behind the second proof: the kind in
/// one byte, the memo and the extra data. The kind is checked as soon as it
/// is read. Where it succeeds nothing is left unread.
pub open spec fn tail_decoding(t: Seq<u8>) -> Decoded<(TxType, Seq<u8>, Seq<u8>)> {
    let code = take_decoding(t, 1);
    let kind = TxType::spec_from_code(code.result->Ok_0[0] as u16);
    let memo = block_decoding(code.rest, Endianness::Little);
    if code.result is Err {
        code.failed()
    } else if kind is Err {
        refused(kind->Err_0, code.rest)
    } else if memo.result is Err {
        memo.failed()
    } else {
        accepted((kind->Ok_0, memo.result->Ok_0, memo.rest), Seq::empty())
    }
}

/// What `read` makes of the bytes `b0`: the record that they stand for, or
/// the first reason why they stand for none, and the bytes that are left
/// unread either way. The fields are read one behind the other, each from
/// what the one before it left unread, and the first that fails decides.
pub open spec fn decoding<Fr: PrimeField, P: Proof>(b0: Seq<u8>) -> Decoded<TxDataView<P::V>> {
    let nullifier = num_decoding::<Fr>(b0, Endianness::Little);
    let out_commit = num_decoding::<Fr>(nullifier.rest, Endianness::Little);
    let token_id = string_decoding(out_commit.rest);
    let delta = num_decoding::<Fr>(token_id.rest, Endianness::Little);
    let proof = P::decoding(delta.rest, Endianness::Little);
    let root_after = num_decoding::<Fr>(proof.rest, Endianness::Little);
    let tree_proof = P::decoding(root_after.rest, Endianness::Little);
    let tail = tail_decoding(tree_proof.rest);
    if nullifier.result is Err {
        nullifier.failed()
    } else if out_commit.result is Err {
        out_commit.failed()
    } else if token_id.result is Err {
        token_id.failed()
    } else if delta.result is Err {
        delta.failed()
    } else if proof.result is Err {
        proof.failed()
    } else if root_after.result is Err {
        root_after.failed()
    } else if tree_proof.result is Err {
        tree_proof.failed()
    } else if tail.result is Err {
        tail.failed()
    } else {
        accepted(
            TxDataView {
                tx_type: tail.result->Ok_0.0,
                proof: proof.result->Ok_0,
                tree_proof: tree_proof.result->Ok_0,
                root_after: root_after.result->Ok_0,
                delta: delta.result->Ok_0,
                out_commit: out_commit.result->Ok_0,
                nullifier: nullifier.result->Ok_0,
                memo: tail.result->Ok_0.1,
                extra_data: tail.result->Ok_0.2,
                token_id: token_id.result->Ok_0,
            },
            tail.rest,
        )
    }
}

/// Reads a record to the end of the input. A read that fails has consumed
/// what it looked at before it failed.
pub fn read<Fr: PrimeField, P: Proof>(r: &mut Reader) -> (res: Result<TxData<Fr, P>, CodecError>)
    ensures
        match res {
            Ok(data) => decoding::<Fr, P>(old(r)@).result == Ok::<TxDataView<P::V>, CodecError>(
                data@,
            ),
            Err(e) => decoding::<Fr, P>(old(r)@).result == Err::<TxDataView<P::V>, CodecError>(e),
        },
        final(r)@ == decoding::<Fr, P>(old(r)@).rest,
{
    let nullifier = read_num::<LittleEndian, Fr>(r)?;
    let out_commit = read_num::<LittleEndian, Fr>(r)?;
    let token_id = read_borsh_string(r)?;
    let delta = read_num::<LittleEndian, Fr>(r)?;
    let tx_proof = P::read::<LittleEndian>(r)?;
    let root_after = read_num::<LittleEndian, Fr>(r)?;
    let tree_proof = P::read::<LittleEndian>(r)?;
    let kind = r.take(1)?;
    let tx_type = match TxType::try_from(kind[0] as u16) {
        Ok(tx_type) => tx_type,
        Err(e) => {
            return Err(e);
        },
    };
    let memo = read_borsh_array(r)?;
    let extra_data = slice_to_vec(r.take_rest());
    Ok(
        TxData {
            tx_type,
            proof: tx_proof,
            tree_proof,
            root_after,
            delta,
            out_commit,
            nullifier,
            memo,
            extra_data,
            token_id,
        },
    )
}

/// Appends the bytes of a record to `w`, or leaves `w` as it is when a
/// length in the record does not fit its prefix.
pub fn write<Fr: PrimeField, P: Proof>(data: &TxData<Fr, P>, w: &mut Vec<u8>) -> (r: Result<
    (),
    CodecError,
>)
    ensures
        TxData::<Fr, P>::canonical(data@),
        match r {
            Ok(_) => fits::<P>(data@) && final(w)@ == old(w)@ + encoding::<P>(data@),
            Err(e) => !fits::<P>(data@) && e == CodecError::FieldTooLarge && final(w)@ == old(
                w,
            )@,
        },
{
    let mut buf: Vec<u8> = Vec::new();
    write_num::<LittleEndian, Fr>(&mut buf, &data.nullifier);
    write_num::<LittleEndian, Fr>(&mut buf, &data.out_commit);
    let token = write_borsh_string(&mut buf, data.token_id.as_str());
    write_num::<LittleEndian, Fr>(&mut buf, &data.delta);
    let first = data.proof.write::<LittleEndian>(&mut buf);
    write_num::<LittleEndian, Fr>(&mut buf, &data.root_after);
    let second = data.tree_proof.write::<LittleEndian>(&mut buf);
    let ghost head = buf@;
    let code = data.tx_type.code();
    buf.push(code as u8);
    let memo = write_borsh_array(&mut buf, data.memo.as_slice());
    if token.is_err() || first.is_err() || second.is_err() || memo.is_err() {
        return Err(CodecError::FieldTooLarge);
    }
    write_all(&mut buf, data.extra_data.as_slice());
    assert(buf@ =~= head + tail_encoding::<P>(data@));
    assert(buf@ =~= encoding::<P>(data@));
    write_all(w, buf.as_slice());
    Ok(())
}

/// Reads a string: a block of bytes that are valid UTF-8. A block that is
/// refused for its bytes has been consumed.
fn read_borsh_string(r: &mut Reader) -> (res: Result<String, CodecError>)
    ensures
        match res {
            Ok(s) => string_decoding(old(r)@).result == Ok::<Seq<char>, CodecError>(s@),
            Err(e) => string_decoding(old(r)@).result == Err::<Seq<char>, CodecError>(e),
        },
        final(r)@ == string_decoding(old(r)@).rest,
{
    let bytes = read_block::<LittleEndian>(r)?;
    match string_from_utf8(slice_to_vec(bytes)) {
        Some(s) => {
            proof {
                encode_utf8_decode_utf8(s@);
            }
            Ok(s)
        },
        None => Err(CodecError::InvalidUtf8),
    }
}

/// Appends a string: its UTF-8 bytes as a block.
fn write_borsh_string(w: &mut Vec<u8>, s: &str) -> (r: Result<(), CodecError>)
    ensures
        match r {
            Ok(_) => encode_utf8(s@).len() <= u32::MAX && final(w)@ == old(w)@ + string_encoding(
                s@,
            ),
            Err(e) => encode_utf8(s@).len() > u32::MAX && e == CodecError::FieldTooLarge
                && final(w)@ == old(w)@,
        },
{
    write_block::<LittleEndian>(w, s.as_bytes())
}

/// Reads a block of bytes.
fn read_borsh_array(r: &mut Reader) -> (res: Result<Vec<u8>, CodecError>)
    ensures
        match res {
            Ok(a) => block_decoding(old(r)@, Endianness::Little).result == Ok::<
                Seq<u8>,
                CodecError,
            >(a@),
            Err(e) => block_decoding(old(r)@, Endianness::Little).result == Err::<
                Seq<u8>,
                CodecError,
            >(e),
        },
        final(r)@ == block_decoding(old(r)@, Endianness::Little).rest,
{
    let bytes = read_block::<LittleEndian>(r)?;
    Ok(slice_to_vec(bytes))
}

/// Appends a block of bytes.
fn write_borsh_array(w: &mut Vec<u8>, s: &[u8]) -> (r: Result<(), CodecError>)
    ensures
        match r {
            Ok(_) => s@.len() <= u32::MAX && final(w)@ == old(w)@ + block_encoding(
                s@,
                Endianness::Little,
            ),
            Err(e) => s@.len() > u32::MAX && e == CodecError::FieldTooLarge && final(w)@ == old(
                w,
            )@,
        },
{
    write_block::<LittleEndian>(w, s)
}

/// Decoding the bytes of a string gives the string back and leaves what
/// follows them.
pub proof fn lemma_string_decoding_of_encoding(s: Seq<char>, rest: Seq<u8>)
    requires
        encode_utf8(s).len() <= u32::MAX,
    ensures
        string_decoding(string_encoding(s) + rest) == accepted(s, rest),
{
    lemma_block_decoding_of_encoding(encode_utf8(s), Endianness::Little, rest);
    encode_utf8_valid_utf8(s);
    encode_utf8_decode_utf8(s);
}

/// Decoding the bytes of a kind, a memo and extra data gives the three back
/// and leaves nothing unread.
pub proof fn lemma_tail_decoding_of_encoding<P: Proof>(d: TxDataView<P::V>)
    requires
        d.memo.len() <= u32::MAX,
    ensures
        tail_decoding(tail_encoding::<P>(d)) == accepted(
            (d.tx_type, d.memo, d.extra_data),
            Seq::empty(),
        ),
{
    let code = seq![d.tx_type.spec_code() as u8];
    let t1 = block_encoding(d.memo, Endianness::Little) + d.extra_data;
    lemma_skip_prefix(code, t1);
    lemma_block_decoding_of_encoding(d.memo, Endianness::Little, d.extra_data);
}

/// Decoding the bytes of a record gives the record back, token identifier
/// and all, and leaves nothing unread.
pub proof fn lemma_decoding_of_encoding<Fr: PrimeField, P: Proof>(d: TxDataView<P::V>)
    requires
        TxData::<Fr, P>::canonical(d),
        fits::<P>(d),
    ensures
        decoding::<Fr, P>(encoding::<P>(d)) == accepted(d, Seq::empty()),
{
    let little = Endianness::Little;
    let t = tail_encoding::<P>(d);
    let s6 = P::encoding(d.tree_proof, little) + t;
    let s5 = num_encoding(d.root_after, little) + s6;
    let s4 = P::encoding(d.proof, little) + s5;
    let s3 = num_encoding(d.delta, little) + s4;
    let s2 = string_encoding(d.token_id) + s3;
    let s1 = num_encoding(d.out_commit, little) + s2;
    lemma_num_decoding_of_encoding::<Fr>(d.nullifier, little, s1);
    lemma_num_decoding_of_encoding::<Fr>(d.out_commit, little, s2);
    lemma_string_decoding_of_encoding(d.token_id, s3);
    lemma_num_decoding_of_encoding::<Fr>(d.delta, little, s4);
    P::lemma_decoding_of_encoding(d.proof, little, s5);
    lemma_num_decoding_of_encoding::<Fr>(d.root_after, little, s6);
    P::lemma_decoding_of_encoding(d.tree_proof, little, t);
    lemma_tail_decoding_of_encoding::<P>(d);
}

} // verus!
