//! The layout of the EVM chain: a four-byte selector, big-endian integers, a
//! length prefix of 16 bits before the memo, and the extra data as whatever
//! follows the memo.
use byteorder::BigEndian;
use vstd::prelude::*;
use vstd::slice::slice_to_vec;

use crate::bytes::{bytes_of, lemma_skip_prefix};
use crate::error::CodecError;
use crate::field::PrimeField;
use crate::proofs::Proof;
use crate::utils::{
    accepted, lemma_num_decoding_of_encoding, lemma_u16_decoding_of_encoding, num_decoding,
    num_encoding, read_num, read_u16, refused, take_decoding, u16_decoding, write_all, write_num,
    write_u16, Decoded, Endianness, Reader,
};
use crate::{TxData, TxDataView, TxType};

verus! {

/// The four bytes that every record starts with.
pub open spec fn selector() -> Seq<u8> {
    seq![0x8au8, 0x40u8, 0x68u8, 0xddu8]
}

/// Whether `write` can express every length in `d`: the memo's in 16 bits,
/// the proofs' own in theirs.
pub open spec fn fits<P: Proof>(d: TxDataView<P::V>) -> bool {
    &&& d.memo.len() <= u16::MAX
    &&& P::fits(d.proof)
    &&& P::fits(d.tree_proof)
}

/// The kind, the memo behind its length, and the extra data.
pub open spec fn tail_encoding<P: Proof>(d: TxDataView<P::V>) -> Seq<u8> {
    bytes_of(d.tx_type.spec_code() as nat, 2, Endianness::Big) + (bytes_of(
        d.memo.len(),
        2,
        Endianness::Big,
    ) + (d.memo + d.extra_data))
}

/// The bytes that stand for the record `d`.
pub open spec fn encoding<P: Proof>(d: TxDataView<P::V>) -> Seq<u8> {
    selector() + (num_encoding(d.nullifier, Endianness::Big) + (num_encoding(
        d.out_commit,
        Endianness::Big,
    ) + (num_encoding(d.delta, Endianness::Big) + (P::encoding(d.proof, Endianness::Big) + (
    num_encoding(d.root_after, Endianness::Big) + (P::encoding(d.tree_proof, Endianness::Big)
        + tail_encoding::<P>(d)))))))
}

/// What `read` makes of the bytes `t` behind the second proof: the kind, the
/// memo and the extra data. The kind is checked as soon as it is read, before
/// the memo's length. Where it succeeds nothing is left unread.
pub open spec fn tail_decoding(t: Seq<u8>) -> Decoded<(TxType, Seq<u8>, Seq<u8>)> {
    let code = u16_decoding(t, Endianness::Big);
    let kind = TxType::spec_from_code(code.result->Ok_0);
    let memo_len = u16_decoding(code.rest, Endianness::Big);
    let memo = take_decoding(memo_len.rest, memo_len.result->Ok_0 as nat);
    if code.result is Err {
        code.failed()
    } else if kind is Err {
        refused(kind->Err_0, code.rest)
    } else if memo_len.result is Err {
        memo_len.failed()
    } else if memo.result is Err {
        memo.failed()
    } else {
        accepted((kind->Ok_0, memo.result->Ok_0, memo.rest), Seq::empty())
    }
}

/// What `read` makes of the bytes `b0` behind the selector. The fields are
/// read one behind the other, each from what the one before it left unread,
/// and the first that fails decides.
pub open spec fn fields_decoding<Fr: PrimeField, P: Proof>(b0: Seq<u8>) -> Decoded<
    TxDataView<P::V>,
> {
    let nullifier = num_decoding::<Fr>(b0, Endianness::Big);
    let out_commit = num_decoding::<Fr>(nullifier.rest, Endianness::Big);
    let delta = num_decoding::<Fr>(out_commit.rest, Endianness::Big);
    let proof = P::decoding(delta.rest, Endianness::Big);
    let root_after = num_decoding::<Fr>(proof.rest, Endianness::Big);
    let tree_proof = P::decoding(root_after.rest, Endianness::Big);
    let tail = tail_decoding(tree_proof.rest);
    if nullifier.result is Err {
        nullifier.failed()
    } else if out_commit.result is Err {
        out_commit.failed()
    } else if delta.result is Err {
        delta.failed()
    } else if proof.result is Err {
        proof.failed()
    } else if root_after.result is Err {
        root_after.failed()
    } else if tree_proof.result is Err {
        tree_proof.failed()
    } else if tail.result is Err {
        tail.failed()
    } else {
        accepted(
            TxDataView {
                tx_type: tail.result->Ok_0.0,
                proof: proof.result->Ok_0,
                tree_proof: tree_proof.result->Ok_0,
                root_after: root_after.result->Ok_0,
                delta: delta.result->Ok_0,
                out_commit: out_commit.result->Ok_0,
                nullifier: nullifier.result->Ok_0,
                memo: tail.result->Ok_0.1,
                extra_data: tail.result->Ok_0.2,
                token_id: Seq::empty(),
            },
            tail.rest,
        )
    }
}

/// What `read` makes of the bytes `b`: the record that they stand for, or
/// the first reason why they stand for none, and the bytes that are left
/// unread either way.
///
/// The selector is checked before anything else is looked at. A selector
/// that is refused has been read: its four bytes are consumed, and no more.
pub open spec fn decoding<Fr: PrimeField, P: Proof>(b: Seq<u8>) -> Decoded<TxDataView<P::V>> {
    if b.len() < 4 {
        refused(CodecError::Truncated, b)
    } else if b.subrange(0, 4) != selector() {
        refused(CodecError::InvalidHeader, b.skip(4))
    } else {
        fields_decoding::<Fr, P>(b.skip(4))
    }
}

/// Reads a record to the end of the input. A read that fails has consumed
/// what it looked at before it failed.
pub fn read<Fr: PrimeField, P: Proof>(r: &mut Reader) -> (res: Result<TxData<Fr, P>, CodecError>)
    ensures
        match res {
            Ok(data) => decoding::<Fr, P>(old(r)@).result == Ok::<TxDataView<P::V>, CodecError>(
                data@,
            ),
            Err(e) => decoding::<Fr, P>(old(r)@).result == Err::<TxDataView<P::V>, CodecError>(e),
        },
        final(r)@ == decoding::<Fr, P>(old(r)@).rest,
{
    let head = r.take(4)?;
    if !(head[0] == 0x8a && head[1] == 0x40 && head[2] == 0x68 && head[3] == 0xdd) {
        assert(head@[0] != selector()[0] || head@[1] != selector()[1] || head@[2] != selector()[2]
            || head@[3] != selector()[3]);
        return Err(CodecError::InvalidHeader);
    }
    assert(head@ =~= selector());
    let nullifier = read_num::<BigEndian, Fr>(r)?;
    let out_commit = read_num::<BigEndian, Fr>(r)?;
    let delta = read_num::<BigEndian, Fr>(r)?;
    let proof = P::read::<BigEndian>(r)?;
    let root_after = read_num::<BigEndian, Fr>(r)?;
    let tree_proof = P::read::<BigEndian>(r)?;
    let code = read_u16::<BigEndian>(r)?;
    let tx_type = match TxType::try_from(code) {
        Ok(tx_type) => tx_type,
        Err(e) => {
            return Err(e);
        },
    };
    let memo_len = read_u16::<BigEndian>(r)?;
    let memo = slice_to_vec(r.take(memo_len as usize)?);
    let extra_data = slice_to_vec(r.take_rest());
    Ok(
        TxData {
            nullifier,
            out_commit,
            delta,
            proof,
            root_after,
            tree_proof,
            tx_type,
            memo,
            extra_data,
            token_id: String::new(),
        },
    )
}

/// Appends the bytes of a record to `w`, or leaves `w` as it is when a
/// length in the record does not fit its prefix.
pub fn write<Fr: PrimeField, P: Proof>(data: &TxData<Fr, P>, w: &mut Vec<u8>) -> (r: Result<
    (),
    CodecError,
>)
    ensures
        TxData::<Fr, P>::canonical(data@),
        match r {
            Ok(_) => fits::<P>(data@) && final(w)@ == old(w)@ + encoding::<P>(data@),
            Err(e) => !fits::<P>(data@) && e == CodecError::FieldTooLarge && final(w)@ == old(
                w,
            )@,
        },
{
    let mut buf: Vec<u8> = Vec::new();
    buf.push(0x8a);
    buf.push(0x40);
    buf.push(0x68);
    buf.push(0xdd);
    write_num::<BigEndian, Fr>(&mut buf, &data.nullifier);
    write_num::<BigEndian, Fr>(&mut buf, &data.out_commit);
    write_num::<BigEndian, Fr>(&mut buf, &data.delta);
    let first = data.proof.write::<BigEndian>(&mut buf);
    write_num::<BigEndian, Fr>(&mut buf, &data.root_after);
    let second = data.tree_proof.write::<BigEndian>(&mut buf);
    if first.is_err() || second.is_err() || data.memo.len() > u16::MAX as usize {
        return Err(CodecError::FieldTooLarge);
    }
    let ghost head = buf@;
    write_u16::<BigEndian>(&mut buf, data.tx_type.code());
    write_u16::<BigEndian>(&mut buf, data.memo.len() as u16);
    write_all(&mut buf, data.memo.as_slice());
    write_all(&mut buf, data.extra_data.as_slice());
    assert(buf@ =~= head + tail_encoding::<P>(data@));
    assert(buf@ =~= encoding::<P>(data@));
    write_all(w, buf.as_slice());
    Ok(())
}

/// Decoding the bytes of a kind, a memo and extra data gives the three back
/// and leaves nothing unread.
pub proof fn lemma_tail_decoding_of_encoding<P: Proof>(d: TxDataView<P::V>)
    requires
        d.memo.len() <= u16::MAX,
    ensures
        tail_decoding(tail_encoding::<P>(d)) == accepted(
            (d.tx_type, d.memo, d.extra_data),
            Seq::empty(),
        ),
{
    let big = Endianness::Big;
    let t2 = d.memo + d.extra_data;
    let t1 = bytes_of(d.memo.len(), 2, big) + t2;
    lemma_u16_decoding_of_encoding(d.tx_type.spec_code(), big, t1);
    lemma_u16_decoding_of_encoding(d.memo.len() as u16, big, t2);
    lemma_skip_prefix(d.memo, d.extra_data);
}

/// Decoding the bytes of a record gives the record back, but for the token
/// identifier, which this layout does not carry, and leaves nothing unread.
pub proof fn lemma_decoding_of_encoding<Fr: PrimeField, P: Proof>(d: TxDataView<P::V>)
    requires
        TxData::<Fr, P>::canonical(d),
        fits::<P>(d),
    ensures
        decoding::<Fr, P>(encoding::<P>(d)) == accepted(d.without_token(), Seq::empty()),
{
    let big = Endianness::Big;
    let t = tail_encoding::<P>(d);
    let s6 = P::encoding(d.tree_proof, big) + t;
    let s5 = num_encoding(d.root_after, big) + s6;
    let s4 = P::encoding(d.proof, big) + s5;
    let s3 = num_encoding(d.delta, big) + s4;
    let s2 = num_encoding(d.out_commit, big) + s3;
    let s1 = num_encoding(d.nullifier, big) + s2;
    lemma_skip_prefix(selector(), s1);
    lemma_num_decoding_of_encoding::<Fr>(d.nullifier, big, s2);
    lemma_num_decoding_of_encoding::<Fr>(d.out_commit, big, s3);
    lemma_num_decoding_of_encoding::<Fr>(d.delta, big, s4);
    P::lemma_decoding_of_encoding(d.proof, big, s5);
    lemma_num_decoding_of_encoding::<Fr>(d.root_after, big, s6);
    P::lemma_decoding_of_encoding(d.tree_proof, big, t);
    lemma_tail_decoding_of_encoding::<P>(d);
}

/// A wrong selector is refused as `InvalidHeader`, whatever the bytes
/// behind it are, and none of those bytes is read.
pub proof fn lemma_header_checked_first<Fr: PrimeField, P: Proof>(b: Seq<u8>)
    requires
        b.len() >= 4,
        b.subrange(0, 4) != selector(),
    ensures
        decoding::<Fr, P>(b) == refused::<TxDataView<P::V>>(CodecError::InvalidHeader, b.skip(4)),
{
}

} // verus!
