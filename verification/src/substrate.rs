//! The layout of the substrate chain: big-endian integers, a placeholder for
//! an asset identifier, and the memo and the extra data as one trailing block
//! without a length.
//!
//! `write` puts four zero bytes, reserved for a selector, in front of the
//! record. `read` consumes no selector: it starts at the nullifier, and so
//! reads what follows those four bytes.
//!
//! The trailing block of a deposit is the memo, and there is no extra data.
//! The trailing block of any other kind ends in 96 bytes of extra data; the
//! memo is what stands before them.
use byteorder::BigEndian;
use vstd::prelude::*;
use vstd::slice::slice_to_vec;

use crate::bytes::{bytes_of, lemma_bytes_len, lemma_skip_prefix};
use crate::error::CodecError;
use crate::field::{Num, PrimeField};
use crate::proofs::Proof;
use crate::utils::{
    accepted, lemma_num_decoding_of_encoding, lemma_suffix_split_of_concat,
    lemma_u16_decoding_of_encoding, num_decoding, num_encoding, read_num, read_u16, refused,
    split_suffix, suffix_split, take_decoding, u16_decoding, write_all, write_num, write_u16, Decoded,
    Endianness, Reader, SUFFIX_LEN,
};
use crate::{TxData, TxDataView, TxType};

verus! {

/// The four bytes that `write` puts in front of a record.
pub open spec fn selector() -> Seq<u8> {
    seq![0u8, 0u8, 0u8, 0u8]
}

/// Whether `write` can express every length in `d`: the proofs' own.
pub open spec fn fits<P: Proof>(d: TxDataView<P::V>) -> bool {
    &&& P::fits(d.proof)
    &&& P::fits(d.tree_proof)
}

/// Whether the extra data of `d` is what this layout can tell from the memo:
/// nothing in a deposit, 96 bytes in any other kind.
pub open spec fn framed<P: Proof>(d: TxDataView<P::V>) -> bool {
    if d.tx_type == TxType::Deposit {
        d.extra_data.len() == 0
    } else {
        d.extra_data.len() == SUFFIX_LEN
    }
}

/// The memo and the extra data that a trailing block stands for in a
/// transaction of the given kind.
pub open spec fn trailing_decoding(tx_type: TxType, block: Seq<u8>) -> Result<
    (Seq<u8>, Seq<u8>),
    CodecError,
> {
    if tx_type == TxType::Deposit {
        Ok((block, Seq::empty()))
    } else {
        suffix_split(block)
    }
}

/// The kind in 16 bits, then the memo and the extra data with nothing
/// between them.
pub open spec fn tail_encoding<P: Proof>(d: TxDataView<P::V>) -> Seq<u8> {
    bytes_of(d.tx_type.spec_code() as nat, 2, Endianness::Big) + (d.memo + d.extra_data)
}

/// The bytes that stand for the record `d` behind the selector. The asset
/// identifier is written as zero.
pub open spec fn fields_encoding<P: Proof>(d: TxDataView<P::V>) -> Seq<u8> {
    num_encoding(d.nullifier, Endianness::Big) + (num_encoding(d.out_commit, Endianness::Big) + (
    num_encoding(0, Endianness::Big) + (num_encoding(d.delta, Endianness::Big) + (P::encoding(
        d.proof,
        Endianness::Big,
    ) + (P::encoding(d.tree_proof, Endianness::Big) + (num_encoding(
        d.root_after,
        Endianness::Big,
    ) + tail_encoding::<P>(d)))))))
}

/// The bytes that `write` emits for the record `d`.
pub open spec fn encoding<P: Proof>(d: TxDataView<P::V>) -> Seq<u8> {
    selector() + fields_encoding::<P>(d)
}

/// What `read` makes of the bytes `t` behind the root: the kind, the memo
/// and the extra data. The kind is checked as soon as it is read. The
/// trailing block is read whole before it is split, so nothing is left
/// unread once the kind is accepted.
pub open spec fn tail_decoding(t: Seq<u8>) -> Decoded<(TxType, Seq<u8>, Seq<u8>)> {
    let code = u16_decoding(t, Endianness::Big);
    let kind = TxType::spec_from_code(code.result->Ok_0);
    let trailing = trailing_decoding(kind->Ok_0, code.rest);
    if code.result is Err {
        code.failed()
    } else if kind is Err {
        refused(kind->Err_0, code.rest)
    } else if trailing is Err {
        refused(trailing->Err_0, Seq::empty())
    } else {
        accepted((kind->Ok_0, trailing->Ok_0.0, trailing->Ok_0.1), Seq::empty())
    }
}

/// What `read` makes of the bytes `b0`: the record that they stand for, or
/// the first reason why they stand for none, and the bytes that are left
/// unread either way. The fields are read one behind the other, each from
/// what the one before it left unread, and the first that fails decides; the 32 bytes of
/// the asset identifier are passed over, whatever they hold.
pub open spec fn decoding<Fr: PrimeField, P: Proof>(b0: Seq<u8>) -> Decoded<TxDataView<P::V>> {
    let nullifier = num_decoding::<Fr>(b0, Endianness::Big);
    let out_commit = num_decoding::<Fr>(nullifier.rest, Endianness::Big);
    let asset_id = take_decoding(out_commit.rest, 32);
    let delta = num_decoding::<Fr>(asset_id.rest, Endianness::Big);
    let proof = P::decoding(delta.rest, Endianness::Big);
    let tree_proof = P::decoding(proof.rest, Endianness::Big);
    let root_after = num_decoding::<Fr>(tree_proof.rest, Endianness::Big);
    let tail = tail_decoding(root_after.rest);
    if nullifier.result is Err {
        nullifier.failed()
    } else if out_commit.result is Err {
        out_commit.failed()
    } else if asset_id.result is Err {
        asset_id.failed()
    } else if delta.result is Err {
        delta.failed()
    } else if proof.result is Err {
        proof.failed()
    } else if tree_proof.result is Err {
        tree_proof.failed()
    } else if root_after.result is Err {
        root_after.failed()
    } else if tail.result is Err {
        tail.failed()
    } else {
        accepted(
            TxDataView {
                tx_type: tail.result->Ok_0.0,
                proof: proof.result->Ok_0,
                tree_proof: tree_proof.result->Ok_0,
                root_after: root_after.result->Ok_0,
                delta: delta.result->Ok_0,
                out_commit: out_commit.result->Ok_0,
                nullifier: nullifier.result->Ok_0,
                memo: tail.result->Ok_0.1,
                extra_data: tail.result->Ok_0.2,
                token_id: Seq::empty(),
            },
            tail.rest,
        )
    }
}

/// Reads a record to the end of the input, which starts at the nullifier. A read that
/// fails has consumed what it looked at before it failed.
pub fn read<Fr: PrimeField, P: Proof>(r: &mut Reader) -> (res: Result<TxData<Fr, P>, CodecError>)
    ensures
        match res {
            Ok(data) => decoding::<Fr, P>(old(r)@).result == Ok::<TxDataView<P::V>, CodecError>(
                data@,
            ),
            Err(e) => decoding::<Fr, P>(old(r)@).result == Err::<TxDataView<P::V>, CodecError>(e),
        },
        final(r)@ == decoding::<Fr, P>(old(r)@).rest,
{
    let nullifier = read_num::<BigEndian, Fr>(r)?;
    let out_commit = read_num::<BigEndian, Fr>(r)?;
    let _asset_id = r.take(32)?;
    let delta = read_num::<BigEndian, Fr>(r)?;
    let proof = P::read::<BigEndian>(r)?;
    let tree_proof = P::read::<BigEndian>(r)?;
    let root_after = read_num::<BigEndian, Fr>(r)?;
    let code = read_u16::<BigEndian>(r)?;
    let tx_type = match TxType::try_from(code) {
        Ok(tx_type) => tx_type,
        Err(e) => {
            return Err(e);
        },
    };
    let block = r.take_rest();
    let (memo, extra_data) = match tx_type {
        TxType::Deposit => (slice_to_vec(block), Vec::new()),
        _ => split_suffix(block)?,
    };
    Ok(
        TxData {
            nullifier,
            out_commit,
            delta,
            proof,
            root_after,
            tree_proof,
            tx_type,
            memo,
            extra_data,
            token_id: String::new(),
        },
    )
}

/// Appends the selector and the bytes of a record to `w`, or leaves `w` as
/// it is when a length in a proof does not fit its prefix.
pub fn write<Fr: PrimeField, P: Proof>(data: &TxData<Fr, P>, w: &mut Vec<u8>) -> (r: Result<
    (),
    CodecError,
>)
    ensures
        TxData::<Fr, P>::canonical(data@),
        match r {
            Ok(_) => fits::<P>(data@) && final(w)@ == old(w)@ + encoding::<P>(data@),
            Err(e) => !fits::<P>(data@) && e == CodecError::FieldTooLarge && final(w)@ == old(
                w,
            )@,
        },
{
    let mut buf: Vec<u8> = Vec::new();
    buf.push(0);
    buf.push(0);
    buf.push(0);
    buf.push(0);
    write_num::<BigEndian, Fr>(&mut buf, &data.nullifier);
    write_num::<BigEndian, Fr>(&mut buf, &data.out_commit);
    write_num::<BigEndian, Fr>(&mut buf, &Num::zero());
    write_num::<BigEndian, Fr>(&mut buf, &data.delta);
    let first = data.proof.write::<BigEndian>(&mut buf);
    let second = data.tree_proof.write::<BigEndian>(&mut buf);
    write_num::<BigEndian, Fr>(&mut buf, &data.root_after);
    if first.is_err() || second.is_err() {
        return Err(CodecError::FieldTooLarge);
    }
    let ghost head = buf@;
    write_u16::<BigEndian>(&mut buf, data.tx_type.code());
    write_all(&mut buf, data.memo.as_slice());
    write_all(&mut buf, data.extra_data.as_slice());
    assert(buf@ =~= head + tail_encoding::<P>(data@));
    assert(buf@ =~= encoding::<P>(data@));
    write_all(w, buf.as_slice());
    Ok(())
}

/// Decoding the bytes of a kind, a memo and extra data gives the three back
/// and leaves nothing unread, when the extra data is what the kind asks for.
pub proof fn lemma_tail_decoding_of_encoding<P: Proof>(d: TxDataView<P::V>)
    requires
        framed::<P>(d),
    ensures
        tail_decoding(tail_encoding::<P>(d)) == accepted(
            (d.tx_type, d.memo, d.extra_data),
            Seq::empty(),
        ),
{
    lemma_u16_decoding_of_encoding(d.tx_type.spec_code(), Endianness::Big, d.memo + d.extra_data);
    if d.tx_type == TxType::Deposit {
        assert(d.memo + d.extra_data =~= d.memo);
        assert(d.extra_data =~= Seq::empty());
    } else {
        lemma_suffix_split_of_concat(d.memo, d.extra_data);
    }
}

/// Decoding what `write` emits behind its selector gives the record back,
/// but for the token identifier, which this layout does not carry, and
/// leaves nothing unread, when the extra data is what the kind asks for.
pub proof fn lemma_decoding_of_encoding<Fr: PrimeField, P: Proof>(d: TxDataView<P::V>)
    requires
        TxData::<Fr, P>::canonical(d),
        fits::<P>(d),
        framed::<P>(d),
    ensures
        encoding::<P>(d).skip(4) == fields_encoding::<P>(d),
        decoding::<Fr, P>(fields_encoding::<P>(d)) == accepted(d.without_token(), Seq::empty()),
{
    let big = Endianness::Big;
    let t = tail_encoding::<P>(d);
    let s6 = num_encoding(d.root_after, big) + t;
    let s5 = P::encoding(d.tree_proof, big) + s6;
    let s4 = P::encoding(d.proof, big) + s5;
    let s3 = num_encoding(d.delta, big) + s4;
    let s2 = num_encoding(0, big) + s3;
    let s1 = num_encoding(d.out_commit, big) + s2;
    Fr::lemma_modulus_fits();
    lemma_skip_prefix(selector(), fields_encoding::<P>(d));
    lemma_num_decoding_of_encoding::<Fr>(d.nullifier, big, s1);
    lemma_num_decoding_of_encoding::<Fr>(d.out_commit, big, s2);
    lemma_bytes_len(0, 32, big);
    lemma_skip_prefix(num_encoding(0, big), s3);
    lemma_num_decoding_of_encoding::<Fr>(d.delta, big, s4);
    P::lemma_decoding_of_encoding(d.proof, big, s5);
    P::lemma_decoding_of_encoding(d.tree_proof, big, s6);
    lemma_num_decoding_of_encoding::<Fr>(d.root_after, big, t);
    lemma_tail_decoding_of_encoding::<P>(d);
}

/// The trailing block of a transfer or a withdrawal that is shorter than 96
/// bytes is refused; one of exactly 96 bytes is all extra data and leaves the
/// memo empty. The trailing block of a deposit is never refused.
pub proof fn lemma_trailing_block(tx_type: TxType, block: Seq<u8>)
    ensures
        tx_type != TxType::Deposit && block.len() < SUFFIX_LEN ==> trailing_decoding(
            tx_type,
            block,
        ) == Err::<(Seq<u8>, Seq<u8>), CodecError>(CodecError::MalformedTrailingData),
        tx_type != TxType::Deposit && block.len() == SUFFIX_LEN ==> trailing_decoding(
            tx_type,
            block,
        ) == Ok::<(Seq<u8>, Seq<u8>), CodecError>((Seq::empty(), block)),
        tx_type == TxType::Deposit ==> trailing_decoding(tx_type, block) == Ok::<
            (Seq<u8>, Seq<u8>),
            CodecError,
        >((block, Seq::empty())),
{
    if block.len() == SUFFIX_LEN {
        assert(block.subrange(0, 0) =~= Seq::<u8>::empty());
        assert(block.skip(0) =~= block);
    }
}

} // verus!
