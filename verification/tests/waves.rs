use tx_codec::error::CodecError;
use tx_codec::field::{Bn256, Fr, Num};
use tx_codec::proofs::{G1Point, G2Point, Groth16Proof};
use tx_codec::utils::Reader;
use tx_codec::waves;
use tx_codec::{TxData, TxType};

type Record = TxData<Fr, Groth16Proof<Bn256>>;

fn waves_zero_proof() -> Groth16Proof<Bn256> {
    Groth16Proof {
        a: G1Point(Num::zero(), Num::zero()),
        b: G2Point((Num::zero(), Num::zero()), (Num::zero(), Num::zero())),
        c: G1Point(Num::zero(), Num::zero()),
    }
}

fn waves_record(tx_type: TxType, memo: Vec<u8>, extra_data: Vec<u8>) -> Record {
    TxData {
        nullifier: Num::from(1u64),
        out_commit: Num::from(2u64),
        delta: Num::from(3u64),
        proof: waves_zero_proof(),
        root_after: Num::from(4u64),
        tree_proof: waves_zero_proof(),
        tx_type,
        memo,
        extra_data,
        token_id: String::new(),
    }
}

#[test]
fn test_waves_write_read_deposit() {
    let data = TxData::<Fr, Groth16Proof<Bn256>> {
        nullifier: Num::from(1u64),
        out_commit: Num::from(2u64),
        delta: Num::from(3u64),
        proof: waves_zero_proof(),
        root_after: Num::from(4u64),
        tree_proof: waves_zero_proof(),
        tx_type: TxType::Deposit,
        memo: vec![5u8, 6u8],
        extra_data: vec![9; 32 + 64],
        token_id: String::new(),
    };

    let mut buf = vec![];
    waves::write(&data, &mut buf).unwrap();

    assert_eq!(
        buf.len(),
        32 + 32 + 32 + 32 + 256 + 256 + 32 + 2 + 2 + 32 + 64
    );

    let mut cursor = Reader::new(&buf);
    let data2 = waves::read::<Fr, Groth16Proof<Bn256>>(&mut cursor).unwrap();

    assert_eq!(data, data2);
}

#[test]
fn test_waves_write_read() {
    let data = TxData::<Fr, Groth16Proof<Bn256>> {
        nullifier: Num::from(1u64),
        out_commit: Num::from(2u64),
        delta: Num::from(3u64),
        proof: waves_zero_proof(),
        root_after: Num::from(4u64),
        tree_proof: waves_zero_proof(),
        tx_type: TxType::Transfer,
        memo: vec![5u8, 6u8],
        extra_data: vec![],
        token_id: String::new(),
    };

    let mut buf = vec![];
    waves::write(&data, &mut buf).unwrap();

    assert_eq!(buf.len(), 32 + 32 + 32 + 32 + 256 + 256 + 32 + 2 + 2);

    let mut cursor = Reader::new(&buf);
    let data2 = waves::read::<Fr, Groth16Proof<Bn256>>(&mut cursor).unwrap();

    assert_eq!(data, data2);
}

#[test]
fn waves_layout_is_byte_exact() {
    let data = waves_record(TxType::Withdraw, vec![0xaa, 0xbb], vec![]);
    let mut buf = vec![7u8];
    waves::write(&data, &mut buf).unwrap();
    assert_eq!(buf[0], 7);
    let body = &buf[1..];
    assert_eq!(body[31], 1);
    assert_eq!(body[63], 2);
    assert!(body[64..96].iter().all(|b| *b == 0));
    assert_eq!(body[127], 3);
    assert!(body[128..640].iter().all(|b| *b == 0));
    assert_eq!(body[671], 4);
    assert_eq!(&body[672..674], &[0u8, 2u8]);
    assert_eq!(&body[674..], &[0xaau8, 0xbbu8]);
}

#[test]
fn waves_deposit_with_short_trailing_block_is_refused() {
    let data = waves_record(TxType::Deposit, vec![1, 2, 3], vec![9; 92]);
    let mut buf = vec![];
    waves::write(&data, &mut buf).unwrap();
    assert_eq!(buf.len(), 674 + 95);
    let mut cursor = Reader::new(&buf);
    let res = waves::read::<Fr, Groth16Proof<Bn256>>(&mut cursor);
    assert_eq!(res.err(), Some(CodecError::MalformedTrailingData));
    assert_eq!(cursor.remaining(), 0);
}

#[test]
fn waves_deposit_with_no_trailing_block_is_refused() {
    let data = waves_record(TxType::Deposit, vec![], vec![]);
    let mut buf = vec![];
    waves::write(&data, &mut buf).unwrap();
    let mut cursor = Reader::new(&buf);
    let res = waves::read::<Fr, Groth16Proof<Bn256>>(&mut cursor);
    assert_eq!(res.err(), Some(CodecError::MalformedTrailingData));
}

#[test]
fn waves_deposit_with_exactly_the_suffix_has_empty_memo() {
    let data = waves_record(TxType::Deposit, vec![], vec![4; 96]);
    let mut buf = vec![];
    waves::write(&data, &mut buf).unwrap();
    let mut cursor = Reader::new(&buf);
    let back = waves::read::<Fr, Groth16Proof<Bn256>>(&mut cursor).unwrap();
    assert!(back.memo.is_empty());
    assert_eq!(back.extra_data, vec![4u8; 96]);
    assert_eq!(cursor.remaining(), 0);
}

#[test]
fn waves_transfer_keeps_the_whole_block_as_memo() {
    let data = waves_record(TxType::Transfer, vec![1; 10], vec![2; 96]);
    let mut buf = vec![];
    waves::write(&data, &mut buf).unwrap();
    let mut cursor = Reader::new(&buf);
    let back = waves::read::<Fr, Groth16Proof<Bn256>>(&mut cursor).unwrap();
    assert_eq!(back.memo.len(), 106);
    assert!(back.extra_data.is_empty());
    assert_eq!(back.tx_type, TxType::Transfer);
}

#[test]
fn waves_asset_id_must_be_a_field_element() {
    let data = waves_record(TxType::Transfer, vec![], vec![]);
    let mut buf = vec![];
    waves::write(&data, &mut buf).unwrap();
    for b in buf[64..96].iter_mut() {
        *b = 0xff;
    }
    let mut cursor = Reader::new(&buf);
    let res = waves::read::<Fr, Groth16Proof<Bn256>>(&mut cursor);
    assert_eq!(res.err(), Some(CodecError::InvalidFieldElement));
    assert_eq!(cursor.remaining(), buf.len() - 96);
}

#[test]
fn waves_asset_id_is_dropped() {
    let data = waves_record(TxType::Transfer, vec![8], vec![]);
    let mut buf = vec![];
    waves::write(&data, &mut buf).unwrap();
    buf[95] = 17;
    let mut cursor = Reader::new(&buf);
    let back = waves::read::<Fr, Groth16Proof<Bn256>>(&mut cursor).unwrap();
    assert_eq!(back, data);
}

#[test]
fn waves_unknown_kind_is_refused() {
    let data = waves_record(TxType::Transfer, vec![], vec![]);
    let mut buf = vec![];
    waves::write(&data, &mut buf).unwrap();
    buf[673] = 3;
    let mut cursor = Reader::new(&buf);
    assert_eq!(
        waves::read::<Fr, Groth16Proof<Bn256>>(&mut cursor).err(),
        Some(CodecError::InvalidTxKind)
    );
    buf[672] = 0xff;
    buf[673] = 0xff;
    let mut cursor = Reader::new(&buf);
    assert_eq!(
        waves::read::<Fr, Groth16Proof<Bn256>>(&mut cursor).err(),
        Some(CodecError::InvalidTxKind)
    );
}

#[test]
fn waves_truncated_input_is_refused() {
    let data = waves_record(TxType::Transfer, vec![], vec![]);
    let mut buf = vec![];
    waves::write(&data, &mut buf).unwrap();
    for len in [0usize, 31, 32, 100, 128, 383, 640, 672, 673] {
        let mut cursor = Reader::new(&buf[..len]);
        assert_eq!(
            waves::read::<Fr, Groth16Proof<Bn256>>(&mut cursor).err(),
            Some(CodecError::Truncated)
        );
    }
}
