use byteorder::{BigEndian, LittleEndian};
use tx_codec::error::CodecError;
use tx_codec::field::{Bn256, Fr, Num};
use tx_codec::proofs::{DebugProof, G1Point, G2Point, Groth16Proof, PlonkProof, Proof};
use tx_codec::utils::{same_bytes, ByteOrderExt, Endianness, Reader};
use tx_codec::{TxData, TxType};

type Fixed = Groth16Proof<Bn256>;

fn counting_proof(seed: u64) -> Fixed {
    Groth16Proof {
        a: G1Point(Num::from(seed), Num::from(seed + 1)),
        b: G2Point(
            (Num::from(seed + 2), Num::from(seed + 3)),
            (Num::from(seed + 4), Num::from(seed + 5)),
        ),
        c: G1Point(Num::from(seed + 6), Num::from(seed + 7)),
    }
}

#[test]
fn byte_orders_are_told_apart() {
    assert_eq!(<BigEndian as ByteOrderExt>::endianness(), Endianness::Big);
    assert_eq!(
        <LittleEndian as ByteOrderExt>::endianness(),
        Endianness::Little
    );
}

#[test]
fn fixed_proof_is_eight_coordinates_in_order() {
    let proof = counting_proof(1);
    let mut w = vec![];
    proof.write::<BigEndian>(&mut w).unwrap();
    assert_eq!(w.len(), 256);
    for i in 0..8 {
        assert!(w[32 * i..32 * i + 31].iter().all(|b| *b == 0));
        assert_eq!(w[32 * i + 31], 1 + i as u8);
    }
    let mut w = vec![];
    proof.write::<LittleEndian>(&mut w).unwrap();
    assert_eq!(w.len(), 256);
    for i in 0..8 {
        assert_eq!(w[32 * i], 1 + i as u8);
        assert!(w[32 * i + 1..32 * i + 32].iter().all(|b| *b == 0));
    }
}

#[test]
fn fixed_proof_round_trips() {
    let proof = counting_proof(100);
    let mut w = vec![];
    proof.write::<BigEndian>(&mut w).unwrap();
    w.push(0x77);
    let mut r = Reader::new(&w);
    let back = Fixed::read::<BigEndian>(&mut r).unwrap();
    assert!(back.my_eq(&proof));
    assert_eq!(back.b.1.0.to_uint(), [104, 0, 0, 0]);
    assert_eq!(r.remaining(), 1);
}

#[test]
fn fixed_proof_short_input_is_truncated() {
    let mut w = vec![];
    counting_proof(1).write::<BigEndian>(&mut w).unwrap();
    let mut r = Reader::new(&w[..255]);
    assert_eq!(
        Fixed::read::<BigEndian>(&mut r).err(),
        Some(CodecError::Truncated)
    );
    assert_eq!(r.remaining(), 255);
}

#[test]
fn fixed_proof_truncation_is_found_before_a_bad_coordinate() {
    let bytes = [0xffu8; 255];
    let mut r = Reader::new(&bytes);
    assert_eq!(
        Fixed::read::<BigEndian>(&mut r).err(),
        Some(CodecError::Truncated)
    );
}

#[test]
fn fixed_proof_bad_coordinate_is_refused() {
    let mut w = vec![];
    counting_proof(1).write::<BigEndian>(&mut w).unwrap();
    for i in 0..8 {
        let mut bad = w.clone();
        for b in bad[32 * i..32 * i + 32].iter_mut() {
            *b = 0xff;
        }
        let mut r = Reader::new(&bad);
        assert_eq!(
            Fixed::read::<BigEndian>(&mut r).err(),
            Some(CodecError::InvalidFieldElement)
        );
        assert_eq!(r.remaining(), 0);
    }
}

#[test]
fn fixed_proof_that_is_refused_has_been_read() {
    let mut w = vec![];
    counting_proof(1).write::<BigEndian>(&mut w).unwrap();
    for b in w[0..32].iter_mut() {
        *b = 0xff;
    }
    w.extend_from_slice(&[4, 5, 6]);
    let mut r = Reader::new(&w);
    assert_eq!(
        Fixed::read::<BigEndian>(&mut r).err(),
        Some(CodecError::InvalidFieldElement)
    );
    assert_eq!(r.take_rest(), &[4u8, 5, 6]);
}

#[test]
fn fixed_proof_coordinates_lie_in_the_base_field() {
    let fr_modulus: [u8; 32] = [
        0x30, 0x64, 0x4e, 0x72, 0xe1, 0x31, 0xa0, 0x29, 0xb8, 0x50, 0x45, 0xb6, 0x81, 0x81, 0x58,
        0x5d, 0x28, 0x33, 0xe8, 0x48, 0x79, 0xb9, 0x70, 0x91, 0x43, 0xe1, 0xf5, 0x93, 0xf0, 0x00,
        0x00, 0x01,
    ];
    let mut bytes = vec![0u8; 256];
    bytes[..32].copy_from_slice(&fr_modulus);
    let mut r = Reader::new(&bytes);
    assert!(Fixed::read::<BigEndian>(&mut r).is_ok());
}

#[test]
fn fixed_proof_equality_is_by_coordinate() {
    let a = counting_proof(1);
    assert!(a.my_eq(&counting_proof(1)));
    assert!(a.my_eq(&a.my_clone()));
    let mut other = counting_proof(1);
    other.c.1 = Num::from(99u64);
    assert!(!a.my_eq(&other));
    let mut other = counting_proof(1);
    other.b.0.1 = Num::from(99u64);
    assert!(!a.my_eq(&other));
}

#[test]
fn fixed_proof_text() {
    let proof = counting_proof(1);
    assert_eq!(
        proof.debug_fmt(),
        "Proof { a: (1, 2), b: (3, 4, 5, 6), c: (7, 8) }"
    );
    assert_eq!(DebugProof(&proof).fmt(), proof.debug_fmt());
}

#[test]
fn opaque_proof_carries_its_length() {
    let proof = PlonkProof(vec![1, 2, 3, 4, 5]);
    let mut w = vec![0xeeu8];
    proof.write::<BigEndian>(&mut w).unwrap();
    assert_eq!(w, vec![0xee, 0, 0, 0, 5, 1, 2, 3, 4, 5]);
    let mut w = vec![];
    proof.write::<LittleEndian>(&mut w).unwrap();
    assert_eq!(w, vec![5, 0, 0, 0, 1, 2, 3, 4, 5]);
    w.push(6);
    let mut r = Reader::new(&w);
    let back = PlonkProof::read::<LittleEndian>(&mut r).unwrap();
    assert!(back.my_eq(&proof));
    assert_eq!(r.remaining(), 1);
}

#[test]
fn opaque_proof_may_be_empty() {
    let proof = PlonkProof(vec![]);
    let mut w = vec![];
    proof.write::<BigEndian>(&mut w).unwrap();
    assert_eq!(w, vec![0, 0, 0, 0]);
    let mut r = Reader::new(&w);
    let back = PlonkProof::read::<BigEndian>(&mut r).unwrap();
    assert!(back.0.is_empty());
}

#[test]
fn opaque_proof_short_input_is_truncated() {
    let bytes = [0u8, 0, 0, 3, 1, 2];
    let mut r = Reader::new(&bytes);
    assert_eq!(
        PlonkProof::read::<BigEndian>(&mut r).err(),
        Some(CodecError::Truncated)
    );
    assert_eq!(r.take_rest(), &[1u8, 2]);
    let mut r = Reader::new(&bytes[..3]);
    assert_eq!(
        PlonkProof::read::<BigEndian>(&mut r).err(),
        Some(CodecError::Truncated)
    );
    let mut r = Reader::new(&bytes);
    assert_eq!(
        PlonkProof::read::<LittleEndian>(&mut r).err(),
        Some(CodecError::Truncated)
    );
}

#[test]
fn opaque_proof_equality_and_copy() {
    let a = PlonkProof(vec![1, 2, 3]);
    assert!(a.my_eq(&a.my_clone()));
    assert!(!a.my_eq(&PlonkProof(vec![1, 2, 4])));
    assert!(!a.my_eq(&PlonkProof(vec![1, 2])));
    assert!(PlonkProof(vec![]).my_eq(&PlonkProof(vec![])));
}

#[test]
fn opaque_proof_text() {
    let proof = PlonkProof(vec![1, 20, 255]);
    assert_eq!(proof.debug_fmt(), "[1, 20, 255]");
    assert_eq!(DebugProof(&proof).fmt(), "[1, 20, 255]");
    assert_eq!(PlonkProof(vec![]).debug_fmt(), "[]");
}

#[test]
fn same_bytes_compares_content() {
    assert!(same_bytes(&[], &[]));
    assert!(same_bytes(&[1, 2], &[1, 2]));
    assert!(!same_bytes(&[1, 2], &[1, 3]));
    assert!(!same_bytes(&[1, 2], &[1, 2, 3]));
    assert!(!same_bytes(&[0], &[]));
}

#[test]
fn record_copy_is_equal() {
    let data = TxData::<Fr, Fixed> {
        nullifier: Num::from(1u64),
        out_commit: Num::from(2u64),
        delta: Num::from(3u64),
        proof: counting_proof(1),
        root_after: Num::from(4u64),
        tree_proof: counting_proof(9),
        tx_type: TxType::Withdraw,
        memo: vec![1, 2],
        extra_data: vec![3],
        token_id: String::from("id"),
    };
    let copy = data.clone();
    assert_eq!(copy, data);
    assert_eq!(copy.token_id, "id");
    assert_eq!(copy.memo, vec![1u8, 2]);
    assert_eq!(copy.extra_data, vec![3u8]);
    assert!(copy.tree_proof.my_eq(&counting_proof(9)));
}

#[test]
fn record_equality_is_by_field() {
    let make = || TxData::<Fr, PlonkProof> {
        nullifier: Num::from(1u64),
        out_commit: Num::from(2u64),
        delta: Num::from(3u64),
        proof: PlonkProof(vec![1]),
        root_after: Num::from(4u64),
        tree_proof: PlonkProof(vec![2]),
        tx_type: TxType::Withdraw,
        memo: vec![1, 2],
        extra_data: vec![3],
        token_id: String::new(),
    };
    let base = make();
    assert!(base == make());
    let mut other = make();
    other.tx_type = TxType::Deposit;
    assert!(base != other);
    let mut other = make();
    other.proof = PlonkProof(vec![9]);
    assert!(base != other);
    let mut other = make();
    other.tree_proof = PlonkProof(vec![]);
    assert!(base != other);
    let mut other = make();
    other.root_after = Num::from(5u64);
    assert!(base != other);
    let mut other = make();
    other.delta = Num::from(5u64);
    assert!(base != other);
    let mut other = make();
    other.out_commit = Num::from(5u64);
    assert!(base != other);
    let mut other = make();
    other.nullifier = Num::from(5u64);
    assert!(base != other);
    let mut other = make();
    other.memo = vec![1];
    assert!(base != other);
    let mut other = make();
    other.extra_data = vec![];
    assert!(base != other);
}

#[test]
fn record_equality_passes_over_the_token_id() {
    let make = |token: &str| TxData::<Fr, PlonkProof> {
        nullifier: Num::from(1u64),
        out_commit: Num::from(2u64),
        delta: Num::from(3u64),
        proof: PlonkProof(vec![1]),
        root_after: Num::from(4u64),
        tree_proof: PlonkProof(vec![2]),
        tx_type: TxType::Withdraw,
        memo: vec![],
        extra_data: vec![],
        token_id: String::from(token),
    };
    assert!(make("a") == make("b"));
}
