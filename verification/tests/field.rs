use byteorder::{BigEndian, LittleEndian};
use tx_codec::error::CodecError;
use tx_codec::field::{Fq, Fr, Num};
use tx_codec::utils::{
    read_block, read_num, read_u16, read_u32, split_suffix, write_all, write_block, write_num,
    write_u16, write_u32, Reader,
};
use tx_codec::TxType;

const FR_MODULUS_BE: [u8; 32] = [
    0x30, 0x64, 0x4e, 0x72, 0xe1, 0x31, 0xa0, 0x29, 0xb8, 0x50, 0x45, 0xb6, 0x81, 0x81, 0x58, 0x5d,
    0x28, 0x33, 0xe8, 0x48, 0x79, 0xb9, 0x70, 0x91, 0x43, 0xe1, 0xf5, 0x93, 0xf0, 0x00, 0x00, 0x01,
];

const FQ_MODULUS_BE: [u8; 32] = [
    0x30, 0x64, 0x4e, 0x72, 0xe1, 0x31, 0xa0, 0x29, 0xb8, 0x50, 0x45, 0xb6, 0x81, 0x81, 0x58, 0x5d,
    0x97, 0x81, 0x6a, 0x91, 0x68, 0x71, 0xca, 0x8d, 0x3c, 0x20, 0x8c, 0x16, 0xd8, 0x7c, 0xfd, 0x47,
];

fn reversed(bytes: &[u8; 32]) -> [u8; 32] {
    let mut out = *bytes;
    out.reverse();
    out
}

#[test]
fn kind_codes_decode() {
    assert_eq!(TxType::try_from(0u16), Ok(TxType::Deposit));
    assert_eq!(TxType::try_from(1u16), Ok(TxType::Transfer));
    assert_eq!(TxType::try_from(2u16), Ok(TxType::Withdraw));
    assert_eq!(TxType::try_from(3u16), Err(CodecError::InvalidTxKind));
    assert_eq!(TxType::try_from(65535u16), Err(CodecError::InvalidTxKind));
}

#[test]
fn kind_codes_encode() {
    assert_eq!(TxType::Deposit.code(), 0);
    assert_eq!(TxType::Transfer.code(), 1);
    assert_eq!(TxType::Withdraw.code(), 2);
    for kind in [TxType::Deposit, TxType::Transfer, TxType::Withdraw] {
        assert_eq!(TxType::try_from(kind.code()), Ok(kind));
    }
}

#[test]
fn num_is_written_big_endian() {
    let mut w = vec![0xeeu8];
    write_num::<BigEndian, Fr>(&mut w, &Num::from(0x0102));
    assert_eq!(w.len(), 33);
    assert_eq!(w[0], 0xee);
    assert!(w[1..31].iter().all(|b| *b == 0));
    assert_eq!(&w[31..], &[0x01u8, 0x02u8]);
}

#[test]
fn num_is_written_little_endian() {
    let mut w = vec![];
    write_num::<LittleEndian, Fr>(&mut w, &Num::from(0x0102));
    assert_eq!(w.len(), 32);
    assert_eq!(&w[..2], &[0x02u8, 0x01u8]);
    assert!(w[2..].iter().all(|b| *b == 0));
}

#[test]
fn num_limbs_follow_the_byte_order() {
    let mut bytes = [0u8; 32];
    for (i, b) in bytes.iter_mut().enumerate() {
        *b = i as u8;
    }
    let mut r = Reader::new(&bytes);
    let be = read_num::<BigEndian, Fr>(&mut r).unwrap();
    assert_eq!(
        be.to_uint(),
        [
            0x18191a1b1c1d1e1f,
            0x1011121314151617,
            0x08090a0b0c0d0e0f,
            0x0001020304050607
        ]
    );
    let le_bytes = reversed(&bytes);
    let mut r = Reader::new(&le_bytes);
    let le = read_num::<LittleEndian, Fr>(&mut r).unwrap();
    assert_eq!(le, be);
}

#[test]
fn num_decode_then_encode_reproduces_the_bytes() {
    let mut bytes = FR_MODULUS_BE;
    bytes[31] = 0;
    let mut r = Reader::new(&bytes);
    let num = read_num::<BigEndian, Fr>(&mut r).unwrap();
    assert_eq!(r.remaining(), 0);
    let mut w = vec![];
    write_num::<BigEndian, Fr>(&mut w, &num);
    assert_eq!(w, bytes.to_vec());

    let le = reversed(&bytes);
    let mut r = Reader::new(&le);
    let num_le = read_num::<LittleEndian, Fr>(&mut r).unwrap();
    assert_eq!(num_le, num);
    let mut w = vec![];
    write_num::<LittleEndian, Fr>(&mut w, &num_le);
    assert_eq!(w, le.to_vec());
}

#[test]
fn num_encode_then_decode_reproduces_the_element() {
    for v in [0u64, 1, 255, 256, u64::MAX] {
        let num = Num::<Fq>::from(v);
        let mut w = vec![];
        write_num::<LittleEndian, Fq>(&mut w, &num);
        w.push(0x55);
        let mut r = Reader::new(&w);
        let back = read_num::<LittleEndian, Fq>(&mut r).unwrap();
        assert_eq!(back, num);
        assert_eq!(back.to_uint(), [v, 0, 0, 0]);
        assert_eq!(r.remaining(), 1);
    }
}

#[test]
fn num_at_the_modulus_is_refused() {
    let mut r = Reader::new(&FR_MODULUS_BE);
    assert_eq!(
        read_num::<BigEndian, Fr>(&mut r).err(),
        Some(CodecError::InvalidFieldElement)
    );
    assert_eq!(r.remaining(), 0);
    let le = reversed(&FR_MODULUS_BE);
    let mut r = Reader::new(&le);
    assert_eq!(
        read_num::<LittleEndian, Fr>(&mut r).err(),
        Some(CodecError::InvalidFieldElement)
    );
    let all_ones = [0xffu8; 32];
    let mut r = Reader::new(&all_ones);
    assert_eq!(
        read_num::<BigEndian, Fr>(&mut r).err(),
        Some(CodecError::InvalidFieldElement)
    );
}

#[test]
fn num_that_is_refused_has_been_read() {
    let mut bytes = [0xffu8; 32].to_vec();
    bytes.extend_from_slice(&[0u8; 31]);
    bytes.push(9);
    bytes.push(0x55);
    let mut r = Reader::new(&bytes);
    assert_eq!(
        read_num::<BigEndian, Fr>(&mut r).err(),
        Some(CodecError::InvalidFieldElement)
    );
    assert_eq!(r.remaining(), 33);
    let next = read_num::<BigEndian, Fr>(&mut r).unwrap();
    assert_eq!(next, Num::from(9u64));
    assert_eq!(r.take_rest(), &[0x55u8]);
}

#[test]
fn num_just_below_the_modulus_is_accepted() {
    let mut bytes = FR_MODULUS_BE;
    bytes[31] = 0;
    let mut r = Reader::new(&bytes);
    assert!(read_num::<BigEndian, Fr>(&mut r).is_ok());
    let mut bytes = FQ_MODULUS_BE;
    bytes[31] = 0x46;
    let mut r = Reader::new(&bytes);
    assert!(read_num::<BigEndian, Fq>(&mut r).is_ok());
}

#[test]
fn the_two_fields_have_their_own_moduli() {
    let mut r = Reader::new(&FR_MODULUS_BE);
    assert!(read_num::<BigEndian, Fq>(&mut r).is_ok());
    let mut r = Reader::new(&FQ_MODULUS_BE);
    assert_eq!(
        read_num::<BigEndian, Fq>(&mut r).err(),
        Some(CodecError::InvalidFieldElement)
    );
    let mut r = Reader::new(&FQ_MODULUS_BE);
    assert_eq!(
        read_num::<BigEndian, Fr>(&mut r).err(),
        Some(CodecError::InvalidFieldElement)
    );
}

#[test]
fn num_from_uint_checks_the_range() {
    assert!(Num::<Fr>::from_uint([0, 0, 0, 0]).is_some());
    assert!(Num::<Fr>::from_uint([u64::MAX, u64::MAX, u64::MAX, 0]).is_some());
    let modulus = [
        0x43e1f593f0000001u64,
        0x2833e84879b97091,
        0xb85045b68181585d,
        0x30644e72e131a029,
    ];
    assert!(Num::<Fr>::from_uint(modulus).is_none());
    let below = [modulus[0] - 1, modulus[1], modulus[2], modulus[3]];
    let num = Num::<Fr>::from_uint(below).unwrap();
    assert_eq!(num.to_uint(), below);
    assert!(Num::<Fr>::from_uint([u64::MAX; 4]).is_none());
}

#[test]
fn num_equality_and_copy() {
    let a = Num::<Fr>::from(7u64);
    let b = a.clone();
    assert!(a == b);
    assert!(a != Num::from(8u64));
    assert!(Num::<Fr>::zero() == Num::from(0u64));
    assert!(Num::<Fr>::from_uint([0, 1, 0, 0]).unwrap() != Num::from_uint([1, 0, 0, 0]).unwrap());
}

#[test]
fn num_text_is_decimal() {
    assert_eq!(Num::<Fr>::from(0u64).debug_fmt(), "0");
    assert_eq!(Num::<Fr>::from(1234567890u64).debug_fmt(), "1234567890");
    assert_eq!(
        Num::<Fr>::from_uint([0, 1, 0, 0]).unwrap().debug_fmt(),
        "18446744073709551616"
    );
}

#[test]
fn num_short_input_is_truncated() {
    let bytes = [0u8; 31];
    let mut r = Reader::new(&bytes);
    assert_eq!(
        read_num::<BigEndian, Fr>(&mut r).err(),
        Some(CodecError::Truncated)
    );
    assert_eq!(r.remaining(), 31);
}

#[test]
fn integers_follow_the_byte_order() {
    let bytes = [0x01u8, 0x02, 0x03, 0x04, 0x05];
    let mut r = Reader::new(&bytes);
    assert_eq!(read_u16::<BigEndian>(&mut r), Ok(0x0102));
    assert_eq!(r.remaining(), 3);
    let mut r = Reader::new(&bytes);
    assert_eq!(read_u16::<LittleEndian>(&mut r), Ok(0x0201));
    let mut r = Reader::new(&bytes);
    assert_eq!(read_u32::<BigEndian>(&mut r), Ok(0x01020304));
    assert_eq!(r.remaining(), 1);
    let mut r = Reader::new(&bytes);
    assert_eq!(read_u32::<LittleEndian>(&mut r), Ok(0x04030201));

    let mut w = vec![];
    write_u16::<BigEndian>(&mut w, 0x0102);
    write_u16::<LittleEndian>(&mut w, 0x0102);
    write_u32::<BigEndian>(&mut w, 0x01020304);
    write_u32::<LittleEndian>(&mut w, 0x01020304);
    assert_eq!(
        w,
        vec![0x01, 0x02, 0x02, 0x01, 0x01, 0x02, 0x03, 0x04, 0x04, 0x03, 0x02, 0x01]
    );
}

#[test]
fn integers_short_input_is_truncated() {
    let bytes = [0x01u8, 0x02, 0x03];
    let mut r = Reader::new(&bytes[..1]);
    assert_eq!(read_u16::<BigEndian>(&mut r), Err(CodecError::Truncated));
    assert_eq!(r.remaining(), 1);
    let mut r = Reader::new(&bytes);
    assert_eq!(read_u32::<LittleEndian>(&mut r), Err(CodecError::Truncated));
    assert_eq!(r.remaining(), 3);
}

#[test]
fn reader_walks_forward() {
    let bytes = [1u8, 2, 3, 4, 5];
    let mut r = Reader::new(&bytes);
    assert_eq!(r.remaining(), 5);
    assert_eq!(r.take(2), Ok(&bytes[..2]));
    assert_eq!(r.take(4), Err(CodecError::Truncated));
    assert_eq!(r.remaining(), 3);
    assert_eq!(r.take(0), Ok(&bytes[..0]));
    assert_eq!(r.take_rest(), &bytes[2..]);
    assert_eq!(r.remaining(), 0);
    assert_eq!(r.take_rest(), &bytes[..0]);
    assert_eq!(r.take(1), Err(CodecError::Truncated));
}

#[test]
fn blocks_carry_their_length() {
    let mut w = vec![9u8];
    write_block::<LittleEndian>(&mut w, &[7, 8, 9]).unwrap();
    assert_eq!(w, vec![9, 3, 0, 0, 0, 7, 8, 9]);
    let mut w = vec![];
    write_block::<BigEndian>(&mut w, &[7, 8, 9]).unwrap();
    assert_eq!(w, vec![0, 0, 0, 3, 7, 8, 9]);
    w.push(1);
    let mut r = Reader::new(&w);
    assert_eq!(read_block::<BigEndian>(&mut r), Ok(&[7u8, 8, 9][..]));
    assert_eq!(r.remaining(), 1);
    let mut r = Reader::new(&w[..6]);
    assert_eq!(read_block::<BigEndian>(&mut r), Err(CodecError::Truncated));
    assert_eq!(r.take_rest(), &[7u8, 8]);
    let mut r = Reader::new(&w[..3]);
    assert_eq!(read_block::<BigEndian>(&mut r), Err(CodecError::Truncated));
    assert_eq!(r.remaining(), 3);
    let mut r = Reader::new(&w);
    assert_eq!(read_block::<LittleEndian>(&mut r), Err(CodecError::Truncated));
    assert_eq!(r.remaining(), 4);
}

#[test]
fn write_all_appends() {
    let mut w = vec![1u8];
    write_all(&mut w, &[2, 3]);
    write_all(&mut w, &[]);
    assert_eq!(w, vec![1, 2, 3]);
}

#[test]
fn suffix_is_split_off_the_end() {
    let mut block = vec![1u8; 4];
    block.extend_from_slice(&[2u8; 96]);
    assert_eq!(split_suffix(&block), Ok((vec![1u8; 4], vec![2u8; 96])));
    assert_eq!(split_suffix(&block[4..]), Ok((vec![], vec![2u8; 96])));
    assert_eq!(
        split_suffix(&block[..95]),
        Err(CodecError::MalformedTrailingData)
    );
    assert_eq!(split_suffix(&[]), Err(CodecError::MalformedTrailingData));
}
