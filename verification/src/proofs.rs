//! Zero-knowledge proofs as they stand on the wire, in two interchangeable
//! forms: eight coordinates of three curve points, or an opaque blob.
use vstd::prelude::*;
use vstd::slice::slice_to_vec;
use vstd::string::StringExecFns;

use crate::bytes::{lemma_bytes_len, lemma_bytes_of_value, lemma_value_of_bytes, value_of};
use crate::error::CodecError;
use crate::field::{Engine, Num, PrimeField};
use crate::text::{bytes_text, decimal, list_text};
use crate::utils::{
    accepted, block_decoding, block_encoding, lemma_block_decoding_of_encoding,
    lemma_block_encoding_of_decoding, num_encoding, read_block, read_num, refused, same_bytes,
    write_block, write_num, ByteOrderExt, Decoded, Endianness, Reader,
};

verus! {

/// A proof system's proofs, as far as the codec needs them: how one is read
/// and written, compared and copied.
///
/// The contracts speak of a proof by its view. `encoding` and `decoding` say
/// what `write` emits and what `read` accepts; the two lemmas say that they
/// are inverse to each other.
pub trait Proof: View + Sized {
    /// Whether `v` is the view of some proof: every field element in it is
    /// below the modulus of its field.
    spec fn valid(v: Self::V) -> bool;

    /// Whether every length in `v` can be written in the width of its prefix.
    spec fn fits(v: Self::V) -> bool;

    /// The bytes that stand for `v` in the byte order `order`.
    spec fn encoding(v: Self::V, order: Endianness) -> Seq<u8>;

    /// What `read` makes of the bytes `b`: the proof at their start, or why
    /// there is none, and the bytes that are left unread either way.
    spec fn decoding(b: Seq<u8>, order: Endianness) -> Decoded<Self::V>;

    /// Decoding the bytes of a proof gives the proof back and leaves what
    /// follows them.
    proof fn lemma_decoding_of_encoding(v: Self::V, order: Endianness, rest: Seq<u8>)
        requires
            Self::valid(v),
            Self::fits(v),
        ensures
            Self::decoding(Self::encoding(v, order) + rest, order) == accepted(v, rest),
    ;

    /// What decoding accepts is a proof, and its bytes with what is left
    /// unread are the bytes that were there.
    proof fn lemma_encoding_of_decoding(b: Seq<u8>, order: Endianness)
        requires
            Self::decoding(b, order).result is Ok,
        ensures
            Self::valid(Self::decoding(b, order).result->Ok_0),
            Self::fits(Self::decoding(b, order).result->Ok_0),
            Self::encoding(Self::decoding(b, order).result->Ok_0, order) + Self::decoding(
                b,
                order,
            ).rest == b,
    ;

    /// The text that stands for `v` where a person is to read it.
    spec fn debug_text(v: Self::V) -> Seq<char>;

    /// A text for a person to read. It holds what the proof holds and nothing else.
    fn debug_fmt(&self) -> (s: String)
        ensures
            s@ == Self::debug_text(self@),
    ;

    /// A second proof with the same content.
    fn my_clone(&self) -> (r: Self)
        ensures
            r@ == self@,
    ;

    /// Whether two proofs have the same content.
    fn my_eq(&self, other: &Self) -> (r: bool)
        ensures
            r == (self@ == other@),
    ;

    /// Appends the proof's bytes to `w`, or leaves `w` as it is when a length
    /// in the proof does not fit its prefix.
    fn write<O: ByteOrderExt>(&self, w: &mut Vec<u8>) -> (r: Result<(), CodecError>)
        ensures
            Self::valid(self@),
            match r {
                Ok(_) => Self::fits(self@) && final(w)@ == old(w)@ + Self::encoding(
                    self@,
                    O::order(),
                ),
                Err(e) => !Self::fits(self@) && e == CodecError::FieldTooLarge && final(w)@
                    == old(w)@,
            },
    ;

    /// Reads a proof. A read that fails has consumed what it looked at
    /// before it failed.
    fn read<O: ByteOrderExt>(r: &mut Reader) -> (res: Result<Self, CodecError>)
        ensures
            match res {
                Ok(p) => Self::decoding(old(r)@, O::order()).result == Ok::<Self::V, CodecError>(
                    p@,
                ),
                Err(e) => Self::decoding(old(r)@, O::order()).result == Err::<
                    Self::V,
                    CodecError,
                >(e),
            },
            final(r)@ == Self::decoding(old(r)@, O::order()).rest,
    ;
}

/// A proof borrowed for the sake of its text.
pub struct DebugProof<'a, P: Proof>(pub &'a P);

impl<'a, P: Proof> DebugProof<'a, P> {
    /// The text of the proof, as its proof system writes it.
    pub fn fmt(&self) -> (s: String)
        ensures
            s@ == P::debug_text(self.0@),
    {
        self.0.debug_fmt()
    }
}

/// A point of the curve over the base field, by its two coordinates.
#[derive(Debug)]
pub struct G1Point<E: Engine>(pub Num<E::Fq>, pub Num<E::Fq>);

/// A point of the curve over the quadratic extension of the base field. Each
/// coordinate is a pair, real part first.
#[derive(Debug)]
pub struct G2Point<E: Engine>(pub (Num<E::Fq>, Num<E::Fq>), pub (Num<E::Fq>, Num<E::Fq>));

/// A proof of fixed form: three curve points, which are eight field elements
/// and 256 bytes.
#[derive(Debug)]
pub struct Groth16Proof<E: Engine> {
    pub a: G1Point<E>,
    pub b: G2Point<E>,
    pub c: G1Point<E>,
}

/// A proof of opaque form: a blob that the codec does not look into.
#[derive(Debug)]
pub struct PlonkProof(pub Vec<u8>);

/// The `i`-th block of 32 bytes of `b`.
pub open spec fn coordinate(b: Seq<u8>, i: int) -> Seq<u8> {
    b.subrange(32 * i, 32 * i + 32)
}

impl<E: Engine> View for Groth16Proof<E> {
    type V = Seq<nat>;

    /// The eight coordinates in the order of the wire: a.x, a.y, b.x0, b.x1,
    /// b.y0, b.y1, c.x, c.y.
    open spec fn view(&self) -> Seq<nat> {
        seq![
            self.a.0@,
            self.a.1@,
            self.b.0.0@,
            self.b.0.1@,
            self.b.1.0@,
            self.b.1.1@,
            self.c.0@,
            self.c.1@,
        ]
    }
}

impl View for PlonkProof {
    type V = Seq<u8>;

    open spec fn view(&self) -> Seq<u8> {
        self.0@
    }
}

impl<E: Engine> Groth16Proof<E> {
    /// The eight blocks of 32 bytes that stand for eight coordinates.
    pub open spec fn coordinates_encoding(v: Seq<nat>, order: Endianness) -> Seq<u8> {
        num_encoding(v[0], order) + num_encoding(v[1], order) + num_encoding(v[2], order)
            + num_encoding(v[3], order) + num_encoding(v[4], order) + num_encoding(v[5], order)
            + num_encoding(v[6], order) + num_encoding(v[7], order)
    }

    proof fn lemma_coordinates(v: Seq<nat>, order: Endianness, rest: Seq<u8>)
        requires
            v.len() == 8,
        ensures
            Self::coordinates_encoding(v, order).len() == 256,
            forall|i: int|
                0 <= i < 8 ==> coordinate(
                    #[trigger] Self::coordinates_encoding(v, order) + rest,
                    i,
                ) == #[trigger] num_encoding(v[i], order),
    {
        lemma_bytes_len(v[0], 32, order);
        lemma_bytes_len(v[1], 32, order);
        lemma_bytes_len(v[2], 32, order);
        lemma_bytes_len(v[3], 32, order);
        lemma_bytes_len(v[4], 32, order);
        lemma_bytes_len(v[5], 32, order);
        lemma_bytes_len(v[6], 32, order);
        lemma_bytes_len(v[7], 32, order);
        let all = Self::coordinates_encoding(v, order) + rest;
        assert(coordinate(all, 0) =~= num_encoding(v[0], order));
        assert(coordinate(all, 1) =~= num_encoding(v[1], order));
        assert(coordinate(all, 2) =~= num_encoding(v[2], order));
        assert(coordinate(all, 3) =~= num_encoding(v[3], order));
        assert(coordinate(all, 4) =~= num_encoding(v[4], order));
        assert(coordinate(all, 5) =~= num_encoding(v[5], order));
        assert(coordinate(all, 6) =~= num_encoding(v[6], order));
        assert(coordinate(all, 7) =~= num_encoding(v[7], order));
    }
}

impl<E: Engine> Proof for Groth16Proof<E> {
    open spec fn valid(v: Seq<nat>) -> bool {
        &&& v.len() == 8
        &&& forall|i: int| 0 <= i < 8 ==> #[trigger] v[i] < <E::Fq>::modulus()
    }

    open spec fn fits(v: Seq<nat>) -> bool {
        true
    }

    open spec fn encoding(v: Seq<nat>, order: Endianness) -> Seq<u8> {
        Self::coordinates_encoding(v, order)
    }

    /// All 256 bytes are read before any coordinate is looked at: too few
    /// bytes are found first, and a coordinate that is refused has been read
    /// with the other seven.
    open spec fn decoding(b: Seq<u8>, order: Endianness) -> Decoded<Seq<nat>> {
        if b.len() < 256 {
            refused(CodecError::Truncated, b)
        } else if exists|i: int|
            0 <= i < 8 && #[trigger] value_of(coordinate(b, i), order) >= <E::Fq>::modulus() {
            refused(CodecError::InvalidFieldElement, b.skip(256))
        } else {
            accepted(Seq::new(8, |i: int| value_of(coordinate(b, i), order)), b.skip(256))
        }
    }

    proof fn lemma_decoding_of_encoding(v: Seq<nat>, order: Endianness, rest: Seq<u8>) {
        let all = Self::encoding(v, order) + rest;
        Self::lemma_coordinates(v, order, rest);
        <E::Fq>::lemma_modulus_fits();
        assert forall|i: int| 0 <= i < 8 implies #[trigger] value_of(coordinate(all, i), order)
            == v[i] by {
            assert(coordinate(all, i) == num_encoding(v[i], order));
            lemma_value_of_bytes(v[i], 32, order);
        }
        assert(Seq::new(8, |i: int| value_of(coordinate(all, i), order)) =~= v);
        assert(all.skip(256) =~= rest);
    }

    proof fn lemma_encoding_of_decoding(b: Seq<u8>, order: Endianness) {
        let v = Self::decoding(b, order).result->Ok_0;
        assert forall|i: int| 0 <= i < 8 implies #[trigger] v[i] < <E::Fq>::modulus() by {
            assert(v[i] == value_of(coordinate(b, i), order));
        }
        assert forall|i: int| 0 <= i < 8 implies #[trigger] num_encoding(v[i], order)
            == coordinate(b, i) by {
            lemma_bytes_of_value(coordinate(b, i), order);
        }
        assert(num_encoding(v[0], order) == coordinate(b, 0));
        assert(num_encoding(v[1], order) == coordinate(b, 1));
        assert(num_encoding(v[2], order) == coordinate(b, 2));
        assert(num_encoding(v[3], order) == coordinate(b, 3));
        assert(num_encoding(v[4], order) == coordinate(b, 4));
        assert(num_encoding(v[5], order) == coordinate(b, 5));
        assert(num_encoding(v[6], order) == coordinate(b, 6));
        assert(num_encoding(v[7], order) == coordinate(b, 7));
        assert(Self::encoding(v, order) =~= b.subrange(0, 256));
        assert(b.subrange(0, 256) + b.skip(256) =~= b);
    }

    open spec fn debug_text(v: Seq<nat>) -> Seq<char> {
        "Proof { a: ("@ + decimal(v[0]) + ", "@ + decimal(v[1]) + "), b: ("@ + decimal(v[2])
            + ", "@ + decimal(v[3]) + ", "@ + decimal(v[4]) + ", "@ + decimal(v[5]) + "), c: ("@
            + decimal(v[6]) + ", "@ + decimal(v[7]) + ") }"@
    }

    fn debug_fmt(&self) -> (s: String) {
        let mut s = String::from_str("Proof { a: (");
        s.append(self.a.0.debug_fmt().as_str());
        s.append(", ");
        s.append(self.a.1.debug_fmt().as_str());
        s.append("), b: (");
        s.append(self.b.0.0.debug_fmt().as_str());
        s.append(", ");
        s.append(self.b.0.1.debug_fmt().as_str());
        s.append(", ");
        s.append(self.b.1.0.debug_fmt().as_str());
        s.append(", ");
        s.append(self.b.1.1.debug_fmt().as_str());
        s.append("), c: (");
        s.append(self.c.0.debug_fmt().as_str());
        s.append(", ");
        s.append(self.c.1.debug_fmt().as_str());
        s.append(") }");
        s
    }

    fn my_clone(&self) -> (r: Self) {
        let r = Groth16Proof {
            a: G1Point(self.a.0.clone(), self.a.1.clone()),
            b: G2Point(
                (self.b.0.0.clone(), self.b.0.1.clone()),
                (self.b.1.0.clone(), self.b.1.1.clone()),
            ),
            c: G1Point(self.c.0.clone(), self.c.1.clone()),
        };
        assert(r@ =~= self@);
        r
    }

    fn my_eq(&self, other: &Self) -> (r: bool) {
        let r = self.a.0 == other.a.0 && self.a.1 == other.a.1 && self.b.0.0 == other.b.0.0
            && self.b.0.1 == other.b.0.1 && self.b.1.0 == other.b.1.0 && self.b.1.1
            == other.b.1.1 && self.c.0 == other.c.0 && self.c.1 == other.c.1;
        proof {
            if r {
                assert(self@ =~= other@);
            } else {
                assert(self@[0] != other@[0] || self@[1] != other@[1] || self@[2] != other@[2]
                    || self@[3] != other@[3] || self@[4] != other@[4] || self@[5] != other@[5]
                    || self@[6] != other@[6] || self@[7] != other@[7]);
            }
        }
        r
    }

    fn write<O: ByteOrderExt>(&self, w: &mut Vec<u8>) -> (r: Result<(), CodecError>) {
        write_num::<O, E::Fq>(w, &self.a.0);
        write_num::<O, E::Fq>(w, &self.a.1);
        write_num::<O, E::Fq>(w, &self.b.0.0);
        write_num::<O, E::Fq>(w, &self.b.0.1);
        write_num::<O, E::Fq>(w, &self.b.1.0);
        write_num::<O, E::Fq>(w, &self.b.1.1);
        write_num::<O, E::Fq>(w, &self.c.0);
        write_num::<O, E::Fq>(w, &self.c.1);
        assert(w@ =~= old(w)@ + Self::encoding(self@, O::order()));
        Ok(())
    }

    fn read<O: ByteOrderExt>(r: &mut Reader) -> (res: Result<Self, CodecError>) {
        let bytes = r.take(256)?;
        let ghost b = old(r)@;
        let ghost order = O::order();
        let mut inner = Reader::new(bytes);
        assert forall|i: int| 0 <= i < 8 implies #[trigger] bytes@.skip(32 * i).subrange(0, 32)
            == coordinate(b, i) by {
            assert(bytes@.skip(32 * i).subrange(0, 32) =~= coordinate(b, i));
        }
        assert(inner@ =~= bytes@.skip(0));
        let ax = Self::read_coordinate::<O>(&mut inner, Ghost(bytes@), Ghost(0))?;
        let ay = Self::read_coordinate::<O>(&mut inner, Ghost(bytes@), Ghost(1))?;
        let bx0 = Self::read_coordinate::<O>(&mut inner, Ghost(bytes@), Ghost(2))?;
        let bx1 = Self::read_coordinate::<O>(&mut inner, Ghost(bytes@), Ghost(3))?;
        let by0 = Self::read_coordinate::<O>(&mut inner, Ghost(bytes@), Ghost(4))?;
        let by1 = Self::read_coordinate::<O>(&mut inner, Ghost(bytes@), Ghost(5))?;
        let cx = Self::read_coordinate::<O>(&mut inner, Ghost(bytes@), Ghost(6))?;
        let cy = Self::read_coordinate::<O>(&mut inner, Ghost(bytes@), Ghost(7))?;
        let p = Groth16Proof {
            a: G1Point(ax, ay),
            b: G2Point((bx0, bx1), (by0, by1)),
            c: G1Point(cx, cy),
        };
        proof {
            assert forall|i: int| 0 <= i < 8 implies !(#[trigger] value_of(coordinate(b, i), order)
                >= <E::Fq>::modulus()) by {
                assert(bytes@.skip(32 * i).subrange(0, 32) == coordinate(b, i));
            }
            assert(p@ =~= Seq::new(8, |i: int| value_of(coordinate(b, i), order)));
        }
        Ok(p)
    }
}

impl<E: Engine> Groth16Proof<E> {
    /// Reads the `i`-th of the coordinates that `block` holds.
    fn read_coordinate<O: ByteOrderExt>(
        inner: &mut Reader,
        Ghost(block): Ghost<Seq<u8>>,
        Ghost(i): Ghost<int>,
    ) -> (res: Result<Num<E::Fq>, CodecError>)
        requires
            0 <= i < 8,
            block.len() == 256,
            old(inner)@ == block.skip(32 * i),
        ensures
            match res {
                Ok(num) => num@ == value_of(block.skip(32 * i).subrange(0, 32), O::order())
                    && num@ < <E::Fq>::modulus() && final(inner)@ == block.skip(32 * (i + 1)),
                Err(e) => e == CodecError::InvalidFieldElement && value_of(
                    block.skip(32 * i).subrange(0, 32),
                    O::order(),
                ) >= <E::Fq>::modulus(),
            },
    {
        let res = read_num::<O, E::Fq>(inner);
        assert(block.skip(32 * i).skip(32) =~= block.skip(32 * (i + 1)));
        res
    }
}

impl Proof for PlonkProof {
    open spec fn valid(v: Seq<u8>) -> bool {
        true
    }

    open spec fn fits(v: Seq<u8>) -> bool {
        v.len() <= u32::MAX
    }

    open spec fn encoding(v: Seq<u8>, order: Endianness) -> Seq<u8> {
        block_encoding(v, order)
    }

    open spec fn decoding(b: Seq<u8>, order: Endianness) -> Decoded<Seq<u8>> {
        block_decoding(b, order)
    }

    proof fn lemma_decoding_of_encoding(v: Seq<u8>, order: Endianness, rest: Seq<u8>) {
        lemma_block_decoding_of_encoding(v, order, rest);
    }

    proof fn lemma_encoding_of_decoding(b: Seq<u8>, order: Endianness) {
        lemma_block_encoding_of_decoding(b, order);
    }

    open spec fn debug_text(v: Seq<u8>) -> Seq<char> {
        list_text(v)
    }

    fn debug_fmt(&self) -> (s: String) {
        bytes_text(self.0.as_slice())
    }

    fn my_clone(&self) -> (r: Self) {
        PlonkProof(slice_to_vec(self.0.as_slice()))
    }

    fn my_eq(&self, other: &Self) -> (r: bool) {
        same_bytes(self.0.as_slice(), other.0.as_slice())
    }

    fn write<O: ByteOrderExt>(&self, w: &mut Vec<u8>) -> (r: Result<(), CodecError>) {
        write_block::<O>(w, self.0.as_slice())
    }

    fn read<O: ByteOrderExt>(r: &mut Reader) -> (res: Result<Self, CodecError>) {
        let bytes = read_block::<O>(r)?;
        Ok(PlonkProof(slice_to_vec(bytes)))
    }
}

} // verus!
