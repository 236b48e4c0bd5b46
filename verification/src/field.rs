//! Prime fields whose elements fit in 256 bits, and their elements.
use core::marker::PhantomData;
use vstd::prelude::*;
use vstd::std_specs::cmp::PartialEqSpecImpl;
use vstd::std_specs::convert::FromSpecImpl;

use crate::bytes::{lemma_limbs_injective, lemma_radix_values, limbs_value, radix};
use crate::text::decimal;

verus! {

/// A prime field whose elements are written as integers of at most 256 bits.
pub trait PrimeField: Sized + core::fmt::Debug {
    /// The prime that the field counts modulo.
    spec fn modulus() -> nat;

    /// The modulus takes more than 64 bits and at most 256: every 64-bit
    /// integer stands for an element, and every element fits in 32 bytes.
    proof fn lemma_modulus_fits()
        ensures
            radix(8) <= Self::modulus() <= radix(32),
    ;

    /// Whether four limbs, least significant first, spell a number below the modulus.
    fn is_canonical(limbs: &[u64; 4]) -> (ok: bool)
        ensures
            ok == (limbs_value(limbs@) < Self::modulus()),
    ;
}

/// The scalar field of the curve BN254.
#[derive(Debug, Clone, Copy)]
pub struct Fr;

/// The base field of the curve BN254.
#[derive(Debug, Clone, Copy)]
pub struct Fq;

/// `Display` of fawkes-crypto's 256-bit integer: the number that the limbs
/// spell, in decimal digits without leading zeros.
#[verifier::external_body]
fn uint_to_string(limbs: &[u64; 4]) -> (s: String)
    ensures
        s@ == decimal(limbs_value(limbs@)),
{
    format!("{}", fawkes_crypto::engines::U256::new(*limbs))
}

/// `Num::<Fr>::from_uint` of fawkes-crypto, for the scalar field of BN254:
/// it accepts the integer exactly when it is below the field's modulus.
#[verifier::external_body]
fn fr_from_uint(limbs: &[u64; 4]) -> (ok: bool)
    ensures
        ok == (limbs_value(limbs@) < Fr::modulus()),
{
    fawkes_crypto::ff_uint::Num::<fawkes_crypto::engines::bn256::Fr>::from_uint(
        fawkes_crypto::ff_uint::NumRepr(fawkes_crypto::engines::U256::new(*limbs)),
    ).is_some()
}

/// `Num::<Fq>::from_uint` of fawkes-crypto, for the base field of BN254:
/// it accepts the integer exactly when it is below the field's modulus.
#[verifier::external_body]
fn fq_from_uint(limbs: &[u64; 4]) -> (ok: bool)
    ensures
        ok == (limbs_value(limbs@) < Fq::modulus()),
{
    fawkes_crypto::ff_uint::Num::<fawkes_crypto::engines::bn256::Fq>::from_uint(
        fawkes_crypto::ff_uint::NumRepr(fawkes_crypto::engines::U256::new(*limbs)),
    ).is_some()
}

impl PrimeField for Fr {
    open spec fn modulus() -> nat {
        21888242871839275222246405745257275088548364400416034343698204186575808495617nat
    }

    proof fn lemma_modulus_fits() {
        lemma_radix_values();
    }

    fn is_canonical(limbs: &[u64; 4]) -> (ok: bool) {
        fr_from_uint(limbs)
    }
}

impl PrimeField for Fq {
    open spec fn modulus() -> nat {
        21888242871839275222246405745257275088696311157297823662689037894645226208583nat
    }

    proof fn lemma_modulus_fits() {
        lemma_radix_values();
    }

    fn is_canonical(limbs: &[u64; 4]) -> (ok: bool) {
        fq_from_uint(limbs)
    }
}

/// A pairing-friendly curve, named by its two fields.
pub trait Engine {
    /// The field that the coordinates of curve points lie in.
    type Fq: PrimeField;

    /// The field of scalars.
    type Fr: PrimeField;
}

/// The curve BN254.
#[derive(Debug, Clone, Copy)]
pub struct Bn256;

impl Engine for Bn256 {
    type Fq = Fq;

    type Fr = Fr;
}

/// An element of the field `F`, held as the one integer below the modulus
/// that stands for it.
#[derive(Debug)]
pub struct Num<F: PrimeField> {
    limbs: [u64; 4],
    field: PhantomData<F>,
}

impl<F: PrimeField> View for Num<F> {
    type V = nat;

    /// The integer below the modulus that stands for the element.
    closed spec fn view(&self) -> nat {
        limbs_value(self.limbs@)
    }
}

impl<F: PrimeField> Num<F> {
    #[verifier::type_invariant]
    spec fn canonical(self) -> bool {
        limbs_value(self.limbs@) < F::modulus()
    }

    /// The element that an integer stands for, given as four limbs with the
    /// least significant first: `None` when the integer is not below the modulus.
    pub fn from_uint(limbs: [u64; 4]) -> (r: Option<Self>)
        ensures
            r is Some <==> limbs_value(limbs@) < F::modulus(),
            r is Some ==> r->0@ == limbs_value(limbs@),
    {
        if F::is_canonical(&limbs) {
            Some(Num { limbs, field: PhantomData })
        } else {
            None
        }
    }

    /// The integer that stands for the element, as four limbs with the least
    /// significant first.
    pub fn to_uint(&self) -> (limbs: [u64; 4])
        ensures
            limbs_value(limbs@) == self@,
            self@ < F::modulus(),
    {
        proof {
            use_type_invariant(self);
        }
        self.limbs
    }

    /// The element zero.
    pub fn zero() -> (r: Self)
        ensures
            r@ == 0,
    {
        proof {
            F::lemma_modulus_fits();
            lemma_radix_values();
        }
        Num { limbs: [0, 0, 0, 0], field: PhantomData }
    }

    /// The integer that stands for the element, in decimal digits.
    pub fn debug_fmt(&self) -> (s: String)
        ensures
            s@ == decimal(self@),
    {
        uint_to_string(&self.limbs)
    }
}

impl<F: PrimeField> From<u64> for Num<F> {
    /// The element that a 64-bit integer stands for.
    fn from(v: u64) -> (r: Self)
        ensures
            r@ == v,
    {
        proof {
            F::lemma_modulus_fits();
            lemma_radix_values();
        }
        Num { limbs: [v, 0, 0, 0], field: PhantomData }
    }
}

impl<F: PrimeField> FromSpecImpl<u64> for Num<F> {
    open spec fn obeys_from_spec() -> bool {
        true
    }

    closed spec fn from_spec(v: u64) -> Self {
        Num { limbs: [v, 0, 0, 0], field: PhantomData }
    }
}

impl<F: PrimeField> Clone for Num<F> {
    fn clone(&self) -> (r: Self)
        ensures
            r@ == self@,
    {
        proof {
            use_type_invariant(self);
        }
        Num { limbs: self.limbs, field: PhantomData }
    }
}

impl<F: PrimeField> PartialEq for Num<F> {
    fn eq(&self, other: &Self) -> (r: bool) {
        proof {
            if self@ == other@ {
                lemma_limbs_injective(self.limbs@, other.limbs@);
            }
        }
        self.limbs[0] == other.limbs[0] && self.limbs[1] == other.limbs[1] && self.limbs[2]
            == other.limbs[2] && self.limbs[3] == other.limbs[3]
    }
}

impl<F: PrimeField> PartialEqSpecImpl for Num<F> {
    open spec fn obeys_eq_spec() -> bool {
        true
    }

    /// Two elements are equal when one integer stands for both.
    open spec fn eq_spec(&self, other: &Self) -> bool {
        self@ == other@
    }
}

impl<F: PrimeField> Eq for Num<F> {

}

} // verus!
