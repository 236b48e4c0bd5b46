//! A codec for a transaction record that carries zero-knowledge proofs, to
//! and from the byte layouts of four chains.
//!
//! The record is the same everywhere; each chain has its own byte order,
//! header and framing of the trailing data. Every adapter module has a `read`
//! and a `write`, says what they do in a pair of spec functions, `decoding`
//! and `encoding`, and proves that decoding inverts encoding.
use vstd::prelude::*;
use vstd::slice::slice_to_vec;
use vstd::std_specs::cmp::PartialEqSpecImpl;
use vstd::string::StringExecFns;

pub mod bytes;
pub mod error;
pub mod evm;
pub mod field;
pub mod near;
pub mod proofs;
pub mod substrate;
pub mod text;
pub mod utils;
pub mod waves;

use crate::error::CodecError;
use crate::field::{Num, PrimeField};
use crate::proofs::Proof;
use crate::text::{bytes_text, decimal, list_text};
use crate::utils::same_bytes;

verus! {

/// The kind of a transaction. On the wire it is the code 0, 1 or 2.
#[derive(Debug, Clone, Copy, PartialEq, Eq, Structural)]
pub enum TxType {
    Deposit,
    Transfer,
    Withdraw,
}

impl TxType {
    /// The code that stands for this kind on the wire.
    pub open spec fn spec_code(self) -> u16 {
        match self {
            TxType::Deposit => 0,
            TxType::Transfer => 1,
            TxType::Withdraw => 2,
        }
    }

    /// The kind that a wire code stands for, if it stands for one.
    pub open spec fn spec_from_code(value: u16) -> Result<TxType, CodecError> {
        if value == 0 {
            Ok(TxType::Deposit)
        } else if value == 1 {
            Ok(TxType::Transfer)
        } else if value == 2 {
            Ok(TxType::Withdraw)
        } else {
            Err(CodecError::InvalidTxKind)
        }
    }

    /// The code that stands for this kind on the wire.
    #[verifier::when_used_as_spec(spec_code)]
    pub fn code(self) -> (c: u16)
        ensures
            c == self.spec_code(),
    {
        match self {
            TxType::Deposit => 0,
            TxType::Transfer => 1,
            TxType::Withdraw => 2,
        }
    }

    /// The name of this kind.
    pub open spec fn spec_name(self) -> Seq<char> {
        match self {
            TxType::Deposit => "Deposit"@,
            TxType::Transfer => "Transfer"@,
            TxType::Withdraw => "Withdraw"@,
        }
    }

    /// The name of this kind.
    pub fn name(self) -> (s: &'static str)
        ensures
            s@ == self.spec_name(),
    {
        match self {
            TxType::Deposit => "Deposit",
            TxType::Transfer => "Transfer",
            TxType::Withdraw => "Withdraw",
        }
    }

    /// A kind's code stands for that kind.
    pub proof fn lemma_from_code_of_code(kind: TxType)
        ensures
            TxType::spec_from_code(kind.spec_code()) == Ok::<TxType, CodecError>(kind),
    {
    }
}

impl TryFrom<u16> for TxType {
    type Error = CodecError;

    fn try_from(value: u16) -> (r: Result<Self, CodecError>) {
        match value {
            0 => Ok(TxType::Deposit),
            1 => Ok(TxType::Transfer),
            2 => Ok(TxType::Withdraw),
            _ => Err(CodecError::InvalidTxKind),
        }
    }
}

impl vstd::std_specs::convert::TryFromSpecImpl<u16> for TxType {
    open spec fn obeys_try_from_spec() -> bool {
        true
    }

    open spec fn try_from_spec(value: u16) -> Result<Self, CodecError> {
        TxType::spec_from_code(value)
    }
}

/// A transaction record, the same for every chain.
///
/// `token_id` stands on the wire of the account chain only; the other
/// adapters decode it as the empty string.
#[derive(Debug)]
pub struct TxData<Fr: PrimeField, P: Proof> {
    pub tx_type: TxType,
    pub proof: P,
    pub tree_proof: P,
    pub root_after: Num<Fr>,
    pub delta: Num<Fr>,
    pub out_commit: Num<Fr>,
    pub nullifier: Num<Fr>,
    pub memo: Vec<u8>,
    pub extra_data: Vec<u8>,
    pub token_id: String,
}

/// What a record holds: each field element as the integer that stands for
/// it, each proof as its view, each payload as its bytes.
pub ghost struct TxDataView<PV> {
    pub tx_type: TxType,
    pub proof: PV,
    pub tree_proof: PV,
    pub root_after: nat,
    pub delta: nat,
    pub out_commit: nat,
    pub nullifier: nat,
    pub memo: Seq<u8>,
    pub extra_data: Seq<u8>,
    pub token_id: Seq<char>,
}

impl<PV> TxDataView<PV> {
    /// Whether two records agree on every field that all four chains carry,
    /// which is every field but `token_id`.
    pub open spec fn agrees(self, other: Self) -> bool {
        &&& self.tx_type == other.tx_type
        &&& self.proof == other.proof
        &&& self.tree_proof == other.tree_proof
        &&& self.root_after == other.root_after
        &&& self.delta == other.delta
        &&& self.out_commit == other.out_commit
        &&& self.nullifier == other.nullifier
        &&& self.memo == other.memo
        &&& self.extra_data == other.extra_data
    }

    /// The same record without a token identifier.
    pub open spec fn without_token(self) -> Self {
        TxDataView { token_id: Seq::empty(), ..self }
    }
}

impl<Fr: PrimeField, P: Proof> View for TxData<Fr, P> {
    type V = TxDataView<P::V>;

    open spec fn view(&self) -> TxDataView<P::V> {
        TxDataView {
            tx_type: self.tx_type,
            proof: self.proof@,
            tree_proof: self.tree_proof@,
            root_after: self.root_after@,
            delta: self.delta@,
            out_commit: self.out_commit@,
            nullifier: self.nullifier@,
            memo: self.memo@,
            extra_data: self.extra_data@,
            token_id: self.token_id@,
        }
    }
}

impl<Fr: PrimeField, P: Proof> TxData<Fr, P> {
    /// Whether every field element of `v` is below the modulus of its field.
    /// It holds of the view of every record.
    pub open spec fn canonical(v: TxDataView<P::V>) -> bool {
        &&& v.root_after < Fr::modulus()
        &&& v.delta < Fr::modulus()
        &&& v.out_commit < Fr::modulus()
        &&& v.nullifier < Fr::modulus()
        &&& P::valid(v.proof)
        &&& P::valid(v.tree_proof)
    }
}

impl<Fr: PrimeField, P: Proof> TxData<Fr, P> {
    /// The text that stands for the record `v` where a person is to read it:
    /// every field by its name, in the order of the declaration.
    pub open spec fn debug_text(v: TxDataView<P::V>) -> Seq<char> {
        "TxData { tx_type: "@ + v.tx_type.spec_name() + ", proof: "@ + P::debug_text(v.proof)
            + ", tree_proof: "@ + P::debug_text(v.tree_proof) + ", root_after: "@ + decimal(
            v.root_after,
        ) + ", delta: "@ + decimal(v.delta) + ", out_commit: "@ + decimal(v.out_commit)
            + ", nullifier: "@ + decimal(v.nullifier) + ", memo: "@ + list_text(v.memo)
            + ", extra_data: "@ + list_text(v.extra_data) + ", token_id: \""@ + v.token_id
            + "\" }"@
    }

    /// A text for a person to read. It holds what the record holds and
    /// nothing else.
    pub fn debug_fmt(&self) -> (s: String)
        ensures
            s@ == Self::debug_text(self@),
    {
        let mut s = String::from_str("TxData { tx_type: ");
        s.append(self.tx_type.name());
        s.append(", proof: ");
        s.append(self.proof.debug_fmt().as_str());
        s.append(", tree_proof: ");
        s.append(self.tree_proof.debug_fmt().as_str());
        s.append(", root_after: ");
        s.append(self.root_after.debug_fmt().as_str());
        s.append(", delta: ");
        s.append(self.delta.debug_fmt().as_str());
        s.append(", out_commit: ");
        s.append(self.out_commit.debug_fmt().as_str());
        s.append(", nullifier: ");
        s.append(self.nullifier.debug_fmt().as_str());
        s.append(", memo: ");
        s.append(bytes_text(self.memo.as_slice()).as_str());
        s.append(", extra_data: ");
        s.append(bytes_text(self.extra_data.as_slice()).as_str());
        s.append(", token_id: \"");
        s.append(self.token_id.as_str());
        s.append("\" }");
        s
    }
}

impl<Fr: PrimeField, P: Proof> Clone for TxData<Fr, P> {
    fn clone(&self) -> (r: Self)
        ensures
            r@ == self@,
    {
        TxData {
            tx_type: self.tx_type,
            proof: self.proof.my_clone(),
            tree_proof: self.tree_proof.my_clone(),
            root_after: self.root_after.clone(),
            delta: self.delta.clone(),
            out_commit: self.out_commit.clone(),
            nullifier: self.nullifier.clone(),
            memo: slice_to_vec(self.memo.as_slice()),
            extra_data: slice_to_vec(self.extra_data.as_slice()),
            token_id: self.token_id.clone(),
        }
    }
}

impl<Fr: PrimeField, P: Proof> PartialEq for TxData<Fr, P> {
    /// Two records are equal when they agree on every field but `token_id`.
    fn eq(&self, other: &Self) -> (r: bool) {
        self.tx_type == other.tx_type && self.proof.my_eq(&other.proof) && self.tree_proof.my_eq(
            &other.tree_proof,
        ) && self.root_after == other.root_after && self.delta == other.delta && self.out_commit
            == other.out_commit && self.nullifier == other.nullifier && same_bytes(
            self.memo.as_slice(),
            other.memo.as_slice(),
        ) && same_bytes(self.extra_data.as_slice(), other.extra_data.as_slice())
    }
}

impl<Fr: PrimeField, P: Proof> PartialEqSpecImpl for TxData<Fr, P> {
    open spec fn obeys_eq_spec() -> bool {
        true
    }

    open spec fn eq_spec(&self, other: &Self) -> bool {
        self@.agrees(other@)
    }
}

impl<Fr: PrimeField, P: Proof> Eq for TxData<Fr, P> {

}

} // verus!
