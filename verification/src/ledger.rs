//! The part of a ledger block that the host reads.

use vstd::prelude::*;

verus! {

/// The slot of a block.
pub type BlockSlot = u64;

/// A position in the durable event log.
pub type LogSeq = u64;

/// A digest of `pallas`. Carried through, never looked into.
#[verifier::external_type_specification]
#[verifier::external_body]
pub struct ExDigest<const BYTES: usize>(pallas::crypto::hash::Hash<BYTES>);

/// The hash of a block.
pub type BlockHash = pallas::crypto::hash::Hash<32>;

/// The position of a block on the chain: its slot and its hash.
#[derive(Debug, Eq, PartialEq, Hash)]
pub struct ChainPoint(pub BlockSlot, pub BlockHash);

/// One output of a transaction.
#[derive(Clone, Debug, PartialEq, Eq)]
pub struct TxOutput {
    /// The address bytes as the output records them.
    pub address: Vec<u8>,
    /// The canonical encoding of the whole output.
    pub encoded: Vec<u8>,
}

/// One transaction of a block.
#[derive(Clone, Debug, PartialEq, Eq)]
pub struct Tx {
    pub outputs: Vec<TxOutput>,
}

/// A block as the ledger hands it over.
#[derive(Clone, Debug, PartialEq, Eq)]
pub struct Block {
    pub txs: Vec<Tx>,
}

/// The mathematical value of a [`TxOutput`].
pub struct TxOutputView {
    pub address: Seq<u8>,
    pub encoded: Seq<u8>,
}

impl View for TxOutput {
    type V = TxOutputView;

    open spec fn view(&self) -> TxOutputView {
        TxOutputView { address: self.address@, encoded: self.encoded@ }
    }
}

impl View for Tx {
    type V = Seq<TxOutputView>;

    open spec fn view(&self) -> Seq<TxOutputView> {
        self.outputs@.map_values(|output: TxOutput| output@)
    }
}

impl View for Block {
    type V = Seq<Seq<TxOutputView>>;

    open spec fn view(&self) -> Seq<Seq<TxOutputView>> {
        self.txs@.map_values(|tx: Tx| tx@)
    }
}

/// What decoding the address bytes `raw` comes to: the address in its
/// canonical bytes, or the failure where `raw` is no address.
pub uninterp spec fn decoded_address(raw: Seq<u8>) -> Result<
    Seq<u8>,
    pallas::ledger::addresses::Error,
>;

/// A decoding result with its bytes taken by value.
pub open spec fn address_view(decoded: Result<Vec<u8>, pallas::ledger::addresses::Error>) -> Result<
    Seq<u8>,
    pallas::ledger::addresses::Error,
> {
    match decoded {
        Ok(bytes) => Ok(bytes@),
        Err(failure) => Err(failure),
    }
}

/// Decodes address bytes with `pallas`'s `Address::from_bytes` and hands back
/// the address in its canonical bytes (`Address::to_vec`), or the failure that
/// `from_bytes` reports. Both depend on the bytes alone, so the result has a
/// name.
#[verifier::external_body]
pub(crate) fn decode_address(raw: &Vec<u8>) -> (decoded: Result<
    Vec<u8>,
    pallas::ledger::addresses::Error,
>)
    ensures
        address_view(decoded) == decoded_address(raw@),
{
    match pallas::ledger::addresses::Address::from_bytes(raw.as_slice()) {
        Ok(address) => Ok(address.to_vec()),
        Err(failure) => Err(failure),
    }
}

} // verus!
