//! What crosses the boundary between the host and a worker component.

use vstd::prelude::*;

verus! {

/// Identifies a channel within its worker. The worker picks it.
pub type ChannelId = u32;

/// The code by which a component reports that it could not handle an event.
pub type HandleError = u32;

/// Matches outputs by the tokens they carry.
#[derive(Clone, Debug, PartialEq, Eq)]
pub struct TokenPattern {
    pub policy: Vec<u8>,
    pub name: Option<Vec<u8>>,
}

/// Matches transaction outputs.
#[derive(Clone, Debug, PartialEq, Eq)]
pub struct UtxoPattern {
    /// The exact address that an output must be sent to.
    pub address: Option<Vec<u8>>,
    /// The tokens that an output must carry.
    pub token: Option<TokenPattern>,
}

/// What a channel wants to receive.
#[derive(Clone, Debug, PartialEq, Eq)]
pub enum EventPattern {
    Utxo(UtxoPattern),
    UtxoUndo(UtxoPattern),
    Timer(u64),
    Request(String),
    Message(String),
}

/// What the host delivers to a channel. The bytes are the encoded record.
#[derive(Clone, Debug, PartialEq, Eq)]
pub enum Event {
    Utxo(Vec<u8>),
    UtxoUndo(Vec<u8>),
    Timer(u64),
    Request(Vec<u8>),
    Message(Vec<u8>),
}

/// What a worker answers.
#[derive(Clone, Debug, PartialEq, Eq)]
pub enum Response {
    Acknowledge,
    Json(Vec<u8>),
    Cbor(Vec<u8>),
    PartialTx(Vec<u8>),
}

/// The mathematical value of an [`EventPattern`] as far as routing reads it.
pub enum PatternView {
    /// A request for the method.
    Request(Seq<char>),
    /// Outputs sent to exactly this address, whatever tokens they carry.
    UtxoAddress(Seq<u8>),
    /// A pattern for which no matching rule exists.
    Unsupported,
}

/// The mathematical value of an [`Event`].
pub enum EventView {
    Utxo(Seq<u8>),
    UtxoUndo(Seq<u8>),
    Timer(u64),
    Request(Seq<u8>),
    Message(Seq<u8>),
}

/// The mathematical value of a [`Response`].
pub enum ResponseView {
    Acknowledge,
    Json(Seq<u8>),
    Cbor(Seq<u8>),
    PartialTx(Seq<u8>),
}

impl View for EventPattern {
    type V = PatternView;

    open spec fn view(&self) -> PatternView {
        match *self {
            EventPattern::Request(method) => PatternView::Request(method@),
            EventPattern::Utxo(UtxoPattern { address: Some(address), token: None }) =>
                PatternView::UtxoAddress(address@),
            _ => PatternView::Unsupported,
        }
    }
}

impl EventPattern {
    /// Whether the router has a matching rule for the pattern: requests by
    /// method, and outputs by exact address alone.
    pub open spec fn is_supported(&self) -> bool {
        !(self@ is Unsupported)
    }

    /// Tells whether the router has a matching rule for the pattern.
    pub fn supported(&self) -> (yes: bool)
        ensures
            yes == self.is_supported(),
    {
        match self {
            EventPattern::Request(_) => true,
            EventPattern::Utxo(pattern) => pattern.address.is_some() && pattern.token.is_none(),
            _ => false,
        }
    }
}

impl View for Event {
    type V = EventView;

    open spec fn view(&self) -> EventView {
        match *self {
            Event::Utxo(bytes) => EventView::Utxo(bytes@),
            Event::UtxoUndo(bytes) => EventView::UtxoUndo(bytes@),
            Event::Timer(at) => EventView::Timer(at),
            Event::Request(bytes) => EventView::Request(bytes@),
            Event::Message(bytes) => EventView::Message(bytes@),
        }
    }
}

impl View for Response {
    type V = ResponseView;

    open spec fn view(&self) -> ResponseView {
        match *self {
            Response::Acknowledge => ResponseView::Acknowledge,
            Response::Json(bytes) => ResponseView::Json(bytes@),
            Response::Cbor(bytes) => ResponseView::Cbor(bytes@),
            Response::PartialTx(bytes) => ResponseView::PartialTx(bytes@),
        }
    }
}

/// Copies bytes.
pub fn copy_bytes(bytes: &Vec<u8>) -> (copy: Vec<u8>)
    ensures
        copy@ == bytes@,
{
    let mut copy: Vec<u8> = Vec::with_capacity(bytes.len());
    let mut i: usize = 0;
    while i < bytes.len()
        invariant
            i <= bytes.len(),
            copy@ == bytes@.take(i as int),
        decreases bytes.len() - i,
    {
        copy.push(bytes[i]);
        assert(bytes@.take(i + 1) == bytes@.take(i as int).push(bytes@[i as int]));
        i += 1;
    }
    assert(bytes@.take(bytes.len() as int) == bytes@);
    copy
}

/// Tells whether two byte strings hold the same bytes.
pub fn same_bytes(a: &Vec<u8>, b: &Vec<u8>) -> (same: bool)
    ensures
        same == (a@ == b@),
{
    if a.len() != b.len() {
        return false;
    }
    let mut i: usize = 0;
    while i < a.len()
        invariant
            i <= a.len(),
            a.len() == b.len(),
            a@.take(i as int) == b@.take(i as int),
        decreases a.len() - i,
    {
        if a[i] != b[i] {
            return false;
        }
        assert(a@.take(i + 1) == a@.take(i as int).push(a@[i as int]));
        assert(b@.take(i + 1) == b@.take(i as int).push(b@[i as int]));
        i += 1;
    }
    assert(a@.take(a.len() as int) == a@);
    assert(b@.take(b.len() as int) == b@);
    true
}

impl Event {
    /// Copies the event.
    pub fn duplicate(&self) -> (copy: Event)
        ensures
            copy@ == self@,
    {
        match self {
            Event::Utxo(bytes) => Event::Utxo(copy_bytes(bytes)),
            Event::UtxoUndo(bytes) => Event::UtxoUndo(copy_bytes(bytes)),
            Event::Timer(at) => Event::Timer(*at),
            Event::Request(bytes) => Event::Request(copy_bytes(bytes)),
            Event::Message(bytes) => Event::Message(copy_bytes(bytes)),
        }
    }
}

} // verus!
