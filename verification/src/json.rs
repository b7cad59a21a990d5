//! JSON at the edge of the host: the text of request parameters, and the
//! document that a worker's reply stands for.

use vstd::prelude::*;

use crate::protocol::{Response, ResponseView};

verus! {

/// A JSON value of `serde_json`. Carried through, never looked into.
#[verifier::external_type_specification]
#[verifier::external_body]
pub struct ExJsonValue(serde_json::Value);

/// The failure to read JSON, as `serde_json` reports it.
#[verifier::external_type_specification]
#[verifier::external_body]
pub struct ExJsonFailure(serde_json::Error);

/// The compact JSON text of a value.
pub uninterp spec fn json_text(value: serde_json::Value) -> Seq<u8>;

/// The value that a JSON text holds, `None` where the text is no JSON document.
pub uninterp spec fn parsed_json(text: Seq<u8>) -> Option<serde_json::Value>;

/// Writes a value as compact JSON with `serde_json::to_vec`. The text depends
/// on the value alone, so it has a name. Writing a `Value` into memory has no
/// way to fail: its keys are strings and the writer is a `Vec`.
#[verifier::external_body]
pub(crate) fn write_json(value: &serde_json::Value) -> (text: Vec<u8>)
    ensures
        text@ == json_text(*value),
{
    match serde_json::to_vec(value) {
        Ok(text) => text,
        Err(_) => Vec::new(),
    }
}

/// Reads a JSON document with `serde_json::from_slice`. Whether the text is a
/// document, and which value it holds, depends on the text alone, so the
/// result has a name.
#[verifier::external_body]
pub(crate) fn read_json(text: &Vec<u8>) -> (read: Result<serde_json::Value, serde_json::Error>)
    ensures
        match read {
            Ok(value) => parsed_json(text@) == Some(value),
            Err(_) => parsed_json(text@) is None,
        },
{
    serde_json::from_slice(text.as_slice())
}

/// The digits of a number in base ten, as ASCII.
pub open spec fn decimal(n: nat) -> Seq<u8>
    decreases n,
{
    if n < 10 {
        seq![(48 + n) as u8]
    } else {
        decimal(n / 10).push((48 + n % 10) as u8)
    }
}

/// The bytes as numbers in base ten with commas between them.
pub open spec fn byte_list(bytes: Seq<u8>) -> Seq<u8>
    decreases bytes.len(),
{
    if bytes.len() == 0 {
        Seq::empty()
    } else if bytes.len() == 1 {
        decimal(bytes[0] as nat)
    } else {
        byte_list(bytes.drop_last()) + seq![44u8] + decimal(bytes.last() as nat)
    }
}

/// The JSON object with one field, named `field`, that holds the bytes as an
/// array of numbers: `{"field":[1,2,3]}`.
pub open spec fn tagged_bytes(field: Seq<u8>, bytes: Seq<u8>) -> Seq<u8> {
    seq![123u8, 34u8] + field + seq![34u8, 58u8, 91u8] + byte_list(bytes) + seq![93u8, 125u8]
}

/// The field name `cbor`.
pub open spec fn cbor_field() -> Seq<u8> {
    seq![99u8, 98u8, 111u8, 114u8]
}

/// The field name `tx`.
pub open spec fn tx_field() -> Seq<u8> {
    seq![116u8, 120u8]
}

/// The JSON document that a reply stands for. An acknowledgement is the empty
/// object `{}`. JSON bytes are the document as they are. CBOR bytes go under
/// the field `cbor`, and the bytes of a partial transaction under `tx`.
pub open spec fn reply_text(reply: ResponseView) -> Seq<u8> {
    match reply {
        ResponseView::Acknowledge => seq![123u8, 125u8],
        ResponseView::Json(text) => text,
        ResponseView::Cbor(bytes) => tagged_bytes(cbor_field(), bytes),
        ResponseView::PartialTx(bytes) => tagged_bytes(tx_field(), bytes),
    }
}

/// Appends the digits of `byte` in base ten.
fn push_decimal(text: &mut Vec<u8>, byte: u8)
    ensures
        final(text)@ == old(text)@ + decimal(byte as nat),
{
    proof {
        reveal_with_fuel(decimal, 3);
    }
    if byte >= 100 {
        text.push(48 + byte / 100);
    }
    if byte >= 10 {
        text.push(48 + (byte / 10) % 10);
    }
    text.push(48 + byte % 10);
    assert(text@ =~= old(text)@ + decimal(byte as nat));
}

/// Appends each of `bytes`.
fn push_all(text: &mut Vec<u8>, bytes: &Vec<u8>)
    ensures
        final(text)@ == old(text)@ + bytes@,
{
    let mut i: usize = 0;
    while i < bytes.len()
        invariant
            i <= bytes.len(),
            text@ == old(text)@ + bytes@.take(i as int),
        decreases bytes.len() - i,
    {
        text.push(bytes[i]);
        assert(bytes@.take(i + 1) == bytes@.take(i as int).push(bytes@[i as int]));
        i += 1;
    }
    assert(bytes@.take(bytes.len() as int) == bytes@);
}

/// Writes the object with one field that holds the bytes as numbers.
fn render_tagged(field: &Vec<u8>, bytes: &Vec<u8>) -> (text: Vec<u8>)
    ensures
        text@ == tagged_bytes(field@, bytes@),
{
    let mut text: Vec<u8> = Vec::new();
    text.push(123);
    text.push(34);
    push_all(&mut text, field);
    text.push(34);
    text.push(58);
    text.push(91);
    let ghost head = text@;
    assert(head == seq![123u8, 34u8] + field@ + seq![34u8, 58u8, 91u8]);
    let mut i: usize = 0;
    while i < bytes.len()
        invariant
            i <= bytes.len(),
            text@ == head + byte_list(bytes@.take(i as int)),
        decreases bytes.len() - i,
    {
        let ghost before = bytes@.take(i as int);
        let ghost after = bytes@.take(i + 1);
        assert(after.drop_last() == before);
        assert(after.last() == bytes@[i as int]);
        if i > 0 {
            text.push(44);
        }
        push_decimal(&mut text, bytes[i]);
        assert(text@ == head + byte_list(after)) by {
            if i == 0 {
                assert(byte_list(before) == Seq::<u8>::empty());
            } else {
                assert(after.len() > 1);
            }
        }
        i += 1;
    }
    assert(bytes@.take(bytes.len() as int) == bytes@);
    text.push(93);
    text.push(125);
    assert(text@ == tagged_bytes(field@, bytes@));
    text
}

/// Writes the JSON document that a reply stands for.
pub fn render_reply(reply: &Response) -> (text: Vec<u8>)
    ensures
        text@ == reply_text(reply@),
{
    match reply {
        Response::Acknowledge => {
            let mut text: Vec<u8> = Vec::new();
            text.push(123);
            text.push(125);
            assert(text@ == seq![123u8, 125u8]);
            text
        },
        Response::Json(document) => {
            let mut text: Vec<u8> = Vec::new();
            push_all(&mut text, document);
            assert(text@ == document@);
            text
        },
        Response::Cbor(bytes) => {
            let mut field: Vec<u8> = Vec::new();
            field.push(99);
            field.push(98);
            field.push(111);
            field.push(114);
            assert(field@ == cbor_field());
            render_tagged(&field, bytes)
        },
        Response::PartialTx(bytes) => {
            let mut field: Vec<u8> = Vec::new();
            field.push(116);
            field.push(120);
            assert(field@ == tx_field());
            render_tagged(&field, bytes)
        },
    }
}

/// Turns a worker's reply into the JSON value that it stands for: the value
/// that its document holds, `None` where its bytes are no JSON document.
pub fn reply_to_json(reply: &Response) -> (json: Option<serde_json::Value>)
    ensures
        json == parsed_json(reply_text(reply@)),
{
    let text = render_reply(reply);
    match read_json(&text) {
        Ok(value) => Some(value),
        Err(_) => None,
    }
}

} // verus!
