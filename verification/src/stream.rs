use vstd::prelude::*;
use crate::page::Page;
use crate::schema::{KnownObject, spec_class_name};
use vstd::utf8::encode_utf8;

verus! {

/// A failure to stream a result back to the front-end.
#[derive(Debug)]
pub enum StreamerError {
    MissingOutputPortEnvVar,
    FailedToCastPort,
    FailedToConnectToStream(String),
    FailedToWriteLength(String),
    FailedToWriteData(String),
    FailedToFlushStream(String),
}

/// The four little-endian bytes of `x`.
pub open spec fn spec_le_bytes(x: u32) -> Seq<u8> {
    seq![
        (x % 256) as u8,
        ((x / 256) % 256) as u8,
        ((x / 65536) % 256) as u8,
        (x / 16777216) as u8,
    ]
}

/// A message as the front-end reads it: the page number, the length of the class name and
/// the name, then the length of the payload and the payload; numbers are four bytes,
/// little-endian, lengths kept to their low 32 bits.
pub open spec fn spec_frame(page: Page, class_name: Seq<u8>, payload: Seq<u8>) -> Seq<u8> {
    spec_le_bytes(page.0) + spec_le_bytes(class_name.len() as u32) + class_name + spec_le_bytes(
        payload.len() as u32,
    ) + payload
}

/// The four little-endian bytes of `x`.
pub fn le_bytes(x: u32) -> (r: Vec<u8>)
    ensures
        r@ == spec_le_bytes(x),
{
    let mut r: Vec<u8> = Vec::new();
    r.push((x % 256) as u8);
    r.push(((x / 256) % 256) as u8);
    r.push(((x / 65536) % 256) as u8);
    r.push((x / 16777216) as u8);
    assert(r@ =~= spec_le_bytes(x));
    r
}

/// Appends `bytes` to `out`.
pub(crate) fn append_bytes(out: &mut Vec<u8>, bytes: &[u8])
    ensures
        final(out)@ == old(out)@ + bytes@,
{
    let mut i: usize = 0;
    while i < bytes.len()
        invariant
            i <= bytes@.len(),
            out@ == old(out)@ + bytes@.take(i as int),
        decreases bytes@.len() - i,
    {
        out.push(bytes[i]);
        i = i + 1;
        assert(out@ =~= old(out)@ + bytes@.take(i as int));
    }
    assert(bytes@.take(i as int) =~= bytes@);
}

/// The message that reports `payload` as the result of classifying `page` as `class`.
pub fn encode_frame(page: Page, class: KnownObject, payload: &[u8]) -> (r: Vec<u8>)
    ensures
        r@ == spec_frame(page, encode_utf8(spec_class_name(class)), payload@),
{
    let class_bytes = class.name().as_bytes();
    let mut out = le_bytes(page.0);
    let len_bytes = le_bytes(class_bytes.len() as u32);
    append_bytes(&mut out, len_bytes.as_slice());
    append_bytes(&mut out, class_bytes);
    let payload_len = le_bytes(payload.len() as u32);
    append_bytes(&mut out, payload_len.as_slice());
    append_bytes(&mut out, payload);
    assert(out@ =~= spec_frame(page, class_bytes@, payload@));
    out
}

} // verus!
