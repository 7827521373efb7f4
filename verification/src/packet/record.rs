//! The frame around cipher suites and extensions: a ClientHello record.

use crate::wire::{
    append, lemma_narrow_u16, lemma_narrow_u24, lemma_u16_bytes_low, u16_bytes, u16_list, u24_bytes,
    wu16, wu16_list, wu24, wu8,
};
use vstd::prelude::*;

verus! {

/// The body of a ClientHello: version TLS 1.2, random, session id, cipher
/// suites, no compression, extensions.
pub open spec fn hello_body(
    random: Seq<u8>,
    session_id: Seq<u8>,
    ciphers: Seq<u16>,
    exts: Seq<u8>,
) -> Seq<u8> {
    u16_bytes(0x0303) + random + seq![0x20u8] + session_id + u16_bytes(2 * ciphers.len() as int)
        + u16_list(ciphers) + seq![0x01u8] + seq![0x00u8] + u16_bytes(exts.len() as int) + exts
}

/// `body` behind the header of a ClientHello message. Of its length the low 24
/// bits are stated.
pub open spec fn hello_message(body: Seq<u8>) -> Seq<u8> {
    seq![0x01u8] + u24_bytes(body.len() as int) + body
}

/// `message` behind the header of a handshake record of version TLS 1.0. Of its
/// length the low 16 bits are stated.
pub open spec fn handshake_record(message: Seq<u8>) -> Seq<u8> {
    seq![0x16u8] + u16_bytes(0x0301) + u16_bytes(message.len() as int) + message
}

/// A whole ClientHello record.
pub open spec fn hello_record(
    random: Seq<u8>,
    session_id: Seq<u8>,
    ciphers: Seq<u16>,
    exts: Seq<u8>,
) -> Seq<u8> {
    handshake_record(hello_message(hello_body(random, session_id, ciphers, exts)))
}

/// Wraps cipher suites and extensions into a ClientHello record.
pub fn assemble(random: &[u8; 32], sess_id: &[u8; 32], ciphers: &[u16], exts: &[u8]) -> (rec: Vec<
    u8,
>)
    ensures
        rec@ == hello_record(random@, sess_id@, ciphers@, exts@),
{
    let body = assemble_body(random, sess_id, ciphers, exts);
    let message = assemble_message(body.as_slice());
    assemble_record(message.as_slice())
}

/// Twice `n`, of which the low 16 bits are kept.
fn double_u16(n: usize) -> (twice: u16)
    ensures
        u16_bytes(twice as int) == u16_bytes(2 * n as int),
{
    let twice: u16 = (n as u16).wrapping_mul(2);
    proof {
        lemma_narrow_u16(n);
        let low = n as int % 65536;
        assert(twice == (low * 2) % 65536);
        assert(twice == (2 * n as int) % 65536);
        lemma_u16_bytes_low(2 * n as int);
    }
    twice
}

fn assemble_body(random: &[u8; 32], sess_id: &[u8; 32], ciphers: &[u16], exts: &[u8]) -> (body: Vec<
    u8,
>)
    ensures
        body@ == hello_body(random@, sess_id@, ciphers@, exts@),
{
    proof {
        lemma_narrow_u16(exts.len());
    }
    let ciphers_len: u16 = double_u16(ciphers.len());
    let mut body: Vec<u8> = Vec::new();
    wu16(&mut body, 0x0303);
    assert(body@ =~= u16_bytes(0x0303));
    append(&mut body, random.as_slice());
    wu8(&mut body, 0x20);
    append(&mut body, sess_id.as_slice());
    wu16(&mut body, ciphers_len);
    wu16_list(&mut body, ciphers);
    wu8(&mut body, 0x01);
    wu8(&mut body, 0x00);
    wu16(&mut body, exts.len() as u16);
    append(&mut body, exts);
    body
}

fn assemble_message(body: &[u8]) -> (message: Vec<u8>)
    ensures
        message@ == hello_message(body@),
{
    proof {
        lemma_narrow_u24(body.len());
    }
    let mut message: Vec<u8> = Vec::new();
    wu8(&mut message, 0x01);
    assert(message@ =~= seq![0x01]);
    wu24(&mut message, body.len() as u32);
    append(&mut message, body);
    message
}

fn assemble_record(message: &[u8]) -> (rec: Vec<u8>)
    ensures
        rec@ == handshake_record(message@),
{
    proof {
        lemma_narrow_u16(message.len());
    }
    let mut rec: Vec<u8> = Vec::new();
    wu8(&mut rec, 0x16);
    assert(rec@ =~= seq![0x16]);
    wu16(&mut rec, 0x0301);
    wu16(&mut rec, message.len() as u16);
    append(&mut rec, message);
    rec
}

} // verus!
