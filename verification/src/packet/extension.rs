//! The extensions of a ClientHello: what each holds, and how it is written.

use crate::wire::{
    append, lemma_narrow_u16, lemma_narrow_u8, u16_bytes, u16_list, wu16, wu16_list,
};
use vstd::prelude::*;
use vstd::string::StringSliceAdditionalSpecFns;

verus! {

/// One extension: its type, and the data behind its four-byte header.
pub struct Extension {
    pub kind: u16,
    pub data: Seq<u8>,
}

/// `ext` on the wire. Of the length of its data the low 16 bits are stated.
pub open spec fn encode_extension(ext: Extension) -> Seq<u8> {
    u16_bytes(ext.kind as int) + u16_bytes(ext.data.len() as int) + ext.data
}

/// `exts` on the wire, one behind the other.
pub open spec fn encode_extensions(exts: Seq<Extension>) -> Seq<u8>
    decreases exts.len(),
{
    if exts.len() == 0 {
        Seq::empty()
    } else {
        encode_extensions(exts.drop_last()) + encode_extension(exts.last())
    }
}

/// `data` behind its length, of which the low 16 bits are stated.
pub open spec fn vec16(data: Seq<u8>) -> Seq<u8> {
    u16_bytes(data.len() as int) + data
}

/// `data` behind its length, of which the low 8 bits are stated.
pub open spec fn vec8(data: Seq<u8>) -> Seq<u8> {
    seq![(data.len() % 256) as u8] + data
}

/// Protocol names, each behind its length.
pub open spec fn protocol_names(protos: Seq<&str>) -> Seq<u8>
    decreases protos.len(),
{
    if protos.len() == 0 {
        Seq::empty()
    } else {
        protocol_names(protos.drop_last()) + vec8(protos.last().spec_bytes())
    }
}

/// server_name: a list of one host name. The length of the list is that of the
/// name and 3 bytes more, and of both the low 16 bits are stated.
pub open spec fn server_name(name: Seq<u8>) -> Extension {
    Extension { kind: 0x0000, data: vec16(seq![0x00u8] + vec16(name)) }
}

/// An extension without data.
pub open spec fn bare(kind: u16) -> Extension {
    Extension { kind, data: Seq::empty() }
}

/// renegotiation_info of a first handshake.
pub open spec fn renegotiation_info() -> Extension {
    Extension { kind: 0xff01, data: seq![0x00] }
}

/// supported_groups.
pub open spec fn supported_groups(groups: Seq<u16>) -> Extension {
    Extension { kind: 0x000a, data: vec16(u16_list(groups)) }
}

/// ec_point_formats: uncompressed only.
pub open spec fn ec_point_formats() -> Extension {
    Extension { kind: 0x000b, data: seq![0x01, 0x00] }
}

/// application_layer_protocol_negotiation.
pub open spec fn alpn(protos: Seq<&str>) -> Extension {
    Extension { kind: 0x0010, data: vec16(protocol_names(protos)) }
}

/// status_request: OCSP, no responder ids, no extensions.
pub open spec fn status_request() -> Extension {
    Extension { kind: 0x0005, data: seq![0x01, 0x00, 0x00, 0x00, 0x00] }
}

/// signature_algorithms.
pub open spec fn signature_algorithms(algs: Seq<u16>) -> Extension {
    Extension { kind: 0x000d, data: vec16(u16_list(algs)) }
}

/// key_share with one x25519 public key.
pub open spec fn key_share_x25519(key: Seq<u8>) -> Extension {
    Extension { kind: 0x0033, data: vec16(u16_bytes(0x001d) + vec16(key)) }
}

/// psk_key_exchange_modes: with (EC)DHE only.
pub open spec fn psk_modes() -> Extension {
    Extension { kind: 0x002d, data: seq![0x01, 0x01] }
}

/// supported_versions.
pub open spec fn supported_versions(versions: Seq<u16>) -> Extension {
    Extension { kind: 0x002b, data: vec8(u16_list(versions)) }
}

/// compress_certificate: brotli only.
pub open spec fn compress_certificate() -> Extension {
    Extension { kind: 0x001b, data: seq![0x02, 0x00, 0x02] }
}

/// application_settings, whose list of protocols has no length in front.
pub open spec fn application_settings(protos: Seq<&str>) -> Extension {
    Extension { kind: 0x4469, data: protocol_names(protos) }
}

/// An extension of a reserved type, which a server is to ignore.
pub open spec fn reserved(kind: u16) -> Extension {
    Extension { kind, data: seq![0x00] }
}

/// One extension more, on the wire.
pub(crate) broadcast proof fn lemma_encode_push(exts: Seq<Extension>, ext: Extension)
    ensures
        #[trigger] encode_extensions(exts.push(ext)) == encode_extensions(exts) + encode_extension(
            ext,
        ),
{
    assert(exts.push(ext).drop_last() =~= exts);
}

/// No extensions are no bytes.
pub(crate) broadcast proof fn lemma_encode_none()
    ensures
        #[trigger] encode_extensions(Seq::empty()) == Seq::<u8>::empty(),
{
}

/// Appends an extension of type `t` with the data `data`.
pub fn push_ext(buf: &mut Vec<u8>, t: u16, data: &[u8])
    ensures
        final(buf)@ == old(buf)@ + encode_extension(Extension { kind: t, data: data@ }),
{
    proof {
        lemma_narrow_u16(data.len());
    }
    wu16(buf, t);
    wu16(buf, data.len() as u16);
    append(buf, data);
    assert(buf@ =~= old(buf)@ + encode_extension(Extension { kind: t, data: data@ }));
}

/// Appends the length of `data` as two bytes, then `data`.
fn push_vec16(buf: &mut Vec<u8>, data: &[u8])
    ensures
        final(buf)@ == old(buf)@ + vec16(data@),
{
    proof {
        lemma_narrow_u16(data.len());
    }
    wu16(buf, data.len() as u16);
    append(buf, data);
    assert(buf@ =~= old(buf)@ + vec16(data@));
}

/// Appends the length of `data` as one byte, then `data`.
fn push_vec8(buf: &mut Vec<u8>, data: &[u8])
    ensures
        final(buf)@ == old(buf)@ + vec8(data@),
{
    proof {
        lemma_narrow_u8(data.len());
    }
    buf.push(data.len() as u8);
    append(buf, data);
    assert(buf@ =~= old(buf)@ + vec8(data@));
}

/// Appends each of `protos` behind its length.
fn push_protocol_names(buf: &mut Vec<u8>, protos: &[&str])
    ensures
        final(buf)@ == old(buf)@ + protocol_names(protos@),
{
    let ghost start = buf@;
    let mut i: usize = 0;
    while i < protos.len()
        invariant
            i <= protos.len(),
            buf@ == start + protocol_names(protos@.take(i as int)),
        decreases protos.len() - i,
    {
        assert(protos@.take(i + 1).drop_last() == protos@.take(i as int));
        push_vec8(buf, protos[i].as_bytes());
        i += 1;
    }
    assert(protos@.take(i as int) == protos@);
}

/// The server_name extension for `sni`.
pub fn ext_sni(sni: &str) -> (out: Vec<u8>)
    ensures
        out@ == encode_extension(server_name(sni.spec_bytes())),
{
    let mut list: Vec<u8> = Vec::new();
    list.push(0x00);
    push_vec16(&mut list, sni.as_bytes());
    let mut d: Vec<u8> = Vec::new();
    push_vec16(&mut d, list.as_slice());
    assert(d@ =~= server_name(sni.spec_bytes()).data);
    let mut out: Vec<u8> = Vec::new();
    push_ext(&mut out, 0x0000, d.as_slice());
    assert(out@ =~= encode_extension(server_name(sni.spec_bytes())));
    out
}

/// Appends an extension of type `t` without data.
pub fn ext_empty(buf: &mut Vec<u8>, t: u16)
    ensures
        final(buf)@ == old(buf)@ + encode_extension(bare(t)),
{
    push_ext(buf, t, Vec::new().as_slice());
}

/// Appends renegotiation_info.
pub fn ext_renegotiation_info(buf: &mut Vec<u8>)
    ensures
        final(buf)@ == old(buf)@ + encode_extension(renegotiation_info()),
{
    let data: [u8; 1] = [0x00];
    assert(data@ =~= renegotiation_info().data);
    push_ext(buf, 0xff01, data.as_slice());
}

/// Appends supported_groups.
pub fn ext_supported_groups(buf: &mut Vec<u8>, groups: &[u16])
    ensures
        final(buf)@ == old(buf)@ + encode_extension(supported_groups(groups@)),
{
    let mut list: Vec<u8> = Vec::new();
    wu16_list(&mut list, groups);
    let mut d: Vec<u8> = Vec::new();
    push_vec16(&mut d, list.as_slice());
    assert(d@ =~= supported_groups(groups@).data);
    push_ext(buf, 0x000a, d.as_slice());
}

/// Appends ec_point_formats.
pub fn ext_ec_point_formats(buf: &mut Vec<u8>)
    ensures
        final(buf)@ == old(buf)@ + encode_extension(ec_point_formats()),
{
    let data: [u8; 2] = [0x01, 0x00];
    assert(data@ =~= ec_point_formats().data);
    push_ext(buf, 0x000b, data.as_slice());
}

/// Appends the ALPN extension.
pub fn ext_alpn(buf: &mut Vec<u8>, protos: &[&str])
    ensures
        final(buf)@ == old(buf)@ + encode_extension(alpn(protos@)),
{
    let mut list: Vec<u8> = Vec::new();
    push_protocol_names(&mut list, protos);
    let mut d: Vec<u8> = Vec::new();
    push_vec16(&mut d, list.as_slice());
    assert(list@ =~= protocol_names(protos@));
    assert(d@ =~= alpn(protos@).data);
    push_ext(buf, 0x0010, d.as_slice());
}

/// Appends status_request.
pub fn ext_status_request(buf: &mut Vec<u8>)
    ensures
        final(buf)@ == old(buf)@ + encode_extension(status_request()),
{
    let data: [u8; 5] = [0x01, 0x00, 0x00, 0x00, 0x00];
    assert(data@ =~= status_request().data);
    push_ext(buf, 0x0005, data.as_slice());
}

/// Appends signature_algorithms.
pub fn ext_sig_algs(buf: &mut Vec<u8>, algs: &[u16])
    ensures
        final(buf)@ == old(buf)@ + encode_extension(signature_algorithms(algs@)),
{
    let mut list: Vec<u8> = Vec::new();
    wu16_list(&mut list, algs);
    let mut d: Vec<u8> = Vec::new();
    push_vec16(&mut d, list.as_slice());
    assert(list@ =~= u16_list(algs@));
    assert(d@ =~= signature_algorithms(algs@).data);
    push_ext(buf, 0x000d, d.as_slice());
}

/// Appends key_share with one x25519 public key.
pub fn ext_key_share_x25519(buf: &mut Vec<u8>, key: &[u8; 32])
    ensures
        final(buf)@ == old(buf)@ + encode_extension(key_share_x25519(key@)),
{
    let mut entry: Vec<u8> = Vec::new();
    wu16(&mut entry, 0x001d);
    push_vec16(&mut entry, key.as_slice());
    assert(entry@ =~= u16_bytes(0x001d) + vec16(key@));
    let mut d: Vec<u8> = Vec::new();
    push_vec16(&mut d, entry.as_slice());
    assert(d@ =~= key_share_x25519(key@).data);
    push_ext(buf, 0x0033, d.as_slice());
}

/// Appends psk_key_exchange_modes.
pub fn ext_psk_modes(buf: &mut Vec<u8>)
    ensures
        final(buf)@ == old(buf)@ + encode_extension(psk_modes()),
{
    let data: [u8; 2] = [0x01, 0x01];
    assert(data@ =~= psk_modes().data);
    push_ext(buf, 0x002d, data.as_slice());
}

/// Appends supported_versions.
pub fn ext_supported_versions(buf: &mut Vec<u8>, versions: &[u16])
    ensures
        final(buf)@ == old(buf)@ + encode_extension(supported_versions(versions@)),
{
    let mut list: Vec<u8> = Vec::new();
    wu16_list(&mut list, versions);
    let mut d: Vec<u8> = Vec::new();
    push_vec8(&mut d, list.as_slice());
    assert(list@ =~= u16_list(versions@));
    assert(d@ =~= supported_versions(versions@).data);
    push_ext(buf, 0x002b, d.as_slice());
}

/// Appends compress_certificate.
pub fn ext_compress_cert(buf: &mut Vec<u8>)
    ensures
        final(buf)@ == old(buf)@ + encode_extension(compress_certificate()),
{
    let data: [u8; 3] = [0x02, 0x00, 0x02];
    assert(data@ =~= compress_certificate().data);
    push_ext(buf, 0x001b, data.as_slice());
}

/// Appends application_settings.
pub fn ext_application_settings(buf: &mut Vec<u8>, protos: &[&str])
    ensures
        final(buf)@ == old(buf)@ + encode_extension(application_settings(protos@)),
{
    let mut d: Vec<u8> = Vec::new();
    push_protocol_names(&mut d, protos);
    assert(d@ =~= application_settings(protos@).data);
    push_ext(buf, 0x4469, d.as_slice());
}

/// Appends an extension of the reserved type `grease`.
pub fn ext_grease(buf: &mut Vec<u8>, grease: u16)
    ensures
        final(buf)@ == old(buf)@ + encode_extension(reserved(grease)),
{
    let data: [u8; 1] = [0x00];
    assert(data@ =~= reserved(grease).data);
    push_ext(buf, grease, data.as_slice());
}

} // verus!
