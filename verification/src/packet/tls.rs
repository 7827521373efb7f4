//! The built-in ClientHello template.

use crate::packet::extension::{
    alpn, bare, encode_extensions, ext_alpn, ext_empty, ext_key_share_x25519, ext_psk_modes,
    ext_sig_algs, ext_sni, ext_supported_groups, ext_supported_versions, key_share_x25519,
    lemma_encode_none, lemma_encode_push, psk_modes, push_ext, server_name, signature_algorithms,
    supported_groups, supported_versions, Extension,
};
use crate::packet::record::{assemble, hello_record};
use crate::wire::append;
use vstd::prelude::*;
use vstd::string::StringSliceAdditionalSpecFns;

verus! {

/// The random of the template.
pub open spec fn template_random() -> Seq<u8> {
    seq![
        0x41, 0xd5, 0xb5, 0x49, 0xd9, 0xcd, 0x1a, 0xdf,
        0xa7, 0x29, 0x6c, 0x84, 0x18, 0xd1, 0x57, 0xdc,
        0x7b, 0x62, 0x4c, 0x84, 0x28, 0x24, 0xff, 0x49,
        0x3b, 0x93, 0x75, 0xbb, 0x48, 0xd3, 0x4f, 0x2b,
    ]
}

/// The session id of the template.
pub open spec fn template_session_id() -> Seq<u8> {
    seq![
        0xbf, 0x01, 0x8b, 0xcc, 0x90, 0xa7, 0xc8, 0x9a,
        0x23, 0x00, 0x94, 0x81, 0x5a, 0xd0, 0xc1, 0x5b,
        0x73, 0x6e, 0x38, 0xc0, 0x12, 0x09, 0xd7, 0x2d,
        0x28, 0x2c, 0xb5, 0xe2, 0x10, 0x53, 0x28, 0x15,
    ]
}

/// The x25519 public key of the template.
pub open spec fn template_key_share() -> Seq<u8> {
    seq![
        0x43, 0x5b, 0xac, 0xc4, 0xd0, 0x5f, 0x9d, 0x41,
        0xfe, 0xf4, 0x4a, 0xb3, 0xad, 0x55, 0x61, 0x6c,
        0x36, 0xe0, 0x61, 0x34, 0x73, 0xe2, 0x33, 0x87,
        0x70, 0xef, 0xda, 0xa9, 0x86, 0x93, 0xd2, 0x17,
    ]
}

/// The cipher suites of the template.
pub open spec fn template_ciphers() -> Seq<u16> {
    seq![
        0x1302, 0x1303, 0x1301, 0xc02c, 0xc030, 0xc02b, 0xc02f, 0xcca9,
        0xcca8, 0xc024, 0xc028, 0xc023, 0xc027, 0x009f, 0x009e, 0x006b,
        0x0067, 0x00ff,
    ]
}

/// The groups of the template.
pub open spec fn template_groups() -> Seq<u16> {
    seq![
        0x001d, 0x0017, 0x001e, 0x0019, 0x0018, 0x0100, 0x0101, 0x0102,
        0x0103, 0x0104,
    ]
}

/// The signature algorithms of the template.
pub open spec fn template_sig_algs() -> Seq<u16> {
    seq![
        0x0403, 0x0503, 0x0603, 0x0807, 0x0808, 0x0809, 0x080a, 0x080b,
        0x0804, 0x0805, 0x0806, 0x0401, 0x0501, 0x0601, 0x0303, 0x0301,
        0x0302, 0x0402, 0x0502, 0x0602,
    ]
}

/// The extensions of the template for the host `name`.
pub open spec fn template_extensions(name: Seq<u8>) -> Seq<Extension> {
    Seq::<Extension>::empty()
        .push(server_name(name))
        .push(Extension { kind: 0x000b, data: seq![0x03, 0x00, 0x01, 0x02] })
        .push(supported_groups(template_groups()))
        .push(bare(0x0023))
        .push(alpn(seq!["h2", "http/1.1"]))
        .push(bare(0x0016))
        .push(bare(0x0017))
        .push(signature_algorithms(template_sig_algs()))
        .push(supported_versions(seq![0x0304, 0x0303]))
        .push(psk_modes())
        .push(key_share_x25519(template_key_share()))
        .push(bare(0x0015))
}

/// The template, filled in for the host `name`.
pub open spec fn default_record(name: Seq<u8>) -> Seq<u8> {
    hello_record(
        template_random(),
        template_session_id(),
        template_ciphers(),
        encode_extensions(template_extensions(name)),
    )
}

/// The template, filled in for the host `sni`.
pub fn build_client_hello(sni: &str) -> (rec: Vec<u8>)
    ensures
        rec@ == default_record(sni.spec_bytes()),
{
    let random: [u8; 32] = [
        0x41, 0xd5, 0xb5, 0x49, 0xd9, 0xcd, 0x1a, 0xdf,
        0xa7, 0x29, 0x6c, 0x84, 0x18, 0xd1, 0x57, 0xdc,
        0x7b, 0x62, 0x4c, 0x84, 0x28, 0x24, 0xff, 0x49,
        0x3b, 0x93, 0x75, 0xbb, 0x48, 0xd3, 0x4f, 0x2b,
    ];
    let sess_id: [u8; 32] = [
        0xbf, 0x01, 0x8b, 0xcc, 0x90, 0xa7, 0xc8, 0x9a,
        0x23, 0x00, 0x94, 0x81, 0x5a, 0xd0, 0xc1, 0x5b,
        0x73, 0x6e, 0x38, 0xc0, 0x12, 0x09, 0xd7, 0x2d,
        0x28, 0x2c, 0xb5, 0xe2, 0x10, 0x53, 0x28, 0x15,
    ];
    let ciphers: [u16; 18] = [
        0x1302, 0x1303, 0x1301, 0xc02c, 0xc030, 0xc02b, 0xc02f, 0xcca9,
        0xcca8, 0xc024, 0xc028, 0xc023, 0xc027, 0x009f, 0x009e, 0x006b,
        0x0067, 0x00ff,
    ];
    assert(random@ =~= template_random());
    assert(sess_id@ =~= template_session_id());
    assert(ciphers@ =~= template_ciphers());
    let exts = template_exts(sni);
    assemble(&random, &sess_id, ciphers.as_slice(), exts.as_slice())
}

fn template_exts(sni: &str) -> (exts: Vec<u8>)
    ensures
        exts@ == encode_extensions(template_extensions(sni.spec_bytes())),
{
    let key_share: [u8; 32] = [
        0x43, 0x5b, 0xac, 0xc4, 0xd0, 0x5f, 0x9d, 0x41,
        0xfe, 0xf4, 0x4a, 0xb3, 0xad, 0x55, 0x61, 0x6c,
        0x36, 0xe0, 0x61, 0x34, 0x73, 0xe2, 0x33, 0x87,
        0x70, 0xef, 0xda, 0xa9, 0x86, 0x93, 0xd2, 0x17,
    ];
    let groups: [u16; 10] = [
        0x001d, 0x0017, 0x001e, 0x0019, 0x0018, 0x0100, 0x0101, 0x0102,
        0x0103, 0x0104,
    ];
    let sig_algs: [u16; 20] = [
        0x0403, 0x0503, 0x0603, 0x0807, 0x0808, 0x0809, 0x080a, 0x080b,
        0x0804, 0x0805, 0x0806, 0x0401, 0x0501, 0x0601, 0x0303, 0x0301,
        0x0302, 0x0402, 0x0502, 0x0602,
    ];
    let formats: [u8; 4] = [0x03, 0x00, 0x01, 0x02];
    let versions: [u16; 2] = [0x0304, 0x0303];
    let protos: [&str; 2] = ["h2", "http/1.1"];
    assert(key_share@ =~= template_key_share());
    assert(groups@ =~= template_groups());
    assert(sig_algs@ =~= template_sig_algs());
    assert(formats@ =~= seq![0x03, 0x00, 0x01, 0x02]);
    assert(versions@ =~= seq![0x0304, 0x0303]);
    assert(protos@ =~= seq!["h2", "http/1.1"]);

    let mut exts: Vec<u8> = Vec::new();
    append(&mut exts, ext_sni(sni).as_slice());
    push_ext(&mut exts, 0x000b, formats.as_slice());  // ec_point_formats
    ext_supported_groups(&mut exts, groups.as_slice());
    ext_empty(&mut exts, 0x0023);  // session_ticket
    ext_alpn(&mut exts, protos.as_slice());
    ext_empty(&mut exts, 0x0016);  // encrypt_then_mac
    ext_empty(&mut exts, 0x0017);  // extended_master_secret
    ext_sig_algs(&mut exts, sig_algs.as_slice());
    ext_supported_versions(&mut exts, versions.as_slice());
    ext_psk_modes(&mut exts);
    ext_key_share_x25519(&mut exts, &key_share);
    ext_empty(&mut exts, 0x0015);  // padding
    proof {
        broadcast use lemma_encode_push, lemma_encode_none;

    }
    exts
}

} // verus!
