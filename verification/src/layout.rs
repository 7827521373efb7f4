//! The bytes of every record and every extension, written out.
//!
//! What the other modules put together of named parts is stated here in the bytes
//! that go over the wire.

use crate::packet::extension::{
    alpn, application_settings, bare, compress_certificate, ec_point_formats, encode_extension,
    encode_extensions, key_share_x25519, lemma_encode_push, protocol_names,
    psk_modes, renegotiation_info, reserved, server_name, signature_algorithms, status_request,
    supported_groups, supported_versions, Extension,
};
use crate::packet::fingerprint::{
    chrome120_ciphers, chrome120_extensions, chrome120_record, chrome120_sig_algs,
    firefox120_ciphers, firefox120_extensions, firefox120_record, firefox120_sig_algs,
    safari17_ciphers, safari17_extensions, safari17_record, safari17_sig_algs,
};
use crate::packet::record::{handshake_record, hello_body, hello_message, hello_record};
use crate::packet::tls::{
    default_record, template_ciphers, template_extensions, template_groups, template_key_share,
    template_random, template_session_id, template_sig_algs,
};
use crate::profile::{
    lemma_chrome120_len, lemma_firefox120_len, lemma_safari17_len, lemma_template_len,
};
use crate::wire::{u16_bytes, u16_list};
use vstd::prelude::*;
use vstd::string::StringSliceAdditionalSpecFns;

verus! {

/// Each of `words` as two bytes, the high one first. Of a greater number the low 16
/// bits are kept.
pub open spec fn wide(words: Seq<int>) -> Seq<u8> {
    Seq::new(
        2 * words.len(),
        |i: int|
            if i % 2 == 0 {
                (words[i / 2] / 256 % 256) as u8
            } else {
                (words[i / 2] % 256) as u8
            },
    )
}

/// `values` as numbers without a bound.
pub open spec fn ints(values: Seq<u16>) -> Seq<int> {
    Seq::new(values.len(), |i: int| values[i] as int)
}

/// Whether `a` and `b` are the same bytes.
spec fn same(a: Seq<u8>, b: Seq<u8>) -> bool {
    a == b
}

proof fn lemma_wide_one(n: int)
    ensures
        u16_bytes(n) == wide(seq![n]),
{
    assert(u16_bytes(n) =~= wide(seq![n]));
}

proof fn lemma_wide_concat(a: Seq<int>, b: Seq<int>)
    ensures
        wide(a) + wide(b) == wide(a + b),
{
    assert(wide(a) + wide(b) =~= wide(a + b));
}

proof fn lemma_wide_two(a: int, b: int)
    ensures
        u16_bytes(a) + u16_bytes(b) == wide(seq![a, b]),
{
    assert(u16_bytes(a) + u16_bytes(b) =~= wide(seq![a, b]));
}

proof fn lemma_wide_three(a: int, b: int, c: int)
    ensures
        u16_bytes(a) + u16_bytes(b) + u16_bytes(c) == wide(seq![a, b, c]),
{
    assert(u16_bytes(a) + u16_bytes(b) + u16_bytes(c) =~= wide(seq![a, b, c]));
}

/// A list of two-byte integers is those integers, high byte first, in order.
pub proof fn law_u16_list_bytes(values: Seq<u16>)
    ensures
        u16_list(values) == wide(ints(values)),
    decreases values.len(),
{
    if values.len() == 0 {
        assert(u16_list(values) =~= wide(ints(values)));
    } else {
        let front = values.drop_last();
        law_u16_list_bytes(front);
        lemma_wide_one(values.last() as int);
        lemma_wide_concat(ints(front), seq![values.last() as int]);
        assert(ints(values) =~= ints(front) + seq![values.last() as int]);
    }
}

/// An extension is its type, the length of its data, and its data. Extensions stand
/// one behind the other, in order.
pub proof fn law_extension_bytes(ext: Extension, exts: Seq<Extension>, more: Seq<Extension>)
    ensures
        encode_extension(ext) == wide(seq![ext.kind as int, ext.data.len() as int]) + ext.data,
        encode_extensions(seq![ext]) == encode_extension(ext),
        encode_extensions(exts + more) == encode_extensions(exts) + encode_extensions(more),
    decreases more.len(),
{
    lemma_wide_two(ext.kind as int, ext.data.len() as int);
    assert(seq![ext].drop_last() =~= Seq::empty());
    assert(encode_extensions(seq![ext].drop_last()) =~= Seq::empty());
    assert(encode_extensions(seq![ext]) =~= encode_extension(ext));
    if more.len() == 0 {
        assert(exts + more =~= exts);
        assert(encode_extensions(exts + more) =~= encode_extensions(exts) + encode_extensions(
            more,
        ));
    } else {
        law_extension_bytes(ext, exts, more.drop_last());
        assert((exts + more).drop_last() =~= exts + more.drop_last());
        assert(encode_extensions(exts + more) =~= encode_extensions(exts) + encode_extensions(
            more,
        ));
    }
}

/// server_name holds a list of one entry: type 0, and the host name behind its
/// length.
pub proof fn law_server_name_bytes(name: Seq<u8>)
    ensures
        ({
            let n = name.len() as int;
            encode_extension(server_name(name)) == (wide(seq![0int, n + 5, n + 3]) + seq![0u8]
                + wide(seq![n]) + name)
        }),
{
    let n = name.len() as int;
    assert(encode_extension(server_name(name)) =~= wide(seq![0int, n + 5, n + 3]) + seq![0u8]
        + wide(seq![n]) + name);
}

/// The extensions that hold a list of two-byte integers have its length in bytes in
/// front of it: two bytes of length for groups and signature algorithms, one for
/// versions.
pub proof fn law_list_extension_bytes(values: Seq<u16>)
    ensures
        ({
            let n = 2 * values.len() as int;
            &&& encode_extension(supported_groups(values)) == (wide(seq![10int, 2 + n, n]) + wide(
                ints(values),
            ))
            &&& encode_extension(signature_algorithms(values)) == (wide(seq![13int, 2 + n, n])
                + wide(ints(values)))
            &&& encode_extension(supported_versions(values)) == (wide(seq![43int, 1 + n]) + seq![
                (n % 256) as u8,
            ] + wide(ints(values)))
        }),
{
    let n = 2 * values.len() as int;
    let list = wide(ints(values));
    law_u16_list_bytes(values);
    assert(list.len() == n);
    lemma_wide_three(10, 2 + n, n);
    lemma_wide_three(13, 2 + n, n);
    lemma_wide_two(43, 1 + n);
    assert(encode_extension(supported_groups(values)) =~= u16_bytes(10) + u16_bytes(2 + n)
        + u16_bytes(n) + list);
    assert(encode_extension(signature_algorithms(values)) =~= u16_bytes(13) + u16_bytes(2 + n)
        + u16_bytes(n) + list);
    assert(encode_extension(supported_versions(values)) =~= u16_bytes(43) + u16_bytes(1 + n)
        + seq![(n % 256) as u8] + list);
}

/// Protocol names stand one behind the other, each behind one byte with its length.
pub proof fn law_protocol_names_bytes(protos: Seq<&str>, proto: &str)
    ensures
        protocol_names(Seq::empty()) == Seq::<u8>::empty(),
        protocol_names(protos.push(proto)) == protocol_names(protos) + seq![
            (proto.spec_bytes().len() % 256) as u8,
        ] + proto.spec_bytes(),
{
    assert(protos.push(proto).drop_last() =~= protos);
    assert(protocol_names(protos.push(proto)) =~= protocol_names(protos) + seq![
        (proto.spec_bytes().len() % 256) as u8,
    ] + proto.spec_bytes());
}

/// The list of protocol names has its length in front in
/// application_layer_protocol_negotiation, and none in application_settings.
pub proof fn law_protocol_extension_bytes(protos: Seq<&str>)
    ensures
        ({
            let names = protocol_names(protos);
            let n = names.len() as int;
            &&& encode_extension(alpn(protos)) == wide(seq![16int, 2 + n, n]) + names
            &&& encode_extension(application_settings(protos)) == wide(seq![0x4469int, n]) + names
        }),
{
    let names = protocol_names(protos);
    let n = names.len() as int;
    lemma_wide_three(16, 2 + n, n);
    lemma_wide_two(0x4469, n);
    assert(encode_extension(alpn(protos)) =~= u16_bytes(16) + u16_bytes(2 + n) + u16_bytes(n)
        + names);
    assert(encode_extension(application_settings(protos)) =~= u16_bytes(0x4469) + u16_bytes(n)
        + names);
}

/// key_share holds a list of one entry: the group x25519, and the public key behind
/// its length.
pub proof fn law_key_share_bytes(key: Seq<u8>)
    ensures
        ({
            let n = key.len() as int;
            encode_extension(key_share_x25519(key))
                == (wide(seq![51int, 6 + n, 4 + n, 29, n]) + key)
        }),
{
    let n = key.len() as int;
    assert(encode_extension(key_share_x25519(key)) =~= wide(seq![51int, 6 + n, 4 + n, 29, n])
        + key);
}

/// The extensions whose data is always the same.
pub proof fn law_fixed_extension_bytes(kind: u16)
    ensures
        encode_extension(bare(kind)) == wide(seq![kind as int, 0]),
        encode_extension(reserved(kind)) == (wide(seq![kind as int, 1]) + seq![0u8]),
        encode_extension(renegotiation_info()) == (wide(seq![0xff01int, 1]) + seq![0u8]),
        encode_extension(ec_point_formats()) == (wide(seq![11int, 2]) + seq![1u8, 0]),
        encode_extension(status_request()) == (wide(seq![5int, 5]) + seq![1u8, 0, 0, 0, 0]),
        encode_extension(psk_modes()) == (wide(seq![45int, 2]) + seq![1u8, 1]),
        encode_extension(compress_certificate()) == (wide(seq![27int, 3]) + seq![2u8, 0, 2]),
{
    assert(encode_extension(bare(kind)) =~= wide(seq![kind as int, 0]));
    assert(encode_extension(reserved(kind)) =~= wide(seq![kind as int, 1]) + seq![0u8]);
    assert(encode_extension(renegotiation_info()) =~= wide(seq![0xff01int, 1]) + seq![0u8]);
    assert(encode_extension(ec_point_formats()) =~= wide(seq![11int, 2]) + seq![1u8, 0]);
    assert(encode_extension(status_request()) =~= wide(seq![5int, 5]) + seq![1u8, 0, 0, 0, 0]);
    assert(encode_extension(psk_modes()) =~= wide(seq![45int, 2]) + seq![1u8, 1]);
    assert(encode_extension(compress_certificate()) =~= wide(seq![27int, 3]) + seq![2u8, 0, 2]);
}

/// A ClientHello record, whatever it is put together of: the header of a handshake
/// record, that of a ClientHello message, the version TLS 1.2, the random, the
/// session id, the cipher suites, no compression, and the extensions, each behind
/// its length.
pub proof fn law_hello_record_bytes(
    random: Seq<u8>,
    session_id: Seq<u8>,
    ciphers: Seq<u16>,
    exts: Seq<u8>,
)
    requires
        random.len() == 32,
        session_id.len() == 32,
    ensures
        ({
            let c = 2 * ciphers.len() as int;
            let n = 73 + c + exts.len();
            hello_record(random, session_id, ciphers, exts)
                == seq![0x16u8] + wide(seq![0x0301int, 4 + n])
                    + seq![0x01u8, (n / 65536 % 256) as u8] + wide(seq![n, 0x0303]) + random
                        + seq![0x20u8] + session_id + wide(seq![c]) + wide(ints(ciphers))
                            + seq![0x01u8, 0x00] + wide(seq![exts.len() as int]) + exts
        }),
{
    let c = 2 * ciphers.len() as int;
    let n = 73 + c + exts.len();
    let list = wide(ints(ciphers));
    let body = hello_body(random, session_id, ciphers, exts);
    law_u16_list_bytes(ciphers);
    lemma_wide_one(c);
    lemma_wide_one(exts.len() as int);
    lemma_wide_one(0x0303);
    assert(list.len() == c);
    assert(body.len() == n);
    assert(body =~= wide(seq![0x0303int]) + random + seq![0x20u8] + session_id + wide(seq![c])
        + list + seq![0x01u8, 0x00] + wide(seq![exts.len() as int]) + exts);
    let tail = random + seq![0x20u8] + session_id + wide(seq![c]) + list + seq![0x01u8, 0x00]
        + wide(seq![exts.len() as int]) + exts;
    assert(body =~= wide(seq![0x0303int]) + tail);
    let head = seq![0x16u8] + wide(seq![0x0301int, 4 + n]) + seq![
        0x01u8,
        (n / 65536 % 256) as u8,
    ] + wide(seq![n, 0x0303]);
    lemma_record_head(body, tail);
    assert(head + tail
        =~= head + random + seq![0x20u8] + session_id + wide(seq![c]) + list + seq![0x01u8, 0x00]
            + wide(seq![exts.len() as int]) + exts);
}

proof fn lemma_record_head(body: Seq<u8>, tail: Seq<u8>)
    requires
        body == wide(seq![0x0303int]) + tail,
    ensures
        ({
            let n = body.len() as int;
            handshake_record(hello_message(body))
                == seq![0x16u8] + wide(seq![0x0301int, 4 + n])
                    + seq![0x01u8, (n / 65536 % 256) as u8] + wide(seq![n, 0x0303]) + tail
        }),
{
    let n = body.len() as int;
    assert(handshake_record(hello_message(body)) =~= seq![0x16u8] + wide(seq![0x0301int, 4 + n])
        + seq![0x01u8, (n / 65536 % 256) as u8] + wide(seq![n, 0x0303]) + tail);
}

/// The same, with the numbers and the extensions worked out.
proof fn lemma_record_worked_out(
    random: Seq<u8>,
    session_id: Seq<u8>,
    ciphers: Seq<u16>,
    words: Seq<int>,
    exts: Seq<u8>,
    block: Seq<u8>,
    message_len: int,
    body_len: int,
    ciphers_len: int,
    block_len: int,
)
    requires
        random.len() == 32,
        session_id.len() == 32,
        ints(ciphers) == words,
        same(exts, block),
        message_len == 4 + body_len,
        body_len == 73 + ciphers_len + block_len,
        ciphers_len == 2 * ciphers.len(),
        block_len == exts.len(),
    ensures
        hello_record(random, session_id, ciphers, exts)
            == seq![0x16u8] + wide(seq![0x0301int, message_len])
                + seq![0x01u8, (body_len / 65536 % 256) as u8] + wide(seq![body_len, 0x0303])
                    + random
            + seq![0x20u8] + session_id + wide(seq![ciphers_len]) + wide(words)
                + seq![0x01u8, 0x00] + wide(seq![block_len]) + block,
{
    law_hello_record_bytes(random, session_id, ciphers, exts);
}

proof fn lemma_protocols()
    ensures
        protocol_names(seq!["h2", "http/1.1"])
            == seq![2u8, 104, 50] + seq![8u8, 104, 116, 116, 112, 47, 49, 46, 49],
        protocol_names(seq!["h2"]) == seq![2u8, 104, 50],
{
    reveal_strlit("h2");
    reveal_strlit("http/1.1");
    broadcast use vstd::string::is_ascii_spec_bytes;

    assert("h2".is_ascii());
    assert("http/1.1".is_ascii());
    assert("h2".spec_bytes() =~= seq![104u8, 50]);
    assert("http/1.1".spec_bytes() =~= seq![104u8, 116, 116, 112, 47, 49, 46, 49]);
    let none = Seq::<&str>::empty();
    law_protocol_names_bytes(none, "h2");
    law_protocol_names_bytes(none.push("h2"), "http/1.1");
    assert(seq!["h2"] =~= none.push("h2"));
    assert(seq!["h2", "http/1.1"] =~= none.push("h2").push("http/1.1"));
    assert(protocol_names(seq!["h2"]) =~= seq![2u8, 104, 50]);
    assert(protocol_names(seq!["h2", "http/1.1"])
        =~= seq![2u8, 104, 50] + seq![8u8, 104, 116, 116, 112, 47, 49, 46, 49]);
}

/// The extensions with protocol names and versions, as every profile has them.
proof fn lemma_shared_extensions()
    ensures
        encode_extension(alpn(seq!["h2", "http/1.1"]))
            == (wide(seq![16int, 14, 12]) + seq![2u8, 104, 50]
                + seq![8u8, 104, 116, 116, 112, 47, 49, 46, 49]),
        encode_extension(application_settings(seq!["h2"]))
            == (wide(seq![0x4469int, 3]) + seq![2u8, 104, 50]),
        encode_extension(supported_versions(seq![0x0304, 0x0303]))
            == (wide(seq![43int, 5]) + seq![4u8] + wide(seq![0x0304int, 0x0303])),
{
    let both = seq!["h2", "http/1.1"];
    lemma_protocols();
    law_protocol_extension_bytes(both);
    law_protocol_extension_bytes(seq!["h2"]);
    law_list_extension_bytes(seq![0x0304, 0x0303]);
    assert(ints(seq![0x0304, 0x0303]) =~= seq![0x0304int, 0x0303]);
    assert(protocol_names(both).len() == 12);
    assert(encode_extension(alpn(both))
        =~= (wide(seq![16int, 14, 12]) + seq![2u8, 104, 50]
            + seq![8u8, 104, 116, 116, 112, 47, 49, 46, 49]));
}

proof fn lemma_chrome120_lists()
    ensures
        encode_extension(supported_groups(seq![0x001d, 0x0017, 0x0018]))
            == (wide(seq![10int, 8, 6]) + wide(seq![0x001dint, 0x0017, 0x0018])),
        encode_extension(signature_algorithms(chrome120_sig_algs()))
            == (wide(seq![13int, 20, 18]) + wide(seq![
            0x0403int, 0x0804, 0x0401, 0x0503, 0x0805, 0x0501, 0x0806, 0x0601, 0x0201,
        ])),
{
    law_list_extension_bytes(seq![0x001d, 0x0017, 0x0018]);
    assert(ints(seq![0x001d, 0x0017, 0x0018]) =~= seq![0x001dint, 0x0017, 0x0018]);
    law_list_extension_bytes(chrome120_sig_algs());
    assert(ints(chrome120_sig_algs()) =~= seq![
        0x0403int, 0x0804, 0x0401, 0x0503, 0x0805, 0x0501, 0x0806, 0x0601, 0x0201,
    ]);
}

#[verifier::rlimit(40)]
#[verifier::spinoff_prover]
proof fn lemma_chrome120_block(key: Seq<u8>, grease: u16, name: Seq<u8>)
    requires
        key.len() == 32,
    ensures
        ({
            let n = name.len() as int;
            same(
                encode_extensions(chrome120_extensions(key, grease, name)),
                (wide(seq![grease as int, 1]) + seq![0u8])
                + (wide(seq![0int, n + 5, n + 3]) + seq![0u8] + wide(seq![n]) + name)
                + wide(seq![23int, 0])
                + (wide(seq![0xff01int, 1]) + seq![0u8])
                + (wide(seq![10int, 8, 6]) + wide(seq![0x001dint, 0x0017, 0x0018]))
                + (wide(seq![11int, 2]) + seq![1u8, 0])
                + wide(seq![35int, 0])
                + (wide(seq![16int, 14, 12]) + seq![2u8, 104, 50]
                    + seq![8u8, 104, 116, 116, 112, 47, 49, 46, 49])
                + (wide(seq![5int, 5]) + seq![1u8, 0, 0, 0, 0])
                + (wide(seq![13int, 20, 18]) + wide(seq![
                    0x0403int, 0x0804, 0x0401, 0x0503, 0x0805, 0x0501, 0x0806, 0x0601, 0x0201,
                ]))
                + wide(seq![18int, 0])
                + (wide(seq![51int, 38, 36, 29, 32]) + key)
                + (wide(seq![45int, 2]) + seq![1u8, 1])
                + (wide(seq![43int, 5]) + seq![4u8] + wide(seq![0x0304int, 0x0303]))
                + (wide(seq![27int, 3]) + seq![2u8, 0, 2])
                + (wide(seq![0x4469int, 3]) + seq![2u8, 104, 50])
                + (wide(seq![grease as int, 1]) + seq![0u8])
                + wide(seq![21int, 0]),
            )
        }),
{
    let n = name.len() as int;
    lemma_shared_extensions();
    law_server_name_bytes(name);
    law_key_share_bytes(key);
    law_fixed_extension_bytes(grease);
    law_fixed_extension_bytes(0x0017);
    law_fixed_extension_bytes(0x0023);
    law_fixed_extension_bytes(0x0012);
    law_fixed_extension_bytes(0x0015);
    lemma_chrome120_lists();
    let x0 = Seq::<Extension>::empty();
    assert(encode_extensions(x0) =~= Seq::empty());
    let x1 = x0.push(reserved(grease));
    lemma_encode_push(x0, reserved(grease));
    assert(encode_extensions(x0) + encode_extension(reserved(grease))
        =~= encode_extension(reserved(grease)));
    let x2 = x1.push(server_name(name));
    lemma_encode_push(x1, server_name(name));
    let x3 = x2.push(bare(0x0017));
    lemma_encode_push(x2, bare(0x0017));
    let x4 = x3.push(renegotiation_info());
    lemma_encode_push(x3, renegotiation_info());
    let x5 = x4.push(supported_groups(seq![0x001d, 0x0017, 0x0018]));
    lemma_encode_push(x4, supported_groups(seq![0x001d, 0x0017, 0x0018]));
    let x6 = x5.push(ec_point_formats());
    lemma_encode_push(x5, ec_point_formats());
    let x7 = x6.push(bare(0x0023));
    lemma_encode_push(x6, bare(0x0023));
    let x8 = x7.push(alpn(seq!["h2", "http/1.1"]));
    lemma_encode_push(x7, alpn(seq!["h2", "http/1.1"]));
    let x9 = x8.push(status_request());
    lemma_encode_push(x8, status_request());
    let x10 = x9.push(signature_algorithms(chrome120_sig_algs()));
    lemma_encode_push(x9, signature_algorithms(chrome120_sig_algs()));
    let x11 = x10.push(bare(0x0012));
    lemma_encode_push(x10, bare(0x0012));
    let x12 = x11.push(key_share_x25519(key));
    lemma_encode_push(x11, key_share_x25519(key));
    let x13 = x12.push(psk_modes());
    lemma_encode_push(x12, psk_modes());
    let x14 = x13.push(supported_versions(seq![0x0304, 0x0303]));
    lemma_encode_push(x13, supported_versions(seq![0x0304, 0x0303]));
    let x15 = x14.push(compress_certificate());
    lemma_encode_push(x14, compress_certificate());
    let x16 = x15.push(application_settings(seq!["h2"]));
    lemma_encode_push(x15, application_settings(seq!["h2"]));
    let x17 = x16.push(reserved(grease));
    lemma_encode_push(x16, reserved(grease));
    let x18 = x17.push(bare(0x0015));
    lemma_encode_push(x17, bare(0x0015));
}

/// The record of Chrome 120, byte for byte.
#[verifier::rlimit(40)]
#[verifier::spinoff_prover]
pub proof fn law_chrome120_bytes(
    random: Seq<u8>,
    session_id: Seq<u8>,
    key: Seq<u8>,
    grease: u16,
    name: Seq<u8>,
)
    requires
        random.len() == 32,
        session_id.len() == 32,
        key.len() == 32,
    ensures
        ({
            let n = name.len() as int;
            chrome120_record(random, session_id, key, grease, name)
                == seq![0x16u8] + wide(seq![0x0301int, 289 + n]) + seq![
                0x01u8,
                ((285 + n) / 65536 % 256) as u8,
            ] + wide(seq![285 + n, 0x0303]) + random + seq![0x20u8] + session_id
                + wide(seq![32int]) + wide(seq![
                grease as int, 0x1301, 0x1302, 0x1303, 0xc02b, 0xc02f, 0xc02c, 0xc030, 0xcca9,
                0xcca8, 0xc013, 0xc014, 0x009c, 0x009d, 0x002f, 0x0035,
            ]) + seq![0x01u8, 0x00] + wide(seq![180 + n]) + (
                (wide(seq![grease as int, 1]) + seq![0u8])
                + (wide(seq![0int, n + 5, n + 3]) + seq![0u8] + wide(seq![n]) + name)
                + wide(seq![23int, 0])
                + (wide(seq![0xff01int, 1]) + seq![0u8])
                + (wide(seq![10int, 8, 6]) + wide(seq![0x001dint, 0x0017, 0x0018]))
                + (wide(seq![11int, 2]) + seq![1u8, 0])
                + wide(seq![35int, 0])
                + (wide(seq![16int, 14, 12]) + seq![2u8, 104, 50]
                    + seq![8u8, 104, 116, 116, 112, 47, 49, 46, 49])
                + (wide(seq![5int, 5]) + seq![1u8, 0, 0, 0, 0])
                + (wide(seq![13int, 20, 18]) + wide(seq![
                    0x0403int, 0x0804, 0x0401, 0x0503, 0x0805, 0x0501, 0x0806, 0x0601, 0x0201,
                ]))
                + wide(seq![18int, 0])
                + (wide(seq![51int, 38, 36, 29, 32]) + key)
                + (wide(seq![45int, 2]) + seq![1u8, 1])
                + (wide(seq![43int, 5]) + seq![4u8] + wide(seq![0x0304int, 0x0303]))
                + (wide(seq![27int, 3]) + seq![2u8, 0, 2])
                + (wide(seq![0x4469int, 3]) + seq![2u8, 104, 50])
                + (wide(seq![grease as int, 1]) + seq![0u8])
                + wide(seq![21int, 0])
            )
        }),
{
    let n = name.len() as int;
    let exts = encode_extensions(chrome120_extensions(key, grease, name));
    let words = seq![
        grease as int, 0x1301, 0x1302, 0x1303, 0xc02b, 0xc02f, 0xc02c, 0xc030, 0xcca9, 0xcca8,
        0xc013, 0xc014, 0x009c, 0x009d, 0x002f, 0x0035,
    ];
    let block = (
        (wide(seq![grease as int, 1]) + seq![0u8])
        + (wide(seq![0int, n + 5, n + 3]) + seq![0u8] + wide(seq![n]) + name)
        + wide(seq![23int, 0])
        + (wide(seq![0xff01int, 1]) + seq![0u8])
        + (wide(seq![10int, 8, 6]) + wide(seq![0x001dint, 0x0017, 0x0018]))
        + (wide(seq![11int, 2]) + seq![1u8, 0])
        + wide(seq![35int, 0])
        + (wide(seq![16int, 14, 12]) + seq![2u8, 104, 50]
            + seq![8u8, 104, 116, 116, 112, 47, 49, 46, 49])
        + (wide(seq![5int, 5]) + seq![1u8, 0, 0, 0, 0])
        + (wide(seq![13int, 20, 18]) + wide(seq![
            0x0403int, 0x0804, 0x0401, 0x0503, 0x0805, 0x0501, 0x0806, 0x0601, 0x0201,
        ]))
        + wide(seq![18int, 0])
        + (wide(seq![51int, 38, 36, 29, 32]) + key)
        + (wide(seq![45int, 2]) + seq![1u8, 1])
        + (wide(seq![43int, 5]) + seq![4u8] + wide(seq![0x0304int, 0x0303]))
        + (wide(seq![27int, 3]) + seq![2u8, 0, 2])
        + (wide(seq![0x4469int, 3]) + seq![2u8, 104, 50])
        + (wide(seq![grease as int, 1]) + seq![0u8])
        + wide(seq![21int, 0])
    );
    lemma_chrome120_block(key, grease, name);
    lemma_chrome120_len(key, grease, name);
    assert(ints(chrome120_ciphers(grease)) =~= words);
    lemma_record_worked_out(
        random,
        session_id,
        chrome120_ciphers(grease),
        words,
        exts,
        block,
        289 + n,
        285 + n,
        32,
        180 + n,
    );
}

proof fn lemma_firefox120_lists()
    ensures
        encode_extension(supported_groups(seq![0x001d, 0x0017, 0x0018, 0x0019]))
            == (wide(seq![10int, 10, 8]) + wide(seq![0x001dint, 0x0017, 0x0018, 0x0019])),
        encode_extension(signature_algorithms(firefox120_sig_algs()))
            == (wide(seq![13int, 20, 18]) + wide(seq![
            0x0403int, 0x0503, 0x0603, 0x0804, 0x0805, 0x0806, 0x0401, 0x0501, 0x0601,
        ])),
{
    law_list_extension_bytes(seq![0x001d, 0x0017, 0x0018, 0x0019]);
    assert(ints(seq![0x001d, 0x0017, 0x0018, 0x0019]) =~= seq![0x001dint, 0x0017, 0x0018, 0x0019]);
    law_list_extension_bytes(firefox120_sig_algs());
    assert(ints(firefox120_sig_algs()) =~= seq![
        0x0403int, 0x0503, 0x0603, 0x0804, 0x0805, 0x0806, 0x0401, 0x0501, 0x0601,
    ]);
}

#[verifier::rlimit(40)]
#[verifier::spinoff_prover]
proof fn lemma_firefox120_block(key: Seq<u8>, name: Seq<u8>)
    requires
        key.len() == 32,
    ensures
        ({
            let n = name.len() as int;
            same(
                encode_extensions(firefox120_extensions(key, name)),
                (wide(seq![0int, n + 5, n + 3]) + seq![0u8] + wide(seq![n]) + name)
                + wide(seq![23int, 0])
                + (wide(seq![0xff01int, 1]) + seq![0u8])
                + (wide(seq![10int, 10, 8]) + wide(seq![0x001dint, 0x0017, 0x0018, 0x0019]))
                + (wide(seq![11int, 2]) + seq![1u8, 0])
                + wide(seq![35int, 0])
                + (wide(seq![16int, 14, 12]) + seq![2u8, 104, 50]
                    + seq![8u8, 104, 116, 116, 112, 47, 49, 46, 49])
                + (wide(seq![5int, 5]) + seq![1u8, 0, 0, 0, 0])
                + (wide(seq![13int, 20, 18]) + wide(seq![
                    0x0403int, 0x0503, 0x0603, 0x0804, 0x0805, 0x0806, 0x0401, 0x0501, 0x0601,
                ]))
                + wide(seq![18int, 0])
                + (wide(seq![51int, 38, 36, 29, 32]) + key)
                + (wide(seq![45int, 2]) + seq![1u8, 1])
                + (wide(seq![43int, 5]) + seq![4u8] + wide(seq![0x0304int, 0x0303]))
                + wide(seq![21int, 0]),
            )
        }),
{
    let n = name.len() as int;
    lemma_shared_extensions();
    law_server_name_bytes(name);
    law_key_share_bytes(key);
    law_fixed_extension_bytes(0x0017);
    law_fixed_extension_bytes(0x0023);
    law_fixed_extension_bytes(0x0012);
    law_fixed_extension_bytes(0x0015);
    lemma_firefox120_lists();
    let x0 = Seq::<Extension>::empty();
    assert(encode_extensions(x0) =~= Seq::empty());
    let x1 = x0.push(server_name(name));
    lemma_encode_push(x0, server_name(name));
    assert(encode_extensions(x0) + encode_extension(server_name(name))
        =~= encode_extension(server_name(name)));
    let x2 = x1.push(bare(0x0017));
    lemma_encode_push(x1, bare(0x0017));
    let x3 = x2.push(renegotiation_info());
    lemma_encode_push(x2, renegotiation_info());
    let x4 = x3.push(supported_groups(seq![0x001d, 0x0017, 0x0018, 0x0019]));
    lemma_encode_push(x3, supported_groups(seq![0x001d, 0x0017, 0x0018, 0x0019]));
    let x5 = x4.push(ec_point_formats());
    lemma_encode_push(x4, ec_point_formats());
    let x6 = x5.push(bare(0x0023));
    lemma_encode_push(x5, bare(0x0023));
    let x7 = x6.push(alpn(seq!["h2", "http/1.1"]));
    lemma_encode_push(x6, alpn(seq!["h2", "http/1.1"]));
    let x8 = x7.push(status_request());
    lemma_encode_push(x7, status_request());
    let x9 = x8.push(signature_algorithms(firefox120_sig_algs()));
    lemma_encode_push(x8, signature_algorithms(firefox120_sig_algs()));
    let x10 = x9.push(bare(0x0012));
    lemma_encode_push(x9, bare(0x0012));
    let x11 = x10.push(key_share_x25519(key));
    lemma_encode_push(x10, key_share_x25519(key));
    let x12 = x11.push(psk_modes());
    lemma_encode_push(x11, psk_modes());
    let x13 = x12.push(supported_versions(seq![0x0304, 0x0303]));
    lemma_encode_push(x12, supported_versions(seq![0x0304, 0x0303]));
    let x14 = x13.push(bare(0x0015));
    lemma_encode_push(x13, bare(0x0015));
}

/// The record of Firefox 120, byte for byte.
#[verifier::rlimit(40)]
#[verifier::spinoff_prover]
pub proof fn law_firefox120_bytes(
    random: Seq<u8>,
    session_id: Seq<u8>,
    key: Seq<u8>,
    name: Seq<u8>,
)
    requires
        random.len() == 32,
        session_id.len() == 32,
        key.len() == 32,
    ensures
        ({
            let n = name.len() as int;
            firefox120_record(random, session_id, key, name)
                == seq![0x16u8] + wide(seq![0x0301int, 269 + n]) + seq![
                0x01u8,
                ((265 + n) / 65536 % 256) as u8,
            ] + wide(seq![265 + n, 0x0303]) + random + seq![0x20u8] + session_id
                + wide(seq![34int]) + wide(seq![
                0x1301int, 0x1303, 0x1302, 0xc02b, 0xc02f, 0xc02c, 0xc030, 0xcca9, 0xcca8, 0xc013,
                0xc014, 0x009c, 0x009d, 0x002f, 0x0035, 0x000a, 0x00ff,
            ]) + seq![0x01u8, 0x00] + wide(seq![158 + n]) + (
                (wide(seq![0int, n + 5, n + 3]) + seq![0u8] + wide(seq![n]) + name)
                + wide(seq![23int, 0])
                + (wide(seq![0xff01int, 1]) + seq![0u8])
                + (wide(seq![10int, 10, 8]) + wide(seq![0x001dint, 0x0017, 0x0018, 0x0019]))
                + (wide(seq![11int, 2]) + seq![1u8, 0])
                + wide(seq![35int, 0])
                + (wide(seq![16int, 14, 12]) + seq![2u8, 104, 50]
                    + seq![8u8, 104, 116, 116, 112, 47, 49, 46, 49])
                + (wide(seq![5int, 5]) + seq![1u8, 0, 0, 0, 0])
                + (wide(seq![13int, 20, 18]) + wide(seq![
                    0x0403int, 0x0503, 0x0603, 0x0804, 0x0805, 0x0806, 0x0401, 0x0501, 0x0601,
                ]))
                + wide(seq![18int, 0])
                + (wide(seq![51int, 38, 36, 29, 32]) + key)
                + (wide(seq![45int, 2]) + seq![1u8, 1])
                + (wide(seq![43int, 5]) + seq![4u8] + wide(seq![0x0304int, 0x0303]))
                + wide(seq![21int, 0])
            )
        }),
{
    let n = name.len() as int;
    let exts = encode_extensions(firefox120_extensions(key, name));
    let words = seq![
        0x1301int, 0x1303, 0x1302, 0xc02b, 0xc02f, 0xc02c, 0xc030, 0xcca9, 0xcca8, 0xc013, 0xc014,
        0x009c, 0x009d, 0x002f, 0x0035, 0x000a, 0x00ff,
    ];
    let block = (
        (wide(seq![0int, n + 5, n + 3]) + seq![0u8] + wide(seq![n]) + name)
        + wide(seq![23int, 0])
        + (wide(seq![0xff01int, 1]) + seq![0u8])
        + (wide(seq![10int, 10, 8]) + wide(seq![0x001dint, 0x0017, 0x0018, 0x0019]))
        + (wide(seq![11int, 2]) + seq![1u8, 0])
        + wide(seq![35int, 0])
        + (wide(seq![16int, 14, 12]) + seq![2u8, 104, 50]
            + seq![8u8, 104, 116, 116, 112, 47, 49, 46, 49])
        + (wide(seq![5int, 5]) + seq![1u8, 0, 0, 0, 0])
        + (wide(seq![13int, 20, 18]) + wide(seq![
            0x0403int, 0x0503, 0x0603, 0x0804, 0x0805, 0x0806, 0x0401, 0x0501, 0x0601,
        ]))
        + wide(seq![18int, 0])
        + (wide(seq![51int, 38, 36, 29, 32]) + key)
        + (wide(seq![45int, 2]) + seq![1u8, 1])
        + (wide(seq![43int, 5]) + seq![4u8] + wide(seq![0x0304int, 0x0303]))
        + wide(seq![21int, 0])
    );
    lemma_firefox120_block(key, name);
    lemma_firefox120_len(key, name);
    assert(ints(firefox120_ciphers()) =~= words);
    lemma_record_worked_out(
        random,
        session_id,
        firefox120_ciphers(),
        words,
        exts,
        block,
        269 + n,
        265 + n,
        34,
        158 + n,
    );
}

proof fn lemma_safari17_lists()
    ensures
        encode_extension(supported_groups(seq![0x001d, 0x0017, 0x0018, 0x0019]))
            == (wide(seq![10int, 10, 8]) + wide(seq![0x001dint, 0x0017, 0x0018, 0x0019])),
        encode_extension(signature_algorithms(safari17_sig_algs()))
            == (wide(seq![13int, 24, 22]) + wide(seq![
            0x0403int, 0x0804, 0x0401, 0x0503, 0x0603, 0x0805, 0x0806, 0x0501, 0x0601, 0x0201,
            0x0203,
        ])),
{
    law_list_extension_bytes(seq![0x001d, 0x0017, 0x0018, 0x0019]);
    assert(ints(seq![0x001d, 0x0017, 0x0018, 0x0019]) =~= seq![0x001dint, 0x0017, 0x0018, 0x0019]);
    law_list_extension_bytes(safari17_sig_algs());
    assert(ints(safari17_sig_algs()) =~= seq![
        0x0403int, 0x0804, 0x0401, 0x0503, 0x0603, 0x0805, 0x0806, 0x0501, 0x0601, 0x0201, 0x0203,
    ]);
}

#[verifier::rlimit(40)]
#[verifier::spinoff_prover]
proof fn lemma_safari17_block(key: Seq<u8>, name: Seq<u8>)
    requires
        key.len() == 32,
    ensures
        ({
            let n = name.len() as int;
            same(
                encode_extensions(safari17_extensions(key, name)),
                (wide(seq![0int, n + 5, n + 3]) + seq![0u8] + wide(seq![n]) + name)
                + wide(seq![23int, 0])
                + (wide(seq![0xff01int, 1]) + seq![0u8])
                + (wide(seq![10int, 10, 8]) + wide(seq![0x001dint, 0x0017, 0x0018, 0x0019]))
                + (wide(seq![11int, 2]) + seq![1u8, 0])
                + (wide(seq![16int, 14, 12]) + seq![2u8, 104, 50]
                    + seq![8u8, 104, 116, 116, 112, 47, 49, 46, 49])
                + (wide(seq![5int, 5]) + seq![1u8, 0, 0, 0, 0])
                + (wide(seq![13int, 24, 22]) + wide(seq![
                    0x0403int, 0x0804, 0x0401, 0x0503, 0x0603, 0x0805, 0x0806, 0x0501, 0x0601,
                    0x0201, 0x0203,
                ]))
                + wide(seq![18int, 0])
                + (wide(seq![51int, 38, 36, 29, 32]) + key)
                + (wide(seq![45int, 2]) + seq![1u8, 1])
                + (wide(seq![43int, 5]) + seq![4u8] + wide(seq![0x0304int, 0x0303])),
            )
        }),
{
    let n = name.len() as int;
    lemma_shared_extensions();
    law_server_name_bytes(name);
    law_key_share_bytes(key);
    law_fixed_extension_bytes(0x0017);
    law_fixed_extension_bytes(0x0012);
    lemma_safari17_lists();
    let x0 = Seq::<Extension>::empty();
    assert(encode_extensions(x0) =~= Seq::empty());
    let x1 = x0.push(server_name(name));
    lemma_encode_push(x0, server_name(name));
    assert(encode_extensions(x0) + encode_extension(server_name(name))
        =~= encode_extension(server_name(name)));
    let x2 = x1.push(bare(0x0017));
    lemma_encode_push(x1, bare(0x0017));
    let x3 = x2.push(renegotiation_info());
    lemma_encode_push(x2, renegotiation_info());
    let x4 = x3.push(supported_groups(seq![0x001d, 0x0017, 0x0018, 0x0019]));
    lemma_encode_push(x3, supported_groups(seq![0x001d, 0x0017, 0x0018, 0x0019]));
    let x5 = x4.push(ec_point_formats());
    lemma_encode_push(x4, ec_point_formats());
    let x6 = x5.push(alpn(seq!["h2", "http/1.1"]));
    lemma_encode_push(x5, alpn(seq!["h2", "http/1.1"]));
    let x7 = x6.push(status_request());
    lemma_encode_push(x6, status_request());
    let x8 = x7.push(signature_algorithms(safari17_sig_algs()));
    lemma_encode_push(x7, signature_algorithms(safari17_sig_algs()));
    let x9 = x8.push(bare(0x0012));
    lemma_encode_push(x8, bare(0x0012));
    let x10 = x9.push(key_share_x25519(key));
    lemma_encode_push(x9, key_share_x25519(key));
    let x11 = x10.push(psk_modes());
    lemma_encode_push(x10, psk_modes());
    let x12 = x11.push(supported_versions(seq![0x0304, 0x0303]));
    lemma_encode_push(x11, supported_versions(seq![0x0304, 0x0303]));
}

/// The record of Safari 17, byte for byte.
#[verifier::rlimit(40)]
#[verifier::spinoff_prover]
pub proof fn law_safari17_bytes(
    random: Seq<u8>,
    session_id: Seq<u8>,
    key: Seq<u8>,
    name: Seq<u8>,
)
    requires
        random.len() == 32,
        session_id.len() == 32,
        key.len() == 32,
    ensures
        ({
            let n = name.len() as int;
            safari17_record(random, session_id, key, name)
                == seq![0x16u8] + wide(seq![0x0301int, 261 + n]) + seq![
                0x01u8,
                ((257 + n) / 65536 % 256) as u8,
            ] + wide(seq![257 + n, 0x0303]) + random + seq![0x20u8] + session_id
                + wide(seq![30int]) + wide(seq![
                0x1301int, 0x1302, 0x1303, 0xc02c, 0xc02b, 0xcca9, 0xc030, 0xc02f, 0xcca8, 0xc014,
                0xc013, 0x009d, 0x009c, 0x0035, 0x002f,
            ]) + seq![0x01u8, 0x00] + wide(seq![154 + n]) + (
                (wide(seq![0int, n + 5, n + 3]) + seq![0u8] + wide(seq![n]) + name)
                + wide(seq![23int, 0])
                + (wide(seq![0xff01int, 1]) + seq![0u8])
                + (wide(seq![10int, 10, 8]) + wide(seq![0x001dint, 0x0017, 0x0018, 0x0019]))
                + (wide(seq![11int, 2]) + seq![1u8, 0])
                + (wide(seq![16int, 14, 12]) + seq![2u8, 104, 50]
                    + seq![8u8, 104, 116, 116, 112, 47, 49, 46, 49])
                + (wide(seq![5int, 5]) + seq![1u8, 0, 0, 0, 0])
                + (wide(seq![13int, 24, 22]) + wide(seq![
                    0x0403int, 0x0804, 0x0401, 0x0503, 0x0603, 0x0805, 0x0806, 0x0501, 0x0601,
                    0x0201, 0x0203,
                ]))
                + wide(seq![18int, 0])
                + (wide(seq![51int, 38, 36, 29, 32]) + key)
                + (wide(seq![45int, 2]) + seq![1u8, 1])
                + (wide(seq![43int, 5]) + seq![4u8] + wide(seq![0x0304int, 0x0303]))
            )
        }),
{
    let n = name.len() as int;
    let exts = encode_extensions(safari17_extensions(key, name));
    let words = seq![
        0x1301int, 0x1302, 0x1303, 0xc02c, 0xc02b, 0xcca9, 0xc030, 0xc02f, 0xcca8, 0xc014, 0xc013,
        0x009d, 0x009c, 0x0035, 0x002f,
    ];
    let block = (
        (wide(seq![0int, n + 5, n + 3]) + seq![0u8] + wide(seq![n]) + name)
        + wide(seq![23int, 0])
        + (wide(seq![0xff01int, 1]) + seq![0u8])
        + (wide(seq![10int, 10, 8]) + wide(seq![0x001dint, 0x0017, 0x0018, 0x0019]))
        + (wide(seq![11int, 2]) + seq![1u8, 0])
        + (wide(seq![16int, 14, 12]) + seq![2u8, 104, 50]
            + seq![8u8, 104, 116, 116, 112, 47, 49, 46, 49])
        + (wide(seq![5int, 5]) + seq![1u8, 0, 0, 0, 0])
        + (wide(seq![13int, 24, 22]) + wide(seq![
            0x0403int, 0x0804, 0x0401, 0x0503, 0x0603, 0x0805, 0x0806, 0x0501, 0x0601, 0x0201,
            0x0203,
        ]))
        + wide(seq![18int, 0])
        + (wide(seq![51int, 38, 36, 29, 32]) + key)
        + (wide(seq![45int, 2]) + seq![1u8, 1])
        + (wide(seq![43int, 5]) + seq![4u8] + wide(seq![0x0304int, 0x0303]))
    );
    lemma_safari17_block(key, name);
    lemma_safari17_len(key, name);
    assert(ints(safari17_ciphers()) =~= words);
    lemma_record_worked_out(
        random,
        session_id,
        safari17_ciphers(),
        words,
        exts,
        block,
        261 + n,
        257 + n,
        30,
        154 + n,
    );
}

proof fn lemma_default_lists()
    ensures
        encode_extension(supported_groups(template_groups()))
            == (wide(seq![10int, 22, 20]) + wide(seq![
            0x001dint, 0x0017, 0x001e, 0x0019, 0x0018, 0x0100, 0x0101, 0x0102, 0x0103, 0x0104,
        ])),
        encode_extension(signature_algorithms(template_sig_algs()))
            == (wide(seq![13int, 42, 40]) + wide(seq![
            0x0403int, 0x0503, 0x0603, 0x0807, 0x0808, 0x0809, 0x080a, 0x080b, 0x0804, 0x0805,
            0x0806, 0x0401, 0x0501, 0x0601, 0x0303, 0x0301, 0x0302, 0x0402, 0x0502, 0x0602,
        ])),
{
    law_list_extension_bytes(template_groups());
    assert(ints(template_groups()) =~= seq![
        0x001dint, 0x0017, 0x001e, 0x0019, 0x0018, 0x0100, 0x0101, 0x0102, 0x0103, 0x0104,
    ]);
    law_list_extension_bytes(template_sig_algs());
    assert(ints(template_sig_algs()) =~= seq![
        0x0403int, 0x0503, 0x0603, 0x0807, 0x0808, 0x0809, 0x080a, 0x080b, 0x0804, 0x0805, 0x0806,
        0x0401, 0x0501, 0x0601, 0x0303, 0x0301, 0x0302, 0x0402, 0x0502, 0x0602,
    ]);
}

#[verifier::rlimit(40)]
#[verifier::spinoff_prover]
proof fn lemma_default_block(key: Seq<u8>, name: Seq<u8>)
    requires
        key == template_key_share(),
    ensures
        ({
            let n = name.len() as int;
            same(
                encode_extensions(template_extensions(name)),
                (wide(seq![0int, n + 5, n + 3]) + seq![0u8] + wide(seq![n]) + name)
                + (wide(seq![11int, 4]) + seq![3u8, 0, 1, 2])
                + (wide(seq![10int, 22, 20]) + wide(seq![
                    0x001dint, 0x0017, 0x001e, 0x0019, 0x0018, 0x0100, 0x0101, 0x0102, 0x0103,
                    0x0104,
                ]))
                + wide(seq![35int, 0])
                + (wide(seq![16int, 14, 12]) + seq![2u8, 104, 50]
                    + seq![8u8, 104, 116, 116, 112, 47, 49, 46, 49])
                + wide(seq![22int, 0])
                + wide(seq![23int, 0])
                + (wide(seq![13int, 42, 40]) + wide(seq![
                    0x0403int, 0x0503, 0x0603, 0x0807, 0x0808, 0x0809, 0x080a, 0x080b, 0x0804,
                    0x0805, 0x0806, 0x0401, 0x0501, 0x0601, 0x0303, 0x0301, 0x0302, 0x0402,
                    0x0502, 0x0602,
                ]))
                + (wide(seq![43int, 5]) + seq![4u8] + wide(seq![0x0304int, 0x0303]))
                + (wide(seq![45int, 2]) + seq![1u8, 1])
                + (wide(seq![51int, 38, 36, 29, 32]) + key)
                + wide(seq![21int, 0]),
            )
        }),
{
    let n = name.len() as int;
    lemma_shared_extensions();
    law_server_name_bytes(name);
    law_key_share_bytes(key);
    law_fixed_extension_bytes(0x0023);
    law_fixed_extension_bytes(0x0016);
    law_fixed_extension_bytes(0x0017);
    law_fixed_extension_bytes(0x0015);
    lemma_default_lists();
    law_extension_bytes(
        Extension { kind: 0x000b, data: seq![0x03, 0x00, 0x01, 0x02] },
        Seq::empty(),
        Seq::empty(),
    );
    let x0 = Seq::<Extension>::empty();
    assert(encode_extensions(x0) =~= Seq::empty());
    let x1 = x0.push(server_name(name));
    lemma_encode_push(x0, server_name(name));
    assert(encode_extensions(x0) + encode_extension(server_name(name))
        =~= encode_extension(server_name(name)));
    let x2 = x1.push(Extension { kind: 0x000b, data: seq![0x03, 0x00, 0x01, 0x02] });
    lemma_encode_push(x1, Extension { kind: 0x000b, data: seq![0x03, 0x00, 0x01, 0x02] });
    let x3 = x2.push(supported_groups(template_groups()));
    lemma_encode_push(x2, supported_groups(template_groups()));
    let x4 = x3.push(bare(0x0023));
    lemma_encode_push(x3, bare(0x0023));
    let x5 = x4.push(alpn(seq!["h2", "http/1.1"]));
    lemma_encode_push(x4, alpn(seq!["h2", "http/1.1"]));
    let x6 = x5.push(bare(0x0016));
    lemma_encode_push(x5, bare(0x0016));
    let x7 = x6.push(bare(0x0017));
    lemma_encode_push(x6, bare(0x0017));
    let x8 = x7.push(signature_algorithms(template_sig_algs()));
    lemma_encode_push(x7, signature_algorithms(template_sig_algs()));
    let x9 = x8.push(supported_versions(seq![0x0304, 0x0303]));
    lemma_encode_push(x8, supported_versions(seq![0x0304, 0x0303]));
    let x10 = x9.push(psk_modes());
    lemma_encode_push(x9, psk_modes());
    let x11 = x10.push(key_share_x25519(template_key_share()));
    lemma_encode_push(x10, key_share_x25519(template_key_share()));
    let x12 = x11.push(bare(0x0015));
    lemma_encode_push(x11, bare(0x0015));
}

/// The record of the built-in template, byte for byte.
#[verifier::rlimit(40)]
#[verifier::spinoff_prover]
pub proof fn law_default_bytes(name: Seq<u8>)
    ensures
        ({
            let n = name.len() as int;
            let random = seq![
                0x41u8, 0xd5, 0xb5, 0x49, 0xd9, 0xcd, 0x1a, 0xdf, 0xa7, 0x29, 0x6c, 0x84, 0x18,
                0xd1, 0x57, 0xdc, 0x7b, 0x62, 0x4c, 0x84, 0x28, 0x24, 0xff, 0x49, 0x3b, 0x93,
                0x75, 0xbb, 0x48, 0xd3, 0x4f, 0x2b,
            ];
            let session_id = seq![
                0xbfu8, 0x01, 0x8b, 0xcc, 0x90, 0xa7, 0xc8, 0x9a, 0x23, 0x00, 0x94, 0x81, 0x5a,
                0xd0, 0xc1, 0x5b, 0x73, 0x6e, 0x38, 0xc0, 0x12, 0x09, 0xd7, 0x2d, 0x28, 0x2c,
                0xb5, 0xe2, 0x10, 0x53, 0x28, 0x15,
            ];
            let key = seq![
                0x43u8, 0x5b, 0xac, 0xc4, 0xd0, 0x5f, 0x9d, 0x41, 0xfe, 0xf4, 0x4a, 0xb3, 0xad,
                0x55, 0x61, 0x6c, 0x36, 0xe0, 0x61, 0x34, 0x73, 0xe2, 0x33, 0x87, 0x70, 0xef,
                0xda, 0xa9, 0x86, 0x93, 0xd2, 0x17,
            ];
            default_record(name) == seq![0x16u8] + wide(seq![0x0301int, 293 + n]) + seq![
                0x01u8,
                ((289 + n) / 65536 % 256) as u8,
            ] + wide(seq![289 + n, 0x0303]) + random + seq![0x20u8] + session_id
                + wide(seq![36int]) + wide(seq![
                0x1302int, 0x1303, 0x1301, 0xc02c, 0xc030, 0xc02b, 0xc02f, 0xcca9, 0xcca8, 0xc024,
                0xc028, 0xc023, 0xc027, 0x009f, 0x009e, 0x006b, 0x0067, 0x00ff,
            ]) + seq![0x01u8, 0x00] + wide(seq![180 + n]) + (
                (wide(seq![0int, n + 5, n + 3]) + seq![0u8] + wide(seq![n]) + name)
                + (wide(seq![11int, 4]) + seq![3u8, 0, 1, 2])
                + (wide(seq![10int, 22, 20]) + wide(seq![
                    0x001dint, 0x0017, 0x001e, 0x0019, 0x0018, 0x0100, 0x0101, 0x0102, 0x0103,
                    0x0104,
                ]))
                + wide(seq![35int, 0])
                + (wide(seq![16int, 14, 12]) + seq![2u8, 104, 50]
                    + seq![8u8, 104, 116, 116, 112, 47, 49, 46, 49])
                + wide(seq![22int, 0])
                + wide(seq![23int, 0])
                + (wide(seq![13int, 42, 40]) + wide(seq![
                    0x0403int, 0x0503, 0x0603, 0x0807, 0x0808, 0x0809, 0x080a, 0x080b, 0x0804,
                    0x0805, 0x0806, 0x0401, 0x0501, 0x0601, 0x0303, 0x0301, 0x0302, 0x0402,
                    0x0502, 0x0602,
                ]))
                + (wide(seq![43int, 5]) + seq![4u8] + wide(seq![0x0304int, 0x0303]))
                + (wide(seq![45int, 2]) + seq![1u8, 1])
                + (wide(seq![51int, 38, 36, 29, 32]) + key)
                + wide(seq![21int, 0])
            )
        }),
{
    let random = template_random();
    let session_id = template_session_id();
    let key = template_key_share();
    assert(random =~= seq![
        0x41u8, 0xd5, 0xb5, 0x49, 0xd9, 0xcd, 0x1a, 0xdf, 0xa7, 0x29, 0x6c, 0x84, 0x18, 0xd1,
        0x57, 0xdc, 0x7b, 0x62, 0x4c, 0x84, 0x28, 0x24, 0xff, 0x49, 0x3b, 0x93, 0x75, 0xbb, 0x48,
        0xd3, 0x4f, 0x2b,
    ]);
    assert(session_id =~= seq![
        0xbfu8, 0x01, 0x8b, 0xcc, 0x90, 0xa7, 0xc8, 0x9a, 0x23, 0x00, 0x94, 0x81, 0x5a, 0xd0,
        0xc1, 0x5b, 0x73, 0x6e, 0x38, 0xc0, 0x12, 0x09, 0xd7, 0x2d, 0x28, 0x2c, 0xb5, 0xe2, 0x10,
        0x53, 0x28, 0x15,
    ]);
    assert(key =~= seq![
        0x43u8, 0x5b, 0xac, 0xc4, 0xd0, 0x5f, 0x9d, 0x41, 0xfe, 0xf4, 0x4a, 0xb3, 0xad, 0x55,
        0x61, 0x6c, 0x36, 0xe0, 0x61, 0x34, 0x73, 0xe2, 0x33, 0x87, 0x70, 0xef, 0xda, 0xa9, 0x86,
        0x93, 0xd2, 0x17,
    ]);
    let n = name.len() as int;
    let exts = encode_extensions(template_extensions(name));
    let words = seq![
        0x1302int, 0x1303, 0x1301, 0xc02c, 0xc030, 0xc02b, 0xc02f, 0xcca9, 0xcca8, 0xc024, 0xc028,
        0xc023, 0xc027, 0x009f, 0x009e, 0x006b, 0x0067, 0x00ff,
    ];
    let block = (
        (wide(seq![0int, n + 5, n + 3]) + seq![0u8] + wide(seq![n]) + name)
        + (wide(seq![11int, 4]) + seq![3u8, 0, 1, 2])
        + (wide(seq![10int, 22, 20]) + wide(seq![
            0x001dint, 0x0017, 0x001e, 0x0019, 0x0018, 0x0100, 0x0101, 0x0102, 0x0103, 0x0104,
        ]))
        + wide(seq![35int, 0])
        + (wide(seq![16int, 14, 12]) + seq![2u8, 104, 50]
            + seq![8u8, 104, 116, 116, 112, 47, 49, 46, 49])
        + wide(seq![22int, 0])
        + wide(seq![23int, 0])
        + (wide(seq![13int, 42, 40]) + wide(seq![
            0x0403int, 0x0503, 0x0603, 0x0807, 0x0808, 0x0809, 0x080a, 0x080b, 0x0804, 0x0805,
            0x0806, 0x0401, 0x0501, 0x0601, 0x0303, 0x0301, 0x0302, 0x0402, 0x0502, 0x0602,
        ]))
        + (wide(seq![43int, 5]) + seq![4u8] + wide(seq![0x0304int, 0x0303]))
        + (wide(seq![45int, 2]) + seq![1u8, 1])
        + (wide(seq![51int, 38, 36, 29, 32]) + key)
        + wide(seq![21int, 0])
    );
    lemma_default_block(key, name);
    lemma_template_len(name);
    assert(ints(template_ciphers()) =~= words);
    lemma_record_worked_out(
        random,
        session_id,
        template_ciphers(),
        words,
        exts,
        block,
        293 + n,
        289 + n,
        36,
        180 + n,
    );
}

} // verus!
