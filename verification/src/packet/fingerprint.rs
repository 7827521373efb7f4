//! ClientHello records that look like those of a browser.
//!
//! Filters tell clients apart by the cipher suites and extensions that a
//! ClientHello lists, and by their order. Each profile here keeps to the order
//! of one browser.

use crate::packet::extension::{
    alpn, application_settings, bare, compress_certificate, ec_point_formats, encode_extensions,
    ext_alpn, ext_application_settings, ext_compress_cert, ext_ec_point_formats, ext_empty,
    ext_grease, ext_key_share_x25519, ext_psk_modes, ext_renegotiation_info, ext_sig_algs, ext_sni,
    ext_status_request, ext_supported_groups, ext_supported_versions, key_share_x25519,
    lemma_encode_none, lemma_encode_push, psk_modes, renegotiation_info, reserved,
    server_name, signature_algorithms, status_request, supported_groups, supported_versions,
    Extension,
};
use crate::packet::random::{draw_bytes, draw_u32, was_drawn, was_filled};
use crate::packet::record::{assemble, hello_record};
use crate::packet::tls::{self, default_record};
use crate::wire::append;
use rand::rngs::ThreadRng;
use vstd::prelude::*;
use vstd::string::StringSliceAdditionalSpecFns;

verus! {

/// Which client a ClientHello is to look like.
#[derive(Debug, Clone, Copy, PartialEq, Eq, Structural)]
pub enum TlsFingerprint {
    /// A built-in template with nothing random in it.
    Default,
    /// Chrome 120 and other browsers on Chromium.
    ///
    /// JA3: `771,4865-4866-4867-49195-49199-49196-49200-52393-52392-49171-49172-156-157-47-53,`
    ///      `0-23-65281-10-11-35-16-5-13-18-51-45-43-27-17513-21,29-23-24,0`
    Chrome120,
    /// Edge 120, which is on Chromium too: the same as `Chrome120`.
    Edge120,
    /// Firefox 120.
    ///
    /// JA3: `771,4865-4867-4866-49195-49199-49196-49200-52393-52392-49171-49172-156-157-47-53-10-255,`
    ///      `0-23-65281-10-11-35-16-5-13-18-51-45-43-21,29-23-24-25,0`
    Firefox120,
    /// Safari 17.
    ///
    /// JA3: `771,4865-4866-4867-49196-49195-52393-49200-49199-52392-49172-49171-157-156-53-47,`
    ///      `0-23-65281-10-11-16-5-13-18-51-45-43,29-23-24-25,0`
    Safari17,
}

impl Default for TlsFingerprint {
    fn default() -> (fp: Self)
        ensures
            fp == TlsFingerprint::Default,
    {
        TlsFingerprint::Default
    }
}

impl TlsFingerprint {
    /// A ClientHello record of this profile for the host `sni`.
    ///
    /// All but `Default` draw their random values anew for each record.
    pub fn build_client_hello(&self, sni: &str) -> (rec: Vec<u8>)
        ensures
            is_hello_of(*self, rec@, sni.spec_bytes()),
            match *self {
                TlsFingerprint::Default => call_ensures(tls::build_client_hello, (sni,), rec),
                TlsFingerprint::Chrome120 | TlsFingerprint::Edge120 => call_ensures(
                    build_chrome120,
                    (sni,),
                    rec,
                ),
                TlsFingerprint::Firefox120 => call_ensures(build_firefox120, (sni,), rec),
                TlsFingerprint::Safari17 => call_ensures(build_safari17, (sni,), rec),
            },
    {
        match self {
            TlsFingerprint::Default => tls::build_client_hello(sni),
            TlsFingerprint::Chrome120 | TlsFingerprint::Edge120 => build_chrome120(sni),
            TlsFingerprint::Firefox120 => build_firefox120(sni),
            TlsFingerprint::Safari17 => build_safari17(sni),
        }
    }
}

/// The value at index `n % 16` of the sixteen that RFC 8701 reserves: `0x0a0a`,
/// `0x1a1a` and so on up to `0xfafa`.
pub open spec fn grease_value(n: int) -> u16 {
    (0x0a0a + 0x1010 * (n % 16)) as u16
}

/// Whether `v` is one of the sixteen values that RFC 8701 reserves.
pub open spec fn is_grease(v: u16) -> bool {
    exists|n: int| 0 <= n < 16 && v == #[trigger] grease_value(n)
}

/// The cipher suites of Chrome 120.
pub open spec fn chrome120_ciphers(grease: u16) -> Seq<u16> {
    seq![
        grease,
        0x1301,
        0x1302,
        0x1303,
        0xc02b,
        0xc02f,
        0xc02c,
        0xc030,
        0xcca9,
        0xcca8,
        0xc013,
        0xc014,
        0x009c,
        0x009d,
        0x002f,
        0x0035,
    ]
}

/// The signature algorithms of Chrome 120.
pub open spec fn chrome120_sig_algs() -> Seq<u16> {
    seq![0x0403, 0x0804, 0x0401, 0x0503, 0x0805, 0x0501, 0x0806, 0x0601, 0x0201]
}

/// The extensions of Chrome 120.
pub open spec fn chrome120_extensions(key_share: Seq<u8>, grease: u16, name: Seq<u8>) -> Seq<
    Extension,
> {
    Seq::<Extension>::empty()
        .push(reserved(grease))
        .push(server_name(name))
        .push(bare(0x0017))
        .push(renegotiation_info())
        .push(supported_groups(seq![0x001d, 0x0017, 0x0018]))
        .push(ec_point_formats())
        .push(bare(0x0023))
        .push(alpn(seq!["h2", "http/1.1"]))
        .push(status_request())
        .push(signature_algorithms(chrome120_sig_algs()))
        .push(bare(0x0012))
        .push(key_share_x25519(key_share))
        .push(psk_modes())
        .push(supported_versions(seq![0x0304, 0x0303]))
        .push(compress_certificate())
        .push(application_settings(seq!["h2"]))
        .push(reserved(grease))
        .push(bare(0x0015))
}

/// The record of Chrome 120 for the host `name`.
pub open spec fn chrome120_record(
    random: Seq<u8>,
    session_id: Seq<u8>,
    key_share: Seq<u8>,
    grease: u16,
    name: Seq<u8>,
) -> Seq<u8> {
    hello_record(
        random,
        session_id,
        chrome120_ciphers(grease),
        encode_extensions(chrome120_extensions(key_share, grease, name)),
    )
}

/// The cipher suites of Firefox 120, which puts ChaCha20 before AES-256.
pub open spec fn firefox120_ciphers() -> Seq<u16> {
    seq![
        0x1301,
        0x1303,
        0x1302,
        0xc02b,
        0xc02f,
        0xc02c,
        0xc030,
        0xcca9,
        0xcca8,
        0xc013,
        0xc014,
        0x009c,
        0x009d,
        0x002f,
        0x0035,
        0x000a,
        0x00ff,
    ]
}

/// The signature algorithms of Firefox 120.
pub open spec fn firefox120_sig_algs() -> Seq<u16> {
    seq![0x0403, 0x0503, 0x0603, 0x0804, 0x0805, 0x0806, 0x0401, 0x0501, 0x0601]
}

/// The extensions of Firefox 120.
pub open spec fn firefox120_extensions(key_share: Seq<u8>, name: Seq<u8>) -> Seq<Extension> {
    Seq::<Extension>::empty()
        .push(server_name(name))
        .push(bare(0x0017))
        .push(renegotiation_info())
        .push(supported_groups(seq![0x001d, 0x0017, 0x0018, 0x0019]))
        .push(ec_point_formats())
        .push(bare(0x0023))
        .push(alpn(seq!["h2", "http/1.1"]))
        .push(status_request())
        .push(signature_algorithms(firefox120_sig_algs()))
        .push(bare(0x0012))
        .push(key_share_x25519(key_share))
        .push(psk_modes())
        .push(supported_versions(seq![0x0304, 0x0303]))
        .push(bare(0x0015))
}

/// The record of Firefox 120 for the host `name`.
pub open spec fn firefox120_record(
    random: Seq<u8>,
    session_id: Seq<u8>,
    key_share: Seq<u8>,
    name: Seq<u8>,
) -> Seq<u8> {
    hello_record(
        random,
        session_id,
        firefox120_ciphers(),
        encode_extensions(firefox120_extensions(key_share, name)),
    )
}

/// The cipher suites of Safari 17, which puts ECDSA before RSA.
pub open spec fn safari17_ciphers() -> Seq<u16> {
    seq![
        0x1301,
        0x1302,
        0x1303,
        0xc02c,
        0xc02b,
        0xcca9,
        0xc030,
        0xc02f,
        0xcca8,
        0xc014,
        0xc013,
        0x009d,
        0x009c,
        0x0035,
        0x002f,
    ]
}

/// The signature algorithms of Safari 17.
pub open spec fn safari17_sig_algs() -> Seq<u16> {
    seq![
        0x0403,
        0x0804,
        0x0401,
        0x0503,
        0x0603,
        0x0805,
        0x0806,
        0x0501,
        0x0601,
        0x0201,
        0x0203,
    ]
}

/// The extensions of Safari 17. It sends no reserved ones, no session ticket, no
/// certificate compression and no application settings.
pub open spec fn safari17_extensions(key_share: Seq<u8>, name: Seq<u8>) -> Seq<Extension> {
    Seq::<Extension>::empty()
        .push(server_name(name))
        .push(bare(0x0017))
        .push(renegotiation_info())
        .push(supported_groups(seq![0x001d, 0x0017, 0x0018, 0x0019]))
        .push(ec_point_formats())
        .push(alpn(seq!["h2", "http/1.1"]))
        .push(status_request())
        .push(signature_algorithms(safari17_sig_algs()))
        .push(bare(0x0012))
        .push(key_share_x25519(key_share))
        .push(psk_modes())
        .push(supported_versions(seq![0x0304, 0x0303]))
}

/// The record of Safari 17 for the host `name`.
pub open spec fn safari17_record(
    random: Seq<u8>,
    session_id: Seq<u8>,
    key_share: Seq<u8>,
    name: Seq<u8>,
) -> Seq<u8> {
    hello_record(
        random,
        session_id,
        safari17_ciphers(),
        encode_extensions(safari17_extensions(key_share, name)),
    )
}

/// Whether `record` is one of Chrome 120 for the host `name`, whatever its
/// random values.
pub open spec fn is_chrome120(record: Seq<u8>, name: Seq<u8>) -> bool {
    exists|random: Seq<u8>, session_id: Seq<u8>, key_share: Seq<u8>, grease: u16|
        {
            &&& random.len() == 32
            &&& session_id.len() == 32
            &&& key_share.len() == 32
            &&& is_grease(grease)
            &&& record == #[trigger] chrome120_record(random, session_id, key_share, grease, name)
        }
}

/// Whether `record` is one of Firefox 120 for the host `name`, whatever its
/// random values.
pub open spec fn is_firefox120(record: Seq<u8>, name: Seq<u8>) -> bool {
    exists|random: Seq<u8>, session_id: Seq<u8>, key_share: Seq<u8>|
        {
            &&& random.len() == 32
            &&& session_id.len() == 32
            &&& key_share.len() == 32
            &&& record == #[trigger] firefox120_record(random, session_id, key_share, name)
        }
}

/// Whether `record` is one of Safari 17 for the host `name`, whatever its random
/// values.
pub open spec fn is_safari17(record: Seq<u8>, name: Seq<u8>) -> bool {
    exists|random: Seq<u8>, session_id: Seq<u8>, key_share: Seq<u8>|
        {
            &&& random.len() == 32
            &&& session_id.len() == 32
            &&& key_share.len() == 32
            &&& record == #[trigger] safari17_record(random, session_id, key_share, name)
        }
}

/// Whether `record` is a ClientHello of the profile `fp` for the host `name`.
pub open spec fn is_hello_of(fp: TlsFingerprint, record: Seq<u8>, name: Seq<u8>) -> bool {
    match fp {
        TlsFingerprint::Default => record == default_record(name),
        TlsFingerprint::Chrome120 | TlsFingerprint::Edge120 => is_chrome120(record, name),
        TlsFingerprint::Firefox120 => is_firefox120(record, name),
        TlsFingerprint::Safari17 => is_safari17(record, name),
    }
}

/// The reserved values are those of two equal bytes that end in the digit `a`.
pub proof fn law_reserved_values(v: u16)
    ensures
        is_grease(v) <==> v / 256 == v % 256 && v % 16 == 0x0a,
{
    if v / 256 == v % 256 && v % 16 == 0x0a {
        let n = v as int / 0x1000;
        assert(v == grease_value(n));
    }
}

/// `pick_grease` picks the value whose first digit is the last of `n`: numbers that
/// differ there pick different values, and every reserved value is picked.
pub proof fn law_every_reserved_value_is_picked(n: u32, v: u16)
    requires
        call_ensures(pick_grease, (n,), v),
    ensures
        v == 0x0a0a + 0x1010 * (n % 16),
        v / 0x1000 == n % 16,
        v / 256 == v % 256,
        v % 16 == 0x0a,
{
}

/// The reserved value that the number `n` picks.
pub fn pick_grease(n: u32) -> (v: u16)
    ensures
        v == grease_value(n as int),
        is_grease(v),
{
    let set: [u16; 16] = [
        0x0a0a, 0x1a1a, 0x2a2a, 0x3a3a, 0x4a4a, 0x5a5a, 0x6a6a, 0x7a7a,
        0x8a8a, 0x9a9a, 0xaaaa, 0xbaba, 0xcaca, 0xdada, 0xeaea, 0xfafa,
    ];
    let i: usize = (n % 16) as usize;
    assert(grease_value(n as int) == grease_value(i as int));
    set[i]
}

/// A reserved value, picked at random.
pub fn random_grease(rng: &mut ThreadRng) -> (v: u16)
    ensures
        is_grease(v),
        exists|r: &mut ThreadRng, n: u32|
            {
                &&& #[trigger] was_drawn(r, n)
                &&& *r == *old(rng)
                &&& *final(r) == *final(rng)
                &&& v == 0x0a0a + 0x1010 * (n % 16)
            },
{
    pick_grease(draw_u32(rng))
}

/// The record of Chrome 120, of the random values that go into it.
pub fn chrome120_hello(
    random: &[u8; 32],
    sess_id: &[u8; 32],
    key_share: &[u8; 32],
    grease: u16,
    sni: &str,
) -> (rec: Vec<u8>)
    ensures
        rec@ == chrome120_record(random@, sess_id@, key_share@, grease, sni.spec_bytes()),
{
    let ciphers: [u16; 16] = [
        grease,
        0x1301, 0x1302, 0x1303,
        0xc02b, 0xc02f, 0xc02c, 0xc030,
        0xcca9, 0xcca8,
        0xc013, 0xc014,
        0x009c, 0x009d,
        0x002f, 0x0035,
    ];
    assert(ciphers@ =~= chrome120_ciphers(grease));
    let exts = chrome120_exts(key_share, grease, sni);
    assemble(random, sess_id, ciphers.as_slice(), exts.as_slice())
}

fn chrome120_exts(key_share: &[u8; 32], grease: u16, sni: &str) -> (exts: Vec<u8>)
    ensures
        exts@ == encode_extensions(chrome120_extensions(key_share@, grease, sni.spec_bytes())),
{
    let groups: [u16; 3] = [0x001d, 0x0017, 0x0018];  // x25519, P-256, P-384
    let sig_algs: [u16; 9] = [
        0x0403, 0x0804, 0x0401,
        0x0503, 0x0805, 0x0501,
        0x0806, 0x0601, 0x0201,
    ];
    let versions: [u16; 2] = [0x0304, 0x0303];
    let protos: [&str; 2] = ["h2", "http/1.1"];
    let settings: [&str; 1] = ["h2"];
    assert(groups@ =~= seq![0x001d, 0x0017, 0x0018]);
    assert(sig_algs@ =~= chrome120_sig_algs());
    assert(versions@ =~= seq![0x0304, 0x0303]);
    assert(protos@ =~= seq!["h2", "http/1.1"]);
    assert(settings@ =~= seq!["h2"]);

    let mut exts: Vec<u8> = Vec::new();
    ext_grease(&mut exts, grease);
    append(&mut exts, ext_sni(sni).as_slice());
    ext_empty(&mut exts, 0x0017);  // extended_master_secret
    ext_renegotiation_info(&mut exts);
    ext_supported_groups(&mut exts, groups.as_slice());
    ext_ec_point_formats(&mut exts);
    ext_empty(&mut exts, 0x0023);  // session_ticket
    ext_alpn(&mut exts, protos.as_slice());
    ext_status_request(&mut exts);
    ext_sig_algs(&mut exts, sig_algs.as_slice());
    ext_empty(&mut exts, 0x0012);  // signed_certificate_timestamp
    ext_key_share_x25519(&mut exts, key_share);
    ext_psk_modes(&mut exts);
    ext_supported_versions(&mut exts, versions.as_slice());
    ext_compress_cert(&mut exts);
    ext_application_settings(&mut exts, settings.as_slice());
    ext_grease(&mut exts, grease);
    ext_empty(&mut exts, 0x0015);  // padding, empty: its type is what counts
    proof {
        broadcast use lemma_encode_push, lemma_encode_none;

    }
    exts
}

/// The record of Firefox 120, of the random values that go into it.
pub fn firefox120_hello(
    random: &[u8; 32],
    sess_id: &[u8; 32],
    key_share: &[u8; 32],
    sni: &str,
) -> (rec: Vec<u8>)
    ensures
        rec@ == firefox120_record(random@, sess_id@, key_share@, sni.spec_bytes()),
{
    let ciphers: [u16; 17] = [
        0x1301, 0x1303, 0x1302,
        0xc02b, 0xc02f, 0xc02c, 0xc030,
        0xcca9, 0xcca8,
        0xc013, 0xc014,
        0x009c, 0x009d,
        0x002f, 0x0035,
        0x000a,  // TLS_RSA_WITH_3DES_EDE_CBC_SHA
        0x00ff,  // TLS_EMPTY_RENEGOTIATION_INFO_SCSV
    ];
    assert(ciphers@ =~= firefox120_ciphers());
    let exts = firefox120_exts(key_share, sni);
    assemble(random, sess_id, ciphers.as_slice(), exts.as_slice())
}

fn firefox120_exts(key_share: &[u8; 32], sni: &str) -> (exts: Vec<u8>)
    ensures
        exts@ == encode_extensions(firefox120_extensions(key_share@, sni.spec_bytes())),
{
    let groups: [u16; 4] = [0x001d, 0x0017, 0x0018, 0x0019];  // x25519, P-256, P-384, P-521
    let sig_algs: [u16; 9] = [
        0x0403, 0x0503, 0x0603,
        0x0804, 0x0805, 0x0806,
        0x0401, 0x0501, 0x0601,
    ];
    let versions: [u16; 2] = [0x0304, 0x0303];
    let protos: [&str; 2] = ["h2", "http/1.1"];
    assert(groups@ =~= seq![0x001d, 0x0017, 0x0018, 0x0019]);
    assert(sig_algs@ =~= firefox120_sig_algs());
    assert(versions@ =~= seq![0x0304, 0x0303]);
    assert(protos@ =~= seq!["h2", "http/1.1"]);

    let mut exts: Vec<u8> = Vec::new();
    append(&mut exts, ext_sni(sni).as_slice());
    ext_empty(&mut exts, 0x0017);  // extended_master_secret
    ext_renegotiation_info(&mut exts);
    ext_supported_groups(&mut exts, groups.as_slice());
    ext_ec_point_formats(&mut exts);
    ext_empty(&mut exts, 0x0023);  // session_ticket
    ext_alpn(&mut exts, protos.as_slice());
    ext_status_request(&mut exts);
    ext_sig_algs(&mut exts, sig_algs.as_slice());
    ext_empty(&mut exts, 0x0012);  // signed_certificate_timestamp
    ext_key_share_x25519(&mut exts, key_share);
    ext_psk_modes(&mut exts);
    ext_supported_versions(&mut exts, versions.as_slice());
    ext_empty(&mut exts, 0x0015);  // padding
    proof {
        broadcast use lemma_encode_push, lemma_encode_none;

    }
    exts
}

/// The record of Safari 17, of the random values that go into it.
pub fn safari17_hello(
    random: &[u8; 32],
    sess_id: &[u8; 32],
    key_share: &[u8; 32],
    sni: &str,
) -> (rec: Vec<u8>)
    ensures
        rec@ == safari17_record(random@, sess_id@, key_share@, sni.spec_bytes()),
{
    let ciphers: [u16; 15] = [
        0x1301, 0x1302, 0x1303,
        0xc02c, 0xc02b, 0xcca9,  // ECDSA: AES-256, AES-128, ChaCha20
        0xc030, 0xc02f, 0xcca8,  // RSA:   AES-256, AES-128, ChaCha20
        0xc014, 0xc013,
        0x009d, 0x009c,
        0x0035, 0x002f,
    ];
    assert(ciphers@ =~= safari17_ciphers());
    let exts = safari17_exts(key_share, sni);
    assemble(random, sess_id, ciphers.as_slice(), exts.as_slice())
}

fn safari17_exts(key_share: &[u8; 32], sni: &str) -> (exts: Vec<u8>)
    ensures
        exts@ == encode_extensions(safari17_extensions(key_share@, sni.spec_bytes())),
{
    let groups: [u16; 4] = [0x001d, 0x0017, 0x0018, 0x0019];  // x25519, P-256, P-384, P-521
    let sig_algs: [u16; 11] = [
        0x0403, 0x0804, 0x0401,
        0x0503, 0x0603,
        0x0805, 0x0806,
        0x0501, 0x0601,
        0x0201, 0x0203,  // SHA-1, which Safari still lists
    ];
    let versions: [u16; 2] = [0x0304, 0x0303];
    let protos: [&str; 2] = ["h2", "http/1.1"];
    assert(groups@ =~= seq![0x001d, 0x0017, 0x0018, 0x0019]);
    assert(sig_algs@ =~= safari17_sig_algs());
    assert(versions@ =~= seq![0x0304, 0x0303]);
    assert(protos@ =~= seq!["h2", "http/1.1"]);

    let mut exts: Vec<u8> = Vec::new();
    append(&mut exts, ext_sni(sni).as_slice());
    ext_empty(&mut exts, 0x0017);  // extended_master_secret
    ext_renegotiation_info(&mut exts);
    ext_supported_groups(&mut exts, groups.as_slice());
    ext_ec_point_formats(&mut exts);
    ext_alpn(&mut exts, protos.as_slice());
    ext_status_request(&mut exts);
    ext_sig_algs(&mut exts, sig_algs.as_slice());
    ext_empty(&mut exts, 0x0012);  // signed_certificate_timestamp
    ext_key_share_x25519(&mut exts, key_share);
    ext_psk_modes(&mut exts);
    ext_supported_versions(&mut exts, versions.as_slice());
    proof {
        broadcast use lemma_encode_push, lemma_encode_none;

    }
    exts
}

/// A record of Chrome 120 with fresh random values.
pub fn build_chrome120(sni: &str) -> (rec: Vec<u8>)
    ensures
        is_chrome120(rec@, sni.spec_bytes()),
        exists|
            r1: &mut ThreadRng,
            random: &mut [u8; 32],
            r2: &mut ThreadRng,
            sess_id: &mut [u8; 32],
            r3: &mut ThreadRng,
            key_share: &mut [u8; 32],
            r4: &mut ThreadRng,
            n: u32,
        |
            {
                &&& #[trigger] was_filled(r1, random)
                &&& #[trigger] was_filled(r2, sess_id)
                &&& #[trigger] was_filled(r3, key_share)
                &&& #[trigger] was_drawn(r4, n)
                &&& *r2 == *final(r1)
                &&& *r3 == *final(r2)
                &&& *r4 == *final(r3)
                &&& rec@ == chrome120_record(
                    final(random)@,
                    final(sess_id)@,
                    final(key_share)@,
                    (0x0a0a + 0x1010 * (n % 16)) as u16,
                    sni.spec_bytes(),
                )
            },
{
    let mut rng = rand::thread_rng();
    let random = draw_bytes(&mut rng);
    let sess_id = draw_bytes(&mut rng);
    let key_share = draw_bytes(&mut rng);
    let grease = random_grease(&mut rng);
    chrome120_hello(&random, &sess_id, &key_share, grease, sni)
}

/// A record of Firefox 120 with fresh random values.
pub fn build_firefox120(sni: &str) -> (rec: Vec<u8>)
    ensures
        is_firefox120(rec@, sni.spec_bytes()),
        exists|
            r1: &mut ThreadRng,
            random: &mut [u8; 32],
            r2: &mut ThreadRng,
            sess_id: &mut [u8; 32],
            r3: &mut ThreadRng,
            key_share: &mut [u8; 32],
        |
            {
                &&& #[trigger] was_filled(r1, random)
                &&& #[trigger] was_filled(r2, sess_id)
                &&& #[trigger] was_filled(r3, key_share)
                &&& *r2 == *final(r1)
                &&& *r3 == *final(r2)
                &&& rec@ == firefox120_record(
                    final(random)@,
                    final(sess_id)@,
                    final(key_share)@,
                    sni.spec_bytes(),
                )
            },
{
    let mut rng = rand::thread_rng();
    let random = draw_bytes(&mut rng);
    let sess_id = draw_bytes(&mut rng);
    let key_share = draw_bytes(&mut rng);
    firefox120_hello(&random, &sess_id, &key_share, sni)
}

/// A record of Safari 17 with fresh random values.
pub fn build_safari17(sni: &str) -> (rec: Vec<u8>)
    ensures
        is_safari17(rec@, sni.spec_bytes()),
        exists|
            r1: &mut ThreadRng,
            random: &mut [u8; 32],
            r2: &mut ThreadRng,
            sess_id: &mut [u8; 32],
            r3: &mut ThreadRng,
            key_share: &mut [u8; 32],
        |
            {
                &&& #[trigger] was_filled(r1, random)
                &&& #[trigger] was_filled(r2, sess_id)
                &&& #[trigger] was_filled(r3, key_share)
                &&& *r2 == *final(r1)
                &&& *r3 == *final(r2)
                &&& rec@ == safari17_record(
                    final(random)@,
                    final(sess_id)@,
                    final(key_share)@,
                    sni.spec_bytes(),
                )
            },
{
    let mut rng = rand::thread_rng();
    let random = draw_bytes(&mut rng);
    let sess_id = draw_bytes(&mut rng);
    let key_share = draw_bytes(&mut rng);
    safari17_hello(&random, &sess_id, &key_share, sni)
}

} // verus!
