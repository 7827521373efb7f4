//! What holds of the records of every profile.

use crate::fragment::{chunks, law_pieces_join, pieces};
use crate::laws::{
    extension_offset, law_empty_name_in_record, law_hello_record_length,
    law_hello_record_reads_back, law_name_is_found, lemma_extension_fits,
    lemma_extension_replaced,
    lemma_hello_records_compared, MAX_RECORD,
};
use crate::packet::extension::{
    alpn, application_settings, bare, compress_certificate, encode_extension, encode_extensions,
    key_share_x25519, lemma_encode_none, lemma_encode_push, protocol_names, psk_modes, reserved,
    server_name, signature_algorithms, supported_groups, supported_versions, Extension,
};
use crate::packet::fingerprint::{
    chrome120_ciphers, chrome120_extensions, chrome120_record, chrome120_sig_algs,
    firefox120_ciphers, firefox120_extensions, firefox120_record, firefox120_sig_algs, is_grease,
    is_hello_of, safari17_ciphers, safari17_extensions, safari17_record, safari17_sig_algs,
    TlsFingerprint,
};
use crate::packet::random::{was_drawn, was_filled};
use crate::packet::record::hello_record;
use crate::packet::tls::{
    default_record, template_ciphers, template_extensions, template_groups, template_key_share, template_random,
    template_session_id, template_sig_algs,
};
use crate::sni::sni_range;
use crate::wire::{be16, law_u16_list_layout, lemma_u16_lists_compared, u16_list};
use rand::rngs::ThreadRng;
use vstd::prelude::*;
use vstd::string::StringSliceAdditionalSpecFns;

verus! {

/// How many bytes a record of the profile `fp` has besides the host name.
pub open spec fn fixed_len(fp: TlsFingerprint) -> nat {
    match fp {
        TlsFingerprint::Default => 298,
        TlsFingerprint::Chrome120 | TlsFingerprint::Edge120 => 294,
        TlsFingerprint::Firefox120 => 274,
        TlsFingerprint::Safari17 => 266,
    }
}

/// Where the host name starts in a record of the profile `fp`.
pub open spec fn name_offset(fp: TlsFingerprint) -> int {
    match fp {
        TlsFingerprint::Default => 127,
        TlsFingerprint::Chrome120 | TlsFingerprint::Edge120 => 128,
        TlsFingerprint::Firefox120 => 125,
        TlsFingerprint::Safari17 => 121,
    }
}

/// The names "h2" and "http/1.1" take two and eight bytes.
proof fn lemma_protocol_bytes()
    ensures
        "h2".spec_bytes().len() == 2,
        "http/1.1".spec_bytes().len() == 8,
{
    reveal_strlit("h2");
    reveal_strlit("http/1.1");
    broadcast use vstd::string::is_ascii_spec_bytes;

    assert("h2".is_ascii());
    assert("http/1.1".is_ascii());
}

proof fn lemma_protocol_names_len()
    ensures
        protocol_names(seq!["h2", "http/1.1"]).len() == 12,
        protocol_names(seq!["h2"]).len() == 3,
{
    lemma_protocol_bytes();
    let none = Seq::<&str>::empty();
    let one = seq!["h2"];
    let two = seq!["h2", "http/1.1"];
    assert(one.drop_last() =~= none);
    assert(two.drop_last() =~= one);
    assert(protocol_names(none).len() == 0);
    assert(protocol_names(one).len() == 3);
}

pub(crate) proof fn lemma_chrome120_len(key_share: Seq<u8>, grease: u16, name: Seq<u8>)
    requires
        key_share.len() == 32,
    ensures
        encode_extensions(chrome120_extensions(key_share, grease, name)).len() == 180 + name.len(),
{
    broadcast use lemma_encode_push, lemma_encode_none;

    lemma_protocol_names_len();
    law_u16_list_layout(seq![0x001d, 0x0017, 0x0018]);
    law_u16_list_layout(chrome120_sig_algs());
    law_u16_list_layout(seq![0x0304, 0x0303]);
    assert(encode_extension(server_name(name)).len() == 9 + name.len());
    assert(encode_extension(key_share_x25519(key_share)).len() == 42);
    assert(encode_extension(alpn(seq!["h2", "http/1.1"])).len() == 18);
    assert(encode_extension(application_settings(seq!["h2"])).len() == 7);
    assert(encode_extension(supported_groups(seq![0x001d, 0x0017, 0x0018])).len() == 12);
    assert(encode_extension(signature_algorithms(chrome120_sig_algs())).len() == 24);
    assert(encode_extension(supported_versions(seq![0x0304, 0x0303])).len() == 9);
}

pub(crate) proof fn lemma_firefox120_len(key_share: Seq<u8>, name: Seq<u8>)
    requires
        key_share.len() == 32,
    ensures
        encode_extensions(firefox120_extensions(key_share, name)).len() == 158 + name.len(),
{
    broadcast use lemma_encode_push, lemma_encode_none;

    lemma_protocol_names_len();
    law_u16_list_layout(seq![0x001d, 0x0017, 0x0018, 0x0019]);
    law_u16_list_layout(firefox120_sig_algs());
    law_u16_list_layout(seq![0x0304, 0x0303]);
    assert(encode_extension(server_name(name)).len() == 9 + name.len());
    assert(encode_extension(key_share_x25519(key_share)).len() == 42);
    assert(encode_extension(alpn(seq!["h2", "http/1.1"])).len() == 18);
    assert(encode_extension(supported_groups(seq![0x001d, 0x0017, 0x0018, 0x0019])).len() == 14);
    assert(encode_extension(signature_algorithms(firefox120_sig_algs())).len() == 24);
    assert(encode_extension(supported_versions(seq![0x0304, 0x0303])).len() == 9);
}

pub(crate) proof fn lemma_safari17_len(key_share: Seq<u8>, name: Seq<u8>)
    requires
        key_share.len() == 32,
    ensures
        encode_extensions(safari17_extensions(key_share, name)).len() == 154 + name.len(),
{
    broadcast use lemma_encode_push, lemma_encode_none;

    lemma_protocol_names_len();
    law_u16_list_layout(seq![0x001d, 0x0017, 0x0018, 0x0019]);
    law_u16_list_layout(safari17_sig_algs());
    law_u16_list_layout(seq![0x0304, 0x0303]);
    assert(encode_extension(server_name(name)).len() == 9 + name.len());
    assert(encode_extension(key_share_x25519(key_share)).len() == 42);
    assert(encode_extension(alpn(seq!["h2", "http/1.1"])).len() == 18);
    assert(encode_extension(supported_groups(seq![0x001d, 0x0017, 0x0018, 0x0019])).len() == 14);
    assert(encode_extension(signature_algorithms(safari17_sig_algs())).len() == 28);
    assert(encode_extension(supported_versions(seq![0x0304, 0x0303])).len() == 9);
}

pub(crate) proof fn lemma_template_len(name: Seq<u8>)
    ensures
        encode_extensions(template_extensions(name)).len() == 180 + name.len(),
{
    broadcast use lemma_encode_push, lemma_encode_none;

    lemma_protocol_names_len();
    law_u16_list_layout(template_groups());
    law_u16_list_layout(template_sig_algs());
    law_u16_list_layout(seq![0x0304, 0x0303]);
    assert(encode_extension(server_name(name)).len() == 9 + name.len());
    assert(encode_extension(key_share_x25519(template_key_share())).len() == 42);
    assert(encode_extension(alpn(seq!["h2", "http/1.1"])).len() == 18);
    assert(encode_extension(supported_groups(template_groups())).len() == 26);
    assert(encode_extension(signature_algorithms(template_sig_algs())).len() == 46);
    assert(encode_extension(supported_versions(seq![0x0304, 0x0303])).len() == 9);
}

/// What a ClientHello record is put together of.
struct Parts {
    random: Seq<u8>,
    session_id: Seq<u8>,
    ciphers: Seq<u16>,
    exts: Seq<Extension>,
}

impl Parts {
    /// The record itself.
    spec fn record(self) -> Seq<u8> {
        hello_record(self.random, self.session_id, self.ciphers, encode_extensions(self.exts))
    }
}

/// The index of server_name among the extensions of the profile `fp`.
spec fn name_index(fp: TlsFingerprint) -> int {
    if fp is Chrome120 || fp is Edge120 {
        1
    } else {
        0
    }
}

/// The cipher suites and extensions of the profile `fp`.
spec fn fits_profile(fp: TlsFingerprint, parts: Parts, name: Seq<u8>) -> bool {
    &&& parts.random.len() == 32
    &&& parts.session_id.len() == 32
    &&& match fp {
        TlsFingerprint::Default => {
            &&& parts.ciphers == template_ciphers()
            &&& parts.exts == template_extensions(name)
        },
        TlsFingerprint::Chrome120 | TlsFingerprint::Edge120 => exists|key: Seq<u8>, grease: u16|
            {
                &&& key.len() == 32
                &&& is_grease(grease)
                &&& parts.ciphers == chrome120_ciphers(grease)
                &&& parts.exts == #[trigger] chrome120_extensions(key, grease, name)
            },
        TlsFingerprint::Firefox120 => exists|key: Seq<u8>|
            {
                &&& key.len() == 32
                &&& parts.ciphers == firefox120_ciphers()
                &&& parts.exts == #[trigger] firefox120_extensions(key, name)
            },
        TlsFingerprint::Safari17 => exists|key: Seq<u8>|
            {
                &&& key.len() == 32
                &&& parts.ciphers == safari17_ciphers()
                &&& parts.exts == #[trigger] safari17_extensions(key, name)
            },
    }
}

/// Takes a record of the profile `fp` apart.
proof fn take_apart(fp: TlsFingerprint, record: Seq<u8>, name: Seq<u8>) -> (parts: Parts)
    requires
        is_hello_of(fp, record, name),
    ensures
        record == parts.record(),
        fits_profile(fp, parts, name),
{
    match fp {
        TlsFingerprint::Default => Parts {
            random: template_random(),
            session_id: template_session_id(),
            ciphers: template_ciphers(),
            exts: template_extensions(name),
        },
        TlsFingerprint::Chrome120 | TlsFingerprint::Edge120 => {
            let (random, session_id, key, grease) = choose|
                random: Seq<u8>,
                session_id: Seq<u8>,
                key: Seq<u8>,
                grease: u16,
            |
                {
                    &&& random.len() == 32
                    &&& session_id.len() == 32
                    &&& key.len() == 32
                    &&& is_grease(grease)
                    &&& record == #[trigger] chrome120_record(random, session_id, key, grease, name)
                };
            Parts {
                random,
                session_id,
                ciphers: chrome120_ciphers(grease),
                exts: chrome120_extensions(key, grease, name),
            }
        },
        TlsFingerprint::Firefox120 => {
            let (random, session_id, key) = choose|
                random: Seq<u8>,
                session_id: Seq<u8>,
                key: Seq<u8>,
            |
                {
                    &&& random.len() == 32
                    &&& session_id.len() == 32
                    &&& key.len() == 32
                    &&& record == #[trigger] firefox120_record(random, session_id, key, name)
                };
            Parts {
                random,
                session_id,
                ciphers: firefox120_ciphers(),
                exts: firefox120_extensions(key, name),
            }
        },
        TlsFingerprint::Safari17 => {
            let (random, session_id, key) = choose|
                random: Seq<u8>,
                session_id: Seq<u8>,
                key: Seq<u8>,
            |
                {
                    &&& random.len() == 32
                    &&& session_id.len() == 32
                    &&& key.len() == 32
                    &&& record == #[trigger] safari17_record(random, session_id, key, name)
                };
            Parts {
                random,
                session_id,
                ciphers: safari17_ciphers(),
                exts: safari17_extensions(key, name),
            }
        },
    }
}

/// How long the lists of the profile `fp` are, and where server_name stands.
proof fn lemma_profile_shape(fp: TlsFingerprint, parts: Parts, name: Seq<u8>)
    requires
        fits_profile(fp, parts, name),
    ensures
        82 + 2 * parts.ciphers.len() + encode_extensions(parts.exts).len() == fixed_len(fp)
            + name.len(),
        name_index(fp) < parts.exts.len(),
        forall|i: int| 0 <= i < name_index(fp) ==> (#[trigger] parts.exts[i]).kind != 0,
        parts.exts[name_index(fp)] == server_name(name),
        91 + 2 * parts.ciphers.len() + extension_offset(parts.exts, name_index(fp)) == name_offset(
            fp,
        ),
{
    let exts = parts.exts;
    assert(exts.len() > 0 ==> exts.take(0) =~= Seq::empty());
    match fp {
        TlsFingerprint::Default => {
            lemma_template_len(name);
        },
        TlsFingerprint::Chrome120 | TlsFingerprint::Edge120 => {
            let (key, grease) = choose|key: Seq<u8>, grease: u16|
                {
                    &&& key.len() == 32
                    &&& is_grease(grease)
                    &&& parts.ciphers == chrome120_ciphers(grease)
                    &&& parts.exts == #[trigger] chrome120_extensions(key, grease, name)
                };
            lemma_chrome120_len(key, grease, name);
            assert(exts.take(1) =~= Seq::empty().push(exts[0]));
            lemma_encode_push(Seq::empty(), exts[0]);
            assert(exts[0].kind == grease);
        },
        TlsFingerprint::Firefox120 => {
            let key = choose|key: Seq<u8>|
                {
                    &&& key.len() == 32
                    &&& parts.ciphers == firefox120_ciphers()
                    &&& parts.exts == #[trigger] firefox120_extensions(key, name)
                };
            lemma_firefox120_len(key, name);
        },
        TlsFingerprint::Safari17 => {
            let key = choose|key: Seq<u8>|
                {
                    &&& key.len() == 32
                    &&& parts.ciphers == safari17_ciphers()
                    &&& parts.exts == #[trigger] safari17_extensions(key, name)
                };
            lemma_safari17_len(key, name);
        },
    }
}

/// The length of a record is that of the host name and a number that depends on
/// the profile alone, not on its random values.
pub proof fn law_record_length(fp: TlsFingerprint, record: Seq<u8>, name: Seq<u8>)
    requires
        is_hello_of(fp, record, name),
    ensures
        record.len() == fixed_len(fp) + name.len(),
{
    let parts = take_apart(fp, record, name);
    lemma_profile_shape(fp, parts, name);
    law_hello_record_length(
        parts.random,
        parts.session_id,
        parts.ciphers,
        encode_extensions(parts.exts),
    );
}

/// Every record that fits the length its header can state is a handshake record
/// of version TLS 1.0, states its own length, and holds a ClientHello.
pub proof fn law_record_structure(fp: TlsFingerprint, record: Seq<u8>, name: Seq<u8>)
    requires
        is_hello_of(fp, record, name),
        record.len() <= MAX_RECORD,
    ensures
        record.len() > 9,
        record.take(3) == seq![0x16u8, 0x03u8, 0x01u8],
        5 + be16(record, 3) == record.len(),
        record[5] == 0x01,
{
    let parts = take_apart(fp, record, name);
    law_hello_record_reads_back(
        parts.random,
        parts.session_id,
        parts.ciphers,
        encode_extensions(parts.exts),
    );
}

/// In every record that fits the length its header can state, the host name it
/// was built for is found, where the profile puts it.
pub proof fn law_sni_is_found(fp: TlsFingerprint, record: Seq<u8>, name: Seq<u8>)
    requires
        is_hello_of(fp, record, name),
        record.len() <= MAX_RECORD,
        name.len() > 0,
    ensures
        sni_range(record) == Some((name_offset(fp), name_offset(fp) + name.len())),
        record.subrange(name_offset(fp), name_offset(fp) + name.len()) == name,
{
    let parts = take_apart(fp, record, name);
    lemma_profile_shape(fp, parts, name);
    law_name_is_found(
        parts.random,
        parts.session_id,
        parts.ciphers,
        parts.exts,
        name_index(fp),
        name,
    );
}

/// Cut apart, a record of every profile gives what stands in front of the host
/// name, the chunks of the host name it was built for, and what stands behind.
pub proof fn law_profile_pieces(
    fp: TlsFingerprint,
    record: Seq<u8>,
    name: Seq<u8>,
    sni_chunk: nat,
)
    requires
        is_hello_of(fp, record, name),
        record.len() <= MAX_RECORD,
        name.len() > 0,
    ensures
        pieces(record, sni_chunk) == seq![record.take(name_offset(fp))] + chunks(name, sni_chunk)
            + seq![record.skip(name_offset(fp) + name.len())],
        pieces(record, sni_chunk).flatten() == record,
{
    law_sni_is_found(fp, record, name);
    law_record_length(fp, record, name);
    law_pieces_join(record, sni_chunk);
}

/// A host name that is empty is built into a record, but not found in it.
pub proof fn law_empty_name_is_not_found(fp: TlsFingerprint, record: Seq<u8>)
    requires
        is_hello_of(fp, record, Seq::empty()),
    ensures
        sni_range(record) is None,
{
    let name = Seq::<u8>::empty();
    let parts = take_apart(fp, record, name);
    lemma_profile_shape(fp, parts, name);
    law_record_length(fp, record, name);
    law_empty_name_in_record(
        parts.random,
        parts.session_id,
        parts.ciphers,
        parts.exts,
        name_index(fp),
    );
}

/// Whether the byte at `i` of a record of the profile `fp`, `len` bytes long, is one
/// that is drawn at random: one of the random, the session id, the public key, or of
/// a reserved value.
pub open spec fn is_drawn(fp: TlsFingerprint, len: nat, i: int) -> bool {
    match fp {
        TlsFingerprint::Default => false,
        TlsFingerprint::Chrome120 | TlsFingerprint::Edge120 => {
            ||| 11 <= i < 43
            ||| 44 <= i < 76
            ||| 78 <= i < 80
            ||| 114 <= i < 116
            ||| len - 70 <= i < len - 38
            ||| len - 9 <= i < len - 7
        },
        TlsFingerprint::Firefox120 => {
            ||| 11 <= i < 43
            ||| 44 <= i < 76
            ||| len - 51 <= i < len - 19
        },
        TlsFingerprint::Safari17 => {
            ||| 11 <= i < 43
            ||| 44 <= i < 76
            ||| len - 47 <= i < len - 15
        },
    }
}

/// With another public key in the key_share extension at index `k`, a block changes
/// only where the key stands.
proof fn lemma_key_replaced(
    exts: Seq<Extension>,
    k: int,
    old_key: Seq<u8>,
    new_key: Seq<u8>,
    i: int,
)
    requires
        0 <= k < exts.len(),
        exts[k] == key_share_x25519(old_key),
        old_key.len() == 32 && new_key.len() == 32,
        0 <= i < encode_extensions(exts).len(),
    ensures
        ({
            let (a, b) = (
                encode_extensions(exts),
                encode_extensions(exts.update(k, key_share_x25519(new_key))),
            );
            let end = a.len() - encode_extensions(exts.skip(k + 1)).len();
            &&& b.len() == a.len()
            &&& !(end - 32 <= i < end) ==> b[i] == a[i]
        }),
{
    let (a, b) = (key_share_x25519(old_key), key_share_x25519(new_key));
    assert(a.data.len() == 38 && b.data.len() == 38);
    assert(forall|j: int|
        0 <= j < 10 ==> #[trigger] encode_extension(a)[j] == encode_extension(b)[j]);
    lemma_extension_replaced(exts, k, b, i);
}

/// With another type in the reserved extension at index `k`, a block changes only
/// where the type stands.
proof fn lemma_reserved_replaced(
    exts: Seq<Extension>,
    k: int,
    old_kind: u16,
    new_kind: u16,
    i: int,
)
    requires
        0 <= k < exts.len(),
        exts[k] == reserved(old_kind),
        0 <= i < encode_extensions(exts).len(),
    ensures
        ({
            let (a, b) = (
                encode_extensions(exts),
                encode_extensions(exts.update(k, reserved(new_kind))),
            );
            let end = a.len() - encode_extensions(exts.skip(k + 1)).len();
            &&& b.len() == a.len()
            &&& !(end - 5 <= i < end - 3) ==> b[i] == a[i]
        }),
{
    let (a, b) = (reserved(old_kind), reserved(new_kind));
    assert(forall|j: int|
        2 <= j < 5 ==> #[trigger] encode_extension(a)[j] == encode_extension(b)[j]);
    lemma_extension_replaced(exts, k, b, i);
}

/// A block is its first extension and the others.
proof fn lemma_encode_front(exts: Seq<Extension>)
    requires
        exts.len() > 0,
    ensures
        encode_extensions(exts).len() == encode_extension(exts[0]).len() + encode_extensions(
            exts.skip(1),
        ).len(),
    decreases exts.len(),
{
    let front = exts.drop_last();
    if front.len() > 0 {
        lemma_encode_front(front);
        assert(exts.skip(1).drop_last() =~= front.skip(1));
    } else {
        assert(encode_extensions(front) =~= Seq::empty());
        assert(encode_extensions(exts.skip(1)) =~= Seq::empty());
    }
}

/// What Safari 17 sends behind key_share.
spec fn safari17_tail() -> Seq<Extension> {
    Seq::<Extension>::empty().push(psk_modes()).push(supported_versions(seq![0x0304, 0x0303]))
}

/// What Firefox 120 sends behind key_share.
spec fn firefox120_tail() -> Seq<Extension> {
    safari17_tail().push(bare(0x0015))
}

/// What Chrome 120 sends behind key_share.
spec fn chrome120_tail(grease: u16) -> Seq<Extension> {
    safari17_tail()
        .push(compress_certificate())
        .push(application_settings(seq!["h2"]))
        .push(reserved(grease))
        .push(bare(0x0015))
}

proof fn lemma_tails_len(grease: u16)
    ensures
        encode_extensions(safari17_tail()).len() == 15,
        encode_extensions(firefox120_tail()).len() == 19,
        encode_extensions(chrome120_tail(grease)).len() == 38,
        encode_extensions(Seq::<Extension>::empty().push(bare(0x0015))).len() == 4,
{
    broadcast use lemma_encode_push, lemma_encode_none;

    lemma_protocol_names_len();
    law_u16_list_layout(seq![0x0304, 0x0303]);
    assert(encode_extension(supported_versions(seq![0x0304, 0x0303])).len() == 9);
    assert(encode_extension(application_settings(seq!["h2"])).len() == 7);
}

/// How the extensions of Chrome 120 come from others of it, and what stands behind
/// each that is replaced.
proof fn lemma_chrome120_replaced(
    keys: (Seq<u8>, Seq<u8>),
    greases: (u16, u16),
    name: Seq<u8>,
)
    ensures
        ({
            let a = chrome120_extensions(keys.0, greases.0, name);
            let b = a.update(0, reserved(greases.1));
            let c = b.update(11, key_share_x25519(keys.1));
            &&& a.len() == 18
            &&& a[0] == reserved(greases.0)
            &&& b[11] == key_share_x25519(keys.0)
            &&& b.skip(12) == chrome120_tail(greases.0)
            &&& c[16] == reserved(greases.0)
            &&& c.skip(17) == Seq::<Extension>::empty().push(bare(0x0015))
            &&& c.update(16, reserved(greases.1)) == chrome120_extensions(keys.1, greases.1, name)
        }),
{
}

proof fn lemma_chrome120_extensions_compared(
    keys: (Seq<u8>, Seq<u8>),
    greases: (u16, u16),
    name: Seq<u8>,
    i: int,
)
    requires
        keys.0.len() == 32 && keys.1.len() == 32,
        2 <= i < 180 + name.len(),
        !(110 + name.len() <= i < 142 + name.len()),
        !(171 + name.len() <= i < 173 + name.len()),
    ensures
        encode_extensions(chrome120_extensions(keys.0, greases.0, name))[i] == encode_extensions(
            chrome120_extensions(keys.1, greases.1, name),
        )[i],
{
    lemma_chrome120_len(keys.0, greases.0, name);
    lemma_chrome120_replaced(keys, greases, name);
    lemma_tails_len(greases.0);
    let a = chrome120_extensions(keys.0, greases.0, name);
    let b = a.update(0, reserved(greases.1));
    let c = b.update(11, key_share_x25519(keys.1));
    lemma_encode_front(a);
    assert(encode_extension(a[0]).len() == 5);
    lemma_reserved_replaced(a, 0, greases.0, greases.1, i);
    lemma_key_replaced(b, 11, keys.0, keys.1, i);
    lemma_reserved_replaced(c, 16, greases.0, greases.1, i);
}

proof fn lemma_firefox120_replaced(keys: (Seq<u8>, Seq<u8>), name: Seq<u8>)
    ensures
        ({
            let a = firefox120_extensions(keys.0, name);
            &&& a.len() == 14
            &&& a[10] == key_share_x25519(keys.0)
            &&& a.skip(11) == firefox120_tail()
            &&& a.update(10, key_share_x25519(keys.1)) == firefox120_extensions(keys.1, name)
        }),
{
}

proof fn lemma_firefox120_extensions_compared(keys: (Seq<u8>, Seq<u8>), name: Seq<u8>, i: int)
    requires
        keys.0.len() == 32 && keys.1.len() == 32,
        0 <= i < 158 + name.len(),
        !(107 + name.len() <= i < 139 + name.len()),
    ensures
        encode_extensions(firefox120_extensions(keys.0, name))[i] == encode_extensions(
            firefox120_extensions(keys.1, name),
        )[i],
{
    lemma_firefox120_len(keys.0, name);
    lemma_firefox120_replaced(keys, name);
    lemma_tails_len(0);
    lemma_key_replaced(firefox120_extensions(keys.0, name), 10, keys.0, keys.1, i);
}

proof fn lemma_safari17_replaced(keys: (Seq<u8>, Seq<u8>), name: Seq<u8>)
    ensures
        ({
            let a = safari17_extensions(keys.0, name);
            &&& a.len() == 12
            &&& a[9] == key_share_x25519(keys.0)
            &&& a.skip(10) == safari17_tail()
            &&& a.update(9, key_share_x25519(keys.1)) == safari17_extensions(keys.1, name)
        }),
{
}

proof fn lemma_safari17_extensions_compared(keys: (Seq<u8>, Seq<u8>), name: Seq<u8>, i: int)
    requires
        keys.0.len() == 32 && keys.1.len() == 32,
        0 <= i < 154 + name.len(),
        !(107 + name.len() <= i < 139 + name.len()),
    ensures
        encode_extensions(safari17_extensions(keys.0, name))[i] == encode_extensions(
            safari17_extensions(keys.1, name),
        )[i],
{
    lemma_safari17_len(keys.0, name);
    lemma_safari17_replaced(keys, name);
    lemma_tails_len(0);
    lemma_key_replaced(safari17_extensions(keys.0, name), 9, keys.0, keys.1, i);
}

/// How the parts of two records of the profile `fp` compare.
proof fn lemma_parts_compared(
    fp: TlsFingerprint,
    name: Seq<u8>,
    first: Parts,
    second: Parts,
    i: int,
)
    requires
        fits_profile(fp, first, name),
        fits_profile(fp, second, name),
        0 <= i < fixed_len(fp) + name.len(),
        !is_drawn(fp, fixed_len(fp) + name.len(), i),
    ensures
        ({
            let n = 2 * first.ciphers.len() as int;
            let (a, b) = (encode_extensions(first.exts), encode_extensions(second.exts));
            &&& first.ciphers.len() == second.ciphers.len()
            &&& 78 <= i < 78 + n ==> u16_list(first.ciphers)[i - 78] == u16_list(
                second.ciphers,
            )[i - 78]
            &&& 82 + n <= i ==> a[i - 82 - n] == b[i - 82 - n]
        }),
{
    match fp {
        TlsFingerprint::Default => {},
        TlsFingerprint::Chrome120 | TlsFingerprint::Edge120 => {
            let (key_a, grease_a) = choose|key: Seq<u8>, grease: u16|
                {
                    &&& key.len() == 32
                    &&& is_grease(grease)
                    &&& first.ciphers == chrome120_ciphers(grease)
                    &&& first.exts == #[trigger] chrome120_extensions(key, grease, name)
                };
            let (key_b, grease_b) = choose|key: Seq<u8>, grease: u16|
                {
                    &&& key.len() == 32
                    &&& is_grease(grease)
                    &&& second.ciphers == chrome120_ciphers(grease)
                    &&& second.exts == #[trigger] chrome120_extensions(key, grease, name)
                };
            if 78 <= i < 110 {
                assert(first.ciphers[(i - 78) / 2] == second.ciphers[(i - 78) / 2]);
                lemma_u16_lists_compared(first.ciphers, second.ciphers, i - 78);
            }
            if 114 <= i {
                lemma_chrome120_extensions_compared(
                    (key_a, key_b),
                    (grease_a, grease_b),
                    name,
                    i - 114,
                );
            }
        },
        TlsFingerprint::Firefox120 => {
            let key_a = choose|key: Seq<u8>|
                {
                    &&& key.len() == 32
                    &&& first.ciphers == firefox120_ciphers()
                    &&& first.exts == #[trigger] firefox120_extensions(key, name)
                };
            let key_b = choose|key: Seq<u8>|
                {
                    &&& key.len() == 32
                    &&& second.ciphers == firefox120_ciphers()
                    &&& second.exts == #[trigger] firefox120_extensions(key, name)
                };
            if 116 <= i {
                lemma_firefox120_extensions_compared((key_a, key_b), name, i - 116);
            }
        },
        TlsFingerprint::Safari17 => {
            let key_a = choose|key: Seq<u8>|
                {
                    &&& key.len() == 32
                    &&& first.ciphers == safari17_ciphers()
                    &&& first.exts == #[trigger] safari17_extensions(key, name)
                };
            let key_b = choose|key: Seq<u8>|
                {
                    &&& key.len() == 32
                    &&& second.ciphers == safari17_ciphers()
                    &&& second.exts == #[trigger] safari17_extensions(key, name)
                };
            if 112 <= i {
                lemma_safari17_extensions_compared((key_a, key_b), name, i - 112);
            }
        },
    }
}

/// Two records of one profile for one host name differ only in bytes that are drawn
/// at random. Those of the built-in template do not differ.
pub proof fn law_only_drawn_bytes_differ(
    fp: TlsFingerprint,
    a: Seq<u8>,
    b: Seq<u8>,
    name: Seq<u8>,
    i: int,
)
    requires
        is_hello_of(fp, a, name),
        is_hello_of(fp, b, name),
        0 <= i < a.len(),
        !is_drawn(fp, a.len(), i),
    ensures
        a.len() == b.len(),
        a[i] == b[i],
{
    law_record_length(fp, a, name);
    law_record_length(fp, b, name);
    if !(fp is Default) {
        let first = take_apart(fp, a, name);
        let second = take_apart(fp, b, name);
        lemma_profile_shape(fp, first, name);
        lemma_profile_shape(fp, second, name);
        lemma_parts_compared(fp, name, first, second, i);
        lemma_hello_records_compared(
            (first.random, second.random),
            (first.session_id, second.session_id),
            (first.ciphers, second.ciphers),
            (encode_extensions(first.exts), encode_extensions(second.exts)),
            i,
        );
    }
}

/// Whether each of the three was filled by the generator.
pub open spec fn were_filled(
    r1: &mut ThreadRng,
    random: &mut [u8; 32],
    r2: &mut ThreadRng,
    session_id: &mut [u8; 32],
    r3: &mut ThreadRng,
    key: &mut [u8; 32],
) -> bool {
    &&& was_filled(r1, random)
    &&& was_filled(r2, session_id)
    &&& was_filled(r3, key)
}

/// Whether `part` stands in `s` at offset `i`.
#[verifier::opaque]
pub open spec fn holds_at(s: Seq<u8>, i: int, part: Seq<u8>) -> bool {
    &&& 0 <= i
    &&& i + part.len() <= s.len()
    &&& s.subrange(i, i + part.len()) == part
}

/// Where random and session id stand in a record, and where the extensions do.
proof fn lemma_drawn_fields(
    random: Seq<u8>,
    session_id: Seq<u8>,
    ciphers: Seq<u16>,
    exts: Seq<u8>,
)
    requires
        random.len() == 32,
        session_id.len() == 32,
    ensures
        ({
            let record = hello_record(random, session_id, ciphers, exts);
            &&& record.subrange(11, 43) == random
            &&& record.subrange(44, 76) == session_id
            &&& record.subrange(78, 78 + 2 * ciphers.len() as int) == u16_list(ciphers)
            &&& record.skip(82 + 2 * ciphers.len() as int) == exts
        }),
{
    let record = hello_record(random, session_id, ciphers, exts);
    law_hello_record_length(random, session_id, ciphers, exts);
    law_u16_list_layout(ciphers);
    assert(record.subrange(11, 43) =~= random);
    assert(record.subrange(44, 76) =~= session_id);
    assert(record.subrange(78, 78 + 2 * ciphers.len() as int) =~= u16_list(ciphers));
    assert(record.skip(82 + 2 * ciphers.len() as int) =~= exts);
}

/// The public key stands at the end of key_share.
proof fn lemma_key_at(exts: Seq<Extension>, k: int, key: Seq<u8>)
    requires
        0 <= k < exts.len(),
        exts[k] == key_share_x25519(key),
        key.len() == 32,
    ensures
        ({
            let block = encode_extensions(exts);
            let end = block.len() - encode_extensions(exts.skip(k + 1)).len();
            &&& 42 <= end <= block.len()
            &&& block.subrange(end - 32, end) == key
        }),
{
    let block = encode_extensions(exts);
    let end = block.len() - encode_extensions(exts.skip(k + 1)).len();
    let ext = encode_extension(exts[k]);
    assert(exts[k].data.len() == 38);
    lemma_extension_fits(exts, k);
    lemma_extension_replaced(exts, k, exts[k], 0);
    assert forall|i: int| 0 <= i < 32 implies #[trigger] block.subrange(end - 32, end)[i]
        == key[i] by {
        lemma_extension_replaced(exts, k, exts[k], end - 32 + i);
        assert(ext[10 + i] == key[i]);
    }
    assert(block.subrange(end - 32, end) =~= key);
}

proof fn lemma_firefox120_fields(
    random: Seq<u8>,
    session_id: Seq<u8>,
    key: Seq<u8>,
    name: Seq<u8>,
)
    requires
        random.len() == 32,
        session_id.len() == 32,
        key.len() == 32,
    ensures
        ({
            let record = firefox120_record(random, session_id, key, name);
            &&& holds_at(record, 11, random)
            &&& holds_at(record, 44, session_id)
            &&& holds_at(record, record.len() - 51, key)
        }),
{
    reveal(holds_at);
    let record = firefox120_record(random, session_id, key, name);
    let exts = firefox120_extensions(key, name);
    let block = encode_extensions(exts);
    lemma_drawn_fields(random, session_id, firefox120_ciphers(), block);
    law_hello_record_length(random, session_id, firefox120_ciphers(), block);
    lemma_firefox120_len(key, name);
    lemma_firefox120_replaced((key, key), name);
    lemma_tails_len(0);
    lemma_key_at(exts, 10, key);
    assert(record.subrange(record.len() - 51, record.len() - 19) =~= record.skip(116).subrange(
        block.len() - 51,
        block.len() - 19,
    ));
}

/// The random, the session id and the public key of a record of Firefox 120 are
/// what the generator filled in three calls, one after the other.
#[verifier::rlimit(80)]
#[verifier::spinoff_prover]
pub proof fn law_firefox120_is_drawn(sni: &str, rec: Vec<u8>)
    requires
        call_ensures(TlsFingerprint::build_client_hello, (&TlsFingerprint::Firefox120, sni), rec),
    ensures
        exists|
            r1: &mut ThreadRng,
            random: &mut [u8; 32],
            r2: &mut ThreadRng,
            session_id: &mut [u8; 32],
            r3: &mut ThreadRng,
            key: &mut [u8; 32],
        |
            {
                &&& #[trigger] were_filled(r1, random, r2, session_id, r3, key)
                &&& *r2 == *final(r1)
                &&& *r3 == *final(r2)
                &&& holds_at(rec@, 11, final(random)@)
                &&& holds_at(rec@, 44, final(session_id)@)
                &&& holds_at(rec@, rec@.len() - 51, final(key)@)
            },
{
    let name = sni.spec_bytes();
    let (r1, random, r2, session_id, r3, key) = choose|
        r1: &mut ThreadRng,
        random: &mut [u8; 32],
        r2: &mut ThreadRng,
        session_id: &mut [u8; 32],
        r3: &mut ThreadRng,
        key: &mut [u8; 32],
    |
        {
            &&& #[trigger] was_filled(r1, random)
            &&& #[trigger] was_filled(r2, session_id)
            &&& #[trigger] was_filled(r3, key)
            &&& *r2 == *final(r1)
            &&& *r3 == *final(r2)
            &&& rec@ == firefox120_record(final(random)@, final(session_id)@, final(key)@, name)
        };
    assert(were_filled(r1, random, r2, session_id, r3, key));
    lemma_firefox120_fields(final(random)@, final(session_id)@, final(key)@, name);
}

proof fn lemma_safari17_fields(
    random: Seq<u8>,
    session_id: Seq<u8>,
    key: Seq<u8>,
    name: Seq<u8>,
)
    requires
        random.len() == 32,
        session_id.len() == 32,
        key.len() == 32,
    ensures
        ({
            let record = safari17_record(random, session_id, key, name);
            &&& holds_at(record, 11, random)
            &&& holds_at(record, 44, session_id)
            &&& holds_at(record, record.len() - 47, key)
        }),
{
    reveal(holds_at);
    let record = safari17_record(random, session_id, key, name);
    let exts = safari17_extensions(key, name);
    let block = encode_extensions(exts);
    lemma_drawn_fields(random, session_id, safari17_ciphers(), block);
    law_hello_record_length(random, session_id, safari17_ciphers(), block);
    lemma_safari17_len(key, name);
    lemma_safari17_replaced((key, key), name);
    lemma_tails_len(0);
    lemma_key_at(exts, 9, key);
    assert(record.subrange(record.len() - 47, record.len() - 15) =~= record.skip(112).subrange(
        block.len() - 47,
        block.len() - 15,
    ));
}

/// The random, the session id and the public key of a record of Safari 17 are what
/// the generator filled in three calls, one after the other.
#[verifier::rlimit(80)]
#[verifier::spinoff_prover]
pub proof fn law_safari17_is_drawn(sni: &str, rec: Vec<u8>)
    requires
        call_ensures(TlsFingerprint::build_client_hello, (&TlsFingerprint::Safari17, sni), rec),
    ensures
        exists|
            r1: &mut ThreadRng,
            random: &mut [u8; 32],
            r2: &mut ThreadRng,
            session_id: &mut [u8; 32],
            r3: &mut ThreadRng,
            key: &mut [u8; 32],
        |
            {
                &&& #[trigger] were_filled(r1, random, r2, session_id, r3, key)
                &&& *r2 == *final(r1)
                &&& *r3 == *final(r2)
                &&& holds_at(rec@, 11, final(random)@)
                &&& holds_at(rec@, 44, final(session_id)@)
                &&& holds_at(rec@, rec@.len() - 47, final(key)@)
            },
{
    let name = sni.spec_bytes();
    let (r1, random, r2, session_id, r3, key) = choose|
        r1: &mut ThreadRng,
        random: &mut [u8; 32],
        r2: &mut ThreadRng,
        session_id: &mut [u8; 32],
        r3: &mut ThreadRng,
        key: &mut [u8; 32],
    |
        {
            &&& #[trigger] was_filled(r1, random)
            &&& #[trigger] was_filled(r2, session_id)
            &&& #[trigger] was_filled(r3, key)
            &&& *r2 == *final(r1)
            &&& *r3 == *final(r2)
            &&& rec@ == safari17_record(final(random)@, final(session_id)@, final(key)@, name)
        };
    assert(were_filled(r1, random, r2, session_id, r3, key));
    lemma_safari17_fields(final(random)@, final(session_id)@, final(key)@, name);
}

proof fn lemma_chrome120_key(key: Seq<u8>, grease: u16, name: Seq<u8>)
    requires
        key.len() == 32,
    ensures
        ({
            let block = encode_extensions(chrome120_extensions(key, grease, name));
            &&& block.len() == 180 + name.len()
            &&& block.subrange(block.len() - 70, block.len() - 38) == key
        }),
{
    let exts = chrome120_extensions(key, grease, name);
    lemma_chrome120_len(key, grease, name);
    lemma_chrome120_replaced((key, key), (grease, grease), name);
    assert(exts.update(0, reserved(grease)) =~= exts);
    lemma_tails_len(grease);
    lemma_key_at(exts, 11, key);
}

/// A part of the extensions is a part of the record.
proof fn lemma_part_of_extensions(record: Seq<u8>, at: int, block: Seq<u8>, from: int, key: Seq<u8>)
    requires
        0 <= at <= record.len(),
        record.skip(at) == block,
        0 <= from,
        from + key.len() <= block.len(),
        block.subrange(from, from + key.len()) == key,
    ensures
        holds_at(record, at + from, key),
{
    reveal(holds_at);
    assert(record.subrange(at + from, at + from + key.len()) =~= block.subrange(
        from,
        from + key.len(),
    ));
}

proof fn lemma_first_cipher(record: Seq<u8>, ciphers: Seq<u16>)
    requires
        ciphers.len() > 0,
        78 + 2 * ciphers.len() <= record.len(),
        record.subrange(78, 78 + 2 * ciphers.len() as int) == u16_list(ciphers),
    ensures
        be16(record, 78) == ciphers[0],
{
    law_u16_list_layout(ciphers);
    assert(be16(u16_list(ciphers), 0) == ciphers[0]);
    assert(u16_list(ciphers)[0] == record[78]);
    assert(u16_list(ciphers)[1] == record[79]);
}

proof fn lemma_chrome120_fields(
    random: Seq<u8>,
    session_id: Seq<u8>,
    key: Seq<u8>,
    grease: u16,
    name: Seq<u8>,
)
    requires
        random.len() == 32,
        session_id.len() == 32,
        key.len() == 32,
    ensures
        ({
            let record = chrome120_record(random, session_id, key, grease, name);
            &&& holds_at(record, 11, random)
            &&& holds_at(record, 44, session_id)
            &&& holds_at(record, record.len() - 70, key)
            &&& be16(record, 78) == grease
        }),
{
    reveal(holds_at);
    let record = chrome120_record(random, session_id, key, grease, name);
    let ciphers = chrome120_ciphers(grease);
    let block = encode_extensions(chrome120_extensions(key, grease, name));
    lemma_chrome120_key(key, grease, name);
    lemma_drawn_fields(random, session_id, ciphers, block);
    law_hello_record_length(random, session_id, ciphers, block);
    lemma_first_cipher(record, ciphers);
    lemma_part_of_extensions(record, 114, block, block.len() - 70, key);
}

/// The random, the session id and the public key of a record of Chrome 120, and of
/// one of Edge 120, are what the generator filled in three calls, one after the
/// other. The reserved value, which is the first cipher suite, is picked by the
/// number that was drawn next.
#[verifier::rlimit(80)]
#[verifier::spinoff_prover]
pub proof fn law_chrome120_is_drawn(fp: TlsFingerprint, sni: &str, rec: Vec<u8>)
    requires
        fp is Chrome120 || fp is Edge120,
        call_ensures(TlsFingerprint::build_client_hello, (&fp, sni), rec),
    ensures
        exists|
            r1: &mut ThreadRng,
            random: &mut [u8; 32],
            r2: &mut ThreadRng,
            session_id: &mut [u8; 32],
            r3: &mut ThreadRng,
            key: &mut [u8; 32],
            r4: &mut ThreadRng,
            n: u32,
        |
            {
                &&& #[trigger] were_filled(r1, random, r2, session_id, r3, key)
                &&& #[trigger] was_drawn(r4, n)
                &&& *r2 == *final(r1)
                &&& *r3 == *final(r2)
                &&& *r4 == *final(r3)
                &&& holds_at(rec@, 11, final(random)@)
                &&& holds_at(rec@, 44, final(session_id)@)
                &&& holds_at(rec@, rec@.len() - 70, final(key)@)
                &&& rec@[78] == 0x0a + 0x10 * (n % 16)
                &&& rec@[79] == rec@[78]
            },
{
    let name = sni.spec_bytes();
    let (r1, random, r2, session_id, r3, key, r4, n) = choose|
        r1: &mut ThreadRng,
        random: &mut [u8; 32],
        r2: &mut ThreadRng,
        session_id: &mut [u8; 32],
        r3: &mut ThreadRng,
        key: &mut [u8; 32],
        r4: &mut ThreadRng,
        n: u32,
    |
        {
            &&& #[trigger] was_filled(r1, random)
            &&& #[trigger] was_filled(r2, session_id)
            &&& #[trigger] was_filled(r3, key)
            &&& #[trigger] was_drawn(r4, n)
            &&& *r2 == *final(r1)
            &&& *r3 == *final(r2)
            &&& *r4 == *final(r3)
            &&& rec@ == chrome120_record(
                final(random)@,
                final(session_id)@,
                final(key)@,
                (0x0a0a + 0x1010 * (n % 16)) as u16,
                name,
            )
        };
    let grease = (0x0a0a + 0x1010 * (n % 16)) as u16;
    assert(were_filled(r1, random, r2, session_id, r3, key));
    lemma_chrome120_fields(final(random)@, final(session_id)@, final(key)@, grease, name);
}

/// The built-in template has nothing random in it: for one name it is always the
/// same record.
pub proof fn law_the_template_is_not_drawn(sni: &str, a: Vec<u8>, b: Vec<u8>)
    requires
        call_ensures(TlsFingerprint::build_client_hello, (&TlsFingerprint::Default, sni), a),
        call_ensures(TlsFingerprint::build_client_hello, (&TlsFingerprint::Default, sni), b),
    ensures
        a@ == b@,
        a@ == default_record(sni.spec_bytes()),
{
}

/// The records of Edge 120 are those of Chrome 120.
pub proof fn law_edge_is_chrome(record: Seq<u8>, name: Seq<u8>)
    ensures
        is_hello_of(TlsFingerprint::Edge120, record, name) <==> is_hello_of(
            TlsFingerprint::Chrome120,
            record,
            name,
        ),
{
}

} // verus!
