//! JA3: what a filter takes down of a ClientHello to tell clients apart.
//!
//! A JA3 string lists the version, the cipher suites, the types of the
//! extensions, the groups and the point formats of a ClientHello, each in order
//! and without the reserved values of RFC 8701.

use crate::laws::{
    decode_extensions, law_extensions_read_back, law_hello_record_reads_back, lemma_extension_fits,
    MAX_RECORD,
};
use crate::packet::extension::{
    ec_point_formats, encode_extensions, supported_groups, vec16, Extension,
};
use crate::packet::fingerprint::{
    chrome120_ciphers, chrome120_extensions, chrome120_record, firefox120_ciphers,
    firefox120_extensions, firefox120_record, grease_value, is_chrome120, is_firefox120, is_grease,
    is_safari17, safari17_ciphers, safari17_extensions, safari17_record,
};
use crate::packet::record::{hello_body, hello_record};
use crate::sni::{client_hello_body, extensions_range, vec16_end, vec8_end};
use crate::wire::{be16, law_u16_list_layout, u16_list};
use vstd::prelude::*;

verus! {

/// What a JA3 string says.
pub struct Ja3 {
    pub version: int,
    pub ciphers: Seq<u16>,
    pub extensions: Seq<u16>,
    pub groups: Seq<u16>,
    pub point_formats: Seq<u8>,
}

/// The two-byte integers that `s` holds.
pub open spec fn read_u16_list(s: Seq<u8>) -> Seq<u16> {
    Seq::new((s.len() / 2) as nat, |i: int| be16(s, 2 * i) as u16)
}

/// `s` without the reserved values.
pub open spec fn without_grease(s: Seq<u16>) -> Seq<u16>
    decreases s.len(),
{
    if s.len() == 0 {
        s
    } else if is_grease(s.last()) {
        without_grease(s.drop_last())
    } else {
        without_grease(s.drop_last()).push(s.last())
    }
}

/// The types of `exts`.
pub open spec fn kinds(exts: Seq<Extension>) -> Seq<u16> {
    exts.map_values(|ext: Extension| ext.kind)
}

/// The data of the first extension of type `kind`, at or behind index `i`.
pub open spec fn data_of(exts: Seq<Extension>, kind: u16, i: int) -> Seq<u8>
    decreases exts.len() - i,
{
    if i < 0 || i >= exts.len() {
        Seq::empty()
    } else if exts[i].kind == kind {
        exts[i].data
    } else {
        data_of(exts, kind, i + 1)
    }
}

/// The JA3 of the ClientHello that `record` opens with.
pub open spec fn ja3(record: Seq<u8>) -> Option<Ja3> {
    match client_hello_body(record) {
        Some(body) => match extensions_range(body) {
            Some((first, last)) => {
                let session_end = vec8_end(body, 34)->0;
                let ciphers_end = vec16_end(body, session_end)->0;
                let exts = decode_extensions(body.subrange(first, last), 0);
                Some(
                    Ja3 {
                        version: be16(body, 0),
                        ciphers: without_grease(
                            read_u16_list(body.subrange(session_end + 2, ciphers_end)),
                        ),
                        extensions: without_grease(kinds(exts)),
                        groups: without_grease(read_u16_list(data_of(exts, 10, 0).skip(2))),
                        point_formats: data_of(exts, 11, 0).skip(1),
                    },
                )
            },
            None => None,
        },
        None => None,
    }
}

/// The reserved values are those that leave 0x0a0a when divided by 0x1010.
proof fn lemma_grease_residue(v: u16)
    ensures
        is_grease(v) <==> v % 0x1010 == 0x0a0a,
{
    if v % 0x1010 == 0x0a0a {
        let n = v as int / 0x1010;
        assert(v == 0x1010 * n + 0x0a0a);
        assert(v == grease_value(n));
    }
}

proof fn lemma_without_grease_concat(a: Seq<u16>, b: Seq<u16>)
    ensures
        without_grease(a + b) == without_grease(a) + without_grease(b),
    decreases b.len(),
{
    if b.len() == 0 {
        assert(a + b =~= a);
        assert(without_grease(a) + without_grease(b) =~= without_grease(a));
    } else {
        assert((a + b).drop_last() =~= a + b.drop_last());
        lemma_without_grease_concat(a, b.drop_last());
        assert(without_grease(a + b) =~= without_grease(a) + without_grease(b));
    }
}

proof fn lemma_nothing_to_drop(s: Seq<u16>)
    requires
        forall|i: int| 0 <= i < s.len() ==> #[trigger] s[i] % 0x1010 != 0x0a0a,
    ensures
        without_grease(s) == s,
    decreases s.len(),
{
    if s.len() > 0 {
        lemma_grease_residue(s.last());
        lemma_nothing_to_drop(s.drop_last());
        assert(s.drop_last().push(s.last()) =~= s);
    }
}

proof fn lemma_drop_one(v: u16)
    requires
        is_grease(v),
    ensures
        without_grease(seq![v]) == Seq::<u16>::empty(),
{
    assert(seq![v].drop_last() =~= Seq::empty());
    assert(without_grease(seq![v].drop_last()) =~= Seq::empty());
}

proof fn lemma_u16_list_reads_back(values: Seq<u16>)
    ensures
        read_u16_list(u16_list(values)) == values,
{
    law_u16_list_layout(values);
    assert(read_u16_list(u16_list(values)) =~= values);
}

/// A vector, without its length, is what was put into it.
proof fn lemma_vec16_content(data: Seq<u8>)
    ensures
        vec16(data).skip(2) == data,
{
    assert(vec16(data).skip(2) =~= data);
}

/// The JA3 of a record speaks of the lists that it was put together of.
proof fn lemma_ja3_of_parts(
    random: Seq<u8>,
    session_id: Seq<u8>,
    ciphers: Seq<u16>,
    exts: Seq<Extension>,
)
    requires
        random.len() == 32,
        session_id.len() == 32,
        hello_record(random, session_id, ciphers, encode_extensions(exts)).len()
            <= MAX_RECORD,
    ensures
        ja3(hello_record(random, session_id, ciphers, encode_extensions(exts))) == Some(
            Ja3 {
                version: 771,
                ciphers: without_grease(ciphers),
                extensions: without_grease(kinds(exts)),
                groups: without_grease(read_u16_list(data_of(exts, 10, 0).skip(2))),
                point_formats: data_of(exts, 11, 0).skip(1),
            },
        ),
{
    let block = encode_extensions(exts);
    let body = hello_body(random, session_id, ciphers, block);
    let first = 73 + 2 * ciphers.len() as int;
    law_hello_record_reads_back(random, session_id, ciphers, block);
    assert forall|i: int| 0 <= i < exts.len() implies (#[trigger] exts[i]).data.len() < 65536 by {
        lemma_extension_fits(exts, i);
    }
    law_extensions_read_back(exts);
    lemma_u16_list_reads_back(ciphers);
    assert(body.subrange(first, body.len() as int) =~= block) by {
        assert(body.subrange(first, body.len() as int) =~= body.skip(first));
    }
    lemma_version(random, session_id, ciphers, block);
}

proof fn lemma_version(random: Seq<u8>, session_id: Seq<u8>, ciphers: Seq<u16>, exts: Seq<u8>)
    ensures
        be16(hello_body(random, session_id, ciphers, exts), 0) == 771,
{
}

/// The groups and point formats that the extensions of a profile list.
proof fn lemma_groups_and_formats(exts: Seq<Extension>, i: int, groups: Seq<u16>)
    requires
        0 <= i,
        i + 1 < exts.len(),
        forall|j: int| 0 <= j < i ==> (#[trigger] exts[j]).kind != 10 && exts[j].kind != 11,
        exts[i] == supported_groups(groups),
        exts[i + 1] == ec_point_formats(),
        without_grease(groups) == groups,
    ensures
        without_grease(read_u16_list(data_of(exts, 10, 0).skip(2))) == groups,
        data_of(exts, 11, 0).skip(1) == seq![0x00u8],
{
    lemma_data_of(exts, 10, 0, i);
    lemma_data_of(exts, 11, 0, i + 1);
    lemma_vec16_content(u16_list(groups));
    lemma_u16_list_reads_back(groups);
    assert(ec_point_formats().data.skip(1) =~= seq![0x00u8]);
}

proof fn lemma_data_of(exts: Seq<Extension>, kind: u16, i: int, k: int)
    requires
        0 <= i <= k < exts.len(),
        forall|j: int| i <= j < k ==> (#[trigger] exts[j]).kind != kind,
        exts[k].kind == kind,
    ensures
        data_of(exts, kind, i) == exts[k].data,
    decreases k - i,
{
    if i < k {
        lemma_data_of(exts, kind, i + 1, k);
    }
}

/// The JA3 of Chrome 120.
pub open spec fn chrome120_ja3() -> Ja3 {
    Ja3 {
        version: 771,
        ciphers: seq![
            4865,
            4866,
            4867,
            49195,
            49199,
            49196,
            49200,
            52393,
            52392,
            49171,
            49172,
            156,
            157,
            47,
            53,
        ],
        extensions: seq![
            0,
            23,
            65281,
            10,
            11,
            35,
            16,
            5,
            13,
            18,
            51,
            45,
            43,
            27,
            17513,
            21,
        ],
        groups: seq![29, 23, 24],
        point_formats: seq![0],
    }
}

/// The JA3 of Firefox 120.
pub open spec fn firefox120_ja3() -> Ja3 {
    Ja3 {
        version: 771,
        ciphers: seq![
            4865,
            4867,
            4866,
            49195,
            49199,
            49196,
            49200,
            52393,
            52392,
            49171,
            49172,
            156,
            157,
            47,
            53,
            10,
            255,
        ],
        extensions: seq![
            0,
            23,
            65281,
            10,
            11,
            35,
            16,
            5,
            13,
            18,
            51,
            45,
            43,
            21,
        ],
        groups: seq![29, 23, 24, 25],
        point_formats: seq![0],
    }
}

/// The JA3 of Safari 17.
pub open spec fn safari17_ja3() -> Ja3 {
    Ja3 {
        version: 771,
        ciphers: seq![
            4865,
            4866,
            4867,
            49196,
            49195,
            52393,
            49200,
            49199,
            52392,
            49172,
            49171,
            157,
            156,
            53,
            47,
        ],
        extensions: seq![
            0,
            23,
            65281,
            10,
            11,
            16,
            5,
            13,
            18,
            51,
            45,
            43,
        ],
        groups: seq![29, 23, 24, 25],
        point_formats: seq![0],
    }
}

proof fn lemma_chrome120_ciphers(grease: u16)
    requires
        is_grease(grease),
    ensures
        without_grease(chrome120_ciphers(grease)) == chrome120_ja3().ciphers,
{
    let rest = chrome120_ciphers(grease).skip(1);
    assert(chrome120_ciphers(grease) =~= seq![grease] + rest);
    lemma_without_grease_concat(seq![grease], rest);
    lemma_drop_one(grease);
    lemma_nothing_to_drop(rest);
    assert(rest =~= chrome120_ja3().ciphers);
}

proof fn lemma_chrome120_kinds(key: Seq<u8>, grease: u16, name: Seq<u8>)
    requires
        is_grease(grease),
    ensures
        without_grease(kinds(chrome120_extensions(key, grease, name))) == chrome120_ja3().extensions,
{
    let all = kinds(chrome120_extensions(key, grease, name));
    let want = chrome120_ja3().extensions;
    let middle = want.drop_last();
    let last = seq![21u16];
    assert(all =~= seq![grease] + middle + seq![grease] + last);
    lemma_without_grease_concat(seq![grease] + middle + seq![grease], last);
    lemma_without_grease_concat(seq![grease] + middle, seq![grease]);
    lemma_without_grease_concat(seq![grease], middle);
    lemma_drop_one(grease);
    lemma_nothing_to_drop(middle);
    lemma_nothing_to_drop(last);
    assert(middle + last =~= want);
    assert(without_grease(all) =~= middle + last);
}

proof fn lemma_chrome120_groups(key: Seq<u8>, grease: u16, name: Seq<u8>)
    requires
        is_grease(grease),
    ensures
        ({
            let exts = chrome120_extensions(key, grease, name);
            &&& without_grease(read_u16_list(data_of(exts, 10, 0).skip(2))) == chrome120_ja3().groups
            &&& data_of(exts, 11, 0).skip(1) == chrome120_ja3().point_formats
        }),
{
    let exts = chrome120_extensions(key, grease, name);
    let groups = chrome120_ja3().groups;
    lemma_grease_residue(grease);
    lemma_nothing_to_drop(groups);
    lemma_groups_and_formats(exts, 4, groups);
}

/// Every record of Chrome 120 that fits the length its header can state has the
/// JA3 of Chrome 120, whatever its host name and random values.
pub proof fn law_chrome120_ja3(record: Seq<u8>, name: Seq<u8>)
    requires
        is_chrome120(record, name),
        record.len() <= MAX_RECORD,
    ensures
        ja3(record) == Some(chrome120_ja3()),
{
    let (random, session_id, key, grease) = choose|
        random: Seq<u8>,
        session_id: Seq<u8>,
        key: Seq<u8>,
        grease: u16,
    |
        {
            &&& random.len() == 32
            &&& session_id.len() == 32
            &&& key.len() == 32
            &&& is_grease(grease)
            &&& record == #[trigger] chrome120_record(random, session_id, key, grease, name)
        };
    lemma_ja3_of_parts(
        random,
        session_id,
        chrome120_ciphers(grease),
        chrome120_extensions(key, grease, name),
    );
    lemma_chrome120_ciphers(grease);
    lemma_chrome120_kinds(key, grease, name);
    lemma_chrome120_groups(key, grease, name);
}

proof fn lemma_firefox120_ciphers()
    ensures
        without_grease(firefox120_ciphers()) == firefox120_ja3().ciphers,
{
    lemma_nothing_to_drop(firefox120_ciphers());
    assert(firefox120_ciphers() =~= firefox120_ja3().ciphers);
}

proof fn lemma_firefox120_kinds(key: Seq<u8>, name: Seq<u8>)
    ensures
        without_grease(kinds(firefox120_extensions(key, name))) == firefox120_ja3().extensions,
{
    let all = kinds(firefox120_extensions(key, name));
    assert(all =~= firefox120_ja3().extensions);
    lemma_nothing_to_drop(all);
}

proof fn lemma_firefox120_groups(key: Seq<u8>, name: Seq<u8>)
    ensures
        ({
            let exts = firefox120_extensions(key, name);
            &&& without_grease(read_u16_list(data_of(exts, 10, 0).skip(2))) == firefox120_ja3().groups
            &&& data_of(exts, 11, 0).skip(1) == firefox120_ja3().point_formats
        }),
{
    let exts = firefox120_extensions(key, name);
    let groups = firefox120_ja3().groups;
    lemma_nothing_to_drop(groups);
    lemma_groups_and_formats(exts, 3, groups);
}

/// Every record of Firefox 120 that fits the length its header can state has the
/// JA3 of Firefox 120, whatever its host name and random values.
pub proof fn law_firefox120_ja3(record: Seq<u8>, name: Seq<u8>)
    requires
        is_firefox120(record, name),
        record.len() <= MAX_RECORD,
    ensures
        ja3(record) == Some(firefox120_ja3()),
{
    let (random, session_id, key) = choose|random: Seq<u8>, session_id: Seq<u8>, key: Seq<u8>|
        {
            &&& random.len() == 32
            &&& session_id.len() == 32
            &&& key.len() == 32
            &&& record == #[trigger] firefox120_record(random, session_id, key, name)
        };
    lemma_ja3_of_parts(
        random,
        session_id,
        firefox120_ciphers(),
        firefox120_extensions(key, name),
    );
    lemma_firefox120_ciphers();
    lemma_firefox120_kinds(key, name);
    lemma_firefox120_groups(key, name);
}

proof fn lemma_safari17_ciphers()
    ensures
        without_grease(safari17_ciphers()) == safari17_ja3().ciphers,
{
    lemma_nothing_to_drop(safari17_ciphers());
    assert(safari17_ciphers() =~= safari17_ja3().ciphers);
}

proof fn lemma_safari17_kinds(key: Seq<u8>, name: Seq<u8>)
    ensures
        without_grease(kinds(safari17_extensions(key, name))) == safari17_ja3().extensions,
{
    let all = kinds(safari17_extensions(key, name));
    assert(all =~= safari17_ja3().extensions);
    lemma_nothing_to_drop(all);
}

proof fn lemma_safari17_groups(key: Seq<u8>, name: Seq<u8>)
    ensures
        ({
            let exts = safari17_extensions(key, name);
            &&& without_grease(read_u16_list(data_of(exts, 10, 0).skip(2))) == safari17_ja3().groups
            &&& data_of(exts, 11, 0).skip(1) == safari17_ja3().point_formats
        }),
{
    let exts = safari17_extensions(key, name);
    let groups = safari17_ja3().groups;
    lemma_nothing_to_drop(groups);
    lemma_groups_and_formats(exts, 3, groups);
}

/// Every record of Safari 17 that fits the length its header can state has the
/// JA3 of Safari 17, whatever its host name and random values.
pub proof fn law_safari17_ja3(record: Seq<u8>, name: Seq<u8>)
    requires
        is_safari17(record, name),
        record.len() <= MAX_RECORD,
    ensures
        ja3(record) == Some(safari17_ja3()),
{
    let (random, session_id, key) = choose|random: Seq<u8>, session_id: Seq<u8>, key: Seq<u8>|
        {
            &&& random.len() == 32
            &&& session_id.len() == 32
            &&& key.len() == 32
            &&& record == #[trigger] safari17_record(random, session_id, key, name)
        };
    lemma_ja3_of_parts(
        random,
        session_id,
        safari17_ciphers(),
        safari17_extensions(key, name),
    );
    lemma_safari17_ciphers();
    lemma_safari17_kinds(key, name);
    lemma_safari17_groups(key, name);
}

} // verus!
