//! What holds between building a ClientHello and reading it.

use crate::packet::extension::{
    encode_extension, encode_extensions, lemma_encode_push, server_name, vec16, Extension,
};
use crate::packet::record::{handshake_record, hello_body, hello_message, hello_record};
use crate::sni::{
    client_hello_body, extensions_range, host_name_entry, host_name_range, server_name_extension,
    sni_range, vec16_end, vec8_end,
};
use crate::wire::{be16, be24, law_u16_list_layout, u16_bytes, u16_list, u24_bytes};
use vstd::prelude::*;

verus! {

/// Longest record whose header can state its length.
pub const MAX_RECORD: usize = 65540;

/// A ClientHello record that fits the length its header can state is read back
/// as it was put together: its header is that of a handshake record and states
/// its length, its message is a ClientHello, and the extensions stand where they
/// are looked for.
pub proof fn law_hello_record_reads_back(
    random: Seq<u8>,
    session_id: Seq<u8>,
    ciphers: Seq<u16>,
    exts: Seq<u8>,
)
    requires
        random.len() == 32,
        session_id.len() == 32,
        hello_record(random, session_id, ciphers, exts).len() <= MAX_RECORD,
    ensures
        ({
            let record = hello_record(random, session_id, ciphers, exts);
            let body = hello_body(random, session_id, ciphers, exts);
            let n = 2 * ciphers.len() as int;
            &&& record.len() == 82 + n + exts.len()
            &&& record.take(3) == seq![0x16u8, 0x03u8, 0x01u8]
            &&& 5 + be16(record, 3) == record.len()
            &&& record[5] == 0x01
            &&& client_hello_body(record) == Some(body)
            &&& record.skip(9) == body
            &&& vec8_end(body, 34) == Some(67int)
            &&& vec16_end(body, 67) == Some(69 + n)
            &&& body.subrange(69, 69 + n) == u16_list(ciphers)
            &&& extensions_range(body) == Some((73 + n, body.len() as int))
            &&& body.skip(73 + n) == exts
        }),
{
    let body = hello_body(random, session_id, ciphers, exts);
    lemma_body_len(random, session_id, ciphers, exts);
    lemma_frame_len(body);
    lemma_frame_layout(body);
    lemma_body_layout(random, session_id, ciphers, exts);
}

/// How long a ClientHello record is, whatever its length fields can state.
pub proof fn law_hello_record_length(
    random: Seq<u8>,
    session_id: Seq<u8>,
    ciphers: Seq<u16>,
    exts: Seq<u8>,
)
    requires
        random.len() == 32,
        session_id.len() == 32,
    ensures
        hello_record(random, session_id, ciphers, exts).len() == 82 + 2 * ciphers.len()
            + exts.len(),
{
    lemma_body_len(random, session_id, ciphers, exts);
    lemma_frame_len(hello_body(random, session_id, ciphers, exts));
}

/// Two ClientHello records whose parts are equally long differ only where their
/// parts do.
pub(crate) proof fn lemma_hello_records_compared(
    randoms: (Seq<u8>, Seq<u8>),
    session_ids: (Seq<u8>, Seq<u8>),
    ciphers: (Seq<u16>, Seq<u16>),
    exts: (Seq<u8>, Seq<u8>),
    i: int,
)
    requires
        randoms.0.len() == 32 && randoms.1.len() == 32,
        session_ids.0.len() == 32 && session_ids.1.len() == 32,
        ciphers.0.len() == ciphers.1.len(),
        exts.0.len() == exts.1.len(),
        0 <= i < 82 + 2 * ciphers.0.len() + exts.0.len(),
        !(11 <= i < 43),
        !(44 <= i < 76),
        78 <= i < 78 + 2 * ciphers.0.len() ==> u16_list(ciphers.0)[i - 78] == u16_list(
            ciphers.1,
        )[i - 78],
        82 + 2 * ciphers.0.len() <= i ==> exts.0[i - 82 - 2 * ciphers.0.len()] == exts.1[i - 82 - 2
            * ciphers.0.len()],
    ensures
        hello_record(randoms.0, session_ids.0, ciphers.0, exts.0)[i] == hello_record(
            randoms.1,
            session_ids.1,
            ciphers.1,
            exts.1,
        )[i],
{
    let a = hello_body(randoms.0, session_ids.0, ciphers.0, exts.0);
    let b = hello_body(randoms.1, session_ids.1, ciphers.1, exts.1);
    lemma_body_len(randoms.0, session_ids.0, ciphers.0, exts.0);
    lemma_body_len(randoms.1, session_ids.1, ciphers.1, exts.1);
    law_u16_list_layout(ciphers.0);
    law_u16_list_layout(ciphers.1);
    if i >= 9 {
        assert(handshake_record(hello_message(a))[i] == a[i - 9]);
        assert(handshake_record(hello_message(b))[i] == b[i - 9]);
    }
}

proof fn lemma_frame_len(body: Seq<u8>)
    ensures
        handshake_record(hello_message(body)).len() == 9 + body.len(),
{
}

proof fn lemma_frame_layout(body: Seq<u8>)
    requires
        0 < body.len(),
        9 + body.len() <= MAX_RECORD,
    ensures
        ({
            let record = handshake_record(hello_message(body));
            &&& record.take(3) == seq![0x16u8, 0x03u8, 0x01u8]
            &&& 5 + be16(record, 3) == record.len()
            &&& record[5] == 0x01
            &&& client_hello_body(record) == Some(body)
            &&& record.skip(9) == body
        }),
{
    let message = hello_message(body);
    let record = handshake_record(message);
    lemma_frame_len(body);
    assert(message.len() == 4 + body.len());
    assert(record.take(3) =~= seq![0x16u8, 0x03u8, 0x01u8]);
    assert(record[3] == u16_bytes(message.len() as int)[0]);
    assert(record[4] == u16_bytes(message.len() as int)[1]);
    assert(record[5] == message[0]);
    assert(record[6] == message[1] && record[7] == message[2] && record[8] == message[3]);
    assert(message[1] == u24_bytes(body.len() as int)[0]);
    assert(message[2] == u24_bytes(body.len() as int)[1]);
    assert(message[3] == u24_bytes(body.len() as int)[2]);
    assert(be16(record, 3) == message.len());
    assert(be24(record, 6) == body.len());
    assert(record.subrange(9, 9 + body.len() as int) =~= body);
    assert(record.skip(9) =~= body);
}

proof fn lemma_body_len(random: Seq<u8>, session_id: Seq<u8>, ciphers: Seq<u16>, exts: Seq<u8>)
    requires
        random.len() == 32,
        session_id.len() == 32,
    ensures
        hello_body(random, session_id, ciphers, exts).len() == 73 + 2 * ciphers.len() + exts.len(),
{
    law_u16_list_layout(ciphers);
}

proof fn lemma_body_layout(
    random: Seq<u8>,
    session_id: Seq<u8>,
    ciphers: Seq<u16>,
    exts: Seq<u8>,
)
    requires
        random.len() == 32,
        session_id.len() == 32,
        2 * ciphers.len() < 65536,
        exts.len() < 65536,
    ensures
        ({
            let body = hello_body(random, session_id, ciphers, exts);
            let n = 2 * ciphers.len() as int;
            &&& body.len() == 73 + n + exts.len()
            &&& vec8_end(body, 34) == Some(67int)
            &&& vec16_end(body, 67) == Some(69 + n)
            &&& body.subrange(69, 69 + n) == u16_list(ciphers)
            &&& extensions_range(body) == Some((73 + n, body.len() as int))
            &&& body.skip(73 + n) == exts
        }),
{
    law_u16_list_layout(ciphers);
    let list = u16_list(ciphers);
    let n = 2 * ciphers.len() as int;
    let a = u16_bytes(0x0303) + random;
    let b = a + seq![0x20u8];
    let c = b + session_id;
    let d = c + u16_bytes(n);
    let e = d + list;
    let f = e + seq![0x01u8];
    let g = f + seq![0x00u8];
    let h = g + u16_bytes(exts.len() as int);
    let body = h + exts;
    assert(body == hello_body(random, session_id, ciphers, exts));
    assert(a.len() == 34 && b.len() == 35 && c.len() == 67 && d.len() == 69);
    assert(e.len() == 69 + n && f.len() == 70 + n && g.len() == 71 + n && h.len() == 73 + n);
    assert(body[34] == b[34]);
    assert(body[67] == d[67] && body[68] == d[68]);
    assert(be16(body, 67) == n);
    assert(body[69 + n] == f[69 + n]);
    assert(body[71 + n] == h[71 + n] && body[72 + n] == h[72 + n]);
    assert(be16(body, 71 + n) == exts.len());
    assert(body.subrange(69, 69 + n) =~= list) by {
        assert forall|i: int| 0 <= i < n implies body[69 + i] == list[i] by {
            assert(body[69 + i] == e[69 + i]);
        }
    }
    assert(body.skip(73 + n) =~= exts);
}

/// The extensions that stand in `block` at or behind `pos`, up to the first that
/// does not fit.
pub open spec fn decode_extensions(block: Seq<u8>, pos: int) -> Seq<Extension>
    decreases block.len() - pos,
{
    if pos < 0 || pos + 4 > block.len() {
        Seq::empty()
    } else {
        let end = pos + 4 + be16(block, pos + 2);
        if end > block.len() {
            Seq::empty()
        } else {
            seq![
                Extension { kind: be16(block, pos) as u16, data: block.subrange(pos + 4, end) },
            ] + decode_extensions(block, end)
        }
    }
}

/// Where the extension at index `k` of `exts` starts on the wire.
pub open spec fn extension_offset(exts: Seq<Extension>, k: int) -> int {
    encode_extensions(exts.take(k)).len() as int
}

proof fn lemma_encode_concat(a: Seq<Extension>, b: Seq<Extension>)
    ensures
        encode_extensions(a + b) == encode_extensions(a) + encode_extensions(b),
    decreases b.len(),
{
    if b.len() == 0 {
        assert(a + b =~= a);
        assert(encode_extensions(a + b) =~= encode_extensions(a) + encode_extensions(b));
    } else {
        lemma_encode_concat(a, b.drop_last());
        assert((a + b).drop_last() =~= a + b.drop_last());
        assert((a + b).last() == b.last());
        assert(encode_extensions(a + b) =~= encode_extensions(a) + encode_extensions(b));
    }
}

/// The data of every extension takes its share of the block.
pub(crate) proof fn lemma_extension_fits(exts: Seq<Extension>, k: int)
    requires
        0 <= k < exts.len(),
    ensures
        4 + exts[k].data.len() <= encode_extensions(exts).len(),
{
    let front = exts.take(k);
    let back = exts.skip(k + 1);
    lemma_encode_push(front, exts[k]);
    assert(exts =~= front.push(exts[k]) + back);
    lemma_encode_concat(front.push(exts[k]), back);
}

/// With another extension in place of the one at index `k`, as long on the wire, a
/// block changes only where that extension stands.
pub(crate) proof fn lemma_extension_replaced(exts: Seq<Extension>, k: int, ext: Extension, i: int)
    requires
        0 <= k < exts.len(),
        ext.data.len() == exts[k].data.len(),
        0 <= i < encode_extensions(exts).len(),
    ensures
        ({
            let block = encode_extensions(exts);
            let end = block.len() - encode_extensions(exts.skip(k + 1)).len();
            let start = end - 4 - ext.data.len();
            &&& encode_extensions(exts.update(k, ext)).len() == block.len()
            &&& 0 <= start
            &&& encode_extensions(exts.update(k, ext))[i] == if start <= i < end {
                encode_extension(ext)[i - start]
            } else {
                block[i]
            }
            &&& start <= i < end ==> block[i] == encode_extension(exts[k])[i - start]
        }),
{
    let front = exts.take(k);
    let back = exts.skip(k + 1);
    lemma_encode_push(front, exts[k]);
    lemma_encode_push(front, ext);
    assert(exts =~= front.push(exts[k]) + back);
    assert(exts.update(k, ext) =~= front.push(ext) + back);
    lemma_encode_concat(front.push(exts[k]), back);
    lemma_encode_concat(front.push(ext), back);
}

/// Where and how the extension at index `k` stands on the wire.
proof fn lemma_extension_at(exts: Seq<Extension>, k: int)
    requires
        0 <= k < exts.len(),
        exts[k].data.len() < 65536,
    ensures
        ({
            let block = encode_extensions(exts);
            let start = extension_offset(exts, k);
            let end = start + 4 + exts[k].data.len();
            &&& 0 <= start
            &&& extension_offset(exts, k + 1) == end
            &&& end <= block.len()
            &&& be16(block, start) == exts[k].kind
            &&& be16(block, start + 2) == exts[k].data.len()
            &&& block.subrange(start + 4, end) == exts[k].data
        }),
{
    let block = encode_extensions(exts);
    let start = extension_offset(exts, k);
    let front = exts.take(k);
    let back = exts.skip(k + 1);
    let this = encode_extension(exts[k]);
    assert(exts.take(k + 1) =~= front.push(exts[k]));
    lemma_encode_push(front, exts[k]);
    assert(exts =~= front.push(exts[k]) + back);
    lemma_encode_concat(front.push(exts[k]), back);
    let upto = encode_extensions(front) + this;
    assert(block == upto + encode_extensions(back));
    assert(this.len() == 4 + exts[k].data.len());
    assert forall|i: int| 0 <= i < this.len() implies block[start + i] == this[i] by {
        assert(block[start + i] == upto[start + i]);
    }
    lemma_extension_header(exts[k]);
    assert(block[start] == this[0] && block[start + 1] == this[1]);
    assert(block[start + 2] == this[2] && block[start + 3] == this[3]);
    assert(block.subrange(start + 4, start + 4 + exts[k].data.len()) =~= exts[k].data) by {
        assert forall|i: int| 0 <= i < exts[k].data.len() implies block[start + 4 + i]
            == exts[k].data[i] by {
            assert(block[start + (4 + i)] == this[4 + i]);
        }
    }
}

proof fn lemma_extension_header(ext: Extension)
    requires
        ext.data.len() < 65536,
    ensures
        be16(encode_extension(ext), 0) == ext.kind,
        be16(encode_extension(ext), 2) == ext.data.len(),
{
}

/// Extensions are read back as they were written, all of them and in order, as
/// long as the data of each fits the length that its header can state.
pub proof fn law_extensions_read_back(exts: Seq<Extension>)
    requires
        forall|i: int| 0 <= i < exts.len() ==> (#[trigger] exts[i]).data.len() < 65536,
    ensures
        decode_extensions(encode_extensions(exts), 0) == exts,
{
    lemma_decode_from(exts, 0);
    assert(exts.take(0) =~= Seq::empty());
    assert(exts.skip(0) =~= exts);
}

proof fn lemma_decode_from(exts: Seq<Extension>, k: int)
    requires
        0 <= k <= exts.len(),
        forall|i: int| 0 <= i < exts.len() ==> (#[trigger] exts[i]).data.len() < 65536,
    ensures
        decode_extensions(encode_extensions(exts), extension_offset(exts, k)) == exts.skip(k),
    decreases exts.len() - k,
{
    if k == exts.len() {
        assert(exts.take(k) =~= exts);
        assert(exts.skip(k) =~= Seq::empty());
    } else {
        lemma_extension_at(exts, k);
        lemma_decode_from(exts, k + 1);
        assert(exts.skip(k) =~= seq![exts[k]] + exts.skip(k + 1));
    }
}

/// The search for server_name passes over the extensions in front of it.
proof fn lemma_server_name_located(exts: Seq<Extension>, j: int, k: int)
    requires
        0 <= j <= k < exts.len(),
        forall|i: int| 0 <= i <= k ==> (#[trigger] exts[i]).data.len() < 65536,
        forall|i: int| 0 <= i < k ==> (#[trigger] exts[i]).kind != 0,
        exts[k].kind == 0,
    ensures
        server_name_extension(encode_extensions(exts), extension_offset(exts, j)) == Some(
            (
                extension_offset(exts, k) + 4,
                extension_offset(exts, k) + 4 + exts[k].data.len(),
            ),
        ),
    decreases k - j,
{
    lemma_extension_at(exts, j);
    if j < k {
        lemma_server_name_located(exts, j + 1, k);
    }
}

/// The host name is found in the data of the extension that was made for it,
/// unless it is empty or too long for the lengths that the extension states.
pub proof fn law_server_name_reads_back(name: Seq<u8>)
    requires
        0 < name.len() <= 65532,
    ensures
        server_name(name).data.len() == 5 + name.len(),
        host_name_range(server_name(name).data) == Some((5int, 5int + name.len())),
        server_name(name).data.skip(5) == name,
{
    let data = server_name(name).data;
    let entry = seq![0x00u8] + vec16(name);
    assert(data == u16_bytes(entry.len() as int) + entry);
    assert(entry == seq![0x00u8] + (u16_bytes(name.len() as int) + name));
    assert(be16(data, 0) == 3 + name.len());
    assert(data[2] == entry[0]);
    assert(data[3] == entry[1] && data[4] == entry[2]);
    assert(entry[1] == u16_bytes(name.len() as int)[0]);
    assert(entry[2] == u16_bytes(name.len() as int)[1]);
    assert(be16(data, 3) == name.len());
    assert(data.take(data.len() as int) =~= data);
    assert(data.skip(5) =~= name);
}

/// In a record that fits the length its header can state, the name that is found
/// is the one its first server_name extension was made for, and it is found in
/// the place where that extension put it.
pub proof fn law_name_is_found(
    random: Seq<u8>,
    session_id: Seq<u8>,
    ciphers: Seq<u16>,
    exts: Seq<Extension>,
    k: int,
    name: Seq<u8>,
)
    requires
        random.len() == 32,
        session_id.len() == 32,
        hello_record(random, session_id, ciphers, encode_extensions(exts)).len() <= MAX_RECORD,
        0 <= k < exts.len(),
        forall|i: int| 0 <= i < k ==> (#[trigger] exts[i]).kind != 0,
        exts[k] == server_name(name),
        0 < name.len(),
    ensures
        ({
            let record = hello_record(random, session_id, ciphers, encode_extensions(exts));
            let s = 91 + 2 * ciphers.len() + extension_offset(exts, k);
            &&& sni_range(record) == Some((s, s + name.len()))
            &&& record.subrange(s, s + name.len()) == name
        }),
{
    let block = encode_extensions(exts);
    law_hello_record_reads_back(random, session_id, ciphers, block);
    lemma_name_in_record(
        hello_record(random, session_id, ciphers, block),
        hello_body(random, session_id, ciphers, block),
        73 + 2 * ciphers.len() as int,
        exts,
        k,
        name,
    );
}

/// No name is found where the first server_name extension was made for an empty
/// one.
pub proof fn law_empty_name_in_record(
    random: Seq<u8>,
    session_id: Seq<u8>,
    ciphers: Seq<u16>,
    exts: Seq<Extension>,
    k: int,
)
    requires
        random.len() == 32,
        session_id.len() == 32,
        hello_record(random, session_id, ciphers, encode_extensions(exts)).len() <= MAX_RECORD,
        0 <= k < exts.len(),
        forall|i: int| 0 <= i < k ==> (#[trigger] exts[i]).kind != 0,
        exts[k] == server_name(Seq::empty()),
    ensures
        sni_range(hello_record(random, session_id, ciphers, encode_extensions(exts))) is None,
{
    let block = encode_extensions(exts);
    law_hello_record_reads_back(random, session_id, ciphers, block);
    lemma_empty_name(
        hello_record(random, session_id, ciphers, block),
        hello_body(random, session_id, ciphers, block),
        73 + 2 * ciphers.len() as int,
        exts,
        k,
    );
}

proof fn lemma_empty_name(
    record: Seq<u8>,
    body: Seq<u8>,
    first: int,
    exts: Seq<Extension>,
    k: int,
)
    requires
        client_hello_body(record) == Some(body),
        record.len() <= MAX_RECORD,
        record.skip(9) == body,
        extensions_range(body) == Some((first, body.len() as int)),
        body.skip(first) == encode_extensions(exts),
        0 <= k < exts.len(),
        forall|i: int| 0 <= i < k ==> (#[trigger] exts[i]).kind != 0,
        exts[k] == server_name(Seq::empty()),
    ensures
        sni_range(record) is None,
{
    let block = encode_extensions(exts);
    assert forall|i: int| 0 <= i < exts.len() implies (#[trigger] exts[i]).data.len() < 65536 by {
        lemma_extension_fits(exts, i);
    }
    assert(body.subrange(first, body.len() as int) =~= block);
    assert(exts.take(0) =~= Seq::empty());
    lemma_server_name_located(exts, 0, k);
    lemma_extension_at(exts, k);
    let start = extension_offset(exts, k) + 4;
    let end = start + exts[k].data.len();
    assert(body.subrange(first + start, first + end) =~= block.subrange(start, end)) by {
        assert forall|i: int| start <= i < end implies body[first + i] == block[i] by {
            assert(body[first + i] == body.skip(first)[i]);
        }
    }
    let data = server_name(Seq::<u8>::empty()).data;
    assert(data =~= seq![0x00u8, 0x03u8, 0x00u8, 0x00u8, 0x00u8]);
    assert(data.take(5) =~= data);
    assert(host_name_entry(data, 5) is None);
}

proof fn lemma_name_in_record(
    record: Seq<u8>,
    body: Seq<u8>,
    first: int,
    exts: Seq<Extension>,
    k: int,
    name: Seq<u8>,
)
    requires
        client_hello_body(record) == Some(body),
        record.len() <= MAX_RECORD,
        record.skip(9) == body,
        extensions_range(body) == Some((first, body.len() as int)),
        body.skip(first) == encode_extensions(exts),
        0 <= k < exts.len(),
        forall|i: int| 0 <= i < k ==> (#[trigger] exts[i]).kind != 0,
        exts[k] == server_name(name),
        0 < name.len(),
    ensures
        ({
            let s = 18 + first + extension_offset(exts, k);
            &&& sni_range(record) == Some((s, s + name.len()))
            &&& record.subrange(s, s + name.len()) == name
        }),
{
    let block = encode_extensions(exts);
    assert forall|i: int| 0 <= i < exts.len() implies (#[trigger] exts[i]).data.len() < 65536 by {
        lemma_extension_fits(exts, i);
    }
    lemma_extension_fits(exts, k);
    law_server_name_reads_back(name);
    assert(body.subrange(first, body.len() as int) =~= block);
    assert(exts.take(0) =~= Seq::empty());
    lemma_server_name_located(exts, 0, k);
    lemma_extension_at(exts, k);
    let start = extension_offset(exts, k) + 4;
    let end = start + exts[k].data.len();
    assert(body.subrange(first + start, first + end) =~= block.subrange(start, end)) by {
        assert forall|i: int| start <= i < end implies body[first + i] == block[i] by {
            assert(body[first + i] == body.skip(first)[i]);
        }
    }
    let s = 9 + first + start + 5;
    assert(record.subrange(s, s + name.len()) =~= name) by {
        assert forall|i: int| 0 <= i < name.len() implies record[s + i] == name[i] by {
            assert(record[s + i] == record.skip(9)[first + start + 5 + i]);
            assert(body[first + (start + 5 + i)] == body.skip(first)[start + 5 + i]);
            assert(block[start + (5 + i)] == block.subrange(start, end)[5 + i]);
            assert(exts[k].data[5 + i] == exts[k].data.skip(5)[i]);
        }
    }
}

} // verus!
