//! The ClientHello records in which a host name is found, as a grammar.
//!
//! `sni` reads a record from its first byte on. Here a record is put together of
//! its parts, whatever they are. A host name is found in a record exactly if the
//! record can be put together like this, and then it is found in its place.

use crate::layout::{law_extension_bytes, wide};
use crate::packet::extension::{encode_extensions, Extension};
use crate::sni::{
    client_hello_body, extensions_range, find_sni_range, host_name_entry, host_name_range,
    lemma_host_name_range_bounds, server_name_extension, sni_name_range_in_ext, sni_range,
    vec16_end, vec8_end,
};
use crate::wire::{be16, be24};
use vstd::prelude::*;

verus! {

/// An entry of a server name list.
pub struct NameEntry {
    pub kind: u8,
    pub name: Seq<u8>,
}

/// `entries` on the wire, one behind the other: type, length, name.
pub open spec fn name_entries(entries: Seq<NameEntry>) -> Seq<u8>
    decreases entries.len(),
{
    if entries.len() == 0 {
        Seq::empty()
    } else {
        seq![entries[0].kind] + wide(seq![entries[0].name.len() as int]) + entries[0].name
            + name_entries(entries.skip(1))
    }
}

/// The data of a server_name extension that holds a host name.
pub struct NameList {
    /// What stands in front of the host name: entries of another type, or empty.
    pub before: Seq<NameEntry>,
    pub name: Seq<u8>,
    /// What stands behind the host name in the list.
    pub after: Seq<u8>,
    /// What stands behind the list.
    pub rest: Seq<u8>,
}

impl NameList {
    pub open spec fn list(self) -> Seq<u8> {
        name_entries(self.before) + seq![0u8] + wide(seq![self.name.len() as int]) + self.name
            + self.after
    }

    pub open spec fn bytes(self) -> Seq<u8> {
        wide(seq![self.list().len() as int]) + self.list() + self.rest
    }

    pub open spec fn valid(self) -> bool {
        &&& self.name.len() > 0
        &&& self.list().len() < 65536
        &&& forall|i: int|
            #![trigger self.before[i]]
            0 <= i < self.before.len() ==> self.before[i].kind != 0 || self.before[i].name.len()
                == 0
    }

    /// Where the host name starts.
    pub open spec fn start(self) -> int {
        5 + name_entries(self.before).len() as int
    }
}

/// A record that opens with a ClientHello in which a host name stands.
pub struct Hello {
    pub record_version: Seq<u8>,
    pub version: Seq<u8>,
    pub random: Seq<u8>,
    pub session_id: Seq<u8>,
    pub ciphers: Seq<u8>,
    pub methods: Seq<u8>,
    /// The extensions in front of server_name.
    pub before: Seq<Extension>,
    pub server_name: NameList,
    /// What stands behind server_name among the extensions.
    pub after: Seq<u8>,
    /// What stands behind the extensions in the message.
    pub message_rest: Seq<u8>,
    /// What stands behind the message in the record.
    pub record_rest: Seq<u8>,
    /// What stands behind the record.
    pub rest: Seq<u8>,
}

impl Hello {
    pub open spec fn extensions(self) -> Seq<u8> {
        encode_extensions(self.before) + wide(
            seq![0int, self.server_name.bytes().len() as int],
        ) + self.server_name.bytes() + self.after
    }

    pub open spec fn fields(self) -> Seq<u8> {
        self.version + self.random + seq![self.session_id.len() as u8] + self.session_id + wide(
            seq![self.ciphers.len() as int],
        ) + self.ciphers + seq![self.methods.len() as u8] + self.methods
    }

    pub open spec fn body(self) -> Seq<u8> {
        self.fields() + wide(seq![self.extensions().len() as int]) + self.extensions()
            + self.message_rest
    }

    pub open spec fn message(self) -> Seq<u8> {
        let n = self.body().len() as int;
        seq![1u8, (n / 65536) as u8] + wide(seq![n]) + self.body() + self.record_rest
    }

    pub open spec fn bytes(self) -> Seq<u8> {
        seq![22u8] + self.record_version + wide(seq![self.message().len() as int])
            + self.message() + self.rest
    }

    /// The fields have their lengths, and what stands behind a length fits it.
    pub open spec fn valid(self) -> bool {
        &&& self.record_version.len() == 2
        &&& self.version.len() == 2
        &&& self.random.len() == 32
        &&& self.session_id.len() < 256
        &&& self.methods.len() < 256
        &&& self.server_name.valid()
        &&& self.message().len() < 65536
        &&& forall|i: int|
            #![trigger self.before[i]]
            0 <= i < self.before.len() ==> self.before[i].kind != 0
    }

    /// Where the host name starts: behind 5 bytes of record header, 4 of message
    /// header, 34 of version and random, four lengths, what they speak of, and 4
    /// bytes of extension header.
    pub open spec fn start(self) -> int {
        5 + 4 + 34 + 1 + self.session_id.len() + 2 + self.ciphers.len() + 1 + self.methods.len() + 2
            + encode_extensions(self.before).len() + 4 + self.server_name.start()
    }
}

proof fn lemma_wide_reads_back(before: Seq<u8>, n: int, after: Seq<u8>)
    requires
        0 <= n < 65536,
    ensures
        wide(seq![n]).len() == 2,
        be16(before + wide(seq![n]) + after, before.len() as int) == n,
{
    let all = before + wide(seq![n]) + after;
    assert(all[before.len() as int] == wide(seq![n])[0]);
    assert(all[before.len() as int + 1] == wide(seq![n])[1]);
}

proof fn lemma_be16_writes_back(s: Seq<u8>, i: int)
    requires
        0 <= i,
        i + 2 <= s.len(),
    ensures
        s.subrange(i, i + 2) == wide(seq![be16(s, i)]),
{
    assert(s.subrange(i, i + 2) =~= wide(seq![be16(s, i)]));
}

proof fn lemma_name_entries_found(front: Seq<u8>, d: NameList)
    requires
        d.valid(),
    ensures
        ({
            let start = front.len() as int + name_entries(d.before).len() + 3;
            host_name_entry(front + d.list(), front.len() as int) == Some(
                (start, start + d.name.len()),
            )
        }),
    decreases d.before.len(),
{
    let all = front + d.list();
    let pos = front.len() as int;
    if d.before.len() == 0 {
        let tail = d.name + d.after;
        lemma_wide_reads_back(front + seq![0u8], d.name.len() as int, tail);
        assert(all =~= front + seq![0u8] + wide(seq![d.name.len() as int]) + tail);
        assert(all[pos] == 0);
    } else {
        let first = d.before[0];
        let n = first.name.len() as int;
        let entry = seq![first.kind] + wide(seq![n]) + first.name;
        let others = NameList { before: d.before.skip(1), ..d };
        assert(d.list() =~= entry + others.list());
        assert forall|i: int| #![trigger others.before[i]] 0 <= i < others.before.len() implies
            others.before[i].kind != 0 || others.before[i].name.len() == 0 by {
            assert(others.before[i] == d.before[i + 1]);
        }
        lemma_wide_reads_back(front + seq![first.kind], n, first.name + others.list());
        assert(all =~= front + seq![first.kind] + wide(seq![n]) + (first.name + others.list()));
        assert(all[pos] == first.kind);
        assert(all =~= (front + entry) + others.list());
        assert(entry.len() == 3 + n);
        lemma_name_entries_found(front + entry, others);
    }
}

/// In every server name list the first host name that is not empty is found,
/// whatever stands around it.
pub proof fn law_host_name_is_found(d: NameList)
    requires
        d.valid(),
    ensures
        host_name_range(d.bytes()) == Some((d.start(), d.start() + d.name.len())),
        d.bytes().subrange(d.start(), d.start() + d.name.len()) == d.name,
{
    let n = d.list().len() as int;
    let front = wide(seq![n]);
    lemma_wide_reads_back(Seq::empty(), n, d.list() + d.rest);
    assert(d.bytes() =~= Seq::<u8>::empty() + front + (d.list() + d.rest));
    assert(d.bytes().take(2 + n) =~= front + d.list());
    lemma_name_entries_found(front, d);
    assert(d.bytes().subrange(d.start(), d.start() + d.name.len()) =~= d.name);
}

proof fn lemma_name_entries_read(list: Seq<u8>, pos: int) -> (before: Seq<NameEntry>)
    requires
        0 <= pos <= list.len(),
        host_name_entry(list, pos) is Some,
    ensures
        ({
            let (s, e) = host_name_entry(list, pos)->0;
            &&& s == pos + name_entries(before).len() + 3
            &&& s < e <= list.len()
            &&& list.skip(pos) == name_entries(before) + seq![0u8] + wide(seq![e - s])
                + list.subrange(s, e) + list.skip(e)
            &&& forall|i: int|
                #![trigger before[i]]
                0 <= i < before.len() ==> before[i].kind != 0 || before[i].name.len() == 0
        }),
    decreases list.len() - pos,
{
    let end = pos + 3 + be16(list, pos + 1);
    lemma_be16_writes_back(list, pos + 1);
    let (s, e) = host_name_entry(list, pos)->0;
    if list[pos] == 0 && end > pos + 3 {
        let before = Seq::<NameEntry>::empty();
        assert(list.skip(pos) =~= name_entries(before) + seq![0u8] + list.subrange(pos + 1, pos + 3)
            + list.subrange(s, e) + list.skip(e));
        before
    } else {
        let others = lemma_name_entries_read(list, end);
        let first = NameEntry { kind: list[pos], name: list.subrange(pos + 3, end) };
        let before = seq![first] + others;
        let entry = seq![first.kind] + wide(seq![first.name.len() as int]) + first.name;
        assert(before.skip(1) =~= others);
        assert(name_entries(before) =~= entry + name_entries(others));
        assert(list.skip(pos) =~= seq![list[pos]] + list.subrange(pos + 1, pos + 3)
            + list.subrange(pos + 3, end) + list.skip(end));
        assert(list.skip(pos) =~= entry + list.skip(end));
        assert(list.skip(pos) =~= name_entries(before) + seq![0u8] + wide(seq![e - s])
            + list.subrange(s, e) + list.skip(e));
        before
    }
}

/// A host name is found only where the data of the extension is such a list, and
/// where it stands in it.
pub proof fn law_a_found_host_name_is_listed(ext: Seq<u8>) -> (d: NameList)
    requires
        host_name_range(ext) is Some,
    ensures
        d.valid(),
        d.bytes() == ext,
        host_name_range(ext) == Some((d.start(), d.start() + d.name.len())),
{
    let n = be16(ext, 0);
    let list = ext.take(2 + n);
    let before = lemma_name_entries_read(list, 2);
    let (s, e) = host_name_range(ext)->0;
    let d = NameList {
        before,
        name: ext.subrange(s, e),
        after: ext.subrange(e, 2 + n),
        rest: ext.skip(2 + n),
    };
    assert(list.subrange(s, e) =~= d.name);
    assert(list.skip(e) =~= d.after);
    assert(d.list() =~= list.skip(2));
    lemma_be16_writes_back(ext, 0);
    assert(ext =~= ext.subrange(0, 2) + list.skip(2) + d.rest);
    d
}

proof fn lemma_encode_first(exts: Seq<Extension>)
    requires
        exts.len() > 0,
    ensures
        encode_extensions(exts) == wide(seq![exts[0].kind as int, exts[0].data.len() as int])
            + exts[0].data + encode_extensions(exts.skip(1)),
{
    law_extension_bytes(exts[0], seq![exts[0]], exts.skip(1));
    assert(exts =~= seq![exts[0]] + exts.skip(1));
}

/// How one extension is read: it is server_name, or the next one is looked at.
proof fn lemma_extension_read(front: Seq<u8>, kind: u16, data: Seq<u8>, rest: Seq<u8>)
    requires
        data.len() < 65536,
    ensures
        ({
            let n = data.len() as int;
            let pos = front.len() as int;
            let all = front + (wide(seq![kind as int, n]) + data + rest);
            server_name_extension(all, pos) == if kind == 0 {
                Some((pos + 4, pos + 4 + n))
            } else {
                server_name_extension(all, pos + 4 + n)
            }
        }),
{
    let n = data.len() as int;
    let pos = front.len() as int;
    let head = wide(seq![kind as int, n]);
    let all = front + (head + data + rest);
    assert(head.len() == 4);
    assert(all[pos] == head[0] && all[pos + 1] == head[1]);
    assert(all[pos + 2] == head[2] && all[pos + 3] == head[3]);
    assert(be16(all, pos) == kind);
    assert(be16(all, pos + 2) == n);
}

proof fn lemma_extensions_skipped(
    front: Seq<u8>,
    before: Seq<Extension>,
    data: Seq<u8>,
    after: Seq<u8>,
)
    requires
        data.len() < 65536,
        encode_extensions(before).len() < 65536,
        forall|i: int| #![trigger before[i]] 0 <= i < before.len() ==> before[i].kind != 0,
    ensures
        ({
            let block = encode_extensions(before) + wide(seq![0int, data.len() as int]) + data
                + after;
            let start = front.len() as int + encode_extensions(before).len() + 4;
            server_name_extension(front + block, front.len() as int) == Some(
                (start, start + data.len()),
            )
        }),
    decreases before.len(),
{
    let head = wide(seq![0int, data.len() as int]);
    let block = encode_extensions(before) + head + data + after;
    if before.len() == 0 {
        assert(block =~= head + data + after);
        lemma_extension_read(front, 0, data, after);
    } else {
        let first = before[0];
        let others = before.skip(1);
        let ext = wide(seq![first.kind as int, first.data.len() as int]) + first.data;
        let rest = encode_extensions(others) + head + data + after;
        lemma_encode_first(before);
        assert(block =~= ext + rest);
        lemma_extension_read(front, first.kind, first.data, rest);
        assert(front + block =~= (front + ext) + rest);
        assert forall|i: int| #![trigger others[i]] 0 <= i < others.len() implies others[i].kind
            != 0 by {
            assert(others[i] == before[i + 1]);
        }
        lemma_extensions_skipped(front + ext, others, data, after);
    }
}

proof fn lemma_extensions_read(exts: Seq<u8>, pos: int) -> (before: Seq<Extension>)
    requires
        0 <= pos <= exts.len(),
        server_name_extension(exts, pos) is Some,
    ensures
        ({
            let (s, e) = server_name_extension(exts, pos)->0;
            &&& s == pos + encode_extensions(before).len() + 4
            &&& s <= e <= exts.len()
            &&& exts.skip(pos) == encode_extensions(before) + wide(seq![0int, e - s])
                + exts.subrange(s, e) + exts.skip(e)
            &&& forall|i: int| #![trigger before[i]] 0 <= i < before.len() ==> before[i].kind != 0
        }),
    decreases exts.len() - pos,
{
    let end = pos + 4 + be16(exts, pos + 2);
    let (s, e) = server_name_extension(exts, pos)->0;
    let kind = be16(exts, pos);
    assert(exts.subrange(pos, pos + 4) =~= wide(seq![kind, end - pos - 4]));
    if kind == 0 {
        let before = Seq::<Extension>::empty();
        assert(encode_extensions(before) =~= Seq::empty());
        assert(exts.skip(pos) =~= encode_extensions(before) + exts.subrange(pos, pos + 4)
            + exts.subrange(s, e) + exts.skip(e));
        before
    } else {
        let others = lemma_extensions_read(exts, end);
        let first = Extension { kind: kind as u16, data: exts.subrange(pos + 4, end) };
        let before = seq![first] + others;
        let ext = exts.subrange(pos, pos + 4) + first.data;
        assert(before.skip(1) =~= others);
        lemma_encode_first(before);
        assert(encode_extensions(before) =~= ext + encode_extensions(others));
        assert(exts.skip(pos) =~= ext + exts.skip(end));
        assert(exts.skip(pos) =~= encode_extensions(before) + wide(seq![0int, e - s])
            + exts.subrange(s, e) + exts.skip(e));
        before
    }
}

/// Where the fields of a ClientHello end, and where its extensions stand.
proof fn lemma_fields_read(h: Hello)
    requires
        h.valid(),
    ensures
        ({
            let first = h.fields().len() + 2;
            &&& h.fields().len() == 38 + h.session_id.len() + h.ciphers.len() + h.methods.len()
            &&& extensions_range(h.body()) == Some(
                (first as int, first + h.extensions().len() as int),
            )
        }),
{
    let body = h.body();
    let c = h.ciphers.len() as int;
    let x = h.extensions().len() as int;
    let f1 = h.version + h.random;
    let f2 = f1 + seq![h.session_id.len() as u8] + h.session_id;
    let f3 = f2 + wide(seq![c]) + h.ciphers;
    let f4 = f3 + seq![h.methods.len() as u8] + h.methods;
    assert(f4 =~= h.fields());
    let t4 = wide(seq![x]) + h.extensions() + h.message_rest;
    let t3 = seq![h.methods.len() as u8] + h.methods + t4;
    assert(body =~= f4 + wide(seq![x]) + (h.extensions() + h.message_rest));
    assert(body =~= f3 + seq![h.methods.len() as u8] + (h.methods + t4));
    assert(body =~= f2 + wide(seq![c]) + (h.ciphers + t3));
    lemma_wide_reads_back(f2, c, h.ciphers + t3);
    lemma_wide_reads_back(f4, x, h.extensions() + h.message_rest);
    assert(body[34] == h.session_id.len());
    assert(body[f3.len() as int] == h.methods.len());
    assert(vec8_end(body, 34) == Some(f2.len() as int));
    assert(vec16_end(body, f2.len() as int) == Some(f3.len() as int));
    assert(vec8_end(body, f3.len() as int) == Some(f4.len() as int));
    assert(vec16_end(body, f4.len() as int) == Some(f4.len() + 2 + x));
}

proof fn lemma_record_header_read(version: Seq<u8>, message: Seq<u8>, rest: Seq<u8>)
    requires
        version.len() == 2,
        message.len() < 65536,
    ensures
        ({
            let m = message.len() as int;
            let record = seq![22u8] + version + wide(seq![m]) + message + rest;
            &&& record.len() >= 5 + m
            &&& record[0] == 22
            &&& be16(record, 3) == m
            &&& record.subrange(5, 5 + m) == message
        }),
{
    let m = message.len() as int;
    let record = seq![22u8] + version + wide(seq![m]) + message + rest;
    lemma_wide_reads_back(seq![22u8] + version, m, message + rest);
    assert(record =~= seq![22u8] + version + wide(seq![m]) + (message + rest));
    assert(record.subrange(5, 5 + m) =~= message);
}

proof fn lemma_message_header_read(body: Seq<u8>, rest: Seq<u8>)
    requires
        body.len() < 65536,
    ensures
        ({
            let n = body.len() as int;
            let message = seq![1u8, (n / 65536) as u8] + wide(seq![n]) + body + rest;
            &&& message.len() == 4 + n + rest.len()
            &&& message[0] == 1
            &&& be24(message, 1) == n
            &&& message.subrange(4, 4 + n) == body
        }),
{
    let n = body.len() as int;
    let message = seq![1u8, (n / 65536) as u8] + wide(seq![n]) + body + rest;
    assert(message[2] == wide(seq![n])[0] && message[3] == wide(seq![n])[1]);
    assert(message.subrange(4, 4 + n) =~= body);
}

proof fn lemma_message_in_record(record: Seq<u8>, message: Seq<u8>, body: Seq<u8>)
    requires
        record.len() >= 5 + message.len(),
        record[0] == 22,
        be16(record, 3) == message.len(),
        record.subrange(5, 5 + message.len() as int) == message,
        message.len() >= 4 + body.len(),
        message[0] == 1,
        be24(message, 1) == body.len(),
        message.subrange(4, 4 + body.len() as int) == body,
        body.len() > 0,
    ensures
        client_hello_body(record) == Some(body),
        record.subrange(9, 9 + body.len() as int) == body,
{
    let m = message.len() as int;
    assert forall|i: int| 0 <= i < m implies #[trigger] message[i] == record[5 + i] by {}
    assert(message[0] == record[5] && message[1] == record[6]);
    assert(message[2] == record[7] && message[3] == record[8]);
    assert(record.subrange(9, 9 + body.len() as int) =~= message.subrange(
        4,
        4 + body.len() as int,
    ));
}

/// The message is found behind the headers.
proof fn lemma_headers_read(h: Hello)
    requires
        h.valid(),
    ensures
        client_hello_body(h.bytes()) == Some(h.body()),
        h.bytes().subrange(9, 9 + h.body().len() as int) == h.body(),
{
    let message = h.message();
    let body = h.body();
    assert(message.len() == 4 + body.len() + h.record_rest.len());
    lemma_record_header_read(h.record_version, message, h.rest);
    lemma_message_header_read(body, h.record_rest);
    lemma_fields_read(h);
    lemma_message_in_record(h.bytes(), message, body);
}

/// A part of a part is a part.
proof fn lemma_part_of_part(s: Seq<u8>, a: int, b: int, c: int, d: int)
    requires
        0 <= a <= b <= s.len(),
        0 <= c <= d <= b - a,
    ensures
        s.subrange(a, b).subrange(c, d) == s.subrange(a + c, a + d),
{
    assert(s.subrange(a, b).subrange(c, d) =~= s.subrange(a + c, a + d));
}

proof fn lemma_part_at(front: Seq<u8>, part: Seq<u8>, rest: Seq<u8>)
    ensures
        (front + part + rest).subrange(front.len() as int, front.len() + part.len() as int)
            == part,
{
    assert((front + part + rest).subrange(front.len() as int, front.len() + part.len() as int)
        =~= part);
}

/// Where the extensions stand in the message, and server_name in the extensions.
proof fn lemma_parts_placed(h: Hello)
    requires
        h.valid(),
    ensures
        ({
            let first = h.fields().len() + 2;
            let x = h.extensions().len();
            let start = encode_extensions(h.before).len() + 4;
            let data = h.server_name.bytes();
            &&& first + x <= h.body().len()
            &&& start + data.len() <= x
            &&& h.body().subrange(first as int, first + x as int) == h.extensions()
            &&& h.extensions().subrange(start as int, start + data.len() as int) == data
        }),
{
    let x = h.extensions().len() as int;
    let data = h.server_name.bytes();
    lemma_part_at(h.fields() + wide(seq![x]), h.extensions(), h.message_rest);
    lemma_part_at(
        encode_extensions(h.before) + wide(seq![0int, data.len() as int]),
        data,
        h.after,
    );
}

/// How the steps of reading a record come together.
proof fn lemma_reading_composed(
    record: Seq<u8>,
    body: Seq<u8>,
    block: Seq<u8>,
    data: Seq<u8>,
    first: int,
    start: int,
    s: int,
    name: Seq<u8>,
)
    requires
        client_hello_body(record) == Some(body),
        9 + body.len() <= record.len(),
        record.subrange(9, 9 + body.len() as int) == body,
        0 <= first,
        first + block.len() <= body.len(),
        extensions_range(body) == Some((first, first + block.len())),
        body.subrange(first, first + block.len()) == block,
        0 <= start,
        start + data.len() <= block.len(),
        server_name_extension(block, 0) == Some((start, start + data.len())),
        block.subrange(start, start + data.len()) == data,
        0 <= s,
        s + name.len() <= data.len(),
        host_name_range(data) == Some((s, s + name.len())),
        data.subrange(s, s + name.len()) == name,
    ensures
        ({
            let at = 9 + first + start + s;
            &&& sni_range(record) == Some((at, at + name.len()))
            &&& record.subrange(at, at + name.len()) == name
        }),
{
    let n = data.len() as int;
    lemma_part_of_part(body, first, first + block.len(), start, start + n);
    lemma_part_of_part(body, first + start, first + start + n, s, s + name.len());
    lemma_part_of_part(
        record,
        9,
        9 + body.len() as int,
        first + start + s,
        first + start + s + name.len(),
    );
}

proof fn lemma_server_name_read(h: Hello)
    requires
        h.valid(),
    ensures
        ({
            let start = encode_extensions(h.before).len() as int + 4;
            server_name_extension(h.extensions(), 0) == Some(
                (start, start + h.server_name.bytes().len()),
            )
        }),
{
    let block = h.extensions();
    lemma_extensions_skipped(Seq::empty(), h.before, h.server_name.bytes(), h.after);
    assert(Seq::<u8>::empty() + block =~= block);
}

/// In every record that opens with a ClientHello, the host name is found, and found
/// in its place: whatever the versions, the random, the length of the session id,
/// the cipher suites, the compression methods, the extensions in front of
/// server_name and the entries in front of the name are, and whatever stands behind.
pub proof fn law_every_host_name_is_found(h: Hello)
    requires
        h.valid(),
    ensures
        sni_range(h.bytes()) == Some((h.start(), h.start() + h.server_name.name.len())),
        h.bytes().subrange(h.start(), h.start() + h.server_name.name.len())
            == h.server_name.name,
{
    let d = h.server_name;
    let body = h.body();
    let block = h.extensions();
    let data = d.bytes();
    let first = h.fields().len() as int + 2;
    let start = encode_extensions(h.before).len() as int + 4;
    lemma_headers_read(h);
    lemma_fields_read(h);
    lemma_parts_placed(h);
    lemma_server_name_read(h);
    law_host_name_is_found(d);
    lemma_host_name_range_bounds(data);
    assert(9 + body.len() <= h.bytes().len());
    lemma_reading_composed(h.bytes(), body, block, data, first, start, d.start(), d.name);
}

/// The fields of a message that has extensions, read and written again.
proof fn lemma_fields_written(body: Seq<u8>)
    requires
        extensions_range(body) is Some,
    ensures
        ({
            let (first, last) = extensions_range(body)->0;
            let session_end = vec8_end(body, 34)->0;
            let ciphers_end = vec16_end(body, session_end)->0;
            let methods_end = first - 2;
            let ciphers = body.subrange(session_end + 2, ciphers_end);
            &&& 35 <= session_end <= 290
            &&& session_end + 2 <= ciphers_end
            &&& ciphers_end + 1 <= methods_end <= ciphers_end + 256
            &&& first <= last <= body.len()
            &&& body.take(methods_end) == body.subrange(0, 2) + body.subrange(2, 34) + seq![
                (session_end - 35) as u8,
            ] + body.subrange(35, session_end) + wide(seq![ciphers.len() as int]) + ciphers + seq![
                (methods_end - ciphers_end - 1) as u8,
            ] + body.subrange(ciphers_end + 1, methods_end)
            &&& body.subrange(methods_end, first) == wide(seq![last - first])
        }),
{
    let (first, last) = extensions_range(body)->0;
    let session_end = vec8_end(body, 34)->0;
    let ciphers_end = vec16_end(body, session_end)->0;
    let methods_end = first - 2;
    lemma_be16_writes_back(body, session_end);
    lemma_be16_writes_back(body, methods_end);
    let upto = body.subrange(0, 2) + body.subrange(2, 34) + seq![body[34]] + body.subrange(
        35,
        session_end,
    ) + body.subrange(session_end, session_end + 2);
    assert(upto =~= body.take(session_end + 2));
    assert(body.take(methods_end) =~= upto + body.subrange(session_end + 2, ciphers_end) + seq![
        body[ciphers_end],
    ] + body.subrange(ciphers_end + 1, methods_end));
}

/// The headers of a record with a ClientHello, read and written again.
proof fn lemma_headers_written(record: Seq<u8>)
    requires
        client_hello_body(record) is Some,
    ensures
        ({
            let m = be16(record, 3);
            let n = be24(record, 6);
            let body = client_hello_body(record)->0;
            let message = seq![1u8, (n / 65536) as u8] + wide(seq![n]) + body + record.subrange(
                9 + n,
                5 + m,
            );
            &&& body.len() == n
            &&& message.len() == m
            &&& m < 65536
            &&& record == seq![22u8] + record.subrange(1, 3) + wide(seq![m]) + message
                + record.skip(5 + m)
        }),
{
    let m = be16(record, 3);
    let n = be24(record, 6);
    let body = client_hello_body(record)->0;
    let head = seq![1u8, (n / 65536) as u8] + wide(seq![n]);
    let rest = record.subrange(9 + n, 5 + m);
    assert(record.subrange(5, 9) =~= head);
    assert(record.subrange(5, 5 + m) =~= head + body + rest);
    lemma_be16_writes_back(record, 3);
    assert(record =~= seq![22u8] + record.subrange(1, 3) + record.subrange(3, 5) + record.subrange(
        5,
        5 + m,
    ) + record.skip(5 + m));
}

/// The extensions of a message with a host name, read and written again.
proof fn lemma_extensions_written(block: Seq<u8>) -> (r: (Seq<Extension>, NameList))
    requires
        server_name_extension(block, 0) matches Some((start, end)) && host_name_range(
            block.subrange(start, end),
        ) is Some,
    ensures
        ({
            let (before, d) = r;
            let (start, end) = server_name_extension(block, 0)->0;
            &&& 0 <= start <= end <= block.len()
            &&& d.valid()
            &&& d.bytes() == block.subrange(start, end)
            &&& host_name_range(d.bytes()) == Some((d.start(), d.start() + d.name.len()))
            &&& start == encode_extensions(before).len() + 4
            &&& block == encode_extensions(before) + wide(seq![0int, d.bytes().len() as int])
                + d.bytes() + block.skip(end)
            &&& forall|i: int| #![trigger before[i]] 0 <= i < before.len() ==> before[i].kind != 0
        }),
{
    let (start, end) = server_name_extension(block, 0)->0;
    let before = lemma_extensions_read(block, 0);
    let d = law_a_found_host_name_is_listed(block.subrange(start, end));
    assert(block.skip(0) =~= block);
    (before, d)
}

/// A host name is found only in such a record, and only where it stands in it.
pub proof fn law_a_found_name_stands_in_a_client_hello(record: Seq<u8>) -> (h: Hello)
    requires
        sni_range(record) is Some,
    ensures
        h.valid(),
        h.bytes() == record,
        sni_range(record) == Some((h.start(), h.start() + h.server_name.name.len())),
{
    let body = client_hello_body(record)->0;
    let (first, last) = extensions_range(body)->0;
    let block = body.subrange(first, last);
    let (start, end) = server_name_extension(block, 0)->0;
    lemma_headers_written(record);
    lemma_fields_written(body);
    lemma_server_name_bounds(block);
    lemma_part_of_part(body, first, last, start, end);
    let (before, d) = lemma_extensions_written(block);
    let h = lemma_record_written(record, body, before, d, block.skip(end));
    law_every_host_name_is_found(h);
    h
}

proof fn lemma_server_name_bounds(block: Seq<u8>)
    requires
        server_name_extension(block, 0) is Some,
    ensures
        ({
            let (start, end) = server_name_extension(block, 0)->0;
            0 <= start <= end <= block.len()
        }),
{
    let before = lemma_extensions_read(block, 0);
}

proof fn lemma_record_written(
    record: Seq<u8>,
    body: Seq<u8>,
    before: Seq<Extension>,
    d: NameList,
    after: Seq<u8>,
) -> (h: Hello)
    requires
        client_hello_body(record) == Some(body),
        extensions_range(body) matches Some((first, last)) && body.subrange(first, last)
            == encode_extensions(before) + wide(seq![0int, d.bytes().len() as int]) + d.bytes()
            + after,
        d.valid(),
        forall|i: int| #![trigger before[i]] 0 <= i < before.len() ==> before[i].kind != 0,
    ensures
        h.valid(),
        h.bytes() == record,
        h.server_name == d,
{
    let n = be24(record, 6);
    let m = be16(record, 3);
    let (first, last) = extensions_range(body)->0;
    let session_end = vec8_end(body, 34)->0;
    let ciphers_end = vec16_end(body, session_end)->0;
    let methods_end = first - 2;
    lemma_headers_written(record);
    lemma_fields_written(body);
    let h = Hello {
        record_version: record.subrange(1, 3),
        version: body.subrange(0, 2),
        random: body.subrange(2, 34),
        session_id: body.subrange(35, session_end),
        ciphers: body.subrange(session_end + 2, ciphers_end),
        methods: body.subrange(ciphers_end + 1, methods_end),
        before,
        server_name: d,
        after,
        message_rest: body.skip(last),
        record_rest: record.subrange(9 + n, 5 + m),
        rest: record.skip(5 + m),
    };
    lemma_body_split(body, methods_end, first, last);
    assert(h.extensions() == body.subrange(first, last));
    assert(h.fields() == body.take(methods_end));
    assert(h.body() == body);
    h
}

proof fn lemma_body_split(body: Seq<u8>, a: int, b: int, c: int)
    requires
        0 <= a <= b <= c <= body.len(),
    ensures
        body == body.take(a) + body.subrange(a, b) + body.subrange(b, c) + body.skip(c),
{
    assert(body =~= body.take(a) + body.subrange(a, b) + body.subrange(b, c) + body.skip(c));
}

/// What `find_sni_range` returns of a record: the place of the host name where the
/// record is a ClientHello with one, and nothing where it is none.
pub proof fn law_find_sni_range(record: &[u8], found: Option<(usize, usize)>)
    requires
        call_ensures(find_sni_range, (record,), found),
    ensures
        forall|h: Hello|
            #![trigger h.bytes()]
            h.valid() && h.bytes() == record@ ==> found is Some && (found->0).0
                == h.start() && (found->0).1 == h.start() + h.server_name.name.len(),
        found is Some ==> exists|h: Hello| #![trigger h.bytes()] h.valid() && h.bytes() == record@,
{
    assert forall|h: Hello|
        #![trigger h.bytes()]
        h.valid() && h.bytes() == record@ implies found is Some && (found->0).0
                == h.start() && (found->0).1 == h.start() + h.server_name.name.len() by {
        law_every_host_name_is_found(h);
    }
    if found is Some {
        let h = law_a_found_name_stands_in_a_client_hello(record@);
    }
}

/// What `sni_name_range_in_ext` returns of the data of an extension: the place of
/// the host name where the data is a list with one, and nothing where it is none.
pub proof fn law_sni_name_range_in_ext(ext: &[u8], found: Option<(usize, usize)>)
    requires
        call_ensures(sni_name_range_in_ext, (ext,), found),
    ensures
        forall|d: NameList|
            #![trigger d.bytes()]
            d.valid() && d.bytes() == ext@ ==> found is Some && (found->0).0
                == d.start() && (found->0).1 == d.start() + d.name.len(),
        found is Some ==> exists|d: NameList| #![trigger d.bytes()] d.valid() && d.bytes() == ext@,
{
    assert forall|d: NameList|
        #![trigger d.bytes()]
        d.valid() && d.bytes() == ext@ implies found is Some && (found->0).0
                == d.start() && (found->0).1 == d.start() + d.name.len() by {
        law_host_name_is_found(d);
    }
    if found is Some {
        let d = law_a_found_host_name_is_listed(ext@);
    }
}

} // verus!
