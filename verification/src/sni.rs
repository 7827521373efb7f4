//! Finding the server name inside a ClientHello record.

use crate::wire::{be16, be24, read_u16};
use vstd::prelude::*;
use vstd::slice::slice_subrange;

verus! {

/// First byte of a TLS record that carries handshake messages.
pub const CONTENT_HANDSHAKE: u8 = 22;

/// First byte of a ClientHello handshake message.
pub const CLIENT_HELLO: u8 = 1;

/// Where the vector at `i` ends whose length is stated in one byte; `None` if
/// it does not fit into `s`.
pub open spec fn vec8_end(s: Seq<u8>, i: int) -> Option<int> {
    if i + 1 <= s.len() && i + 1 + s[i] <= s.len() {
        Some(i + 1 + s[i])
    } else {
        None
    }
}

/// Where the vector at `i` ends whose length is stated in two bytes; `None` if
/// it does not fit into `s`.
pub open spec fn vec16_end(s: Seq<u8>, i: int) -> Option<int> {
    if i + 2 <= s.len() && i + 2 + be16(s, i) <= s.len() {
        Some(i + 2 + be16(s, i))
    } else {
        None
    }
}

/// The body of the ClientHello that `record` opens with: what follows the
/// five-byte record header and the four-byte handshake header. Bytes behind the
/// record, and bytes of the record behind the message, do not matter.
pub open spec fn client_hello_body(record: Seq<u8>) -> Option<Seq<u8>> {
    if record.len() >= 9 && record[0] == CONTENT_HANDSHAKE && record[5] == CLIENT_HELLO
        && 0 < be24(record, 6) && 4 + be24(record, 6) <= be16(record, 3) && 5 + be16(record, 3)
        <= record.len() {
        Some(record.subrange(9, 9 + be24(record, 6)))
    } else {
        None
    }
}

/// Where the extensions of a ClientHello body start and end. In front of them
/// stand version (2 bytes), random (32), session id, cipher suites and
/// compression methods.
pub open spec fn extensions_range(body: Seq<u8>) -> Option<(int, int)> {
    match vec8_end(body, 34) {
        Some(session_end) => match vec16_end(body, session_end) {
            Some(ciphers_end) => match vec8_end(body, ciphers_end) {
                Some(methods_end) => match vec16_end(body, methods_end) {
                    Some(end) => Some((methods_end + 2, end)),
                    None => None,
                },
                None => None,
            },
            None => None,
        },
        None => None,
    }
}

/// Where the data of the first server_name extension (type 0) at or behind
/// `pos` starts and ends. `None` if there is none, or if an extension in front
/// of it, or it itself, does not fit.
pub open spec fn server_name_extension(exts: Seq<u8>, pos: int) -> Option<(int, int)>
    decreases exts.len() - pos,
{
    if pos < 0 || pos + 4 > exts.len() {
        None
    } else {
        let end = pos + 4 + be16(exts, pos + 2);
        if end > exts.len() {
            None
        } else if be16(exts, pos) == 0 {
            Some((pos + 4, end))
        } else {
            server_name_extension(exts, end)
        }
    }
}

/// Where the first host name (type 0) that is not empty starts and ends among
/// the entries of a server name list, at or behind `pos`. `None` if there is
/// none, or if an entry in front of it, or it itself, does not fit.
pub open spec fn host_name_entry(list: Seq<u8>, pos: int) -> Option<(int, int)>
    decreases list.len() - pos,
{
    if pos < 0 || pos + 3 > list.len() {
        None
    } else {
        let end = pos + 3 + be16(list, pos + 1);
        if end > list.len() {
            None
        } else if list[pos] == 0 && end > pos + 3 {
            Some((pos + 3, end))
        } else {
            host_name_entry(list, end)
        }
    }
}

/// Where the host name starts and ends inside the data of a server_name
/// extension. Bytes behind the list do not matter.
pub open spec fn host_name_range(ext: Seq<u8>) -> Option<(int, int)> {
    match vec16_end(ext, 0) {
        Some(end) => host_name_entry(ext.take(end), 2),
        None => None,
    }
}

/// Where the server's host name starts and ends inside `record`.
pub open spec fn sni_range(record: Seq<u8>) -> Option<(int, int)> {
    match client_hello_body(record) {
        Some(body) => match extensions_range(body) {
            Some((first, last)) => match server_name_extension(body.subrange(first, last), 0) {
                Some((start, end)) => match host_name_range(
                    body.subrange(first + start, first + end),
                ) {
                    Some((s, e)) => Some((9 + first + start + s, 9 + first + start + e)),
                    None => None,
                },
                None => None,
            },
            None => None,
        },
        None => None,
    }
}

/// Whether an executable range is the one that a specification names.
pub open spec fn same_range(found: Option<(usize, usize)>, range: Option<(int, int)>) -> bool {
    match found {
        Some((s, e)) => range == Some((s as int, e as int)),
        None => range is None,
    }
}

/// Returns `[start, end)` of the host name within the data of a server_name
/// extension.
pub fn sni_name_range_in_ext(ext: &[u8]) -> (found: Option<(usize, usize)>)
    ensures
        same_range(found, host_name_range(ext@)),
{
    if ext.len() < 2 {
        return None;
    }
    let list_len: usize = read_u16(ext, 0);
    if ext.len() - 2 < list_len {
        return None;
    }
    let list_end: usize = 2 + list_len;
    let ghost list = ext@.take(list_end as int);
    let mut pos: usize = 2;
    while list_end - pos >= 3
        invariant
            2 <= pos <= list_end <= ext@.len(),
            list == ext@.take(list_end as int),
            host_name_range(ext@) == host_name_entry(list, pos as int),
        decreases list_end - pos,
    {
        let name_type = ext[pos];
        let name_len: usize = read_u16(ext, pos + 1);
        let name_start: usize = pos + 3;
        if list_end - name_start < name_len {
            return None;
        }
        let name_end: usize = name_start + name_len;
        if name_type == 0 && name_len > 0 {
            return Some((name_start, name_end));
        }
        pos = name_end;
    }
    None
}

/// Returns `[start, end)` of the server's host name inside `record`.
///
/// The range is `None` where `record` does not open with a whole ClientHello,
/// or where that has no host name. All offsets count from the start of `record`.
pub fn find_sni_range(record: &[u8]) -> (found: Option<(usize, usize)>)
    ensures
        same_range(found, sni_range(record@)),
{
    if record.len() < 9 || record[0] != CONTENT_HANDSHAKE || record[5] != CLIENT_HELLO {
        return None;
    }
    let record_len: usize = read_u16(record, 3);
    if record.len() - 5 < record_len {
        return None;
    }
    let hello_len: usize = record[6] as usize * 65536 + read_u16(record, 7);
    if hello_len == 0 || record_len < 4 || record_len - 4 < hello_len {
        return None;
    }
    let body = slice_subrange(record, 9, 9 + hello_len);
    let (first, last): (usize, usize) = match find_extensions(body) {
        Some(range) => range,
        None => return None,
    };
    let ghost exts = body@.subrange(first as int, last as int);
    let mut pos: usize = first;
    while last - pos >= 4
        invariant
            9 + body@.len() <= record@.len(),
            client_hello_body(record@) == Some(body@),
            extensions_range(body@) == Some((first as int, last as int)),
            first <= pos <= last <= body@.len(),
            exts == body@.subrange(first as int, last as int),
            server_name_extension(exts, 0) == server_name_extension(exts, pos - first),
        decreases last - pos,
    {
        let ext_type: usize = read_u16(body, pos);
        let ext_len: usize = read_u16(body, pos + 2);
        let ext_start: usize = pos + 4;
        if last - ext_start < ext_len {
            return None;
        }
        let ext_end: usize = ext_start + ext_len;
        if ext_type == 0 {
            let ext = slice_subrange(body, ext_start, ext_end);
            return match sni_name_range_in_ext(ext) {
                Some((s, e)) => {
                    proof {
                        lemma_host_name_range_bounds(ext@);
                    }
                    Some((9 + ext_start + s, 9 + ext_start + e))
                },
                None => None,
            };
        }
        pos = ext_end;
    }
    None
}

/// Returns where the extensions of a ClientHello body start and end.
fn find_extensions(body: &[u8]) -> (found: Option<(usize, usize)>)
    ensures
        same_range(found, extensions_range(body@)),
{
    let session_end: usize = match find_vec8_end(body, 34) {
        Some(end) => end,
        None => return None,
    };
    let ciphers_end: usize = match find_vec16_end(body, session_end) {
        Some(end) => end,
        None => return None,
    };
    let methods_end: usize = match find_vec8_end(body, ciphers_end) {
        Some(end) => end,
        None => return None,
    };
    match find_vec16_end(body, methods_end) {
        Some(end) => Some((methods_end + 2, end)),
        None => None,
    }
}

/// Returns where the vector at `i` ends whose length is stated in one byte.
fn find_vec8_end(s: &[u8], i: usize) -> (end: Option<usize>)
    ensures
        match end {
            Some(n) => vec8_end(s@, i as int) == Some(n as int),
            None => vec8_end(s@, i as int) is None,
        },
{
    if i >= s.len() {
        return None;
    }
    let len: usize = s[i] as usize;
    if s.len() - i - 1 < len {
        None
    } else {
        Some(i + 1 + len)
    }
}

/// Returns where the vector at `i` ends whose length is stated in two bytes.
fn find_vec16_end(s: &[u8], i: usize) -> (end: Option<usize>)
    ensures
        match end {
            Some(n) => vec16_end(s@, i as int) == Some(n as int),
            None => vec16_end(s@, i as int) is None,
        },
{
    if s.len() < 2 || s.len() - 2 < i {
        return None;
    }
    let len: usize = read_u16(s, i);
    if s.len() - i - 2 < len {
        None
    } else {
        Some(i + 2 + len)
    }
}

proof fn lemma_host_name_entry_bounds(list: Seq<u8>, pos: int)
    requires
        0 <= pos,
    ensures
        host_name_entry(list, pos) matches Some((s, e)) ==> pos + 3 <= s < e <= list.len(),
    decreases list.len() - pos,
{
    if pos + 3 <= list.len() {
        let end = pos + 3 + be16(list, pos + 1);
        if end <= list.len() {
            lemma_host_name_entry_bounds(list, end);
        }
    }
}

/// A host name that is found inside an extension is not empty and lies inside it.
pub(crate) proof fn lemma_host_name_range_bounds(ext: Seq<u8>)
    ensures
        host_name_range(ext) matches Some((s, e)) ==> 5 <= s < e <= ext.len(),
{
    if let Some(end) = vec16_end(ext, 0) {
        lemma_host_name_entry_bounds(ext.take(end), 2);
    }
}

proof fn lemma_server_name_extension_bounds(exts: Seq<u8>, pos: int)
    requires
        0 <= pos,
    ensures
        server_name_extension(exts, pos) matches Some((s, e)) ==> pos + 4 <= s <= e <= exts.len(),
    decreases exts.len() - pos,
{
    if pos + 4 <= exts.len() {
        let end = pos + 4 + be16(exts, pos + 2);
        if end <= exts.len() {
            lemma_server_name_extension_bounds(exts, end);
        }
    }
}

/// A name that is found is never empty, lies inside the record, behind at least
/// the two headers and the fixed fields, and inside the length that the record
/// header states.
pub proof fn law_sni_range_bounds(record: Seq<u8>)
    ensures
        sni_range(record) matches Some((s, e)) ==> 58 <= s < e <= 5 + be16(record, 3)
            <= record.len(),
{
    if let Some(body) = client_hello_body(record) {
        if let Some((first, last)) = extensions_range(body) {
            let exts = body.subrange(first, last);
            lemma_server_name_extension_bounds(exts, 0);
            if let Some((start, end)) = server_name_extension(exts, 0) {
                lemma_host_name_range_bounds(body.subrange(first + start, first + end));
            }
        }
    }
}

/// What follows a whole record does not change the range that is found in it.
pub proof fn law_sni_range_ignores_what_follows(record: Seq<u8>, rest: Seq<u8>)
    requires
        record.len() >= 5,
        5 + be16(record, 3) <= record.len(),
    ensures
        sni_range(record + rest) == sni_range(record),
{
    let whole = record + rest;
    if let Some(body) = client_hello_body(record) {
        assert(whole.subrange(9, 9 + be24(record, 6)) =~= body);
    }
}

/// The versions that a record states and its random do not matter: in two records
/// that differ in nothing else the same range is found.
pub proof fn law_versions_and_random_do_not_matter(a: Seq<u8>, b: Seq<u8>)
    requires
        a.len() == b.len(),
        forall|i: int|
            #![trigger a[i]]
            0 <= i < a.len() && !(1 <= i < 3) && !(9 <= i < 43) ==> a[i] == b[i],
    ensures
        sni_range(a) == sni_range(b),
{
    if a.len() >= 9 {
        assert(a[0] == b[0] && a[3] == b[3] && a[4] == b[4] && a[5] == b[5]);
        assert(a[6] == b[6] && a[7] == b[7] && a[8] == b[8]);
        if let Some(x) = client_hello_body(a) {
            let y = b.subrange(9, 9 + be24(b, 6));
            assert(client_hello_body(b) == Some(y));
            assert(x.len() == y.len());
            assert forall|i: int| #![trigger x[i]] 34 <= i < x.len() implies x[i] == y[i] by {
                assert(x[i] == a[9 + i]);
            }
            assert(extensions_range(x) == extensions_range(y));
            if let Some((first, last)) = extensions_range(x) {
                let exts = x.subrange(first, last);
                assert(exts =~= y.subrange(first, last));
                lemma_server_name_extension_bounds(exts, 0);
                if let Some((start, end)) = server_name_extension(exts, 0) {
                    assert(x.subrange(first + start, first + end) =~= y.subrange(
                        first + start,
                        first + end,
                    ));
                }
            }
        }
    }
}

} // verus!
