//! Cutting a ClientHello record into pieces around the server's host name.
//!
//! A filter that looks at one TCP segment at a time does not see a host name
//! whose bytes are spread over several segments.

use crate::sni::{find_sni_range, law_sni_range_bounds, sni_range};
use vstd::prelude::*;
use vstd::slice::{slice_subrange, slice_to_vec};

verus! {

/// How a ClientHello is cut, and how long to wait between its pieces.
#[derive(Debug)]
pub struct FragmentConfig {
    /// Bytes per piece of the host name. `0` sends the whole name in one piece,
    /// still apart from the bytes around it. Default: `3`.
    pub sni_chunk: usize,
    /// Milliseconds to wait between two pieces. Default: `0`.
    pub delay_ms: u64,
}

/// Bytes per piece of the host name where a configuration does not say.
pub fn default_sni_chunk() -> (n: usize)
    ensures
        n == 3,
{
    3
}

impl Clone for FragmentConfig {
    fn clone(&self) -> (cfg: Self)
        ensures
            cfg == *self,
    {
        FragmentConfig { sni_chunk: self.sni_chunk, delay_ms: self.delay_ms }
    }
}

impl Default for FragmentConfig {
    fn default() -> (cfg: Self)
        ensures
            cfg == (FragmentConfig { sni_chunk: 3, delay_ms: 0 }),
    {
        FragmentConfig { sni_chunk: default_sni_chunk(), delay_ms: 0 }
    }
}

/// `s` cut into pieces of `n` bytes, the last of which may be shorter; one
/// single piece if `n` is 0.
pub open spec fn chunks(s: Seq<u8>, n: nat) -> Seq<Seq<u8>>
    decreases s.len(),
{
    if s.len() == 0 {
        Seq::empty()
    } else if n == 0 || s.len() <= n {
        seq![s]
    } else {
        seq![s.take(n as int)] + chunks(s.skip(n as int), n)
    }
}

/// What stands in `record` at or behind `from`, as one piece if it is not empty.
pub open spec fn tail_piece(record: Seq<u8>, from: int) -> Seq<Seq<u8>> {
    if from < record.len() {
        seq![record.skip(from)]
    } else {
        Seq::empty()
    }
}

/// The pieces of `record`: what stands in front of the host name, the chunks of
/// the host name, and what stands behind it, if anything does. A record in which
/// no host name is found is one piece, even if it is empty.
pub open spec fn pieces(record: Seq<u8>, sni_chunk: nat) -> Seq<Seq<u8>> {
    match sni_range(record) {
        Some((s, e)) => seq![record.take(s)] + chunks(record.subrange(s, e), sni_chunk)
            + tail_piece(record, e),
        None => seq![record],
    }
}

/// The contents of each of `vecs`.
pub open spec fn contents(vecs: Seq<Vec<u8>>) -> Seq<Seq<u8>> {
    vecs.map_values(|v: Vec<u8>| v@)
}

/// Cuts a ClientHello record around the server's host name.
///
/// Joined again, the pieces are `record`, byte for byte. If no host name is
/// found, the only piece is `record` itself, even if that is empty.
pub fn split_client_hello(record: &[u8], sni_chunk: usize) -> (out: Vec<Vec<u8>>)
    ensures
        contents(out@) == pieces(record@, sni_chunk as nat),
        contents(out@).flatten() == record@,
{
    proof {
        law_sni_range_bounds(record@);
        law_pieces_join(record@, sni_chunk as nat);
    }
    let mut out: Vec<Vec<u8>> = Vec::new();
    let (s, e): (usize, usize) = match find_sni_range(record) {
        Some(range) => range,
        None => {
            out.push(slice_to_vec(record));
            assert(contents(out@) =~= seq![record@]);
            return out;
        },
    };
    out.push(slice_to_vec(slice_subrange(record, 0, s)));
    let ghost name = record@.subrange(s as int, e as int);
    assert(contents(out@) =~= seq![record@.take(s as int)]);
    let mut i: usize = s;
    while i < e
        invariant
            s <= i <= e <= record@.len(),
            seq![record@.take(s as int)] + chunks(name, sni_chunk as nat) == contents(out@)
                + chunks(record@.subrange(i as int, e as int), sni_chunk as nat),
        decreases e - i,
    {
        let j: usize = if sni_chunk == 0 || e - i <= sni_chunk {
            e
        } else {
            i + sni_chunk
        };
        let ghost before = contents(out@);
        let ghost rest = record@.subrange(i as int, e as int);
        let piece = slice_to_vec(slice_subrange(record, i, j));
        proof {
            if j == e {
                assert(chunks(record@.subrange(e as int, e as int), sni_chunk as nat)
                    =~= Seq::empty());
            } else {
                assert(rest.take(sni_chunk as int) =~= piece@);
                assert(rest.skip(sni_chunk as int) =~= record@.subrange(j as int, e as int));
            }
        }
        out.push(piece);
        assert(contents(out@) =~= before.push(piece@));
        assert(before.push(piece@) + chunks(record@.subrange(j as int, e as int), sni_chunk as nat)
            =~= before + chunks(rest, sni_chunk as nat));
        i = j;
    }
    assert(chunks(record@.subrange(e as int, e as int), sni_chunk as nat) =~= Seq::empty());
    assert(contents(out@) =~= seq![record@.take(s as int)] + chunks(name, sni_chunk as nat));
    if e < record.len() {
        let ghost before = contents(out@);
        let last = slice_to_vec(slice_subrange(record, e, record.len()));
        assert(last@ =~= record@.skip(e as int));
        out.push(last);
        assert(contents(out@) =~= before.push(last@));
    }
    assert(contents(out@) =~= pieces(record@, sni_chunk as nat));
    out
}

/// Chunks, joined again, are what was cut.
pub proof fn law_chunks_join(s: Seq<u8>, n: nat)
    ensures
        chunks(s, n).flatten() == s,
    decreases s.len(),
{
    if s.len() == 0 {
        assert(chunks(s, n).flatten() =~= s);
    } else if n == 0 || s.len() <= n {
        seq![s].lemma_flatten_one_element();
    } else {
        let rest = chunks(s.skip(n as int), n);
        law_chunks_join(s.skip(n as int), n);
        lemma_flatten_concat(seq![s.take(n as int)], rest);
        seq![s.take(n as int)].lemma_flatten_one_element();
        assert(s.take(n as int) + s.skip(n as int) =~= s);
    }
}

/// Two lists of pieces, one behind the other, join to what each joins to.
pub(crate) proof fn lemma_flatten_concat(a: Seq<Seq<u8>>, b: Seq<Seq<u8>>)
    ensures
        (a + b).flatten() == a.flatten() + b.flatten(),
    decreases a.len(),
{
    if a.len() == 0 {
        assert(a + b =~= b);
        assert(a.flatten() =~= Seq::empty());
    } else {
        assert((a + b).drop_first() =~= a.drop_first() + b);
        lemma_flatten_concat(a.drop_first(), b);
        assert((a + b).flatten() =~= a.flatten() + b.flatten());
    }
}

/// The pieces of every record, joined again, are that record, whatever the
/// chunk size.
pub proof fn law_pieces_join(record: Seq<u8>, sni_chunk: nat)
    ensures
        pieces(record, sni_chunk).flatten() == record,
{
    match sni_range(record) {
        Some((s, e)) => {
            law_sni_range_bounds(record);
            let head = seq![record.take(s)];
            let name = chunks(record.subrange(s, e), sni_chunk);
            let tail = tail_piece(record, e);
            lemma_flatten_concat(head + name, tail);
            lemma_flatten_concat(head, name);
            head.lemma_flatten_one_element();
            law_chunks_join(record.subrange(s, e), sni_chunk);
            if e < record.len() {
                tail.lemma_flatten_one_element();
            } else {
                assert(tail.flatten() =~= Seq::empty());
            }
            assert(record.take(s) + record.subrange(s, e) + tail.flatten() =~= record);
        },
        None => {
            seq![record].lemma_flatten_one_element();
        },
    }
}

/// Where no host name is found, the only piece is the record itself.
pub proof fn law_without_a_name_the_record_is_whole(record: Seq<u8>, sni_chunk: nat)
    requires
        sni_range(record) is None,
    ensures
        pieces(record, sni_chunk) == seq![record],
{
}

/// Cut by `n` bytes, every chunk but the last has `n` of them, the last has at
/// least one and at most `n`, and the chunk at index `i` starts at `i * n`.
pub proof fn law_chunks_layout(s: Seq<u8>, n: nat, i: int)
    requires
        n > 0,
        0 <= i < chunks(s, n).len(),
    ensures
        i + 1 < chunks(s, n).len() ==> chunks(s, n)[i].len() == n,
        1 <= chunks(s, n)[i].len() <= n,
        0 <= i * n,
        i * n + chunks(s, n)[i].len() <= s.len(),
        chunks(s, n)[i] == s.subrange(i * n, i * n + chunks(s, n)[i].len()),
    decreases s.len(),
{
    if s.len() <= n {
        assert(i == 0);
        assert(i * n == 0) by (nonlinear_arith)
            requires
                i == 0,
        ;
        assert(s.subrange(0, s.len() as int) =~= s);
    } else {
        let rest = s.skip(n as int);
        assert(chunks(rest, n).len() > 0);
        if i == 0 {
            assert(i * n == 0) by (nonlinear_arith)
                requires
                    i == 0,
            ;
            assert(s.subrange(0, n as int) =~= s.take(n as int));
        } else {
            law_chunks_layout(rest, n, i - 1);
            let chunk = chunks(rest, n)[i - 1];
            assert(chunks(s, n)[i] == chunk);
            assert((i - 1) * n + n == i * n) by (nonlinear_arith);
            assert(s.subrange(i * n, i * n + chunk.len()) =~= rest.subrange(
                (i - 1) * n,
                (i - 1) * n + chunk.len(),
            ));
        }
    }
}

/// No piece of a record that is not empty is empty.
pub proof fn law_pieces_not_empty(record: Seq<u8>, sni_chunk: nat)
    requires
        record.len() > 0,
    ensures
        forall|i: int|
            #![trigger pieces(record, sni_chunk)[i]]
            0 <= i < pieces(record, sni_chunk).len() ==> pieces(record, sni_chunk)[i].len() > 0,
{
    if let Some((s, e)) = sni_range(record) {
        law_sni_range_bounds(record);
        let name = record.subrange(s, e);
        assert forall|i: int|
            #![trigger pieces(record, sni_chunk)[i]]
            0 <= i < pieces(record, sni_chunk).len() implies pieces(record, sni_chunk)[i].len()
            > 0 by {
            if 1 <= i <= chunks(name, sni_chunk).len() {
                assert(pieces(record, sni_chunk)[i] == chunks(name, sni_chunk)[i - 1]);
                if sni_chunk > 0 {
                    law_chunks_layout(name, sni_chunk, i - 1);
                }
            }
        }
    }
}

/// Where a host name is found, no piece holds bytes both of the name and of what
/// is around it: the first piece ends where the name starts, then come the
/// chunks of the name alone, and what is left starts where the name ends.
pub proof fn law_pieces_isolate_the_name(record: Seq<u8>, sni_chunk: nat, s: int, e: int)
    requires
        sni_range(record) == Some((s, e)),
    ensures
        ({
            let all = pieces(record, sni_chunk);
            let name = chunks(record.subrange(s, e), sni_chunk);
            &&& all.len() >= 1 + name.len()
            &&& all[0] == record.take(s)
            &&& all.subrange(1, 1 + name.len() as int) == name
            &&& all.skip(1 + name.len() as int) == tail_piece(record, e)
        }),
{
    law_sni_range_bounds(record);
    let all = pieces(record, sni_chunk);
    let name = chunks(record.subrange(s, e), sni_chunk);
    assert(all.subrange(1, 1 + name.len() as int) =~= name);
    assert(all.skip(1 + name.len() as int) =~= tail_piece(record, e));
}

/// With a chunk size of 0 the whole host name is one piece, and the piece is
/// nothing else.
pub proof fn law_chunk_zero_keeps_the_name_whole(record: Seq<u8>, s: int, e: int)
    requires
        sni_range(record) == Some((s, e)),
    ensures
        chunks(record.subrange(s, e), 0) == seq![record.subrange(s, e)],
        pieces(record, 0)[1] == record.subrange(s, e),
{
    law_sni_range_bounds(record);
}

/// A chunk size above 0 and below the length of the host name breaks the name
/// up: it comes in two pieces at least, and each is shorter than the name.
pub proof fn law_small_chunks_break_the_name_up(record: Seq<u8>, sni_chunk: nat, s: int, e: int)
    requires
        sni_range(record) == Some((s, e)),
        0 < sni_chunk < e - s,
    ensures
        chunks(record.subrange(s, e), sni_chunk).len() >= 2,
        forall|i: int|
            #![trigger chunks(record.subrange(s, e), sni_chunk)[i]]
            0 <= i < chunks(record.subrange(s, e), sni_chunk).len() ==> chunks(
                record.subrange(s, e),
                sni_chunk,
            )[i].len() <= sni_chunk,
{
    law_sni_range_bounds(record);
    let name = record.subrange(s, e);
    let rest = name.skip(sni_chunk as int);
    assert(chunks(rest, sni_chunk).len() > 0);
    assert forall|i: int|
        #![trigger chunks(name, sni_chunk)[i]]
        0 <= i < chunks(name, sni_chunk).len() implies chunks(name, sni_chunk)[i].len()
        <= sni_chunk by {
        law_chunks_layout(name, sni_chunk, i);
    }
}

/// How many chunks there are, and how long the last one is.
proof fn lemma_chunks_count(s: Seq<u8>, n: nat)
    requires
        n > 0,
        s.len() > 0,
    ensures
        ({
            let k = chunks(s, n).len();
            &&& k > 0
            &&& (k - 1) * n < s.len() <= k * n
            &&& (k - 1) * n + chunks(s, n)[k - 1].len() == s.len()
        }),
    decreases s.len(),
{
    let k = chunks(s, n).len();
    if s.len() <= n {
        assert(k == 1);
        assert(0 * n == 0 && 1 * n == n) by (nonlinear_arith);
    } else {
        let rest = s.skip(n as int);
        lemma_chunks_count(rest, n);
        assert(chunks(s, n)[k - 1] == chunks(rest, n)[k - 2]);
        assert((k - 1) * n == (k - 2) * n + n) by (nonlinear_arith);
        assert(k * n == (k - 1) * n + n) by (nonlinear_arith);
    }
}

/// What every chunk is, by its index.
proof fn lemma_chunk_at(s: Seq<u8>, n: nat, i: int)
    requires
        n > 0,
        0 <= i < chunks(s, n).len(),
    ensures
        0 <= i * n <= s.len(),
        chunks(s, n)[i] == s.subrange(
            i * n,
            if i * n + n < s.len() {
                i * n + n
            } else {
                s.len() as int
            },
        ),
{
    let k = chunks(s, n).len();
    law_chunks_layout(s, n, i);
    lemma_chunks_count(s, n);
    if i + 1 < k {
        assert(i * n + n <= (k - 1) * n) by (nonlinear_arith)
            requires
                i + 1 <= k - 1,
                n > 0,
        ;
    } else {
        assert((k - 1) * n + n == k * n) by (nonlinear_arith);
    }
}

/// What `split_client_hello` returns. Where no host name is found, the record is the
/// only piece. Otherwise the first piece is what stands in front of the name, and
/// the last is what stands behind it, if anything does.
pub proof fn law_split_around_the_name(record: &[u8], sni_chunk: usize, out: Vec<Vec<u8>>)
    requires
        call_ensures(split_client_hello, (record, sni_chunk), out),
    ensures
        sni_range(record@) is None ==> out@.len() == 1 && out@[0]@ == record@,
        sni_range(record@) matches Some((s, e)) ==> {
            &&& out@.len() >= 2
            &&& out@[0]@ == record@.take(s)
            &&& e < record@.len() ==> out@.len() >= 3 && out@.last()@ == record@.skip(e)
        },
{
    let all = contents(out@);
    assert(all.len() == out@.len());
    assert forall|i: int| 0 <= i < out@.len() implies #[trigger] out@[i]@ == all[i] by {}
    if let Some((s, e)) = sni_range(record@) {
        law_sni_range_bounds(record@);
        let cut = chunks(record@.subrange(s, e), sni_chunk as nat);
        law_pieces_isolate_the_name(record@, sni_chunk as nat, s, e);
        assert(cut.len() > 0);
        if e < record@.len() {
            assert(all.skip(1 + cut.len() as int)[0] == all[1 + cut.len() as int]);
        }
    }
}

/// With an `sni_chunk` of 0, the second piece is the whole name, and there is none
/// besides the three.
pub proof fn law_split_keeps_the_name_whole(record: &[u8], out: Vec<Vec<u8>>)
    requires
        call_ensures(split_client_hello, (record, 0usize), out),
    ensures
        sni_range(record@) matches Some((s, e)) ==> {
            &&& out@[1]@ == record@.subrange(s, e)
            &&& out@.len() == if e < record@.len() {
                3int
            } else {
                2
            }
        },
{
    let all = contents(out@);
    assert(all.len() == out@.len());
    assert forall|i: int| 0 <= i < out@.len() implies #[trigger] out@[i]@ == all[i] by {}
    if let Some((s, e)) = sni_range(record@) {
        law_chunk_zero_keeps_the_name_whole(record@, s, e);
        law_pieces_isolate_the_name(record@, 0, s, e);
    }
}

/// With an `sni_chunk` above 0, the pieces between the first and what stands behind
/// the name are the name in steps of `sni_chunk` bytes, in order; the last may be
/// shorter.
pub proof fn law_split_cuts_the_name(record: &[u8], sni_chunk: usize, out: Vec<Vec<u8>>)
    requires
        call_ensures(split_client_hello, (record, sni_chunk), out),
        sni_chunk > 0,
    ensures
        sni_range(record@) matches Some((s, e)) ==> {
            let k = if e < record@.len() {
                out@.len() - 2
            } else {
                out@.len() - 1
            };
            &&& (k - 1) * sni_chunk < e - s <= k * sni_chunk
            &&& forall|j: int|
                #![trigger out@[1 + j]]
                0 <= j < k ==> out@[1 + j]@ == record@.subrange(
                    s + j * sni_chunk,
                    if j * sni_chunk + sni_chunk < e - s {
                        s + j * sni_chunk + sni_chunk
                    } else {
                        e
                    },
                )
        },
{
    let all = contents(out@);
    assert(all.len() == out@.len());
    assert forall|i: int| 0 <= i < out@.len() implies #[trigger] out@[i]@ == all[i] by {}
    if let Some((s, e)) = sni_range(record@) {
        law_sni_range_bounds(record@);
        let n = sni_chunk as nat;
        let name = record@.subrange(s, e);
        let k = chunks(name, n).len() as int;
        lemma_chunks_count(name, n);
        law_pieces_isolate_the_name(record@, n, s, e);
        assert(all.len() == 1 + k + tail_piece(record@, e).len());
        assert(k == if e < record@.len() {
            out@.len() - 2
        } else {
            out@.len() - 1
        });
        assert forall|j: int| #![trigger out@[1 + j]] 0 <= j < k implies out@[1 + j]@
            == record@.subrange(
            s + j * sni_chunk,
            if j * sni_chunk + sni_chunk < e - s {
                s + j * sni_chunk + sni_chunk
            } else {
                e
            },
        ) by {
            lemma_chunk_at(name, n, j);
            assert(all.subrange(1, 1 + k)[j] == all[1 + j]);
            let to = if j * n + n < e - s {
                j * n + n
            } else {
                e - s
            };
            assert(name.subrange(j * n, to) =~= record@.subrange(s + j * n, s + to));
        }
    }
}

} // verus!
