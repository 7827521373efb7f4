//! Forwarding the first TLS record of a client in pieces.
//!
//! [`Forwarder`] decides what is to be done next, one action at a time, and is
//! told how each action went. The sockets and the clock are the caller's.

use crate::fragment::{
    contents, law_pieces_join, law_pieces_not_empty, lemma_flatten_concat, pieces,
    split_client_hello, FragmentConfig,
};
use crate::sni::CONTENT_HANDSHAKE;
use crate::wire::{append, be16, read_u16};
use std::collections::VecDeque;
use vstd::prelude::*;
use vstd::slice::slice_to_vec;

verus! {

/// Longest payload that is read as one record: 2^14 bytes of plaintext, and
/// 2048 bytes that a cipher may add.
pub const MAX_TLS_RECORD: usize = 16384 + 2048;

/// Bytes of a TLS record header.
pub const RECORD_HEADER: usize = 5;

/// Seconds that a client has for sending its first record.
pub const READ_TIMEOUT_SECS: u64 = 10;

/// Why forwarding ended without success.
#[derive(Debug, Clone, Copy, PartialEq, Eq, Structural)]
pub enum Failure {
    /// The client did not send its first record in time.
    TimedOut,
    /// An action failed.
    Io,
}

/// What is to be done next.
#[derive(Debug)]
pub enum Action {
    /// Read exactly this many bytes from the client.
    Read(usize),
    /// Ask whether TCP_NODELAY is set on the upstream connection.
    QueryNodelay,
    /// Set TCP_NODELAY on the upstream connection, which makes every write go out
    /// at once.
    DisableNagle,
    /// Wait for this many milliseconds.
    Pause(u64),
    /// Write all of these bytes to the upstream connection.
    Write(Vec<u8>),
    /// Put TCP_NODELAY of the upstream connection back to this.
    RestoreNagle(bool),
    /// The record has been forwarded: nothing more is to be done.
    Finish,
    /// Forwarding has failed: nothing more is to be done.
    Fail(Failure),
}

/// How an action went.
#[derive(Debug)]
pub enum Event {
    /// These bytes were read.
    Read(Vec<u8>),
    /// TCP_NODELAY was set, or was not.
    Nodelay(bool),
    /// The action succeeded, and there was nothing to be read or told.
    Done,
    /// The time for reading ran out.
    TimedOut,
    /// The action failed.
    Failed,
}

/// An action, with the bytes to be written as a sequence.
pub enum Step {
    Read(int),
    QueryNodelay,
    DisableNagle,
    Pause(u64),
    Write(Seq<u8>),
    RestoreNagle(bool),
    Finish,
    Fail(Failure),
}

/// An event, with the bytes that were read as a sequence.
pub enum Report {
    Read(Seq<u8>),
    Nodelay(bool),
    Done,
    TimedOut,
    Failed,
}

/// How far forwarding has come.
pub enum Phase {
    /// The header of the record is being read.
    Header,
    /// This header has been read, and its payload is being read.
    Payload(Seq<u8>),
    /// The record has been read, and these steps will send it. Whether TCP_NODELAY
    /// is set is being asked.
    Asking(Seq<Step>),
    /// TCP_NODELAY is being set. This is what it is put back to.
    Disabling(bool, Seq<Step>),
    /// The record is being sent: these steps follow the one under way. This is
    /// what TCP_NODELAY is put back to.
    Sending(bool, Seq<Step>),
    /// The record has been sent, and TCP_NODELAY is being put back.
    Restoring,
    /// The record could not be sent, and TCP_NODELAY is being put back.
    Undoing(Failure),
    Finished,
    Failed(Failure),
}

impl View for Action {
    type V = Step;

    open spec fn view(&self) -> Step {
        match *self {
            Action::Read(n) => Step::Read(n as int),
            Action::QueryNodelay => Step::QueryNodelay,
            Action::DisableNagle => Step::DisableNagle,
            Action::Pause(ms) => Step::Pause(ms),
            Action::Write(bytes) => Step::Write(bytes@),
            Action::RestoreNagle(nodelay) => Step::RestoreNagle(nodelay),
            Action::Finish => Step::Finish,
            Action::Fail(failure) => Step::Fail(failure),
        }
    }
}

impl View for Event {
    type V = Report;

    open spec fn view(&self) -> Report {
        match *self {
            Event::Read(bytes) => Report::Read(bytes@),
            Event::Nodelay(nodelay) => Report::Nodelay(nodelay),
            Event::Done => Report::Done,
            Event::TimedOut => Report::TimedOut,
            Event::Failed => Report::Failed,
        }
    }
}

/// Each of `actions` as a step.
pub open spec fn steps(actions: Seq<Action>) -> Seq<Step> {
    actions.map_values(|a: Action| a@)
}

/// How many bytes of payload are read behind the header `hdr`. `None` where the
/// header does not start a handshake record, or states a length that a record
/// cannot have: then the header alone is forwarded.
pub open spec fn payload_len(hdr: Seq<u8>) -> Option<int> {
    if hdr[0] == CONTENT_HANDSHAKE && 0 < be16(hdr, 3) <= MAX_TLS_RECORD {
        Some(be16(hdr, 3))
    } else {
        None
    }
}

/// The writes of `pieces` in order, with a pause of `delay_ms` between each and
/// the next if that is not 0.
pub open spec fn sends(pieces: Seq<Seq<u8>>, delay_ms: u64) -> Seq<Step>
    decreases pieces.len(),
{
    if pieces.len() == 0 {
        Seq::empty()
    } else if pieces.len() == 1 || delay_ms == 0 {
        sends(pieces.drop_last(), delay_ms).push(Step::Write(pieces.last()))
    } else {
        sends(pieces.drop_last(), delay_ms).push(Step::Pause(delay_ms)).push(
            Step::Write(pieces.last()),
        )
    }
}

/// Those of `pieces` that are not empty, in order.
pub open spec fn non_empty(pieces: Seq<Seq<u8>>) -> Seq<Seq<u8>>
    decreases pieces.len(),
{
    if pieces.len() == 0 {
        Seq::empty()
    } else if pieces.last().len() == 0 {
        non_empty(pieces.drop_last())
    } else {
        non_empty(pieces.drop_last()).push(pieces.last())
    }
}

/// The writes of `record`, piece by piece, and the pauses between them.
pub open spec fn script(record: Seq<u8>, cfg: FragmentConfig) -> Seq<Step> {
    sends(non_empty(pieces(record, cfg.sni_chunk as nat)), cfg.delay_ms)
}

/// The record that `script` sends has been read. Before anything is sent, it is
/// asked whether TCP_NODELAY is set, so that it can be put back.
pub open spec fn begin(script: Seq<Step>) -> (Phase, Step) {
    (Phase::Asking(script), Step::QueryNodelay)
}

/// The first of the steps `left`. Where none is left, TCP_NODELAY is put back to
/// `nodelay`.
pub open spec fn proceed(nodelay: bool, left: Seq<Step>) -> (Phase, Step) {
    if left.len() == 0 {
        (Phase::Restoring, Step::RestoreNagle(nodelay))
    } else {
        (Phase::Sending(nodelay, left.skip(1)), left[0])
    }
}

/// What TCP_NODELAY is put back to when `report` answers whether it is set. Where
/// that could not be told, it counts as not set.
pub open spec fn nodelay_told(report: Report) -> bool {
    match report {
        Report::Nodelay(nodelay) => nodelay,
        _ => false,
    }
}

/// What follows when the action under way in `phase` went as `report` says.
pub open spec fn transition(phase: Phase, cfg: FragmentConfig, report: Report) -> (Phase, Step) {
    match phase {
        Phase::Header => match report {
            Report::Read(hdr) if hdr.len() == RECORD_HEADER => match payload_len(hdr) {
                Some(n) => (Phase::Payload(hdr), Step::Read(n)),
                None => begin(script(hdr, cfg)),
            },
            Report::TimedOut => failed(Failure::TimedOut),
            _ => failed(Failure::Io),
        },
        Phase::Payload(hdr) => match report {
            Report::Read(payload) if payload_len(hdr) == Some(payload.len() as int) => begin(
                script(hdr + payload, cfg),
            ),
            Report::TimedOut => failed(Failure::TimedOut),
            _ => failed(Failure::Io),
        },
        Phase::Asking(left) => (
            Phase::Disabling(nodelay_told(report), left),
            Step::DisableNagle,
        ),
        Phase::Disabling(nodelay, left) => match report {
            Report::Done => proceed(nodelay, left),
            _ => failed(Failure::Io),
        },
        Phase::Sending(nodelay, left) => match report {
            Report::Done => proceed(nodelay, left),
            _ => (Phase::Undoing(Failure::Io), Step::RestoreNagle(nodelay)),
        },
        // Putting TCP_NODELAY back may fail.
        Phase::Restoring => (Phase::Finished, Step::Finish),
        Phase::Undoing(failure) => failed(failure),
        Phase::Finished => (Phase::Finished, Step::Finish),
        Phase::Failed(failure) => failed(failure),
    }
}

/// Forwarding has ended with `failure`.
pub open spec fn failed(failure: Failure) -> (Phase, Step) {
    (Phase::Failed(failure), Step::Fail(failure))
}

/// How far forwarding has come, with what is still needed of it.
enum State {
    Header,
    Payload([u8; 5]),
    Asking(VecDeque<Action>),
    Disabling(bool, VecDeque<Action>),
    Sending(bool, VecDeque<Action>),
    Restoring,
    Undoing(Failure),
    Finished,
    Failed(Failure),
}

impl State {
    spec fn phase(self) -> Phase {
        match self {
            State::Header => Phase::Header,
            State::Payload(hdr) => Phase::Payload(hdr@),
            State::Asking(left) => Phase::Asking(steps(left@)),
            State::Disabling(nodelay, left) => Phase::Disabling(nodelay, steps(left@)),
            State::Sending(nodelay, left) => Phase::Sending(nodelay, steps(left@)),
            State::Restoring => Phase::Restoring,
            State::Undoing(failure) => Phase::Undoing(failure),
            State::Finished => Phase::Finished,
            State::Failed(failure) => Phase::Failed(failure),
        }
    }
}

/// The forwarding of one client's first record.
pub struct Forwarder {
    cfg: FragmentConfig,
    state: State,
}

impl Forwarder {
    /// How far forwarding has come.
    pub closed spec fn phase(self) -> Phase {
        self.state.phase()
    }

    /// How the record is cut and sent.
    pub closed spec fn config(self) -> FragmentConfig {
        self.cfg
    }

    /// Starts forwarding. The header of the record is what is to be read first.
    pub fn new(cfg: FragmentConfig) -> (r: (Forwarder, Action))
        ensures
            r.0.phase() == Phase::Header,
            r.0.config() == cfg,
            r.1@ == Step::Read(RECORD_HEADER as int),
    {
        (Forwarder { cfg, state: State::Header }, Action::Read(RECORD_HEADER))
    }

    /// Takes note of how the action under way went, and says what is to be done
    /// next.
    ///
    /// A record that does not start a handshake, or states a length that is out
    /// of range, is not read any further: its header is forwarded as it is.
    ///
    /// Once TCP_NODELAY has been set, it is put back before forwarding ends, with
    /// success or without. Where it could not be told whether it was set before, it
    /// is cleared.
    ///
    /// Every failure makes forwarding fail, except one to tell whether TCP_NODELAY
    /// is set, and one to put it back.
    pub fn next(&mut self, event: Event) -> (action: Action)
        ensures
            (final(self).phase(), action@) == transition(
                old(self).phase(),
                old(self).config(),
                event@,
            ),
            final(self).config() == old(self).config(),
    {
        let mut state = State::Finished;
        std::mem::swap(&mut self.state, &mut state);
        let (state, action) = match state {
            State::Header => on_header(event, &self.cfg),
            State::Payload(hdr) => on_payload(hdr, event, &self.cfg),
            State::Asking(left) => {
                let nodelay: bool = match event {
                    Event::Nodelay(nodelay) => nodelay,
                    _ => false,
                };
                (State::Disabling(nodelay, left), Action::DisableNagle)
            },
            State::Disabling(nodelay, left) => match event {
                Event::Done => take_next(nodelay, left),
                _ => stop(Failure::Io),
            },
            State::Sending(nodelay, left) => match event {
                Event::Done => take_next(nodelay, left),
                _ => (State::Undoing(Failure::Io), Action::RestoreNagle(nodelay)),
            },
            State::Restoring => (State::Finished, Action::Finish),
            State::Undoing(failure) => stop(failure),
            State::Finished => (State::Finished, Action::Finish),
            State::Failed(failure) => stop(failure),
        };
        self.state = state;
        action
    }
}

/// How many bytes of payload are to be read behind `hdr`.
pub fn expected_payload(hdr: &[u8; 5]) -> (n: Option<usize>)
    ensures
        match n {
            Some(n) => payload_len(hdr@) == Some(n as int),
            None => payload_len(hdr@) is None,
        },
{
    if hdr[0] != CONTENT_HANDSHAKE {
        return None;
    }
    let len: usize = read_u16(hdr.as_slice(), 3);
    if len == 0 || len > MAX_TLS_RECORD {
        None
    } else {
        Some(len)
    }
}

/// The actions that send `record`, in order.
pub fn send_script(record: &[u8], cfg: &FragmentConfig) -> (actions: VecDeque<Action>)
    ensures
        steps(actions@) == script(record@, *cfg),
{
    let fragments = split_client_hello(record, cfg.sni_chunk);
    let ghost parts = contents(fragments@);
    let mut actions: VecDeque<Action> = VecDeque::new();
    let mut sent: bool = false;
    let mut i: usize = 0;
    assert(steps(actions@) =~= sends(non_empty(parts.take(0)), cfg.delay_ms));
    while i < fragments.len()
        invariant
            i <= fragments.len(),
            parts == contents(fragments@),
            sent == (non_empty(parts.take(i as int)).len() > 0),
            steps(actions@) == sends(non_empty(parts.take(i as int)), cfg.delay_ms),
        decreases fragments.len() - i,
    {
        let ghost earlier = non_empty(parts.take(i as int));
        let ghost piece = parts[i as int];
        assert(parts.take(i + 1).drop_last() == parts.take(i as int));
        assert(parts.take(i + 1).last() == piece);
        if fragments[i].len() > 0 {
            assert(earlier.push(piece).drop_last() =~= earlier);
            let ghost before = steps(actions@);
            if sent && cfg.delay_ms > 0 {
                actions.push_back(Action::Pause(cfg.delay_ms));
                assert(steps(actions@) =~= before.push(Step::Pause(cfg.delay_ms)));
            }
            let ghost middle = steps(actions@);
            actions.push_back(Action::Write(slice_to_vec(fragments[i].as_slice())));
            assert(steps(actions@) =~= middle.push(Step::Write(piece)));
            assert(steps(actions@) =~= sends(earlier.push(piece), cfg.delay_ms));
            sent = true;
        }
        i += 1;
    }
    assert(parts.take(i as int) == parts);
    actions
}

/// The record has been read: forwards it.
fn start_sending(record: &[u8], cfg: &FragmentConfig) -> (r: (State, Action))
    ensures
        (r.0.phase(), r.1@) == begin(script(record@, *cfg)),
{
    (State::Asking(send_script(record, cfg)), Action::QueryNodelay)
}

/// Takes the first of the actions `left`, or puts TCP_NODELAY back.
fn take_next(nodelay: bool, left: VecDeque<Action>) -> (r: (State, Action))
    ensures
        (r.0.phase(), r.1@) == proceed(nodelay, steps(left@)),
{
    let mut left = left;
    let ghost all = left@;
    match left.pop_front() {
        Some(action) => {
            assert(steps(left@) =~= steps(all).skip(1));
            (State::Sending(nodelay, left), action)
        },
        None => (State::Restoring, Action::RestoreNagle(nodelay)),
    }
}

fn stop(failure: Failure) -> (r: (State, Action))
    ensures
        (r.0.phase(), r.1@) == failed(failure),
{
    (State::Failed(failure), Action::Fail(failure))
}

fn on_header(event: Event, cfg: &FragmentConfig) -> (r: (State, Action))
    ensures
        (r.0.phase(), r.1@) == transition(Phase::Header, *cfg, event@),
{
    match event {
        Event::Read(bytes) => {
            if bytes.len() != RECORD_HEADER {
                return stop(Failure::Io);
            }
            let hdr: [u8; 5] = [bytes[0], bytes[1], bytes[2], bytes[3], bytes[4]];
            assert(hdr@ =~= bytes@);
            match expected_payload(&hdr) {
                Some(n) => (State::Payload(hdr), Action::Read(n)),
                None => start_sending(hdr.as_slice(), cfg),
            }
        },
        Event::TimedOut => stop(Failure::TimedOut),
        _ => stop(Failure::Io),
    }
}

fn on_payload(hdr: [u8; 5], event: Event, cfg: &FragmentConfig) -> (r: (State, Action))
    ensures
        (r.0.phase(), r.1@) == transition(Phase::Payload(hdr@), *cfg, event@),
{
    match event {
        Event::Read(payload) => {
            let complete = match expected_payload(&hdr) {
                Some(n) => n == payload.len(),
                None => false,
            };
            if !complete {
                return stop(Failure::Io);
            }
            let mut record: Vec<u8> = Vec::new();
            append(&mut record, hdr.as_slice());
            append(&mut record, payload.as_slice());
            assert(record@ =~= hdr@ + payload@);
            start_sending(record.as_slice(), cfg)
        },
        Event::TimedOut => stop(Failure::TimedOut),
        _ => stop(Failure::Io),
    }
}

/// What the writes among `steps` put on the wire.
pub open spec fn written(steps: Seq<Step>) -> Seq<u8>
    decreases steps.len(),
{
    if steps.len() == 0 {
        Seq::empty()
    } else {
        match steps.last() {
            Step::Write(bytes) => written(steps.drop_last()) + bytes,
            _ => written(steps.drop_last()),
        }
    }
}

proof fn lemma_written_push(steps: Seq<Step>, step: Step)
    ensures
        written(steps.push(step)) == match step {
            Step::Write(bytes) => written(steps) + bytes,
            _ => written(steps),
        },
{
    assert(steps.push(step).drop_last() =~= steps);
}

proof fn lemma_written_concat(a: Seq<Step>, b: Seq<Step>)
    ensures
        written(a + b) == written(a) + written(b),
    decreases b.len(),
{
    if b.len() == 0 {
        assert(a + b =~= a);
        assert(written(a) + written(b) =~= written(a));
    } else {
        assert((a + b).drop_last() =~= a + b.drop_last());
        lemma_written_concat(a, b.drop_last());
        assert(written(a + b) =~= written(a) + written(b));
    }
}

proof fn lemma_sends_written(parts: Seq<Seq<u8>>, delay_ms: u64)
    ensures
        written(sends(parts, delay_ms)) == parts.flatten(),
    decreases parts.len(),
{
    if parts.len() == 0 {
        assert(parts.flatten() =~= Seq::empty());
    } else {
        let front = parts.drop_last();
        let earlier = sends(front, delay_ms);
        lemma_sends_written(front, delay_ms);
        lemma_written_push(earlier, Step::Pause(delay_ms));
        lemma_written_push(earlier, Step::Write(parts.last()));
        lemma_written_push(earlier.push(Step::Pause(delay_ms)), Step::Write(parts.last()));
        lemma_flatten_concat(front, seq![parts.last()]);
        seq![parts.last()].lemma_flatten_one_element();
        assert(front + seq![parts.last()] =~= parts);
    }
}

proof fn lemma_non_empty_flatten(parts: Seq<Seq<u8>>)
    ensures
        non_empty(parts).flatten() == parts.flatten(),
    decreases parts.len(),
{
    if parts.len() > 0 {
        let front = parts.drop_last();
        let last = seq![parts.last()];
        lemma_non_empty_flatten(front);
        lemma_flatten_concat(front, last);
        lemma_flatten_concat(non_empty(front), last);
        last.lemma_flatten_one_element();
        assert(front + last =~= parts);
        assert(non_empty(front) + last =~= non_empty(front).push(parts.last()));
        assert(non_empty(parts).flatten() =~= parts.flatten());
    }
}

proof fn lemma_non_empty_keeps_all(parts: Seq<Seq<u8>>)
    requires
        forall|i: int| #![trigger parts[i]] 0 <= i < parts.len() ==> parts[i].len() > 0,
    ensures
        non_empty(parts) == parts,
    decreases parts.len(),
{
    if parts.len() > 0 {
        assert(parts.last() == parts[parts.len() - 1]);
        lemma_non_empty_keeps_all(parts.drop_last());
        assert(non_empty(parts) =~= parts);
    }
}

/// Whatever the configuration, what the script of a record writes is that
/// record, byte for byte.
pub proof fn law_script_writes_the_record(record: Seq<u8>, cfg: FragmentConfig)
    ensures
        written(script(record, cfg)) == record,
{
    let parts = pieces(record, cfg.sni_chunk as nat);
    law_pieces_join(record, cfg.sni_chunk as nat);
    lemma_non_empty_flatten(parts);
    lemma_sends_written(non_empty(parts), cfg.delay_ms);
}

/// Every piece of a record is written. Only of the record without a byte, which is
/// one piece without a byte, nothing is.
pub proof fn law_every_piece_is_written(record: Seq<u8>, cfg: FragmentConfig)
    ensures
        record.len() > 0 ==> script(record, cfg) == sends(
            pieces(record, cfg.sni_chunk as nat),
            cfg.delay_ms,
        ),
        record.len() == 0 ==> script(record, cfg) == Seq::<Step>::empty(),
{
    let parts = pieces(record, cfg.sni_chunk as nat);
    if record.len() > 0 {
        law_pieces_not_empty(record, cfg.sni_chunk as nat);
        lemma_non_empty_keeps_all(parts);
    } else {
        assert(parts == seq![record]);
        assert(non_empty(parts.drop_last()) =~= Seq::empty());
        assert(non_empty(parts) =~= Seq::empty());
    }
}

/// All of `steps` are writes and pauses.
spec fn only_sends(steps: Seq<Step>) -> bool {
    forall|i: int|
        #![trigger steps[i]]
        0 <= i < steps.len() ==> steps[i] is Write || steps[i] is Pause
}

proof fn lemma_sends_only_send(parts: Seq<Seq<u8>>, delay_ms: u64)
    ensures
        only_sends(sends(parts, delay_ms)),
    decreases parts.len(),
{
    if parts.len() > 0 {
        lemma_sends_only_send(parts.drop_last(), delay_ms);
    }
}

/// Without a delay the writes follow each other directly; with one, a write and
/// a pause take turns, and it is a write that comes first and last.
pub proof fn law_pauses_stand_between_writes(parts: Seq<Seq<u8>>, delay_ms: u64)
    ensures
        delay_ms == 0 ==> {
            &&& sends(parts, delay_ms).len() == parts.len()
            &&& forall|i: int|
                #![trigger parts[i]]
                0 <= i < parts.len() ==> sends(parts, delay_ms)[i] == Step::Write(parts[i])
        },
        delay_ms > 0 && parts.len() > 0 ==> {
            &&& sends(parts, delay_ms).len() == 2 * parts.len() - 1
            &&& forall|i: int|
                #![trigger sends(parts, delay_ms)[i]]
                0 <= i < sends(parts, delay_ms).len() ==> sends(parts, delay_ms)[i] == if i % 2
                    == 0 {
                    Step::Write(parts[i / 2])
                } else {
                    Step::Pause(delay_ms)
                }
        },
    decreases parts.len(),
{
    if parts.len() > 0 {
        let front = parts.drop_last();
        law_pauses_stand_between_writes(front, delay_ms);
        assert(forall|i: int| #![trigger parts[i]] 0 <= i < front.len() ==> parts[i] == front[i]);
        if delay_ms > 0 && front.len() > 0 {
            let all = sends(parts, delay_ms);
            let earlier = sends(front, delay_ms);
            assert forall|i: int| #![trigger all[i]] 0 <= i < all.len() implies all[i] == if i % 2
                == 0 {
                Step::Write(parts[i / 2])
            } else {
                Step::Pause(delay_ms)
            } by {
                if i < earlier.len() {
                    assert(all[i] == earlier[i]);
                }
            }
        }
    }
}

/// The steps that are taken from `phase` on if the actions go as `reports` say, the
/// one under way in `phase` first.
pub open spec fn run(phase: Phase, cfg: FragmentConfig, reports: Seq<Report>) -> Seq<Step>
    decreases reports.len(),
{
    if reports.len() == 0 {
        Seq::empty()
    } else {
        let (next, step) = transition(phase, cfg, reports[0]);
        seq![step] + run(next, cfg, reports.skip(1))
    }
}

proof fn lemma_run_starts(phase: Phase, cfg: FragmentConfig, reports: Seq<Report>)
    requires
        reports.len() > 0,
    ensures
        ({
            let (next, step) = transition(phase, cfg, reports[0]);
            &&& run(phase, cfg, reports)[0] == step
            &&& run(phase, cfg, reports).skip(1) == run(next, cfg, reports.skip(1))
        }),
{
    let (next, step) = transition(phase, cfg, reports[0]);
    assert(run(phase, cfg, reports).skip(1) =~= run(next, cfg, reports.skip(1)));
}

proof fn lemma_run_len(phase: Phase, cfg: FragmentConfig, reports: Seq<Report>)
    ensures
        run(phase, cfg, reports).len() == reports.len(),
    decreases reports.len(),
{
    if reports.len() > 0 {
        lemma_run_len(transition(phase, cfg, reports[0]).0, cfg, reports.skip(1));
    }
}

/// Forwarding that has ended stays as it ended, whatever is reported.
pub proof fn law_the_end_is_final(phase: Phase, cfg: FragmentConfig, reports: Seq<Report>, i: int)
    requires
        phase is Finished || phase is Failed,
        0 <= i < reports.len(),
    ensures
        run(phase, cfg, reports)[i] == match phase {
            Phase::Failed(failure) => Step::Fail(failure),
            _ => Step::Finish,
        },
    decreases i,
{
    lemma_run_starts(phase, cfg, reports);
    lemma_run_len(phase, cfg, reports);
    if i > 0 {
        law_the_end_is_final(phase, cfg, reports.skip(1), i - 1);
        assert(run(phase, cfg, reports)[i] == run(phase, cfg, reports).skip(1)[i - 1]);
    }
}

/// How a run ends in which `steps` are taken on `reports`, with the steps `left` to
/// be taken: after `n` of them TCP_NODELAY is put back to `nodelay`, and then
/// forwarding ends for good. It ends with success if every one of the actions
/// succeeded, and without if the last of them failed.
pub open spec fn restores(
    steps: Seq<Step>,
    reports: Seq<Report>,
    nodelay: bool,
    left: Seq<Step>,
    n: int,
) -> bool {
    &&& 0 <= n <= left.len()
    &&& n + 1 < steps.len() == reports.len()
    &&& steps.take(n) == left.take(n)
    &&& forall|i: int| #![trigger reports[i]] 0 <= i < n ==> reports[i] == Report::Done
    &&& n < left.len() ==> reports[n] != Report::Done
    &&& steps[n] == Step::RestoreNagle(nodelay)
    &&& steps[n + 1] == if reports[n] == Report::Done {
        Step::Finish
    } else {
        Step::Fail(Failure::Io)
    }
    &&& forall|i: int| #![trigger steps[i]] n + 1 < i < steps.len() ==> steps[i] == steps[n + 1]
}

proof fn lemma_sending_restores(
    nodelay: bool,
    left: Seq<Step>,
    cfg: FragmentConfig,
    reports: Seq<Report>,
) -> (n: int)
    requires
        reports.len() >= left.len() + 2,
    ensures
        restores(run(Phase::Sending(nodelay, left), cfg, reports), reports, nodelay, left, n),
    decreases left.len(),
{
    let phase = Phase::Sending(nodelay, left);
    let all = run(phase, cfg, reports);
    let rest = reports.skip(1);
    lemma_run_starts(phase, cfg, reports);
    lemma_run_len(phase, cfg, reports);
    if reports[0] == Report::Done && left.len() > 0 {
        let later = run(Phase::Sending(nodelay, left.skip(1)), cfg, rest);
        let m = lemma_sending_restores(nodelay, left.skip(1), cfg, rest);
        assert(all.skip(1) == later);
        assert forall|i: int| #![trigger all[i]] 1 <= i < all.len() implies all[i] == later[i
            - 1] by {
            assert(all[i] == all.skip(1)[i - 1]);
        }
        assert forall|i: int| #![trigger reports[i]] 0 <= i < m + 1 implies reports[i]
            == Report::Done by {
            if i > 0 {
                assert(reports[i] == rest[i - 1]);
            }
        }
        assert forall|i: int| #![trigger all[i]] 0 <= i < m + 1 implies all[i] == left[i] by {
            if i > 0 {
                assert(later.take(m)[i - 1] == left.skip(1).take(m)[i - 1]);
            }
        }
        assert(all.take(m + 1) =~= left.take(m + 1));
        assert(reports[m + 1] == rest[m]);
        m + 1
    } else {
        let ending = transition(phase, cfg, reports[0]).0;
        let ended = transition(ending, cfg, rest[0]).0;
        lemma_run_starts(ending, cfg, rest);
        assert(all[1] == all.skip(1)[0]);
        assert forall|i: int| #![trigger all[i]] 1 < i < all.len() implies all[i] == all[1] by {
            law_the_end_is_final(ended, cfg, rest.skip(1), i - 2);
            assert(all[i] == all.skip(1).skip(1)[i - 2]);
        }
        assert(all.take(0) =~= left.take(0));
        0
    }
}

/// Once TCP_NODELAY has been set, every run puts it back to what it was and then
/// ends, whatever fails: `n` of the steps that send the record are taken, in order
/// and each of them once, and all of them unless one fails.
pub proof fn law_every_run_restores_nodelay(
    nodelay: bool,
    left: Seq<Step>,
    cfg: FragmentConfig,
    reports: Seq<Report>,
) -> (n: int)
    requires
        reports.len() >= left.len() + 2,
        reports[0] == Report::Done,
    ensures
        restores(run(Phase::Disabling(nodelay, left), cfg, reports), reports, nodelay, left, n),
{
    assert(run(Phase::Disabling(nodelay, left), cfg, reports) == run(
        Phase::Sending(nodelay, left),
        cfg,
        reports,
    ));
    lemma_sending_restores(nodelay, left, cfg, reports)
}

/// As long as every action succeeds, the steps of a script are taken in order, each
/// of them once. Then TCP_NODELAY is put back, and forwarding finishes, whether
/// putting it back succeeded or not.
pub proof fn law_the_script_is_run_in_order(
    nodelay: bool,
    left: Seq<Step>,
    cfg: FragmentConfig,
    reports: Seq<Report>,
)
    requires
        reports.len() == left.len() + 2,
        forall|i: int| #![trigger reports[i]] 0 <= i <= left.len() ==> reports[i] == Report::Done,
    ensures
        run(Phase::Disabling(nodelay, left), cfg, reports) == left + seq![
            Step::RestoreNagle(nodelay),
            Step::Finish,
        ],
{
    let all = run(Phase::Disabling(nodelay, left), cfg, reports);
    let n = law_every_run_restores_nodelay(nodelay, left, cfg, reports);
    assert(n == left.len());
    assert forall|i: int| #![trigger all[i]] 0 <= i < n implies all[i] == left[i] by {
        assert(all.take(n)[i] == left.take(n)[i]);
    }
    assert(all =~= left + seq![Step::RestoreNagle(nodelay), Step::Finish]);
}

/// Whether TCP_NODELAY is set once `steps` have been taken, if they succeed and it
/// was as `before` says.
pub open spec fn nodelay_after(before: bool, steps: Seq<Step>) -> bool
    decreases steps.len(),
{
    if steps.len() == 0 {
        before
    } else {
        match steps.last() {
            Step::DisableNagle => true,
            Step::RestoreNagle(nodelay) => nodelay,
            _ => nodelay_after(before, steps.drop_last()),
        }
    }
}

proof fn lemma_nodelay_kept(before: bool, steps: Seq<Step>, from: int)
    requires
        0 <= from <= steps.len(),
        forall|i: int|
            #![trigger steps[i]]
            from <= i < steps.len() ==> !(steps[i] is DisableNagle) && !(steps[i] is RestoreNagle),
    ensures
        nodelay_after(before, steps) == nodelay_after(before, steps.take(from)),
    decreases steps.len(),
{
    if from < steps.len() {
        let front = steps.drop_last();
        assert(steps.last() == steps[steps.len() - 1]);
        lemma_nodelay_kept(before, front, from);
        assert(front.take(from) =~= steps.take(from));
    } else {
        assert(steps.take(from) =~= steps);
    }
}

/// TCP_NODELAY is set during every write, and when forwarding has ended it is as it
/// was before, whatever failed on the way. That is so wherever the socket does as
/// it is told when TCP_NODELAY is to be set and to be put back.
pub proof fn law_nodelay_is_set_for_the_writes_alone(
    record: Seq<u8>,
    cfg: FragmentConfig,
    nodelay: bool,
    reports: Seq<Report>,
)
    requires
        reports.len() >= script(record, cfg).len() + 2,
        reports[0] == Report::Done,
    ensures
        ({
            let all = seq![Step::DisableNagle] + run(
                Phase::Disabling(nodelay, script(record, cfg)),
                cfg,
                reports,
            );
            &&& forall|i: int|
                #![trigger all[i]]
                0 <= i < all.len() && all[i] is Write ==> nodelay_after(nodelay, all.take(i))
            &&& nodelay_after(nodelay, all) == nodelay
            &&& all.last() is Finish || all.last() is Fail
        }),
{
    let left = script(record, cfg);
    let later = run(Phase::Disabling(nodelay, left), cfg, reports);
    let all = seq![Step::DisableNagle] + later;
    let n = law_every_run_restores_nodelay(nodelay, left, cfg, reports);
    lemma_sends_only_send(non_empty(pieces(record, cfg.sni_chunk as nat)), cfg.delay_ms);
    assert forall|i: int| #![trigger all[i]] 1 <= i < all.len() implies all[i] == later[i - 1] by {}
    assert forall|i: int| #![trigger all[i]] 1 <= i < n + 1 implies all[i] is Write
        || all[i] is Pause by {
        assert(later.take(n)[i - 1] == left.take(n)[i - 1]);
    }
    assert forall|i: int|
        #![trigger all[i]]
        0 <= i < all.len() && all[i] is Write implies nodelay_after(nodelay, all.take(i)) by {
        assert(i < n + 1);
        assert forall|k: int| #![trigger all.take(i)[k]] 1 <= k < i implies !(all.take(
            i,
        )[k] is DisableNagle) && !(all.take(i)[k] is RestoreNagle) by {
            assert(all.take(i)[k] == all[k]);
        }
        lemma_nodelay_kept(nodelay, all.take(i), 1);
        assert(all.take(i).take(1).last() == Step::DisableNagle);
    }
    lemma_nodelay_kept(nodelay, all, n + 2);
    assert(all.take(n + 2).last() == later[n]);
}

/// From `phase` on, TCP_NODELAY is not set any more.
spec fn is_past_disabling(phase: Phase) -> bool {
    match phase {
        Phase::Header | Phase::Payload(_) | Phase::Asking(_) => false,
        Phase::Disabling(_, left) => only_sends(left),
        Phase::Sending(_, left) => only_sends(left),
        _ => true,
    }
}

proof fn lemma_nodelay_is_set_once(phase: Phase, cfg: FragmentConfig, reports: Seq<Report>, i: int)
    requires
        is_past_disabling(phase),
        0 <= i < reports.len(),
    ensures
        run(phase, cfg, reports)[i] != Step::DisableNagle,
    decreases i,
{
    let next = transition(phase, cfg, reports[0]).0;
    lemma_run_starts(phase, cfg, reports);
    lemma_run_len(phase, cfg, reports);
    assert(is_past_disabling(next));
    if i > 0 {
        lemma_nodelay_is_set_once(next, cfg, reports.skip(1), i - 1);
        assert(run(phase, cfg, reports)[i] == run(phase, cfg, reports).skip(1)[i - 1]);
    }
}

proof fn lemma_asked_first(record: Seq<u8>, cfg: FragmentConfig, reports: Seq<Report>, i: int)
    requires
        0 <= i < reports.len(),
        run(begin(script(record, cfg)).0, cfg, reports)[i] == Step::DisableNagle,
    ensures
        i == 0,
        run(begin(script(record, cfg)).0, cfg, reports).skip(1) == run(
            Phase::Disabling(nodelay_told(reports[0]), script(record, cfg)),
            cfg,
            reports.skip(1),
        ),
{
    let phase = begin(script(record, cfg)).0;
    let all = run(phase, cfg, reports);
    let next = transition(phase, cfg, reports[0]).0;
    lemma_run_starts(phase, cfg, reports);
    lemma_run_len(phase, cfg, reports);
    lemma_sends_only_send(non_empty(pieces(record, cfg.sni_chunk as nat)), cfg.delay_ms);
    assert(is_past_disabling(next));
    if i > 0 {
        lemma_nodelay_is_set_once(next, cfg, reports.skip(1), i - 1);
        assert(all[i] == all.skip(1)[i - 1]);
    }
}

/// Whatever is reported, TCP_NODELAY is set once at most, and only when a whole
/// record has been read and it has been asked how TCP_NODELAY was. What follows
/// then is what sends that record and puts TCP_NODELAY back to what was told.
pub proof fn law_nodelay_is_set_for_a_record_that_was_read(
    cfg: FragmentConfig,
    reports: Seq<Report>,
    i: int,
) -> (r: (Seq<u8>, bool))
    requires
        0 <= i < reports.len(),
        run(Phase::Header, cfg, reports)[i] == Step::DisableNagle,
    ensures
        ({
            let (record, nodelay) = r;
            &&& reports[0] matches Report::Read(hdr) && match payload_len(hdr) {
                None => i == 1 && record == hdr,
                Some(len) => {
                    &&& i == 2
                    &&& reports[1] matches Report::Read(payload)
                    &&& payload.len() == len
                    &&& record == hdr + payload
                },
            }
            &&& nodelay == nodelay_told(reports[i])
            &&& run(Phase::Header, cfg, reports).skip(i + 1) == run(
                Phase::Disabling(nodelay, script(record, cfg)),
                cfg,
                reports.skip(i + 1),
            )
        }),
{
    let all = run(Phase::Header, cfg, reports);
    let next = transition(Phase::Header, cfg, reports[0]).0;
    let rest = reports.skip(1);
    lemma_run_starts(Phase::Header, cfg, reports);
    lemma_run_len(Phase::Header, cfg, reports);
    assert(i > 0);
    assert(all[i] == all.skip(1)[i - 1]);
    if next is Failed {
        lemma_nodelay_is_set_once(next, cfg, rest, i - 1);
    }
    let hdr = reports[0]->Read_0;
    if next is Asking {
        lemma_asked_first(hdr, cfg, rest, i - 1);
        assert(all.skip(2) =~= all.skip(1).skip(1));
        assert(reports.skip(2) =~= rest.skip(1));
        (hdr, nodelay_told(rest[0]))
    } else {
        let last = transition(next, cfg, rest[0]).0;
        lemma_run_starts(next, cfg, rest);
        assert(i > 1);
        assert(all[i] == all.skip(1).skip(1)[i - 2]);
        if last is Failed {
            lemma_nodelay_is_set_once(last, cfg, rest.skip(1), i - 2);
        }
        let record = hdr + rest[0]->Read_0;
        lemma_asked_first(record, cfg, rest.skip(1), i - 2);
        assert(all.skip(3) =~= all.skip(1).skip(1).skip(1));
        assert(reports.skip(3) =~= rest.skip(1).skip(1));
        (record, nodelay_told(rest.skip(1)[0]))
    }
}

/// A handshake record of an admissible length is read whole, header first, and
/// all of it is forwarded: no byte is lost, added or moved.
pub proof fn law_a_whole_record_is_forwarded(hdr: Seq<u8>, payload: Seq<u8>, cfg: FragmentConfig)
    requires
        hdr.len() == RECORD_HEADER,
        payload_len(hdr) == Some(payload.len() as int),
    ensures
        transition(Phase::Header, cfg, Report::Read(hdr)) == (
            Phase::Payload(hdr),
            Step::Read(payload.len() as int),
        ),
        transition(Phase::Payload(hdr), cfg, Report::Read(payload)) == begin(
            script(hdr + payload, cfg),
        ),
        written(script(hdr + payload, cfg)) == hdr + payload,
{
    law_script_writes_the_record(hdr + payload, cfg);
}

/// A failure to read the record, or to set TCP_NODELAY, ends forwarding for good.
/// TCP_NODELAY has not been set then.
pub proof fn law_early_failures_are_final(phase: Phase, cfg: FragmentConfig, later: Report)
    requires
        phase is Header || phase is Payload || phase is Disabling,
    ensures
        transition(phase, cfg, Report::Failed) == failed(Failure::Io),
        transition(transition(phase, cfg, Report::Failed).0, cfg, later) == failed(Failure::Io),
{
}

/// A failure while a record is sent is followed by putting TCP_NODELAY back, and
/// ends forwarding for good, whether that succeeded or not.
pub proof fn law_late_failures_restore_nodelay(
    nodelay: bool,
    left: Seq<Step>,
    cfg: FragmentConfig,
    restored: Report,
    later: Report,
)
    ensures
        ({
            let (undoing, step) = transition(
                Phase::Sending(nodelay, left),
                cfg,
                Report::Failed,
            );
            let (ended, last) = transition(undoing, cfg, restored);
            &&& step == Step::RestoreNagle(nodelay)
            &&& (ended, last) == failed(Failure::Io)
            &&& transition(ended, cfg, later) == failed(Failure::Io)
        }),
{
}

/// A client that does not send its record in time makes forwarding fail, for
/// that reason and for good.
pub proof fn law_late_clients_time_out(phase: Phase, cfg: FragmentConfig, later: Report)
    requires
        phase is Header || phase is Payload,
    ensures
        transition(phase, cfg, Report::TimedOut) == failed(Failure::TimedOut),
        transition(transition(phase, cfg, Report::TimedOut).0, cfg, later) == failed(
            Failure::TimedOut,
        ),
{
}

/// Whatever is answered when it is asked whether TCP_NODELAY is set, forwarding goes
/// on by setting it. Where that could not be told, it is cleared in the end.
pub proof fn law_asking_may_fail(left: Seq<Step>, cfg: FragmentConfig, report: Report)
    ensures
        transition(Phase::Asking(left), cfg, report) == (
            Phase::Disabling(nodelay_told(report), left),
            Step::DisableNagle,
        ),
        nodelay_told(Report::Failed) == false,
{
}

/// A failure to put TCP_NODELAY back does not turn success into failure.
pub proof fn law_restoring_may_fail(cfg: FragmentConfig, report: Report)
    ensures
        transition(Phase::Restoring, cfg, report) == (Phase::Finished, Step::Finish),
{
}

/// What is not a handshake record of an admissible length is forwarded as it
/// came: its header is the one thing that is written, in one piece.
pub proof fn law_other_records_are_forwarded_as_is(hdr: Seq<u8>, cfg: FragmentConfig)
    requires
        hdr.len() == RECORD_HEADER,
        payload_len(hdr) is None,
    ensures
        transition(Phase::Header, cfg, Report::Read(hdr)) == begin(script(hdr, cfg)),
        script(hdr, cfg) == seq![Step::Write(hdr)],
{
    let parts = pieces(hdr, cfg.sni_chunk as nat);
    assert(parts == seq![hdr]);
    law_every_piece_is_written(hdr, cfg);
    assert(parts.drop_last() =~= Seq::empty());
    assert(sends(parts.drop_last(), cfg.delay_ms) =~= Seq::empty());
    assert(script(hdr, cfg) =~= seq![Step::Write(hdr)]);
}

/// Five bytes of header are read, and up to 2^14 + 2048 bytes of payload. The client
/// has 10 seconds.
pub proof fn law_limits()
    ensures
        RECORD_HEADER == 5,
        MAX_TLS_RECORD == 18432,
        READ_TIMEOUT_SECS == 10,
{
}

/// An action and its step say the same, and so do an event and its report.
pub proof fn law_steps_and_reports(
    n: usize,
    ms: u64,
    bytes: Vec<u8>,
    nodelay: bool,
    failure: Failure,
    actions: Seq<Action>,
)
    ensures
        Action::Read(n)@ == Step::Read(n as int),
        Action::QueryNodelay@ == Step::QueryNodelay,
        Action::DisableNagle@ == Step::DisableNagle,
        Action::Pause(ms)@ == Step::Pause(ms),
        Action::Write(bytes)@ == Step::Write(bytes@),
        Action::RestoreNagle(nodelay)@ == Step::RestoreNagle(nodelay),
        Action::Finish@ == Step::Finish,
        Action::Fail(failure)@ == Step::Fail(failure),
        Event::Read(bytes)@ == Report::Read(bytes@),
        Event::Nodelay(nodelay)@ == Report::Nodelay(nodelay),
        Event::Done@ == Report::Done,
        Event::TimedOut@ == Report::TimedOut,
        Event::Failed@ == Report::Failed,
        steps(actions).len() == actions.len(),
        forall|i: int|
            #![trigger steps(actions)[i]]
            0 <= i < actions.len() ==> steps(actions)[i] == actions[i]@,
{
}

/// What `expected_payload` returns of a header: the length that its last two bytes
/// state, high byte first, exactly if its first byte is that of a handshake record
/// and the length is at least 1 and at most 2^14 + 2048.
pub proof fn law_expected_payload(hdr: &[u8; 5], n: Option<usize>)
    requires
        call_ensures(expected_payload, (hdr,), n),
    ensures
        n is Some <==> hdr@[0] == 22 && 1 <= hdr@[3] * 256 + hdr@[4] <= 16384 + 2048,
        n matches Some(n) ==> n == hdr@[3] * 256 + hdr@[4],
{
}

/// What follows the header of a record. The payload is read, as long as bytes 3 and
/// 4 state it, exactly if the first byte is that of a handshake record and the
/// length is at least 1 and at most 2^14 + 2048. Otherwise the header alone is sent.
pub proof fn law_what_follows_the_header(hdr: Seq<u8>, cfg: FragmentConfig)
    requires
        hdr.len() == 5,
    ensures
        ({
            let n = hdr[3] * 256 + hdr[4];
            transition(Phase::Header, cfg, Report::Read(hdr)) == if hdr[0] == 22 && 1 <= n <= 16384
                + 2048 {
                (Phase::Payload(hdr), Step::Read(n))
            } else {
                (Phase::Asking(script(hdr, cfg)), Step::QueryNodelay)
            }
        }),
{
}

/// What follows the payload of a record: header and payload are sent, if the payload
/// is as long as the header states, and forwarding fails otherwise.
pub proof fn law_what_follows_the_payload(hdr: Seq<u8>, payload: Seq<u8>, cfg: FragmentConfig)
    requires
        hdr.len() == 5,
        hdr[0] == 22,
        1 <= hdr[3] * 256 + hdr[4] <= 16384 + 2048,
    ensures
        transition(Phase::Payload(hdr), cfg, Report::Read(payload)) == if payload.len() == hdr[3]
            * 256 + hdr[4] {
            (Phase::Asking(script(hdr + payload, cfg)), Step::QueryNodelay)
        } else {
            (Phase::Failed(Failure::Io), Step::Fail(Failure::Io))
        },
{
}

/// Anything but bytes that were read makes reading fail, and so does a header that
/// is not 5 bytes long: for want of time if that is what is reported.
pub proof fn law_reading_fails(phase: Phase, cfg: FragmentConfig, report: Report)
    requires
        phase is Header || phase is Payload,
        report matches Report::Read(bytes) ==> phase is Header && bytes.len() != 5,
    ensures
        transition(phase, cfg, report) == if report is TimedOut {
            (Phase::Failed(Failure::TimedOut), Step::Fail(Failure::TimedOut))
        } else {
            (Phase::Failed(Failure::Io), Step::Fail(Failure::Io))
        },
{
}

/// TCP_NODELAY is set whatever was told of it, and what was told is kept. Where
/// nothing was told, it counts as not set. If it cannot be set, forwarding fails.
pub proof fn law_nodelay_is_asked_and_set(
    left: Seq<Step>,
    nodelay: bool,
    cfg: FragmentConfig,
    report: Report,
)
    ensures
        transition(Phase::Asking(left), cfg, Report::Nodelay(nodelay)) == (
            Phase::Disabling(nodelay, left),
            Step::DisableNagle,
        ),
        !(report is Nodelay) ==> transition(Phase::Asking(left), cfg, report) == (
            Phase::Disabling(false, left),
            Step::DisableNagle,
        ),
        !(report is Done) ==> transition(Phase::Disabling(nodelay, left), cfg, report) == (
            Phase::Failed(Failure::Io),
            Step::Fail(Failure::Io),
        ),
{
}

/// While steps are left, each success is followed by the next of them; then
/// TCP_NODELAY is put back. Any failure puts it back at once, and then forwarding
/// fails.
pub proof fn law_what_follows_a_step(
    left: Seq<Step>,
    nodelay: bool,
    cfg: FragmentConfig,
    report: Report,
)
    ensures
        left.len() > 0 ==> transition(Phase::Sending(nodelay, left), cfg, Report::Done) == (
            Phase::Sending(nodelay, left.skip(1)),
            left[0],
        ) && transition(Phase::Disabling(nodelay, left), cfg, Report::Done) == (
            Phase::Sending(nodelay, left.skip(1)),
            left[0],
        ),
        left.len() == 0 ==> transition(Phase::Sending(nodelay, left), cfg, Report::Done) == (
            Phase::Restoring,
            Step::RestoreNagle(nodelay),
        ) && transition(Phase::Disabling(nodelay, left), cfg, Report::Done) == (
            Phase::Restoring,
            Step::RestoreNagle(nodelay),
        ),
        !(report is Done) ==> transition(Phase::Sending(nodelay, left), cfg, report) == (
            Phase::Undoing(Failure::Io),
            Step::RestoreNagle(nodelay),
        ),
        transition(Phase::Undoing(Failure::Io), cfg, report) == (
            Phase::Failed(Failure::Io),
            Step::Fail(Failure::Io),
        ),
        transition(Phase::Restoring, cfg, report) == (Phase::Finished, Step::Finish),
{
}

/// What `send_script` returns of a record that is not empty: a write of each of its
/// pieces, in order, with a pause between each and the next if there is a delay. Of
/// the empty record it returns nothing.
pub proof fn law_send_script(record: &[u8], cfg: &FragmentConfig, actions: VecDeque<Action>)
    requires
        call_ensures(send_script, (record, cfg), actions),
    ensures
        ({
            let parts = pieces(record@, cfg.sni_chunk as nat);
            &&& record@.len() == 0 ==> actions@.len() == 0
            &&& record@.len() > 0 && cfg.delay_ms == 0 ==> {
                &&& actions@.len() == parts.len()
                &&& forall|i: int|
                    #![trigger actions@[i]]
                    0 <= i < parts.len() ==> (actions@[i] matches Action::Write(bytes) && bytes@
                        == parts[i])
            }
            &&& record@.len() > 0 && cfg.delay_ms > 0 ==> {
                &&& actions@.len() == 2 * parts.len() - 1
                &&& forall|i: int|
                    #![trigger actions@[i]]
                    0 <= i < actions@.len() ==> if i % 2 == 0 {
                        actions@[i] matches Action::Write(bytes) && bytes@ == parts[i / 2]
                    } else {
                        actions@[i] == Action::Pause(cfg.delay_ms)
                    }
            }
        }),
{
    let parts = pieces(record@, cfg.sni_chunk as nat);
    let all = steps(actions@);
    law_every_piece_is_written(record@, *cfg);
    law_pauses_stand_between_writes(parts, cfg.delay_ms);
    assert(all.len() == actions@.len());
    assert forall|i: int| 0 <= i < actions@.len() implies #[trigger] actions@[i]@ == all[i] by {}
    assert(parts.len() > 0);
    if record@.len() > 0 && cfg.delay_ms == 0 {
        assert forall|i: int| #![trigger actions@[i]] 0 <= i < parts.len() implies (
        actions@[i] matches Action::Write(bytes) && bytes@ == parts[i]) by {
            assert(actions@[i]@ == all[i]);
            assert(all[i] == Step::Write(parts[i]));
        }
    }
    if record@.len() > 0 && cfg.delay_ms > 0 {
        assert forall|i: int| #![trigger actions@[i]] 0 <= i < actions@.len() implies if i % 2
            == 0 {
            actions@[i] matches Action::Write(bytes) && bytes@ == parts[i / 2]
        } else {
            actions@[i] == Action::Pause(cfg.delay_ms)
        } by {
            assert(actions@[i]@ == all[i]);
            assert(sends(parts, cfg.delay_ms)[i] == all[i]);
        }
    }
}

proof fn lemma_run_step(phase: Phase, cfg: FragmentConfig, reports: Seq<Report>)
    requires
        reports.len() > 0,
    ensures
        run(phase, cfg, reports) == seq![transition(phase, cfg, reports[0]).1] + run(
            transition(phase, cfg, reports[0]).0,
            cfg,
            reports.skip(1),
        ),
{
}

/// From the first byte to the end: where all goes well, the header of a handshake
/// record of an admissible length is read, then its payload, it is asked how
/// TCP_NODELAY was, TCP_NODELAY is set, the whole record is sent, and TCP_NODELAY is
/// put back to how it was.
pub proof fn law_a_client_hello_is_forwarded(
    hdr: Seq<u8>,
    payload: Seq<u8>,
    cfg: FragmentConfig,
    nodelay: bool,
    done: Seq<Report>,
)
    requires
        hdr.len() == 5,
        hdr[0] == 22,
        1 <= payload.len() <= 16384 + 2048,
        payload.len() == hdr[3] * 256 + hdr[4],
        done.len() == script(hdr + payload, cfg).len() + 2,
        forall|i: int| #![trigger done[i]] 0 <= i < done.len() ==> done[i] == Report::Done,
    ensures
        run(
            Phase::Header,
            cfg,
            seq![Report::Read(hdr), Report::Read(payload), Report::Nodelay(nodelay)] + done,
        ) == seq![Step::Read(payload.len() as int), Step::QueryNodelay, Step::DisableNagle]
            + script(hdr + payload, cfg) + seq![Step::RestoreNagle(nodelay), Step::Finish],
        written(script(hdr + payload, cfg)) == hdr + payload,
{
    let left = script(hdr + payload, cfg);
    let reports = seq![Report::Read(hdr), Report::Read(payload), Report::Nodelay(nodelay)] + done;
    law_script_writes_the_record(hdr + payload, cfg);
    law_the_script_is_run_in_order(nodelay, left, cfg, done);
    lemma_run_step(Phase::Header, cfg, reports);
    lemma_run_step(Phase::Payload(hdr), cfg, reports.skip(1));
    lemma_run_step(Phase::Asking(left), cfg, reports.skip(1).skip(1));
    assert(reports.skip(1)[0] == Report::Read(payload));
    assert(reports.skip(1).skip(1)[0] == Report::Nodelay(nodelay));
    assert(reports.skip(1).skip(1).skip(1) =~= done);
    assert(run(Phase::Header, cfg, reports) =~= seq![
        Step::Read(payload.len() as int),
        Step::QueryNodelay,
        Step::DisableNagle,
    ] + left + seq![Step::RestoreNagle(nodelay), Step::Finish]);
}

/// What is not a handshake record of an admissible length is sent as it came, from
/// the first byte to the end: the header alone, in one write.
pub proof fn law_another_record_is_forwarded(
    hdr: Seq<u8>,
    cfg: FragmentConfig,
    nodelay: bool,
    done: Seq<Report>,
)
    requires
        hdr.len() == 5,
        hdr[0] != 22 || hdr[3] * 256 + hdr[4] == 0 || hdr[3] * 256 + hdr[4] > 16384 + 2048,
        done.len() == 3,
        forall|i: int| #![trigger done[i]] 0 <= i < done.len() ==> done[i] == Report::Done,
    ensures
        run(
            Phase::Header,
            cfg,
            seq![Report::Read(hdr), Report::Nodelay(nodelay)] + done,
        ) == seq![
            Step::QueryNodelay,
            Step::DisableNagle,
            Step::Write(hdr),
            Step::RestoreNagle(nodelay),
            Step::Finish,
        ],
{
    let left = script(hdr, cfg);
    let reports = seq![Report::Read(hdr), Report::Nodelay(nodelay)] + done;
    law_other_records_are_forwarded_as_is(hdr, cfg);
    law_the_script_is_run_in_order(nodelay, left, cfg, done);
    lemma_run_step(Phase::Header, cfg, reports);
    lemma_run_step(Phase::Asking(left), cfg, reports.skip(1));
    assert(reports.skip(1)[0] == Report::Nodelay(nodelay));
    assert(reports.skip(1).skip(1) =~= done);
    assert(run(Phase::Header, cfg, reports) =~= seq![
        Step::QueryNodelay,
        Step::DisableNagle,
        Step::Write(hdr),
        Step::RestoreNagle(nodelay),
        Step::Finish,
    ]);
}

} // verus!
