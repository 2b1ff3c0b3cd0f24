//! The receive-and-reconstruct core. A `SequenceState` tracks the counter
//! expected next and the loss statistics of the current session. Each
//! accepted payload is turned into a run of emissions: one synthesized
//! placeholder for every counter missing before it, then the payload
//! itself, so that the counter sequence handed downstream stays contiguous.

use vstd::prelude::*;

use crate::payload::COUNTER_SIZE;
use crate::payload::DATA_SIZE;
use crate::payload::HEADER_SIZE;
use crate::payload::PAYLOAD_SIZE;
use crate::payload::Payload;
use crate::payload::PayloadView;
use crate::payload::wire_counter;
use crate::payload::zeros;
use crate::pool::BufferPool;

verus! {

/// `x + 1`, stopping at the largest counter value.
pub open spec fn sat_inc(x: u64) -> u64 {
    if x == u64::MAX {
        x
    } else {
        (x + 1) as u64
    }
}

/// `x + k`, stopping at the largest counter value.
pub open spec fn sat_add(x: u64, k: int) -> u64
    decreases k,
{
    if k <= 0 {
        x
    } else {
        sat_inc(sat_add(x, k - 1))
    }
}

/// The per-session reconstruction state: the counter expected next (absent
/// until the first payload of a run arrives) and the diagnostic counts of
/// dropped and received packets.
pub struct SequenceState {
    pub next_cnt: Option<u64>,
    pub ndropped: u64,
    pub nreceived: u64,
}

/// The counter against which a payload with counter `c` is compared: the
/// tracked expectation, or `c` itself for the first payload of a run.
pub open spec fn expected_counter(st: SequenceState, c: u64) -> u64 {
    match st.next_cnt {
        None => c,
        Some(e) => e,
    }
}

/// How many counters are missing before a payload with counter `c`: the
/// distance from the expected counter to `c`, or zero when `c` is not
/// ahead of the expectation.
pub open spec fn gap_len(st: SequenceState, c: u64) -> int {
    if expected_counter(st, c) < c {
        c - expected_counter(st, c)
    } else {
        0
    }
}

/// The dropped count against which this payload's gap is counted: zeroed
/// for the first payload of a run and at a session start (`c == 0`).
pub open spec fn dropped_base(st: SequenceState, c: u64) -> u64 {
    if c == 0 || st.next_cnt is None {
        0
    } else {
        st.ndropped
    }
}

/// The received count against which this payload's emissions are counted:
/// zeroed at a session start (`c == 0`) only.
pub open spec fn received_base(st: SequenceState, c: u64) -> u64 {
    if c == 0 {
        0
    } else {
        st.nreceived
    }
}

/// A synthesized placeholder: the given counter, the header fields of the
/// real payload that follows it, and a zeroed data block.
pub open spec fn placeholder_view(header: Seq<u8>, c: u64) -> PayloadView {
    PayloadView { pkt_cnt: c, header: header, data: zeros(DATA_SIZE as int) }
}

/// Everything one accepted payload makes the pipeline emit: a placeholder
/// for each missing counter, in increasing order, then the payload itself.
pub open spec fn emitted_views(st: SequenceState, p: PayloadView) -> Seq<PayloadView> {
    Seq::new(
        gap_len(st, p.pkt_cnt) as nat,
        |i: int| placeholder_view(p.header, (expected_counter(st, p.pkt_cnt) + i) as u64),
    ).push(p)
}

/// The reconstruction state after one accepted payload: the expectation
/// moves past the payload's counter, and the statistics count the gap and
/// the emissions on top of their (possibly reset) bases.
pub open spec fn next_state(st: SequenceState, p: PayloadView) -> SequenceState {
    SequenceState {
        next_cnt: Some((p.pkt_cnt + 1) as u64),
        ndropped: sat_add(dropped_base(st, p.pkt_cnt), gap_len(st, p.pkt_cnt)),
        nreceived: sat_add(received_base(st, p.pkt_cnt), gap_len(st, p.pkt_cnt) + 1),
    }
}

/// The values of a sequence of payload buffers.
pub open spec fn views_of(s: Seq<Payload>) -> Seq<PayloadView> {
    Seq::new(s.len(), |i: int| s[i]@)
}

/// The reconstruction state after a whole run of accepted payloads.
pub open spec fn run_end_state(st: SequenceState, inputs: Seq<PayloadView>) -> SequenceState
    decreases inputs.len(),
{
    if inputs.len() == 0 {
        st
    } else {
        run_end_state(next_state(st, inputs[0]), inputs.drop_first())
    }
}

/// Everything a whole run of accepted payloads makes the pipeline emit,
/// in order.
pub open spec fn run_emitted(st: SequenceState, inputs: Seq<PayloadView>) -> Seq<PayloadView>
    decreases inputs.len(),
{
    if inputs.len() == 0 {
        Seq::empty()
    } else {
        emitted_views(st, inputs[0]) + run_emitted(next_state(st, inputs[0]), inputs.drop_first())
    }
}

/// An orderly run: every payload's counter stays below the largest
/// representable value, and no payload other than a session start (counter
/// zero) arrives numbered behind the counter expected at its turn.
pub open spec fn orderly(st: SequenceState, inputs: Seq<PayloadView>) -> bool
    decreases inputs.len(),
{
    inputs.len() == 0 || {
        &&& inputs[0].pkt_cnt < u64::MAX
        &&& (inputs[0].pkt_cnt == 0 || inputs[0].pkt_cnt >= expected_counter(
            st,
            inputs[0].pkt_cnt,
        ))
        &&& orderly(next_state(st, inputs[0]), inputs.drop_first())
    }
}

/// The counter of the first item one accepted payload makes the pipeline
/// emit: the expected counter once the payload is at or past it, else the
/// payload's own.
pub open spec fn first_emitted_counter(st: SequenceState, c: u64) -> u64 {
    if c >= expected_counter(st, c) {
        expected_counter(st, c)
    } else {
        c
    }
}

/// Law: one accepted payload's emissions are internally contiguous, number
/// one more than the gap before the payload, and end in the payload
/// itself.
pub proof fn lemma_emission_shape(st: SequenceState, p: PayloadView)
    ensures
        emitted_views(st, p).len() == gap_len(st, p.pkt_cnt) + 1,
        emitted_views(st, p).last() == p,
        emitted_views(st, p)[0].pkt_cnt == first_emitted_counter(st, p.pkt_cnt),
        forall|i: int|
            0 <= i < emitted_views(st, p).len() - 1 ==> (#[trigger] emitted_views(st, p)[i
                + 1]).pkt_cnt == emitted_views(st, p)[i].pkt_cnt + 1,
{
    let e0 = expected_counter(st, p.pkt_cnt);
    let g = gap_len(st, p.pkt_cnt);
    let ev = emitted_views(st, p);
    assert(ev.last() == p);
    assert forall|i: int| 0 <= i < ev.len() - 1 implies (#[trigger] ev[i + 1]).pkt_cnt == ev[
        i
    ].pkt_cnt + 1 by {
        assert(ev[i].pkt_cnt == e0 + i);
        if i + 1 < g {
            assert(ev[i + 1].pkt_cnt == e0 + i + 1);
        } else {
            assert(ev[i + 1] == p);
            assert(p.pkt_cnt == e0 + g);
        }
    }
}

/// Law: over any orderly run, the emitted counter sequence is contiguous —
/// every emitted item that does not open a session (counter zero) carries
/// the counter of its predecessor plus one. Loss is visible only as
/// placeholders, never as a numbering gap.
pub proof fn lemma_run_contiguous(st: SequenceState, inputs: Seq<PayloadView>)
    requires
        orderly(st, inputs),
    ensures
        inputs.len() > 0 ==> run_emitted(st, inputs).len() > 0 && run_emitted(st, inputs)[0].pkt_cnt
            == first_emitted_counter(st, inputs[0].pkt_cnt),
        forall|i: int|
            0 <= i < run_emitted(st, inputs).len() - 1 && (#[trigger] run_emitted(st, inputs)[i
                + 1]).pkt_cnt != 0 ==> run_emitted(st, inputs)[i + 1].pkt_cnt == run_emitted(
                st,
                inputs,
            )[i].pkt_cnt + 1,
    decreases inputs.len(),
{
    if inputs.len() > 0 {
        let q = inputs[0];
        let rest = inputs.drop_first();
        let st1 = next_state(st, q);
        let a = emitted_views(st, q);
        let b = run_emitted(st1, rest);
        let e = run_emitted(st, inputs);
        lemma_emission_shape(st, q);
        lemma_run_contiguous(st1, rest);
        assert(e == a + b);
        assert(e[0] == a[0]);
        assert forall|i: int| 0 <= i < e.len() - 1 && (#[trigger] e[i + 1]).pkt_cnt != 0 implies e[
            i
            + 1
        ].pkt_cnt == e[i].pkt_cnt + 1 by {
            if i + 1 < a.len() {
                assert(e[i] == a[i]);
                assert(e[i + 1] == a[i + 1]);
            } else if i + 1 == a.len() {
                assert(e[i] == a[i]);
                assert(a[i] == a.last());
                assert(rest.len() > 0);
                assert(b[0] == e[i + 1]);
                assert(expected_counter(st1, rest[0].pkt_cnt) == q.pkt_cnt + 1);
                assert(b[0].pkt_cnt == first_emitted_counter(st1, rest[0].pkt_cnt));
                assert(orderly(st1, rest));
                if rest[0].pkt_cnt != 0 {
                    assert(rest[0].pkt_cnt >= expected_counter(st1, rest[0].pkt_cnt));
                }
            } else {
                let j = i - a.len();
                assert(e[i] == b[j]);
                assert(e[i + 1] == b[j + 1]);
                if b[j + 1].pkt_cnt != 0 {
                    assert(b[j + 1].pkt_cnt == b[j].pkt_cnt + 1);
                }
            }
        }
    }
}

/// Law: a zero-valued counter starts a fresh statistics window — once it
/// is processed the dropped count is zero and the received count is one,
/// whatever the statistics were before — and it is emitted alone.
pub proof fn lemma_session_reset(st: SequenceState, p: PayloadView)
    requires
        p.pkt_cnt == 0,
    ensures
        next_state(st, p).ndropped == 0,
        next_state(st, p).nreceived == 1,
        emitted_views(st, p) == seq![p],
{
    assert(gap_len(st, p.pkt_cnt) == 0);
    assert(sat_add(0u64, 0) == 0);
    assert(sat_add(0u64, 1) == 1);
    assert(emitted_views(st, p) =~= seq![p]);
}

/// Law: when the counter expected next is `ec` and a real payload arrives
/// numbered `ec + k`, exactly `k` placeholders are emitted before it, each
/// carrying the header fields of that payload, with counters `ec` up to
/// `ec + k - 1` in increasing order; all `k` are counted as dropped.
pub proof fn lemma_gap_fill(st: SequenceState, p: PayloadView, ec: u64, k: int)
    requires
        st.next_cnt == Some(ec),
        0 <= k,
        p.pkt_cnt == ec + k,
    ensures
        gap_len(st, p.pkt_cnt) == k,
        emitted_views(st, p).len() == k + 1,
        forall|i: int|
            0 <= i < k ==> #[trigger] emitted_views(st, p)[i] == placeholder_view(
                p.header,
                (ec + i) as u64,
            ),
        emitted_views(st, p)[k] == p,
        p.pkt_cnt != 0 ==> next_state(st, p).ndropped == sat_add(st.ndropped, k),
{
    assert(expected_counter(st, p.pkt_cnt) == ec);
    assert(gap_len(st, p.pkt_cnt) == k);
}

/// The payload value a well-sized datagram decodes to.
pub open spec fn decoded_view(b: Seq<u8>) -> PayloadView {
    PayloadView {
        pkt_cnt: wire_counter(b) as u64,
        header: b.subrange(COUNTER_SIZE as int, (COUNTER_SIZE + HEADER_SIZE) as int),
        data: b.subrange((COUNTER_SIZE + HEADER_SIZE) as int, PAYLOAD_SIZE as int),
    }
}

/// Whether a received datagram enters reconstruction: it must have the
/// exact payload size, and its counter must leave room for the expectation
/// to move past it.
pub open spec fn datagram_accepted(b: Seq<u8>) -> bool {
    b.len() == PAYLOAD_SIZE && wire_counter(b) < u64::MAX as nat
}

impl SequenceState {
    /// The state before any payload of a run has arrived.
    pub fn new() -> (r: SequenceState)
        ensures
            r.next_cnt is None,
            r.ndropped == 0,
            r.nreceived == 0,
    {
        SequenceState { next_cnt: None, ndropped: 0, nreceived: 0 }
    }

    /// Process one size-validated payload: initialize the expectation on
    /// the first payload of a run, reset the statistics at a session start,
    /// fill any counter gap with placeholders drawn from the pool, and
    /// emit the payload last. Returns the emissions in order.
    ///
    /// Note that a session start (counter zero) resets only the
    /// statistics: the tracked expectation is deliberately kept, so the
    /// zero-counter payload itself is still compared against whatever
    /// counter was expected before. Downstream consumers may rely on
    /// observing that comparison, so it is kept rather than re-synchronized.
    pub fn process_payload(&mut self, p: Payload, pool: &mut BufferPool) -> (out: Vec<Payload>)
        requires
            p.wf(),
            p.pkt_cnt < u64::MAX,
            old(pool).wf(),
        ensures
            final(pool).wf(),
            *final(self) == next_state(*old(self), p@),
            views_of(out@) == emitted_views(*old(self), p@),
            forall|i: int| 0 <= i < out@.len() ==> (#[trigger] out@[i]).wf(),
            old(pool)@.len() >= gap_len(*old(self), p@.pkt_cnt) ==> final(pool)@ == old(
                pool,
            )@.take(old(pool)@.len() - gap_len(*old(self), p@.pkt_cnt)),
            old(pool)@.len() < gap_len(*old(self), p@.pkt_cnt) ==> final(pool)@.len() == 0,
    {
        let ghost st0 = *self;
        let ghost pool0 = pool@;
        let cnt = p.pkt_cnt;
        if self.next_cnt.is_none() {
            self.ndropped = 0;
        }
        let mut c: u64 = match self.next_cnt {
            Some(x) => x,
            None => cnt,
        };
        if cnt == 0 {
            self.ndropped = 0;
            self.nreceived = 0;
        }
        let ghost e0 = expected_counter(st0, cnt);
        let ghost g = gap_len(st0, cnt);
        let mut out: Vec<Payload> = Vec::new();
        while c < cnt
            invariant
                cnt == p.pkt_cnt,
                cnt < u64::MAX,
                p.wf(),
                e0 == expected_counter(st0, cnt),
                g == gap_len(st0, cnt),
                c == e0 + out@.len(),
                out@.len() <= g,
                self.next_cnt == st0.next_cnt,
                self.ndropped == sat_add(dropped_base(st0, cnt), out@.len() as int),
                self.nreceived == sat_add(received_base(st0, cnt), out@.len() as int),
                views_of(out@) == emitted_views(st0, p@).take(out@.len() as int),
                forall|i: int| 0 <= i < out@.len() ==> (#[trigger] out@[i]).wf(),
                pool.wf(),
                pool0.len() >= out@.len() ==> pool@ == pool0.take(pool0.len() - out@.len()),
                pool0.len() < out@.len() ==> pool@.len() == 0,
            decreases cnt - c,
        {
            if self.ndropped != u64::MAX {
                self.ndropped = self.ndropped + 1;
            }
            let mut ph = pool.pull();
            ph.copy_header(&p);
            ph.pkt_cnt = c;
            if self.nreceived != u64::MAX {
                self.nreceived = self.nreceived + 1;
            }
            out.push(ph);
            c = c + 1;
            proof {
                assert(ph@ == placeholder_view(p@.header, (e0 + out@.len() - 1) as u64));
                assert(views_of(out@) =~= emitted_views(st0, p@).take(out@.len() as int));
                if pool0.len() >= out@.len() {
                    assert(pool@ =~= pool0.take(pool0.len() - out@.len()));
                }
            }
        }
        self.next_cnt = Some(cnt + 1);
        if self.nreceived != u64::MAX {
            self.nreceived = self.nreceived + 1;
        }
        let ghost outg = out@;
        out.push(p);
        proof {
            assert(outg.len() == g);
            assert(views_of(outg) == emitted_views(st0, p@).take(g as int));
            assert forall|i: int| 0 <= i < out@.len() implies #[trigger] views_of(out@)[i]
                == emitted_views(st0, p@)[i] by {
                if i < g {
                    assert(views_of(out@)[i] == out@[i]@);
                    assert(out@[i] == outg[i]);
                    assert(views_of(outg)[i] == outg[i]@);
                    assert(emitted_views(st0, p@).take(g as int)[i] == emitted_views(st0, p@)[i]);
                } else {
                    assert(out@[i] == p);
                }
            }
            assert(views_of(out@) =~= emitted_views(st0, p@));
            assert(*self == next_state(st0, p@));
        }
        out
    }

    /// One iteration of the receive loop once the datagram bytes are in
    /// hand: validate the size, decode, reconstruct. A datagram of the
    /// wrong length is discarded silently — nothing is emitted, neither
    /// the sequence state nor the pool changes, and no statistic moves; so
    /// is the pathological datagram whose counter is the largest
    /// representable value.
    pub fn handle_datagram(&mut self, dgram: &Vec<u8>, pool: &mut BufferPool) -> (out: Vec<
        Payload,
    >)
        requires
            old(pool).wf(),
        ensures
            final(pool).wf(),
            !datagram_accepted(dgram@) ==> out@.len() == 0 && *final(self) == *old(self)
                && final(pool)@ == old(pool)@,
            datagram_accepted(dgram@) ==> *final(self) == next_state(
                *old(self),
                decoded_view(dgram@),
            ) && views_of(out@) == emitted_views(*old(self), decoded_view(dgram@)),
            forall|i: int| 0 <= i < out@.len() ==> (#[trigger] out@[i]).wf(),
            datagram_accepted(dgram@) && old(pool)@.len() >= gap_len(
                *old(self),
                decoded_view(dgram@).pkt_cnt,
            ) ==> final(pool)@ == old(pool)@.take(
                old(pool)@.len() - gap_len(*old(self), decoded_view(dgram@).pkt_cnt),
            ),
            datagram_accepted(dgram@) && old(pool)@.len() < gap_len(
                *old(self),
                decoded_view(dgram@).pkt_cnt,
            ) ==> final(pool)@.len() == 0,
    {
        match Payload::from_bytes(dgram) {
            None => Vec::new(),
            Some(p) => {
                if p.pkt_cnt == u64::MAX {
                    Vec::new()
                } else {
                    proof {
                        assert(p@ == decoded_view(dgram@));
                    }
                    self.process_payload(p, pool)
                }
            },
        }
    }

    /// Process a whole batch of size-validated payloads in arrival order.
    /// The concatenated emissions are exactly the run's reconstruction, so
    /// by `lemma_run_contiguous` an orderly batch comes out as a
    /// contiguous counter sequence.
    pub fn process_batch(&mut self, payloads: Vec<Payload>, pool: &mut BufferPool) -> (out: Vec<
        Payload,
    >)
        requires
            forall|i: int|
                0 <= i < payloads@.len() ==> (#[trigger] payloads@[i]).wf() && payloads@[i].pkt_cnt
                    < u64::MAX,
            old(pool).wf(),
        ensures
            final(pool).wf(),
            *final(self) == run_end_state(*old(self), views_of(payloads@)),
            views_of(out@) == run_emitted(*old(self), views_of(payloads@)),
            forall|i: int| 0 <= i < out@.len() ==> (#[trigger] out@[i]).wf(),
    {
        let ghost st0 = *self;
        let ghost all = views_of(payloads@);
        let mut inputs = payloads;
        let mut out: Vec<Payload> = Vec::new();
        while inputs.len() > 0
            invariant
                forall|i: int|
                    0 <= i < inputs@.len() ==> (#[trigger] inputs@[i]).wf() && inputs@[i].pkt_cnt
                        < u64::MAX,
                pool.wf(),
                run_emitted(st0, all) == views_of(out@) + run_emitted(*self, views_of(inputs@)),
                run_end_state(st0, all) == run_end_state(*self, views_of(inputs@)),
                forall|i: int| 0 <= i < out@.len() ==> (#[trigger] out@[i]).wf(),
            decreases inputs.len(),
        {
            let ghost st_here = *self;
            let ghost inputs_before = inputs@;
            let p = inputs.remove(0);
            let ghost outg = out@;
            let mut emitted = self.process_payload(p, pool);
            let ghost emg = emitted@;
            out.append(&mut emitted);
            proof {
                assert(views_of(inputs_before)[0] == p@);
                assert(views_of(inputs@) =~= views_of(inputs_before).drop_first());
                assert(run_emitted(st_here, views_of(inputs_before)) == emitted_views(st_here, p@)
                    + run_emitted(*self, views_of(inputs@)));
                assert(run_end_state(st_here, views_of(inputs_before)) == run_end_state(
                    *self,
                    views_of(inputs@),
                ));
                assert(views_of(out@) =~= views_of(outg) + views_of(emg));
                assert(views_of(emg) == emitted_views(st_here, p@));
                assert(views_of(outg) + (emitted_views(st_here, p@) + run_emitted(
                    *self,
                    views_of(inputs@),
                )) =~= (views_of(outg) + emitted_views(st_here, p@)) + run_emitted(
                    *self,
                    views_of(inputs@),
                ));
            }
        }
        proof {
            assert(views_of(inputs@) =~= Seq::<PayloadView>::empty());
            assert(run_emitted(*self, views_of(inputs@)) == Seq::<PayloadView>::empty());
            assert(views_of(out@) + Seq::<PayloadView>::empty() =~= views_of(out@));
        }
        out
    }
}

} // verus!
