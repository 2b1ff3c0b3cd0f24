//! The consumer-side decisions of the decoupled delivery stage: counting
//! delivered payloads against the optional total receive budget, and
//! rolling the output over to the next file segment when the per-segment
//! cap is reached. The file writing, flushing and segment creation are
//! the I/O layer's concern; it asks this state machine what to do after
//! each payload it has written.

use vstd::prelude::*;

verus! {

/// The sink's configuration: an optional total budget of payloads to
/// deliver, an optional per-segment payload cap, and whether an output
/// file was configured at all.
pub struct SinkConfig {
    pub npkts_to_recv: Option<usize>,
    pub npkts_per_file: Option<usize>,
    pub has_output: bool,
}

/// The sink's running counts: payloads delivered in total, the index of
/// the current file segment, and the payloads written to it.
pub struct SinkState {
    pub npkts_received: usize,
    pub current_file_no: usize,
    pub current_file_npkts: usize,
}

/// What the consumer loop must do after writing one delivered payload:
/// stop pulling from the hand-off, and/or open the file segment with the
/// given index for the payloads that follow.
pub struct SinkDecision {
    pub stop: bool,
    pub open_segment: Option<usize>,
}

/// Whether the payload just delivered exhausts the total receive budget.
pub open spec fn spec_stops(st: SinkState, cfg: SinkConfig) -> bool {
    cfg.npkts_to_recv matches Some(n) && st.npkts_received + 1 >= n
}

/// Whether the payload just delivered fills the current file segment, so
/// that the output rolls over to the next segment: only when the sink
/// goes on, an output file is configured, and a positive per-segment cap
/// is reached.
pub open spec fn spec_rolls(st: SinkState, cfg: SinkConfig) -> bool {
    &&& !spec_stops(st, cfg)
    &&& cfg.has_output
    &&& cfg.npkts_per_file matches Some(k) && k > 0 && st.current_file_npkts + 1 >= k
}

impl SinkState {
    /// The state before anything was delivered: segment index zero, no
    /// payload counted.
    pub fn new() -> (r: SinkState)
        ensures
            r.npkts_received == 0,
            r.current_file_no == 0,
            r.current_file_npkts == 0,
    {
        SinkState { npkts_received: 0, current_file_no: 0, current_file_npkts: 0 }
    }

    /// Account one payload just written to the current segment, and say
    /// what to do next: stop once the total budget is reached (the budget
    /// wins over a rollover), else roll to segment `current_file_no + 1`
    /// when the per-segment cap is reached.
    pub fn on_payload(&mut self, cfg: &SinkConfig) -> (d: SinkDecision)
        requires
            old(self).npkts_received < usize::MAX,
            old(self).current_file_npkts < usize::MAX,
            old(self).current_file_no < usize::MAX,
        ensures
            final(self).npkts_received == old(self).npkts_received + 1,
            d.stop == spec_stops(*old(self), *cfg),
            spec_rolls(*old(self), *cfg) ==> d.open_segment == Some(
                (old(self).current_file_no + 1) as usize,
            ) && final(self).current_file_no == old(self).current_file_no + 1
                && final(self).current_file_npkts == 0,
            !spec_rolls(*old(self), *cfg) ==> d.open_segment is None && final(self).current_file_no
                == old(self).current_file_no && final(self).current_file_npkts == old(
                self,
            ).current_file_npkts + 1,
    {
        self.npkts_received = self.npkts_received + 1;
        self.current_file_npkts = self.current_file_npkts + 1;
        let stop = match cfg.npkts_to_recv {
            Some(n) => self.npkts_received >= n,
            None => false,
        };
        let mut open_segment: Option<usize> = None;
        if !stop && cfg.has_output {
            if let Some(k) = cfg.npkts_per_file {
                if k > 0 && self.current_file_npkts >= k {
                    self.current_file_no = self.current_file_no + 1;
                    self.current_file_npkts = 0;
                    open_segment = Some(self.current_file_no);
                }
            }
        }
        SinkDecision { stop, open_segment }
    }
}

} // verus!
