//! The buffered flush writer. A flush call groups pending sample lines by
//! series, resolves one durability segment for the call's time partition, and
//! appends each non-empty group as one contiguous byte buffer. The outside
//! work — the segment store's fetch-or-create, the appends themselves — is
//! performed by the surrounding worker; every decision in between (what to
//! append, in what order, what to skip, when to stop, which error to report)
//! is made here, as a step machine the worker drives.

use vstd::prelude::*;
use vstd::string::StrSliceExecFns;
use vstd::utf8::encode_utf8;

use std::collections::HashMap;

use crate::errors::MetricsError;
use crate::signature::extend_bytes;

verus! {

/// Granularity of the time partition a durability segment is keyed by. The
/// series table is partitioned daily.
#[derive(Debug, Clone, Copy, PartialEq, Eq, Structural)]
pub enum PartitionTimeLevel {
    Daily,
}

/// Stream type a durability segment belongs to.
#[derive(Debug, Clone, Copy, PartialEq, Eq, Structural)]
pub enum StreamType {
    Metrics,
}

/// The fixed name of the series table.
pub open spec fn series_name() -> Seq<char> {
    "_series"@
}

/// The fixed name of the series table, whose segments the flush writer
/// appends to.
pub fn series_table_name() -> (r: &'static str)
    ensures
        r@ == series_name(),
{
    "_series"
}

/// Everything the external segment store needs to resolve, once per flush
/// call, the one durability segment that the whole call appends to.
#[derive(Debug, Clone)]
pub struct SegmentRequest {
    pub thread_id: usize,
    pub org_id: String,
    pub stream_name: String,
    pub stream_type: StreamType,
    pub time_level: PartitionTimeLevel,
    pub timestamp_micros: i64,
    pub memory_mode: bool,
}

/// Relies on `chrono::Utc::now` and `chrono::DateTime::timestamp_micros`:
/// the current wall-clock time in microseconds. Nothing is assumed of the
/// value; it is read once per flush call.
#[verifier::external_body]
fn now_timestamp_micros() -> i64 {
    chrono::Utc::now().timestamp_micros()
}

/// Declares `ahash::RandomState`, the hasher of the ingestion buffer's map,
/// so that the map type can stand in a signature. Nothing is assumed of it.
#[verifier::external_type_specification]
#[verifier::external_body]
pub struct ExRandomState(ahash::RandomState);

/// Relies on `HashMap::into_iter`: yields each entry of the map exactly
/// once, with distinct keys, in no specified order.
#[verifier::external_body]
fn buffer_entries(buffer: HashMap<String, Vec<String>, ahash::RandomState>) -> (r: Vec<
    (String, Vec<String>),
>)
    ensures
        forall|i: int|
            0 <= i < r@.len() ==> buffer@.contains_pair((#[trigger] r@[i]).0, r@[i].1),
        forall|i: int, j: int| 0 <= i < j < r@.len() ==> r@[i].0 != r@[j].0,
        forall|k: String|
            #[trigger] buffer@.dom().contains(k) ==> exists|i: int|
                0 <= i < r@.len() && (#[trigger] r@[i]).0 == k,
{
    buffer.into_iter().collect()
}

/// The bytes of one series group's append: each line's UTF-8 bytes followed
/// by a single newline byte, lines in order.
pub open spec fn payload_of(lines: Seq<String>) -> Seq<u8>
    decreases lines.len(),
{
    if lines.len() == 0 {
        Seq::empty()
    } else {
        payload_of(lines.drop_last()) + encode_utf8(lines.last()@) + seq![10u8]
    }
}

/// The appends one flush call issues for a buffer, in buffer order: one per
/// series with a non-empty line list, carrying the series key and the
/// payload bytes. A series whose line list is empty is skipped entirely.
pub open spec fn flush_plan(buffer: Seq<(String, Vec<String>)>) -> Seq<(Seq<char>, Seq<u8>)>
    decreases buffer.len(),
{
    if buffer.len() == 0 {
        Seq::empty()
    } else {
        let rest = flush_plan(buffer.drop_last());
        if buffer.last().1@.len() == 0 {
            rest
        } else {
            rest.push((buffer.last().0@, payload_of(buffer.last().1@)))
        }
    }
}

/// The views of a built plan.
pub open spec fn plan_views(plan: Seq<(String, Vec<u8>)>) -> Seq<(Seq<char>, Seq<u8>)> {
    plan.map_values(|p: (String, Vec<u8>)| (p.0@, p.1@))
}

/// A faithful flat enumeration of a buffer map: each (key, lines) entry of
/// the map exactly once, keys distinct, in some order.
pub open spec fn enumerates(
    m: Map<String, Vec<String>>,
    entries: Seq<(String, Vec<String>)>,
) -> bool {
    &&& forall|i: int|
        0 <= i < entries.len() ==> m.contains_pair((#[trigger] entries[i]).0, entries[i].1)
    &&& forall|i: int, j: int| 0 <= i < j < entries.len() ==> entries[i].0 != entries[j].0
    &&& forall|k: String|
        #[trigger] m.dom().contains(k) ==> exists|i: int|
            0 <= i < entries.len() && (#[trigger] entries[i]).0 == k
}

/// Build one series group's append payload.
pub fn series_payload(lines: &Vec<String>) -> (r: Vec<u8>)
    ensures
        r@ == payload_of(lines@),
{
    let mut out: Vec<u8> = Vec::new();
    proof {
        assert(out@ =~= payload_of(lines@.take(0)));
    }
    let mut i: usize = 0;
    while i < lines.len()
        invariant
            i <= lines@.len(),
            out@ == payload_of(lines@.take(i as int)),
        decreases lines@.len() - i,
    {
        let bs = lines[i].as_str().as_bytes_vec();
        extend_bytes(&mut out, &bs);
        out.push(10u8);
        proof {
            assert(lines@.take((i + 1) as int).drop_last() =~= lines@.take(i as int));
            assert(lines@.take((i + 1) as int).last() == lines@[i as int]);
            assert(out@ =~= payload_of(lines@.take((i + 1) as int)));
        }
        i += 1;
    }
    proof {
        assert(lines@.take(lines@.len() as int) =~= lines@);
    }
    out
}

/// Where a flush call stands: resolving its durability segment, issuing
/// appends, or finished.
#[derive(Debug, Clone, Copy, PartialEq, Eq, Structural)]
pub enum FlushPhase {
    Resolving,
    Appending,
    Finished,
}

/// One flush call of the buffered flush writer, driven as a step machine.
///
/// The worker that owns the buffer creates a session, hands the session's
/// `SegmentRequest` to the external segment store, reports the outcome
/// (`segment_resolved` or `segment_unavailable`), then performs the appends
/// the session hands out one by one, reporting a failed append through
/// `append_failed`. A failure ends the session: remaining groups are not
/// attempted, and the failing series key is reported to the caller.
pub struct FlushSession {
    plan: Vec<(String, Vec<u8>)>,
    next: usize,
    phase: FlushPhase,
    request: SegmentRequest,
}

impl FlushSession {
    /// The planned appends: series key and payload of every non-empty group,
    /// in plan order.
    pub closed spec fn plan_view(self) -> Seq<(Seq<char>, Seq<u8>)> {
        plan_views(self.plan@)
    }

    /// How many appends have been handed out so far.
    pub closed spec fn next_index(self) -> int {
        self.next as int
    }

    pub closed spec fn phase_of(self) -> FlushPhase {
        self.phase
    }

    pub closed spec fn request_spec(self) -> SegmentRequest {
        self.request
    }

    pub open spec fn wf(self) -> bool {
        0 <= self.next_index() <= self.plan_view().len()
    }

    /// Start a flush call over buffer entries already laid out as a list.
    /// The wall clock is read once, here: the whole call shares one
    /// timestamp, one partition, one segment.
    pub fn new(buffer: &Vec<(String, Vec<String>)>, thread_id: usize, org_id: &str, memory_mode: bool) -> (s: Self)
        ensures
            s.wf(),
            s.phase_of() == FlushPhase::Resolving,
            s.next_index() == 0,
            s.plan_view() == flush_plan(buffer@),
            s.request_spec().thread_id == thread_id,
            s.request_spec().org_id@ == org_id@,
            s.request_spec().stream_name@ == series_name(),
            s.request_spec().stream_type == StreamType::Metrics,
            s.request_spec().time_level == PartitionTimeLevel::Daily,
            s.request_spec().memory_mode == memory_mode,
    {
        let mut plan: Vec<(String, Vec<u8>)> = Vec::new();
        proof {
            assert(plan_views(plan@) =~= flush_plan(buffer@.take(0)));
        }
        let mut i: usize = 0;
        while i < buffer.len()
            invariant
                i <= buffer@.len(),
                plan_views(plan@) == flush_plan(buffer@.take(i as int)),
            decreases buffer@.len() - i,
        {
            let entry = &buffer[i];
            proof {
                assert(buffer@.take((i + 1) as int).drop_last() =~= buffer@.take(i as int));
                assert(buffer@.take((i + 1) as int).last() == buffer@[i as int]);
            }
            if entry.1.len() > 0 {
                let key = entry.0.clone();
                let payload = series_payload(&entry.1);
                plan.push((key, payload));
            }
            proof {
                assert(plan_views(plan@) =~= flush_plan(buffer@.take((i + 1) as int)));
            }
            i += 1;
        }
        proof {
            assert(buffer@.take(buffer@.len() as int) =~= buffer@);
        }
        let timestamp = now_timestamp_micros();
        let request = SegmentRequest {
            thread_id,
            org_id: org_id.to_owned(),
            stream_name: series_table_name().to_owned(),
            stream_type: StreamType::Metrics,
            time_level: PartitionTimeLevel::Daily,
            timestamp_micros: timestamp,
            memory_mode,
        };
        FlushSession { plan, next: 0, phase: FlushPhase::Resolving, request }
    }

    /// Start a flush call over the buffer as the ingestion worker hands it
    /// over: a map from series key to its pending lines. The map yields its
    /// entries in no specified order; the plan follows one faithful
    /// enumeration of it.
    pub fn from_map(
        buffer: HashMap<String, Vec<String>, ahash::RandomState>,
        thread_id: usize,
        org_id: &str,
        memory_mode: bool,
    ) -> (s: Self)
        ensures
            s.wf(),
            s.phase_of() == FlushPhase::Resolving,
            s.next_index() == 0,
            exists|entries: Seq<(String, Vec<String>)>|
                #[trigger] enumerates(buffer@, entries) && s.plan_view() == flush_plan(entries),
            s.request_spec().thread_id == thread_id,
            s.request_spec().org_id@ == org_id@,
            s.request_spec().stream_name@ == series_name(),
            s.request_spec().stream_type == StreamType::Metrics,
            s.request_spec().time_level == PartitionTimeLevel::Daily,
            s.request_spec().memory_mode == memory_mode,
    {
        let ghost m = buffer@;
        let entries = buffer_entries(buffer);
        let s = Self::new(&entries, thread_id, org_id, memory_mode);
        proof {
            assert(enumerates(m, entries@));
        }
        s
    }

    /// The request the worker hands to the external segment store.
    pub fn request(&self) -> (r: &SegmentRequest)
        ensures
            *r == self.request_spec(),
    {
        &self.request
    }

    /// The worker resolved the segment. Records the segment's identity in
    /// `out_segment_name` only if no earlier call set it: the first resolved
    /// segment identity is canonical for the caller's session and is never
    /// overwritten.
    pub fn segment_resolved(&mut self, segment_full_name: &str, out_segment_name: &mut String)
        requires
            old(self).wf(),
            old(self).phase_of() == FlushPhase::Resolving,
        ensures
            final(self).wf(),
            final(self).phase_of() == FlushPhase::Appending,
            final(self).plan_view() == old(self).plan_view(),
            final(self).next_index() == old(self).next_index(),
            final(self).request_spec() == old(self).request_spec(),
            final(out_segment_name)@ == if old(out_segment_name)@.len() == 0 {
                segment_full_name@
            } else {
                old(out_segment_name)@
            },
    {
        if out_segment_name.as_str().is_empty() {
            *out_segment_name = segment_full_name.to_owned();
        }
        self.phase = FlushPhase::Appending;
    }

    /// The worker could not resolve the segment: the flush call ends with
    /// `StorageUnavailable`, with no append attempted and the buffer intact
    /// for a retry by the caller.
    pub fn segment_unavailable(&mut self) -> (e: MetricsError)
        requires
            old(self).wf(),
            old(self).phase_of() == FlushPhase::Resolving,
        ensures
            final(self).wf(),
            final(self).phase_of() == FlushPhase::Finished,
            final(self).plan_view() == old(self).plan_view(),
            final(self).next_index() == old(self).next_index(),
            final(self).request_spec() == old(self).request_spec(),
            e is StorageUnavailable,
    {
        self.phase = FlushPhase::Finished;
        MetricsError::StorageUnavailable
    }

    /// The next append to issue: the series key and the payload bytes, in
    /// plan order. `None` once every planned append has been handed out;
    /// the session is then finished.
    pub fn next_append(&mut self) -> (r: Option<(String, Vec<u8>)>)
        requires
            old(self).wf(),
            old(self).phase_of() == FlushPhase::Appending,
        ensures
            final(self).wf(),
            final(self).plan_view() == old(self).plan_view(),
            final(self).request_spec() == old(self).request_spec(),
            old(self).next_index() < old(self).plan_view().len() ==> {
                &&& r matches Some(p) && (p.0@, p.1@) == old(self).plan_view()[old(
                    self,
                ).next_index()]
                &&& final(self).next_index() == old(self).next_index() + 1
                &&& final(self).phase_of() == FlushPhase::Appending
            },
            old(self).next_index() >= old(self).plan_view().len() ==> {
                &&& r is None
                &&& final(self).next_index() == old(self).next_index()
                &&& final(self).phase_of() == FlushPhase::Finished
            },
    {
        if self.next < self.plan.len() {
            let entry = &self.plan[self.next];
            let key = entry.0.clone();
            let mut payload: Vec<u8> = Vec::new();
            extend_bytes(&mut payload, &entry.1);
            proof {
                assert(payload@ =~= entry.1@);
                assert(plan_views(self.plan@)[self.next as int] == (entry.0@, entry.1@));
            }
            self.next = self.next + 1;
            Some((key, payload))
        } else {
            self.phase = FlushPhase::Finished;
            None
        }
    }

    /// The worker's append of the most recently handed-out group failed: the
    /// flush call ends with `AppendFailure` naming that group's series key,
    /// and no further group is attempted.
    pub fn append_failed(&mut self) -> (e: MetricsError)
        requires
            old(self).wf(),
            old(self).phase_of() == FlushPhase::Appending,
            0 < old(self).next_index(),
        ensures
            final(self).wf(),
            final(self).phase_of() == FlushPhase::Finished,
            final(self).plan_view() == old(self).plan_view(),
            final(self).next_index() == old(self).next_index(),
            final(self).request_spec() == old(self).request_spec(),
            e matches MetricsError::AppendFailure { series_key } && series_key@ == old(
                self,
            ).plan_view()[old(self).next_index() - 1].0,
    {
        let entry = &self.plan[self.next - 1];
        let key = entry.0.clone();
        proof {
            assert(plan_views(self.plan@)[self.next - 1] == (entry.0@, entry.1@));
        }
        self.phase = FlushPhase::Finished;
        MetricsError::AppendFailure { series_key: key }
    }

    /// How many planned appends have not been handed out yet.
    pub fn pending_appends(&self) -> (n: usize)
        requires
            self.wf(),
        ensures
            n as int == self.plan_view().len() - self.next_index(),
    {
        self.plan.len() - self.next
    }

    /// The session has ended, by exhausting its plan or by a reported
    /// failure.
    pub fn is_finished(&self) -> (r: bool)
        ensures
            r == (self.phase_of() == FlushPhase::Finished),
    {
        match self.phase {
            FlushPhase::Finished => true,
            _ => false,
        }
    }
}

} // verus!
