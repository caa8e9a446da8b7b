//! Sequenced events with a bounded replay buffer. Every published event gets
//! the next sequence number; a subscriber that reconnects with the last
//! sequence it saw is replayed what it missed, or told to resynchronise when
//! the buffer no longer reaches back that far.
use vstd::prelude::*;
use crate::models::{JobStatus, ProgressSnapshot};

verus! {

#[derive(Debug)]
pub enum Event {
    JobStatus { job_id: u128, status: JobStatus, error: Option<String> },
    Progress(ProgressSnapshot),
    /// Managed component provisioning state or download progress changed;
    /// the component and its state are given by their wire names.
    Component {
        component: String,
        state: String,
        progress_pct: Option<u8>,
        bytes_downloaded: Option<u64>,
        bytes_total: Option<u64>,
        message: Option<String>,
    },
    QueueChanged,
    ResyncRequired { oldest_available: u64, newest_available: u64 },
}

fn copy_text(o: &Option<String>) -> (r: Option<String>)
    ensures
        r == *o,
{
    match o {
        Some(s) => Some(s.clone()),
        None => None,
    }
}

impl Event {
    /// An identical copy.
    pub fn duplicate(&self) -> (e: Event)
        ensures
            e == *self,
    {
        match self {
            Event::JobStatus { job_id, status, error } => Event::JobStatus {
                job_id: *job_id,
                status: *status,
                error: copy_text(error),
            },
            Event::Progress(p) => Event::Progress(*p),
            Event::Component { component, state, progress_pct, bytes_downloaded, bytes_total, message } => {
                Event::Component {
                    component: component.clone(),
                    state: state.clone(),
                    progress_pct: *progress_pct,
                    bytes_downloaded: *bytes_downloaded,
                    bytes_total: *bytes_total,
                    message: copy_text(message),
                }
            },
            Event::QueueChanged => Event::QueueChanged,
            Event::ResyncRequired { oldest_available, newest_available } => Event::ResyncRequired {
                oldest_available: *oldest_available,
                newest_available: *newest_available,
            },
        }
    }
}

#[derive(Debug)]
pub struct SequencedEvent {
    pub sequence: u64,
    pub event: Event,
}

impl SequencedEvent {
    /// An identical copy.
    pub fn duplicate(&self) -> (e: SequencedEvent)
        ensures
            e == *self,
    {
        SequencedEvent { sequence: self.sequence, event: self.event.duplicate() }
    }
}

#[derive(Debug, Clone, Copy)]
pub struct EventStats {
    pub replay_buffer_events: usize,
    pub replayed_events_total: u64,
    pub resync_required_total: u64,
    pub receiver_count: usize,
    pub sequence_span: u64,
}

/// The events of `s` whose sequence is after `last`, in order.
pub open spec fn after_sequence(s: Seq<SequencedEvent>, last: u64) -> Seq<SequencedEvent>
    decreases s.len(),
{
    if s.len() == 0 {
        s
    } else {
        let rest = after_sequence(s.drop_last(), last);
        if s.last().sequence > last {
            rest.push(s.last())
        } else {
            rest
        }
    }
}

pub open spec fn has_resync(s: Seq<SequencedEvent>) -> bool {
    exists|i: int| 0 <= i < s.len() && (#[trigger] s[i]).event is ResyncRequired
}

pub open spec fn sat_add(a: u64, b: int) -> u64 {
    if a + b > u64::MAX { u64::MAX } else { (a + b) as u64 }
}

pub open spec fn min_int(a: int, b: int) -> int {
    if a <= b { a } else { b }
}

/// The replay state behind the event bus.
pub struct EventLog {
    next_sequence: u64,
    replay: Vec<SequencedEvent>,
    replay_capacity: usize,
    replayed_events_total: u64,
    resync_required_total: u64,
}

impl EventLog {
    #[verifier::type_invariant]
    closed spec fn well_formed(self) -> bool {
        &&& 1 <= self.replay_capacity
        &&& self.replay@.len() <= self.replay_capacity
        &&& 1 <= self.next_sequence
        &&& forall|i: int|
            0 <= i < self.replay@.len() ==> (#[trigger] self.replay@[i]).sequence < self.next_sequence
                || self.next_sequence == u64::MAX
        &&& forall|i: int, j: int|
            0 <= i < j < self.replay@.len() ==> (#[trigger] self.replay@[i]).sequence
                <= (#[trigger] self.replay@[j]).sequence
        &&& self.next_sequence < u64::MAX ==> self.replay@.len() == min_int(
            self.next_sequence - 1,
            self.replay_capacity as int,
        )
        &&& self.next_sequence < u64::MAX ==> forall|i: int|
            0 <= i < self.replay@.len() ==> (#[trigger] self.replay@[i]).sequence == self.next_sequence
                - self.replay@.len() + i
    }

    /// The buffer holds at most `capacity` events, in sequence order, all
    /// numbered before the next sequence.
    pub closed spec fn valid(&self) -> bool {
        self.well_formed()
    }

    /// The buffered events, oldest first.
    pub closed spec fn buffered(&self) -> Seq<SequencedEvent> {
        self.replay@
    }

    /// The sequence the next published event receives.
    pub closed spec fn next_seq(&self) -> u64 {
        self.next_sequence
    }

    pub closed spec fn capacity(&self) -> usize {
        self.replay_capacity
    }

    pub closed spec fn replayed_total(&self) -> u64 {
        self.replayed_events_total
    }

    pub closed spec fn resync_total(&self) -> u64 {
        self.resync_required_total
    }

    /// The oldest sequence still buffered, or the next one when nothing is.
    pub open spec fn oldest(&self) -> u64 {
        if self.buffered().len() > 0 {
            self.buffered()[0].sequence
        } else {
            self.next_seq()
        }
    }

    /// The newest sequence handed out so far.
    pub open spec fn newest(&self) -> u64 {
        if self.next_seq() >= 1 { (self.next_seq() - 1) as u64 } else { 0 }
    }

    /// What a subscriber reconnecting after `last` is replayed.
    pub open spec fn replay_for(&self, last: Option<u64>) -> Seq<SequencedEvent> {
        match last {
            None => Seq::empty(),
            Some(l) => if sat_add(l, 1) < self.oldest() {
                seq![SequencedEvent {
                    sequence: self.newest(),
                    event: Event::ResyncRequired {
                        oldest_available: self.oldest(),
                        newest_available: self.newest(),
                    },
                }]
            } else {
                after_sequence(self.buffered(), l)
            },
        }
    }

    /// The buffer after `event` is published: the oldest entry leaves when
    /// the buffer is full.
    pub open spec fn buffer_after_publish(&self, event: Event) -> Seq<SequencedEvent> {
        let kept = if self.buffered().len() == self.capacity() {
            self.buffered().drop_first()
        } else {
            self.buffered()
        };
        kept.push(SequencedEvent { sequence: self.next_seq(), event })
    }

    /// A buffer that holds at most `capacity` events, at least one.
    pub fn new(capacity: usize) -> (log: Self)
        ensures
            log.capacity() == if capacity >= 1 { capacity } else { 1 },
            log.buffered().len() == 0,
            log.next_seq() == 1,
            log.replayed_total() == 0,
            log.resync_total() == 0,
            log.valid(),
    {
        EventLog {
            next_sequence: 1,
            replay: Vec::new(),
            replay_capacity: if capacity >= 1 { capacity } else { 1 },
            replayed_events_total: 0,
            resync_required_total: 0,
        }
    }

    /// Gives `event` the next sequence number and buffers it; returns the
    /// sequenced event for delivery to live subscribers.
    pub fn publish(&mut self, event: Event) -> (sequenced: SequencedEvent)
        ensures
            sequenced == (SequencedEvent { sequence: old(self).next_seq(), event }),
            final(self).buffered() == old(self).buffer_after_publish(event),
            final(self).next_seq() == sat_add(old(self).next_seq(), 1),
            final(self).capacity() == old(self).capacity(),
            final(self).replayed_total() == old(self).replayed_total(),
            final(self).resync_total() == old(self).resync_total(),
            final(self).valid(),
    {
        proof {
            use_type_invariant(&*self);
        }
        let mut taken = EventLog::new(1);
        std::mem::swap(self, &mut taken);
        proof {
            use_type_invariant(&taken);
        }
        let EventLog {
            next_sequence,
            replay: mut replay,
            replay_capacity,
            replayed_events_total,
            resync_required_total,
        } = taken;
        let sequenced = SequencedEvent { sequence: next_sequence, event };
        let copy = sequenced.duplicate();
        let ghost before = replay@;
        if replay.len() == replay_capacity {
            replay.remove(0);
            proof {
                assert(replay@ =~= before.drop_first());
            }
        }
        let ghost kept = replay@;
        replay.push(copy);
        let next = next_sequence.saturating_add(1);
        proof {
            assert forall|i: int| 0 <= i < replay@.len() implies (#[trigger] replay@[i]).sequence < next
                || next == u64::MAX by {
                if i < kept.len() {
                    if before.len() == replay_capacity {
                        assert(kept[i] == before[i + 1]);
                    }
                }
            }
            assert forall|i: int, j: int| 0 <= i < j < replay@.len() implies (#[trigger] replay@[i]).sequence
                <= (#[trigger] replay@[j]).sequence by {
                if before.len() == replay_capacity {
                    if j < kept.len() {
                        assert(kept[i] == before[i + 1]);
                        assert(kept[j] == before[j + 1]);
                    } else {
                        assert(kept[i] == before[i + 1]);
                    }
                }
            }
        }
        proof {
            if next < u64::MAX {
                assert(kept.len() == if before.len() == replay_capacity {
                    before.len() - 1
                } else {
                    before.len() as int
                });
                assert forall|i: int| 0 <= i < replay@.len() implies (#[trigger] replay@[i]).sequence == next
                    - replay@.len() + i by {
                    if i < kept.len() {
                        if before.len() == replay_capacity {
                            assert(kept[i] == before[i + 1]);
                        } else {
                            assert(kept[i] == before[i]);
                        }
                    }
                }
            }
        }
        *self = EventLog {
            next_sequence: next,
            replay,
            replay_capacity,
            replayed_events_total,
            resync_required_total,
        };
        sequenced
    }

    /// The events a subscriber that last saw `last_sequence` has missed (see
    /// `replay_for`), counted in the replay statistics.
    pub fn subscribe_from(&mut self, last_sequence: Option<u64>) -> (replay: Vec<SequencedEvent>)
        ensures
            replay@ == old(self).replay_for(last_sequence),
            final(self).buffered() == old(self).buffered(),
            final(self).next_seq() == old(self).next_seq(),
            final(self).capacity() == old(self).capacity(),
            final(self).replayed_total() == sat_add(old(self).replayed_total(), replay@.len() as int),
            final(self).resync_total() == if has_resync(replay@) {
                sat_add(old(self).resync_total(), 1)
            } else {
                old(self).resync_total()
            },
            final(self).valid(),
    {
        proof {
            use_type_invariant(&*self);
        }
        let newest = self.next_sequence - 1;
        let oldest = if self.replay.len() > 0 {
            self.replay[0].sequence
        } else {
            self.next_sequence
        };
        let mut out: Vec<SequencedEvent> = Vec::new();
        match last_sequence {
            None => {},
            Some(last) => {
                if last.saturating_add(1) < oldest {
                    out.push(
                        SequencedEvent {
                            sequence: newest,
                            event: Event::ResyncRequired { oldest_available: oldest, newest_available: newest },
                        },
                    );
                    proof {
                        assert(out@ =~= self.replay_for(last_sequence));
                    }
                } else {
                    let mut i: usize = 0;
                    while i < self.replay.len()
                        invariant
                            i <= self.replay@.len(),
                            out@ == after_sequence(self.replay@.subrange(0, i as int), last),
                        decreases self.replay@.len() - i,
                    {
                        let ghost prefix = self.replay@.subrange(0, i as int + 1);
                        proof {
                            assert(prefix.drop_last() =~= self.replay@.subrange(0, i as int));
                            assert(prefix.last() == self.replay@[i as int]);
                        }
                        if self.replay[i].sequence > last {
                            out.push(self.replay[i].duplicate());
                        }
                        i = i + 1;
                    }
                    proof {
                        assert(self.replay@.subrange(0, self.replay@.len() as int) =~= self.replay@);
                    }
                }
            },
        }
        let count: u64 = if out.len() as u128 > u64::MAX as u128 {
            u64::MAX
        } else {
            out.len() as u64
        };
        self.replayed_events_total = self.replayed_events_total.saturating_add(count);
        let mut any_resync = false;
        let mut k: usize = 0;
        while k < out.len()
            invariant
                k <= out@.len(),
                any_resync == exists|j: int| 0 <= j < k && (#[trigger] out@[j]).event is ResyncRequired,
            decreases out@.len() - k,
        {
            match &out[k].event {
                Event::ResyncRequired { .. } => {
                    any_resync = true;
                },
                _ => {},
            }
            k = k + 1;
        }
        if any_resync {
            self.resync_required_total = self.resync_required_total.saturating_add(1);
        }
        proof {
            use_type_invariant(&*self);
        }
        out
    }

    /// Replay and sequence statistics; the live receiver count comes from
    /// the channel that delivers events.
    pub fn stats(&self, receiver_count: usize) -> (s: EventStats)
        ensures
            s.replay_buffer_events == self.buffered().len(),
            s.replayed_events_total == self.replayed_total(),
            s.resync_required_total == self.resync_total(),
            s.receiver_count == receiver_count,
            s.sequence_span == self.next_seq() - self.oldest(),
    {
        proof {
            use_type_invariant(self);
        }
        let oldest = if self.replay.len() > 0 {
            self.replay[0].sequence
        } else {
            self.next_sequence
        };
        EventStats {
            replay_buffer_events: self.replay.len(),
            replayed_events_total: self.replayed_events_total,
            resync_required_total: self.resync_required_total,
            receiver_count,
            sequence_span: self.next_sequence - oldest,
        }
    }
}


/// Events at or before `last` are not replayed; a later one is appended.
proof fn lemma_after_sequence_push(s: Seq<SequencedEvent>, x: SequencedEvent, last: u64)
    requires
        forall|i: int| 0 <= i < s.len() ==> (#[trigger] s[i]).sequence <= last,
        x.sequence > last,
    ensures
        after_sequence(s.push(x), last) == seq![x],
{
    lemma_after_sequence_none(s, last);
    assert(s.push(x).drop_last() =~= s);
    assert(Seq::<SequencedEvent>::empty().push(x) =~= seq![x]);
}

proof fn lemma_after_sequence_none(s: Seq<SequencedEvent>, last: u64)
    requires
        forall|i: int| 0 <= i < s.len() ==> (#[trigger] s[i]).sequence <= last,
    ensures
        after_sequence(s, last) == Seq::<SequencedEvent>::empty(),
    decreases s.len(),
{
    if s.len() > 0 {
        assert(s.last().sequence <= last);
        assert forall|i: int| 0 <= i < s.drop_last().len() implies (#[trigger] s.drop_last()[i]).sequence <= last by {
            assert(s.drop_last()[i] == s[i]);
        }
        lemma_after_sequence_none(s.drop_last(), last);
    }
}

/// Until the counter saturates, a published event's sequence is above that
/// of every event still buffered.
pub proof fn lemma_sequences_increase(log: EventLog, event: Event)
    requires
        log.valid(),
        log.next_seq() < u64::MAX,
    ensures
        forall|i: int| 0 <= i < log.buffered().len() ==> (#[trigger] log.buffered()[i]).sequence < log.next_seq(),
        log.buffer_after_publish(event).last().sequence == log.next_seq(),
        log.buffer_after_publish(event).len() <= log.capacity(),
{
}

/// Until the counter saturates, the buffer holds the last
/// `min(published, capacity)` events, numbered consecutively up to the
/// newest: the sequence span equals the number of buffered events.
pub proof fn lemma_buffer_is_consecutive(log: EventLog)
    requires
        log.valid(),
        log.next_seq() < u64::MAX,
    ensures
        log.buffered().len() == min_int(log.next_seq() - 1, log.capacity() as int),
        log.next_seq() - log.oldest() == log.buffered().len(),
        forall|i: int|
            0 <= i < log.buffered().len() ==> (#[trigger] log.buffered()[i]).sequence == log.oldest() + i,
{
}

/// A subscriber that saw everything up to the newest event and reconnects
/// after one more event was published is replayed exactly that event.
pub proof fn lemma_reconnect_replays_what_was_published(before: EventLog, after: EventLog, event: Event)
    requires
        before.valid(),
        before.next_seq() < u64::MAX,
        after.buffered() == before.buffer_after_publish(event),
        after.next_seq() == before.next_seq() + 1,
        after.capacity() == before.capacity(),
    ensures
        after.replay_for(Some(before.newest())) == seq![SequencedEvent { sequence: before.next_seq(), event }],
{
    let last = before.newest();
    let x = SequencedEvent { sequence: before.next_seq(), event };
    let kept = if before.buffered().len() == before.capacity() {
        before.buffered().drop_first()
    } else {
        before.buffered()
    };
    assert(after.buffered() == kept.push(x));
    assert forall|i: int| 0 <= i < kept.len() implies (#[trigger] kept[i]).sequence <= last by {
        if before.buffered().len() == before.capacity() {
            assert(kept[i] == before.buffered()[i + 1]);
            assert(before.buffered()[i + 1].sequence < before.next_seq());
        } else {
            assert(before.buffered()[i].sequence < before.next_seq());
        }
    }
    lemma_after_sequence_push(kept, x, last);
    if kept.len() > 0 {
        assert(after.buffered()[0] == kept[0]);
    } else {
        assert(after.buffered()[0] == x);
    }
    assert(after.oldest() <= before.next_seq());
}

} // verus!
