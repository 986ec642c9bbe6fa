//! Per-type accumulation of blobs and the flush-at-threshold policy.
//!
//! An [`Accumulator`] is the mutable builder for exactly one in-flight
//! container. A [`BatchWriter`] owns one accumulator and a count threshold:
//! every blob offered to it is appended, and the moment the entry count
//! reaches the threshold the filled container is sealed and handed back
//! while a fresh, empty one takes its place. Each logical type has its own
//! batch writer; nothing is shared across types.

use vstd::prelude::*;
use crate::storage::{Container, ContainerModel, TocEntry, spec_empty_model};

verus! {

/// A mutable builder for exactly one in-flight container.
pub struct Accumulator {
    pub container: Container,
}

impl Accumulator {
    /// An empty accumulator bound to one logical type.
    pub fn new(type_id: u32) -> (r: Accumulator)
        ensures
            r.container@ =~= spec_empty_model(type_id),
            r.container.wf(),
            r.container.sizes_consistent(),
    {
        Accumulator { container: Container::new(type_id) }
    }

    /// Appends one blob; always succeeds while the table of contents has
    /// room for another record.
    pub fn append(&mut self, writer_id: u32, data: &[u8])
        requires
            old(self).container.wf(),
            old(self).container@.toc.len() < u32::MAX,
            data@.len() <= u32::MAX,
        ensures
            final(self).container.wf(),
            final(self).container@.data == old(self).container@.data + data@,
            final(self).container@.toc.len() == old(self).container@.toc.len() + 1,
            final(self).container@.toc.drop_last() == old(self).container@.toc,
            final(self).container@.toc.last().writer_id == writer_id,
            final(self).container@.toc.last().data_size == data@.len() as u32,
            final(self).container.file_header == old(self).container.file_header,
            final(self).container.data_header == old(self).container.data_header,
            old(self).container.sizes_consistent() ==> final(self).container.sizes_consistent(),
    {
        self.container.push(writer_id, data);
    }

    /// The number of entries accumulated so far.
    pub fn len(&self) -> (n: usize)
        ensures
            n == self.container@.toc.len(),
    {
        self.container.toc.len()
    }

    /// Freezes the current container for encoding and replaces it with a
    /// fresh, empty one of the same type.
    pub fn finalize(&mut self) -> (c: Container)
        ensures
            c == old(self).container,
            final(self).container@ =~= spec_empty_model(old(self).container@.type_id),
            final(self).container.wf(),
            final(self).container.sizes_consistent(),
    {
        let type_id = self.container.data_header.type_id;
        let mut sealed = Container::new(type_id);
        core::mem::swap(&mut self.container, &mut sealed);
        sealed
    }
}

/// One accepted blob together with the identity of its writer and the
/// moment of acceptance. The model of one event fed to a batch writer.
pub struct BatchEvent {
    pub writer_id: u32,
    pub timestamp: u64,
    pub data: Seq<u8>,
}

impl BatchEvent {
    /// The table-of-contents record this event leaves behind.
    pub open spec fn entry(self) -> TocEntry {
        TocEntry {
            writer_id: self.writer_id,
            data_size: self.data.len() as u32,
            timestamp: self.timestamp,
        }
    }
}

/// One step of the batching policy: the event's record and bytes are
/// appended; if that brings the entry count to the threshold, the filled
/// container is flushed and the accumulator starts over empty.
pub open spec fn batch_step(threshold: u32, acc: ContainerModel, ev: BatchEvent) -> (ContainerModel, Option<ContainerModel>) {
    let filled = ContainerModel {
        toc: acc.toc.push(ev.entry()),
        data: acc.data + ev.data,
        ..acc
    };
    if filled.toc.len() >= threshold {
        (spec_empty_model(acc.type_id), Some(filled))
    } else {
        (filled, None)
    }
}

/// The batching policy folded over a whole sequence of events, starting
/// from an empty accumulator: the final accumulator state and every
/// container flushed along the way, in flush order.
pub open spec fn batch_run(threshold: u32, type_id: u32, events: Seq<BatchEvent>) -> (ContainerModel, Seq<ContainerModel>)
    decreases events.len(),
{
    if events.len() == 0 {
        (spec_empty_model(type_id), Seq::empty())
    } else {
        let prev = batch_run(threshold, type_id, events.drop_last());
        let step = batch_step(threshold, prev.0, events.last());
        (
            step.0,
            if step.1 is Some {
                prev.1.push(step.1->0)
            } else {
                prev.1
            },
        )
    }
}

/// The records the events leave behind, in order.
pub open spec fn events_toc(events: Seq<BatchEvent>) -> Seq<TocEntry> {
    events.map_values(|ev: BatchEvent| ev.entry())
}

/// The events' payload bytes, concatenated in order.
pub open spec fn events_data(events: Seq<BatchEvent>) -> Seq<u8>
    decreases events.len(),
{
    if events.len() == 0 {
        Seq::empty()
    } else {
        events_data(events.drop_last()) + events.last().data
    }
}

/// The tables of contents of a run's flushed containers, concatenated in
/// flush order.
pub open spec fn flushed_tocs(flushed: Seq<ContainerModel>) -> Seq<TocEntry>
    decreases flushed.len(),
{
    if flushed.len() == 0 {
        Seq::empty()
    } else {
        flushed_tocs(flushed.drop_last()) + flushed.last().toc
    }
}

/// Below the threshold nothing is flushed: the accumulator holds every
/// event's record and payload, in submission order, and nothing else.
pub proof fn lemma_batch_accumulates(threshold: u32, type_id: u32, events: Seq<BatchEvent>)
    requires
        threshold >= 1,
        events.len() < threshold,
    ensures
        ({
            let r = batch_run(threshold, type_id, events);
            &&& r.1 == Seq::<ContainerModel>::empty()
            &&& r.0 == (ContainerModel {
                toc: events_toc(events),
                data: events_data(events),
                ..spec_empty_model(type_id)
            })
        }),
    decreases events.len(),
{
    let r = batch_run(threshold, type_id, events);
    if events.len() == 0 {
        assert(events_toc(events) =~= Seq::<TocEntry>::empty());
        assert(r.0 =~= (ContainerModel {
            toc: events_toc(events),
            data: events_data(events),
            ..spec_empty_model(type_id)
        }));
    } else {
        lemma_batch_accumulates(threshold, type_id, events.drop_last());
        assert(events_toc(events)
            =~= events_toc(events.drop_last()).push(events.last().entry()));
        assert(r.0 =~= (ContainerModel {
            toc: events_toc(events),
            data: events_data(events),
            ..spec_empty_model(type_id)
        }));
    }
}

/// Threshold-triggered flush: exactly `threshold` events produce exactly one
/// flushed container, holding every record in submission order and the
/// payloads concatenated in the same order, and leave the accumulator empty.
pub proof fn lemma_threshold_flush(threshold: u32, type_id: u32, events: Seq<BatchEvent>)
    requires
        threshold >= 1,
        events.len() == threshold,
    ensures
        ({
            let r = batch_run(threshold, type_id, events);
            &&& r.1.len() == 1
            &&& r.1[0] == (ContainerModel {
                toc: events_toc(events),
                data: events_data(events),
                ..spec_empty_model(type_id)
            })
            &&& r.0 == spec_empty_model(type_id)
        }),
{
    lemma_batch_accumulates(threshold, type_id, events.drop_last());
    let r = batch_run(threshold, type_id, events);
    assert(events_toc(events)
        =~= events_toc(events.drop_last()).push(events.last().entry()));
    assert(r.1[0] =~= (ContainerModel {
        toc: events_toc(events),
        data: events_data(events),
        ..spec_empty_model(type_id)
    }));
    assert(r.0 =~= spec_empty_model(type_id));
}

/// After a flush the next blob begins a new, still-unflushed batch: one
/// event past the threshold there is still exactly one flushed container,
/// and the accumulator holds just that one extra record and payload.
/// (With a threshold of one every blob flushes at once, so the statement
/// holds from a threshold of two upward.)
pub proof fn lemma_flush_then_accumulate(threshold: u32, type_id: u32, events: Seq<BatchEvent>)
    requires
        threshold >= 2,
        events.len() == threshold + 1,
    ensures
        ({
            let r = batch_run(threshold, type_id, events);
            &&& r.1.len() == 1
            &&& r.1[0] == (ContainerModel {
                toc: events_toc(events.take(threshold as int)),
                data: events_data(events.take(threshold as int)),
                ..spec_empty_model(type_id)
            })
            &&& r.0.toc == seq![events.last().entry()]
            &&& r.0.data == events.last().data
        }),
{
    assert(events.drop_last() =~= events.take(threshold as int));
    lemma_threshold_flush(threshold, type_id, events.take(threshold as int));
    let r = batch_run(threshold, type_id, events);
    assert(r.0.toc =~= seq![events.last().entry()]);
    assert(r.0.data =~= events.last().data);
}

/// Type isolation and order preservation: every container a type's run
/// flushes carries that type and exactly `threshold` records, and the
/// flushed records followed by the accumulated ones are exactly the records
/// of the events fed to this run, in submission order. An event routed to
/// another type's run can therefore never surface here.
pub proof fn lemma_type_isolation(threshold: u32, type_id: u32, events: Seq<BatchEvent>)
    requires
        threshold >= 1,
    ensures
        ({
            let r = batch_run(threshold, type_id, events);
            &&& r.0.type_id == type_id
            &&& r.0.toc.len() < threshold
            &&& forall|j: int| 0 <= j < r.1.len() ==> (#[trigger] r.1[j]).type_id == type_id
            &&& forall|j: int| 0 <= j < r.1.len() ==> (#[trigger] r.1[j]).toc.len() == threshold
            &&& flushed_tocs(r.1) + r.0.toc == events_toc(events)
        }),
    decreases events.len(),
{
    let r = batch_run(threshold, type_id, events);
    if events.len() == 0 {
        assert(flushed_tocs(r.1) + r.0.toc =~= events_toc(events));
    } else {
        lemma_type_isolation(threshold, type_id, events.drop_last());
        let prev = batch_run(threshold, type_id, events.drop_last());
        let step = batch_step(threshold, prev.0, events.last());
        assert(events_toc(events)
            =~= events_toc(events.drop_last()).push(events.last().entry()));
        if step.1 is Some {
            assert(r.1.drop_last() =~= prev.1);
            assert(r.1.last() == step.1->0);
            assert(flushed_tocs(r.1) == flushed_tocs(prev.1) + (step.1->0).toc);
            assert(flushed_tocs(r.1) + r.0.toc =~= events_toc(events));
        } else {
            assert(flushed_tocs(r.1) + r.0.toc =~= events_toc(events));
        }
    }
}

/// The consumer loop bound to one logical type: an accumulator plus the
/// count threshold at which a batch is sealed.
pub struct BatchWriter {
    pub threshold: u32,
    pub acc: Accumulator,
}

impl BatchWriter {
    /// The writer's standing invariant: a meaningful threshold, a sound
    /// container whose declared sizes match its payload, and room for at
    /// least one more entry.
    pub open spec fn wf(self) -> bool {
        &&& self.threshold >= 1
        &&& self.acc.container.wf()
        &&& self.acc.container.sizes_consistent()
        &&& self.acc.container@.toc.len() < self.threshold
    }

    /// A writer for one type, with an empty accumulator.
    pub fn new(type_id: u32, threshold: u32) -> (r: BatchWriter)
        requires
            threshold >= 1,
        ensures
            r.wf(),
            r.threshold == threshold,
            r.acc.container@ =~= spec_empty_model(type_id),
    {
        BatchWriter { threshold, acc: Accumulator::new(type_id) }
    }

    /// Accepts one blob, stamped with the wall clock. Returns the sealed
    /// container exactly when this blob brings the batch to the threshold;
    /// the accumulator then starts over empty. The relation to the previous
    /// state is `batch_step` for the timestamp the clock supplied.
    pub fn offer(&mut self, writer_id: u32, data: &[u8]) -> (r: Option<Container>)
        requires
            old(self).wf(),
            data@.len() <= u32::MAX,
        ensures
            final(self).wf(),
            final(self).threshold == old(self).threshold,
            final(self).acc.container@.type_id == old(self).acc.container@.type_id,
            exists|t: u64|
                {
                    let step = #[trigger] batch_step(
                        old(self).threshold,
                        old(self).acc.container@,
                        BatchEvent { writer_id, timestamp: t, data: data@ },
                    );
                    &&& final(self).acc.container@ == step.0
                    &&& match r {
                        Some(c) => {
                            &&& step.1 == Some(c@)
                            &&& c.wf()
                            &&& c.sizes_consistent()
                        },
                        None => step.1 is None,
                    }
                },
    {
        self.acc.append(writer_id, data);
        let ghost t = self.acc.container@.toc.last().timestamp;
        let ghost ev = BatchEvent { writer_id, timestamp: t, data: data@ };
        proof {
            assert(self.acc.container@.toc =~= old(self).acc.container@.toc.push(ev.entry()));
        }
        if self.acc.len() >= self.threshold as usize {
            let sealed = self.acc.finalize();
            proof {
                let step = batch_step(old(self).threshold, old(self).acc.container@, ev);
                assert(self.acc.container@ =~= step.0);
                assert(step.1 == Some(sealed@));
            }
            Some(sealed)
        } else {
            proof {
                let step = batch_step(old(self).threshold, old(self).acc.container@, ev);
                assert(self.acc.container@ =~= step.0);
            }
            None
        }
    }
}

} // verus!
