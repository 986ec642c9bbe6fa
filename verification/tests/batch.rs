use blobstore::batch::{Accumulator, BatchWriter};

#[test]
fn threshold_triggers_exactly_one_flush() {
    let mut w = BatchWriter::new(5, 3);
    assert!(w.offer(1, b"aa").is_none());
    assert!(w.offer(2, b"bb").is_none());
    let sealed = match w.offer(3, b"cc") {
        Some(c) => c,
        None => panic!("third blob must flush"),
    };
    assert_eq!(sealed.data_header.type_id, 5);
    assert_eq!(sealed.toc.len(), 3);
    assert_eq!(sealed.toc[0].writer_id, 1);
    assert_eq!(sealed.toc[1].writer_id, 2);
    assert_eq!(sealed.toc[2].writer_id, 3);
    assert_eq!(sealed.data, b"aabbcc".to_vec());
    // The next blob begins a new, still-unflushed batch.
    assert!(w.offer(4, b"dd").is_none());
    assert_eq!(w.acc.container.toc.len(), 1);
    assert_eq!(w.acc.container.toc[0].writer_id, 4);
    assert_eq!(w.acc.container.data, b"dd".to_vec());
}

#[test]
fn threshold_of_one_flushes_every_blob() {
    let mut w = BatchWriter::new(8, 1);
    let first = w.offer(1, b"x").expect("must flush at once");
    assert_eq!(first.toc.len(), 1);
    let second = w.offer(2, b"y").expect("must flush at once");
    assert_eq!(second.toc.len(), 1);
    assert_eq!(second.toc[0].writer_id, 2);
    assert_eq!(w.acc.container.toc.len(), 0);
}

#[test]
fn interleaved_types_stay_isolated() {
    let mut wa = BatchWriter::new(1, 2);
    let mut wb = BatchWriter::new(2, 2);
    assert!(wa.offer(1, b"a-first").is_none());
    assert!(wb.offer(2, b"b-first").is_none());
    let a = wa.offer(3, b"a-second").expect("second blob of A must flush A");
    let b = wb.offer(4, b"b-second").expect("second blob of B must flush B");
    assert_eq!(a.data_header.type_id, 1);
    assert_eq!(b.data_header.type_id, 2);
    assert_eq!(a.data, b"a-firsta-second".to_vec());
    assert_eq!(b.data, b"b-firstb-second".to_vec());
    assert_eq!(a.toc[0].writer_id, 1);
    assert_eq!(a.toc[1].writer_id, 3);
    assert_eq!(b.toc[0].writer_id, 2);
    assert_eq!(b.toc[1].writer_id, 4);
}

#[test]
fn accumulator_builds_and_restarts() {
    let mut acc = Accumulator::new(6);
    assert_eq!(acc.len(), 0);
    acc.append(1, b"one");
    acc.append(2, b"two");
    assert_eq!(acc.len(), 2);
    let sealed = acc.finalize();
    assert_eq!(sealed.data_header.type_id, 6);
    assert_eq!(sealed.toc.len(), 2);
    assert_eq!(sealed.data, b"onetwo".to_vec());
    assert_eq!(acc.len(), 0);
    assert_eq!(acc.container.data_header.type_id, 6);
    assert_eq!(acc.container.data.len(), 0);
}

#[test]
fn flushed_container_round_trips() {
    let mut w = BatchWriter::new(11, 2);
    assert!(w.offer(7, b"payload-a").is_none());
    let sealed = w.offer(8, b"payload-b").expect("must flush");
    let bytes = sealed.encode();
    let d = blobstore::storage::Container::decode(&bytes).expect("must decode");
    assert_eq!(d.data_header.type_id, 11);
    assert_eq!(d.toc.len(), 2);
    assert_eq!(d.data, b"payload-apayload-b".to_vec());
}
