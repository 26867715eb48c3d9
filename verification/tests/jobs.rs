use protocore::jobs::InFlightQueue;
use protocore::jobs::JobQueues;
use protocore::jobs::ResponseStatus;

#[test]
fn ids_are_fresh_and_in_order() {
    let mut q = JobQueues::new();
    assert_eq!(q.add(b"q1".to_vec(), b"{}".to_vec(), 5), 0);
    assert_eq!(q.add(b"q1".to_vec(), b"{}".to_vec(), 9), 1);
    assert_eq!(q.add(b"q2".to_vec(), b"{}".to_vec(), 7), 2);
    assert_eq!(q.jobs.len(), 3);
}

#[test]
fn next_best_takes_the_highest_watched_priority() {
    let mut q = JobQueues::new();
    q.add(b"q1".to_vec(), b"a".to_vec(), 5);
    q.add(b"q1".to_vec(), b"b".to_vec(), 9);
    q.add(b"q2".to_vec(), b"c".to_vec(), 100);

    let j = q.next_best(&vec![b"q1".to_vec()]).unwrap();
    assert_eq!(j.pri, 9);
    assert_eq!(j.job, b"b".to_vec());
    assert_eq!(q.jobs.len(), 2);

    // The unwatched queue is invisible.
    assert!(q.next_best(&vec![b"q9".to_vec()]).is_none());

    let j = q.next_best(&vec![b"q1".to_vec(), b"q2".to_vec()]).unwrap();
    assert_eq!(j.pri, 100);
}

#[test]
fn del_removes_a_waiting_job() {
    let mut q = JobQueues::new();
    let id = q.add(b"q1".to_vec(), b"a".to_vec(), 5);
    assert!(q.del(id).is_some());
    assert!(q.del(id).is_none());
    assert!(q.jobs.is_empty());
}

#[test]
fn abort_returns_the_job_to_its_queue() {
    let mut q = JobQueues::new();
    let mut inflight = InFlightQueue::new();
    q.add(b"q1".to_vec(), b"a".to_vec(), 5);

    let j = q.next_best(&vec![b"q1".to_vec()]).unwrap();
    let id = j.id;
    inflight.add(j, 77);
    assert!(q.jobs.is_empty());

    // Another client may not abort it.
    assert!(inflight.abort(&mut q, id, 78).is_err());
    assert_eq!(inflight.0.len(), 1);

    // Its own client may, and the job waits again.
    assert_eq!(inflight.abort(&mut q, id, 77), Ok(Some(())));
    assert!(inflight.0.is_empty());
    assert_eq!(q.jobs.len(), 1);
    assert_eq!(q.jobs[0].id, id);

    // Aborting an unknown job is a quiet no-op.
    assert_eq!(inflight.abort(&mut q, 999, 77), Ok(None));
}

#[test]
fn inflight_del_drops_the_entry() {
    let mut q = JobQueues::new();
    let mut inflight = InFlightQueue::new();
    q.add(b"q1".to_vec(), b"a".to_vec(), 5);
    let j = q.next_best(&vec![b"q1".to_vec()]).unwrap();
    let id = j.id;
    inflight.add(j, 1);
    assert!(inflight.del(id).is_some());
    assert!(inflight.del(id).is_none());
}

#[test]
fn cleanup_restores_a_whole_client() {
    let mut q = JobQueues::new();
    let mut inflight = InFlightQueue::new();
    q.add(b"q1".to_vec(), b"a".to_vec(), 5);
    q.add(b"q1".to_vec(), b"b".to_vec(), 6);
    q.add(b"q1".to_vec(), b"c".to_vec(), 7);

    let j1 = q.next_best(&vec![b"q1".to_vec()]).unwrap();
    inflight.add(j1, 42);
    let j2 = q.next_best(&vec![b"q1".to_vec()]).unwrap();
    inflight.add(j2, 42);
    let j3 = q.next_best(&vec![b"q1".to_vec()]).unwrap();
    inflight.add(j3, 7);
    assert_eq!(q.jobs.len(), 0);
    assert_eq!(inflight.0.len(), 3);

    inflight.cleanup(&mut q, 42);
    assert_eq!(inflight.0.len(), 1);
    assert_eq!(inflight.0[0].client_id, 7);
    assert_eq!(q.jobs.len(), 2);
}

#[test]
fn status_tags_compare() {
    assert_eq!(ResponseStatus::Okay, ResponseStatus::Okay);
    assert_ne!(ResponseStatus::Error, ResponseStatus::NoJob);
}
