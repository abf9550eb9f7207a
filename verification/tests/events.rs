use veldspar::compression::{compress_lz4, decompress_lz4, LZ4_FF_RUN_LIMIT};
use veldspar::events::channel;
use veldspar::jobs::JobSystem;

#[test]
fn events_arrive_in_order_and_come_back_when_no_one_listens() {
    let (tx, rx) = channel::<u32>();
    let tx2 = tx.clone();
    assert!(tx.send(1).is_ok());
    assert!(tx2.send(2).is_ok());
    assert_eq!(rx.recv().ok(), Some(1));
    assert_eq!(rx.try_recv().ok(), Some(2));
    assert!(rx.try_recv().is_err());
    drop(rx);
    match tx.send(7) {
        Err(e) => assert_eq!(e.0, 7),
        Ok(()) => panic!("the receiver is gone"),
    }
}

#[test]
fn a_job_system_runs_a_scope_and_returns_its_result() {
    let jobs = JobSystem::new(Some(2)).unwrap();
    assert_eq!(jobs.scope(|_| 40 + 2), 42);
    let default_jobs = JobSystem::new(None).unwrap();
    assert_eq!(default_jobs.scope(|_| "done"), "done");
}

#[test]
fn lz4_input_with_a_too_long_run_of_ff_bytes_is_refused() {
    let mut data = vec![0u8, 0, 0, 1, 0xF0];
    data.extend(std::iter::repeat(0xFFu8).take(LZ4_FF_RUN_LIMIT));
    data.push(1);
    assert!(decompress_lz4(&data).is_err());
    let packed = compress_lz4(&[0xFF; 1000]);
    assert_eq!(decompress_lz4(&packed).unwrap(), vec![0xFF; 1000]);
}
