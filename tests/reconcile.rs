use local_lore::reconcile::{ReconcileProgress, ReconcileStep, BATCH_SIZE};

#[test]
fn batches_cover_the_list_in_order() {
    let mut p = ReconcileProgress::new(23);
    let mut seen = Vec::new();
    loop {
        match p.next_step() {
            ReconcileStep::Upsert { start, end } => {
                seen.push((start, end));
                p.batch_done(true);
            }
            ReconcileStep::Finished { upserted } => {
                assert_eq!(upserted, 23);
                break;
            }
            ReconcileStep::Aborted { .. } => panic!("no batch failed"),
        }
    }
    assert_eq!(BATCH_SIZE, 10);
    assert_eq!(seen, vec![(0, 10), (10, 20), (20, 23)]);
}

#[test]
fn empty_list_finishes_at_once() {
    let p = ReconcileProgress::new(0);
    assert_eq!(p.next_step(), ReconcileStep::Finished { upserted: 0 });
}

#[test]
fn failed_batch_aborts_with_earlier_count() {
    let mut p = ReconcileProgress::new(15);
    assert_eq!(p.next_step(), ReconcileStep::Upsert { start: 0, end: 10 });
    p.batch_done(true);
    assert_eq!(p.next_step(), ReconcileStep::Upsert { start: 10, end: 15 });
    p.batch_done(false);
    assert_eq!(p.next_step(), ReconcileStep::Aborted { upserted: 10 });
}
