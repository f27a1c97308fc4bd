use vertex_lang::runtime::multithreading::jobs::{JobHandle, JobScheduler};

#[test]
fn create_job_with_deps() {
    let mut scheduler = JobScheduler::new(0);
    let job1 = scheduler.new_job(vec![]);
    let job2 = scheduler.new_job(vec![job1]);
    let job3 = scheduler.new_job(vec![]);

    assert_eq!(scheduler.queue_next(), Some(job1));
    assert_eq!(scheduler.queue_next(), Some(job3));

    scheduler.finish_job(job1);
    assert_eq!(scheduler.queue_next(), Some(job2));
}

#[test]
fn hibernate_job() {
    let mut sch = JobScheduler::new(1);

    let job1 = sch.new_job(vec![]);
    let job2 = sch.new_job(vec![job1]);
    let job3 = sch.new_job(vec![]);

    assert_eq!(sch.queue_next(), Some(job1));
    sch.hibernate(job1, vec![job3]);

    assert_eq!(sch.queue_next(), Some(job3));
    sch.finish_job(job3);

    assert_eq!(sch.queue_next(), Some(job2));
}

#[test]
fn deps_finished_auto_run() {
    let mut sch = JobScheduler::new(2);

    let job1 = sch.new_job(vec![]);
    let next = sch.queue_next().unwrap();
    sch.finish_job(next);

    let job2 = sch.new_job(vec![job1]);
    assert_eq!(sch.queue_next(), Some(job2));
}

#[test]
fn handles_carry_the_scheduler_and_count_up_from_one() {
    let mut sch = JobScheduler::new(7);
    assert_eq!(sch.get_scheduler_uid(), 7);
    let a = sch.new_job(vec![]);
    let b = sch.new_job(vec![]);
    assert_eq!((a.get_scheduler_uid(), a.get_job_id()), (7, 1));
    assert_eq!((b.get_scheduler_uid(), b.get_job_id()), (7, 2));
    assert!(sch.owns(&a));
    assert!(sch.owns_all(&vec![a, b]));
    let mut other = JobScheduler::new(8);
    let c = other.new_job(vec![]);
    assert!(!sch.owns(&c));
    assert!(!sch.owns_all(&vec![a, c]));
    assert!(!sch.is_in_flight(&c));
}

#[test]
fn a_hibernating_job_is_not_finished_before_its_child() {
    let mut sch = JobScheduler::new(0);
    let a = sch.new_job(vec![]);
    assert_eq!(sch.queue_next(), Some(a));
    let c = sch.new_job(vec![]);
    assert_eq!(sch.hibernate(a, vec![c]), vec![]);
    assert!(!sch.is_done(&a));
    assert!(!sch.is_done(&c));
    assert_eq!(sch.queue_next(), Some(c));
    sch.finish_job(c);
    assert!(sch.is_done(&c));
    assert!(sch.is_done(&a));
    assert_eq!(sch.get_finished_jobs(), 2);
}

#[test]
fn hibernating_on_finished_jobs_finishes_at_once() {
    let mut sch = JobScheduler::new(0);
    let a = sch.new_job(vec![]);
    let b = sch.new_job(vec![]);
    assert_eq!(sch.queue_next(), Some(a));
    assert_eq!(sch.queue_next(), Some(b));
    sch.finish_job(b);
    assert!(!sch.is_done(&a));
    sch.hibernate(a, vec![b]);
    assert!(sch.is_done(&a));
}

#[test]
fn the_watermark_rises_over_consecutive_finished_ids() {
    let mut sch = JobScheduler::new(0);
    let a = sch.new_job(vec![]);
    let b = sch.new_job(vec![]);
    let c = sch.new_job(vec![]);
    for job in [a, b, c] {
        assert_eq!(sch.queue_next(), Some(job));
    }
    sch.finish_job(c);
    assert!(sch.is_done(&c));
    assert!(!sch.is_done(&a));
    assert!(!sch.is_done(&b));
    assert_eq!(sch.get_finished_jobs(), 1);
    sch.finish_job(a);
    assert!(sch.is_done(&a));
    assert!(!sch.is_done(&b));
    sch.finish_job(b);
    assert!(sch.is_done(&b));
    assert_eq!(sch.get_finished_jobs(), 3);
}

#[test]
fn a_waiter_is_notified_once() {
    let mut sch = JobScheduler::new(0);
    let a = sch.new_job(vec![]);
    let b = sch.new_job(vec![]);
    assert!(sch.build_job_notify_channel(&a));
    assert!(sch.build_job_notify_channel(&a));
    assert_eq!(sch.queue_next(), Some(a));
    assert_eq!(sch.queue_next(), Some(b));
    assert_eq!(sch.finish_job(b), vec![]);
    assert_eq!(sch.finish_job(a), vec![a]);
    assert!(!sch.build_job_notify_channel(&a));
    assert!(!sch.is_in_flight(&a));
}

#[test]
fn cascaded_ends_notify_children_before_parents() {
    let mut sch = JobScheduler::new(0);
    let parent = sch.new_job(vec![]);
    assert_eq!(sch.queue_next(), Some(parent));
    let child = sch.new_job(vec![]);
    assert_eq!(sch.queue_next(), Some(child));
    let grandchild = sch.new_job(vec![]);
    assert_eq!(sch.queue_next(), Some(grandchild));
    sch.hibernate(child, vec![grandchild]);
    sch.hibernate(parent, vec![child]);
    let sleeper = sch.new_job(vec![parent, grandchild]);
    for job in [parent, child, grandchild] {
        assert!(sch.build_job_notify_channel(&job));
    }
    let notified: Vec<JobHandle> = sch.finish_job(grandchild);
    assert_eq!(notified, vec![parent, child, grandchild]);
    assert!(sch.is_done(&parent));
    assert_eq!(sch.queue_next(), Some(sleeper));
}

#[test]
fn a_job_that_waits_twice_for_the_same_job_wakes() {
    let mut sch = JobScheduler::new(0);
    let a = sch.new_job(vec![]);
    let b = sch.new_job(vec![a, a]);
    assert_eq!(sch.queue_next(), Some(a));
    assert_eq!(sch.queue_next(), None);
    sch.finish_job(a);
    assert_eq!(sch.queue_next(), Some(b));
}

#[test]
fn a_closed_queue_hands_nothing_out() {
    let mut sch = JobScheduler::new(0);
    let a = sch.new_job(vec![]);
    assert!(sch.has_capacity());
    sch.terminate_workers();
    assert_eq!(sch.queue_next(), None);
    assert!(!sch.is_in_flight(&a));
}
