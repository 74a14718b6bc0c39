use arona::quartz::{
    compute_next_after, failed_job_text, next_after, next_daily_from, next_daily_ms, wait_for,
    Scheduler, TaskKind, Wake, FIRST_MILLIS, LAST_MILLIS,
};

const DAY: i64 = 86_400_000;

#[test]
fn panicking_job_keeps_being_scheduled() {
    let mut jobs = Scheduler::new();
    let serial = jobs.create_repeat(1, "QuartzPanicJob", "QuartzPanicPlugin", 5);
    let mut fires = 0;
    let mut now = 1_000_000;
    for _ in 0..3 {
        let delay = jobs.delay_until_next("QuartzPanicJob", serial, now).unwrap();
        now += delay;
        assert_eq!(jobs.wake("QuartzPanicJob", serial), Wake::Fire(5));
        jobs.begin_run("QuartzPanicJob", serial, now);
        // whether the run went well or not makes no difference
        fires += 1;
        assert!(jobs.finish_run("QuartzPanicJob", serial, now, 0), "panic 之后调度循环不该消失");
    }
    assert!(fires >= 2);
    // the first run was at once, the others a second apart
    assert_eq!(now, 1_002_000);
    assert!(jobs.remove("QuartzPanicJob"));
    assert_eq!(jobs.wake("QuartzPanicJob", serial), Wake::Cancelled);
    assert!(failed_job_text("x").contains("「x」"));
}

#[test]
fn registering_a_job_without_runtime_context() {
    let mut jobs = Scheduler::new();
    jobs.create_repeat(1, "NoContextJob", "NoContextPlugin", 1);
    assert!(jobs.remove("NoContextJob"));
}

#[test]
fn zero_interval_is_clamped() {
    let mut scheduler = Scheduler::new();
    scheduler.create_repeat(0, "QuartzClampJob", "QuartzClampPlugin", 1);
    let entry = scheduler.tasks.get("QuartzClampJob").unwrap();
    assert!(
        matches!(entry.kind, TaskKind::Repeat { interval_secs } if interval_secs >= 1),
        "0 秒间隔应被夹到至少 1 秒"
    );
}

#[test]
fn a_job_replaces_the_one_of_its_name() {
    let mut jobs = Scheduler::new();
    let first = jobs.create_daily(3, "job", "p", 1);
    let second = jobs.create_daily(4, "job", "p", 2);
    assert_eq!(jobs.wake("job", first), Wake::Cancelled);
    assert_eq!(jobs.wake("job", second), Wake::Fire(2));
    assert_eq!(jobs.trigger("job"), Ok(2));
    assert!(jobs.trigger("none").is_err());
}

#[test]
fn groups_of_jobs_are_removed_and_paused_together() {
    let mut jobs = Scheduler::new();
    let a = jobs.create_single_at(500, "a", "p", 1);
    jobs.create_delay_from(1_000, 2, "b", "p", 2);
    let c = jobs.create_repeat(9, "c", "q", 3);
    assert_eq!(jobs.tasks.get("b").unwrap().kind, TaskKind::SingleAt { ts_ms: 3_000 });
    jobs.pause_all();
    assert!(matches!(jobs.wake("c", c), Wake::Paused(_)));
    jobs.resume_all();
    assert_eq!(jobs.wake("c", c), Wake::Fire(3));
    let names: Vec<String> = jobs.list().into_iter().map(|task| task.name).collect();
    assert_eq!(names.len(), 3);
    assert_eq!(jobs.remove_group("p"), 2);
    assert!(!jobs.contains("a") && jobs.contains("c"));
    assert_eq!(jobs.wake("a", a), Wake::Cancelled);
}

#[test]
fn waits_are_worked_out_exactly() {
    assert_eq!(next_after(1_000, 500), 1_000);
    assert_eq!(next_after(1_000, 1_000), 1_000 + DAY);
    assert_eq!(wait_for(TaskKind::Daily { hour: 3 }, None, 100, 700), Some(600));
    assert_eq!(wait_for(TaskKind::Repeat { interval_secs: 2 }, None, 100, 0), Some(0));
    assert_eq!(wait_for(TaskKind::Repeat { interval_secs: 2 }, Some(100), 600, 0), Some(1_500));
    assert_eq!(wait_for(TaskKind::Repeat { interval_secs: 2 }, Some(100), 9_999, 0), Some(0));
    assert_eq!(wait_for(TaskKind::SingleAt { ts_ms: 50 }, None, 20, 0), Some(30));
    assert_eq!(wait_for(TaskKind::SingleAt { ts_ms: 50 }, None, 50, 0), None);
    assert_eq!(compute_next_after(TaskKind::Repeat { interval_secs: 2 }, 100, 0), Some(2_100));
    assert_eq!(compute_next_after(TaskKind::Daily { hour: 3 }, 100, 7), Some(7));
    assert_eq!(compute_next_after(TaskKind::SingleAt { ts_ms: 50 }, 60, 0), None);
}

#[test]
fn a_daily_hour_comes_within_a_day() {
    let now = 1_700_000_000_000;
    let next = next_daily_ms(3, now);
    // two hours more on the day on which the clock is put back
    assert!(now < next && next <= now + DAY + 7_200_000, "{next}");
    assert_eq!(next % 60_000, 0);
    // half a day apart, but for where the clock is put on or back
    let other = next_daily_ms(15, now);
    assert_ne!(next, other);
}

#[test]
fn an_hour_that_never_comes_is_a_day_away() {
    let now = 1_700_000_000_000;
    assert_eq!(next_daily_ms(24, now), now + DAY);
    assert_eq!(next_daily_ms(u32::MAX, now), now + DAY);
    assert_eq!(next_daily_ms(24, FIRST_MILLIS), FIRST_MILLIS + DAY);
    assert_eq!(next_daily_ms(24, LAST_MILLIS), LAST_MILLIS + DAY);
}

#[test]
fn a_time_without_a_date_goes_by_the_clock() {
    // the clock is far past the first time and far before the last one
    assert!(next_daily_ms(24, FIRST_MILLIS - 1) > 1_700_000_000_000);
    assert!(next_daily_ms(24, LAST_MILLIS + 1) < LAST_MILLIS);
    assert!(next_daily_ms(24, i64::MIN) > 1_700_000_000_000);
}

#[test]
fn the_time_found_on_a_date_decides() {
    assert_eq!(next_daily_from(Some((700, 0)), 100, 100), 700);
    assert_eq!(next_daily_from(Some((100, 0)), 100, 100), 100 + DAY);
    assert_eq!(next_daily_from(None, 100, 100), 100 + DAY);
    assert_eq!(next_daily_from(None, 500, 100), 500);
}

#[test]
fn the_hour_of_a_job_is_its_own() {
    let now = 1_700_000_000_000;
    let mut jobs = Scheduler::new();
    for hour in [3, 15, 24] {
        let name = format!("at {hour}");
        let serial = jobs.create_daily(hour, &name, "g", 1);
        let next = next_daily_ms(hour, now);
        assert_eq!(jobs.delay_until_next(&name, serial, now), Some(next - now));
        assert!(jobs.end_run(&name, serial, now));
        assert_eq!(jobs.tasks.get(&name).and_then(|entry| entry.next_fire), Some(next));
        assert!(!jobs.end_run(&name, serial + 100, now));
    }
}

#[test]
fn a_new_job_has_a_serial_of_its_own() {
    let mut jobs = Scheduler::new();
    let mut given = Vec::new();
    for round in 0..3 {
        given.push(jobs.create_repeat(1, "again", "p", round));
        given.push(jobs.create_daily(3, "daily", "q", round));
        jobs.remove_group("q");
        given.push(jobs.create_delay(5, "once", "p", round));
        jobs.remove("once");
        assert!(jobs.tasks.entries().iter().all(|(_, entry)| entry.serial < jobs.next_serial));
    }
    let mut distinct = given.clone();
    distinct.sort();
    distinct.dedup();
    assert_eq!(distinct.len(), given.len());
    assert_eq!(jobs.wake("again", given[0]), Wake::Cancelled);
    assert_eq!(jobs.wake("again", given[6]), Wake::Fire(2));
}
