use core::cmp::Ordering;
use lcdmux::scheduler::{sort_jobs, Job, JobList};
use lcdmux::LcdDriver;

fn job(rate: Option<u64>, last_run: Option<u64>) -> Job {
    Job { text: "".to_string(), row: 0, index: 0, rate, last_run }
}

#[test]
fn job_sort_test() {
    let now: u64 = 1000;

    let ref_vec = vec![
        Job { text: "".to_string(), row: 0, index: 0, rate: None, last_run: None },
        Job { text: "".to_string(), row: 0, index: 0, rate: Option::from(100u64), last_run: None },
        Job {
            text: "".to_string(),
            row: 0,
            index: 0,
            rate: Option::from(150u64),
            last_run: Option::from(now - 111),
        },
        Job {
            text: "".to_string(),
            row: 0,
            index: 0,
            rate: Option::from(250u64),
            last_run: Option::from(now - 111),
        },
        Job {
            text: "".to_string(),
            row: 0,
            index: 0,
            rate: Option::from(250u64),
            last_run: Option::from(now - 100),
        },
    ];

    let mut test_vec = vec![
        Job {
            text: "".to_string(),
            row: 0,
            index: 0,
            rate: Option::from(250u64),
            last_run: Option::from(now - 111),
        },
        Job {
            text: "".to_string(),
            row: 0,
            index: 0,
            rate: Option::from(150u64),
            last_run: Option::from(now - 111),
        },
        Job { text: "".to_string(), row: 0, index: 0, rate: Option::from(100u64), last_run: None },
        Job {
            text: "".to_string(),
            row: 0,
            index: 0,
            rate: Option::from(250u64),
            last_run: Option::from(now - 100),
        },
        Job { text: "".to_string(), row: 0, index: 0, rate: None, last_run: None },
    ];

    sort_jobs(&mut test_vec, now);
    assert_eq!(ref_vec, test_vec)
}

#[test]
fn sorting_twice_changes_nothing() {
    let now: u64 = 5000;
    let mut v = vec![
        job(Some(250), Some(now - 111)),
        job(None, None),
        job(Some(150), Some(now - 111)),
        job(Some(100), None),
    ];
    sort_jobs(&mut v, now);
    let once: Vec<(Option<u64>, Option<u64>)> = v.iter().map(|j| (j.rate, j.last_run)).collect();
    sort_jobs(&mut v, now);
    let twice: Vec<(Option<u64>, Option<u64>)> = v.iter().map(|j| (j.rate, j.last_run)).collect();
    assert_eq!(once, twice);
}

#[test]
fn fresh_oneshot_sorts_before_any_run_job() {
    let now: u64 = 1000;
    let oneshot = job(None, None);
    let ran = job(Some(300), Some(now - 50));
    assert_eq!(oneshot.compare(&ran, now), Ordering::Less);
    assert_eq!(ran.compare(&oneshot, now), Ordering::Greater);

    let mut v = vec![ran, oneshot];
    sort_jobs(&mut v, now);
    assert!(v[0].rate.is_none() && v[0].last_run.is_none());
}

#[test]
fn fresh_oneshot_sorts_before_spent_oneshot() {
    let now: u64 = 1000;
    let fresh = job(None, None);
    // A one-shot that has already run: the loop removes these, but the
    // ordering still places it after all fresh work.
    let spent = job(None, Some(now - 5));
    assert_eq!(fresh.compare(&spent, now), Ordering::Less);
    assert_eq!(spent.compare(&fresh, now), Ordering::Greater);
    // Fresh recurring work also outranks it.
    let recurring = job(Some(100), None);
    assert_eq!(recurring.compare(&spent, now), Ordering::Less);
    assert_eq!(spent.compare(&spent, now), Ordering::Equal);
}

#[test]
fn shorter_interval_sorts_first_when_never_run() {
    let now: u64 = 777;
    let fast = job(Some(100), None);
    let slow = job(Some(250), None);
    assert_eq!(fast.compare(&slow, now), Ordering::Less);
    assert_eq!(slow.compare(&fast, now), Ordering::Greater);
}

#[test]
fn overdue_job_sorts_before_still_due_job() {
    let now: u64 = 10_000;
    // A became due 80 ms into its 100 ms interval: 20 ms remain.
    let a = job(Some(100), Some(now - 80));
    // B's 100 ms interval elapsed 110 ms ago: overdue by 10 ms.
    let b = job(Some(100), Some(now - 110));
    assert_eq!(b.compare(&a, now), Ordering::Less);
    assert_eq!(a.compare(&b, now), Ordering::Greater);

    let mut v = vec![a, b];
    sort_jobs(&mut v, now);
    assert_eq!(v[0].last_run, Some(now - 110));
}

#[test]
fn equal_urgency_compares_equal() {
    let now: u64 = 400;
    assert_eq!(job(None, None).compare(&job(None, None), now), Ordering::Equal);
    let a = job(Some(100), Some(now - 150));
    let b = job(Some(50), Some(now - 300));
    // Both overdue: equally urgent.
    assert_eq!(a.compare(&b, now), Ordering::Equal);
}

fn driver_16x2() -> LcdDriver {
    let (driver, _init) = LcdDriver::new(16, 2, false, 255, 0, 1, 2, 3, 4, 5, 6, 7).unwrap();
    driver
}

#[test]
fn scroll_cursor_is_periodic() {
    let driver = driver_16x2();
    // Text of 20 characters on a 16-column display: period 20 + 8 + 1 = 29.
    let mut j = Job::new("abcdefghijklmnopqrst", 0, Some(100));
    j.index = -8;
    let period = 20 + 16 / 2 + 1;
    for step in 1..=period {
        let _ = j.run(&driver);
        if step < period {
            assert_ne!(j.index, -8, "cursor revisited the wrap point early, step {}", step);
        }
    }
    assert_eq!(j.index, -8);
}

#[test]
fn scroll_windows_of_long_text() {
    let j = |i: i32| Job { text: "hello, wide world".to_string(), row: 0, index: i, rate: None, last_run: None };
    // 17 characters on 16 columns.
    assert_eq!(j(0).window(16), "hello, wide worl");
    assert_eq!(j(1).window(16), "ello, wide world");
    assert_eq!(j(5).window(16), ", wide world    ");
    assert_eq!(j(-3).window(16), "   hello, wide w");
}

#[test]
fn short_text_is_padded_to_width() {
    let j = Job::new("HI", 0, None);
    assert_eq!(j.window(16), "HI              ");
}

#[test]
fn empty_text_renders_all_blanks() {
    let j = Job::new("", 0, None);
    assert_eq!(j.window(4), "    ");
    assert_eq!(j.window(16), "                ");
}

#[test]
fn clear_row_leaves_single_blank_job() {
    let now: u64 = 50;
    let mut list = JobList::new();
    list.add_job(Job::new("one", 1, Some(100)), now);
    list.add_job(Job::new("two", 1, None), now);
    list.add_job(Job::new("other", 0, Some(300)), now);
    list.clear_row(1, now);

    let on_row: Vec<&Job> = list.jobs.iter().filter(|j| j.row == 1).collect();
    assert_eq!(on_row.len(), 1);
    assert!(on_row[0].text.is_empty());
    assert!(on_row[0].rate.is_none());
    assert!(on_row[0].last_run.is_none());
    assert_eq!(list.jobs.iter().filter(|j| j.row == 0).count(), 1);
}

#[test]
fn clear_jobs_empties_the_list() {
    let now: u64 = 50;
    let mut list = JobList::new();
    list.add_job(Job::new("a", 0, Some(100)), now);
    list.add_job(Job::new("b", 1, None), now);
    list.clear_jobs();
    assert_eq!(list.jobs.len(), 0);
}

#[test]
fn one_cycle_renders_and_removes_oneshot() {
    let now: u64 = 123;
    let (driver, _init) = LcdDriver::new(16, 2, false, 255, 0, 1, 2, 3, 4, 5, 6, 7).unwrap();
    let mut list = JobList::new();
    list.add_job(Job::new("HI", 0, None), now);

    assert_eq!(list.next_wait(now), Some(0));
    let acts = list.run_head(&driver, now).expect("a job was queued");

    let mut expected = driver.set_cursor(0, 0);
    expected.extend(driver.print("HI              "));
    assert_eq!(acts, expected);
    assert_eq!(list.jobs.len(), 0);
    assert_eq!(list.run_head(&driver, now), None);
}

#[test]
fn recurring_job_is_requeued_with_timestamp() {
    let now: u64 = 200;
    let (driver, _init) = LcdDriver::new(16, 2, false, 255, 0, 1, 2, 3, 4, 5, 6, 7).unwrap();
    let mut list = JobList::new();
    list.add_job(Job::new("tick", 0, Some(100)), now);

    let _ = list.run_head(&driver, now).expect("a job was queued");
    assert_eq!(list.jobs.len(), 1);
    assert_eq!(list.jobs[0].last_run, Some(now));
    assert_eq!(list.next_wait(now + 30), Some(70));
    assert_eq!(list.next_wait(now + 100), Some(0));
    assert_eq!(list.next_wait(now + 500), Some(0));
}
