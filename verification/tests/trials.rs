use mandelbrot::trials::{Phase, TrialError, Trials};

#[test]
fn new_log_is_idle_and_empty() {
    let log = Trials::new(3);
    assert_eq!(log.planned(), 3);
    assert_eq!(log.completed(), 0);
    assert_eq!(log.phase(), Phase::Idle);
    assert_eq!(log.samples(), &Vec::<u64>::new());
    assert_eq!(log.best(), None);
    assert_eq!(log.checksum(), None);
    assert!(!log.is_done());
}

#[test]
fn trials_are_numbered_from_one() {
    let mut log = Trials::new(2);
    assert_eq!(log.begin(), Some(1));
    assert_eq!(log.phase(), Phase::Running { trial: 1 });
    assert_eq!(log.end(500, 42), Ok(()));
    assert_eq!(log.phase(), Phase::Idle);
    assert_eq!(log.begin(), Some(2));
    assert_eq!(log.phase(), Phase::Running { trial: 2 });
    assert_eq!(log.end(400, 42), Ok(()));
    assert_eq!(log.phase(), Phase::Idle);
    assert!(log.is_done());
}

#[test]
fn no_trial_starts_while_one_is_running() {
    let mut log = Trials::new(3);
    assert_eq!(log.begin(), Some(1));
    assert_eq!(log.begin(), None);
    assert_eq!(log.phase(), Phase::Running { trial: 1 });
    assert_eq!(log.completed(), 0);
}

#[test]
fn no_trial_starts_after_the_last_one() {
    let mut log = Trials::new(1);
    assert_eq!(log.begin(), Some(1));
    assert_eq!(log.end(10, 1), Ok(()));
    assert_eq!(log.begin(), None);
    assert_eq!(log.phase(), Phase::Idle);
    assert!(log.is_done());
    assert_eq!(log.samples(), &vec![10]);
}

#[test]
fn log_of_zero_trials_is_done_at_once() {
    let mut log = Trials::new(0);
    assert!(log.is_done());
    assert_eq!(log.begin(), None);
    assert_eq!(log.best(), None);
    assert_eq!(log.checksum(), None);
}

#[test]
fn end_without_a_running_trial_changes_nothing() {
    let mut log = Trials::new(2);
    assert_eq!(log.end(5, 5), Err(TrialError::NotRunning));
    assert_eq!(log.completed(), 0);
    assert_eq!(log.best(), None);
    assert_eq!(log.checksum(), None);
    assert_eq!(log.begin(), Some(1));
    assert_eq!(log.end(7, 1), Ok(()));
    assert_eq!(log.end(3, 2), Err(TrialError::NotRunning));
    assert_eq!(log.samples(), &vec![7]);
    assert_eq!(log.best(), Some(7));
    assert_eq!(log.checksum(), Some(1));
}

#[test]
fn best_is_the_least_of_all_samples() {
    let samples = [731u64, 702, 948, 699, 699, 1200, 700];
    let mut log = Trials::new(samples.len());
    let mut least = u64::MAX;
    for (i, elapsed) in samples.iter().enumerate() {
        assert_eq!(log.begin(), Some(i + 1));
        assert_eq!(log.end(*elapsed, 9), Ok(()));
        least = least.min(*elapsed);
        assert_eq!(log.best(), Some(least));
    }
    assert_eq!(log.best(), Some(699));
    assert_eq!(log.samples(), &samples.to_vec());
    assert!(log.samples().iter().all(|&sample| log.best().unwrap() <= sample));
    assert!(log.samples().contains(&log.best().unwrap()));
    assert!(log.is_done());
}

#[test]
fn best_of_one_trial_is_that_trial() {
    let mut log = Trials::new(1);
    assert_eq!(log.begin(), Some(1));
    assert_eq!(log.end(12345, 0), Ok(()));
    assert_eq!(log.best(), Some(12345));
}

#[test]
fn best_may_be_zero_or_the_largest_time() {
    let mut log = Trials::new(3);
    assert_eq!(log.begin(), Some(1));
    assert_eq!(log.end(u64::MAX, 0), Ok(()));
    assert_eq!(log.best(), Some(u64::MAX));
    assert_eq!(log.begin(), Some(2));
    assert_eq!(log.end(0, 0), Ok(()));
    assert_eq!(log.best(), Some(0));
    assert_eq!(log.begin(), Some(3));
    assert_eq!(log.end(5, 0), Ok(()));
    assert_eq!(log.best(), Some(0));
}

#[test]
fn checksum_is_that_of_the_last_finished_trial() {
    let mut log = Trials::new(3);
    assert_eq!(log.begin(), Some(1));
    assert_eq!(log.end(10, 111), Ok(()));
    assert_eq!(log.checksum(), Some(111));
    assert_eq!(log.begin(), Some(2));
    assert_eq!(log.checksum(), Some(111));
    assert_eq!(log.end(10, 222), Ok(()));
    assert_eq!(log.checksum(), Some(222));
}
