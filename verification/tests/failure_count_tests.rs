use diary_app_lib::failure_count::{FailureCount, FailureCountError};

#[test]
fn fresh_counter_checks_ok() {
    let c = FailureCount::new(5);
    assert_eq!(c.check(), Ok(()));
}

#[test]
fn fresh_counter_tolerates_budget_plus_one() {
    let mut c = FailureCount::new(2);
    assert_eq!(c.increment(), Ok(()));
    assert_eq!(c.increment(), Ok(()));
    assert_eq!(c.increment(), Ok(()));
    assert_eq!(c.check(), Err(FailureCountError { max_count: 2 }));
    assert_eq!(c.increment(), Err(FailureCountError { max_count: 2 }));
    assert_eq!(c.increment(), Err(FailureCountError { max_count: 2 }));
}

#[test]
fn zero_budget_fails_after_two_failures() {
    let mut c = FailureCount::new(0);
    assert_eq!(c.increment(), Ok(()));
    assert_eq!(c.increment(), Err(FailureCountError { max_count: 0 }));
}

#[test]
fn reset_reports_spent_budget_then_clears() {
    let mut c = FailureCount::new(1);
    for _ in 0..3 {
        let _ = c.increment();
    }
    assert!(c.check().is_err());
    assert_eq!(c.reset(), Err(FailureCountError { max_count: 1 }));
    assert_eq!(c.check(), Ok(()));
    assert_eq!(c.reset(), Ok(()));
    assert_eq!(c.increment(), Ok(()));
}

#[test]
fn failure_message_text() {
    let e = FailureCountError { max_count: 5 };
    assert_eq!(e.message(), "Failed after retrying 5 times");
    let e = FailureCountError { max_count: 0 };
    assert_eq!(e.message(), "Failed after retrying 0 times");
}
