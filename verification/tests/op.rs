use nix_core::error::AppError;
use nix_core::op::{check_flag, CancelToken, Completion, Counter, OperationId, Progress, Registry};

#[test]
fn ids_are_unique_and_monotonic() {
    let mut counter = Counter::new();
    let a = OperationId::next(&mut counter);
    let b = OperationId::next(&mut counter);
    assert!(b.0 > a.0);
    assert_eq!(a.label(), "op1");
    assert_eq!(OperationId(10_203).label(), "op10203");
}

#[test]
fn token_check_is_the_cancellation_sentinel() {
    let t = CancelToken::new();
    assert!(t.check().is_ok());
    t.cancel();
    assert!(t.is_cancelled());
    let err = t.check().unwrap_err();
    assert!(
        !err.is_fault(),
        "cancellation must not be presented as a fault"
    );
    assert!(check_flag(false).is_ok());
    assert_eq!(check_flag(true).unwrap_err(), err);
}

#[test]
fn cancel_is_visible_across_clones() {
    let a = CancelToken::new();
    let b = a.clone();
    a.cancel();
    assert!(b.is_cancelled(), "clones must share one flag");
}

#[test]
fn registry_tracks_and_releases() {
    let mut reg = Registry::new();
    let (id, token) = reg.start(&mut Counter::new());
    assert_eq!(reg.live_count(), 1);
    assert!(reg.cancel(id), "a live operation is cancellable");
    assert!(token.is_cancelled());

    reg.finish(id);
    assert_eq!(reg.live_count(), 0);
    assert!(!reg.cancel(id), "a finished operation is not cancellable");
}

#[test]
fn registry_cancels_everything() {
    let mut reg = Registry::new();
    let mut counter = Counter::new();
    let tokens: Vec<_> = (0..5).map(|_| reg.start(&mut counter).1).collect();
    assert_eq!(reg.cancel_all(), 5);
    assert!(tokens.iter().all(CancelToken::is_cancelled));
}

#[test]
fn completion_maps_cancellation_separately_from_failure() {
    let id = OperationId(7);
    assert!(matches!(
        Completion::from_result(id, Ok(())),
        Completion::Done { .. }
    ));
    assert!(matches!(
        Completion::from_result(id, Err(AppError::cancelled())),
        Completion::Cancelled { .. }
    ));
    assert!(matches!(
        Completion::from_result(id, Err(AppError::internal("boom"))),
        Completion::Failed { .. }
    ));
    assert_eq!(Completion::from_result(id, Ok(())).id(), id);
}

#[test]
fn progress_fraction_is_honest_about_unknown_totals() {
    let id = OperationId(1);
    let value = |p: Progress| {
        p.fraction()
            .map(|(done, total)| done as f64 / total as f64)
    };
    assert_eq!(
        value(Progress::new(id, 5)),
        None,
        "no total means no fraction"
    );
    assert_eq!(
        value(Progress::new(id, 0).with_total(0)),
        None,
        "must not divide by zero"
    );
    let half = value(Progress::new(id, 5).with_total(10)).unwrap();
    assert!((half - 0.5).abs() < f64::EPSILON);
    // Overshoot is clamped rather than reported as more than complete.
    let over = value(Progress::new(id, 20).with_total(10)).unwrap();
    assert!((over - 1.0).abs() < f64::EPSILON);
    let told = Progress::new(id, 3).with_message("Scanning /home".to_string());
    assert_eq!(told.message.as_deref(), Some("Scanning /home"));
}

#[test]
fn registries_that_share_a_counter_share_no_ids() {
    let mut counter = Counter::new();
    let mut one = Registry::new();
    let mut other = Registry::new();
    let (a, _) = one.start(&mut counter);
    let (b, token) = other.start(&mut counter);
    assert_ne!(a, b);
    assert!(!one.cancel(b), "another registry's operation is not this one's");
    assert!(!token.is_cancelled());
    assert!(!counter.is_exhausted());
}

#[test]
fn an_operation_comes_and_goes() {
    let mut counter = Counter::new();
    let mut reg = Registry::default();
    let (first, kept) = reg.start(&mut counter);
    let before = reg.live_count();
    let (id, token) = reg.start(&mut counter);
    assert_eq!(reg.live_count(), before + 1);
    assert!(!reg.running(id).unwrap().is_cancelled());
    assert!(reg.cancel(id));
    assert!(token.is_cancelled(), "the flag is the operation's own");
    assert!(reg.running(id).unwrap().is_cancelled());
    assert!(!kept.is_cancelled(), "and no other");
    assert_eq!(reg.live_count(), before + 1);

    reg.finish(id);
    assert_eq!(reg.live_count(), before);
    assert!(reg.running(id).is_none());
    assert!(!reg.cancel(id));
    assert!(!reg.cancel(OperationId(999)));
    assert!(reg.running(first).is_some());
    assert!(!CancelToken::default().is_cancelled());
}
