use nix_core::error::{AppError, ErrorCode};
use nix_core::helper::{Op, OpResult};
use nix_core::op::{CancelToken, Counter};
use nix_core::paths::Environment;
use nix_core::protect::Guard;
use nix_core::reclaim::execution::{
    agrees, privileged, reclaim_one, Action, Channel, Elevation, Execution, Fingerprint,
    ItemOutcome, Next, Performed, Report, Step,
};
use nix_core::reclaim::registry::{
    Answer, Brief, Candidate, Category, Entry, Registry, TrashCategory, TrashContents,
};
use nix_core::reclaim::{classify, Offer, Preview, PreviewItem, Session};
use nix_core::space::{
    format_bytes, Category as SpaceCategory, Manager, PruneScope, ReclaimKind, ReclaimMethod,
    Reclaimable, RemovableKind, Safety, VacuumLimit,
};

fn environment() -> Environment {
    Environment {
        home: Some("/home/me".to_string()),
        config_home: None,
        state_home: None,
        cache_home: None,
    }
}

fn guard() -> Guard {
    Guard::new(Vec::new(), &environment())
}

/// What a path with these figures looks like.
fn looks(inode: u64, size: u64, blocks: u64) -> Option<Fingerprint> {
    Some(Fingerprint { inode, size, blocks })
}

fn seen() -> Option<Fingerprint> {
    looks(42, 8192, 16)
}

fn offer(candidate: Candidate) -> Offer {
    Offer {
        candidate,
        cancelled: false,
        fingerprint: seen(),
        sharing: Reclaimable::Exact,
    }
}

fn candidate(path: &str, bytes: u64, safety: Safety, category: &str) -> Candidate {
    Candidate {
        path: path.to_string(),
        label: format!("item at {path}"),
        bytes,
        safety,
        method: ReclaimMethod::MoveToTrash {
            path: path.to_string(),
        },
        cost: None,
        category: category.to_string(),
        reclaimable: Reclaimable::Exact,
    }
}

fn trash(count: usize) -> Registry {
    let mut registry = Registry::new();
    let category = TrashCategory::at(TrashContents {
        root: "/home/me/.local/share/Trash".to_string(),
        items: count,
        bytes: 4096 * count as u64,
    });
    registry.register(Entry::of(&category, false));
    registry
}

/// Runs a preview over what a registry collected.
fn previewed(session: &mut Session, registry: Registry, guard: &Guard) -> Preview {
    numbered(&mut Counter::new(), session, registry, guard)
}

/// Runs a preview whose ticket is the next of a counter.
fn numbered(
    counter: &mut Counter,
    session: &mut Session,
    registry: Registry,
    guard: &Guard,
) -> Preview {
    let briefs = registry.briefs();
    let advisories = registry.collect_advisories();
    let offers = registry.collect().unwrap().into_iter().map(offer).collect();
    session.preview(counter, offers, &briefs, advisories, guard).unwrap()
}

fn of_candidates(candidates: Vec<Candidate>) -> Registry {
    let mut registry = Registry::new();
    registry.register(Entry {
        id: "test",
        label: "Test",
        explains: "A category used only by tests.",
        answer: Answer::Found(candidates),
        advisories: Vec::new(),
    });
    registry
}

/// Runs an execution to its end, doing what `perform` says.
fn run(
    mut execution: Execution,
    guard: &Guard,
    cancelled: bool,
    current: Option<Fingerprint>,
    perform: impl Fn(Action) -> Performed,
) -> (Report, Vec<(usize, usize)>) {
    let mut elevation = Elevation::never();
    let mut seen = Vec::new();
    loop {
        let before = execution.progress();
        match execution.next(cancelled, current, guard, &elevation) {
            Next::Finished => break,
            Next::Settled => seen.push(before),
            Next::Connect => elevation.connected(Err(AppError::internal("no helper"))),
            Next::Do(action) => {
                seen.push(before);
                execution.record(perform(action));
            }
        }
    }
    (execution.finish(Some(100_000), Some(95_904)), seen)
}

// ---------- the central guarantee: nothing bypasses preview ----------

#[test]
fn execution_without_a_preview_is_refused() {
    let ticket = previewed(&mut Session::new(), trash(1), &guard()).ticket;
    let mut session = Session::new();
    let err = session.execute(ticket, &[0]).unwrap_err();
    assert_eq!(err.code, ErrorCode::Refused);
    assert!(
        err.remedy.is_some(),
        "a refusal must say what to do instead"
    );
}

#[test]
fn a_stale_ticket_is_refused_after_a_newer_preview() {
    let mut session = Session::new();
    let mut counter = Counter::new();
    let first = numbered(&mut counter, &mut session, trash(2), &guard());
    let second = numbered(&mut counter, &mut session, trash(2), &guard());
    assert_ne!(
        first.ticket, second.ticket,
        "each preview mints its own ticket"
    );

    let err = session.execute(first.ticket, &[0]).unwrap_err();
    assert_eq!(
        err.code,
        ErrorCode::Refused,
        "an old ticket cannot be replayed"
    );
    assert_eq!(err.code, session.recall(first.ticket.number()).unwrap_err().code);
    assert_eq!(session.recall(second.ticket.number()), Ok(second.ticket));
    assert!(session.execute(second.ticket, &[0]).is_ok());
}

/// What is executed is what was shown, once.
#[test]
fn a_ticket_is_good_for_one_execution() {
    let mut session = Session::new();
    let preview = previewed(&mut session, trash(2), &guard());
    // A selection that is refused leaves the ticket as it was.
    assert!(session.execute(preview.ticket, &[0, 7]).is_err());
    assert!(session.execute(preview.ticket, &[0]).is_ok());

    let err = session.execute(preview.ticket, &[0]).unwrap_err();
    assert_eq!(err.code, ErrorCode::Refused);
    assert_eq!(err.message, "That preview has already been carried out.");
    assert!(err.remedy.is_some());
    assert_eq!(session.recall(preview.ticket.number()).unwrap_err(), err);
    assert_eq!(
        session.last_preview(),
        Some((8192, 8192)),
        "the figures of the last preview stay"
    );
}

/// One counter serves every session, so a ticket is good for its own alone.
#[test]
fn a_ticket_of_another_session_is_refused() {
    let mut counter = Counter::new();
    let mut mine = Session::new();
    let mut other = Session::new();
    let shown = numbered(&mut counter, &mut mine, trash(1), &guard());
    let elsewhere = numbered(&mut counter, &mut other, trash(1), &guard());
    assert_eq!(
        mine.execute(elsewhere.ticket, &[0]).unwrap_err().code,
        ErrorCode::Refused
    );
    assert_eq!(
        other.execute(shown.ticket, &[0]).unwrap_err().code,
        ErrorCode::Refused
    );
    assert!(mine.execute(shown.ticket, &[0]).is_ok());
}

#[test]
fn selecting_an_item_that_was_never_shown_is_an_error_not_a_silent_skip() {
    let mut session = Session::new();
    let preview = previewed(&mut session, trash(1), &guard());

    let err = session.execute(preview.ticket, &[999]).unwrap_err();
    assert_eq!(err.code, ErrorCode::InvalidInput);
    assert!(
        err.message.contains("was not part of the preview"),
        "acting on something the user never saw must be loud: {}",
        err.message
    );
    assert_eq!(
        err.message,
        "Item 999 was not part of the preview that was shown."
    );
}

#[test]
fn clearing_a_session_invalidates_its_ticket() {
    let mut session = Session::new();
    let preview = previewed(&mut session, trash(1), &guard());
    assert_eq!(session.last_preview(), Some((4096, 4096)));
    session.clear();
    assert!(session.execute(preview.ticket, &[0]).is_err());
    assert_eq!(session.last_preview(), None);
}

// ---------- the protection rules get the first and last word ----------

#[test]
fn a_protected_candidate_never_reaches_the_preview() {
    let mut forbidden = candidate("/etc/passwd", 4096, Safety::Safe, "test");
    forbidden.method = ReclaimMethod::Unlink {
        path: "/etc/passwd".to_string(),
    };
    let preview = previewed(&mut Session::new(), of_candidates(vec![forbidden]), &guard());

    assert!(
        preview.items.is_empty(),
        "a protected path must not be offered"
    );
    assert_eq!(preview.refused.len(), 1);
    assert_eq!(preview.refused[0].rule, "configuration");
    assert_eq!(preview.total_bytes, 0);
}

#[test]
fn a_never_rated_candidate_never_reaches_the_preview() {
    let never = candidate("/tmp/nix-never-test", 1, Safety::Never, "never");
    let preview = previewed(&mut Session::new(), of_candidates(vec![never]), &guard());
    assert!(preview.items.is_empty());
    assert_eq!(preview.refused[0].rule, "rated_never");
}

#[test]
fn protection_is_rechecked_at_execution_time() {
    let mut session = Session::new();
    let preview = previewed(&mut session, trash(2), &guard());
    assert_eq!(preview.items.len(), 1);

    // The user adds an exclusion between previewing and confirming.
    let stricter = Guard::new(
        vec!["/home/me/.local/share/Trash".to_string()],
        &environment(),
    );
    let execution = session.execute(preview.ticket, &[0]).unwrap();
    let (report, _) = run(execution, &stricter, false, seen(), |action| {
        panic!("nothing may be done, got {action:?}")
    });

    assert_eq!(report.skipped_count, 1, "the new rule must be honoured");
    assert_eq!(report.freed, 0);
}

// ---------- time-of-check / time-of-use ----------

#[test]
fn a_path_that_changed_since_the_preview_is_skipped_and_reported() {
    let mut session = Session::new();
    let file = candidate("/home/me/target.bin", 8192, Safety::Review, "file");
    let preview = previewed(&mut session, of_candidates(vec![file]), &guard());

    // Someone rewrites the file after the user saw the preview.
    let rewritten = looks(42, 65536, 128);
    let execution = session.execute(preview.ticket, &[0]).unwrap();
    let (report, _) = run(execution, &guard(), false, rewritten, |action| {
        panic!("the changed file must be left alone, got {action:?}")
    });

    assert_eq!(report.skipped_count, 1);
    assert_eq!(report.freed, 0);
    match &report.outcomes[0] {
        ItemOutcome::Skipped { reason, .. } => {
            assert!(reason.contains("changed"), "{reason}");
        }
        other => panic!("expected a skip, got {other:?}"),
    }
}

#[test]
fn an_already_deleted_path_is_skipped_rather_than_failing() {
    let mut session = Session::new();
    let file = candidate("/home/me/vanishing.bin", 4096, Safety::Review, "file");
    let preview = previewed(&mut session, of_candidates(vec![file]), &guard());

    let execution = session.execute(preview.ticket, &[0]).unwrap();
    let (report, _) = run(execution, &guard(), false, None, |action| {
        panic!("there is nothing left to act on, got {action:?}")
    });
    assert_eq!(report.skipped_count, 1);
    match &report.outcomes[0] {
        ItemOutcome::Skipped { reason, .. } => {
            assert!(reason.contains("already gone"), "{reason}")
        }
        other => panic!("expected a skip, got {other:?}"),
    }
}

/// Another file is another file, however its figures would add up.
#[test]
fn a_path_that_became_another_file_is_skipped() {
    for now in [looks(10, 8192, 16), looks(42, 8193, 16), looks(42, 8192, 17), looks(40, 8193, 16)]
    {
        let mut session = Session::new();
        let file = candidate("/home/me/target.bin", 8192, Safety::Review, "file");
        let preview = previewed(&mut session, of_candidates(vec![file]), &guard());
        let execution = session.execute(preview.ticket, &[0]).unwrap();
        let (report, _) = run(execution, &guard(), false, now, |action| {
            panic!("{now:?} is another file, got {action:?}")
        });
        assert_eq!(report.skipped_count, 1);
        assert!(!report.cancelled);
    }
    let mut swapped = logical(ReclaimMethod::MoveToTrash { path: "/home/me/x".into() });
    swapped.path = "/home/me/x".into();
    swapped.fingerprint = looks(10, 0, 0);
    assert!(matches!(
        reclaim_one(&swapped, &guard(), &Elevation::never(), looks(8, 1, 0)),
        Step::Settled(ItemOutcome::Skipped { .. })
    ));
}

// ---------- the happy path, end to end ----------

#[test]
fn emptying_trash_frees_space_and_reports_it_per_item() {
    let mut session = Session::new();
    let preview = previewed(&mut session, trash(3), &guard());
    assert_eq!(
        preview.items.len(),
        1,
        "the trash is offered as one decision"
    );
    assert!(preview.total_bytes > 0);
    assert_eq!(
        preview.safe_bytes, 0,
        "emptying trash is irreversible, so it is never pre-checked"
    );
    assert_eq!(preview.items[0].safety, Safety::Review);
    assert_eq!(preview.items[0].label, "Trash (3 items)");
    assert_eq!(
        preview.items[0].cost.as_deref(),
        Some("Permanently deletes 3 items you moved to the trash. They cannot be restored afterwards."),
        "a Review item must state its cost"
    );

    let execution = session.execute(preview.ticket, &[0]).unwrap();
    assert_eq!(
        execution.measured_path(),
        Some("/home/me/.local/share/Trash")
    );
    let (report, _) = run(execution, &guard(), false, seen(), |action| {
        assert_eq!(
            action,
            Action::EmptyTrash {
                volume: "/home/me/.local/share/Trash".to_string()
            }
        );
        Performed::Reclaimed { bytes: 12288 }
    });

    assert_eq!(report.reclaimed_count, 1);
    assert_eq!(report.failed_count, 0);
    assert_eq!(report.freed, 12288);
    assert_eq!(report.measured_delta, Some(4096));
    assert_eq!(report.measurement_agrees, Some(true));
    assert!(
        report.summary().starts_with("Freed "),
        "{}",
        report.summary()
    );
    assert_eq!(report.summary(), "Freed 12.0 KiB from 1 item.");
}

#[test]
fn an_empty_trash_produces_no_candidates() {
    let preview = previewed(&mut Session::new(), trash(0), &guard());
    assert!(preview.is_empty());
    assert_eq!(preview.total_bytes, 0);
}

#[test]
fn selecting_nothing_does_nothing() {
    let mut session = Session::new();
    let preview = previewed(&mut session, trash(2), &guard());
    let execution = session.execute(preview.ticket, &[]).unwrap();
    assert_eq!(execution.measured_path(), None);
    let (report, _) = run(execution, &guard(), false, seen(), |action| {
        panic!("nothing was selected, got {action:?}")
    });
    assert_eq!(report.freed, 0);
    assert!(report.outcomes.is_empty());
}

#[test]
fn cancellation_stops_between_items_and_is_reported() {
    let mut session = Session::new();
    let preview = previewed(&mut session, trash(2), &guard());
    let execution = session.execute(preview.ticket, &[0]).unwrap();
    let (report, _) = run(execution, &guard(), true, seen(), |action| {
        panic!("cancelling before an item means it is untouched, got {action:?}")
    });

    assert!(report.cancelled);
    assert_eq!(report.freed, 0);
    assert_eq!(report.summary(), "Freed 0 B from 0 items, stopped early.");
}

#[test]
fn cancelling_a_scan_is_the_cancellation_error() {
    let mut session = Session::new();
    let mut stopped = offer(candidate("/home/me/x", 1, Safety::Safe, "test"));
    stopped.cancelled = true;
    let err = session
        .preview(&mut Counter::new(), vec![stopped], &Vec::new(), Vec::new(), &guard())
        .unwrap_err();
    assert!(!err.is_fault());
    assert_eq!(session.last_preview(), None);

    let mut registry = Registry::new();
    registry.register(Entry::of(&TrashCategory::new(), true));
    assert!(!registry.collect().unwrap_err().is_fault());
    assert!(TrashCategory::new().candidates(true).is_err());
    assert!(CancelToken::new().check().is_ok());
}

#[test]
fn progress_is_reported_for_each_item() {
    let mut session = Session::new();
    let preview = previewed(&mut session, trash(1), &guard());
    let execution = session.execute(preview.ticket, &[0]).unwrap();
    let (_, seen) = run(execution, &guard(), false, seen(), |_| {
        Performed::Reclaimed { bytes: 1 }
    });
    assert_eq!(seen, vec![(0, 1)]);
}

// ---------- measurement ----------

#[test]
fn agreement_tolerates_small_differences_and_catches_large_ones() {
    // Within 2%.
    assert!(agrees(100_000_000, 100_000_000));
    assert!(agrees(100_000_000, 99_000_000));
    assert!(agrees(100_000_000, 101_000_000));
    // Beyond it.
    assert!(
        !agrees(100_000_000, 80_000_000),
        "a 20% gap is a real disagreement"
    );
    assert!(
        !agrees(100_000_000, 0),
        "freeing nothing while claiming 100 MB must not agree"
    );
    // Below the floor, the comparison says nothing useful, so it does not object.
    assert!(
        agrees(4096, 0),
        "a few kilobytes is inside the noise of a live filesystem"
    );
    // Exactly two per cent agrees, and no more than that.
    assert!(agrees(100_000_000, 98_000_000));
    assert!(!agrees(100_000_000, 97_999_999));
    assert!(agrees(u64::MAX, u64::MAX));
}

// ---------- a qualified estimate is never presented as a promise ----------

/// A candidate whose exclusivity cannot be proven must not contribute to the
/// promisable total, however large its stated size.
#[test]
fn an_unprovable_candidate_contributes_nothing_to_the_promise() {
    let mut shared = candidate("/tmp/nix-shared", 8_589_934_592, Safety::Review, "shared");
    shared.reclaimable = Reclaimable::AtMost {
        exclusive: None,
        reason: "Shared with a snapshot.".into(),
    };
    let preview = previewed(&mut Session::new(), of_candidates(vec![shared]), &guard());

    assert_eq!(preview.items.len(), 1);
    assert_eq!(
        preview.total_bytes, 8_589_934_592,
        "the stated size is still shown"
    );
    assert_eq!(
        preview.promisable_bytes, 0,
        "but nothing may be promised, because nothing was proven"
    );
    assert!(preview.total_is_upper_bound());
    assert_eq!(preview.qualified().len(), 1);
    assert!(preview.items[0].reclaimable.caveat().is_some());
}

#[test]
fn a_partly_shared_candidate_promises_only_its_exclusive_part() {
    let mut partly = candidate("/tmp/nix-partly", 10_000_000_000, Safety::Safe, "partly");
    partly.reclaimable = Reclaimable::AtMost {
        exclusive: Some(2_000_000_000),
        reason: "Most of this is shared with a snapshot.".into(),
    };
    let preview = previewed(&mut Session::new(), of_candidates(vec![partly]), &guard());

    assert_eq!(preview.promisable_bytes, 2_000_000_000);
    assert_eq!(
        preview.safe_bytes, 2_000_000_000,
        "a pre-checked total must also be a promise, not a stated size"
    );
    assert_eq!(preview.trashable_bytes, 2_000_000_000);
    assert!(preview.total_is_upper_bound());
}

#[test]
fn an_ordinary_candidate_is_exact_and_the_two_totals_agree() {
    let preview = previewed(&mut Session::new(), trash(2), &guard());
    assert!(preview.items[0].reclaimable.is_exact());
    assert_eq!(
        preview.promisable_bytes, preview.total_bytes,
        "on an ordinary filesystem there is nothing to qualify"
    );
    assert!(!preview.total_is_upper_bound());
    assert!(preview.qualified().is_empty());
}

/// What the filesystem says qualifies a size, unless the category knows better.
#[test]
fn the_filesystem_qualifies_what_the_category_does_not() {
    let mut plain = offer(candidate("/home/me/a", 100, Safety::Safe, "test"));
    plain.sharing = Reclaimable::AtMost {
        exclusive: None,
        reason: "On btrfs.".into(),
    };
    let mut judged = offer(candidate("/home/me/b", 50, Safety::Safe, "test"));
    judged.sharing = Reclaimable::AtMost {
        exclusive: None,
        reason: "On btrfs.".into(),
    };
    judged.candidate.reclaimable = Reclaimable::AtMost {
        exclusive: Some(20),
        reason: "The category knows.".into(),
    };
    let preview = Session::new()
        .preview(&mut Counter::new(), vec![plain, judged], &Vec::new(), Vec::new(), &guard())
        .unwrap();
    assert_eq!(preview.items[0].reclaimable.caveat(), Some("On btrfs."));
    assert_eq!(
        preview.items[1].reclaimable.caveat(),
        Some("The category knows.")
    );
    assert_eq!(preview.promisable_bytes, 20);
}

#[test]
fn items_are_ordered_largest_first() {
    let candidates = [100u64, 5000, 700]
        .into_iter()
        .enumerate()
        .map(|(i, bytes)| candidate(&format!("/tmp/nix-order-{i}"), bytes, Safety::Safe, "multi"))
        .collect();
    let preview = previewed(&mut Session::new(), of_candidates(candidates), &guard());

    let sizes: Vec<u64> = preview.items.iter().map(|i| i.bytes).collect();
    assert_eq!(
        sizes,
        vec![5000, 700, 100],
        "the decision is about where the space is"
    );
    let ids: Vec<u64> = preview.items.iter().map(|i| i.id).collect();
    assert_eq!(ids, vec![1, 2, 0]);
    assert_eq!(preview.total_bytes, 5800);
    assert_eq!(preview.safe_bytes, 5800, "all three are Safe");
    assert_eq!(preview.bulk_selectable().len(), 3);
}

#[test]
fn a_risky_item_is_never_taken_along() {
    let preview = previewed(
        &mut Session::new(),
        of_candidates(vec![
            candidate("/home/me/a", 1, Safety::Risky, "test"),
            candidate("/home/me/b", 2, Safety::Review, "test"),
        ]),
        &guard(),
    );
    let taken: Vec<u64> = preview.bulk_selectable().iter().map(|i| i.bytes).collect();
    assert_eq!(taken, vec![2]);
}

/// One explanation for every category that has an item, under its label.
#[test]
fn every_category_present_is_explained() {
    let mut registry = trash(1);
    registry.register(Entry::of(&TrashCategory::new(), false));
    registry.register(Entry {
        id: "absent",
        label: "Absent",
        explains: "Nothing of this was found.",
        answer: Answer::Found(Vec::new()),
        advisories: Vec::new(),
    });
    let preview = previewed(&mut Session::new(), registry, &guard());
    assert_eq!(preview.explanations.len(), 1);
    assert_eq!(
        preview.explanations.get("Trash").map(String::as_str),
        Some("Files you moved to the trash. Emptying it removes them for good.")
    );
    assert_eq!(preview.explanations.get("Absent"), None);
}

#[test]
fn a_failing_category_does_not_deny_the_user_the_others() {
    let mut registry = trash(1);
    registry.register(Entry {
        id: "broken",
        label: "Broken",
        explains: "A category used only by tests.",
        answer: Answer::Failed(AppError::internal("this category is broken")),
        advisories: Vec::new(),
    });
    let preview = previewed(&mut Session::new(), registry, &guard());
    assert_eq!(
        preview.items.len(),
        1,
        "the working category still produced its candidate"
    );
}

#[test]
fn an_unavailable_category_is_skipped() {
    let mut registry = Registry::new();
    assert!(registry.is_empty());
    registry.register(Entry {
        id: "unavailable",
        label: "Unavailable",
        explains: "A category used only by tests.",
        answer: Answer::Unavailable,
        advisories: Vec::new(),
    });
    let preview = previewed(&mut Session::new(), registry, &guard());
    assert!(preview.is_empty());
}

/// The guard itself, tested directly on the type.
#[test]
fn refusing_elevation_never_opens_a_session() {
    let elevation = Elevation::never();
    let error = elevation
        .client()
        .expect_err("elevation must be refused outright");
    assert_eq!(error.code, ErrorCode::HelperUnavailable);
    // Asking twice must not start one either.
    assert!(elevation.client().is_err());
}

#[test]
fn a_session_is_opened_once_and_its_failure_is_kept() {
    let mut elevation = Elevation::production();
    assert_eq!(elevation.client(), Ok(Channel::Connect));
    elevation.connected(Ok(()));
    assert_eq!(elevation.client(), Ok(Channel::Ready));

    let mut broken = Elevation::production();
    broken.connected(Err(AppError::internal("polkit said no")));
    assert_eq!(broken.client().unwrap_err().message, "polkit said no");
}

fn logical(method: ReclaimMethod) -> PreviewItem {
    PreviewItem {
        id: 0,
        path: "logical test entry".into(),
        label: "test".into(),
        bytes: 1024,
        safety: Safety::Review,
        method,
        cost: Some("test".into()),
        category: "test".into(),
        reclaimable: Reclaimable::Exact,
        fingerprint: None,
    }
}

/// With elevation refused, every operation that would need root fails at
/// elevation and nothing runs.
#[test]
fn no_privileged_operation_can_execute_under_test_elevation() {
    let privileged_methods = [
        ReclaimMethod::Packages {
            kind: RemovableKind::OldKernel,
            names: vec!["nix-test-not-a-real-kernel".into()],
        },
        ReclaimMethod::Packages {
            kind: RemovableKind::ResidualConfig,
            names: vec!["nix-test-not-a-real-package".into()],
        },
        ReclaimMethod::PackageManager {
            manager: Manager::Apt,
        },
        ReclaimMethod::JournalVacuum {
            limit: VacuumLimit::Size { mebibytes: 1 },
        },
        ReclaimMethod::SnapRevision {
            package: "nix-test-not-a-real-snap".into(),
            revision: "1".into(),
        },
        ReclaimMethod::FlatpakUnused,
    ];

    for method in privileged_methods {
        let item = logical(method.clone());
        match reclaim_one(&item, &guard(), &Elevation::never(), None) {
            Step::Settled(ItemOutcome::Failed { error, .. }) => assert_eq!(
                error.code,
                ErrorCode::HelperUnavailable,
                "{method:?} must fail at elevation, not somewhere further along"
            ),
            other => {
                panic!("{method:?} must not be carried out under test elevation, got {other:?}")
            }
        }
    }
}

/// The session that a privileged item needs is asked for, and then used.
#[test]
fn a_privileged_item_asks_for_the_session_and_then_uses_it() {
    let item = logical(ReclaimMethod::Packages {
        kind: RemovableKind::OldKernel,
        names: vec!["linux-image-1".into(), "linux-modules-1".into()],
    });
    let mut elevation = Elevation::production();
    assert_eq!(
        reclaim_one(&item, &guard(), &elevation, None),
        Step::Connect
    );
    elevation.connected(Ok(()));
    assert_eq!(
        reclaim_one(&item, &guard(), &elevation, None),
        Step::Do(Action::Ask(Op::RemovePackages {
            kind: RemovableKind::OldKernel,
            packages: vec!["linux-image-1".into(), "linux-modules-1".into()],
        }))
    );
    assert_eq!(
        privileged(&item, OpResult::Reclaimed { bytes: 7 }),
        ItemOutcome::Reclaimed {
            id: 0,
            path: "logical test entry".into(),
            bytes: 7
        }
    );
    match privileged(
        &item,
        OpResult::Other {
            description: "Pong".into(),
        },
    ) {
        ItemOutcome::Failed { error, .. } => {
            assert_eq!(error.code, ErrorCode::Internal);
            assert_eq!(error.message, "The helper answered a reclaim with Pong");
        }
        other => panic!("{other:?}"),
    }
}

#[test]
fn a_logical_method_is_not_guarded_by_a_path_that_never_existed() {
    // Logical: the path is a description, and the helper's re-derivation is the real guard.
    for method in [
        ReclaimMethod::Packages {
            kind: RemovableKind::OldKernel,
            names: vec!["nix-test-not-a-real-kernel".into()],
        },
        ReclaimMethod::SnapRevision {
            package: "chromium".into(),
            revision: "3499".into(),
        },
        ReclaimMethod::FlatpakUnused,
        ReclaimMethod::PackageManager {
            manager: Manager::Apt,
        },
        ReclaimMethod::JournalVacuum {
            limit: VacuumLimit::Size { mebibytes: 200 },
        },
        ReclaimMethod::ContainerPrune {
            scope: PruneScope::BuildCache,
        },
        ReclaimMethod::ContainerVolume {
            name: "data".into(),
        },
    ] {
        assert!(
            !method.acts_on_path(),
            "{method:?} acts on a logical object, so a path fingerprint would skip it"
        );
    }

    // Path-based: the path *is* the target, so re-checking it is the whole point.
    for method in [
        ReclaimMethod::MoveToTrash {
            path: "/home/u/x".into(),
        },
        ReclaimMethod::Unlink {
            path: "/home/u/x".into(),
        },
        ReclaimMethod::SystemFile {
            kind: ReclaimKind::RotatedLog,
            path: "/var/log/x.1".into(),
        },
        ReclaimMethod::TrashEmpty {
            volume: "/home/u".into(),
        },
    ] {
        assert!(
            method.acts_on_path(),
            "{method:?} names the thing being removed, so it must be re-checked"
        );
    }
}

#[test]
fn a_logical_candidate_is_not_refused_for_having_a_descriptive_path() {
    let mut kernel = candidate(
        "kernel nix-test-not-a-real-kernel",
        1024,
        Safety::Review,
        "logical_only",
    );
    kernel.method = ReclaimMethod::Packages {
        kind: RemovableKind::OldKernel,
        names: vec!["nix-test-not-a-real-kernel".into()],
    };
    let preview = previewed(&mut Session::new(), of_candidates(vec![kernel]), &guard());

    assert!(
        preview.refused.is_empty(),
        "a logical entry has no path for the path rules to judge: {:?}",
        preview.refused
    );
    assert_eq!(preview.items.len(), 1, "the candidate must be offered");
    assert_eq!(preview.total_bytes, 1024);
}

/// The behaviour, not just the classification: a logical item must reach its method.
#[test]
fn a_logical_item_reaches_its_method_rather_than_being_skipped_as_missing() {
    let mut item = logical(ReclaimMethod::Packages {
        kind: RemovableKind::OldKernel,
        names: vec!["nix-test-not-a-real-kernel".into()],
    });
    item.path = "kernel nix-test-not-a-real-kernel".into();
    match reclaim_one(&item, &guard(), &Elevation::never(), None) {
        Step::Settled(ItemOutcome::Failed { .. }) => {}
        Step::Settled(ItemOutcome::Skipped { reason, .. }) => panic!(
            "a kernel removal must reach the helper, not be skipped because its label is not a file: {reason}"
        ),
        other => panic!("nothing should succeed without a helper: {other:?}"),
    }
}

#[test]
fn an_unimplemented_method_fails_loudly_rather_than_silently() {
    let mut item = logical(ReclaimMethod::Unlink {
        path: "/home/me/\"x\".bin".into(),
    });
    item.path = "/home/me/\"x\".bin".into();
    item.fingerprint = seen();
    match reclaim_one(&item, &guard(), &Elevation::never(), seen()) {
        Step::Settled(ItemOutcome::Failed { error, .. }) => {
            assert_eq!(error.code, ErrorCode::Unsupported);
            assert_eq!(
                error.remedy.as_deref(),
                Some("Method: Unlink { path: \"/home/me/\\\"x\\\".bin\" }")
            );
        }
        other => panic!("an unimplemented method must fail loudly, got {other:?}"),
    }
}

/// Every figure of a report is derived from its outcomes.
#[test]
fn a_report_derives_its_figures_from_the_outcomes() {
    let report = Report::new(
        vec![
            ItemOutcome::Reclaimed {
                id: 0,
                path: "/tmp/a".into(),
                bytes: 4096,
            },
            ItemOutcome::Trashed {
                id: 1,
                path: "/tmp/t".into(),
                bytes: 9_000_000,
            },
            ItemOutcome::Skipped {
                id: 2,
                path: "/tmp/b".into(),
                reason: "It changed.".into(),
            },
            ItemOutcome::Failed {
                id: 3,
                path: "/tmp/c".into(),
                error: AppError::internal("boom"),
            },
        ],
        Some(4096),
        false,
    );
    assert_eq!(report.freed, 4096, "freed is derived from the outcomes");
    assert_eq!(report.trashed, 9_000_000, "and trashed is not freed");
    assert_eq!(report.reclaimed_count, 2);
    assert_eq!(report.skipped_count, 1);
    assert_eq!(report.failed_count, 1);
    assert_eq!(report.measurement_agrees, Some(true));
    assert_eq!(
        report.summary(),
        "Freed 4.0 KiB from 2 items, 1 skipped, 1 failed."
    );
    assert_eq!(report.outcomes[1].bytes_freed(), 0);
    assert_eq!(report.outcomes[1].bytes_trashed(), 9_000_000);
    assert!(report.outcomes[1].acted());
    assert!(!report.outcomes[3].acted());
}

#[test]
fn what_was_done_becomes_the_outcome() {
    let mut session = Session::new();
    let files = vec![
        candidate("/home/me/a", 10, Safety::Safe, "test"),
        candidate("/home/me/b", 20, Safety::Safe, "test"),
    ];
    let preview = previewed(&mut session, of_candidates(files), &guard());
    let execution = session.execute(preview.ticket, &[0, 1, 0]).unwrap();
    let (report, seen) = run(execution, &guard(), false, seen(), |action| {
        match action {
            Action::Trash { path } if path == "/home/me/a" => Performed::Trashed { bytes: 11 },
            _ => Performed::Failed(AppError::internal("disk full")),
        }
    });
    assert_eq!(seen, vec![(0, 3), (1, 3), (2, 3)]);
    assert_eq!(report.trashed, 22);
    assert_eq!(report.freed, 0);
    assert_eq!(report.failed_count, 1);
}

#[test]
fn directories_are_attributed_by_where_they_are() {
    let env = environment();
    let class = |path: &str| classify(path, &vec![], &vec![], &env);
    assert_eq!(class("/home/me/.cache/mozilla"), SpaceCategory::AppCache);
    assert_eq!(class("/home/me/.cache"), SpaceCategory::UserFile);
    assert_eq!(
        class("/home/me/.local/share/Trash/files"),
        SpaceCategory::Trash
    );
    assert_eq!(class("/home/me/.cargo/registry"), SpaceCategory::PackageCache);
    assert_eq!(class("/home/me/go/pkg/mod/x"), SpaceCategory::PackageCache);
    assert_eq!(class("/var/log/journal/abc"), SpaceCategory::Journal);
    assert_eq!(class("/var/log/apt"), SpaceCategory::Log);
    assert_eq!(class("/var/cache/apt"), SpaceCategory::PackageCache);
    assert_eq!(class("/var/lib/docker/overlay2"), SpaceCategory::ContainerImage);
    assert_eq!(class("/var/lib/snapd/snaps"), SpaceCategory::PackagePayload);
    assert_eq!(class("/home/me/Documents"), SpaceCategory::UserFile);
    assert_eq!(class("/srv/data"), SpaceCategory::Unknown);
    assert_eq!(
        classify("/srv/data/target", &vec!["Cargo.toml".to_string()], &vec![], &env),
        SpaceCategory::BuildArtifact
    );
    assert_eq!(class("/srv/data/target"), SpaceCategory::Unknown);
}

#[test]
fn sizes_are_written_in_the_largest_unit_they_reach() {
    assert_eq!(format_bytes(0), "0 B");
    assert_eq!(format_bytes(1023), "1023 B");
    assert_eq!(format_bytes(1024), "1.0 KiB");
    assert_eq!(format_bytes(197_312_512), "188.2 MiB");
    assert_eq!(format_bytes(3 << 40), "3.0 TiB");
    assert_eq!(format_bytes(u64::MAX), "16777216.0 TiB");
}

#[test]
fn briefs_say_what_the_categories_say() {
    let registry = trash(1);
    let briefs: Vec<Brief> = registry.briefs();
    assert_eq!(briefs[0].id, "trash");
    assert_eq!(briefs[0].label, "Trash");
    assert_eq!(registry.ids(), vec!["trash"]);
    assert_eq!(registry.len(), 1);
    assert_eq!(
        TrashCategory::new().space_category(),
        SpaceCategory::Trash
    );
}

#[test]
fn the_report_checks_its_own_arithmetic_against_the_filesystem() {
    let mut session = Session::new();
    let preview = previewed(&mut session, trash(4), &guard());
    let execution = session.execute(preview.ticket, &[0]).unwrap();
    let (report, _) = run(execution, &guard(), false, seen(), |_| {
        Performed::Reclaimed { bytes: 4096 }
    });
    assert!(report.freed > 0);
    if let Some(agrees) = report.measurement_agrees {
        assert!(
            agrees,
            "counted {} but the filesystem moved {:?}",
            report.freed, report.measured_delta
        );
    }
    assert!(report.measurement_agrees.is_some());
}

/// The tolerance is compared as floating point compares it.
#[test]
fn agreement_at_the_edge_of_the_tolerance() {
    let counted = 1_000_000_000_000_000_000;
    assert!(agrees(counted, 980_000_000_000_000_000));
    assert!(agrees(counted, 979_999_999_999_999_999));
    assert!(!agrees(counted, 979_999_999_999_999_900));
    assert!(agrees(100 << 20, 98 << 20));
    assert!(!agrees(100 << 20, (98 << 20) - 1));
    assert!(agrees(0, 1048575));
    assert!(!agrees(0, 1048576));
    assert!(agrees(u64::MAX, u64::MAX));
}

/// Two per cent of the larger, as exact arithmetic has it.
#[test]
fn agreement_is_exact_up_to_a_tebibyte() {
    for larger in [1u64 << 20, (1 << 20) + 49, 123_456_789, 1 << 40] {
        let most = larger / 50;
        assert!(agrees(larger, larger - most), "{larger}");
        assert!(agrees(larger - most, larger), "{larger}");
        assert!(!agrees(larger, larger - most - 1), "{larger}");
    }
}

/// A report says that it was cancelled exactly where something is left undone.
#[test]
fn a_report_is_cancelled_where_something_is_left_undone() {
    for stop_at in [0usize, 1, 2, 3] {
        let mut session = Session::new();
        let files = vec![
            candidate("/home/me/a", 10, Safety::Safe, "test"),
            candidate("/home/me/b", 20, Safety::Safe, "test"),
        ];
        let preview = previewed(&mut session, of_candidates(files), &guard());
        let mut execution = session.execute(preview.ticket, &[0, 1]).unwrap();
        let elevation = Elevation::never();
        loop {
            let cancelled = execution.progress().0 >= stop_at;
            match execution.next(cancelled, seen(), &guard(), &elevation) {
                Next::Finished => break,
                Next::Do(_) => execution.record(Performed::Trashed { bytes: u64::MAX }),
                other => panic!("{other:?}"),
            }
        }
        let report = execution.finish(None, None);
        assert_eq!(report.cancelled, stop_at < 2, "{stop_at}");
        assert_eq!(report.outcomes.len(), stop_at.min(2));
        assert_eq!(report.trashed, if stop_at == 0 { 0 } else { u64::MAX });
    }
}
