use knowledge_scanner::ingest::{RetryPolicy, SubmitStep, Submission};
use knowledge_scanner::pipeline::{extract, mutation_for, prepare, reconcile, Mutation};
use knowledge_scanner::report::{
    Completion, Failure, IngestionOutcome, IoError, ScanError, ScanReport,
};
use knowledge_scanner::resource::{eq_bytes, Resource};
use knowledge_scanner::scan::{validate_root, NextStep, ScanCoordinator, ScanEvent};
use knowledge_scanner::store::{Applied, MemoryStore};
use knowledge_scanner::tags::split_tags;
use knowledge_scanner::walker::{select_candidates, EntryKind, WalkEntry};

fn hex(bytes: &[u8]) -> String {
    bytes.iter().map(|b| format!("{:02x}", b)).collect()
}

fn resource(path: &str, content: &str) -> Resource {
    Resource::new(path.to_string(), content.as_bytes().to_vec(), 0)
}

fn done(path: &str, outcome: IngestionOutcome) -> Completion {
    Completion { path: path.to_string(), result: Ok(outcome) }
}

fn unreadable(path: &str, error: IoError) -> Completion {
    Completion { path: path.to_string(), result: Err(error) }
}

fn failure_list(failures: &[Failure]) -> Vec<String> {
    let mut out: Vec<String> = failures
        .iter()
        .map(|f| match &f.error {
            ScanError::IO(e) => format!("{}: io {:?}", f.path, e),
            ScanError::Mutation(m) => format!("{}: mutation {}", f.path, m),
        })
        .collect();
    out.sort();
    out
}

fn submit(store: &mut MemoryStore, m: Mutation, dry_run: bool) -> IngestionOutcome {
    let (mut submission, mut step) = Submission::begin(RetryPolicy::standard(), dry_run);
    let mut pending = Some(m);
    loop {
        match step {
            SubmitStep::Done(outcome) => return outcome,
            SubmitStep::Send | SubmitStep::RetryAfter(_) => {
                store.ingest(pending.take().unwrap());
                step = submission.on_result(Ok(()));
            }
        }
    }
}

fn run_scan(files: &[(&str, Option<&str>)], tags: &str, dry_run: bool, store: &mut MemoryStore) -> ScanReport {
    let entries: Vec<WalkEntry> = files
        .iter()
        .map(|(p, _)| WalkEntry { path: p.to_string(), kind: Some(EntryKind::File) })
        .collect();
    let caller = split_tags(tags);
    let mut coordinator = ScanCoordinator::new(2).unwrap();
    let mut walk = select_candidates(&entries).into_iter();
    let mut running: Vec<Completion> = Vec::new();
    loop {
        match coordinator.next_step() {
            NextStep::Finish => break,
            NextStep::Pull => match walk.next() {
                None => {
                    coordinator.step(ScanEvent::WalkFinished);
                }
                Some(path) => {
                    coordinator.step(ScanEvent::Discovered);
                    let content = files.iter().find(|(p, _)| *p == path).unwrap().1;
                    let result = match content {
                        None => Err(IoError::PermissionDenied),
                        Some(text) => {
                            let m = prepare(&resource(&path, text), &caller);
                            Ok(submit(store, m, dry_run))
                        }
                    };
                    running.push(Completion { path, result });
                }
            },
            NextStep::Await => {
                coordinator.step(ScanEvent::Completed(running.remove(0)));
            }
        }
    }
    coordinator.into_report()
}

#[test]
fn checksum_is_sha256_of_the_content() {
    let empty = Resource::new("e.md".to_string(), Vec::new(), 0);
    assert_eq!(
        hex(&empty.checksum),
        "e3b0c44298fc1c149afbf4c8996fb92427ae41e4649b934ca495991b7852b855"
    );
    let abc = resource("abc.md", "abc");
    assert_eq!(
        hex(&abc.checksum),
        "ba7816bf8f01cfea414140de5dae2223b00361a396177a9cb410ff61f20015ad"
    );
    assert_eq!(abc.content, b"abc".to_vec());
    assert_eq!(abc.path, "abc.md");
}

#[test]
fn checksum_is_stable_and_tells_contents_apart() {
    let a = resource("a.md", "same");
    let b = Resource::new("elsewhere.md".to_string(), b"same".to_vec(), 99);
    let c = resource("a.md", "other");
    assert_eq!(a.checksum, b.checksum);
    assert_ne!(a.checksum, c.checksum);
    assert!(!a.changed_since(&b.checksum));
    assert!(a.changed_since(&c.checksum));
    assert!(eq_bytes(&a.checksum, &b.checksum));
    assert!(!eq_bytes(&a.checksum, &c.checksum));
    assert!(!eq_bytes(&vec![1, 2], &vec![1]));
}

#[test]
fn text_is_lossy_utf8() {
    assert_eq!(resource("a.md", "héllo").text(), "héllo");
    let broken = Resource::new("b.md".to_string(), vec![b'a', 0xFF, b'b'], 0);
    assert_eq!(broken.text(), "a\u{FFFD}b");
}

#[test]
fn fallback_title_is_the_file_stem() {
    assert_eq!(resource("/root/docs/guide.md", "").fallback_title(), "guide");
    assert_eq!(resource("a.md", "").fallback_title(), "a");
    assert_eq!(resource("notes", "").fallback_title(), "notes");
    assert_eq!(resource("/x/a.b.md", "").fallback_title(), "a.b");
    assert_eq!(resource("/x/.md", "").fallback_title(), "");
}

#[test]
fn extract_uses_heading_or_stem() {
    assert_eq!(extract(&resource("/r/a.md", "# Alpha\n")).title, "Alpha");
    assert_eq!(extract(&resource("/r/b.md", "no heading\n")).title, "b");
}

#[test]
fn extract_survives_invalid_utf8() {
    let r = Resource::new("/r/x.md".to_string(), b"# T\xFF\ntags: a\n[l](t.md)\xFE\n".to_vec(), 0);
    let f = extract(&r);
    assert_eq!(f.title, "T\u{FFFD}");
    assert_eq!(f.tags, vec!["a"]);
    assert_eq!(f.links.len(), 1);
    assert_eq!(f.links[0].target, "t.md");
}

#[test]
fn reconcile_keeps_the_finding() {
    let f = extract(&resource("/r/a.md", "# A\ntags: notes\n[l](t.md)\n"));
    let r = reconcile(f, &split_tags("x, Notes, y"));
    assert_eq!(r.finding.title, "A");
    assert_eq!(r.finding.tags, vec!["notes"]);
    assert_eq!(r.finding.links.len(), 1);
    assert_eq!(r.tags, vec!["notes", "x", "y"]);
}

#[test]
fn mutation_carries_path_checksum_title_tags_and_links() {
    let r = resource("/r/a.md", "# A\ntags: notes\n[l](t.md)\n");
    let m = mutation_for(&r, reconcile(extract(&r), &split_tags("x")));
    assert_eq!(m.path, "/r/a.md");
    assert_eq!(m.checksum, r.checksum);
    assert_eq!(m.title, "A");
    assert_eq!(m.tags, vec!["notes", "x"]);
    assert_eq!(m.links.len(), 1);
    assert_eq!(m.links[0].target, "t.md");
    assert_eq!(m.links[0].context, Some("l".to_string()));
}

#[test]
fn prepare_is_repeatable() {
    let r = resource("/r/a.md", "# A\ntags: notes\n[l](t.md)\n");
    let tags = split_tags("x, y");
    let one = prepare(&r, &tags);
    let two = prepare(&Resource::new(r.path.clone(), r.content.clone(), 12345), &tags);
    assert_eq!(one.path, two.path);
    assert_eq!(one.checksum, two.checksum);
    assert_eq!(one.title, two.title);
    assert_eq!(one.tags, two.tags);
    assert_eq!(one.links.len(), two.links.len());
}

#[test]
fn retry_policy_needs_an_attempt_and_ordered_delays() {
    assert!(RetryPolicy::new(0, 1, 2).is_none());
    assert!(RetryPolicy::new(1, 3, 2).is_none());
    let p = RetryPolicy::new(4, 10, 50).unwrap();
    assert_eq!((p.max_attempts, p.base_delay_ms, p.max_delay_ms), (4, 10, 50));
    assert!(RetryPolicy::new(1, 0, 0).is_some());
    let s = RetryPolicy::standard();
    assert_eq!((s.max_attempts, s.base_delay_ms, s.max_delay_ms), (3, 100, 2000));
}

#[test]
fn delay_doubles_up_to_the_ceiling() {
    let p = RetryPolicy::standard();
    assert_eq!(p.delay_after(1), 100);
    assert_eq!(p.delay_after(2), 200);
    assert_eq!(p.delay_after(3), 400);
    assert_eq!(p.delay_after(4), 800);
    assert_eq!(p.delay_after(5), 1600);
    assert_eq!(p.delay_after(6), 2000);
    assert_eq!(p.delay_after(7), 2000);
    assert_eq!(p.delay_after(u32::MAX), 2000);
}

#[test]
fn delay_edge_cases() {
    let zero = RetryPolicy::new(5, 0, 1000).unwrap();
    assert_eq!(zero.delay_after(1), 0);
    assert_eq!(zero.delay_after(1_000_000), 0);
    let flat = RetryPolicy::new(5, 7, 7).unwrap();
    assert_eq!(flat.delay_after(1), 7);
    assert_eq!(flat.delay_after(3), 7);
    let huge = RetryPolicy::new(200, 1, u64::MAX).unwrap();
    assert_eq!(huge.delay_after(64), 1u64 << 63);
    assert_eq!(huge.delay_after(65), u64::MAX);
    let odd = RetryPolicy::new(9, 3, 10).unwrap();
    assert_eq!(odd.delay_after(2), 6);
    assert_eq!(odd.delay_after(3), 10);
}

#[test]
fn dry_run_never_sends() {
    let (mut s, first) = Submission::begin(RetryPolicy::standard(), true);
    assert!(matches!(first, SubmitStep::Done(IngestionOutcome::Skipped)));
    assert!(matches!(s.on_result(Ok(())), SubmitStep::Done(IngestionOutcome::Skipped)));
    assert!(matches!(
        s.on_result(Err("x".to_string())),
        SubmitStep::Done(IngestionOutcome::Skipped)
    ));
    assert_eq!(s.failed_attempts, 0);
}

#[test]
fn success_commits() {
    let (mut s, first) = Submission::begin(RetryPolicy::standard(), false);
    assert!(matches!(first, SubmitStep::Send));
    assert!(matches!(s.on_result(Ok(())), SubmitStep::Done(IngestionOutcome::Committed)));
}

#[test]
fn failure_is_retried_with_backoff_then_given_up() {
    let (mut s, first) = Submission::begin(RetryPolicy::standard(), false);
    assert!(matches!(first, SubmitStep::Send));
    assert!(matches!(s.on_result(Err("one".to_string())), SubmitStep::RetryAfter(100)));
    assert_eq!(s.failed_attempts, 1);
    assert!(matches!(s.on_result(Err("two".to_string())), SubmitStep::RetryAfter(200)));
    assert_eq!(s.failed_attempts, 2);
    match s.on_result(Err("three".to_string())) {
        SubmitStep::Done(IngestionOutcome::Failed(detail)) => assert_eq!(detail, "three"),
        other => panic!("unexpected step {:?}", other),
    }
}

#[test]
fn retry_can_still_succeed() {
    let (mut s, _) = Submission::begin(RetryPolicy::standard(), false);
    assert!(matches!(s.on_result(Err("one".to_string())), SubmitStep::RetryAfter(100)));
    assert!(matches!(s.on_result(Ok(())), SubmitStep::Done(IngestionOutcome::Committed)));
}

#[test]
fn single_attempt_policy_gives_up_at_once() {
    let (mut s, _) = Submission::begin(RetryPolicy::new(1, 5, 5).unwrap(), false);
    assert!(matches!(
        s.on_result(Err("no".to_string())),
        SubmitStep::Done(IngestionOutcome::Failed(_))
    ));
}

#[test]
fn sends_never_exceed_the_attempts_allowed() {
    let (mut s, first) = Submission::begin(RetryPolicy::new(5, 1, 8).unwrap(), false);
    let mut sends = 0;
    let mut step = first;
    let mut delays: Vec<u64> = Vec::new();
    loop {
        match step {
            SubmitStep::Done(_) => break,
            SubmitStep::Send => sends += 1,
            SubmitStep::RetryAfter(d) => {
                delays.push(d);
                sends += 1;
            }
        }
        step = s.on_result(Err("down".to_string()));
    }
    assert_eq!(sends, 5);
    assert_eq!(delays, vec![1, 2, 4, 8]);
}

#[test]
fn new_report_is_empty() {
    let r = ScanReport::new();
    assert_eq!((r.discovered, r.committed, r.skipped, r.failed), (0, 0, 0, 0));
    assert!(r.failures.is_empty());
    assert_eq!(r.success_count(), 0);
    assert_eq!(r.completed(), 0);
}

#[test]
fn record_counts_each_kind() {
    let mut r = ScanReport::new();
    for _ in 0..4 {
        r.note_discovered();
    }
    r.record(done("a.md", IngestionOutcome::Committed));
    r.record(done("b.md", IngestionOutcome::Skipped));
    r.record(done("c.md", IngestionOutcome::Failed("store down".to_string())));
    r.record(unreadable("d.md", IoError::NotFound));
    assert_eq!((r.discovered, r.committed, r.skipped, r.failed), (4, 1, 1, 2));
    assert_eq!(r.success_count(), 2);
    assert_eq!(r.completed(), 4);
    assert_eq!(
        failure_list(&r.failures),
        vec!["c.md: mutation store down", "d.md: io NotFound"]
    );
}

#[test]
fn tally_does_not_depend_on_order() {
    let make = |order: &[usize]| -> ScanReport {
        let all = [
            ("a.md", 0),
            ("b.md", 1),
            ("c.md", 2),
            ("d.md", 3),
            ("e.md", 0),
        ];
        let completions = order
            .iter()
            .map(|&i| {
                let (p, k) = all[i];
                match k {
                    0 => done(p, IngestionOutcome::Committed),
                    1 => done(p, IngestionOutcome::Skipped),
                    2 => done(p, IngestionOutcome::Failed("timeout".to_string())),
                    _ => unreadable(p, IoError::PermissionDenied),
                }
            })
            .collect();
        ScanReport::tally(completions)
    };
    let one = make(&[0, 1, 2, 3, 4]);
    let two = make(&[4, 3, 2, 1, 0]);
    let three = make(&[2, 0, 4, 1, 3]);
    for r in [&one, &two, &three] {
        assert_eq!((r.discovered, r.committed, r.skipped, r.failed), (5, 2, 1, 2));
        assert_eq!(r.success_count(), 3);
    }
    assert_eq!(failure_list(&one.failures), failure_list(&two.failures));
    assert_eq!(failure_list(&one.failures), failure_list(&three.failures));
    assert_eq!(
        failure_list(&one.failures),
        vec!["c.md: mutation timeout", "d.md: io PermissionDenied"]
    );
}

#[test]
fn tally_of_nothing() {
    let r = ScanReport::tally(Vec::new());
    assert_eq!((r.discovered, r.committed, r.skipped, r.failed), (0, 0, 0, 0));
}

#[test]
fn root_must_be_a_directory() {
    assert!(validate_root(Some(EntryKind::Directory)).is_ok());
    assert!(matches!(validate_root(None), Err(ScanError::IO(IoError::NotFound))));
    assert!(matches!(
        validate_root(Some(EntryKind::File)),
        Err(ScanError::IO(IoError::ReadFailure))
    ));
    assert!(matches!(
        validate_root(Some(EntryKind::Symlink)),
        Err(ScanError::IO(IoError::ReadFailure))
    ));
    assert!(matches!(
        validate_root(Some(EntryKind::Other)),
        Err(ScanError::IO(IoError::ReadFailure))
    ));
}

#[test]
fn coordinator_needs_a_worker() {
    assert!(ScanCoordinator::new(0).is_none());
    let c = ScanCoordinator::new(3).unwrap();
    assert_eq!((c.limit, c.in_flight, c.walk_done, c.cancelled), (3, 0, false, false));
    assert_eq!(c.next_step(), NextStep::Pull);
}

#[test]
fn coordinator_keeps_the_pool_within_its_size() {
    let mut c = ScanCoordinator::new(2).unwrap();
    assert_eq!(c.step(ScanEvent::Discovered), NextStep::Pull);
    assert_eq!(c.step(ScanEvent::Discovered), NextStep::Await);
    assert_eq!(c.in_flight, 2);
    assert_eq!(c.step(ScanEvent::Discovered), NextStep::Await);
    assert_eq!(c.in_flight, 2);
    assert_eq!(c.report.discovered, 2);
    assert_eq!(
        c.step(ScanEvent::Completed(done("a.md", IngestionOutcome::Committed))),
        NextStep::Pull
    );
    assert_eq!(c.in_flight, 1);
}

#[test]
fn coordinator_finishes_only_when_everything_completed() {
    let mut c = ScanCoordinator::new(4).unwrap();
    c.step(ScanEvent::Discovered);
    c.step(ScanEvent::Discovered);
    assert_eq!(c.step(ScanEvent::WalkFinished), NextStep::Await);
    assert_eq!(
        c.step(ScanEvent::Completed(done("a.md", IngestionOutcome::Committed))),
        NextStep::Await
    );
    assert_eq!(
        c.step(ScanEvent::Completed(unreadable("b.md", IoError::NotFound))),
        NextStep::Finish
    );
    assert_eq!(c.step(ScanEvent::Discovered), NextStep::Finish);
    let r = c.into_report();
    assert_eq!((r.discovered, r.committed, r.skipped, r.failed), (2, 1, 0, 1));
}

#[test]
fn coordinator_ignores_a_completion_with_nothing_running() {
    let mut c = ScanCoordinator::new(1).unwrap();
    assert_eq!(
        c.step(ScanEvent::Completed(done("ghost.md", IngestionOutcome::Committed))),
        NextStep::Pull
    );
    assert_eq!(c.report.committed, 0);
    assert_eq!(c.step(ScanEvent::WalkFinished), NextStep::Finish);
}

#[test]
fn scan_ingests_candidates_with_reconciled_tags() {
    let files = [
        ("a.md", Some("tags: notes\n")),
        ("b.md", Some("plain\n")),
        ("node_modules/c.md", Some("tags: hidden\n")),
    ];
    let mut store = MemoryStore::new();
    let report = run_scan(&files, "x, y", false, &mut store);
    assert_eq!(report.success_count(), 2);
    assert_eq!((report.discovered, report.committed, report.skipped, report.failed), (2, 2, 0, 0));
    assert_eq!(store.len(), 2);
    assert_eq!(store.get("a.md").unwrap().tags, vec!["notes", "x", "y"]);
    assert_eq!(store.get("b.md").unwrap().tags, vec!["x", "y"]);
    assert!(store.get("node_modules/c.md").is_none());
}

#[test]
fn scan_survives_an_unreadable_file() {
    let files = [("locked.md", None), ("ok.md", Some("# Fine\n"))];
    let mut store = MemoryStore::new();
    let report = run_scan(&files, "", false, &mut store);
    assert_eq!(report.success_count(), 1);
    assert_eq!(report.failed, 1);
    assert_eq!(report.discovered, 2);
    assert_eq!(failure_list(&report.failures), vec!["locked.md: io PermissionDenied"]);
    assert_eq!(store.len(), 1);
    assert_eq!(store.get("ok.md").unwrap().title, "Fine");
}

#[test]
fn dry_run_counts_like_a_real_scan_and_sends_nothing() {
    let files = [
        ("a.md", Some("tags: notes\n")),
        ("b.md", Some("plain\n")),
        ("gone.md", None),
        ("node_modules/c.md", Some("x")),
    ];
    let mut store = MemoryStore::new();
    let real = run_scan(&files, "x, y", false, &mut store);
    assert_eq!(store.len(), 2);
    let mut untouched = MemoryStore::new();
    let dry = run_scan(&files, "x, y", true, &mut untouched);
    assert_eq!(dry.success_count(), real.success_count());
    assert_eq!(dry.success_count(), 2);
    assert_eq!((dry.committed, dry.skipped, dry.failed), (0, 2, 1));
    assert_eq!((real.committed, real.skipped, real.failed), (2, 0, 1));
    assert_eq!(untouched.len(), 0);
    let again = run_scan(&files, "x, y", true, &mut store);
    assert_eq!(again.success_count(), real.success_count());
    assert_eq!(store.len(), 2);
}

#[test]
fn cancellation_keeps_what_was_completed() {
    let mut c = ScanCoordinator::new(10).unwrap();
    for _ in 0..10 {
        assert_eq!(c.step(ScanEvent::Discovered) == NextStep::Finish, false);
    }
    for name in ["1.md", "2.md", "3.md"] {
        c.step(ScanEvent::Completed(done(name, IngestionOutcome::Committed)));
    }
    assert_eq!(c.step(ScanEvent::Cancelled), NextStep::Finish);
    assert_eq!(
        c.step(ScanEvent::Completed(done("4.md", IngestionOutcome::Committed))),
        NextStep::Finish
    );
    assert_eq!(c.step(ScanEvent::Discovered), NextStep::Finish);
    assert_eq!(c.step(ScanEvent::WalkFinished), NextStep::Finish);
    let r = c.into_report();
    assert_eq!(r.discovered, 10);
    assert_eq!(r.success_count(), 3);
    assert!(r.success_count() <= 3);
    assert_eq!(r.failed, 0);
}

#[test]
fn store_keeps_one_record_per_path() {
    let mut store = MemoryStore::new();
    let r = resource("/r/a.md", "# A\ntags: one\n[l](t.md)\n");
    let tags = split_tags("x");
    assert_eq!(store.ingest(prepare(&r, &tags)), Applied::Created);
    assert_eq!(store.ingest(prepare(&r, &tags)), Applied::Unchanged);
    assert_eq!(store.len(), 1);
    assert_eq!(store.get("/r/a.md").unwrap().tags, vec!["one", "x"]);
}

#[test]
fn store_replaces_a_changed_resource_as_a_whole() {
    let mut store = MemoryStore::new();
    let tags = split_tags("x");
    let old = resource("/r/a.md", "# Old\ntags: stale\n[l](old.md)\n[m](more.md)\n");
    let new = resource("/r/a.md", "# New\n[n](new.md)\n");
    let other = resource("/r/b.md", "# B\n");
    assert_eq!(store.ingest(prepare(&old, &tags)), Applied::Created);
    assert_eq!(store.ingest(prepare(&other, &tags)), Applied::Created);
    assert_eq!(store.ingest(prepare(&new, &tags)), Applied::Replaced);
    assert_eq!(store.len(), 2);
    let record = store.get("/r/a.md").unwrap();
    assert_eq!(record.title, "New");
    assert_eq!(record.tags, vec!["x"]);
    assert_eq!(record.links.len(), 1);
    assert_eq!(record.links[0].target, "new.md");
    assert_eq!(record.checksum, new.checksum);
    assert_eq!(store.get("/r/b.md").unwrap().title, "B");
    assert!(store.get("/r/c.md").is_none());
}

#[test]
fn empty_store() {
    let store = MemoryStore::new();
    assert_eq!(store.len(), 0);
    assert!(store.get("a.md").is_none());
}

#[test]
fn delay_before_any_failure_is_the_first_delay() {
    assert_eq!(RetryPolicy::standard().delay_after(0), 100);
}

#[test]
fn delay_never_exceeds_the_ceiling() {
    let crossed = RetryPolicy { max_attempts: 3, base_delay_ms: 50, max_delay_ms: 10 };
    assert_eq!(crossed.delay_after(0), 10);
    assert_eq!(crossed.delay_after(1), 10);
    assert_eq!(crossed.delay_after(4), 10);
}

#[test]
fn a_policy_without_attempts_still_sends_once() {
    let none = RetryPolicy { max_attempts: 0, base_delay_ms: 1, max_delay_ms: 2 };
    let (mut s, first) = Submission::begin(none, false);
    assert!(matches!(first, SubmitStep::Send));
    match s.on_result(Err("refused".to_string())) {
        SubmitStep::Done(IngestionOutcome::Failed(detail)) => assert_eq!(detail, "refused"),
        other => panic!("unexpected step {:?}", other),
    }
    assert_eq!(s.failed_attempts, 0);
}
