use db_mirror::config::{resolve_config, resolve_interval, ConfigError, DEFAULT_INTERVAL_HOURS};
use db_mirror::gate::{accepts_overwrite, answer_is_yes, may_overwrite, needs_confirmation};
use db_mirror::pass::{Direction, MirrorPass, PassAction};
use db_mirror::paths::{discover, is_under, name_has_suffix, rerooted, MirrorPair, WalkEntry};
use db_mirror::scheduler::{Phase, ScheduleAction, Scheduler};

fn path(parts: &[&str]) -> Vec<String> {
    parts.iter().map(|s| s.to_string()).collect()
}

fn file(parts: &[&str]) -> WalkEntry {
    WalkEntry { components: path(parts), is_file: true }
}

fn dir(parts: &[&str]) -> WalkEntry {
    WalkEntry { components: path(parts), is_file: false }
}

fn scenario_entries() -> Vec<WalkEntry> {
    vec![
        dir(&["/", "src"]),
        dir(&["/", "src", "a"]),
        file(&["/", "src", "a", "x.db"]),
        dir(&["/", "src", "a", "b"]),
        file(&["/", "src", "a", "b", "y.db"]),
        file(&["/", "src", "a", "b", "z.txt"]),
    ]
}

fn suffix() -> String {
    ".db".to_string()
}

fn run_forward(pairs: Vec<MirrorPair>, results: Vec<Result<(), String>>) -> MirrorPass {
    let mut pass = MirrorPass::new(pairs, Direction::Forward, false);
    let mut results = results.into_iter();
    loop {
        match pass.action() {
            PassAction::Copy(_) => pass.copied(results.next().unwrap()),
            PassAction::Finished => break,
            other => panic!("unexpected action {:?}", other),
        }
    }
    pass
}

#[test]
fn scenario_forward_pass() {
    let src = path(&["/", "src"]);
    let bak = path(&["/", "bak"]);
    let pairs = discover(&src, &bak, &scenario_entries(), &suffix());
    assert_eq!(pairs.len(), 2);
    assert_eq!(pairs[0].source, path(&["/", "src", "a", "x.db"]));
    assert_eq!(pairs[0].destination, path(&["/", "bak", "a", "x.db"]));
    assert_eq!(pairs[1].source, path(&["/", "src", "a", "b", "y.db"]));
    assert_eq!(pairs[1].destination, path(&["/", "bak", "a", "b", "y.db"]));
    assert_eq!(pairs[0].destination_parent(), path(&["/", "bak", "a"]));
    assert_eq!(pairs[1].destination_parent(), path(&["/", "bak", "a", "b"]));
    assert!(pairs.iter().all(|p| !p.destination.contains(&"z.txt".to_string())));
    let pass = run_forward(pairs, vec![Ok(()), Ok(())]);
    assert_eq!(pass.outcomes.len(), 2);
    assert!(pass.outcomes.iter().all(|o| o.error.is_none()));
}

#[test]
fn structure_is_preserved() {
    let src = path(&["/", "data", "live"]);
    let bak = path(&["backups"]);
    let entries = vec![file(&["/", "data", "live", "p", "q", "r.db"])];
    let pairs = discover(&src, &bak, &entries, &suffix());
    assert_eq!(pairs.len(), 1);
    assert_eq!(&pairs[0].source[src.len()..], &pairs[0].destination[bak.len()..]);
    assert_eq!(pairs[0].destination, path(&["backups", "p", "q", "r.db"]));
}

#[test]
fn suffix_filter_at_every_depth() {
    let src = path(&["r"]);
    let bak = path(&["b"]);
    let entries = vec![
        file(&["r", "top.db"]),
        file(&["r", "top.dbx"]),
        file(&["r", "db"]),
        file(&["r", "x", "y", "z", "deep.db"]),
        file(&["r", "x", "y", "z", "deep.DB"]),
        dir(&["r", "dir.db"]),
        file(&["elsewhere", "o.db"]),
        file(&["r"]),
    ];
    let pairs = discover(&src, &bak, &entries, &suffix());
    let sources: Vec<Vec<String>> = pairs.iter().map(|p| p.source.clone()).collect();
    assert_eq!(sources, vec![path(&["r", "top.db"]), path(&["r", "x", "y", "z", "deep.db"])]);
}

#[test]
fn empty_tree_discovers_nothing() {
    let pairs = discover(&path(&["r"]), &path(&["b"]), &vec![], &suffix());
    assert!(pairs.is_empty());
}

#[test]
fn swapped_roots_give_swapped_pairs() {
    let src = path(&["/", "src"]);
    let bak = path(&["/", "bak"]);
    let forward = discover(&src, &bak, &scenario_entries(), &suffix());
    let backup_tree: Vec<WalkEntry> = forward
        .iter()
        .map(|p| WalkEntry { components: p.destination.clone(), is_file: true })
        .collect();
    let reverse = discover(&bak, &src, &backup_tree, &suffix());
    assert_eq!(reverse.len(), forward.len());
    for (f, r) in forward.iter().zip(reverse.iter()) {
        assert_eq!(f.source, r.destination);
        assert_eq!(f.destination, r.source);
    }
}

#[test]
fn one_failure_does_not_stop_the_pass() {
    let src = path(&["s"]);
    let bak = path(&["b"]);
    let entries = vec![file(&["s", "a.db"]), file(&["s", "b.db"]), file(&["s", "c.db"])];
    let pairs = discover(&src, &bak, &entries, &suffix());
    let pass = run_forward(pairs, vec![Err("file is not a database".to_string()), Ok(()), Ok(())]);
    assert_eq!(pass.outcomes.len(), 3);
    assert_eq!(pass.failures(), 1);
    assert_eq!(pass.outcomes[0].error, Some("file is not a database".to_string()));
    assert!(!pass.outcomes[0].succeeded());
    assert!(pass.outcomes[1].succeeded());
    assert!(pass.outcomes[1].error.is_none());
    assert!(pass.outcomes[2].error.is_none());
    assert_eq!(pass.outcomes[2].pair.source, path(&["s", "c.db"]));
}

#[test]
fn second_pass_repeats_the_first() {
    let src = path(&["/", "src"]);
    let bak = path(&["/", "bak"]);
    let first = discover(&src, &bak, &scenario_entries(), &suffix());
    let second = discover(&src, &bak, &scenario_entries(), &suffix());
    let dests = |v: &Vec<MirrorPair>| v.iter().map(|p| p.destination.clone()).collect::<Vec<_>>();
    assert_eq!(dests(&first), dests(&second));
    let a = run_forward(first, vec![Ok(()), Ok(())]);
    let b = run_forward(second, vec![Ok(()), Ok(())]);
    assert_eq!(a.outcomes.len(), 2);
    assert_eq!(b.outcomes.len(), 2);
    assert!(b.outcomes.iter().all(|o| o.error.is_none()));
}

fn restore_pairs() -> Vec<MirrorPair> {
    discover(&path(&["b"]), &path(&["s"]), &vec![file(&["b", "k.db"])], &suffix())
}

#[test]
fn declined_restore_skips_the_pair() {
    for answer in ["n", "", "no", "yes", "  x \n"] {
        let mut pass = MirrorPass::new(restore_pairs(), Direction::Reverse, false);
        assert_eq!(pass.action(), PassAction::CheckTarget(0));
        pass.target_checked(true);
        assert_eq!(pass.action(), PassAction::Confirm(0));
        pass.answered(answer);
        assert_eq!(pass.action(), PassAction::Finished);
        assert!(pass.outcomes.is_empty());
        assert_eq!(pass.skipped.len(), 1);
        assert_eq!(pass.skipped[0].destination, path(&["s", "k.db"]));
    }
}

#[test]
fn accepted_restore_copies() {
    let mut pass = MirrorPass::new(restore_pairs(), Direction::Reverse, false);
    pass.target_checked(true);
    pass.answered(" Y \n");
    assert_eq!(pass.action(), PassAction::Copy(0));
    pass.copied(Ok(()));
    assert_eq!(pass.action(), PassAction::Finished);
    assert_eq!(pass.outcomes.len(), 1);
    assert!(pass.skipped.is_empty());
}

#[test]
fn missing_restore_target_is_copied_without_asking() {
    let mut pass = MirrorPass::new(restore_pairs(), Direction::Reverse, false);
    pass.target_checked(false);
    assert_eq!(pass.action(), PassAction::Copy(0));
}

#[test]
fn forced_restore_always_copies() {
    let mut pass = MirrorPass::new(restore_pairs(), Direction::Reverse, true);
    assert_eq!(pass.action(), PassAction::Copy(0));
    pass.copied(Ok(()));
    assert_eq!(pass.action(), PassAction::Finished);
    assert_eq!(pass.outcomes.len(), 1);
}

#[test]
fn gate_decisions() {
    assert!(may_overwrite(true, true, "n"));
    assert!(may_overwrite(false, false, "n"));
    assert!(!may_overwrite(false, true, "n"));
    assert!(may_overwrite(false, true, "y"));
    assert!(needs_confirmation(false, true));
    assert!(!needs_confirmation(true, true));
    assert!(!needs_confirmation(false, false));
}

#[test]
fn answers_are_trimmed_and_case_blind() {
    assert!(accepts_overwrite("y\n"));
    assert!(accepts_overwrite("  Y  "));
    assert!(accepts_overwrite("\ty\r\n"));
    assert!(!accepts_overwrite(""));
    assert!(!accepts_overwrite("yes"));
    assert!(!accepts_overwrite("n"));
    assert!(answer_is_yes("Y"));
    assert!(!answer_is_yes(" y"));
    assert!(!answer_is_yes("z"));
}

#[test]
fn scheduler_sleeps_one_hour_between_passes() {
    let mut s = Scheduler::new(1);
    assert_eq!(s.start(), ScheduleAction::RunPass);
    assert_eq!(s.pass_finished(3), ScheduleAction::Sleep(1));
    assert_eq!(s.phase, Phase::Sleeping);
    assert_eq!(s.woke(), ScheduleAction::RunPass);
    assert_eq!(s.pass_finished(0), ScheduleAction::Sleep(1));
    assert_eq!(s.woke(), ScheduleAction::RunPass);
    assert_eq!(s.passes, 3);
}

fn some(s: &str) -> Option<String> {
    Some(s.to_string())
}

#[test]
fn interval_parsing() {
    assert_eq!(resolve_interval(some("6"), None, false), 6);
    assert_eq!(resolve_interval(some("+7"), None, false), 7);
    assert_eq!(resolve_interval(some("abc"), None, false), DEFAULT_INTERVAL_HOURS);
    assert_eq!(resolve_interval(some(""), None, false), 24);
    assert_eq!(resolve_interval(some("-1"), None, false), 24);
    assert_eq!(resolve_interval(some(" 5"), None, false), 24);
    assert_eq!(resolve_interval(some("18446744073709551615"), None, false), u64::MAX);
    assert_eq!(resolve_interval(some("18446744073709551616"), None, false), 24);
    assert_eq!(resolve_interval(some("0"), None, false), 0);
    assert_eq!(resolve_interval(None, some("3"), true), 3);
    assert_eq!(resolve_interval(None, some("3"), false), 24);
    assert_eq!(resolve_interval(some("2"), some("3"), true), 2);
    assert_eq!(resolve_interval(None, None, true), 24);
}

#[test]
fn config_resolution() {
    let c = resolve_config(some("/s"), some("/b"), None, None, None, None, false).unwrap();
    assert_eq!(c.source_root, "/s");
    assert_eq!(c.backup_root, "/b");
    assert_eq!(c.interval_hours, 24);
    let d = resolve_config(None, some("/b"), None, some("/env"), None, some("12"), true).unwrap();
    assert_eq!(d.source_root, "/env");
    assert_eq!(d.interval_hours, 12);
    assert_eq!(
        resolve_config(None, some("/b"), None, some("/env"), None, None, false).unwrap_err(),
        ConfigError::MissingSourceRoot
    );
    assert_eq!(
        resolve_config(None, None, None, None, None, None, true).unwrap_err(),
        ConfigError::MissingSourceRoot
    );
    assert_eq!(
        resolve_config(some("/s"), None, None, None, some("/x"), None, false).unwrap_err(),
        ConfigError::MissingBackupRoot
    );
    assert!(ConfigError::MissingBackupRoot.message().contains("BACKUP_DIR"));
}

#[test]
fn path_helpers() {
    assert!(name_has_suffix(&"a.db".to_string(), &".db".to_string()));
    assert!(name_has_suffix(&".db".to_string(), &".db".to_string()));
    assert!(!name_has_suffix(&"db".to_string(), &".db".to_string()));
    assert!(!name_has_suffix(&"é.dB".to_string(), &".db".to_string()));
    assert!(is_under(&path(&["a"]), &path(&["a", "b"])));
    assert!(!is_under(&path(&["a", "b"]), &path(&["a"])));
    assert!(!is_under(&path(&["ab"]), &path(&["a", "b"])));
    assert_eq!(rerooted(&path(&["x"]), &path(&["a", "b", "c"]), 1), path(&["x", "b", "c"]));
}
