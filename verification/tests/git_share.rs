use stik::git_share::{
    after_unrelated_retry, build_ad_hoc_config, changes_to_commit, command_error_message, commit_message,
    commit_result, conflict_copy_content,
    conflict_commit_result, conflict_duplicate_relative_path, conflict_timestamp, conflicts_to_resolve,
    gitignore_update, git_config_value, index_rebuild_error, is_folder_linked_for_sync, linked_folder_target,
    list_conflicted_files, normalized_branch, normalized_optional, normalized_repository_layout,
    notify_force_sync, notify_note_changed, origin_remote_action, path_to_git_argument, periodic_sync_interval,
    pull_step, push_step, read_conflict_blob, remote_to_browser_url, run_git_success, settings_load_error,
    split_file_name, status_for_config, sync_commit_message, validate_git_config_fields, worker_start_error,
    GitCommandOutput, GitSharingSettings, PullStep, PushStep, RemoteAction, RepositoryTarget, RuntimeStatus,
    SyncTrigger, SyncWorker, WorkerAction, WorkerEvent, WorkerMessage, DEBOUNCE_MS, deadline_after,
};

fn folder_root_config(folder: &str) -> GitSharingSettings {
    GitSharingSettings {
        enabled: false,
        shared_folder: folder.to_string(),
        remote_url: String::new(),
        branch: "main".to_string(),
        repository_layout: "folder_root".to_string(),
        sync_interval_seconds: 300,
    }
}

fn output(code: Option<i32>, stdout: &str, stderr: &str) -> GitCommandOutput {
    GitCommandOutput { status_code: code, stdout: stdout.to_string(), stderr: stderr.to_string() }
}

#[test]
fn appends_conflict_suffix_before_extension() {
    let result = conflict_duplicate_relative_path("Inbox/idea.md", "20260206-220000").unwrap();
    assert_eq!(path_to_git_argument(&result), "Inbox/idea-conflict-20260206-220000.md");
}

#[test]
fn appends_conflict_suffix_without_extension() {
    let result = conflict_duplicate_relative_path("Inbox/idea", "20260206-220000").unwrap();
    assert_eq!(path_to_git_argument(&result), "Inbox/idea-conflict-20260206-220000");
}

#[test]
fn trims_manual_config_inputs() {
    let config = build_ad_hoc_config(
        " Inbox ".to_string(),
        " https://example.com/team.git ".to_string(),
        Some(" main ".to_string()),
        Some(" stik_root ".to_string()),
    );
    assert_eq!(config.shared_folder, "Inbox");
    assert_eq!(config.remote_url, "https://example.com/team.git");
    assert_eq!(config.branch, "main");
    assert_eq!(config.repository_layout, "stik_root");
    assert!(config.enabled);
}

#[test]
fn normalizes_unknown_layout_to_folder_root() {
    assert_eq!(normalized_repository_layout("folder_root"), "folder_root");
    assert_eq!(normalized_repository_layout("stik_root"), "stik_root");
    assert_eq!(normalized_repository_layout("something_else"), "folder_root");
}

#[test]
fn converts_git_ssh_remote_to_browser_url() {
    let url = remote_to_browser_url("git@github.com:0xMassi/stik_notes.git").unwrap();
    assert_eq!(url, "https://github.com/0xMassi/stik_notes");
}

#[test]
fn converts_https_remote_to_browser_url() {
    let url = remote_to_browser_url("https://github.com/0xMassi/stik_notes.git").unwrap();
    assert_eq!(url, "https://github.com/0xMassi/stik_notes");
}

#[test]
fn blank_branch_and_layout_take_defaults() {
    let config = build_ad_hoc_config("x".to_string(), "r".to_string(), Some("  ".to_string()), None);
    assert_eq!(config.branch, "main");
    assert_eq!(config.repository_layout, "folder_root");
    assert_eq!(config.sync_interval_seconds, 300);
}

#[test]
fn layout_is_matched_ignoring_ascii_case_and_spaces() {
    assert_eq!(normalized_repository_layout("  STIK_Root "), "stik_root");
    assert_eq!(normalized_repository_layout(""), "folder_root");
}

#[test]
fn normalizes_optional_and_branch() {
    assert_eq!(normalized_optional("  "), None);
    assert_eq!(normalized_optional(" a b "), Some("a b".to_string()));
    assert_eq!(normalized_branch(" \t"), "main");
    assert_eq!(normalized_branch(" dev "), "dev");
}

#[test]
fn browser_url_of_other_remotes() {
    assert_eq!(remote_to_browser_url("  http://host/x.git.git ").unwrap(), "http://host/x");
    assert_eq!(remote_to_browser_url("ssh://git@host.com/team/repo.git").unwrap(), "https://host.com/team/repo");
    assert_eq!(remote_to_browser_url("ssh://host.com/team/repo").unwrap(), "https://host.com/team/repo");
    assert_eq!(remote_to_browser_url("  ").unwrap_err(), "Remote URL is empty");
    assert_eq!(remote_to_browser_url("git@:path").unwrap_err(), "Invalid SSH remote URL");
    assert_eq!(remote_to_browser_url("git@host:.git").unwrap_err(), "Invalid SSH remote URL");
    assert_eq!(remote_to_browser_url("ftp://host/x").unwrap_err(), "Unsupported remote URL format");
    assert_eq!(remote_to_browser_url("git@host-without-colon").unwrap_err(), "Unsupported remote URL format");
}

#[test]
fn validates_config_fields_in_order() {
    let mut config = folder_root_config("Inbox");
    assert_eq!(
        validate_git_config_fields(&config, Ok(())).unwrap_err(),
        "Remote URL is required for Git sharing"
    );
    config.remote_url = "git@h:r".to_string();
    config.branch = " ".to_string();
    assert_eq!(validate_git_config_fields(&config, Ok(())).unwrap_err(), "Branch cannot be empty");
    config.branch = "main".to_string();
    config.shared_folder = "  ".to_string();
    assert_eq!(
        validate_git_config_fields(&config, Ok(())).unwrap_err(),
        "Pick a folder to link before enabling Git sharing"
    );
    config.shared_folder = "Bad/Name".to_string();
    assert_eq!(validate_git_config_fields(&config, Err("bad name".to_string())).unwrap_err(), "bad name");
    config.repository_layout = "stik_root".to_string();
    assert!(validate_git_config_fields(&config, Err("bad name".to_string())).is_ok());
}

#[test]
fn linked_target_follows_layout() {
    let mut config = folder_root_config(" Inbox ");
    match linked_folder_target(&config, Ok(())).unwrap() {
        RepositoryTarget::Folder(f) => assert_eq!(f, "Inbox"),
        RepositoryTarget::StikRoot => panic!("expected a folder"),
    }
    assert_eq!(linked_folder_target(&config, Err("no".to_string())).err(), Some("no".to_string()));
    config.repository_layout = "stik_root".to_string();
    assert!(matches!(linked_folder_target(&config, Err("no".to_string())), Ok(RepositoryTarget::StikRoot)));
}

#[test]
fn folder_link_check() {
    let mut config = folder_root_config(" Inbox ");
    config.enabled = true;
    config.remote_url = "git@h:r".to_string();
    assert!(is_folder_linked_for_sync(Some((false, &config)), "Inbox "));
    assert!(!is_folder_linked_for_sync(Some((false, &config)), "Work"));
    assert!(!is_folder_linked_for_sync(Some((true, &config)), "Inbox"));
    assert!(!is_folder_linked_for_sync(None, "Inbox"));
    config.repository_layout = "stik_root".to_string();
    assert!(is_folder_linked_for_sync(Some((false, &config)), "Work"));
    config.remote_url = " ".to_string();
    assert!(!is_folder_linked_for_sync(Some((false, &config)), "Work"));
}

#[test]
fn periodic_interval_has_a_floor() {
    assert_eq!(periodic_sync_interval(None), 300);
    assert_eq!(periodic_sync_interval(Some(10)), 60);
    assert_eq!(periodic_sync_interval(Some(600)), 600);
}

#[test]
fn status_reports_config_and_runtime() {
    let mut runtime = RuntimeStatus::new();
    runtime.set_pending_changes(true);
    runtime.record_error("oops".to_string());
    let status = status_for_config(None, &runtime, false);
    assert!(!status.enabled);
    assert_eq!(status.linked_folder, None);
    assert_eq!(status.branch, "main");
    assert_eq!(status.repository_layout, "folder_root");
    assert!(status.pending_changes);
    assert_eq!(status.last_error, Some("oops".to_string()));

    let config = build_ad_hoc_config(" Inbox ".to_string(), "r".to_string(), None, Some("Stik_Root".to_string()));
    let status = status_for_config(Some(&config), &runtime, true);
    assert!(status.enabled);
    assert_eq!(status.linked_folder, Some("Inbox".to_string()));
    assert_eq!(status.remote_url, Some("r".to_string()));
    assert_eq!(status.repository_layout, "stik_root");
    assert!(status.repo_initialized);
}

#[test]
fn command_output_messages() {
    assert_eq!(command_error_message(&output(Some(1), " out ", " err ")), "err");
    assert_eq!(command_error_message(&output(Some(1), " out ", "  ")), "out");
    assert_eq!(command_error_message(&output(None, "", "")), "unknown git error");
    assert!(run_git_success(&output(Some(0), "", "x"), "stage note changes").is_ok());
    assert_eq!(
        run_git_success(&output(Some(128), "", "fatal: nope\n"), "stage note changes").unwrap_err(),
        "Failed to stage note changes: fatal: nope"
    );
    assert_eq!(git_config_value(&output(Some(0), "Stik\n", "")), Some("Stik".to_string()));
    assert_eq!(git_config_value(&output(Some(0), " \n", "")), None);
    assert_eq!(git_config_value(&output(Some(1), "Stik", "")), None);
    assert_eq!(read_conflict_blob(&output(Some(0), " body\n", "")), Some(" body\n".to_string()));
    assert_eq!(read_conflict_blob(&output(None, "x", "")), None);
}

#[test]
fn conflicted_files_are_the_nonblank_lines() {
    let files = list_conflicted_files(&output(Some(0), " a.md \n\n b/c.md\r\n", "")).unwrap();
    assert_eq!(files, vec!["a.md".to_string(), "b/c.md".to_string()]);
    assert_eq!(
        list_conflicted_files(&output(Some(2), "", "bad")).unwrap_err(),
        "Failed to list conflicted files: bad"
    );
}

#[test]
fn origin_remote_is_kept_set_or_added() {
    assert!(matches!(origin_remote_action(Some(" git@h:r \n"), "git@h:r"), RemoteAction::Keep));
    assert!(matches!(origin_remote_action(Some("git@h:other"), "git@h:r"), RemoteAction::SetUrl));
    assert!(matches!(origin_remote_action(None, "git@h:r"), RemoteAction::Add));
}

#[test]
fn commit_messages_and_outcomes() {
    assert_eq!(commit_message("2026-02-06 22:00:00", SyncTrigger::DebouncedSave), "stik: sync 2026-02-06 22:00:00 notes (autosave)");
    assert_eq!(SyncTrigger::Startup.commit_label(), "startup");
    assert_eq!(SyncTrigger::Periodic.commit_label(), "periodic");
    assert_eq!(SyncTrigger::Manual.commit_label(), "manual");
    let m = sync_commit_message(SyncTrigger::Manual);
    assert!(m.starts_with("stik: sync "));
    assert!(m.ends_with(" notes (manual)"));
    assert_eq!(m.len(), "stik: sync ".len() + 19 + " notes (manual)".len());

    assert_eq!(changes_to_commit(&output(Some(0), " M a.md\n", "")), Ok(true));
    assert_eq!(changes_to_commit(&output(Some(0), "  \n", "")), Ok(false));
    assert_eq!(
        changes_to_commit(&output(Some(1), "", "no repo")).unwrap_err(),
        "Failed to inspect repository status: no repo"
    );
    assert!(commit_result(&output(Some(0), "", "")).is_ok());
    assert!(commit_result(&output(Some(1), "nothing to commit, working tree clean", "")).is_ok());
    assert_eq!(commit_result(&output(Some(1), "", "boom")).unwrap_err(), "Failed to commit note changes: boom");
    assert_eq!(
        conflict_commit_result(&output(Some(1), "", "boom")).unwrap_err(),
        "Failed to finalize conflict resolution: boom"
    );
}

#[test]
fn pull_steps() {
    assert!(matches!(pull_step(&output(Some(0), "", "")), PullStep::Done));
    assert!(matches!(pull_step(&output(Some(1), "", "fatal: Couldn't find remote ref main")), PullStep::Done));
    assert!(matches!(pull_step(&output(Some(1), "", "FATAL: NOT A GIT REPOSITORY")), PullStep::Done));
    assert!(matches!(
        pull_step(&output(Some(1), "", "fatal: Refusing to merge unrelated histories")),
        PullStep::RetryUnrelatedHistories
    ));
    assert!(matches!(pull_step(&output(Some(1), "CONFLICT (content)", "")), PullStep::ResolveConflicts));
    let pull = output(Some(1), "", "merge failed");
    assert_eq!(
        conflicts_to_resolve(&Vec::new(), "main", &pull).unwrap_err(),
        "Failed to pull from origin/main: merge failed"
    );
    assert!(conflicts_to_resolve(&vec!["a.md".to_string()], "main", &pull).is_ok());
}

#[test]
fn push_steps() {
    assert!(matches!(push_step(&output(Some(0), "", ""), "main"), PushStep::Done));
    assert!(matches!(
        push_step(&output(Some(1), "", "! [rejected] main -> main (Fetch first)"), "main"),
        PushStep::PullThenPushAgain
    ));
    assert!(matches!(push_step(&output(Some(1), "", "Non-Fast-Forward"), "main"), PushStep::PullThenPushAgain));
    match push_step(&output(Some(1), "", "denied"), "dev") {
        PushStep::Failed(e) => assert_eq!(e, "Failed to push to origin/dev: denied"),
        _ => panic!("expected a failure"),
    }
}

#[test]
fn gitignore_gets_ds_store_once() {
    assert_eq!(gitignore_update(""), Some(".DS_Store\n".to_string()));
    assert_eq!(gitignore_update("node_modules\n"), Some("node_modules\n.DS_Store\n".to_string()));
    assert_eq!(gitignore_update("a\r\nb"), Some("a\nb\n.DS_Store\n".to_string()));
    assert_eq!(gitignore_update("x\n  .DS_Store  \n"), None);
}

#[test]
fn conflict_copies_of_other_paths() {
    assert_eq!(conflict_duplicate_relative_path("a.tar.gz", "T").unwrap(), "a.tar-conflict-T.gz");
    assert_eq!(conflict_duplicate_relative_path(".hidden", "T").unwrap(), ".hidden-conflict-T");
    assert_eq!(conflict_duplicate_relative_path("notes.", "T").unwrap(), "notes-conflict-T");
    assert_eq!(conflict_duplicate_relative_path("/abs/x.md", "T").unwrap(), "/abs/x-conflict-T.md");
    assert_eq!(conflict_duplicate_relative_path("Inbox/idea.md/", "T").unwrap(), "Inbox/idea-conflict-T.md");
    assert_eq!(
        conflict_duplicate_relative_path("Inbox/..", "T").unwrap_err(),
        "Invalid conflicted file path: Inbox/.."
    );
    assert_eq!(conflict_duplicate_relative_path("", "T").unwrap_err(), "Invalid conflicted file path: ");
    assert_eq!(split_file_name("idea.md"), ("idea".to_string(), "md".to_string()));
    assert_eq!(split_file_name(".md"), (".md".to_string(), String::new()));
    assert_eq!(path_to_git_argument("a\\b\\c.md"), "a/b/c.md");
}

#[test]
fn conflict_copies_match_std_set_file_name() {
    let ts = "20260206-220000";
    for p in ["Inbox/idea.md", "idea", "./idea.md", "a//b/./c.txt", "/x.md", "a/b/", "../up.md", "a/./"] {
        let mut expected = std::path::PathBuf::from(p);
        let name = expected.file_name().unwrap().to_str().unwrap().to_string();
        let (stem, ext) = split_file_name(&name);
        let dup = if ext.is_empty() { format!("{stem}-conflict-{ts}") } else { format!("{stem}-conflict-{ts}.{ext}") };
        expected.set_file_name(dup);
        assert_eq!(conflict_duplicate_relative_path(p, ts).unwrap(), expected.to_str().unwrap(), "{p}");
    }
}

#[test]
fn conflict_timestamp_is_compact() {
    let ts = conflict_timestamp();
    assert_eq!(ts.len(), 15);
    assert_eq!(ts.as_bytes()[8], b'-');
    assert!(ts.chars().all(|c| c.is_ascii_digit() || c == '-' || c == '+'));
}

#[test]
fn runtime_sync_round() {
    let mut runtime = RuntimeStatus::new();
    runtime.record_error("old".to_string());
    runtime.begin_sync();
    assert!(runtime.syncing);
    assert_eq!(runtime.last_error, None);
    runtime.finish_sync_at(Ok(()), "2026-02-06T22:00:00+01:00".to_string());
    assert!(!runtime.syncing);
    assert_eq!(runtime.last_sync_at, Some("2026-02-06T22:00:00+01:00".to_string()));
    runtime.begin_sync();
    runtime.finish_sync_at(Err("Failed to push".to_string()), "later".to_string());
    assert_eq!(runtime.last_error, Some("Failed to push".to_string()));
    assert_eq!(runtime.last_sync_at, Some("2026-02-06T22:00:00+01:00".to_string()));
    runtime.begin_sync();
    runtime.finish_sync(Ok(()));
    assert!(runtime.last_sync_at.unwrap().contains('T'));
}

#[test]
fn error_messages() {
    assert_eq!(settings_load_error("io"), "Failed to load settings: io");
    assert_eq!(index_rebuild_error("x"), "Git sync succeeded but index rebuild failed: x");
    assert_eq!(worker_start_error("y"), "Failed to start git sync worker: y");
}

#[test]
fn worker_messages() {
    match notify_note_changed("Inbox") {
        WorkerMessage::NoteChanged(f) => assert_eq!(f, "Inbox"),
        WorkerMessage::ForceSync => panic!("expected a note change"),
    }
    assert!(matches!(notify_force_sync(), WorkerMessage::ForceSync));
}

#[test]
fn worker_debounces_saves_and_syncs_periodically() {
    let mut worker = SyncWorker::start(0, 300);
    assert!(!worker.periodic_due(299_999));
    assert!(worker.periodic_due(300_000));
    assert!(matches!(worker.on_event(WorkerEvent::NoteChanged { linked: false }, 1_000), WorkerAction::Nothing));
    assert!(!worker.debounce_due(1_000_000));
    assert!(matches!(worker.on_event(WorkerEvent::NoteChanged { linked: true }, 1_000), WorkerAction::MarkPending));
    assert!(!worker.debounce_due(1_000 + DEBOUNCE_MS - 1));
    worker.on_event(WorkerEvent::NoteChanged { linked: true }, 5_000);
    assert!(!worker.debounce_due(1_000 + DEBOUNCE_MS));
    assert!(worker.debounce_due(5_000 + DEBOUNCE_MS));
    worker.after_sync(SyncTrigger::DebouncedSave, 40_000, 300);
    assert!(!worker.debounce_due(u64::MAX));
    assert!(!worker.periodic_due(339_999));
    assert!(worker.periodic_due(340_000));
    assert!(matches!(worker.on_event(WorkerEvent::ForceSync, 1), WorkerAction::Sync(SyncTrigger::Startup)));
    assert!(matches!(worker.on_event(WorkerEvent::Timeout, 1), WorkerAction::Nothing));
    assert!(matches!(worker.on_event(WorkerEvent::Disconnected, 1), WorkerAction::Stop));
}

#[test]
fn worker_deadlines_past_the_clock_mean_never() {
    assert_eq!(deadline_after(1_000, 300), 301_000);
    assert_eq!(deadline_after(u64::MAX - 10, 300), u64::MAX);
    assert_eq!(deadline_after(0, u64::MAX), u64::MAX);
    let mut worker = SyncWorker::start(5, u64::MAX / 10);
    assert_eq!(worker.next_periodic_sync_ms, u64::MAX);
    assert!(!worker.periodic_due(u64::MAX));
    worker.on_event(WorkerEvent::NoteChanged { linked: true }, u64::MAX - 1);
    assert_eq!(worker.pending_deadline_ms, Some(u64::MAX));
    assert!(!worker.debounce_due(u64::MAX));
    worker.after_sync(SyncTrigger::Periodic, u64::MAX - 5_000, 10);
    assert!(!worker.periodic_due(u64::MAX));
    worker.after_sync(SyncTrigger::Periodic, 100, 10);
    assert!(worker.periodic_due(10_100));
}

#[test]
fn default_sharing_settings() {
    let d = GitSharingSettings::default();
    assert!(!d.enabled);
    assert_eq!(d.shared_folder, "");
    assert_eq!(d.remote_url, "");
    assert_eq!(d.branch, "main");
    assert_eq!(d.repository_layout, "folder_root");
    assert_eq!(d.sync_interval_seconds, 300);
}

#[test]
fn gitignore_update_twice_changes_once() {
    for existing in ["", "node_modules\n", "a\r\nb", ".DS_Store.bak\n\n"] {
        let once = gitignore_update(existing).unwrap();
        assert_eq!(gitignore_update(&once), None, "{existing:?}");
    }
}

#[test]
fn manual_configs_pass_checks_with_a_remote_and_folder() {
    let config = build_ad_hoc_config(" Inbox ".to_string(), " git@h:r ".to_string(), Some("   ".to_string()), None);
    assert!(validate_git_config_fields(&config, Ok(())).is_ok());
    let config = build_ad_hoc_config(" ".to_string(), "git@h:r".to_string(), None, Some("stik_root".to_string()));
    assert!(validate_git_config_fields(&config, Err("bad".to_string())).is_ok());
    let config = build_ad_hoc_config("Inbox".to_string(), "  ".to_string(), None, None);
    assert_eq!(
        validate_git_config_fields(&config, Ok(())).unwrap_err(),
        "Remote URL is required for Git sharing"
    );
}

#[test]
fn conflict_copy_prefers_local_then_remote_then_nothing() {
    let ours_ok = output(Some(0), "local text", "");
    let ours_bad = output(Some(128), "", "fatal: path not in stage 2");
    let theirs_ok = output(Some(0), "remote text", "");
    let theirs_bad = output(None, "", "killed");
    assert_eq!(conflict_copy_content(&ours_ok, Some(&theirs_ok)), "local text");
    assert_eq!(conflict_copy_content(&ours_ok, None), "local text");
    assert_eq!(conflict_copy_content(&ours_bad, Some(&theirs_ok)), "remote text");
    assert_eq!(conflict_copy_content(&ours_bad, Some(&theirs_bad)), "");
    assert_eq!(conflict_copy_content(&ours_bad, None), "");
}

#[test]
fn unrelated_histories_retry_outcome() {
    assert!(matches!(after_unrelated_retry(&output(Some(0), "", "")), PullStep::Done));
    assert!(matches!(
        after_unrelated_retry(&output(Some(1), "", "CONFLICT (content): Merge conflict in a.md")),
        PullStep::ResolveConflicts
    ));
    assert!(matches!(after_unrelated_retry(&output(None, "", "")), PullStep::ResolveConflicts));
}

#[test]
fn browser_urls_are_http_without_git_suffix() {
    for remote in [
        "https://github.com/a/b.git.git",
        "http://host/.git",
        "https://.git",
        "git@github.com:a/b.git",
        "ssh://me@host/x/y.git",
        "git@h.gi:t",
    ] {
        let url = remote_to_browser_url(remote).unwrap();
        assert!(url.starts_with("https://") || url.starts_with("http://"), "{remote}");
        assert!(!url.ends_with(".git"), "{remote}");
    }
    assert_eq!(remote_to_browser_url("https://.git").unwrap(), "https://");
    assert_eq!(remote_to_browser_url("git@h.gi:t").unwrap(), "https://h.gi/t");
    assert_eq!(remote_to_browser_url("git@github.com:a/.git").unwrap(), "https://github.com/a/");
    assert_eq!(remote_to_browser_url("git@github.com:.git").unwrap_err(), "Invalid SSH remote URL");
}

#[test]
fn commit_message_timestamp_shape() {
    let m = sync_commit_message(SyncTrigger::Periodic);
    let stamp = &m["stik: sync ".len().."stik: sync ".len() + 19];
    let b = stamp.as_bytes();
    for (i, c) in b.iter().enumerate() {
        match i {
            4 | 7 => assert_eq!(*c, b'-'),
            10 => assert_eq!(*c, b' '),
            13 | 16 => assert_eq!(*c, b':'),
            _ => assert!(c.is_ascii_digit(), "{stamp}"),
        }
    }
    assert!(m.ends_with(" notes (periodic)"));
}

#[test]
fn finish_sync_records_rfc3339_time() {
    let mut runtime = RuntimeStatus::new();
    runtime.begin_sync();
    runtime.finish_sync(Ok(()));
    let t = runtime.last_sync_at.unwrap();
    let b = t.as_bytes();
    assert_eq!((b[4], b[7], b[10], b[13], b[16]), (b'-', b'-', b'T', b':', b':'));
    let offset = &t[t.len() - 6..];
    assert!(offset.starts_with('+') || offset.starts_with('-'));
    assert_eq!(offset.as_bytes()[3], b':');
}
