use vstd::prelude::*;

use crate::places::{view_opt_string, view_result_string};
use crate::clock::{
    is_clock_reading, is_numeric_time_format, is_rfc3339_at_some_time, lemma_render_empty, lemma_render_field, lemma_render_literal, local_time_rfc3339, local_time_text,
    render, two_digits, year_text, is_digit, lemma_zero_padded_digits, zero_padded,
};
use crate::paths::{
    file_name, file_name_of, law_set_file_name_then_file_name, lemma_file_name_has_no_slash, with_file_name,
    with_file_name_of,
};
use crate::text::{
    lemma_trim_idempotent, lemma_split_on_append, lemma_split_on_no_sep, lemma_split_on_nonempty, split_on, strip_cr, find_last, last_index_of, lemma_last_index_of_bounds, replace_char, replace_chars,
    chars_eq_ignore_ascii_case, chars_of, contains, contains_chars, copy_range, eq_ignore_ascii_case,
    extend_chars, find_first, first_index_of, has_prefix, lemma_first_index_of_bounds,
    starts_with_chars, string_from_chars, strip_suffixes, strip_suffixes_chars, trim, trim_chars,
    trim_str, trim_start, trim_end, ascii_lower, lines_of, lines_chars, views, chars_eq, join, join_range, has_suffix,
    is_ws,
};

verus! {

pub const DEFAULT_DEBOUNCE_SECONDS: u64 = 30;
pub const DEFAULT_PERIODIC_SYNC_SECONDS: u64 = 300;
pub const MIN_PERIODIC_SYNC_SECONDS: u64 = 60;

// ── Settings and status ─────────────────────────────────────────

/// The Git sharing settings.
pub struct GitSharingSettings {
    pub enabled: bool,
    pub shared_folder: String,
    pub remote_url: String,
    pub branch: String,
    pub repository_layout: String,
    pub sync_interval_seconds: u64,
}

impl Default for GitSharingSettings {
    /// Sharing off, no folder or remote, branch `main`, the `folder_root`
    /// layout, a sync every 300 seconds.
    fn default() -> (res: Self)
        ensures
            !res.enabled,
            res.shared_folder@.len() == 0,
            res.remote_url@.len() == 0,
            res.branch@ == "main"@,
            res.repository_layout@ == "folder_root"@,
            res.sync_interval_seconds == DEFAULT_PERIODIC_SYNC_SECONDS,
    {
        GitSharingSettings {
            enabled: false,
            shared_folder: String::new(),
            remote_url: String::new(),
            branch: String::from_str("main"),
            repository_layout: String::from_str("folder_root"),
            sync_interval_seconds: DEFAULT_PERIODIC_SYNC_SECONDS,
        }
    }
}

impl GitSharingSettings {
    pub fn clone_settings(&self) -> (res: Self)
        ensures
            res == *self,
    {
        GitSharingSettings {
            enabled: self.enabled,
            shared_folder: self.shared_folder.clone(),
            remote_url: self.remote_url.clone(),
            branch: self.branch.clone(),
            repository_layout: self.repository_layout.clone(),
            sync_interval_seconds: self.sync_interval_seconds,
        }
    }
}

/// What the settings window shows of Git sharing.
pub struct GitSyncStatus {
    pub enabled: bool,
    pub linked_folder: Option<String>,
    pub remote_url: Option<String>,
    pub branch: String,
    pub repository_layout: String,
    pub repo_initialized: bool,
    pub pending_changes: bool,
    pub syncing: bool,
    pub last_sync_at: Option<String>,
    pub last_error: Option<String>,
}

/// The state of the background sync that outlives a single sync.
pub struct RuntimeStatus {
    pub pending_changes: bool,
    pub syncing: bool,
    pub last_sync_at: Option<String>,
    pub last_error: Option<String>,
}

impl RuntimeStatus {
    pub fn new() -> (res: Self)
        ensures
            !res.pending_changes,
            !res.syncing,
            res.last_sync_at is None,
            res.last_error is None,
    {
        RuntimeStatus { pending_changes: false, syncing: false, last_sync_at: None, last_error: None }
    }
}

/// What triggered a sync.
#[derive(Clone, Copy)]
pub enum SyncTrigger {
    Startup,
    DebouncedSave,
    Periodic,
    Manual,
}

pub open spec fn trigger_label(t: SyncTrigger) -> Seq<char> {
    match t {
        SyncTrigger::Startup => "startup"@,
        SyncTrigger::DebouncedSave => "autosave"@,
        SyncTrigger::Periodic => "periodic"@,
        SyncTrigger::Manual => "manual"@,
    }
}

impl SyncTrigger {
    /// The word that the commit message gives the trigger.
    pub fn commit_label(self) -> (res: &'static str)
        ensures
            res@ == trigger_label(self),
    {
        match self {
            SyncTrigger::Startup => "startup",
            SyncTrigger::DebouncedSave => "autosave",
            SyncTrigger::Periodic => "periodic",
            SyncTrigger::Manual => "manual",
        }
    }
}

// ── Normalising ─────────────────────────────────────────────────

/// `None` for a blank value, else the value trimmed.
pub open spec fn normalized_optional_spec(value: Seq<char>) -> Option<Seq<char>> {
    if trim(value).len() == 0 {
        None
    } else {
        Some(trim(value))
    }
}


pub fn normalized_optional(value: &str) -> (res: Option<String>)
    ensures
        view_opt_string(res) == normalized_optional_spec(value@),
{
    let t = trim_str(value);
    if t.unicode_len() == 0 {
        None
    } else {
        Some(t)
    }
}

/// The branch trimmed, or `main` when blank.
pub open spec fn normalized_branch_spec(branch: Seq<char>) -> Seq<char> {
    if trim(branch).len() == 0 {
        "main"@
    } else {
        trim(branch)
    }
}

pub fn normalized_branch(branch: &str) -> (res: String)
    ensures
        res@ == normalized_branch_spec(branch@),
{
    let t = trim_str(branch);
    if t.unicode_len() == 0 {
        String::from_str("main")
    } else {
        t
    }
}

/// A normalised branch is never blank.
pub proof fn law_normalized_branch_is_not_blank(branch: Seq<char>)
    ensures
        normalized_branch_spec(branch).len() > 0,
{
    reveal_strlit("main");
}

/// The layout is the Stik root exactly when it says `stik_root` in any ASCII
/// case (surrounding whitespace ignored).
pub open spec fn is_stik_root_layout(layout: Seq<char>) -> bool {
    eq_ignore_ascii_case(trim(layout), "stik_root"@)
}

pub open spec fn normalized_layout_spec(layout: Seq<char>) -> Seq<char> {
    if is_stik_root_layout(layout) {
        "stik_root"@
    } else {
        "folder_root"@
    }
}

pub fn normalized_repository_layout(layout: &str) -> (res: &'static str)
    ensures
        res@ == normalized_layout_spec(layout@),
{
    let l = chars_of(layout);
    let t = trim_chars(l.as_slice());
    let s = chars_of("stik_root");
    if chars_eq_ignore_ascii_case(t.as_slice(), s.as_slice()) {
        "stik_root"
    } else {
        "folder_root"
    }
}

fn is_stik_root(layout: &str) -> (res: bool)
    ensures
        res == is_stik_root_layout(layout@),
{
    let l = chars_of(layout);
    let t = trim_chars(l.as_slice());
    let s = chars_of("stik_root");
    chars_eq_ignore_ascii_case(t.as_slice(), s.as_slice())
}

// ── Configuration ───────────────────────────────────────────────

/// An optional value trimmed, or the default when absent or blank.
pub open spec fn trimmed_or(value: Option<String>, default: Seq<char>) -> Seq<char> {
    match value {
        Some(v) => if trim(v@).len() > 0 {
            trim(v@)
        } else {
            default
        },
        None => default,
    }
}

fn trimmed_or_default(value: Option<String>, default: &str) -> (res: String)
    ensures
        res@ == trimmed_or(value, default@),
{
    match value {
        Some(v) => {
            let t = trim_str(v.as_str());
            if t.unicode_len() > 0 {
                t
            } else {
                String::from_str(default)
            }
        },
        None => String::from_str(default),
    }
}

/// The settings for a sync that the user started by hand: enabled, every
/// field trimmed, a blank branch or layout replaced by its default.
pub fn build_ad_hoc_config(
    folder: String,
    remote_url: String,
    branch: Option<String>,
    repository_layout: Option<String>,
) -> (res: GitSharingSettings)
    ensures
        res.enabled,
        res.shared_folder@ == trim(folder@),
        res.remote_url@ == trim(remote_url@),
        res.branch@ == trimmed_or(branch, "main"@),
        res.repository_layout@ == trimmed_or(repository_layout, "folder_root"@),
        res.sync_interval_seconds == DEFAULT_PERIODIC_SYNC_SECONDS,
{
    let defaults = GitSharingSettings::default();
    GitSharingSettings {
        enabled: true,
        shared_folder: trim_str(folder.as_str()),
        remote_url: trim_str(remote_url.as_str()),
        branch: trimmed_or_default(branch, defaults.branch.as_str()),
        repository_layout: trimmed_or_default(repository_layout, defaults.repository_layout.as_str()),
        sync_interval_seconds: defaults.sync_interval_seconds,
    }
}

/// The errors of `validate_git_config_fields`, in the order they are checked;
/// `name_check` is the result of the folder-name validation of the trimmed
/// shared folder.
pub open spec fn config_error(config: GitSharingSettings, name_check: Result<(), String>) -> Option<Seq<char>> {
    if trim(config.remote_url@).len() == 0 {
        Some("Remote URL is required for Git sharing"@)
    } else if trim(config.branch@).len() == 0 {
        Some("Branch cannot be empty"@)
    } else if !is_stik_root_layout(config.repository_layout@) && trim(config.shared_folder@).len() == 0 {
        Some("Pick a folder to link before enabling Git sharing"@)
    } else if !is_stik_root_layout(config.repository_layout@) && name_check is Err {
        Some(name_check->Err_0@)
    } else {
        None
    }
}

/// Check the settings before a sync. `name_check` is what validating the
/// trimmed shared folder as a folder name gave.
pub fn validate_git_config_fields(config: &GitSharingSettings, name_check: Result<(), String>) -> (res: Result<(), String>)
    ensures
        res is Ok <==> config_error(*config, name_check) is None,
        res matches Err(e) ==> config_error(*config, name_check) == Some(e@),
{
    let remote = trim_str(config.remote_url.as_str());
    if remote.unicode_len() == 0 {
        return Err(String::from_str("Remote URL is required for Git sharing"));
    }
    let branch = trim_str(config.branch.as_str());
    if branch.unicode_len() == 0 {
        return Err(String::from_str("Branch cannot be empty"));
    }
    if !is_stik_root(config.repository_layout.as_str()) {
        let folder = trim_str(config.shared_folder.as_str());
        if folder.unicode_len() == 0 {
            return Err(String::from_str("Pick a folder to link before enabling Git sharing"));
        }
        match name_check {
            Err(e) => return Err(e),
            Ok(()) => {},
        }
    }
    Ok(())
}

/// A sync configured by hand never has a blank branch: it passes the field
/// checks exactly when the remote is not blank and, unless the whole Stik
/// folder is shared, the folder is not blank and its name passes the check.
pub proof fn law_manual_config_checks(
    config: GitSharingSettings,
    folder: Seq<char>,
    remote_url: Seq<char>,
    branch: Option<String>,
    repository_layout: Option<String>,
    name_check: Result<(), String>,
)
    requires
        config.shared_folder@ == trim(folder),
        config.remote_url@ == trim(remote_url),
        config.branch@ == trimmed_or(branch, "main"@),
        config.repository_layout@ == trimmed_or(repository_layout, "folder_root"@),
    ensures
        trim(config.branch@).len() > 0,
        config_error(config, name_check) is None <==> trim(remote_url).len() > 0 && (is_stik_root_layout(
            config.repository_layout@,
        ) || (trim(folder).len() > 0 && name_check is Ok)),
{
    reveal_strlit("main");
    lemma_trim_idempotent(folder);
    lemma_trim_idempotent(remote_url);
    assert(trim_start("main"@) == "main"@);
    assert(trim_end("main"@) == "main"@);
    match branch {
        Some(b) => lemma_trim_idempotent(b@),
        None => {},
    }
    assert(trim(config.branch@).len() > 0);
}

/// Where the repository lives, relative to the Stik folder.
pub enum RepositoryTarget {
    /// The Stik folder itself.
    StikRoot,
    /// The named folder inside it.
    Folder(String),
}

/// Which folder is linked to the repository (`linked_folder_path_with_mode`
/// without the file system): the Stik root for the `stik_root` layout, else
/// the trimmed shared folder once its name passed the check.
pub fn linked_folder_target(config: &GitSharingSettings, name_check: Result<(), String>) -> (res: Result<RepositoryTarget, String>)
    ensures
        is_stik_root_layout(config.repository_layout@) ==> res matches Ok(RepositoryTarget::StikRoot),
        !is_stik_root_layout(config.repository_layout@) ==> match name_check {
            Ok(()) => res matches Ok(RepositoryTarget::Folder(f)) && f@ == trim(config.shared_folder@),
            Err(e) => res matches Err(r) && r == e,
        },
{
    if is_stik_root(config.repository_layout.as_str()) {
        return Ok(RepositoryTarget::StikRoot);
    }
    match name_check {
        Ok(()) => Ok(RepositoryTarget::Folder(trim_str(config.shared_folder.as_str()))),
        Err(e) => Err(e),
    }
}

/// Notes saved in `folder` trigger a sync exactly when the settings could be
/// read, iCloud is off, sharing is on with a remote, and either the whole
/// Stik folder is shared or `folder` is the shared one.
pub open spec fn linked_for_sync(settings: Option<(bool, GitSharingSettings)>, folder: Seq<char>) -> bool {
    match settings {
        None => false,
        Some((icloud_enabled, config)) => !icloud_enabled && config.enabled && trim(config.remote_url@).len() > 0
            && (is_stik_root_layout(config.repository_layout@) || trim(config.shared_folder@) == trim(folder)),
    }
}

/// Whether a note saved in `folder` should schedule a sync. `settings` holds
/// whether iCloud is enabled and the Git settings, or is `None` when the
/// settings could not be read.
pub fn is_folder_linked_for_sync(settings: Option<(bool, &GitSharingSettings)>, folder: &str) -> (res: bool)
    ensures
        res == linked_for_sync(
            match settings {
                Some((i, c)) => Some((i, *c)),
                None => None,
            },
            folder@,
        ),
{
    let (icloud_enabled, config) = match settings {
        Some(s) => s,
        None => return false,
    };
    if icloud_enabled {
        return false;
    }
    if !config.enabled {
        return false;
    }
    let remote = trim_str(config.remote_url.as_str());
    if remote.unicode_len() == 0 {
        return false;
    }
    if is_stik_root(config.repository_layout.as_str()) {
        return true;
    }
    let a = trim_str(config.shared_folder.as_str());
    let b = trim_str(folder);
    a == b
}

/// Seconds between periodic syncs: the configured interval, at least 60, or
/// 300 when the settings could not be read.
pub fn periodic_sync_interval(configured_seconds: Option<u64>) -> (res: u64)
    ensures
        configured_seconds is None ==> res == DEFAULT_PERIODIC_SYNC_SECONDS,
        configured_seconds matches Some(s) ==> res == if s < MIN_PERIODIC_SYNC_SECONDS {
            MIN_PERIODIC_SYNC_SECONDS
        } else {
            s
        },
{
    match configured_seconds {
        Some(s) => if s < MIN_PERIODIC_SYNC_SECONDS {
            MIN_PERIODIC_SYNC_SECONDS
        } else {
            s
        },
        None => DEFAULT_PERIODIC_SYNC_SECONDS,
    }
}

fn clone_opt(o: &Option<String>) -> (res: Option<String>)
    ensures
        res == *o,
{
    match o {
        Some(s) => Some(s.clone()),
        None => None,
    }
}

/// The status shown for the given settings (defaults when `None`), the
/// runtime state, and whether the linked folder holds a `.git` directory.
pub fn status_for_config(config: Option<&GitSharingSettings>, runtime: &RuntimeStatus, repo_initialized: bool) -> (res: GitSyncStatus)
    ensures
        config matches Some(c) ==> res.enabled == c.enabled
            && view_opt_string(res.linked_folder) == normalized_optional_spec(c.shared_folder@)
            && view_opt_string(res.remote_url) == normalized_optional_spec(c.remote_url@)
            && res.branch@ == normalized_branch_spec(c.branch@)
            && res.repository_layout@ == normalized_layout_spec(c.repository_layout@),
        config is None ==> !res.enabled && res.linked_folder is None && res.remote_url is None
            && res.branch@ == "main"@ && res.repository_layout@ == "folder_root"@,
        res.repo_initialized == repo_initialized,
        res.pending_changes == runtime.pending_changes,
        res.syncing == runtime.syncing,
        res.last_sync_at == runtime.last_sync_at,
        res.last_error == runtime.last_error,
{
    let config = match config {
        Some(c) => c.clone_settings(),
        None => GitSharingSettings::default(),
    };
    proof {
        reveal_strlit("main");
        reveal_strlit("folder_root");
        reveal_strlit("stik_root");
        if config.branch@ == "main"@ {
            assert(trim_start(config.branch@) == config.branch@);
            assert(trim_end(config.branch@) == config.branch@);
        }
        if config.repository_layout@ == "folder_root"@ {
            assert(trim_start(config.repository_layout@) == config.repository_layout@);
            assert(trim_end(config.repository_layout@) == config.repository_layout@);
            assert(ascii_lower(config.repository_layout@[0]) != ascii_lower("stik_root"@[0]));
        }
    }
    GitSyncStatus {
        enabled: config.enabled,
        linked_folder: normalized_optional(config.shared_folder.as_str()),
        remote_url: normalized_optional(config.remote_url.as_str()),
        branch: normalized_branch(config.branch.as_str()),
        repository_layout: String::from_str(normalized_repository_layout(config.repository_layout.as_str())),
        repo_initialized,
        pending_changes: runtime.pending_changes,
        syncing: runtime.syncing,
        last_sync_at: clone_opt(&runtime.last_sync_at),
        last_error: clone_opt(&runtime.last_error),
    }
}

// ── Remote URLs ─────────────────────────────────────────────────

/// The part of an `ssh://` remote after an optional `user@`.
pub open spec fn without_user(rest: Seq<char>) -> Seq<char> {
    if first_index_of(rest, '@') >= 0 {
        rest.skip(first_index_of(rest, '@') + 1)
    } else {
        rest
    }
}

/// `https://host/path` for a host and a path with its `.git` suffixes
/// removed, or the SSH error when either is empty.
pub open spec fn https_of(host: Seq<char>, path: Seq<char>) -> Result<Seq<char>, Seq<char>> {
    let cleaned = strip_suffixes(path, ".git"@);
    if host.len() == 0 || cleaned.len() == 0 {
        Err("Invalid SSH remote URL"@)
    } else {
        Ok("https://"@ + host + "/"@ + cleaned)
    }
}

/// The web page of a Git remote: HTTP(S) remotes without `.git`, SSH
/// remotes (`git@host:path`, `ssh://[user@]host/path`) as `https://host/path`.
pub open spec fn browser_url(remote: Seq<char>) -> Result<Seq<char>, Seq<char>> {
    let t = trim(remote);
    let scp = t.skip(4);
    let ssh = without_user(t.skip(6));
    if t.len() == 0 {
        Err("Remote URL is empty"@)
    } else if has_prefix(t, "https://"@) || has_prefix(t, "http://"@) {
        Ok(strip_suffixes(t, ".git"@))
    } else if has_prefix(t, "git@"@) && first_index_of(scp, ':') >= 0 {
        https_of(scp.take(first_index_of(scp, ':')), scp.skip(first_index_of(scp, ':') + 1))
    } else if has_prefix(t, "ssh://"@) && first_index_of(ssh, '/') >= 0 {
        https_of(ssh.take(first_index_of(ssh, '/')), ssh.skip(first_index_of(ssh, '/') + 1))
    } else {
        Err("Unsupported remote URL format"@)
    }
}


/// Removing a suffix as often as it occurs leaves a text that does not end
/// with it, and a prefix of the text.
proof fn lemma_strip_suffixes_shape(s: Seq<char>, p: Seq<char>)
    requires
        p.len() > 0,
    ensures
        !has_suffix(strip_suffixes(s, p), p),
        strip_suffixes(s, p).len() <= s.len(),
        strip_suffixes(s, p) == s.take(strip_suffixes(s, p).len() as int),
    decreases s.len(),
{
    if has_suffix(s, p) {
        let t = s.take(s.len() - p.len());
        lemma_strip_suffixes_shape(t, p);
        assert(t.take(strip_suffixes(t, p).len() as int) =~= s.take(strip_suffixes(t, p).len() as int));
    } else {
        assert(s.take(s.len() as int) =~= s);
    }
}

/// Removing `.git` suffixes keeps a prefix whose last four characters hold
/// no `.`: a `.git` can never overlap it.
proof fn lemma_strip_git_keeps_prefix(s: Seq<char>, pre: Seq<char>)
    requires
        has_prefix(s, pre),
        pre.len() >= 4,
        forall|i: int| pre.len() - 4 <= i < pre.len() ==> #[trigger] pre[i] != '.',
    ensures
        has_prefix(strip_suffixes(s, ".git"@), pre),
    decreases s.len(),
{
    reveal_strlit(".git");
    let g = ".git"@;
    if has_suffix(s, g) {
        let k = s.len() as int;
        if k < pre.len() + 4 {
            assert(s.skip(k - 4)[0] == g[0]);
            assert(s[k - 4] == s.take(pre.len() as int)[k - 4]);
            assert(pre[k - 4] != '.');
        }
        let t = s.take(s.len() - 4);
        assert(t.take(pre.len() as int) =~= s.take(pre.len() as int));
        lemma_strip_git_keeps_prefix(t, pre);
    }
}

/// A remote's web page, when it has one, is an `http://` or `https://`
/// address that does not end with `.git`.
pub proof fn law_browser_url_shape(remote: Seq<char>)
    ensures
        browser_url(remote) matches Ok(u) ==> (has_prefix(u, "https://"@) || has_prefix(u, "http://"@)) && !has_suffix(
            u,
            ".git"@,
        ),
{
    reveal_strlit(".git");
    reveal_strlit("https://");
    reveal_strlit("http://");
    reveal_strlit("/");
    let g = ".git"@;
    let t = trim(remote);
    if t.len() > 0 && (has_prefix(t, "https://"@) || has_prefix(t, "http://"@)) {
        lemma_strip_suffixes_shape(t, g);
        if has_prefix(t, "https://"@) {
            lemma_strip_git_keeps_prefix(t, "https://"@);
        } else {
            lemma_strip_git_keeps_prefix(t, "http://"@);
        }
    } else if let Ok(u) = browser_url(remote) {
        let scp = t.skip(4);
        let ssh = without_user(t.skip(6));
        let (host, path) = if has_prefix(t, "git@"@) && first_index_of(scp, ':') >= 0 {
            (scp.take(first_index_of(scp, ':')), scp.skip(first_index_of(scp, ':') + 1))
        } else {
            (ssh.take(first_index_of(ssh, '/')), ssh.skip(first_index_of(ssh, '/') + 1))
        };
        let cleaned = strip_suffixes(path, g);
        assert(https_of(host, path) == browser_url(remote));
        assert(u == "https://"@ + host + "/"@ + cleaned);
        assert(u.take(8) =~= "https://"@);
        lemma_strip_suffixes_shape(path, g);
        if has_suffix(u, g) {
            let n = u.len() as int;
            if cleaned.len() >= 4 {
                assert(u.skip(n - 4) =~= cleaned.skip(cleaned.len() - 4));
            } else {
                let j = 3 - cleaned.len();
                assert(u[n - 1 - cleaned.len()] == '/');
                assert(u.skip(n - 4)[j] == u[n - 1 - cleaned.len()]);
            }
        }
    }
}

/// `u + [c] + rest` with no `c` in `u`: its first `c` is the one after `u`.
proof fn lemma_first_index_after(u: Seq<char>, c: char, rest: Seq<char>)
    requires
        forall|i: int| 0 <= i < u.len() ==> u[i] != c,
    ensures
        first_index_of(u + seq![c] + rest, c) == u.len(),
    decreases u.len(),
{
    let x = u + seq![c] + rest;
    if u.len() > 0 {
        assert(x[0] == u[0]);
        assert(x.drop_first() =~= u.drop_first() + seq![c] + rest);
        lemma_first_index_after(u.drop_first(), c, rest);
    } else {
        assert(x[0] == c);
    }
}

/// An `ssh://` remote with a user opens at `https://` on its host, with its
/// path less its `.git` suffixes, whatever the user is called: the user
/// never reaches the browser URL.
pub proof fn law_ssh_remote_drops_the_user(user: Seq<char>, host: Seq<char>, path: Seq<char>)
    requires
        forall|i: int| 0 <= i < user.len() ==> user[i] != '@' && user[i] != '/',
        forall|i: int| 0 <= i < host.len() ==> host[i] != '@' && host[i] != '/',
        path.len() == 0 || !is_ws(path.last()),
    ensures
        browser_url(seq!['s', 's', 'h', ':', '/', '/'] + user + seq!['@'] + host + seq!['/'] + path) == if host.len() == 0
            || strip_suffixes(path, ".git"@).len() == 0 {
            Err::<Seq<char>, Seq<char>>("Invalid SSH remote URL"@)
        } else {
            Ok("https://"@ + host + "/"@ + strip_suffixes(path, ".git"@))
        },
{
    reveal_strlit("https://");
    reveal_strlit("http://");
    reveal_strlit("git@");
    reveal_strlit("ssh://");
    let pre = seq!['s', 's', 'h', ':', '/', '/'];
    let after = host + seq!['/'] + path;
    let rest = user + seq!['@'] + after;
    let t = pre + user + seq!['@'] + host + seq!['/'] + path;
    assert(t =~= pre + rest);
    assert(t[0] == 's');
    assert(!is_ws(t.last())) by {
        if path.len() > 0 {
            assert(t.last() == path.last());
        } else {
            assert(t.last() == '/');
        }
    }
    assert(trim_start(t) == t);
    assert(trim_end(t) == t);
    assert(trim(t) == t);
    assert(!has_prefix(t, "https://"@)) by {
        assert(t.take(8)[1] != "https://"@[1]);
    }
    assert(!has_prefix(t, "http://"@)) by {
        assert(t.take(7)[1] != "http://"@[1]);
    }
    assert(!has_prefix(t, "git@"@)) by {
        assert(t.take(4)[0] != "git@"@[0]);
    }
    assert(has_prefix(t, "ssh://"@)) by {
        assert(t.take(6) =~= "ssh://"@);
    }
    assert(t.skip(6) =~= rest);
    lemma_first_index_after(user, '@', after);
    assert(rest.skip(user.len() + 1int) =~= after);
    assert(without_user(t.skip(6)) == after);
    lemma_first_index_after(host, '/', path);
    assert(after.take(host.len() as int) =~= host);
    assert(after.skip(host.len() + 1int) =~= path);
}

fn https_url(host: &[char], path: &[char]) -> (res: Result<String, String>)
    ensures
        view_result_string(res) == https_of(host@, path@),
{
    let git = chars_of(".git");
    let cleaned = strip_suffixes_chars(path, git.as_slice());
    if host.len() == 0 || cleaned.len() == 0 {
        return Err(String::from_str("Invalid SSH remote URL"));
    }
    let mut out = chars_of("https://");
    extend_chars(&mut out, host);
    out.push('/');
    extend_chars(&mut out, cleaned.as_slice());
    proof {
        reveal_strlit("/");
        assert(out@ =~= "https://"@ + host@ + "/"@ + cleaned@);
    }
    Ok(string_from_chars(out.as_slice()))
}

pub fn remote_to_browser_url(remote_url: &str) -> (res: Result<String, String>)
    ensures
        view_result_string(res) == browser_url(remote_url@),
{
    let r = chars_of(remote_url);
    let t = trim_chars(r.as_slice());
    let ghost tv = t@;
    if t.len() == 0 {
        return Err(String::from_str("Remote URL is empty"));
    }
    let https = chars_of("https://");
    let http = chars_of("http://");
    if starts_with_chars(t.as_slice(), https.as_slice()) || starts_with_chars(t.as_slice(), http.as_slice()) {
        let git = chars_of(".git");
        let s = strip_suffixes_chars(t.as_slice(), git.as_slice());
        return Ok(string_from_chars(s.as_slice()));
    }
    let git_at = chars_of("git@");
    proof {
        reveal_strlit("git@");
        reveal_strlit("ssh://");
    }
    if starts_with_chars(t.as_slice(), git_at.as_slice()) {
        let rest = copy_range(t.as_slice(), 4, t.len());
        assert(rest@ =~= tv.skip(4));
        match find_first(rest.as_slice(), ':') {
            Some(i) => {
                proof { lemma_first_index_of_bounds(rest@, ':'); }
                let host = copy_range(rest.as_slice(), 0, i);
                let path = copy_range(rest.as_slice(), i + 1, rest.len());
                assert(host@ =~= rest@.take(i as int));
                assert(path@ =~= rest@.skip(i + 1));
                return https_url(host.as_slice(), path.as_slice());
            },
            None => {},
        }
    }
    let ssh = chars_of("ssh://");
    if starts_with_chars(t.as_slice(), ssh.as_slice()) {
        let rest = copy_range(t.as_slice(), 6, t.len());
        assert(rest@ =~= tv.skip(6));
        proof { lemma_first_index_of_bounds(rest@, '@'); }
        let without = match find_first(rest.as_slice(), '@') {
            Some(a) => copy_range(rest.as_slice(), a + 1, rest.len()),
            None => rest,
        };
        assert(without@ =~= without_user(tv.skip(6)));
        match find_first(without.as_slice(), '/') {
            Some(i) => {
                proof { lemma_first_index_of_bounds(without@, '/'); }
                let host = copy_range(without.as_slice(), 0, i);
                let path = copy_range(without.as_slice(), i + 1, without.len());
                assert(host@ =~= without@.take(i as int));
                assert(path@ =~= without@.skip(i + 1));
                return https_url(host.as_slice(), path.as_slice());
            },
            None => {},
        }
    }
    Err(String::from_str("Unsupported remote URL format"))
}

// ── Git command outputs ─────────────────────────────────────────

/// What a `git` command reported.
pub struct GitCommandOutput {
    pub status_code: Option<i32>,
    pub stdout: String,
    pub stderr: String,
}

pub open spec fn succeeded(o: GitCommandOutput) -> bool {
    o.status_code == Some(0i32)
}

/// Whether the command exited with status 0.
pub fn command_succeeded(output: &GitCommandOutput) -> (res: bool)
    ensures
        res == succeeded(*output),
{
    match output.status_code {
        Some(c) => c == 0,
        None => false,
    }
}

/// The message of a failed command: its trimmed stderr, else its trimmed
/// stdout, else `unknown git error`.
pub open spec fn error_message(o: GitCommandOutput) -> Seq<char> {
    if trim(o.stderr@).len() > 0 {
        trim(o.stderr@)
    } else if trim(o.stdout@).len() > 0 {
        trim(o.stdout@)
    } else {
        "unknown git error"@
    }
}

pub fn command_error_message(output: &GitCommandOutput) -> (res: String)
    ensures
        res@ == error_message(*output),
{
    let stderr = trim_str(output.stderr.as_str());
    if stderr.unicode_len() > 0 {
        return stderr;
    }
    let stdout = trim_str(output.stdout.as_str());
    if stdout.unicode_len() > 0 {
        return stdout;
    }
    String::from_str("unknown git error")
}

/// `prefix` followed by `detail`.
fn concat(prefix: &str, detail: &str) -> (res: String)
    ensures
        res@ == prefix@ + detail@,
{
    let mut m = String::from_str(prefix);
    m.append(detail);
    m
}

/// `Ok` when the command succeeded, else `Failed to <context>: <message>`.
pub fn run_git_success(output: &GitCommandOutput, context: &str) -> (res: Result<(), String>)
    ensures
        res is Ok <==> succeeded(*output),
        res matches Err(e) ==> e@ == "Failed to "@ + context@ + ": "@ + error_message(*output),
{
    if command_succeeded(output) {
        return Ok(());
    }
    let msg = command_error_message(output);
    let mut m = String::from_str("Failed to ");
    m.append(context);
    m.append(": ");
    m.append(msg.as_str());
    Err(m)
}

/// The value that `git config --get` printed, when it succeeded.
pub fn git_config_value(output: &GitCommandOutput) -> (res: Option<String>)
    ensures
        succeeded(*output) ==> view_opt_string(res) == normalized_optional_spec(output.stdout@),
        !succeeded(*output) ==> res is None,
{
    if command_succeeded(output) {
        return normalized_optional(output.stdout.as_str());
    }
    None
}

/// The URL that `git remote get-url origin` printed, when it succeeded.
pub fn git_remote_url(output: &GitCommandOutput) -> (res: Option<String>)
    ensures
        succeeded(*output) ==> view_opt_string(res) == normalized_optional_spec(output.stdout@),
        !succeeded(*output) ==> res is None,
{
    git_config_value(output)
}

/// The blob that `git show :<stage>:<path>` printed, when it succeeded.
pub fn read_conflict_blob(output: &GitCommandOutput) -> (res: Option<String>)
    ensures
        succeeded(*output) ==> (res matches Some(b) && b@ == output.stdout@),
        !succeeded(*output) ==> res is None,
{
    if command_succeeded(output) {
        return Some(output.stdout.clone());
    }
    None
}

/// The content of the copy that keeps the local side of a conflict: the
/// local version (`git show :2:<path>`) when it could be read, else the
/// remote one (`:3:`, asked only then; a failure to run it counts as none)
/// when it could be read, else nothing.
pub fn conflict_copy_content(ours: &GitCommandOutput, theirs: Option<&GitCommandOutput>) -> (res: String)
    ensures
        succeeded(*ours) ==> res@ == ours.stdout@,
        !succeeded(*ours) && (theirs matches Some(o) && succeeded(*o)) ==> res@ == theirs->Some_0.stdout@,
        !succeeded(*ours) && !(theirs matches Some(o) && succeeded(*o)) ==> res@.len() == 0,
{
    match read_conflict_blob(ours) {
        Some(b) => b,
        None => match theirs {
            Some(o) => match read_conflict_blob(o) {
                Some(b) => b,
                None => String::new(),
            },
            None => String::new(),
        },
    }
}

/// The non-blank lines of `git diff --name-only`, trimmed.
pub open spec fn nonblank_trimmed(ls: Seq<Seq<char>>) -> Seq<Seq<char>>
    decreases ls.len(),
{
    if ls.len() == 0 {
        seq![]
    } else if trim(ls.last()).len() > 0 {
        nonblank_trimmed(ls.drop_last()).push(trim(ls.last()))
    } else {
        nonblank_trimmed(ls.drop_last())
    }
}

pub open spec fn string_views(v: Seq<String>) -> Seq<Seq<char>> {
    Seq::new(v.len(), |i: int| v[i]@)
}

/// The files that a merge left in conflict.
#[verifier::spinoff_prover]
pub fn list_conflicted_files(output: &GitCommandOutput) -> (res: Result<Vec<String>, String>)
    ensures
        res is Ok <==> succeeded(*output),
        res matches Ok(v) ==> string_views(v@) == nonblank_trimmed(lines_of(output.stdout@)),
        res matches Err(e) ==> e@ == "Failed to list conflicted files: "@ + error_message(*output),
{
    if !command_succeeded(output) {
        let msg = command_error_message(output);
        return Err(concat("Failed to list conflicted files: ", msg.as_str()));
    }
    let out = chars_of(output.stdout.as_str());
    let lines = lines_chars(out.as_slice());
    let ghost ls = lines_of(output.stdout@);
    let mut files: Vec<String> = Vec::new();
    let mut i: usize = 0;
    while i < lines.len()
        invariant
            i <= lines@.len(),
            views(lines@) == ls,
            string_views(files@) == nonblank_trimmed(ls.take(i as int)),
        decreases lines@.len() - i,
    {
        assert(ls.take(i + 1).drop_last() =~= ls.take(i as int));
        assert(ls.take(i + 1).last() == lines@[i as int]@);
        let t = trim_chars(lines[i].as_slice());
        if t.len() > 0 {
            files.push(string_from_chars(t.as_slice()));
        }
        i = i + 1;
        assert(string_views(files@) =~= nonblank_trimmed(ls.take(i as int)));
    }
    assert(ls.take(lines@.len() as int) =~= ls);
    Ok(files)
}

/// What to do with the `origin` remote.
pub enum RemoteAction {
    /// It already points at the remote.
    Keep,
    /// It exists with another URL: `git remote set-url`.
    SetUrl,
    /// There is none: `git remote add`.
    Add,
}

/// How to make `origin` point at `remote_url`, given its current URL.
pub fn origin_remote_action(existing: Option<&str>, remote_url: &str) -> (res: RemoteAction)
    ensures
        existing is None ==> res is Add,
        existing matches Some(u) ==> (res is Keep <==> trim(u@) == remote_url@),
        existing matches Some(u) ==> (res is SetUrl <==> trim(u@) != remote_url@),
{
    match existing {
        Some(url) => {
            let t = trim_str(url);
            let r = String::from_str(remote_url);
            if t == r {
                RemoteAction::Keep
            } else {
                RemoteAction::SetUrl
            }
        },
        None => RemoteAction::Add,
    }
}

// ── Commit, pull and push ───────────────────────────────────────

/// What `str::to_lowercase` gives for `s`.
pub uninterp spec fn unicode_lowercase(s: Seq<char>) -> Seq<char>;

/// Calls `str::to_lowercase`. Claims that the result is the named lowercase
/// form of the argument.
#[verifier::external_body]
fn to_lowercase(s: &str) -> (res: String)
    ensures
        res@ == unicode_lowercase(s@),
{
    s.to_lowercase()
}

/// The commit message of a sync.
pub fn commit_message(timestamp: &str, trigger: SyncTrigger) -> (res: String)
    ensures
        res@ == "stik: sync "@ + timestamp@ + " notes ("@ + trigger_label(trigger) + ")"@,
{
    let mut m = String::from_str("stik: sync ");
    m.append(timestamp);
    m.append(" notes (");
    m.append(trigger.commit_label());
    m.append(")");
    m
}

/// After `git status --porcelain`: whether there is anything to commit.
pub fn changes_to_commit(status_output: &GitCommandOutput) -> (res: Result<bool, String>)
    ensures
        res is Ok <==> succeeded(*status_output),
        res matches Ok(b) ==> b == (trim(status_output.stdout@).len() > 0),
        res matches Err(e) ==> e@ == "Failed to inspect repository status: "@ + error_message(*status_output),
{
    if !command_succeeded(status_output) {
        let msg = command_error_message(status_output);
        return Err(concat("Failed to inspect repository status: ", msg.as_str()));
    }
    let t = trim_str(status_output.stdout.as_str());
    Ok(t.unicode_len() > 0)
}

fn says_nothing_to_commit(msg: &str) -> (res: bool)
    ensures
        res == contains(msg@, "nothing to commit"@),
{
    let m = chars_of(msg);
    let p = chars_of("nothing to commit");
    contains_chars(m.as_slice(), p.as_slice())
}

/// The outcome of a `git commit`: success, or "nothing to commit", is fine.
pub open spec fn commit_outcome(o: GitCommandOutput, prefix: Seq<char>) -> Option<Seq<char>> {
    if succeeded(o) || contains(error_message(o), "nothing to commit"@) {
        None
    } else {
        Some(prefix + error_message(o))
    }
}

/// After committing the notes.
pub fn commit_result(commit_output: &GitCommandOutput) -> (res: Result<(), String>)
    ensures
        res is Ok <==> commit_outcome(*commit_output, "Failed to commit note changes: "@) is None,
        res matches Err(e) ==> commit_outcome(*commit_output, "Failed to commit note changes: "@) == Some(e@),
{
    if command_succeeded(commit_output) {
        return Ok(());
    }
    let msg = command_error_message(commit_output);
    if says_nothing_to_commit(msg.as_str()) {
        return Ok(());
    }
    Err(concat("Failed to commit note changes: ", msg.as_str()))
}

/// After committing the resolved conflicts.
pub fn conflict_commit_result(commit_output: &GitCommandOutput) -> (res: Result<(), String>)
    ensures
        res is Ok <==> commit_outcome(*commit_output, "Failed to finalize conflict resolution: "@) is None,
        res matches Err(e) ==> commit_outcome(*commit_output, "Failed to finalize conflict resolution: "@) == Some(e@),
{
    if command_succeeded(commit_output) {
        return Ok(());
    }
    let msg = command_error_message(commit_output);
    if says_nothing_to_commit(msg.as_str()) {
        return Ok(());
    }
    Err(concat("Failed to finalize conflict resolution: ", msg.as_str()))
}

/// What follows a `git pull`.
pub enum PullStep {
    /// Pulled, or there was nothing to pull.
    Done,
    /// Pull again with `--allow-unrelated-histories`.
    RetryUnrelatedHistories,
    /// Look for conflicted files.
    ResolveConflicts,
}

pub open spec fn pull_step_spec(o: GitCommandOutput) -> PullStep {
    let lower = unicode_lowercase(error_message(o));
    if succeeded(o) || contains(lower, "couldn't find remote ref"@) || contains(lower, "no such ref was fetched"@)
        || contains(lower, "not a git repository"@) {
        PullStep::Done
    } else if contains(lower, "refusing to merge unrelated histories"@) {
        PullStep::RetryUnrelatedHistories
    } else {
        PullStep::ResolveConflicts
    }
}

fn contains_str(s: &str, p: &str) -> (res: bool)
    ensures
        res == contains(s@, p@),
{
    let a = chars_of(s);
    let b = chars_of(p);
    contains_chars(a.as_slice(), b.as_slice())
}

/// What follows a pull, read off its outcome: a success, or a failure
/// because the remote branch does not exist yet (`couldn't find remote ref`,
/// `no such ref was fetched`) or there is no repository, leaves nothing to
/// pull; otherwise unrelated histories are pulled again, and anything else
/// goes on to the conflicts.
pub proof fn law_pull_outcomes(o: GitCommandOutput)
    ensures
        ({
            let lower = unicode_lowercase(error_message(o));
            let nothing_to_pull = contains(lower, "couldn't find remote ref"@) || contains(
                lower,
                "no such ref was fetched"@,
            ) || contains(lower, "not a git repository"@);
            &&& succeeded(o) ==> pull_step_spec(o) is Done
            &&& contains(lower, "couldn't find remote ref"@) ==> pull_step_spec(o) is Done
            &&& contains(lower, "no such ref was fetched"@) ==> pull_step_spec(o) is Done
            &&& contains(lower, "not a git repository"@) ==> pull_step_spec(o) is Done
            &&& !succeeded(o) && !nothing_to_pull && contains(lower, "refusing to merge unrelated histories"@)
                ==> pull_step_spec(o) is RetryUnrelatedHistories
            &&& !succeeded(o) && !nothing_to_pull && !contains(lower, "refusing to merge unrelated histories"@)
                ==> pull_step_spec(o) is ResolveConflicts
        }),
{
}

/// The next step after `git pull --no-rebase origin <branch>`.
pub fn pull_step(pull_output: &GitCommandOutput) -> (res: PullStep)
    ensures
        res == pull_step_spec(*pull_output),
{
    if command_succeeded(pull_output) {
        return PullStep::Done;
    }
    let msg = command_error_message(pull_output);
    let lower = to_lowercase(msg.as_str());
    if contains_str(lower.as_str(), "couldn't find remote ref") || contains_str(lower.as_str(), "no such ref was fetched")
        || contains_str(lower.as_str(), "not a git repository") {
        return PullStep::Done;
    }
    if contains_str(lower.as_str(), "refusing to merge unrelated histories") {
        return PullStep::RetryUnrelatedHistories;
    }
    PullStep::ResolveConflicts
}

/// What follows a pull retried with `--allow-unrelated-histories`: done
/// when it succeeded, else look for conflicted files.
pub fn after_unrelated_retry(retry: &GitCommandOutput) -> (res: PullStep)
    ensures
        succeeded(*retry) ==> res is Done,
        !succeeded(*retry) ==> res is ResolveConflicts,
{
    if command_succeeded(retry) {
        PullStep::Done
    } else {
        PullStep::ResolveConflicts
    }
}

/// After listing the conflicted files of a failed pull: with none the pull
/// failed; otherwise they are to be resolved.
pub fn conflicts_to_resolve(conflicted: &Vec<String>, branch: &str, pull_output: &GitCommandOutput) -> (res: Result<(), String>)
    ensures
        res is Ok <==> conflicted@.len() > 0,
        res matches Err(e) ==> e@ == "Failed to pull from origin/"@ + branch@ + ": "@ + error_message(*pull_output),
{
    if conflicted.len() == 0 {
        let msg = command_error_message(pull_output);
        let mut m = String::from_str("Failed to pull from origin/");
        m.append(branch);
        m.append(": ");
        m.append(msg.as_str());
        return Err(m);
    }
    Ok(())
}

/// What follows a `git push -u origin <branch>`.
pub enum PushStep {
    Done,
    /// The remote moved on: pull (resolving conflicts) and push again.
    PullThenPushAgain,
    Failed(String),
}

/// The next step after a push.
pub fn push_step(push_output: &GitCommandOutput, branch: &str) -> (res: PushStep)
    ensures
        succeeded(*push_output) ==> res is Done,
        !succeeded(*push_output) ==> {
            let lower = unicode_lowercase(error_message(*push_output));
            if contains(lower, "non-fast-forward"@) || contains(lower, "fetch first"@) {
                res is PullThenPushAgain
            } else {
                res matches PushStep::Failed(e) && e@ == "Failed to push to origin/"@ + branch@ + ": "@ + error_message(*push_output)
            }
        },
{
    if command_succeeded(push_output) {
        return PushStep::Done;
    }
    let msg = command_error_message(push_output);
    let lower = to_lowercase(msg.as_str());
    if contains_str(lower.as_str(), "non-fast-forward") || contains_str(lower.as_str(), "fetch first") {
        return PushStep::PullThenPushAgain;
    }
    let mut m = String::from_str("Failed to push to origin/");
    m.append(branch);
    m.append(": ");
    m.append(msg.as_str());
    PushStep::Failed(m)
}

// ── Runtime status ──────────────────────────────────────────────

/// The runtime status once a sync started: it is running and the last error
/// is forgotten.
pub open spec fn runtime_after_begin(r: RuntimeStatus) -> RuntimeStatus {
    RuntimeStatus { syncing: true, last_error: None, ..r }
}

/// The runtime status once a sync ended at the time written `now_text`: on
/// success that is the time of the last sync and there is no error; on
/// failure the error is kept and the time of the last success stays.
pub open spec fn runtime_after_finish(r: RuntimeStatus, result: Result<(), String>, now_text: String) -> RuntimeStatus {
    match result {
        Ok(()) => RuntimeStatus { syncing: false, last_sync_at: Some(now_text), last_error: None, ..r },
        Err(e) => RuntimeStatus { syncing: false, last_error: Some(e), ..r },
    }
}

impl RuntimeStatus {
    pub fn begin_sync(&mut self)
        ensures
            *final(self) == runtime_after_begin(*old(self)),
    {
        self.syncing = true;
        self.last_error = None;
    }

    pub fn finish_sync_at(&mut self, result: Result<(), String>, now_text: String)
        ensures
            *final(self) == runtime_after_finish(*old(self), result, now_text),
    {
        self.syncing = false;
        match result {
            Ok(()) => {
                self.last_sync_at = Some(now_text);
                self.last_error = None;
            },
            Err(e) => {
                self.last_error = Some(e);
            },
        }
    }

    /// A sync ended now (the local time, written as RFC 3339).
    pub fn finish_sync(&mut self, result: Result<(), String>)
        ensures
            exists|t: String| is_rfc3339_at_some_time(t@) && *final(self) == runtime_after_finish(*old(self), result, t),
    {
        let now_text = local_time_rfc3339();
        self.finish_sync_at(result, now_text);
    }

    /// Whether notes wait for a debounced sync.
    pub fn set_pending_changes(&mut self, pending: bool)
        ensures
            *final(self) == (RuntimeStatus { pending_changes: pending, ..*old(self) }),
    {
        self.pending_changes = pending;
    }

    /// Remember an error met outside a sync.
    pub fn record_error(&mut self, message: String)
        ensures
            *final(self) == (RuntimeStatus { last_error: Some(message), ..*old(self) }),
    {
        self.last_error = Some(message);
    }
}

/// A sync from start to end leaves nothing running and the pending flag as
/// it was; a success clears the error and records the time, a failure keeps
/// its error and the time of the last success.
pub proof fn law_sync_round(r: RuntimeStatus, result: Result<(), String>, now_text: String)
    ensures
        ({
            let ended = runtime_after_finish(runtime_after_begin(r), result, now_text);
            &&& !ended.syncing
            &&& ended.pending_changes == r.pending_changes
            &&& result is Ok ==> ended.last_error is None && ended.last_sync_at == Some(now_text)
            &&& result matches Err(e) ==> ended.last_error == Some(e) && ended.last_sync_at == r.last_sync_at
        }),
{
}

/// The error kept when the settings could not be loaded before a sync.
pub fn settings_load_error(detail: &str) -> (res: String)
    ensures
        res@ == "Failed to load settings: "@ + detail@,
{
    concat("Failed to load settings: ", detail)
}

/// The error kept when the note index could not be rebuilt after a sync.
pub fn index_rebuild_error(detail: &str) -> (res: String)
    ensures
        res@ == "Git sync succeeded but index rebuild failed: "@ + detail@,
{
    concat("Git sync succeeded but index rebuild failed: ", detail)
}

/// The error kept when the worker thread could not be started.
pub fn worker_start_error(detail: &str) -> (res: String)
    ensures
        res@ == "Failed to start git sync worker: "@ + detail@,
{
    concat("Failed to start git sync worker: ", detail)
}

/// The local time as `%Y-%m-%d %H:%M:%S` writes it.
pub open spec fn readable_stamp(y: int, mo: nat, d: nat, h: nat, mi: nat, s: nat) -> Seq<char> {
    year_text(y) + seq!['-'] + two_digits(mo) + seq!['-'] + two_digits(d) + seq![' '] + two_digits(h) + seq![':']
        + two_digits(mi) + seq![':'] + two_digits(s)
}

/// The local time as `%Y%m%d-%H%M%S` writes it.
pub open spec fn compact_stamp(y: int, mo: nat, d: nat, h: nat, mi: nat, s: nat) -> Seq<char> {
    year_text(y) + two_digits(mo) + two_digits(d) + seq!['-'] + two_digits(h) + two_digits(mi) + two_digits(s)
}

/// `%Y-%m-%d %H:%M:%S`
pub open spec fn readable_format() -> Seq<char> {
    seq!['%', 'Y', '-', '%', 'm', '-', '%', 'd', ' ', '%', 'H', ':', '%', 'M', ':', '%', 'S']
}

/// `%Y%m%d-%H%M%S`
pub open spec fn compact_format() -> Seq<char> {
    seq!['%', 'Y', '%', 'm', '%', 'd', '-', '%', 'H', '%', 'M', '%', 'S']
}

#[verifier::spinoff_prover]
#[verifier::rlimit(40)]
proof fn lemma_readable_stamp_render(y: int, mo: nat, d: nat, h: nat, mi: nat, s: nat)
    ensures
        render(readable_format(), y, mo, d, h, mi, s) == readable_stamp(y, mo, d, h, mi, s),
{
    let e = Seq::<char>::empty();
    let t6 = seq!['%', 'S'] + e;
    let t5 = seq!['%', 'M'] + (seq![':'] + t6);
    let t4 = seq!['%', 'H'] + (seq![':'] + t5);
    let t3 = seq!['%', 'd'] + (seq![' '] + t4);
    let t2 = seq!['%', 'm'] + (seq!['-'] + t3);
    let t1 = seq!['%', 'Y'] + (seq!['-'] + t2);
    assert(readable_format() =~= t1);
    lemma_render_empty(y, mo, d, h, mi, s);
    lemma_render_field('S', e, y, mo, d, h, mi, s);
    lemma_render_literal(':', t6, y, mo, d, h, mi, s);
    lemma_render_field('M', seq![':'] + t6, y, mo, d, h, mi, s);
    lemma_render_literal(':', t5, y, mo, d, h, mi, s);
    lemma_render_field('H', seq![':'] + t5, y, mo, d, h, mi, s);
    lemma_render_literal(' ', t4, y, mo, d, h, mi, s);
    lemma_render_field('d', seq![' '] + t4, y, mo, d, h, mi, s);
    lemma_render_literal('-', t3, y, mo, d, h, mi, s);
    lemma_render_field('m', seq!['-'] + t3, y, mo, d, h, mi, s);
    lemma_render_literal('-', t2, y, mo, d, h, mi, s);
    lemma_render_field('Y', seq!['-'] + t2, y, mo, d, h, mi, s);
    assert(render(readable_format(), y, mo, d, h, mi, s) =~= readable_stamp(y, mo, d, h, mi, s));
}

#[verifier::spinoff_prover]
#[verifier::rlimit(40)]
proof fn lemma_compact_stamp_render(y: int, mo: nat, d: nat, h: nat, mi: nat, s: nat)
    ensures
        render(compact_format(), y, mo, d, h, mi, s) == compact_stamp(y, mo, d, h, mi, s),
{
    let e = Seq::<char>::empty();
    let t6 = seq!['%', 'S'] + e;
    let t5 = seq!['%', 'M'] + t6;
    let t4 = seq!['%', 'H'] + t5;
    let t3 = seq!['-'] + t4;
    let t2 = seq!['%', 'd'] + t3;
    let t1 = seq!['%', 'm'] + t2;
    let t0 = seq!['%', 'Y'] + t1;
    assert(compact_format() =~= t0);
    lemma_render_empty(y, mo, d, h, mi, s);
    lemma_render_field('S', e, y, mo, d, h, mi, s);
    lemma_render_field('M', t6, y, mo, d, h, mi, s);
    lemma_render_field('H', t5, y, mo, d, h, mi, s);
    lemma_render_literal('-', t4, y, mo, d, h, mi, s);
    lemma_render_field('d', t3, y, mo, d, h, mi, s);
    lemma_render_field('m', t2, y, mo, d, h, mi, s);
    lemma_render_field('Y', t1, y, mo, d, h, mi, s);
    assert(render(compact_format(), y, mo, d, h, mi, s) =~= compact_stamp(y, mo, d, h, mi, s));
}

/// A character of a compact stamp: a digit, `-` or `+`.
pub open spec fn is_stamp_char(c: char) -> bool {
    is_digit(c) || c == '-' || c == '+'
}

/// Every character of `s` is a stamp character.
pub open spec fn all_stamp_chars(s: Seq<char>) -> bool {
    forall|i: int| 0 <= i < s.len() ==> is_stamp_char(#[trigger] s[i])
}

proof fn lemma_all_stamp_chars_concat(a: Seq<char>, b: Seq<char>)
    requires
        all_stamp_chars(a),
        all_stamp_chars(b),
    ensures
        all_stamp_chars(a + b),
{
    assert forall|i: int| 0 <= i < (a + b).len() implies is_stamp_char(#[trigger] (a + b)[i]) by {
        if i < a.len() {
            assert((a + b)[i] == a[i]);
        } else {
            assert((a + b)[i] == b[i - a.len()]);
        }
    }
}

proof fn lemma_padded_stamp_chars(v: nat, width: nat)
    ensures
        all_stamp_chars(zero_padded(v, width)),
{
    lemma_zero_padded_digits(v, width);
}

/// A compact stamp holds digits, the `-` between date and time, and the
/// sign of a year outside 0 to 9999: never a `/`.
proof fn lemma_compact_stamp_chars(y: int, mo: nat, d: nat, h: nat, mi: nat, s: nat)
    ensures
        all_stamp_chars(compact_stamp(y, mo, d, h, mi, s)),
{
    let yy = year_text(y);
    if 0 <= y && y <= 9999 {
        lemma_padded_stamp_chars(y as nat, 4);
    } else {
        let v = if y < 0 { -y } else { y };
        let sign = if y < 0 { seq!['-'] } else { seq!['+'] };
        lemma_padded_stamp_chars(v as nat, 4);
        assert(all_stamp_chars(sign));
        lemma_all_stamp_chars_concat(sign, zero_padded(v as nat, 4));
    }
    lemma_padded_stamp_chars(mo, 2);
    lemma_padded_stamp_chars(d, 2);
    lemma_padded_stamp_chars(h, 2);
    lemma_padded_stamp_chars(mi, 2);
    lemma_padded_stamp_chars(s, 2);
    assert(all_stamp_chars(seq!['-']));
    let p1 = yy + two_digits(mo);
    lemma_all_stamp_chars_concat(yy, two_digits(mo));
    let p2 = p1 + two_digits(d);
    lemma_all_stamp_chars_concat(p1, two_digits(d));
    let p3 = p2 + seq!['-'];
    lemma_all_stamp_chars_concat(p2, seq!['-']);
    let p4 = p3 + two_digits(h);
    lemma_all_stamp_chars_concat(p3, two_digits(h));
    let p5 = p4 + two_digits(mi);
    lemma_all_stamp_chars_concat(p4, two_digits(mi));
    lemma_all_stamp_chars_concat(p5, two_digits(s));
}

/// The commit message of a sync made now (the local time as
/// `%Y-%m-%d %H:%M:%S`).
pub fn sync_commit_message(trigger: SyncTrigger) -> (res: String)
    ensures
        exists|y: int, mo: nat, d: nat, h: nat, mi: nat, s: nat|
            is_clock_reading(mo, d, h, mi, s) && res@ == "stik: sync "@ + #[trigger] readable_stamp(y, mo, d, h, mi, s)
                + " notes ("@ + trigger_label(trigger) + ")"@,
{
    let format = "%Y-%m-%d %H:%M:%S";
    proof {
        reveal_strlit("%Y-%m-%d %H:%M:%S");
        assert(format@ =~= readable_format());
        assert(is_numeric_time_format(format@));
    }
    let timestamp = local_time_text(format);
    proof {
        let (y, mo, d, h, mi, s) = choose|y: int, mo: nat, d: nat, h: nat, mi: nat, s: nat|
            is_clock_reading(mo, d, h, mi, s) && timestamp@ == #[trigger] render(format@, y, mo, d, h, mi, s);
        lemma_readable_stamp_render(y, mo, d, h, mi, s);
        assert(format@ =~= readable_format());
    }
    commit_message(timestamp.as_str(), trigger)
}

/// The timestamp that names the copies of one round of conflicts (the local
/// time as `%Y%m%d-%H%M%S`): digits, with a `-` between date and time (and
/// a sign before a year outside 0 to 9999), so never a `/` that would move
/// a copy into another folder.
pub fn conflict_timestamp() -> (res: String)
    ensures
        exists|y: int, mo: nat, d: nat, h: nat, mi: nat, s: nat|
            is_clock_reading(mo, d, h, mi, s) && res@ == #[trigger] compact_stamp(y, mo, d, h, mi, s),
        all_stamp_chars(res@),
{
    let format = "%Y%m%d-%H%M%S";
    proof {
        reveal_strlit("%Y%m%d-%H%M%S");
        assert(format@ =~= compact_format());
        assert(is_numeric_time_format(format@));
    }
    let res = local_time_text(format);
    proof {
        let (y, mo, d, h, mi, s) = choose|y: int, mo: nat, d: nat, h: nat, mi: nat, s: nat|
            is_clock_reading(mo, d, h, mi, s) && res@ == #[trigger] render(format@, y, mo, d, h, mi, s);
        lemma_compact_stamp_render(y, mo, d, h, mi, s);
        lemma_compact_stamp_chars(y, mo, d, h, mi, s);
    }
    res
}

// ── The background worker ───────────────────────────────────────

/// A message to the sync worker.
pub enum WorkerMessage {
    /// A note was saved in this folder.
    NoteChanged(String),
    /// Sync now.
    ForceSync,
}

/// The message that tells the worker a note was saved in `folder`.
pub fn notify_note_changed(folder: &str) -> (res: WorkerMessage)
    ensures
        res matches WorkerMessage::NoteChanged(f) && f@ == folder@,
{
    WorkerMessage::NoteChanged(String::from_str(folder))
}

/// The message that asks the worker to sync now.
pub fn notify_force_sync() -> (res: WorkerMessage)
    ensures
        res is ForceSync,
{
    WorkerMessage::ForceSync
}

/// Milliseconds that a save waits before its sync.
pub const DEBOUNCE_MS: u64 = DEFAULT_DEBOUNCE_SECONDS * 1000;

/// What the worker met in one wait of at most a second.
pub enum WorkerEvent {
    /// A note was saved; `linked` says whether its folder is linked for sync.
    NoteChanged { linked: bool },
    ForceSync,
    /// Nothing arrived.
    Timeout,
    /// No one can send any more.
    Disconnected,
}

/// What the worker does about an event.
pub enum WorkerAction {
    Nothing,
    /// Note that changes wait for a sync.
    MarkPending,
    Sync(SyncTrigger),
    Stop,
}

/// The timers of the background sync worker, in milliseconds of a clock
/// that only goes forward.
pub struct SyncWorker {
    /// When the debounced sync of saved notes is due.
    pub pending_deadline_ms: Option<u64>,
    /// When the next periodic sync is due.
    pub next_periodic_sync_ms: u64,
}

/// `wait` milliseconds after `now`, or `u64::MAX` ("never") when that is
/// beyond the clock's range.
pub open spec fn deadline(now: u64, wait: int) -> u64 {
    if now + wait < u64::MAX {
        (now + wait) as u64
    } else {
        u64::MAX
    }
}

/// The deadline `seconds` seconds after `now`.
pub fn deadline_after(now_ms: u64, seconds: u64) -> (res: u64)
    ensures
        res == deadline(now_ms, seconds * 1000),
{
    match seconds.checked_mul(1000) {
        Some(wait) => match now_ms.checked_add(wait) {
            Some(d) => d,
            None => u64::MAX,
        },
        None => u64::MAX,
    }
}

/// The worker after an event at `now`: a save in a linked folder (re)sets
/// the debounce deadline; nothing else changes the timers.
pub open spec fn worker_after_event(w: SyncWorker, e: WorkerEvent, now: u64) -> SyncWorker {
    match e {
        WorkerEvent::NoteChanged { linked } => if linked {
            SyncWorker { pending_deadline_ms: Some(deadline(now, DEBOUNCE_MS as int)), ..w }
        } else {
            w
        },
        _ => w,
    }
}

pub open spec fn event_action(e: WorkerEvent) -> WorkerAction {
    match e {
        WorkerEvent::NoteChanged { linked } => if linked {
            WorkerAction::MarkPending
        } else {
            WorkerAction::Nothing
        },
        WorkerEvent::ForceSync => WorkerAction::Sync(SyncTrigger::Startup),
        WorkerEvent::Timeout => WorkerAction::Nothing,
        WorkerEvent::Disconnected => WorkerAction::Stop,
    }
}

/// The worker after a sync with the given trigger ended at `now`: the next
/// periodic sync is one interval later, and a debounced sync clears its
/// deadline.
pub open spec fn worker_after_sync(w: SyncWorker, trigger: SyncTrigger, now: u64, interval_seconds: u64) -> SyncWorker {
    SyncWorker {
        pending_deadline_ms: match trigger {
            SyncTrigger::DebouncedSave => None,
            _ => w.pending_deadline_ms,
        },
        next_periodic_sync_ms: deadline(now, interval_seconds * 1000),
    }
}

/// A deadline of `u64::MAX` is never due.
pub open spec fn is_due(d: u64, now: u64) -> bool {
    d < u64::MAX && now >= d
}

pub open spec fn debounce_is_due(w: SyncWorker, now: u64) -> bool {
    w.pending_deadline_ms matches Some(d) && is_due(d, now)
}

pub open spec fn periodic_is_due(w: SyncWorker, now: u64) -> bool {
    is_due(w.next_periodic_sync_ms, now)
}

impl SyncWorker {
    /// The worker started at `now`: nothing pending, the first periodic sync
    /// one interval later.
    pub fn start(now_ms: u64, interval_seconds: u64) -> (res: Self)
        ensures
            res.pending_deadline_ms is None,
            res.next_periodic_sync_ms == deadline(now_ms, interval_seconds * 1000),
    {
        SyncWorker { pending_deadline_ms: None, next_periodic_sync_ms: deadline_after(now_ms, interval_seconds) }
    }

    /// React to what the worker met.
    pub fn on_event(&mut self, event: WorkerEvent, now_ms: u64) -> (res: WorkerAction)
        ensures
            *final(self) == worker_after_event(*old(self), event, now_ms),
            res == event_action(event),
    {
        match event {
            WorkerEvent::NoteChanged { linked } => {
                if linked {
                    self.pending_deadline_ms = Some(deadline_after(now_ms, DEFAULT_DEBOUNCE_SECONDS));
                    WorkerAction::MarkPending
                } else {
                    WorkerAction::Nothing
                }
            },
            WorkerEvent::ForceSync => WorkerAction::Sync(SyncTrigger::Startup),
            WorkerEvent::Timeout => WorkerAction::Nothing,
            WorkerEvent::Disconnected => WorkerAction::Stop,
        }
    }

    /// Whether the debounced sync is due at `now`.
    pub fn debounce_due(&self, now_ms: u64) -> (res: bool)
        ensures
            res == debounce_is_due(*self, now_ms),
    {
        match self.pending_deadline_ms {
            Some(d) => d < u64::MAX && now_ms >= d,
            None => false,
        }
    }

    /// Whether the periodic sync is due at `now`.
    pub fn periodic_due(&self, now_ms: u64) -> (res: bool)
        ensures
            res == periodic_is_due(*self, now_ms),
    {
        self.next_periodic_sync_ms < u64::MAX && now_ms >= self.next_periodic_sync_ms
    }

    /// Record that a sync ended at `now`.
    pub fn after_sync(&mut self, trigger: SyncTrigger, now_ms: u64, interval_seconds: u64)
        ensures
            *final(self) == worker_after_sync(*old(self), trigger, now_ms, interval_seconds),
    {
        match trigger {
            SyncTrigger::DebouncedSave => {
                self.pending_deadline_ms = None;
            },
            _ => {},
        }
        self.next_periodic_sync_ms = deadline_after(now_ms, interval_seconds);
    }
}

/// A save in a linked folder makes the debounced sync due exactly 30
/// seconds later, not before (and never, should that be past the end of
/// the clock).
pub proof fn law_save_debounces(w: SyncWorker, saved_at: u64, now: u64)
    ensures
        debounce_is_due(worker_after_event(w, WorkerEvent::NoteChanged { linked: true }, saved_at), now)
            <==> (saved_at + DEBOUNCE_MS < u64::MAX && now >= saved_at + DEBOUNCE_MS),
{
}

/// Each new save in a linked folder moves the deadline: only the last save
/// counts.
pub proof fn law_latest_save_wins(w: SyncWorker, first: u64, second: u64)
    ensures
        worker_after_event(
            worker_after_event(w, WorkerEvent::NoteChanged { linked: true }, first),
            WorkerEvent::NoteChanged { linked: true },
            second,
        ) == worker_after_event(w, WorkerEvent::NoteChanged { linked: true }, second),
{
}

/// Saves in folders that are not linked, and the other events, leave the
/// timers alone.
pub proof fn law_other_events_keep_timers(w: SyncWorker, e: WorkerEvent, now: u64)
    requires
        !(e matches WorkerEvent::NoteChanged { linked } && linked),
    ensures
        worker_after_event(w, e, now) == w,
{
}

/// After the debounced sync nothing is pending, whatever the time.
pub proof fn law_debounced_sync_clears_pending(w: SyncWorker, at: u64, interval_seconds: u64, later: u64)
    ensures
        !debounce_is_due(worker_after_sync(w, SyncTrigger::DebouncedSave, at, interval_seconds), later),
{
}

/// Any sync postpones the periodic sync by one full interval (for ever,
/// should that be past the end of the clock).
pub proof fn law_sync_postpones_periodic(w: SyncWorker, trigger: SyncTrigger, at: u64, interval_seconds: u64, now: u64)
    ensures
        periodic_is_due(worker_after_sync(w, trigger, at, interval_seconds), now)
            <==> (at + interval_seconds * 1000 < u64::MAX && now >= at + interval_seconds * 1000),
{
}

// ── Conflict copies ─────────────────────────────────────────────

/// A file name split at its last `.` into stem and extension; a name with
/// no `.`, or whose only `.` leads it, has an empty extension.
pub open spec fn split_name(name: Seq<char>) -> (Seq<char>, Seq<char>) {
    let i = last_index_of(name, '.');
    if i > 0 {
        (name.take(i), name.skip(i + 1))
    } else {
        (name, seq![])
    }
}

pub fn split_file_name(file_name: &str) -> (res: (String, String))
    ensures
        (res.0@, res.1@) == split_name(file_name@),
{
    let n = chars_of(file_name);
    proof { lemma_last_index_of_bounds(n@, '.'); }
    match find_last(n.as_slice(), '.') {
        Some(i) if i > 0 => {
            let stem = copy_range(n.as_slice(), 0, i);
            let ext = copy_range(n.as_slice(), i + 1, n.len());
            assert(stem@ =~= n@.take(i as int));
            assert(ext@ =~= n@.skip(i + 1));
            (string_from_chars(stem.as_slice()), string_from_chars(ext.as_slice()))
        },
        _ => (String::from_str(file_name), String::new()),
    }
}

/// The name of the copy of a conflicted file: `-conflict-<timestamp>`
/// inserted before the extension.
pub open spec fn duplicate_name(name: Seq<char>, timestamp: Seq<char>) -> Seq<char> {
    let (stem, ext) = split_name(name);
    if ext.len() == 0 {
        stem + "-conflict-"@ + timestamp
    } else {
        stem + "-conflict-"@ + timestamp + "."@ + ext
    }
}

/// Where the copy of a conflicted file goes: beside it, under the
/// duplicate name; an error when the path names no file.
pub open spec fn conflict_path(path: Seq<char>, timestamp: Seq<char>) -> Result<Seq<char>, Seq<char>> {
    match file_name_of(path) {
        Some(name) => Ok(with_file_name_of(path, duplicate_name(name, timestamp))),
        None => Err("Invalid conflicted file path: "@ + path),
    }
}

pub fn conflict_duplicate_relative_path(relative_path: &str, timestamp: &str) -> (res: Result<String, String>)
    ensures
        view_result_string(res) == conflict_path(relative_path@, timestamp@),
{
    let p = chars_of(relative_path);
    let name = match file_name(p.as_slice()) {
        Some(n) => n,
        None => return Err(concat("Invalid conflicted file path: ", relative_path)),
    };
    let name_str = string_from_chars(name.as_slice());
    let (stem, ext) = split_file_name(name_str.as_str());
    let mut dup = concat(stem.as_str(), "-conflict-");
    dup.append(timestamp);
    if ext.unicode_len() > 0 {
        dup.append(".");
        dup.append(ext.as_str());
    }
    let d = chars_of(dup.as_str());
    let out = with_file_name(p.as_slice(), d.as_slice());
    Ok(string_from_chars(out.as_slice()))
}

/// The copy of a conflicted file sits where the file is, under the
/// duplicate name of the file's name (for a timestamp without `/`); a path
/// without a file name has no copy.
pub proof fn law_conflict_copy_is_named_by_duplicate_name(path: Seq<char>, timestamp: Seq<char>)
    requires
        forall|i: int| 0 <= i < timestamp.len() ==> timestamp[i] != '/',
    ensures
        conflict_path(path, timestamp) is Err <==> file_name_of(path) is None,
        file_name_of(path) matches Some(n) ==> (conflict_path(path, timestamp) matches Ok(r)
            && file_name_of(r) == Some(duplicate_name(n, timestamp))),
{
    if file_name_of(path) is Some {
        let n = file_name_of(path)->Some_0;
        lemma_file_name_has_no_slash(path);
        lemma_last_index_of_bounds(n, '.');
        reveal_strlit("-conflict-");
        reveal_strlit(".");
        let (stem, ext) = split_name(n);
        let d = duplicate_name(n, timestamp);
        let mid = "-conflict-"@;
        assert(stem.len() > 0);
        assert forall|i: int| 0 <= i < stem.len() implies stem[i] != '/' by {
            assert(stem[i] == n[i]);
        }
        assert forall|i: int| 0 <= i < ext.len() implies ext[i] != '/' by {
            assert(ext[i] == n[i + last_index_of(n, '.') + 1]);
        }
        let core = stem + mid + timestamp;
        assert forall|i: int| 0 <= i < core.len() implies core[i] != '/' by {
            if i < stem.len() {
            } else if i < stem.len() + mid.len() {
                assert(core[i] == mid[i - stem.len()]);
            } else {
                assert(core[i] == timestamp[i - stem.len() - mid.len()]);
            }
        }
        if ext.len() > 0 {
            let full = core + "."@ + ext;
            assert forall|i: int| 0 <= i < full.len() implies full[i] != '/' by {
                if i < core.len() {
                } else if i == core.len() {
                } else {
                    assert(full[i] == ext[i - core.len() - 1]);
                }
            }
            assert(d == full);
        } else {
            assert(d == core);
        }
        assert(d.len() > 2);
        assert(d != seq!['.']);
        assert(d != seq!['.', '.']);
        law_set_file_name_then_file_name(path, d);
    }
}

/// A path as `git` takes it on the command line: backslashes become `/`.
pub fn path_to_git_argument(path: &str) -> (res: String)
    ensures
        res@ == replace_char(path@, '\\', '/'),
{
    let p = chars_of(path);
    let r = replace_chars(p.as_slice(), '\\', '/');
    string_from_chars(r.as_slice())
}

// ── .gitignore ──────────────────────────────────────────────────

/// `s` ending with a newline.
pub open spec fn with_final_newline(s: Seq<char>) -> Seq<char> {
    if s.len() > 0 && s.last() == '\n' {
        s
    } else {
        s.push('\n')
    }
}

/// The new `.gitignore` for the existing one (empty when unreadable):
/// `None` when some line already is `.DS_Store` (trimmed), else the lines
/// with `.DS_Store` added, joined by newlines, ending in a newline.
pub open spec fn gitignore_update_spec(existing: Seq<char>) -> Option<Seq<char>> {
    let ls = lines_of(existing);
    if exists|i: int| 0 <= i < ls.len() && trim(#[trigger] ls[i]) == ".DS_Store"@ {
        None
    } else {
        Some(with_final_newline(join(ls.push(".DS_Store"@), seq!['\n'])))
    }
}

pub fn gitignore_update(existing: &str) -> (res: Option<String>)
    ensures
        view_opt_string(res) == gitignore_update_spec(existing@),
{
    let e = chars_of(existing);
    let mut lines = lines_chars(e.as_slice());
    let ghost ls = lines_of(existing@);
    let entry = chars_of(".DS_Store");
    let mut i: usize = 0;
    while i < lines.len()
        invariant
            i <= lines@.len(),
            ls == lines_of(existing@),
            views(lines@) == ls,
            entry@ == ".DS_Store"@,
            forall|j: int| 0 <= j < i ==> trim(#[trigger] ls[j]) != ".DS_Store"@,
        decreases lines@.len() - i,
    {
        let t = trim_chars(lines[i].as_slice());
        assert(ls[i as int] == lines@[i as int]@);
        if chars_eq(t.as_slice(), entry.as_slice()) {
            assert(trim(ls[i as int]) == ".DS_Store"@);
            return None;
        }
        i = i + 1;
    }
    lines.push(entry);
    assert(views(lines@) =~= ls.push(".DS_Store"@));
    let sep = vec!['\n'];
    let mut out = join_range(lines.as_slice(), 0, lines.len(), sep.as_slice());
    assert(views(lines@).subrange(0, lines@.len() as int) =~= views(lines@));
    assert(sep@ =~= seq!['\n']);
    if !(out.len() > 0 && out[out.len() - 1] == '\n') {
        out.push('\n');
    }
    Some(string_from_chars(out.as_slice()))
}

/// Ensuring the `.gitignore` a second time changes nothing: what the first
/// update writes already has a `.DS_Store` line.
pub proof fn law_gitignore_update_is_idempotent(existing: Seq<char>)
    ensures
        gitignore_update_spec(existing) matches Some(t) ==> gitignore_update_spec(t) is None,
{
    let ls = lines_of(existing);
    if gitignore_update_spec(existing) is Some {
        reveal_strlit(".DS_Store");
        let entry = ".DS_Store"@;
        let parts = ls.push(entry);
        let j = join(parts, seq!['\n']);
        assert forall|i: int| 0 <= i < entry.len() implies entry[i] != '\n' by {}
        if ls.len() == 0 {
            assert(parts =~= seq![entry]);
            assert(j == entry);
            lemma_split_on_no_sep(entry, '\n');
        } else {
            assert(parts.drop_last() =~= ls);
            assert(j == join(ls, seq!['\n']) + seq!['\n'] + entry);
            lemma_split_on_append(join(ls, seq!['\n']), '\n', entry);
        }
        assert(split_on(j, '\n').last() == entry);
        assert(j.len() > 0 && j.last() == entry.last());
        let t = j.push('\n');
        assert(with_final_newline(j) == t);
        assert(t.drop_last() =~= j);
        let p = split_on(t, '\n');
        assert(p == split_on(j, '\n').push(seq![]));
        let tl = lines_of(t);
        let k = split_on(j, '\n').len() - 1;
        lemma_split_on_nonempty(j, '\n');
        assert(tl[k] == strip_cr(entry));
        assert(strip_cr(entry) == entry);
        assert(trim_start(entry) == entry);
        assert(trim_end(entry) == entry);
        assert(trim(tl[k]) == entry);
    }
}

} // verus!
