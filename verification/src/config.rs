//! Configuration: the polling and retention settings, the storage paths,
//! and the rule that keeps clips from ignored applications out of the
//! history.
use vstd::prelude::*;
use vstd::string::StringExecFns;
use std::path::PathBuf;
use crate::text::{contains_seq, chars_of, has_substring, lowercased, occurs_at, to_lowercase};

verus! {

broadcast use vstd::string::group_string_axioms;

/// A filesystem path as std represents it; carried through unchanged.
#[verifier::external_type_specification]
#[verifier::external_body]
pub struct ExPathBuf(PathBuf);

/// `PathBuf::clone`, which `derive(Clone)` on `Config` calls. Nothing is
/// claimed of the copy.
pub assume_specification[ <PathBuf as Clone>::clone ](p: &PathBuf) -> PathBuf;

/// `dirs::data_local_dir`: the user's local data directory, if the
/// platform and environment provide one. Nothing is claimed of the value.
pub assume_specification[ dirs::data_local_dir ]() -> Option<PathBuf>;

/// `dirs::home_dir`: the user's home directory, if known. Nothing is
/// claimed of the value.
pub assume_specification[ dirs::home_dir ]() -> Option<PathBuf>;

/// `dirs::runtime_dir`: the user's runtime directory, if the platform has
/// one. Nothing is claimed of the value.
pub assume_specification[ dirs::runtime_dir ]() -> Option<PathBuf>;

/// `dirs::config_dir`: the user's configuration directory, if known.
/// Nothing is claimed of the value.
pub assume_specification[ dirs::config_dir ]() -> Option<PathBuf>;

/// The path `PathBuf::from` makes of a text.
pub uninterp spec fn path_of(s: Seq<char>) -> PathBuf;

/// The path `Path::join` makes of a base path and a segment.
pub uninterp spec fn joined(base: PathBuf, segment: Seq<char>) -> PathBuf;

/// Calls `PathBuf::from` on a text. The contract claims that the result is
/// the named path of the text.
#[verifier::external_body]
fn path_from(s: &str) -> (res: PathBuf)
    ensures
        res == path_of(s@),
{
    PathBuf::from(s)
}

/// Calls `Path::join` with a relative segment. The contract claims that the
/// result is the named join of the two.
#[verifier::external_body]
fn path_join(base: &PathBuf, segment: &str) -> (res: PathBuf)
    ensures
        res == joined(*base, segment@),
{
    base.join(segment)
}

/// The first available directory: `preferred`, else the home directory,
/// else the current directory `.`.
pub open spec fn first_dir(preferred: Option<PathBuf>, home: Option<PathBuf>) -> PathBuf {
    match preferred {
        Some(dir) => dir,
        None => match home {
            Some(h) => h,
            None => path_of("."@),
        },
    }
}

/// The data directory: `clipd` inside the local data directory (else the
/// home directory, else the current directory).
pub open spec fn data_dir_of(local: Option<PathBuf>, home: Option<PathBuf>) -> PathBuf {
    joined(first_dir(local, home), "clipd"@)
}

/// The runtime directory: `clipd` inside the platform's runtime directory,
/// else inside the data directory `data`.
pub open spec fn runtime_dir_of(runtime: Option<PathBuf>, data: PathBuf) -> PathBuf {
    match runtime {
        Some(dir) => joined(dir, "clipd"@),
        None => joined(data, "clipd"@),
    }
}

/// The configuration file: `clipd/config.toml` inside the configuration
/// directory (else the home directory, else the current directory).
pub open spec fn config_path_of(config: Option<PathBuf>, home: Option<PathBuf>) -> PathBuf {
    joined(joined(first_dir(config, home), "clipd"@), "config.toml"@)
}

/// `p` is the data directory for some answers of the environment.
pub open spec fn is_data_dir(p: PathBuf) -> bool {
    exists|local: Option<PathBuf>, home: Option<PathBuf>| p == #[trigger] data_dir_of(local, home)
}

/// `p` is the runtime directory for some answers of the environment.
pub open spec fn is_runtime_dir(p: PathBuf) -> bool {
    exists|runtime: Option<PathBuf>, data: PathBuf|
        is_data_dir(data) && p == #[trigger] runtime_dir_of(runtime, data)
}

/// `p` is the configuration file for some answers of the environment.
pub open spec fn is_config_path(p: PathBuf) -> bool {
    exists|config: Option<PathBuf>, home: Option<PathBuf>| p == #[trigger] config_path_of(config, home)
}

/// `p` is the file `name` inside a data directory.
pub open spec fn in_data_dir(p: PathBuf, name: Seq<char>) -> bool {
    exists|data: PathBuf| is_data_dir(data) && p == #[trigger] joined(data, name)
}

/// `p` is the file `name` inside a runtime directory.
pub open spec fn in_runtime_dir(p: PathBuf, name: Seq<char>) -> bool {
    exists|dir: PathBuf| is_runtime_dir(dir) && p == #[trigger] joined(dir, name)
}

/// `preferred`, else `home`, else the current directory.
fn dir_or_home(preferred: Option<PathBuf>, home: Option<PathBuf>) -> (res: PathBuf)
    ensures
        res == first_dir(preferred, home),
{
    match preferred {
        Some(dir) => dir,
        None => match home {
            Some(h) => h,
            None => path_from("."),
        },
    }
}

/// The data directory, given the local data directory and the home
/// directory as the environment reports them.
pub fn data_dir_from(local: Option<PathBuf>, home: Option<PathBuf>) -> (res: PathBuf)
    ensures
        res == data_dir_of(local, home),
{
    path_join(&dir_or_home(local, home), "clipd")
}

/// The runtime directory, given the platform's runtime directory and the
/// data directory.
pub fn runtime_dir_from(runtime: Option<PathBuf>, data: PathBuf) -> (res: PathBuf)
    ensures
        res == runtime_dir_of(runtime, data),
{
    match runtime {
        Some(dir) => path_join(&dir, "clipd"),
        None => path_join(&data, "clipd"),
    }
}

/// The configuration file, given the configuration directory and the home
/// directory as the environment reports them.
pub fn config_path_from(config: Option<PathBuf>, home: Option<PathBuf>) -> (res: PathBuf)
    ensures
        res == config_path_of(config, home),
{
    path_join(&path_join(&dir_or_home(config, home), "clipd"), "config.toml")
}

/// The home directory, asked for only where `preferred` is missing.
fn home_unless(preferred: &Option<PathBuf>) -> (res: Option<PathBuf>)
    ensures
        preferred is Some ==> res is None,
{
    if preferred.is_some() {
        None
    } else {
        dirs::home_dir()
    }
}

/// Returns `<local data dir>/clipd` (falling back to the home directory,
/// then the current directory).
pub fn data_dir() -> (res: PathBuf)
    ensures
        is_data_dir(res),
{
    let local = dirs::data_local_dir();
    let home = home_unless(&local);
    data_dir_from(local, home)
}

/// Returns a suitable runtime directory for PID files: `<runtime dir>/clipd`,
/// or `clipd` inside the data directory where there is no runtime directory.
pub fn runtime_dir() -> (res: PathBuf)
    ensures
        is_runtime_dir(res),
{
    let runtime = dirs::runtime_dir();
    let data = data_dir();
    runtime_dir_from(runtime, data)
}

/// Returns `<config dir>/clipd/config.toml` (falling back to the home
/// directory, then the current directory).
pub fn config_path() -> (res: PathBuf)
    ensures
        is_config_path(res),
{
    let config = dirs::config_dir();
    let home = home_unless(&config);
    config_path_from(config, home)
}

/// `history.db` inside the data directory.
pub fn default_db_path() -> (res: PathBuf)
    ensures
        in_data_dir(res, "history.db"@),
{
    path_join(&data_dir(), "history.db")
}

/// `clipd.pid` inside the runtime directory.
pub fn default_pid_path() -> (res: PathBuf)
    ensures
        in_runtime_dir(res, "clipd.pid"@),
{
    path_join(&runtime_dir(), "clipd.pid")
}

/// `clipd.log` inside the data directory.
pub fn default_log_path() -> (res: PathBuf)
    ensures
        in_data_dir(res, "clipd.log"@),
{
    path_join(&data_dir(), "clipd.log")
}

/// Top-level configuration for clipd. All fields have defaults, so a fresh
/// install works without any configuration.
#[derive(Debug, Clone)]
pub struct Config {
    /// How often (milliseconds) to poll the clipboard for changes.
    pub poll_interval_ms: u64,
    /// Maximum number of non-pinned history entries to retain.
    pub max_history: usize,
    /// Where the SQLite database lives.
    pub db_path: PathBuf,
    /// PID file path (used for daemon management).
    pub pid_path: PathBuf,
    /// Log file path.
    pub log_path: PathBuf,
    /// Minimum content length to capture (filters accidental single-char copies).
    pub min_content_len: usize,
    /// Applications to ignore (e.g. password managers), matched
    /// case-insensitively against the source application name.
    pub ignored_apps: Vec<String>,
}

/// The views of a vector of texts.
pub open spec fn texts(v: Seq<String>) -> Seq<Seq<char>> {
    v.map_values(|s: String| s@)
}

/// The applications ignored out of the box: common password managers,
/// whose content should never be stored.
pub open spec fn default_ignored_apps() -> Seq<Seq<char>> {
    seq!["1Password"@, "Bitwarden"@, "LastPass"@, "KeePassXC"@, "Keychain"@]
}

/// `app` is ignored under the list `ignored`: its lowercase name contains
/// the lowercase form of some entry.
pub open spec fn ignores_app(ignored: Seq<Seq<char>>, app: Seq<char>) -> bool {
    exists|i: int|
        0 <= i < ignored.len() && has_substring(lowercased(app), lowercased(#[trigger] ignored[i]))
}

pub fn default_poll_interval_ms() -> (res: u64)
    ensures
        res == 500,
{
    500
}

pub fn default_max_history() -> (res: usize)
    ensures
        res == 10_000,
{
    10_000
}

pub fn default_min_content_len() -> (res: usize)
    ensures
        res == 1,
{
    1
}

impl Default for Config {
    fn default() -> (res: Self)
        ensures
            res.poll_interval_ms == 500,
            res.max_history == 10_000,
            res.min_content_len == 1,
            texts(res.ignored_apps@) == default_ignored_apps(),
            in_data_dir(res.db_path, "history.db"@),
            in_runtime_dir(res.pid_path, "clipd.pid"@),
            in_data_dir(res.log_path, "clipd.log"@),
    {
        let ignored_apps = vec![
            String::from_str("1Password"),
            String::from_str("Bitwarden"),
            String::from_str("LastPass"),
            String::from_str("KeePassXC"),
            String::from_str("Keychain"),
        ];
        assert(texts(ignored_apps@) =~= default_ignored_apps());
        Config {
            poll_interval_ms: default_poll_interval_ms(),
            max_history: default_max_history(),
            db_path: default_db_path(),
            pid_path: default_pid_path(),
            log_path: default_log_path(),
            min_content_len: default_min_content_len(),
            ignored_apps,
        }
    }
}

impl Config {
    /// Returns true if the given app name should be ignored.
    pub fn should_ignore_app(&self, app: &str) -> (res: bool)
        ensures
            res == ignores_app(texts(self.ignored_apps@), app@),
    {
        let lower_string = to_lowercase(app);
        let lower = chars_of(lower_string.as_str());
        let mut i: usize = 0;
        while i < self.ignored_apps.len()
            invariant
                i <= self.ignored_apps.len(),
                lower@ == lowercased(app@),
                forall|k: int|
                    0 <= k < i ==> !has_substring(
                        lowercased(app@),
                        lowercased(#[trigger] texts(self.ignored_apps@)[k]),
                    ),
            decreases self.ignored_apps.len() - i,
        {
            let ignored_lower = to_lowercase(self.ignored_apps[i].as_str());
            let needle = chars_of(ignored_lower.as_str());
            assert(texts(self.ignored_apps@)[i as int] == self.ignored_apps@[i as int]@);
            if contains_seq(&lower, &needle) {
                return true;
            }
            i = i + 1;
        }
        false
    }
}

/// Ignoring is case-insensitive: two application names with the same
/// lowercase form are ignored alike.
pub proof fn lemma_ignore_case_insensitive(ignored: Seq<Seq<char>>, a: Seq<char>, b: Seq<char>)
    requires
        lowercased(a) == lowercased(b),
    ensures
        ignores_app(ignored, a) == ignores_app(ignored, b),
{
}

/// Ignoring matches anywhere in the name: an application is ignored
/// exactly when the lowercase form of some entry of the list occurs, at
/// some position, in the lowercase form of its name (so `KeePassXC` ignores
/// `Passwords.kdbx - KeePassXC`).
pub proof fn lemma_ignored_where_entry_occurs(ignored: Seq<Seq<char>>, app: Seq<char>, i: int, k: int)
    ensures
        (0 <= i < ignored.len() && 0 <= k && k + lowercased(ignored[i]).len() <= lowercased(
            app,
        ).len() && lowercased(app).subrange(k, k + lowercased(ignored[i]).len()) == lowercased(
            ignored[i],
        )) ==> ignores_app(ignored, app),
        ignores_app(ignored, app) ==> exists|j: int, m: int|
            0 <= j < ignored.len() && 0 <= m && m + lowercased(ignored[j]).len() <= lowercased(
                app,
            ).len() && #[trigger] lowercased(app).subrange(m, m + lowercased(ignored[j]).len())
                == #[trigger] lowercased(ignored[j]),
{
    if 0 <= i < ignored.len() && 0 <= k && k + lowercased(ignored[i]).len() <= lowercased(app).len()
        && lowercased(app).subrange(k, k + lowercased(ignored[i]).len()) == lowercased(ignored[i]) {
        assert(occurs_at(lowercased(app), lowercased(ignored[i]), k));
    }
    if ignores_app(ignored, app) {
        let j = choose|j: int|
            0 <= j < ignored.len() && has_substring(lowercased(app), lowercased(#[trigger] ignored[j]));
        let m = choose|m: int| #[trigger] occurs_at(lowercased(app), lowercased(ignored[j]), m);
        assert(lowercased(app).subrange(m, m + lowercased(ignored[j]).len()) == lowercased(ignored[j]));
    }
}

} // verus!
