//! The settings of the diary and their defaults.
use vstd::prelude::*;

use crate::text::{copy_string, push_char, push_str, to_owned_string};

verus! {

// ---------------------------------------------------------------------------
// Paths
// ---------------------------------------------------------------------------

/// `Path::join` on Unix: an absolute `part` replaces `base`; otherwise a `/`
/// goes between them unless `base` is empty or already ends in one.
pub open spec fn path_join_spec(base: Seq<char>, part: Seq<char>) -> Seq<char> {
    if part.len() > 0 && part[0] == '/' {
        part
    } else if base.len() > 0 && base.last() != '/' {
        base + seq!['/'] + part
    } else {
        base + part
    }
}

/// `Path::new(base).join(part)` for Unix paths held as text.
pub fn path_join(base: &str, part: &str) -> (r: String)
    ensures
        r@ == path_join_spec(base@, part@),
{
    let b = crate::text::str_chars(base);
    let p = crate::text::str_chars(part);
    if p.len() > 0 && p[0] == '/' {
        return to_owned_string(part);
    }
    let mut r = to_owned_string(base);
    if b.len() > 0 && b[b.len() - 1] != '/' {
        push_char(&mut r, '/');
    }
    push_str(&mut r, part);
    r
}

/// The user's home directory (`dirs::home_dir`), as text. Nothing is stated
/// of it: it comes from the environment.
#[verifier::external_body]
fn home_dir() -> (r: Option<String>) {
    dirs::home_dir().map(|p| p.to_string_lossy().into_owned())
}

/// The user's configuration directory (`dirs::config_dir`), as text.
/// Nothing is stated of it: it comes from the environment.
#[verifier::external_body]
fn config_dir() -> (r: Option<String>) {
    dirs::config_dir().map(|p| p.to_string_lossy().into_owned())
}

// ---------------------------------------------------------------------------
// Defaults
// ---------------------------------------------------------------------------

/// The default bucket of the S3 copies.
pub fn default_diary_bucket() -> (r: String)
    ensures
        r@ == "diary_bucket"@,
{
    to_owned_string("diary_bucket")
}

/// The default address the web front end listens on.
pub fn default_host() -> (r: String)
    ensures
        r@ == "0.0.0.0"@,
{
    to_owned_string("0.0.0.0")
}

/// The default port of the web front end.
pub fn default_port() -> (r: u32)
    ensures
        r == 3042,
{
    3042
}

/// The default domain of the web front end.
pub fn default_domain() -> (r: String)
    ensures
        r@ == "localhost"@,
{
    to_owned_string("localhost")
}

/// The default number of database connections.
pub fn default_n_db_workers() -> (r: usize)
    ensures
        r == 2,
{
    2
}

/// The default AWS region.
pub fn default_aws_region_name() -> (r: String)
    ensures
        r@ == "us-east-1"@,
{
    to_owned_string("us-east-1")
}

/// `{home}/Dropbox/epistle`, the diary directory under a home directory.
pub open spec fn diary_path_spec(home: Seq<char>) -> Seq<char> {
    path_join_spec(path_join_spec(home, "Dropbox"@), "epistle"@)
}

/// The diary directory under the home directory `home`.
pub fn diary_path_under(home: &str) -> (r: String)
    ensures
        r@ == diary_path_spec(home@),
{
    let d = path_join(home, "Dropbox");
    path_join(d.as_str(), "epistle")
}

/// The default diary directory, `Dropbox/epistle` under the home directory;
/// none when the home directory cannot be determined.
pub fn default_diary_path() -> (r: Option<String>)
    ensures
        r matches Some(p) ==> exists|h: Seq<char>| p@ == diary_path_spec(h),
{
    match home_dir() {
        Some(h) => Some(diary_path_under(h.as_str())),
        None => None,
    }
}

/// The default home directory; none when it cannot be determined.
pub fn default_home_dir() -> (r: Option<String>) {
    home_dir()
}

/// `{config}/aws_app_rust/secret.bin`, the secret under a configuration
/// directory.
pub open spec fn secret_path_spec(config: Seq<char>) -> Seq<char> {
    path_join_spec(path_join_spec(config, "aws_app_rust"@), "secret.bin"@)
}

/// The secret file under the configuration directory `config`.
pub fn secret_path_under(config: &str) -> (r: String)
    ensures
        r@ == secret_path_spec(config@),
{
    let d = path_join(config, "aws_app_rust");
    path_join(d.as_str(), "secret.bin")
}

/// The default secret file, `aws_app_rust/secret.bin` under the
/// configuration directory; none when that directory cannot be determined.
pub fn default_secret_path() -> (r: Option<String>)
    ensures
        r matches Some(p) ==> exists|c: Seq<char>| p@ == secret_path_spec(c),
{
    match config_dir() {
        Some(c) => Some(secret_path_under(c.as_str())),
        None => None,
    }
}

/// The environment file read at start: `config.env` in the working
/// directory when it exists, else `diary_app_rust/config.env` under the
/// configuration directory (`./` when there is none).
pub open spec fn env_file_spec(local_exists: bool, config: Option<Seq<char>>) -> Seq<char> {
    if local_exists {
        "config.env"@
    } else {
        let dir = match config {
            Some(c) => c,
            None => "./"@,
        };
        path_join_spec(path_join_spec(dir, "diary_app_rust"@), "config.env"@)
    }
}

/// Chooses the environment file to read, given whether `config.env` exists
/// in the working directory and the configuration directory.
pub fn env_file_path(local_exists: bool, config: Option<&str>) -> (r: String)
    ensures
        r@ == env_file_spec(local_exists, match config {
            Some(c) => Some(c@),
            None => None,
        }),
{
    if local_exists {
        return to_owned_string("config.env");
    }
    let dir = match config {
        Some(c) => c,
        None => "./",
    };
    let d = path_join(dir, "diary_app_rust");
    path_join(d.as_str(), "config.env")
}

/// The configuration directory, if it can be determined.
pub fn user_config_dir() -> (r: Option<String>) {
    config_dir()
}

// ---------------------------------------------------------------------------
// The settings
// ---------------------------------------------------------------------------

/// The settings of the diary, paths held as text.
#[derive(Debug)]
pub struct ConfigInner {
    pub database_url: String,
    pub diary_bucket: String,
    pub diary_path: String,
    pub aws_region_name: String,
    pub telegram_bot_token: String,
    pub ssh_url: Option<String>,
    pub host: String,
    pub port: u32,
    pub domain: String,
    pub n_db_workers: usize,
    pub home_dir: String,
    pub secret_path: String,
    pub jwt_secret_path: String,
}

impl Default for ConfigInner {
    /// Empty texts, no SSH URL, zero port and workers.
    fn default() -> (r: ConfigInner)
        ensures
            r.database_url@.len() == 0,
            r.diary_bucket@.len() == 0,
            r.diary_path@.len() == 0,
            r.aws_region_name@.len() == 0,
            r.telegram_bot_token@.len() == 0,
            r.ssh_url is None,
            r.host@.len() == 0,
            r.port == 0,
            r.domain@.len() == 0,
            r.n_db_workers == 0,
            r.home_dir@.len() == 0,
            r.secret_path@.len() == 0,
            r.jwt_secret_path@.len() == 0,
    {
        ConfigInner {
            database_url: String::new(),
            diary_bucket: String::new(),
            diary_path: String::new(),
            aws_region_name: String::new(),
            telegram_bot_token: String::new(),
            ssh_url: None,
            host: String::new(),
            port: 0,
            domain: String::new(),
            n_db_workers: 0,
            home_dir: String::new(),
            secret_path: String::new(),
            jwt_secret_path: String::new(),
        }
    }
}

impl ConfigInner {
    /// The settings for a run on a scratch directory: the diary lives in
    /// `tempdir` and nothing is fetched over SSH.
    pub fn local_config(&self, tempdir: &str) -> (r: ConfigInner)
        ensures
            r.diary_path@ == tempdir@,
            r.ssh_url is None,
            r.database_url@ == self.database_url@,
            r.diary_bucket@ == self.diary_bucket@,
            r.aws_region_name@ == self.aws_region_name@,
            r.telegram_bot_token@ == self.telegram_bot_token@,
            r.host@ == self.host@,
            r.port == self.port,
            r.domain@ == self.domain@,
            r.n_db_workers == self.n_db_workers,
            r.home_dir@ == self.home_dir@,
            r.secret_path@ == self.secret_path@,
            r.jwt_secret_path@ == self.jwt_secret_path@,
    {
        ConfigInner {
            database_url: copy_string(&self.database_url),
            diary_bucket: copy_string(&self.diary_bucket),
            diary_path: to_owned_string(tempdir),
            aws_region_name: copy_string(&self.aws_region_name),
            telegram_bot_token: copy_string(&self.telegram_bot_token),
            ssh_url: None,
            host: copy_string(&self.host),
            port: self.port,
            domain: copy_string(&self.domain),
            n_db_workers: self.n_db_workers,
            home_dir: copy_string(&self.home_dir),
            secret_path: copy_string(&self.secret_path),
            jwt_secret_path: copy_string(&self.jwt_secret_path),
        }
    }
}

} // verus!
