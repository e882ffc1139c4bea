//! Settings: which remote is active, what `config.json` holds, how the
//! WebDAV and GitHub settings are read back from it and the credential
//! store, and how saving one side leaves the other alone.
use vstd::prelude::*;
use crate::github::{GitHubConfig, DEFAULT_BRANCH};
use crate::sync::SyncStatus;
use crate::text::{compare_text, push_str, TextOrder};
use crate::webdav::CloudConfig;

verus! {

/// Credential-store service of the WebDAV application password.
pub const CLOUD_PASSWORD_SERVICE: &'static str = "com.promptpocket.webdav";

/// Credential-store service of the GitHub token.
pub const GITHUB_TOKEN_SERVICE: &'static str = "com.promptpocket.github";

/// The remote root used when none is saved.
pub const DEFAULT_REMOTE_ROOT: &'static str = "PromptPocket";

/// What a settings form sends to keep the saved secret.
pub const KEEP_SECRET: &'static str = "__KEEP__";

pub const CLOUD_KEYRING_WARNING: &'static str = "系统凭据库不可用：密码仅本次会话保留，重启后需重新填写";

pub const GITHUB_KEYRING_WARNING: &'static str = "系统凭据库不可用：PAT 仅本次会话保留，重启后需重新填写";

pub const CLOUD_NOT_CONFIGURED: &'static str = "未配置坚果云同步";

pub const GITHUB_NOT_CONFIGURED: &'static str = "未配置 GitHub 存档（需仓库和 PAT）";

pub const LOCAL_IO_BUSY: &'static str = "正在同步中，请稍候再编辑";

pub const SYNC_BUSY: &'static str = "正在同步中，请稍候";

/// The contents of `config.json`. The two secrets appear only when read
/// from an older file; they are never written back.
#[derive(Debug, Clone)]
pub struct PersistedConfig {
    pub username: Option<String>,
    pub password: Option<String>,
    pub remote_root: Option<String>,
    /// Whether WebDAV synchronisation is on. Older files hold only this
    /// flag, for both remotes.
    pub enabled: Option<bool>,
    /// Local folder of old versions; no longer used.
    pub data_dir: Option<String>,
    /// `webdav` (the default) or `github`.
    pub provider: Option<String>,
    pub gh_repo: Option<String>,
    pub gh_branch: Option<String>,
    pub gh_prefix: Option<String>,
    pub gh_token: Option<String>,
    /// Whether GitHub synchronisation is on; where it is missing, the
    /// shared `enabled` of an older file stands for it.
    pub gh_enabled: Option<bool>,
}

impl Default for PersistedConfig {
    fn default() -> (r: PersistedConfig)
        ensures
            r.username is None,
            r.password is None,
            r.remote_root is None,
            r.enabled is None,
            r.data_dir is None,
            r.provider is None,
            r.gh_repo is None,
            r.gh_branch is None,
            r.gh_prefix is None,
            r.gh_token is None,
            r.gh_enabled is None,
    {
        PersistedConfig {
            username: None,
            password: None,
            remote_root: None,
            enabled: None,
            data_dir: None,
            provider: None,
            gh_repo: None,
            gh_branch: None,
            gh_prefix: None,
            gh_token: None,
            gh_enabled: None,
        }
    }
}

/// The remote that synchronisation uses.
#[derive(Debug, Clone, Copy, PartialEq, Eq, Structural)]
pub enum SyncProvider {
    WebDav,
    GitHub,
}

/// The provider that a saved name selects: `github` selects GitHub, any
/// other text WebDAV.
pub open spec fn provider_of(s: Seq<char>) -> SyncProvider {
    if s == "github"@ {
        SyncProvider::GitHub
    } else {
        SyncProvider::WebDav
    }
}

/// The saved name of a provider.
pub open spec fn provider_name(p: SyncProvider) -> Seq<char> {
    match p {
        SyncProvider::WebDav => "webdav"@,
        SyncProvider::GitHub => "github"@,
    }
}

fn same_text(a: &str, b: &str) -> (r: bool)
    ensures
        r == (a@ == b@),
{
    compare_text(a, b) == TextOrder::Equal
}

impl SyncProvider {
    /// The provider a saved name selects (WebDAV unless it reads `github`).
    pub fn parse(s: &str) -> (r: SyncProvider)
        ensures
            r == provider_of(s@),
    {
        if same_text(s, "github") {
            SyncProvider::GitHub
        } else {
            SyncProvider::WebDav
        }
    }

    /// The name under which the provider is saved.
    pub fn as_str(self) -> (r: &'static str)
        ensures
            r@ == provider_name(self),
    {
        match self {
            SyncProvider::WebDav => "webdav",
            SyncProvider::GitHub => "github",
        }
    }
}

/// Reading back the saved name of a provider gives that provider.
pub proof fn law_provider_name_roundtrip(p: SyncProvider)
    ensures
        provider_of(provider_name(p)) == p,
{
    reveal_strlit("webdav");
    reveal_strlit("github");
    if p == SyncProvider::WebDav {
        assert("webdav"@[0] != "github"@[0]);
    }
}

/// The provider chosen in the settings: only `webdav` and `github` are known.
pub open spec fn provider_choice_text(s: Seq<char>) -> Result<SyncProvider, Seq<char>> {
    if s == "webdav"@ || s == "github"@ {
        Ok(provider_of(s))
    } else {
        Err("未知同步后端: "@ + s)
    }
}

/// The provider chosen in the settings, or an error for an unknown name.
pub fn provider_choice(s: &str) -> (r: Result<SyncProvider, String>)
    ensures
        match (r, provider_choice_text(s@)) {
            (Ok(p), Ok(q)) => p == q,
            (Err(e), Err(f)) => e@ == f,
            _ => false,
        },
{
    if same_text(s, "webdav") || same_text(s, "github") {
        Ok(SyncProvider::parse(s))
    } else {
        let mut out = String::from_str("未知同步后端: ");
        push_str(&mut out, s);
        Err(out)
    }
}

/// The provider saved in the settings file; WebDAV when there is none.
pub open spec fn saved_provider(parsed: Option<PersistedConfig>) -> SyncProvider {
    match parsed {
        Some(p) => match p.provider {
            Some(s) => provider_of(s@),
            None => SyncProvider::WebDav,
        },
        None => SyncProvider::WebDav,
    }
}

/// The provider saved in the settings file (`parsed` is `None` when it is
/// missing or unreadable).
pub fn loaded_provider(parsed: &Option<PersistedConfig>) -> (r: SyncProvider)
    ensures
        r == saved_provider(*parsed),
{
    match parsed {
        Some(p) => match &p.provider {
            Some(s) => SyncProvider::parse(s.as_str()),
            None => SyncProvider::WebDav,
        },
        None => SyncProvider::WebDav,
    }
}

/// An optional text field of the settings, as a plain value.
pub open spec fn opt_text(o: Option<String>) -> Option<Seq<char>> {
    match o {
        Some(s) => Some(s@),
        None => None,
    }
}

/// The secret that loading settles on: the one in the credential store, or
/// else the one left in the settings file, or else none. The store is not
/// asked when `key` is empty.
pub open spec fn settled_secret(
    key: Seq<char>,
    stored: Result<Option<Seq<char>>, Seq<char>>,
    legacy: Option<Seq<char>>,
) -> Seq<char> {
    match (if key.len() == 0 { Ok(None) } else { stored }) {
        Ok(Some(s)) => s,
        _ => match legacy {
            Some(l) => l,
            None => Seq::empty(),
        },
    }
}

/// The secret left in the settings file goes into the credential store when
/// the store has none for `key` (and was asked), and then out of the file.
pub open spec fn secret_to_migrate(
    key: Seq<char>,
    stored: Result<Option<Seq<char>>, Seq<char>>,
    legacy: Option<Seq<char>>,
) -> Option<Seq<char>> {
    if key.len() > 0 && stored == Ok::<Option<Seq<char>>, Seq<char>>(None) {
        legacy
    } else {
        None
    }
}

/// The credential-store answer as plain values.
pub open spec fn stored_view(r: Result<Option<String>, String>) -> Result<Option<Seq<char>>, Seq<char>> {
    match r {
        Ok(Some(s)) => Ok(Some(s@)),
        Ok(None) => Ok(None),
        Err(e) => Err(e@),
    }
}

fn text_or(o: &Option<String>, d: &str) -> (r: String)
    ensures
        r@ == (match opt_text(*o) {
            Some(s) => s,
            None => d@,
        }),
{
    match o {
        Some(s) => s.clone(),
        None => String::from_str(d),
    }
}

fn text_or_empty(o: &Option<String>) -> (r: String)
    ensures
        r@ == (match opt_text(*o) {
            Some(s) => s,
            None => Seq::<char>::empty(),
        }),
{
    match o {
        Some(s) => s.clone(),
        None => String::new(),
    }
}

fn settle_secret(key: &str, stored: &Result<Option<String>, String>, legacy: &Option<String>) -> (r: String)
    ensures
        r@ == settled_secret(key@, stored_view(*stored), opt_text(*legacy)),
{
    if !key.is_empty() {
        match stored {
            Ok(Some(s)) => {
                return s.clone();
            },
            _ => {},
        }
    }
    text_or_empty(legacy)
}

/// The key under which the credential store keeps the secret: the
/// WebDAV user name, or the GitHub repository.
pub open spec fn cloud_key(parsed: Option<PersistedConfig>) -> Seq<char> {
    match parsed {
        Some(p) => match opt_text(p.username) {
            Some(u) => u,
            None => Seq::empty(),
        },
        None => Seq::empty(),
    }
}

pub open spec fn github_key(parsed: Option<PersistedConfig>) -> Seq<char> {
    match parsed {
        Some(p) => match opt_text(p.gh_repo) {
            Some(u) => u,
            None => Seq::empty(),
        },
        None => Seq::empty(),
    }
}

/// The user name that the credential store is asked about; the store is
/// not asked when it is empty.
pub fn cloud_secret_key(parsed: &Option<PersistedConfig>) -> (r: String)
    ensures
        r@ == cloud_key(*parsed),
{
    match parsed {
        Some(p) => text_or_empty(&p.username),
        None => String::new(),
    }
}

/// The repository that the credential store is asked about; the store is
/// not asked when it is empty.
pub fn github_secret_key(parsed: &Option<PersistedConfig>) -> (r: String)
    ensures
        r@ == github_key(*parsed),
{
    match parsed {
        Some(p) => text_or_empty(&p.gh_repo),
        None => String::new(),
    }
}

/// The WebDAV settings as loaded, as plain values: user name, password,
/// remote root (`PromptPocket` when unset) and whether it is enabled
/// (`false` when unset).
pub open spec fn loaded_cloud(
    parsed: Option<PersistedConfig>,
    stored: Result<Option<Seq<char>>, Seq<char>>,
) -> (Seq<char>, Seq<char>, Seq<char>, bool) {
    match parsed {
        None => (Seq::empty(), settled_secret(Seq::empty(), stored, None), DEFAULT_REMOTE_ROOT@, false),
        Some(p) => (
            cloud_key(parsed),
            settled_secret(cloud_key(parsed), stored, opt_text(p.password)),
            match opt_text(p.remote_root) {
                Some(r) => r,
                None => DEFAULT_REMOTE_ROOT@,
            },
            match p.enabled {
                Some(b) => b,
                None => false,
            },
        ),
    }
}

/// The WebDAV settings as plain values.
pub open spec fn cloud_view(c: CloudConfig) -> (Seq<char>, Seq<char>, Seq<char>, bool) {
    (c.username@, c.password@, c.remote_root@, c.enabled)
}

/// The WebDAV settings loaded from the settings file (`None` when missing
/// or unreadable) and from the credential store's answer `stored` for the
/// user name.
pub fn cloud_config_from(parsed: &Option<PersistedConfig>, stored: &Result<Option<String>, String>) -> (r: CloudConfig)
    ensures
        cloud_view(r) == loaded_cloud(*parsed, stored_view(*stored)),
{
    match parsed {
        None => CloudConfig {
            username: String::new(),
            password: settle_secret(String::new().as_str(), stored, &None),
            remote_root: String::from_str(DEFAULT_REMOTE_ROOT),
            enabled: false,
        },
        Some(p) => {
            let username = text_or_empty(&p.username);
            let password = settle_secret(username.as_str(), stored, &p.password);
            CloudConfig {
                username,
                password,
                remote_root: text_or(&p.remote_root, DEFAULT_REMOTE_ROOT),
                enabled: match p.enabled {
                    Some(b) => b,
                    None => false,
                },
            }
        },
    }
}

/// The password left in an older settings file that is to move into the
/// credential store, given the store's answer for the user name.
pub fn cloud_password_to_migrate(parsed: &Option<PersistedConfig>, stored: &Result<Option<String>, String>) -> (r: Option<String>)
    ensures
        opt_text(r) == (match parsed {
            Some(p) => secret_to_migrate(cloud_key(*parsed), stored_view(*stored), opt_text(p.password)),
            None => None,
        }),
{
    match parsed {
        None => None,
        Some(p) => {
            let key = text_or_empty(&p.username);
            match stored {
                Ok(None) => if key.as_str().is_empty() {
                    None
                } else {
                    p.password.clone()
                },
                _ => None,
            }
        },
    }
}

/// The GitHub settings as loaded, as plain values: repository, branch
/// (`main` when unset or empty), folder, token and whether it is enabled.
pub open spec fn loaded_github(
    parsed: Option<PersistedConfig>,
    stored: Result<Option<Seq<char>>, Seq<char>>,
) -> (Seq<char>, Seq<char>, Seq<char>, Seq<char>, bool) {
    match parsed {
        None => (Seq::empty(), DEFAULT_BRANCH@, Seq::empty(), settled_secret(Seq::empty(), stored, None), false),
        Some(p) => (
            github_key(parsed),
            match opt_text(p.gh_branch) {
                Some(b) => if b.len() > 0 {
                    b
                } else {
                    DEFAULT_BRANCH@
                },
                None => DEFAULT_BRANCH@,
            },
            match opt_text(p.gh_prefix) {
                Some(x) => x,
                None => Seq::empty(),
            },
            settled_secret(github_key(parsed), stored, opt_text(p.gh_token)),
            github_enabled(p),
        ),
    }
}

/// Whether GitHub synchronisation is on in the settings file `p`: its own
/// flag, or else the shared flag of an older file, or else off.
pub open spec fn github_enabled(p: PersistedConfig) -> bool {
    match p.gh_enabled {
        Some(b) => b,
        None => match p.enabled {
            Some(b) => b,
            None => false,
        },
    }
}

fn github_enabled_of(p: &PersistedConfig) -> (r: bool)
    ensures
        r == github_enabled(*p),
{
    match p.gh_enabled {
        Some(b) => b,
        None => match p.enabled {
            Some(b) => b,
            None => false,
        },
    }
}

/// The GitHub settings as plain values.
pub open spec fn github_view(c: GitHubConfig) -> (Seq<char>, Seq<char>, Seq<char>, Seq<char>, bool) {
    (c.repo@, c.branch@, c.prefix@, c.token@, c.enabled)
}

/// The GitHub settings loaded from the settings file and from the
/// credential store's answer `stored` for the repository.
pub fn github_config_from(parsed: &Option<PersistedConfig>, stored: &Result<Option<String>, String>) -> (r: GitHubConfig)
    ensures
        github_view(r) == loaded_github(*parsed, stored_view(*stored)),
{
    match parsed {
        None => GitHubConfig {
            repo: String::new(),
            branch: String::from_str(DEFAULT_BRANCH),
            prefix: String::new(),
            token: settle_secret(String::new().as_str(), stored, &None),
            enabled: false,
        },
        Some(p) => {
            let repo = text_or_empty(&p.gh_repo);
            let token = settle_secret(repo.as_str(), stored, &p.gh_token);
            let branch = match &p.gh_branch {
                Some(b) => if b.as_str().is_empty() {
                    String::from_str(DEFAULT_BRANCH)
                } else {
                    b.clone()
                },
                None => String::from_str(DEFAULT_BRANCH),
            };
            GitHubConfig {
                repo,
                branch,
                prefix: text_or_empty(&p.gh_prefix),
                token,
                enabled: github_enabled_of(p),
            }
        },
    }
}

/// The token left in the settings file that is to move into the credential
/// store, given the store's answer for the repository.
pub fn github_token_to_migrate(parsed: &Option<PersistedConfig>, stored: &Result<Option<String>, String>) -> (r: Option<String>)
    ensures
        opt_text(r) == (match parsed {
            Some(p) => secret_to_migrate(github_key(*parsed), stored_view(*stored), opt_text(p.gh_token)),
            None => None,
        }),
{
    match parsed {
        None => None,
        Some(p) => {
            let key = text_or_empty(&p.gh_repo);
            match stored {
                Ok(None) => if key.as_str().is_empty() {
                    None
                } else {
                    p.gh_token.clone()
                },
                _ => None,
            }
        },
    }
}

/// The settings file after saving the WebDAV settings `cfg`: its fields are
/// set, the password is taken out, the GitHub flag that the file implied is
/// written down as GitHub's own, everything else is kept.
pub open spec fn cloud_saved(p: PersistedConfig, cfg: CloudConfig) -> PersistedConfig {
    PersistedConfig {
        username: Some(cfg.username),
        password: None,
        remote_root: Some(cfg.remote_root),
        enabled: Some(cfg.enabled),
        gh_enabled: Some(github_enabled(p)),
        ..p
    }
}

/// The settings file after saving the GitHub settings `cfg`: its fields and
/// its own flag are set, the token is taken out, everything else is kept.
pub open spec fn github_saved(p: PersistedConfig, cfg: GitHubConfig) -> PersistedConfig {
    PersistedConfig {
        gh_repo: Some(cfg.repo),
        gh_branch: Some(cfg.branch),
        gh_prefix: Some(cfg.prefix),
        gh_enabled: Some(cfg.enabled),
        gh_token: None,
        ..p
    }
}

/// The settings file `p` after saving the WebDAV settings `cfg`.
pub fn with_cloud_fields(p: PersistedConfig, cfg: &CloudConfig) -> (r: PersistedConfig)
    ensures
        r == cloud_saved(p, *cfg),
{
    let gh_enabled = Some(github_enabled_of(&p));
    PersistedConfig {
        username: Some(cfg.username.clone()),
        password: None,
        remote_root: Some(cfg.remote_root.clone()),
        enabled: Some(cfg.enabled),
        gh_enabled,
        ..p
    }
}

/// The settings file `p` after saving the GitHub settings `cfg`.
pub fn with_github_fields(p: PersistedConfig, cfg: &GitHubConfig) -> (r: PersistedConfig)
    ensures
        r == github_saved(p, *cfg),
{
    PersistedConfig {
        gh_repo: Some(cfg.repo.clone()),
        gh_branch: Some(cfg.branch.clone()),
        gh_prefix: Some(cfg.prefix.clone()),
        gh_enabled: Some(cfg.enabled),
        gh_token: None,
        ..p
    }
}

/// The settings file after choosing the provider `provider`.
pub fn with_provider(p: PersistedConfig, provider: SyncProvider) -> (r: PersistedConfig)
    ensures
        opt_text(r.provider) == Some(provider_name(provider)),
        r.username == p.username,
        r.password == p.password,
        r.remote_root == p.remote_root,
        r.enabled == p.enabled,
        r.data_dir == p.data_dir,
        r.gh_repo == p.gh_repo,
        r.gh_branch == p.gh_branch,
        r.gh_prefix == p.gh_prefix,
        r.gh_token == p.gh_token,
        r.gh_enabled == p.gh_enabled,
{
    PersistedConfig { provider: Some(String::from_str(provider.as_str())), ..p }
}

/// The settings file once the password left in it has moved to the
/// credential store.
pub fn without_password(p: PersistedConfig) -> (r: PersistedConfig)
    ensures
        r == (PersistedConfig { password: None, ..p }),
{
    PersistedConfig { password: None, ..p }
}

/// The settings file once the token left in it has moved to the
/// credential store.
pub fn without_gh_token(p: PersistedConfig) -> (r: PersistedConfig)
    ensures
        r == (PersistedConfig { gh_token: None, ..p }),
{
    PersistedConfig { gh_token: None, ..p }
}

/// The credential store is written only with a key and a secret.
pub fn secret_write_needed(key: &str, secret: &str) -> (r: bool)
    ensures
        r == (key@.len() > 0 && secret@.len() > 0),
{
    !key.is_empty() && !secret.is_empty()
}

/// Saving the WebDAV settings goes on when the credential store fails: the
/// password then lives for this session only, which this warning says.
pub fn cloud_keyring_warning(write: &Result<(), String>) -> (r: Option<String>)
    ensures
        write is Ok ==> r is None,
        write is Err ==> opt_text(r) == Some(CLOUD_KEYRING_WARNING@),
{
    match write {
        Ok(()) => None,
        Err(_) => Some(String::from_str(CLOUD_KEYRING_WARNING)),
    }
}

/// Saving the GitHub settings goes on when the credential store fails: the
/// token then lives for this session only, which this warning says.
pub fn github_keyring_warning(write: &Result<(), String>) -> (r: Option<String>)
    ensures
        write is Ok ==> r is None,
        write is Err ==> opt_text(r) == Some(GITHUB_KEYRING_WARNING@),
{
    match write {
        Ok(()) => None,
        Err(_) => Some(String::from_str(GITHUB_KEYRING_WARNING)),
    }
}

/// The secret to save from a settings form: the saved one when the form
/// sent `__KEEP__`, else what it sent.
pub fn kept_secret(sent: String, saved: &str) -> (r: String)
    ensures
        r@ == (if sent@ == KEEP_SECRET@ {
            saved@
        } else {
            sent@
        }),
{
    if same_text(sent.as_str(), KEEP_SECRET) {
        String::from_str(saved)
    } else {
        sent
    }
}

/// The state shown for synchronisation: whether the active remote is
/// configured and enabled, the last result and error, and whether a run is
/// going on.
pub fn sync_status_of(
    provider: SyncProvider,
    cloud: &CloudConfig,
    github: &GitHubConfig,
    last_sync: Option<String>,
    last_error: Option<String>,
    syncing: bool,
) -> (r: SyncStatus)
    ensures
        r.configured == (match provider {
            SyncProvider::WebDav => cloud.configured(),
            SyncProvider::GitHub => github.configured(),
        }),
        r.enabled == (match provider {
            SyncProvider::WebDav => cloud.enabled,
            SyncProvider::GitHub => github.enabled,
        }),
        r.last_sync == last_sync,
        r.last_error == last_error,
        r.syncing == syncing,
{
    let (configured, enabled) = match provider {
        SyncProvider::WebDav => (cloud.is_configured(), cloud.enabled),
        SyncProvider::GitHub => (github.is_configured(), github.enabled),
    };
    SyncStatus { configured, enabled, last_sync, last_error, syncing }
}

/// A manual upload or download needs the active remote to be configured.
pub fn sync_precheck(provider: SyncProvider, cloud: &CloudConfig, github: &GitHubConfig) -> (r: Result<(), String>)
    ensures
        provider == SyncProvider::WebDav ==> (r is Ok <==> cloud.configured()),
        provider == SyncProvider::GitHub ==> (r is Ok <==> github.configured()),
        provider == SyncProvider::WebDav && !cloud.configured() ==> (r matches Err(e) && e@ == CLOUD_NOT_CONFIGURED@),
        provider == SyncProvider::GitHub && !github.configured() ==> (r matches Err(e) && e@ == GITHUB_NOT_CONFIGURED@),
{
    match provider {
        SyncProvider::WebDav => if cloud.is_configured() {
            Ok(())
        } else {
            Err(String::from_str(CLOUD_NOT_CONFIGURED))
        },
        SyncProvider::GitHub => if github.is_configured() {
            Ok(())
        } else {
            Err(String::from_str(GITHUB_NOT_CONFIGURED))
        },
    }
}

/// The settings as the settings form sees them: both sides' fields and the
/// active remote; of the two secrets only whether each is set.
#[derive(Debug, Clone)]
pub struct SettingsView {
    pub provider: String,
    pub username: String,
    pub remote_root: String,
    pub enabled: bool,
    pub has_password: bool,
    pub gh_repo: String,
    pub gh_branch: String,
    pub gh_prefix: String,
    pub gh_enabled: bool,
    pub has_token: bool,
}

/// What the settings form is sent: everything but the password and the
/// token themselves.
pub fn settings_view(provider: SyncProvider, cloud: &CloudConfig, github: &GitHubConfig) -> (r: SettingsView)
    ensures
        r.provider@ == provider_name(provider),
        r.username@ == cloud.username@,
        r.remote_root@ == cloud.remote_root@,
        r.enabled == cloud.enabled,
        r.has_password == (cloud.password@.len() > 0),
        r.gh_repo@ == github.repo@,
        r.gh_branch@ == github.branch@,
        r.gh_prefix@ == github.prefix@,
        r.gh_enabled == github.enabled,
        r.has_token == (github.token@.len() > 0),
{
    SettingsView {
        provider: String::from_str(provider.as_str()),
        username: cloud.username.clone(),
        remote_root: cloud.remote_root.clone(),
        enabled: cloud.enabled,
        has_password: !cloud.password.as_str().is_empty(),
        gh_repo: github.repo.clone(),
        gh_branch: github.branch.clone(),
        gh_prefix: github.prefix.clone(),
        gh_enabled: github.enabled,
        has_token: !github.token.as_str().is_empty(),
    }
}

/// Saved WebDAV settings read back as they were: after saving `cfg` into
/// any settings file, with the credential store giving back the password
/// written under the user name, loading gives `cfg` again. (An empty user
/// name or password is not written to the store, so the law needs both.)
pub proof fn law_cloud_settings_roundtrip(p: PersistedConfig, cfg: CloudConfig)
    requires
        cfg.username@.len() > 0,
        cfg.password@.len() > 0,
    ensures
        loaded_cloud(Some(cloud_saved(p, cfg)), Ok(Some(cfg.password@))) == cloud_view(cfg),
{
}

/// Saved GitHub settings read back as they were: after saving `cfg`, with
/// the credential store giving back the token written under the
/// repository, loading gives `cfg` again. (An empty branch reads back as
/// `main`; an empty repository or token is not written to the store.)
pub proof fn law_github_settings_roundtrip(p: PersistedConfig, cfg: GitHubConfig)
    requires
        cfg.repo@.len() > 0,
        cfg.token@.len() > 0,
        cfg.branch@.len() > 0,
    ensures
        loaded_github(Some(github_saved(p, cfg)), Ok(Some(cfg.token@))) == github_view(cfg),
{
}

/// The two remotes' settings are saved independently: saving the GitHub
/// settings leaves the WebDAV settings (user name, password, root and
/// whether it is on) as they load from the file, and the active remote.
pub proof fn law_github_save_keeps_cloud(
    p: PersistedConfig,
    cfg: GitHubConfig,
    stored: Result<Option<Seq<char>>, Seq<char>>,
)
    ensures
        loaded_cloud(Some(github_saved(p, cfg)), stored) == loaded_cloud(Some(p), stored),
        saved_provider(Some(github_saved(p, cfg))) == saved_provider(Some(p)),
{
}

/// The two remotes' settings are saved independently: saving the WebDAV
/// settings leaves the GitHub settings (repository, branch, folder, token
/// and whether it is on) as they load from the file, and the active remote.
pub proof fn law_cloud_save_keeps_github(
    p: PersistedConfig,
    cfg: CloudConfig,
    stored: Result<Option<Seq<char>>, Seq<char>>,
)
    ensures
        loaded_github(Some(cloud_saved(p, cfg)), stored) == loaded_github(Some(p), stored),
        saved_provider(Some(cloud_saved(p, cfg))) == saved_provider(Some(p)),
{
}

/// No secret stays in a settings file that both sides were saved into,
/// whatever it held before.
pub proof fn law_saved_file_holds_no_secret(p: PersistedConfig, c: CloudConfig, g: GitHubConfig)
    ensures
        github_saved(cloud_saved(p, c), g).password is None,
        github_saved(cloud_saved(p, c), g).gh_token is None,
        cloud_saved(github_saved(p, g), c).password is None,
        cloud_saved(github_saved(p, g), c).gh_token is None,
{
}

/// A secret left in an older settings file is still used when the
/// credential store has none, and is then the one to move into the store.
pub proof fn law_legacy_secret_migrates(key: Seq<char>, legacy: Seq<char>)
    requires
        key.len() > 0,
    ensures
        settled_secret(key, Ok(None), Some(legacy)) == legacy,
        secret_to_migrate(key, Ok(None), Some(legacy)) == Some(legacy),
{
}

/// Mutual exclusion of local writes and synchronisation: while a run goes
/// on, local writes are refused, and a second run cannot start.
#[derive(Debug)]
pub struct IoGate {
    pub syncing: bool,
}

impl IoGate {
    /// A gate with no run going on.
    pub fn new() -> (g: IoGate)
        ensures
            !g.syncing,
    {
        IoGate { syncing: false }
    }

    /// A local write may go ahead only when no run goes on.
    pub fn begin_local_io(&self) -> (r: Result<(), String>)
        ensures
            r is Ok <==> !self.syncing,
            r matches Err(e) ==> e@ == LOCAL_IO_BUSY@,
    {
        if self.syncing {
            Err(String::from_str(LOCAL_IO_BUSY))
        } else {
            Ok(())
        }
    }

    /// Starts a run, unless one goes on already.
    pub fn acquire(&mut self) -> (r: Result<(), String>)
        ensures
            old(self).syncing ==> (r matches Err(e) && e@ == SYNC_BUSY@) && final(self).syncing,
            !old(self).syncing ==> r is Ok && final(self).syncing,
    {
        if self.syncing {
            Err(String::from_str(SYNC_BUSY))
        } else {
            self.syncing = true;
            Ok(())
        }
    }

    /// Ends the run.
    pub fn release(&mut self)
        ensures
            !final(self).syncing,
    {
        self.syncing = false;
    }
}

} // verus!
