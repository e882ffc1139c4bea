use prompt_pocket::config::{
    cloud_config_from, cloud_keyring_warning, cloud_password_to_migrate, cloud_secret_key,
    github_config_from, github_keyring_warning, github_secret_key, github_token_to_migrate,
    kept_secret, loaded_provider, provider_choice, secret_write_needed, sync_precheck,
    with_cloud_fields, with_github_fields, with_provider, without_gh_token, without_password,
    IoGate, PersistedConfig, SyncProvider, CLOUD_KEYRING_WARNING, CLOUD_NOT_CONFIGURED,
    GITHUB_NOT_CONFIGURED, LOCAL_IO_BUSY, SYNC_BUSY,
};
use prompt_pocket::github::GitHubConfig;
use prompt_pocket::state::AppState;
use prompt_pocket::sync::SyncReport;
use prompt_pocket::webdav::CloudConfig;

fn cloud(user: &str, pass: &str) -> CloudConfig {
    CloudConfig {
        username: user.to_string(),
        password: pass.to_string(),
        remote_root: "PromptPocket".to_string(),
        enabled: true,
    }
}

fn github(repo: &str, token: &str) -> GitHubConfig {
    GitHubConfig {
        repo: repo.to_string(),
        branch: "main".to_string(),
        prefix: "archive".to_string(),
        token: token.to_string(),
        enabled: true,
    }
}

#[test]
fn provider_names_roundtrip() {
    assert_eq!(SyncProvider::parse("github"), SyncProvider::GitHub);
    assert_eq!(SyncProvider::parse("webdav"), SyncProvider::WebDav);
    assert_eq!(SyncProvider::parse("other"), SyncProvider::WebDav);
    assert_eq!(SyncProvider::GitHub.as_str(), "github");
    assert_eq!(SyncProvider::parse(SyncProvider::WebDav.as_str()), SyncProvider::WebDav);
    assert_eq!(provider_choice("github"), Ok(SyncProvider::GitHub));
    assert_eq!(provider_choice("ftp"), Err("未知同步后端: ftp".to_string()));
}

#[test]
fn both_sides_survive_saving_each_other() {
    let p = PersistedConfig::default();
    let p = with_cloud_fields(p, &cloud("user@example.com", "webdav-secret"));
    let p = with_github_fields(p, &github("someone/prompts", "ghp_secret"));
    assert_eq!(p.password, None);
    assert_eq!(p.gh_token, None);
    let parsed = Some(p);
    assert_eq!(github_secret_key(&parsed), "someone/prompts");
    let gh = github_config_from(&parsed, &Ok(Some("ghp_secret".to_string())));
    assert_eq!(gh.repo, "someone/prompts");
    assert_eq!(gh.branch, "main");
    assert_eq!(gh.prefix, "archive");
    assert_eq!(gh.token, "ghp_secret");
    assert_eq!(cloud_secret_key(&parsed), "user@example.com");
    let webdav = cloud_config_from(&parsed, &Ok(Some("webdav-secret".to_string())));
    assert_eq!(webdav.username, "user@example.com");
    assert_eq!(webdav.password, "webdav-secret");
    assert_eq!(webdav.remote_root, "PromptPocket");
    assert!(webdav.enabled);
}

#[test]
fn missing_settings_load_defaults() {
    let c = cloud_config_from(&None, &Ok(None));
    assert_eq!(c.username, "");
    assert_eq!(c.password, "");
    assert_eq!(c.remote_root, "PromptPocket");
    assert!(!c.enabled);
    let g = github_config_from(&None, &Ok(None));
    assert_eq!(g.branch, "main");
    assert_eq!(g.prefix, "");
    assert!(!g.enabled);
    assert_eq!(loaded_provider(&None), SyncProvider::WebDav);
    let p = with_provider(PersistedConfig::default(), SyncProvider::GitHub);
    assert_eq!(p.provider, Some("github".to_string()));
    assert_eq!(loaded_provider(&Some(p)), SyncProvider::GitHub);
}

#[test]
fn legacy_password_moves_to_credential_store() {
    let parsed = Some(PersistedConfig {
        username: Some("user@example.com".to_string()),
        password: Some("legacy-secret".to_string()),
        remote_root: Some("PromptPocket".to_string()),
        enabled: Some(true),
        ..PersistedConfig::default()
    });
    let cfg = cloud_config_from(&parsed, &Ok(None));
    assert_eq!(cfg.password, "legacy-secret");
    assert_eq!(cloud_password_to_migrate(&parsed, &Ok(None)), Some("legacy-secret".to_string()));
    assert_eq!(cloud_password_to_migrate(&parsed, &Ok(Some("new".to_string()))), None);
    assert_eq!(cloud_password_to_migrate(&parsed, &Err("locked".to_string())), None);
    assert_eq!(without_password(parsed.unwrap()).password, None);
}

#[test]
fn legacy_token_moves_to_credential_store() {
    let parsed = Some(PersistedConfig {
        gh_repo: Some("someone/prompts".to_string()),
        gh_token: Some("ghp_legacy".to_string()),
        enabled: Some(true),
        ..PersistedConfig::default()
    });
    let cfg = github_config_from(&parsed, &Ok(None));
    assert_eq!(cfg.token, "ghp_legacy");
    assert_eq!(cfg.branch, "main", "branch 缺省应为 main");
    assert_eq!(github_token_to_migrate(&parsed, &Ok(None)), Some("ghp_legacy".to_string()));
    assert_eq!(without_gh_token(parsed.unwrap()).gh_token, None);
}

#[test]
fn credential_store_failure_degrades_with_warning() {
    assert_eq!(cloud_keyring_warning(&Ok(())), None);
    assert_eq!(cloud_keyring_warning(&Err("x".to_string())), Some(CLOUD_KEYRING_WARNING.to_string()));
    assert!(github_keyring_warning(&Err("x".to_string())).unwrap().contains("PAT"));
    assert!(secret_write_needed("u", "p"));
    assert!(!secret_write_needed("", "p"));
    assert!(!secret_write_needed("u", ""));
    let failing_store = Err("凭据库不可用".to_string());
    let cfg = cloud_config_from(
        &Some(with_cloud_fields(PersistedConfig::default(), &cloud("u", "p"))),
        &failing_store,
    );
    assert_eq!(cfg.username, "u");
    assert_eq!(cfg.password, "");
}

#[test]
fn keep_marker_keeps_saved_secret() {
    assert_eq!(kept_secret("__KEEP__".to_string(), "old"), "old");
    assert_eq!(kept_secret("new".to_string(), "old"), "new");
}

#[test]
fn sync_needs_configured_remote() {
    let c = cloud("u", "p");
    let g = github("a/b", "");
    assert_eq!(sync_precheck(SyncProvider::WebDav, &c, &g), Ok(()));
    assert_eq!(sync_precheck(SyncProvider::GitHub, &c, &g), Err(GITHUB_NOT_CONFIGURED.to_string()));
    let c2 = cloud("", "p");
    assert_eq!(sync_precheck(SyncProvider::WebDav, &c2, &g), Err(CLOUD_NOT_CONFIGURED.to_string()));
}

#[test]
fn gate_excludes_writes_during_sync() {
    let mut g = IoGate::new();
    assert_eq!(g.begin_local_io(), Ok(()));
    assert_eq!(g.acquire(), Ok(()));
    assert_eq!(g.begin_local_io(), Err(LOCAL_IO_BUSY.to_string()));
    assert_eq!(g.acquire(), Err(SYNC_BUSY.to_string()));
    g.release();
    assert_eq!(g.begin_local_io(), Ok(()));
}

#[test]
fn app_state_runs_a_sync() {
    let mut s = AppState::new(cloud("u", "p"), github("", ""), SyncProvider::WebDav);
    assert!(!s.take_last_hotkey_had_text_input());
    s.set_last_hotkey_had_text_input(true);
    assert!(s.take_last_hotkey_had_text_input());
    assert!(!s.take_last_hotkey_had_text_input());
    let status = s.sync_status();
    assert!(status.configured);
    assert!(!status.syncing);
    assert_eq!(s.begin_sync(), Ok(SyncProvider::WebDav));
    assert!(s.sync_status().syncing);
    assert_eq!(s.begin_local_io(), Err(LOCAL_IO_BUSY.to_string()));
    assert_eq!(s.begin_sync(), Err(SYNC_BUSY.to_string()));
    let mut rep = SyncReport::empty();
    rep.uploaded = 2;
    rep.errors = vec!["a.md: x".to_string()];
    assert_eq!(s.finish_upload(Ok(rep)), Ok("上传完成：共 2 个文件，1 个失败".to_string()));
    let status = s.sync_status();
    assert!(!status.syncing);
    assert_eq!(status.last_sync, Some("上传完成：共 2 个文件，1 个失败".to_string()));
    assert_eq!(status.last_error, Some("a.md: x".to_string()));
    assert_eq!(s.begin_sync(), Ok(SyncProvider::WebDav));
    assert_eq!(s.finish_download(Err("GET 失败".to_string())), Err("GET 失败".to_string()));
    assert_eq!(s.sync_status().last_error, Some("GET 失败".to_string()));
    s.set_provider(SyncProvider::GitHub);
    assert_eq!(s.begin_sync(), Err(GITHUB_NOT_CONFIGURED.to_string()));
    s.set_github_config(github("a/b", "t"), Some("warn".to_string()));
    assert_eq!(s.sync_status().last_error, Some("warn".to_string()));
    assert!(s.sync_status().configured);
    assert_eq!(s.github_config().repo, "a/b");
    assert_eq!(s.cloud_config().username, "u");
    assert_eq!(s.begin_sync(), Ok(SyncProvider::GitHub));
    s.cancel_sync();
    assert!(!s.sync_status().syncing);
}

#[test]
fn saving_github_disabled_keeps_webdav_enabled() {
    let p = with_cloud_fields(PersistedConfig::default(), &cloud("u", "p"));
    let mut off = github("o/r", "t");
    off.enabled = false;
    let p = with_github_fields(p, &off);
    let parsed = Some(p);
    let webdav = cloud_config_from(&parsed, &Ok(Some("p".to_string())));
    assert_eq!(webdav.username, "u");
    assert!(webdav.enabled);
    let gh = github_config_from(&parsed, &Ok(Some("t".to_string())));
    assert!(!gh.enabled);
    let p = with_cloud_fields(parsed.unwrap(), &cloud("u", "p"));
    assert!(!github_config_from(&Some(p), &Ok(None)).enabled);
}

#[test]
fn older_file_shared_flag_enables_github() {
    let parsed = Some(PersistedConfig {
        gh_repo: Some("o/r".to_string()),
        enabled: Some(true),
        ..PersistedConfig::default()
    });
    assert!(github_config_from(&parsed, &Ok(None)).enabled);
}
