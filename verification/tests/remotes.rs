use prompt_pocket::github::{github_http_settings, 
    check_status, failure, lookup_status, put_request, GitHubConfig, GitHubStore,
    REPO_FORMAT_ERROR, TOKEN_INVALID_ERROR, TREE_TRUNCATED_ERROR, TreeEntry,
};
use prompt_pocket::webdav::{dav_settings, 
    sanitize_remote_path, is_not_found, list_path, remote_dir_chain, root_collection_path, walk_step, CloudConfig,
    RemoteWalk, WalkStep, WebDavStore,
};

fn gh(repo: &str, token: &str, branch: &str, prefix: &str) -> GitHubConfig {
    GitHubConfig {
        repo: repo.to_string(),
        branch: branch.to_string(),
        prefix: prefix.to_string(),
        token: token.to_string(),
        enabled: true,
    }
}

fn store() -> GitHubStore {
    GitHubStore {
        http: reqwest::Client::new(),
        settings: github_http_settings("t"),
        repo: "someone/prompts".to_string(),
        branch: "main".to_string(),
        prefix: "archive".to_string(),
    }
}

#[test]
fn github_store_checks_repo_and_token() {
    assert_eq!(GitHubStore::new(&gh("noslash", "t", "", "")).err(), Some(REPO_FORMAT_ERROR.to_string()));
    assert_eq!(
        GitHubStore::new(&gh("a/b", "bad\ntoken", "", "")).err(),
        Some(TOKEN_INVALID_ERROR.to_string())
    );
    let s = GitHubStore::new(&gh("a/b", "ghp_token", "", "/archive/")).unwrap();
    assert_eq!(s.repo, "a/b");
    assert_eq!(s.branch, "main");
    assert_eq!(s.prefix, "archive");
    let s = GitHubStore::new(&gh("a/b", "ghp_token", "dev", "")).unwrap();
    assert_eq!(s.branch, "dev");
}

#[test]
fn github_configured_needs_repo_and_token() {
    assert!(gh("a/b", "t", "", "").is_configured());
    assert!(!gh("", "t", "", "").is_configured());
    assert!(!gh("a/b", "", "", "").is_configured());
    let mut off = gh("a/b", "t", "", "");
    off.enabled = false;
    assert!(!off.is_configured());
}

#[test]
fn github_urls() {
    let s = store();
    assert_eq!(s.repo_url(), "https://api.github.com/repos/someone/prompts");
    assert_eq!(s.branch_url(), "https://api.github.com/repos/someone/prompts/branches/main");
    assert_eq!(s.tree_url("abc123"), "https://api.github.com/repos/someone/prompts/git/trees/abc123?recursive=1");
    assert_eq!(
        s.contents_ref_url("写作/a.md"),
        "https://api.github.com/repos/someone/prompts/contents/archive/%E5%86%99%E4%BD%9C/a.md?ref=main"
    );
}

#[test]
fn github_request_bodies() {
    let s = store();
    let put = s.upload_request("写作/a.md", b"hello", Some("sha1".to_string()));
    assert_eq!(put.message, "prompt-pocket: update 写作/a.md");
    assert_eq!(put.content, "aGVsbG8=");
    assert_eq!(put.branch, "main");
    assert_eq!(put.sha, Some("sha1".to_string()));
    let put = s.upload_request("b.md", "写".as_bytes(), None);
    assert_eq!(put.content, "5YaZ");
    assert_eq!(put.sha, None);
    let del = s.delete_request("写作/a.md", "sha2".to_string());
    assert_eq!(del.message, "prompt-pocket: delete 写作/a.md");
    assert_eq!(del.branch, "main");
    assert_eq!(del.sha, "sha2");
    let p = put_request("x.md", "ZQ==".to_string(), "dev", None);
    assert_eq!(p.content, "ZQ==");
    assert_eq!(p.branch, "dev");
}

#[test]
fn github_status_handling() {
    assert_eq!(check_status(200, "上传文件"), Ok(()));
    assert_eq!(check_status(201, "上传文件"), Ok(()));
    assert_eq!(
        check_status(409, "上传文件"),
        Err("上传文件失败：分支冲突或仓库为空（409）".to_string())
    );
    assert_eq!(check_status(502, "下载文件"), Err("下载文件失败：GitHub 返回 502".to_string()));
    assert_eq!(lookup_status(404, "查询分支"), Ok(false));
    assert_eq!(lookup_status(200, "查询分支"), Ok(true));
    assert!(lookup_status(401, "查询分支").unwrap_err().contains("PAT 无效"));
    assert_eq!(failure("GET ", "timeout"), "GET 失败: timeout");
}

#[test]
fn github_tree_listing() {
    let s = store();
    let tree = vec![TreeEntry { path: "archive/a.md".to_string(), kind: "blob".to_string(), size: Some(3) }];
    let files = s.tree_listing(tree.clone(), false).unwrap();
    assert_eq!(files.len(), 1);
    assert_eq!(files[0].rel, "a.md");
    assert_eq!(s.tree_listing(tree, true).err(), Some(TREE_TRUNCATED_ERROR.to_string()));
}

#[test]
fn webdav_store_sanitizes_root() {
    let cfg = CloudConfig {
        username: "u".to_string(),
        password: "p".to_string(),
        remote_root: "/PromptPocket/".to_string(),
        enabled: true,
    };
    assert!(cfg.is_configured());
    let s = WebDavStore::new(&cfg).unwrap();
    assert_eq!(s.root, "PromptPocket");
    assert_eq!(s.file_url("写作/a.md"), "/PromptPocket/%E5%86%99%E4%BD%9C/a.md");
    let off = CloudConfig { password: String::new(), ..cfg };
    assert!(!off.is_configured());
}

#[test]
fn webdav_request_paths() {
    assert_eq!(list_path("My Root", ""), "/My%20Root/");
    assert_eq!(list_path("PromptPocket", "写作"), "/PromptPocket/%E5%86%99%E4%BD%9C/");
    assert_eq!(root_collection_path("PromptPocket"), "/PromptPocket");
}

#[test]
fn folders_are_made_outermost_first() {
    assert_eq!(remote_dir_chain("a/b/c.md"), vec!["a".to_string(), "a/b".to_string()]);
    assert_eq!(remote_dir_chain("a//b/c.md"), vec!["a".to_string(), "a/b".to_string()]);
    assert_eq!(remote_dir_chain("c.md"), Vec::<String>::new());
    assert_eq!(remote_dir_chain("写作/x.md"), vec!["写作".to_string()]);
}

#[test]
fn walk_decisions() {
    match walk_step(false, "/dav/PromptPocket/%E5%86%99%E4%BD%9C/a.md", 12, "PromptPocket", "写作") {
        WalkStep::File(f) => {
            assert_eq!(f.rel, "写作/a.md");
            assert_eq!(f.content_length, 12);
        }
        other => panic!("unexpected {other:?}"),
    }
    match walk_step(true, "/dav/PromptPocket/%E5%86%99%E4%BD%9C/", 0, "PromptPocket", "") {
        WalkStep::Descend(d) => assert_eq!(d, "写作"),
        other => panic!("unexpected {other:?}"),
    }
    assert!(matches!(walk_step(true, "/dav/PromptPocket/%E5%86%99%E4%BD%9C/", 0, "PromptPocket", "写作"), WalkStep::Skip));
    assert!(matches!(walk_step(true, "/dav/PromptPocket/.trash/", 0, "PromptPocket", ""), WalkStep::Skip));
    assert!(matches!(walk_step(false, "/dav/Other/a.md", 1, "PromptPocket", ""), WalkStep::Skip));
}

#[test]
fn walk_visits_folders_breadth_first() {
    let mut w = RemoteWalk::new("PromptPocket".to_string());
    let (dir, path) = w.next_folder().unwrap();
    assert_eq!(dir, "");
    assert_eq!(path, "/PromptPocket/");
    w.take_entry(&dir, true, "/dav/PromptPocket/", 0);
    w.take_entry(&dir, true, "/dav/PromptPocket/a/", 0);
    w.take_entry(&dir, false, "/dav/PromptPocket/top.md", 5);
    let (dir, path) = w.next_folder().unwrap();
    assert_eq!(dir, "a");
    assert_eq!(path, "/PromptPocket/a/");
    w.listing_failed(&dir, "503");
    assert!(w.next_folder().is_none());
    let (files, errors) = w.finish();
    assert_eq!(files.len(), 1);
    assert_eq!(files[0].rel, "top.md");
    assert_eq!(errors, vec!["列出远程目录 a/ 失败: 503".to_string()]);
}

#[test]
fn not_found_errors_count_as_deleted() {
    assert!(is_not_found("HTTP 404"));
    assert!(is_not_found("Not Found"));
    assert!(!is_not_found("500 Internal Server Error"));
}

#[test]
fn uploaded_path_lists_back_as_same_file() {
    let s = store();
    let full = s.full_path("写作/a.md");
    assert_eq!(full, "archive/写作/a.md");
    let files = prompt_pocket::github::tree_to_files(
        vec![TreeEntry { path: full, kind: "blob".to_string(), size: Some(1) }],
        &s.prefix,
    );
    assert_eq!(files[0].rel, "写作/a.md");
}

#[test]
fn remote_root_normalizes_once() {
    let once = sanitize_remote_path("//My Root//");
    assert_eq!(once, "My Root");
    assert_eq!(sanitize_remote_path(&once), once);
}

#[test]
fn uploaded_webdav_file_is_listed_back_at_its_path() {
    for rel in ["写作/a b.md", "编程/#1 清单.md", "100%.md"] {
        let href = format!("/dav{}", prompt_pocket::webdav::remote_url("PromptPocket", rel));
        assert_eq!(prompt_pocket::webdav::extract_rel_path(&href, "PromptPocket"), Some(rel.to_string()));
    }
}

#[test]
fn github_client_settings_carry_the_token() {
    let st = github_http_settings("ghp_x");
    assert_eq!(
        st.headers,
        vec![
            ("authorization".to_string(), "Bearer ghp_x".to_string()),
            ("user-agent".to_string(), "prompt-pocket".to_string()),
            ("accept".to_string(), "application/vnd.github+json".to_string()),
            ("x-github-api-version".to_string(), "2022-11-28".to_string()),
        ]
    );
    assert_eq!((st.connect_secs, st.total_secs), (15, 60));
    let s = GitHubStore::new(&gh("a/b", "ghp_token", "", "")).unwrap();
    assert_eq!(s.settings.headers[0].1, "Bearer ghp_token");
}

#[test]
fn webdav_client_settings_carry_the_account() {
    let cfg = CloudConfig {
        username: "me@example.com".to_string(),
        password: "app-pass".to_string(),
        remote_root: "/PromptPocket/".to_string(),
        enabled: true,
    };
    let st = dav_settings(&cfg);
    assert_eq!(st.host, "https://dav.jianguoyun.com/dav");
    assert_eq!(st.user, "me@example.com");
    assert_eq!(st.password, "app-pass");
    assert_eq!((st.connect_secs, st.total_secs), (15, 60));
    let s = WebDavStore::new(&cfg).unwrap();
    assert_eq!(s.settings.user, "me@example.com");
    assert_eq!(s.settings.password, "app-pass");
    assert_eq!(s.root, "PromptPocket");
}
