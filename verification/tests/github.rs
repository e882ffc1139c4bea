use prompt_pocket::github::{github_http_settings, status_error, tree_to_files, validate_repo, GitHubStore, TreeEntry};

#[test]
fn validate_repo_accepts_legal_names() {
    assert!(validate_repo("techdou/prompts").is_ok());
    assert!(validate_repo("a-b_c.d/e-f_g.h").is_ok());
}

#[test]
fn validate_repo_rejects_bad_shapes() {
    for bad in ["", "noslash", "a/b/c", "/b", "a/", "a b/c", "a/中 文"] {
        assert!(validate_repo(bad).is_err(), "应拒绝: {bad:?}");
    }
}

#[test]
fn full_path_joins_prefix() {
    let store_prefix = |prefix: &str| GitHubStore {
        http: reqwest::Client::new(),
        settings: github_http_settings("t"),
        repo: "a/b".to_string(),
        branch: "main".to_string(),
        prefix: prefix.trim_matches('/').to_string(),
    };
    assert_eq!(store_prefix("").full_path("写作/a.md"), "写作/a.md");
    assert_eq!(store_prefix("archive").full_path("写作/a.md"), "archive/写作/a.md");
    assert_eq!(store_prefix("/archive/").full_path("a.md"), "archive/a.md");
}

#[test]
fn contents_url_encodes_segments() {
    let store = GitHubStore {
        http: reqwest::Client::new(),
        settings: github_http_settings("t"),
        repo: "a/b".to_string(),
        branch: "main".to_string(),
        prefix: String::new(),
    };
    assert_eq!(
        store.contents_url("写作/我的 #1.md"),
        "https://api.github.com/repos/a/b/contents/%E5%86%99%E4%BD%9C/%E6%88%91%E7%9A%84%20%231.md"
    );
}

#[test]
fn tree_to_files_filters_and_strips_prefix() {
    let entry = |path: &str, kind: &str| TreeEntry {
        path: path.to_string(),
        kind: kind.to_string(),
        size: Some(10),
    };
    let tree = vec![
        entry("archive/写作/a.md", "blob"),
        entry("archive/写作", "tree"),
        entry("archive/.trash/old.md", "blob"),
        entry("archive/.order.json", "blob"),
        entry("other/x.md", "blob"),
    ];
    let files = tree_to_files(tree, "archive");
    let rels: Vec<&str> = files.iter().map(|f| f.rel.as_str()).collect();
    assert_eq!(rels, vec!["写作/a.md", ".order.json"]);
    assert_eq!(files[0].content_length, 10);
}

#[test]
fn tree_to_files_root_prefix_keeps_all_visible() {
    let entry = |path: &str| TreeEntry {
        path: path.to_string(),
        kind: "blob".to_string(),
        size: None,
    };
    let files = tree_to_files(vec![entry("a.md"), entry(".hidden/b.md")], "");
    assert_eq!(files.len(), 1);
    assert_eq!(files[0].rel, "a.md");
    assert_eq!(files[0].content_length, 0);
}

#[test]
fn status_error_maps_to_human_messages() {
    assert!(status_error(401, "上传文件").contains("PAT 无效"));
    assert!(status_error(403, "上传文件").contains("权限不足"));
    assert!(status_error(404, "测试连接").contains("不存在"));
    assert!(status_error(500, "下载文件").contains("500"));
}
