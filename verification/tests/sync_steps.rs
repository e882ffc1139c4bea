use prompt_pocket::sync::{
    clean_step, download_summary, error_summary, fnv1a_hash, is_push_candidate, is_push_excluded,
    pull_step, upload_needed, upload_summary, CleanStep, PullStep, SyncMeta, SyncReport,
};

fn report() -> SyncReport {
    SyncReport::empty()
}

#[test]
fn fnv1a_of_known_inputs() {
    assert_eq!(fnv1a_hash(b""), 0xcbf29ce484222325);
    assert_eq!(fnv1a_hash(b"a"), 0xaf63dc4c8601ec8c);
}

#[test]
fn tombstone_keeps_file_deleted_while_remote_unchanged() {
    let same = pull_step(Some(120), 120, None);
    assert_eq!(same, PullStep { clear_tombstone: false, fetch: false, backup: false });
    let unknown = pull_step(Some(0), 77, Some(5));
    assert_eq!(unknown, PullStep { clear_tombstone: false, fetch: false, backup: false });
}

#[test]
fn newer_remote_version_replaces_deletion() {
    let step = pull_step(Some(120), 130, None);
    assert_eq!(step, PullStep { clear_tombstone: true, fetch: true, backup: false });
    let step = pull_step(Some(120), 130, Some(130));
    assert_eq!(step, PullStep { clear_tombstone: true, fetch: false, backup: false });
}

#[test]
fn local_copy_is_backed_up_before_overwrite() {
    assert_eq!(pull_step(None, 10, Some(9)), PullStep { clear_tombstone: false, fetch: true, backup: true });
    assert_eq!(pull_step(None, 10, Some(10)), PullStep { clear_tombstone: false, fetch: false, backup: false });
    assert_eq!(pull_step(None, 10, None), PullStep { clear_tombstone: false, fetch: true, backup: false });
}

#[test]
fn uploaded_content_is_not_sent_again() {
    let mut meta = SyncMeta::new();
    let mut rep = report();
    let h = fnv1a_hash("正文".as_bytes());
    assert!(upload_needed(&meta, "写作/a.md", h));
    rep.note_upload(&mut meta, "写作/a.md".to_string(), h, Ok(()));
    assert_eq!(rep.uploaded, 1);
    assert!(!upload_needed(&meta, "写作/a.md", h));
    assert!(upload_needed(&meta, "写作/a.md", h ^ 1));
    assert_eq!(meta.get("写作/a.md"), Some(h));
    rep.note_upload(&mut meta, "写作/b.md".to_string(), 7, Err("超时".to_string()));
    assert_eq!(rep.uploaded, 1);
    assert_eq!(rep.errors, vec!["写作/b.md: 超时".to_string()]);
    assert_eq!(meta.get("写作/b.md"), None);
}

#[test]
fn remote_deletion_outcomes() {
    let mut meta = SyncMeta::new();
    meta.insert("a.md".to_string(), 1);
    let mut rep = report();
    assert!(rep.note_remote_delete(&mut meta, "a.md", Ok(())));
    assert_eq!(rep.deleted_remote, 1);
    assert_eq!(meta.get("a.md"), None);
    assert!(!rep.note_remote_delete(&mut meta, "b.md", Err("403".to_string())));
    assert_eq!(rep.errors, vec!["b.md（删除传播）: 403".to_string()]);
    assert_eq!(meta.entries().len(), 0);
}

#[test]
fn sync_record_replaces_and_removes() {
    let mut meta = SyncMeta::new();
    meta.insert("x".to_string(), 1);
    meta.insert("y".to_string(), 2);
    meta.insert("x".to_string(), 3);
    assert_eq!(meta.get("x"), Some(3));
    assert_eq!(meta.entries().len(), 2);
    meta.remove("x");
    assert_eq!(meta.get("x"), None);
    assert_eq!(meta.get("y"), Some(2));
}

#[test]
fn empty_listing_skips_cleanup() {
    let mut rep = report();
    assert!(rep.check_remote_listing(3));
    assert!(rep.errors.is_empty());
    assert!(!rep.check_remote_listing(0));
    assert_eq!(rep.errors.len(), 1);
    assert!(rep.errors[0].starts_with("警告：未获取到远程文件列表"));
}

#[test]
fn download_and_read_errors_are_recorded() {
    let mut rep = report();
    rep.note_download("写作/a.md", Ok(()));
    rep.note_download("写作/b.md", Err("GET 失败: 500".to_string()));
    rep.note_read_error("c.md", "权限");
    rep.note_skipped();
    rep.note_cleaned();
    assert_eq!(rep.downloaded, 1);
    assert_eq!(rep.skipped, 1);
    assert_eq!(rep.deleted, 1);
    assert_eq!(
        rep.errors,
        vec!["写作/b.md: GET 失败: 500".to_string(), "c.md（读文件）: 权限".to_string()]
    );
}

#[test]
fn summaries_read_as_shown() {
    let mut rep = report();
    rep.uploaded = 3;
    assert_eq!(upload_summary(&rep), "上传完成：共 3 个文件");
    rep.deleted_remote = 2;
    rep.errors = vec!["e1".to_string(), "e2".to_string()];
    assert_eq!(upload_summary(&rep), "上传完成：共 3 个文件，云端删除 2，2 个失败");
    assert_eq!(error_summary(&rep), Some("e1; e2".to_string()));
    let mut d = report();
    d.downloaded = 4;
    d.skipped = 1;
    d.deleted = 0;
    assert_eq!(download_summary(&d), "下载完成：更新 4，跳过 1，清理 0");
    assert_eq!(error_summary(&d), None);
}

#[test]
fn push_walk_filters() {
    assert!(is_push_excluded(".trash"));
    assert!(is_push_excluded(".sync_meta.json"));
    assert!(is_push_excluded(".sync_deleted.json"));
    assert!(!is_push_excluded("写作"));
    assert!(is_push_candidate("a.md", Some("md")));
    assert!(is_push_candidate(".order.json", Some("json")));
    assert!(is_push_candidate(".category-order.json", Some("json")));
    assert!(!is_push_candidate("~a.md", Some("md")));
    assert!(!is_push_candidate("a.txt", Some("txt")));
}

#[test]
fn cleanup_decisions() {
    let remote = vec!["写作/保留.md".to_string()];
    assert_eq!(clean_step(".trash", true, None, ".trash", &remote), CleanStep::Keep);
    assert_eq!(clean_step("写作", true, None, "写作", &remote), CleanStep::Descend);
    assert_eq!(clean_step("保留.md", false, Some("md"), "写作/保留.md", &remote), CleanStep::Keep);
    assert_eq!(clean_step("真实.md", false, Some("md"), "写作/真实.md", &remote), CleanStep::Trash);
    assert_eq!(clean_step("x.txt", false, Some("txt"), "写作/x.txt", &remote), CleanStep::Keep);
}

#[test]
fn upload_record_reads_from_json() {
    let meta = SyncMeta::from_text(Some("{\"写作/a.md\": 42, \"b.md\": 7}"));
    assert_eq!(meta.get("写作/a.md"), Some(42));
    assert_eq!(meta.get("b.md"), Some(7));
    assert_eq!(meta.get("c.md"), None);
    assert_eq!(SyncMeta::from_text(Some("[1, 2]")).entries(), Vec::new());
    assert_eq!(SyncMeta::from_text(None).entries(), Vec::new());
}

#[test]
fn upload_record_writes_sorted_json_that_reads_back() {
    let mut meta = SyncMeta::new();
    meta.insert("b.md".to_string(), 7);
    meta.insert("a.md".to_string(), 42);
    let text = meta.to_text();
    assert_eq!(text, "{\n  \"a.md\": 42,\n  \"b.md\": 7\n}");
    let back = SyncMeta::from_text(Some(&text));
    assert_eq!(back.get("a.md"), Some(42));
    assert_eq!(back.get("b.md"), Some(7));
    assert_eq!(SyncMeta::new().to_text(), "{}");
}
