use prompt_pocket::sync::{fnv1a_hash, is_trash_or_hidden_rel};

#[test]
fn fnv1a_hash_detects_changes() {
    let h1 = fnv1a_hash(b"hello world");
    let h2 = fnv1a_hash(b"hello world");
    let h3 = fnv1a_hash(b"hello world!");
    assert_eq!(h1, h2, "相同内容应有相同哈希");
    assert_ne!(h1, h3, "不同内容应有不同哈希");
}

#[test]
fn is_trash_or_hidden_rel_filters_correctly() {
    assert!(is_trash_or_hidden_rel(".trash/x.md"));
    assert!(is_trash_or_hidden_rel("写作/.trash/b.md"));
    assert!(is_trash_or_hidden_rel(".cache/y.md"));
    assert!(is_trash_or_hidden_rel("a/.hidden/b.md"));
    assert!(is_trash_or_hidden_rel(".sync_meta.json"));
    assert!(is_trash_or_hidden_rel(".sync_deleted.json"));

    assert!(!is_trash_or_hidden_rel("写作/a.md"));
    assert!(!is_trash_or_hidden_rel("编程/子目录/b.md"));
    assert!(!is_trash_or_hidden_rel("root.md"));
    assert!(!is_trash_or_hidden_rel("web服务/html-read.md"));

    assert!(!is_trash_or_hidden_rel(".order.json"));
    assert!(!is_trash_or_hidden_rel(".category-order.json"));
}
