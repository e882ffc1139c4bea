use prompt_pocket::files::{
    candidate_file_name, category_order_text, category_dir_of, category_rename_dirs, moved_prompt_paths, new_category_dir,
    new_prompt_text, order_map_from_text, reordered_order_text, renamed_stem, trash_file_name, path_to_unix, prompt_location, renamed_prompt_text, reorder_category, CATEGORY_NAME_INVALID,
    NEW_CATEGORY_NAME_INVALID,
};
use prompt_pocket::meta::parse_markdown;
use prompt_pocket::store::{count_categories, scan_prompts, sort_prompts, uncategorized_name, ScannedFile};

fn scanned(rel: &str, text: &str) -> ScannedFile {
    let (parent, name) = match rel.rfind('/') {
        Some(i) => (Some(rel[..i].to_string()), rel[i + 1..].to_string()),
        None => (Some(String::new()), rel.to_string()),
    };
    let (stem, ext) = match name.rfind('.') {
        Some(i) => (name[..i].to_string(), Some(name[i + 1..].to_string())),
        None => (name.clone(), None),
    };
    ScannedFile {
        rel: rel.to_string(),
        parent,
        name: Some(name),
        extension: ext,
        stem: Some(stem),
        abs: format!("/data/{rel}"),
        text: Some(text.to_string()),
    }
}

#[test]
fn order_file_controls_sort_within_category() {
    let files = vec![
        scanned("写作/甲.md", "---\ntitle: 甲\n---\n\nA"),
        scanned("写作/乙.md", "---\ntitle: 乙\n---\n\nB"),
    ];
    let order = vec![("写作".to_string(), vec!["写作/乙.md".to_string(), "写作/甲.md".to_string()])];
    let res = scan_prompts(&vec!["写作".to_string()], files, &order);
    assert_eq!(res.prompts.len(), 2);
    assert_eq!(res.prompts[0].path, "写作/乙.md", "乙应在前面");
    assert_eq!(res.prompts[0].order, Some(0));
    assert_eq!(res.prompts[1].order, Some(1));
    assert_eq!(res.categories.len(), 1);
    assert_eq!(res.categories[0].count, 2);
}

#[test]
fn unlisted_prompt_sorts_last_and_empty_category_is_listed() {
    let files = vec![
        scanned("写作/甲.md", "---\ntitle: 甲\n---\n\nA"),
        scanned("写作/乙.md", "---\ntitle: 乙\n---\n\nB"),
        scanned("根.md", "正文"),
        scanned("写作/.hidden.md", "x"),
        scanned("写作/notes.txt", "x"),
    ];
    let order = vec![("写作".to_string(), vec!["写作/乙.md".to_string()])];
    let dirs = vec!["写作".to_string(), "空分类".to_string()];
    let res = scan_prompts(&dirs, files, &order);
    assert_eq!(res.prompts.len(), 3);
    let writing: Vec<&str> = res.prompts.iter().filter(|p| p.category == "写作").map(|p| p.path.as_str()).collect();
    assert_eq!(writing, vec!["写作/乙.md", "写作/甲.md"]);
    let root = res.prompts.iter().find(|p| p.path == "根.md").unwrap();
    assert_eq!(root.category, "未分类");
    assert_eq!(root.title, "根");
    assert_eq!(root.id, "根");
    assert!(res.categories.iter().any(|c| c.name == "空分类" && c.count == 0));
    assert!(res.categories.iter().any(|c| c.name == "写作" && c.count == 2));
}

#[test]
fn category_counts_are_sorted_by_name() {
    let res = scan_prompts(
        &vec!["b".to_string(), "a".to_string()],
        vec![scanned("b/x.md", "x"), scanned("b/y.md", "y"), scanned("a/z.md", "z")],
        &vec![],
    );
    let names: Vec<&str> = res.categories.iter().map(|c| c.name.as_str()).collect();
    assert_eq!(names, vec!["a", "b"]);
    let counts = count_categories(&vec![], &res.prompts);
    assert_eq!(counts.len(), 2);
    assert_eq!(sort_prompts(res.prompts).len(), 3);
}

#[test]
fn uncategorized_has_its_name() {
    assert_eq!(uncategorized_name(), "未分类");
}

#[test]
fn locations_come_from_sanitized_names() {
    let loc = prompt_location("写作", "a/b?c");
    assert_eq!(loc.dir, Some("写作".to_string()));
    assert_eq!(loc.stem, "abc");
    let loc = prompt_location("未分类", "t");
    assert_eq!(loc.dir, None);
    let loc = prompt_location("", "t");
    assert_eq!(loc.dir, None);
    let loc = prompt_location("..", "..");
    assert_eq!(loc.dir, None);
    assert_eq!(loc.stem, "");
    assert_eq!(category_dir_of("x"), Some("x".to_string()));
}

#[test]
fn candidate_names_count_up() {
    assert_eq!(candidate_file_name("周报", 0), "周报.md");
    assert_eq!(candidate_file_name("周报", 1), "周报-1.md");
    assert_eq!(candidate_file_name("周报", 12), "周报-12.md");
}

#[test]
fn category_names_are_checked() {
    assert_eq!(new_category_dir("新分类"), Ok("新分类".to_string()));
    assert_eq!(new_category_dir("///"), Err(CATEGORY_NAME_INVALID.to_string()));
    assert_eq!(
        category_rename_dirs("旧分类", "新:分类"),
        Ok(("旧分类".to_string(), "新分类".to_string()))
    );
    assert_eq!(category_rename_dirs("旧分类", "?"), Err(NEW_CATEGORY_NAME_INVALID.to_string()));
}

#[test]
fn new_prompt_has_title_and_empty_body() {
    let text = new_prompt_text("周报模板");
    let (meta, body) = parse_markdown(&text);
    assert_eq!(meta.title, "周报模板");
    assert_eq!(meta.copy_mode, "markdown");
    assert_eq!(meta.created, meta.updated);
    assert_eq!(body, "");
    assert!(text.ends_with("\n---\n\n\n"));
}

#[test]
fn renamed_prompt_keeps_body_and_creation_time() {
    let old = "---\ntitle: 旧标题\ncopyMode: plain\ncreated: 2026-01-01T00:00:00Z\nupdated: 2026-01-01T00:00:00Z\n---\n\n正文\n";
    let text = renamed_prompt_text(old, "新标题");
    let (meta, body) = parse_markdown(&text);
    assert_eq!(meta.title, "新标题");
    assert_eq!(meta.copy_mode, "plain");
    assert_eq!(meta.created, "2026-01-01T00:00:00Z");
    assert_ne!(meta.updated, "2026-01-01T00:00:00Z");
    assert_eq!(body, "正文\n\n");
}

#[test]
fn recorded_order_reads_back() {
    let mut map = vec![
        ("写作".to_string(), vec!["写作/a.md".to_string()]),
        ("编程".to_string(), vec!["编程/b.md".to_string()]),
    ];
    reorder_category(&mut map, "写作", vec!["写作/c.md".to_string(), "写作/a.md".to_string()]);
    assert_eq!(map.len(), 2);
    assert_eq!(map[0].1, vec!["写作/c.md".to_string(), "写作/a.md".to_string()]);
    assert_eq!(map[1].1, vec!["编程/b.md".to_string()]);
    reorder_category(&mut map, "新", vec![]);
    assert_eq!(map.len(), 3);
    assert_eq!(map[2].0, "新");
}

#[test]
fn windows_separators_become_slashes() {
    assert_eq!(path_to_unix("写作\\a.md"), "写作/a.md");
    assert_eq!(path_to_unix("a/b"), "a/b");
}

#[test]
fn plain_names_pass_through_unchanged() {
    let loc = prompt_location("写作", "周报模板");
    assert_eq!(loc.dir, Some("写作".to_string()));
    assert_eq!(loc.stem, "周报模板");
    assert_eq!(new_category_dir("编程"), Ok("编程".to_string()));
    assert_eq!(category_rename_dirs("旧分类", "新分类"), Ok(("旧分类".to_string(), "新分类".to_string())));
    assert_eq!(new_category_dir("a/b"), Ok("ab".to_string()));
    assert_eq!(new_category_dir("///"), Err(CATEGORY_NAME_INVALID.to_string()));
}

#[test]
fn saved_title_renames_the_file_stem() {
    assert_eq!(renamed_stem("旧标题", "新标题"), Some("新标题".to_string()));
    assert_eq!(renamed_stem("同名", "同名"), None);
    assert_eq!(renamed_stem("x", "???"), None);
    assert_eq!(renamed_stem("x", "a:b"), Some("ab".to_string()));
}

#[test]
fn category_rename_lists_moved_prompts() {
    let rels = vec!["a.md".to_string(), "notes.txt".to_string(), "sub/b.md".to_string()];
    assert_eq!(moved_prompt_paths("新分类", &rels), vec!["新分类/a.md".to_string(), "新分类/sub/b.md".to_string()]);
    assert!(moved_prompt_paths("x", &Vec::new()).is_empty());
}

#[test]
fn trash_names_flatten_paths_and_count_up() {
    assert_eq!(trash_file_name("写作/a.md", 0), "写作_a.md");
    assert_eq!(trash_file_name("写作/a.md", 2), "2_写作_a.md");
    assert_eq!(trash_file_name("a.md", 10), "10_a.md");
}

#[test]
fn order_file_reads_from_json() {
    let m = order_map_from_text(Some("{\"写作\": [\"写作/b.md\", \"写作/a.md\"], \"a\": []}"));
    assert_eq!(
        m,
        vec![
            ("a".to_string(), Vec::<String>::new()),
            ("写作".to_string(), vec!["写作/b.md".to_string(), "写作/a.md".to_string()]),
        ]
    );
    assert!(order_map_from_text(Some("not json")).is_empty());
    assert!(order_map_from_text(None).is_empty());
}

#[test]
fn reorder_rewrites_the_order_file() {
    let text = reordered_order_text(Some("{\"b\": [\"b/1.md\"]}"), "a", vec!["a/2.md".to_string(), "a/1.md".to_string()]);
    assert_eq!(text, "{\n  \"a\": [\n    \"a/2.md\",\n    \"a/1.md\"\n  ],\n  \"b\": [\n    \"b/1.md\"\n  ]\n}");
    let again = reordered_order_text(Some(&text), "b", Vec::new());
    assert_eq!(order_map_from_text(Some(&again)), vec![
        ("a".to_string(), vec!["a/2.md".to_string(), "a/1.md".to_string()]),
        ("b".to_string(), Vec::new()),
    ]);
    assert_eq!(reordered_order_text(None, "x", Vec::new()), "{\n  \"x\": []\n}");
}

#[test]
fn category_order_is_a_json_list() {
    assert_eq!(category_order_text(&vec!["写作".to_string(), "编程".to_string()]), "[\n  \"写作\",\n  \"编程\"\n]");
    assert_eq!(category_order_text(&Vec::new()), "[]");
}

#[test]
fn sanitized_names_drop_reserved_characters() {
    let loc = prompt_location("分/类", "a/b?c");
    assert_eq!(loc.stem, "abc");
    assert_eq!(loc.dir, Some("分类".to_string()));
    assert_eq!(new_category_dir("..."), Err(CATEGORY_NAME_INVALID.to_string()));
    assert_eq!(category_rename_dirs("旧", "|*"), Err(NEW_CATEGORY_NAME_INVALID.to_string()));
    assert_eq!(renamed_stem("abc", "a:b:c"), None);
    let long: String = "好".repeat(100);
    assert_eq!(prompt_location("", &long).stem, "好".repeat(85));
}
