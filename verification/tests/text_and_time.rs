use prompt_pocket::clock::{civil_from_days, format_iso_utc, now_iso};
use prompt_pocket::content::{compose_prompt_file, prompt_content_of, saved_prompt_text, serialize_frontmatter, SaveRequest};
use prompt_pocket::markdown::{find_frontmatter_end, split_front_matter};
use prompt_pocket::meta::{default_copy_mode, parse_markdown, PromptMeta};
use prompt_pocket::percent::{encode_segments, urlencoding_decode, urlencoding_encode};

#[test]
fn civil_dates_of_known_days() {
    assert_eq!(civil_from_days(0), (1970, 1, 1));
    assert_eq!(civil_from_days(59), (1970, 3, 1));
    assert_eq!(civil_from_days(11016), (2000, 2, 29));
    assert_eq!(civil_from_days(-1), (1969, 12, 31));
    assert_eq!(civil_from_days(20631), (2026, 6, 27));
}

#[test]
fn iso_time_stamps() {
    assert_eq!(format_iso_utc(0), "1970-01-01T00:00:00Z");
    assert_eq!(format_iso_utc(1_782_518_400), "2026-06-27T00:00:00Z");
    assert_eq!(format_iso_utc(951_782_399), "2000-02-28T23:59:59Z");
    let now = now_iso();
    assert_eq!(now.len(), 20);
    assert!(now.ends_with('Z'));
    assert_eq!(&now[4..5], "-");
    assert_eq!(&now[10..11], "T");
}

#[test]
fn front_matter_end_is_found_on_its_own_line() {
    let cs: Vec<char> = "title: a\n---\nbody".chars().collect();
    assert_eq!(find_frontmatter_end(&cs), Some(9));
    let cs: Vec<char> = "title: a\n----\nbody".chars().collect();
    assert_eq!(find_frontmatter_end(&cs), None);
    let cs: Vec<char> = "title: a\r\n---\r\nbody".chars().collect();
    assert_eq!(find_frontmatter_end(&cs), Some(10));
}

#[test]
fn front_matter_is_split_from_body() {
    let cs: Vec<char> = "\u{feff}---\ntitle: t\n---\n\n\nbody\n".chars().collect();
    assert_eq!(split_front_matter(&cs), Some(("title: t\n".to_string(), "body\n".to_string())));
    let cs: Vec<char> = "no front matter".chars().collect();
    assert_eq!(split_front_matter(&cs), None);
}

#[test]
fn parse_without_front_matter_is_all_body() {
    let (meta, body) = parse_markdown("\u{feff}\u{feff}just text");
    assert_eq!(body, "just text");
    assert_eq!(meta.title, "");
    assert_eq!(meta.copy_mode, "markdown");
    assert_eq!(meta.created, meta.updated);
}

#[test]
fn parse_full_record() {
    let text = "---\ntitle: 标题\ncopyMode: plain\ncreated: 2026-01-01T00:00:00Z\nupdated: 2026-01-02T00:00:00Z\n---\n\n正文\n";
    let (meta, body) = parse_markdown(text);
    assert_eq!(meta.title, "标题");
    assert_eq!(meta.copy_mode, "plain");
    assert_eq!(meta.created, "2026-01-01T00:00:00Z");
    assert_eq!(meta.updated, "2026-01-02T00:00:00Z");
    assert_eq!(body, "正文\n");
}

#[test]
fn readme_front_matter_layout_reads() {
    let (meta, body) = parse_markdown("---\ntitle: T\ncopy_mode: plain\n---\n\nB");
    assert_eq!(meta.title, "T");
    assert_eq!(meta.copy_mode, "plain");
    assert_eq!(body, "B");
}

#[test]
fn scalar_values_read_beside_nested_unknown_key() {
    let (meta, _) = parse_markdown("---\ntitle: 2024\ncopy_mode: plain\ntags:\n  - a\n  - b\n---\n\nB");
    assert_eq!(meta.title, "2024");
    assert_eq!(meta.copy_mode, "plain");
    let (meta, _) = parse_markdown("---\ntitle: [x, y]\ncopy_mode: plain\n---\n\nB");
    assert_eq!(meta.title, "");
    assert_eq!(meta.copy_mode, "markdown");
    let (meta, _) = parse_markdown("---\ntitle: keep\ncreated: [1]\n---\n\nB");
    assert_eq!(meta.title, "keep");
    assert_eq!(meta.copy_mode, "markdown");
}

#[test]
fn default_copy_mode_is_markdown() {
    assert_eq!(default_copy_mode(), "markdown");
}

#[test]
fn front_matter_is_written_as_yaml() {
    let meta = PromptMeta {
        title: "改写润色".to_string(),
        copy_mode: "markdown".to_string(),
        created: "2026-06-27T00:00:00Z".to_string(),
        updated: "2026-06-27T00:00:00Z".to_string(),
    };
    let fm = serialize_frontmatter(&meta);
    assert!(fm.starts_with("title: 改写润色\ncopy_mode: markdown\ncreated: "), "{fm}");
    assert!(fm.contains("\nupdated: "));
    assert!(!fm.ends_with('\n'));
    let (back, _) = parse_markdown(&compose_prompt_file(&fm, "x"));
    assert_eq!(back.title, meta.title);
    assert_eq!(back.copy_mode, meta.copy_mode);
    assert_eq!(back.created, meta.created);
    assert_eq!(back.updated, meta.updated);
    assert_eq!(compose_prompt_file("a: b", "body"), "---\na: b\n---\n\nbody\n");
}

#[test]
fn saved_body_reads_back_unchanged() {
    let req = SaveRequest {
        title: "改过的标题".to_string(),
        copy_mode: "markdown".to_string(),
        body: "这是正文内容\n\n## 第二段\n\n- 列表项1\n- 列表项2".to_string(),
    };
    let text = saved_prompt_text(None, &req);
    let content = prompt_content_of(&text);
    assert_eq!(content.body, req.body);
    assert_eq!(content.meta.title, "改过的标题");
    let again = saved_prompt_text(Some(&text), &req);
    let content2 = prompt_content_of(&again);
    assert_eq!(content2.body, req.body);
    assert_eq!(content2.meta.created, content.meta.created);
}

#[test]
fn percent_encoding_keeps_slashes_only_between_segments() {
    assert_eq!(encode_segments("写作/a b.md"), "%E5%86%99%E4%BD%9C/a%20b.md");
    assert_eq!(urlencoding_encode("a/b"), "a%2Fb");
    assert_eq!(urlencoding_decode("%zz%4"), Some("%zz%4".to_string()));
    assert_eq!(urlencoding_decode("%FF"), None);
    assert_eq!(urlencoding_decode("%+a"), Some("\n".to_string()));
}

#[test]
fn fallback_reads_scalars_beside_nested_values() {
    let (meta, _) = parse_markdown("---\ntitle: true\ncopy_mode:\ncreated: 12\ntags: [a]\n---\n\nB");
    assert_eq!(meta.title, "true");
    assert_eq!(meta.copy_mode, "");
    assert_eq!(meta.created, "12");
}
