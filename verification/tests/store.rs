use prompt_pocket::meta::parse_markdown;

#[test]
fn parse_legacy_with_tags_field() {
    let content = "---\ntitle: 旧格式\ntags: [a, b]\n---\n\n正文";
    let (meta, body) = parse_markdown(content);
    assert_eq!(meta.title, "旧格式");
    assert_eq!(body, "正文");
}
