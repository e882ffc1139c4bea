use prompt_pocket::percent::{urlencoding_decode, urlencoding_encode};
use prompt_pocket::webdav::{extract_rel_path, remote_url, sanitize_remote_path};

#[test]
fn test_sanitize_remote_path() {
    assert_eq!(sanitize_remote_path("/PromptPocket/"), "PromptPocket");
    assert_eq!(sanitize_remote_path("PromptPocket"), "PromptPocket");
    assert_eq!(sanitize_remote_path(""), "");
}

#[test]
fn test_urlencoding_decode() {
    assert_eq!(
        urlencoding_decode("/dav/PromptPocket/%E5%86%99%E4%BD%9C/a.md"),
        Some("/dav/PromptPocket/写作/a.md".to_string())
    );
    assert_eq!(urlencoding_decode("/dav/a/b.md"), Some("/dav/a/b.md".to_string()));
}

#[test]
fn test_extract_rel_path() {
    assert_eq!(
        extract_rel_path("/dav/PromptPocket/%E5%86%99%E4%BD%9C/a.md", "PromptPocket"),
        Some("写作/a.md".to_string())
    );
    assert_eq!(extract_rel_path("/dav/PromptPocket/", "PromptPocket"), None);
}

#[test]
fn urlencoding_encode_decode_roundtrip() {
    assert_eq!(urlencoding_encode("a b#c?d%e"), "a%20b%23c%3Fd%25e");
    assert_eq!(urlencoding_encode("a-b_c.d~e"), "a-b_c.d~e");
    assert_eq!(urlencoding_encode("写"), "%E5%86%99");

    let cases = ["写作/a b.md", "编程/#1 清单.md", "100%.md", "web服务/html-read.md"];
    for c in cases {
        let encoded = urlencoding_encode(c);
        let decoded = urlencoding_decode(&encoded).unwrap();
        assert_eq!(decoded, c, "round-trip 失败: {c}");
    }
}

#[test]
fn remote_url_encodes_all_segments() {
    assert_eq!(remote_url("PromptPocket", "写作/a.md"), "/PromptPocket/%E5%86%99%E4%BD%9C/a.md");
    assert_eq!(remote_url("My Root", "笔记/#1.md"), "/My%20Root/%E7%AC%94%E8%AE%B0/%231.md");
}
