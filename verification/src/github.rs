//! The GitHub remote: repository settings, the request paths and bodies of
//! the Contents and Trees APIs, and how a repository tree becomes the list of
//! remote files.
use vstd::prelude::*;
use vstd::utf8::encode_utf8;
use base64::Engine;
use reqwest::header::{HeaderMap, HeaderName, HeaderValue};
use std::time::Duration;
use crate::percent::{encode_segments, pct_encode};
use crate::sync::{is_trash_or_hidden_rel, trash_or_hidden, RemoteFile};
use crate::text::{decimal, push_char, push_decimal, push_str, to_chars, trim_both_char, trim_matches_char, zero_pad};

verus! {

pub const GH_API: &'static str = "https://api.github.com";

pub const GH_API_VERSION: &'static str = "2022-11-28";

pub const GH_USER_AGENT: &'static str = "prompt-pocket";

pub const GH_ACCEPT: &'static str = "application/vnd.github+json";

pub const HEADER_AUTHORIZATION: &'static str = "authorization";

pub const HEADER_USER_AGENT: &'static str = "user-agent";

pub const HEADER_ACCEPT: &'static str = "accept";

pub const HEADER_API_VERSION: &'static str = "x-github-api-version";

/// Seconds allowed to connect to a remote.
pub const CONNECT_TIMEOUT_SECS: u64 = 15;

/// Seconds allowed for a whole request to a remote.
pub const REQUEST_TIMEOUT_SECS: u64 = 60;

/// The media type that makes the Contents API answer with the file's bytes.
pub const GH_ACCEPT_RAW: &'static str = "application/vnd.github.raw";

pub const DEFAULT_BRANCH: &'static str = "main";

pub const REPO_FORMAT_ERROR: &'static str = "仓库格式应为 owner/repo（如 techdou/prompts）";

pub const TOKEN_INVALID_ERROR: &'static str = "PAT 含非法字符";

pub const TREE_TRUNCATED_ERROR: &'static str = "仓库文件树过大被 GitHub 截断，请联系开发者改用分页方案";

/// GitHub archive settings; the token is kept in the system credential store.
#[derive(Debug, Clone, Default)]
pub struct GitHubConfig {
    /// `owner/name`.
    pub repo: String,
    /// `main` when empty.
    pub branch: String,
    /// Folder inside the repository; empty for its root.
    pub prefix: String,
    /// Personal access token.
    pub token: String,
    pub enabled: bool,
}

impl GitHubConfig {
    /// The archive is enabled and has a repository and a token.
    pub open spec fn configured(&self) -> bool {
        self.enabled && self.repo@.len() > 0 && self.token@.len() > 0
    }

    /// Whether the archive is enabled and has a repository and a token.
    pub fn is_configured(&self) -> (r: bool)
        ensures
            r == self.configured(),
    {
        self.enabled && !self.repo.as_str().is_empty() && !self.token.as_str().is_empty()
    }
}

/// A character GitHub allows in an owner or repository name.
pub open spec fn repo_char(c: char) -> bool {
    (97 <= c as u32 <= 122) || (65 <= c as u32 <= 90) || (48 <= c as u32 <= 57) || c == '-' || c
        == '_' || c == '.'
}

/// A non-empty run of name characters.
pub open spec fn repo_part(s: Seq<char>) -> bool {
    s.len() > 0 && forall|i: int| 0 <= i < s.len() ==> repo_char(#[trigger] s[i])
}

/// `s` is `owner/name`: one `/` between two names.
pub open spec fn valid_repo(s: Seq<char>) -> bool {
    exists|k: int| 0 <= k < s.len() && #[trigger] s[k] == '/' && repo_part(s.take(k)) && repo_part(s.skip(k + 1))
}

fn is_repo_part(cs: &Vec<char>, from: usize, to: usize) -> (b: bool)
    requires
        from <= to <= cs@.len(),
    ensures
        b == repo_part(cs@.subrange(from as int, to as int)),
{
    if from == to {
        return false;
    }
    let mut i = from;
    while i < to
        invariant
            from <= i <= to <= cs@.len(),
            forall|j: int| from <= j < i ==> repo_char(#[trigger] cs@[j]),
        decreases to - i,
    {
        let c = cs[i];
        let u = c as u32;
        let ok = (97 <= u && u <= 122) || (65 <= u && u <= 90) || (48 <= u && u <= 57) || c == '-'
            || c == '_' || c == '.';
        if !ok {
            assert(cs@.subrange(from as int, to as int)[i - from] == c);
            return false;
        }
        i += 1;
    }
    assert forall|j: int| 0 <= j < to - from implies repo_char(
        #[trigger] cs@.subrange(from as int, to as int)[j],
    ) by {
        assert(cs@.subrange(from as int, to as int)[j] == cs@[from + j]);
    }
    true
}

/// Checks that `repo` has the form `owner/name`, each part made of ASCII
/// letters, digits, `-`, `_` and `.`.
pub fn validate_repo(repo: &str) -> (r: Result<(), String>)
    ensures
        r is Ok <==> valid_repo(repo@),
        r matches Err(e) ==> e@ == REPO_FORMAT_ERROR@,
{
    let cs = to_chars(repo);
    let n = cs.len();
    let mut k: usize = 0;
    while k < n && cs[k] != '/'
        invariant
            0 <= k <= n == cs@.len(),
            forall|j: int| 0 <= j < k ==> cs@[j] != '/',
        decreases n - k,
    {
        k += 1;
    }
    let ghost s = repo@;
    assert(cs@ == s);
    // Any witness of `valid_repo` is the first `/`.
    assert forall|w: int|
        0 <= w < s.len() && #[trigger] s[w] == '/' && repo_part(s.take(w)) implies w == k by {
        if w > k {
            assert(s.take(w)[k as int] == '/');
        }
    }
    if k == n {
        return Err(String::from_str(REPO_FORMAT_ERROR));
    }
    let a = is_repo_part(&cs, 0, k);
    let b = is_repo_part(&cs, k + 1, n);
    assert(cs@.subrange(0, k as int) =~= s.take(k as int));
    assert(cs@.subrange(k + 1, n as int) =~= s.skip(k + 1));
    if a && b {
        Ok(())
    } else {
        Err(String::from_str(REPO_FORMAT_ERROR))
    }
}

/// An entry of a repository tree: its path, its type (`blob` for a file,
/// `tree` for a folder) and, for a file, its size.
#[derive(Debug, Clone)]
pub struct TreeEntry {
    pub path: String,
    pub kind: String,
    pub size: Option<i64>,
}

/// `path` with the leading `prefix/` taken off, if it starts with it.
pub open spec fn strip_dir_prefix(path: Seq<char>, prefix: Seq<char>) -> Option<Seq<char>> {
    let p = prefix.push('/');
    if p.len() <= path.len() && path.take(p.len() as int) == p {
        Some(path.skip(p.len() as int))
    } else {
        None
    }
}

/// The path relative to the folder `prefix` (the whole path for the root).
pub open spec fn tree_rel(path: Seq<char>, prefix: Seq<char>) -> Option<Seq<char>> {
    if prefix.len() == 0 {
        Some(path)
    } else {
        strip_dir_prefix(path, prefix)
    }
}

/// What a tree entry contributes to the remote file list: a file inside
/// `prefix`, not in `.trash` nor hidden, with its size (0 when unknown).
pub open spec fn tree_item(e: TreeEntry, prefix: Seq<char>) -> Option<(Seq<char>, i64)> {
    if e.kind@ != "blob"@ {
        None
    } else {
        match tree_rel(e.path@, prefix) {
            None => None,
            Some(rel) => if trash_or_hidden(rel) {
                None
            } else {
                Some(
                    (
                        rel,
                        match e.size {
                            Some(n) => n,
                            None => 0,
                        },
                    ),
                )
            },
        }
    }
}

/// The remote files of the tree `entries`, in tree order.
pub open spec fn tree_files(entries: Seq<TreeEntry>, prefix: Seq<char>) -> Seq<(Seq<char>, i64)>
    decreases entries.len(),
{
    if entries.len() == 0 {
        Seq::empty()
    } else {
        let rest = tree_files(entries.drop_last(), prefix);
        match tree_item(entries.last(), prefix) {
            Some(x) => rest.push(x),
            None => rest,
        }
    }
}

/// No file of a GitHub listing lies in `.trash` or is hidden (the order
/// files excepted), and each lies inside the folder `prefix`.
pub proof fn law_tree_files_visible(entries: Seq<TreeEntry>, prefix: Seq<char>)
    ensures
        forall|i: int| 0 <= i < tree_files(entries, prefix).len() ==> !trash_or_hidden(
            #[trigger] tree_files(entries, prefix)[i].0,
        ),
        forall|i: int|
            0 <= i < tree_files(entries, prefix).len() ==> exists|j: int|
                0 <= j < entries.len() && tree_rel(entries[j].path@, prefix) == Some(
                    #[trigger] tree_files(entries, prefix)[i].0,
                ),
    decreases entries.len(),
{
    if entries.len() > 0 {
        let init = entries.drop_last();
        law_tree_files_visible(init, prefix);
        let rest = tree_files(init, prefix);
        let out = tree_files(entries, prefix);
        assert forall|i: int| 0 <= i < out.len() implies !trash_or_hidden(#[trigger] out[i].0) && exists|j: int|
            0 <= j < entries.len() && tree_rel(entries[j].path@, prefix) == Some(out[i].0) by {
            if i < rest.len() {
                assert(out[i] == rest[i]);
                let j = choose|j: int| 0 <= j < init.len() && tree_rel(init[j].path@, prefix) == Some(rest[i].0);
                assert(entries[j] == init[j]);
            } else {
                assert(entries[entries.len() - 1] == entries.last());
            }
        }
    }
}

/// A file uploaded under the folder `prefix` is listed back under the same
/// relative path: the tree path that the Contents API writes for `rel` is
/// mapped back to `rel`.
pub proof fn law_github_path_roundtrip(prefix: Seq<char>, rel: Seq<char>)
    ensures
        tree_rel(full_path_text(prefix, rel), prefix) == Some(rel),
{
    if prefix.len() > 0 {
        let p = prefix.push('/');
        let path = prefix + seq!['/'] + rel;
        assert(path.take(p.len() as int) =~= p);
        assert(path.skip(p.len() as int) =~= rel);
    }
}

/// The path and size of each remote file.
pub open spec fn files_view(v: Seq<RemoteFile>) -> Seq<(Seq<char>, i64)> {
    v.map_values(|f: RemoteFile| (f.rel@, f.content_length))
}

fn strip_prefix_dir(path: &str, prefix: &str) -> (r: Option<String>)
    ensures
        r.deep_view() == strip_dir_prefix(path@, prefix@),
{
    let ps = to_chars(prefix);
    let cs = to_chars(path);
    let n = ps.len();
    if n >= cs.len() {
        proof {
            let p = prefix@.push('/');
            assert(p.len() > path@.len());
        }
        return None;
    }
    let mut i: usize = 0;
    while i < n
        invariant
            0 <= i <= n == ps@.len(),
            n < cs@.len(),
            ps@ == prefix@,
            cs@ == path@,
            forall|j: int| 0 <= j < i ==> cs@[j] == ps@[j],
        decreases n - i,
    {
        if cs[i] != ps[i] {
            proof {
                let p = prefix@.push('/');
                assert(path@.take(p.len() as int)[i as int] != p[i as int]);
            }
            return None;
        }
        i += 1;
    }
    if cs[n] != '/' {
        proof {
            let p = prefix@.push('/');
            assert(path@.take(p.len() as int)[n as int] != p[n as int]);
        }
        return None;
    }
    proof {
        let p = prefix@.push('/');
        assert(path@.take(p.len() as int) =~= p);
    }
    Some(crate::text::from_char_range(&cs, n + 1, cs.len()))
}

/// The remote files of a repository tree: its files (`blob` entries) inside
/// the folder `prefix`, with that prefix taken off, leaving out `.trash` and
/// hidden paths; a missing size counts as 0.
pub fn tree_to_files(tree: Vec<TreeEntry>, prefix: &str) -> (r: Vec<RemoteFile>)
    ensures
        files_view(r@) == tree_files(tree@, prefix@),
{
    let mut out: Vec<RemoteFile> = Vec::new();
    let mut i: usize = 0;
    while i < tree.len()
        invariant
            0 <= i <= tree@.len(),
            files_view(out@) == tree_files(tree@.take(i as int), prefix@),
        decreases tree@.len() - i,
    {
        let e = &tree[i];
        assert(tree@.take(i + 1).drop_last() =~= tree@.take(i as int));
        assert(tree@.take(i + 1).last() == tree@[i as int]);
        let blob = crate::text::compare_text(e.kind.as_str(), "blob") == crate::text::TextOrder::Equal;
        if blob {
            let rel = if prefix.is_empty() {
                Some(String::from_str(e.path.as_str()))
            } else {
                strip_prefix_dir(e.path.as_str(), prefix)
            };
            match rel {
                Some(rel) => {
                    if !is_trash_or_hidden_rel(rel.as_str()) {
                        let size = match e.size {
                            Some(n) => n,
                            None => 0,
                        };
                        let ghost before = out@;
                        out.push(RemoteFile { rel, content_length: size });
                        assert(files_view(out@) =~= files_view(before).push(
                            (out@.last().rel@, size),
                        ));
                    }
                },
                None => {},
            }
        }
        i += 1;
    }
    assert(tree@.take(tree@.len() as int) =~= tree@);
    out
}

/// The error text for a failed request: `what` and the status, with a
/// plain explanation for 401, 403, 404 and 409.
pub open spec fn status_error_text(status: u16, what: Seq<char>) -> Seq<char> {
    if status == 401 {
        what + "失败：PAT 无效或已过期（401）"@
    } else if status == 403 {
        what + "失败：权限不足或触发限速——检查 PAT 是否有该仓库 Contents 读写权限（403）"@
    } else if status == 404 {
        what + "失败：仓库/分支/路径不存在，或 PAT 无权访问（404）"@
    } else if status == 409 {
        what + "失败：分支冲突或仓库为空（409）"@
    } else {
        what + "失败：GitHub 返回 "@ + decimal(status as nat)
    }
}

/// The error text for a request `what` answered with `status`.
pub fn status_error(status: u16, what: &str) -> (r: String)
    ensures
        r@ == status_error_text(status, what@),
{
    let mut out = String::from_str(what);
    if status == 401 {
        push_str(&mut out, "失败：PAT 无效或已过期（401）");
    } else if status == 403 {
        push_str(&mut out, "失败：权限不足或触发限速——检查 PAT 是否有该仓库 Contents 读写权限（403）");
    } else if status == 404 {
        push_str(&mut out, "失败：仓库/分支/路径不存在，或 PAT 无权访问（404）");
    } else if status == 409 {
        push_str(&mut out, "失败：分支冲突或仓库为空（409）");
    } else {
        push_str(&mut out, "失败：GitHub 返回 ");
        push_decimal(&mut out, status as u64, 0);
        assert(zero_pad(decimal(status as nat), 0) == decimal(status as nat));
    }
    out
}

/// `status` is a success (2xx).
pub open spec fn is_success(status: u16) -> bool {
    200 <= status <= 299
}

/// Accepts a successful answer to the request `what`; any other status is
/// an error that explains it.
pub fn check_status(status: u16, what: &str) -> (r: Result<(), String>)
    ensures
        r is Ok <==> is_success(status),
        r matches Err(e) ==> e@ == status_error_text(status, what@),
{
    if 200 <= status && status <= 299 {
        Ok(())
    } else {
        Err(status_error(status, what))
    }
}

/// Reading something that may not exist: 404 means it is absent
/// (`Ok(false)`), a success means it is there (`Ok(true)`), any other
/// status is an error.
pub fn lookup_status(status: u16, what: &str) -> (r: Result<bool, String>)
    ensures
        status == 404 ==> r == Ok::<bool, String>(false),
        status != 404 && is_success(status) ==> r == Ok::<bool, String>(true),
        status != 404 && !is_success(status) ==> (r matches Err(e) && e@ == status_error_text(
            status,
            what@,
        )),
{
    if status == 404 {
        Ok(false)
    } else {
        match check_status(status, what) {
            Ok(()) => Ok(true),
            Err(e) => Err(e),
        }
    }
}

/// The text for an operation `what` that failed with the error `e`.
pub open spec fn failure_text(what: Seq<char>, e: Seq<char>) -> Seq<char> {
    what + "失败: "@ + e
}

/// The text for an operation `what` that failed with the error `e`.
pub fn failure(what: &str, e: &str) -> (r: String)
    ensures
        r@ == failure_text(what@, e@),
{
    let mut out = String::from_str(what);
    push_str(&mut out, "失败: ");
    push_str(&mut out, e);
    out
}

/// Every byte of `b` may stand in an HTTP header value: a tab, or at least
/// 32 and not 127.
pub open spec fn header_bytes_ok(b: Seq<u8>) -> bool {
    forall|i: int| 0 <= i < b.len() ==> ((#[trigger] b[i] >= 32 && b[i] != 127) || b[i] == 9)
}

/// The `Authorization` value for the token `t`.
pub open spec fn bearer_text(t: Seq<char>) -> Seq<char> {
    "Bearer "@ + t
}

#[verifier::external_type_specification]
#[verifier::external_body]
pub struct ExHttpClient(reqwest::Client);

/// Whether `HeaderValue::from_str` accepts `s`: exactly when every byte of
/// its UTF-8 form is a tab, or at least 32 and not 127 (`http` 1.x,
/// `HeaderValue::from_str` and `is_valid`).
#[verifier::external_body]
fn header_value_ok(s: &str) -> (r: bool)
    ensures
        r == header_bytes_ok(encode_utf8(s@)),
{
    HeaderValue::from_str(s).is_ok()
}

/// The settings of an HTTP client, as plain values: its default headers
/// (name and value) in order, and its connect and total timeouts in seconds.
#[derive(Debug, Clone)]
pub struct HttpSettings {
    pub headers: Vec<(String, String)>,
    pub connect_secs: u64,
    pub total_secs: u64,
}

/// The default headers of every GitHub request: the token as bearer, the
/// user agent, the JSON media type and the API version.
pub open spec fn github_header_list(token: Seq<char>) -> Seq<(Seq<char>, Seq<char>)> {
    seq![
        (HEADER_AUTHORIZATION@, bearer_text(token)),
        (HEADER_USER_AGENT@, GH_USER_AGENT@),
        (HEADER_ACCEPT@, GH_ACCEPT@),
        (HEADER_API_VERSION@, GH_API_VERSION@),
    ]
}

/// The client settings of the GitHub remote for `token`: its default
/// headers, 15 s to connect and 60 s per request.
pub fn github_http_settings(token: &str) -> (r: HttpSettings)
    ensures
        r.headers.deep_view() == github_header_list(token@),
        r.connect_secs == CONNECT_TIMEOUT_SECS,
        r.total_secs == REQUEST_TIMEOUT_SECS,
{
    let mut auth = String::from_str("Bearer ");
    push_str(&mut auth, token);
    let mut headers: Vec<(String, String)> = Vec::new();
    headers.push((String::from_str(HEADER_AUTHORIZATION), auth));
    headers.push((String::from_str(HEADER_USER_AGENT), String::from_str(GH_USER_AGENT)));
    headers.push((String::from_str(HEADER_ACCEPT), String::from_str(GH_ACCEPT)));
    headers.push((String::from_str(HEADER_API_VERSION), String::from_str(GH_API_VERSION)));
    assert(headers.deep_view() =~= github_header_list(token@));
    HttpSettings { headers, connect_secs: CONNECT_TIMEOUT_SECS, total_secs: REQUEST_TIMEOUT_SECS }
}

/// `reqwest::Client::builder()` with the default headers of `settings` (each
/// by `HeaderName::from_bytes` and `HeaderValue::from_str`) and its two
/// timeouts, then `build()`. Whether it builds depends on the machine (its
/// TLS set-up), so nothing is stated of the outcome; an error comes back as
/// its display text.
#[verifier::external_body]
fn build_http(settings: &HttpSettings) -> (r: Result<reqwest::Client, String>) {
    let mut headers = HeaderMap::new();
    for (k, v) in settings.headers.iter() {
        let name = HeaderName::from_bytes(k.as_bytes()).map_err(|e| e.to_string())?;
        headers.insert(name, HeaderValue::from_str(v).map_err(|e| e.to_string())?);
    }
    reqwest::Client::builder().connect_timeout(Duration::from_secs(settings.connect_secs)).timeout(
        Duration::from_secs(settings.total_secs),
    ).default_headers(headers).build().map_err(|e| e.to_string())
}

/// The branch to use: `main` when none is set.
pub open spec fn branch_or_main(b: Seq<char>) -> Seq<char> {
    if b.len() == 0 {
        DEFAULT_BRANCH@
    } else {
        b
    }
}

/// The GitHub remote: an HTTP client built from `settings` (the token in its
/// default headers), and the repository, branch and folder (no leading or
/// trailing `/`, empty for the repository root).
pub struct GitHubStore {
    pub http: reqwest::Client,
    pub settings: HttpSettings,
    pub repo: String,
    pub branch: String,
    pub prefix: String,
}

/// `path` inside the repository for the remote file `rel`.
pub open spec fn full_path_text(prefix: Seq<char>, rel: Seq<char>) -> Seq<char> {
    if prefix.len() == 0 {
        rel
    } else {
        prefix + seq!['/'] + rel
    }
}

/// The Contents API URL of the remote file `rel`, its path percent-encoded
/// segment by segment.
pub open spec fn contents_url_text(repo: Seq<char>, prefix: Seq<char>, rel: Seq<char>) -> Seq<char> {
    GH_API@ + "/repos/"@ + repo + "/contents/"@ + pct_encode(
        encode_utf8(full_path_text(prefix, rel)),
        true,
    )
}

/// The commit message of an upload of `rel`.
pub open spec fn update_message_text(rel: Seq<char>) -> Seq<char> {
    "prompt-pocket: update "@ + rel
}

/// The commit message of a deletion of `rel`.
pub open spec fn delete_message_text(rel: Seq<char>) -> Seq<char> {
    "prompt-pocket: delete "@ + rel
}

/// The character of the standard base64 alphabet (RFC 4648) for the six-bit
/// value `v`: `A`–`Z`, `a`–`z`, `0`–`9`, `+`, `/`.
pub open spec fn base64_digit(v: int) -> char {
    if v < 26 {
        (65 + v) as char
    } else if v < 52 {
        (97 + v - 26) as char
    } else if v < 62 {
        (48 + v - 52) as char
    } else if v == 62 {
        '+'
    } else {
        '/'
    }
}

/// The base64 form of `data` (RFC 4648, standard alphabet, padded with
/// `=`): each group of three bytes gives four characters of six bits each,
/// and a last group of one or two bytes gives two or three characters and
/// the padding.
pub open spec fn base64_standard(data: Seq<u8>) -> Seq<char>
    decreases data.len(),
{
    let a = data[0] as int;
    let b = data[1] as int;
    let c = data[2] as int;
    if data.len() == 0 {
        Seq::empty()
    } else if data.len() == 1 {
        seq![base64_digit(a / 4), base64_digit((a % 4) * 16), '=', '=']
    } else if data.len() == 2 {
        seq![base64_digit(a / 4), base64_digit((a % 4) * 16 + b / 16), base64_digit((b % 16) * 4), '=']
    } else {
        seq![
            base64_digit(a / 4),
            base64_digit((a % 4) * 16 + b / 16),
            base64_digit((b % 16) * 4 + c / 64),
            base64_digit(c % 64),
        ] + base64_standard(data.skip(3))
    }
}

/// `base64::engine::general_purpose::STANDARD.encode`. The encoder panics
/// when the encoded length overflows `usize`, hence the `requires`.
#[verifier::external_body]
fn base64_encode(data: &[u8]) -> (r: String)
    requires
        4 * ((data@.len() + 2) / 3) <= usize::MAX,
    ensures
        r@ == base64_standard(data@),
{
    base64::engine::general_purpose::STANDARD.encode(data)
}

/// The body of a Contents API upload: message, base64 content, branch, and
/// the current blob `sha` when the file already exists.
#[derive(Debug, Clone)]
pub struct GitHubPut {
    pub message: String,
    pub content: String,
    pub branch: String,
    pub sha: Option<String>,
}

/// The body of a Contents API deletion.
#[derive(Debug, Clone)]
pub struct GitHubDelete {
    pub message: String,
    pub branch: String,
    pub sha: String,
}

/// The upload body of `rel` whose content is already base64-encoded.
pub fn put_request(rel: &str, encoded: String, branch: &str, sha: Option<String>) -> (r: GitHubPut)
    ensures
        r.message@ == update_message_text(rel@),
        r.content@ == encoded@,
        r.branch@ == branch@,
        r.sha.deep_view() == sha.deep_view(),
{
    let mut message = String::from_str("prompt-pocket: update ");
    push_str(&mut message, rel);
    GitHubPut { message, content: encoded, branch: String::from_str(branch), sha }
}

impl GitHubStore {
    /// The client for `cfg`: the repository must read `owner/name` and the
    /// token must fit in a header; the branch defaults to `main` and the
    /// folder loses its leading and trailing `/`.
    pub fn new(cfg: &GitHubConfig) -> (r: Result<GitHubStore, String>)
        ensures
            !valid_repo(cfg.repo@) ==> (r matches Err(e) && e@ == REPO_FORMAT_ERROR@),
            valid_repo(cfg.repo@) && !header_bytes_ok(encode_utf8(bearer_text(cfg.token@)))
                ==> (r matches Err(e) && e@ == TOKEN_INVALID_ERROR@),
            valid_repo(cfg.repo@) && header_bytes_ok(encode_utf8(bearer_text(cfg.token@)))
                ==> (r matches Err(e) ==> exists|cause: Seq<char>| e@ == failure_text("客户端构建"@, cause)),
            r matches Ok(s) ==> {
                &&& valid_repo(cfg.repo@)
                &&& header_bytes_ok(encode_utf8(bearer_text(cfg.token@)))
                &&& s.repo@ == cfg.repo@
                &&& s.branch@ == branch_or_main(cfg.branch@)
                &&& s.prefix@ == trim_both_char(cfg.prefix@, '/')
                &&& s.settings.headers.deep_view() == github_header_list(cfg.token@)
                &&& s.settings.connect_secs == CONNECT_TIMEOUT_SECS
                &&& s.settings.total_secs == REQUEST_TIMEOUT_SECS
            },
    {
        match validate_repo(cfg.repo.as_str()) {
            Err(e) => return Err(e),
            Ok(()) => {},
        }
        let settings = github_http_settings(cfg.token.as_str());
        assert(settings.headers@.len() == settings.headers.deep_view().len());
        assert(settings.headers@.len() == 4);
        assert(settings.headers.deep_view()[0] == (settings.headers@[0].0@, settings.headers@[0].1@));
        if !header_value_ok(settings.headers[0].1.as_str()) {
            return Err(String::from_str(TOKEN_INVALID_ERROR));
        }
        let http = match build_http(&settings) {
            Ok(c) => c,
            Err(e) => {
                let msg = failure("客户端构建", e.as_str());
                assert(msg@ == failure_text("客户端构建"@, e@));
                return Err(msg);
            },
        };
        let branch = if cfg.branch.as_str().is_empty() {
            String::from_str(DEFAULT_BRANCH)
        } else {
            cfg.branch.clone()
        };
        Ok(GitHubStore {
            http,
            settings,
            repo: cfg.repo.clone(),
            branch,
            prefix: trim_matches_char(cfg.prefix.as_str(), '/'),
        })
    }

    /// The path inside the repository of the remote file `rel`.
    pub fn full_path(&self, rel: &str) -> (r: String)
        ensures
            r@ == full_path_text(self.prefix@, rel@),
    {
        if self.prefix.as_str().is_empty() {
            String::from_str(rel)
        } else {
            let mut out = self.prefix.clone();
            push_char(&mut out, '/');
            push_str(&mut out, rel);
            out
        }
    }

    /// The Contents API URL of the remote file `rel`.
    pub fn contents_url(&self, rel: &str) -> (r: String)
        ensures
            r@ == contents_url_text(self.repo@, self.prefix@, rel@),
    {
        let mut out = String::from_str(GH_API);
        push_str(&mut out, "/repos/");
        push_str(&mut out, self.repo.as_str());
        push_str(&mut out, "/contents/");
        let p = self.full_path(rel);
        push_str(&mut out, encode_segments(p.as_str()).as_str());
        out
    }

    /// The Contents API URL of `rel` on the configured branch (`?ref=`).
    pub fn contents_ref_url(&self, rel: &str) -> (r: String)
        ensures
            r@ == contents_url_text(self.repo@, self.prefix@, rel@) + "?ref="@ + self.branch@,
    {
        let mut out = self.contents_url(rel);
        push_str(&mut out, "?ref=");
        push_str(&mut out, self.branch.as_str());
        out
    }

    /// The URL of the repository itself.
    pub fn repo_url(&self) -> (r: String)
        ensures
            r@ == GH_API@ + "/repos/"@ + self.repo@,
    {
        let mut out = String::from_str(GH_API);
        push_str(&mut out, "/repos/");
        push_str(&mut out, self.repo.as_str());
        out
    }

    /// The URL of the configured branch.
    pub fn branch_url(&self) -> (r: String)
        ensures
            r@ == GH_API@ + "/repos/"@ + self.repo@ + "/branches/"@ + self.branch@,
    {
        let mut out = self.repo_url();
        push_str(&mut out, "/branches/");
        push_str(&mut out, self.branch.as_str());
        out
    }

    /// The URL of the whole tree of the commit `sha`.
    pub fn tree_url(&self, sha: &str) -> (r: String)
        ensures
            r@ == GH_API@ + "/repos/"@ + self.repo@ + "/git/trees/"@ + sha@ + "?recursive=1"@,
    {
        let mut out = self.repo_url();
        push_str(&mut out, "/git/trees/");
        push_str(&mut out, sha);
        push_str(&mut out, "?recursive=1");
        out
    }

    /// The remote files of the branch's tree; a tree that GitHub cut short
    /// is an error.
    pub fn tree_listing(&self, tree: Vec<TreeEntry>, truncated: bool) -> (r: Result<
        Vec<RemoteFile>,
        String,
    >)
        ensures
            truncated ==> (r matches Err(e) && e@ == TREE_TRUNCATED_ERROR@),
            !truncated ==> (r matches Ok(v) && files_view(v@) == tree_files(tree@, self.prefix@)),
    {
        if truncated {
            Err(String::from_str(TREE_TRUNCATED_ERROR))
        } else {
            Ok(tree_to_files(tree, self.prefix.as_str()))
        }
    }

    /// The upload body of `rel` with `content`, given the file's current
    /// blob `sha` (`None` when it does not exist yet).
    pub fn upload_request(&self, rel: &str, content: &[u8], sha: Option<String>) -> (r: GitHubPut)
        requires
            4 * ((content@.len() + 2) / 3) <= usize::MAX,
        ensures
            r.message@ == update_message_text(rel@),
            r.content@ == base64_standard(content@),
            r.branch@ == self.branch@,
            r.sha.deep_view() == sha.deep_view(),
    {
        let encoded = base64_encode(content);
        put_request(rel, encoded, self.branch.as_str(), sha)
    }

    /// The deletion body of `rel` whose current blob is `sha`.
    pub fn delete_request(&self, rel: &str, sha: String) -> (r: GitHubDelete)
        ensures
            r.message@ == delete_message_text(rel@),
            r.branch@ == self.branch@,
            r.sha@ == sha@,
    {
        let mut message = String::from_str("prompt-pocket: delete ");
        push_str(&mut message, rel);
        GitHubDelete { message, branch: self.branch.clone(), sha }
    }
}

} // verus!
