//! The WebDAV remote (Jianguoyun): configuration, request paths, and the
//! level-by-level walk of the remote folder tree.
use vstd::prelude::*;
use vstd::utf8::{encode_utf8, is_ascii_chars};
use crate::percent::{encode_segments, lemma_decode_joined, pct_decode_text, pct_encode, urlencoding_decode};
use crate::sync::{is_trash_or_hidden_rel, join_with, trash_or_hidden, RemoteFile};
use crate::github::{failure, failure_text, CONNECT_TIMEOUT_SECS, REQUEST_TIMEOUT_SECS};
use crate::text::{
    find_chars, first_occurrence, from_char_range, push_char, push_str, skip_char_back, to_chars,
    trim_both_char, trim_end_char, trim_matches_char,
};

verus! {

/// The WebDAV endpoint.
pub const JIANGUO_HOST: &'static str = "https://dav.jianguoyun.com/dav";

/// WebDAV synchronisation settings.
#[derive(Debug, Clone, Default)]
pub struct CloudConfig {
    pub username: String,
    /// Application password.
    pub password: String,
    /// Remote root folder, such as `PromptPocket`.
    pub remote_root: String,
    pub enabled: bool,
}

impl CloudConfig {
    /// Synchronisation is enabled and has a user name and a password.
    pub open spec fn configured(&self) -> bool {
        self.enabled && self.username@.len() > 0 && self.password@.len() > 0
    }

    /// Whether synchronisation is enabled and has a user name and a password.
    pub fn is_configured(&self) -> (r: bool)
        ensures
            r == self.configured(),
    {
        self.enabled && !self.username.as_str().is_empty() && !self.password.as_str().is_empty()
    }
}

/// The remote root without leading and trailing `/`.
pub fn sanitize_remote_path(s: &str) -> (r: String)
    ensures
        r@ == trim_both_char(s@, '/'),
{
    trim_matches_char(s, '/')
}

/// Normalising the remote root twice is normalising it once.
pub proof fn law_remote_root_idempotent(s: Seq<char>)
    ensures
        trim_both_char(trim_both_char(s, '/'), '/') == trim_both_char(s, '/'),
{
    crate::text::lemma_trim_both_idempotent(s, '/');
}

/// The request path of the remote file `rel` under `root`: `/root/rel`, each
/// segment of both percent-encoded.
pub open spec fn remote_url_text(root: Seq<char>, rel: Seq<char>) -> Seq<char> {
    seq!['/'] + pct_encode(encode_utf8(root), true) + seq!['/'] + pct_encode(encode_utf8(rel), true)
}

/// The request path of the remote file `rel` under `root`.
pub fn remote_url(root: &str, rel: &str) -> (r: String)
    ensures
        r@ == remote_url_text(root@, rel@),
{
    let mut out = String::new();
    push_char(&mut out, '/');
    push_str(&mut out, encode_segments(root).as_str());
    push_char(&mut out, '/');
    push_str(&mut out, encode_segments(rel).as_str());
    assert(out@ =~= remote_url_text(root@, rel@));
    out
}

/// The request path that lists the remote folder `rel_dir` (the root when
/// empty): `/root/` or `/root/rel_dir/`, segments percent-encoded.
pub open spec fn list_path_text(root: Seq<char>, rel_dir: Seq<char>) -> Seq<char> {
    if rel_dir.len() == 0 {
        seq!['/'] + pct_encode(encode_utf8(root), true) + seq!['/']
    } else {
        remote_url_text(root, rel_dir) + seq!['/']
    }
}

/// The request path that lists the remote folder `rel_dir` under `root`.
pub fn list_path(root: &str, rel_dir: &str) -> (r: String)
    ensures
        r@ == list_path_text(root@, rel_dir@),
{
    if rel_dir.is_empty() {
        let mut out = String::new();
        push_char(&mut out, '/');
        push_str(&mut out, encode_segments(root).as_str());
        push_char(&mut out, '/');
        assert(out@ =~= list_path_text(root@, rel_dir@));
        out
    } else {
        let mut out = remote_url(root, rel_dir);
        push_char(&mut out, '/');
        out
    }
}

/// The path that creates the remote root folder: `/root`, not encoded.
pub fn root_collection_path(root: &str) -> (r: String)
    ensures
        r@ == seq!['/'] + root@,
{
    let mut out = String::new();
    push_char(&mut out, '/');
    push_str(&mut out, root);
    out
}

/// The text of `d` after the first `/root/`, if there is one and it is not empty.
pub open spec fn after_root(d: Seq<char>, root: Seq<char>) -> Option<Seq<char>> {
    let marker = seq!['/'] + root + seq!['/'];
    match first_occurrence(d, marker) {
        None => None,
        Some(i) => {
            let after = d.skip(i + marker.len());
            if after.len() == 0 {
                None
            } else {
                Some(after)
            }
        },
    }
}

/// The path of a remote file `href` (as a WebDAV listing gives it) relative
/// to the root folder: the decoded text after the first `/root/`, if any
/// and not empty.
pub open spec fn extract_rel(href: Seq<char>, root: Seq<char>) -> Option<Seq<char>> {
    match pct_decode_text(href) {
        None => None,
        Some(d) => after_root(d, root),
    }
}

/// A file is listed back under the path it was uploaded to: when the
/// server's listing paths start with `base` (such as `/dav`, ASCII without
/// `%`) and the marker `/root/` first occurs right after it, the href of
/// the file sent to `remote_url(root, rel)` gives back `rel`.
pub proof fn law_uploaded_file_lists_back(base: Seq<char>, root: Seq<char>, rel: Seq<char>)
    requires
        is_ascii_chars(base),
        forall|i: int| 0 <= i < base.len() ==> #[trigger] base[i] != '%',
        rel.len() > 0,
        first_occurrence(base + seq!['/'] + root + seq!['/'] + rel, seq!['/'] + root + seq!['/'])
            == Some(base.len() as int),
    ensures
        extract_rel(base + remote_url_text(root, rel), root) == Some(rel),
{
    let e1 = pct_encode(encode_utf8(root), true);
    let e2 = pct_encode(encode_utf8(rel), true);
    assert(base + remote_url_text(root, rel) =~= base + seq!['/'] + e1 + seq!['/'] + e2);
    lemma_decode_joined(base, root, rel);
    let d = base + seq!['/'] + root + seq!['/'] + rel;
    let marker = seq!['/'] + root + seq!['/'];
    assert(d.skip(base.len() + marker.len() as int) =~= rel);
}

fn text_after_root(decoded: &str, root: &str) -> (r: Option<String>)
    ensures
        r.deep_view() == after_root(decoded@, root@),
{
    let mut marker = String::new();
    push_char(&mut marker, '/');
    push_str(&mut marker, root);
    push_char(&mut marker, '/');
    let ds = to_chars(decoded);
    let ms = to_chars(marker.as_str());
    assert(ms@ =~= seq!['/'] + root@ + seq!['/']);
    let n = ds.len();
    match find_chars(&ds, &ms) {
        None => None,
        Some(i) => {
            assert(i + ms@.len() <= n);
            let start = i + ms.len();
            if start >= ds.len() {
                None
            } else {
                let r = from_char_range(&ds, start, ds.len());
                assert(ds@.subrange(start as int, ds@.len() as int) =~= ds@.skip(start as int));
                Some(r)
            }
        },
    }
}

/// The path of the remote entry `href` relative to `root`.
pub fn extract_rel_path(href: &str, root: &str) -> (r: Option<String>)
    ensures
        r.deep_view() == extract_rel(href@, root@),
{
    match urlencoding_decode(href) {
        Some(d) => text_after_root(d.as_str(), root),
        None => None,
    }
}

/// What the walk does with one entry of a listing.
#[derive(Debug)]
pub enum WalkStep {
    /// Ignore it.
    Skip,
    /// A remote file to synchronise.
    File(RemoteFile),
    /// A folder to list next, by its path relative to the root.
    Descend(String),
}

/// The walk's decision for an entry of the listing of `rel_dir`: files and
/// folders outside the root, in `.trash` or hidden are ignored, and so are
/// the listed folder itself and the root; other files are taken, other
/// folders are listed in turn (their path without trailing `/`).
pub open spec fn walk_decision(
    is_folder: bool,
    href: Seq<char>,
    content_length: i64,
    root: Seq<char>,
    rel_dir: Seq<char>,
) -> Option<(bool, Seq<char>)> {
    match extract_rel(href, root) {
        None => None,
        Some(rel) => if !is_folder {
            if trash_or_hidden(rel) {
                None
            } else {
                Some((false, rel))
            }
        } else {
            let r = trim_end_char(rel, '/');
            if r.len() == 0 || r == rel_dir || trash_or_hidden(r) {
                None
            } else {
                Some((true, r))
            }
        },
    }
}

/// Listing the remote: a file whose path (relative to the root) has no
/// segment starting with `.` is taken, with its path and length; so are the
/// two order files at the top (`.order.json`, `.category-order.json`), so
/// that the order set on one device comes back on another; a file under
/// `.trash/` is skipped.
pub proof fn law_listed_files_taken(
    href: Seq<char>,
    content_length: i64,
    root: Seq<char>,
    rel_dir: Seq<char>,
    rel: Seq<char>,
)
    requires
        extract_rel(href, root) == Some(rel),
    ensures
        (forall|i: int| 0 <= i < rel.len() && #[trigger] rel[i] == '.' ==> i > 0 && rel[i - 1] != '/') ==> walk_decision(
            false,
            href,
            content_length,
            root,
            rel_dir,
        ) == Some((false, rel)),
        rel == ".order.json"@ || rel == ".category-order.json"@ ==> walk_decision(
            false,
            href,
            content_length,
            root,
            rel_dir,
        ) == Some((false, rel)),
        rel.len() >= 7 && rel.take(7) == ".trash/"@ ==> walk_decision(false, href, content_length, root, rel_dir)
            is None,
{
    if rel.len() >= 7 && rel.take(7) == ".trash/"@ {
        reveal_strlit(".trash/");
        reveal_strlit(".order.json");
        reveal_strlit(".category-order.json");
        assert(rel[1] == rel.take(7)[1]);
        assert(rel[0] == rel.take(7)[0]);
        assert(rel != crate::sync::order_file());
        assert(rel != crate::sync::category_order_file());
        assert(crate::sync::has_hidden_segment(rel));
    }
}

/// Decides what the walk does with one entry of the listing of `rel_dir`.
pub fn walk_step(
    is_folder: bool,
    href: &str,
    content_length: i64,
    root: &str,
    rel_dir: &str,
) -> (r: WalkStep)
    ensures
        match walk_decision(is_folder, href@, content_length, root@, rel_dir@) {
            None => r is Skip,
            Some((false, rel)) => r matches WalkStep::File(f) && f.rel@ == rel && f.content_length == content_length,
            Some((true, rel)) => r matches WalkStep::Descend(d) && d@ == rel,
        },
{
    let rel = match extract_rel_path(href, root) {
        Some(r) => r,
        None => return WalkStep::Skip,
    };
    if !is_folder {
        if is_trash_or_hidden_rel(rel.as_str()) {
            return WalkStep::Skip;
        }
        return WalkStep::File(RemoteFile { rel, content_length });
    }
    let cs = to_chars(rel.as_str());
    let n = skip_char_back(&cs, 0, cs.len(), '/');
    assert(cs@.subrange(0, cs@.len() as int) =~= cs@);
    let trimmed = from_char_range(&cs, 0, n);
    if trimmed.as_str().is_empty() || crate::text::compare_text(trimmed.as_str(), rel_dir)
        == crate::text::TextOrder::Equal || is_trash_or_hidden_rel(trimmed.as_str()) {
        return WalkStep::Skip;
    }
    WalkStep::Descend(trimmed)
}

/// The state of a walk of the remote tree: the folders still to list (first
/// in, first out), the files found, the errors met.
#[derive(Debug)]
pub struct RemoteWalk {
    root: String,
    pending: Vec<String>,
    next: usize,
    files: Vec<RemoteFile>,
    errors: Vec<String>,
}

impl RemoteWalk {
    #[verifier::type_invariant]
    closed spec fn wf(&self) -> bool {
        &&& self.next <= self.pending@.len()
        &&& forall|i: int| 0 <= i < self.files@.len() ==> !trash_or_hidden(#[trigger] self.files@[i].rel@)
    }

    /// The remote root of the walk.
    pub closed spec fn root_text(&self) -> Seq<char> {
        self.root@
    }

    /// Folders still to be listed, in order.
    pub closed spec fn queue(&self) -> Seq<Seq<char>> {
        self.pending.deep_view().skip(self.next as int)
    }

    /// Files found so far: (relative path, size).
    pub closed spec fn found(&self) -> Seq<(Seq<char>, i64)> {
        self.files@.map_values(|f: RemoteFile| (f.rel@, f.content_length))
    }

    /// Errors met so far.
    pub closed spec fn error_texts(&self) -> Seq<Seq<char>> {
        self.errors.deep_view()
    }

    /// A walk of the tree under `root` that starts with the root folder.
    pub fn new(root: String) -> (w: Self)
        ensures
            w.root_text() == root@,
            w.queue() == seq![Seq::<char>::empty()],
            w.found().len() == 0,
            w.error_texts().len() == 0,
    {
        let mut pending = Vec::new();
        pending.push(String::new());
        let w = RemoteWalk { root, pending, next: 0, files: Vec::new(), errors: Vec::new() };
        assert(w.queue() =~= seq![Seq::<char>::empty()]);
        w
    }

    /// The next folder to list and the request path that lists it; `None`
    /// when the walk is over.
    pub fn next_folder(&mut self) -> (r: Option<(String, String)>)
        ensures
            final(self).root_text() == old(self).root_text(),
            final(self).found() == old(self).found(),
            final(self).error_texts() == old(self).error_texts(),
            old(self).queue().len() == 0 ==> r is None && final(self).queue() == old(self).queue(),
            old(self).queue().len() > 0 ==> (r matches Some((dir, path)) && dir@ == old(self).queue()[0]
                && path@ == list_path_text(old(self).root_text(), dir@) && final(self).queue()
                == old(self).queue().drop_first()),
    {
        proof {
            use_type_invariant(&*self);
        }
        if self.next >= self.pending.len() {
            return None;
        }
        let dir = self.pending[self.next].clone();
        let path = list_path(self.root.as_str(), dir.as_str());
        assert(self.pending.deep_view().skip(self.next as int)[0] == self.pending.deep_view()[self.next as int]);
        let ghost q = self.queue();
        self.next = self.next + 1;
        assert(self.queue() =~= q.drop_first());
        Some((dir, path))
    }

    /// Takes one entry of the listing of `rel_dir`.
    pub fn take_entry(&mut self, rel_dir: &str, is_folder: bool, href: &str, content_length: i64)
        ensures
            final(self).root_text() == old(self).root_text(),
            final(self).error_texts() == old(self).error_texts(),
            match walk_decision(is_folder, href@, content_length, old(self).root_text(), rel_dir@) {
                None => final(self).found() == old(self).found() && final(self).queue() == old(self).queue(),
                Some((false, rel)) => final(self).found() == old(self).found().push((rel, content_length))
                    && final(self).queue() == old(self).queue(),
                Some((true, rel)) => final(self).found() == old(self).found() && final(self).queue()
                    == old(self).queue().push(rel),
            },
    {
        proof {
            use_type_invariant(&*self);
        }
        let ghost q = self.queue();
        let ghost f = self.found();
        match walk_step(is_folder, href, content_length, self.root.as_str(), rel_dir) {
            WalkStep::Skip => {},
            WalkStep::File(file) => {
                let mut files: Vec<RemoteFile> = Vec::new();
                let ghost before = self.files@;
                std::mem::swap(&mut files, &mut self.files);
                assert(files@ == before);
                files.push(file);
                assert(forall|i: int| 0 <= i < before.len() ==> files@[i] == before[i]);
                self.files = files;
                assert(self.found() =~= f.push((file.rel@, content_length)));
            },
            WalkStep::Descend(d) => {
                let next = self.next;
                self.next = 0;
                let mut pending: Vec<String> = Vec::new();
                let ghost before = self.pending@;
                std::mem::swap(&mut pending, &mut self.pending);
                assert(pending@ == before);
                pending.push(d);
                self.pending = pending;
                self.next = next;
                assert(self.queue() =~= q.push(d@));
            },
        }
    }

    /// Records that listing `rel_dir` failed with `e`; the walk goes on
    /// with the other folders.
    pub fn listing_failed(&mut self, rel_dir: &str, e: &str)
        ensures
            final(self).root_text() == old(self).root_text(),
            final(self).found() == old(self).found(),
            final(self).queue() == old(self).queue(),
            final(self).error_texts() == old(self).error_texts().push(
                "列出远程目录 "@ + (if rel_dir@.len() == 0 {
                    seq!['/']
                } else {
                    rel_dir@ + seq!['/']
                }) + " 失败: "@ + e@,
            ),
    {
        proof {
            use_type_invariant(&*self);
        }
        let mut msg = String::new();
        push_str(&mut msg, "列出远程目录 ");
        if rel_dir.is_empty() {
            push_char(&mut msg, '/');
        } else {
            push_str(&mut msg, rel_dir);
            push_char(&mut msg, '/');
        }
        push_str(&mut msg, " 失败: ");
        push_str(&mut msg, e);
        let ghost before = self.errors.deep_view();
        let mut errors: Vec<String> = Vec::new();
        std::mem::swap(&mut errors, &mut self.errors);
        assert(errors.deep_view() == before);
        errors.push(msg);
        self.errors = errors;
        assert(self.errors.deep_view() =~= before.push(msg@));
        assert(msg@ =~= "列出远程目录 "@ + (if rel_dir@.len() == 0 {
            seq!['/']
        } else {
            rel_dir@ + seq!['/']
        }) + " 失败: "@ + e@);
    }

    /// The files found and the errors met.
    pub fn finish(self) -> (r: (Vec<RemoteFile>, Vec<String>))
        ensures
            r.0@.map_values(|f: RemoteFile| (f.rel@, f.content_length)) == self.found(),
            r.1.deep_view() == self.error_texts(),
            forall|i: int| 0 <= i < r.0@.len() ==> !trash_or_hidden(#[trigger] r.0@[i].rel@),
    {
        proof {
            use_type_invariant(&self);
        }
        (self.files, self.errors)
    }
}

#[verifier::external_type_specification]
#[verifier::external_body]
pub struct ExDavClient(reqwest_dav::Client);

#[verifier::external_type_specification]
#[verifier::external_body]
pub struct ExDavAgent(reqwest_dav::re_exports::reqwest::Client);

/// The settings of the WebDAV client, as plain values: the server, the
/// account's user name and password, and the connect and total timeouts in
/// seconds.
#[derive(Debug, Clone)]
pub struct DavSettings {
    pub host: String,
    pub user: String,
    pub password: String,
    pub connect_secs: u64,
    pub total_secs: u64,
}

/// The client settings of the WebDAV remote for `cfg`: the Jianguoyun
/// server, the account of `cfg`, 15 s to connect and 60 s per request.
pub fn dav_settings(cfg: &CloudConfig) -> (r: DavSettings)
    ensures
        r.host@ == JIANGUO_HOST@,
        r.user@ == cfg.username@,
        r.password@ == cfg.password@,
        r.connect_secs == CONNECT_TIMEOUT_SECS,
        r.total_secs == REQUEST_TIMEOUT_SECS,
{
    DavSettings {
        host: String::from_str(JIANGUO_HOST),
        user: cfg.username.clone(),
        password: cfg.password.clone(),
        connect_secs: CONNECT_TIMEOUT_SECS,
        total_secs: REQUEST_TIMEOUT_SECS,
    }
}

/// The HTTP agent of the WebDAV client (`reqwest::Client::builder()` of the
/// `reqwest` that `reqwest_dav` uses, with the two timeouts of `settings`,
/// then `build()`). Whether it builds depends on the machine, so nothing is
/// stated of the outcome; an error comes back as its display text.
#[verifier::external_body]
fn build_dav_agent(settings: &DavSettings) -> (r: Result<
    reqwest_dav::re_exports::reqwest::Client,
    String,
>) {
    reqwest_dav::re_exports::reqwest::Client::builder().connect_timeout(
        std::time::Duration::from_secs(settings.connect_secs),
    ).timeout(std::time::Duration::from_secs(settings.total_secs)).build().map_err(|e| e.to_string())
}

/// `reqwest_dav::ClientBuilder` with the agent, the host of `settings` and
/// basic authentication with its user name and password, then `build()`.
/// Its source fails only when no host was set, and a host is set here: the
/// result is `Ok`.
#[verifier::external_body]
fn build_dav_client(agent: reqwest_dav::re_exports::reqwest::Client, settings: &DavSettings) -> (r:
    Result<reqwest_dav::Client, String>)
    ensures
        r is Ok,
{
    reqwest_dav::ClientBuilder::new().set_agent(agent).set_host(settings.host.clone()).set_auth(
        reqwest_dav::Auth::Basic(settings.user.clone(), settings.password.clone()),
    ).build().map_err(|e| e.to_string())
}

/// The WebDAV remote: a client built from `settings` (the account's
/// credentials) and the remote root (no leading or trailing `/`).
pub struct WebDavStore {
    pub client: reqwest_dav::Client,
    pub settings: DavSettings,
    pub root: String,
}

impl WebDavStore {
    /// The client for `cfg`, with timeouts so that a slow server cannot
    /// hang a synchronisation; the root loses its leading and trailing `/`.
    pub fn new(cfg: &CloudConfig) -> (r: Result<WebDavStore, String>)
        ensures
            r matches Ok(s) ==> {
                &&& s.root@ == trim_both_char(cfg.remote_root@, '/')
                &&& s.settings.host@ == JIANGUO_HOST@
                &&& s.settings.user@ == cfg.username@
                &&& s.settings.password@ == cfg.password@
                &&& s.settings.connect_secs == CONNECT_TIMEOUT_SECS
                &&& s.settings.total_secs == REQUEST_TIMEOUT_SECS
            },
            r matches Err(e) ==> exists|cause: Seq<char>| e@ == failure_text("客户端构建"@, cause),
    {
        let settings = dav_settings(cfg);
        let agent = match build_dav_agent(&settings) {
            Ok(a) => a,
            Err(e) => {
                let msg = failure("客户端构建", e.as_str());
                assert(msg@ == failure_text("客户端构建"@, e@));
                return Err(msg);
            },
        };
        let client = match build_dav_client(agent, &settings) {
            Ok(c) => c,
            Err(e) => {
                let msg = failure("客户端构建", e.as_str());
                assert(msg@ == failure_text("客户端构建"@, e@));
                return Err(msg);
            },
        };
        Ok(WebDavStore { client, settings, root: sanitize_remote_path(cfg.remote_root.as_str()) })
    }

    /// The request path of the remote file `rel`.
    pub fn file_url(&self, rel: &str) -> (r: String)
        ensures
            r@ == remote_url_text(self.root@, rel@),
    {
        remote_url(self.root.as_str(), rel)
    }
}

/// `s` cut at each `/` (`str::split('/')`): one more part than there are `/`.
pub open spec fn split_slash(s: Seq<char>) -> Seq<Seq<char>>
    decreases s.len(),
{
    if s.len() == 0 {
        seq![Seq::empty()]
    } else {
        let parts = split_slash(s.drop_last());
        if s.last() == '/' {
            parts.push(Seq::empty())
        } else {
            parts.update(parts.len() - 1, parts.last().push(s.last()))
        }
    }
}

/// The non-empty parts of `parts`, in order.
pub open spec fn non_empty(parts: Seq<Seq<char>>) -> Seq<Seq<char>>
    decreases parts.len(),
{
    if parts.len() == 0 {
        Seq::empty()
    } else {
        let rest = non_empty(parts.drop_last());
        if parts.last().len() > 0 {
            rest.push(parts.last())
        } else {
            rest
        }
    }
}

/// For each part, the parts up to it joined by `/`.
pub open spec fn prefix_joins(parts: Seq<Seq<char>>) -> Seq<Seq<char>> {
    Seq::new(parts.len(), |i: int| join_with(parts.take(i + 1), seq!['/']))
}

/// The folder that holds `rel`: the text before its last `/`, if any.
pub open spec fn parent_dir(rel: Seq<char>) -> Option<Seq<char>>
    decreases rel.len(),
{
    if rel.len() == 0 {
        None
    } else if rel.last() == '/' {
        Some(rel.drop_last())
    } else {
        parent_dir(rel.drop_last())
    }
}

/// The folders to create, outermost first, before `rel` can be uploaded:
/// for `a/b/c.md` they are `a` and `a/b` (empty parts are skipped).
pub open spec fn dir_chain(rel: Seq<char>) -> Seq<Seq<char>> {
    match parent_dir(rel) {
        None => Seq::empty(),
        Some(p) => {
            prefix_joins(non_empty(split_slash(p)))
        },
    }
}

proof fn lemma_split_slash_len(s: Seq<char>)
    ensures
        split_slash(s).len() >= 1,
    decreases s.len(),
{
    if s.len() > 0 {
        lemma_split_slash_len(s.drop_last());
    }
}

fn last_slash(cs: &Vec<char>) -> (r: Option<usize>)
    ensures
        r is None ==> parent_dir(cs@) is None,
        r matches Some(k) ==> k < cs@.len() && parent_dir(cs@) == Some(cs@.take(k as int)),
{
    let mut i = cs.len();
    assert(cs@.take(i as int) =~= cs@);
    while i > 0
        invariant
            i <= cs@.len(),
            parent_dir(cs@) == parent_dir(cs@.take(i as int)),
        decreases i,
    {
        assert(cs@.take(i as int).drop_last() =~= cs@.take(i - 1));
        if cs[i - 1] == '/' {
            return Some(i - 1);
        }
        i -= 1;
    }
    None
}

/// Appends the part `cur` to the chain: the joined prefix grows by `cur`
/// and is recorded.
fn extend_chain(acc: &mut String, out: &mut Vec<String>, cur: &String, Ghost(ne): Ghost<Seq<Seq<char>>>)
    requires
        cur@.len() > 0,
        old(acc)@ == join_with(ne, seq!['/']),
        old(out).deep_view() == prefix_joins(ne),
    ensures
        final(acc)@ == join_with(ne.push(cur@), seq!['/']),
        final(out).deep_view() == prefix_joins(ne.push(cur@)),
{
    let ghost ne2 = ne.push(cur@);
    assert(ne2.drop_last() =~= ne);
    assert(out.deep_view().len() == out@.len());
    if out.len() == 0 {
        assert(ne.len() == 0);
        assert(ne2 =~= seq![cur@]);
        *acc = cur.clone();
    } else {
        assert(ne.len() > 0);
        push_char(acc, '/');
        push_str(acc, cur.as_str());
        assert(acc@ =~= join_with(ne, seq!['/']) + seq!['/'] + cur@);
    }
    assert(acc@ == join_with(ne2, seq!['/']));
    let ghost before = out.deep_view();
    let copy = acc.clone();
    out.push(copy);
    assert(out.deep_view() =~= before.push(copy@));
    assert(ne2.take(ne2.len() as int) =~= ne2);
    assert forall|i: int| 0 <= i < ne.len() implies #[trigger] ne2.take(i + 1) == ne.take(i + 1) by {
        assert(ne2.take(i + 1) =~= ne.take(i + 1));
    }
    assert(out.deep_view() =~= prefix_joins(ne2));
}

/// The folders to create, outermost first, before `rel` can be uploaded
/// to a WebDAV server, which makes them one level at a time.
pub fn remote_dir_chain(rel: &str) -> (r: Vec<String>)
    ensures
        r.deep_view() == dir_chain(rel@),
{
    let cs = to_chars(rel);
    let k = match last_slash(&cs) {
        None => {
            let v: Vec<String> = Vec::new();
            assert(v.deep_view() =~= dir_chain(rel@));
            return v;
        },
        Some(k) => k,
    };
    let ghost p = cs@.take(k as int);
    let mut out: Vec<String> = Vec::new();
    let mut acc = String::new();
    let mut cur = String::new();
    let mut j: usize = 0;
    assert(p.take(0) =~= Seq::<char>::empty());
    assert(split_slash(p.take(0)).drop_last() =~= Seq::<Seq<char>>::empty());
    assert(out.deep_view() =~= prefix_joins(Seq::empty()));
    while j < k
        invariant
            j <= k < cs@.len(),
            p == cs@.take(k as int),
            cur@ == split_slash(p.take(j as int)).last(),
            split_slash(p.take(j as int)).len() >= 1,
            acc@ == join_with(non_empty(split_slash(p.take(j as int)).drop_last()), seq!['/']),
            out.deep_view() == prefix_joins(non_empty(split_slash(p.take(j as int)).drop_last())),
        decreases k - j,
    {
        let c = cs[j];
        let ghost sp = split_slash(p.take(j as int));
        let ghost ne = non_empty(sp.drop_last());
        assert(p.take(j + 1).drop_last() =~= p.take(j as int));
        assert(p.take(j + 1).last() == c);
        let ghost sp2 = split_slash(p.take(j + 1));
        if c == '/' {
            assert(sp2 == sp.push(Seq::<char>::empty()));
            assert(sp2.drop_last() =~= sp);
            assert(sp.drop_last() =~= sp.take(sp.len() - 1));
            if !cur.as_str().is_empty() {
                extend_chain(&mut acc, &mut out, &cur, Ghost(ne));
                assert(non_empty(sp) == ne.push(cur@));
            } else {
                assert(non_empty(sp) == ne);
            }
            cur = String::new();
        } else {
            assert(sp2 == sp.update(sp.len() - 1, sp.last().push(c)));
            assert(sp2.drop_last() =~= sp.drop_last());
            push_char(&mut cur, c);
        }
        j += 1;
    }
    let ghost sp = split_slash(p.take(k as int));
    assert(p.take(k as int) =~= p);
    let ghost ne = non_empty(sp.drop_last());
    assert(sp.drop_last() =~= sp.take(sp.len() - 1));
    if !cur.as_str().is_empty() {
        extend_chain(&mut acc, &mut out, &cur, Ghost(ne));
        assert(non_empty(sp) == ne.push(cur@));
    } else {
        assert(non_empty(sp) == ne);
    }
    out
}

/// A failed remote deletion means the file was not there: the error text
/// names status 404 (`404` or `Not Found`).
pub open spec fn is_not_found_text(e: Seq<char>) -> bool {
    first_occurrence(e, "404"@) is Some || first_occurrence(e, "Not Found"@) is Some
}

/// Whether the error text `e` names status 404.
pub fn is_not_found(e: &str) -> (r: bool)
    ensures
        r == is_not_found_text(e@),
{
    let cs = to_chars(e);
    let a = to_chars("404");
    let b = to_chars("Not Found");
    find_chars(&cs, &a).is_some() || find_chars(&cs, &b).is_some()
}

} // verus!
