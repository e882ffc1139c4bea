//! Writing and reading the text of a prompt file.
use vstd::prelude::*;
use crate::markdown::{crs_to_eol, dashes, delim_line, frontmatter_end, is_first_delim, line_start, split_front, trim_dashes, trim_gap, is_gap_char, after_open};
use crate::meta::{front_meta, is_stamp, key_string, key_copy_mode, key_created, key_title, key_updated, lookup, parse_markdown, parsed_meta, yaml_string_map, FrontMeta, MetaView, PromptMeta};
use crate::clock::now_iso;
use crate::text::{from_char_range, push_char, push_str, to_chars, trim_start_char};

verus! {

/// The body and metadata of a prompt as the editor shows them.
#[derive(Debug)]
pub struct PromptContent {
    pub meta: PromptMeta,
    pub body: String,
}

/// What the editor sends to save a prompt.
#[derive(Debug)]
pub struct SaveRequest {
    pub title: String,
    pub copy_mode: String,
    pub body: String,
}

/// `c` is a white-space character (`char::is_whitespace`, Unicode White_Space).
pub open spec fn is_white_space(c: char) -> bool {
    ||| c == '\t' || c == '\n' || c == '\u{b}' || c == '\u{c}' || c == '\r' || c == ' '
    ||| c == '\u{85}' || c == '\u{a0}' || c == '\u{1680}'
    ||| ('\u{2000}' <= c && c <= '\u{200a}')
    ||| c == '\u{2028}' || c == '\u{2029}' || c == '\u{202f}' || c == '\u{205f}' || c == '\u{3000}'
}

pub(crate) fn white_space(c: char) -> (b: bool)
    ensures
        b == is_white_space(c),
{
    c == '\t' || c == '\n' || c == '\u{b}' || c == '\u{c}' || c == '\r' || c == ' ' || c == '\u{85}'
        || c == '\u{a0}' || c == '\u{1680}' || ('\u{2000}' <= c && c <= '\u{200a}') || c == '\u{2028}'
        || c == '\u{2029}' || c == '\u{202f}' || c == '\u{205f}' || c == '\u{3000}'
}

/// `s` without its trailing white space.
pub open spec fn trim_end_ws(s: Seq<char>) -> Seq<char>
    decreases s.len(),
{
    if s.len() > 0 && is_white_space(s.last()) {
        trim_end_ws(s.drop_last())
    } else {
        s
    }
}

/// `s` without its trailing line feeds and carriage returns.
pub open spec fn trim_end_newlines(s: Seq<char>) -> Seq<char>
    decreases s.len(),
{
    if s.len() > 0 && (s.last() == '\n' || s.last() == '\r') {
        trim_end_newlines(s.drop_last())
    } else {
        s
    }
}

fn trailing_cut(c: char, newlines_only: bool) -> (b: bool)
    ensures
        b == if newlines_only {
            c == '\n' || c == '\r'
        } else {
            is_white_space(c)
        },
{
    if newlines_only {
        c == '\n' || c == '\r'
    } else {
        white_space(c)
    }
}

/// Length of `cs` once trailing characters satisfying the respective rule are cut.
fn trimmed_end_len(cs: &[char], newlines_only: bool) -> (n: usize)
    ensures
        n <= cs@.len(),
        newlines_only ==> cs@.take(n as int) == trim_end_newlines(cs@),
        !newlines_only ==> cs@.take(n as int) == trim_end_ws(cs@),
{
    let mut n = cs.len();
    assert(cs@.take(n as int) =~= cs@);
    while n > 0 && trailing_cut(cs[n - 1], newlines_only)
        invariant
            n <= cs@.len(),
            newlines_only ==> trim_end_newlines(cs@) == trim_end_newlines(cs@.take(n as int)),
            !newlines_only ==> trim_end_ws(cs@) == trim_end_ws(cs@.take(n as int)),
        decreases n,
    {
        assert(cs@.take(n as int).drop_last() =~= cs@.take(n - 1));
        n -= 1;
    }
    n
}

/// The YAML text that `serde_yaml::to_string` gives for a mapping of the
/// string keys and string values `entries`, in that order; `None` when it
/// reports an error.
pub uninterp spec fn yaml_mapping_text(entries: Seq<(Seq<char>, Seq<char>)>) -> Option<Seq<char>>;

/// Writes a mapping of string keys to string values as YAML
/// (`serde_yaml::Mapping` collected from `entries` in order, then
/// `serde_yaml::to_string`). Trusted: the result is `yaml_mapping_text` of
/// the entries.
#[verifier::external_body]
fn emit_yaml_mapping(entries: &Vec<(String, String)>) -> (r: Option<String>)
    ensures
        r.deep_view() == yaml_mapping_text(entries.deep_view()),
{
    let map: serde_yaml::Mapping = entries.iter().map(
        |(k, v)| (serde_yaml::Value::from(k.as_str()), serde_yaml::Value::from(v.as_str())),
    ).collect();
    serde_yaml::to_string(&map).ok()
}

/// The metadata record as key/value pairs, in the order they are written.
pub open spec fn meta_entries(m: MetaView) -> Seq<(Seq<char>, Seq<char>)> {
    seq![
        (key_title(), m.title),
        (key_copy_mode(), m.copy_mode),
        (key_created(), m.created),
        (key_updated(), m.updated),
    ]
}

pub open spec fn title_prefix() -> Seq<char> {
    seq!['t', 'i', 't', 'l', 'e', ':', ' ']
}

/// The front matter text (without the delimiter lines) for metadata `m`.
pub open spec fn frontmatter_text(m: MetaView) -> Seq<char> {
    match yaml_mapping_text(meta_entries(m)) {
        Some(y) => trim_end_ws(y),
        None => title_prefix() + m.title + seq!['\n'],
    }
}

/// Writes the front matter text for `meta`.
pub fn serialize_frontmatter(meta: &PromptMeta) -> (r: String)
    ensures
        r@ == frontmatter_text(meta@),
{
    let mut entries: Vec<(String, String)> = Vec::new();
    entries.push((key_string(0), meta.title.clone()));
    entries.push((key_string(1), meta.copy_mode.clone()));
    entries.push((key_string(3), meta.created.clone()));
    entries.push((key_string(4), meta.updated.clone()));
    assert(entries.deep_view() =~= meta_entries(meta@));
    match emit_yaml_mapping(&entries) {
        Some(yaml) => {
            let cs = to_chars(yaml.as_str());
            let n = trimmed_end_len(&cs, false);
            from_char_range(&cs, 0, n)
        },
        None => {
            let mut out = String::from_str("title: ");
            proof {
                reveal_strlit("title: ");
            }
            assert(out@ =~= title_prefix());
            push_str(&mut out, meta.title.as_str());
            push_char(&mut out, '\n');
            out
        },
    }
}

/// The text of a prompt file: the front matter between delimiter lines, a
/// blank line, then the body and a final line feed.
pub open spec fn prompt_file_text(fm: Seq<char>, body: Seq<char>) -> Seq<char> {
    seq!['-', '-', '-', '\n'] + fm + seq!['\n', '-', '-', '-', '\n', '\n'] + body + seq!['\n']
}

/// Builds the text of a prompt file from its front matter text and body.
pub fn compose_prompt_file(fm: &str, body: &str) -> (r: String)
    ensures
        r@ == prompt_file_text(fm@, body@),
{
    let mut out = String::new();
    push_str(&mut out, "---\n");
    push_str(&mut out, fm);
    push_str(&mut out, "\n---\n\n");
    push_str(&mut out, body);
    push_char(&mut out, '\n');
    proof {
        reveal_strlit("---\n");
        reveal_strlit("\n---\n\n");
    }
    assert(out@ =~= prompt_file_text(fm@, body@));
    out
}

/// The body that the editor shows for a prompt file: the file's body without
/// its trailing line feeds and carriage returns.
pub open spec fn shown_body(text: Seq<char>) -> Seq<char> {
    match split_front(text) {
        Some((fm, body)) => trim_end_newlines(body),
        None => trim_end_newlines(trim_start_char(text, crate::markdown::bom())),
    }
}

/// Reads a prompt file's text into the metadata and body that the editor shows.
pub fn prompt_content_of(text: &str) -> (r: PromptContent)
    ensures
        r.body@ == shown_body(text@),
        match split_front(text@) {
            Some((fm, body)) => parsed_meta(r.meta@, front_meta(fm)),
            None => crate::meta::is_fresh_meta(r.meta@, Seq::empty()),
        },
{
    let (meta, body) = parse_markdown(text);
    let cs = to_chars(body.as_str());
    let n = trimmed_end_len(&cs, true);
    PromptContent { meta, body: from_char_range(&cs, 0, n) }
}

/// The creation time that saving keeps from the previous text of a file:
/// the front matter's own, when it records one.
pub open spec fn kept_created(old_text: Seq<char>) -> Option<Seq<char>> {
    match split_front(old_text) {
        Some((fm, body)) => match front_meta(fm) {
            FrontMeta::Record(v) => if v.created.len() > 0 {
                Some(v.created)
            } else {
                None
            },
            FrontMeta::TitleOnly(t) => None,
        },
        None => None,
    }
}

/// `m` is the metadata that saving `req` writes over a file that held
/// `old_text` (`None`: no readable file).
pub open spec fn saved_meta(m: MetaView, old_text: Option<Seq<char>>, req_title: Seq<char>, req_copy_mode: Seq<char>) -> bool {
    &&& m.title == req_title
    &&& m.copy_mode == req_copy_mode
    &&& is_stamp(m.updated)
    &&& match old_text {
        Some(t) => match kept_created(t) {
            Some(c) => m.created == c,
            None => is_stamp(m.created),
        },
        None => is_stamp(m.created),
    }
}

/// The metadata that saving a prompt with `title` and `copy_mode` at the
/// time stamp `now` writes over a file that held `old_text` (`None`: no
/// readable file): the creation time kept from the old file when it records
/// one, else `now`; the update time `now`.
pub open spec fn meta_saved_at(old_text: Option<Seq<char>>, title: Seq<char>, copy_mode: Seq<char>, now: Seq<char>) -> MetaView {
    MetaView {
        title,
        copy_mode,
        created: match old_text {
            Some(t) => match kept_created(t) {
                Some(c) => c,
                None => now,
            },
            None => now,
        },
        updated: now,
    }
}

/// The creation time that the old text of a file records, if any.
fn kept_created_of(text: &str) -> (r: Option<String>)
    ensures
        r.deep_view() == kept_created(text@),
{
    let cs = to_chars(text);
    match crate::markdown::split_front_matter(&cs) {
        Some((fm, _)) => match crate::meta::read_front(fm.as_str()) {
            Ok(m) => if m.created.as_str().is_empty() {
                None
            } else {
                Some(m.created)
            },
            Err(_) => None,
        },
        None => None,
    }
}

/// The new text of a prompt file when the editor saves `req` at the time
/// stamp `now` over a file that held `old_text`: the title, copy mode and
/// body of the request, the creation time kept from the old file (or
/// `now`), the update time `now`.
pub fn saved_prompt_text_at(old_text: Option<&str>, req: &SaveRequest, now: &str) -> (r: String)
    ensures
        r@ == prompt_file_text(
            frontmatter_text(meta_saved_at(old_text.deep_view(), req.title@, req.copy_mode@, now@)),
            req.body@,
        ),
{
    let created = match old_text {
        Some(t) => match kept_created_of(t) {
            Some(c) => c,
            None => String::from_str(now),
        },
        None => String::from_str(now),
    };
    let meta = PromptMeta {
        title: req.title.clone(),
        copy_mode: req.copy_mode.clone(),
        created,
        updated: String::from_str(now),
    };
    let fm = serialize_frontmatter(&meta);
    assert(meta@ == meta_saved_at(old_text.deep_view(), req.title@, req.copy_mode@, now@));
    compose_prompt_file(fm.as_str(), req.body.as_str())
}

/// The new text of a prompt file when the editor saves `req` over a file
/// that held `old_text`: the title, copy mode and body of the request, the
/// creation time kept from the old file, the update time now. The clock is
/// read once; a file without a creation time gets that same reading as its
/// creation time.
pub fn saved_prompt_text(old_text: Option<&str>, req: &SaveRequest) -> (r: String)
    ensures
        exists|m: MetaView|
            saved_meta(m, old_text.deep_view(), req.title@, req.copy_mode@) && r@
                == prompt_file_text(frontmatter_text(m), req.body@),
        exists|now: Seq<char>|
            is_stamp(now) && r@ == prompt_file_text(
                frontmatter_text(meta_saved_at(old_text.deep_view(), req.title@, req.copy_mode@, now)),
                req.body@,
            ),
{
    let now = now_iso();
    let r = saved_prompt_text_at(old_text, req, now.as_str());
    proof {
        let m = meta_saved_at(old_text.deep_view(), req.title@, req.copy_mode@, now@);
        assert(saved_meta(m, old_text.deep_view(), req.title@, req.copy_mode@));
    }
    r
}

/// Saving writes the time stamp of the save as the update time: under the
/// premise that the YAML library reads back the record it wrote, reading a
/// file saved at `now` gives the request's title and copy mode, `now` as
/// its update time, and as its creation time the one the old file recorded
/// or else `now`.
pub proof fn law_save_stamps_update_time(
    old_text: Option<Seq<char>>,
    title: Seq<char>,
    copy_mode: Seq<char>,
    now: Seq<char>,
    body: Seq<char>,
)
    requires
        yaml_round_trips(meta_saved_at(old_text, title, copy_mode, now)),
    ensures
        split_front(prompt_file_text(frontmatter_text(meta_saved_at(old_text, title, copy_mode, now)), body))
            matches Some((f, b)) && front_meta(f) matches FrontMeta::Record(v) && v.title == title
            && v.copy_mode == copy_mode && v.updated == now && v.created == (match old_text {
            Some(t) => match kept_created(t) {
                Some(c) => c,
                None => now,
            },
            None => now,
        }),
{
    law_saved_meta_reads_back(meta_saved_at(old_text, title, copy_mode, now), body);
}

/// No line of the front matter text `fm` reads `---`.
pub open spec fn has_no_delim_line(fm: Seq<char>) -> bool {
    forall|q: int|
        0 <= q <= fm.len() && line_start(fm + seq!['\n'], q) ==> !delim_line(fm + seq!['\n'], q)
}

proof fn lemma_crs_prefix(s1: Seq<char>, s2: Seq<char>, i: int, k: int)
    requires
        0 <= i <= k < s1.len(),
        k < s2.len(),
        s1[k] == '\n',
        forall|j: int| i <= j <= k ==> s1[j] == s2[j],
    ensures
        crs_to_eol(s1, i) == crs_to_eol(s2, i),
    decreases k - i,
{
    if i < k {
        lemma_crs_prefix(s1, s2, i + 1, k);
    }
}

proof fn lemma_trim_gap_body(body: Seq<char>)
    requires
        body.len() == 0 || !is_gap_char(body[0]),
    ensures
        trim_gap(seq!['\n', '\n'] + body + seq!['\n']) == (if body.len() == 0 {
            Seq::<char>::empty()
        } else {
            body + seq!['\n']
        }),
{
    let t = seq!['\n', '\n'] + body + seq!['\n'];
    let t1 = t.drop_first();
    let t2 = t1.drop_first();
    assert(t1 =~= seq!['\n'] + body + seq!['\n']);
    assert(t2 =~= body + seq!['\n']);
    assert(trim_gap(t) == trim_gap(t1));
    assert(trim_gap(t1) == trim_gap(t2));
    if body.len() == 0 {
        let t3 = t2.drop_first();
        assert(t3 =~= Seq::<char>::empty());
        assert(trim_gap(t2) == trim_gap(t3));
    } else {
        assert(t2[0] == body[0]);
    }
}

/// Where the closing delimiter of a written prompt file lies.
proof fn lemma_written_split(fm: Seq<char>, body: Seq<char>)
    requires
        has_no_delim_line(fm),
    ensures
        split_front(prompt_file_text(fm, body)) == Some(
            (fm + seq!['\n'], trim_gap(seq!['\n', '\n'] + body + seq!['\n'])),
        ),
{
    let text = prompt_file_text(fm, body);
    let fl = fm + seq!['\n'];
    assert(text[0] == '-');
    assert(trim_start_char(text, crate::markdown::bom()) == text);
    assert(text.take(4) =~= seq!['-', '-', '-', '\n']);
    let rest = text.skip(4);
    assert(rest =~= fm + seq!['\n', '-', '-', '-', '\n', '\n'] + body + seq!['\n']);
    assert(after_open(text) == Some(rest));
    let p: int = fm.len() as int + 1;
    assert(rest.subrange(p, p + 3) =~= dashes());
    assert(rest[p + 3] == '\n');
    assert(delim_line(rest, p));
    assert forall|q: int| 0 <= q < p && line_start(rest, q) implies !delim_line(rest, q) by {
        assert(line_start(fl, q));
        if delim_line(rest, q) {
            assert(q + 3 <= fl.len()) by {
                if q + 3 > fl.len() {
                    assert(rest[fm.len() as int] == '\n');
                    assert(rest.subrange(q, q + 3)[fm.len() - q] == '-');
                }
            }
            assert(rest.subrange(q, q + 3) =~= fl.subrange(q, q + 3));
            lemma_crs_prefix(rest, fl, q + 3, fm.len() as int);
            assert(delim_line(fl, q));
        }
    }
    assert(is_first_delim(rest, p));
    let c = choose|c: int| is_first_delim(rest, c);
    assert(is_first_delim(rest, c));
    assert(c == p);
    assert(frontmatter_end(rest) == Some(p));
    assert(rest.take(p) =~= fl);
    let tail = rest.skip(p);
    assert(tail =~= seq!['-', '-', '-', '\n', '\n'] + body + seq!['\n']);
    assert(tail.take(3) =~= dashes());
    assert(tail.skip(3) =~= seq!['\n', '\n'] + body + seq!['\n']);
    assert(trim_dashes(tail) == trim_dashes(tail.skip(3)));
    assert(trim_dashes(tail.skip(3)) == tail.skip(3));
}

/// What a prompt file holds as its body is what the editor shows again when
/// the file is read back: saving and reading round-trip the body, for a body
/// that does not start with a line break or space nor end with a line break,
/// and front matter text none of whose lines reads `---`; the front matter
/// text is read back as written, followed by its line feed.
pub proof fn law_saved_body_reads_back(fm: Seq<char>, body: Seq<char>)
    requires
        has_no_delim_line(fm),
        body.len() == 0 || !is_gap_char(body[0]),
        body.len() == 0 || (body.last() != '\n' && body.last() != '\r'),
    ensures
        shown_body(prompt_file_text(fm, body)) == body,
        split_front(prompt_file_text(fm, body)) matches Some((f, b)) && f == fm + seq!['\n'],
{
    lemma_written_split(fm, body);
    lemma_trim_gap_body(body);
    if body.len() > 0 {
        let b1 = body + seq!['\n'];
        assert(b1.drop_last() =~= body);
        assert(trim_end_newlines(b1) == trim_end_newlines(body));
    } else {
        assert(trim_end_newlines(Seq::<char>::empty()) == Seq::<char>::empty());
    }
}

/// `serde_yaml` writes the record of `m` with no line reading `---`, and
/// reads that text (with its final line feed) back with the same four
/// values.
pub open spec fn yaml_round_trips(m: MetaView) -> bool {
    match yaml_mapping_text(meta_entries(m)) {
        Some(y) => has_no_delim_line(trim_end_ws(y)) && match yaml_string_map(trim_end_ws(y).push('\n')) {
            Some(e) => {
                &&& lookup(e, key_title()) == Some(m.title)
                &&& lookup(e, key_copy_mode()) == Some(m.copy_mode)
                &&& lookup(e, key_created()) == Some(m.created)
                &&& lookup(e, key_updated()) == Some(m.updated)
            },
            None => false,
        },
        None => false,
    }
}

/// Saved metadata reads back as written, wherever the YAML library reads
/// back the mapping it wrote: reading a saved file gives exactly the
/// metadata `m` it was saved with.
pub proof fn law_saved_meta_reads_back(m: MetaView, body: Seq<char>)
    requires
        yaml_round_trips(m),
    ensures
        split_front(prompt_file_text(frontmatter_text(m), body)) matches Some((f, b)) && front_meta(f)
            == FrontMeta::Record(m),
{
    let fm = frontmatter_text(m);
    lemma_written_split(fm, body);
    assert(fm + seq!['\n'] =~= fm.push('\n'));
}

} // verus!
