//! The metadata of a prompt (YAML front matter) and the parsing of a prompt file.
use vstd::prelude::*;
use crate::clock::{iso_utc, now_iso};
use crate::markdown::{bom, split_front, split_front_matter};
use crate::text::{to_chars, trim_start_char};

verus! {

/// Front matter metadata of a prompt.
#[derive(Debug, Clone)]
pub struct PromptMeta {
    pub title: String,
    pub copy_mode: String,
    pub created: String,
    pub updated: String,
}

/// The abstract value of a [`PromptMeta`].
pub struct MetaView {
    pub title: Seq<char>,
    pub copy_mode: Seq<char>,
    pub created: Seq<char>,
    pub updated: Seq<char>,
}

impl View for PromptMeta {
    type V = MetaView;

    open spec fn view(&self) -> MetaView {
        MetaView {
            title: self.title@,
            copy_mode: self.copy_mode@,
            created: self.created@,
            updated: self.updated@,
        }
    }
}

/// The copy mode that a prompt gets when its front matter names none.
pub open spec fn markdown_mode() -> Seq<char> {
    seq!['m', 'a', 'r', 'k', 'd', 'o', 'w', 'n']
}

/// `s` is an ISO-8601 UTC time stamp of some instant.
pub open spec fn is_stamp(s: Seq<char>) -> bool {
    exists|secs: u64| s == iso_utc(secs as nat)
}

/// A fresh metadata record: no title, markdown copy mode, created and updated
/// at one and the same instant.
pub open spec fn is_fresh_meta(m: MetaView, title: Seq<char>) -> bool {
    &&& m.title == title
    &&& m.copy_mode == markdown_mode()
    &&& m.created == m.updated
    &&& is_stamp(m.created)
}

/// The default copy mode, `markdown`.
pub fn default_copy_mode() -> (r: String)
    ensures
        r@ == markdown_mode(),
{
    let r = String::from_str("markdown");
    proof {
        reveal_strlit("markdown");
    }
    assert(r@ =~= markdown_mode());
    r
}

impl Default for PromptMeta {
    /// No title, markdown copy mode, both time stamps set to now.
    fn default() -> (r: Self)
        ensures
            is_fresh_meta(r@, Seq::empty()),
    {
        let now = now_iso();
        PromptMeta {
            title: String::new(),
            copy_mode: default_copy_mode(),
            created: now.clone(),
            updated: now,
        }
    }
}

/// The key/value pairs of the YAML mapping `fm` read with every value taken
/// as a string (`serde_yaml::from_str::<BTreeMap<String, String>>`, keys in
/// ascending order); `None` when that read fails.
pub uninterp spec fn yaml_string_map(fm: Seq<char>) -> Option<Seq<(Seq<char>, Seq<char>)>>;

/// A YAML value as `serde_yaml::Value` sorts it: null, a boolean, a number
/// (in its `Display` form, the only plain form of a `serde_yaml::Number`),
/// a string, a sequence, a mapping, or a tagged value.
#[derive(Debug)]
pub enum YamlItem {
    Null,
    Bool(bool),
    Number(String),
    Text(String),
    Sequence,
    Mapping,
    Tagged,
}

/// The plain value of a [`YamlItem`].
pub enum YamlItemView {
    Null,
    Bool(bool),
    Number(Seq<char>),
    Text(Seq<char>),
    Sequence,
    Mapping,
    Tagged,
}

impl DeepView for YamlItem {
    type V = YamlItemView;

    open spec fn deep_view(&self) -> YamlItemView {
        match self {
            YamlItem::Null => YamlItemView::Null,
            YamlItem::Bool(b) => YamlItemView::Bool(*b),
            YamlItem::Number(n) => YamlItemView::Number(n@),
            YamlItem::Text(t) => YamlItemView::Text(t@),
            YamlItem::Sequence => YamlItemView::Sequence,
            YamlItem::Mapping => YamlItemView::Mapping,
            YamlItem::Tagged => YamlItemView::Tagged,
        }
    }
}

/// The entries of the YAML document `fm` when it is a mapping
/// (`serde_yaml::from_str::<Value>` then `Value::as_mapping`), in document
/// order, each key kept when it is a string (`Value::as_str`) and each value
/// sorted by its variant; `None` when `fm` is not YAML or not a mapping.
pub uninterp spec fn yaml_mapping_items(fm: Seq<char>) -> Option<Seq<(Option<Seq<char>>, YamlItemView)>>;

/// Reads the YAML mapping `fm` with string values
/// (`serde_yaml::from_str::<BTreeMap<String, String>>`).
/// Trusted: the result is `yaml_string_map` of the text; nothing else is claimed.
#[verifier::external_body]
fn yaml_string_entries(fm: &str) -> (r: Option<Vec<(String, String)>>)
    ensures
        r.deep_view() == yaml_string_map(fm@),
{
    serde_yaml::from_str::<std::collections::BTreeMap<String, String>>(fm).ok().map(
        |m| m.into_iter().collect(),
    )
}

/// Reads the YAML document `fm` as a generic value and, when it is a mapping,
/// hands out its entries (`serde_yaml::from_str::<Value>`, `Value::as_mapping`,
/// `Value::as_str` for the keys, one arm per variant of `Value` for the
/// values). Trusted: the result is `yaml_mapping_items` of the text.
#[verifier::external_body]
fn yaml_mapping_entries(fm: &str) -> (r: Option<Vec<(Option<String>, YamlItem)>>)
    ensures
        r.deep_view() == yaml_mapping_items(fm@),
{
    let value: serde_yaml::Value = serde_yaml::from_str(fm).ok()?;
    Some(value.as_mapping()?.iter().map(|(k, v)| (k.as_str().map(String::from), match v {
        serde_yaml::Value::Null => YamlItem::Null,
        serde_yaml::Value::Bool(b) => YamlItem::Bool(*b),
        serde_yaml::Value::Number(n) => YamlItem::Number(n.to_string()),
        serde_yaml::Value::String(t) => YamlItem::Text(t.clone()),
        serde_yaml::Value::Sequence(_) => YamlItem::Sequence,
        serde_yaml::Value::Mapping(_) => YamlItem::Mapping,
        serde_yaml::Value::Tagged(_) => YamlItem::Tagged,
    })).collect())
}

pub open spec fn key_title() -> Seq<char> {
    seq!['t', 'i', 't', 'l', 'e']
}

/// The key under which the copy mode is written.
pub open spec fn key_copy_mode() -> Seq<char> {
    seq!['c', 'o', 'p', 'y', '_', 'm', 'o', 'd', 'e']
}

/// The key under which older files hold the copy mode; it is still read.
pub open spec fn key_copy_mode_old() -> Seq<char> {
    seq!['c', 'o', 'p', 'y', 'M', 'o', 'd', 'e']
}

pub open spec fn key_created() -> Seq<char> {
    seq!['c', 'r', 'e', 'a', 't', 'e', 'd']
}

pub open spec fn key_updated() -> Seq<char> {
    seq!['u', 'p', 'd', 'a', 't', 'e', 'd']
}

/// The value of the first entry of `e` with key `k`.
pub open spec fn lookup(e: Seq<(Seq<char>, Seq<char>)>, k: Seq<char>) -> Option<Seq<char>>
    decreases e.len(),
{
    if e.len() == 0 {
        None
    } else if e[0].0 == k {
        Some(e[0].1)
    } else {
        lookup(e.drop_first(), k)
    }
}

/// The value of the first entry of `e` with key `k`.
pub open spec fn lookup_item(e: Seq<(Option<Seq<char>>, YamlItemView)>, k: Seq<char>) -> Option<YamlItemView>
    decreases e.len(),
{
    if e.len() == 0 {
        None
    } else if e[0].0 == Some(k) {
        Some(e[0].1)
    } else {
        lookup_item(e.drop_first(), k)
    }
}

/// `a`, or `b` where `a` is absent.
pub open spec fn or_else(a: Option<Seq<char>>, b: Option<Seq<char>>) -> Option<Seq<char>> {
    match a {
        Some(x) => Some(x),
        None => b,
    }
}

/// The text that a metadata field reads from a scalar: a string as it is,
/// a number in its `Display` form, a boolean as `true` or `false`, null as
/// the empty text; `None` for a sequence, a mapping or a tagged value.
pub open spec fn item_text(i: YamlItemView) -> Option<Seq<char>> {
    match i {
        YamlItemView::Null => Some(Seq::empty()),
        YamlItemView::Bool(b) => Some(if b { "true"@ } else { "false"@ }),
        YamlItemView::Number(n) => Some(n),
        YamlItemView::Text(t) => Some(t),
        _ => None,
    }
}

/// The text of a looked-up value that is a scalar.
pub open spec fn scalar_text(o: Option<YamlItemView>) -> Option<Seq<char>> {
    match o {
        Some(i) => item_text(i),
        None => None,
    }
}

/// The text of a looked-up value that is a string.
pub open spec fn string_text(o: Option<YamlItemView>) -> Option<Seq<char>> {
    match o {
        Some(YamlItemView::Text(t)) => Some(t),
        _ => None,
    }
}

/// A looked-up value that is a sequence, a mapping or tagged.
pub open spec fn is_nested(o: Option<YamlItemView>) -> bool {
    o matches Some(i) && item_text(i) is None
}

/// One of the metadata keys holds a sequence, a mapping or a tagged value.
pub open spec fn known_key_nested(e: Seq<(Option<Seq<char>>, YamlItemView)>) -> bool {
    ||| is_nested(lookup_item(e, key_title()))
    ||| is_nested(lookup_item(e, key_copy_mode()))
    ||| is_nested(lookup_item(e, key_copy_mode_old()))
    ||| is_nested(lookup_item(e, key_created()))
    ||| is_nested(lookup_item(e, key_updated()))
}

/// What the front matter gives: a complete record, or only a title (the
/// remaining fields then take fresh defaults).
pub enum FrontMeta {
    Record(MetaView),
    TitleOnly(Seq<char>),
}

/// A metadata record from the optional values of its four keys.
pub open spec fn record_of(
    title: Option<Seq<char>>,
    copy_mode: Option<Seq<char>>,
    created: Option<Seq<char>>,
    updated: Option<Seq<char>>,
) -> MetaView {
    MetaView {
        title: title.unwrap_or(Seq::empty()),
        copy_mode: copy_mode.unwrap_or(markdown_mode()),
        created: created.unwrap_or(Seq::empty()),
        updated: updated.unwrap_or(Seq::empty()),
    }
}

/// The metadata that the front matter text `fm` holds. A mapping whose
/// values are all scalars gives a record of its values (the copy mode under
/// `copy_mode`, or else under `copyMode`); so does a mapping whose only
/// nested values lie under other keys, each metadata scalar then read as
/// `item_text` says. Where a metadata key holds a nested or tagged value,
/// or the text is not a mapping, only a string title is kept.
pub open spec fn front_meta(fm: Seq<char>) -> FrontMeta {
    match yaml_string_map(fm) {
        Some(e) => FrontMeta::Record(
            record_of(
                lookup(e, key_title()),
                or_else(lookup(e, key_copy_mode()), lookup(e, key_copy_mode_old())),
                lookup(e, key_created()),
                lookup(e, key_updated()),
            ),
        ),
        None => match yaml_mapping_items(fm) {
            Some(e) => if !known_key_nested(e) {
                FrontMeta::Record(
                    record_of(
                        scalar_text(lookup_item(e, key_title())),
                        or_else(
                            scalar_text(lookup_item(e, key_copy_mode())),
                            scalar_text(lookup_item(e, key_copy_mode_old())),
                        ),
                        scalar_text(lookup_item(e, key_created())),
                        scalar_text(lookup_item(e, key_updated())),
                    ),
                )
            } else {
                FrontMeta::TitleOnly(string_text(lookup_item(e, key_title())).unwrap_or(Seq::empty()))
            },
            None => FrontMeta::TitleOnly(Seq::empty()),
        },
    }
}

/// `m` is the record that the front matter gives, with fresh defaults where
/// the front matter gives only a title.
pub open spec fn meta_of_front(m: MetaView, f: FrontMeta) -> bool {
    match f {
        FrontMeta::Record(v) => m == v,
        FrontMeta::TitleOnly(t) => is_fresh_meta(m, t),
    }
}

/// The text of metadata key number `which` (title, copy mode, its older
/// spelling, created, updated).
pub(crate) fn key_string(which: u8) -> (r: String)
    requires
        which < 5,
    ensures
        which == 0 ==> r@ == key_title(),
        which == 1 ==> r@ == key_copy_mode(),
        which == 2 ==> r@ == key_copy_mode_old(),
        which == 3 ==> r@ == key_created(),
        which == 4 ==> r@ == key_updated(),
{
    let r = if which == 0 {
        String::from_str("title")
    } else if which == 1 {
        String::from_str("copy_mode")
    } else if which == 2 {
        String::from_str("copyMode")
    } else if which == 3 {
        String::from_str("created")
    } else {
        String::from_str("updated")
    };
    proof {
        reveal_strlit("title");
        reveal_strlit("copy_mode");
        reveal_strlit("copyMode");
        reveal_strlit("created");
        reveal_strlit("updated");
    }
    assert(which == 0 ==> r@ =~= key_title());
    assert(which == 1 ==> r@ =~= key_copy_mode());
    assert(which == 2 ==> r@ =~= key_copy_mode_old());
    assert(which == 3 ==> r@ =~= key_created());
    assert(which == 4 ==> r@ =~= key_updated());
    r
}

fn find_entry(e: &Vec<(String, String)>, k: &String) -> (r: Option<String>)
    ensures
        r.deep_view() == lookup(e.deep_view(), k@),
{
    let mut i: usize = 0;
    assert(e.deep_view().skip(0) =~= e.deep_view());
    while i < e.len()
        invariant
            0 <= i <= e@.len(),
            lookup(e.deep_view(), k@) == lookup(e.deep_view().skip(i as int), k@),
        decreases e@.len() - i,
    {
        assert(e.deep_view().skip(i as int).drop_first() =~= e.deep_view().skip(i + 1));
        if e[i].0 == *k {
            return Some(e[i].1.clone());
        }
        i += 1;
    }
    None
}

fn find_item(e: &Vec<(Option<String>, YamlItem)>, k: &String) -> (r: Option<usize>)
    ensures
        r matches Some(i) ==> i < e@.len() && lookup_item(e.deep_view(), k@) == Some(e.deep_view()[i as int].1),
        r is None ==> lookup_item(e.deep_view(), k@) is None,
{
    let mut i: usize = 0;
    assert(e.deep_view().skip(0) =~= e.deep_view());
    while i < e.len()
        invariant
            0 <= i <= e@.len(),
            lookup_item(e.deep_view(), k@) == lookup_item(e.deep_view().skip(i as int), k@),
        decreases e@.len() - i,
    {
        assert(e.deep_view().skip(i as int).drop_first() =~= e.deep_view().skip(i + 1));
        assert(e.deep_view()[i as int] == (e@[i as int].0.deep_view(), e@[i as int].1.deep_view()));
        match &e[i].0 {
            Some(key) => {
                if *key == *k {
                    return Some(i);
                }
            },
            None => {},
        }
        i += 1;
    }
    None
}

/// What the metadata key `k` of the mapping `e` reads: its scalar text, its
/// text when it is a string, and whether it holds a nested value.
fn entry_texts(e: &Vec<(Option<String>, YamlItem)>, k: &String) -> (r: (Option<String>, Option<String>, bool))
    ensures
        r.0.deep_view() == scalar_text(lookup_item(e.deep_view(), k@)),
        r.1.deep_view() == string_text(lookup_item(e.deep_view(), k@)),
        r.2 == is_nested(lookup_item(e.deep_view(), k@)),
{
    match find_item(e, k) {
        None => (None, None, false),
        Some(i) => {
            assert(e.deep_view()[i as int].1 == e@[i as int].1.deep_view());
            match &e[i].1 {
                YamlItem::Null => (Some(String::new()), None, false),
                YamlItem::Bool(b) => {
                    let t = if *b {
                        String::from_str("true")
                    } else {
                        String::from_str("false")
                    };
                    (Some(t), None, false)
                },
                YamlItem::Number(n) => (Some(n.clone()), None, false),
                YamlItem::Text(t) => (Some(t.clone()), Some(t.clone()), false),
                _ => (None, None, true),
            }
        },
    }
}

fn unwrap_or_empty(o: Option<String>) -> (r: String)
    ensures
        r@ == o.deep_view().unwrap_or(Seq::empty()),
{
    match o {
        Some(v) => v,
        None => String::new(),
    }
}

fn first_of(a: Option<String>, b: Option<String>) -> (r: Option<String>)
    ensures
        r.deep_view() == or_else(a.deep_view(), b.deep_view()),
{
    match a {
        Some(x) => Some(x),
        None => b,
    }
}

/// A record from the optional values of its four keys.
fn make_record(
    title: Option<String>,
    copy_mode: Option<String>,
    created: Option<String>,
    updated: Option<String>,
) -> (r: PromptMeta)
    ensures
        r@ == record_of(
            title.deep_view(),
            copy_mode.deep_view(),
            created.deep_view(),
            updated.deep_view(),
        ),
{
    let copy_mode = match copy_mode {
        Some(c) => c,
        None => default_copy_mode(),
    };
    PromptMeta {
        title: unwrap_or_empty(title),
        copy_mode,
        created: unwrap_or_empty(created),
        updated: unwrap_or_empty(updated),
    }
}

/// Reads the metadata out of the front matter text `fm`. Where the text is
/// not a metadata record, the title is still taken when there is one.
pub fn parse_yaml_frontmatter(fm: &str) -> (r: PromptMeta)
    ensures
        meta_of_front(r@, front_meta(fm@)),
{
    match read_front(fm) {
        Ok(m) => m,
        Err(title) => {
            let mut m = PromptMeta::default();
            m.title = title;
            m
        },
    }
}

/// What the front matter text `fm` gives: `Ok` with the record, or `Err`
/// with the only title kept where it is not a metadata record.
pub(crate) fn read_front(fm: &str) -> (r: Result<PromptMeta, String>)
    ensures
        match front_meta(fm@) {
            FrontMeta::Record(v) => r matches Ok(m) && m@ == v,
            FrontMeta::TitleOnly(t) => r matches Err(x) && x@ == t,
        },
{
    let k_title = key_string(0);
    let k_copy = key_string(1);
    let k_copy_old = key_string(2);
    let k_created = key_string(3);
    let k_updated = key_string(4);
    match yaml_string_entries(fm) {
        Some(e) => Ok(
            make_record(
                find_entry(&e, &k_title),
                first_of(find_entry(&e, &k_copy), find_entry(&e, &k_copy_old)),
                find_entry(&e, &k_created),
                find_entry(&e, &k_updated),
            ),
        ),
        None => match yaml_mapping_entries(fm) {
            Some(e) => {
                let (t, t_str, t_nested) = entry_texts(&e, &k_title);
                let (c, _, c_nested) = entry_texts(&e, &k_copy);
                let (co, _, co_nested) = entry_texts(&e, &k_copy_old);
                let (cr, _, cr_nested) = entry_texts(&e, &k_created);
                let (u, _, u_nested) = entry_texts(&e, &k_updated);
                if t_nested || c_nested || co_nested || cr_nested || u_nested {
                    Err(unwrap_or_empty(t_str))
                } else {
                    Ok(make_record(t, first_of(c, co), cr, u))
                }
            },
            None => Err(String::new()),
        },
    }
}

/// `m` is what reading front matter `f` gives once an empty creation time is
/// replaced by the current time.
pub open spec fn parsed_meta(m: MetaView, f: FrontMeta) -> bool {
    match f {
        FrontMeta::Record(v) => {
            &&& m.title == v.title
            &&& m.copy_mode == v.copy_mode
            &&& m.updated == v.updated
            &&& if v.created.len() == 0 {
                is_stamp(m.created)
            } else {
                m.created == v.created
            }
        },
        FrontMeta::TitleOnly(t) => is_fresh_meta(m, t),
    }
}

/// Splits the contents of a prompt file into its metadata and its body.
/// A file without a complete front matter block is all body (less any
/// leading byte-order marks), with fresh metadata.
pub fn parse_markdown(content: &str) -> (r: (PromptMeta, String))
    ensures
        match split_front(content@) {
            Some((fm, body)) => r.1@ == body && parsed_meta(r.0@, front_meta(fm)),
            None => r.1@ == trim_start_char(content@, bom()) && is_fresh_meta(r.0@, Seq::empty()),
        },
{
    let cs = to_chars(content);
    match split_front_matter(&cs) {
        Some((fm, body)) => {
            let mut meta = parse_yaml_frontmatter(fm.as_str());
            if meta.created.as_str().is_empty() {
                meta.created = now_iso();
            }
            (meta, body)
        },
        None => {
            let start = crate::text::skip_char(&cs, 0, '\u{feff}');
            assert(cs@.skip(0) =~= cs@);
            let body = crate::text::from_char_range(&cs, start, cs.len());
            assert(cs@.subrange(start as int, cs@.len() as int) =~= cs@.skip(start as int));
            (PromptMeta::default(), body)
        },
    }
}

} // verus!
