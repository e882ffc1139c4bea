//! Planning changes to prompt files: folder and file names made from what
//! the user typed, the text of a new or renamed prompt, the order file, and
//! paths with `/` separators.
use vstd::prelude::*;
use vstd::utf8::encode_utf8;
use crate::clock::now_iso;
use crate::content::{compose_prompt_file, frontmatter_text, prompt_file_text, serialize_frontmatter};
use crate::markdown::{bom, split_front};
use crate::meta::{default_copy_mode, front_meta, is_fresh_meta, is_stamp, parse_markdown, parsed_meta, MetaView, PromptMeta};
use crate::store::{find_key, uncategorized, uncategorized_name};
use crate::text::{compare_text, push_char, push_decimal, to_chars, decimal, trim_start_char, zero_pad, TextOrder};

verus! {

pub const CATEGORY_NAME_INVALID: &'static str = "分类名无效";

pub const NEW_CATEGORY_NAME_INVALID: &'static str = "新分类名无效";

pub const CATEGORY_MISSING: &'static str = "原分类文件夹不存在";

/// A character that `sanitize_filename` removes on every system: the
/// reserved `/ ? < > \ : * | "` and the control characters.
pub open spec fn reserved_name_char(c: char) -> bool {
    c == '/' || c == '?' || c == '<' || c == '>' || c == '\\' || c == ':' || c == '*' || c == '|'
        || c == '"' || c as u32 <= 0x1f || (0x80 <= c as u32 && c as u32 <= 0x9f)
}

/// What holds of every name `sanitize_filename` gives back: no reserved or
/// control character, not `.` nor `..`, at most 255 bytes.
pub open spec fn safe_name(s: Seq<char>) -> bool {
    &&& forall|i: int| 0 <= i < s.len() ==> !reserved_name_char(#[trigger] s[i])
    &&& s != seq!['.']
    &&& s != seq!['.', '.']
    &&& encode_utf8(s).len() <= 255
}

/// `r` is what is left of `s` once some of its characters are taken out.
pub open spec fn subsequence(r: Seq<char>, s: Seq<char>) -> bool
    decreases s.len(),
{
    if r.len() == 0 {
        true
    } else if s.len() == 0 {
        false
    } else if r.last() == s.last() {
        subsequence(r.drop_last(), s.drop_last())
    } else {
        subsequence(r, s.drop_last())
    }
}

/// `c` is the ASCII lower-case letter `l` in either case.
pub open spec fn letter_ci(c: char, l: char) -> bool {
    c == l || c as u32 + 32 == l as u32
}

pub open spec fn starts_ci(s: Seq<char>, a: char, b: char, c: char) -> bool {
    s.len() >= 3 && letter_ci(s[0], a) && letter_ci(s[1], b) && letter_ci(s[2], c)
}

/// `s` is a reserved Windows device name (`con`, `prn`, `aux`, `nul`,
/// `com0`–`com9`, `lpt0`–`lpt9`, in any case), alone or before a `.`.
pub open spec fn windows_device_name(s: Seq<char>) -> bool {
    ||| (starts_ci(s, 'c', 'o', 'n') || starts_ci(s, 'p', 'r', 'n') || starts_ci(s, 'a', 'u', 'x')
        || starts_ci(s, 'n', 'u', 'l')) && (s.len() == 3 || s[3] == '.')
    ||| (starts_ci(s, 'c', 'o', 'm') || starts_ci(s, 'l', 'p', 't')) && s.len() >= 4 && '0' <= s[3]
        && s[3] <= '9' && (s.len() == 4 || s[4] == '.')
}

/// A name that `sanitize_filename` gives back unchanged on every system:
/// not empty, at most 255 bytes, no reserved or control character, not
/// made of dots only, not a reserved Windows device name, and not ending
/// in a dot or a space.
pub open spec fn plain_name(s: Seq<char>) -> bool {
    &&& s.len() > 0
    &&& encode_utf8(s).len() <= 255
    &&& forall|i: int| 0 <= i < s.len() ==> !reserved_name_char(#[trigger] s[i])
    &&& !(forall|i: int| 0 <= i < s.len() ==> #[trigger] s[i] == '.')
    &&& !windows_device_name(s)
    &&& s.last() != '.'
    &&& s.last() != ' '
}

/// `s` without its trailing dots and spaces.
pub open spec fn trim_end_dots_spaces(s: Seq<char>) -> Seq<char>
    decreases s.len(),
{
    if s.len() > 0 && (s.last() == '.' || s.last() == ' ') {
        trim_end_dots_spaces(s.drop_last())
    } else {
        s
    }
}

/// The longest prefix of `s` whose UTF-8 form has at most 255 bytes.
pub open spec fn fit_255_bytes(s: Seq<char>) -> Seq<char>
    decreases s.len(),
{
    if s.len() == 0 || encode_utf8(s).len() <= 255 {
        s
    } else {
        fit_255_bytes(s.drop_last())
    }
}

/// What `sanitize_filename::sanitize` with its default options gives for
/// `s`, where `windows` is whether it runs on Windows: the reserved and
/// control characters are removed; a name made of dots only becomes empty;
/// on Windows a reserved device name (with any extension) becomes empty and
/// trailing dots and spaces are removed; then the name is cut to its
/// longest prefix of at most 255 UTF-8 bytes.
pub open spec fn sanitized(s: Seq<char>, windows: bool) -> Seq<char> {
    let kept = s.filter(|c: char| !reserved_name_char(c));
    let undotted = if kept.len() > 0 && (forall|i: int| 0 <= i < kept.len() ==> #[trigger] kept[i] == '.') {
        Seq::<char>::empty()
    } else {
        kept
    };
    let system = if windows {
        trim_end_dots_spaces(if windows_device_name(undotted) { Seq::<char>::empty() } else { undotted })
    } else {
        undotted
    };
    fit_255_bytes(system)
}

/// `sanitize_filename::sanitize` with its default options: the result is
/// `sanitized` of the name for the system it runs on (the default options
/// differ only in `cfg!(windows)`, so both outcomes are admitted). Stated
/// too, as they follow on either system: the result keeps some of the
/// name's characters in order and adds none, it is safe, and a plain name,
/// which no step matches, comes back unchanged.
#[verifier::external_body]
fn sanitize_name(s: &str) -> (r: String)
    ensures
        safe_name(r@),
        subsequence(r@, s@),
        plain_name(s@) ==> r@ == s@,
        r@ == sanitized(s@, false) || r@ == sanitized(s@, true),
{
    sanitize_filename::sanitize(s)
}

/// The folder (under the data folder) that holds the prompts of a category
/// whose sanitized name is `safe`: none for the empty name and for the
/// uncategorized name, which live at the top.
pub open spec fn category_dir(safe: Seq<char>) -> Option<Seq<char>> {
    if safe.len() == 0 || safe == uncategorized() {
        None
    } else {
        Some(safe)
    }
}

/// The folder for the sanitized category name `safe`.
pub fn category_dir_of(safe: &str) -> (r: Option<String>)
    ensures
        r.deep_view() == category_dir(safe@),
{
    let u = uncategorized_name();
    if safe.is_empty() || compare_text(safe, u.as_str()) == TextOrder::Equal {
        None
    } else {
        Some(String::from_str(safe))
    }
}

/// Where a new or renamed prompt goes: its folder (`None` for the top of the
/// data folder) and the stem of its file name.
#[derive(Debug, Clone)]
pub struct PromptLocation {
    pub dir: Option<String>,
    pub stem: String,
}

/// The location of a prompt with `title` in `category`: both sanitized; the
/// folder is one plain, non-empty name other than the uncategorized one.
pub fn prompt_location(category: &str, title: &str) -> (r: PromptLocation)
    ensures
        safe_name(r.stem@),
        subsequence(r.stem@, title@),
        r.dir matches Some(d) ==> safe_name(d@) && d@.len() > 0 && d@ != uncategorized(),
        exists|c: Seq<char>| safe_name(c) && subsequence(c, category@) && r.dir.deep_view() == category_dir(c),
        plain_name(title@) ==> r.stem@ == title@,
        plain_name(category@) && category@ != uncategorized() ==> r.dir.deep_view() == Some(category@),
        r.stem@ == sanitized(title@, false) || r.stem@ == sanitized(title@, true),
        r.dir.deep_view() == category_dir(sanitized(category@, false)) || r.dir.deep_view() == category_dir(
            sanitized(category@, true),
        ),
{
    let safe_cat = sanitize_name(category);
    let stem = sanitize_name(title);
    let dir = category_dir_of(safe_cat.as_str());
    PromptLocation { dir, stem }
}

/// The `n`-th candidate file name for `stem`: `stem.md`, then `stem-1.md`,
/// `stem-2.md`, … while the earlier ones are taken.
pub open spec fn candidate_name(stem: Seq<char>, n: nat) -> Seq<char> {
    if n == 0 {
        stem + seq!['.', 'm', 'd']
    } else {
        stem + seq!['-'] + decimal(n) + seq!['.', 'm', 'd']
    }
}

/// The `n`-th candidate file name for `stem`.
pub fn candidate_file_name(stem: &str, n: u64) -> (r: String)
    ensures
        r@ == candidate_name(stem@, n as nat),
{
    let mut out = String::from_str(stem);
    if n > 0 {
        push_char(&mut out, '-');
        push_decimal(&mut out, n, 0);
        assert(zero_pad(decimal(n as nat), 0) == decimal(n as nat));
    }
    push_char(&mut out, '.');
    push_char(&mut out, 'm');
    push_char(&mut out, 'd');
    out
}

/// Distinct candidates are distinct names, so the search for a free name
/// meets a new one at each step.
pub proof fn law_candidates_differ(stem: Seq<char>, m: nat, n: nat)
    requires
        m != n,
    ensures
        candidate_name(stem, m) != candidate_name(stem, n),
{
    lemma_decimal_len(m);
    lemma_decimal_len(n);
    if m == 0 || n == 0 {
        let k = if m == 0 { n } else { m };
        let a = candidate_name(stem, 0);
        let b = candidate_name(stem, k);
        if a == b {
            assert(a.len() == b.len());
        }
    } else {
        let a = candidate_name(stem, m);
        let b = candidate_name(stem, n);
        if a == b {
            lemma_decimal_digits(m);
            lemma_decimal_digits(n);
            let dm = decimal(m);
            let dn = decimal(n);
            assert(dm.len() == dn.len()) by {
                assert(a.len() == b.len());
            }
            assert forall|i: int| 0 <= i < dm.len() implies dm[i] == dn[i] by {
                assert(a[stem.len() + 1 + i] == dm[i]);
                assert(b[stem.len() + 1 + i] == dn[i]);
            }
            assert(dm =~= dn);
            lemma_decimal_injective(m, n);
        }
    }
}

proof fn lemma_decimal_len(n: nat)
    ensures
        decimal(n).len() >= 1,
    decreases n,
{
    if n >= 10 {
        lemma_decimal_len(n / 10);
    }
}

proof fn lemma_decimal_digits(n: nat)
    ensures
        forall|i: int| 0 <= i < decimal(n).len() ==> #[trigger] decimal(n)[i] != '-' && decimal(n)[i]
            != '.',
    decreases n,
{
    if n >= 10 {
        lemma_decimal_digits(n / 10);
        assert forall|i: int| 0 <= i < decimal(n).len() implies #[trigger] decimal(n)[i] != '-'
            && decimal(n)[i] != '.' by {
            if i < decimal(n / 10).len() {
                assert(decimal(n)[i] == decimal(n / 10)[i]);
            }
        }
    }
}

/// The value of a digit character.
spec fn digit_value(c: char) -> nat {
    if c == '0' { 0 } else if c == '1' { 1 } else if c == '2' { 2 } else if c == '3' { 3 }
    else if c == '4' { 4 } else if c == '5' { 5 } else if c == '6' { 6 } else if c == '7' { 7 }
    else if c == '8' { 8 } else { 9 }
}

/// The number that decimal digits stand for.
spec fn digits_value(s: Seq<char>) -> nat
    decreases s.len(),
{
    if s.len() == 0 {
        0
    } else {
        digits_value(s.drop_last()) * 10 + digit_value(s.last())
    }
}

proof fn lemma_digit_value(d: nat)
    requires
        d < 10,
    ensures
        digit_value(crate::text::digit_char(d)) == d,
{
}

proof fn lemma_decimal_value(n: nat)
    ensures
        digits_value(decimal(n)) == n,
    decreases n,
{
    if n >= 10 {
        lemma_decimal_value(n / 10);
        lemma_digit_value(n % 10);
        let d = decimal(n);
        assert(d == decimal(n / 10).push(crate::text::digit_char(n % 10)));
        assert(d.drop_last() =~= decimal(n / 10));
        assert(d.last() == crate::text::digit_char(n % 10));
        assert(digits_value(d) == digits_value(d.drop_last()) * 10 + digit_value(d.last()));
        assert((n / 10) * 10 + n % 10 == n);
    } else {
        lemma_digit_value(n);
        let d = decimal(n);
        assert(d == seq![crate::text::digit_char(n)]);
        assert(d.drop_last() =~= Seq::<char>::empty());
        assert(d.last() == crate::text::digit_char(n));
        assert(digits_value(d) == digits_value(d.drop_last()) * 10 + digit_value(d.last()));
    }
}

proof fn lemma_decimal_injective(m: nat, n: nat)
    requires
        decimal(m) == decimal(n),
    ensures
        m == n,
{
    lemma_decimal_value(m);
    lemma_decimal_value(n);
}

/// A text result as plain values.
pub open spec fn text_result(r: Result<String, String>) -> Result<Seq<char>, Seq<char>> {
    match r {
        Ok(d) => Ok(d@),
        Err(e) => Err(e@),
    }
}

/// A result holding two texts, as plain values.
pub open spec fn pair_result(r: Result<(String, String), String>) -> Result<(Seq<char>, Seq<char>), Seq<char>> {
    match r {
        Ok((o, n)) => Ok((o@, n@)),
        Err(e) => Err(e@),
    }
}

/// The folder name of a new category whose name sanitizes to `safe`, or
/// the error when nothing is left of it.
pub open spec fn new_category_result(safe: Seq<char>) -> Result<Seq<char>, Seq<char>> {
    if safe.len() == 0 {
        Err(CATEGORY_NAME_INVALID@)
    } else {
        Ok(safe)
    }
}

/// The old and new folder names of a category rename whose names sanitize
/// to `old` and `new`, or the error when nothing is left of the new one.
pub open spec fn rename_dirs_result(old: Seq<char>, new: Seq<char>) -> Result<(Seq<char>, Seq<char>), Seq<char>> {
    if new.len() == 0 {
        Err(NEW_CATEGORY_NAME_INVALID@)
    } else {
        Ok((old, new))
    }
}

/// The sanitized name of a new category, or an error when nothing is left
/// of it.
pub fn new_category_dir(name: &str) -> (r: Result<String, String>)
    ensures
        r matches Ok(d) ==> safe_name(d@) && d@.len() > 0 && subsequence(d@, name@),
        r matches Err(e) ==> e@ == CATEGORY_NAME_INVALID@,
        plain_name(name@) ==> (r matches Ok(d) && d@ == name@),
        exists|w: bool| text_result(r) == new_category_result(sanitized(name@, w)),
{
    let safe = sanitize_name(name);
    if safe.as_str().is_empty() {
        Err(String::from_str(CATEGORY_NAME_INVALID))
    } else {
        Ok(safe)
    }
}

/// The sanitized old and new folder names of a category rename, or an
/// error when nothing is left of the new name.
pub fn category_rename_dirs(old_name: &str, new_name: &str) -> (r: Result<(String, String), String>)
    ensures
        r matches Ok((o, n)) ==> safe_name(o@) && safe_name(n@) && n@.len() > 0 && subsequence(o@, old_name@)
            && subsequence(n@, new_name@),
        r matches Err(e) ==> e@ == NEW_CATEGORY_NAME_INVALID@,
        plain_name(new_name@) ==> r is Ok,
        r matches Ok((o, n)) ==> (plain_name(old_name@) ==> o@ == old_name@) && (plain_name(new_name@)
            ==> n@ == new_name@),
        exists|w: bool, v: bool| pair_result(r) == rename_dirs_result(sanitized(old_name@, w), sanitized(new_name@, v)),
{
    let safe_old = sanitize_name(old_name);
    let safe_new = sanitize_name(new_name);
    let ghost w = safe_old@ != sanitized(old_name@, false);
    let ghost v = safe_new@ != sanitized(new_name@, false);
    let r = if safe_new.as_str().is_empty() {
        Err(String::from_str(NEW_CATEGORY_NAME_INVALID))
    } else {
        Ok((safe_old, safe_new))
    };
    assert(pair_result(r) == rename_dirs_result(sanitized(old_name@, w), sanitized(new_name@, v)));
    r
}

/// The text of a new prompt named `title`: fresh metadata and an empty body.
pub fn new_prompt_text(title: &str) -> (r: String)
    ensures
        exists|m: MetaView| is_fresh_meta(m, title@) && r@ == prompt_file_text(frontmatter_text(m), Seq::empty()),
{
    let now = now_iso();
    let meta = PromptMeta {
        title: String::from_str(title),
        copy_mode: default_copy_mode(),
        created: now.clone(),
        updated: now,
    };
    let fm = serialize_frontmatter(&meta);
    let r = compose_prompt_file(fm.as_str(), String::new().as_str());
    assert(is_fresh_meta(meta@, title@));
    r
}

/// `m` is the metadata that reading the file text `content` gives.
pub open spec fn read_meta(m: MetaView, content: Seq<char>) -> bool {
    match split_front(content) {
        Some((fm, body)) => parsed_meta(m, front_meta(fm)),
        None => is_fresh_meta(m, Seq::empty()),
    }
}

/// The body that reading the file text `content` gives.
pub open spec fn read_body(content: Seq<char>) -> Seq<char> {
    match split_front(content) {
        Some((fm, body)) => body,
        None => trim_start_char(content, bom()),
    }
}

/// The new text of a prompt file that held `content` when the prompt is
/// renamed to `new_title`: its metadata with the new title and the update
/// time now, and the same body.
pub fn renamed_prompt_text(content: &str, new_title: &str) -> (r: String)
    ensures
        exists|old: MetaView, m: MetaView|
            {
                &&& read_meta(old, content@)
                &&& m.title == new_title@
                &&& m.copy_mode == old.copy_mode
                &&& m.created == old.created
                &&& is_stamp(m.updated)
                &&& r@ == prompt_file_text(frontmatter_text(m), read_body(content@))
            },
{
    let (meta, body) = parse_markdown(content);
    let ghost old = meta@;
    let renamed = PromptMeta {
        title: String::from_str(new_title),
        copy_mode: meta.copy_mode,
        created: meta.created,
        updated: now_iso(),
    };
    let fm = serialize_frontmatter(&renamed);
    let r = compose_prompt_file(fm.as_str(), body.as_str());
    assert(read_meta(old, content@));
    assert(r@ == prompt_file_text(frontmatter_text(renamed@), read_body(content@)));
    r
}

/// What `serde_json::from_str::<BTreeMap<String, Vec<String>>>` reads from
/// the text of an order file: category names in ascending order, each with
/// its relative paths; `None` when the text is not such a JSON object.
pub uninterp spec fn json_order_map(text: Seq<char>) -> Option<Seq<(Seq<char>, Seq<Seq<char>>)>>;

/// Reads the text of an order file (`serde_json::from_str` into a
/// `BTreeMap<String, Vec<String>>`, its entries in order). Trusted: the
/// result is `json_order_map` of the text.
#[verifier::external_body]
fn parse_order_json(text: &str) -> (r: Option<Vec<(String, Vec<String>)>>)
    ensures
        r.deep_view() == json_order_map(text@),
{
    serde_json::from_str::<std::collections::BTreeMap<String, Vec<String>>>(text).ok().map(
        |m| m.into_iter().collect(),
    )
}

/// The order file as read from its text `text` (`None`: no readable file):
/// empty when there is no file or its text is not a JSON object of lists.
pub open spec fn order_map_of(text: Option<Seq<char>>) -> Seq<(Seq<char>, Seq<Seq<char>>)> {
    match text {
        Some(t) => match json_order_map(t) {
            Some(m) => m,
            None => Seq::empty(),
        },
        None => Seq::empty(),
    }
}

/// The order file (category name to relative paths in order) read from its
/// text.
pub fn order_map_from_text(text: Option<&str>) -> (r: Vec<(String, Vec<String>)>)
    ensures
        r.deep_view() == order_map_of(text.deep_view()),
{
    match text {
        Some(t) => match parse_order_json(t) {
            Some(m) => m,
            None => Vec::new(),
        },
        None => Vec::new(),
    }
}

/// The order file with the prompts of `category` listed as `paths`: its
/// entry is replaced where there is one, else added at the end.
pub open spec fn with_order(
    map: Seq<(Seq<char>, Seq<Seq<char>>)>,
    category: Seq<char>,
    paths: Seq<Seq<char>>,
) -> Seq<(Seq<char>, Seq<Seq<char>>)>
    decreases map.len(),
{
    if map.len() == 0 {
        seq![(category, paths)]
    } else if map[0].0 == category {
        seq![(category, paths)] + map.drop_first()
    } else {
        seq![map[0]] + with_order(map.drop_first(), category, paths)
    }
}

/// Records the order of the prompts of `category` in the order file `map`
/// (category name to relative paths in order).
pub fn reorder_category(map: &mut Vec<(String, Vec<String>)>, category: &str, paths: Vec<String>)
    ensures
        final(map).deep_view() == with_order(old(map).deep_view(), category@, paths.deep_view()),
{
    let ghost m0 = map.deep_view();
    let mut i: usize = 0;
    let mut found = false;
    while i < map.len()
        invariant_except_break
            !found,
        invariant
            0 <= i <= map@.len(),
            map.deep_view() == m0,
            forall|j: int| 0 <= j < i ==> m0[j].0 != category@,
        ensures
            found ==> i < map@.len() && m0[i as int].0 == category@,
            !found ==> i == map@.len(),
            map.deep_view() == m0,
            forall|j: int| 0 <= j < i ==> m0[j].0 != category@,
        decreases map@.len() - i,
    {
        assert(map.deep_view()[i as int] == (map@[i as int].0@, map@[i as int].1.deep_view()));
        if compare_text(map[i].0.as_str(), category) == TextOrder::Equal {
            found = true;
            break;
        }
        i += 1;
    }
    let ghost pv = paths.deep_view();
    if found {
        map.set(i, (String::from_str(category), paths));
        proof {
            lemma_with_order_at(m0, category@, pv, i as int);
            assert(map.deep_view() =~= m0.update(i as int, (category@, pv)));
        }
    } else {
        map.push((String::from_str(category), paths));
        proof {
            lemma_with_order_absent(m0, category@, pv);
            assert(map.deep_view() =~= m0.push((category@, pv)));
        }
    }
}

proof fn lemma_with_order_at(
    m: Seq<(Seq<char>, Seq<Seq<char>>)>,
    c: Seq<char>,
    p: Seq<Seq<char>>,
    i: int,
)
    requires
        0 <= i < m.len(),
        m[i].0 == c,
        forall|j: int| 0 <= j < i ==> m[j].0 != c,
    ensures
        with_order(m, c, p) == m.update(i, (c, p)),
    decreases i,
{
    if i == 0 {
        assert(with_order(m, c, p) =~= m.update(i, (c, p)));
    } else {
        lemma_with_order_at(m.drop_first(), c, p, i - 1);
        assert(with_order(m, c, p) =~= m.update(i, (c, p)));
    }
}

proof fn lemma_with_order_absent(m: Seq<(Seq<char>, Seq<Seq<char>>)>, c: Seq<char>, p: Seq<Seq<char>>)
    requires
        forall|j: int| 0 <= j < m.len() ==> m[j].0 != c,
    ensures
        with_order(m, c, p) == m.push((c, p)),
    decreases m.len(),
{
    if m.len() == 0 {
        assert(with_order(m, c, p) =~= m.push((c, p)));
    } else {
        lemma_with_order_absent(m.drop_first(), c, p);
        assert(with_order(m, c, p) =~= m.push((c, p)));
    }
}

/// The map that the entries of an order file stand for: later entries
/// replace earlier ones with the same category.
pub open spec fn order_pairs_map(e: Seq<(Seq<char>, Seq<Seq<char>>)>) -> Map<Seq<char>, Seq<Seq<char>>>
    decreases e.len(),
{
    if e.len() == 0 {
        Map::empty()
    } else {
        order_pairs_map(e.drop_last()).insert(e.last().0, e.last().1)
    }
}

/// The text `serde_json::to_string_pretty` gives for the order file holding
/// the map `m` (a `BTreeMap<String, Vec<String>>`: categories in ascending
/// order, each with its relative paths).
pub uninterp spec fn json_order_text(m: Map<Seq<char>, Seq<Seq<char>>>) -> Seq<char>;

/// Writes an order file as JSON (the entries collected into a
/// `BTreeMap<String, Vec<String>>`, later entries replacing earlier ones
/// with the same category, then `serde_json::to_string_pretty`, which fails
/// only for a failing `Serialize` impl or a map with non-string keys).
/// Trusted: the result is `json_order_text` of the map of the entries.
#[verifier::external_body]
fn order_json(map: &Vec<(String, Vec<String>)>) -> (r: String)
    ensures
        r@ == json_order_text(order_pairs_map(map.deep_view())),
{
    let m: std::collections::BTreeMap<String, Vec<String>> = map.iter().cloned().collect();
    serde_json::to_string_pretty(&m).unwrap_or_default()
}

/// The new text of the order file that held `old_text` (`None`: no
/// readable file) once the prompts of `category` are ordered as `paths`.
pub fn reordered_order_text(old_text: Option<&str>, category: &str, paths: Vec<String>) -> (r: String)
    ensures
        r@ == json_order_text(
            order_pairs_map(with_order(order_map_of(old_text.deep_view()), category@, paths.deep_view())),
        ),
{
    let mut map = order_map_from_text(old_text);
    reorder_category(&mut map, category, paths);
    order_json(&map)
}

/// The text `serde_json::to_string_pretty` gives for the list of names
/// `names` (a JSON array of strings, in order).
pub uninterp spec fn json_names_text(names: Seq<Seq<char>>) -> Seq<char>;

/// Writes a list of names as a JSON array (`serde_json::to_string_pretty`,
/// which fails only for a failing `Serialize` impl or a map with non-string
/// keys). Trusted: the result is `json_names_text` of the names.
#[verifier::external_body]
fn names_json(names: &Vec<String>) -> (r: String)
    ensures
        r@ == json_names_text(names.deep_view()),
{
    serde_json::to_string_pretty(names).unwrap_or_default()
}

/// The text of the category order file listing the categories `names` in
/// the order the user arranged them.
pub fn category_order_text(names: &Vec<String>) -> (r: String)
    ensures
        r@ == json_names_text(names.deep_view()),
{
    names_json(names)
}

/// After recording an order for a category, the order file gives back
/// that order for it, and the same as before for every other category.
pub proof fn law_order_reads_back(
    map: Seq<(Seq<char>, Seq<Seq<char>>)>,
    category: Seq<char>,
    paths: Seq<Seq<char>>,
    other: Seq<char>,
)
    requires
        other != category,
    ensures
        find_key(with_order(map, category, paths), category) == Some(paths),
        find_key(with_order(map, category, paths), other) == find_key(map, other),
    decreases map.len(),
{
    if map.len() > 0 && map[0].0 != category {
        law_order_reads_back(map.drop_first(), category, paths, other);
        let w = seq![map[0]] + with_order(map.drop_first(), category, paths);
        assert(w[0] == map[0]);
        assert(w.drop_first() =~= with_order(map.drop_first(), category, paths));
        assert(with_order(map, category, paths) == w);
        if map[0].0 != other {
            assert(find_key(w, other) == find_key(w.drop_first(), other));
            assert(find_key(map, other) == find_key(map.drop_first(), other));
        }
    } else if map.len() > 0 {
        let w = seq![(category, paths)] + map.drop_first();
        assert(w[0] == (category, paths));
        assert(w.drop_first() =~= map.drop_first());
        assert(with_order(map, category, paths) == w);
        assert(find_key(w, other) == find_key(w.drop_first(), other));
        assert(find_key(map, other) == find_key(map.drop_first(), other));
    } else {
        let w = seq![(category, paths)];
        assert(w[0] == (category, paths));
        assert(w.drop_first() =~= Seq::<(Seq<char>, Seq<Seq<char>>)>::empty());
        assert(find_key(w, other) == find_key(w.drop_first(), other));
    }
}

/// The new stem of a file whose stem is `current` for a title that
/// sanitizes to `safe`: none when nothing is left of it or it is `current`.
pub open spec fn renamed_stem_of(current: Seq<char>, safe: Seq<char>) -> Option<Seq<char>> {
    if safe.len() == 0 || safe == current {
        None
    } else {
        Some(safe)
    }
}

/// The stem that a saved prompt's file name takes after saving it with
/// `title`, when it changes: the sanitized title, unless nothing is left of
/// it or it is the file's current stem `current` (then the file keeps its
/// name and the result is `None`).
pub fn renamed_stem(current: &str, title: &str) -> (r: Option<String>)
    ensures
        r matches Some(st) ==> safe_name(st@) && st@.len() > 0 && subsequence(st@, title@) && st@ != current@,
        plain_name(title@) ==> r.deep_view() == (if title@ == current@ {
            None
        } else {
            Some(title@)
        }),
        exists|w: bool| r.deep_view() == renamed_stem_of(current@, sanitized(title@, w)),
{
    let safe = sanitize_name(title);
    if safe.as_str().is_empty() || compare_text(safe.as_str(), current) == TextOrder::Equal {
        None
    } else {
        Some(safe)
    }
}

/// `s` names a Markdown file: it ends in `.md`.
pub open spec fn is_md_path(s: Seq<char>) -> bool {
    s.len() >= 3 && s.skip(s.len() - 3) == seq!['.', 'm', 'd']
}

fn md_path(s: &str) -> (b: bool)
    ensures
        b == is_md_path(s@),
{
    let cs = to_chars(s);
    let n = cs.len();
    if n < 3 {
        return false;
    }
    let b = cs[n - 3] == '.' && cs[n - 2] == 'm' && cs[n - 1] == 'd';
    assert(b ==> cs@.skip(n - 3) =~= seq!['.', 'm', 'd']);
    assert(cs@.skip(n - 3) =~= seq!['.', 'm', 'd'] ==> cs@.skip(n - 3)[0] == '.' && cs@.skip(n - 3)[1]
        == 'm' && cs@.skip(n - 3)[2] == 'd');
    b
}

/// The new relative paths of the Markdown files among `rels` (paths inside
/// a category folder) once that folder is the folder `dir`, in order.
pub open spec fn moved_paths(dir: Seq<char>, rels: Seq<Seq<char>>) -> Seq<Seq<char>>
    decreases rels.len(),
{
    if rels.len() == 0 {
        Seq::empty()
    } else if is_md_path(rels.last()) {
        moved_paths(dir, rels.drop_last()).push(dir + seq!['/'] + rels.last())
    } else {
        moved_paths(dir, rels.drop_last())
    }
}

/// The paths, relative to the data folder, of the Markdown files that a
/// category rename moves into the folder `dir`, given their paths `rels`
/// inside the category folder.
pub fn moved_prompt_paths(dir: &str, rels: &Vec<String>) -> (r: Vec<String>)
    ensures
        r.deep_view() == moved_paths(dir@, rels.deep_view()),
{
    let ghost rv = rels.deep_view();
    let mut out: Vec<String> = Vec::new();
    let mut i: usize = 0;
    while i < rels.len()
        invariant
            0 <= i <= rels@.len(),
            rv == rels.deep_view(),
            out.deep_view() == moved_paths(dir@, rv.take(i as int)),
        decreases rels@.len() - i,
    {
        assert(rv.take(i + 1).drop_last() =~= rv.take(i as int));
        assert(rv[i as int] == rels@[i as int]@);
        if md_path(rels[i].as_str()) {
            let mut p = String::from_str(dir);
            push_char(&mut p, '/');
            crate::text::push_str(&mut p, rels[i].as_str());
            assert(p@ =~= dir@ + seq!['/'] + rv[i as int]);
            let ghost before = out.deep_view();
            out.push(p);
            assert(out.deep_view() =~= before.push(dir@ + seq!['/'] + rv[i as int]));
        }
        i += 1;
    }
    assert(rv.take(rels@.len() as int) =~= rv);
    out
}

/// The file name under `.trash/` of the file at the relative path `rel`:
/// the path with each `/` turned into `_`.
pub open spec fn trash_base(rel: Seq<char>) -> Seq<char> {
    rel.map_values(|c: char| if c == '/' { '_' } else { c })
}

/// The `n`-th candidate name under `.trash/` for `rel`: its base name, then
/// `1_` + base, `2_` + base, … while the earlier ones are taken.
pub open spec fn trash_candidate(rel: Seq<char>, n: nat) -> Seq<char> {
    if n == 0 {
        trash_base(rel)
    } else {
        decimal(n) + seq!['_'] + trash_base(rel)
    }
}

/// The `n`-th candidate name under `.trash/` for the file at `rel`.
pub fn trash_file_name(rel: &str, n: u64) -> (r: String)
    ensures
        r@ == trash_candidate(rel@, n as nat),
{
    let cs = to_chars(rel);
    let mut out = String::new();
    if n > 0 {
        push_decimal(&mut out, n, 0);
        assert(zero_pad(decimal(n as nat), 0) == decimal(n as nat));
        push_char(&mut out, '_');
    }
    let ghost head = out@;
    let mut i: usize = 0;
    while i < cs.len()
        invariant
            0 <= i <= cs@.len(),
            out@ == head + trash_base(cs@.take(i as int)),
        decreases cs@.len() - i,
    {
        let c = if cs[i] == '/' { '_' } else { cs[i] };
        push_char(&mut out, c);
        assert(trash_base(cs@.take(i + 1)) =~= trash_base(cs@.take(i as int)).push(c));
        i += 1;
    }
    assert(cs@.take(cs@.len() as int) =~= cs@);
    proof {
        if n > 0 {
            assert(head =~= decimal(n as nat) + seq!['_']);
        } else {
            assert(head =~= Seq::<char>::empty());
        }
    }
    assert(out@ =~= trash_candidate(rel@, n as nat));
    out
}

/// Distinct tries give distinct names under `.trash/`, so the search for a
/// free name meets a new one at each step.
pub proof fn law_trash_candidates_differ(rel: Seq<char>, m: nat, n: nat)
    requires
        m != n,
    ensures
        trash_candidate(rel, m) != trash_candidate(rel, n),
{
    lemma_decimal_len(m);
    lemma_decimal_len(n);
    let a = trash_candidate(rel, m);
    let b = trash_candidate(rel, n);
    if a == b {
        assert(a.len() == b.len());
        if m > 0 && n > 0 {
            let dm = decimal(m);
            let dn = decimal(n);
            assert(dm.len() == dn.len());
            assert forall|i: int| 0 <= i < dm.len() implies dm[i] == dn[i] by {
                assert(a[i] == dm[i]);
                assert(b[i] == dn[i]);
            }
            assert(dm =~= dn);
            lemma_decimal_injective(m, n);
        }
    }
}

/// `s` with every `\` turned into `/`.
pub open spec fn unix_text(s: Seq<char>) -> Seq<char> {
    s.map_values(|c: char| if c == '\\' { '/' } else { c })
}

/// The path text `s` (as `Path::to_string_lossy` gives it) with `/`
/// separators: every `\` becomes `/`. This is the form used as a
/// prompt's id.
pub fn path_to_unix(s: &str) -> (r: String)
    ensures
        r@ == unix_text(s@),
{
    let cs = to_chars(s);
    let mut out = String::new();
    let mut i: usize = 0;
    while i < cs.len()
        invariant
            0 <= i <= cs@.len(),
            out@ == unix_text(cs@.take(i as int)),
        decreases cs@.len() - i,
    {
        let c = if cs[i] == '\\' { '/' } else { cs[i] };
        push_char(&mut out, c);
        assert(unix_text(cs@.take(i + 1)) =~= unix_text(cs@.take(i as int)).push(c));
        i += 1;
    }
    assert(cs@.take(cs@.len() as int) =~= cs@);
    out
}

} // verus!
