//! The desktop decisions: when the global hotkey pastes into the app the
//! user came from, when the window hides, where it opens, which links may
//! be opened, and lexical path normalisation that keeps files inside the
//! data folder.
use vstd::prelude::*;
use crate::content::{is_white_space, trim_end_ws, white_space};
use crate::store::first_index;
use crate::text::{from_char_range, to_chars};

verus! {

/// The global hotkey that shows and hides the window.
pub const GLOBAL_HOTKEY: &'static str = "Ctrl+Alt+P";

/// How long to wait for the text input to get the focus back, in ms.
pub const FOCUS_RESTORE_TIMEOUT_MS: u64 = 120;

/// How often to look whether it has, in ms.
pub const FOCUS_RESTORE_POLL_MS: u64 = 10;

/// The file in the data folder that marks that the app has run before.
pub const FIRST_RUN_MARKER: &'static str = ".first_run_done";

pub const URL_SCHEME_REFUSED: &'static str = "不支持打开该链接协议";

pub const PATH_OUTSIDE_ROOT: &'static str = "路径越界：拒绝访问数据目录之外的文件";

/// Pasting after copying happens only when the hotkey was pressed in a
/// text input and that input has the focus again.
pub fn should_inject_after_hotkey(invoked_from_text_input: bool, returned_to_text_input: bool) -> (r: bool)
    ensures
        r == (invoked_from_text_input && returned_to_text_input),
{
    invoked_from_text_input && returned_to_text_input
}

/// The hotkey counts as pressed in a text input when the window was hidden
/// and the foreground app had a text input focused.
pub fn hotkey_had_text_input(window_visible: bool, text_input_focused: bool) -> (r: bool)
    ensures
        r == (!window_visible && text_input_focused),
{
    !window_visible && text_input_focused
}

/// How the foreground app shows that a text input has the focus.
#[derive(Clone, Copy, Debug, Eq, PartialEq, Structural)]
pub enum TextFocusSignal {
    /// No text input has the focus.
    NoFocus,
    GuiCaret,
    UiaTextInput,
}

/// Either signal means a text input has the focus.
pub fn is_text_input_signal(signal: TextFocusSignal) -> (r: bool)
    ensures
        r == !(signal is NoFocus),
{
    match signal {
        TextFocusSignal::NoFocus => false,
        _ => true,
    }
}

/// The signal from the two probes: UI Automation first (when it answers
/// that the focused element is a text input), then the legacy caret.
pub fn text_focus_signal(uia_text_input: Option<bool>, has_caret: bool) -> (r: TextFocusSignal)
    ensures
        uia_text_input == Some(true) ==> r == TextFocusSignal::UiaTextInput,
        uia_text_input != Some(true) && has_caret ==> r == TextFocusSignal::GuiCaret,
        uia_text_input != Some(true) && !has_caret ==> r == TextFocusSignal::NoFocus,
{
    match uia_text_input {
        Some(true) => TextFocusSignal::UiaTextInput,
        _ => if has_caret {
            TextFocusSignal::GuiCaret
        } else {
            TextFocusSignal::NoFocus
        },
    }
}

/// A focused UI Automation element is a text input when it takes keyboard
/// focus and is an edit control, or supports text editing, or is a
/// document with a value or text pattern, or has both of those patterns.
pub open spec fn uia_text_input(
    is_keyboard_focusable: bool,
    is_edit_control: bool,
    is_document_control: bool,
    has_value_pattern: bool,
    has_text_pattern: bool,
    has_text_edit_pattern: bool,
) -> bool {
    is_keyboard_focusable && (is_edit_control || has_text_edit_pattern || (is_document_control && (
    has_value_pattern || has_text_pattern)) || (has_value_pattern && has_text_pattern))
}

/// Whether a focused UI Automation element is a text input.
pub fn is_uia_text_input_candidate(
    is_keyboard_focusable: bool,
    is_edit_control: bool,
    is_document_control: bool,
    has_value_pattern: bool,
    has_text_pattern: bool,
    has_text_edit_pattern: bool,
) -> (r: bool)
    ensures
        r == uia_text_input(
            is_keyboard_focusable,
            is_edit_control,
            is_document_control,
            has_value_pattern,
            has_text_pattern,
            has_text_edit_pattern,
        ),
{
    if !is_keyboard_focusable {
        return false;
    }
    is_edit_control || has_text_edit_pattern || (is_document_control && (has_value_pattern
        || has_text_pattern)) || (has_value_pattern && has_text_pattern)
}

/// The foreground window is the app's when it is the app window itself or
/// one of its children (the web view).
pub fn foreground_matches_app_window(is_same_window: bool, is_child_window: bool) -> (r: bool)
    ensures
        r == (is_same_window || is_child_window),
{
    is_same_window || is_child_window
}

/// The first run is over only once its window was actually shown.
pub fn should_mark_first_run_done(first_run: bool, window_was_shown: bool) -> (r: bool)
    ensures
        r == (first_run && window_was_shown),
{
    first_run && window_was_shown
}

/// It is the first run when the data folder has no first-run marker.
pub fn is_first_run(marker_exists: bool) -> (r: bool)
    ensures
        r == !marker_exists,
{
    !marker_exists
}

/// On losing the focus the window hides, except for the one blur spared
/// after the first run's window was shown, and except while it is still
/// the foreground window (being moved or resized).
pub fn should_hide_on_blur(spare_this_blur: bool, window_in_foreground: bool) -> (r: bool)
    ensures
        r == (!spare_this_blur && !window_in_foreground),
{
    !spare_this_blur && !window_in_foreground
}

/// The hotkey hides a visible window and otherwise shows it (also when its
/// visibility cannot be read).
pub fn toggle_hides(visible: Option<bool>) -> (r: bool)
    ensures
        r == (visible == Some(true)),
{
    match visible {
        Some(v) => v,
        None => false,
    }
}

/// While waiting for the focus to come back: after `elapsed_ms`, give up
/// (`None`) once the timeout is reached, else sleep one poll interval, or
/// less when the timeout comes sooner.
pub fn next_focus_poll(elapsed_ms: u64, timeout_ms: u64, poll_ms: u64) -> (r: Option<u64>)
    ensures
        elapsed_ms >= timeout_ms ==> r is None,
        elapsed_ms < timeout_ms ==> r == Some(if poll_ms <= timeout_ms - elapsed_ms {
            poll_ms
        } else {
            (timeout_ms - elapsed_ms) as u64
        }),
{
    if elapsed_ms >= timeout_ms {
        None
    } else {
        let left = timeout_ms - elapsed_ms;
        Some(if poll_ms <= left { poll_ms } else { left })
    }
}

/// `s` without its leading white space (Unicode `White_Space`).
pub open spec fn trim_start_ws(s: Seq<char>) -> Seq<char>
    decreases s.len(),
{
    if s.len() > 0 && is_white_space(s[0]) {
        trim_start_ws(s.drop_first())
    } else {
        s
    }
}

/// `s` without leading and trailing white space (`str::trim`).
pub open spec fn trim_ws(s: Seq<char>) -> Seq<char> {
    trim_end_ws(trim_start_ws(s))
}

/// `c` with an ASCII capital letter made small (`to_ascii_lowercase`).
pub open spec fn ascii_lower(c: char) -> char {
    if 65 <= c as u32 <= 90 {
        ((c as u32 + 32) as u8) as char
    } else {
        c
    }
}

/// The scheme of a URL: the text before its first `:`, in ASCII lower case.
pub open spec fn url_scheme(t: Seq<char>) -> Option<Seq<char>> {
    match first_index(t, ':') {
        Some(i) => Some(t.take(i).map_values(|c: char| ascii_lower(c))),
        None => None,
    }
}

/// Only `https`, `http` and `mailto` links may be opened (the URL is
/// trimmed first; the scheme's case does not matter).
pub open spec fn allowed_url(url: Seq<char>) -> bool {
    match url_scheme(trim_ws(url)) {
        Some(s) => s == "https"@ || s == "http"@ || s == "mailto"@,
        None => false,
    }
}

/// Start and end of `cs` without surrounding white space.
fn trimmed_bounds(cs: &Vec<char>) -> (r: (usize, usize))
    ensures
        r.0 <= r.1 <= cs@.len(),
        cs@.subrange(r.0 as int, r.1 as int) == trim_ws(cs@),
{
    let mut a: usize = 0;
    assert(cs@.skip(0) =~= cs@);
    while a < cs.len() && white_space(cs[a])
        invariant
            a <= cs@.len(),
            trim_start_ws(cs@) == trim_start_ws(cs@.skip(a as int)),
        decreases cs@.len() - a,
    {
        assert(cs@.skip(a as int).drop_first() =~= cs@.skip(a + 1));
        a += 1;
    }
    let mut b: usize = cs.len();
    assert(cs@.skip(a as int) =~= cs@.subrange(a as int, b as int));
    while b > a && white_space(cs[b - 1])
        invariant
            a <= b <= cs@.len(),
            trim_ws(cs@) == trim_end_ws(cs@.subrange(a as int, b as int)),
        decreases b,
    {
        assert(cs@.subrange(a as int, b as int).drop_last() =~= cs@.subrange(a as int, b - 1));
        b -= 1;
    }
    (a, b)
}

fn lower_char(c: char) -> (r: char)
    ensures
        r == ascii_lower(c),
{
    let u = c as u32;
    if 65 <= u && u <= 90 {
        ((u + 32) as u8) as char
    } else {
        c
    }
}

fn chars_are(cs: &Vec<char>, from: usize, to: usize, word: &str) -> (r: bool)
    requires
        from <= to <= cs@.len(),
    ensures
        r == (cs@.subrange(from as int, to as int).map_values(|c: char| ascii_lower(c)) == word@),
{
    let w = to_chars(word);
    if to - from != w.len() {
        proof {
            let m = cs@.subrange(from as int, to as int).map_values(|c: char| ascii_lower(c));
            assert(m.len() != word@.len());
        }
        return false;
    }
    let mut i: usize = 0;
    while i < w.len()
        invariant
            0 <= i <= w@.len(),
            w@ == word@,
            to - from == w@.len(),
            from <= to <= cs@.len(),
            forall|j: int| 0 <= j < i ==> ascii_lower(#[trigger] cs@[from + j]) == w@[j],
        decreases w@.len() - i,
    {
        if lower_char(cs[from + i]) != w[i] {
            proof {
                let m = cs@.subrange(from as int, to as int).map_values(|c: char| ascii_lower(c));
                assert(m[i as int] != word@[i as int]);
            }
            return false;
        }
        i += 1;
    }
    proof {
        let m = cs@.subrange(from as int, to as int).map_values(|c: char| ascii_lower(c));
        assert forall|j: int| 0 <= j < m.len() implies m[j] == word@[j] by {
            assert(ascii_lower(cs@[from + j]) == w@[j]);
        }
        assert(m =~= word@);
    }
    true
}

/// Whether the link `url` may be opened: its scheme, before the first `:`
/// of the trimmed text and in any case, is `https`, `http` or `mailto`.
pub fn is_allowed_external_url(url: &str) -> (r: bool)
    ensures
        r == allowed_url(url@),
{
    let cs = to_chars(url);
    let (a, b) = trimmed_bounds(&cs);
    let ghost t = cs@.subrange(a as int, b as int);
    let mut k = a;
    while k < b && cs[k] != ':'
        invariant
            a <= k <= b <= cs@.len(),
            t == cs@.subrange(a as int, b as int),
            forall|j: int| a <= j < k ==> cs@[j] != ':',
        decreases b - k,
    {
        k += 1;
    }
    if k == b {
        proof {
            assert forall|i: int| 0 <= i < t.len() implies t[i] != ':' by {
                assert(t[i] == cs@[a + i]);
            }
            assert(first_index(t, ':') is None);
        }
        return false;
    }
    proof {
        let w = k - a;
        assert(t[w] == ':');
        assert forall|j: int| 0 <= j < w implies t[j] != ':' by {
            assert(t[j] == cs@[a + j]);
        }
        let c = choose|i: int| 0 <= i < t.len() && t[i] == ':' && forall|j: int| 0 <= j < i ==> t[j] != ':';
        assert(first_index(t, ':') == Some(c));
        assert(c == w);
        assert(t.take(w) =~= cs@.subrange(a as int, k as int));
    }
    chars_are(&cs, a, k, "https") || chars_are(&cs, a, k, "http") || chars_are(&cs, a, k, "mailto")
}

/// The link to hand to the system opener: `url` trimmed, when its scheme is
/// allowed.
pub fn open_url_target(url: &str) -> (r: Result<String, String>)
    ensures
        allowed_url(url@) ==> (r matches Ok(t) && t@ == trim_ws(url@)),
        !allowed_url(url@) ==> (r matches Err(e) && e@ == URL_SCHEME_REFUSED@),
{
    if !is_allowed_external_url(url) {
        return Err(String::from_str(URL_SCHEME_REFUSED));
    }
    let cs = to_chars(url);
    let (a, b) = trimmed_bounds(&cs);
    Ok(from_char_range(&cs, a, b))
}

/// A display: its top-left corner and its size, in physical pixels.
#[derive(Debug, Clone, Copy)]
pub struct MonitorRect {
    pub x: i32,
    pub y: i32,
    pub width: u32,
    pub height: u32,
}

/// The display's edges fit in `i32`.
pub open spec fn rect_fits(m: MonitorRect) -> bool {
    m.width <= i32::MAX && m.height <= i32::MAX && m.x + m.width <= i32::MAX && m.y + m.height <= i32::MAX
}

/// The point lies on the display.
pub open spec fn rect_contains(m: MonitorRect, cx: int, cy: int) -> bool {
    m.x <= cx < m.x + m.width && m.y <= cy < m.y + m.height
}

/// Whether the cursor at (`cx`, `cy`) lies on the display `m`.
pub fn monitor_contains(m: &MonitorRect, cx: i32, cy: i32) -> (r: bool)
    requires
        rect_fits(*m),
    ensures
        r == rect_contains(*m, cx as int, cy as int),
{
    cx >= m.x && cx < m.x + m.width as i32 && cy >= m.y && cy < m.y + m.height as i32
}

/// The first display that holds the cursor.
pub fn pick_monitor(monitors: &Vec<MonitorRect>, cx: i32, cy: i32) -> (r: Option<usize>)
    requires
        forall|i: int| 0 <= i < monitors@.len() ==> rect_fits(#[trigger] monitors@[i]),
    ensures
        r matches Some(i) ==> i < monitors@.len() && rect_contains(monitors@[i as int], cx as int, cy as int)
            && forall|j: int| 0 <= j < i ==> !rect_contains(#[trigger] monitors@[j], cx as int, cy as int),
        r is None ==> forall|j: int| 0 <= j < monitors@.len() ==> !rect_contains(#[trigger] monitors@[j], cx as int, cy as int),
{
    let mut i: usize = 0;
    while i < monitors.len()
        invariant
            0 <= i <= monitors@.len(),
            forall|k: int| 0 <= k < monitors@.len() ==> rect_fits(#[trigger] monitors@[k]),
            forall|j: int| 0 <= j < i ==> !rect_contains(#[trigger] monitors@[j], cx as int, cy as int),
        decreases monitors@.len() - i,
    {
        if monitor_contains(&monitors[i], cx, cy) {
            return Some(i);
        }
        i += 1;
    }
    None
}

/// Half of `d`, rounded toward zero (integer division as Rust does it).
pub open spec fn half_toward_zero(d: int) -> int {
    if d >= 0 {
        d / 2
    } else {
        -((-d) / 2)
    }
}

/// Where a window of the given size sits centred on the display.
pub open spec fn centred(m: MonitorRect, win_w: int, win_h: int) -> (int, int) {
    (m.x + half_toward_zero(m.width - win_w), m.y + half_toward_zero(m.height - win_h))
}

/// The top-left corner, in physical pixels, of a `win_w` by `win_h` window
/// centred on the display `m`.
pub fn center_in_monitor(m: &MonitorRect, win_w: i32, win_h: i32) -> (r: (i32, i32))
    requires
        rect_fits(*m),
        i32::MIN <= centred(*m, win_w as int, win_h as int).0 <= i32::MAX,
        i32::MIN <= centred(*m, win_w as int, win_h as int).1 <= i32::MAX,
    ensures
        r.0 == centred(*m, win_w as int, win_h as int).0,
        r.1 == centred(*m, win_w as int, win_h as int).1,
{
    let dw: i64 = m.width as i64 - win_w as i64;
    let dh: i64 = m.height as i64 - win_h as i64;
    let hw: i64 = if dw >= 0 { dw / 2 } else { -((-dw) / 2) };
    let hh: i64 = if dh >= 0 { dh / 2 } else { -((-dh) / 2) };
    ((m.x as i64 + hw) as i32, (m.y as i64 + hh) as i32)
}

/// A component of a path, as `std::path::Component` gives it.
#[derive(Debug, Clone, PartialEq, Eq)]
pub enum PathPart {
    /// A Windows prefix such as `C:`.
    Prefix(String),
    RootDir,
    CurDir,
    ParentDir,
    Normal(String),
}

/// A prefix or the root: what `PathBuf::pop` never takes away.
pub open spec fn is_root_part(p: PathPart) -> bool {
    p is Prefix || p is RootDir
}

/// `PathBuf::pop`: the last component goes, unless the path is empty or
/// ends in its root or prefix.
pub open spec fn pop_part(out: Seq<PathPart>) -> Seq<PathPart> {
    if out.len() > 0 && !is_root_part(out.last()) {
        out.drop_last()
    } else {
        out
    }
}

/// The lexical normal form of a path: `.` dropped, `..` taking away the
/// component before it (never the root), other components kept.
pub open spec fn lexical(parts: Seq<PathPart>) -> Seq<PathPart>
    decreases parts.len(),
{
    if parts.len() == 0 {
        Seq::empty()
    } else {
        let out = lexical(parts.drop_last());
        match parts.last() {
            PathPart::CurDir => out,
            PathPart::ParentDir => pop_part(out),
            x => out.push(x),
        }
    }
}

/// Normalises a path without the file system: `.` components are dropped
/// and each `..` takes away the component before it; a `..` that meets the
/// root or the start of the path does nothing.
pub fn normalize_lexical(parts: &Vec<PathPart>) -> (r: Vec<PathPart>)
    ensures
        r@ == lexical(parts@),
{
    let mut out: Vec<PathPart> = Vec::new();
    let mut i: usize = 0;
    while i < parts.len()
        invariant
            0 <= i <= parts@.len(),
            out@ == lexical(parts@.take(i as int)),
        decreases parts@.len() - i,
    {
        assert(parts@.take(i + 1).drop_last() =~= parts@.take(i as int));
        assert(parts@.take(i + 1).last() == parts@[i as int]);
        match &parts[i] {
            PathPart::CurDir => {},
            PathPart::ParentDir => {
                let n = out.len();
                if n > 0 {
                    let last_is_root = match &out[n - 1] {
                        PathPart::Prefix(_) => true,
                        PathPart::RootDir => true,
                        _ => false,
                    };
                    if !last_is_root {
                        out.pop();
                    }
                }
            },
            PathPart::Prefix(x) => {
                out.push(PathPart::Prefix(x.clone()));
            },
            PathPart::RootDir => {
                out.push(PathPart::RootDir);
            },
            PathPart::Normal(x) => {
                out.push(PathPart::Normal(x.clone()));
            },
        }
        i += 1;
    }
    assert(parts@.take(parts@.len() as int) =~= parts@);
    out
}

/// A component as plain values: its kind and its text.
pub open spec fn part_view(p: PathPart) -> (int, Seq<char>) {
    match p {
        PathPart::Prefix(s) => (0, s@),
        PathPart::RootDir => (1, Seq::empty()),
        PathPart::CurDir => (2, Seq::empty()),
        PathPart::ParentDir => (3, Seq::empty()),
        PathPart::Normal(s) => (4, s@),
    }
}

/// `p` begins with the components of `root` (`Path::starts_with`).
pub open spec fn parts_start_with(p: Seq<PathPart>, root: Seq<PathPart>) -> bool {
    root.len() <= p.len() && forall|i: int| 0 <= i < root.len() ==> part_view(#[trigger] p[i]) == part_view(root[i])
}

fn same_part(a: &PathPart, b: &PathPart) -> (r: bool)
    ensures
        r == (part_view(*a) == part_view(*b)),
{
    match (a, b) {
        (PathPart::Prefix(x), PathPart::Prefix(y)) => crate::text::compare_text(x.as_str(), y.as_str())
            == crate::text::TextOrder::Equal,
        (PathPart::RootDir, PathPart::RootDir) => true,
        (PathPart::CurDir, PathPart::CurDir) => true,
        (PathPart::ParentDir, PathPart::ParentDir) => true,
        (PathPart::Normal(x), PathPart::Normal(y)) => crate::text::compare_text(x.as_str(), y.as_str())
            == crate::text::TextOrder::Equal,
        _ => false,
    }
}

/// Accepts the resolved path `p` only when it lies inside `root`.
pub fn confine_to_root(root: &Vec<PathPart>, p: Vec<PathPart>) -> (r: Result<Vec<PathPart>, String>)
    ensures
        parts_start_with(p@, root@) ==> r == Ok::<Vec<PathPart>, String>(p),
        !parts_start_with(p@, root@) ==> (r matches Err(e) && e@ == PATH_OUTSIDE_ROOT@),
{
    if root.len() > p.len() {
        return Err(String::from_str(PATH_OUTSIDE_ROOT));
    }
    let mut i: usize = 0;
    while i < root.len()
        invariant
            0 <= i <= root@.len() <= p@.len(),
            forall|j: int| 0 <= j < i ==> part_view(#[trigger] p@[j]) == part_view(root@[j]),
        decreases root@.len() - i,
    {
        if !same_part(&p[i], &root[i]) {
            return Err(String::from_str(PATH_OUTSIDE_ROOT));
        }
        i += 1;
    }
    Ok(p)
}

/// `p` has no `.` or `..` component.
pub open spec fn is_lexical_normal(p: Seq<PathPart>) -> bool {
    forall|i: int| 0 <= i < p.len() ==> !(#[trigger] p[i] is CurDir) && !(p[i] is ParentDir)
}

proof fn lemma_lexical_normal(parts: Seq<PathPart>)
    ensures
        is_lexical_normal(lexical(parts)),
    decreases parts.len(),
{
    if parts.len() > 0 {
        lemma_lexical_normal(parts.drop_last());
    }
}

proof fn lemma_lexical_of_normal(parts: Seq<PathPart>)
    requires
        is_lexical_normal(parts),
    ensures
        lexical(parts) == parts,
    decreases parts.len(),
{
    if parts.len() > 0 {
        assert(is_lexical_normal(parts.drop_last())) by {
            assert forall|i: int| 0 <= i < parts.drop_last().len() implies !(
            #[trigger] parts.drop_last()[i] is CurDir) && !(parts.drop_last()[i] is ParentDir) by {
                assert(parts.drop_last()[i] == parts[i]);
            }
        }
        lemma_lexical_of_normal(parts.drop_last());
        assert(parts.drop_last().push(parts.last()) =~= parts);
    }
}

/// Normalising leaves no `.` or `..` behind, and a normal path stays as it
/// is: normalising twice is normalising once.
pub proof fn law_normalize_idempotent(parts: Seq<PathPart>)
    ensures
        is_lexical_normal(lexical(parts)),
        lexical(lexical(parts)) == lexical(parts),
{
    lemma_lexical_normal(parts);
    lemma_lexical_of_normal(lexical(parts));
}

proof fn lemma_lexical_append(a: Seq<PathPart>, b: Seq<PathPart>)
    requires
        forall|i: int| 0 <= i < b.len() ==> !(#[trigger] b[i] is ParentDir),
    ensures
        parts_start_with(lexical(a + b), lexical(a)),
    decreases b.len(),
{
    if b.len() == 0 {
        assert(a + b =~= a);
    } else {
        let b0 = b.drop_last();
        assert forall|i: int| 0 <= i < b0.len() implies !(#[trigger] b0[i] is ParentDir) by {
            assert(b0[i] == b[i]);
        }
        lemma_lexical_append(a, b0);
        assert((a + b).drop_last() =~= a + b0);
        assert((a + b).last() == b.last());
        let l = lexical(a + b0);
        if !(b.last() is CurDir) {
            assert forall|i: int| 0 <= i < lexical(a).len() implies part_view(
                #[trigger] l.push(b.last())[i],
            ) == part_view(lexical(a)[i]) by {
                assert(l.push(b.last())[i] == l[i]);
            }
        }
    }
}

/// A relative path without `..` added to a normalised data folder stays
/// inside it once normalised, so it passes the check.
pub proof fn law_relative_path_stays_inside(root: Seq<PathPart>, rel: Seq<PathPart>)
    requires
        is_lexical_normal(root),
        forall|i: int| 0 <= i < rel.len() ==> !(#[trigger] rel[i] is ParentDir),
    ensures
        parts_start_with(lexical(root + rel), root),
{
    lemma_lexical_of_normal(root);
    lemma_lexical_append(root, rel);
}

/// The Windows verbatim prefix `\\?\`.
pub open spec fn unc_prefix() -> Seq<char> {
    seq!['\\', '\\', '?', '\\']
}

/// The path text without a leading `\\?\` (which `canonicalize` adds on
/// Windows).
pub open spec fn strip_unc_text(s: Seq<char>) -> Seq<char> {
    if s.len() >= 4 && s.take(4) == unc_prefix() {
        s.skip(4)
    } else {
        s
    }
}

/// The path text `s` without a leading `\\?\`.
pub fn strip_unc_prefix(s: &str) -> (r: String)
    ensures
        r@ == strip_unc_text(s@),
{
    let cs = to_chars(s);
    if cs.len() >= 4 && cs[0] == '\\' && cs[1] == '\\' && cs[2] == '?' && cs[3] == '\\' {
        assert(cs@.take(4) =~= unc_prefix());
        assert(cs@.subrange(4, cs@.len() as int) =~= cs@.skip(4));
        from_char_range(&cs, 4, cs.len())
    } else {
        proof {
            if cs@.len() >= 4 && cs@.take(4) == unc_prefix() {
                assert(cs@.take(4)[0] == cs@[0]);
                assert(cs@.take(4)[1] == cs@[1]);
                assert(cs@.take(4)[2] == cs@[2]);
                assert(cs@.take(4)[3] == cs@[3]);
            }
        }
        assert(cs@.subrange(0, cs@.len() as int) =~= cs@);
        from_char_range(&cs, 0, cs.len())
    }
}

} // verus!
