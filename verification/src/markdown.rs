//! Framing of a prompt file: an optional YAML front matter between `---`
//! delimiter lines, followed by the Markdown body.
use vstd::prelude::*;
use crate::text::{from_char_range, matches_at, skip_char, trim_start_char};

verus! {

/// The byte-order mark that editors may put in front of a file.
pub open spec fn bom() -> char {
    '\u{feff}'
}

/// The delimiter text `---`.
pub open spec fn dashes() -> Seq<char> {
    seq!['-', '-', '-']
}

/// `p` starts a line of `s`: it is 0 or follows a line feed.
pub open spec fn line_start(s: Seq<char>, p: int) -> bool {
    p == 0 || (0 < p <= s.len() && s[p - 1] == '\n')
}

/// From `i` on, `s` holds only carriage returns up to the next line feed or the end.
pub open spec fn crs_to_eol(s: Seq<char>, i: int) -> bool
    decreases s.len() - i,
{
    if i < 0 || i >= s.len() {
        true
    } else if s[i] == '\n' {
        true
    } else if s[i] == '\r' {
        crs_to_eol(s, i + 1)
    } else {
        false
    }
}

/// The line of `s` that starts at `p` reads `---` once its trailing line feed
/// and carriage returns are trimmed.
pub open spec fn delim_line(s: Seq<char>, p: int) -> bool {
    0 <= p && p + 3 <= s.len() && s.subrange(p, p + 3) == dashes() && crs_to_eol(s, p + 3)
}

/// `p` is the start of the first delimiter line of `s`.
pub open spec fn is_first_delim(s: Seq<char>, p: int) -> bool {
    &&& line_start(s, p)
    &&& delim_line(s, p)
    &&& forall|q: int| 0 <= q < p && line_start(s, q) ==> !delim_line(s, q)
}

/// Offset of the first delimiter line of `s`, if there is one.
pub open spec fn frontmatter_end(s: Seq<char>) -> Option<int> {
    if exists|p: int| is_first_delim(s, p) {
        Some(choose|p: int| is_first_delim(s, p))
    } else {
        None
    }
}

/// `s` with every leading `---` removed, one after the other.
pub open spec fn trim_dashes(s: Seq<char>) -> Seq<char>
    decreases s.len(),
{
    if s.len() >= 3 && s.take(3) == dashes() {
        trim_dashes(s.skip(3))
    } else {
        s
    }
}

/// The characters that separate the closing delimiter from the body.
pub open spec fn is_gap_char(c: char) -> bool {
    c == '\n' || c == '\r' || c == ' '
}

/// `s` without its leading line feeds, carriage returns and spaces.
pub open spec fn trim_gap(s: Seq<char>) -> Seq<char>
    decreases s.len(),
{
    if s.len() > 0 && is_gap_char(s[0]) {
        trim_gap(s.drop_first())
    } else {
        s
    }
}

/// What follows the opening delimiter line of `t`, if `t` starts with one.
pub open spec fn after_open(t: Seq<char>) -> Option<Seq<char>> {
    if seq!['-', '-', '-', '\n'].is_prefix_of(t) {
        Some(t.skip(4))
    } else if seq!['-', '-', '-', '\r', '\n'].is_prefix_of(t) {
        Some(t.skip(5))
    } else {
        None
    }
}

/// The split of a file into (front matter text, body), when the file has a
/// complete front matter block.
pub open spec fn split_front(content: Seq<char>) -> Option<(Seq<char>, Seq<char>)> {
    match after_open(trim_start_char(content, bom())) {
        Some(rest) => match frontmatter_end(rest) {
            Some(e) => Some((rest.take(e), trim_gap(trim_dashes(rest.skip(e))))),
            None => None,
        },
        None => None,
    }
}

proof fn lemma_first_delim_unique(s: Seq<char>, p: int, q: int)
    requires
        is_first_delim(s, p),
        is_first_delim(s, q),
    ensures
        p == q,
{
}

/// Whether the line of `cs` that starts at `p` is a delimiter line.
fn is_delim_line_at(cs: &[char], p: usize) -> (b: bool)
    requires
        p <= cs@.len(),
    ensures
        b == delim_line(cs@, p as int),
{
    let dash: [char; 3] = ['-', '-', '-'];
    assert(dash@ =~= dashes());
    let n = cs.len();
    if !matches_at(cs, p, &dash) {
        return false;
    }
    let mut i = p + 3;
    assert(i <= n);
    while i < cs.len() && cs[i] == '\r'
        invariant
            p + 3 <= i <= cs@.len(),
            crs_to_eol(cs@, (p + 3) as int) == crs_to_eol(cs@, i as int),
        decreases cs@.len() - i,
    {
        i += 1;
    }
    i == cs.len() || cs[i] == '\n'
}

/// Offset of the closing delimiter line within the front matter text `cs`.
pub fn find_frontmatter_end(cs: &[char]) -> (r: Option<usize>)
    ensures
        r matches Some(p) ==> frontmatter_end(cs@) == Some(p as int),
        r is None ==> frontmatter_end(cs@) is None,
{
    let mut pos: usize = 0;
    while pos < cs.len()
        invariant
            0 <= pos <= cs@.len(),
            line_start(cs@, pos as int),
            forall|q: int| 0 <= q < pos && line_start(cs@, q) ==> !delim_line(cs@, q),
        decreases cs@.len() - pos,
    {
        if is_delim_line_at(cs, pos) {
            assert(is_first_delim(cs@, pos as int));
            let ghost p = choose|p: int| is_first_delim(cs@, p);
            proof {
                lemma_first_delim_unique(cs@, p, pos as int);
            }
            return Some(pos);
        }
        let mut next = pos;
        while next < cs.len() && cs[next] != '\n'
            invariant
                pos <= next <= cs@.len(),
                forall|k: int| pos <= k < next ==> cs@[k] != '\n',
            decreases cs@.len() - next,
        {
            next += 1;
        }
        assert forall|q: int| pos < q <= next && q <= cs@.len() implies !line_start(cs@, q) || q
            == next + 1 by {
            if q <= next {
                assert(cs@[q - 1] != '\n');
            }
        }
        if next == cs.len() {
            assert forall|q: int| 0 <= q && line_start(cs@, q) && delim_line(cs@, q) implies q
                < pos by {
                if q > pos {
                    assert(cs@[q - 1] != '\n');
                }
            }
            return None;
        }
        pos = next + 1;
    }
    assert forall|q: int| 0 <= q && line_start(cs@, q) && delim_line(cs@, q) implies q
        < pos by {}
    None
}

/// Index of the first character at or after `from` that does not begin a `---`.
fn skip_dashes(cs: &[char], from: usize) -> (i: usize)
    requires
        from <= cs@.len(),
    ensures
        from <= i <= cs@.len(),
        trim_dashes(cs@.skip(from as int)) == cs@.skip(i as int),
{
    let dash: [char; 3] = ['-', '-', '-'];
    assert(dash@ =~= dashes());
    let n = cs.len();
    let mut i = from;
    while matches_at(cs, i, &dash)
        invariant
            from <= i <= cs@.len(),
            n == cs@.len(),
            dash@ == dashes(),
            trim_dashes(cs@.skip(from as int)) == trim_dashes(cs@.skip(i as int)),
        decreases cs@.len() - i,
    {
        assert(cs@.skip(i as int).take(3) =~= cs@.subrange(i as int, i + 3));
        assert(cs@.skip(i as int).skip(3) =~= cs@.skip(i + 3));
        i += 3;
    }
    assert(cs@.skip(i as int).len() >= 3 ==> cs@.skip(i as int).take(3) =~= cs@.subrange(
        i as int,
        i + 3,
    ));
    i
}

/// Index of the first character at or after `from` that is not a gap character.
fn skip_gap(cs: &[char], from: usize) -> (i: usize)
    requires
        from <= cs@.len(),
    ensures
        from <= i <= cs@.len(),
        trim_gap(cs@.skip(from as int)) == cs@.skip(i as int),
{
    let mut i = from;
    while i < cs.len() && (cs[i] == '\n' || cs[i] == '\r' || cs[i] == ' ')
        invariant
            from <= i <= cs@.len(),
            trim_gap(cs@.skip(from as int)) == trim_gap(cs@.skip(i as int)),
        decreases cs@.len() - i,
    {
        assert(cs@.skip(i as int).drop_first() =~= cs@.skip(i + 1));
        i += 1;
    }
    i
}

/// Splits the characters of a file into its front matter text and body.
/// `None` when the file has no complete front matter block.
pub fn split_front_matter(cs: &[char]) -> (r: Option<(String, String)>)
    ensures
        match r {
            Some((fm, body)) => split_front(cs@) == Some((fm@, body@)),
            None => split_front(cs@) is None,
        },
{
    let n = cs.len();
    let start = skip_char(cs, 0, '\u{feff}');
    assert(cs@.skip(0) =~= cs@);
    let ghost t = cs@.skip(start as int);
    let open_lf: [char; 4] = ['-', '-', '-', '\n'];
    let open_crlf: [char; 5] = ['-', '-', '-', '\r', '\n'];
    let rest_at: usize;
    if matches_at(cs, start, &open_lf) {
        assert(open_lf@ =~= seq!['-', '-', '-', '\n']);
        assert(t.take(4) =~= cs@.subrange(start as int, start + 4));
        rest_at = start + 4;
    } else if matches_at(cs, start, &open_crlf) {
        assert(open_crlf@ =~= seq!['-', '-', '-', '\r', '\n']);
        assert(t.take(5) =~= cs@.subrange(start as int, start + 5));
        assert(!seq!['-', '-', '-', '\n'].is_prefix_of(t)) by {
            if seq!['-', '-', '-', '\n'].is_prefix_of(t) {
                assert(t[3] == '\n');
            }
        }
        rest_at = start + 5;
    } else {
        assert(open_lf@ =~= seq!['-', '-', '-', '\n']);
        assert(open_crlf@ =~= seq!['-', '-', '-', '\r', '\n']);
        assert(!seq!['-', '-', '-', '\n'].is_prefix_of(t)) by {
            if seq!['-', '-', '-', '\n'].is_prefix_of(t) {
                assert(cs@.subrange(start as int, start + 4) =~= t.take(4));
            }
        }
        assert(!seq!['-', '-', '-', '\r', '\n'].is_prefix_of(t)) by {
            if seq!['-', '-', '-', '\r', '\n'].is_prefix_of(t) {
                assert(cs@.subrange(start as int, start + 5) =~= t.take(5));
            }
        }
        return None;
    }
    let ghost rest = cs@.skip(rest_at as int);
    assert(t.skip((rest_at - start) as int) =~= rest);
    let rest_cs = slice_from(cs, rest_at);
    match find_frontmatter_end(&rest_cs) {
        None => None,
        Some(end) => {
            let fm = from_char_range(&rest_cs, 0, end);
            assert(rest_cs@.subrange(0, end as int) =~= rest.take(end as int));
            let after = skip_dashes(&rest_cs, end);
            let body_at = skip_gap(&rest_cs, after);
            let body = from_char_range(&rest_cs, body_at, rest_cs.len());
            assert(rest_cs@.subrange(body_at as int, rest_cs@.len() as int) =~= rest_cs@.skip(
                body_at as int,
            ));
            Some((fm, body))
        },
    }
}

/// A copy of `cs[from..]`.
fn slice_from(cs: &[char], from: usize) -> (v: Vec<char>)
    requires
        from <= cs@.len(),
    ensures
        v@ == cs@.skip(from as int),
{
    let mut v: Vec<char> = Vec::new();
    let mut i = from;
    while i < cs.len()
        invariant
            from <= i <= cs@.len(),
            v@ == cs@.subrange(from as int, i as int),
        decreases cs@.len() - i,
    {
        v.push(cs[i]);
        assert(cs@.subrange(from as int, i + 1) =~= cs@.subrange(from as int, i as int).push(
            cs@[i as int],
        ));
        i += 1;
    }
    assert(cs@.subrange(from as int, cs@.len() as int) =~= cs@.skip(from as int));
    v
}

} // verus!
