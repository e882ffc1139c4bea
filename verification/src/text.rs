//! Character-level string helpers shared by the parsers of this crate.
use vstd::prelude::*;

verus! {

/// Appends one character to a `String` (`String::push`).
/// Trusted: the new contents are the old contents followed by `c`.
#[verifier::external_body]
pub(crate) fn push_char(s: &mut String, c: char)
    ensures
        final(s)@ == old(s)@.push(c),
{
    s.push(c);
}

/// The characters of `s`, in order.
pub fn to_chars(s: &str) -> (v: Vec<char>)
    ensures
        v@ == s@,
{
    let mut v: Vec<char> = Vec::new();
    for c in it: s.chars()
        invariant
            v@ == it.seq().take(it.index() as int),
    {
        v.push(c);
    }
    v
}

/// A `String` holding exactly the characters of `cs`.
pub fn from_chars(cs: &[char]) -> (s: String)
    ensures
        s@ == cs@,
{
    let s = from_char_range(cs, 0, cs.len());
    assert(cs@.subrange(0, cs@.len() as int) =~= cs@);
    s
}

/// A `String` holding the characters `cs[from..to]`.
pub fn from_char_range(cs: &[char], from: usize, to: usize) -> (s: String)
    requires
        from <= to <= cs@.len(),
    ensures
        s@ == cs@.subrange(from as int, to as int),
{
    let mut s = String::new();
    let mut i: usize = from;
    while i < to
        invariant
            from <= i <= to <= cs@.len(),
            s@ == cs@.subrange(from as int, i as int),
        decreases to - i,
    {
        push_char(&mut s, cs[i]);
        assert(cs@.subrange(from as int, i + 1) =~= cs@.subrange(from as int, i as int).push(
            cs@[i as int],
        ));
        i += 1;
    }
    s
}

/// `s` without its leading run of the character `c`.
pub open spec fn trim_start_char(s: Seq<char>, c: char) -> Seq<char>
    decreases s.len(),
{
    if s.len() > 0 && s[0] == c {
        trim_start_char(s.drop_first(), c)
    } else {
        s
    }
}

/// Index of the first character at or after `from` that is not `c`.
pub fn skip_char(cs: &[char], from: usize, c: char) -> (i: usize)
    requires
        from <= cs@.len(),
    ensures
        from <= i <= cs@.len(),
        trim_start_char(cs@.skip(from as int), c) == cs@.skip(i as int),
{
    let mut i = from;
    while i < cs.len() && cs[i] == c
        invariant
            from <= i <= cs@.len(),
            trim_start_char(cs@.skip(from as int), c) == trim_start_char(cs@.skip(i as int), c),
        decreases cs@.len() - i,
    {
        assert(cs@.skip(i as int).drop_first() =~= cs@.skip(i + 1));
        i += 1;
    }
    i
}

/// Whether `p` occurs in `cs` at position `at`.
pub fn matches_at(cs: &[char], at: usize, p: &[char]) -> (b: bool)
    ensures
        b == (at + p@.len() <= cs@.len() && cs@.subrange(at as int, at + p@.len()) == p@),
{
    if at > cs.len() || p.len() > cs.len() - at {
        return false;
    }
    let mut j: usize = 0;
    while j < p.len()
        invariant
            at + p@.len() <= cs.len(),
            0 <= j <= p@.len(),
            forall|k: int| 0 <= k < j ==> cs@[at + k] == p@[k],
        decreases p@.len() - j,
    {
        if cs[at + j] != p[j] {
            assert(cs@.subrange(at as int, at + p@.len())[j as int] != p@[j as int]);
            return false;
        }
        j += 1;
    }
    assert(cs@.subrange(at as int, at + p@.len()) =~= p@);
    true
}

/// The decimal digit character for `d < 10`.
pub open spec fn digit_char(d: nat) -> char {
    if d == 0 { '0' } else if d == 1 { '1' } else if d == 2 { '2' } else if d == 3 { '3' }
    else if d == 4 { '4' } else if d == 5 { '5' } else if d == 6 { '6' } else if d == 7 { '7' }
    else if d == 8 { '8' } else { '9' }
}

/// The decimal representation of `n`, without leading zeros.
pub open spec fn decimal(n: nat) -> Seq<char>
    decreases n,
{
    if n < 10 {
        seq![digit_char(n)]
    } else {
        decimal(n / 10).push(digit_char(n % 10))
    }
}

/// `s` preceded by as many `'0'` as needed to reach `width` characters.
pub open spec fn zero_pad(s: Seq<char>, width: nat) -> Seq<char> {
    if s.len() < width {
        Seq::new((width - s.len()) as nat, |i: int| '0') + s
    } else {
        s
    }
}

fn digit(d: u64) -> (c: char)
    requires
        d < 10,
    ensures
        c == digit_char(d as nat),
{
    if d == 0 { '0' } else if d == 1 { '1' } else if d == 2 { '2' } else if d == 3 { '3' }
    else if d == 4 { '4' } else if d == 5 { '5' } else if d == 6 { '6' } else if d == 7 { '7' }
    else if d == 8 { '8' } else { '9' }
}

/// The decimal digits of `n`.
pub fn decimal_chars(n: u64) -> (v: Vec<char>)
    ensures
        v@ == decimal(n as nat),
    decreases n,
{
    if n < 10 {
        let mut v = Vec::new();
        v.push(digit(n));
        assert(v@ =~= seq![digit_char(n as nat)]);
        v
    } else {
        let mut v = decimal_chars(n / 10);
        v.push(digit(n % 10));
        v
    }
}

/// Appends the decimal form of `n`, zero-padded to `width` characters.
pub fn push_decimal(out: &mut String, n: u64, width: usize)
    ensures
        final(out)@ == old(out)@ + zero_pad(decimal(n as nat), width as nat),
{
    let ds = decimal_chars(n);
    let ghost start = out@;
    let mut k = ds.len();
    while k < width
        invariant
            ds@ == decimal(n as nat),
            ds.len() <= k <= (if ds.len() < width { width } else { ds.len() }),
            out@ == start + Seq::new((k - ds@.len()) as nat, |i: int| '0'),
        decreases width - k,
    {
        push_char(out, '0');
        assert(Seq::new((k + 1 - ds@.len()) as nat, |i: int| '0') =~= Seq::new(
            (k - ds@.len()) as nat,
            |i: int| '0',
        ).push('0'));
        k += 1;
    }
    let mut j: usize = 0;
    let ghost pad = out@;
    while j < ds.len()
        invariant
            0 <= j <= ds@.len(),
            out@ == pad + ds@.take(j as int),
        decreases ds@.len() - j,
    {
        push_char(out, ds[j]);
        assert(ds@.take(j + 1) =~= ds@.take(j as int).push(ds@[j as int]));
        j += 1;
    }
    assert(ds@.take(ds@.len() as int) =~= ds@);
    assert(zero_pad(decimal(n as nat), width as nat) =~= Seq::new(
        (k - ds@.len()) as nat,
        |i: int| '0',
    ) + ds@);
    assert(out@ =~= start + zero_pad(decimal(n as nat), width as nat));
}

/// Appends `s` to `out`.
pub fn push_str(out: &mut String, s: &str)
    ensures
        final(out)@ == old(out)@ + s@,
{
    let cs = to_chars(s);
    let mut j: usize = 0;
    let ghost start = out@;
    while j < cs.len()
        invariant
            0 <= j <= cs@.len(),
            out@ == start + cs@.take(j as int),
        decreases cs@.len() - j,
    {
        push_char(out, cs[j]);
        assert(cs@.take(j + 1) =~= cs@.take(j as int).push(cs@[j as int]));
        j += 1;
    }
    assert(cs@.take(cs@.len() as int) =~= cs@);
}

/// `s` without its leading and trailing runs of `c`.
pub open spec fn trim_both_char(s: Seq<char>, c: char) -> Seq<char> {
    trim_end_char(trim_start_char(s, c), c)
}

proof fn lemma_trim_start_done(s: Seq<char>, c: char)
    ensures
        trim_start_char(trim_start_char(s, c), c) == trim_start_char(s, c),
        trim_start_char(s, c).len() == 0 || trim_start_char(s, c)[0] != c,
    decreases s.len(),
{
    if s.len() > 0 && s[0] == c {
        lemma_trim_start_done(s.drop_first(), c);
    }
}

proof fn lemma_trim_end_done(s: Seq<char>, c: char)
    ensures
        trim_end_char(trim_end_char(s, c), c) == trim_end_char(s, c),
        trim_end_char(s, c).len() == 0 || trim_end_char(s, c).last() != c,
        trim_end_char(s, c).len() <= s.len(),
        forall|i: int| 0 <= i < trim_end_char(s, c).len() ==> #[trigger] trim_end_char(s, c)[i] == s[i],
    decreases s.len(),
{
    if s.len() > 0 && s.last() == c {
        lemma_trim_end_done(s.drop_last(), c);
    }
}

/// Trimming a text of `c` at both ends twice is trimming it once.
pub proof fn lemma_trim_both_idempotent(s: Seq<char>, c: char)
    ensures
        trim_both_char(trim_both_char(s, c), c) == trim_both_char(s, c),
{
    let a = trim_start_char(s, c);
    let b = trim_end_char(a, c);
    lemma_trim_start_done(s, c);
    lemma_trim_end_done(a, c);
    lemma_trim_end_done(b, c);
    if b.len() > 0 {
        assert(b[0] == a[0]);
        assert(trim_start_char(b, c) == b);
    } else {
        assert(trim_start_char(b, c) == b);
    }
}

/// `s` without its trailing run of `c`.
pub open spec fn trim_end_char(s: Seq<char>, c: char) -> Seq<char>
    decreases s.len(),
{
    if s.len() > 0 && s.last() == c {
        trim_end_char(s.drop_last(), c)
    } else {
        s
    }
}

/// Index one past the last character before `to` that is not `c`, not below `from`.
pub fn skip_char_back(cs: &[char], from: usize, to: usize, c: char) -> (i: usize)
    requires
        from <= to <= cs@.len(),
    ensures
        from <= i <= to,
        trim_end_char(cs@.subrange(from as int, to as int), c) == cs@.subrange(from as int, i as int),
{
    let mut i = to;
    while i > from && cs[i - 1] == c
        invariant
            from <= i <= to <= cs@.len(),
            trim_end_char(cs@.subrange(from as int, to as int), c) == trim_end_char(
                cs@.subrange(from as int, i as int),
                c,
            ),
        decreases i,
    {
        assert(cs@.subrange(from as int, i as int).drop_last() =~= cs@.subrange(from as int, i - 1));
        i -= 1;
    }
    i
}

/// `s` without its leading and trailing `c` characters (`str::trim_matches`).
pub fn trim_matches_char(s: &str, c: char) -> (r: String)
    ensures
        r@ == trim_both_char(s@, c),
{
    let cs = to_chars(s);
    let a = skip_char(&cs, 0, c);
    assert(cs@.skip(0) =~= cs@);
    let b = skip_char_back(&cs, a, cs.len(), c);
    assert(cs@.subrange(a as int, cs@.len() as int) =~= cs@.skip(a as int));
    from_char_range(&cs, a, b)
}

/// `p` occurs in `s` at `i`.
pub open spec fn occurs_at(s: Seq<char>, p: Seq<char>, i: int) -> bool {
    0 <= i && i + p.len() <= s.len() && s.subrange(i, i + p.len()) == p
}

/// Index of the first occurrence of `p` in `s` (`str::find`).
#[verifier::opaque]
pub open spec fn first_occurrence(s: Seq<char>, p: Seq<char>) -> Option<int> {
    if exists|i: int| occurs_at(s, p, i) {
        Some(choose|i: int| occurs_at(s, p, i) && forall|j: int| 0 <= j < i ==> !occurs_at(s, p, j))
    } else {
        None
    }
}

proof fn lemma_first_occurrence(s: Seq<char>, p: Seq<char>, i: int)
    requires
        occurs_at(s, p, i),
        forall|j: int| 0 <= j < i ==> !occurs_at(s, p, j),
    ensures
        first_occurrence(s, p) == Some(i),
{
    reveal(first_occurrence);
    let w = choose|k: int| occurs_at(s, p, k) && forall|j: int| 0 <= j < k ==> !occurs_at(s, p, j);
    assert(occurs_at(s, p, w) && forall|j: int| 0 <= j < w ==> !occurs_at(s, p, j));
    if w < i {
        assert(!occurs_at(s, p, w));
    } else if w > i {
        assert(!occurs_at(s, p, i));
    }
}

/// Index of the first occurrence of `p` in `cs`.
pub fn find_chars(cs: &[char], p: &[char]) -> (r: Option<usize>)
    ensures
        r matches Some(i) ==> first_occurrence(cs@, p@) == Some(i as int) && occurs_at(cs@, p@, i as int),
        r is None ==> first_occurrence(cs@, p@) is None,
{
    reveal(first_occurrence);
    if p.len() > cs.len() {
        assert forall|k: int| !occurs_at(cs@, p@, k) by {}
        return None;
    }
    let last = cs.len() - p.len();
    let mut i: usize = 0;
    while i <= last
        invariant
            last == cs@.len() - p@.len(),
            0 <= i <= last + 1,
            forall|j: int| 0 <= j < i ==> !occurs_at(cs@, p@, j),
        decreases last + 1 - i,
    {
        if matches_at(cs, i, p) {
            proof {
                lemma_first_occurrence(cs@, p@, i as int);
            }
            return Some(i);
        }
        if i == last {
            reveal(first_occurrence);
            assert forall|k: int| !occurs_at(cs@, p@, k) by {
                if 0 <= k < i + 1 {
                    assert(k < i || k == i);
                }
            }
            return None;
        }
        i += 1;
    }
    None
}

/// Lexicographic order of character sequences by code point (for UTF-8
/// text the same order as that of the bytes, which is how `String` orders).
pub open spec fn seq_lt(a: Seq<char>, b: Seq<char>) -> bool
    decreases a.len(),
{
    if a.len() == 0 {
        b.len() > 0
    } else if b.len() == 0 {
        false
    } else if a[0] != b[0] {
        (a[0] as u32) < (b[0] as u32)
    } else {
        seq_lt(a.drop_first(), b.drop_first())
    }
}

proof fn lemma_seq_lt_total(a: Seq<char>, b: Seq<char>)
    ensures
        a != b ==> seq_lt(a, b) || seq_lt(b, a),
    decreases a.len(),
{
    if a.len() > 0 && b.len() > 0 {
        if a[0] == b[0] {
            lemma_seq_lt_total(a.drop_first(), b.drop_first());
            if a.drop_first() == b.drop_first() {
                assert(a =~= seq![a[0]] + a.drop_first());
                assert(b =~= seq![b[0]] + b.drop_first());
            }
        } else {
            vstd::utf8::char_u32_cast(a[0], a[0] as u32);
            vstd::utf8::char_u32_cast(b[0], b[0] as u32);
        }
    } else if a.len() == 0 && b.len() == 0 {
        assert(a =~= b);
    }
}

proof fn lemma_seq_lt_strict(a: Seq<char>, b: Seq<char>, c: Seq<char>)
    ensures
        !seq_lt(a, a),
        seq_lt(a, b) ==> !seq_lt(b, a),
        seq_lt(a, b) && seq_lt(b, c) ==> seq_lt(a, c),
    decreases a.len(),
{
    if a.len() > 0 && b.len() > 0 && c.len() > 0 {
        lemma_seq_lt_strict(a.drop_first(), b.drop_first(), c.drop_first());
    } else if a.len() > 0 && b.len() > 0 {
        lemma_seq_lt_strict(a.drop_first(), b.drop_first(), b.drop_first());
    } else if a.len() > 0 {
        lemma_seq_lt_strict(a.drop_first(), a.drop_first(), a.drop_first());
    }
}

/// `seq_lt` is a strict total order.
pub proof fn lemma_seq_lt_order(a: Seq<char>, b: Seq<char>, c: Seq<char>)
    ensures
        !seq_lt(a, a),
        seq_lt(a, b) ==> !seq_lt(b, a),
        seq_lt(a, b) && seq_lt(b, c) ==> seq_lt(a, c),
        a != b ==> seq_lt(a, b) || seq_lt(b, a),
{
    lemma_seq_lt_strict(a, b, c);
    lemma_seq_lt_total(a, b);
}

/// Result of comparing two texts.
#[derive(Debug, PartialEq, Eq, Structural, Clone, Copy)]
pub enum TextOrder {
    Less,
    Equal,
    Greater,
}

/// Compares two texts in `seq_lt` order.
pub fn compare_text(a: &str, b: &str) -> (r: TextOrder)
    ensures
        r == TextOrder::Less <==> seq_lt(a@, b@),
        r == TextOrder::Equal <==> a@ == b@,
        r == TextOrder::Greater <==> seq_lt(b@, a@),
{
    let x = to_chars(a);
    let y = to_chars(b);
    let mut i: usize = 0;
    proof {
        lemma_seq_lt_order(a@, b@, a@);
        assert(x@.skip(0) =~= x@);
        assert(y@.skip(0) =~= y@);
    }
    while i < x.len() && i < y.len() && x[i] == y[i]
        invariant
            i <= x@.len(),
            i <= y@.len(),
            x@.take(i as int) == y@.take(i as int),
            seq_lt(x@, y@) == seq_lt(x@.skip(i as int), y@.skip(i as int)),
            seq_lt(y@, x@) == seq_lt(y@.skip(i as int), x@.skip(i as int)),
        decreases x@.len() - i,
    {
        assert(x@.skip(i as int).drop_first() =~= x@.skip(i + 1));
        assert(y@.skip(i as int).drop_first() =~= y@.skip(i + 1));
        assert(x@.take(i + 1) =~= x@.take(i as int).push(x@[i as int]));
        assert(y@.take(i + 1) =~= y@.take(i as int).push(y@[i as int]));
        i += 1;
    }
    if i == x.len() && i == y.len() {
        assert(x@ =~= x@.take(i as int));
        assert(y@ =~= y@.take(i as int));
        TextOrder::Equal
    } else if i == x.len() {
        assert(x@ != y@) by {
            assert(x@.len() != y@.len());
        }
        TextOrder::Less
    } else if i == y.len() {
        assert(x@ != y@) by {
            assert(x@.len() != y@.len());
        }
        TextOrder::Greater
    } else {
        assert(x@ != y@) by {
            assert(x@[i as int] != y@[i as int]);
        }
        if (x[i] as u32) < (y[i] as u32) {
            TextOrder::Less
        } else {
            TextOrder::Greater
        }
    }
}

} // verus!
