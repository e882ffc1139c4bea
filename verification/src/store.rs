//! The prompt list: prompts built from the files of the data folder, their
//! order, and the count of prompts per category.
use vstd::prelude::*;
use crate::markdown::split_front;
use crate::meta::{front_meta, is_fresh_meta, parse_markdown, parsed_meta, MetaView, PromptMeta};
use crate::text::{from_char_range, to_chars};
use crate::text::{compare_text, lemma_seq_lt_order, seq_lt, TextOrder};

verus! {

/// One prompt of the list.
#[derive(Debug)]
pub struct Prompt {
    pub id: String,
    pub title: String,
    pub category: String,
    pub path: String,
    pub abs_path: String,
    pub meta: PromptMeta,
    /// Position within its category from the order file; `None`: unlisted (last).
    pub order: Option<i32>,
}

/// Number of prompts of a category.
#[derive(Debug)]
pub struct CategoryCount {
    pub name: String,
    pub count: usize,
}

/// The prompt list and the categories with their counts.
#[derive(Debug)]
pub struct ScanResult {
    pub prompts: Vec<Prompt>,
    pub categories: Vec<CategoryCount>,
}

/// Rank of a prompt within its category: its position, or after all
/// positions when it has none.
pub open spec fn order_rank(o: Option<i32>) -> int {
    match o {
        Some(x) => x as int,
        None => i32::MAX as int,
    }
}

/// `a` comes strictly before `b` in the list: by category, then by rank,
/// then by most recent update first.
pub open spec fn prompt_before(a: Prompt, b: Prompt) -> bool {
    ||| seq_lt(a.category@, b.category@)
    ||| a.category@ == b.category@ && order_rank(a.order) < order_rank(b.order)
    ||| a.category@ == b.category@ && order_rank(a.order) == order_rank(b.order) && seq_lt(
        b.meta.updated@,
        a.meta.updated@,
    )
}

/// `a` and `b` share the sort key.
pub open spec fn same_key(a: Prompt, b: Prompt) -> bool {
    a.category@ == b.category@ && order_rank(a.order) == order_rank(b.order) && a.meta.updated@
        == b.meta.updated@
}

proof fn lemma_before_order(a: Prompt, b: Prompt, c: Prompt)
    ensures
        !prompt_before(a, a),
        prompt_before(a, b) ==> !prompt_before(b, a),
        prompt_before(a, b) && prompt_before(b, c) ==> prompt_before(a, c),
        !prompt_before(a, b) && !prompt_before(b, a) ==> same_key(a, b),
        same_key(a, b) ==> (prompt_before(a, c) == prompt_before(b, c)) && (prompt_before(c, a)
            == prompt_before(c, b)),
{
    lemma_seq_lt_order(a.category@, b.category@, c.category@);
    lemma_seq_lt_order(c.meta.updated@, b.meta.updated@, a.meta.updated@);
    lemma_seq_lt_order(a.meta.updated@, b.meta.updated@, c.meta.updated@);
    lemma_seq_lt_order(b.category@, c.category@, a.category@);
    lemma_seq_lt_order(b.meta.updated@, a.meta.updated@, c.meta.updated@);
}

/// `out` is `inp` sorted by `prompt_before`, prompts with the same key kept in
/// their input order, `perm` giving each one's input position.
pub open spec fn is_stable_sort(inp: Seq<Prompt>, out: Seq<Prompt>, perm: Seq<int>) -> bool {
    &&& out.len() == inp.len()
    &&& perm.len() == inp.len()
    &&& forall|i: int| 0 <= i < perm.len() ==> 0 <= #[trigger] perm[i] < inp.len()
    &&& forall|i: int, j: int| 0 <= i < j < perm.len() ==> perm[i] != perm[j]
    &&& forall|i: int| 0 <= i < out.len() ==> #[trigger] out[i] == inp[perm[i]]
    &&& forall|i: int, j: int| 0 <= i < j < out.len() ==> !prompt_before(out[j], out[i])
    &&& forall|i: int, j: int|
        0 <= i < j < out.len() && same_key(out[i], out[j]) ==> perm[i] < perm[j]
}

/// Whether `a` comes strictly before `b` in the list.
pub fn prompt_precedes(a: &Prompt, b: &Prompt) -> (r: bool)
    ensures
        r == prompt_before(*a, *b),
{
    match compare_text(a.category.as_str(), b.category.as_str()) {
        TextOrder::Less => true,
        TextOrder::Greater => false,
        TextOrder::Equal => {
            let ra: i32 = match a.order {
                Some(x) => x,
                None => i32::MAX,
            };
            let rb: i32 = match b.order {
                Some(x) => x,
                None => i32::MAX,
            };
            if ra < rb {
                true
            } else if ra > rb {
                false
            } else {
                compare_text(b.meta.updated.as_str(), a.meta.updated.as_str()) == TextOrder::Less
            }
        },
    }
}

/// Sorts prompts by category, then rank, then most recent update first,
/// keeping prompts with the same key in their input order.
pub fn sort_prompts(inp: Vec<Prompt>) -> (out: Vec<Prompt>)
    ensures
        exists|perm: Seq<int>| is_stable_sort(inp@, out@, perm),
{
    let ghost src = inp@;
    let n = inp.len();
    let mut out: Vec<Prompt> = Vec::new();
    let ghost mut perm: Seq<int> = Seq::empty();
    let mut k: usize = 0;
    for x in it: inp
        invariant
            src == it.seq(),
            n == src.len(),
            k == it.index(),
            k <= src.len(),
            is_stable_sort(src.take(k as int), out@, perm),
    {
        let mut pos: usize = 0;
        while pos < out.len() && !prompt_precedes(&x, &out[pos])
            invariant
                0 <= pos <= out@.len(),
                forall|i: int| 0 <= i < pos ==> !prompt_before(x, #[trigger] out@[i]),
            decreases out@.len() - pos,
        {
            pos += 1;
        }
        let ghost old_out = out@;
        let ghost old_perm = perm;
        assert(x == src[k as int]);
        out.insert(pos, x);
        proof {
            perm = old_perm.insert(pos as int, k as int);
            assert forall|i: int, j: int| 0 <= i < j < out@.len() implies !prompt_before(
                out@[j],
                out@[i],
            ) by {
                if j == pos {
                    assert(out@[i] == old_out[i]);
                } else if i == pos {
                    assert(out@[j] == old_out[j - 1]);
                    assert(prompt_before(x, old_out[pos as int]));
                    lemma_before_order(old_out[j - 1], x, old_out[pos as int]);
                    if j - 1 > pos {
                        assert(!prompt_before(old_out[j - 1], old_out[pos as int]));
                    }
                } else {
                    let oi = if i < pos { i } else { i - 1 };
                    let oj = if j < pos { j } else { j - 1 };
                    assert(out@[i] == old_out[oi]);
                    assert(out@[j] == old_out[oj]);
                }
            }
            assert forall|i: int, j: int|
                0 <= i < j < out@.len() && same_key(out@[i], out@[j]) implies perm[i] < perm[j] by {
                if j == pos {
                } else if i == pos {
                    assert(out@[j] == old_out[j - 1]);
                    lemma_before_order(x, old_out[j - 1], old_out[pos as int]);
                    if j - 1 > pos {
                        assert(!prompt_before(old_out[j - 1], old_out[pos as int]));
                    }
                } else {
                    let oi = if i < pos { i } else { i - 1 };
                    let oj = if j < pos { j } else { j - 1 };
                    assert(out@[i] == old_out[oi]);
                    assert(out@[j] == old_out[oj]);
                }
            }
            assert forall|i: int| 0 <= i < out@.len() implies #[trigger] out@[i] == src.take(
                k + 1,
            )[perm[i]] by {
                if i < pos {
                    assert(out@[i] == old_out[i]);
                } else if i > pos {
                    assert(out@[i] == old_out[i - 1]);
                }
            }
            assert forall|i: int, j: int| 0 <= i < j < perm.len() implies perm[i] != perm[j] by {
                if i != pos && j != pos {
                    let oi = if i < pos { i } else { i - 1 };
                    let oj = if j < pos { j } else { j - 1 };
                    assert(perm[i] == old_perm[oi]);
                    assert(perm[j] == old_perm[oj]);
                }
            }
        }
        k += 1;
    }
    assert(src.take(k as int) =~= src);
    out
}

/// The category name `n` is hidden: it starts with `.` or `~`.
pub open spec fn hidden_name(n: Seq<char>) -> bool {
    n.len() > 0 && (n[0] == '.' || n[0] == '~')
}

/// Whether a name starts with `.` or `~`.
pub fn is_hidden_name(n: &str) -> (b: bool)
    ensures
        b == hidden_name(n@),
{
    let cs = crate::text::to_chars(n);
    cs.len() > 0 && (cs[0] == '.' || cs[0] == '~')
}

/// Names of the categories in `c` are in strictly increasing order.
pub open spec fn names_sorted(c: Seq<CategoryCount>) -> bool {
    forall|i: int, j: int| 0 <= i < j < c.len() ==> seq_lt(c[i].name@, c[j].name@)
}

/// The count that `c` records for category `n`, or -1 when it has no entry.
pub open spec fn count_of(c: Seq<CategoryCount>, n: Seq<char>) -> int {
    if exists|i: int| 0 <= i < c.len() && c[i].name@ == n {
        c[cat_index(c, n)].count as int
    } else {
        -1
    }
}

/// An index of an entry of `c` for category `n`.
pub open spec fn cat_index(c: Seq<CategoryCount>, n: Seq<char>) -> int {
    choose|i: int| 0 <= i < c.len() && c[i].name@ == n
}

/// Number of prompts of `ps` in category `n`.
pub open spec fn count_in(ps: Seq<Prompt>, n: Seq<char>) -> nat
    decreases ps.len(),
{
    if ps.len() == 0 {
        0
    } else {
        count_in(ps.drop_last(), n) + if ps.last().category@ == n {
            1nat
        } else {
            0nat
        }
    }
}

proof fn lemma_count_in_bound(ps: Seq<Prompt>, n: Seq<char>)
    ensures
        count_in(ps, n) <= ps.len(),
    decreases ps.len(),
{
    if ps.len() > 0 {
        lemma_count_in_bound(ps.drop_last(), n);
    }
}

proof fn lemma_count_in_zero(ps: Seq<Prompt>, n: Seq<char>)
    requires
        !exists|j: int| 0 <= j < ps.len() && ps[j].category@ == n,
    ensures
        count_in(ps, n) == 0,
    decreases ps.len(),
{
    if ps.len() > 0 {
        assert forall|j: int| 0 <= j < ps.drop_last().len() implies ps.drop_last()[j].category@
            != n by {
            assert(ps.drop_last()[j] == ps[j]);
        }
        lemma_count_in_zero(ps.drop_last(), n);
        assert(ps.last() == ps[ps.len() - 1]);
    }
}

proof fn lemma_count_of_at(c: Seq<CategoryCount>, i: int)
    requires
        names_sorted(c),
        0 <= i < c.len(),
    ensures
        count_of(c, c[i].name@) == c[i].count as int,
{
    let n = c[i].name@;
    assert(exists|k: int| 0 <= k < c.len() && c[k].name@ == n);
    let j = cat_index(c, n);
    assert(0 <= j < c.len() && c[j].name@ == n);
    if j < i {
        assert(seq_lt(c[j].name@, c[i].name@));
        lemma_seq_lt_order(n, n, n);
    } else if j > i {
        assert(seq_lt(c[i].name@, c[j].name@));
        lemma_seq_lt_order(n, n, n);
    }
}

/// Adds `inc` to the count of category `name`, entering it (with count 0
/// before the addition) when `cats` has no entry for it.
fn bump_category(cats: &mut Vec<CategoryCount>, name: &String, inc: usize)
    requires
        names_sorted(old(cats)@),
        inc <= 1,
        forall|i: int| 0 <= i < old(cats)@.len() ==> old(cats)@[i].count + inc <= usize::MAX,
    ensures
        names_sorted(final(cats)@),
        forall|n: Seq<char>|
            count_of(final(cats)@, n) == if n == name@ {
                (if count_of(old(cats)@, n) < 0 {
                    0
                } else {
                    count_of(old(cats)@, n)
                }) + inc
            } else {
                count_of(old(cats)@, n)
            },
{
    let ghost old_c = cats@;
    let mut j: usize = 0;
    while j < cats.len() && compare_text(cats[j].name.as_str(), name.as_str()) == TextOrder::Less
        invariant
            0 <= j <= cats@.len(),
            cats@ == old_c,
            forall|i: int| 0 <= i < j ==> seq_lt(#[trigger] cats@[i].name@, name@),
        decreases cats@.len() - j,
    {
        j += 1;
    }
    if j < cats.len() && compare_text(cats[j].name.as_str(), name.as_str()) == TextOrder::Equal {
        let c = cats[j].count;
        let nm = cats[j].name.clone();
        cats.set(j, CategoryCount { name: nm, count: c + inc });
        proof {
            assert forall|i: int, k: int| 0 <= i < k < cats@.len() implies seq_lt(
                cats@[i].name@,
                cats@[k].name@,
            ) by {
                assert(cats@[i].name@ == old_c[i].name@);
                assert(cats@[k].name@ == old_c[k].name@);
            }
            assert forall|n: Seq<char>| #[trigger]
                count_of(cats@, n) == if n == name@ {
                    (if count_of(old_c, n) < 0 {
                        0
                    } else {
                        count_of(old_c, n)
                    }) + inc
                } else {
                    count_of(old_c, n)
                } by {
                lemma_count_of_at(old_c, j as int);
                lemma_count_of_at(cats@, j as int);
                if exists|i: int| 0 <= i < old_c.len() && old_c[i].name@ == n {
                    let i = choose|i: int| 0 <= i < old_c.len() && old_c[i].name@ == n;
                    lemma_count_of_at(old_c, i);
                    lemma_count_of_at(cats@, i);
                } else {
                    assert(!exists|i: int| 0 <= i < cats@.len() && cats@[i].name@ == n) by {
                        if exists|i: int| 0 <= i < cats@.len() && cats@[i].name@ == n {
                            let i = choose|i: int| 0 <= i < cats@.len() && cats@[i].name@ == n;
                            assert(old_c[i].name@ == n);
                        }
                    }
                }
            }
        }
    } else {
        let ghost at_j = j;
        cats.insert(j, CategoryCount { name: name.clone(), count: inc });
        proof {
            assert(j < old_c.len() ==> seq_lt(name@, old_c[j as int].name@)) by {
                if j < old_c.len() {
                    lemma_seq_lt_order(old_c[j as int].name@, name@, name@);
                }
            }
            assert forall|i: int, k: int| 0 <= i < k < cats@.len() implies seq_lt(
                cats@[i].name@,
                cats@[k].name@,
            ) by {
                if i == j {
                    assert(cats@[k] == old_c[k - 1]);
                    if k - 1 > j {
                        lemma_seq_lt_order(name@, old_c[j as int].name@, old_c[k - 1].name@);
                    }
                } else if k == j {
                    assert(cats@[i] == old_c[i]);
                } else {
                    let oi = if i < j { i } else { i - 1 };
                    let ok = if k < j { k } else { k - 1 };
                    assert(cats@[i] == old_c[oi]);
                    assert(cats@[k] == old_c[ok]);
                }
            }
            assert(!exists|i: int| 0 <= i < old_c.len() && old_c[i].name@ == name@) by {
                if exists|i: int| 0 <= i < old_c.len() && old_c[i].name@ == name@ {
                    let i = choose|i: int| 0 <= i < old_c.len() && old_c[i].name@ == name@;
                    if i < j {
                        lemma_seq_lt_order(name@, name@, name@);
                    } else if i > j {
                        lemma_seq_lt_order(name@, old_c[j as int].name@, name@);
                    }
                }
            }
            assert forall|n: Seq<char>| #[trigger]
                count_of(cats@, n) == if n == name@ {
                    (if count_of(old_c, n) < 0 {
                        0
                    } else {
                        count_of(old_c, n)
                    }) + inc
                } else {
                    count_of(old_c, n)
                } by {
                lemma_count_of_at(cats@, j as int);
                if exists|i: int| 0 <= i < old_c.len() && old_c[i].name@ == n {
                    let i = choose|i: int| 0 <= i < old_c.len() && old_c[i].name@ == n;
                    lemma_count_of_at(old_c, i);
                    let ni = if i < j { i } else { i + 1 };
                    assert(cats@[ni] == old_c[i]);
                    lemma_count_of_at(cats@, ni);
                } else if n != name@ {
                    assert(!exists|i: int| 0 <= i < cats@.len() && cats@[i].name@ == n) by {
                        if exists|i: int| 0 <= i < cats@.len() && cats@[i].name@ == n {
                            let i = choose|i: int| 0 <= i < cats@.len() && cats@[i].name@ == n;
                            if i < j {
                                assert(old_c[i].name@ == n);
                            } else if i > j {
                                assert(old_c[i - 1].name@ == n);
                            }
                        }
                    }
                }
            }
        }
    }
}

/// Category `n` appears in the list: as a visible folder, or as the category
/// of some prompt.
pub open spec fn listed_category(dirs: Seq<String>, ps: Seq<Prompt>, n: Seq<char>) -> bool {
    ||| (exists|i: int| 0 <= i < dirs.len() && dirs[i]@ == n) && !hidden_name(n)
    ||| exists|j: int| 0 <= j < ps.len() && ps[j].category@ == n
}

/// Counts the prompts per category. Every visible category folder (from
/// `dirs`, the names of the top-level folders) appears, empty ones too, as
/// does the category of every prompt; names are in increasing order.
pub fn count_categories(dirs: &Vec<String>, prompts: &Vec<Prompt>) -> (r: Vec<CategoryCount>)
    ensures
        names_sorted(r@),
        forall|n: Seq<char>|
            #[trigger] count_of(r@, n) == if listed_category(dirs@, prompts@, n) {
                count_in(prompts@, n) as int
            } else {
                -1
            },
{
    let mut cats: Vec<CategoryCount> = Vec::new();
    let mut k: usize = 0;
    while k < dirs.len()
        invariant
            0 <= k <= dirs@.len(),
            names_sorted(cats@),
            forall|n: Seq<char>|
                #[trigger] count_of(cats@, n) == if (exists|i: int| 0 <= i < k && dirs@[i]@ == n)
                    && !hidden_name(n) {
                    0
                } else {
                    -1
                },
        decreases dirs@.len() - k,
    {
        let ghost before = cats@;
        if !is_hidden_name(dirs[k].as_str()) {
            proof {
                assert forall|i: int| 0 <= i < cats@.len() implies cats@[i].count + 0 <= usize::MAX by {
                }
            }
            bump_category(&mut cats, &dirs[k], 0);
        }
        proof {
            assert forall|n: Seq<char>|
                #[trigger] count_of(cats@, n) == if (exists|i: int|
                    0 <= i < k + 1 && dirs@[i]@ == n) && !hidden_name(n) {
                    0
                } else {
                    -1
                } by {
                if n == dirs@[k as int]@ && !hidden_name(n) {
                    assert(0 <= k < k + 1 && dirs@[k as int]@ == n);
                } else {
                    if exists|i: int| 0 <= i < k + 1 && dirs@[i]@ == n {
                        let i = choose|i: int| 0 <= i < k + 1 && dirs@[i]@ == n;
                        if i < k {
                            assert(exists|i: int| 0 <= i < k && dirs@[i]@ == n);
                        }
                    }
                    if exists|i: int| 0 <= i < k && dirs@[i]@ == n {
                        let i = choose|i: int| 0 <= i < k && dirs@[i]@ == n;
                        assert(0 <= i < k + 1 && dirs@[i]@ == n);
                    }
                }
            }
        }
        k += 1;
    }
    let mut j: usize = 0;
    while j < prompts.len()
        invariant
            0 <= j <= prompts@.len(),
            k == dirs@.len(),
            names_sorted(cats@),
            forall|n: Seq<char>|
                #[trigger] count_of(cats@, n) == if listed_category(
                    dirs@,
                    prompts@.take(j as int),
                    n,
                ) {
                    count_in(prompts@.take(j as int), n) as int
                } else {
                    -1
                },
        decreases prompts@.len() - j,
    {
        let ghost pre = prompts@.take(j as int);
        let ghost post = prompts@.take(j + 1);
        proof {
            assert(post.drop_last() =~= pre);
            assert forall|i: int| 0 <= i < cats@.len() implies cats@[i].count + 1 <= usize::MAX by {
                lemma_count_of_at(cats@, i);
                lemma_count_in_bound(pre, cats@[i].name@);
            }
        }
        let ghost c0 = cats@;
        bump_category(&mut cats, &prompts[j].category, 1);
        proof {
            assert forall|n: Seq<char>|
                #[trigger] count_of(cats@, n) == if listed_category(dirs@, post, n) {
                    count_in(post, n) as int
                } else {
                    -1
                } by {
                assert(count_of(c0, n) == if listed_category(dirs@, pre, n) {
                    count_in(pre, n) as int
                } else {
                    -1
                });
                assert(post.last() == prompts@[j as int]);
                assert(count_in(post, n) == count_in(pre, n) + if post.last().category@ == n {
                    1nat
                } else {
                    0nat
                });
                if post.last().category@ == n {
                    assert(0 <= j < post.len() && post[j as int].category@ == n);
                    if !exists|q: int| 0 <= q < pre.len() && pre[q].category@ == n {
                        lemma_count_in_zero(pre, n);
                    }
                }
                if exists|q: int| 0 <= q < pre.len() && pre[q].category@ == n {
                    let q = choose|q: int| 0 <= q < pre.len() && pre[q].category@ == n;
                    assert(post[q] == pre[q]);
                }
                if exists|q: int| 0 <= q < post.len() && post[q].category@ == n {
                    let q = choose|q: int| 0 <= q < post.len() && post[q].category@ == n;
                    if q < j {
                        assert(pre[q] == post[q]);
                    }
                }
            }
        }
        j += 1;
    }
    assert(prompts@.take(j as int) =~= prompts@);
    cats
}

/// A file found under the data folder, as the file system describes it.
#[derive(Debug)]
pub struct ScannedFile {
    /// Path relative to the data folder, with `/` separators.
    pub rel: String,
    /// The relative path's parent folder, when it has one that is UTF-8.
    pub parent: Option<String>,
    /// The file name, when it is UTF-8.
    pub name: Option<String>,
    /// The file name's extension, when it has one that is UTF-8.
    pub extension: Option<String>,
    /// The file name without its extension, when it is UTF-8.
    pub stem: Option<String>,
    /// Absolute path, as text.
    pub abs: String,
    /// The file's contents, when they could be read as UTF-8 text.
    pub text: Option<String>,
}

/// The name of the category of prompts outside any category folder.
pub open spec fn uncategorized() -> Seq<char> {
    seq!['未', '分', '类']
}

/// The category name of prompts outside any category folder.
pub fn uncategorized_name() -> (r: String)
    ensures
        r@ == uncategorized(),
{
    let r = String::from_str("未分类");
    proof {
        reveal_strlit("未分类");
    }
    assert(r@ =~= uncategorized());
    r
}

pub open spec fn md_ext() -> Seq<char> {
    seq!['m', 'd']
}

/// `f` is a prompt file: a `.md` file whose name does not start with `.` or `~`.
pub open spec fn is_prompt_file(f: ScannedFile) -> bool {
    &&& f.extension.deep_view() == Some(md_ext())
    &&& !(f.name.deep_view() matches Some(n) && hidden_name(n))
}

/// Index of the first `c` in `s`.
pub open spec fn first_index(s: Seq<char>, c: char) -> Option<int> {
    if exists|i: int| 0 <= i < s.len() && s[i] == c {
        Some(choose|i: int| 0 <= i < s.len() && s[i] == c && forall|j: int| 0 <= j < i ==> s[j] != c)
    } else {
        None
    }
}

/// The category under which the order file lists a prompt: the first folder
/// of its relative path, or the uncategorized name at the top level.
pub open spec fn order_category(rel: Seq<char>) -> Seq<char> {
    match first_index(rel, '/') {
        Some(i) => rel.take(i),
        None => uncategorized(),
    }
}

/// The entry of `map` for key `k` (the first one).
pub open spec fn find_key(map: Seq<(Seq<char>, Seq<Seq<char>>)>, k: Seq<char>) -> Option<Seq<Seq<char>>>
    decreases map.len(),
{
    if map.len() == 0 {
        None
    } else if map[0].0 == k {
        Some(map[0].1)
    } else {
        find_key(map.drop_first(), k)
    }
}

/// Index of the first occurrence of `x` in `s`.
pub open spec fn position_of(s: Seq<Seq<char>>, x: Seq<char>) -> Option<int>
    decreases s.len(),
{
    if s.len() == 0 {
        None
    } else if s[0] == x {
        Some(0)
    } else {
        match position_of(s.drop_first(), x) {
            Some(i) => Some(i + 1),
            None => None,
        }
    }
}

/// The rank that the order file gives a prompt with relative path `rel`.
pub open spec fn order_of(map: Seq<(Seq<char>, Seq<Seq<char>>)>, rel: Seq<char>) -> Option<i32> {
    match find_key(map, order_category(rel)) {
        Some(paths) => match position_of(paths, rel) {
            Some(i) => Some(i as i32),
            None => None,
        },
        None => None,
    }
}

proof fn lemma_find_key_first(map: Seq<(Seq<char>, Seq<Seq<char>>)>, k: Seq<char>, at: int)
    requires
        0 <= at < map.len(),
        map[at].0 == k,
        forall|j: int| 0 <= j < at ==> map[j].0 != k,
    ensures
        find_key(map, k) == Some(map[at].1),
    decreases at,
{
    if at > 0 {
        lemma_find_key_first(map.drop_first(), k, at - 1);
    }
}

proof fn lemma_find_key_none(map: Seq<(Seq<char>, Seq<Seq<char>>)>, k: Seq<char>)
    requires
        forall|j: int| 0 <= j < map.len() ==> map[j].0 != k,
    ensures
        find_key(map, k) is None,
    decreases map.len(),
{
    if map.len() > 0 {
        lemma_find_key_none(map.drop_first(), k);
    }
}

proof fn lemma_position_first(s: Seq<Seq<char>>, x: Seq<char>, at: int)
    requires
        0 <= at < s.len(),
        s[at] == x,
        forall|j: int| 0 <= j < at ==> s[j] != x,
    ensures
        position_of(s, x) == Some(at),
    decreases at,
{
    if at > 0 {
        lemma_position_first(s.drop_first(), x, at - 1);
    }
}

proof fn lemma_position_none(s: Seq<Seq<char>>, x: Seq<char>)
    requires
        forall|j: int| 0 <= j < s.len() ==> s[j] != x,
    ensures
        position_of(s, x) is None,
    decreases s.len(),
{
    if s.len() > 0 {
        lemma_position_none(s.drop_first(), x);
    }
}

/// `cat` is the category under which a prompt at relative path `rel` is
/// ordered: the text before the first `/`, or `未分类` for a path without
/// one (a prompt at the top of the data folder).
pub open spec fn is_category_of(rel: Seq<char>, cat: Seq<char>) -> bool {
    ||| (forall|j: int| 0 <= j < rel.len() ==> rel[j] != '/') && cat == seq!['未', '分', '类']
    ||| exists|p: int|
        0 <= p < rel.len() && rel[p] == '/' && (forall|j: int| 0 <= j < p ==> rel[j] != '/') && cat
            == rel.take(p)
}

proof fn lemma_order_category(rel: Seq<char>, cat: Seq<char>)
    requires
        is_category_of(rel, cat),
    ensures
        order_category(rel) == cat,
{
    if exists|p: int| 0 <= p < rel.len() && rel[p] == '/' && (forall|j: int| 0 <= j < p ==> rel[j] != '/')
        && cat == rel.take(p) {
        let p = choose|p: int|
            0 <= p < rel.len() && rel[p] == '/' && (forall|j: int| 0 <= j < p ==> rel[j] != '/') && cat
                == rel.take(p);
        assert(exists|i: int| 0 <= i < rel.len() && rel[i] == '/');
        let q = choose|i: int| 0 <= i < rel.len() && rel[i] == '/' && forall|j: int| 0 <= j < i ==> rel[j] != '/';
        assert(first_index(rel, '/') == Some(q));
        if q < p {
            assert(rel[q] != '/');
        }
        if p < q {
            assert(rel[p] != '/');
        }
    } else {
        assert(!exists|i: int| 0 <= i < rel.len() && rel[i] == '/');
    }
}

/// The order file ranks a prompt within its category: a prompt at path
/// `rel` whose category `cat` (the folder before the first `/`, or `未分类`
/// at the top of the data folder) is listed in the order file, with `rel`
/// at position `i` of the first entry for `cat`, gets rank `i`; it gets no
/// rank when the order file has no entry for `cat`, or that entry does not
/// list `rel`.
pub proof fn law_order_rank(map: Seq<(Seq<char>, Seq<Seq<char>>)>, rel: Seq<char>, cat: Seq<char>, k: int, i: int)
    requires
        is_category_of(rel, cat),
    ensures
        0 <= k < map.len() && map[k].0 == cat && (forall|j: int| 0 <= j < k ==> map[j].0 != cat) && 0 <= i
            < map[k].1.len() && map[k].1[i] == rel && (forall|j: int| 0 <= j < i ==> map[k].1[j] != rel) && i
            <= i32::MAX ==> order_of(map, rel) == Some(i as i32),
        (forall|j: int| 0 <= j < map.len() ==> map[j].0 != cat) ==> order_of(map, rel) is None,
        0 <= k < map.len() && map[k].0 == cat && (forall|j: int| 0 <= j < k ==> map[j].0 != cat) && (forall|
            j: int,
        | 0 <= j < map[k].1.len() ==> map[k].1[j] != rel) ==> order_of(map, rel) is None,
{
    lemma_order_category(rel, cat);
    if 0 <= k < map.len() && map[k].0 == cat && (forall|j: int| 0 <= j < k ==> map[j].0 != cat) {
        lemma_find_key_first(map, cat, k);
        if 0 <= i < map[k].1.len() && map[k].1[i] == rel && (forall|j: int| 0 <= j < i ==> map[k].1[j] != rel) {
            lemma_position_first(map[k].1, rel, i);
        }
        if forall|j: int| 0 <= j < map[k].1.len() ==> map[k].1[j] != rel {
            lemma_position_none(map[k].1, rel);
        }
    }
    if forall|j: int| 0 <= j < map.len() ==> map[j].0 != cat {
        lemma_find_key_none(map, cat);
    }
}

fn text_eq(a: &String, b: &String) -> (r: bool)
    ensures
        r == (a@ == b@),
{
    *a == *b
}

/// The rank that the order file (category name to the relative paths of its
/// prompts, in order) gives the prompt at relative path `rel`.
pub fn order_position(order_map: &Vec<(String, Vec<String>)>, rel: &String) -> (r: Option<i32>)
    ensures
        r == order_of(order_map.deep_view(), rel@),
{
    let cs = to_chars(rel.as_str());
    let mut slash: usize = 0;
    while slash < cs.len() && cs[slash] != '/'
        invariant
            0 <= slash <= cs@.len(),
            forall|j: int| 0 <= j < slash ==> cs@[j] != '/',
        decreases cs@.len() - slash,
    {
        slash += 1;
    }
    let category = if slash < cs.len() {
        from_char_range(&cs, 0, slash)
    } else {
        uncategorized_name()
    };
    proof {
        if slash < cs@.len() {
            assert(first_index(rel@, '/') == Some(slash as int)) by {
                let w = choose|i: int|
                    0 <= i < rel@.len() && rel@[i] == '/' && forall|j: int| 0 <= j < i ==> rel@[j]
                        != '/';
                assert(0 <= slash < rel@.len() && rel@[slash as int] == '/' && forall|j: int|
                    0 <= j < slash ==> rel@[j] != '/');
                assert(w == slash);
            }
            assert(cs@.subrange(0, slash as int) =~= rel@.take(slash as int));
        } else {
            assert(!exists|i: int| 0 <= i < rel@.len() && rel@[i] == '/');
        }
    }
    let ghost m = order_map.deep_view();
    let mut i: usize = 0;
    assert(m.skip(0) =~= m);
    while i < order_map.len()
        invariant
            0 <= i <= order_map@.len(),
            m == order_map.deep_view(),
            category@ == order_category(rel@),
            find_key(m, category@) == find_key(m.skip(i as int), category@),
        decreases order_map@.len() - i,
    {
        assert(m.skip(i as int).drop_first() =~= m.skip(i + 1));
        if text_eq(&order_map[i].0, &category) {
            let paths = &order_map[i].1;
            let ghost ps = paths.deep_view();
            let mut j: usize = 0;
            assert(ps.skip(0) =~= ps);
            assert(m.skip(i as int)[0] == m[i as int]);
            assert(m[i as int].1 == ps);
            assert(find_key(m, category@) == Some(ps));
            while j < paths.len()
                invariant
                    0 <= j <= paths@.len(),
                    ps == paths.deep_view(),
                    find_key(m, category@) == Some(ps),
                    m == order_map.deep_view(),
                    category@ == order_category(rel@),
                    position_of(ps, rel@) == match position_of(ps.skip(j as int), rel@) {
                        Some(x) => Some(x + j),
                        None => None,
                    },
                decreases paths@.len() - j,
            {
                assert(ps.skip(j as int).drop_first() =~= ps.skip(j + 1));
                if text_eq(&paths[j], rel) {
                    assert(ps.skip(j as int)[0] == ps[j as int]);
                    assert(position_of(ps.skip(j as int), rel@) == Some(0int));
                    assert(position_of(ps, rel@) == Some(j as int));
                    return Some(#[verifier::truncate] (j as i32));
                }
                j += 1;
            }
            return None;
        }
        i += 1;
    }
    None
}

/// The relative path without its trailing `.md` suffixes.
pub open spec fn trim_md_suffix(s: Seq<char>) -> Seq<char>
    decreases s.len(),
{
    if s.len() >= 3 && s.subrange(s.len() - 3, s.len() as int) == seq!['.', 'm', 'd'] {
        trim_md_suffix(s.take(s.len() - 3))
    } else {
        s
    }
}

fn trim_md_suffix_len(cs: &[char]) -> (n: usize)
    ensures
        n <= cs@.len(),
        cs@.take(n as int) == trim_md_suffix(cs@),
{
    let mut n = cs.len();
    assert(cs@.take(n as int) =~= cs@);
    while n >= 3 && cs[n - 3] == '.' && cs[n - 2] == 'm' && cs[n - 1] == 'd'
        invariant
            n <= cs@.len(),
            trim_md_suffix(cs@) == trim_md_suffix(cs@.take(n as int)),
        decreases n,
    {
        let ghost t = cs@.take(n as int);
        assert(t.subrange(t.len() - 3, t.len() as int) =~= seq!['.', 'm', 'd']);
        assert(t.take(t.len() - 3) =~= cs@.take(n - 3));
        n -= 3;
    }
    proof {
        let t = cs@.take(n as int);
        if n >= 3 {
            assert(t.subrange(t.len() - 3, t.len() as int) != seq!['.', 'm', 'd']) by {
                if cs@[n - 3] != '.' {
                    assert(t.subrange(t.len() - 3, t.len() as int)[0] != '.');
                } else if cs@[n - 2] != 'm' {
                    assert(t.subrange(t.len() - 3, t.len() as int)[1] != 'm');
                } else {
                    assert(t.subrange(t.len() - 3, t.len() as int)[2] != 'd');
                }
            }
        }
    }
    n
}

/// `m` is what the text of a prompt file gives as its metadata.
pub open spec fn text_meta(text: Seq<char>, m: MetaView) -> bool {
    match split_front(text) {
        Some((fm, body)) => parsed_meta(m, front_meta(fm)),
        None => is_fresh_meta(m, Seq::empty()),
    }
}

pub open spec fn untitled() -> Seq<char> {
    seq!['u', 'n', 't', 'i', 't', 'l', 'e', 'd']
}

/// `p` is the list entry of prompt file `f` at rank `order`.
pub open spec fn builds(f: ScannedFile, order: Option<i32>, p: Prompt) -> bool {
    &&& f.text is Some
    &&& p.path@ == f.rel@
    &&& p.abs_path@ == f.abs@
    &&& p.id@ == trim_md_suffix(f.rel@)
    &&& p.category@ == match f.parent.deep_view() {
        Some(d) => if d.len() > 0 {
            d
        } else {
            uncategorized()
        },
        None => uncategorized(),
    }
    &&& p.order == order
    &&& p.title@ == p.meta.title@
    &&& exists|m: MetaView|
        text_meta(f.text->0@, m) && p.meta@ == (MetaView {
            title: if m.title.len() == 0 {
                f.stem.deep_view().unwrap_or(untitled())
            } else {
                m.title
            },
            ..m
        })
}

/// The list entry for the prompt file `f` at rank `order`; `None` when the
/// file's contents could not be read.
pub fn build_prompt(f: &ScannedFile, order: Option<i32>) -> (r: Option<Prompt>)
    ensures
        f.text is None ==> r is None,
        f.text is Some ==> (r matches Some(p) && builds(*f, order, p)),
{
    let text = match &f.text {
        Some(t) => t,
        None => return None,
    };
    let (mut meta, _body) = parse_markdown(text.as_str());
    let ghost m = meta@;
    if meta.title.as_str().is_empty() {
        meta.title = match &f.stem {
            Some(s) => s.clone(),
            None => {
                let u = String::from_str("untitled");
                proof {
                    reveal_strlit("untitled");
                }
                assert(u@ =~= untitled());
                u
            },
        };
    }
    let category = match &f.parent {
        Some(d) => if d.as_str().is_empty() {
            uncategorized_name()
        } else {
            d.clone()
        },
        None => uncategorized_name(),
    };
    let rel_cs = to_chars(f.rel.as_str());
    let id_len = trim_md_suffix_len(&rel_cs);
    let id = from_char_range(&rel_cs, 0, id_len);
    assert(rel_cs@.subrange(0, id_len as int) =~= rel_cs@.take(id_len as int));
    let title = meta.title.clone();
    let p = Prompt {
        id,
        title,
        category,
        path: f.rel.clone(),
        abs_path: f.abs.clone(),
        meta,
        order,
    };
    assert(text_meta(text@, m));
    Some(p)
}

/// Whether `f` is a prompt file.
pub fn prompt_file(f: &ScannedFile) -> (b: bool)
    ensures
        b == is_prompt_file(*f),
{
    let md = String::from_str("md");
    proof {
        reveal_strlit("md");
    }
    assert(md@ =~= md_ext());
    let ext_ok = match &f.extension {
        Some(e) => text_eq(e, &md),
        None => false,
    };
    let hidden = match &f.name {
        Some(n) => is_hidden_name(n.as_str()),
        None => false,
    };
    ext_ok && !hidden
}

/// `built` holds, in order, the list entries of the readable prompt files of `files`.
pub open spec fn built_from(
    files: Seq<ScannedFile>,
    map: Seq<(Seq<char>, Seq<Seq<char>>)>,
    built: Seq<Prompt>,
) -> bool
    decreases files.len(),
{
    if files.len() == 0 {
        built.len() == 0
    } else {
        let f = files.last();
        if is_prompt_file(f) && f.text is Some {
            &&& built.len() > 0
            &&& builds(f, order_of(map, f.rel@), built.last())
            &&& built_from(files.drop_last(), map, built.drop_last())
        } else {
            built_from(files.drop_last(), map, built)
        }
    }
}

/// Builds the prompt list from the files found under the data folder
/// (`files`, in the order of the walk), the names of its top-level folders
/// (`dirs`) and the order file's contents (`order_map`): every readable
/// prompt file becomes an entry; entries are sorted by category, then by
/// their rank in the order file (unlisted last), then most recently updated
/// first, ties kept in walk order; every visible category folder is counted,
/// empty ones included.
pub fn scan_prompts(
    dirs: &Vec<String>,
    files: Vec<ScannedFile>,
    order_map: &Vec<(String, Vec<String>)>,
) -> (r: ScanResult)
    ensures
        exists|built: Seq<Prompt>, perm: Seq<int>|
            built_from(files@, order_map.deep_view(), built) && is_stable_sort(
                built,
                r.prompts@,
                perm,
            ),
        names_sorted(r.categories@),
        forall|n: Seq<char>|
            #[trigger] count_of(r.categories@, n) == if listed_category(dirs@, r.prompts@, n) {
                count_in(r.prompts@, n) as int
            } else {
                -1
            },
{
    let ghost src = files@;
    let ghost map = order_map.deep_view();
    let n = files.len();
    let mut built: Vec<Prompt> = Vec::new();
    let mut k: usize = 0;
    for f in it: files
        invariant
            src == it.seq(),
            n == src.len(),
            k == it.index(),
            k <= src.len(),
            map == order_map.deep_view(),
            built_from(src.take(k as int), map, built@),
    {
        assert(src.take(k + 1).drop_last() =~= src.take(k as int));
        assert(src.take(k + 1).last() == f);
        if prompt_file(&f) {
            let order = order_position(order_map, &f.rel);
            match build_prompt(&f, order) {
                Some(p) => {
                    let ghost before = built@;
                    built.push(p);
                    assert(built@.drop_last() =~= before);
                },
                None => {},
            }
        }
        k += 1;
    }
    assert(src.take(k as int) =~= src);
    let ghost b = built@;
    let prompts = sort_prompts(built);
    let categories = count_categories(dirs, &prompts);
    proof {
        let perm = choose|perm: Seq<int>| is_stable_sort(b, prompts@, perm);
        assert(built_from(files@, order_map.deep_view(), b) && is_stable_sort(b, prompts@, perm));
        assert(exists|built: Seq<Prompt>, perm: Seq<int>|
            built_from(files@, order_map.deep_view(), built) && is_stable_sort(built, prompts@, perm));
    }
    let r = ScanResult { prompts, categories };
    assert(r.prompts@ == prompts@);
    r
}

} // verus!
