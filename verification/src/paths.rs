//! Unix path arithmetic on strings, with the meaning `std::path::Path` gives
//! it on Linux: components are separated by `/`, empty and `.` components in
//! the body are skipped, a leading `/` is the root and a leading `./` the
//! current directory.
use vstd::prelude::*;
use crate::text::{push_all, push_range};

verus! {

pub open spec fn has_root(p: Seq<char>) -> bool {
    p.len() > 0 && p[0] == '/'
}

/// A relative path that starts with the current directory: `.` or `./..`.
pub open spec fn has_cur_dir(p: Seq<char>) -> bool {
    !has_root(p) && p.len() > 0 && p[0] == '.' && (p.len() == 1 || p[1] == '/')
}

/// Length of what precedes the body: the root or the leading current directory.
pub open spec fn lead_len(p: Seq<char>) -> int {
    (if has_root(p) {
        1int
    } else {
        0int
    }) + (if has_cur_dir(p) {
        1int
    } else {
        0int
    })
}

/// Index of the last `/` in `p[lo..n]`, or `-1`.
pub open spec fn last_sep(p: Seq<char>, lo: int, n: int) -> int
    decreases n - lo,
{
    if n <= lo {
        -1
    } else if p[n - 1] == '/' {
        n - 1
    } else {
        last_sep(p, lo, n - 1)
    }
}

/// Start of the body component that ends at `n`.
pub open spec fn comp_start(p: Seq<char>, n: int) -> int {
    let i = last_sep(p, lead_len(p), n);
    if i < 0 {
        lead_len(p)
    } else {
        i + 1
    }
}

/// Where the path ends once the component ending at `n` (and its separator)
/// is taken off.
pub open spec fn comp_cut(p: Seq<char>, n: int) -> int {
    let i = last_sep(p, lead_len(p), n);
    if i < 0 {
        lead_len(p)
    } else {
        i
    }
}

/// An empty or `.` component, which the body skips.
pub open spec fn is_skipped(c: Seq<char>) -> bool {
    c.len() == 0 || c == seq!['.']
}

/// The last real body component of `p[..n]`: its start, its end and where
/// the path ends without it.
pub open spec fn last_comp(p: Seq<char>, n: int) -> Option<(int, int, int)>
    decreases n,
{
    if n <= lead_len(p) || n > p.len() {
        None
    } else {
        let s = comp_start(p, n);
        let cut = comp_cut(p, n);
        if is_skipped(p.subrange(s, n)) {
            if cut < n {
                last_comp(p, cut)
            } else {
                None
            }
        } else {
            Some((s, n, cut))
        }
    }
}

/// `p[..n]` without trailing separators and skipped components.
pub open spec fn trim_right_len(p: Seq<char>, n: int) -> int {
    match last_comp(p, n) {
        Some(c) => c.1,
        None => if n < lead_len(p) {
            n
        } else {
            lead_len(p)
        },
    }
}

/// `Path::parent`.
pub open spec fn parent(p: Seq<char>) -> Option<Seq<char>> {
    match last_comp(p, p.len() as int) {
        Some(c) => Some(p.take(trim_right_len(p, c.2))),
        None => if has_root(p) {
            None
        } else if has_cur_dir(p) {
            Some(p.take(lead_len(p) - 1))
        } else {
            None
        },
    }
}

/// `Path::file_name`: the last component unless it is `..`.
pub open spec fn file_name(p: Seq<char>) -> Option<Seq<char>> {
    match last_comp(p, p.len() as int) {
        Some(c) => if p.subrange(c.0, c.1) == seq!['.', '.'] {
            None
        } else {
            Some(p.subrange(c.0, c.1))
        },
        None => None,
    }
}

/// The directory that relative links of a document resolve against: the
/// document's parent, or the path itself when it has none.
pub open spec fn link_base(p: Seq<char>) -> Seq<char> {
    match parent(p) {
        Some(d) => d,
        None => p,
    }
}

/// `base.join(rel)` for a relative `rel`: a separator goes between them
/// unless `base` is empty or already ends with one.
pub open spec fn join_rel(base: Seq<char>, rel: Seq<char>) -> Seq<char> {
    if base.len() > 0 && base.last() != '/' {
        base + seq!['/'] + rel
    } else {
        base + rel
    }
}

/// `Path::extension` of a file name: what follows its last dot, unless the
/// name is `..` or its only dot leads it.
pub open spec fn name_extension(name: Seq<char>) -> Option<Seq<char>> {
    if name == seq!['.', '.'] {
        None
    } else {
        let d = last_dot(name, name.len() as int);
        if d < 0 {
            None
        } else if d == 0 {
            None
        } else {
            Some(name.skip(d + 1))
        }
    }
}

/// Index of the last `.` in `name[..n]`, or `-1`.
pub open spec fn last_dot(name: Seq<char>, n: int) -> int
    decreases n,
{
    if n <= 0 {
        -1
    } else if name[n - 1] == '.' {
        n - 1
    } else {
        last_dot(name, n - 1)
    }
}

pub proof fn lemma_last_sep_bounds(p: Seq<char>, lo: int, n: int)
    ensures
        last_sep(p, lo, n) == -1 || (lo <= last_sep(p, lo, n) < n && p[last_sep(p, lo, n)]
            == '/'),
        forall|k: int| last_sep(p, lo, n) < k < n && lo <= k ==> p[k] != '/',
    decreases n - lo,
{
    if n > lo && p[n - 1] != '/' {
        lemma_last_sep_bounds(p, lo, n - 1);
    }
}

pub proof fn lemma_last_dot_bounds(name: Seq<char>, n: int)
    ensures
        last_dot(name, n) == -1 || (0 <= last_dot(name, n) < n && name[last_dot(name, n)] == '.'),
    decreases n,
{
    if n > 0 && name[n - 1] != '.' {
        lemma_last_dot_bounds(name, n - 1);
    }
}

pub proof fn lemma_last_comp_bounds(p: Seq<char>, n: int)
    ensures
        last_comp(p, n) matches Some(c) ==> lead_len(p) <= c.2 <= c.0 <= c.1 <= n <= p.len()
            && c.2 < c.1,
    decreases n,
{
    if n > lead_len(p) && n <= p.len() {
        lemma_last_sep_bounds(p, lead_len(p), n);
        let s = comp_start(p, n);
        let cut = comp_cut(p, n);
        if is_skipped(p.subrange(s, n)) && cut < n {
            lemma_last_comp_bounds(p, cut);
        }
    }
}

// ---------------------------------------------------------------------------
// Executable
// ---------------------------------------------------------------------------
fn lead_len_exec(p: &Vec<char>) -> (r: usize)
    ensures
        r == lead_len(p@),
        r <= p.len(),
{
    let root = p.len() > 0 && p[0] == '/';
    let cur = !root && p.len() > 0 && p[0] == '.' && (p.len() == 1 || p[1] == '/');
    (if root {
        1
    } else {
        0
    }) + (if cur {
        1
    } else {
        0
    })
}

fn last_sep_exec(p: &Vec<char>, lo: usize, n: usize) -> (r: Option<usize>)
    requires
        lo <= n <= p.len(),
    ensures
        match r {
            Some(i) => last_sep(p@, lo as int, n as int) == i as int,
            None => last_sep(p@, lo as int, n as int) == -1,
        },
{
    let mut k = n;
    while k > lo
        invariant
            lo <= k <= n <= p.len(),
            last_sep(p@, lo as int, n as int) == last_sep(p@, lo as int, k as int),
        decreases k - lo,
    {
        if p[k - 1] == '/' {
            return Some(k - 1);
        }
        k = k - 1;
    }
    None
}

fn last_comp_exec(p: &Vec<char>, n: usize) -> (r: Option<(usize, usize, usize)>)
    requires
        n <= p.len(),
    ensures
        match r {
            Some(c) => last_comp(p@, n as int) == Some((c.0 as int, c.1 as int, c.2 as int)),
            None => last_comp(p@, n as int) is None,
        },
{
    let lead = lead_len_exec(p);
    let mut m = n;
    while m > lead
        invariant
            lead == lead_len(p@),
            m <= n <= p.len(),
            last_comp(p@, m as int) == last_comp(p@, n as int),
        decreases m,
    {
        proof {
            lemma_last_sep_bounds(p@, lead as int, m as int);
        }
        let (s, cut) = match last_sep_exec(p, lead, m) {
            Some(i) => (i + 1, i),
            None => (lead, lead),
        };
        let skipped = s == m || (m - s == 1 && p[s] == '.');
        assert(skipped == is_skipped(p@.subrange(s as int, m as int))) by {
            if m - s == 1 && p@[s as int] == '.' {
                assert(p@.subrange(s as int, m as int) =~= seq!['.']);
            }
            if p@.subrange(s as int, m as int) == seq!['.'] {
                assert(p@.subrange(s as int, m as int)[0] == p@[s as int]);
            }
        }
        if !skipped {
            return Some((s, m, cut));
        }
        if cut >= m {
            return None;
        }
        m = cut;
    }
    None
}

fn trim_right_len_exec(p: &Vec<char>, n: usize) -> (r: usize)
    requires
        n <= p.len(),
    ensures
        r == trim_right_len(p@, n as int),
        r <= n,
{
    proof {
        lemma_last_comp_bounds(p@, n as int);
    }
    match last_comp_exec(p, n) {
        Some(c) => c.1,
        None => {
            let lead = lead_len_exec(p);
            if n < lead {
                n
            } else {
                lead
            }
        },
    }
}

/// `Path::parent` of `p`.
pub fn parent_exec(p: &Vec<char>) -> (r: Option<Vec<char>>)
    ensures
        match r {
            Some(d) => parent(p@) == Some(d@),
            None => parent(p@) is None,
        },
{
    proof {
        lemma_last_comp_bounds(p@, p@.len() as int);
    }
    match last_comp_exec(p, p.len()) {
        Some(c) => {
            let t = trim_right_len_exec(p, c.2);
            let mut d: Vec<char> = Vec::new();
            push_range(&mut d, p, 0, t);
            assert(d@ =~= p@.take(t as int));
            Some(d)
        },
        None => {
            let root = p.len() > 0 && p[0] == '/';
            let cur = !root && p.len() > 0 && p[0] == '.' && (p.len() == 1 || p[1] == '/');
            if root {
                None
            } else if cur {
                let mut d: Vec<char> = Vec::new();
                let lead = lead_len_exec(p);
                push_range(&mut d, p, 0, lead - 1);
                assert(d@ =~= p@.take(lead - 1));
                Some(d)
            } else {
                None
            }
        },
    }
}

/// `Path::file_name` of `p`.
pub fn file_name_exec(p: &Vec<char>) -> (r: Option<Vec<char>>)
    ensures
        match r {
            Some(d) => file_name(p@) == Some(d@),
            None => file_name(p@) is None,
        },
{
    proof {
        lemma_last_comp_bounds(p@, p@.len() as int);
    }
    match last_comp_exec(p, p.len()) {
        Some(c) => {
            let mut d: Vec<char> = Vec::new();
            push_range(&mut d, p, c.0, c.1);
            if d.len() == 2 && d[0] == '.' && d[1] == '.' {
                assert(d@ =~= seq!['.', '.']);
                None
            } else {
                assert(d@ != seq!['.', '.']) by {
                    if d@ == seq!['.', '.'] {
                        assert(d@[0] == '.' && d@[1] == '.');
                    }
                }
                Some(d)
            }
        },
        None => None,
    }
}

/// The directory relative links of the document at `p` resolve against.
pub fn link_base_exec(p: &Vec<char>) -> (r: Vec<char>)
    ensures
        r@ == link_base(p@),
{
    match parent_exec(p) {
        Some(d) => d,
        None => {
            let mut r: Vec<char> = Vec::new();
            push_all(&mut r, p);
            r
        },
    }
}

/// `base.join(rel)` for a relative `rel`.
pub fn join_rel_exec(base: &Vec<char>, rel: &Vec<char>) -> (r: Vec<char>)
    ensures
        r@ == join_rel(base@, rel@),
{
    let mut r: Vec<char> = Vec::new();
    push_all(&mut r, base);
    if base.len() > 0 && base[base.len() - 1] != '/' {
        r.push('/');
    }
    push_all(&mut r, rel);
    r
}

/// `Path::extension` of a file name.
pub fn name_extension_exec(name: &Vec<char>) -> (r: Option<Vec<char>>)
    ensures
        match r {
            Some(e) => name_extension(name@) == Some(e@),
            None => name_extension(name@) is None,
        },
{
    if name.len() == 2 && name[0] == '.' && name[1] == '.' {
        assert(name@ =~= seq!['.', '.']);
        return None;
    }
    assert(name@ != seq!['.', '.']) by {
        if name@ == seq!['.', '.'] {
            assert(name@[0] == '.' && name@[1] == '.');
        }
    }
    let mut k = name.len();
    while k > 0
        invariant
            k <= name.len(),
            name@ != seq!['.', '.'],
            last_dot(name@, name@.len() as int) == last_dot(name@, k as int),
        decreases k,
    {
        if name[k - 1] == '.' {
            if k - 1 == 0 {
                return None;
            }
            let mut e: Vec<char> = Vec::new();
            push_range(&mut e, name, k, name.len());
            assert(e@ =~= name@.skip(k as int));
            return Some(e);
        }
        k = k - 1;
    }
    None
}

} // verus!
