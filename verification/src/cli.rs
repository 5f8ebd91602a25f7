//! Command-line decisions: which documents open, how many windows there are,
//! and what the environment needs before WebKit starts on a Wayland session.
use vstd::prelude::*;
use vstd::relations::sorted_by;
use crate::paths::{file_name, file_name_exec, name_extension, name_extension_exec};
use crate::text::{
    chars_of, decimal, decimal_chars, eq_chars, lower_ascii, push_all, string_of, string_views,
    to_ascii_lower,
};

verus! {

/// At most this many windows open at once.
pub const MAX_WINDOWS: usize = 8;

/// Exit status for a combination of options that cannot be honoured.
pub const EXIT_USAGE: i32 = 2;

/// Exit status when no input could be read.
pub const EXIT_NO_INPUTS: i32 = 3;

// ---------------------------------------------------------------------------
// WebKit environment on Wayland
// ---------------------------------------------------------------------------
/// What to change in the environment before WebKitGTK starts.
#[derive(Debug, Clone, Copy, PartialEq, Eq, Structural)]
pub struct LinuxWebkitEnvPlan {
    pub set_gdk_backend_x11: bool,
    pub set_disable_compositing: bool,
    pub warn_missing_display: bool,
}

/// Off Wayland nothing changes. On Wayland without an X display nothing is
/// set and a warning is due; with one, each variable not already set is set.
pub open spec fn env_plan_spec(
    on_wayland: bool,
    has_display: bool,
    has_gdk_backend: bool,
    has_disable_compositing: bool,
) -> Option<LinuxWebkitEnvPlan> {
    if !on_wayland {
        None
    } else if !has_display {
        Some(
            LinuxWebkitEnvPlan {
                set_gdk_backend_x11: false,
                set_disable_compositing: false,
                warn_missing_display: true,
            },
        )
    } else {
        Some(
            LinuxWebkitEnvPlan {
                set_gdk_backend_x11: !has_gdk_backend,
                set_disable_compositing: !has_disable_compositing,
                warn_missing_display: false,
            },
        )
    }
}

/// The environment plan for a session, from which of the four variables
/// (`WAYLAND_DISPLAY`, `DISPLAY`, `GDK_BACKEND`,
/// `WEBKIT_DISABLE_COMPOSITING_MODE`) are present.
pub fn linux_webkit_env_plan(
    on_wayland: bool,
    has_display: bool,
    has_gdk_backend: bool,
    has_disable_compositing: bool,
) -> (plan: Option<LinuxWebkitEnvPlan>)
    ensures
        plan == env_plan_spec(on_wayland, has_display, has_gdk_backend, has_disable_compositing),
{
    if !on_wayland {
        return None;
    }
    if !has_display {
        return Some(
            LinuxWebkitEnvPlan {
                set_gdk_backend_x11: false,
                set_disable_compositing: false,
                warn_missing_display: true,
            },
        );
    }
    Some(
        LinuxWebkitEnvPlan {
            set_gdk_backend_x11: !has_gdk_backend,
            set_disable_compositing: !has_disable_compositing,
            warn_missing_display: false,
        },
    )
}

/// No X display is ever guessed, and a variable the user already set is
/// never overridden.
pub proof fn law_env_plan_respects_user(
    on_wayland: bool,
    has_display: bool,
    has_gdk_backend: bool,
    has_disable_compositing: bool,
)
    ensures
        match env_plan_spec(on_wayland, has_display, has_gdk_backend, has_disable_compositing) {
            Some(p) => {
                &&& p.warn_missing_display ==> !p.set_gdk_backend_x11 && !p.set_disable_compositing
                &&& has_gdk_backend ==> !p.set_gdk_backend_x11
                &&& has_disable_compositing ==> !p.set_disable_compositing
                &&& p.warn_missing_display <==> !has_display
            },
            None => !on_wayland,
        },
{
}

// ---------------------------------------------------------------------------
// The window cap
// ---------------------------------------------------------------------------
/// The warning printed when more documents are given than windows allowed.
pub open spec fn too_many_notice(given: nat) -> Seq<char> {
    "warn: too many documents ("@ + decimal(given) + " given, "@ + decimal(MAX_WINDOWS as nat)
        + " rendered)"@
}

/// The first `MAX_WINDOWS` items.
pub open spec fn capped<T>(s: Seq<T>) -> Seq<T> {
    if s.len() > MAX_WINDOWS {
        s.take(MAX_WINDOWS as int)
    } else {
        s
    }
}

/// No more than `MAX_WINDOWS` windows open, the ones given first.
pub proof fn law_cap_keeps_first_eight<T>(s: Seq<T>)
    ensures
        capped(s).len() <= MAX_WINDOWS,
        capped(s).len() == if s.len() > MAX_WINDOWS { MAX_WINDOWS as nat } else { s.len() },
        capped(s) == s.take(capped(s).len() as int),
{
    if s.len() <= MAX_WINDOWS {
        assert(s.take(s.len() as int) =~= s);
    }
}

/// Keep at most `MAX_WINDOWS` items; when some are dropped, say so.
pub fn cap_and_warn<T>(v: Vec<T>) -> (r: (Vec<T>, Option<String>))
    ensures
        r.0@ == capped(v@),
        match r.1 {
            Some(w) => v@.len() > MAX_WINDOWS && w@ == too_many_notice(v@.len()),
            None => v@.len() <= MAX_WINDOWS,
        },
{
    let mut v = v;
    let n = v.len();
    if n > MAX_WINDOWS {
        let mut w = chars_of("warn: too many documents (");
        push_all(&mut w, &decimal_chars(n));
        push_all(&mut w, &chars_of(" given, "));
        push_all(&mut w, &decimal_chars(MAX_WINDOWS));
        push_all(&mut w, &chars_of(" rendered)"));
        v.truncate(MAX_WINDOWS);
        (v, Some(string_of(&w)))
    } else {
        (v, None)
    }
}

// ---------------------------------------------------------------------------
// Ordering of names
// ---------------------------------------------------------------------------
/// `a` comes no later than `b` in the byte order of their UTF-8 encodings,
/// which is the order of their characters' code points.
pub open spec fn lex_le(a: Seq<char>, b: Seq<char>) -> bool
    decreases a.len(),
{
    if a.len() == 0 {
        true
    } else if b.len() == 0 {
        false
    } else if a[0] != b[0] {
        (a[0] as u32) < (b[0] as u32)
    } else {
        lex_le(a.drop_first(), b.drop_first())
    }
}

/// `s` with `x` placed after every leading item that does not come after it.
pub open spec fn insert_sorted(s: Seq<Seq<char>>, x: Seq<char>) -> Seq<Seq<char>>
    decreases s.len(),
{
    if s.len() == 0 {
        seq![x]
    } else if lex_le(s[0], x) {
        seq![s[0]] + insert_sorted(s.drop_first(), x)
    } else {
        seq![x] + s
    }
}

/// Every name comes no later than those after it.
pub open spec fn names_sorted(s: Seq<Seq<char>>) -> bool {
    forall|i: int, j: int| 0 <= i < j < s.len() ==> lex_le(#[trigger] s[i], #[trigger] s[j])
}

/// The names of `s` in order.
pub open spec fn sort_names(s: Seq<Seq<char>>) -> Seq<Seq<char>>
    decreases s.len(),
{
    if s.len() == 0 {
        seq![]
    } else {
        insert_sorted(sort_names(s.drop_last()), s.last())
    }
}

pub proof fn lemma_lex_total(a: Seq<char>, b: Seq<char>)
    ensures
        lex_le(a, b) || lex_le(b, a),
    decreases a.len(),
{
    if a.len() > 0 && b.len() > 0 {
        if a[0] == b[0] {
            lemma_lex_total(a.drop_first(), b.drop_first());
        } else {
            vstd::utf8::char_u32_cast(a[0], a[0] as u32);
            vstd::utf8::char_u32_cast(b[0], b[0] as u32);
        }
    }
}

pub proof fn lemma_lex_antisymmetric(a: Seq<char>, b: Seq<char>)
    requires
        lex_le(a, b),
        lex_le(b, a),
    ensures
        a == b,
    decreases a.len(),
{
    if a.len() > 0 && b.len() > 0 {
        lemma_lex_antisymmetric(a.drop_first(), b.drop_first());
        assert(a =~= seq![a[0]] + a.drop_first());
        assert(b =~= seq![b[0]] + b.drop_first());
    }
}

pub proof fn lemma_lex_transitive(a: Seq<char>, b: Seq<char>, c: Seq<char>)
    requires
        lex_le(a, b),
        lex_le(b, c),
    ensures
        lex_le(a, c),
    decreases a.len(),
{
    if a.len() > 0 && b.len() > 0 && c.len() > 0 && a[0] == b[0] && b[0] == c[0] {
        lemma_lex_transitive(a.drop_first(), b.drop_first(), c.drop_first());
    }
}

pub proof fn lemma_lex_reflexive(a: Seq<char>)
    ensures
        lex_le(a, a),
    decreases a.len(),
{
    if a.len() > 0 {
        lemma_lex_reflexive(a.drop_first());
    }
}

/// Inserting after the leading run of items that do not come after `x`.
proof fn lemma_insert_at(s: Seq<Seq<char>>, x: Seq<char>, j: int)
    requires
        0 <= j <= s.len(),
        forall|k: int| 0 <= k < j ==> lex_le(#[trigger] s[k], x),
        j < s.len() ==> !lex_le(s[j], x),
    ensures
        insert_sorted(s, x) == s.insert(j, x),
    decreases s.len(),
{
    if s.len() == 0 {
        assert(s.insert(j, x) =~= seq![x]);
    } else if j == 0 {
        assert(s.insert(0, x) =~= seq![x] + s);
    } else {
        let t = s.drop_first();
        assert forall|k: int| 0 <= k < j - 1 implies lex_le(#[trigger] t[k], x) by {
            assert(t[k] == s[k + 1]);
        }
        lemma_insert_at(t, x, j - 1);
        assert(s.insert(j, x) =~= seq![s[0]] + t.insert(j - 1, x));
    }
}

proof fn lemma_insert_sorted_props(s: Seq<Seq<char>>, x: Seq<char>)
    requires
        names_sorted(s),
    ensures
        names_sorted(insert_sorted(s, x)),
        insert_sorted(s, x).to_multiset() == s.to_multiset().insert(x),
    decreases s.len(),
{
    broadcast use vstd::seq_lib::group_to_multiset_ensures;

    let r = insert_sorted(s, x);
    if s.len() == 0 {
        assert(seq![x] =~= Seq::<Seq<char>>::empty().push(x));
    } else if lex_le(s[0], x) {
        let t = s.drop_first();
        let rt = insert_sorted(t, x);
        assert(names_sorted(t)) by {
            assert forall|i: int, j: int| 0 <= i < j < t.len() implies lex_le(
                #[trigger] t[i],
                #[trigger] t[j],
            ) by {
                assert(t[i] == s[i + 1] && t[j] == s[j + 1]);
            }
        }
        lemma_insert_sorted_props(t, x);
        assert(r == seq![s[0]] + rt);
        assert(rt.to_multiset().contains(x) || true);
        assert forall|i: int, j: int| 0 <= i < j < r.len() implies lex_le(
            #[trigger] r[i],
            #[trigger] r[j],
        ) by {
            if i == 0 {
                assert(r[j] == rt[j - 1]);
                assert(rt.to_multiset().count(rt[j - 1]) > 0);
                assert(rt.to_multiset() == t.to_multiset().insert(x));
                if rt[j - 1] == x {
                } else {
                    assert(t.to_multiset().count(rt[j - 1]) > 0);
                    let k = choose|k: int| 0 <= k < t.len() && t[k] == rt[j - 1];
                    assert(s[k + 1] == t[k]);
                }
            } else {
                assert(r[i] == rt[i - 1] && r[j] == rt[j - 1]);
            }
        }
        assert(s =~= seq![s[0]] + t);
        vstd::seq_lib::lemma_multiset_commutative(seq![s[0]], t);
        vstd::seq_lib::lemma_multiset_commutative(seq![s[0]], rt);
        assert(seq![s[0]].to_multiset() =~= Seq::<Seq<char>>::empty().push(s[0]).to_multiset());
    } else {
        assert forall|i: int, j: int| 0 <= i < j < r.len() implies lex_le(
            #[trigger] r[i],
            #[trigger] r[j],
        ) by {
            if i == 0 {
                assert(r[j] == s[j - 1]);
                lemma_lex_total(s[0], x);
                if j - 1 > 0 {
                    lemma_lex_transitive(x, s[0], s[j - 1]);
                }
            } else {
                assert(r[i] == s[i - 1] && r[j] == s[j - 1]);
            }
        }
        assert(r =~= s.insert(0, x));
    }
}

/// The names come out in order.
pub proof fn law_sort_names_sorted(s: Seq<Seq<char>>)
    ensures
        names_sorted(sort_names(s)),
        sort_names(s).to_multiset() == s.to_multiset(),
    decreases s.len(),
{
    broadcast use vstd::seq_lib::group_to_multiset_ensures;

    if s.len() > 0 {
        law_sort_names_sorted(s.drop_last());
        lemma_insert_sorted_props(sort_names(s.drop_last()), s.last());
        assert(s =~= s.drop_last().push(s.last()));
    }
}

/// Any two lists of the same names come out the same.
pub proof fn law_sort_names_canonical(s: Seq<Seq<char>>, t: Seq<Seq<char>>)
    requires
        s.to_multiset() == t.to_multiset(),
    ensures
        sort_names(s) == sort_names(t),
{
    law_sort_names_sorted(s);
    law_sort_names_sorted(t);
    let leq = |a: Seq<char>, b: Seq<char>| lex_le(a, b);
    assert(vstd::relations::total_ordering(leq)) by {
        assert forall|a: Seq<char>| #[trigger] leq(a, a) by {
            lemma_lex_reflexive(a);
        }
        assert forall|a: Seq<char>, b: Seq<char>| #[trigger] leq(a, b) && #[trigger] leq(b, a) implies a
            == b by {
            lemma_lex_antisymmetric(a, b);
        }
        assert forall|a: Seq<char>, b: Seq<char>, c: Seq<char>| #[trigger] leq(a, b) && #[trigger] leq(
            b,
            c,
        ) implies leq(a, c) by {
            lemma_lex_transitive(a, b, c);
        }
        assert forall|a: Seq<char>, b: Seq<char>| #[trigger] leq(a, b) || #[trigger] leq(b, a) by {
            lemma_lex_total(a, b);
        }
    }
    assert forall|x: Seq<Seq<char>>| names_sorted(x) implies sorted_by(x, leq) by {
        assert forall|i: int, j: int| 0 <= i < j < x.len() implies #[trigger] leq(x[i], x[j]) by {
            assert(lex_le(x[i], x[j]));
        }
    }
    vstd::seq_lib::lemma_sorted_unique(sort_names(s), sort_names(t), leq);
}

/// Is `a` no later than `b`?
pub fn lex_le_exec(a: &Vec<char>, b: &Vec<char>) -> (r: bool)
    ensures
        r == lex_le(a@, b@),
{
    let mut i: usize = 0;
    assert(a@.skip(0) =~= a@);
    assert(b@.skip(0) =~= b@);
    while i < a.len() && i < b.len()
        invariant
            i <= a.len(),
            i <= b.len(),
            lex_le(a@, b@) == lex_le(a@.skip(i as int), b@.skip(i as int)),
        decreases a.len() - i,
    {
        assert(a@.skip(i as int)[0] == a@[i as int]);
        assert(b@.skip(i as int)[0] == b@[i as int]);
        let (ca, cb) = (a[i], b[i]);
        if ca != cb {
            return (ca as u32) < (cb as u32);
        }
        assert(a@.skip(i as int).drop_first() =~= a@.skip(i + 1));
        assert(b@.skip(i as int).drop_first() =~= b@.skip(i + 1));
        i = i + 1;
    }
    if i == a.len() {
        assert(a@.skip(i as int).len() == 0);
        true
    } else {
        assert(b@.skip(i as int).len() == 0);
        false
    }
}

pub open spec fn char_views(v: Seq<Vec<char>>) -> Seq<Seq<char>> {
    v.map_values(|x: Vec<char>| x@)
}

/// The names in order.
pub fn sort_by_name(names: &Vec<Vec<char>>) -> (r: Vec<Vec<char>>)
    ensures
        char_views(r@) == sort_names(char_views(names@)),
{
    let ghost all = char_views(names@);
    let mut r: Vec<Vec<char>> = Vec::new();
    let mut i: usize = 0;
    while i < names.len()
        invariant
            i <= names.len(),
            all == char_views(names@),
            char_views(r@) == sort_names(all.take(i as int)),
        decreases names.len() - i,
    {
        let mut x: Vec<char> = Vec::new();
        push_all(&mut x, &names[i]);
        let mut j: usize = 0;
        while j < r.len() && lex_le_exec(&r[j], &x)
            invariant
                j <= r.len(),
                forall|k: int| 0 <= k < j ==> lex_le(#[trigger] char_views(r@)[k], x@),
            decreases r.len() - j,
        {
            j = j + 1;
        }
        proof {
            lemma_insert_at(char_views(r@), x@, j as int);
        }
        let ghost before = char_views(r@);
        r.insert(j, x);
        assert(char_views(r@) =~= before.insert(j as int, x@));
        assert(all.take(i + 1).drop_last() =~= all.take(i as int));
        assert(all.take(i + 1).last() == x@);
        i = i + 1;
    }
    assert(all.take(names.len() as int) =~= all);
    r
}

pub proof fn lemma_sort_names_len(s: Seq<Seq<char>>)
    ensures
        sort_names(s).len() == s.len(),
{
    broadcast use vstd::seq_lib::group_to_multiset_ensures;

    law_sort_names_sorted(s);
    assert(sort_names(s).to_multiset().len() == sort_names(s).len());
    assert(s.to_multiset().len() == s.len());
}

// ---------------------------------------------------------------------------
// Which documents open
// ---------------------------------------------------------------------------
/// A path with a flag: whether it exists (for named files) or is a regular
/// file (for directory entries).
pub open spec fn entry_views(es: Seq<(String, bool)>) -> Seq<(Seq<char>, bool)> {
    es.map_values(|e: (String, bool)| (e.0@, e.1))
}

/// `Path::extension` of `p` is `md`, ignoring ASCII case.
pub open spec fn is_markdown_path(p: Seq<char>) -> bool {
    match file_name(p) {
        Some(n) => match name_extension(n) {
            Some(e) => to_ascii_lower(e) == seq!['m', 'd'],
            None => false,
        },
        None => false,
    }
}

/// The flagged entries, in order.
pub open spec fn flagged(es: Seq<(Seq<char>, bool)>) -> Seq<Seq<char>>
    decreases es.len(),
{
    if es.len() == 0 {
        seq![]
    } else {
        let rest = flagged(es.drop_last());
        if es.last().1 {
            rest.push(es.last().0)
        } else {
            rest
        }
    }
}

/// The flagged entries named `*.md`, in order.
pub open spec fn markdown_files(es: Seq<(Seq<char>, bool)>) -> Seq<Seq<char>>
    decreases es.len(),
{
    if es.len() == 0 {
        seq![]
    } else {
        let rest = markdown_files(es.drop_last());
        if es.last().1 && is_markdown_path(es.last().0) {
            rest.push(es.last().0)
        } else {
            rest
        }
    }
}

fn is_markdown_path_exec(p: &Vec<char>) -> (b: bool)
    ensures
        b == is_markdown_path(p@),
{
    match file_name_exec(p) {
        Some(n) => match name_extension_exec(&n) {
            Some(e) => {
                let l = lower_ascii(&e);
                if l.len() == 2 && l[0] == 'm' && l[1] == 'd' {
                    assert(l@ =~= seq!['m', 'd']);
                    true
                } else {
                    assert(l@ != seq!['m', 'd']) by {
                        if l@ == seq!['m', 'd'] {
                            assert(l@[0] == 'm' && l@[1] == 'd');
                        }
                    }
                    false
                }
            },
            None => false,
        },
        None => false,
    }
}

/// Each character vector as a `String`.
pub fn strings_of(v: &Vec<Vec<char>>) -> (r: Vec<String>)
    ensures
        string_views(r@) == char_views(v@),
{
    let mut r: Vec<String> = Vec::new();
    let mut k: usize = 0;
    while k < v.len()
        invariant
            k <= v.len(),
            string_views(r@) == char_views(v@).take(k as int),
        decreases v.len() - k,
    {
        let ghost before = string_views(r@);
        r.push(string_of(&v[k]));
        assert(string_views(r@) =~= before.push(v@[k as int]@));
        assert(char_views(v@).take(k + 1) =~= char_views(v@).take(k as int).push(v@[k as int]@));
        k = k + 1;
    }
    assert(char_views(v@).take(v.len() as int) =~= char_views(v@));
    r
}

proof fn lemma_capped_views(v: Seq<String>)
    ensures
        string_views(capped(v)) == capped(string_views(v)),
{
    assert(string_views(capped(v)) =~= capped(string_views(v)));
}

/// The documents that `-b` opens: the given files that exist, in the order
/// given, at most `MAX_WINDOWS` of them.
pub fn batch_inputs(candidates: &Vec<(String, bool)>) -> (r: (Vec<String>, Option<String>))
    ensures
        string_views(r.0@) == capped(flagged(entry_views(candidates@))),
        match r.1 {
            Some(w) => flagged(entry_views(candidates@)).len() > MAX_WINDOWS && w@ == too_many_notice(
                flagged(entry_views(candidates@)).len(),
            ),
            None => flagged(entry_views(candidates@)).len() <= MAX_WINDOWS,
        },
{
    let ghost es = entry_views(candidates@);
    let mut kept: Vec<Vec<char>> = Vec::new();
    let mut i: usize = 0;
    while i < candidates.len()
        invariant
            i <= candidates.len(),
            es == entry_views(candidates@),
            char_views(kept@) == flagged(es.take(i as int)),
        decreases candidates.len() - i,
    {
        let ghost before = char_views(kept@);
        if candidates[i].1 {
            kept.push(chars_of(candidates[i].0.as_str()));
            assert(char_views(kept@) =~= before.push(es[i as int].0));
        }
        assert(es.take(i + 1).drop_last() =~= es.take(i as int));
        i = i + 1;
    }
    assert(es.take(candidates.len() as int) =~= es);
    let names = strings_of(&kept);
    let (files, warn) = cap_and_warn(names);
    proof {
        lemma_capped_views(names@);
    }
    (files, warn)
}

/// The documents that `-d` opens: the directory's entries that are files
/// named `*.md` (any case), in name order, at most `MAX_WINDOWS` of them.
pub fn directory_inputs(entries: &Vec<(String, bool)>) -> (r: (Vec<String>, Option<String>))
    ensures
        string_views(r.0@) == capped(sort_names(markdown_files(entry_views(entries@)))),
        match r.1 {
            Some(w) => markdown_files(entry_views(entries@)).len() > MAX_WINDOWS && w@
                == too_many_notice(markdown_files(entry_views(entries@)).len()),
            None => markdown_files(entry_views(entries@)).len() <= MAX_WINDOWS,
        },
{
    let ghost es = entry_views(entries@);
    let mut kept: Vec<Vec<char>> = Vec::new();
    let mut i: usize = 0;
    while i < entries.len()
        invariant
            i <= entries.len(),
            es == entry_views(entries@),
            char_views(kept@) == markdown_files(es.take(i as int)),
        decreases entries.len() - i,
    {
        let ghost before = char_views(kept@);
        let p = chars_of(entries[i].0.as_str());
        if entries[i].1 && is_markdown_path_exec(&p) {
            kept.push(p);
            assert(char_views(kept@) =~= before.push(es[i as int].0));
        }
        assert(es.take(i + 1).drop_last() =~= es.take(i as int));
        i = i + 1;
    }
    assert(es.take(entries.len() as int) =~= es);
    let sorted = sort_by_name(&kept);
    proof {
        lemma_sort_names_len(char_views(kept@));
    }
    let names = strings_of(&sorted);
    let (files, warn) = cap_and_warn(names);
    proof {
        lemma_capped_views(names@);
    }
    (files, warn)
}

/// What the command line asks to open.
#[derive(Debug)]
pub enum InputPlan {
    /// Review `file`, appending the verdict to `output`.
    Review { file: String, output: String },
    /// One window per given file that exists; `-d` was given too and is ignored.
    Batch { files: Vec<String>, directory_ignored: bool },
    /// One window per markdown file of the directory.
    Directory { dir: String },
    /// One window for one file.
    Single { file: String },
    /// Nothing was asked for.
    Nothing,
}

/// A combination of options that cannot be honoured.
#[derive(Debug, Clone, Copy, PartialEq, Eq, Structural)]
pub enum UsageError {
    /// `-r` together with `-b` or `-d`.
    ReviewExclusive,
    /// `-r` without a file to review.
    ReviewNeedsFile,
}

pub open spec fn usage_message(e: UsageError) -> Seq<char> {
    match e {
        UsageError::ReviewExclusive => "error: -r is mutually exclusive with -b and -d"@,
        UsageError::ReviewNeedsFile => "error: -r requires exactly one input FILE"@,
    }
}

impl UsageError {
    /// The line printed before exiting with `EXIT_USAGE`.
    pub fn message(&self) -> (m: String)
        ensures
            m@ == usage_message(*self),
    {
        match self {
            UsageError::ReviewExclusive => string_of(
                &chars_of("error: -r is mutually exclusive with -b and -d"),
            ),
            UsageError::ReviewNeedsFile => string_of(
                &chars_of("error: -r requires exactly one input FILE"),
            ),
        }
    }
}

/// Which documents the options ask for. Review mode takes exactly one file
/// and excludes `-b` and `-d`; otherwise `-b` wins over `-d`, `-d` over a
/// lone file.
pub fn select_inputs(
    file: Option<String>,
    batch: Vec<String>,
    directory: Option<String>,
    review: Option<String>,
) -> (r: Result<InputPlan, UsageError>)
    ensures
        match review {
            Some(out) => if batch@.len() > 0 || directory is Some {
                r == Err::<InputPlan, UsageError>(UsageError::ReviewExclusive)
            } else {
                match file {
                    Some(f) => r == Ok::<InputPlan, UsageError>(
                        InputPlan::Review { file: f, output: out },
                    ),
                    None => r == Err::<InputPlan, UsageError>(UsageError::ReviewNeedsFile),
                }
            },
            None => if batch@.len() > 0 {
                r == Ok::<InputPlan, UsageError>(
                    InputPlan::Batch { files: batch, directory_ignored: directory is Some },
                )
            } else {
                match (directory, file) {
                    (Some(d), _) => r == Ok::<InputPlan, UsageError>(InputPlan::Directory { dir: d }),
                    (None, Some(f)) => r == Ok::<InputPlan, UsageError>(
                        InputPlan::Single { file: f },
                    ),
                    (None, None) => r == Ok::<InputPlan, UsageError>(InputPlan::Nothing),
                }
            },
        },
{
    match review {
        Some(out) => {
            if batch.len() > 0 || directory.is_some() {
                return Err(UsageError::ReviewExclusive);
            }
            match file {
                Some(f) => Ok(InputPlan::Review { file: f, output: out }),
                None => Err(UsageError::ReviewNeedsFile),
            }
        },
        None => {
            if batch.len() > 0 {
                let ignored = directory.is_some();
                return Ok(InputPlan::Batch { files: batch, directory_ignored: ignored });
            }
            match directory {
                Some(d) => Ok(InputPlan::Directory { dir: d }),
                None => match file {
                    Some(f) => Ok(InputPlan::Single { file: f }),
                    None => Ok(InputPlan::Nothing),
                },
            }
        },
    }
}

} // verus!
