//! Parse notices for markdown that renders but is probably broken: an odd
//! number of code fences, table rows whose column count differs from the
//! table's first row, and reference links or images whose label no line
//! defines.
use vstd::prelude::*;
use crate::cli::char_views;
use crate::math::{
    backtick_run, backtick_run_exec, inline_code_close, inline_code_close_exec,
    lemma_backtick_run_bound, lemma_inline_code_close_bounds,
};
use crate::text::{
    chars_of, count_char, count_char_range, decimal, decimal_chars, eq_chars, line_at, lines,
    lines_from, lower_ascii, matches_at, push_all, skip_white, skip_white_back, starts_with,
    string_of, string_views, to_ascii_lower, trim, trim_start,
};

verus! {

pub open spec fn tick_fence() -> Seq<char> {
    seq!['`', '`', '`']
}

pub open spec fn tilde_fence() -> Seq<char> {
    seq!['~', '~', '~']
}

/// A line that opens or closes a fenced code block.
pub open spec fn is_fence_line(l: Seq<char>) -> bool {
    starts_with(trim_start(l), tick_fence()) || starts_with(trim_start(l), tilde_fence())
}

/// Number of fence lines among `ls`.
pub open spec fn fence_lines(ls: Seq<Seq<char>>) -> nat
    decreases ls.len(),
{
    if ls.len() == 0 {
        0
    } else {
        fence_lines(ls.drop_last()) + if is_fence_line(ls.last()) {
            1nat
        } else {
            0nat
        }
    }
}

/// A trimmed line that starts and ends with `|`.
pub open spec fn is_row(t: Seq<char>) -> bool {
    t.len() > 0 && t[0] == '|' && t.last() == '|'
}

/// A row made only of `|`, `-`, `:` and spaces (a header separator).
pub open spec fn is_separator(t: Seq<char>) -> bool {
    forall|k: int|
        0 <= k < t.len() ==> (#[trigger] t[k] == '|' || t[k] == '-' || t[k] == ':' || t[k] == ' ')
}

pub struct TableScan {
    pub in_table: bool,
    pub expected: Option<nat>,
    pub mismatches: nat,
}

pub open spec fn table_start() -> TableScan {
    TableScan { in_table: false, expected: None, mismatches: 0 }
}

/// The table state after one more line: the first row of a table sets the
/// expected column count; a later row with another count that is not a
/// separator is a mismatch; a non-empty non-row line ends the table.
pub open spec fn table_step(st: TableScan, l: Seq<char>) -> TableScan {
    let t = trim(l);
    if is_row(t) {
        let cols = (count_char(t, '|') - 1) as nat;
        if !st.in_table {
            TableScan { in_table: true, expected: Some(cols), ..st }
        } else {
            match st.expected {
                Some(exp) => if cols != exp && !is_separator(t) {
                    TableScan { mismatches: st.mismatches + 1, ..st }
                } else {
                    st
                },
                None => st,
            }
        }
    } else if t.len() > 0 {
        TableScan { in_table: false, expected: None, ..st }
    } else {
        st
    }
}

pub open spec fn table_scan(ls: Seq<Seq<char>>) -> TableScan
    decreases ls.len(),
{
    if ls.len() == 0 {
        table_start()
    } else {
        table_step(table_scan(ls.drop_last()), ls.last())
    }
}

pub open spec fn unclosed_fence_notice() -> Seq<char> {
    "1 unclosed code fence"@
}

pub open spec fn mismatch_notice(n: nat) -> Seq<char> {
    decimal(n) + " table rows with column mismatch"@
}

/// Index of the first `]` at or after `i` in `t`, or `t.len()`.
pub open spec fn bracket_end(t: Seq<char>, i: int) -> int
    decreases t.len() - i,
{
    if i < 0 || i >= t.len() {
        t.len() as int
    } else if t[i] == ']' {
        i
    } else {
        bracket_end(t, i + 1)
    }
}

/// The labels of the full reference links and images (`[text][label]`,
/// `![alt][label]`) in line `l`, scanning from `i`: each `][` followed by a
/// non-empty label closed by `]` on the same line. A code span (a backtick
/// run and the next run of the same length on the line) is passed over
/// whole; a backtick run that nothing closes is passed over by itself.
pub open spec fn ref_uses_from(l: Seq<char>, i: int) -> Seq<Seq<char>>
    decreases l.len() - i,
{
    if i < 0 || i + 1 >= l.len() {
        seq![]
    } else if l[i] == '`' {
        let run = backtick_run(l, i);
        proof {
            lemma_backtick_run_bound(l, i + 1);
            lemma_inline_code_close_bounds(l, i + run, run);
        }
        match inline_code_close(l, i + run, run) {
            Some(e) => ref_uses_from(l, e),
            None => ref_uses_from(l, i + run),
        }
    } else if l[i] == ']' && l[i + 1] == '[' && bracket_end(l, i + 2) < l.len() && bracket_end(
        l,
        i + 2,
    ) > i + 2 {
        seq![l.subrange(i + 2, bracket_end(l, i + 2))] + ref_uses_from(l, bracket_end(l, i + 2) + 1)
    } else {
        ref_uses_from(l, i + 1)
    }
}

/// Line `l`, coming after the lines `before`, belongs to a fenced code
/// block: it is a fence line, or an odd number of fence lines precede it.
pub open spec fn in_code_block(before: Seq<Seq<char>>, l: Seq<char>) -> bool {
    fence_lines(before) % 2 == 1 || is_fence_line(l)
}

/// The label a reference definition (`[label]: destination`) defines, for
/// a line already stripped of its leading whitespace.
pub open spec fn ref_def_trimmed(t: Seq<char>) -> Option<Seq<char>> {
    if t.len() > 0 && t[0] == '[' && 1 < bracket_end(t, 1) && bracket_end(t, 1) + 1 < t.len()
        && t[bracket_end(t, 1) + 1] == ':' {
        Some(t.subrange(1, bracket_end(t, 1)))
    } else {
        None
    }
}

/// The labels used by reference links and images in `ls`, in order, outside
/// fenced code blocks.
pub open spec fn ref_uses(ls: Seq<Seq<char>>) -> Seq<Seq<char>>
    decreases ls.len(),
{
    if ls.len() == 0 {
        seq![]
    } else {
        ref_uses(ls.drop_last()) + if in_code_block(ls.drop_last(), ls.last()) {
            Seq::<Seq<char>>::empty()
        } else {
            ref_uses_from(ls.last(), 0)
        }
    }
}

/// The labels defined in `ls`, in order, outside fenced code blocks.
pub open spec fn ref_defs(ls: Seq<Seq<char>>) -> Seq<Seq<char>>
    decreases ls.len(),
{
    if ls.len() == 0 {
        seq![]
    } else {
        ref_defs(ls.drop_last()) + if in_code_block(ls.drop_last(), ls.last()) {
            Seq::<Seq<char>>::empty()
        } else {
            match ref_def_trimmed(trim_start(ls.last())) {
                Some(d) => seq![d],
                None => Seq::<Seq<char>>::empty(),
            }
        }
    }
}

/// Labels match without regard to ASCII case.
pub open spec fn label_defined(defs: Seq<Seq<char>>, u: Seq<char>) -> bool {
    exists|k: int| 0 <= k < defs.len() && to_ascii_lower(#[trigger] defs[k]) == to_ascii_lower(u)
}

/// How many of `uses` no definition in `defs` answers.
pub open spec fn undefined_refs(uses: Seq<Seq<char>>, defs: Seq<Seq<char>>) -> nat
    decreases uses.len(),
{
    if uses.len() == 0 {
        0
    } else {
        undefined_refs(uses.drop_last(), defs) + if label_defined(defs, uses.last()) {
            0nat
        } else {
            1nat
        }
    }
}

pub open spec fn undefined_refs_notice(n: nat) -> Seq<char> {
    decimal(n) + " image/link references without definitions"@
}

/// The notices for `md`, in order: the unclosed fence first, then the table
/// mismatches, then the references whose label nothing defines.
pub open spec fn warnings_spec(md: Seq<char>) -> Seq<Seq<char>> {
    let ls = lines(md);
    let m = table_scan(ls).mismatches;
    let u = undefined_refs(ref_uses(ls), ref_defs(ls));
    (if fence_lines(ls) % 2 == 1 {
        seq![unclosed_fence_notice()]
    } else {
        Seq::<Seq<char>>::empty()
    }) + (if m > 0 {
        seq![mismatch_notice(m)]
    } else {
        Seq::<Seq<char>>::empty()
    }) + (if u > 0 {
        seq![undefined_refs_notice(u)]
    } else {
        Seq::<Seq<char>>::empty()
    })
}

fn is_separator_range(s: &Vec<char>, from: usize, to: usize) -> (b: bool)
    requires
        from <= to <= s.len(),
    ensures
        b == is_separator(s@.subrange(from as int, to as int)),
{
    let mut k = from;
    while k < to
        invariant
            from <= k <= to <= s.len(),
            forall|j: int|
                from <= j < k ==> (s@[j] == '|' || s@[j] == '-' || s@[j] == ':' || s@[j] == ' '),
        decreases to - k,
    {
        let c = s[k];
        if !(c == '|' || c == '-' || c == ':' || c == ' ') {
            assert(s@.subrange(from as int, to as int)[k - from] == c);
            return false;
        }
        k = k + 1;
    }
    assert forall|j: int| 0 <= j < to - from implies (#[trigger] s@.subrange(
        from as int,
        to as int,
    )[j] == '|' || s@.subrange(from as int, to as int)[j] == '-' || s@.subrange(
        from as int,
        to as int,
    )[j] == ':' || s@.subrange(from as int, to as int)[j] == ' ') by {
        assert(s@.subrange(from as int, to as int)[j] == s@[from + j]);
    }
    true
}

fn bracket_end_exec(t: &Vec<char>, i: usize) -> (r: usize)
    requires
        i <= t.len(),
    ensures
        r == bracket_end(t@, i as int),
        i <= r <= t.len(),
{
    let mut k = i;
    while k < t.len() && t[k] != ']'
        invariant
            i <= k <= t.len(),
            bracket_end(t@, k as int) == bracket_end(t@, i as int),
        decreases t.len() - k,
    {
        k = k + 1;
    }
    k
}

/// Appends the reference labels used in line `l` to `out`.
fn push_ref_uses(l: &Vec<char>, out: &mut Vec<Vec<char>>)
    ensures
        char_views(final(out)@) == char_views(old(out)@) + ref_uses_from(l@, 0),
{
    let ghost start = char_views(out@);
    let mut i: usize = 0;
    assert(start + ref_uses_from(l@, 0) =~= char_views(out@) + ref_uses_from(l@, 0));
    while i < l.len() && l.len() - i > 1
        invariant
            i <= l.len(),
            char_views(out@) + ref_uses_from(l@, i as int) == start + ref_uses_from(l@, 0),
        decreases l.len() - i,
    {
        if l[i] == '`' {
            let run = backtick_run_exec(l, i);
            proof {
                lemma_backtick_run_bound(l@, i + 1);
                lemma_inline_code_close_bounds(l@, i + run, run as int);
            }
            match inline_code_close_exec(l, i + run, run) {
                Some(e) => {
                    i = e;
                },
                None => {
                    i = i + run;
                },
            }
        } else if l[i] == ']' && l[i + 1] == '[' {
            let e = bracket_end_exec(l, i + 2);
            if e < l.len() && e > i + 2 {
                let mut lab: Vec<char> = Vec::new();
                crate::text::push_range(&mut lab, l, i + 2, e);
                let ghost before = char_views(out@);
                out.push(lab);
                assert(char_views(out@) =~= before.push(l@.subrange(i + 2, e as int)));
                assert(before.push(l@.subrange(i + 2, e as int)) + ref_uses_from(l@, e + 1)
                    =~= before + ref_uses_from(l@, i as int));
                i = e + 1;
            } else {
                i = i + 1;
            }
        } else {
            i = i + 1;
        }
    }
    assert(ref_uses_from(l@, i as int) =~= Seq::<Seq<char>>::empty());
    assert(char_views(out@) + Seq::<Seq<char>>::empty() =~= char_views(out@));
}

/// The label that the trimmed line `t` defines, if it is a definition.
fn ref_def_exec(t: &Vec<char>) -> (r: Option<Vec<char>>)
    ensures
        match r {
            Some(d) => ref_def_trimmed(t@) == Some(d@),
            None => ref_def_trimmed(t@) is None,
        },
{
    if t.len() > 0 && t[0] == '[' {
        let e = bracket_end_exec(t, 1);
        if 1 < e && e < t.len() && t.len() - e > 1 && t[e + 1] == ':' {
            let mut d: Vec<char> = Vec::new();
            crate::text::push_range(&mut d, t, 1, e);
            return Some(d);
        }
    }
    None
}

/// How many of `uses` no label of `defs` answers, ignoring ASCII case.
fn count_undefined(uses: &Vec<Vec<char>>, defs: &Vec<Vec<char>>) -> (n: usize)
    ensures
        n == undefined_refs(char_views(uses@), char_views(defs@)),
{
    let ghost us = char_views(uses@);
    let ghost ds = char_views(defs@);
    let mut lower_defs: Vec<Vec<char>> = Vec::new();
    let mut k: usize = 0;
    while k < defs.len()
        invariant
            k <= defs.len(),
            ds == char_views(defs@),
            lower_defs.len() == k,
            forall|j: int| 0 <= j < k ==> #[trigger] lower_defs@[j]@ == to_ascii_lower(ds[j]),
        decreases defs.len() - k,
    {
        lower_defs.push(lower_ascii(&defs[k]));
        k = k + 1;
    }
    let mut n: usize = 0;
    let mut i: usize = 0;
    while i < uses.len()
        invariant
            i <= uses.len(),
            us == char_views(uses@),
            ds == char_views(defs@),
            lower_defs.len() == defs.len(),
            forall|j: int| 0 <= j < defs.len() ==> #[trigger] lower_defs@[j]@ == to_ascii_lower(ds[j]),
            n == undefined_refs(us.take(i as int), ds),
            n <= i,
        decreases uses.len() - i,
    {
        let lu = lower_ascii(&uses[i]);
        let mut found = false;
        let mut j: usize = 0;
        while j < lower_defs.len() && !found
            invariant
                j <= lower_defs.len(),
                lower_defs.len() == defs.len(),
                ds == char_views(defs@),
                forall|jj: int| 0 <= jj < defs.len() ==> #[trigger] lower_defs@[jj]@ == to_ascii_lower(ds[jj]),
                found <==> exists|kk: int| 0 <= kk < j && to_ascii_lower(#[trigger] ds[kk]) == lu@,
            decreases lower_defs.len() - j,
        {
            if eq_chars(&lower_defs[j], &lu) {
                found = true;
                assert(to_ascii_lower(ds[j as int]) == lu@);
            }
            j = j + 1;
        }
        proof {
            assert(us[i as int] == uses@[i as int]@);
            assert(lu@ == to_ascii_lower(us[i as int]));
            assert(found == label_defined(ds, us[i as int])) by {
                if label_defined(ds, us[i as int]) && !found {
                    let kk = choose|kk: int| 0 <= kk < ds.len() && to_ascii_lower(#[trigger] ds[kk])
                        == to_ascii_lower(us[i as int]);
                    assert(j == lower_defs.len());
                }
            }
            assert(us.take(i + 1).drop_last() =~= us.take(i as int));
            assert(us.take(i + 1).last() == us[i as int]);
        }
        if !found {
            n = n + 1;
        }
        i = i + 1;
    }
    assert(us.take(uses.len() as int) =~= us);
    n
}

/// Human-readable notices about likely-broken markdown; rendering goes on
/// regardless.
pub fn detect_warnings(md: &str) -> (w: Vec<String>)
    ensures
        string_views(w@) == warnings_spec(md@),
{
    let s = chars_of(md);
    let tick = vec!['`', '`', '`'];
    let tilde = vec!['~', '~', '~'];
    assert(tick@ =~= tick_fence());
    assert(tilde@ =~= tilde_fence());
    let mut fences: usize = 0;
    let mut in_table = false;
    let mut expected: Option<usize> = None;
    let mut mismatches: usize = 0;
    let mut uses: Vec<Vec<char>> = Vec::new();
    let mut defs: Vec<Vec<char>> = Vec::new();
    let mut start: usize = 0;
    let ghost mut done: Seq<Seq<char>> = seq![];
    assert(done + lines_from(s@, 0) =~= lines(s@));
    while start < s.len()
        invariant
            start <= s.len(),
            tick@ == tick_fence(),
            tilde@ == tilde_fence(),
            done + lines_from(s@, start as int) == lines(s@),
            fences == fence_lines(done),
            fences <= done.len(),
            done.len() <= start,
            mismatches <= done.len(),
            in_table == table_scan(done).in_table,
            mismatches == table_scan(done).mismatches,
            match expected {
                Some(e) => table_scan(done).expected == Some(e as nat),
                None => table_scan(done).expected is None,
            },
            char_views(uses@) == ref_uses(done),
            char_views(defs@) == ref_defs(done),
        decreases s.len() - start,
    {
        let (ce, next) = line_at(&s, start);
        let ghost line = s@.subrange(start as int, ce as int);
        let ts = skip_white(&s, start, ce);
        let fence_line = ce - ts >= 3 && (matches_at(&s, ts, &tick) || matches_at(&s, ts, &tilde));
        let in_code = fences % 2 == 1 || fence_line;
        assert(trim_start(line) == s@.subrange(ts as int, ce as int));
        if fence_line {
            assert(s@.subrange(ts as int, ce as int).take(3) =~= s@.subrange(ts as int, ts + 3));
            fences = fences + 1;
        } else {
            assert(!is_fence_line(line)) by {
                if starts_with(trim_start(line), tick_fence()) {
                    assert(s@.subrange(ts as int, ce as int).take(3) =~= s@.subrange(
                        ts as int,
                        ts + 3,
                    ));
                }
                if starts_with(trim_start(line), tilde_fence()) {
                    assert(s@.subrange(ts as int, ce as int).take(3) =~= s@.subrange(
                        ts as int,
                        ts + 3,
                    ));
                }
            }
        }
        assert(in_code == in_code_block(done, line));
        let ghost uses_before = char_views(uses@);
        let ghost defs_before = char_views(defs@);
        if in_code {
            assert(char_views(uses@) =~= uses_before + Seq::<Seq<char>>::empty());
            assert(char_views(defs@) =~= defs_before + Seq::<Seq<char>>::empty());
        } else {
            let mut lv: Vec<char> = Vec::new();
            crate::text::push_range(&mut lv, &s, start, ce);
            assert(lv@ == line);
            push_ref_uses(&lv, &mut uses);
            let mut tv: Vec<char> = Vec::new();
            crate::text::push_range(&mut tv, &s, ts, ce);
            assert(tv@ == trim_start(line));
            match ref_def_exec(&tv) {
                Some(d) => {
                    defs.push(d);
                    assert(char_views(defs@) =~= defs_before + seq![ref_def_trimmed(tv@)->0]);
                },
                None => {
                    assert(char_views(defs@) =~= defs_before + Seq::<Seq<char>>::empty());
                },
            }
        }
        let te = skip_white_back(&s, ts, ce);
        let ghost t = s@.subrange(ts as int, te as int);
        assert(trim(line) == t);
        if te > ts && s[ts] == '|' && s[te - 1] == '|' {
            assert(t[0] == '|' && t.last() == '|');
            let bars = count_char_range(&s, ts, te, '|');
            proof {
                assert(t.last() == '|');
                assert(t.drop_last() =~= s@.subrange(ts as int, te - 1));
            }
            assert(bars >= 1);
            let cols = bars - 1;
            if !in_table {
                in_table = true;
                expected = Some(cols);
            } else {
                match expected {
                    Some(exp) => {
                        if cols != exp && !is_separator_range(&s, ts, te) {
                            mismatches = mismatches + 1;
                        }
                    },
                    None => {},
                }
            }
        } else if te > ts {
            in_table = false;
            expected = None;
        }
        proof {
            assert((done.push(line)).drop_last() =~= done);
            assert(done.push(line).last() == line);
            assert(lines_from(s@, start as int) == seq![line] + lines_from(s@, next as int));
            assert(done.push(line) + lines_from(s@, next as int) =~= done + lines_from(
                s@,
                start as int,
            ));
            done = done.push(line);
        }
        start = next;
    }
    assert(lines_from(s@, start as int) =~= Seq::<Seq<char>>::empty());
    assert(done =~= lines(s@));
    let mut w: Vec<String> = Vec::new();
    if fences % 2 == 1 {
        w.push(string_of(&chars_of("1 unclosed code fence")));
    }
    if mismatches > 0 {
        let mut msg = decimal_chars(mismatches);
        let tail = chars_of(" table rows with column mismatch");
        push_all(&mut msg, &tail);
        w.push(string_of(&msg));
    }
    let undefined = count_undefined(&uses, &defs);
    if undefined > 0 {
        let mut msg = decimal_chars(undefined);
        let tail = chars_of(" image/link references without definitions");
        push_all(&mut msg, &tail);
        w.push(string_of(&msg));
    }
    assert(string_views(w@) =~= warnings_spec(md@));
    w
}

} // verus!
