//! Character-sequence vocabulary shared by the renderer: whitespace, trimming,
//! line splitting, prefix/suffix tests, substring search and replacement, and
//! decimal formatting. Every executable helper is proved against the spec
//! function of the same meaning.
use vstd::prelude::*;

verus! {

// ---------------------------------------------------------------------------
// Specifications
// ---------------------------------------------------------------------------
/// Unicode `White_Space`, the set that `char::is_whitespace` tests.
pub open spec fn is_white(c: char) -> bool {
    let u = c as u32;
    (0x9 <= u && u <= 0xd) || u == 0x20 || u == 0x85 || u == 0xa0 || u == 0x1680 || (0x2000 <= u
        && u <= 0x200a) || u == 0x2028 || u == 0x2029 || u == 0x202f || u == 0x205f || u == 0x3000
}

/// `s` without its leading whitespace.
pub open spec fn trim_start(s: Seq<char>) -> Seq<char>
    decreases s.len(),
{
    if s.len() > 0 && is_white(s[0]) {
        trim_start(s.drop_first())
    } else {
        s
    }
}

/// `s` without its trailing whitespace.
pub open spec fn trim_end(s: Seq<char>) -> Seq<char>
    decreases s.len(),
{
    if s.len() > 0 && is_white(s.last()) {
        trim_end(s.drop_last())
    } else {
        s
    }
}

/// `s` without leading and trailing whitespace.
pub open spec fn trim(s: Seq<char>) -> Seq<char> {
    trim_end(trim_start(s))
}

pub open spec fn starts_with(s: Seq<char>, p: Seq<char>) -> bool {
    p.len() <= s.len() && s.take(p.len() as int) == p
}

pub open spec fn ends_with(s: Seq<char>, p: Seq<char>) -> bool {
    p.len() <= s.len() && s.skip(s.len() - p.len()) == p
}

/// `p` occurs in `s` at position `i`.
pub open spec fn occurs_at(s: Seq<char>, p: Seq<char>, i: int) -> bool {
    0 <= i && i + p.len() <= s.len() && s.subrange(i, i + p.len()) == p
}

pub open spec fn contains(s: Seq<char>, p: Seq<char>) -> bool {
    exists|i: int| occurs_at(s, p, i)
}

/// Index of the first `'\n'` at or after `i`, or `s.len()` when there is none.
pub open spec fn next_newline(s: Seq<char>, i: int) -> int
    decreases s.len() - i,
{
    if i >= s.len() {
        s.len() as int
    } else if s[i] == '\n' {
        i
    } else {
        next_newline(s, i + 1)
    }
}

/// The lines of `s[start..]` as `str::lines` yields them: pieces split after
/// each `'\n'`, without the `'\n'` and without a `'\r'` right before it, and
/// no empty piece after a final `'\n'`.
pub open spec fn lines_from(s: Seq<char>, start: int) -> Seq<Seq<char>>
    decreases s.len() - start,
{
    if start < 0 || start >= s.len() {
        seq![]
    } else {
        let e = next_newline(s, start);
        proof {
            lemma_next_newline_bounds(s, start);
        }
        if e >= s.len() {
            seq![s.subrange(start, s.len() as int)]
        } else {
            seq![strip_cr(s.subrange(start, e))] + lines_from(s, e + 1)
        }
    }
}

pub open spec fn lines(s: Seq<char>) -> Seq<Seq<char>> {
    lines_from(s, 0)
}

/// A line that ended in `"\r\n"` loses its `'\r'`.
pub open spec fn strip_cr(l: Seq<char>) -> Seq<char> {
    if l.len() > 0 && l.last() == '\r' {
        l.drop_last()
    } else {
        l
    }
}

/// Concatenation of `parts` with `sep` between consecutive parts.
pub open spec fn join(parts: Seq<Seq<char>>, sep: Seq<char>) -> Seq<char>
    decreases parts.len(),
{
    if parts.len() == 0 {
        seq![]
    } else if parts.len() == 1 {
        parts[0]
    } else {
        join(parts.drop_last(), sep) + sep + parts.last()
    }
}

/// `s` with every occurrence of `p` (leftmost first, never overlapping)
/// replaced by `r`, as `str::replace` does for a non-empty pattern.
pub open spec fn replace_all(s: Seq<char>, p: Seq<char>, r: Seq<char>) -> Seq<char>
    decreases s.len(),
{
    if p.len() == 0 || s.len() < p.len() {
        s
    } else if s.take(p.len() as int) == p {
        r + replace_all(s.skip(p.len() as int), p, r)
    } else {
        seq![s[0]] + replace_all(s.drop_first(), p, r)
    }
}

/// `s` with only the first occurrence of `p` replaced by `r`.
pub open spec fn replace_first(s: Seq<char>, p: Seq<char>, r: Seq<char>) -> Seq<char>
    decreases s.len(),
{
    if p.len() == 0 || s.len() < p.len() {
        s
    } else if s.take(p.len() as int) == p {
        r + s.skip(p.len() as int)
    } else {
        seq![s[0]] + replace_first(s.drop_first(), p, r)
    }
}

pub open spec fn ascii_lower(c: char) -> char {
    if 'A' <= c && c <= 'Z' {
        ((c as u32) + 32) as char
    } else {
        c
    }
}

pub open spec fn ascii_upper(c: char) -> char {
    if 'a' <= c && c <= 'z' {
        ((c as u32) - 32) as char
    } else {
        c
    }
}

pub open spec fn to_ascii_lower(s: Seq<char>) -> Seq<char> {
    s.map_values(|c: char| ascii_lower(c))
}

pub open spec fn to_ascii_upper(s: Seq<char>) -> Seq<char> {
    s.map_values(|c: char| ascii_upper(c))
}

pub open spec fn digit_char(d: nat) -> char {
    ((d % 10) + 48) as char
}

/// Decimal notation of `n`, without leading zeros (`"0"` for zero).
pub open spec fn decimal(n: nat) -> Seq<char>
    decreases n,
{
    if n < 10 {
        seq![digit_char(n)]
    } else {
        decimal(n / 10).push(digit_char(n % 10))
    }
}

/// Number of elements of `s` equal to `c`.
pub open spec fn count_char(s: Seq<char>, c: char) -> nat
    decreases s.len(),
{
    if s.len() == 0 {
        0
    } else {
        count_char(s.drop_last(), c) + if s.last() == c {
            1nat
        } else {
            0nat
        }
    }
}

// ---------------------------------------------------------------------------
// Lemmas
// ---------------------------------------------------------------------------
pub proof fn lemma_next_newline_bounds(s: Seq<char>, i: int)
    requires
        0 <= i,
    ensures
        i <= s.len() ==> i <= next_newline(s, i) <= s.len(),
        next_newline(s, i) < s.len() ==> s[next_newline(s, i)] == '\n',
        forall|k: int| i <= k < next_newline(s, i) && k < s.len() ==> s[k] != '\n',
    decreases s.len() - i,
{
    if i < s.len() && s[i] != '\n' {
        lemma_next_newline_bounds(s, i + 1);
    }
}

pub proof fn lemma_join_push(parts: Seq<Seq<char>>, sep: Seq<char>, p: Seq<char>)
    ensures
        join(parts.push(p), sep) == if parts.len() == 0 {
            p
        } else {
            join(parts, sep) + sep + p
        },
{
    assert(parts.push(p).drop_last() =~= parts);
}

pub proof fn lemma_decimal_nonempty(n: nat)
    ensures
        decimal(n).len() >= 1,
        forall|k: int| 0 <= k < decimal(n).len() ==> '0' <= #[trigger] decimal(n)[k] <= '9',
    decreases n,
{
    if n >= 10 {
        lemma_decimal_nonempty(n / 10);
    }
}

// ---------------------------------------------------------------------------
// replace_all on a string cut in two
// ---------------------------------------------------------------------------
/// When `p` starts nowhere before `a`, replacing only changes what follows.
pub proof fn lemma_replace_after(z: Seq<char>, p: Seq<char>, r: Seq<char>, a: int)
    requires
        p.len() > 0,
        0 <= a <= z.len(),
        forall|i: int| 0 <= i < a ==> !#[trigger] occurs_at(z, p, i),
    ensures
        replace_all(z, p, r) == z.take(a) + replace_all(z.skip(a), p, r),
    decreases a,
{
    if a == 0 {
        assert(z.skip(0) =~= z);
        assert(z.take(0) + replace_all(z, p, r) =~= replace_all(z, p, r));
    } else if z.len() < p.len() {
        assert(replace_all(z.skip(a), p, r) == z.skip(a));
        assert(z.take(a) + z.skip(a) =~= z);
    } else {
        assert(!occurs_at(z, p, 0));
        assert(z.subrange(0, p.len() as int) =~= z.take(p.len() as int));
        let y = z.drop_first();
        assert forall|i: int| 0 <= i < a - 1 implies !#[trigger] occurs_at(y, p, i) by {
            if occurs_at(y, p, i) {
                assert(z.subrange(i + 1, i + 1 + p.len()) =~= y.subrange(i, i + p.len()));
                assert(occurs_at(z, p, i + 1));
            }
        }
        lemma_replace_after(y, p, r, a - 1);
        assert(y.skip(a - 1) =~= z.skip(a));
        assert(seq![z[0]] + (y.take(a - 1) + replace_all(z.skip(a), p, r)) =~= z.take(a)
            + replace_all(z.skip(a), p, r));
    }
}

/// A string that starts with `p` has it replaced first.
pub proof fn lemma_replace_front(p: Seq<char>, w: Seq<char>, r: Seq<char>)
    requires
        p.len() > 0,
    ensures
        replace_all(p + w, p, r) == r + replace_all(w, p, r),
{
    let z = p + w;
    assert(z.take(p.len() as int) =~= p);
    assert(z.skip(p.len() as int) =~= w);
}

// ---------------------------------------------------------------------------
// Executable helpers
// ---------------------------------------------------------------------------
/// Builds a `String` from a sequence of characters (`String: FromIterator<&char>`).
#[verifier::external_body]
pub(crate) fn string_of(v: &Vec<char>) -> (s: String)
    ensures
        s@ == v@,
{
    v.iter().collect()
}

/// The characters of a string slice, in order.
pub fn chars_of(s: &str) -> (v: Vec<char>)
    ensures
        v@ == s@,
{
    let mut v: Vec<char> = Vec::new();
    for c in it: s.chars()
        invariant
            v@ == it.seq().take(it.index()),
            it.seq() == s@,
    {
        v.push(c);
    }
    v
}

pub fn is_white_char(c: char) -> (b: bool)
    ensures
        b == is_white(c),
{
    let u = c as u32;
    (0x9 <= u && u <= 0xd) || u == 0x20 || u == 0x85 || u == 0xa0 || u == 0x1680 || (0x2000 <= u
        && u <= 0x200a) || u == 0x2028 || u == 0x2029 || u == 0x202f || u == 0x205f || u == 0x3000
}

/// Appends `s[from..to]` to `out`.
pub fn push_range(out: &mut Vec<char>, s: &Vec<char>, from: usize, to: usize)
    requires
        from <= to <= s.len(),
    ensures
        final(out)@ == old(out)@ + s@.subrange(from as int, to as int),
{
    let mut i = from;
    while i < to
        invariant
            from <= i <= to <= s.len(),
            out@ == old(out)@ + s@.subrange(from as int, i as int),
        decreases to - i,
    {
        out.push(s[i]);
        i = i + 1;
        assert(s@.subrange(from as int, i as int) =~= s@.subrange(from as int, (i - 1) as int).push(
            s@[i - 1],
        ));
    }
}

/// Appends all of `s` to `out`.
pub fn push_all(out: &mut Vec<char>, s: &Vec<char>)
    ensures
        final(out)@ == old(out)@ + s@,
{
    push_range(out, s, 0, s.len());
    assert(s@.subrange(0, s@.len() as int) =~= s@);
}

/// Does `p` occur in `s` at position `i`?
pub fn matches_at(s: &Vec<char>, i: usize, p: &Vec<char>) -> (b: bool)
    ensures
        b == occurs_at(s@, p@, i as int),
{
    if i > s.len() || p.len() > s.len() - i {
        return false;
    }
    let mut k: usize = 0;
    while k < p.len()
        invariant
            i + p.len() <= s.len(),
            k <= p.len(),
            forall|j: int| 0 <= j < k ==> s@[i + j] == p@[j],
        decreases p.len() - k,
    {
        if s[i + k] != p[k] {
            assert(s@.subrange(i as int, i + p@.len())[k as int] != p@[k as int]);
            return false;
        }
        k = k + 1;
    }
    assert(s@.subrange(i as int, i + p@.len()) =~= p@);
    true
}

/// Index of the first `'\n'` at or after `i`, or `s.len()`.
pub fn find_newline(s: &Vec<char>, i: usize) -> (e: usize)
    requires
        i <= s.len(),
    ensures
        e == next_newline(s@, i as int),
        i <= e <= s.len(),
{
    let mut k = i;
    while k < s.len() && s[k] != '\n'
        invariant
            i <= k <= s.len(),
            next_newline(s@, k as int) == next_newline(s@, i as int),
        decreases s.len() - k,
    {
        k = k + 1;
    }
    k
}

/// Position just past the leading whitespace of `s[from..to]`.
pub fn skip_white(s: &Vec<char>, from: usize, to: usize) -> (k: usize)
    requires
        from <= to <= s.len(),
    ensures
        from <= k <= to,
        trim_start(s@.subrange(from as int, to as int)) == s@.subrange(k as int, to as int),
{
    let mut k = from;
    while k < to && is_white_char(s[k])
        invariant
            from <= k <= to <= s.len(),
            trim_start(s@.subrange(from as int, to as int)) == trim_start(
                s@.subrange(k as int, to as int),
            ),
        decreases to - k,
    {
        assert(s@.subrange(k as int, to as int).drop_first() =~= s@.subrange(k + 1, to as int));
        k = k + 1;
    }
    k
}

/// Position just before the trailing whitespace of `s[from..to]`.
pub fn skip_white_back(s: &Vec<char>, from: usize, to: usize) -> (k: usize)
    requires
        from <= to <= s.len(),
    ensures
        from <= k <= to,
        trim_end(s@.subrange(from as int, to as int)) == s@.subrange(from as int, k as int),
{
    let mut k = to;
    while k > from && is_white_char(s[k - 1])
        invariant
            from <= k <= to <= s.len(),
            trim_end(s@.subrange(from as int, to as int)) == trim_end(
                s@.subrange(from as int, k as int),
            ),
        decreases k - from,
    {
        assert(s@.subrange(from as int, k as int).drop_last() =~= s@.subrange(
            from as int,
            k - 1,
        ));
        k = k - 1;
    }
    k
}

/// `s` with ASCII letters in lower case.
pub fn lower_ascii(s: &Vec<char>) -> (r: Vec<char>)
    ensures
        r@ == to_ascii_lower(s@),
{
    let mut r: Vec<char> = Vec::new();
    let mut i: usize = 0;
    while i < s.len()
        invariant
            i <= s.len(),
            r@ == to_ascii_lower(s@.take(i as int)),
        decreases s.len() - i,
    {
        let c = s[i];
        let l = if 'A' <= c && c <= 'Z' {
            ((c as u32) + 32) as u8 as char
        } else {
            c
        };
        assert(l == ascii_lower(c)) by {
            if 'A' <= c && c <= 'Z' {
                assert(((c as u32) + 32) as u8 as char == ((c as u32) + 32) as char);
            }
        }
        r.push(l);
        i = i + 1;
        assert(to_ascii_lower(s@.take(i as int)) =~= to_ascii_lower(s@.take((i - 1) as int)).push(
            ascii_lower(c),
        ));
    }
    assert(s@.take(s@.len() as int) =~= s@);
    r
}

/// `s` with ASCII letters in upper case.
pub fn upper_ascii(s: &Vec<char>) -> (r: Vec<char>)
    ensures
        r@ == to_ascii_upper(s@),
{
    let mut r: Vec<char> = Vec::new();
    let mut i: usize = 0;
    while i < s.len()
        invariant
            i <= s.len(),
            r@ == to_ascii_upper(s@.take(i as int)),
        decreases s.len() - i,
    {
        let c = s[i];
        let u = if 'a' <= c && c <= 'z' {
            ((c as u32) - 32) as u8 as char
        } else {
            c
        };
        assert(u == ascii_upper(c)) by {
            if 'a' <= c && c <= 'z' {
                assert(((c as u32) - 32) as u8 as char == ((c as u32) - 32) as char);
            }
        }
        r.push(u);
        i = i + 1;
        assert(to_ascii_upper(s@.take(i as int)) =~= to_ascii_upper(s@.take((i - 1) as int)).push(
            ascii_upper(c),
        ));
    }
    assert(s@.take(s@.len() as int) =~= s@);
    r
}

/// Decimal notation of `n`.
pub fn decimal_chars(n: usize) -> (r: Vec<char>)
    ensures
        r@ == decimal(n as nat),
    decreases n,
{
    if n < 10 {
        let d = ((n as u8) + 48) as char;
        assert(d == digit_char(n as nat));
        vec![d]
    } else {
        let mut r = decimal_chars(n / 10);
        let d = (((n % 10) as u8) + 48) as char;
        assert(d == digit_char((n % 10) as nat));
        r.push(d);
        r
    }
}

/// `s` with every occurrence of `p` replaced by `r`.
pub fn replace_all_exec(s: &Vec<char>, p: &Vec<char>, r: &Vec<char>) -> (out: Vec<char>)
    requires
        p.len() > 0,
    ensures
        out@ == replace_all(s@, p@, r@),
{
    let mut out: Vec<char> = Vec::new();
    let mut i: usize = 0;
    assert(s@.skip(0) =~= s@);
    while i < s.len()
        invariant
            i <= s.len(),
            p@.len() > 0,
            out@ + replace_all(s@.skip(i as int), p@, r@) == replace_all(s@, p@, r@),
        decreases s.len() - i,
    {
        let ghost rest = s@.skip(i as int);
        if matches_at(s, i, p) {
            let ghost out0 = out@;
            assert(rest.take(p@.len() as int) =~= p@);
            assert(rest.skip(p@.len() as int) =~= s@.skip(i + p@.len()));
            push_all(&mut out, r);
            i = i + p.len();
            assert(out@ + replace_all(s@.skip(i as int), p@, r@) =~= out0 + replace_all(rest, p@, r@));
        } else {
            if s.len() - i >= p.len() {
                assert(rest.take(p@.len() as int) != p@) by {
                    if rest.take(p@.len() as int) == p@ {
                        assert(s@.subrange(i as int, i + p@.len()) =~= rest.take(p@.len() as int));
                    }
                }
                assert(rest.drop_first() =~= s@.skip(i + 1));
                out.push(s[i]);
                i = i + 1;
            } else {
                assert(replace_all(rest, p@, r@) == rest);
                push_range(&mut out, s, i, s.len());
                assert(s@.subrange(i as int, s@.len() as int) =~= rest);
                i = s.len();
                assert(s@.skip(i as int) =~= Seq::<char>::empty());
                assert(replace_all(s@.skip(i as int), p@, r@) =~= Seq::<char>::empty());
            }
        }
    }
    assert(s@.skip(s@.len() as int) =~= Seq::<char>::empty());
    assert(out@ + Seq::<char>::empty() =~= out@);
    out
}

/// The views of a sequence of strings.
pub open spec fn string_views(v: Seq<String>) -> Seq<Seq<char>> {
    v.map_values(|x: String| x@)
}

/// The line that starts at `start`: its content ends at `r.0` (before any
/// `"\r\n"` or `'\n'`), and the next line starts at `r.1`.
pub fn line_at(s: &Vec<char>, start: usize) -> (r: (usize, usize))
    requires
        start < s.len(),
    ensures
        start <= r.0 <= r.1 <= s.len(),
        start < r.1,
        lines_from(s@, start as int) == seq![s@.subrange(start as int, r.0 as int)] + lines_from(
            s@,
            r.1 as int,
        ),
{
    let e = find_newline(s, start);
    proof {
        lemma_next_newline_bounds(s@, start as int);
    }
    if e >= s.len() {
        assert(lines_from(s@, s@.len() as int) =~= Seq::<Seq<char>>::empty());
        assert(lines_from(s@, start as int) =~= seq![s@.subrange(start as int, s@.len() as int)]);
        (s.len(), s.len())
    } else {
        let ce = if e > start && s[e - 1] == '\r' {
            e - 1
        } else {
            e
        };
        assert(strip_cr(s@.subrange(start as int, e as int)) =~= s@.subrange(
            start as int,
            ce as int,
        ));
        (ce, e + 1)
    }
}

/// Number of `c` in `s[from..to]`.
pub fn count_char_range(s: &Vec<char>, from: usize, to: usize, c: char) -> (n: usize)
    requires
        from <= to <= s.len(),
    ensures
        n == count_char(s@.subrange(from as int, to as int), c),
        n <= to - from,
{
    let mut n: usize = 0;
    let mut k = from;
    assert(s@.subrange(from as int, from as int) =~= Seq::<char>::empty());
    while k < to
        invariant
            from <= k <= to <= s.len(),
            n == count_char(s@.subrange(from as int, k as int), c),
            n <= k - from,
        decreases to - k,
    {
        assert(s@.subrange(from as int, (k + 1) as int).drop_last() =~= s@.subrange(
            from as int,
            k as int,
        ));
        if s[k] == c {
            n = n + 1;
        }
        k = k + 1;
    }
    n
}

/// Does `s[from..to]` start with `p`?
pub fn starts_at(s: &Vec<char>, from: usize, to: usize, p: &Vec<char>) -> (b: bool)
    requires
        from <= to <= s.len(),
    ensures
        b == starts_with(s@.subrange(from as int, to as int), p@),
{
    if p.len() > to - from {
        return false;
    }
    let b = matches_at(s, from, p);
    assert(s@.subrange(from as int, to as int).take(p@.len() as int) =~= s@.subrange(
        from as int,
        from + p@.len(),
    ));
    b
}

/// Does `p` occur anywhere in `s`?
pub fn contains_chars(s: &Vec<char>, p: &Vec<char>) -> (b: bool)
    ensures
        b == contains(s@, p@),
{
    let mut i: usize = 0;
    loop
        invariant
            i <= s.len(),
            forall|j: int| 0 <= j < i ==> !occurs_at(s@, p@, j),
        decreases s.len() - i,
    {
        if matches_at(s, i, p) {
            return true;
        }
        if i == s.len() {
            assert forall|j: int| !occurs_at(s@, p@, j) by {
                if occurs_at(s@, p@, j) {
                    assert(j <= s@.len());
                }
            }
            return false;
        }
        i = i + 1;
    }
}

/// `s` with the first occurrence of `p` replaced by `r`.
pub fn replace_first_exec(s: &Vec<char>, p: &Vec<char>, r: &Vec<char>) -> (out: Vec<char>)
    requires
        p.len() > 0,
    ensures
        out@ == replace_first(s@, p@, r@),
{
    let mut out: Vec<char> = Vec::new();
    let mut i: usize = 0;
    assert(s@.skip(0) =~= s@);
    while i < s.len()
        invariant
            i <= s.len(),
            p@.len() > 0,
            out@ + replace_first(s@.skip(i as int), p@, r@) == replace_first(s@, p@, r@),
        decreases s.len() - i,
    {
        let ghost rest = s@.skip(i as int);
        if matches_at(s, i, p) {
            let ghost out0 = out@;
            assert(rest.take(p@.len() as int) =~= p@);
            assert(rest.skip(p@.len() as int) =~= s@.subrange(i + p@.len(), s@.len() as int));
            push_all(&mut out, r);
            push_range(&mut out, s, i + p.len(), s.len());
            assert(out@ =~= out0 + replace_first(rest, p@, r@));
            assert(s@.skip(s@.len() as int) =~= Seq::<char>::empty());
            assert(replace_first(s@.skip(s@.len() as int), p@, r@) =~= Seq::<char>::empty());
            assert(out@ + replace_first(s@.skip(s@.len() as int), p@, r@) =~= out@);
            return out;
        } else {
            if s.len() - i >= p.len() {
                assert(rest.take(p@.len() as int) != p@) by {
                    if rest.take(p@.len() as int) == p@ {
                        assert(s@.subrange(i as int, i + p@.len()) =~= rest.take(p@.len() as int));
                    }
                }
                assert(rest.drop_first() =~= s@.skip(i + 1));
                out.push(s[i]);
                i = i + 1;
            } else {
                assert(replace_first(rest, p@, r@) == rest);
                push_range(&mut out, s, i, s.len());
                assert(s@.subrange(i as int, s@.len() as int) =~= rest);
                i = s.len();
                assert(s@.skip(i as int) =~= Seq::<char>::empty());
                assert(replace_first(s@.skip(i as int), p@, r@) =~= Seq::<char>::empty());
            }
        }
    }
    assert(s@.skip(s@.len() as int) =~= Seq::<char>::empty());
    assert(out@ + Seq::<char>::empty() =~= out@);
    out
}

/// Do `a` and `b` hold the same characters?
pub fn eq_chars(a: &Vec<char>, b: &Vec<char>) -> (r: bool)
    ensures
        r == (a@ == b@),
{
    if a.len() != b.len() {
        return false;
    }
    let mut i: usize = 0;
    while i < a.len()
        invariant
            a.len() == b.len(),
            i <= a.len(),
            forall|j: int| 0 <= j < i ==> a@[j] == b@[j],
        decreases a.len() - i,
    {
        if a[i] != b[i] {
            return false;
        }
        i = i + 1;
    }
    assert(a@ =~= b@);
    true
}

} // verus!
