//! Why restoring math after rendering is exact: each placeholder is replaced
//! by its own span and by nothing else, and the text around the spans is
//! left alone, as long as that text never carries the placeholders' marker
//! `MATH0`.
use vstd::prelude::*;
use crate::math::{
    bracket_close, dd, dollar_scan, escape_math, escape_math_char, find_close, inline_dollar_close,
    interleave, law_stash_decomposes, math_end_at, paren_close, placeholder, placeholders,
    restore_spec, scan_from, scan_start, scan_step, stash_spec, Scan,
};
use crate::text::{
    decimal, digit_char, lemma_decimal_nonempty, lemma_replace_after, lemma_replace_front, occurs_at,
    replace_all,
};

verus! {

/// `MATH0`: every placeholder carries it at offset 4.
pub open spec fn marker() -> Seq<char> {
    seq!['M', 'A', 'T', 'H', '0']
}

/// `x` never contains the marker.
pub open spec fn marker_free(x: Seq<char>) -> bool {
    forall|q: int| !#[trigger] occurs_at(x, marker(), q)
}

// ---------------------------------------------------------------------------
// Placeholders
// ---------------------------------------------------------------------------
proof fn lemma_placeholder_chars(x: nat)
    ensures
        placeholder(x).len() == 13 + decimal(x).len(),
        placeholder(x).len() >= 14,
        placeholder(x)[0] == 'M',
        placeholder(x)[1] == 'D',
        placeholder(x)[2] == 'V',
        placeholder(x)[3] == '0',
        placeholder(x)[4] == 'M',
        placeholder(x)[5] == 'A',
        placeholder(x)[6] == 'T',
        placeholder(x)[7] == 'H',
        placeholder(x)[8] == '0',
        placeholder(x)[placeholder(x).len() - 4] == '0',
        placeholder(x)[placeholder(x).len() - 3] == 'M',
        placeholder(x)[placeholder(x).len() - 2] == 'D',
        placeholder(x)[placeholder(x).len() - 1] == 'V',
        forall|o: int|
            9 <= o < placeholder(x).len() - 4 ==> '0' <= #[trigger] placeholder(x)[o] <= '9'
                && placeholder(x)[o] == decimal(x)[o - 9],
{
    lemma_decimal_nonempty(x);
    let d = decimal(x);
    let head = seq!['M', 'D', 'V', '0', 'M', 'A', 'T', 'H', '0'];
    let tail = seq!['0', 'M', 'D', 'V'];
    let p = placeholder(x);
    assert(p == head + d + tail);
    assert forall|o: int| 9 <= o < p.len() - 4 implies '0' <= #[trigger] p[o] <= '9' && p[o] == d[o
        - 9] by {
        assert(p[o] == (head + d)[o]);
        assert((head + d)[o] == d[o - 9]);
    }
}

proof fn lemma_digit_injective(a: nat, b: nat)
    requires
        a < 10,
        b < 10,
        digit_char(a) == digit_char(b),
    ensures
        a == b,
{
    assert(digit_char(a) as int == a + 48);
    assert(digit_char(b) as int == b + 48);
}

proof fn lemma_decimal_len(n: nat)
    ensures
        n < 10 ==> decimal(n) == seq![digit_char(n)],
        n >= 10 ==> decimal(n) == decimal(n / 10).push(digit_char(n % 10)),
        n < 10 <==> decimal(n).len() == 1,
{
    lemma_decimal_nonempty(n / 10);
}

proof fn lemma_decimal_injective(a: nat, b: nat)
    requires
        decimal(a) == decimal(b),
    ensures
        a == b,
    decreases a,
{
    lemma_decimal_len(a);
    lemma_decimal_len(b);
    if a < 10 && b < 10 {
        assert(seq![digit_char(a)][0] == digit_char(a));
        assert(seq![digit_char(b)][0] == digit_char(b));
        lemma_digit_injective(a, b);
    } else if a >= 10 && b >= 10 {
        assert(decimal(a).drop_last() =~= decimal(a / 10));
        assert(decimal(b).drop_last() =~= decimal(b / 10));
        assert(decimal(a).last() == digit_char(a % 10));
        assert(decimal(b).last() == digit_char(b % 10));
        lemma_digit_injective(a % 10, b % 10);
        lemma_decimal_injective(a / 10, b / 10);
    }
}

/// The occurrence of `placeholder(k)` carries the marker four places on.
proof fn lemma_occurrence_marker(z: Seq<char>, k: nat, i: int)
    requires
        occurs_at(z, placeholder(k), i),
    ensures
        occurs_at(z, marker(), i + 4),
        forall|o: int| 0 <= o < placeholder(k).len() ==> z[i + o] == #[trigger] placeholder(k)[o],
{
    lemma_placeholder_chars(k);
    let p = placeholder(k);
    assert forall|o: int| 0 <= o < p.len() implies z[i + o] == #[trigger] p[o] by {
        assert(z.subrange(i, i + p.len())[o] == z[i + o]);
    }
    assert(z.subrange(i + 4, i + 9) =~= marker());
}

/// A placeholder never occurs where another one starts.
proof fn lemma_placeholder_not_at_other(j: nat, k: nat, w: Seq<char>)
    requires
        j != k,
    ensures
        !occurs_at(placeholder(j) + w, placeholder(k), 0),
{
    lemma_placeholder_chars(j);
    lemma_placeholder_chars(k);
    let z = placeholder(j) + w;
    let pj = placeholder(j);
    let pk = placeholder(k);
    let lj = decimal(j).len() as int;
    let lk = decimal(k).len() as int;
    if occurs_at(z, pk, 0) {
        lemma_occurrence_marker(z, k, 0);
        if lk == lj {
            assert forall|o: int| 0 <= o < lk implies #[trigger] decimal(k)[o] == decimal(j)[o] by {
                assert(pk[9 + o] == decimal(k)[o]);
                assert(z[0 + (9 + o)] == pk[9 + o]);
                assert(z[9 + o] == pj[9 + o]);
                assert(pj[9 + o] == decimal(j)[o]);
            }
            assert(decimal(k) =~= decimal(j));
            lemma_decimal_injective(k, j);
        } else if lk < lj {
            let o = 9 + lk + 1;
            assert(pk[o] == 'M');
            assert(z[0 + o] == pk[o]);
            assert(z[o] == pj[o]);
            if o < pj.len() - 4 {
                assert('0' <= pj[o] <= '9');
            } else {
                assert(pj[o] == '0');
            }
        } else {
            let o = 9 + lj + 1;
            assert(z[o] == pj[o]);
            assert(pj[o] == 'M');
            assert(z[0 + o] == pk[o]);
            if o < pk.len() - 4 {
                assert('0' <= pk[o] <= '9');
            } else {
                assert(pk[o] == '0');
            }
        }
    }
}

// ---------------------------------------------------------------------------
// Texts and slots
// ---------------------------------------------------------------------------
/// Texts and slots joined front to back: `t0 s0 t1 s1 .. tn`.
pub open spec fn assemble(t: Seq<Seq<char>>, s: Seq<Seq<char>>) -> Seq<char>
    decreases s.len(),
{
    if s.len() == 0 {
        if t.len() > 0 {
            t[0]
        } else {
            seq![]
        }
    } else {
        t[0] + s[0] + assemble(t.drop_first(), s.drop_first())
    }
}

/// A math span as the stash cuts it: it opens with `$` or `\`, closes with
/// `$`, `)` or `]`, and never holds the marker.
pub open spec fn span_shaped(m: Seq<char>) -> bool {
    &&& m.len() >= 2
    &&& m[0] == '$' || m[0] == '\\'
    &&& m.last() == '$' || m.last() == ')' || m.last() == ']'
    &&& marker_free(m)
}

pub open spec fn is_placeholder(x: Seq<char>) -> bool {
    exists|j: nat| #[trigger] placeholder(j) == x
}

/// What stands between two texts: a span or a placeholder.
pub open spec fn slot_ok(x: Seq<char>) -> bool {
    span_shaped(x) || is_placeholder(x)
}

/// Marker-free texts around well-formed slots, one more text than slots.
pub open spec fn pieces_ok(t: Seq<Seq<char>>, s: Seq<Seq<char>>) -> bool {
    &&& t.len() == s.len() + 1
    &&& forall|i: int| 0 <= i < t.len() ==> marker_free(#[trigger] t[i])
    &&& forall|j: int| 0 <= j < s.len() ==> slot_ok(#[trigger] s[j])
}

proof fn lemma_pieces_rest(t: Seq<Seq<char>>, s: Seq<Seq<char>>)
    requires
        pieces_ok(t, s),
        s.len() > 0,
    ensures
        pieces_ok(t.drop_first(), s.drop_first()),
        marker_free(t[0]),
        slot_ok(s[0]),
        assemble(t, s) == t[0] + s[0] + assemble(t.drop_first(), s.drop_first()),
{
    assert forall|i: int| 0 <= i < t.len() - 1 implies marker_free(#[trigger] t.drop_first()[i]) by {
        assert(t.drop_first()[i] == t[i + 1]);
    }
    assert forall|j: int| 0 <= j < s.len() - 1 implies slot_ok(#[trigger] s.drop_first()[j]) by {
        assert(s.drop_first()[j] == s[j + 1]);
    }
}

/// The characters of an occurrence of the marker.
proof fn lemma_marker_chars(z: Seq<char>, q: int)
    requires
        occurs_at(z, marker(), q),
    ensures
        z[q] == 'M',
        z[q + 1] == 'A',
        z[q + 2] == 'T',
        z[q + 3] == 'H',
        z[q + 4] == '0',
{
    assert(z.subrange(q, q + 5)[0] == z[q]);
    assert(z.subrange(q, q + 5)[1] == z[q + 1]);
    assert(z.subrange(q, q + 5)[2] == z[q + 2]);
    assert(z.subrange(q, q + 5)[3] == z[q + 3]);
    assert(z.subrange(q, q + 5)[4] == z[q + 4]);
}

/// A marker inside `x` at `q` is a marker inside `a + x + b`, and back.
proof fn lemma_marker_within(a: Seq<char>, x: Seq<char>, b: Seq<char>, q: int)
    requires
        0 <= q,
        q + 5 <= x.len(),
    ensures
        occurs_at(a + x + b, marker(), a.len() + q) == occurs_at(x, marker(), q),
{
    assert((a + x + b).subrange(a.len() + q, a.len() + q + 5) =~= x.subrange(q, q + 5));
}

/// In an assembled string the marker only ever shows inside a placeholder,
/// at least four characters after the first text.
proof fn lemma_marker_late(t: Seq<Seq<char>>, s: Seq<Seq<char>>, q: int)
    requires
        pieces_ok(t, s),
        occurs_at(assemble(t, s), marker(), q),
    ensures
        q >= t[0].len() + 4,
    decreases s.len(),
{
    let z = assemble(t, s);
    let t0 = t[0];
    lemma_marker_chars(z, q);
    if s.len() == 0 {
        assert(z == t0);
        assert(!occurs_at(t0, marker(), q));
    } else {
        lemma_pieces_rest(t, s);
        let s0 = s[0];
        let w = assemble(t.drop_first(), s.drop_first());
        let n0 = t0.len() as int;
        let n1 = n0 + s0.len();
        if q + 5 <= n0 {
            lemma_marker_within(seq![], t0, s0 + w, q);
            assert(seq![] + t0 + (s0 + w) =~= z);
            assert(!occurs_at(t0, marker(), q));
        } else if q < n0 {
            assert(z[n0] == s0[0]);
            if span_shaped(s0) {
            } else {
                let j = choose|j: nat| #[trigger] placeholder(j) == s0;
                lemma_placeholder_chars(j);
            }
        } else if q < n1 {
            if span_shaped(s0) {
                if q + 5 <= n1 {
                    lemma_marker_within(t0, s0, w, q - n0);
                    assert(t0 + s0 + w =~= z);
                    assert(!occurs_at(s0, marker(), q - n0));
                } else {
                    assert(z[n1 - 1] == s0.last());
                }
            } else {
                let j = choose|j: nat| #[trigger] placeholder(j) == s0;
                lemma_placeholder_chars(j);
                if q - n0 < 4 {
                    assert(z[q] == s0[q - n0]);
                    if q - n0 == 0 {
                        assert(z[q + 1] == s0[1]);
                    }
                }
            }
        } else {
            let q1 = q - n1;
            assert(z.subrange(q, q + 5) =~= w.subrange(q1, q1 + 5));
            lemma_marker_late(t.drop_first(), s.drop_first(), q1);
        }
    }
}

/// No placeholder starts inside the text before the first slot.
proof fn lemma_no_start_in_text(t0: Seq<char>, s0: Seq<char>, w: Seq<char>, k: nat, i: int)
    requires
        marker_free(t0),
        slot_ok(s0),
        0 <= i < t0.len(),
    ensures
        !occurs_at(t0 + s0 + w, placeholder(k), i),
{
    let z = t0 + s0 + w;
    let pk = placeholder(k);
    let n0 = t0.len() as int;
    if occurs_at(z, pk, i) {
        lemma_occurrence_marker(z, k, i);
        lemma_placeholder_chars(k);
        lemma_marker_chars(z, i + 4);
        let q = i + 4;
        assert(z[n0] == s0[0]);
        if q + 5 <= n0 {
            lemma_marker_within(seq![], t0, s0 + w, q);
            assert(seq![] + t0 + (s0 + w) =~= z);
            assert(!occurs_at(t0, marker(), q));
        } else if q < n0 {
            if span_shaped(s0) {
            } else {
                let j = choose|j: nat| #[trigger] placeholder(j) == s0;
                lemma_placeholder_chars(j);
            }
        } else {
            let d = n0 - i;
            assert(z[i + d] == pk[d]);
            if span_shaped(s0) {
            } else {
                let j = choose|j: nat| #[trigger] placeholder(j) == s0;
                lemma_placeholder_chars(j);
                assert(z[n0 + 1] == s0[1]);
                assert(z[i + (d + 1)] == pk[d + 1]);
            }
        }
    }
}

/// No placeholder starts inside a slot, except the slot itself at its start.
proof fn lemma_no_start_in_slot(
    s0: Seq<char>,
    t: Seq<Seq<char>>,
    s: Seq<Seq<char>>,
    k: nat,
    i: int,
)
    requires
        slot_ok(s0),
        s0 != placeholder(k) || 0 < i,
        pieces_ok(t, s),
        0 <= i < s0.len(),
    ensures
        !occurs_at(s0 + assemble(t, s), placeholder(k), i),
{
    let w = assemble(t, s);
    let z = s0 + w;
    let pk = placeholder(k);
    let n = s0.len() as int;
    if occurs_at(z, pk, i) {
        lemma_occurrence_marker(z, k, i);
        lemma_placeholder_chars(k);
        let q = i + 4;
        lemma_marker_chars(z, q);
        if span_shaped(s0) {
            if q + 5 <= n {
                lemma_marker_within(seq![], s0, w, q);
                assert(seq![] + s0 + w =~= z);
                assert(!occurs_at(s0, marker(), q));
            } else if q < n {
                assert(z[n - 1] == s0.last());
            } else {
                assert(z[n - 1] == s0.last());
                assert(z[i + (n - 1 - i)] == pk[n - 1 - i]);
            }
        } else {
            let j = choose|j: nat| #[trigger] placeholder(j) == s0;
            lemma_placeholder_chars(j);
            if i == 0 {
                assert(j != k);
                lemma_placeholder_not_at_other(j, k, w);
            } else {
                assert(z[i] == s0[i]);
                assert(z[i + 0] == pk[0]);
                if i == 4 {
                    assert(z[5] == s0[5]);
                    assert(z[i + 1] == pk[1]);
                } else if i == n - 3 {
                    assert(z.subrange(q, q + 5) =~= w.subrange(1, 6));
                    lemma_marker_late(t, s, 1);
                } else if 9 <= i < n - 4 {
                    assert('0' <= s0[i] <= '9');
                }
            }
        }
    }
}

/// Each slot equal to `placeholder(k)` becomes `e`.
pub open spec fn fill(s: Seq<Seq<char>>, k: nat, e: Seq<char>) -> Seq<Seq<char>> {
    s.map_values(|x: Seq<char>| if x == placeholder(k) { e } else { x })
}

/// Replacing `placeholder(k)` in an assembled string replaces exactly the
/// slots that are that placeholder.
proof fn lemma_replace_slots(t: Seq<Seq<char>>, s: Seq<Seq<char>>, k: nat, e: Seq<char>)
    requires
        pieces_ok(t, s),
    ensures
        replace_all(assemble(t, s), placeholder(k), e) == assemble(t, fill(s, k, e)),
    decreases s.len(),
{
    let p = placeholder(k);
    lemma_placeholder_chars(k);
    let z = assemble(t, s);
    if s.len() == 0 {
        assert(z == t[0]);
        assert forall|i: int| 0 <= i < z.len() implies !#[trigger] occurs_at(z, p, i) by {
            if occurs_at(z, p, i) {
                lemma_occurrence_marker(z, k, i);
                assert(!occurs_at(t[0], marker(), i + 4));
            }
        }
        lemma_replace_after(z, p, e, z.len() as int);
        assert(z.skip(z.len() as int) =~= Seq::<char>::empty());
        assert(replace_all(Seq::<char>::empty(), p, e) == Seq::<char>::empty());
        assert(z.take(z.len() as int) + Seq::<char>::empty() =~= z);
    } else {
        lemma_pieces_rest(t, s);
        let t0 = t[0];
        let s0 = s[0];
        let t1 = t.drop_first();
        let s1 = s.drop_first();
        let w = assemble(t1, s1);
        assert forall|i: int| 0 <= i < t0.len() implies !#[trigger] occurs_at(z, p, i) by {
            lemma_no_start_in_text(t0, s0, w, k, i);
        }
        lemma_replace_after(z, p, e, t0.len() as int);
        assert(z.take(t0.len() as int) =~= t0);
        assert(z.skip(t0.len() as int) =~= s0 + w);
        lemma_replace_slots(t1, s1, k, e);
        let f = fill(s, k, e);
        assert(f.drop_first() =~= fill(s1, k, e));
        assert(assemble(t, f) == t0 + f[0] + assemble(t1, f.drop_first()));
        if s0 == p {
            lemma_replace_front(p, w, e);
            assert(f[0] == e);
        } else {
            let y = s0 + w;
            assert forall|i: int| 0 <= i < s0.len() implies !#[trigger] occurs_at(y, p, i) by {
                lemma_no_start_in_slot(s0, t1, s1, k, i);
            }
            lemma_replace_after(y, p, e, s0.len() as int);
            assert(y.take(s0.len() as int) =~= s0);
            assert(y.skip(s0.len() as int) =~= w);
            assert(f[0] == s0);
        }
        assert(t0 + (f[0] + assemble(t1, fill(s1, k, e))) =~= t0 + f[0] + assemble(t1, fill(s1, k, e)));
    }
}

proof fn lemma_assemble_back(t: Seq<Seq<char>>, s: Seq<Seq<char>>)
    requires
        t.len() == s.len() + 1,
        s.len() > 0,
    ensures
        assemble(t, s) == assemble(t.drop_last(), s.drop_last()) + s.last() + t.last(),
    decreases s.len(),
{
    let t1 = t.drop_first();
    let s1 = s.drop_first();
    assert(assemble(t, s) == t[0] + s[0] + assemble(t1, s1));
    if s.len() == 1 {
        assert(s1.len() == 0);
        assert(assemble(t1, s1) == t1[0]);
        assert(t1[0] == t.last());
        assert(s.drop_last().len() == 0);
        assert(assemble(t.drop_last(), s.drop_last()) == t.drop_last()[0]);
        assert(t.drop_last()[0] == t[0]);
        assert(s.last() == s[0]);
        assert(t[0] + s[0] + t.last() =~= t[0] + s[0] + t.last());
    } else {
        lemma_assemble_back(t1, s1);
        let td = t.drop_last();
        let sd = s.drop_last();
        assert(t1.drop_last() =~= td.drop_first());
        assert(s1.drop_last() =~= sd.drop_first());
        assert(sd.len() > 0);
        assert(assemble(td, sd) == td[0] + sd[0] + assemble(td.drop_first(), sd.drop_first()));
        assert(td[0] == t[0]);
        assert(sd[0] == s[0]);
        assert(t1.last() == t.last());
        assert(s1.last() == s.last());
        let a = assemble(td.drop_first(), sd.drop_first());
        assert(assemble(t1.drop_last(), s1.drop_last()) == a);
        assert(t[0] + s[0] + (a + s.last() + t.last()) =~= (t[0] + s[0] + a) + s.last() + t.last());
    }
}

/// The two ways of joining texts and slots agree.
proof fn lemma_interleave_assemble(t: Seq<Seq<char>>, s: Seq<Seq<char>>)
    requires
        t.len() == s.len() + 1,
    ensures
        interleave(t, s) == assemble(t, s),
    decreases s.len(),
{
    if s.len() > 0 {
        lemma_interleave_assemble(t.drop_last(), s.drop_last());
        lemma_assemble_back(t, s);
    }
}

// ---------------------------------------------------------------------------
// Escaping keeps a span's shape
// ---------------------------------------------------------------------------
pub open spec fn is_marker_char(c: char) -> bool {
    c == 'M' || c == 'A' || c == 'T' || c == 'H' || c == '0'
}

proof fn lemma_escape_len(m: Seq<char>)
    ensures
        escape_math(m).len() >= m.len(),
    decreases m.len(),
{
    if m.len() > 0 {
        lemma_escape_len(m.drop_last());
    }
}

proof fn lemma_escape_first(m: Seq<char>)
    requires
        m.len() > 0,
        m[0] != '&' && m[0] != '<' && m[0] != '>',
    ensures
        escape_math(m).len() > 0,
        escape_math(m)[0] == m[0],
    decreases m.len(),
{
    if m.len() == 1 {
        assert(escape_math(m.drop_last()) == Seq::<char>::empty());
        assert(escape_math(m) =~= seq![m[0]]);
    } else {
        assert(m.drop_last()[0] == m[0]);
        lemma_escape_first(m.drop_last());
    }
}

/// When the escaped text ends in marker characters, so does the text.
proof fn lemma_escape_suffix(x: Seq<char>, w: Seq<char>)
    requires
        forall|i: int| 0 <= i < w.len() ==> is_marker_char(#[trigger] w[i]),
        w.len() <= escape_math(x).len(),
        escape_math(x).skip(escape_math(x).len() - w.len()) == w,
    ensures
        w.len() <= x.len(),
        x.skip(x.len() - w.len()) == w,
    decreases w.len(),
{
    if w.len() == 0 {
        assert(x.skip(x.len() as int) =~= w);
    } else {
        let e = escape_math(x);
        assert(e[e.len() - 1] == w.last());
        if x.len() == 0 {
            assert(e.len() == 0);
        } else {
            let c = x.last();
            let ec = escape_math_char(c);
            let e1 = escape_math(x.drop_last());
            assert(e == e1 + ec);
            assert(is_marker_char(w.last()));
            if c == '&' || c == '<' || c == '>' {
                assert(e[e.len() - 1] == ';');
            } else {
                assert(ec == seq![c]);
                assert(c == w.last());
                assert(e1.skip(e1.len() - (w.len() - 1)) =~= w.drop_last()) by {
                    assert(e.skip(e.len() - w.len()).drop_last() =~= e1.skip(
                        e1.len() - (w.len() - 1),
                    ));
                }
                assert forall|i: int| 0 <= i < w.len() - 1 implies is_marker_char(
                    #[trigger] w.drop_last()[i],
                ) by {
                    assert(w.drop_last()[i] == w[i]);
                }
                lemma_escape_suffix(x.drop_last(), w.drop_last());
                assert(x.skip(x.len() - w.len()) =~= x.drop_last().skip(
                    x.drop_last().len() - (w.len() - 1),
                ).push(c));
                assert(w =~= w.drop_last().push(w.last()));
            }
        }
    }
}

/// Escaping cannot bring in the marker.
proof fn lemma_escape_marker_free(m: Seq<char>)
    requires
        marker_free(m),
    ensures
        marker_free(escape_math(m)),
    decreases m.len(),
{
    let e = escape_math(m);
    assert forall|q: int| !#[trigger] occurs_at(e, marker(), q) by {
        if occurs_at(e, marker(), q) {
            lemma_marker_chars(e, q);
            let m1 = m.drop_last();
            let e1 = escape_math(m1);
            assert(m.len() > 0);
            assert(e == e1 + escape_math_char(m.last()));
            assert(marker_free(m1)) by {
                assert forall|r: int| !#[trigger] occurs_at(m1, marker(), r) by {
                    if occurs_at(m1, marker(), r) {
                        assert(m.subrange(r, r + 5) =~= m1.subrange(r, r + 5));
                        assert(occurs_at(m, marker(), r));
                    }
                }
            }
            lemma_escape_marker_free(m1);
            if q + 5 <= e1.len() {
                assert(e1.subrange(q, q + 5) =~= e.subrange(q, q + 5));
                assert(occurs_at(e1, marker(), q));
            } else {
                let c = m.last();
                if c == '&' || c == '<' || c == '>' {
                    assert(e[q + 4] == escape_math_char(c)[q + 4 - e1.len()]);
                } else {
                    assert(q + 4 == e1.len());
                    let w = seq!['M', 'A', 'T', 'H'];
                    assert(e1.skip(e1.len() - 4) =~= w) by {
                        assert(e1.skip(e1.len() - 4) =~= e.subrange(q, q + 4));
                    }
                    lemma_escape_suffix(m1, w);
                    assert(c == '0');
                    assert(m.subrange(m.len() - 5, m.len() as int) =~= marker()) by {
                        assert(m.subrange(m.len() - 5, m.len() - 1) =~= m1.skip(m1.len() - 4));
                    }
                    assert(occurs_at(m, marker(), m.len() - 5));
                }
            }
        }
    }
}

proof fn lemma_escape_keeps_shape(m: Seq<char>)
    requires
        span_shaped(m),
    ensures
        span_shaped(escape_math(m)),
{
    lemma_escape_len(m);
    lemma_escape_first(m);
    lemma_escape_marker_free(m);
    let e = escape_math(m);
    assert(e == escape_math(m.drop_last()) + escape_math_char(m.last()));
    assert(escape_math_char(m.last()) == seq![m.last()]);
}

// ---------------------------------------------------------------------------
// Restoring, one placeholder at a time
// ---------------------------------------------------------------------------
proof fn lemma_placeholder_injective(j: nat, k: nat)
    requires
        placeholder(j) == placeholder(k),
    ensures
        j == k,
{
    if j != k {
        lemma_placeholder_not_at_other(j, k, seq![]);
        assert(placeholder(j) + Seq::<char>::empty() =~= placeholder(j));
        assert(placeholder(j).subrange(0, placeholder(k).len() as int) =~= placeholder(j));
    }
}

/// The first `k` spans restored, escaped; placeholders still stand for the rest.
pub open spec fn restored_slots(spans: Seq<Seq<char>>, k: int) -> Seq<Seq<char>> {
    Seq::new(
        spans.len(),
        |j: int|
            if j < k {
                escape_math(spans[j])
            } else {
                placeholder(j as nat)
            },
    )
}

proof fn lemma_restore_prefix(t: Seq<Seq<char>>, spans: Seq<Seq<char>>, k: int)
    requires
        t.len() == spans.len() + 1,
        forall|i: int| 0 <= i < t.len() ==> marker_free(#[trigger] t[i]),
        forall|j: int| 0 <= j < spans.len() ==> span_shaped(#[trigger] spans[j]),
        0 <= k <= spans.len(),
    ensures
        restore_spec(assemble(t, placeholders(spans.len())), spans.take(k)) == assemble(
            t,
            restored_slots(spans, k),
        ),
    decreases k,
{
    let n = spans.len();
    let h = assemble(t, placeholders(n));
    if k == 0 {
        assert(spans.take(0) =~= Seq::<Seq<char>>::empty());
        assert(restored_slots(spans, 0) =~= placeholders(n));
    } else {
        lemma_restore_prefix(t, spans, k - 1);
        let st = spans.take(k);
        assert(st.drop_last() =~= spans.take(k - 1));
        assert(st.last() == spans[k - 1]);
        let prev = restored_slots(spans, k - 1);
        let e = escape_math(spans[k - 1]);
        assert(pieces_ok(t, prev)) by {
            assert forall|j: int| 0 <= j < prev.len() implies slot_ok(#[trigger] prev[j]) by {
                if j < k - 1 {
                    lemma_escape_keeps_shape(spans[j]);
                } else {
                    assert(placeholder(j as nat) == prev[j]);
                }
            }
        }
        lemma_replace_slots(t, prev, (k - 1) as nat, e);
        assert(fill(prev, (k - 1) as nat, e) =~= restored_slots(spans, k)) by {
            assert forall|j: int| 0 <= j < n implies #[trigger] fill(prev, (k - 1) as nat, e)[j]
                == restored_slots(spans, k)[j] by {
                lemma_placeholder_chars((k - 1) as nat);
                if j < k - 1 {
                    lemma_escape_keeps_shape(spans[j]);
                    assert(prev[j] != placeholder((k - 1) as nat));
                } else if j > k - 1 {
                    if placeholder(j as nat) == placeholder((k - 1) as nat) {
                        lemma_placeholder_injective(j as nat, (k - 1) as nat);
                    }
                }
            }
        }
    }
}

/// Restoring puts every span back, escaped for HTML, exactly where its
/// placeholder stands, and changes nothing else, for texts that never carry
/// the marker `MATH0` and spans as the stash cuts them.
pub proof fn law_restore_fills_placeholders(texts: Seq<Seq<char>>, spans: Seq<Seq<char>>)
    requires
        texts.len() == spans.len() + 1,
        forall|i: int| 0 <= i < texts.len() ==> marker_free(#[trigger] texts[i]),
        forall|j: int| 0 <= j < spans.len() ==> span_shaped(#[trigger] spans[j]),
    ensures
        restore_spec(interleave(texts, placeholders(spans.len())), spans) == interleave(
            texts,
            spans.map_values(|m: Seq<char>| escape_math(m)),
        ),
{
    let n = spans.len();
    lemma_restore_prefix(texts, spans, n as int);
    assert(spans.take(n as int) =~= spans);
    assert(restored_slots(spans, n as int) =~= spans.map_values(|m: Seq<char>| escape_math(m)));
    lemma_interleave_assemble(texts, placeholders(n));
    lemma_interleave_assemble(texts, spans.map_values(|m: Seq<char>| escape_math(m)));
}

// ---------------------------------------------------------------------------
// What the stash cuts
// ---------------------------------------------------------------------------
/// Opens with `$` or `\\`, closes with `$`, `)` or `]`.
pub open spec fn delimited(m: Seq<char>) -> bool {
    &&& m.len() >= 2
    &&& m[0] == '$' || m[0] == '\\'
    &&& m.last() == '$' || m.last() == ')' || m.last() == ']'
}

proof fn lemma_find_close_found(s: Seq<char>, j: int, d: Seq<char>)
    ensures
        find_close(s, j, d) matches Some(c) ==> j <= c && occurs_at(s, d, c),
    decreases s.len() - j,
{
    if j >= 0 && d.len() > 0 && j + d.len() <= s.len() && !occurs_at(s, d, j) {
        lemma_find_close_found(s, j + 1, d);
    }
}

proof fn lemma_dollar_scan_found(s: Seq<char>, j: int)
    ensures
        dollar_scan(s, j) matches Some(c) ==> j <= c < s.len() && s[c] == '$',
    decreases s.len() - j,
{
    if 1 <= j < s.len() && s[j] != '\n' {
        if s[j] == '$' {
            lemma_dollar_scan_found(s, j + 1);
        } else if s[j] == '\\' {
            if j + 2 <= s.len() {
                lemma_dollar_scan_found(s, j + 2);
            }
        } else {
            lemma_dollar_scan_found(s, j + 1);
        }
    }
}

proof fn lemma_math_end_shape(s: Seq<char>, i: int)
    requires
        0 <= i < s.len(),
        math_end_at(s, i) is Some,
    ensures
        i + 2 <= math_end_at(s, i)->0 <= s.len(),
        delimited(s.subrange(i, math_end_at(s, i)->0)),
{
    let e = math_end_at(s, i)->0;
    lemma_find_close_found(s, i + 2, dd());
    lemma_find_close_found(s, i + 2, bracket_close());
    lemma_find_close_found(s, i + 2, paren_close());
    lemma_dollar_scan_found(s, i + 1);
    if i + 1 < s.len() && s[i] == '$' && s[i + 1] == '$' && find_close(s, i + 2, dd()) is Some {
        let c = find_close(s, i + 2, dd())->0;
        assert(s.subrange(c, c + 2)[1] == s[c + 1]);
    } else if i + 1 < s.len() && s[i] == '\\' && s[i + 1] == '[' && find_close(
        s,
        i + 2,
        bracket_close(),
    ) is Some {
        let c = find_close(s, i + 2, bracket_close())->0;
        assert(s.subrange(c, c + 2)[1] == s[c + 1]);
    } else if i + 1 < s.len() && s[i] == '\\' && s[i + 1] == '(' && find_close(
        s,
        i + 2,
        paren_close(),
    ) is Some {
        let c = find_close(s, i + 2, paren_close())->0;
        assert(s.subrange(c, c + 2)[1] == s[c + 1]);
    } else {
        let c = inline_dollar_close(s, i + 1)->0;
        assert(s[c] == '$');
    }
    let m = s.subrange(i, e);
    assert(m[0] == s[i]);
    assert(m.last() == s[e - 1]);
}

proof fn lemma_step_spans(s: Seq<char>, st: Scan)
    requires
        0 <= st.i < s.len(),
        forall|j: int| 0 <= j < st.store.len() ==> delimited(#[trigger] st.store[j]),
    ensures
        forall|j: int|
            0 <= j < scan_step(s, st).store.len() ==> delimited(#[trigger] scan_step(s, st).store[j]),
{
    let i = st.i;
    let nx = scan_step(s, st);
    if !(st.line_start && crate::math::fence_at(s, i) is Some) && st.fence is None && s[i] != '`'
        && math_end_at(s, i) is Some {
        let e = math_end_at(s, i)->0;
        lemma_math_end_shape(s, i);
        assert(nx.store == st.store.push(s.subrange(i, e)));
    } else {
        assert(nx.store == st.store);
    }
}

proof fn lemma_scan_spans(s: Seq<char>, st: Scan)
    requires
        forall|j: int| 0 <= j < st.store.len() ==> delimited(#[trigger] st.store[j]),
    ensures
        forall|j: int|
            0 <= j < scan_from(s, st).store.len() ==> delimited(#[trigger] scan_from(s, st).store[j]),
    decreases s.len() - st.i,
{
    if !(st.i < 0 || st.i >= s.len()) {
        let nx = scan_step(s, st);
        if !(nx.i <= st.i || nx.i > s.len()) {
            lemma_step_spans(s, st);
            lemma_scan_spans(s, nx);
        }
    }
}

proof fn lemma_pieces_marker_free(t: Seq<Seq<char>>, s: Seq<Seq<char>>)
    requires
        t.len() == s.len() + 1,
        marker_free(assemble(t, s)),
    ensures
        forall|i: int| 0 <= i < t.len() ==> marker_free(#[trigger] t[i]),
        forall|j: int| 0 <= j < s.len() ==> marker_free(#[trigger] s[j]),
    decreases s.len(),
{
    let z = assemble(t, s);
    if s.len() == 0 {
        assert(z == t[0]);
    } else {
        let t0 = t[0];
        let s0 = s[0];
        let w = assemble(t.drop_first(), s.drop_first());
        assert(z == t0 + s0 + w);
        assert forall|q: int| !#[trigger] occurs_at(t0, marker(), q) by {
            if occurs_at(t0, marker(), q) {
                lemma_marker_within(seq![], t0, s0 + w, q);
                assert(seq![] + t0 + (s0 + w) =~= z);
            }
        }
        assert forall|q: int| !#[trigger] occurs_at(s0, marker(), q) by {
            if occurs_at(s0, marker(), q) {
                lemma_marker_within(t0, s0, w, q);
            }
        }
        assert forall|q: int| !#[trigger] occurs_at(w, marker(), q) by {
            if occurs_at(w, marker(), q) {
                lemma_marker_within(t0 + s0, w, seq![], q);
                assert(t0 + s0 + w + Seq::<char>::empty() =~= z);
            }
        }
        lemma_pieces_marker_free(t.drop_first(), s.drop_first());
        assert forall|i: int| 0 <= i < t.len() implies marker_free(#[trigger] t[i]) by {
            if i > 0 {
                assert(t[i] == t.drop_first()[i - 1]);
            }
        }
        assert forall|j: int| 0 <= j < s.len() implies marker_free(#[trigger] s[j]) by {
            if j > 0 {
                assert(s[j] == s.drop_first()[j - 1]);
            }
        }
    }
}

/// Restoring what the stash produced gives the source back, with only the
/// math spans escaped for HTML, when the source never holds the marker
/// `MATH0`.
pub proof fn law_restore_undoes_stash(s: Seq<char>)
    requires
        marker_free(s),
    ensures
        ({
            let fin = scan_from(s, scan_start());
            let texts = fin.texts.push(fin.cur);
            let spans = stash_spec(s).1;
            &&& s == interleave(texts, spans)
            &&& restore_spec(stash_spec(s).0, spans) == interleave(
                texts,
                spans.map_values(|m: Seq<char>| escape_math(m)),
            )
        }),
{
    law_stash_decomposes(s);
    let fin = scan_from(s, scan_start());
    let texts = fin.texts.push(fin.cur);
    let spans = stash_spec(s).1;
    lemma_interleave_assemble(texts, spans);
    lemma_pieces_marker_free(texts, spans);
    lemma_scan_spans(s, scan_start());
    assert forall|j: int| 0 <= j < spans.len() implies span_shaped(#[trigger] spans[j]) by {
        assert(delimited(fin.store[j]));
    }
    law_restore_fills_placeholders(texts, spans);
}

// ---------------------------------------------------------------------------
// Restoring without escaping, and where the placeholders stand
// ---------------------------------------------------------------------------
/// Placeholders `0..store.len()` replaced, in index order, by their spans
/// as they were cut.
pub open spec fn restore_raw_spec(html: Seq<char>, store: Seq<Seq<char>>) -> Seq<char>
    decreases store.len(),
{
    if store.len() == 0 {
        html
    } else {
        replace_all(
            restore_raw_spec(html, store.drop_last()),
            placeholder((store.len() - 1) as nat),
            store.last(),
        )
    }
}

pub open spec fn raw_slots(spans: Seq<Seq<char>>, k: int) -> Seq<Seq<char>> {
    Seq::new(spans.len(), |j: int| if j < k { spans[j] } else { placeholder(j as nat) })
}

proof fn lemma_restore_raw_prefix(t: Seq<Seq<char>>, spans: Seq<Seq<char>>, k: int)
    requires
        t.len() == spans.len() + 1,
        forall|i: int| 0 <= i < t.len() ==> marker_free(#[trigger] t[i]),
        forall|j: int| 0 <= j < spans.len() ==> span_shaped(#[trigger] spans[j]),
        0 <= k <= spans.len(),
    ensures
        restore_raw_spec(assemble(t, placeholders(spans.len())), spans.take(k)) == assemble(
            t,
            raw_slots(spans, k),
        ),
    decreases k,
{
    let n = spans.len();
    if k == 0 {
        assert(spans.take(0) =~= Seq::<Seq<char>>::empty());
        assert(raw_slots(spans, 0) =~= placeholders(n));
    } else {
        lemma_restore_raw_prefix(t, spans, k - 1);
        let st = spans.take(k);
        assert(st.drop_last() =~= spans.take(k - 1));
        assert(st.last() == spans[k - 1]);
        let prev = raw_slots(spans, k - 1);
        let e = spans[k - 1];
        assert(pieces_ok(t, prev)) by {
            assert forall|j: int| 0 <= j < prev.len() implies slot_ok(#[trigger] prev[j]) by {
                if j >= k - 1 {
                    assert(placeholder(j as nat) == prev[j]);
                }
            }
        }
        lemma_replace_slots(t, prev, (k - 1) as nat, e);
        assert(fill(prev, (k - 1) as nat, e) =~= raw_slots(spans, k)) by {
            assert forall|j: int| 0 <= j < n implies #[trigger] fill(prev, (k - 1) as nat, e)[j]
                == raw_slots(spans, k)[j] by {
                lemma_placeholder_chars((k - 1) as nat);
                if j > k - 1 {
                    if placeholder(j as nat) == placeholder((k - 1) as nat) {
                        lemma_placeholder_injective(j as nat, (k - 1) as nat);
                    }
                }
            }
        }
    }
}

/// Putting each stashed span back as it was cut, in place of its
/// placeholder, gives the source back exactly, when the source never holds
/// the marker `MATH0`.
pub proof fn law_restore_raw_undoes_stash(s: Seq<char>)
    requires
        marker_free(s),
    ensures
        restore_raw_spec(stash_spec(s).0, stash_spec(s).1) == s,
{
    law_stash_decomposes(s);
    let fin = scan_from(s, scan_start());
    let texts = fin.texts.push(fin.cur);
    let spans = stash_spec(s).1;
    let n = spans.len();
    lemma_interleave_assemble(texts, spans);
    lemma_interleave_assemble(texts, placeholders(n));
    lemma_pieces_marker_free(texts, spans);
    lemma_scan_spans(s, scan_start());
    assert forall|j: int| 0 <= j < n implies span_shaped(#[trigger] spans[j]) by {
        assert(delimited(fin.store[j]));
    }
    lemma_restore_raw_prefix(texts, spans, n as int);
    assert(spans.take(n as int) =~= spans);
    assert(raw_slots(spans, n as int) =~= spans);
}

/// Where slot `j` starts in `assemble(t, s)`.
pub open spec fn slot_offset(t: Seq<Seq<char>>, s: Seq<Seq<char>>, j: int) -> int
    decreases j,
{
    if j <= 0 {
        t[0].len() as int
    } else {
        t[0].len() + s[0].len() + slot_offset(t.drop_first(), s.drop_first(), j - 1)
    }
}

proof fn lemma_shift(a: Seq<char>, y: Seq<char>, p: Seq<char>, q: int)
    requires
        0 <= q,
    ensures
        occurs_at(a + y, p, a.len() + q) == occurs_at(y, p, q),
{
    if q + p.len() <= y.len() {
        assert((a + y).subrange(a.len() + q, a.len() + q + p.len()) =~= y.subrange(q, q + p.len()));
    }
}

proof fn lemma_offset_unfold(t: Seq<Seq<char>>, s: Seq<Seq<char>>, j: int)
    requires
        0 < j,
    ensures
        slot_offset(t, s, j) == t[0].len() + s[0].len() + slot_offset(
            t.drop_first(),
            s.drop_first(),
            j - 1,
        ),
{
}

/// Every start of `placeholder(k)` in an assembled string is the start of
/// a slot that is `placeholder(k)`.
#[verifier::rlimit(60)]
proof fn lemma_occurrence_is_slot(t: Seq<Seq<char>>, s: Seq<Seq<char>>, k: nat, i: int)
    requires
        pieces_ok(t, s),
        occurs_at(assemble(t, s), placeholder(k), i),
    ensures
        exists|j: int|
            0 <= j < s.len() && s[j] == placeholder(k) && i == #[trigger] slot_offset(t, s, j),
    decreases s.len(),
{
    let z = assemble(t, s);
    let p = placeholder(k);
    lemma_placeholder_chars(k);
    if s.len() == 0 {
        lemma_occurrence_marker(z, k, i);
        assert(z == t[0]);
    } else {
        lemma_pieces_rest(t, s);
        let t0 = t[0];
        let s0 = s[0];
        let t1 = t.drop_first();
        let s1 = s.drop_first();
        let w = assemble(t1, s1);
        let n0 = t0.len() as int;
        let n1 = n0 + s0.len();
        assert(z =~= t0 + (s0 + w));
        if i < n0 {
            lemma_no_start_in_text(t0, s0, w, k, i);
        } else if i < n1 {
            if s0 == p && i == n0 {
                assert(slot_offset(t, s, 0) == i);
            } else {
                lemma_shift(t0, s0 + w, p, i - n0);
                lemma_no_start_in_slot(s0, t1, s1, k, i - n0);
            }
        } else {
            assert(z =~= (t0 + s0) + w);
            lemma_shift(t0 + s0, w, p, i - n1);
            lemma_occurrence_is_slot(t1, s1, k, i - n1);
            let j1 = choose|j1: int|
                0 <= j1 < s1.len() && s1[j1] == p && i - n1 == #[trigger] slot_offset(t1, s1, j1);
            assert(s[j1 + 1] == s1[j1]);
            lemma_offset_unfold(t, s, j1 + 1);
        }
    }
}

/// A slot that is `placeholder(k)` makes `placeholder(k)` occur at its start.
proof fn lemma_slot_is_occurrence(t: Seq<Seq<char>>, s: Seq<Seq<char>>, j: int)
    requires
        t.len() == s.len() + 1,
        0 <= j < s.len(),
    ensures
        occurs_at(assemble(t, s), s[j], slot_offset(t, s, j)),
    decreases j,
{
    let z = assemble(t, s);
    let t0 = t[0];
    let s0 = s[0];
    let t1 = t.drop_first();
    let s1 = s.drop_first();
    let w = assemble(t1, s1);
    let n0 = t0.len() as int;
    assert(z =~= t0 + s0 + w);
    if j == 0 {
        assert(z.subrange(n0, n0 + s0.len()) =~= s0);
    } else {
        let n1 = n0 + s0.len();
        assert(z =~= (t0 + s0) + w);
        lemma_slot_is_occurrence(t1, s1, j - 1);
        assert(s1[j - 1] == s[j]);
        lemma_offset_unfold(t, s, j);
        lemma_shift(t0 + s0, w, s[j], slot_offset(t1, s1, j - 1));
    }
}

proof fn lemma_offset_step(t: Seq<Seq<char>>, s: Seq<Seq<char>>, j: int)
    requires
        t.len() == s.len() + 1,
        0 <= j < s.len(),
    ensures
        slot_offset(t, s, j + 1) == slot_offset(t, s, j) + s[j].len() + t[j + 1].len(),
    decreases j,
{
    let t1 = t.drop_first();
    let s1 = s.drop_first();
    lemma_offset_unfold(t, s, j + 1);
    if j > 0 {
        lemma_offset_step(t1, s1, j - 1);
        lemma_offset_unfold(t, s, j);
        assert(t1[j] == t[j + 1]);
        assert(s1[j - 1] == s[j]);
    } else {
        assert(t1[0] == t[1]);
        assert(slot_offset(t1, s1, 0) == t1[0].len());
        assert(slot_offset(t, s, 0) == t[0].len());
    }
}

proof fn lemma_offsets_increase(t: Seq<Seq<char>>, n: nat, a: int, b: int)
    requires
        t.len() == n + 1,
        0 <= a < b < n,
    ensures
        slot_offset(t, placeholders(n), a) < slot_offset(t, placeholders(n), b),
    decreases b - a,
{
    lemma_offset_step(t, placeholders(n), b - 1);
    lemma_placeholder_chars((b - 1) as nat);
    if a < b - 1 {
        lemma_offsets_increase(t, n, a, b - 1);
    }
}

/// In the stashed source each placeholder `0..n` occurs exactly once, at
/// the place of its span, and they stand in index order; this holds when
/// the source never holds the marker `MATH0`.
pub proof fn law_placeholders_once_in_order(s: Seq<char>)
    requires
        marker_free(s),
    ensures
        ({
            let fin = scan_from(s, scan_start());
            let texts = fin.texts.push(fin.cur);
            let n = stash_spec(s).1.len();
            &&& forall|k: nat, i: int|
                k < n ==> (#[trigger] occurs_at(stash_spec(s).0, placeholder(k), i) <==> i
                    == slot_offset(texts, placeholders(n), k as int))
            &&& forall|a: int, b: int|
                0 <= a < b < n ==> #[trigger] slot_offset(texts, placeholders(n), a)
                    < #[trigger] slot_offset(texts, placeholders(n), b)
        }),
{
    law_stash_decomposes(s);
    let fin = scan_from(s, scan_start());
    let texts = fin.texts.push(fin.cur);
    let spans = stash_spec(s).1;
    let n = spans.len();
    let ps = placeholders(n);
    lemma_interleave_assemble(texts, spans);
    lemma_interleave_assemble(texts, ps);
    lemma_pieces_marker_free(texts, spans);
    assert(pieces_ok(texts, ps)) by {
        assert forall|j: int| 0 <= j < n implies slot_ok(#[trigger] ps[j]) by {
            assert(placeholder(j as nat) == ps[j]);
        }
    }
    assert forall|k: nat, i: int| k < n implies (#[trigger] occurs_at(
        stash_spec(s).0,
        placeholder(k),
        i,
    ) <==> i == slot_offset(texts, ps, k as int)) by {
        assert(ps[k as int] == placeholder(k));
        if occurs_at(stash_spec(s).0, placeholder(k), i) {
            lemma_occurrence_is_slot(texts, ps, k, i);
            let j = choose|j: int|
                0 <= j < n && ps[j] == placeholder(k) && i == #[trigger] slot_offset(texts, ps, j);
            lemma_placeholder_injective(j as nat, k);
        }
        if i == slot_offset(texts, ps, k as int) {
            lemma_slot_is_occurrence(texts, ps, k as int);
        }
    }
    assert forall|a: int, b: int| 0 <= a < b < n implies #[trigger] slot_offset(texts, ps, a)
        < #[trigger] slot_offset(texts, ps, b) by {
        lemma_offsets_increase(texts, n, a, b);
    }
}

} // verus!
