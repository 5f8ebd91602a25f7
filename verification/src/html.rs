//! HTML escaping of text that goes into markup.
use vstd::prelude::*;
use crate::text::{
    chars_of, lemma_replace_after, lemma_replace_front, occurs_at, push_all, replace_all, starts_with,
    string_of,
};

verus! {

/// The entity for each character that is special in HTML text or attribute
/// values; every other character stands for itself.
pub open spec fn escape_html_char(c: char) -> Seq<char> {
    if c == '&' {
        seq!['&', 'a', 'm', 'p', ';']
    } else if c == '<' {
        seq!['&', 'l', 't', ';']
    } else if c == '>' {
        seq!['&', 'g', 't', ';']
    } else if c == '"' {
        seq!['&', 'q', 'u', 'o', 't', ';']
    } else if c == '\'' {
        seq!['&', '#', '3', '9', ';']
    } else {
        seq![c]
    }
}

/// `s` with each character replaced by `escape_html_char`.
pub open spec fn escape_html(s: Seq<char>) -> Seq<char>
    decreases s.len(),
{
    if s.len() == 0 {
        seq![]
    } else {
        escape_html_char(s[0]) + escape_html(s.drop_first())
    }
}

/// Decoding of the five entities that `escape_html` produces.
pub open spec fn unescape_html(t: Seq<char>) -> Seq<char>
    decreases t.len(),
{
    if t.len() == 0 {
        seq![]
    } else if starts_with(t, seq!['&', 'a', 'm', 'p', ';']) {
        seq!['&'] + unescape_html(t.skip(5))
    } else if starts_with(t, seq!['&', 'l', 't', ';']) {
        seq!['<'] + unescape_html(t.skip(4))
    } else if starts_with(t, seq!['&', 'g', 't', ';']) {
        seq!['>'] + unescape_html(t.skip(4))
    } else if starts_with(t, seq!['&', 'q', 'u', 'o', 't', ';']) {
        seq!['"'] + unescape_html(t.skip(6))
    } else if starts_with(t, seq!['&', '#', '3', '9', ';']) {
        seq!['\''] + unescape_html(t.skip(5))
    } else {
        seq![t[0]] + unescape_html(t.drop_first())
    }
}

/// The characters that can open, close or quote markup. `&` is not among
/// them: escaped text keeps it, as the first character of each entity.
pub open spec fn is_html_special(c: char) -> bool {
    c == '<' || c == '>' || c == '"' || c == '\''
}

pub proof fn lemma_escape_html_push(s: Seq<char>, c: char)
    ensures
        escape_html(s.push(c)) == escape_html(s) + escape_html_char(c),
    decreases s.len(),
{
    if s.len() == 0 {
        assert(s.push(c).drop_first() =~= Seq::<char>::empty());
        assert(s.push(c)[0] == c);
        assert(escape_html(Seq::<char>::empty()) =~= Seq::<char>::empty());
        assert(escape_html(s) =~= Seq::<char>::empty());
        assert(escape_html(s.push(c)) =~= escape_html_char(c) + escape_html(Seq::<char>::empty()));
    } else {
        assert(s.push(c).drop_first() =~= s.drop_first().push(c));
        lemma_escape_html_push(s.drop_first(), c);
        assert(escape_html(s.push(c)) =~= escape_html(s) + escape_html_char(c));
    }
}

/// Escaped text holds no `<`, `>`, `"` or `'`: no markup can start or end
/// inside it, whatever it held before.
pub proof fn law_escaped_text_is_inert(s: Seq<char>)
    ensures
        forall|k: int| 0 <= k < escape_html(s).len() ==> !is_html_special(#[trigger] escape_html(s)[k]),
    decreases s.len(),
{
    if s.len() > 0 {
        law_escaped_text_is_inert(s.drop_first());
        let e = escape_html_char(s[0]);
        let rest = escape_html(s.drop_first());
        assert forall|k: int| 0 <= k < escape_html(s).len() implies !is_html_special(
            #[trigger] escape_html(s)[k],
        ) by {
            if k < e.len() {
                assert(escape_html(s)[k] == e[k]);
            } else {
                assert(escape_html(s)[k] == rest[k - e.len()]);
            }
        }
    }
}

/// Escaping loses nothing: decoding the five entities gives the text back.
pub proof fn law_unescape_escape(s: Seq<char>)
    ensures
        unescape_html(escape_html(s)) == s,
    decreases s.len(),
{
    if s.len() > 0 {
        law_unescape_escape(s.drop_first());
        let c = s[0];
        let e = escape_html_char(c);
        let rest = escape_html(s.drop_first());
        let t = escape_html(s);
        assert(t =~= e + rest);
        assert(t.skip(e.len() as int) =~= rest);
        let amp = seq!['&', 'a', 'm', 'p', ';'];
        let lt = seq!['&', 'l', 't', ';'];
        let gt = seq!['&', 'g', 't', ';'];
        let quot = seq!['&', 'q', 'u', 'o', 't', ';'];
        let apos = seq!['&', '#', '3', '9', ';'];
        if t.len() >= 5 {
            assert(t.take(5)[0] == t[0] && t.take(5)[1] == t[1]);
        }
        if t.len() >= 4 {
            assert(t.take(4)[0] == t[0] && t.take(4)[1] == t[1]);
        }
        if t.len() >= 6 {
            assert(t.take(6)[0] == t[0] && t.take(6)[1] == t[1]);
        }
        if c == '&' {
            assert(t.take(5) =~= amp);
        } else if c == '<' {
            assert(t.take(4) =~= lt);
            assert(!starts_with(t, amp));
        } else if c == '>' {
            assert(t.take(4) =~= gt);
            assert(!starts_with(t, amp));
            assert(!starts_with(t, lt));
        } else if c == '"' {
            assert(t.take(6) =~= quot);
            assert(!starts_with(t, amp));
            assert(!starts_with(t, lt));
            assert(!starts_with(t, gt));
        } else if c == '\'' {
            assert(t.take(5) =~= apos);
            assert(!starts_with(t, amp));
            assert(!starts_with(t, lt));
            assert(!starts_with(t, gt));
            assert(!starts_with(t, quot));
        } else {
            assert(t[0] == c);
            assert(t.drop_first() =~= rest);
            assert(!starts_with(t, amp));
            assert(!starts_with(t, lt));
            assert(!starts_with(t, gt));
            assert(!starts_with(t, quot));
            assert(!starts_with(t, apos));
        }
        assert(unescape_html(t) =~= s);
    }
}

/// Escaping works character by character: escaping a concatenation is the
/// concatenation of the escaped parts.
pub proof fn law_escape_html_concat(a: Seq<char>, b: Seq<char>)
    ensures
        escape_html(a + b) == escape_html(a) + escape_html(b),
    decreases a.len(),
{
    if a.len() == 0 {
        assert(a + b =~= b);
        assert(Seq::<char>::empty() + escape_html(b) =~= escape_html(b));
    } else {
        law_escape_html_concat(a.drop_first(), b);
        assert((a + b).drop_first() =~= a.drop_first() + b);
        assert((a + b)[0] == a[0]);
        assert(escape_html_char(a[0]) + (escape_html(a.drop_first()) + escape_html(b))
            =~= (escape_html_char(a[0]) + escape_html(a.drop_first())) + escape_html(b));
    }
}

/// One of the five characters that escaping changes.
pub open spec fn is_escaped_char(c: char) -> bool {
    c == '&' || c == '<' || c == '>' || c == '"' || c == '\''
}

/// Text without `&`, `<`, `>`, `"` or `'` is left as it is.
pub proof fn law_escape_html_plain(s: Seq<char>)
    requires
        forall|k: int| 0 <= k < s.len() ==> !is_escaped_char(#[trigger] s[k]),
    ensures
        escape_html(s) == s,
    decreases s.len(),
{
    if s.len() > 0 {
        assert forall|k: int| 0 <= k < s.len() - 1 implies !is_escaped_char(
            #[trigger] s.drop_first()[k],
        ) by {
            assert(s.drop_first()[k] == s[k + 1]);
        }
        law_escape_html_plain(s.drop_first());
        assert(!is_escaped_char(s[0]));
        assert(s =~= seq![s[0]] + s.drop_first());
    }
}

/// `s` escaped except for the characters in `done`, which stand for
/// themselves.
pub open spec fn partly_escaped(s: Seq<char>, done: Set<char>) -> Seq<char>
    decreases s.len(),
{
    if s.len() == 0 {
        seq![]
    } else {
        (if done.contains(s[0]) {
            seq![s[0]]
        } else {
            escape_html_char(s[0])
        }) + partly_escaped(s.drop_first(), done)
    }
}

proof fn lemma_partly_none(s: Seq<char>)
    ensures
        partly_escaped(s, Set::empty()) == escape_html(s),
    decreases s.len(),
{
    if s.len() > 0 {
        lemma_partly_none(s.drop_first());
    }
}

proof fn lemma_partly_all(s: Seq<char>, done: Set<char>)
    requires
        forall|c: char| is_escaped_char(c) ==> #[trigger] done.contains(c),
    ensures
        partly_escaped(s, done) == s,
    decreases s.len(),
{
    if s.len() > 0 {
        lemma_partly_all(s.drop_first(), done);
        assert(s =~= seq![s[0]] + s.drop_first());
    }
}

/// Decoding the entity of `c0` in text escaped except for `done` (which
/// does not hold `&`) leaves `c0` decoded too.
proof fn lemma_decode_one(s: Seq<char>, done: Set<char>, c0: char)
    requires
        is_escaped_char(c0),
        !done.contains(c0),
        !done.contains('&'),
    ensures
        replace_all(partly_escaped(s, done), escape_html_char(c0), seq![c0]) == partly_escaped(
            s,
            done.insert(c0),
        ),
    decreases s.len(),
{
    let p = escape_html_char(c0);
    let z = partly_escaped(s, done);
    if s.len() == 0 {
        assert(replace_all(z, p, seq![c0]) == z);
    } else {
        let c = s[0];
        let x = if done.contains(c) {
            seq![c]
        } else {
            escape_html_char(c)
        };
        let r = partly_escaped(s.drop_first(), done);
        assert(z == x + r);
        lemma_decode_one(s.drop_first(), done, c0);
        if c == c0 {
            lemma_replace_front(p, r, seq![c0]);
        } else {
            assert forall|i: int| 0 <= i < x.len() implies !#[trigger] occurs_at(z, p, i) by {
                if occurs_at(z, p, i) {
                    assert(z.subrange(i, i + p.len())[0] == z[i]);
                    assert(z[i] == x[i]);
                    if i == 0 && !done.contains(c) && is_escaped_char(c) {
                        assert(z.subrange(i, i + p.len())[1] == z[1]);
                        assert(z[1] == x[1]);
                    }
                }
            }
            lemma_replace_after(z, p, seq![c0], x.len() as int);
            assert(z.take(x.len() as int) =~= x);
            assert(z.skip(x.len() as int) =~= r);
            assert(done.insert(c0).contains(c) == done.contains(c));
        }
    }
}

/// Replacing the entities `&lt;`, `&gt;`, `&quot;`, `&#39;` and then
/// `&amp;` by the characters they stand for gives the escaped text back.
pub proof fn law_entity_replacements_undo_escape(s: Seq<char>)
    ensures
        replace_all(
            replace_all(
                replace_all(
                    replace_all(
                        replace_all(escape_html(s), seq!['&', 'l', 't', ';'], seq!['<']),
                        seq!['&', 'g', 't', ';'],
                        seq!['>'],
                    ),
                    seq!['&', 'q', 'u', 'o', 't', ';'],
                    seq!['"'],
                ),
                seq!['&', '#', '3', '9', ';'],
                seq!['\''],
            ),
            seq!['&', 'a', 'm', 'p', ';'],
            seq!['&'],
        ) == s,
{
    let d0 = Set::<char>::empty();
    let d1 = d0.insert('<');
    let d2 = d1.insert('>');
    let d3 = d2.insert('"');
    let d4 = d3.insert('\'');
    let d5 = d4.insert('&');
    lemma_partly_none(s);
    lemma_decode_one(s, d0, '<');
    lemma_decode_one(s, d1, '>');
    lemma_decode_one(s, d2, '"');
    lemma_decode_one(s, d3, '\'');
    lemma_decode_one(s, d4, '&');
    lemma_partly_all(s, d5);
}

/// `s` with `&`, `<`, `>`, `"` and `'` replaced by their entities.
pub fn escape_html_chars(s: &Vec<char>) -> (r: Vec<char>)
    ensures
        r@ == escape_html(s@),
{
    let mut r: Vec<char> = Vec::new();
    let mut i: usize = 0;
    while i < s.len()
        invariant
            i <= s.len(),
            r@ == escape_html(s@.take(i as int)),
        decreases s.len() - i,
    {
        let c = s[i];
        let piece = if c == '&' {
            vec!['&', 'a', 'm', 'p', ';']
        } else if c == '<' {
            vec!['&', 'l', 't', ';']
        } else if c == '>' {
            vec!['&', 'g', 't', ';']
        } else if c == '"' {
            vec!['&', 'q', 'u', 'o', 't', ';']
        } else if c == '\'' {
            vec!['&', '#', '3', '9', ';']
        } else {
            vec![c]
        };
        assert(piece@ =~= escape_html_char(c));
        push_all(&mut r, &piece);
        proof {
            lemma_escape_html_push(s@.take(i as int), c);
            assert(s@.take((i + 1) as int) =~= s@.take(i as int).push(c));
        }
        i = i + 1;
    }
    assert(s@.take(s@.len() as int) =~= s@);
    r
}

/// `s` with `&`, `<`, `>`, `"` and `'` replaced by their entities.
pub fn html_escape(s: &str) -> (r: String)
    ensures
        r@ == escape_html(s@),
{
    let v = chars_of(s);
    let e = escape_html_chars(&v);
    string_of(&e)
}

} // verus!
