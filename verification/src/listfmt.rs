//! The array-serialization format of the sequence-valued columns.
//!
//! A sequence of strings is stored in a TEXT column as a bracketed list of
//! double-quoted elements, `["Paris","Rome"]`; inside an element a double
//! quote or a backslash is preceded by a backslash. Encoding and decoding
//! are both here, and the round trip is proved.

use vstd::prelude::*;
use vstd::string::StringExecFns;
use crate::text::{chars_string, push_char, str_chars};

verus! {

/// The characters that stand for `c` inside a quoted element.
pub open spec fn elem_escaped_char(c: char) -> Seq<char> {
    if c == '"' || c == '\\' {
        seq!['\\', c]
    } else {
        seq![c]
    }
}

/// The body of a quoted element: `s` with quotes and backslashes escaped.
pub open spec fn elem_escaped(s: Seq<char>) -> Seq<char>
    decreases s.len(),
{
    if s.len() == 0 {
        Seq::empty()
    } else {
        elem_escaped_char(s[0]) + elem_escaped(s.drop_first())
    }
}

/// One element as it stands in the encoded list: the escaped body in
/// double quotes.
pub open spec fn quoted_elem(s: Seq<char>) -> Seq<char> {
    seq!['"'] + elem_escaped(s) + seq!['"']
}

/// The elements of `l`, quoted and separated by commas.
pub open spec fn encoded_elems(l: Seq<Seq<char>>) -> Seq<char>
    decreases l.len(),
{
    if l.len() == 0 {
        Seq::empty()
    } else if l.len() == 1 {
        quoted_elem(l[0])
    } else {
        quoted_elem(l[0]) + seq![','] + encoded_elems(l.drop_first())
    }
}

/// The whole encoded list: the elements between brackets.
pub open spec fn encoded_list(l: Seq<Seq<char>>) -> Seq<char> {
    seq!['['] + encoded_elems(l) + seq![']']
}

/// Reads one element body up to its closing quote. On success: the decoded
/// body and what follows the closing quote.
pub open spec fn parse_elem(s: Seq<char>) -> Option<(Seq<char>, Seq<char>)>
    decreases s.len(),
{
    if s.len() == 0 {
        None
    } else if s[0] == '"' {
        Some((Seq::empty(), s.skip(1)))
    } else if s[0] == '\\' {
        if s.len() >= 2 && (s[1] == '"' || s[1] == '\\') {
            match parse_elem(s.skip(2)) {
                Some(p) => Some((seq![s[1]] + p.0, p.1)),
                None => None,
            }
        } else {
            None
        }
    } else {
        match parse_elem(s.skip(1)) {
            Some(p) => Some((seq![s[0]] + p.0, p.1)),
            None => None,
        }
    }
}

/// What `parse_elem` leaves is strictly shorter than what it was given.
pub proof fn lemma_parse_elem_shrinks(s: Seq<char>)
    ensures
        parse_elem(s) matches Some(p) ==> p.1.len() < s.len(),
    decreases s.len(),
{
    if s.len() == 0 {
    } else if s[0] == '"' {
    } else if s[0] == '\\' {
        if s.len() >= 2 && (s[1] == '"' || s[1] == '\\') {
            lemma_parse_elem_shrinks(s.skip(2));
        }
    } else {
        lemma_parse_elem_shrinks(s.skip(1));
    }
}

/// Reads a non-empty comma-separated run of quoted elements, closed by a
/// final `]` that ends the text.
pub open spec fn parse_items(s: Seq<char>) -> Option<Seq<Seq<char>>>
    decreases s.len(),
    via parse_items_decreases
{
    if s.len() == 0 || s[0] != '"' {
        None
    } else {
        match parse_elem(s.skip(1)) {
            None => None,
            Some(p) => if p.1.len() == 1 && p.1[0] == ']' {
                Some(seq![p.0])
            } else if p.1.len() >= 1 && p.1[0] == ',' {
                match parse_items(p.1.skip(1)) {
                    Some(l) => Some(seq![p.0] + l),
                    None => None,
                }
            } else {
                None
            },
        }
    }
}

#[via_fn]
proof fn parse_items_decreases(s: Seq<char>) {
    if s.len() > 0 && s[0] == '"' {
        lemma_parse_elem_shrinks(s.skip(1));
    }
}

/// The decoded reading of a whole column value: the list it encodes, or
/// nothing where the text is not an encoded list.
pub open spec fn decoded_list(s: Seq<char>) -> Option<Seq<Seq<char>>> {
    if s.len() >= 2 && s[0] == '[' {
        if s.len() == 2 && s[1] == ']' {
            Some(Seq::empty())
        } else {
            parse_items(s.skip(1))
        }
    } else {
        None
    }
}

/// Element escaping distributes over concatenation.
pub proof fn lemma_elem_escaped_app(a: Seq<char>, b: Seq<char>)
    ensures
        elem_escaped(a + b) == elem_escaped(a) + elem_escaped(b),
    decreases a.len(),
{
    if a.len() == 0 {
        assert(a + b =~= b);
        assert(elem_escaped(a) + elem_escaped(b) =~= elem_escaped(b));
    } else {
        assert((a + b)[0] == a[0]);
        assert((a + b).drop_first() =~= a.drop_first() + b);
        lemma_elem_escaped_app(a.drop_first(), b);
        assert(elem_escaped(a + b) =~= elem_escaped_char(a[0]) + (elem_escaped(a.drop_first())
            + elem_escaped(b)));
        assert(elem_escaped_char(a[0]) + (elem_escaped(a.drop_first()) + elem_escaped(b))
            =~= (elem_escaped_char(a[0]) + elem_escaped(a.drop_first())) + elem_escaped(b));
    }
}

/// Reading an escaped body followed by its closing quote yields the
/// original element and leaves exactly what follows the quote.
pub proof fn lemma_parse_elem_of_escaped(e: Seq<char>, rest: Seq<char>)
    ensures
        parse_elem(elem_escaped(e) + seq!['"'] + rest) == Some((e, rest)),
    decreases e.len(),
{
    let s = elem_escaped(e) + seq!['"'] + rest;
    if e.len() == 0 {
        assert(elem_escaped(e) =~= Seq::<char>::empty());
        assert(s =~= seq!['"'] + rest);
        assert(s[0] == '"');
        assert(s.skip(1) =~= rest);
    } else {
        let tail = e.drop_first();
        assert(elem_escaped(e) =~= elem_escaped_char(e[0]) + elem_escaped(tail));
        if e[0] == '"' || e[0] == '\\' {
            assert(s[0] == '\\');
            assert(s[1] == e[0]);
            assert(s.len() >= 2);
            assert(s.skip(2) =~= elem_escaped(tail) + seq!['"'] + rest);
            lemma_parse_elem_of_escaped(tail, rest);
            assert(parse_elem(s) == Some((seq![e[0]] + tail, rest)));
            assert(seq![e[0]] + tail =~= e);
        } else {
            assert(s[0] == e[0]);
            assert(s[0] != '"' && s[0] != '\\');
            assert(s.skip(1) =~= elem_escaped(tail) + seq!['"'] + rest);
            lemma_parse_elem_of_escaped(tail, rest);
            assert(parse_elem(s) == Some((seq![e[0]] + tail, rest)));
            assert(seq![e[0]] + tail =~= e);
        }
    }
}

/// An encoded element is at least its two quotes long.
pub proof fn lemma_encoded_elems_len(l: Seq<Seq<char>>)
    requires
        l.len() >= 1,
    ensures
        encoded_elems(l).len() >= 2,
{
}

/// Reading the encoded elements of a non-empty list, closed by the final
/// bracket, yields the list itself.
pub proof fn lemma_parse_items_of_encoded(l: Seq<Seq<char>>)
    requires
        l.len() >= 1,
    ensures
        parse_items(encoded_elems(l) + seq![']']) == Some(l),
    decreases l.len(),
{
    let s = encoded_elems(l) + seq![']'];
    if l.len() == 1 {
        assert(encoded_elems(l) =~= seq!['"'] + elem_escaped(l[0]) + seq!['"']);
        assert(s[0] == '"');
        assert(s.skip(1) =~= elem_escaped(l[0]) + seq!['"'] + seq![']']);
        lemma_parse_elem_of_escaped(l[0], seq![']']);
        let p = parse_elem(s.skip(1))->Some_0;
        assert(p.0 == l[0] && p.1 == seq![']']);
        assert(p.1.len() == 1 && p.1[0] == ']');
        assert(parse_items(s) == Some(seq![l[0]]));
        assert(seq![l[0]] =~= l);
    } else {
        let tail = l.drop_first();
        assert(encoded_elems(l) =~= quoted_elem(l[0]) + seq![','] + encoded_elems(tail));
        let after = seq![','] + encoded_elems(tail) + seq![']'];
        assert(s[0] == '"');
        assert(s.skip(1) =~= elem_escaped(l[0]) + seq!['"'] + after);
        lemma_parse_elem_of_escaped(l[0], after);
        let p = parse_elem(s.skip(1))->Some_0;
        assert(p.0 == l[0] && p.1 == after);
        lemma_encoded_elems_len(tail);
        assert(after[0] == ',');
        assert(!(p.1.len() == 1 && p.1[0] == ']'));
        assert(after.skip(1) =~= encoded_elems(tail) + seq![']']);
        lemma_parse_items_of_encoded(tail);
        assert(parse_items(s) == Some(seq![l[0]] + tail));
        assert(seq![l[0]] + tail =~= l);
    }
}

/// The round trip of the array format: decoding an encoded list yields the
/// original list, for every list of strings.
pub proof fn lemma_list_round_trip(l: Seq<Seq<char>>)
    ensures
        decoded_list(encoded_list(l)) == Some(l),
{
    let s = encoded_list(l);
    if l.len() == 0 {
        assert(encoded_elems(l) =~= Seq::<char>::empty());
        assert(s =~= seq!['[', ']']);
        assert(s.len() == 2 && s[0] == '[' && s[1] == ']');
        assert(Seq::<Seq<char>>::empty() =~= l);
    } else {
        lemma_encoded_elems_len(l);
        assert(s.len() >= 4);
        assert(s[0] == '[');
        assert(s.skip(1) =~= encoded_elems(l) + seq![']']);
        lemma_parse_items_of_encoded(l);
    }
}

/// The escaped body of one element, as text.
fn elem_escape(s: &str) -> (r: String)
    ensures
        r@ == elem_escaped(s@),
{
    let cs = str_chars(s);
    let mut out = String::new();
    let mut i: usize = 0;
    while i < cs.len()
        invariant
            cs@ == s@,
            i <= cs@.len(),
            out@ == elem_escaped(cs@.take(i as int)),
        decreases cs@.len() - i,
    {
        let c = cs[i];
        if c == '"' || c == '\\' {
            push_char(&mut out, '\\');
            push_char(&mut out, c);
        } else {
            push_char(&mut out, c);
        }
        proof {
            assert(cs@.take(i + 1) =~= cs@.take(i as int) + seq![cs@[i as int]]);
            lemma_elem_escaped_app(cs@.take(i as int), seq![cs@[i as int]]);
            let one = seq![cs@[i as int]];
            assert(one.drop_first().len() == 0);
            assert(elem_escaped(one.drop_first()) =~= Seq::<char>::empty());
            assert(elem_escaped(one) =~= elem_escaped_char(cs@[i as int]) + Seq::<char>::empty());
            assert(elem_escaped_char(cs@[i as int]) + Seq::<char>::empty()
                =~= elem_escaped_char(cs@[i as int]));
        }
        i = i + 1;
    }
    proof {
        assert(cs@.take(cs@.len() as int) =~= cs@);
    }
    out
}

/// A non-empty list grows at its end by a separating comma and one quoted
/// element; a first element stands alone.
proof fn lemma_encoded_elems_push(l: Seq<Seq<char>>, e: Seq<char>)
    ensures
        l.len() == 0 ==> encoded_elems(l.push(e)) == quoted_elem(e),
        l.len() >= 1 ==> encoded_elems(l.push(e)) == encoded_elems(l) + seq![','] + quoted_elem(e),
    decreases l.len(),
{
    let g = l.push(e);
    if l.len() == 0 {
        assert(g.len() == 1);
        assert(g[0] == e);
        assert(encoded_elems(g) =~= quoted_elem(e));
    } else if l.len() == 1 {
        assert(g.len() == 2);
        assert(g[0] == l[0]);
        assert(g.drop_first() =~= seq![e]);
        assert(encoded_elems(seq![e]) =~= quoted_elem(e));
        assert(encoded_elems(g) =~= quoted_elem(l[0]) + seq![','] + quoted_elem(e));
        assert(quoted_elem(l[0]) =~= encoded_elems(l));
        assert(encoded_elems(g) =~= encoded_elems(l) + seq![','] + quoted_elem(e));
    } else {
        assert(g[0] == l[0]);
        assert(g.drop_first() =~= l.drop_first().push(e));
        lemma_encoded_elems_push(l.drop_first(), e);
        assert(encoded_elems(g) =~= quoted_elem(l[0]) + seq![','] + (encoded_elems(l.drop_first())
            + seq![','] + quoted_elem(e)));
        assert(quoted_elem(l[0]) + seq![','] + (encoded_elems(l.drop_first()) + seq![',']
            + quoted_elem(e)) =~= (quoted_elem(l[0]) + seq![','] + encoded_elems(l.drop_first()))
            + seq![','] + quoted_elem(e));
        assert(encoded_elems(l) =~= quoted_elem(l[0]) + seq![','] + encoded_elems(l.drop_first()));
    }
}

/// Encodes a list of strings in the array format.
pub fn encode_string_list(l: &Vec<String>) -> (r: String)
    ensures
        r@ == encoded_list(l.deep_view()),
{
    let ghost lv = l.deep_view();
    let mut out = String::new();
    push_char(&mut out, '[');
    proof {
        assert(lv.take(0) =~= Seq::<Seq<char>>::empty());
        assert(encoded_elems(lv.take(0)) =~= Seq::<char>::empty());
        assert(out@ =~= seq!['['] + encoded_elems(lv.take(0)));
    }
    let mut i: usize = 0;
    while i < l.len()
        invariant
            lv == l.deep_view(),
            lv.len() == l@.len(),
            i <= l@.len(),
            out@ == seq!['['] + encoded_elems(lv.take(i as int)),
        decreases l@.len() - i,
    {
        if i > 0 {
            push_char(&mut out, ',');
        }
        push_char(&mut out, '"');
        let esc = elem_escape(l[i].as_str());
        out.append(esc.as_str());
        push_char(&mut out, '"');
        proof {
            assert(lv[i as int] == l@[i as int].deep_view());
            assert(lv.take(i + 1) =~= lv.take(i as int).push(lv[i as int]));
            lemma_encoded_elems_push(lv.take(i as int), lv[i as int]);
            assert(out@ =~= seq!['['] + encoded_elems(lv.take(i + 1)));
        }
        i = i + 1;
    }
    push_char(&mut out, ']');
    proof {
        assert(lv.take(lv.len() as int) =~= lv);
        assert(out@ =~= encoded_list(lv));
    }
    out
}

/// What parsing from an outer point yields, once the elements read so far
/// are set before it.
spec fn prepend_parse(c: Seq<char>, o: Option<(Seq<char>, Seq<char>)>) -> Option<
    (Seq<char>, Seq<char>),
> {
    match o {
        Some(p) => Some((c + p.0, p.1)),
        None => None,
    }
}

/// Reads one element body starting at `i`, just past its opening quote.
/// On success: the body's characters and the position just past the
/// closing quote.
fn parse_elem_at(v: &Vec<char>, i: usize) -> (r: Option<(Vec<char>, usize)>)
    requires
        i <= v@.len(),
    ensures
        match r {
            Some(p) => i < p.1 <= v@.len() && parse_elem(v@.skip(i as int)) == Some(
                (p.0@, v@.skip(p.1 as int)),
            ),
            None => parse_elem(v@.skip(i as int)) is None,
        },
{
    let mut content: Vec<char> = Vec::new();
    let mut j: usize = i;
    proof {
        assert(Seq::<char>::empty() + parse_elem(v@.skip(i as int))->Some_0.0 =~= parse_elem(
            v@.skip(i as int),
        )->Some_0.0);
    }
    loop
        invariant
            i <= j <= v@.len(),
            parse_elem(v@.skip(i as int)) == prepend_parse(content@, parse_elem(v@.skip(j as int))),
        decreases v@.len() - j,
    {
        let ghost rest = v@.skip(j as int);
        if j >= v.len() {
            assert(rest.len() == 0);
            assert(parse_elem(rest) is None);
            return None;
        }
        assert(rest[0] == v@[j as int]);
        let c = v[j];
        if c == '"' {
            assert(parse_elem(rest) == Some((Seq::<char>::empty(), rest.skip(1))));
            proof {
                assert(rest.skip(1) =~= v@.skip(j + 1));
                assert(content@ + Seq::<char>::empty() =~= content@);
            }
            return Some((content, j + 1));
        } else if c == '\\' {
            if j + 1 < v.len() && (v[j + 1] == '"' || v[j + 1] == '\\') {
                assert(rest.len() >= 2 && rest[1] == v@[j + 1]);
                let e = v[j + 1];
                content.push(e);
                proof {
                    assert(rest.skip(2) =~= v@.skip(j + 2));
                    let o = parse_elem(v@.skip(j + 2));
                    if o is Some {
                        let p = o->Some_0;
                        assert(parse_elem(rest) == Some((seq![e] + p.0, p.1)));
                        assert(content@.drop_last() + (seq![e] + p.0) =~= (content@.drop_last()
                            + seq![e]) + p.0);
                    }
                }
                j = j + 2;
            } else {
                proof {
                    if rest.len() >= 2 && (rest[1] == '"' || rest[1] == '\\') {
                        assert(rest[1] == v@[j + 1]);
                        assert(false);
                    }
                }
                assert(parse_elem(rest) is None);
                return None;
            }
        } else {
            content.push(c);
            proof {
                assert(rest.skip(1) =~= v@.skip(j + 1));
                let o = parse_elem(v@.skip(j + 1));
                if o is Some {
                    let p = o->Some_0;
                    assert(parse_elem(rest) == Some((seq![c] + p.0, p.1)));
                    assert(content@.drop_last() + (seq![c] + p.0) =~= (content@.drop_last()
                        + seq![c]) + p.0);
                }
            }
            j = j + 1;
        }
    }
}

/// What a full parse from an inner point yields, once the elements read so
/// far are set before it.
spec fn prepend_items(pre: Seq<Seq<char>>, o: Option<Seq<Seq<char>>>) -> Option<Seq<Seq<char>>> {
    match o {
        Some(l) => Some(pre + l),
        None => None,
    }
}

/// Decodes a column value in the array format back into its list of
/// strings; yields nothing where the text is not an encoded list.
pub fn decode_string_list(s: &str) -> (r: Option<Vec<String>>)
    ensures
        match r {
            Some(l) => decoded_list(s@) == Some(l.deep_view()),
            None => decoded_list(s@) is None,
        },
{
    let cs = str_chars(s);
    if cs.len() < 2 {
        return None;
    }
    if cs[0] != '[' {
        assert(cs@[0] != '[');
        return None;
    }
    if cs.len() == 2 {
        if cs[1] == ']' {
            let empty: Vec<String> = Vec::new();
            proof {
                assert(empty.deep_view() =~= Seq::<Seq<char>>::empty());
            }
            return Some(empty);
        } else {
            proof {
                let t = cs@.skip(1);
                assert(t.len() == 1);
                assert(t[0] == cs@[1]);
                if t[0] == '"' {
                    assert(t.skip(1) =~= Seq::<char>::empty());
                    assert(parse_elem(t.skip(1)) is None);
                }
                assert(parse_items(t) is None);
            }
            return None;
        }
    }
    let mut out: Vec<String> = Vec::new();
    let mut i: usize = 1;
    proof {
        assert(out.deep_view() =~= Seq::<Seq<char>>::empty());
        let o = parse_items(cs@.skip(1));
        if o is Some {
            assert(Seq::<Seq<char>>::empty() + o->Some_0 =~= o->Some_0);
        }
    }
    loop
        invariant
            cs@ == s@,
            cs@.len() > 2,
            cs@[0] == '[',
            1 <= i <= cs@.len(),
            decoded_list(cs@) == prepend_items(out.deep_view(), parse_items(cs@.skip(i as int))),
        decreases cs@.len() - i,
    {
        let ghost rest = cs@.skip(i as int);
        if i >= cs.len() {
            assert(rest.len() == 0);
            assert(parse_items(rest) is None);
            return None;
        }
        assert(rest[0] == cs@[i as int]);
        if cs[i] != '"' {
            assert(parse_items(rest) is None);
            return None;
        }
        proof {
            assert(rest.skip(1) =~= cs@.skip(i + 1));
        }
        match parse_elem_at(&cs, i + 1) {
            None => {
                assert(parse_items(rest) is None);
                return None;
            },
            Some((content, j)) => {
                assert(parse_elem(rest.skip(1)) == Some((content@, cs@.skip(j as int))));
                let ghost rem = cs@.skip(j as int);
                let elem = chars_string(&content);
                if j == cs.len() - 1 && cs[j] == ']' {
                    assert(rem.len() == 1 && rem[0] == ']');
                    assert(parse_items(rest) == Some(seq![content@]));
                    out.push(elem);
                    proof {
                        assert(out.deep_view() =~= out.deep_view().drop_last().push(content@));
                        assert(out.deep_view().drop_last() + seq![content@] =~= out.deep_view());
                    }
                    return Some(out);
                } else if j < cs.len() && cs[j] == ',' {
                    assert(rem.len() >= 1 && rem[0] == ',');
                    assert(!(rem.len() == 1 && rem[0] == ']'));
                    proof {
                        assert(rem.skip(1) =~= cs@.skip(j + 1));
                        let o = parse_items(cs@.skip(j + 1));
                        if o is Some {
                            assert(parse_items(rest) == Some(seq![content@] + o->Some_0));
                        }
                    }
                    out.push(elem);
                    proof {
                        let pre = out.deep_view().drop_last();
                        assert(out.deep_view() =~= pre.push(content@));
                        let o = parse_items(cs@.skip(j + 1));
                        if o is Some {
                            let l = o->Some_0;
                            assert(pre + (seq![content@] + l) =~= pre.push(content@) + l);
                        }
                    }
                    i = j + 1;
                } else {
                    proof {
                        if rem.len() == 1 && rem[0] == ']' {
                            assert(rem[0] == cs@[j as int]);
                            assert(j + 1 == cs@.len());
                            assert(false);
                        }
                        if rem.len() >= 1 && rem[0] == ',' {
                            assert(rem[0] == cs@[j as int]);
                            assert(false);
                        }
                    }
                    assert(parse_items(rest) is None);
                    return None;
                }
            },
        }
    }
}

} // verus!
