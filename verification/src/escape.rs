//! Escaping of field text for embedding in a SQL string literal.
//!
//! The sole escaping rule of the store format: every single-quote character
//! is doubled. `sql_unescape` undoes it, and the round trip is proved.

use vstd::prelude::*;
use crate::text::{chars_string, push_char, str_chars};

verus! {

/// The characters that stand for `c` inside a SQL string literal.
pub open spec fn sql_escaped_char(c: char) -> Seq<char> {
    if c == '\'' {
        seq!['\'', '\'']
    } else {
        seq![c]
    }
}

/// The text of `s` with every single quote doubled.
pub open spec fn sql_escaped(s: Seq<char>) -> Seq<char>
    decreases s.len(),
{
    if s.len() == 0 {
        Seq::empty()
    } else {
        sql_escaped_char(s[0]) + sql_escaped(s.drop_first())
    }
}

/// The inverse reading: a doubled quote collapses to one quote, anything
/// else is kept as it stands.
pub open spec fn sql_unescaped(s: Seq<char>) -> Seq<char>
    decreases s.len(),
{
    if s.len() == 0 {
        Seq::empty()
    } else if s.len() >= 2 && s[0] == '\'' && s[1] == '\'' {
        seq!['\''] + sql_unescaped(s.skip(2))
    } else {
        seq![s[0]] + sql_unescaped(s.skip(1))
    }
}

/// Escaping distributes over concatenation.
pub proof fn lemma_sql_escaped_app(a: Seq<char>, b: Seq<char>)
    ensures
        sql_escaped(a + b) == sql_escaped(a) + sql_escaped(b),
    decreases a.len(),
{
    if a.len() == 0 {
        assert(a + b =~= b);
        assert(sql_escaped(a) + sql_escaped(b) =~= sql_escaped(b));
    } else {
        assert((a + b).len() > 0);
        assert((a + b)[0] == a[0]);
        assert((a + b).drop_first() =~= a.drop_first() + b);
        lemma_sql_escaped_app(a.drop_first(), b);
        assert(sql_escaped(a + b) =~= sql_escaped_char(a[0]) + (sql_escaped(a.drop_first())
            + sql_escaped(b)));
        assert(sql_escaped_char(a[0]) + (sql_escaped(a.drop_first()) + sql_escaped(b))
            =~= (sql_escaped_char(a[0]) + sql_escaped(a.drop_first())) + sql_escaped(b));
    }
}

/// Escaping corrupts nothing: reading the escaped text back yields the
/// original string, for every string.
pub proof fn lemma_sql_escape_round_trip(s: Seq<char>)
    ensures
        sql_unescaped(sql_escaped(s)) == s,
    decreases s.len(),
{
    if s.len() == 0 {
    } else {
        let e = sql_escaped(s);
        lemma_sql_escape_round_trip(s.drop_first());
        if s[0] == '\'' {
            assert(e =~= seq!['\'', '\''] + sql_escaped(s.drop_first()));
            assert(e.len() >= 2 && e[0] == '\'' && e[1] == '\'');
            assert(e.skip(2) =~= sql_escaped(s.drop_first()));
            assert(sql_unescaped(e) =~= seq!['\''] + s.drop_first());
            assert(seq!['\''] + s.drop_first() =~= s);
        } else {
            assert(e =~= seq![s[0]] + sql_escaped(s.drop_first()));
            assert(e.len() >= 1 && e[0] == s[0]);
            if e.len() >= 2 && e[0] == '\'' && e[1] == '\'' {
                assert(false);
            }
            assert(e.skip(1) =~= sql_escaped(s.drop_first()));
            assert(sql_unescaped(e) =~= seq![s[0]] + s.drop_first());
            assert(seq![s[0]] + s.drop_first() =~= s);
        }
    }
}

/// Escapes `s` for embedding in a SQL string literal.
pub fn sql_escape(s: &str) -> (r: String)
    ensures
        r@ == sql_escaped(s@),
{
    let cs = str_chars(s);
    let mut out = String::new();
    let mut i: usize = 0;
    while i < cs.len()
        invariant
            cs@ == s@,
            i <= cs@.len(),
            out@ == sql_escaped(cs@.take(i as int)),
        decreases cs@.len() - i,
    {
        let c = cs[i];
        if c == '\'' {
            push_char(&mut out, '\'');
            push_char(&mut out, '\'');
        } else {
            push_char(&mut out, c);
        }
        proof {
            assert(cs@.take(i + 1) =~= cs@.take(i as int) + seq![cs@[i as int]]);
            lemma_sql_escaped_app(cs@.take(i as int), seq![cs@[i as int]]);
            let one = seq![cs@[i as int]];
            assert(one.len() == 1 && one[0] == cs@[i as int]);
            assert(one.drop_first().len() == 0);
            assert(sql_escaped(one.drop_first()) =~= Seq::<char>::empty());
            assert(sql_escaped(one) =~= sql_escaped_char(cs@[i as int]) + Seq::<char>::empty());
            assert(sql_escaped_char(cs@[i as int]) + Seq::<char>::empty()
                =~= sql_escaped_char(cs@[i as int]));
        }
        i = i + 1;
    }
    proof {
        assert(cs@.take(cs@.len() as int) =~= cs@);
    }
    out
}

/// Reads escaped text back, collapsing every doubled quote.
pub fn sql_unescape(s: &str) -> (r: String)
    ensures
        r@ == sql_unescaped(s@),
{
    let cs = str_chars(s);
    let mut out: Vec<char> = Vec::new();
    let mut i: usize = 0;
    proof {
        assert(cs@.skip(0) =~= cs@);
        assert(Seq::<char>::empty() + sql_unescaped(cs@) =~= sql_unescaped(cs@));
    }
    while i < cs.len()
        invariant
            cs@ == s@,
            i <= cs@.len(),
            sql_unescaped(cs@) == out@ + sql_unescaped(cs@.skip(i as int)),
        decreases cs@.len() - i,
    {
        let ghost rest = cs@.skip(i as int);
        assert(rest.len() > 0);
        assert(rest[0] == cs@[i as int]);
        if i + 1 < cs.len() && cs[i] == '\'' && cs[i + 1] == '\'' {
            assert(rest[1] == cs@[i + 1]);
            out.push('\'');
            proof {
                assert(rest.skip(2) =~= cs@.skip(i + 2));
                assert(sql_unescaped(rest) =~= seq!['\''] + sql_unescaped(cs@.skip(i + 2)));
            }
            i = i + 2;
        } else {
            let c = cs[i];
            out.push(c);
            proof {
                if rest.len() >= 2 && rest[0] == '\'' && rest[1] == '\'' {
                    assert(cs@[i + 1] == rest[1]);
                    assert(false);
                }
                assert(rest.skip(1) =~= cs@.skip(i + 1));
                assert(sql_unescaped(rest) =~= seq![rest[0]] + sql_unescaped(cs@.skip(i + 1)));
            }
            i = i + 1;
        }
    }
    proof {
        assert(cs@.skip(cs@.len() as int) =~= Seq::<char>::empty());
    }
    chars_string(&out)
}

} // verus!
