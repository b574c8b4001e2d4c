//! Writing tables as comma-separated text.
//!
//! A field that is wrapped in quotation marks holds each of its own
//! quotation marks twice; nothing else is changed.

use vstd::prelude::*;
use crate::text::{chars_of, count, lemma_count_add, lemma_count_one, string_of};

verus! {

/// The text `s` as it stands between quotation marks: every quotation mark
/// doubled.
pub open spec fn escaped(s: Seq<char>) -> Seq<char>
    decreases s.len(),
{
    if s.len() == 0 {
        Seq::empty()
    } else if s[0] == '"' {
        seq!['"', '"'] + escaped(s.drop_first())
    } else {
        seq![s[0]] + escaped(s.drop_first())
    }
}

/// The text that stands between quotation marks as `s`: every pair of
/// quotation marks read as one.
pub open spec fn unescaped(s: Seq<char>) -> Seq<char>
    decreases s.len(),
{
    if s.len() == 0 {
        Seq::empty()
    } else if s.len() >= 2 && s[0] == '"' && s[1] == '"' {
        seq!['"'] + unescaped(s.skip(2))
    } else {
        seq![s[0]] + unescaped(s.drop_first())
    }
}

/// Doubling the quotation marks and reading the pairs as one gives the
/// text back, whatever it holds.
pub proof fn lemma_escape_round_trip(s: Seq<char>)
    ensures
        unescaped(escaped(s)) == s,
    decreases s.len(),
{
    if s.len() > 0 {
        let rest = s.drop_first();
        lemma_escape_round_trip(rest);
        let e = escaped(s);
        if s[0] == '"' {
            assert(e.skip(2) =~= escaped(rest));
            assert(unescaped(e) == seq!['"'] + unescaped(e.skip(2)));
            assert(seq!['"'] + rest =~= s);
        } else {
            assert(e.drop_first() =~= escaped(rest));
            assert(e[0] == s[0]);
            assert(!(e.len() >= 2 && e[0] == '"' && e[1] == '"'));
            assert(seq![s[0]] + rest =~= s);
        }
    }
}

/// What doubling does to one character.
pub proof fn lemma_escaped_one(c: char)
    ensures
        escaped(seq![c]) == if c == '"' {
            seq!['"', '"']
        } else {
            seq![c]
        },
{
    let one = seq![c];
    assert(one.len() == 1 && one[0] == c);
    assert(one.drop_first() =~= Seq::<char>::empty());
    assert(escaped(one.drop_first()) =~= Seq::<char>::empty());
    if c == '"' {
        assert(escaped(one) =~= seq!['"', '"']);
    } else {
        assert(escaped(one) =~= seq![c]);
    }
}

/// Doubling goes part by part.
pub proof fn lemma_escaped_add(a: Seq<char>, b: Seq<char>)
    ensures
        escaped(a + b) == escaped(a) + escaped(b),
    decreases a.len(),
{
    if a.len() == 0 {
        assert(a + b =~= b);
        assert(escaped(a) + escaped(b) =~= escaped(b));
    } else {
        lemma_escaped_add(a.drop_first(), b);
        assert((a + b).drop_first() =~= a.drop_first() + b);
        if a[0] == '"' {
            assert(escaped(a + b) =~= escaped(a) + escaped(b));
        } else {
            assert(escaped(a + b) =~= escaped(a) + escaped(b));
        }
    }
}

/// Appends `s` to `out` with every quotation mark doubled.
pub fn push_escaped(out: &mut Vec<char>, s: &str)
    ensures
        final(out)@ == old(out)@ + escaped(s@),
{
    let v = chars_of(s);
    let mut i: usize = 0;
    assert(escaped(v@.take(0)) =~= Seq::<char>::empty());
    while i < v.len()
        invariant
            i <= v.len(),
            out@ == old(out)@ + escaped(v@.take(i as int)),
        decreases v.len() - i,
    {
        proof {
            assert(v@.take(i + 1) =~= v@.take(i as int) + seq![v@[i as int]]);
            lemma_escaped_add(v@.take(i as int), seq![v@[i as int]]);
            lemma_escaped_one(v@[i as int]);
        }
        if v[i] == '"' {
            out.push('"');
            out.push('"');
        } else {
            out.push(v[i]);
        }
        assert(out@ =~= old(out)@ + escaped(v@.take(i + 1)));
        i += 1;
    }
    assert(v@.take(i as int) =~= v@);
}

/// The text `s` with every quotation mark doubled.
pub fn escape_quotes(s: &str) -> (r: String)
    ensures
        r@ == escaped(s@),
{
    let mut out: Vec<char> = Vec::new();
    push_escaped(&mut out, s);
    assert(out@ =~= escaped(s@));
    string_of(&out)
}

/// The text `s` with every pair of quotation marks read as one.
pub fn unescape_quotes(s: &str) -> (r: String)
    ensures
        r@ == unescaped(s@),
{
    let v = chars_of(s);
    let mut out: Vec<char> = Vec::new();
    let mut i: usize = 0;
    assert(v@.skip(0) =~= v@);
    while i < v.len()
        invariant
            i <= v.len(),
            unescaped(v@) == out@ + unescaped(v@.skip(i as int)),
        decreases v.len() - i,
    {
        let ghost rest = v@.skip(i as int);
        let ghost before = out@;
        assert(rest[0] == v@[i as int]);
        if v[i] == '"' && i + 1 < v.len() && v[i + 1] == '"' {
            assert(rest[1] == v@[i + 1]);
            assert(rest.skip(2) =~= v@.skip(i + 2));
            out.push('"');
            assert(out@ + unescaped(v@.skip(i + 2)) =~= before + (seq!['"'] + unescaped(
                rest.skip(2),
            )));
            i += 2;
        } else {
            assert(rest.drop_first() =~= v@.skip(i + 1));
            proof {
                if rest.len() >= 2 {
                    assert(rest[1] == v@[i + 1]);
                }
            }
            out.push(v[i]);
            assert(out@ + unescaped(v@.skip(i + 1)) =~= before + (seq![rest[0]] + unescaped(
                rest.drop_first(),
            )));
            i += 1;
        }
    }
    assert(unescaped(v@.skip(i as int)) =~= Seq::<char>::empty());
    assert(out@ =~= unescaped(v@));
    string_of(&out)
}

/// Doubling the quotation marks adds no line break and takes none away.
pub proof fn lemma_escaped_keeps_newlines(s: Seq<char>)
    ensures
        count(escaped(s), '\n') == count(s, '\n'),
    decreases s.len(),
{
    if s.len() > 0 {
        let rest = s.drop_first();
        lemma_escaped_keeps_newlines(rest);
        let head = seq![s[0]];
        assert(head + rest =~= s);
        lemma_count_add(head, rest, '\n');
        lemma_escaped_one(s[0]);
        lemma_count_add(escaped(head), escaped(rest), '\n');
        lemma_escaped_add(head, rest);
        lemma_count_one(s[0], '\n');
        if s[0] == '"' {
            lemma_count_one('"', '\n');
            assert(seq!['"', '"'] =~= seq!['"'] + seq!['"']);
            lemma_count_add(seq!['"'], seq!['"'], '\n');
        }
    }
}


} // verus!
