//! Quoting of identifiers and string literals in SQL text.
use vstd::prelude::*;
use crate::text::{chars_of, string_of};

verus! {

/// `s` with every `q` doubled.
pub open spec fn doubled(s: Seq<char>, q: char) -> Seq<char>
    decreases s.len(),
{
    if s.len() == 0 {
        Seq::empty()
    } else {
        doubled(s.drop_last(), q) + if s.last() == q {
            seq![q, q]
        } else {
            seq![s.last()]
        }
    }
}

fn push_doubled(out: &mut Vec<char>, s: &str, q: char)
    ensures
        final(out)@ == old(out)@ + doubled(s@, q),
{
    let c = chars_of(s);
    let ghost start = out@;
    let mut i: usize = 0;
    while i < c.len()
        invariant
            c@ == s@,
            i <= c@.len(),
            out@ == start + doubled(c@.take(i as int), q),
        decreases c@.len() - i,
    {
        let ch = c[i];
        out.push(ch);
        if ch == q {
            out.push(q);
        }
        i = i + 1;
        assert(c@.take(i as int).drop_last() =~= c@.take(i - 1));
    }
    assert(c@.take(i as int) =~= c@);
}

/// A double-quoted SQL identifier: embedded double quotes are doubled.
pub fn quote_ident(identifier: &str) -> (r: String)
    ensures
        r@ == seq!['"'] + doubled(identifier@, '"') + seq!['"'],
{
    let mut out: Vec<char> = Vec::new();
    out.push('"');
    push_doubled(&mut out, identifier, '"');
    out.push('"');
    assert(out@ =~= seq!['"'] + doubled(identifier@, '"') + seq!['"']);
    string_of(&out)
}

/// The body of a single-quoted SQL string literal: embedded single quotes
/// are doubled.
pub fn sql_string_literal(value: &str) -> (r: String)
    ensures
        r@ == doubled(value@, '\''),
{
    let mut out: Vec<char> = Vec::new();
    push_doubled(&mut out, value, '\'');
    assert(out@ =~= doubled(value@, '\''));
    string_of(&out)
}

} // verus!
