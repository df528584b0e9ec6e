//! Names of phases, period kinds and data tables.
use vstd::prelude::*;
use crate::text::{chars_of, string_of};

verus! {

/// The name of the solver phase with this identifier.
pub open spec fn phase_name_of(phase_id: i64) -> Seq<char> {
    if phase_id == 1 {
        seq!['L', 'T']
    } else if phase_id == 2 {
        seq!['P', 'A', 'S', 'A']
    } else if phase_id == 3 {
        seq!['M', 'T']
    } else if phase_id == 4 {
        seq!['S', 'T']
    } else {
        seq!['U', 'n', 'k', 'n', 'o', 'w', 'n']
    }
}

/// The name of the period kind with this period type identifier.
pub open spec fn period_name_of(period_type_id: i64) -> Seq<char> {
    if period_type_id == 0 {
        seq!['I', 'n', 't', 'e', 'r', 'v', 'a', 'l']
    } else if period_type_id == 1 {
        seq!['D', 'a', 'y']
    } else if period_type_id == 2 {
        seq!['W', 'e', 'e', 'k']
    } else if period_type_id == 3 {
        seq!['M', 'o', 'n', 't', 'h']
    } else if period_type_id == 4 {
        seq!['Y', 'e', 'a', 'r']
    } else if period_type_id == 6 {
        seq!['H', 'o', 'u', 'r']
    } else if period_type_id == 7 {
        seq!['Q', 'u', 'a', 'r', 't', 'e', 'r']
    } else {
        seq!['U', 'n', 'k', 'n', 'o', 'w', 'n']
    }
}

pub open spec fn underscore_char(c: char) -> char {
    if c == ' ' || c == '-' {
        '_'
    } else {
        c
    }
}

/// `s` with every space and hyphen replaced by an underscore.
pub open spec fn underscored(s: Seq<char>) -> Seq<char> {
    s.map_values(|c: char| underscore_char(c))
}

pub open spec fn separator() -> Seq<char> {
    seq!['_', '_']
}

/// The name of the data table of a key: phase, period kind, qualified
/// collection name and property name, joined by double underscores, with
/// spaces and hyphens replaced by underscores.
pub open spec fn table_name_of(
    phase: Seq<char>,
    period: Seq<char>,
    collection: Seq<char>,
    property: Seq<char>,
) -> Seq<char> {
    underscored(phase) + separator() + underscored(period) + separator() + underscored(collection)
        + separator() + underscored(property)
}

/// The qualified name of a collection: its complement name where it has one,
/// else the name of its parent class, then an underscore and its name.
pub open spec fn qualified_collection_name(prefix: Seq<char>, name: Seq<char>) -> Seq<char> {
    prefix + seq!['_'] + name
}

pub fn phase_name(phase_id: i64) -> (r: Vec<char>)
    ensures
        r@ == phase_name_of(phase_id),
{
    let r = if phase_id == 1 {
        vec!['L', 'T']
    } else if phase_id == 2 {
        vec!['P', 'A', 'S', 'A']
    } else if phase_id == 3 {
        vec!['M', 'T']
    } else if phase_id == 4 {
        vec!['S', 'T']
    } else {
        vec!['U', 'n', 'k', 'n', 'o', 'w', 'n']
    };
    assert(r@ =~= phase_name_of(phase_id));
    r
}

pub fn period_name(period_type_id: i64) -> (r: Vec<char>)
    ensures
        r@ == period_name_of(period_type_id),
{
    let r = if period_type_id == 0 {
        vec!['I', 'n', 't', 'e', 'r', 'v', 'a', 'l']
    } else if period_type_id == 1 {
        vec!['D', 'a', 'y']
    } else if period_type_id == 2 {
        vec!['W', 'e', 'e', 'k']
    } else if period_type_id == 3 {
        vec!['M', 'o', 'n', 't', 'h']
    } else if period_type_id == 4 {
        vec!['Y', 'e', 'a', 'r']
    } else if period_type_id == 6 {
        vec!['H', 'o', 'u', 'r']
    } else if period_type_id == 7 {
        vec!['Q', 'u', 'a', 'r', 't', 'e', 'r']
    } else {
        vec!['U', 'n', 'k', 'n', 'o', 'w', 'n']
    };
    assert(r@ =~= period_name_of(period_type_id));
    r
}

/// Appends the characters of `s` to `out`, spaces and hyphens replaced by
/// underscores.
fn push_underscored(out: &mut Vec<char>, s: &Vec<char>)
    ensures
        final(out)@ == old(out)@ + underscored(s@),
{
    let ghost start = out@;
    let mut i: usize = 0;
    while i < s.len()
        invariant
            i <= s@.len(),
            out@ == start + underscored(s@.take(i as int)),
        decreases s@.len() - i,
    {
        let c = s[i];
        let u = if c == ' ' || c == '-' {
            '_'
        } else {
            c
        };
        out.push(u);
        i = i + 1;
        assert(underscored(s@.take(i as int)) =~= underscored(s@.take(i - 1)).push(u));
    }
    assert(s@.take(i as int) =~= s@);
}

/// The name of the data table of a key of this phase and period type, whose
/// collection has this qualified name and whose property shows this name.
pub fn table_name(phase_id: i64, period_type_id: i64, collection: &str, property: &str) -> (r: String)
    ensures
        r@ == table_name_of(phase_name_of(phase_id), period_name_of(period_type_id), collection@, property@),
{
    let sep = vec!['_', '_'];
    let mut out: Vec<char> = Vec::new();
    push_underscored(&mut out, &phase_name(phase_id));
    push_underscored(&mut out, &sep);
    push_underscored(&mut out, &period_name(period_type_id));
    push_underscored(&mut out, &sep);
    push_underscored(&mut out, &chars_of(collection));
    push_underscored(&mut out, &sep);
    push_underscored(&mut out, &chars_of(property));
    assert(underscored(sep@) =~= separator());
    assert(out@ =~= table_name_of(phase_name_of(phase_id), period_name_of(period_type_id), collection@, property@));
    string_of(&out)
}

/// The qualified name of a collection from its prefix and its name.
pub fn qualified_name(prefix: &str, name: &str) -> (r: String)
    ensures
        r@ == qualified_collection_name(prefix@, name@),
{
    let mut out = chars_of(prefix);
    out.push('_');
    let n = chars_of(name);
    let mut i: usize = 0;
    let ghost start = out@;
    while i < n.len()
        invariant
            i <= n@.len(),
            out@ == start + n@.take(i as int),
        decreases n@.len() - i,
    {
        out.push(n[i]);
        i = i + 1;
        assert(n@.take(i as int) =~= n@.take(i - 1).push(n@[i - 1]));
    }
    assert(n@.take(i as int) =~= n@);
    assert(out@ =~= qualified_collection_name(prefix@, name@));
    string_of(&out)
}

/// The position of the first `__` in `s` at or after `from`, or -1.
pub open spec fn first_sep(s: Seq<char>, from: int) -> int
    decreases s.len() - from,
{
    if from < 0 || from + 1 >= s.len() {
        -1
    } else if s[from] == '_' && s[from + 1] == '_' {
        from
    } else {
        first_sep(s, from + 1)
    }
}

/// The end of the part of `s` that starts at `from`: the next `__`, or the
/// end of `s`.
pub open spec fn part_end(s: Seq<char>, from: int) -> int {
    if first_sep(s, from) >= 0 {
        first_sep(s, from)
    } else {
        s.len() as int
    }
}

/// The first four parts of a data-table name split at `__`: phase, period,
/// collection and property. `None` where it has fewer than four parts.
pub open spec fn name_parts(s: Seq<char>) -> Option<(Seq<char>, Seq<char>, Seq<char>, Seq<char>)> {
    let a = first_sep(s, 0);
    let b = first_sep(s, a + 2);
    let c = first_sep(s, b + 2);
    if a < 0 || b < 0 || c < 0 {
        None
    } else {
        Some((s.subrange(0, a), s.subrange(a + 2, b), s.subrange(b + 2, c), s.subrange(c + 2, part_end(s, c + 2))))
    }
}

/// `x` holds no `__`.
pub open spec fn no_sep(x: Seq<char>) -> bool {
    forall|i: int| 0 <= i && i + 1 < x.len() ==> !(#[trigger] x[i] == '_' && x[i + 1] == '_')
}

/// `x` holds no `__` and does not end in `_`, so that a `__` after it is
/// found where it starts.
pub open spec fn separable(x: Seq<char>) -> bool {
    no_sep(x) && (x.len() == 0 || x.last() != '_')
}

/// The parts of a data-table name.
#[derive(Debug, Clone, PartialEq, Eq)]
pub struct TableNameParts {
    pub phase: String,
    pub period: String,
    pub collection: String,
    pub property: String,
}

fn find_sep(s: &Vec<char>, from: usize) -> (r: Option<usize>)
    requires
        from <= s@.len(),
    ensures
        match r {
            Some(i) => i as int == first_sep(s@, from as int) && from <= i && i + 2 <= s@.len(),
            None => first_sep(s@, from as int) == -1,
        },
{
    let mut i: usize = from;
    while s.len() - i > 1
        invariant
            from <= i <= s@.len(),
            first_sep(s@, from as int) == first_sep(s@, i as int),
        decreases s@.len() - i,
    {
        if s[i] == '_' && s[i + 1] == '_' {
            return Some(i);
        }
        i = i + 1;
    }
    None
}

fn slice_text(s: &Vec<char>, from: usize, to: usize) -> (r: String)
    requires
        from <= to <= s@.len(),
    ensures
        r@ == s@.subrange(from as int, to as int),
{
    let mut out: Vec<char> = Vec::new();
    let mut i: usize = from;
    while i < to
        invariant
            from <= i <= to <= s@.len(),
            out@ == s@.subrange(from as int, i as int),
        decreases to - i,
    {
        out.push(s[i]);
        i = i + 1;
        assert(out@ =~= s@.subrange(from as int, i as int));
    }
    string_of(&out)
}

/// Splits a data-table name at `__` into phase, period, collection and
/// property.
pub fn table_name_parts(name: &str) -> (r: Option<TableNameParts>)
    ensures
        match name_parts(name@) {
            Some((a, b, c, d)) => r matches Some(p) && p.phase@ == a && p.period@ == b && p.collection@ == c
                && p.property@ == d,
            None => r is None,
        },
{
    let s = chars_of(name);
    let n = s.len();
    let a = match find_sep(&s, 0) {
        Some(a) => a,
        None => return None,
    };
    let b = match find_sep(&s, a + 2) {
        Some(b) => b,
        None => return None,
    };
    let c = match find_sep(&s, b + 2) {
        Some(c) => c,
        None => return None,
    };
    let d = match find_sep(&s, c + 2) {
        Some(d) => d,
        None => n,
    };
    Some(
        TableNameParts {
            phase: slice_text(&s, 0, a),
            period: slice_text(&s, a + 2, b),
            collection: slice_text(&s, b + 2, c),
            property: slice_text(&s, c + 2, d),
        },
    )
}

proof fn lemma_first_sep_after(x: Seq<char>, rest: Seq<char>, from: int)
    requires
        separable(x),
        0 <= from <= x.len(),
    ensures
        first_sep(x + separator() + rest, from) == x.len(),
    decreases x.len() - from,
{
    let s = x + separator() + rest;
    if from < x.len() {
        assert(s[from] == x[from]);
        if from + 1 < x.len() {
            assert(s[from + 1] == x[from + 1]);
            assert(!(x[from] == '_' && x[from + 1] == '_'));
        } else {
            assert(x.last() == x[from]);
        }
        lemma_first_sep_after(x, rest, from + 1);
    } else {
        assert(s[from] == '_' && s[from + 1] == '_');
    }
}

proof fn lemma_first_sep_none(x: Seq<char>, from: int)
    requires
        no_sep(x),
        0 <= from <= x.len(),
    ensures
        first_sep(x, from) == -1,
    decreases x.len() - from,
{
    if from + 1 < x.len() {
        lemma_first_sep_none(x, from + 1);
    }
}

proof fn lemma_first_sep_shift(p: Seq<char>, x: Seq<char>, from: int)
    requires
        0 <= from <= x.len(),
    ensures
        first_sep(p + x, p.len() + from) == if first_sep(x, from) >= 0 {
            p.len() + first_sep(x, from)
        } else {
            -1
        },
    decreases x.len() - from,
{
    let s = p + x;
    if from + 1 < x.len() {
        assert(s[p.len() + from] == x[from]);
        assert(s[p.len() + from + 1] == x[from + 1]);
        lemma_first_sep_shift(p, x, from + 1);
    }
}

/// A data-table name splits back into the names it was made of, wherever the
/// underscored collection name holds no `__` and does not end in `_`, and the
/// underscored property name holds no `__`.
#[verifier::rlimit(60)]
pub proof fn lemma_table_name_parts(phase_id: i64, period_type_id: i64, collection: Seq<char>, property: Seq<char>)
    requires
        separable(underscored(collection)),
        no_sep(underscored(property)),
    ensures
        name_parts(table_name_of(phase_name_of(phase_id), period_name_of(period_type_id), collection, property))
            == Some(
            (
                phase_name_of(phase_id),
                period_name_of(period_type_id),
                underscored(collection),
                underscored(property),
            ),
        ),
{
    let a = underscored(phase_name_of(phase_id));
    let b = underscored(period_name_of(period_type_id));
    let c = underscored(collection);
    let d = underscored(property);
    assert(a =~= phase_name_of(phase_id));
    assert(b =~= period_name_of(period_type_id));
    assert(separable(a));
    assert(separable(b));
    let sep = separator();
    let s = table_name_of(phase_name_of(phase_id), period_name_of(period_type_id), collection, property);
    let tail_a = b + sep + c + sep + d;
    let tail_b = c + sep + d;
    assert(s =~= a + sep + tail_a);
    lemma_first_sep_after(a, tail_a, 0);
    let head_a = a + sep;
    assert(s =~= head_a + (b + sep + tail_b));
    lemma_first_sep_after(b, tail_b, 0);
    lemma_first_sep_shift(head_a, b + sep + tail_b, 0);
    let head_b = head_a + b + sep;
    assert(s =~= head_b + (c + sep + d));
    lemma_first_sep_after(c, d, 0);
    lemma_first_sep_shift(head_b, c + sep + d, 0);
    let head_c = head_b + c + sep;
    assert(s =~= head_c + d);
    lemma_first_sep_none(d, 0);
    lemma_first_sep_shift(head_c, d, 0);
    assert(s.subrange(0, a.len() as int) =~= a);
    assert(s.subrange(head_a.len() as int, (head_a.len() + b.len()) as int) =~= b);
    assert(s.subrange(head_b.len() as int, (head_b.len() + c.len()) as int) =~= c);
    assert(s.subrange(head_c.len() as int, s.len() as int) =~= d);
}

} // verus!
