//! Character-level helpers on names.
use vstd::prelude::*;
use vstd::std_specs::iter::IteratorSpec;
use vstd::string::StringExecFns;

verus! {

/// The characters of `s`, in order.
pub fn chars_of(s: &str) -> (r: Vec<char>)
    ensures
        r@ == s@,
{
    let mut out: Vec<char> = Vec::new();
    let mut it = s.chars();
    let ghost full = s@;
    proof {
        broadcast use vstd::string::axiom_spec_iter;
    }
    assert(it.remaining() == s@);
    loop
        invariant
            out@ + it.remaining() == full,
            full == s@,
        decreases full.len() - out@.len(),
    {
        match it.next() {
            Some(c) => {
                proof {
                    broadcast use vstd::string::next_postcondition;
                }
                out.push(c);
                assert(out@ + it.remaining() =~= full);
            },
            None => {
                proof {
                    broadcast use vstd::string::next_postcondition;
                }
                assert(out@ =~= full);
                return out;
            },
        }
    }
}

/// The text of `a` followed by that of `b`.
pub fn join(a: &String, b: &str) -> (r: String)
    ensures
        r@ == a@ + b@,
{
    let c = a.clone();
    c.concat(b)
}

/// Whether `a` and `b` hold the same characters.
pub fn same_text(a: &str, b: &str) -> (r: bool)
    ensures
        r == (a@ == b@),
{
    let x = a.to_owned();
    let y = b.to_owned();
    x == y
}

/// Whether two character sequences are equal.
pub fn same_chars(a: &Vec<char>, b: &Vec<char>) -> (r: bool)
    ensures
        r == (a@ == b@),
{
    if a.len() != b.len() {
        return false;
    }
    let mut i: usize = 0;
    while i < a.len()
        invariant
            a@.len() == b@.len(),
            0 <= i <= a@.len(),
            forall|j: int| 0 <= j < i ==> a@[j] == b@[j],
        decreases a@.len() - i,
    {
        if a[i] != b[i] {
            return false;
        }
        i = i + 1;
    }
    assert(a@ =~= b@);
    true
}

/// Index of the first `'.'` of `s`, or its length where it holds none.
pub open spec fn first_dot(s: Seq<char>) -> int
    decreases s.len(),
{
    if s.len() == 0 {
        0
    } else if s[0] == '.' {
        0
    } else {
        1 + first_dot(s.drop_first())
    }
}

/// Whether `s` holds a `'.'`.
pub open spec fn has_dot(s: Seq<char>) -> bool {
    first_dot(s) < s.len()
}

/// The part of `s` before its first `'.'`.
pub open spec fn head_part(s: Seq<char>) -> Seq<char> {
    s.subrange(0, first_dot(s))
}

/// The part of `s` after its first `'.'`.
pub open spec fn tail_part(s: Seq<char>) -> Seq<char> {
    s.subrange(first_dot(s) + 1, s.len() as int)
}

/// For a qualified name `table.column[.more]`, the table.
pub open spec fn table_part(s: Seq<char>) -> Seq<char> {
    head_part(s)
}

/// For a qualified name `table.column[.more]`, the column.
pub open spec fn column_part(s: Seq<char>) -> Seq<char> {
    head_part(tail_part(s))
}

proof fn lemma_first_dot(s: Seq<char>, i: int)
    requires
        0 <= i <= s.len(),
        forall|j: int| 0 <= j < i ==> s[j] != '.',
        i == s.len() || s[i] == '.',
    ensures
        first_dot(s) == i,
    decreases i,
{
    if i > 0 {
        let t = s.drop_first();
        assert forall|j: int| 0 <= j < i - 1 implies t[j] != '.' by {
            assert(t[j] == s[j + 1]);
        }
        if i < s.len() {
            assert(t[i - 1] == s[i]);
        }
        lemma_first_dot(t, i - 1);
    }
}

/// Index of the first `'.'` of `s`, or its length where it holds none.
pub fn find_dot(s: &Vec<char>, from: usize) -> (r: usize)
    requires
        from <= s@.len(),
    ensures
        r as int == from + first_dot(s@.subrange(from as int, s@.len() as int)),
        from <= r <= s@.len(),
{
    let mut i: usize = from;
    while i < s.len() && s[i] != '.'
        invariant
            from <= i <= s@.len(),
            forall|j: int| from <= j < i ==> s@[j] != '.',
        decreases s@.len() - i,
    {
        i = i + 1;
    }
    proof {
        let t = s@.subrange(from as int, s@.len() as int);
        assert forall|j: int| 0 <= j < i - from implies t[j] != '.' by {
            assert(t[j] == s@[from + j]);
        }
        if i < s@.len() {
            assert(t[i - from] == s@[i as int]);
        }
        lemma_first_dot(t, i - from);
    }
    i
}

/// Splits a qualified name `table.column[.more]` into its table and column;
/// `None` where the name holds no `'.'`.
pub fn split_qualified(name: &str) -> (r: Option<(Vec<char>, Vec<char>)>)
    ensures
        r.is_some() == has_dot(name@),
        r matches Some(p) ==> p.0@ == table_part(name@) && p.1@ == column_part(name@),
{
    let cs = chars_of(name);
    let d = find_dot(&cs, 0);
    assert(cs@.subrange(0, cs@.len() as int) =~= cs@);
    if d == cs.len() {
        return None;
    }
    let e = find_dot(&cs, d + 1);
    let mut table: Vec<char> = Vec::new();
    let mut i: usize = 0;
    while i < d
        invariant
            0 <= i <= d,
            d < cs@.len(),
            table@ == cs@.subrange(0, i as int),
        decreases d - i,
    {
        table.push(cs[i]);
        i = i + 1;
        assert(table@ =~= cs@.subrange(0, i as int));
    }
    let mut column: Vec<char> = Vec::new();
    let mut i: usize = d + 1;
    while i < e
        invariant
            d + 1 <= i <= e,
            e <= cs@.len(),
            column@ == cs@.subrange(d + 1, i as int),
        decreases e - i,
    {
        column.push(cs[i]);
        i = i + 1;
        assert(column@ =~= cs@.subrange(d + 1, i as int));
    }
    proof {
        let t = tail_part(cs@);
        assert(t =~= cs@.subrange(d + 1, cs@.len() as int));
        assert(column@ =~= t.subrange(0, first_dot(t)));
    }
    Some((table, column))
}

} // verus!
