use vstd::prelude::*;

verus! {

/// How many fractional digits a rendered result keeps at most.
pub const MAX_FRACTION_DIGITS: usize = 10;

/// `s` without the copies of `c` at its end.
pub open spec fn trim_end(s: Seq<char>, c: char) -> Seq<char>
    decreases s.len(),
{
    if s.len() > 0 && s.last() == c {
        trim_end(s.drop_last(), c)
    } else {
        s
    }
}

/// A decimal rendering without trailing zeros, and then without a trailing point.
pub open spec fn spec_trim_number(s: Seq<char>) -> Seq<char> {
    trim_end(trim_end(s, '0'), '.')
}

/// The number of `.` in `s`.
pub open spec fn points(s: Seq<char>) -> nat
    decreases s.len(),
{
    if s.len() == 0 {
        0
    } else {
        points(s.drop_last()) + if s.last() == '.' {
            1nat
        } else {
            0nat
        }
    }
}

/// The number of characters after the last `.` of `s` (all of them if there is none).
pub open spec fn tail_len(s: Seq<char>) -> nat
    decreases s.len(),
{
    if s.len() == 0 || s.last() == '.' {
        0
    } else {
        tail_len(s.drop_last()) + 1
    }
}

/// The rendering of a non-integral result: `wide` trimmed, unless it keeps a single
/// point followed by more than `MAX_FRACTION_DIGITS` digits; then `narrow` trimmed.
pub open spec fn spec_shorten(wide: Seq<char>, narrow: Seq<char>) -> Seq<char> {
    let t = spec_trim_number(wide);
    if points(t) == 1 && tail_len(t) > MAX_FRACTION_DIGITS {
        spec_trim_number(narrow)
    } else {
        t
    }
}

fn trim_end_exec(s: &Vec<char>, c: char) -> (r: Vec<char>)
    ensures
        r@ == trim_end(s@, c),
{
    let mut n = s.len();
    assert(s@.subrange(0, n as int) =~= s@);
    while n > 0 && s[n - 1] == c
        invariant
            n <= s@.len(),
            trim_end(s@, c) == trim_end(s@.subrange(0, n as int), c),
        decreases n,
    {
        assert(s@.subrange(0, n as int).drop_last() =~= s@.subrange(0, n - 1));
        n = n - 1;
    }
    let mut r: Vec<char> = Vec::new();
    let mut i: usize = 0;
    while i < n
        invariant
            i <= n <= s@.len(),
            r@ == s@.subrange(0, i as int),
        decreases n - i,
    {
        r.push(s[i]);
        i = i + 1;
        assert(r@ =~= s@.subrange(0, i as int));
    }
    r
}

/// Removes trailing zeros, then a trailing point, from a decimal rendering.
pub fn trim_number(s: &Vec<char>) -> (r: Vec<char>)
    ensures
        r@ == spec_trim_number(s@),
{
    let z = trim_end_exec(s, '0');
    trim_end_exec(&z, '.')
}

fn count_points(s: &Vec<char>) -> (r: (usize, usize))
    ensures
        r.0 == points(s@),
        r.1 == tail_len(s@),
{
    let mut i: usize = 0;
    let mut p: usize = 0;
    let mut tail: usize = 0;
    while i < s.len()
        invariant
            i <= s@.len(),
            p == points(s@.subrange(0, i as int)),
            tail == tail_len(s@.subrange(0, i as int)),
            p <= i,
            tail <= i,
        decreases s.len() - i,
    {
        assert(s@.subrange(0, i + 1).drop_last() =~= s@.subrange(0, i as int));
        if s[i] == '.' {
            p = p + 1;
            tail = 0;
        } else {
            tail = tail + 1;
        }
        i = i + 1;
    }
    assert(s@.subrange(0, i as int) =~= s@);
    (p, tail)
}

/// Picks the rendering of a non-integral result from its rendering with many
/// fractional digits (`wide`) and with `MAX_FRACTION_DIGITS` of them (`narrow`).
pub fn shorten(wide: &Vec<char>, narrow: &Vec<char>) -> (r: Vec<char>)
    ensures
        r@ == spec_shorten(wide@, narrow@),
{
    let t = trim_number(wide);
    let (p, tail) = count_points(&t);
    if p == 1 && tail > MAX_FRACTION_DIGITS {
        trim_number(narrow)
    } else {
        t
    }
}

} // verus!
