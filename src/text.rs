//! Lexical rules of the query language: white space, trimming, splitting on
//! delimiters and unsigned decimal numbers, all over sequences of characters.
use vstd::prelude::*;

verus! {

/// The characters with the Unicode `White_Space` property.
pub open spec fn is_space(c: char) -> bool {
    let u = c as u32;
    ||| 0x9 <= u <= 0xd
    ||| u == 0x20
    ||| u == 0x85
    ||| u == 0xa0
    ||| u == 0x1680
    ||| 0x2000 <= u <= 0x200a
    ||| u == 0x2028
    ||| u == 0x2029
    ||| u == 0x202f
    ||| u == 0x205f
    ||| u == 0x3000
}

/// `s` without its leading white space.
pub open spec fn trim_start(s: Seq<char>) -> Seq<char>
    decreases s.len(),
{
    if s.len() > 0 && is_space(s[0]) {
        trim_start(s.drop_first())
    } else {
        s
    }
}

/// `s` without its trailing white space.
pub open spec fn trim_end(s: Seq<char>) -> Seq<char>
    decreases s.len(),
{
    if s.len() > 0 && is_space(s.last()) {
        trim_end(s.drop_last())
    } else {
        s
    }
}

/// `s` without leading and trailing white space.
pub open spec fn trim(s: Seq<char>) -> Seq<char> {
    trim_end(trim_start(s))
}

/// Whether `c` is white space.
pub fn char_is_space(c: char) -> (r: bool)
    ensures
        r == is_space(c),
{
    let u = c as u32;
    (0x9 <= u && u <= 0xd) || u == 0x20 || u == 0x85 || u == 0xa0 || u == 0x1680 || (0x2000
        <= u && u <= 0x200a) || u == 0x2028 || u == 0x2029 || u == 0x202f || u == 0x205f || u
        == 0x3000
}

/// The bounds, within `lo..hi`, of the trimmed text `cs[lo..hi]`.
pub fn trim_range(cs: &Vec<char>, lo: usize, hi: usize) -> (r: (usize, usize))
    requires
        lo <= hi <= cs.len(),
    ensures
        lo <= r.0 <= r.1 <= hi,
        cs@.subrange(r.0 as int, r.1 as int) == trim(cs@.subrange(lo as int, hi as int)),
{
    let mut a = lo;
    while a < hi && char_is_space(cs[a])
        invariant
            lo <= a <= hi <= cs.len(),
            trim_start(cs@.subrange(lo as int, hi as int)) == trim_start(
                cs@.subrange(a as int, hi as int),
            ),
        decreases hi - a,
    {
        assert(cs@.subrange(a as int, hi as int).drop_first() =~= cs@.subrange(
            a + 1,
            hi as int,
        ));
        a = a + 1;
    }
    let mut b = hi;
    while b > a && char_is_space(cs[b - 1])
        invariant
            lo <= a <= b <= hi <= cs.len(),
            trim(cs@.subrange(lo as int, hi as int)) == trim_end(cs@.subrange(a as int, b as int)),
        decreases b - a,
    {
        assert(cs@.subrange(a as int, b as int).drop_last() =~= cs@.subrange(
            a as int,
            b - 1,
        ));
        b = b - 1;
    }
    (a, b)
}

/// The pieces of `s` between the characters of `delims`, in order; there is
/// always one more piece than there are delimiters in `s`.
pub open spec fn split_on(s: Seq<char>, delims: Seq<char>) -> Seq<Seq<char>>
    decreases s.len(),
{
    if s.len() == 0 {
        seq![Seq::empty()]
    } else {
        let parts = split_on(s.drop_last(), delims);
        if delims.contains(s.last()) {
            parts.push(Seq::empty())
        } else {
            parts.update(parts.len() - 1, parts.last().push(s.last()))
        }
    }
}

/// Splitting always gives at least one piece.
pub proof fn lemma_split_on_nonempty(s: Seq<char>, delims: Seq<char>)
    ensures
        split_on(s, delims).len() >= 1,
    decreases s.len(),
{
    if s.len() > 0 {
        lemma_split_on_nonempty(s.drop_last(), delims);
    }
}

/// Whether `c` is one of `delims`.
pub fn char_in(c: char, delims: &[char]) -> (r: bool)
    ensures
        r == delims@.contains(c),
{
    let mut i: usize = 0;
    while i < delims.len()
        invariant
            i <= delims@.len(),
            forall|j: int| 0 <= j < i ==> delims@[j] != c,
        decreases delims.len() - i,
    {
        if delims[i] == c {
            assert(delims@[i as int] == c);
            return true;
        }
        i = i + 1;
    }
    false
}

/// The bounds, within `lo..hi`, of each piece of `cs[lo..hi]` split on `delims`.
pub fn split_ranges(cs: &Vec<char>, lo: usize, hi: usize, delims: &[char]) -> (r: Vec<
    (usize, usize),
>)
    requires
        lo <= hi <= cs.len(),
    ensures
        r@.len() == split_on(cs@.subrange(lo as int, hi as int), delims@).len(),
        forall|k: int|
            0 <= k < r@.len() ==> {
                &&& lo <= (#[trigger] r@[k]).0 <= r@[k].1 <= hi
                &&& cs@.subrange(r@[k].0 as int, r@[k].1 as int) == split_on(
                    cs@.subrange(lo as int, hi as int),
                    delims@,
                )[k]
            },
{
    let mut ranges: Vec<(usize, usize)> = Vec::new();
    let mut start = lo;
    let mut i = lo;
    while i < hi
        invariant
            lo <= start <= i <= hi <= cs.len(),
            ranges@.len() + 1 == split_on(cs@.subrange(lo as int, i as int), delims@).len(),
            cs@.subrange(start as int, i as int) == split_on(
                cs@.subrange(lo as int, i as int),
                delims@,
            ).last(),
            forall|k: int|
                0 <= k < ranges@.len() ==> {
                    &&& lo <= (#[trigger] ranges@[k]).0 <= ranges@[k].1 <= hi
                    &&& cs@.subrange(ranges@[k].0 as int, ranges@[k].1 as int) == split_on(
                        cs@.subrange(lo as int, i as int),
                        delims@,
                    )[k]
                },
        decreases hi - i,
    {
        let ghost before = cs@.subrange(lo as int, i as int);
        let ghost after = cs@.subrange(lo as int, i + 1);
        assert(after.drop_last() =~= before);
        proof {
            lemma_split_on_nonempty(before, delims@);
        }
        if char_in(cs[i], delims) {
            ranges.push((start, i));
            start = i + 1;
            assert(cs@.subrange(start as int, i + 1) =~= Seq::<char>::empty());
        } else {
            assert(cs@.subrange(start as int, i + 1) =~= cs@.subrange(start as int, i as int).push(
                cs@[i as int],
            ));
        }
        i = i + 1;
    }
    ranges.push((start, hi));
    ranges
}

pub open spec fn is_digit(c: char) -> bool {
    '0' <= c <= '9'
}

pub open spec fn all_digits(s: Seq<char>) -> bool {
    &&& s.len() > 0
    &&& forall|i: int| 0 <= i < s.len() ==> is_digit(#[trigger] s[i])
}

/// The number that the decimal digits `s` write.
pub open spec fn digits_value(s: Seq<char>) -> nat
    decreases s.len(),
{
    if s.len() == 0 {
        0
    } else {
        digits_value(s.drop_last()) * 10 + (s.last() as nat - '0' as nat) as nat
    }
}

/// The digits of `s` once an optional leading `+` is set aside.
pub open spec fn unsigned_digits(s: Seq<char>) -> Seq<char> {
    if s.len() > 0 && s[0] == '+' {
        s.drop_first()
    } else {
        s
    }
}

/// The unsigned integer that `s` writes: an optional `+` and one or more
/// decimal digits, whose value fits in `usize`; `None` for anything else.
pub open spec fn parse_usize(s: Seq<char>) -> Option<usize> {
    let ds = unsigned_digits(s);
    if all_digits(ds) && digits_value(ds) <= usize::MAX {
        Some(digits_value(ds) as usize)
    } else {
        None
    }
}

/// Appending a digit never makes a number smaller.
pub proof fn lemma_digits_value_prefix(s: Seq<char>, j: int)
    requires
        0 <= j <= s.len(),
        forall|i: int| 0 <= i < s.len() ==> is_digit(#[trigger] s[i]),
    ensures
        digits_value(s.take(j)) <= digits_value(s),
    decreases s.len(),
{
    if j < s.len() {
        assert(s.drop_last().take(j) =~= s.take(j));
        lemma_digits_value_prefix(s.drop_last(), j);
    } else {
        assert(s.take(j) =~= s);
    }
}

/// The value of `cs[lo..hi]` read as an unsigned integer, as `parse_usize` says.
pub fn parse_usize_range(cs: &Vec<char>, lo: usize, hi: usize) -> (r: Option<usize>)
    requires
        lo <= hi <= cs.len(),
    ensures
        r == parse_usize(cs@.subrange(lo as int, hi as int)),
{
    let ghost s = cs@.subrange(lo as int, hi as int);
    let mut a = lo;
    if lo < hi && cs[lo] == '+' {
        a = lo + 1;
        assert(s.drop_first() =~= cs@.subrange(a as int, hi as int));
    }
    let ghost ds = cs@.subrange(a as int, hi as int);
    assert(ds == unsigned_digits(s));
    if a == hi {
        return None;
    }
    let mut value: usize = 0;
    let mut i = a;
    while i < hi
        invariant
            lo <= a <= i <= hi <= cs.len(),
            s == cs@.subrange(lo as int, hi as int),
            ds == cs@.subrange(a as int, hi as int),
            ds == unsigned_digits(s),
            forall|k: int| a <= k < i ==> is_digit(#[trigger] cs@[k]),
            value as nat == digits_value(cs@.subrange(a as int, i as int)),
        decreases hi - i,
    {
        let c = cs[i];
        if !('0' <= c && c <= '9') {
            assert(ds[i - a] == cs@[i as int]);
            assert(!all_digits(ds));
            return None;
        }
        let d = (c as u32 - '0' as u32) as usize;
        assert(cs@.subrange(a as int, i + 1).drop_last() =~= cs@.subrange(a as int, i as int));
        let next = match value.checked_mul(10) {
            Some(m) => m.checked_add(d),
            None => None,
        };
        match next {
            Some(v) => {
                value = v;
            },
            None => {
                proof {
                    let n = i + 1 - a;
                    assert(ds.take(n) =~= cs@.subrange(a as int, i + 1));
                    if all_digits(ds) {
                        lemma_digits_value_prefix(ds, n);
                    }
                }
                return None;
            },
        }
        i = i + 1;
    }
    assert(cs@.subrange(a as int, i as int) =~= ds);
    Some(value)
}

} // verus!
