//! Small helpers on strings.

use vstd::prelude::*;
use vstd::string::StrSliceExecFns;

verus! {

/// Whether two strings hold the same characters.
pub fn same_text(a: &str, b: &str) -> (r: bool)
    ensures
        r == (a@ == b@),
{
    let n = a.unicode_len();
    if n != b.unicode_len() {
        return false;
    }
    let mut i: usize = 0;
    while i < n
        invariant
            i <= n,
            n == a@.len(),
            n == b@.len(),
            forall|j: int| 0 <= j < i ==> a@[j] == b@[j],
        decreases n - i,
    {
        if a.get_char(i) != b.get_char(i) {
            return false;
        }
        i += 1;
    }
    assert(a@ =~= b@);
    true
}

/// The index of the first `sep` in `s` at or after `from`, or `s.len()`.
pub open spec fn next_sep(s: Seq<char>, sep: char, from: int) -> int
    decreases s.len() - from,
{
    if from >= s.len() {
        s.len() as int
    } else if s[from] == sep {
        from
    } else {
        next_sep(s, sep, from + 1)
    }
}

/// The pieces of `s` from `from` on that lie between occurrences of `sep`.
/// There is always at least one piece; pieces can be empty.
pub open spec fn split_from(s: Seq<char>, sep: char, from: int) -> Seq<Seq<char>>
    decreases s.len() - from,
{
    let stop = next_sep(s, sep, from);
    if from > s.len() || from < 0 {
        Seq::empty()
    } else if stop >= s.len() || stop < from {
        seq![s.subrange(from, s.len() as int)]
    } else {
        seq![s.subrange(from, stop)] + split_from(s, sep, stop + 1)
    }
}

/// The pieces of `s` that lie between occurrences of `sep`.
pub open spec fn split(s: Seq<char>, sep: char) -> Seq<Seq<char>> {
    split_from(s, sep, 0)
}

pub proof fn lemma_next_sep(s: Seq<char>, sep: char, from: int)
    requires
        0 <= from <= s.len(),
    ensures
        from <= next_sep(s, sep, from) <= s.len(),
        next_sep(s, sep, from) < s.len() ==> s[next_sep(s, sep, from)] == sep,
        forall|j: int| from <= j < next_sep(s, sep, from) ==> s[j] != sep,
    decreases s.len() - from,
{
    if from < s.len() && s[from] != sep {
        lemma_next_sep(s, sep, from + 1);
    }
}

/// The views of a list of strings.
pub open spec fn texts(v: Seq<String>) -> Seq<Seq<char>> {
    Seq::new(v.len(), |i: int| v[i]@)
}

/// Splits `s` at every `sep`.
pub fn split_text(s: &str, sep: char) -> (r: Vec<String>)
    ensures
        texts(r@) == split(s@, sep),
        r@.len() >= 1,
{
    let n = s.unicode_len();
    let mut out: Vec<String> = Vec::new();
    let mut from: usize = 0;
    let mut done = false;
    while !done
        invariant
            n == s@.len(),
            from <= n,
            !done ==> split(s@, sep) == texts(out@) + split_from(s@, sep, from as int),
            done ==> split(s@, sep) == texts(out@) && out@.len() >= 1,
        decreases
                (if done {
                    0
                } else {
                    n - from + 1
                }),
    {
        let mut stop: usize = from;
        while stop < n && s.get_char(stop) != sep
            invariant
                from <= stop <= n,
                n == s@.len(),
                next_sep(s@, sep, from as int) == next_sep(s@, sep, stop as int),
            decreases n - stop,
        {
            stop += 1;
        }
        proof {
            lemma_next_sep(s@, sep, from as int);
        }
        let ghost before = texts(out@);
        let piece = s.substring_char(from, stop).to_owned();
        out.push(piece);
        assert(texts(out@) =~= before.push(s@.subrange(from as int, stop as int)));
        if stop >= n {
            proof {
                assert(before + seq![s@.subrange(from as int, n as int)] =~= texts(out@));
            }
            done = true;
        } else {
            proof {
                assert(before + (seq![s@.subrange(from as int, stop as int)] + split_from(
                    s@,
                    sep,
                    stop + 1,
                )) =~= texts(out@) + split_from(s@, sep, stop + 1));
            }
            from = stop + 1;
        }
    }
    out
}

/// What counts as white space: the characters with the Unicode property
/// White_Space.
pub open spec fn is_space(c: char) -> bool {
    let u = c as u32;
    (0x09 <= u <= 0x0d) || u == 0x20 || u == 0x85 || u == 0xa0 || u == 0x1680 || (0x2000 <= u
        <= 0x200a) || u == 0x2028 || u == 0x2029 || u == 0x202f || u == 0x205f || u == 0x3000
}

fn space(c: char) -> (r: bool)
    ensures
        r == is_space(c),
{
    let u = c as u32;
    (0x09 <= u && u <= 0x0d) || u == 0x20 || u == 0x85 || u == 0xa0 || u == 0x1680 || (0x2000 <= u
        && u <= 0x200a) || u == 0x2028 || u == 0x2029 || u == 0x202f || u == 0x205f || u
        == 0x3000
}

/// The index of the first character at or after `from` that is no space.
pub open spec fn skip_spaces(s: Seq<char>, from: int) -> int
    decreases s.len() - from,
{
    if from >= s.len() {
        s.len() as int
    } else if is_space(s[from]) {
        skip_spaces(s, from + 1)
    } else {
        from
    }
}

/// The index after the last character before `to` that is no space, but
/// not less than `low`.
pub open spec fn drop_spaces(s: Seq<char>, low: int, to: int) -> int
    decreases to,
{
    if to <= low || to <= 0 {
        low
    } else if is_space(s[to - 1]) {
        drop_spaces(s, low, to - 1)
    } else {
        to
    }
}

/// `s` without the white space at its start and at its end.
pub open spec fn trimmed(s: Seq<char>) -> Seq<char> {
    let start = skip_spaces(s, 0);
    s.subrange(start, drop_spaces(s, start, s.len() as int))
}

proof fn lemma_skip_spaces(s: Seq<char>, from: int)
    requires
        0 <= from <= s.len(),
    ensures
        from <= skip_spaces(s, from) <= s.len(),
    decreases s.len() - from,
{
    if from < s.len() && is_space(s[from]) {
        lemma_skip_spaces(s, from + 1);
    }
}

proof fn lemma_drop_spaces(s: Seq<char>, low: int, to: int)
    requires
        0 <= low <= to <= s.len(),
    ensures
        low <= drop_spaces(s, low, to) <= to,
    decreases to,
{
    if to > low && is_space(s[to - 1]) {
        lemma_drop_spaces(s, low, to - 1);
    }
}

/// Removes the white space at the start and at the end of `s`.
pub fn trim_text(s: &str) -> (r: String)
    ensures
        r@ == trimmed(s@),
{
    let n = s.unicode_len();
    let mut start: usize = 0;
    while start < n && space(s.get_char(start))
        invariant
            start <= n,
            n == s@.len(),
            skip_spaces(s@, 0) == skip_spaces(s@, start as int),
        decreases n - start,
    {
        start += 1;
    }
    let mut end: usize = n;
    while end > start && space(s.get_char(end - 1))
        invariant
            start <= end <= n,
            n == s@.len(),
            drop_spaces(s@, start as int, n as int) == drop_spaces(s@, start as int, end as int),
        decreases end,
    {
        end -= 1;
    }
    s.substring_char(start, end).to_owned()
}

} // verus!
