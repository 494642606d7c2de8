//! Scanning primitives over character sequences: finding characters and
//! fixed substrings, recognizing white space, and trimming.

use vstd::prelude::*;

verus! {

/// True when `pat` occurs in `s` starting at index `i`.
pub open spec fn occurs_at(s: Seq<char>, pat: Seq<char>, i: int) -> bool {
    0 <= i && i + pat.len() <= s.len() && s.subrange(i, i + pat.len()) == pat
}

/// The index of the first occurrence of the character `c` in `s` at or
/// after `from`, if any.
pub open spec fn find_char_at(s: Seq<char>, c: char, from: int) -> Option<int>
    decreases s.len() - from
        when 0 <= from <= s.len()
{
    if from >= s.len() {
        None
    } else if s[from] == c {
        Some(from)
    } else {
        find_char_at(s, c, from + 1)
    }
}

/// The index of the first occurrence of `pat` in `s` starting at or
/// after `from`, if any.
pub open spec fn find_sub_at(s: Seq<char>, pat: Seq<char>, from: int) -> Option<int>
    decreases s.len() - from
        when pat.len() >= 1
{
    if from + pat.len() > s.len() {
        None
    } else if occurs_at(s, pat, from) {
        Some(from)
    } else {
        find_sub_at(s, pat, from + 1)
    }
}

/// `find_char_at` returns exactly the first occurrence at or after `from`.
pub proof fn lemma_find_char_at(s: Seq<char>, c: char, from: int)
    requires
        0 <= from <= s.len(),
    ensures
        match find_char_at(s, c, from) {
            Some(i) => from <= i < s.len() && s[i] == c && (forall|j: int|
                from <= j < i ==> s[j] != c),
            None => forall|j: int| from <= j < s.len() ==> s[j] != c,
        },
    decreases s.len() - from,
{
    if from < s.len() && s[from] != c {
        lemma_find_char_at(s, c, from + 1);
    }
}

/// `find_sub_at` returns exactly the first occurrence at or after `from`.
pub proof fn lemma_find_sub_at(s: Seq<char>, pat: Seq<char>, from: int)
    requires
        0 <= from,
        pat.len() >= 1,
    ensures
        match find_sub_at(s, pat, from) {
            Some(i) => from <= i && occurs_at(s, pat, i) && (forall|j: int|
                from <= j < i ==> !occurs_at(s, pat, j)),
            None => forall|j: int| from <= j ==> !occurs_at(s, pat, j),
        },
    decreases s.len() - from,
{
    if from + pat.len() <= s.len() && !occurs_at(s, pat, from) {
        lemma_find_sub_at(s, pat, from + 1);
    }
}

/// The Unicode white-space characters, the set that `str::trim_start`
/// removes from the front of a string.
pub open spec fn is_space_char(c: char) -> bool {
    let u = c as u32;
    u == 0x09 || u == 0x0a || u == 0x0b || u == 0x0c || u == 0x0d || u == 0x20
        || u == 0x85 || u == 0xa0 || u == 0x1680 || (0x2000 <= u && u <= 0x200a)
        || u == 0x2028 || u == 0x2029 || u == 0x202f || u == 0x205f || u == 0x3000
}

/// `s` with every leading white-space character removed; the rest of the
/// sequence is kept verbatim.
pub open spec fn trim_leading(s: Seq<char>) -> Seq<char>
    decreases s.len()
{
    if s.len() > 0 && is_space_char(s[0]) {
        trim_leading(s.drop_first())
    } else {
        s
    }
}

/// Trimming drops exactly the leading run of white space: if the first `k`
/// characters are white space and the next one (if any) is not, the result
/// is the suffix of `s` from `k` on.
pub proof fn lemma_trim_leading_skip(s: Seq<char>, k: int)
    requires
        0 <= k <= s.len(),
        forall|j: int| 0 <= j < k ==> is_space_char(s[j]),
        k < s.len() ==> !is_space_char(s[k]),
    ensures
        trim_leading(s) == s.skip(k),
    decreases k,
{
    if k == 0 {
        assert(s.skip(0) =~= s);
    } else {
        lemma_trim_leading_skip(s.drop_first(), k - 1);
        assert(s.drop_first().skip(k - 1) =~= s.skip(k));
    }
}

/// Every sequence splits into a leading run of white space and a
/// remainder that trimming keeps verbatim.
pub proof fn lemma_trim_leading_shape(s: Seq<char>)
    ensures
        exists|w: int|
            #![auto]
            0 <= w <= s.len() && (forall|j: int| 0 <= j < w ==> is_space_char(s[j])) && (w < s.len()
                ==> !is_space_char(s[w])) && trim_leading(s) == s.skip(w),
    decreases s.len(),
{
    if s.len() > 0 && is_space_char(s[0]) {
        lemma_trim_leading_shape(s.drop_first());
        let w0 = choose|w: int|
            0 <= w <= s.drop_first().len() && (forall|j: int|
                0 <= j < w ==> is_space_char(s.drop_first()[j])) && (w < s.drop_first().len()
                ==> !is_space_char(s.drop_first()[w])) && trim_leading(s.drop_first())
                == s.drop_first().skip(w);
        assert(s.drop_first().skip(w0) =~= s.skip(w0 + 1));
        assert(forall|j: int| 0 <= j < w0 + 1 ==> is_space_char(s[j])) by {
            assert(forall|j: int| 1 <= j < w0 + 1 ==> s[j] == s.drop_first()[j - 1]);
        }
        assert(0 <= w0 + 1 <= s.len() && (forall|j: int| 0 <= j < w0 + 1 ==> is_space_char(s[j]))
            && (w0 + 1 < s.len() ==> !is_space_char(s[w0 + 1])) && trim_leading(s) == s.skip(
            w0 + 1,
        ));
    } else {
        assert(s.skip(0) =~= s);
        assert(0 <= 0 <= s.len() && (forall|j: int| 0 <= j < 0 ==> is_space_char(s[j])) && (0
            < s.len() ==> !is_space_char(s[0])) && trim_leading(s) == s.skip(0));
    }
}

/// The characters of `s`, collected into a vector.
pub(crate) fn chars_of(s: &str) -> (v: Vec<char>)
    ensures
        v@ == s@,
{
    let n = s.unicode_len();
    let mut v: Vec<char> = Vec::new();
    let mut i: usize = 0;
    while i < n
        invariant
            i <= n,
            n == s@.len(),
            v@ == s@.subrange(0, i as int),
        decreases n - i,
    {
        let c = s.get_char(i);
        v.push(c);
        i = i + 1;
        proof {
            assert(v@ =~= s@.subrange(0, i as int));
        }
    }
    proof {
        assert(s@.subrange(0, n as int) =~= s@);
    }
    v
}

/// Finds the first occurrence of `c` within `v[from..end]`.
pub(crate) fn find_char_in(v: &Vec<char>, c: char, from: usize, end: usize) -> (r: Option<usize>)
    requires
        from <= end <= v@.len(),
    ensures
        match r {
            Some(i) => from <= i < end && v@[i as int] == c && (forall|j: int|
                from <= j < i ==> v@[j] != c),
            None => forall|j: int| from <= j < end ==> v@[j] != c,
        },
{
    let mut i: usize = from;
    while i < end
        invariant
            from <= i <= end <= v@.len(),
            forall|j: int| from <= j < i ==> v@[j] != c,
        decreases end - i,
    {
        if v[i] == c {
            return Some(i);
        }
        i = i + 1;
    }
    None
}

/// True when `pat` occurs at position `at` of `v`, entirely before `end`.
pub(crate) fn is_match_at(v: &Vec<char>, pat: &Vec<char>, at: usize, end: usize) -> (b: bool)
    requires
        at <= end <= v@.len(),
    ensures
        b == (at + pat@.len() <= end && v@.subrange(at as int, at as int + pat@.len()) == pat@),
{
    if pat.len() > end - at {
        return false;
    }
    let mut k: usize = 0;
    while k < pat.len()
        invariant
            k <= pat@.len(),
            at + pat@.len() <= end <= v@.len(),
            forall|j: int| 0 <= j < k ==> v@[at + j] == pat@[j],
        decreases pat@.len() - k,
    {
        if v[at + k] != pat[k] {
            proof {
                assert(v@.subrange(at as int, at as int + pat@.len())[k as int] != pat@[k as int]);
            }
            return false;
        }
        k = k + 1;
    }
    proof {
        assert(v@.subrange(at as int, at as int + pat@.len()) =~= pat@);
    }
    true
}

/// Finds the first occurrence of `pat` that lies within `v[from..end]`.
pub(crate) fn find_sub_in(v: &Vec<char>, pat: &Vec<char>, from: usize, end: usize) -> (r: Option<usize>)
    requires
        from <= end <= v@.len(),
        pat@.len() >= 1,
    ensures
        match r {
            Some(i) => from <= i && i + pat@.len() <= end && v@.subrange(
                i as int,
                i as int + pat@.len(),
            ) == pat@ && (forall|j: int|
                from <= j && j + pat@.len() <= end && j < i ==> #[trigger] v@.subrange(
                    j,
                    j + pat@.len(),
                ) != pat@),
            None => forall|j: int|
                from <= j && j + pat@.len() <= end ==> #[trigger] v@.subrange(j, j + pat@.len())
                    != pat@,
        },
{
    let mut i: usize = from;
    while i < end
        invariant
            from <= i <= end <= v@.len(),
            pat@.len() >= 1,
            forall|j: int|
                from <= j && j + pat@.len() <= end && j < i ==> #[trigger] v@.subrange(
                    j,
                    j + pat@.len(),
                ) != pat@,
        decreases end - i,
    {
        if is_match_at(v, pat, i, end) {
            return Some(i);
        }
        i = i + 1;
    }
    None
}

/// True when `c` is a white-space character.
pub(crate) fn is_space(c: char) -> (b: bool)
    ensures
        b == is_space_char(c),
{
    let u = c as u32;
    u == 0x09 || u == 0x0a || u == 0x0b || u == 0x0c || u == 0x0d || u == 0x20
        || u == 0x85 || u == 0xa0 || u == 0x1680 || (0x2000 <= u && u <= 0x200a)
        || u == 0x2028 || u == 0x2029 || u == 0x202f || u == 0x205f || u == 0x3000
}

/// The index of the first character of `v[from..end]` that is not white
/// space, or `end` if the whole range is white space.
pub(crate) fn skip_spaces(v: &Vec<char>, from: usize, end: usize) -> (r: usize)
    requires
        from <= end <= v@.len(),
    ensures
        from <= r <= end,
        forall|j: int| from <= j < r ==> is_space_char(v@[j]),
        r < end ==> !is_space_char(v@[r as int]),
{
    let mut i: usize = from;
    while i < end
        invariant
            from <= i <= end <= v@.len(),
            forall|j: int| from <= j < i ==> is_space_char(v@[j]),
        decreases end - i,
    {
        if !is_space(v[i]) {
            return i;
        }
        i = i + 1;
    }
    i
}

} // verus!
