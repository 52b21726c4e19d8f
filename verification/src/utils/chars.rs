use vstd::prelude::*;
use vstd::std_specs::iter::IteratorSpec;

verus! {

/// The characters with the Unicode `White_Space` property.
pub open spec fn is_whitespace(c: char) -> bool {
    ('\u{9}' <= c <= '\u{d}') || c == ' ' || c == '\u{85}' || c == '\u{a0}' || c == '\u{1680}'
        || ('\u{2000}' <= c <= '\u{200a}') || c == '\u{2028}' || c == '\u{2029}' || c == '\u{202f}'
        || c == '\u{205f}' || c == '\u{3000}'
}

pub fn char_is_whitespace(c: char) -> (r: bool)
    ensures
        r == is_whitespace(c),
{
    ('\u{9}' <= c && c <= '\u{d}') || c == ' ' || c == '\u{85}' || c == '\u{a0}' || c == '\u{1680}'
        || ('\u{2000}' <= c && c <= '\u{200a}') || c == '\u{2028}' || c == '\u{2029}' || c
        == '\u{202f}' || c == '\u{205f}' || c == '\u{3000}'
}

/// Index of the first character at or after `i` that is not whitespace (`s.len()` if none).
pub open spec fn first_non_ws(s: Seq<char>, i: int) -> int
    decreases s.len() - i,
{
    if i < 0 || i >= s.len() {
        s.len() as int
    } else if is_whitespace(s[i]) {
        first_non_ws(s, i + 1)
    } else {
        i
    }
}

/// End of the last character before `j` that is not whitespace (0 if none).
pub open spec fn last_non_ws_end(s: Seq<char>, j: int) -> int
    decreases j,
{
    if j <= 0 || j > s.len() {
        0
    } else if is_whitespace(s[j - 1]) {
        last_non_ws_end(s, j - 1)
    } else {
        j
    }
}

/// `s` without leading and trailing whitespace.
pub open spec fn spec_trim(s: Seq<char>) -> Seq<char> {
    let a = first_non_ws(s, 0);
    let b = last_non_ws_end(s, s.len() as int);
    if a >= b {
        Seq::empty()
    } else {
        s.subrange(a, b)
    }
}

/// Index of the first occurrence of `c` in `s` at or after `i`.
pub open spec fn index_of_from(s: Seq<char>, c: char, i: int) -> Option<int>
    decreases s.len() - i,
{
    if i < 0 || i >= s.len() {
        None
    } else if s[i] == c {
        Some(i)
    } else {
        index_of_from(s, c, i + 1)
    }
}

/// The pieces of `s` between occurrences of `c`, from index `i` on.
pub open spec fn split_from(s: Seq<char>, c: char, i: int) -> Seq<Seq<char>>
    decreases s.len() - i,
{
    if i < 0 || i > s.len() {
        seq![]
    } else {
        match index_of_from(s, c, i) {
            None => seq![s.subrange(i, s.len() as int)],
            Some(p) => {
                proof {
                    lemma_index_of_range(s, c, i);
                }
                seq![s.subrange(i, p)] + split_from(s, c, p + 1)
            },
        }
    }
}

/// The pieces of `s` between occurrences of `c` (`str::split` with a char pattern).
pub open spec fn spec_split(s: Seq<char>, c: char) -> Seq<Seq<char>> {
    split_from(s, c, 0)
}

pub proof fn lemma_index_of_range(s: Seq<char>, c: char, i: int)
    ensures
        index_of_from(s, c, i) matches Some(p) ==> 0 <= i <= p < s.len() && s[p] == c && forall|q: int|
            i <= q < p ==> s[q] != c,
        index_of_from(s, c, i) is None && 0 <= i ==> forall|q: int| i <= q < s.len() ==> s[q] != c,
    decreases s.len() - i,
{
    if i < 0 || i >= s.len() {
    } else if s[i] == c {
    } else {
        lemma_index_of_range(s, c, i + 1);
    }
}

/// The characters of `s`.
pub fn chars_of(s: &str) -> (r: Vec<char>)
    ensures
        r@ == s@,
{
    broadcast use vstd::string::group_string_axioms;
    let mut it = s.chars();
    let mut out: Vec<char> = Vec::new();
    loop
        invariant
            it.remaining() == s@.skip(out@.len() as int),
            out@ == s@.take(out@.len() as int),
            out@.len() <= s@.len(),
        decreases s@.len() - out@.len(),
    {
        match it.next() {
            None => {
                assert(out@ =~= s@);
                return out;
            },
            Some(c) => {
                assert(c == s@[out@.len() as int]);
                out.push(c);
                assert(out@ =~= s@.take(out@.len() as int));
            },
        }
    }
}

/// `s` without leading and trailing whitespace.
pub fn trim(s: &str) -> (r: &str)
    ensures
        r@ == spec_trim(s@),
{
    let cs = chars_of(s);
    let n = cs.len();
    let mut a: usize = 0;
    while a < n && char_is_whitespace(cs[a])
        invariant
            n == s@.len(),
            cs@ == s@,
            a <= n,
            first_non_ws(s@, a as int) == first_non_ws(s@, 0),
        decreases n - a,
    {
        a = a + 1;
    }
    let mut b: usize = n;
    while b > 0 && char_is_whitespace(cs[b - 1])
        invariant
            n == s@.len(),
            cs@ == s@,
            b <= n,
            last_non_ws_end(s@, b as int) == last_non_ws_end(s@, n as int),
        decreases b,
    {
        b = b - 1;
    }
    if a >= b {
        s.substring_char(0, 0)
    } else {
        s.substring_char(a, b)
    }
}

/// Whether `s` starts with `prefix`.
pub fn starts_with(s: &str, prefix: &str) -> (r: bool)
    ensures
        r == prefix@.is_prefix_of(s@),
{
    let a = chars_of(s);
    let b = chars_of(prefix);
    if b.len() > a.len() {
        return false;
    }
    let mut i: usize = 0;
    while i < b.len()
        invariant
            a@ == s@,
            b@ == prefix@,
            b@.len() <= a@.len(),
            i <= b@.len(),
            forall|k: int| 0 <= k < i ==> a@[k] == b@[k],
        decreases b@.len() - i,
    {
        if a[i] != b[i] {
            return false;
        }
        i = i + 1;
    }
    true
}

/// Index of the first `c` in `s`.
pub fn index_of(s: &Vec<char>, c: char) -> (r: Option<usize>)
    ensures
        match r {
            Some(p) => index_of_from(s@, c, 0) == Some(p as int),
            None => index_of_from(s@, c, 0) is None,
        },
{
    let mut i: usize = 0;
    while i < s.len()
        invariant
            i <= s@.len(),
            index_of_from(s@, c, i as int) == index_of_from(s@, c, 0),
        decreases s@.len() - i,
    {
        if s[i] == c {
            return Some(i);
        }
        i = i + 1;
    }
    None
}

/// The pieces of `s` between occurrences of `c`.
pub fn split_char<'a>(s: &'a str, c: char) -> (r: Vec<&'a str>)
    ensures
        r@.len() == spec_split(s@, c).len(),
        forall|k: int| 0 <= k < r@.len() ==> #[trigger] r@[k]@ == spec_split(s@, c)[k],
{
    let cs = chars_of(s);
    let n = cs.len();
    let mut out: Vec<&'a str> = Vec::new();
    let mut i: usize = 0;
    let ghost total = spec_split(s@, c);
    loop
        invariant
            n == s@.len(),
            cs@ == s@,
            i <= n,
            total == spec_split(s@, c),
            out@.len() + split_from(s@, c, i as int).len() == total.len(),
            forall|k: int| 0 <= k < out@.len() ==> #[trigger] out@[k]@ == total[k],
            forall|k: int| 0 <= k < split_from(s@, c, i as int).len() ==> #[trigger] split_from(s@, c, i as int)[k] == total[out@.len() + k],
        decreases n - i,
    {
        let mut j: usize = i;
        while j < n && cs[j] != c
            invariant
                n == s@.len(),
                cs@ == s@,
                i <= j <= n,
                index_of_from(s@, c, j as int) == index_of_from(s@, c, i as int),
            decreases n - j,
        {
            j = j + 1;
        }
        let piece = s.substring_char(i, j);
        let ghost rest = split_from(s@, c, i as int);
        if j == n {
            assert(index_of_from(s@, c, i as int) is None);
            assert(rest =~= seq![s@.subrange(i as int, n as int)]);
            out.push(piece);
            assert(out@.len() == total.len());
            assert forall|k: int| 0 <= k < out@.len() implies #[trigger] out@[k]@ == total[k] by {
                if k == out@.len() - 1 {
                    assert(rest[0] == total[k]);
                }
            }
            return out;
        }
        assert(index_of_from(s@, c, i as int) == Some(j as int));
        let ghost next = split_from(s@, c, j + 1);
        assert(rest =~= seq![s@.subrange(i as int, j as int)] + next);
        assert(rest[0] == total[out@.len() as int]);
        out.push(piece);
        assert forall|k: int| 0 <= k < next.len() implies #[trigger] next[k] == total[out@.len() + k] by {
            assert(rest[k + 1] == next[k]);
        }
        i = j + 1;
    }
}

} // verus!
