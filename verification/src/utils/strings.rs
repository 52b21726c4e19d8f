use vstd::prelude::*;
use vstd::string::StringSliceAdditionalSpecFns;
use vstd::utf8::*;
use vstd::std_specs::iter::IteratorSpec;

verus! {

/// The byte `\`, which escapes the tag that follows it.
pub const ESCAPE_BYTE: u8 = 92;

/// `t` occurs in `s` at byte offset `p`.
pub open spec fn matches_at(s: Seq<u8>, p: int, t: Seq<u8>) -> bool {
    0 <= p && p + t.len() <= s.len() && s.subrange(p, p + t.len()) =~= t
}

/// The match at byte offset `p` is escaped: the byte just before it is a backslash.
pub open spec fn escaped(s: Seq<u8>, p: int) -> bool {
    0 < p <= s.len() && s[p - 1] == ESCAPE_BYTE
}

/// The first byte offset `p >= i` at which `t` occurs in `s`.
pub open spec fn first_match(s: Seq<u8>, i: int, t: Seq<u8>) -> Option<int>
    decreases s.len() - i,
{
    if i < 0 || i + t.len() > s.len() {
        None
    } else if matches_at(s, i, t) {
        Some(i)
    } else {
        first_match(s, i + 1, t)
    }
}

/// Searching `s` for `t` from byte offset `i`, skipping every occurrence escaped by a
/// backslash (the search then goes on right after that occurrence).
/// The outer `None` marks the inputs on which the search cannot complete: `i` is out of
/// range or not on a character boundary, or an empty tag sits behind a backslash.
pub open spec fn spec_find(s: Seq<u8>, i: int, t: Seq<u8>) -> Option<Option<int>>
    decreases s.len() - i,
{
    if i < 0 || i > s.len() || !is_char_boundary(s, i) {
        None
    } else {
        match first_match(s, i, t) {
            None => Some(None),
            Some(p) => {
                if escaped(s, p) {
                    if t.len() == 0 {
                        None
                    } else {
                        proof {
                            lemma_first_match_range(s, i, t);
                        }
                        spec_find(s, p + t.len(), t)
                    }
                } else {
                    Some(Some(p))
                }
            },
        }
    }
}

pub proof fn lemma_first_match_range(s: Seq<u8>, i: int, t: Seq<u8>)
    ensures
        first_match(s, i, t) matches Some(p) ==> i <= p && matches_at(s, p, t),
        first_match(s, i, t) is None && 0 <= i ==> forall|q: int| i <= q ==> !#[trigger] matches_at(s, q, t),
    decreases s.len() - i,
{
    if i < 0 || i + t.len() > s.len() {
    } else if matches_at(s, i, t) {
    } else {
        lemma_first_match_range(s, i + 1, t);
        assert forall|q: int| 0 <= i <= q && first_match(s, i, t) is None implies !#[trigger] matches_at(s, q, t) by {
            if q == i {
            }
        }
    }
}


/// A valid UTF-8 prefix of a valid UTF-8 sequence ends on a character boundary.
proof fn lemma_prefix_boundary(b: Seq<u8>, t: Seq<u8>)
    requires
        valid_utf8(b),
        valid_utf8(t),
        t.len() <= b.len(),
        b.subrange(0, t.len() as int) =~= t,
    ensures
        is_char_boundary(b, t.len() as int),
    decreases t.len(),
{
    if t.len() == 0 {
    } else {
        assert(b[0] == t[0]) by {
            assert(b.subrange(0, t.len() as int)[0] == t[0]);
        }
        let l = length_of_first_scalar(t);
        assert(length_of_first_scalar(b) == l);
        assert(1 <= l <= t.len());
        let pb = pop_first_scalar(b);
        let pt = pop_first_scalar(t);
        assert(pb.subrange(0, pt.len() as int) =~= pt) by {
            assert forall|k: int| 0 <= k < pt.len() implies #[trigger] pb.subrange(0, pt.len() as int)[k] == pt[k] by {
                assert(b.subrange(0, t.len() as int)[k + l] == t[k + l]);
            }
        }
        lemma_prefix_boundary(pb, pt);
    }
}

/// An index inside the tail `b[i..]` of a valid UTF-8 sequence cut at a character
/// boundary `i` is a boundary of the tail exactly when it is one of `b`.
proof fn lemma_tail_boundary(b: Seq<u8>, i: int, j: int)
    requires
        valid_utf8(b),
        0 <= i <= b.len(),
        is_char_boundary(b, i),
        0 <= j <= b.len() - i,
    ensures
        valid_utf8(b.subrange(i, b.len() as int)),
        is_char_boundary(b.subrange(i, b.len() as int), j) <==> is_char_boundary(b, i + j),
{
    let tail = b.subrange(i, b.len() as int);
    valid_utf8_split(b, i);
    if j == tail.len() {
        is_char_boundary_start_end_of_seq(b);
        is_char_boundary_start_end_of_seq(tail);
    } else {
        is_char_boundary_iff_not_is_continuation_byte(b, i + j);
        is_char_boundary_iff_not_is_continuation_byte(tail, j);
    }
}

/// A nonempty valid UTF-8 tag found inside valid UTF-8 text starts and ends on
/// character boundaries of the text.
pub proof fn lemma_match_boundaries(s: Seq<u8>, t: Seq<u8>, p: int)
    requires
        valid_utf8(s),
        valid_utf8(t),
        t.len() > 0,
        matches_at(s, p, t),
    ensures
        is_char_boundary(s, p),
        is_char_boundary(s, p + t.len()),
{
    is_char_boundary_start_end_of_seq(t);
    is_char_boundary_iff_not_is_continuation_byte(t, 0);
    assert(s[p] == t[0]) by {
        assert(s.subrange(p, p + t.len())[0] == t[0]);
    }
    if p < s.len() {
        is_char_boundary_iff_not_is_continuation_byte(s, p);
    }
    let tail = s.subrange(p, s.len() as int);
    lemma_tail_boundary(s, p, t.len() as int);
    assert(tail.subrange(0, t.len() as int) =~= t) by {
        assert forall|k: int| 0 <= k < t.len() implies #[trigger] tail.subrange(0, t.len() as int)[k] == t[k] by {
            assert(s.subrange(p, p + t.len())[k] == t[k]);
        }
    }
    lemma_prefix_boundary(tail, t);
}

pub open spec fn opt_usize_int(r: Option<usize>) -> Option<int> {
    match r {
        Some(p) => Some(p as int),
        None => None,
    }
}

fn bytes_match_at(s: &[u8], p: usize, t: &[u8]) -> (r: bool)
    requires
        p + t@.len() <= s@.len(),
    ensures
        r == matches_at(s@, p as int, t@),
{
    let n = s.len();
    let mut k: usize = 0;
    while k < t.len()
        invariant
            n == s@.len(),
            p + t@.len() <= s@.len(),
            k <= t@.len(),
            forall|j: int| 0 <= j < k ==> s@[p + j] == t@[j],
        decreases t@.len() - k,
    {
        assert(p + k < s@.len());
        if s[p + k] != t[k] {
            assert(s@.subrange(p as int, p + t@.len())[k as int] != t@[k as int]);
            return false;
        }
        k = k + 1;
    }
    assert(s@.subrange(p as int, p + t@.len()) =~= t@);
    true
}

fn first_match_exec(s: &[u8], i: usize, t: &[u8]) -> (r: Option<usize>)
    ensures
        opt_usize_int(r) == first_match(s@, i as int, t@),
{
    if t.len() > s.len() || i > s.len() - t.len() {
        assert(i + t@.len() > s@.len());
        return None;
    }
    let last = s.len() - t.len();
    let mut q = i;
    while q <= last
        invariant
            i <= q,
            last == s@.len() - t@.len(),
            q <= last + 1,
            first_match(s@, i as int, t@) == first_match(s@, q as int, t@),
        decreases last + 1 - q,
    {
        if bytes_match_at(s, q, t) {
            return Some(q);
        }
        if q == last {
            assert(first_match(s@, q + 1, t@) is None);
            return None;
        }
        q = q + 1;
    }
    None
}

/// Byte-level search used by [`find`], on any byte slice.
pub fn find_bytes(s: &[u8], begin: usize, t: &[u8]) -> (r: Option<usize>)
    requires
        spec_find(s@, begin as int, t@) is Some,
    ensures
        opt_usize_int(r) == spec_find(s@, begin as int, t@)->0,
{
    let mut start = begin;
    loop
        invariant
            spec_find(s@, start as int, t@) == spec_find(s@, begin as int, t@),
            spec_find(s@, start as int, t@) is Some,
            start <= s@.len(),
        decreases s@.len() - start,
    {
        let m = first_match_exec(s, start, t);
        proof {
            lemma_first_match_range(s@, start as int, t@);
        }
        match m {
            None => return None,
            Some(p) => {
                if p > 0 && s[p - 1] == ESCAPE_BYTE {
                    start = p + t.len();
                } else {
                    return Some(p);
                }
            },
        }
    }
}

/// Finds `tag` in `src` from byte offset `begin`, skipping every occurrence written
/// right after a backslash; returns the byte offset of the first other occurrence.
pub fn find(src: &str, begin: usize, tag: &str) -> (r: Option<usize>)
    requires
        spec_find(src.spec_bytes(), begin as int, tag.spec_bytes()) is Some,
    ensures
        opt_usize_int(r) == spec_find(src.spec_bytes(), begin as int, tag.spec_bytes())->0,
{
    find_bytes(src.as_bytes(), begin, tag.as_bytes())
}

} // verus!

verus! {

/// `c` may start an identifier: an ASCII letter or `_`.
pub open spec fn is_ident_start(c: char) -> bool {
    ('A' <= c <= 'Z') || ('a' <= c <= 'z') || c == '_'
}

/// `c` may appear in an identifier: an ASCII letter, an ASCII digit or `_`.
pub open spec fn is_ident_char(c: char) -> bool {
    is_ident_start(c) || ('0' <= c <= '9')
}

/// `s` is an identifier: it starts with a letter or `_` and holds only letters,
/// digits and `_`.
pub open spec fn spec_is_expr(s: Seq<char>) -> bool {
    is_ident_start(s[0]) && forall|i: int| 0 <= i < s.len() ==> #[trigger] is_ident_char(s[i])
}

fn char_is_ident_start(c: char) -> (r: bool)
    ensures
        r == is_ident_start(c),
{
    ('A' <= c && c <= 'Z') || ('a' <= c && c <= 'z') || c == '_'
}

fn char_is_ident_char(c: char) -> (r: bool)
    ensures
        r == is_ident_char(c),
{
    char_is_ident_start(c) || ('0' <= c && c <= '9')
}

/// Whether `src` is a plain identifier (used for the variables of an assignment).
pub fn is_expr(src: &str) -> (r: bool)
    requires
        src@.len() > 0,
    ensures
        r == spec_is_expr(src@),
{
    broadcast use vstd::string::group_string_axioms;
    let mut it = src.chars();
    let first = it.next();
    assert(first == Some(src@[0]));
    let c0 = first.unwrap();
    if !char_is_ident_start(c0) {
        return false;
    }
    let ghost mut k: int = 1;
    loop
        invariant
            is_ident_start(src@[0]),
            1 <= k <= src@.len(),
            it.remaining() == src@.skip(k as int),
            forall|i: int| 0 <= i < k ==> #[trigger] is_ident_char(src@[i]),
        decreases src@.len() - k,
    {
        match it.next() {
            None => {
                assert(k == src@.len());
                return true;
            },
            Some(c) => {
                assert(c == src@[k]);
                if !char_is_ident_char(c) {
                    return false;
                }
                proof {
                    k = k + 1;
                }
            },
        }
    }
}

} // verus!

verus! {

/// Every character takes at least one byte.
pub proof fn lemma_chars_le_bytes(c: Seq<char>)
    ensures
        c.len() <= encode_utf8(c).len(),
    decreases c.len(),
{
    if c.len() > 0 {
        lemma_chars_le_bytes(c.drop_first());
        assert(encode_scalar(c[0] as u32).len() >= 1);
    }
}

/// The next identifier-like run of characters (letters, digits, `_`) from char index `i`,
/// as char indices `(start, end)`; `start` is where the current run began, if one began.
/// The run must be closed by another character; spaces before a run are skipped, and
/// other characters before a run are skipped when `skip_unknown` holds.
pub open spec fn spec_next_expr(s: Seq<char>, i: int, start: Option<int>, skip_unknown: bool) -> Option<(int, int)>
    decreases s.len() - i,
{
    if i < 0 || i >= s.len() {
        None
    } else if s[i] == ' ' {
        match start {
            Some(st) => Some((st, i)),
            None => spec_next_expr(s, i + 1, None, skip_unknown),
        }
    } else if is_ident_char(s[i]) {
        spec_next_expr(s, i + 1, if start is None { Some(i) } else { start }, skip_unknown)
    } else {
        match start {
            Some(st) => Some((st, i)),
            None => if skip_unknown {
                spec_next_expr(s, i + 1, None, skip_unknown)
            } else {
                None
            },
        }
    }
}

pub open spec fn opt_pair_int(r: Option<(usize, usize)>) -> Option<(int, int)> {
    match r {
        Some((a, b)) => Some((a as int, b as int)),
        None => None,
    }
}

/// Finds the char range of the next identifier-like run in `src`.
pub fn next_expr(src: &str, skip_unknown: bool) -> (r: Option<(usize, usize)>)
    ensures
        opt_pair_int(r) == spec_next_expr(src@, 0, None, skip_unknown),
{
    broadcast use vstd::string::group_string_axioms;
    let byte_len = src.as_bytes().len();
    proof {
        lemma_chars_le_bytes(src@);
    }
    let mut it = src.chars();
    let mut start: Option<usize> = None;
    let mut index: usize = 0;
    loop
        invariant
            index <= src@.len(),
            src@.len() <= byte_len,
            it.remaining() == src@.skip(index as int),
            spec_next_expr(src@, index as int, opt_usize_int(start), skip_unknown)
                == spec_next_expr(src@, 0, None, skip_unknown),
            start matches Some(st) ==> st < index,
        decreases src@.len() - index,
    {
        match it.next() {
            None => {
                assert(index == src@.len());
                return None;
            },
            Some(item) => {
                assert(item == src@[index as int]);
                if item == ' ' {
                    if let Some(st) = start {
                        return Some((st, index));
                    }
                } else if char_is_ident_char(item) {
                    if start.is_none() {
                        start = Some(index);
                    }
                } else {
                    if let Some(st) = start {
                        return Some((st, index));
                    } else if !skip_unknown {
                        return None;
                    }
                }
                index = index + 1;
            },
        }
    }
}

} // verus!

verus! {

/// What a search for `t` from `i` gives back: it is an occurrence of `t`, at or after `i`.
pub proof fn lemma_find_result(s: Seq<u8>, i: int, t: Seq<u8>)
    requires
        spec_find(s, i, t) is Some,
    ensures
        spec_find(s, i, t)->0 matches Some(p) ==> i <= p && matches_at(s, p, t) && !escaped(s, p),
        0 <= i <= s.len(),
    decreases s.len() - i,
{
    lemma_first_match_range(s, i, t);
    match first_match(s, i, t) {
        None => {},
        Some(p) => {
            if escaped(s, p) && t.len() > 0 {
                lemma_find_result(s, p + t.len(), t);
            }
        },
    }
}

/// A block opened by `st` and closed by `et`, searched from `i`: the byte offset of the
/// opening tag and, when a closing tag follows, the byte offset just past it.
pub open spec fn spec_find_block(s: Seq<u8>, i: int, st: Seq<u8>, et: Seq<u8>) -> Option<Option<(int, Option<int>)>> {
    match spec_find(s, i, st) {
        None => None,
        Some(None) => Some(None),
        Some(Some(p)) => match spec_find(s, p + st.len(), et) {
            None => None,
            Some(e) => Some(Some((p, match e {
                Some(q) => Some(q + et.len()),
                None => None,
            }))),
        },
    }
}

pub open spec fn block_int(b: (usize, Option<usize>)) -> (int, Option<int>) {
    (b.0 as int, opt_usize_int(b.1))
}

pub open spec fn opt_block_int(r: Option<(usize, Option<usize>)>) -> Option<(int, Option<int>)> {
    match r {
        Some(b) => Some(block_int(b)),
        None => None,
    }
}

pub fn find_block_bytes(s: &[u8], index: usize, st: &[u8], et: &[u8]) -> (r: Option<(usize, Option<usize>)>)
    requires
        spec_find_block(s@, index as int, st@, et@) is Some,
    ensures
        opt_block_int(r) == spec_find_block(s@, index as int, st@, et@)->0,
        r matches Some((p, e)) ==> p + st@.len() <= s@.len() && (e matches Some(q) ==> p + st@.len() + et@.len() <= q <= s@.len()),
{
    let _n = s.len();
    proof {
        lemma_find_result(s@, index as int, st@);
    }
    match find_bytes(s, index, st) {
        None => None,
        Some(p) => {
            proof {
                lemma_find_result(s@, p + st@.len(), et@);
            }
            match find_bytes(s, p + st.len(), et) {
                None => Some((p, None)),
                Some(q) => Some((p, Some(q + et.len()))),
            }
        },
    }
}

/// Finds the next block opened by `start_tag` and closed by `end_tag` from byte offset
/// `index`: the offset of the opening tag and, if the block is closed, the offset just
/// past the closing tag. Tags written right after a backslash do not count.
pub fn find_block(src: &str, index: usize, start_tag: &str, end_tag: &str) -> (r: Option<(usize, Option<usize>)>)
    requires
        spec_find_block(src.spec_bytes(), index as int, start_tag.spec_bytes(), end_tag.spec_bytes()) is Some,
    ensures
        opt_block_int(r) == spec_find_block(src.spec_bytes(), index as int, start_tag.spec_bytes(), end_tag.spec_bytes())->0,
{
    find_block_bytes(src.as_bytes(), index, start_tag.as_bytes(), end_tag.as_bytes())
}

} // verus!

verus! {

/// The blocks of the ignore list that occur in `tb` (searched from its start), in list
/// order, for the first `n` pairs of the list.
pub open spec fn spec_collect_ignores(tb: Seq<u8>, ig: Seq<(Seq<u8>, Seq<u8>)>, n: int) -> Option<Seq<(int, Option<int>)>>
    decreases n,
{
    if n <= 0 {
        Some(seq![])
    } else {
        match spec_collect_ignores(tb, ig, n - 1) {
            None => None,
            Some(acc) => match spec_find_block(tb, 0, ig[n - 1].0, ig[n - 1].1) {
                None => None,
                Some(None) => Some(acc),
                Some(Some(b)) => Some(acc.push(b)),
            },
        }
    }
}

/// Inserts `x` after every element whose start is not greater than its own.
pub open spec fn spec_insert_by_start(v: Seq<(int, Option<int>)>, x: (int, Option<int>)) -> Seq<(int, Option<int>)>
    decreases v.len(),
{
    if v.len() == 0 {
        seq![x]
    } else if v.last().0 <= x.0 {
        v.push(x)
    } else {
        spec_insert_by_start(v.drop_last(), x).push(v.last())
    }
}

/// Stable sort by start offset.
pub open spec fn spec_sort_by_start(v: Seq<(int, Option<int>)>) -> Seq<(int, Option<int>)>
    decreases v.len(),
{
    if v.len() == 0 {
        v
    } else {
        spec_insert_by_start(spec_sort_by_start(v.drop_last()), v.last())
    }
}

/// Where a block ends; an unclosed block runs to the end of the text of length `len`.
pub open spec fn range_end(r: (int, Option<int>), len: int) -> int {
    match r.1 {
        Some(e) => e,
        None => len,
    }
}

/// The blocks that do not start strictly inside `(cs, ce)`.
pub open spec fn outside_of(cs: int, ce: int) -> spec_fn((int, Option<int>)) -> bool {
    |e: (int, Option<int>)| !(cs < e.0 && ce > e.0)
}

pub open spec fn prune_measure(n: int, cur: int) -> int {
    if 0 <= cur <= n {
        n - cur
    } else {
        0
    }
}

/// From position `cur` on, each block in turn drops the blocks that start inside it.
pub open spec fn spec_prune(v: Seq<(int, Option<int>)>, cur: int, len: int) -> Seq<(int, Option<int>)>
    decreases prune_measure(v.len() as int, cur),
{
    if cur < 0 || cur >= v.len() {
        v
    } else {
        let w = v.filter(outside_of(v[cur].0, range_end(v[cur], len)));
        proof {
            v.lemma_filter_len(outside_of(v[cur].0, range_end(v[cur], len)));
        }
        spec_prune(w, cur + 1, len)
    }
}

/// Some block of `v` is not closed.
pub open spec fn has_open(v: Seq<(int, Option<int>)>) -> bool {
    exists|i: int| 0 <= i < v.len() && (#[trigger] v[i]).1 is None
}

/// The ignored blocks inside `tb` that are left once nested ones are dropped.
pub open spec fn spec_ignore_ranges(tb: Seq<u8>, ig: Seq<(Seq<u8>, Seq<u8>)>) -> Option<Seq<(int, Option<int>)>> {
    match spec_collect_ignores(tb, ig, ig.len() as int) {
        None => None,
        Some(v) => Some(spec_prune(spec_sort_by_start(v), 0, tb.len() as int)),
    }
}

/// The blocks are in order of their starts.
pub open spec fn sorted_by_start(v: Seq<(int, Option<int>)>) -> bool {
    forall|i: int, j: int| 0 <= i < j < v.len() ==> (#[trigger] v[i]).0 <= (#[trigger] v[j]).0
}

/// The block `x` starts strictly inside the block `y` (in a text of length `len`).
pub open spec fn starts_inside(x: (int, Option<int>), y: (int, Option<int>), len: int) -> bool {
    y.0 < x.0 && x.0 < range_end(y, len)
}

proof fn lemma_insert_by_start(v: Seq<(int, Option<int>)>, x: (int, Option<int>))
    requires
        sorted_by_start(v),
    ensures
        sorted_by_start(spec_insert_by_start(v, x)),
        forall|y: (int, Option<int>)| #[trigger] spec_insert_by_start(v, x).contains(y) <==> (v.contains(y) || y == x),
    decreases v.len(),
{
    let r = spec_insert_by_start(v, x);
    if v.len() == 0 {
        assert forall|y: (int, Option<int>)| #[trigger] r.contains(y) <==> (v.contains(y) || y == x) by {
            if r.contains(y) {
                let k = choose|k: int| 0 <= k < r.len() && r[k] == y;
            }
            if y == x {
                assert(r[0] == x);
            }
        }
    } else if v.last().0 <= x.0 {
        assert forall|y: (int, Option<int>)| #[trigger] r.contains(y) <==> (v.contains(y) || y == x) by {
            if r.contains(y) {
                let k = choose|k: int| 0 <= k < r.len() && r[k] == y;
                if k < v.len() {
                    assert(v[k] == y);
                }
            }
            if v.contains(y) {
                let k = choose|k: int| 0 <= k < v.len() && v[k] == y;
                assert(r[k] == y);
            }
            if y == x {
                assert(r[v.len() as int] == x);
            }
        }
    } else {
        let u = v.drop_last();
        assert(sorted_by_start(u)) by {
            assert forall|i: int, j: int| 0 <= i < j < u.len() implies (#[trigger] u[i]).0 <= (#[trigger] u[j]).0 by {
                assert(u[i] == v[i] && u[j] == v[j]);
            }
        }
        lemma_insert_by_start(u, x);
        let w = spec_insert_by_start(u, x);
        assert(r == w.push(v.last()));
        assert forall|y: (int, Option<int>)| #[trigger] r.contains(y) <==> (v.contains(y) || y == x) by {
            if r.contains(y) {
                let k = choose|k: int| 0 <= k < r.len() && r[k] == y;
                if k < w.len() {
                    assert(w[k] == y);
                    assert(w.contains(y));
                    if u.contains(y) {
                        let m = choose|m: int| 0 <= m < u.len() && u[m] == y;
                        assert(v[m] == y);
                    }
                } else {
                    assert(v[v.len() - 1] == y);
                }
            }
            if v.contains(y) {
                let k = choose|k: int| 0 <= k < v.len() && v[k] == y;
                if k < v.len() - 1 {
                    assert(u[k] == y);
                    assert(u.contains(y));
                    assert(w.contains(y));
                    let m = choose|m: int| 0 <= m < w.len() && w[m] == y;
                    assert(r[m] == y);
                } else {
                    assert(r[w.len() as int] == y);
                }
            }
            if y == x {
                assert(w.contains(x));
                let m = choose|m: int| 0 <= m < w.len() && w[m] == x;
                assert(r[m] == x);
            }
        }
        assert forall|i: int, j: int| 0 <= i < j < r.len() implies (#[trigger] r[i]).0 <= (#[trigger] r[j]).0 by {
            if j == r.len() - 1 {
                assert(r[j] == v.last());
                assert(w.contains(r[i])) by {
                    assert(w[i] == r[i]);
                }
                if u.contains(r[i]) {
                    let m = choose|m: int| 0 <= m < u.len() && u[m] == r[i];
                    assert(v[m] == r[i]);
                    assert(v[m].0 <= v[v.len() - 1].0);
                }
            } else {
                assert(r[i] == w[i] && r[j] == w[j]);
            }
        }
    }
}

proof fn lemma_sort_by_start(v: Seq<(int, Option<int>)>)
    ensures
        sorted_by_start(spec_sort_by_start(v)),
        forall|y: (int, Option<int>)| #[trigger] spec_sort_by_start(v).contains(y) <==> v.contains(y),
    decreases v.len(),
{
    if v.len() > 0 {
        let u = v.drop_last();
        lemma_sort_by_start(u);
        let w = spec_sort_by_start(u);
        lemma_insert_by_start(w, v.last());
        assert forall|y: (int, Option<int>)| #[trigger] spec_sort_by_start(v).contains(y) <==> v.contains(y) by {
            if u.contains(y) {
                let m = choose|m: int| 0 <= m < u.len() && u[m] == y;
                assert(v[m] == y);
            }
            if v.contains(y) {
                let k = choose|k: int| 0 <= k < v.len() && v[k] == y;
                if k < v.len() - 1 {
                    assert(u[k] == y);
                }
            }
        }
    }
}

proof fn lemma_filter_sorted(v: Seq<(int, Option<int>)>, p: spec_fn((int, Option<int>)) -> bool)
    requires
        sorted_by_start(v),
    ensures
        sorted_by_start(v.filter(p)),
    decreases v.len(),
{
    reveal(Seq::filter);
    if v.len() > 0 {
        let u = v.drop_last();
        assert(sorted_by_start(u)) by {
            assert forall|i: int, j: int| 0 <= i < j < u.len() implies (#[trigger] u[i]).0 <= (#[trigger] u[j]).0 by {
                assert(u[i] == v[i] && u[j] == v[j]);
            }
        }
        lemma_filter_sorted(u, p);
        let f = u.filter(p);
        if p(v.last()) {
            let r = f.push(v.last());
            assert(v.filter(p) == r);
            assert forall|i: int, j: int| 0 <= i < j < r.len() implies (#[trigger] r[i]).0 <= (#[trigger] r[j]).0 by {
                if j == r.len() - 1 {
                    assert(r[i] == f[i]);
                    assert(f.contains(f[i]));
                    u.lemma_filter_contains_rev(p, f[i]);
                    let m = choose|m: int| 0 <= m < u.len() && u[m] == f[i];
                    assert(v[m] == f[i]);
                    assert(v[m].0 <= v[v.len() - 1].0);
                } else {
                    assert(r[i] == f[i] && r[j] == f[j]);
                }
            }
        } else {
            assert(v.filter(p) == f);
        }
    }
}

/// The invariant of pruning at position `cur`: the blocks before `cur` have lost the
/// blocks that start inside them.
pub open spec fn prune_inv(v0: Seq<(int, Option<int>)>, w: Seq<(int, Option<int>)>, cur: int, len: int) -> bool {
    &&& 0 <= cur
    &&& sorted_by_start(w)
    &&& forall|x: (int, Option<int>)| #[trigger] w.contains(x) ==> v0.contains(x)
    &&& forall|i: int, j: int| 0 <= i < j < w.len() && i < cur ==> !starts_inside(#[trigger] w[j], #[trigger] w[i], len)
    &&& forall|x: (int, Option<int>)| #[trigger] v0.contains(x) ==> w.contains(x) || exists|i: int|
        0 <= i < cur && i < w.len() && starts_inside(x, #[trigger] w[i], len)
}

proof fn lemma_prune_result(v0: Seq<(int, Option<int>)>, w: Seq<(int, Option<int>)>, cur: int, len: int)
    requires
        prune_inv(v0, w, cur, len),
    ensures
        prune_inv(v0, spec_prune(w, cur, len), spec_prune(w, cur, len).len() as int, len),
    decreases prune_measure(w.len() as int, cur),
{
    if cur >= w.len() {
        let r = w;
        assert(spec_prune(w, cur, len) == w);
        assert forall|x: (int, Option<int>)| #[trigger] v0.contains(x) implies r.contains(x) || exists|i: int|
            0 <= i < r.len() && i < r.len() && starts_inside(x, #[trigger] r[i], len) by {
            if !r.contains(x) {
                let i = choose|i: int| 0 <= i < cur && i < w.len() && starts_inside(x, #[trigger] w[i], len);
            }
        }
    } else {
        let c = w[cur];
        let p = outside_of(c.0, range_end(c, len));
        let pre = w.take(cur + 1);
        let suf = w.skip(cur + 1);
        assert(w == pre + suf);
        Seq::filter_distributes_over_add(pre, suf, p);
        assert(pre.filter(p) == pre) by {
            assert forall|k: int| 0 <= k < pre.len() implies p(#[trigger] pre[k]) by {
                assert(pre[k] == w[k]);
                assert(w[k].0 <= c.0);
            }
            lemma_filter_all(pre, p);
        }
        let sf = suf.filter(p);
        let w2 = pre + sf;
        assert(w.filter(p) == w2);
        lemma_filter_sorted(w, p);
        assert forall|x: (int, Option<int>)| #[trigger] w2.contains(x) implies w.contains(x) by {
            w.lemma_filter_contains_rev(p, x);
        }
        assert forall|x: (int, Option<int>)| #[trigger] w2.contains(x) implies v0.contains(x) by {
            assert(w.contains(x));
        }
        assert forall|i: int, j: int| 0 <= i < j < w2.len() && i < cur + 1 implies !starts_inside(#[trigger] w2[j], #[trigger] w2[i], len) by {
            assert(w2[i] == w[i]);
            if j <= cur {
                assert(w2[j] == w[j]);
            } else {
                let y = w2[j];
                assert(sf[j - cur - 1] == y);
                assert(sf.contains(y));
                suf.lemma_filter_contains_rev(p, y);
                let m = choose|m: int| 0 <= m < suf.len() && suf[m] == y;
                assert(w[cur + 1 + m] == y);
                if i < cur {
                    assert(!starts_inside(w[cur + 1 + m], w[i], len));
                } else {
                    suf.lemma_filter_pred(p, j - cur - 1);
                }
            }
        }
        assert forall|x: (int, Option<int>)| #[trigger] v0.contains(x) implies w2.contains(x) || exists|i: int|
            0 <= i < cur + 1 && i < w2.len() && starts_inside(x, #[trigger] w2[i], len) by {
            if w.contains(x) {
                let k = choose|k: int| 0 <= k < w.len() && w[k] == x;
                if k <= cur {
                    assert(w2[k] == x);
                } else if p(x) {
                    assert(suf[k - cur - 1] == x);
                    suf.lemma_filter_contains(p, k - cur - 1);
                    let m = choose|m: int| 0 <= m < sf.len() && sf[m] == x;
                    assert(w2[cur + 1 + m] == x);
                } else {
                    assert(w2[cur] == c);
                    assert(starts_inside(x, w2[cur], len));
                }
            } else {
                let i = choose|i: int| 0 <= i < cur && i < w.len() && starts_inside(x, #[trigger] w[i], len);
                assert(w2[i] == w[i]);
            }
        }
        assert(prune_inv(v0, w2, cur + 1, len));
        lemma_prune_result(v0, w2, cur + 1, len);
    }
}

proof fn lemma_filter_all(v: Seq<(int, Option<int>)>, p: spec_fn((int, Option<int>)) -> bool)
    requires
        forall|k: int| 0 <= k < v.len() ==> p(#[trigger] v[k]),
    ensures
        v.filter(p) == v,
    decreases v.len(),
{
    reveal(Seq::filter);
    if v.len() > 0 {
        let u = v.drop_last();
        assert forall|k: int| 0 <= k < u.len() implies p(#[trigger] u[k]) by {
            assert(u[k] == v[k]);
        }
        lemma_filter_all(u, p);
        assert(v.filter(p) =~= u.push(v.last()));
        assert(u.push(v.last()) =~= v);
    }
}

/// The ignored blocks left inside a text are blocks found in it; none of them starts
/// inside another one that is left, and each block found that is not left starts inside
/// one that is.
pub proof fn lemma_ignore_ranges_result(tb: Seq<u8>, ig: Seq<(Seq<u8>, Seq<u8>)>)
    requires
        spec_ignore_ranges(tb, ig) is Some,
    ensures
        ({
            let v = spec_collect_ignores(tb, ig, ig.len() as int)->0;
            let r = spec_ignore_ranges(tb, ig)->0;
            &&& forall|x: (int, Option<int>)| #[trigger] r.contains(x) ==> v.contains(x)
            &&& forall|i: int, j: int| 0 <= i < j < r.len() ==> !starts_inside(#[trigger] r[j], #[trigger] r[i], tb.len() as int)
            &&& forall|x: (int, Option<int>)| #[trigger] v.contains(x) ==> r.contains(x) || exists|i: int|
                0 <= i < r.len() && starts_inside(x, #[trigger] r[i], tb.len() as int)
        }),
{
    let v = spec_collect_ignores(tb, ig, ig.len() as int)->0;
    let sv = spec_sort_by_start(v);
    lemma_sort_by_start(v);
    assert(prune_inv(v, sv, 0, tb.len() as int));
    lemma_prune_result(v, sv, 0, tb.len() as int);
}

/// Widens the block `[start, end)` to further closing tags for as long as an ignored
/// block inside it is left open.
pub open spec fn spec_extend_block(s: Seq<u8>, start: int, end: int, st: Seq<u8>, et: Seq<u8>, ig: Seq<(Seq<u8>, Seq<u8>)>) -> Option<Option<(int, int)>>
    decreases s.len() - end,
{
    let a = start + st.len();
    let b = end - et.len();
    if !(0 <= a <= b <= s.len()) || end > s.len() || !is_char_boundary(s, a) || !is_char_boundary(s, b) {
        None
    } else {
        match spec_ignore_ranges(s.subrange(a, b), ig) {
            None => None,
            Some(r) => if has_open(r) {
                if end + 1 >= s.len() {
                    Some(None)
                } else {
                    match spec_find(s, end + 1, et) {
                        None => None,
                        Some(None) => Some(None),
                        Some(Some(p)) => {
                            proof {
                                lemma_find_result(s, end + 1, et);
                            }
                            spec_extend_block(s, start, p + et.len(), st, et, ig)
                        },
                    }
                }
            } else {
                Some(Some((start, end)))
            },
        }
    }
}

/// The next closed block from `index`, whose closing tag is not inside an ignored block.
pub open spec fn spec_find_block_skip_ignore(s: Seq<u8>, index: int, st: Seq<u8>, et: Seq<u8>, ig: Seq<(Seq<u8>, Seq<u8>)>) -> Option<Option<(int, int)>> {
    match spec_find_block(s, index, st, et) {
        None => None,
        Some(None) => Some(None),
        Some(Some((_, None))) => Some(None),
        Some(Some((start, Some(end)))) => spec_extend_block(s, start, end, st, et, ig),
    }
}

proof fn lemma_extend_block_result(s: Seq<u8>, start: int, end: int, st: Seq<u8>, et: Seq<u8>, ig: Seq<(Seq<u8>, Seq<u8>)>)
    requires
        matches_at(s, end - et.len(), et),
        !escaped(s, end - et.len()),
        start + st.len() <= end - et.len(),
        spec_extend_block(s, start, end, st, et, ig) matches Some(Some(_)),
    ensures
        ({
            let (a, b) = spec_extend_block(s, start, end, st, et, ig)->0->0;
            &&& a == start
            &&& start + st.len() <= b - et.len()
            &&& matches_at(s, b - et.len(), et)
            &&& !escaped(s, b - et.len())
            &&& spec_ignore_ranges(s.subrange(a + st.len(), b - et.len()), ig) matches Some(r)
            &&& !has_open(r)
        }),
    decreases s.len() - end,
{
    let a = start + st.len();
    let b = end - et.len();
    match spec_ignore_ranges(s.subrange(a, b), ig) {
        None => {},
        Some(r) => if has_open(r) {
            if end + 1 < s.len() {
                match spec_find(s, end + 1, et) {
                    Some(Some(p)) => {
                        lemma_find_result(s, end + 1, et);
                        lemma_extend_block_result(s, start, p + et.len(), st, et, ig);
                    },
                    _ => {},
                }
            }
        } else {
        },
    }
}

/// A block found with ignored blocks skipped starts with an unescaped opening tag at or
/// after `index` and ends with an unescaped closing tag after it, and no ignored block is
/// left open between the two tags.
pub proof fn lemma_find_block_skip_ignore_result(s: Seq<u8>, index: int, st: Seq<u8>, et: Seq<u8>, ig: Seq<(Seq<u8>, Seq<u8>)>)
    requires
        spec_find_block_skip_ignore(s, index, st, et, ig) matches Some(Some(_)),
    ensures
        ({
            let (a, b) = spec_find_block_skip_ignore(s, index, st, et, ig)->0->0;
            &&& index <= a
            &&& matches_at(s, a, st)
            &&& !escaped(s, a)
            &&& a + st.len() <= b - et.len()
            &&& matches_at(s, b - et.len(), et)
            &&& !escaped(s, b - et.len())
            &&& spec_ignore_ranges(s.subrange(a + st.len(), b - et.len()), ig) matches Some(r)
            &&& !has_open(r)
        }),
{
    lemma_find_result(s, index, st);
    let p = spec_find(s, index, st)->0->0;
    lemma_find_result(s, p + st.len(), et);
    let q = spec_find(s, p + st.len(), et)->0->0;
    lemma_extend_block_result(s, p, q + et.len(), st, et, ig);
}

pub open spec fn pair_bytes(p: (&str, &str)) -> (Seq<u8>, Seq<u8>) {
    (p.0.spec_bytes(), p.1.spec_bytes())
}

pub open spec fn ignore_view(ig: Seq<(&str, &str)>) -> Seq<(Seq<u8>, Seq<u8>)> {
    ig.map_values(|p: (&str, &str)| pair_bytes(p))
}

pub open spec fn ranges_view(v: Seq<(usize, Option<usize>)>) -> Seq<(int, Option<int>)> {
    v.map_values(|b: (usize, Option<usize>)| block_int(b))
}

pub open spec fn opt_range_int(r: Option<(usize, usize)>) -> Option<(int, int)> {
    match r {
        Some((a, b)) => Some((a as int, b as int)),
        None => None,
    }
}

proof fn lemma_collect_prefix(tb: Seq<u8>, ig: Seq<(Seq<u8>, Seq<u8>)>, j: int, n: int)
    requires
        0 <= j <= n,
        spec_collect_ignores(tb, ig, n) is Some,
    ensures
        spec_collect_ignores(tb, ig, j) is Some,
    decreases n - j,
{
    if j < n {
        lemma_collect_prefix(tb, ig, j, n - 1);
    }
}

fn collect_ignores(tb: &[u8], ig: &Vec<(&str, &str)>) -> (r: Vec<(usize, Option<usize>)>)
    requires
        spec_collect_ignores(tb@, ignore_view(ig@), ig@.len() as int) is Some,
    ensures
        ranges_view(r@) == spec_collect_ignores(tb@, ignore_view(ig@), ig@.len() as int)->0,
{
    let mut out: Vec<(usize, Option<usize>)> = Vec::new();
    let mut j: usize = 0;
    let n = ig.len();
    let ghost igv = ignore_view(ig@);
    while j < n
        invariant
            n == ig@.len(),
            igv == ignore_view(ig@),
            j <= n,
            spec_collect_ignores(tb@, igv, n as int) is Some,
            spec_collect_ignores(tb@, igv, j as int) is Some,
            ranges_view(out@) == spec_collect_ignores(tb@, igv, j as int)->0,
        decreases n - j,
    {
        proof {
            lemma_collect_prefix(tb@, igv, j + 1, n as int);
        }
        let pair = ig[j];
        assert(igv[j as int] == pair_bytes(pair));
        let fb = find_block_bytes(tb, 0, pair.0.as_bytes(), pair.1.as_bytes());
        match fb {
            Some(b) => {
                out.push(b);
                assert(ranges_view(out@) =~= spec_collect_ignores(tb@, igv, j as int)->0.push(block_int(b)));
            },
            None => {},
        }
        j = j + 1;
    }
    out
}

fn insert_by_start(v: &mut Vec<(usize, Option<usize>)>, x: (usize, Option<usize>))
    ensures
        ranges_view(final(v)@) == spec_insert_by_start(ranges_view(old(v)@), block_int(x)),
{
    let ghost vw = ranges_view(v@);
    let mut pos = v.len();
    assert(vw.take(pos as int) =~= vw);
    assert(vw.skip(pos as int) =~= Seq::<(int, Option<int>)>::empty());
    while pos > 0 && v[pos - 1].0 > x.0
        invariant
            pos <= v@.len(),
            v@ == old(v)@,
            vw == ranges_view(v@),
            spec_insert_by_start(vw, block_int(x)) == spec_insert_by_start(vw.take(pos as int), block_int(x)) + vw.skip(pos as int),
        decreases pos,
    {
        let ghost p = pos as int;
        assert(vw.take(p).drop_last() =~= vw.take(p - 1));
        assert(vw.take(p).last() == vw[p - 1]);
        assert(vw.skip(p - 1) =~= seq![vw[p - 1]] + vw.skip(p));
        assert(spec_insert_by_start(vw.take(p - 1), block_int(x)).push(vw[p - 1]) + vw.skip(p)
            =~= spec_insert_by_start(vw.take(p - 1), block_int(x)) + vw.skip(p - 1));
        pos = pos - 1;
    }
    proof {
        let p = pos as int;
        if p > 0 {
            assert(vw.take(p).last() == vw[p - 1]);
        } else {
            assert(vw.take(0) =~= Seq::<(int, Option<int>)>::empty());
        }
    }
    v.insert(pos, x);
    assert(ranges_view(v@) =~= vw.take(pos as int).push(block_int(x)) + vw.skip(pos as int));
}

fn sort_by_start(v: &Vec<(usize, Option<usize>)>) -> (r: Vec<(usize, Option<usize>)>)
    ensures
        ranges_view(r@) == spec_sort_by_start(ranges_view(v@)),
{
    let mut out: Vec<(usize, Option<usize>)> = Vec::new();
    let mut i: usize = 0;
    let ghost vw = ranges_view(v@);
    assert(vw.take(0) =~= Seq::<(int, Option<int>)>::empty());
    while i < v.len()
        invariant
            i <= v@.len(),
            vw == ranges_view(v@),
            ranges_view(out@) == spec_sort_by_start(vw.take(i as int)),
        decreases v@.len() - i,
    {
        assert(vw.take(i + 1).drop_last() =~= vw.take(i as int));
        assert(vw.take(i + 1).last() == block_int(v@[i as int]));
        insert_by_start(&mut out, v[i]);
        i = i + 1;
    }
    assert(vw.take(v@.len() as int) =~= vw);
    out
}

fn keep_outside(v: &Vec<(usize, Option<usize>)>, cs: usize, ce: usize) -> (r: Vec<(usize, Option<usize>)>)
    ensures
        ranges_view(r@) == ranges_view(v@).filter(outside_of(cs as int, ce as int)),
        r@.len() <= v@.len(),
{
    let mut out: Vec<(usize, Option<usize>)> = Vec::new();
    let mut j: usize = 0;
    let ghost vw = ranges_view(v@);
    let ghost pred = outside_of(cs as int, ce as int);
    assert(vw.take(0) =~= Seq::<(int, Option<int>)>::empty());
    assert(vw.take(0).filter(pred) =~= Seq::<(int, Option<int>)>::empty()) by {
        reveal_with_fuel(Seq::filter, 1);
    }
    while j < v.len()
        invariant
            j <= v@.len(),
            vw == ranges_view(v@),
            pred == outside_of(cs as int, ce as int),
            ranges_view(out@) == vw.take(j as int).filter(pred),
            out@.len() <= j,
        decreases v@.len() - j,
    {
        let e = v[j];
        assert(vw.take(j + 1) =~= vw.take(j as int).push(block_int(e)));
        proof {
            vw.take(j as int).lemma_filter_push(block_int(e), pred);
        }
        if !(cs < e.0 && ce > e.0) {
            out.push(e);
            assert(ranges_view(out@) =~= vw.take(j as int).filter(pred).push(block_int(e)));
        }
        j = j + 1;
    }
    assert(vw.take(v@.len() as int) =~= vw);
    out
}

fn prune(v: Vec<(usize, Option<usize>)>, len: usize) -> (r: Vec<(usize, Option<usize>)>)
    ensures
        ranges_view(r@) == spec_prune(ranges_view(v@), 0, len as int),
{
    let mut w = v;
    let mut cur: usize = 0;
    loop
        invariant
            spec_prune(ranges_view(w@), cur as int, len as int) == spec_prune(ranges_view(v@), 0, len as int),
        decreases prune_measure(w@.len() as int, cur as int),
    {
        if cur >= w.len() {
            return w;
        }
        let cs = w[cur].0;
        let ce = match w[cur].1 {
            Some(e) => e,
            None => len,
        };
        assert(ranges_view(w@)[cur as int] == block_int(w@[cur as int]));
        let nw = keep_outside(&w, cs, ce);
        w = nw;
        cur = cur + 1;
    }
}

fn has_open_exec(v: &Vec<(usize, Option<usize>)>) -> (r: bool)
    ensures
        r == has_open(ranges_view(v@)),
{
    let mut i: usize = 0;
    while i < v.len()
        invariant
            i <= v@.len(),
            forall|k: int| 0 <= k < i ==> v@[k].1 is Some,
        decreases v@.len() - i,
    {
        if v[i].1.is_none() {
            assert(ranges_view(v@)[i as int].1 is None);
            return true;
        }
        i = i + 1;
    }
    assert forall|k: int| 0 <= k < ranges_view(v@).len() implies (#[trigger] ranges_view(v@)[k]).1 is Some by {
        assert(v@[k].1 is Some);
    }
    false
}

/// Finds the next block opened by `start_tag` and closed by `end_tag` from byte offset
/// `index`, such that no block of `ignore_block` (such as a quoted string) is left open
/// inside it: while one is, the block is widened to the next closing tag. Returns the
/// offsets of the opening tag and just past the closing tag.
pub fn find_block_skip_ignore(
    src: &str,
    index: usize,
    start_tag: &str,
    end_tag: &str,
    ignore_block: &Vec<(&str, &str)>,
) -> (r: Option<(usize, usize)>)
    requires
        spec_find_block_skip_ignore(src.spec_bytes(), index as int, start_tag.spec_bytes(), end_tag.spec_bytes(), ignore_view(ignore_block@)) is Some,
    ensures
        opt_range_int(r) == spec_find_block_skip_ignore(src.spec_bytes(), index as int, start_tag.spec_bytes(), end_tag.spec_bytes(), ignore_view(ignore_block@))->0,
{
    let s = src.as_bytes();
    let st = start_tag.as_bytes();
    let et = end_tag.as_bytes();
    let ghost igv = ignore_view(ignore_block@);
    let n = s.len();
    let (start, mut end) = match find_block_bytes(s, index, st, et) {
        Some((p, Some(q))) => (p, q),
        _ => return None,
    };
    loop
        invariant
            n == s@.len(),
            s@ == src.spec_bytes(),
            st@ == start_tag.spec_bytes(),
            et@ == end_tag.spec_bytes(),
            igv == ignore_view(ignore_block@),
            start + st@.len() + et@.len() <= end <= n,
            spec_extend_block(s@, start as int, end as int, st@, et@, igv) is Some,
            spec_extend_block(s@, start as int, end as int, st@, et@, igv)
                == spec_find_block_skip_ignore(s@, index as int, st@, et@, igv),
        decreases n - end,
    {
        let tb = &s[start + st.len()..end - et.len()];
        let found = collect_ignores(tb, ignore_block);
        let sorted = sort_by_start(&found);
        let ranges = prune(sorted, tb.len());
        if has_open_exec(&ranges) {
            if n == 0 || end >= n - 1 {
                return None;
            }
            proof {
                lemma_find_result(s@, end + 1, et@);
            }
            match find_bytes(s, end + 1, et) {
                None => return None,
                Some(p) => {
                    end = p + et.len();
                },
            }
        } else {
            return Some((start, end));
        }
    }
}

} // verus!

verus! {

/// A valid UTF-8 position holding a one-byte character is followed by a boundary.
proof fn lemma_after_ascii(s: Seq<u8>, m: int)
    requires
        valid_utf8(s),
        0 <= m < s.len(),
        is_char_boundary(s, m),
        s[m] < 0x80,
    ensures
        is_char_boundary(s, m + 1),
{
    let tail = s.subrange(m, s.len() as int);
    lemma_tail_boundary(s, m, 1);
    assert(tail[0] == s[m]);
    assert(length_of_first_scalar(tail) == 1);
    assert(is_char_boundary(pop_first_scalar(tail), 0));
}

/// A backslash in valid UTF-8 text sits on a character boundary.
proof fn lemma_backslash_boundary(s: Seq<u8>, m: int)
    requires
        valid_utf8(s),
        0 <= m < s.len(),
        s[m] == ESCAPE_BYTE,
    ensures
        is_char_boundary(s, m),
        is_char_boundary(s, m + 1),
{
    is_char_boundary_iff_not_is_continuation_byte(s, m);
    lemma_after_ascii(s, m);
}

/// The escape sequence of `t`: a backslash followed by `t`.
pub open spec fn escape_seq(t: Seq<u8>) -> Seq<u8> {
    seq![ESCAPE_BYTE] + t
}

/// One piece `[x, y)` of the text split at escape sequences of a tag whose escape
/// sequence has length `kl`: when the escape sequence before the piece is itself
/// escaped (doubled backslash), the piece is joined to the previous one with the escape
/// kept; otherwise the backslash is dropped and the tag is kept in front of the piece.
/// The piece right after an escape sequence at the very start keeps neither.
pub open spec fn rsb_step(s: Seq<u8>, kl: int, acc: Seq<(int, int)>, x: int, y: int) -> Seq<(int, int)> {
    if x > kl {
        let o = x - 1 - kl;
        if s[o] == ESCAPE_BYTE {
            if acc.len() > 0 {
                acc.update(acc.len() - 1, (acc.last().0, y))
            } else {
                acc.push((o, y))
            }
        } else {
            acc.push((o + 2, y))
        }
    } else {
        acc.push((x, y))
    }
}

/// The pieces, as byte ranges, of `s` from byte `from` on, after `acc`.
pub open spec fn spec_rsb_from(s: Seq<u8>, t: Seq<u8>, acc: Seq<(int, int)>, from: int) -> Seq<(int, int)>
    decreases s.len() - from,
{
    let k = escape_seq(t);
    if from < 0 || from > s.len() {
        acc
    } else {
        match first_match(s, from, k) {
            None => rsb_step(s, k.len() as int, acc, from, s.len() as int),
            Some(m) => {
                proof {
                    lemma_first_match_range(s, from, k);
                }
                spec_rsb_from(s, t, rsb_step(s, k.len() as int, acc, from, m), m + k.len())
            },
        }
    }
}

/// The pieces of `s` once escape sequences of the tag `t` are resolved.
pub open spec fn spec_remove_skip_block(s: Seq<u8>, t: Seq<u8>) -> Seq<Seq<u8>> {
    spec_rsb_from(s, t, seq![], 0).map_values(|r: (int, int)| s.subrange(r.0, r.1))
}

pub open spec fn ranges_ok(s: Seq<u8>, acc: Seq<(int, int)>, bound: int) -> bool {
    forall|i: int|
        0 <= i < acc.len() ==> 0 <= (#[trigger] acc[i]).0 <= acc[i].1 <= bound && is_char_boundary(s, acc[i].0)
            && is_char_boundary(s, acc[i].1)
}

proof fn lemma_rsb_step_ok(s: Seq<u8>, kl: int, acc: Seq<(int, int)>, x: int, y: int)
    requires
        valid_utf8(s),
        kl >= 1,
        ranges_ok(s, acc, x),
        0 <= x <= y <= s.len(),
        is_char_boundary(s, x),
        is_char_boundary(s, y),
        x > 0 ==> x >= kl && s[x - kl] == ESCAPE_BYTE,
    ensures
        ranges_ok(s, rsb_step(s, kl, acc, x, y), y),
{
    if x > kl {
        let o = x - 1 - kl;
        lemma_backslash_boundary(s, x - kl);
        if s[o] == ESCAPE_BYTE {
            lemma_backslash_boundary(s, o);
        }
    }
}

pub proof fn lemma_escape_seq_valid(t: Seq<u8>)
    requires
        valid_utf8(t),
    ensures
        valid_utf8(escape_seq(t)),
{
    reveal_with_fuel(valid_utf8, 2);
    let b = seq![ESCAPE_BYTE];
    assert(pop_first_scalar(b) =~= Seq::<u8>::empty());
    valid_utf8_concat(b, t);
}

/// The substring of `src` between two byte offsets on character boundaries.
pub fn slice_str<'a>(src: &'a str, a: usize, b: usize) -> (r: &'a str)
    requires
        a <= b <= src.spec_bytes().len(),
        is_char_boundary(src.spec_bytes(), a as int),
        is_char_boundary(src.spec_bytes(), b as int),
    ensures
        r.spec_bytes() == src.spec_bytes().subrange(a as int, b as int),
{
    proof {
        encode_utf8_valid_utf8(src@);
        lemma_tail_boundary(src.spec_bytes(), a as int, b - a);
    }
    let (_, rest) = src.split_at(a);
    let (mid, _) = rest.split_at(b - a);
    assert(mid.spec_bytes() =~= src.spec_bytes().subrange(a as int, b as int));
    mid
}

/// Resolves the escape sequences `\tag` in `src`: the text is split at each of them and
/// the tag is kept at the front of the piece that follows; a doubled backslash keeps the
/// escape sequence and the text around it together.
pub fn remove_skip_block<'a>(src: &'a str, tag: &str) -> (r: Vec<&'a str>)
    ensures
        r@.len() == spec_remove_skip_block(src.spec_bytes(), tag.spec_bytes()).len(),
        forall|i: int| 0 <= i < r@.len() ==> #[trigger] r@[i].spec_bytes() == spec_remove_skip_block(src.spec_bytes(), tag.spec_bytes())[i],
{
    let s = src.as_bytes();
    let t = tag.as_bytes();
    let n = s.len();
    let tl = t.len();
    proof {
        encode_utf8_valid_utf8(src@);
        encode_utf8_valid_utf8(tag@);
        lemma_escape_seq_valid(t@);
        is_char_boundary_start_end_of_seq(s@);
    }
    let mut k: Vec<u8> = Vec::new();
    k.push(ESCAPE_BYTE);
    let mut i: usize = 0;
    while i < tl
        invariant
            i <= tl,
            tl == t@.len(),
            k@ == escape_seq(t@).subrange(0, i + 1),
        decreases tl - i,
    {
        k.push(t[i]);
        i = i + 1;
        assert(k@ =~= escape_seq(t@).subrange(0, i as int + 1));
    }
    assert(k@ =~= escape_seq(t@));
    let kl = k.len();
    let mut acc: Vec<(usize, usize)> = Vec::new();
    let mut from: usize = 0;
    let ghost target = spec_rsb_from(s@, t@, seq![], 0);
    assert(acc@.map_values(|r: (usize, usize)| (r.0 as int, r.1 as int)) =~= Seq::<(int, int)>::empty());
    loop
        invariant_except_break
            from <= n,
            is_char_boundary(s@, from as int),
            from > 0 ==> from >= kl && s@[from - kl] == ESCAPE_BYTE,
            ranges_ok(s@, acc@.map_values(|r: (usize, usize)| (r.0 as int, r.1 as int)), from as int),
            spec_rsb_from(s@, t@, acc@.map_values(|r: (usize, usize)| (r.0 as int, r.1 as int)), from as int) == target,
        invariant
            n == s@.len(),
            s@ == src.spec_bytes(),
            t@ == tag.spec_bytes(),
            k@ == escape_seq(t@),
            kl == k@.len(),
            valid_utf8(s@),
            valid_utf8(k@),
            target == spec_rsb_from(s@, t@, seq![], 0),
        ensures
            ranges_ok(s@, acc@.map_values(|r: (usize, usize)| (r.0 as int, r.1 as int)), n as int),
            acc@.map_values(|r: (usize, usize)| (r.0 as int, r.1 as int)) == target,
        decreases n - from,
    {
        let ghost av = acc@.map_values(|r: (usize, usize)| (r.0 as int, r.1 as int));
        let m = first_match_exec(s, from, k.as_slice());
        proof {
            lemma_first_match_range(s@, from as int, k@);
        }
        let y = match m {
            Some(mm) => mm,
            None => n,
        };
        proof {
            if let Some(mm) = m {
                assert(s@[mm as int] == s@.subrange(mm as int, mm + kl)[0]);
                assert(k@[0] == ESCAPE_BYTE);
                lemma_backslash_boundary(s@, mm as int);
                lemma_match_boundaries(s@, k@, mm as int);
            }
            if m is None {
                is_char_boundary_start_end_of_seq(s@);
            }
            lemma_rsb_step_ok(s@, kl as int, av, from as int, y as int);
        }
        if from > kl {
            let o = from - 1 - kl;
            if s[o] == ESCAPE_BYTE {
                if acc.len() > 0 {
                    let last = acc.len() - 1;
                    let first = acc[last].0;
                    acc.set(last, (first, y));
                } else {
                    acc.push((o, y));
                }
            } else {
                acc.push((o + 2, y));
            }
        } else {
            acc.push((from, y));
        }
        let ghost nav = acc@.map_values(|r: (usize, usize)| (r.0 as int, r.1 as int));
        assert(nav =~= rsb_step(s@, kl as int, av, from as int, y as int));
        match m {
            None => {
                assert(target == nav);
                break;
            },
            Some(mm) => {
                from = mm + kl;
            },
        }
    }
    let ghost ranges = acc@.map_values(|r: (usize, usize)| (r.0 as int, r.1 as int));
    let mut out: Vec<&'a str> = Vec::new();
    let mut j: usize = 0;
    while j < acc.len()
        invariant
            j <= acc@.len(),
            s@ == src.spec_bytes(),
            ranges == acc@.map_values(|r: (usize, usize)| (r.0 as int, r.1 as int)),
            ranges_ok(s@, ranges, n as int),
            n == s@.len(),
            ranges == target,
            target == spec_rsb_from(src.spec_bytes(), tag.spec_bytes(), seq![], 0),
            out@.len() == j,
            forall|q: int| 0 <= q < j ==> #[trigger] out@[q].spec_bytes() == s@.subrange(ranges[q].0, ranges[q].1),
        decreases acc@.len() - j,
    {
        let (a, b) = acc[j];
        assert(ranges[j as int] == (a as int, b as int));
        let piece = slice_str(src, a, b);
        out.push(piece);
        j = j + 1;
    }
    out
}

} // verus!

verus! {

/// A piece of a template: text inside a block (`Dynamic`) or outside blocks (`Static`).
#[derive(Debug, Eq, PartialEq)]
pub enum Block<'a> {
    Dynamic(&'a str),
    Static(&'a str),
}

/// The bytes of a [`Block`], with its kind.
pub enum SpecBlock {
    Dynamic(Seq<u8>),
    Static(Seq<u8>),
}

pub open spec fn block_view(b: Block) -> SpecBlock {
    match b {
        Block::Dynamic(s) => SpecBlock::Dynamic(s.spec_bytes()),
        Block::Static(s) => SpecBlock::Static(s.spec_bytes()),
    }
}

pub open spec fn blocks_view(v: Seq<Block>) -> Seq<SpecBlock> {
    v.map_values(|b: Block| block_view(b))
}

pub open spec fn make_block(dynamic: bool, p: Seq<u8>) -> SpecBlock {
    if dynamic {
        SpecBlock::Dynamic(p)
    } else {
        SpecBlock::Static(p)
    }
}

/// Each piece, split again at the escape sequences of `et`, as blocks of one kind.
pub open spec fn blocks_of(pieces: Seq<Seq<u8>>, et: Seq<u8>, dynamic: bool) -> Seq<SpecBlock>
    decreases pieces.len(),
{
    if pieces.len() == 0 {
        seq![]
    } else {
        blocks_of(pieces.drop_last(), et, dynamic) + spec_remove_skip_block(pieces.last(), et).map_values(
            |q: Seq<u8>| make_block(dynamic, q),
        )
    }
}

/// Text whose escape sequences of both tags are resolved, as blocks of one kind.
pub open spec fn split_blocks(b: Seq<u8>, st: Seq<u8>, et: Seq<u8>, dynamic: bool) -> Seq<SpecBlock> {
    blocks_of(spec_remove_skip_block(b, st), et, dynamic)
}

/// The blocks of `s` from byte `index` on (the outer `None` marks inputs on which the
/// splitting cannot complete).
pub open spec fn spec_group_from(
    s: Seq<u8>,
    index: int,
    st: Seq<u8>,
    et: Seq<u8>,
    ig: Seq<(Seq<u8>, Seq<u8>)>,
    replace: bool,
) -> Option<Seq<SpecBlock>>
    decreases s.len() - index,
{
    if index < 0 || index > s.len() {
        None
    } else {
        match spec_find_block_skip_ignore(s, index, st, et, ig) {
            None => None,
            Some(None) => if index < s.len() {
                if is_char_boundary(s, index) {
                    Some(split_blocks(s.subrange(index, s.len() as int), st, et, false))
                } else {
                    None
                }
            } else {
                Some(seq![])
            },
            Some(Some((cs, ce))) => {
                let a = cs + st.len();
                let b = ce - et.len();
                if !(index <= cs && a <= b && ce <= s.len() && index < ce) || !is_char_boundary(s, a)
                    || !is_char_boundary(s, b) || (cs > index && !(is_char_boundary(s, index)
                    && is_char_boundary(s, cs))) {
                    None
                } else {
                    match spec_group_from(s, ce, st, et, ig, replace) {
                        None => None,
                        Some(rest) => Some(
                            (if cs > index {
                                split_blocks(s.subrange(index, cs), st, et, false)
                            } else {
                                seq![]
                            }) + (if replace {
                                split_blocks(s.subrange(a, b), st, et, true)
                            } else {
                                seq![SpecBlock::Dynamic(s.subrange(a, b))]
                            }) + rest,
                        ),
                    }
                }
            },
        }
    }
}

/// Splits `text` at the escape sequences of `st`, then each piece at those of `et`,
/// and appends the pieces as blocks of one kind.
fn push_pieces<'a>(out: &mut Vec<Block<'a>>, text: &'a str, st: &str, et: &str, dynamic: bool)
    ensures
        blocks_view(final(out)@) == blocks_view(old(out)@) + split_blocks(text.spec_bytes(), st.spec_bytes(), et.spec_bytes(), dynamic),
{
    let first = remove_skip_block(text, st);
    let ghost pieces = spec_remove_skip_block(text.spec_bytes(), st.spec_bytes());
    let ghost base = blocks_view(out@);
    let mut i: usize = 0;
    assert(pieces.take(0) =~= Seq::<Seq<u8>>::empty());
    assert(blocks_view(out@) =~= base + blocks_of(pieces.take(0), et.spec_bytes(), dynamic));
    while i < first.len()
        invariant
            i <= first@.len(),
            first@.len() == pieces.len(),
            forall|q: int| 0 <= q < first@.len() ==> #[trigger] first@[q].spec_bytes() == pieces[q],
            blocks_view(out@) == base + blocks_of(pieces.take(i as int), et.spec_bytes(), dynamic),
        decreases first@.len() - i,
    {
        let piece = first[i];
        let second = remove_skip_block(piece, et);
        let ghost sub = spec_remove_skip_block(piece.spec_bytes(), et.spec_bytes());
        let ghost mid = blocks_view(out@);
        let mut j: usize = 0;
        assert(sub.map_values(|q: Seq<u8>| make_block(dynamic, q)).take(0) =~= Seq::<SpecBlock>::empty());
        assert(blocks_view(out@) =~= mid + sub.map_values(|q: Seq<u8>| make_block(dynamic, q)).take(0));
        while j < second.len()
            invariant
                j <= second@.len(),
                second@.len() == sub.len(),
                forall|q: int| 0 <= q < second@.len() ==> #[trigger] second@[q].spec_bytes() == sub[q],
                blocks_view(out@) == mid + sub.map_values(|q: Seq<u8>| make_block(dynamic, q)).take(j as int),
            decreases second@.len() - j,
        {
            let b = if dynamic {
                Block::Dynamic(second[j])
            } else {
                Block::Static(second[j])
            };
            let ghost before = blocks_view(out@);
            out.push(b);
            assert(blocks_view(out@) =~= before.push(block_view(b)));
            assert(block_view(b) == make_block(dynamic, sub[j as int]));
            assert(sub.map_values(|q: Seq<u8>| make_block(dynamic, q)).take(j + 1) =~= sub.map_values(
                |q: Seq<u8>| make_block(dynamic, q),
            ).take(j as int).push(make_block(dynamic, sub[j as int])));
            j = j + 1;
        }
        assert(sub.map_values(|q: Seq<u8>| make_block(dynamic, q)).take(second@.len() as int) =~= sub.map_values(
            |q: Seq<u8>| make_block(dynamic, q),
        ));
        assert(pieces.take(i + 1).drop_last() =~= pieces.take(i as int));
        assert(pieces.take(i + 1).last() == piece.spec_bytes());
        i = i + 1;
    }
    assert(pieces.take(first@.len() as int) =~= pieces);
}

impl Block<'static> {
    #[verifier::rlimit(50)]
    /// Splits `src` into the text outside blocks (`Static`) and the contents of the blocks
    /// opened by `start_tag` and closed by `end_tag` (`Dynamic`); a closing tag inside an
    /// ignored block (such as a quoted string) does not close. Escape sequences of the tags
    /// in static text are resolved, and so they are in block contents when
    /// `replace_hit_skip_tag` holds.
    pub fn new_group<'a>(
        src: &'a str,
        start_tag: &str,
        end_tag: &str,
        ignore_blocks: &Vec<(&str, &str)>,
        replace_hit_skip_tag: bool,
    ) -> (r: Vec<Block<'a>>)
        requires
            spec_group_from(src.spec_bytes(), 0, start_tag.spec_bytes(), end_tag.spec_bytes(), ignore_view(ignore_blocks@), replace_hit_skip_tag) is Some,
        ensures
            blocks_view(r@) == spec_group_from(src.spec_bytes(), 0, start_tag.spec_bytes(), end_tag.spec_bytes(), ignore_view(ignore_blocks@), replace_hit_skip_tag)->0,
    {
        let ghost s = src.spec_bytes();
        let ghost st = start_tag.spec_bytes();
        let ghost et = end_tag.spec_bytes();
        let ghost igv = ignore_view(ignore_blocks@);
        let ghost total = spec_group_from(s, 0, st, et, igv, replace_hit_skip_tag)->0;
        let n = src.as_bytes().len();
        let sl = start_tag.as_bytes().len();
        let el = end_tag.as_bytes().len();
        let mut result: Vec<Block<'a>> = Vec::new();
        let mut index: usize = 0;
        assert(blocks_view(result@) =~= Seq::<SpecBlock>::empty());
        assert(total =~= blocks_view(result@) + spec_group_from(s, 0, st, et, igv, replace_hit_skip_tag)->0);
        loop
            invariant
                n == s.len(),
                s == src.spec_bytes(),
                sl == st.len(),
                el == et.len(),
                st == start_tag.spec_bytes(),
                et == end_tag.spec_bytes(),
                igv == ignore_view(ignore_blocks@),
                total == spec_group_from(s, 0, st, et, igv, replace_hit_skip_tag)->0,
                index <= n,
                spec_group_from(s, index as int, st, et, igv, replace_hit_skip_tag) is Some,
                total == blocks_view(result@) + spec_group_from(s, index as int, st, et, igv, replace_hit_skip_tag)->0,
            decreases n - index,
        {
            let ghost before = blocks_view(result@);
            match find_block_skip_ignore(src, index, start_tag, end_tag, ignore_blocks) {
                Some((cs, ce)) => {
                    let ghost rest = spec_group_from(s, ce as int, st, et, igv, replace_hit_skip_tag)->0;
                    let ghost stat = if cs > index {
                        split_blocks(s.subrange(index as int, cs as int), st, et, false)
                    } else {
                        seq![]
                    };
                    if cs > index {
                        let text = slice_str(src, index, cs);
                        push_pieces(&mut result, text, start_tag, end_tag, false);
                    } else {
                        assert(blocks_view(result@) =~= before + stat);
                    }
                    let ghost mid = blocks_view(result@);
                    let dyn_src = slice_str(src, cs + sl, ce - el);
                    if replace_hit_skip_tag {
                        push_pieces(&mut result, dyn_src, start_tag, end_tag, true);
                    } else {
                        result.push(Block::Dynamic(dyn_src));
                        assert(blocks_view(result@) =~= mid + seq![SpecBlock::Dynamic(dyn_src.spec_bytes())]);
                    }
                    assert(total =~= blocks_view(result@) + rest);
                    index = ce;
                },
                None => {
                    if index < n {
                        proof {
                            encode_utf8_valid_utf8(src@);
                            is_char_boundary_start_end_of_seq(s);
                        }
                        let text = slice_str(src, index, n);
                        push_pieces(&mut result, text, start_tag, end_tag, false);
                    }
                    assert(total =~= blocks_view(result@));
                    return result;
                },
            }
        }
    }
}

} // verus!

verus! {

/// In valid UTF-8 text, a search for a nonempty valid UTF-8 tag from a character boundary
/// always completes, and what it finds starts and ends on character boundaries.
pub proof fn lemma_find_some(s: Seq<u8>, i: int, t: Seq<u8>)
    requires
        valid_utf8(s),
        valid_utf8(t),
        t.len() > 0,
        0 <= i <= s.len(),
        is_char_boundary(s, i),
    ensures
        spec_find(s, i, t) is Some,
        spec_find(s, i, t)->0 matches Some(p) ==> i <= p && p + t.len() <= s.len() && is_char_boundary(s, p)
            && is_char_boundary(s, p + t.len()),
    decreases s.len() - i,
{
    lemma_first_match_range(s, i, t);
    match first_match(s, i, t) {
        None => {},
        Some(p) => {
            lemma_match_boundaries(s, t, p);
            if escaped(s, p) {
                lemma_find_some(s, p + t.len(), t);
            }
        },
    }
}

} // verus!

verus! {

/// Text in which the escape sequence of a tag does not occur is kept whole.
pub proof fn lemma_no_escape_keeps_text(s: Seq<u8>, t: Seq<u8>)
    requires
        first_match(s, 0, escape_seq(t)) is None,
    ensures
        spec_remove_skip_block(s, t) == seq![s],
{
    assert(spec_rsb_from(s, t, seq![], 0) == seq![(0int, s.len() as int)]);
    assert(s.subrange(0, s.len() as int) =~= s);
    assert(spec_remove_skip_block(s, t) =~= seq![s]);
}

} // verus!
