use vstd::prelude::*;
use vstd::string::*;

use crate::utils::chars::{spec_split, spec_trim, split_char, starts_with, trim};

verus! {

/// The words of `s`: its pieces between spaces, without the empty ones.
pub open spec fn spec_words(s: Seq<char>) -> Seq<Seq<char>> {
    spec_split(s, ' ').filter(nonempty())
}

/// Whether a piece is not empty.
pub open spec fn nonempty() -> spec_fn(Seq<char>) -> bool {
    |w: Seq<char>| w.len() > 0
}

/// The trim marks of a block and the text between them: whether the trimmed text starts
/// with `- `, whether what is left ends with ` -`, and what is left of it once both marks
/// are cut off and it is trimmed again.
pub open spec fn spec_trim_marks(s: Seq<char>) -> (bool, bool, Seq<char>) {
    let t0 = spec_trim(s);
    let before = seq!['-', ' '].is_prefix_of(t0);
    let t1 = if before {
        t0.skip(2)
    } else {
        t0
    };
    let after = seq![' ', '-'].is_suffix_of(t1);
    let t2 = if after {
        t1.take(t1.len() - 2)
    } else {
        t1
    };
    (before, after, spec_trim(t2))
}

/// The text of a dynamic block, read: its trim marks, its keyword and its parameters.
pub struct DynamicBlock<'a> {
    pub trim_before: bool,
    pub trim_after: bool,
    pub key: &'a str,
    pub params: Vec<&'a str>,
}

/// Whether `s` ends with `suffix`.
fn ends_with(s: &str, suffix: &str) -> (r: bool)
    ensures
        r == suffix@.is_suffix_of(s@),
{
    let n = s.unicode_len();
    let m = suffix.unicode_len();
    if m > n {
        return false;
    }
    let tail = s.substring_char(n - m, n);
    starts_with(tail, suffix) && tail.unicode_len() == m
}

impl DynamicBlock<'static> {
    /// Reads the text of a dynamic block: a leading `- ` asks to trim the text before the
    /// block, a trailing ` -` the text after it; the first word is the keyword and the
    /// other words are the parameters.
    pub fn new<'a>(src: &'a str) -> (r: DynamicBlock<'a>)
        ensures
            r.trim_before == spec_trim_marks(src@).0,
            r.trim_after == spec_trim_marks(src@).1,
            spec_words(spec_trim_marks(src@).2).len() == 0 ==> r.key@ == Seq::<char>::empty() && r.params@.len() == 0,
            spec_words(spec_trim_marks(src@).2).len() > 0 ==> {
                &&& r.key@ == spec_words(spec_trim_marks(src@).2)[0]
                &&& r.params@.len() == spec_words(spec_trim_marks(src@).2).len() - 1
                &&& forall|i: int| 0 <= i < r.params@.len() ==> #[trigger] r.params@[i]@ == spec_words(spec_trim_marks(src@).2)[i + 1]
            },
    {
        let ghost marks = spec_trim_marks(src@);
        let mut text = trim(src);
        proof {
            reveal_strlit("- ");
            reveal_strlit(" -");
            reveal_strlit("");
        }
        let before = starts_with(text, "- ");
        if before {
            let n = text.unicode_len();
            text = text.substring_char(2, n);
        }
        let after = ends_with(text, " -");
        if after {
            let n = text.unicode_len();
            text = text.substring_char(0, n - 2);
        }
        let text = trim(text);
        assert(text@ == marks.2);
        let pieces = split_char(text, ' ');
        let ghost pv = Seq::new(pieces@.len(), |k: int| pieces@[k]@);
        assert(pv =~= spec_split(text@, ' '));
        let ghost pred = nonempty();
        let mut words: Vec<&'a str> = Vec::new();
        let mut i: usize = 0;
        assert(pv.take(0) =~= Seq::<Seq<char>>::empty());
        proof {
            reveal(Seq::filter);
        }
        while i < pieces.len()
            invariant
                i <= pieces@.len(),
                pred == nonempty(),
                pv == Seq::new(pieces@.len(), |k: int| pieces@[k]@),
                words@.len() == pv.take(i as int).filter(pred).len(),
                forall|k: int| 0 <= k < words@.len() ==> #[trigger] words@[k]@ == pv.take(i as int).filter(pred)[k],
            decreases pieces@.len() - i,
        {
            let ghost prev = pv.take(i as int).filter(pred);
            let ghost cur = pieces@[i as int]@;
            assert(pv.take(i + 1).drop_last() =~= pv.take(i as int));
            assert(pv.take(i + 1).last() == cur);
            assert(pv.take(i + 1).filter(pred) == (if cur.len() > 0 { prev.push(cur) } else { prev })) by {
                reveal(Seq::filter);
            }
            if pieces[i].unicode_len() > 0 {
                words.push(pieces[i]);
            }
            i = i + 1;
        }
        assert(pv.take(pieces@.len() as int) =~= pv);
        if words.len() == 0 {
            DynamicBlock { trim_before: before, trim_after: after, key: "", params: Vec::new() }
        } else {
            let key = words.remove(0);
            DynamicBlock { trim_before: before, trim_after: after, key, params: words }
        }
    }
}

} // verus!
