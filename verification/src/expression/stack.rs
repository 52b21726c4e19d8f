use vstd::prelude::*;

use crate::expression::specs::{irs_view, ExpressionIR, SpecIR};

verus! {

/// The groups and primitives that are open while an expression is read; the first one is
/// the group of the whole expression.
pub struct ExpressionStack {
    pub data: Vec<ExpressionIR>,
}

/// A group or a primitive: a part that has parts.
pub open spec fn is_container(x: SpecIR) -> bool {
    x is Group || x is Primitive
}

/// The stack holds the group of the whole expression first, and only groups and primitives.
pub open spec fn stack_ok(s: Seq<SpecIR>) -> bool {
    &&& s.len() >= 1
    &&& s[0] is Group
    &&& forall|i: int| 0 <= i < s.len() ==> is_container(#[trigger] s[i])
}

/// `c` with `x` added as its last part.
pub open spec fn add_child(c: SpecIR, x: SpecIR) -> SpecIR {
    match c {
        SpecIR::Group(g) => SpecIR::Group(g.push(x)),
        SpecIR::Primitive(n, g) => SpecIR::Primitive(n, g.push(x)),
        _ => c,
    }
}

/// The stack once `x` is added to the innermost open part; an empty group is dropped.
pub open spec fn spec_push(s: Seq<SpecIR>, x: SpecIR) -> Seq<SpecIR> {
    if x matches SpecIR::Group(g) && g.len() == 0 {
        s
    } else {
        s.update(s.len() - 1, add_child(s.last(), x))
    }
}

/// The stack once the innermost open part is closed and added to the one around it.
pub open spec fn spec_end_child(s: Seq<SpecIR>) -> Seq<SpecIR> {
    spec_push(s.drop_last(), s.last())
}

impl ExpressionStack {
    pub open spec fn spec_view(&self) -> Seq<SpecIR> {
        irs_view(self.data@)
    }

    pub open spec fn wf(&self) -> bool {
        stack_ok(self.spec_view())
    }
}

impl Default for ExpressionStack {
    /// A stack with the empty group of the whole expression.
    fn default() -> (r: Self)
        ensures
            r.wf(),
            r.spec_view() == seq![SpecIR::Group(Seq::empty())],
    {
        let empty: Vec<ExpressionIR> = Vec::new();
        assert(irs_view(empty@) =~= Seq::<SpecIR>::empty());
        let r = ExpressionStack { data: vec![ExpressionIR::ItemGroup(empty)] };
        assert(r.spec_view() =~= seq![SpecIR::Group(Seq::empty())]);
        r
    }
}

impl ExpressionStack {
    /// Adds `item` to the innermost open part (an empty group is dropped).
    pub fn push(&mut self, item: ExpressionIR)
        requires
            old(self).wf(),
        ensures
            final(self).wf(),
            final(self).spec_view() == spec_push(old(self).spec_view(), item.spec_view()),
    {
        let ghost s = self.spec_view();
        let ghost x = item.spec_view();
        if let ExpressionIR::ItemGroup(data) = &item {
            if data.len() == 0 {
                assert(irs_view(data@) =~= Seq::<SpecIR>::empty());
                return;
            }
        }
        let top = self.data.pop().unwrap();
        assert(top.spec_view() == s.last());
        let new_top = match top {
            ExpressionIR::ItemGroup(mut value) => {
                let ghost before = irs_view(value@);
                value.push(item);
                assert(irs_view(value@) =~= before.push(x));
                ExpressionIR::ItemGroup(value)
            },
            ExpressionIR::ItemPrimitive(name, mut value) => {
                let ghost before = irs_view(value@);
                value.push(item);
                assert(irs_view(value@) =~= before.push(x));
                ExpressionIR::ItemPrimitive(name, value)
            },
            other => other,
        };
        self.data.push(new_top);
        assert(self.spec_view() =~= s.update(s.len() - 1, add_child(s.last(), x)));
    }

    /// Opens `item`, a group or a primitive, as the innermost part.
    pub fn new_child(&mut self, item: ExpressionIR)
        requires
            old(self).wf(),
            is_container(item.spec_view()),
        ensures
            final(self).wf(),
            final(self).spec_view() == old(self).spec_view().push(item.spec_view()),
    {
        let ghost s = self.spec_view();
        self.data.push(item);
        assert(self.spec_view() =~= s.push(item.spec_view()));
    }

    /// Closes the innermost open part and adds it to the one around it.
    pub fn end_child(&mut self)
        requires
            old(self).wf(),
            old(self).spec_view().len() >= 2,
        ensures
            final(self).wf(),
            final(self).spec_view() == spec_end_child(old(self).spec_view()),
    {
        let ghost s = self.spec_view();
        let last = self.data.remove(self.data.len() - 1);
        assert(self.spec_view() =~= s.drop_last());
        self.push(last);
    }

    /// The number of open parts inside the group of the whole expression.
    pub fn depth_len(&self) -> (r: usize)
        requires
            self.wf(),
        ensures
            r == self.spec_view().len() - 1,
    {
        self.data.len() - 1
    }

    /// The open part at `index` (from the start; a negative index counts back from the
    /// innermost one, `-1` being the one around it).
    pub fn depth(&self, index: isize) -> (r: Option<&ExpressionIR>)
        requires
            self.wf(),
            self.spec_view().len() <= isize::MAX,
        ensures
            ({
                let k = if index >= 0 {
                    index as usize
                } else {
                    ((self.spec_view().len() - 1) + index) as usize
                };
                match r {
                    Some(x) => k < self.spec_view().len() && x.spec_view() == self.spec_view()[k as int],
                    None => k >= self.spec_view().len(),
                }
            }),
    {
        let k = if index >= 0 {
            index as usize
        } else {
            let d = self.depth_len() as isize;
            assert(d == self.spec_view().len() - 1);
            (d + index) as usize
        };
        if k < self.data.len() {
            Some(&self.data[k])
        } else {
            None
        }
    }

    /// The parts of the whole expression.
    pub fn close(self) -> (r: Vec<ExpressionIR>)
        requires
            self.wf(),
        ensures
            irs_view(r@) == self.spec_view()[0]->Group_0,
    {
        let mut data = self.data;
        let first = data.remove(0);
        match first {
            ExpressionIR::ItemGroup(group) => group,
            _ => Vec::new(),
        }
    }
}

} // verus!
