use vstd::prelude::*;
use vstd::string::*;

use std::rc::Rc;

use crate::ast::{asts_view, SpecAst, TemplateAst};
use crate::compile::ast_stack::AddError;
use crate::compile::{spec_build_template, Compile};
use crate::config::TemplateConfig;
use crate::error::{TemplateError, TmplResult};

verus! {

/// The template engine: its templates by name, its configuration and its compiler.
pub struct EasyTemplate {
    pub templates: Vec<(String, Vec<TemplateAst>)>,
    pub config: Rc<TemplateConfig>,
    pub compile: Compile,
}

/// The names and syntax trees of registered templates.
pub open spec fn templates_view(v: Seq<(String, Vec<TemplateAst>)>) -> Seq<(Seq<char>, Seq<SpecAst>)> {
    Seq::new(v.len(), |i: int| (v[i].0@, asts_view(v[i].1@)))
}

/// A template named `name` is registered.
pub open spec fn has_template(t: Seq<(Seq<char>, Seq<SpecAst>)>, name: Seq<char>) -> bool {
    exists|i: int| 0 <= i < t.len() && #[trigger] t[i].0 == name
}

/// No two templates are registered under the same name.
pub open spec fn names_distinct(t: Seq<(Seq<char>, Seq<SpecAst>)>) -> bool {
    forall|i: int, j: int| 0 <= i < j < t.len() ==> #[trigger] t[i].0 != #[trigger] t[j].0
}

impl EasyTemplate {
    pub open spec fn spec_view(&self) -> Seq<(Seq<char>, Seq<SpecAst>)> {
        templates_view(self.templates@)
    }
}

impl Default for EasyTemplate {
    /// An engine with the default configuration and no templates.
    fn default() -> (r: Self)
        ensures
            r.spec_view().len() == 0,
            names_distinct(r.spec_view()),
            r.compile.config == r.config,
    {
        let config = Rc::new(TemplateConfig::default());
        let compile = Compile::new(Rc::clone(&config));
        EasyTemplate { templates: Vec::new(), config, compile }
    }
}

impl EasyTemplate {
    /// Registers the template `template` under `name`: an error if the name is taken,
    /// else its syntax tree is built and kept (an error of building is returned).
    pub fn register_template(&mut self, name: &str, template: &str) -> (r: TmplResult<()>)
        requires
            !has_template(old(self).spec_view(), name@) ==> spec_build_template(*old(self).compile.config, template@) is Some,
        ensures
            final(self).config == old(self).config,
            final(self).compile == old(self).compile,
            names_distinct(old(self).spec_view()) ==> names_distinct(final(self).spec_view()),
            has_template(old(self).spec_view(), name@) ==> (r matches Err(TemplateError::ExistsError(n)) && n@ == name@
                && final(self).spec_view() == old(self).spec_view()),
            !has_template(old(self).spec_view(), name@) ==> match spec_build_template(*old(self).compile.config, template@)->0 {
                Ok(root) => r is Ok && final(self).spec_view() == old(self).spec_view().push((name@, root)),
                Err(AddError::Exists) => r matches Err(TemplateError::ExistsError(_)) && final(self).spec_view() == old(self).spec_view(),
                Err(AddError::Generic) => r matches Err(TemplateError::GenericError(_)) && final(self).spec_view() == old(self).spec_view(),
            },
    {
        let ghost tv = self.spec_view();
        let mut i: usize = 0;
        while i < self.templates.len()
            invariant
                i <= self.templates@.len(),
                tv == self.spec_view(),
                forall|k: int| 0 <= k < i ==> tv[k].0 != name@,
            decreases self.templates@.len() - i,
        {
            assert(tv[i as int].0 == self.templates@[i as int].0@);
            let same = crate::expression::parse::str_eq(self.templates[i].0.as_str(), name);
            proof {
                vstd::utf8::encode_utf8_decode_utf8(self.templates@[i as int].0@);
                vstd::utf8::encode_utf8_decode_utf8(name@);
            }
            if same {
                assert(has_template(tv, name@));
                return Err(TemplateError::ExistsError(String::from_str(name)));
            }
            i = i + 1;
        }
        assert(!has_template(tv, name@));
        let root = match self.compile.build_template(template) {
            Ok(root) => root,
            Err(e) => {
                return Err(e);
            },
        };
        let ghost rv = asts_view(root@);
        self.templates.push((String::from_str(name), root));
        assert(self.spec_view() =~= tv.push((name@, rv)));
        Ok(())
    }
}

} // verus!

verus! {

/// Once a template is registered under a name, the name is taken: registering under it
/// again fails with `ExistsError` and leaves the templates as they are.
pub proof fn lemma_registered_name_taken(t: Seq<(Seq<char>, Seq<SpecAst>)>, name: Seq<char>, root: Seq<SpecAst>)
    ensures
        has_template(t.push((name, root)), name),
{
    assert(t.push((name, root))[t.len() as int].0 == name);
}

} // verus!
