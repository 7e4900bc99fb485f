//! HTML templates.

use vstd::prelude::*;

use crate::runtime::ast;
use crate::runtime::ast::{Expr, HtmlPart, HtmlPartV, HtmlTemplate};
use crate::runtime::tt::types;

verus! {

broadcast use {ast::group_ast_views, types::group_type_views};

/// Builds a template piece by piece.
pub struct HtmlTemplateBuilder {
    parts: Vec<HtmlPart>,
}

impl View for HtmlTemplateBuilder {
    type V = Seq<HtmlPartV>;

    closed spec fn view(&self) -> Seq<HtmlPartV> {
        types::views(self.parts@)
    }
}

impl HtmlTemplateBuilder {
    /// A builder without pieces.
    pub fn new() -> (res: HtmlTemplateBuilder)
        ensures
            res@ == Seq::<HtmlPartV>::empty(),
    {
        let parts: Vec<HtmlPart> = Vec::new();
        assert(types::views(parts@) =~= Seq::<HtmlPartV>::empty());
        HtmlTemplateBuilder { parts }
    }

    /// Append literal text.
    pub fn push_text(&mut self, text: &str)
        ensures
            final(self)@ == old(self)@.push(HtmlPartV::Text(text@)),
    {
        self.parts.push(HtmlPart::Text(text.to_owned()));
        assert(self@ =~= old(self)@.push(HtmlPartV::Text(text@)));
    }

    /// Append an expression whose value is shown in the page.
    pub fn push_expr(&mut self, expr: Expr)
        ensures
            final(self)@ == old(self)@.push(HtmlPartV::Expr(expr@)),
    {
        self.parts.push(HtmlPart::Expr(expr));
        assert(self@ =~= old(self)@.push(HtmlPartV::Expr(expr@)));
    }

    /// The template of all pieces.
    pub fn build(self) -> (res: HtmlTemplate)
        ensures
            res@ == self@,
    {
        let res = HtmlTemplate { parts: self.parts };
        proof {
            ast::lemma_template_view(res);
        }
        res
    }
}

} // verus!
