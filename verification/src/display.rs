use vstd::prelude::*;

use crate::context::{ContextExprInfo, WithContext};
use crate::model::{height, wf_expr, SpecExpr};
use crate::raw_expr::RawExpr;

verus! {

/// The text an expression prints as, under a context giving the name of each
/// outer binder. The function side of an application is parenthesized only as
/// an abstraction; the argument side as either shape; an abstraction's body is
/// parenthesized as an application but never as an abstraction.
pub open spec fn format_spec(
    e: SpecExpr,
    ctx: Seq<Seq<char>>,
    parens_for_app: bool,
    parens_for_lambda: bool,
) -> Seq<char>
    decreases e,
{
    match e {
        SpecExpr::Var(v) => if v < ctx.len() {
            ctx[v as int]
        } else {
            Seq::empty()
        },
        SpecExpr::App(f, a) => {
            let inner = format_spec(*f, ctx, false, true) + seq![' '] + format_spec(
                *a,
                ctx,
                true,
                true,
            );
            if parens_for_app {
                seq!['('] + inner + seq![')']
            } else {
                inner
            }
        },
        SpecExpr::Lambda(p, b) => {
            let inner = seq!['\u{03bb}'] + p + seq!['.'] + format_spec(
                *b,
                seq![p] + ctx,
                true,
                false,
            );
            if parens_for_lambda {
                seq!['('] + inner + seq![')']
            } else {
                inner
            }
        },
    }
}

impl<'a> WithContext<&'a RawExpr> {
    /// Render the expression under its context, with minimal parentheses.
    pub fn to_text(&self) -> (s: String)
        requires
            wf_expr(self.obj@, self.context@.len()),
        ensures
            s@ == format_spec(self.obj@, self.context@, self.parens_for_app, self.parens_for_lambda),
        decreases height(self.obj@),
    {
        proof {
            reveal_strlit("(");
            reveal_strlit(")");
            reveal_strlit(" ");
            reveal_strlit("\u{03bb}");
            reveal_strlit(".");
        }
        match self.info() {
            ContextExprInfo::Var(v) => {
                let p = v.get_param();
                p.name.clone()
            }
            ContextExprInfo::App(app) => {
                let fun = app.get_fun();
                let arg = app.get_arg();
                let fun_text = fun.to_text();
                let arg_text = arg.to_text();
                let mut out = String::new();
                if app.parens_for_app {
                    out.append("(");
                }
                out.append(fun_text.as_str());
                out.append(" ");
                out.append(arg_text.as_str());
                if app.parens_for_app {
                    out.append(")");
                }
                out
            }
            ContextExprInfo::Lambda(lambda) => {
                let body = lambda.get_body();
                let body_text = body.to_text();
                let mut out = String::new();
                if lambda.parens_for_lambda {
                    out.append("(");
                }
                out.append("\u{03bb}");
                out.append(lambda.obj.param.name.as_str());
                out.append(".");
                out.append(body_text.as_str());
                if lambda.parens_for_lambda {
                    out.append(")");
                }
                out
            }
        }
    }
}

impl RawExpr {
    /// Render a closed expression as text, resolving each variable index to
    /// the name of the binder that introduced it. The text of a tree the
    /// parser or the reducer produced parses back to a structurally equal
    /// tree, provided no binder shadows another name still referenced.
    pub fn to_text(&self) -> (s: String)
        requires
            wf_expr(self@, 0),
        ensures
            s@ == format_spec(self@, Seq::empty(), false, false),
    {
        WithContext::root(self).to_text()
    }
}

} // verus!
