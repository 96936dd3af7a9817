use vstd::prelude::*;

use crate::context::{ctx_lookup, lemma_ctx_lookup_in_range, Context};
use crate::model::{wf_expr, SpecExpr};
use crate::raw_expr::{Param, RawAppExpr, RawExpr, RawLambdaExpr};

verus! {

/// Why a parse failed. Every error is terminal for the attempt and is
/// reported to the caller; nothing is retried.
#[derive(Debug)]
pub enum ParseError {
    /// A name was used with no enclosing binder of that name.
    UnresolvedVariable(String),
    /// No expression can start here, or text was left after a complete
    /// expression; the payload is the unconsumed input.
    UnexpectedInput(String),
    /// A binder marker was not followed by at least one name.
    MissingBinderName,
    /// A binder's parameter list was not terminated by a dot.
    MissingDot,
    /// An opening parenthesis was never matched by a closing one.
    UnclosedGroup,
}

/// The model of a parse error, over sequences of characters.
pub enum SpecParseError {
    UnresolvedVariable(Seq<char>),
    UnexpectedInput(Seq<char>),
    MissingBinderName,
    MissingDot,
    UnclosedGroup,
}

impl View for ParseError {
    type V = SpecParseError;

    open spec fn view(&self) -> SpecParseError {
        match self {
            ParseError::UnresolvedVariable(n) => SpecParseError::UnresolvedVariable(n@),
            ParseError::UnexpectedInput(t) => SpecParseError::UnexpectedInput(t@),
            ParseError::MissingBinderName => SpecParseError::MissingBinderName,
            ParseError::MissingDot => SpecParseError::MissingDot,
            ParseError::UnclosedGroup => SpecParseError::UnclosedGroup,
        }
    }
}

/// The whitespace the grammar accepts between tokens.
pub open spec fn spec_is_ws(c: char) -> bool {
    c == ' ' || c == '\t' || c == '\n' || c == '\r'
}

/// A name character: ASCII letter, digit, or underscore.
pub open spec fn spec_is_name_char(c: char) -> bool {
    ('a' <= c && c <= 'z') || ('A' <= c && c <= 'Z') || ('0' <= c && c <= '9') || c == '_'
}

/// How much input is left at `pos`; the parser's termination measure.
pub open spec fn parse_rem(s: Seq<char>, pos: nat) -> nat {
    if pos <= s.len() {
        (s.len() - pos) as nat
    } else {
        0
    }
}

pub open spec fn spec_max(a: nat, b: nat) -> nat {
    if a >= b {
        a
    } else {
        b
    }
}

/// The first position at or after `pos` that holds no whitespace.
pub open spec fn skip_ws_spec(s: Seq<char>, pos: nat) -> nat
    decreases parse_rem(s, pos),
{
    if pos < s.len() && spec_is_ws(s[pos as int]) {
        skip_ws_spec(s, pos + 1)
    } else {
        pos
    }
}

/// The end of the name starting at `pos`: the first position at or after it
/// that holds no name character.
pub open spec fn name_end_spec(s: Seq<char>, pos: nat) -> nat
    decreases parse_rem(s, pos),
{
    if pos < s.len() && spec_is_name_char(s[pos as int]) {
        name_end_spec(s, pos + 1)
    } else {
        pos
    }
}

/// What parsing one atom leaves behind: the outcome and the position the
/// input was consumed to.
pub struct SpecParseStep {
    pub result: Result<Option<SpecExpr>, SpecParseError>,
    pub pos: nat,
}

/// What a full parse leaves behind.
pub struct SpecParseOut {
    pub result: Result<SpecExpr, SpecParseError>,
    pub pos: nat,
}

/// One atom: a parenthesized expression, a binder, or a name resolved through
/// the context to a De Bruijn index. `Ok(None)` means no atom starts here.
pub open spec fn spec_try_parse_one(s: Seq<char>, pos: nat, ctx: Seq<Seq<char>>) -> SpecParseStep
    decreases parse_rem(s, pos), 1int,
{
    let p = spec_max(skip_ws_spec(s, pos), pos);
    if p < s.len() && s[p as int] == '(' {
        let inner = spec_parse(s, p + 1, ctx);
        match inner.result {
            Err(e) => SpecParseStep { result: Err(e), pos: inner.pos },
            Ok(e) => {
                let p2 = spec_max(skip_ws_spec(s, inner.pos), inner.pos);
                if p2 < s.len() && s[p2 as int] == ')' {
                    SpecParseStep { result: Ok(Some(e)), pos: p2 + 1 }
                } else {
                    SpecParseStep { result: Err(SpecParseError::UnclosedGroup), pos: p2 }
                }
            },
        }
    } else if p < s.len() && (s[p as int] == '\u{03bb}' || s[p as int] == '\\') {
        let p1 = spec_max(skip_ws_spec(s, p + 1), p + 1);
        let binder = spec_try_parse_binder(s, p1, ctx);
        match binder.result {
            Err(e) => SpecParseStep { result: Err(e), pos: binder.pos },
            Ok(Some(e)) => SpecParseStep { result: Ok(Some(e)), pos: binder.pos },
            Ok(None) => SpecParseStep {
                result: Err(SpecParseError::MissingBinderName),
                pos: binder.pos,
            },
        }
    } else {
        let e = name_end_spec(s, p);
        if e > p {
            let name = s.subrange(p as int, e as int);
            match ctx_lookup(ctx, name) {
                Some(i) => SpecParseStep { result: Ok(Some(SpecExpr::Var(i))), pos: e },
                None => SpecParseStep {
                    result: Err(SpecParseError::UnresolvedVariable(name)),
                    pos: e,
                },
            }
        } else {
            SpecParseStep { result: Ok(None), pos: p }
        }
    }
}

/// A binder body after the marker: one or more names, then a dot and an
/// expression; each name pushes one link onto the context, so `λx y. e`
/// means `λx.λy. e`. `Ok(None)` means no name starts here.
pub open spec fn spec_try_parse_binder(s: Seq<char>, pos: nat, ctx: Seq<Seq<char>>) -> SpecParseStep
    decreases parse_rem(s, pos), 3int,
{
    let e = name_end_spec(s, pos);
    if e > pos {
        let name = s.subrange(pos as int, e as int);
        let p2 = spec_max(skip_ws_spec(s, e), e);
        let ctx2 = seq![name] + ctx;
        let inner = spec_try_parse_binder(s, p2, ctx2);
        match inner.result {
            Err(err) => SpecParseStep { result: Err(err), pos: inner.pos },
            Ok(Some(body)) => SpecParseStep {
                result: Ok(Some(SpecExpr::Lambda(name, Box::new(body)))),
                pos: inner.pos,
            },
            Ok(None) => {
                if p2 < s.len() && s[p2 as int] == '.' {
                    let body = spec_parse(s, p2 + 1, ctx2);
                    match body.result {
                        Err(err) => SpecParseStep { result: Err(err), pos: body.pos },
                        Ok(b) => SpecParseStep {
                            result: Ok(Some(SpecExpr::Lambda(name, Box::new(b)))),
                            pos: body.pos,
                        },
                    }
                } else {
                    SpecParseStep { result: Err(SpecParseError::MissingDot), pos: p2 }
                }
            },
        }
    } else {
        SpecParseStep { result: Ok(None), pos }
    }
}

/// A full expression: one atom followed by any number of further atoms, the
/// whole left-associated into applications.
pub open spec fn spec_parse(s: Seq<char>, pos: nat, ctx: Seq<Seq<char>>) -> SpecParseOut
    decreases parse_rem(s, pos), 4int,
{
    let one = spec_try_parse_one(s, pos, ctx);
    let p1 = spec_max(one.pos, pos);
    match one.result {
        Err(e) => SpecParseOut { result: Err(e), pos: one.pos },
        Ok(None) => SpecParseOut {
            result: Err(SpecParseError::UnexpectedInput(s.subrange(one.pos as int, s.len() as int))),
            pos: one.pos,
        },
        Ok(Some(e)) => spec_parse_args(s, p1, ctx, e),
    }
}

/// The left-associated chain of further atoms after a first expression.
pub open spec fn spec_parse_args(s: Seq<char>, pos: nat, ctx: Seq<Seq<char>>, acc: SpecExpr)
    -> SpecParseOut
    decreases parse_rem(s, pos), 2int,
{
    let one = spec_try_parse_one(s, pos, ctx);
    let p1 = spec_max(one.pos, pos);
    match one.result {
        Err(e) => SpecParseOut { result: Err(e), pos: one.pos },
        Ok(None) => SpecParseOut { result: Ok(acc), pos: one.pos },
        Ok(Some(arg)) => {
            let napp = SpecExpr::App(Box::new(acc), Box::new(arg));
            if pos < s.len() && p1 > pos {
                spec_parse_args(s, p1, ctx, napp)
            } else {
                SpecParseOut { result: Ok(napp), pos: one.pos }
            }
        },
    }
}

/// A whole input: a full expression which must consume everything; leftover
/// text after it is itself an error naming that text.
pub open spec fn spec_parse_str(s: Seq<char>) -> Result<SpecExpr, SpecParseError> {
    let out = spec_parse(s, 0, Seq::empty());
    match out.result {
        Err(e) => Err(e),
        Ok(e) => if out.pos < s.len() {
            Err(SpecParseError::UnexpectedInput(s.subrange(out.pos as int, s.len() as int)))
        } else {
            Ok(e)
        },
    }
}

/// The exec outcome of an atom parse, viewed in the model.
pub open spec fn step_res_view(r: Result<Option<RawExpr>, ParseError>) -> Result<
    Option<SpecExpr>,
    SpecParseError,
> {
    match r {
        Ok(None) => Ok(None),
        Ok(Some(e)) => Ok(Some(e@)),
        Err(e) => Err(e@),
    }
}

/// The exec outcome of a full parse, viewed in the model.
pub open spec fn parse_res_view(r: Result<RawExpr, ParseError>) -> Result<
    SpecExpr,
    SpecParseError,
> {
    match r {
        Ok(e) => Ok(e@),
        Err(e) => Err(e@),
    }
}

/// A cursor over the text being parsed: the full input, the position reached,
/// and the input's length in characters, kept at hand.
pub struct ParserInput<'a> {
    pub s: &'a str,
    pub pos: usize,
    pub len: usize,
}

impl<'a> ParserInput<'a> {
    /// The cursor is consistent: the cached length is the input's, and the
    /// position has not run past the end.
    pub open spec fn wf(&self) -> bool {
        self.len == self.s@.len() && self.pos <= self.len
    }

    /// Start a cursor at the beginning of the input.
    pub fn new(s: &'a str) -> (r: ParserInput<'a>)
        ensures
            r.wf(),
            r.s@ == s@,
            r.pos == 0,
    {
        let len = s.unicode_len();
        ParserInput { s, pos: 0, len }
    }

    fn is_ws(c: char) -> (r: bool)
        ensures
            r == spec_is_ws(c),
    {
        c == ' ' || c == '\t' || c == '\n' || c == '\r'
    }

    fn is_name_char(c: char) -> (r: bool)
        ensures
            r == spec_is_name_char(c),
    {
        ('a' <= c && c <= 'z') || ('A' <= c && c <= 'Z') || ('0' <= c && c <= '9') || c == '_'
    }

    /// Move past any whitespace.
    pub fn skip_whitespace(&mut self)
        requires
            old(self).wf(),
        ensures
            final(self).wf(),
            final(self).s@ == old(self).s@,
            final(self).len == old(self).len,
            final(self).pos as nat == skip_ws_spec(old(self).s@, old(self).pos as nat),
            old(self).pos <= final(self).pos,
    {
        loop
            invariant_except_break
                self.wf(),
                self.s@ == old(self).s@,
                self.len == old(self).len,
                old(self).pos <= self.pos,
                skip_ws_spec(self.s@, old(self).pos as nat) == skip_ws_spec(
                    self.s@,
                    self.pos as nat,
                ),
            ensures
                self.wf(),
                self.s@ == old(self).s@,
                self.len == old(self).len,
                old(self).pos <= self.pos,
                self.pos as nat == skip_ws_spec(self.s@, old(self).pos as nat),
            decreases self.len - self.pos,
        {
            if self.pos >= self.len {
                break;
            }
            let c = self.s.get_char(self.pos);
            if !Self::is_ws(c) {
                break;
            }
            self.pos = self.pos + 1;
        }
    }

    /// Consume one expected character, reporting whether it was there.
    pub fn try_read_char(&mut self, expected: char) -> (r: bool)
        requires
            old(self).wf(),
        ensures
            final(self).wf(),
            final(self).s@ == old(self).s@,
            final(self).len == old(self).len,
            r == (old(self).pos < old(self).len && old(self).s@[old(self).pos as int] == expected),
            r ==> final(self).pos == old(self).pos + 1,
            !r ==> final(self).pos == old(self).pos,
    {
        if self.pos < self.len {
            let c = self.s.get_char(self.pos);
            if c == expected {
                self.pos = self.pos + 1;
                return true;
            }
        }
        false
    }

    /// Consume the name starting here, if any: a maximal run of name
    /// characters.
    pub fn try_read_name(&mut self) -> (r: Option<String>)
        requires
            old(self).wf(),
        ensures
            final(self).wf(),
            final(self).s@ == old(self).s@,
            final(self).len == old(self).len,
            final(self).pos as nat == name_end_spec(old(self).s@, old(self).pos as nat),
            old(self).pos <= final(self).pos,
            ({
                let e = name_end_spec(old(self).s@, old(self).pos as nat);
                if e > old(self).pos as nat {
                    r matches Some(n) && n@ == old(self).s@.subrange(
                        old(self).pos as int,
                        e as int,
                    )
                } else {
                    r is None
                }
            }),
    {
        let start = self.pos;
        let mut end = self.pos;
        loop
            invariant_except_break
                self.wf(),
                self.pos <= end <= self.len,
                name_end_spec(self.s@, self.pos as nat) == name_end_spec(self.s@, end as nat),
            ensures
                self.wf(),
                self.pos <= end <= self.len,
                end as nat == name_end_spec(self.s@, self.pos as nat),
            decreases self.len - end,
        {
            if end >= self.len {
                break;
            }
            let c = self.s.get_char(end);
            if !Self::is_name_char(c) {
                break;
            }
            end = end + 1;
        }
        if end == start {
            None
        } else {
            let name = self.s.substring_char(start, end).to_owned();
            self.pos = end;
            Some(name)
        }
    }

    /// The text not yet consumed, for error reports.
    pub fn remaining(&self) -> (r: String)
        requires
            self.wf(),
        ensures
            r@ == self.s@.subrange(self.pos as int, self.s@.len() as int),
    {
        self.s.substring_char(self.pos, self.len).to_owned()
    }
}

impl RawExpr {
    /// Parse a full expression here: one atom, then any number of further
    /// atoms folded into left-associated applications. Fails where no atom
    /// starts, naming the unconsumed input.
    pub fn parse(input: &mut ParserInput, context: &Context) -> (r: Result<RawExpr, ParseError>)
        requires
            old(input).wf(),
            context@.len() + (old(input).len - old(input).pos) <= u32::MAX,
        ensures
            final(input).wf(),
            final(input).s@ == old(input).s@,
            final(input).len == old(input).len,
            old(input).pos <= final(input).pos,
            ({
                let out = spec_parse(old(input).s@, old(input).pos as nat, context@);
                parse_res_view(r) == out.result && final(input).pos as nat == out.pos
            }),
            r matches Ok(e) ==> wf_expr(e@, context@.len()),
        decreases old(input).len - old(input).pos, 4int,
    {
        let first = Self::try_parse_one(input, context);
        match first {
            Err(e) => Err(e),
            Ok(None) => Err(ParseError::UnexpectedInput(input.remaining())),
            Ok(Some(first_expr)) => {
                let mut expr = first_expr;
                loop
                    invariant_except_break
                        input.wf(),
                        input.s@ == old(input).s@,
                        input.len == old(input).len,
                        old(input).pos <= input.pos,
                        context@.len() + (input.len - input.pos) <= u32::MAX,
                        wf_expr(expr@, context@.len()),
                        spec_parse(old(input).s@, old(input).pos as nat, context@)
                            == spec_parse_args(input.s@, input.pos as nat, context@, expr@),
                    ensures
                        input.wf(),
                        input.s@ == old(input).s@,
                        input.len == old(input).len,
                        old(input).pos <= input.pos,
                        wf_expr(expr@, context@.len()),
                        ({
                            let out = spec_parse(old(input).s@, old(input).pos as nat, context@);
                            out.result == Ok::<SpecExpr, SpecParseError>(expr@) && out.pos
                                == input.pos as nat
                        }),
                    decreases input.len - input.pos,
                {
                    match Self::try_parse_one(input, context) {
                        Err(e) => {
                            return Err(e);
                        }
                        Ok(None) => {
                            break;
                        }
                        Ok(Some(arg)) => {
                            expr = RawExpr::App(Box::new(RawAppExpr { fun: expr, arg }));
                        }
                    }
                }
                Ok(expr)
            }
        }
    }

    /// One atom: a parenthesized expression, a binder introduced by the
    /// lambda marker or a backslash, or a name resolved to its De Bruijn
    /// index. `Ok(None)` reports that no atom starts here.
    fn try_parse_one(input: &mut ParserInput, context: &Context) -> (r: Result<
        Option<RawExpr>,
        ParseError,
    >)
        requires
            old(input).wf(),
            context@.len() + (old(input).len - old(input).pos) <= u32::MAX,
        ensures
            final(input).wf(),
            final(input).s@ == old(input).s@,
            final(input).len == old(input).len,
            old(input).pos <= final(input).pos,
            ({
                let step = spec_try_parse_one(old(input).s@, old(input).pos as nat, context@);
                step_res_view(r) == step.result && final(input).pos as nat == step.pos
            }),
            r matches Ok(Some(e)) ==> wf_expr(e@, context@.len()) && old(input).pos
                < final(input).pos,
        decreases old(input).len - old(input).pos, 1int,
    {
        input.skip_whitespace();
        if input.try_read_char('(') {
            let inner = Self::parse(input, context);
            match inner {
                Err(e) => Err(e),
                Ok(expr) => {
                    input.skip_whitespace();
                    if input.try_read_char(')') {
                        Ok(Some(expr))
                    } else {
                        Err(ParseError::UnclosedGroup)
                    }
                }
            }
        } else if input.try_read_char('\u{03bb}') || input.try_read_char('\\') {
            input.skip_whitespace();
            let binder = Self::try_parse_binder(input, context);
            match binder {
                Err(e) => Err(e),
                Ok(Some(expr)) => Ok(Some(expr)),
                Ok(None) => Err(ParseError::MissingBinderName),
            }
        } else {
            match input.try_read_name() {
                Some(name) => {
                    proof {
                        lemma_ctx_lookup_in_range(context@, name@);
                    }
                    match context.get_var_index(&name) {
                        Some(idx) => Ok(Some(RawExpr::Var(idx))),
                        None => Err(ParseError::UnresolvedVariable(name)),
                    }
                }
                None => Ok(None),
            }
        }
    }

    /// The names of a binder, curried: each name wraps what follows in one
    /// more abstraction, and the last name must be followed by a dot and the
    /// body. `Ok(None)` reports that no name starts here.
    fn try_parse_binder(input: &mut ParserInput, context: &Context) -> (r: Result<
        Option<RawExpr>,
        ParseError,
    >)
        requires
            old(input).wf(),
            context@.len() + (old(input).len - old(input).pos) <= u32::MAX,
        ensures
            final(input).wf(),
            final(input).s@ == old(input).s@,
            final(input).len == old(input).len,
            old(input).pos <= final(input).pos,
            ({
                let step = spec_try_parse_binder(old(input).s@, old(input).pos as nat, context@);
                step_res_view(r) == step.result && final(input).pos as nat == step.pos
            }),
            r matches Ok(Some(e)) ==> wf_expr(e@, context@.len()) && old(input).pos
                < final(input).pos,
        decreases old(input).len - old(input).pos, 3int,
    {
        match input.try_read_name() {
            None => Ok(None),
            Some(name) => {
                input.skip_whitespace();
                let body_context = Context::Var {
                    param: Param { name: name.clone() },
                    parent: Box::new(context.duplicate()),
                };
                proof {
                    assert(body_context@ =~= seq![name@] + context@);
                }
                let binder = Self::try_parse_binder(input, &body_context);
                match binder {
                    Err(e) => Err(e),
                    Ok(Some(body)) => Ok(
                        Some(RawExpr::Lambda(Box::new(RawLambdaExpr { param: Param { name }, body }))),
                    ),
                    Ok(None) => {
                        if input.try_read_char('.') {
                            match Self::parse(input, &body_context) {
                                Err(e) => Err(e),
                                Ok(body) => Ok(
                                    Some(
                                        RawExpr::Lambda(
                                            Box::new(RawLambdaExpr { param: Param { name }, body }),
                                        ),
                                    ),
                                ),
                            }
                        } else {
                            Err(ParseError::MissingDot)
                        }
                    }
                }
            }
        }
    }

    /// Parse a whole input as one closed expression; the entire text must be
    /// consumed, and leftover text after a complete expression is an error
    /// naming that text.
    pub fn parse_str(s: &str) -> (r: Result<RawExpr, ParseError>)
        requires
            s@.len() <= u32::MAX,
        ensures
            parse_res_view(r) == spec_parse_str(s@),
            r matches Ok(e) ==> wf_expr(e@, 0),
    {
        let mut input = ParserInput::new(s);
        let root = Context::Root;
        match Self::parse(&mut input, &root) {
            Err(e) => Err(e),
            Ok(expr) => {
                if input.pos < input.len {
                    Err(ParseError::UnexpectedInput(input.remaining()))
                } else {
                    Ok(expr)
                }
            }
        }
    }
}

} // verus!
