//! The differential expression f(x, y), parsed and bound by meval.
use vstd::prelude::*;
use vstd::string::StringSliceAdditionalSpecFns;
use crate::input::InputError;

verus! {

/// meval's parsed expression, carried through unopened.
#[verifier::external_type_specification]
#[verifier::external_body]
pub struct ExExpr(meval::Expr);

/// meval's token, which `meval::Expr` dereferences to a slice of.
#[verifier::external_type_specification]
#[verifier::external_body]
pub struct ExToken(meval::tokenizer::Token);

/// meval's error, from parsing or binding.
#[verifier::external_type_specification]
#[verifier::external_body]
pub struct ExMevalError(meval::Error);

/// Whether meval accepts `text` as an expression.
pub uninterp spec fn expression_parses(text: Seq<char>) -> bool;

/// The expression meval builds from `text`, where it accepts the text.
pub uninterp spec fn parsed_expr(text: Seq<char>) -> meval::Expr;

/// Whether meval binds `e` to the free variables `x` and `y` in its built-in
/// context.
pub uninterp spec fn expression_binds(e: meval::Expr) -> bool;

/// A byte that meval's tokenizer skips between tokens.
pub open spec fn is_space(c: u8) -> bool {
    c == 32 || c == 9 || c == 13 || c == 10
}

/// Text of one or more bytes, all of them spaces.
pub open spec fn is_blank(s: Seq<u8>) -> bool {
    s.len() > 0 && forall|i: int| 0 <= i < s.len() ==> is_space(#[trigger] s[i])
}

/// Whether `text` is nonempty and made of spaces only.
pub fn blank(text: &str) -> (r: bool)
    ensures
        r == is_blank(text.spec_bytes()),
{
    let b = text.as_bytes();
    let n = b.len();
    let mut i: usize = 0;
    while i < n
        invariant
            i <= n == b@.len(),
            b@ == text.spec_bytes(),
            forall|j: int| 0 <= j < i ==> is_space(#[trigger] b@[j]),
        decreases n - i,
    {
        let c = b[i];
        if !(c == 32u8 || c == 9u8 || c == 13u8 || c == 10u8) {
            return false;
        }
        i = i + 1;
    }
    n > 0
}

/// Relies on `<meval::Expr as FromStr>::from_str`, which tokenizes the text and
/// orders the tokens; whether it succeeds depends on the text alone. Blank text
/// is left out: there the tokenizer meets an incomplete parse and panics.
#[verifier::external_body]
fn parse_expr(text: &str) -> (r: Result<meval::Expr, meval::Error>)
    requires
        !is_blank(text.spec_bytes()),
    ensures
        r is Ok <==> expression_parses(text@),
        r matches Ok(e) ==> e == parsed_expr(text@),
{
    text.parse::<meval::Expr>()
}

/// Relies on `meval::Expr::bind2_with_context` with meval's built-in context
/// (`meval::Context::new`), binding the free variables `x` and `y`; only
/// whether binding succeeded is kept. The context is fixed, so the outcome
/// depends on the expression alone.
#[verifier::external_body]
fn bind_xy(e: &meval::Expr) -> (r: Result<(), meval::Error>)
    ensures
        r is Ok <==> expression_binds(*e),
{
    match e.clone().bind2_with_context(meval::Context::new(), "x", "y") {
        Ok(_) => Ok(()),
        Err(err) => Err(err),
    }
}

/// Parses the text of f(x, y); blank text is no expression.
pub fn parse_expression(text: &str) -> (r: Result<meval::Expr, InputError>)
    ensures
        r is Ok <==> !is_blank(text.spec_bytes()) && expression_parses(text@),
        r matches Ok(e) ==> e == parsed_expr(text@),
        r is Err ==> r == Err::<meval::Expr, InputError>(InputError::InvalidExpression),
{
    if blank(text) {
        return Err(InputError::InvalidExpression);
    }
    match parse_expr(text) {
        Ok(e) => Ok(e),
        Err(_) => Err(InputError::InvalidExpression),
    }
}

/// Checks that the expression uses no variable but `x`, `y` and the built-in
/// constants, and only built-in functions with their arity.
pub fn bind_expression(e: &meval::Expr) -> (r: Result<(), InputError>)
    ensures
        r is Ok <==> expression_binds(*e),
        r is Err ==> r == Err::<(), InputError>(InputError::UnboundExpression),
{
    match bind_xy(e) {
        Ok(()) => Ok(()),
        Err(_) => Err(InputError::UnboundExpression),
    }
}

} // verus!
