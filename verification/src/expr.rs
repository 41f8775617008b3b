//! The expression tree and its visitors. A visitor is a post-order
//! traversal: children are visited first, and one required handler per node
//! shape combines their results. The one concrete visitor here renders an
//! expression in parenthesized prefix notation.

use crate::token::{token_text, Token, TokenView};
use vstd::prelude::*;

verus! {

/// An expression node. Each non-leaf node exclusively owns its children;
/// the tree is finite and acyclic and never mutated after construction.
#[derive(Debug, PartialEq)]
pub enum Expr {
    Unary(Token, Box<Expr>),
    Binary(Box<Expr>, Token, Box<Expr>),
    Grouping(Box<Expr>),
    Literal(Token),
}

/// The name of an expression node's shape.
pub open spec fn expr_shape_text(e: Expr) -> Seq<char> {
    match e {
        Expr::Unary(_, _) => "Unary"@,
        Expr::Binary(_, _, _) => "Binary"@,
        Expr::Grouping(_) => "Grouping"@,
        Expr::Literal(_) => "Literal"@,
    }
}

impl Expr {
    /// The name of this node's shape.
    pub fn to_string(&self) -> (s: String)
        ensures
            s@ == expr_shape_text(*self),
    {
        match self {
            Expr::Unary(_, _) => String::from_str("Unary"),
            Expr::Binary(_, _, _) => String::from_str("Binary"),
            Expr::Grouping(_) => String::from_str("Grouping"),
            Expr::Literal(_) => String::from_str("Literal"),
        }
    }
}

/// A traversal over the expression tree with one required handler per node
/// shape. The handlers receive the children's already-computed results, so
/// the traversal is post-order, and each handler's contract ties its result
/// to a spec-level combiner: what a visitor computes on a whole tree is then
/// exactly `visit_value`.
pub trait Visitor<T: View>: Sized {
    /// The result for a unary node, from the operator and the operand's
    /// result.
    spec fn unary_value(&self, op: TokenView, operand: T::V) -> T::V;

    /// The result for a binary node, from the operator and both operands'
    /// results.
    spec fn binary_value(&self, left: T::V, op: TokenView, right: T::V) -> T::V;

    /// The result for a grouping node, from the inner result.
    spec fn grouping_value(&self, inner: T::V) -> T::V;

    /// The result for a literal node.
    spec fn literal_value(&self, token: TokenView) -> T::V;

    fn new() -> Self;

    fn visit_expr_unary(&self, token: &Token, operand: T) -> (r: T)
        ensures
            r@ == self.unary_value(token@, operand@),
    ;

    fn visit_expr_binary(&self, left: T, token: &Token, right: T) -> (r: T)
        ensures
            r@ == self.binary_value(left@, token@, right@),
    ;

    fn visit_expr_grouping(&self, inner: T) -> (r: T)
        ensures
            r@ == self.grouping_value(inner@),
    ;

    fn visit_expr_literal(&self, token: &Token) -> (r: T)
        ensures
            r@ == self.literal_value(token@),
    ;
}

/// The value a visitor computes for a tree: children first, then the
/// matching handler's combiner.
pub open spec fn visit_value<T: View, V: Visitor<T>>(v: &V, e: Expr) -> T::V
    decreases e,
{
    match e {
        Expr::Unary(t, sub) => v.unary_value(t@, visit_value(v, *sub)),
        Expr::Binary(l, t, r) => v.binary_value(visit_value(v, *l), t@, visit_value(v, *r)),
        Expr::Grouping(sub) => v.grouping_value(visit_value(v, *sub)),
        Expr::Literal(t) => v.literal_value(t@),
    }
}

/// Dispatches on the node's shape, visiting children before combining their
/// results.
pub fn visit_expr<T: View, V: Visitor<T>>(visitor: &V, expr: &Expr) -> (r: T)
    ensures
        r@ == visit_value(visitor, *expr),
    decreases *expr,
{
    match expr {
        Expr::Binary(left, token, right) => {
            let left_result = visit_expr(visitor, &**left);
            let right_result = visit_expr(visitor, &**right);
            visitor.visit_expr_binary(left_result, token, right_result)
        },
        Expr::Unary(token, sub) => {
            let sub_result = visit_expr(visitor, &**sub);
            visitor.visit_expr_unary(token, sub_result)
        },
        Expr::Grouping(sub) => {
            let sub_result = visit_expr(visitor, &**sub);
            visitor.visit_expr_grouping(sub_result)
        },
        Expr::Literal(token) => visitor.visit_expr_literal(token),
    }
}

/// The canonical parenthesized prefix rendering of an expression: operators
/// render as their printed text before their already-rendered operands, and
/// groupings render under the word "group".
pub open spec fn print_text(e: Expr) -> Seq<char>
    decreases e,
{
    match e {
        Expr::Unary(t, sub) => "("@ + token_text(t@) + " "@ + print_text(*sub) + ")"@,
        Expr::Binary(l, t, r) => "("@ + token_text(t@) + " "@ + print_text(*l) + " "@
            + print_text(*r) + ")"@,
        Expr::Grouping(sub) => "(group "@ + print_text(*sub) + ")"@,
        Expr::Literal(t) => token_text(t@),
    }
}

/// The visitor that renders an expression tree as text.
pub struct VisitorPrinter {}

impl VisitorPrinter {
    /// Renders the whole tree in parenthesized prefix notation.
    pub fn print(&self, expr: &Expr) -> (r: String)
        ensures
            r@ == print_text(*expr),
    {
        proof {
            lemma_printer_visit_is_print_text(*self, *expr);
        }
        visit_expr(self, expr)
    }

    /// Wraps an already-rendered body in parentheses.
    fn parenthesize(&self, output: String) -> (r: String)
        ensures
            r@ == "("@ + output@ + ")"@,
    {
        let mut s = String::from_str("(");
        s.append(output.as_str());
        s.append(")");
        s
    }
}

impl Visitor<String> for VisitorPrinter {
    open spec fn unary_value(&self, op: TokenView, operand: Seq<char>) -> Seq<char> {
        "("@ + token_text(op) + " "@ + operand + ")"@
    }

    open spec fn binary_value(&self, left: Seq<char>, op: TokenView, right: Seq<char>) -> Seq<
        char,
    > {
        "("@ + token_text(op) + " "@ + left + " "@ + right + ")"@
    }

    open spec fn grouping_value(&self, inner: Seq<char>) -> Seq<char> {
        "(group "@ + inner + ")"@
    }

    open spec fn literal_value(&self, token: TokenView) -> Seq<char> {
        token_text(token)
    }

    fn new() -> Self {
        VisitorPrinter {  }
    }

    fn visit_expr_unary(&self, token: &Token, operand: String) -> (r: String) {
        let mut body = token.to_string();
        body.append(" ");
        body.append(operand.as_str());
        let r = self.parenthesize(body);
        proof {
            assert(r@ =~= self.unary_value(token@, operand@));
        }
        r
    }

    fn visit_expr_binary(&self, left: String, token: &Token, right: String) -> (r: String) {
        let mut body = token.to_string();
        body.append(" ");
        body.append(left.as_str());
        body.append(" ");
        body.append(right.as_str());
        let r = self.parenthesize(body);
        proof {
            assert(r@ =~= self.binary_value(left@, token@, right@));
        }
        r
    }

    fn visit_expr_grouping(&self, inner: String) -> (r: String) {
        let mut body = String::from_str("group ");
        body.append(inner.as_str());
        let r = self.parenthesize(body);
        proof {
            reveal_strlit("(");
            reveal_strlit("group ");
            reveal_strlit("(group ");
            assert(r@ =~= self.grouping_value(inner@));
        }
        r
    }

    fn visit_expr_literal(&self, token: &Token) -> (r: String) {
        token.to_string()
    }
}

/// What the printing visitor computes on a tree is the canonical rendering.
pub proof fn lemma_printer_visit_is_print_text(p: VisitorPrinter, e: Expr)
    ensures
        visit_value::<String, VisitorPrinter>(&p, e) == print_text(e),
    decreases e,
{
    match e {
        Expr::Unary(_, sub) => {
            lemma_printer_visit_is_print_text(p, *sub);
        },
        Expr::Binary(l, _, r) => {
            lemma_printer_visit_is_print_text(p, *l);
            lemma_printer_visit_is_print_text(p, *r);
        },
        Expr::Grouping(sub) => {
            lemma_printer_visit_is_print_text(p, *sub);
        },
        Expr::Literal(_) => {},
    }
}

} // verus!
