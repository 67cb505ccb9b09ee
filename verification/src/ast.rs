//! The AST model: a closed set of statement and expression node variants,
//! each carrying enough information (operator text, operand subtrees,
//! originating token) to reconstruct a canonical textual form.
//!
//! Every node's `render` spec function gives that canonical, fully
//! parenthesized form, and `string` is proved to produce exactly it.

use crate::token::{Token, TokenModel};
use vstd::prelude::*;
use vstd::string::StringExecFns;

verus! {

/// The mathematical value of an expression node: the same shape as
/// `Expression`, with every piece of text a sequence of characters.
pub enum ExprModel {
    Identifier { token: TokenModel, value: Seq<char> },
    IntegerLiteral { token: TokenModel, value: i32 },
    Prefix { token: TokenModel, operator: Seq<char>, right: Box<ExprModel> },
    Infix { token: TokenModel, operator: Seq<char>, left: Box<ExprModel>, right: Box<ExprModel> },
}

/// The mathematical value of a statement node.
pub enum StmtModel {
    Let { token: TokenModel, name: TokenModel, value: ExprModel },
    Return { token: TokenModel, value: ExprModel },
    Expression { token: TokenModel, expression: ExprModel },
}

/// A node of the tree that can reproduce its canonical textual form.
pub trait Node {
    /// The canonical textual form of this node.
    spec fn render(&self) -> Seq<char>;

    /// Renders the node as text.
    fn string(&self) -> (s: String)
        ensures
            s@ == self.render(),
    ;
}

/// An expression node. Expression trees are created once during parsing and
/// never mutated afterwards; ownership is top-down, no sharing, no cycles.
#[derive(Debug)]
pub enum Expression {
    Identifier { token: Token, value: String },
    IntegerLiteral { token: Token, value: i32 },
    Prefix { token: Token, operator: String, right: Box<Expression> },
    Infix { token: Token, operator: String, left: Box<Expression>, right: Box<Expression> },
}

/// A top-level statement node.
#[derive(Debug)]
pub enum Statement {
    Let { token: Token, name: Token, value: Expression },
    Return { token: Token, value: Expression },
    Expression { token: Token, expression: Expression },
}

/// A parsed program: its top-level statements in source order.
pub struct Program {
    pub statements: Vec<Statement>,
}

impl Node for Expression {
    open spec fn render(&self) -> Seq<char>
        decreases self,
    {
        match self {
            Expression::Identifier { value, .. } => value@,
            Expression::IntegerLiteral { token, .. } => token.literal@,
            Expression::Prefix { operator, right, .. } => "("@ + operator@ + right.render()
                + ")"@,
            Expression::Infix { operator, left, right, .. } => "("@ + left.render() + " "@
                + operator@ + " "@ + right.render() + ")"@,
        }
    }

    fn string(&self) -> (s: String)
        decreases self,
    {
        match self {
            Expression::Identifier { value, .. } => value.clone(),
            Expression::IntegerLiteral { token, .. } => token.literal.clone(),
            Expression::Prefix { operator, right, .. } => {
                let mut out = String::from_str("(");
                out.append(operator.as_str());
                let rendered_right = right.string();
                out.append(rendered_right.as_str());
                out.append(")");
                proof {
                    assert(out@ =~= self.render());
                }
                out
            },
            Expression::Infix { operator, left, right, .. } => {
                let rendered_left = left.string();
                let rendered_right = right.string();
                let mut out = String::from_str("(");
                out.append(rendered_left.as_str());
                out.append(" ");
                out.append(operator.as_str());
                out.append(" ");
                out.append(rendered_right.as_str());
                out.append(")");
                proof {
                    assert(out@ =~= self.render());
                }
                out
            },
        }
    }
}

impl Node for Statement {
    open spec fn render(&self) -> Seq<char> {
        match self {
            Statement::Let { name, value, .. } => "let "@ + name.literal@ + " = "@
                + value.render() + ";"@,
            Statement::Return { value, .. } => "return "@ + value.render() + ";"@,
            Statement::Expression { expression, .. } => expression.render() + ";"@,
        }
    }

    fn string(&self) -> (s: String) {
        match self {
            Statement::Let { name, value, .. } => {
                let mut out = String::from_str("let ");
                out.append(name.literal.as_str());
                out.append(" = ");
                let rendered_value = value.string();
                out.append(rendered_value.as_str());
                out.append(";");
                proof {
                    assert(out@ =~= self.render());
                }
                out
            },
            Statement::Return { value, .. } => {
                let mut out = String::from_str("return ");
                let rendered_value = value.string();
                out.append(rendered_value.as_str());
                out.append(";");
                proof {
                    assert(out@ =~= self.render());
                }
                out
            },
            Statement::Expression { expression, .. } => {
                let mut out = expression.string();
                out.append(";");
                proof {
                    assert(out@ =~= self.render());
                }
                out
            },
        }
    }
}

impl Expression {
    /// The mathematical value of this node.
    pub open spec fn model(&self) -> ExprModel
        decreases self,
    {
        match self {
            Expression::Identifier { token, value } => ExprModel::Identifier {
                token: token@,
                value: value@,
            },
            Expression::IntegerLiteral { token, value } => ExprModel::IntegerLiteral {
                token: token@,
                value: *value,
            },
            Expression::Prefix { token, operator, right } => ExprModel::Prefix {
                token: token@,
                operator: operator@,
                right: Box::new(right.model()),
            },
            Expression::Infix { token, operator, left, right } => ExprModel::Infix {
                token: token@,
                operator: operator@,
                left: Box::new(left.model()),
                right: Box::new(right.model()),
            },
        }
    }
}

impl Statement {
    /// The mathematical value of this node.
    pub open spec fn model(&self) -> StmtModel {
        match self {
            Statement::Let { token, name, value } => StmtModel::Let {
                token: token@,
                name: name@,
                value: value.model(),
            },
            Statement::Return { token, value } => StmtModel::Return {
                token: token@,
                value: value.model(),
            },
            Statement::Expression { token, expression } => StmtModel::Expression {
                token: token@,
                expression: expression.model(),
            },
        }
    }
}

/// The mathematical values of a sequence of statements, in order.
pub open spec fn stmts_model(stmts: Seq<Statement>) -> Seq<StmtModel> {
    stmts.map_values(|s: Statement| s.model())
}

/// The concatenation of the canonical forms of a sequence of statements, in
/// order.
pub open spec fn render_statements(stmts: Seq<Statement>) -> Seq<char>
    decreases stmts.len(),
{
    if stmts.len() == 0 {
        Seq::empty()
    } else {
        stmts.first().render() + render_statements(stmts.drop_first())
    }
}

impl Node for Program {
    open spec fn render(&self) -> Seq<char> {
        render_statements(self.statements@)
    }

    fn string(&self) -> (s: String) {
        let mut out = String::new();
        let mut idx: usize = 0;
        proof {
            assert(self.statements@.skip(0) =~= self.statements@);
            assert(out@ + render_statements(self.statements@) =~= render_statements(
                self.statements@,
            ));
        }
        while idx < self.statements.len()
            invariant
                0 <= idx <= self.statements@.len(),
                self.render() == out@ + render_statements(self.statements@.skip(idx as int)),
            decreases self.statements@.len() - idx,
        {
            proof {
                let rest = self.statements@.skip(idx as int);
                assert(rest.first() == self.statements@[idx as int]);
                assert(rest.drop_first() =~= self.statements@.skip(idx as int + 1));
            }
            let rendered = self.statements[idx].string();
            out.append(rendered.as_str());
            idx = idx + 1;
        }
        proof {
            assert(self.statements@.skip(self.statements@.len() as int) =~= Seq::<
                Statement,
            >::empty());
        }
        out
    }
}

} // verus!
