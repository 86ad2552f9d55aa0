//! From literals and operators to constraint text.
//!
//! Operators are written in prefix form, fully parenthesised, with one
//! token per operator.
use vstd::prelude::*;
use vstd::string::*;
use crate::analyze::Analyzer;
use crate::error::{AnalysisError, AnalysisErrorView, result_view, unsupported, unsupported_view};
use crate::text::{
    binary, binary_text, byte_string, byte_string_text, char_text, decimal, decimal_text,
    ite_text, joined, quoted_char, ternary, unary, unary_text,
};
use crate::tree::{BinOp, Lit, LogicalOp, UnOp};

verus! {

pub open spec fn logical_token(op: LogicalOp) -> Seq<char> {
    match op {
        LogicalOp::And => "and"@,
        LogicalOp::Or => "or"@,
    }
}

/// The token of a unary operator that has one.
pub open spec fn un_token(op: UnOp) -> Option<Seq<char>> {
    match op {
        UnOp::Not => Some("not"@),
        UnOp::Neg => Some("-"@),
        UnOp::PtrMetadata => None,
    }
}

/// The token of a binary operator that has one.
pub open spec fn bin_token(op: BinOp) -> Option<Seq<char>> {
    match op {
        BinOp::Add => Some("+"@),
        BinOp::Sub => Some("-"@),
        BinOp::Mul => Some("*"@),
        BinOp::Rem => Some("%"@),
        BinOp::Div => Some("/"@),
        BinOp::BitXor => Some("^"@),
        BinOp::BitAnd => Some("&"@),
        BinOp::BitOr => Some("|"@),
        BinOp::Eq => Some("="@),
        BinOp::Lt => Some("<"@),
        BinOp::Le => Some("<="@),
        BinOp::Ne => Some("!="@),
        BinOp::Ge => Some(">="@),
        BinOp::Gt => Some(">"@),
        BinOp::Shl => None,
        BinOp::Shr => None,
        BinOp::Cmp => None,
        BinOp::Offset => None,
    }
}

/// The name under which an operator without a token is refused.
pub open spec fn un_name(op: UnOp) -> Seq<char> {
    match op {
        UnOp::Not => "Not"@,
        UnOp::Neg => "Neg"@,
        UnOp::PtrMetadata => "PtrMetadata"@,
    }
}

/// The name under which an operator without a token is refused.
pub open spec fn bin_name(op: BinOp) -> Seq<char> {
    match op {
        BinOp::Shl => "Shl"@,
        BinOp::Shr => "Shr"@,
        BinOp::Cmp => "Cmp"@,
        BinOp::Offset => "Offset"@,
        _ => "BinOp"@,
    }
}

/// `(and l r)` or `(or l r)`.
pub open spec fn logical_op_text(op: LogicalOp, lhs: Seq<char>, rhs: Seq<char>) -> Seq<char> {
    binary_text(logical_token(op), lhs, rhs)
}

/// `(token a)`, or the refusal of the operator.
pub open spec fn un_op_text(op: UnOp, arg: Seq<char>) -> Result<Seq<char>, AnalysisErrorView> {
    match un_token(op) {
        Some(token) => Ok(unary_text(token, arg)),
        None => Err(AnalysisErrorView::UnsupportedOperator(un_name(op))),
    }
}

/// `(token l r)`, or the refusal of the operator.
pub open spec fn bin_op_text(op: BinOp, lhs: Seq<char>, rhs: Seq<char>) -> Result<
    Seq<char>,
    AnalysisErrorView,
> {
    match bin_token(op) {
        Some(token) => Ok(binary_text(token, lhs, rhs)),
        None => Err(AnalysisErrorView::UnsupportedOperator(bin_name(op))),
    }
}

/// `text`, with a minus sign before it where `neg` is set.
pub open spec fn signed_text(neg: bool, text: Seq<char>) -> Seq<char> {
    if neg {
        "-"@ + text
    } else {
        text
    }
}

/// The text of a literal: strings and floats as their source text, an
/// integer in decimal, a character between single quotes, a boolean as
/// `true` or `false`, a byte string with its bytes escaped. The negation flag
/// puts a minus sign before an integer or a float and is not looked at
/// otherwise.
pub open spec fn literal_text(lit: Lit, neg: bool) -> Result<Seq<char>, AnalysisErrorView> {
    match lit {
        Lit::Str(symbol) => Ok(symbol@),
        Lit::Char(c) => Ok(char_text(c)),
        Lit::Int(n) => Ok(signed_text(neg, decimal_text(n as nat))),
        Lit::Float(symbol) => Ok(signed_text(neg, symbol@)),
        Lit::Bool(b) => Ok(
            if b {
                "true"@
            } else {
                "false"@
            },
        ),
        Lit::ByteStr(bytes) => Ok(byte_string_text(bytes@)),
        Lit::Other => Err(unsupported_view("Unsupported literal pattern"@)),
    }
}

fn signed(neg: bool, text: String) -> (r: String)
    ensures
        r@ == signed_text(neg, text@),
{
    if neg {
        joined("-", text.as_str())
    } else {
        text
    }
}

impl<'a> Analyzer<'a> {
    /// The text of a literal: see `literal_text`.
    pub fn literal_to_constraint(lit: &Lit, neg: bool) -> (r: Result<String, AnalysisError>)
        ensures
            result_view(r) == literal_text(*lit, neg),
    {
        match lit {
            Lit::Str(symbol) => Ok(symbol.clone()),
            Lit::Char(c) => Ok(quoted_char(*c)),
            Lit::Int(n) => Ok(signed(neg, decimal(*n))),
            Lit::Float(symbol) => Ok(signed(neg, symbol.clone())),
            Lit::Bool(b) => Ok(
                if *b {
                    String::from_str("true")
                } else {
                    String::from_str("false")
                },
            ),
            Lit::ByteStr(bytes) => Ok(byte_string(bytes)),
            Lit::Other => Err(unsupported("Unsupported literal pattern")),
        }
    }

    /// The text of a logical operation over rendered operands.
    pub fn logical_op_to_constraint(op: LogicalOp, lhs_str: &String, rhs_str: &String) -> (r:
        Result<String, AnalysisError>)
        ensures
            result_view(r) == Ok::<Seq<char>, AnalysisErrorView>(
                logical_op_text(op, lhs_str@, rhs_str@),
            ),
    {
        let op_str = match op {
            LogicalOp::And => "and",
            LogicalOp::Or => "or",
        };
        Ok(binary(op_str, lhs_str.as_str(), rhs_str.as_str()))
    }

    /// The text of a unary operation over a rendered operand.
    pub fn un_op_to_constraint(op: UnOp, arg_str: &String) -> (r: Result<String, AnalysisError>)
        ensures
            result_view(r) == un_op_text(op, arg_str@),
    {
        let op_str = match op {
            UnOp::Not => "not",
            UnOp::Neg => "-",
            UnOp::PtrMetadata => {
                return Err(AnalysisError::UnsupportedOperator(String::from_str("PtrMetadata")));
            },
        };
        Ok(unary(op_str, arg_str.as_str()))
    }

    /// The text of a binary operation over rendered operands.
    pub fn bin_op_to_constraint(op: BinOp, lhs_str: &String, rhs_str: &String) -> (r: Result<
        String,
        AnalysisError,
    >)
        ensures
            result_view(r) == bin_op_text(op, lhs_str@, rhs_str@),
    {
        let op_str = match op {
            BinOp::Add => "+",
            BinOp::Sub => "-",
            BinOp::Mul => "*",
            BinOp::Rem => "%",
            BinOp::Div => "/",
            BinOp::BitXor => "^",
            BinOp::BitAnd => "&",
            BinOp::BitOr => "|",
            BinOp::Eq => "=",
            BinOp::Lt => "<",
            BinOp::Le => "<=",
            BinOp::Ne => "!=",
            BinOp::Ge => ">=",
            BinOp::Gt => ">",
            BinOp::Shl => {
                return Err(AnalysisError::UnsupportedOperator(String::from_str("Shl")));
            },
            BinOp::Shr => {
                return Err(AnalysisError::UnsupportedOperator(String::from_str("Shr")));
            },
            BinOp::Cmp => {
                return Err(AnalysisError::UnsupportedOperator(String::from_str("Cmp")));
            },
            BinOp::Offset => {
                return Err(AnalysisError::UnsupportedOperator(String::from_str("Offset")));
            },
        };
        Ok(binary(op_str, lhs_str.as_str(), rhs_str.as_str()))
    }

    /// The if-then-else term over a rendered condition and two rendered
    /// values.
    pub fn value_to_ite(cond_str: String, then_value: String, else_value: String) -> (r: String)
        ensures
            r@ == ite_text(cond_str@, then_value@, else_value@),
    {
        ternary("ite", cond_str.as_str(), then_value.as_str(), else_value.as_str())
    }
}

} // verus!
