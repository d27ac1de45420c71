//! A compiler for the small "region" language: a lexer, a parser, AST cleanup
//! and optimisation, a code generator that emits a host extension module, and
//! the byte-buffer borrow machine that generated programs run against.

mod analysis;
mod ast;
mod buffer;
mod clean;
mod clean_laws;
mod codegen;
mod cse;
mod lexer;
mod lexer_laws;
mod licm;
mod parser;
mod passes;
mod text;
mod token;

pub use analysis::{
    block_variables_declared, block_variables_used, expr_eq, statement_uses, undeclared_variables,
    variables_declared, variables_used,
};
pub use ast::{BinaryOp, Expr, Function, Region, RegionItem, Statement, Type, Variable};
pub use buffer::{allocate, blackbox, free, Buffer, BufferError, BufferOp, Byte};
pub use clean::{
    clean_ast, clean_function, clean_function_rounds, move_toplevel_statements_to_function,
    simplify_expression, simplify_statement, simplify_statements, statement_returns,
    unreachable_code_elimination,
};
pub use codegen::{arrays_are_empty, gen_code};
pub use cse::{eliminate_common_subexpressions, SubexprGraph};
pub use lexer::{CharClass, Tokeniser, TokeniserState};
pub use licm::{
    expr_and_nested_exprs, exprs_in_block, exprs_in_statement, loop_invariant_motion, run_on_all_exprs,
    run_on_expr_and_nested,
};
pub use parser::{parse, parse_rvalue, parse_single_region};
pub use text::{decimal_text, strip_comments};
pub use token::{Keyword, Operator, TextToken, Token, TokenContext};
