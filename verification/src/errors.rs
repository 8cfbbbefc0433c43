use vstd::prelude::*;

use crate::cron_lexer::CronExpressionLexerErrors;
use crate::cron_parser::CronExpressionParserErrors;

verus! {

/// The stage of reading a CRON expression that failed, with its own error.
#[derive(Debug, Clone, Copy, PartialEq, Eq)]
pub enum CronErrorTypes {
    Lexer(CronExpressionLexerErrors),
    Parser(CronExpressionParserErrors),
}

/// An error in a CRON expression: the field where it arose (counted from 0), a character
/// position, and what went wrong.
#[derive(Debug, Clone, Copy, PartialEq, Eq)]
pub struct CronError {
    pub field_pos: usize,
    pub position: usize,
    pub error_type: CronErrorTypes,
}

} // verus!
