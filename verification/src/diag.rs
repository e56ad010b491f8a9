//! Structured diagnostics. Errors are recorded as values pushed to a sink the
//! caller inspects afterwards; the sticky `has_error` flag on the lexer and
//! compiler tells the caller to discard the compiled output. Neither kind of
//! error aborts compilation: the front end keeps scanning on a best-effort
//! basis so one pass can surface several independent diagnostics.

use vstd::prelude::*;

verus! {

/// What went wrong. Lexical kinds come from the lexer; the rest are
/// compile/semantic errors from scope, class and code-generation bookkeeping.
#[derive(Clone, Copy, PartialEq, Eq, Structural, Debug)]
pub enum DiagKind {
    // Lexical errors.
    UnterminatedBlockComment,
    UnterminatedScientificNotation,
    UnterminatedString,
    UnterminatedRawString,
    InvalidEscape,
    IncompleteByteEscape,
    InvalidByteEscape,
    IncompleteUnicodeEscape,
    InvalidUnicodeEscape,
    InvalidCodePoint,
    ExpectParenAfterPercent,
    InterpolationTooDeep,
    InvalidCharacter,
    // Compile/semantic errors.
    VariableAlreadyDeclared,
    TooManyLocals,
    TooManyUpvalues,
    ModuleVariableAlreadyDefined,
    TooManyModuleVariables,
    TooManyConstants,
    TooMuchCodeToJumpOver,
    BreakOutsideLoop,
    ContinueOutsideLoop,
    DuplicateField,
    TooManyFields,
    DuplicateMethod,
}

/// One recorded error: its kind and the 1-based source line it was noticed on.
#[derive(Clone, Copy, PartialEq, Eq, Structural, Debug)]
pub struct Diagnostic {
    pub kind: DiagKind,
    pub line: usize,
}

} // verus!
