//! Hard numeric limits of the compiler. Each is load-bearing: the bytecode
//! instruction format encodes the corresponding index or count in a fixed
//! number of bits, so exceeding one is a compile error, never a silent wrap.

use vstd::prelude::*;

verus! {

/// The maximum number of local (i.e. not module level) variables that can be
/// declared in a single function, method, or chunk of top level code. This is
/// the maximum number of variables in scope at one time, and spans block
/// scopes. The load and store instructions for locals use a single argument
/// byte to identify the slot, so only 256 can be in scope at one time.
pub const MAX_LOCALS: usize = 256;

/// The maximum number of upvalues (i.e. variables from enclosing functions)
/// that a function can close over.
pub const MAX_UPVALUES: usize = 256;

/// The maximum number of distinct constants that a function can contain. This
/// value is explicit in the bytecode since the constant-load instruction takes
/// a single two-byte argument.
pub const MAX_CONSTANTS: usize = 65536;

/// The maximum distance a jump instruction can move the instruction pointer.
pub const MAX_JUMP: usize = 65536;

/// The maximum depth that string interpolation can nest. For example, this
/// string has three levels:
///
///     "outside %(one + "%(two + "%(three)")")"
pub const MAX_INTERPOLATION_NESTING: usize = 8;

/// The maximum number of module-level variables that may be defined at one
/// time. This limitation comes from the 16 bits used for the arguments of the
/// module-variable load and store instructions.
pub const MAX_MODULE_VARS: usize = 65536;

/// The maximum number of arguments that can be passed to a method.
pub const MAX_PARAMETERS: usize = 16;

/// The maximum name of a method, not including the signature.
pub const MAX_METHOD_NAME: usize = 64;

/// The maximum length of a method signature. Signatures look like:
///
///     foo        // Getter.
///     foo()      // No-argument method.
///     foo(_)     // One-argument method.
///     foo(_,_)   // Two-argument method.
///     init foo() // Constructor initializer.
///
/// The maximum signature length takes into account the longest method name,
/// the maximum number of parameters with separators between them, "init ",
/// and "()".
pub const MAX_METHOD_SIGNATURE: usize = MAX_METHOD_NAME + MAX_PARAMETERS * 2 + 6;

/// The maximum length of an identifier.
pub const MAX_VARIABLE_NAME: usize = 64;

/// The maximum number of fields a class can have, including inherited fields.
/// This is explicit in the bytecode since the class-creation instructions take
/// a single byte for the number of fields. Note that it is 255 and not 256
/// because creating a class takes the *number* of fields, not the *highest
/// field index*.
pub const MAX_FIELDS: usize = 255;

} // verus!
