//! The constants and functions that every context starts with.

use vstd::prelude::*;
use vstd::string::*;
use crate::number::{Number, E_BITS, INFINITY_BITS, NAN_BITS, PI_BITS};
use crate::request::Builtin;
use crate::context::{Function, FunctionView, VarTableEntry, VarView};

verus! {

/// A protected constant as contracts see it.
pub open spec fn constant(name: Seq<char>, bits: u64) -> VarView {
    VarView { name, value: Number { bits }, constant: true }
}

/// The built-in constants: `pi`, `e`, `inf` and `nan`, all protected.
pub open spec fn constants() -> Seq<VarView> {
    seq![
        constant("pi"@, PI_BITS),
        constant("e"@, E_BITS),
        constant("inf"@, INFINITY_BITS),
        constant("nan"@, NAN_BITS),
    ]
}

/// A row of the function table as contracts see it.
pub open spec fn row(name: Seq<char>, num_args: nat, operation: Builtin) -> FunctionView {
    FunctionView { name, num_args, operation }
}

/// The built-in functions, each with its name and the number of arguments
/// it takes; zero stands for any number.
pub open spec fn function_table() -> Seq<FunctionView> {
    seq![
        row("sqrt"@, 1, Builtin::Sqrt),
        row("root"@, 2, Builtin::Root),
        row("fac"@, 1, Builtin::Fac),
        row("mean"@, 0, Builtin::Mean),
        row("stddev"@, 0, Builtin::Stddev),
        row("min"@, 2, Builtin::Min),
        row("max"@, 2, Builtin::Max),
        row("abs"@, 1, Builtin::Abs),
        row("round"@, 1, Builtin::Round),
        row("floor"@, 1, Builtin::Floor),
        row("ceil"@, 1, Builtin::Ceil),
        row("ln"@, 1, Builtin::Ln),
        row("log10"@, 1, Builtin::Log10),
        row("log"@, 2, Builtin::Log),
        row("sin"@, 1, Builtin::Sin),
        row("cos"@, 1, Builtin::Cos),
        row("tan"@, 1, Builtin::Tan),
        row("sinh"@, 1, Builtin::Sinh),
        row("cosh"@, 1, Builtin::Cosh),
        row("tanh"@, 1, Builtin::Tanh),
        row("asin"@, 1, Builtin::Asin),
        row("acos"@, 1, Builtin::Acos),
        row("atan"@, 1, Builtin::Atan),
        row("asinh"@, 1, Builtin::Asinh),
        row("acosh"@, 1, Builtin::Acosh),
        row("atanh"@, 1, Builtin::Atanh),
    ]
}

/// A protected constant.
fn protected(name: &str, bits: u64) -> (entry: VarTableEntry)
    ensures
        entry@ == constant(name@, bits),
{
    VarTableEntry::new(String::from_str(name), Number::from_bits(bits), true)
}

/// A row of the function table.
fn function(name: &str, num_args: usize, operation: Builtin) -> (f: Function)
    ensures
        f@ == row(name@, num_args as nat, operation),
{
    Function { name: String::from_str(name), num_args, operation }
}

/// The built-in constants.
pub fn get_consts() -> (table: Vec<VarTableEntry>)
    ensures
        crate::context::var_views(table@) == constants(),
{
    let table = vec![
        protected("pi", PI_BITS),
        protected("e", E_BITS),
        protected("inf", INFINITY_BITS),
        protected("nan", NAN_BITS),
    ];
    table
}

/// The built-in functions.
pub fn get_functions() -> (table: Vec<Function>)
    ensures
        crate::context::function_views(table@) == function_table(),
{
    let table = vec![
        function("sqrt", 1, Builtin::Sqrt),
        function("root", 2, Builtin::Root),
        function("fac", 1, Builtin::Fac),
        function("mean", 0, Builtin::Mean),
        function("stddev", 0, Builtin::Stddev),
        function("min", 2, Builtin::Min),
        function("max", 2, Builtin::Max),
        function("abs", 1, Builtin::Abs),
        function("round", 1, Builtin::Round),
        function("floor", 1, Builtin::Floor),
        function("ceil", 1, Builtin::Ceil),
        function("ln", 1, Builtin::Ln),
        function("log10", 1, Builtin::Log10),
        function("log", 2, Builtin::Log),
        function("sin", 1, Builtin::Sin),
        function("cos", 1, Builtin::Cos),
        function("tan", 1, Builtin::Tan),
        function("sinh", 1, Builtin::Sinh),
        function("cosh", 1, Builtin::Cosh),
        function("tanh", 1, Builtin::Tanh),
        function("asin", 1, Builtin::Asin),
        function("acos", 1, Builtin::Acos),
        function("atan", 1, Builtin::Atan),
        function("asinh", 1, Builtin::Asinh),
        function("acosh", 1, Builtin::Acosh),
        function("atanh", 1, Builtin::Atanh),
    ];
    table
}

} // verus!
