//! Translates the `impl Trait` parameters of a flutter_rust_bridge API into enums:
//! for each bound `impl A + B` of an API function it finds, in the crate's module
//! tree, the types that implement every trait of the bound, generates an enum with a
//! variant per such type and the impls that forward each trait to the variants,
//! rewrites the API files to take the enums, and produces the Dart files that load
//! the native library.
use vstd::prelude::*;

pub mod text;
pub mod order;
pub mod pool;
pub mod paths;
pub mod case;
pub mod file;
pub mod intersection;
pub mod syntax;
pub mod crate_info;
pub mod module_info;
pub mod opts;
pub mod rust_input;
pub mod generate;
pub mod opt_array;
pub mod translate;
pub mod run;
pub mod dart;
pub mod parse;
pub mod syn_types;

verus! {

/// Adds two numbers.
pub fn add(left: usize, right: usize) -> (sum: usize)
    requires
        left + right <= usize::MAX,
    ensures
        sum == left + right,
{
    left + right
}

} // verus!
