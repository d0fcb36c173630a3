//! A verified core for an mruby bytecode runtime: the RITE binary loader,
//! runtime values and their equality, the class table and its method lookup,
//! the built-in classes and their method tables, method calls on values,
//! the logic of the built-in `Array`, `Enumerable`, `String`, `Integer`,
//! `Time` and `Random` methods, binary pack/unpack, and the bounded function
//! tables and the exception handling decisions of the virtual machine.
pub mod args;
pub mod array;
pub mod bytes;
pub mod class;
pub mod enumerable;
pub mod error;
pub mod fmt;
pub mod integer;
pub mod random;
pub mod regexp;
pub mod rite;
pub mod string;
pub mod time;
pub mod value;
pub mod vm;
pub mod pack;
pub mod prelude;
pub mod dispatch;
