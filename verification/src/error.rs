//! Errors raised while running Ruby code, and their messages.
use vstd::prelude::*;
use crate::value::RObject;
use crate::bytes::str_eq;
use std::rc::Rc;

verus! {

/// An error raised while running Ruby code.
#[derive(Debug, Clone)]
pub enum Error {
    General,
    Internal(String),
    InvalidOpCode,
    RuntimeError(String),
    ArgumentError(String),
    RangeError(String),
    TypeMismatch,
    NoMethodError(String),
    NameError(String),
    Break(Rc<RObject>),
    BlockReturn(usize, Rc<RObject>),
}

/// The message of an error.
pub open spec fn spec_message(e: Error) -> Seq<char> {
    match e {
        Error::General => "General error"@,
        Error::Internal(msg) => "[Internal Error] "@ + msg@,
        Error::InvalidOpCode => "Invalid opcode"@,
        Error::RuntimeError(msg) => msg@,
        Error::ArgumentError(msg) => "Invalid argument: "@ + msg@,
        Error::RangeError(msg) => "Out of range: "@ + msg@,
        Error::TypeMismatch => "Type mismatch"@,
        Error::NoMethodError(msg) => "Method not found: "@ + msg@,
        Error::NameError(msg) => "Cannot found name: "@ + msg@,
        Error::Break(_) => "[Break]"@,
        Error::BlockReturn(_, _) => "[BlockReturn]"@,
    }
}

/// The name of the class an error is a direct instance of, where it has one.
pub open spec fn spec_instance_class(e: Error) -> Option<Seq<char>> {
    match e {
        Error::General => Some("StandardError"@),
        Error::Internal(_) => Some("InternalError"@),
        Error::InvalidOpCode => Some("StandardError"@),
        Error::RuntimeError(_) => Some("RuntimeError"@),
        Error::ArgumentError(_) => Some("ArgumentError"@),
        Error::RangeError(_) => Some("RangeError"@),
        Error::TypeMismatch => Some("StandardError"@),
        Error::NoMethodError(_) => Some("NoMethodError"@),
        Error::NameError(_) => Some("NameError"@),
        Error::Break(_) => None,
        Error::BlockReturn(_, _) => None,
    }
}

impl Error {
    /// An internal error with message `msg`.
    pub fn internal(msg: &str) -> (r: Error)
        ensures
            r matches Error::Internal(m) && m@ == msg@,
    {
        Error::Internal(String::from_str(msg))
    }

    /// The error's message.
    pub fn message(&self) -> (r: String)
        ensures
            r@ == spec_message(*self),
    {
        match self {
            Error::General => String::from_str("General error"),
            Error::Internal(msg) => String::from_str("[Internal Error] ").concat(msg.as_str()),
            Error::InvalidOpCode => String::from_str("Invalid opcode"),
            Error::RuntimeError(msg) => msg.clone(),
            Error::ArgumentError(msg) => String::from_str("Invalid argument: ").concat(msg.as_str()),
            Error::RangeError(msg) => String::from_str("Out of range: ").concat(msg.as_str()),
            Error::TypeMismatch => String::from_str("Type mismatch"),
            Error::NoMethodError(msg) => String::from_str("Method not found: ").concat(msg.as_str()),
            Error::NameError(msg) => String::from_str("Cannot found name: ").concat(msg.as_str()),
            Error::Break(_) => String::from_str("[Break]"),
            Error::BlockReturn(_, _) => String::from_str("[BlockReturn]"),
        }
    }

    /// Whether the error is a direct instance of the class named `class_name`.
    pub fn is_instance_of(&self, class_name: &str) -> (r: bool)
        ensures
            r == (spec_instance_class(*self) matches Some(n) && n == class_name@),
    {
        match self {
            Error::General => str_eq(class_name, "StandardError"),
            Error::Internal(_) => str_eq(class_name, "InternalError"),
            Error::InvalidOpCode => str_eq(class_name, "StandardError"),
            Error::RuntimeError(_) => str_eq(class_name, "RuntimeError"),
            Error::ArgumentError(_) => str_eq(class_name, "ArgumentError"),
            Error::RangeError(_) => str_eq(class_name, "RangeError"),
            Error::TypeMismatch => str_eq(class_name, "StandardError"),
            Error::NoMethodError(_) => str_eq(class_name, "NoMethodError"),
            Error::NameError(_) => str_eq(class_name, "NameError"),
            Error::Break(_) => false,
            Error::BlockReturn(_, _) => false,
        }
    }
}

/// An error that can cross thread boundaries: only its message is kept.
#[derive(Debug, Clone)]
pub enum StaticError {
    General(String),
}

impl StaticError {
    /// The thread-safe form of `err`, holding its message.
    pub fn from_error(err: Error) -> (r: StaticError)
        ensures
            r matches StaticError::General(m) && m@ == spec_message(err),
    {
        StaticError::General(err.message())
    }
}

} // verus!
