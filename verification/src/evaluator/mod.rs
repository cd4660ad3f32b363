//! The parts of the tree-walk evaluator that hold no floating-point values:
//! runtime errors, scopes of variables and the native `clock`.
pub mod environment;
pub mod native;

use vstd::prelude::*;
use crate::lexer::token::{Token, TokenView};
use crate::text::copy_string;

verus! {

/// An error raised while running a program: the token where it happened and
/// its message.
pub struct RuntimeError {
    token: Token,
    message: String,
}

impl RuntimeError {
    /// The token where the error happened.
    pub closed spec fn spec_token(&self) -> TokenView {
        self.token@
    }

    /// The message of the error.
    pub closed spec fn spec_message(&self) -> Seq<char> {
        self.message@
    }

    /// The error `msg` at `t`.
    pub fn new(t: &Token, msg: &str) -> (e: RuntimeError)
        ensures
            e.spec_token() == t@,
            e.spec_message() == msg@,
    {
        RuntimeError { token: t.copied(), message: msg.to_owned() }
    }

    /// The message of the error.
    pub fn get_message(&self) -> (m: String)
        ensures
            m@ == self.spec_message(),
    {
        copy_string(&self.message)
    }

    /// The token where the error happened.
    pub fn get_token(&self) -> (t: Token)
        ensures
            t@ == self.spec_token(),
    {
        self.token.copied()
    }
}

} // verus!
