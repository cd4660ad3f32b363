//! Error reporting shared by the scanner, parser and resolver.
use vstd::prelude::*;
use crate::evaluator::RuntimeError;
use crate::lexer::token::{Token, TokenType, TokenView};
use crate::text::{decimal, decimal_string, push_str};

verus! {

/// A line number written in decimal, with a minus sign when negative.
pub open spec fn signed_decimal(n: int) -> Seq<char> {
    if n < 0 { "-"@ + decimal((-n) as nat) } else { decimal(n as nat) }
}

/// The text of a compile error of the bytecode compiler.
pub open spec fn compile_report_text(line: int, place: Seq<char>, message: Seq<char>) -> Seq<char> {
    "[line "@ + signed_decimal(line) + "] CompileError"@ + place + ": "@ + message
}


/// The text of a report for `line`: `[line L] Error<where>: <message>`.
pub open spec fn report_text(line: nat, place: Seq<char>, message: Seq<char>) -> Seq<char> {
    seq!['[', 'l', 'i', 'n', 'e', ' '] + decimal(line) + seq![']', ' ', 'E', 'r', 'r', 'o', 'r']
        + place + seq![':', ' '] + message
}

/// The text of a runtime error report: `<message>\n[line L]`.
pub open spec fn runtime_report_text(message: Seq<char>, line: nat) -> Seq<char> {
    message + seq!['\n', '[', 'l', 'i', 'n', 'e', ' '] + decimal(line) + seq![']']
}

/// The report of `message` at `token`: at its text, or at the end.
pub open spec fn token_report(token: TokenView, message: Seq<char>) -> Seq<char> {
    if token.kind == TokenType::Eof {
        report_text(token.line, " at end"@, message)
    } else {
        report_text(token.line, " at '"@ + token.lexeme + "'"@, message)
    }
}

/// The state of an interpreter session: whether an error was reported, and the
/// reports in the order they were made (the program around prints them).
pub struct Lox {
    had_error: bool,
    had_runtime_error: bool,
    messages: Vec<String>,
}

impl Lox {
    /// The reports made so far.
    pub closed spec fn reports(&self) -> Seq<Seq<char>> {
        self.messages@.map_values(|m: String| m@)
    }

    /// Whether a static error was reported.
    pub closed spec fn spec_had_error(&self) -> bool {
        self.had_error
    }

    /// Whether a runtime error was reported.
    pub closed spec fn spec_had_runtime_error(&self) -> bool {
        self.had_runtime_error
    }

    /// A session with no error and no report.
    pub fn new() -> (l: Lox)
        ensures
            l.reports() == Seq::<Seq<char>>::empty(),
            !l.spec_had_error(),
            !l.spec_had_runtime_error(),
    {
        let l = Lox { had_error: false, had_runtime_error: false, messages: Vec::new() };
        assert(l.reports() =~= Seq::<Seq<char>>::empty());
        l
    }

    /// Whether a static error was reported.
    pub fn had_error(&self) -> (b: bool)
        ensures
            b == self.spec_had_error(),
    {
        self.had_error
    }

    /// Whether a runtime error was reported.
    pub fn had_runtime_error(&self) -> (b: bool)
        ensures
            b == self.spec_had_runtime_error(),
    {
        self.had_runtime_error
    }

    /// Forgets the static error, as the prompt does after each line.
    pub fn clear_error(&mut self)
        ensures
            !final(self).spec_had_error(),
            final(self).spec_had_runtime_error() == old(self).spec_had_runtime_error(),
            final(self).reports() == old(self).reports(),
    {
        self.had_error = false;
    }

    /// The reports made so far, in order.
    pub fn messages(&self) -> (m: &Vec<String>)
        ensures
            m@.map_values(|s: String| s@) == self.reports(),
    {
        &self.messages
    }

    fn record(&mut self, text: String)
        ensures
            final(self).reports() == old(self).reports().push(text@),
            final(self).had_error == old(self).had_error,
            final(self).had_runtime_error == old(self).had_runtime_error,
    {
        self.messages.push(text);
        assert(self.reports() =~= old(self).reports().push(text@));
    }

    /// Reports `message` for `line` at the place described by `place`.
    pub fn report(&mut self, line: usize, place: &str, message: &str)
        ensures
            final(self).reports() == old(self).reports().push(report_text(line as nat, place@, message@)),
            final(self).spec_had_error(),
            final(self).spec_had_runtime_error() == old(self).spec_had_runtime_error(),
    {
        let mut text = String::new();
        push_str(&mut text, "[line ");
        let digits = decimal_string(line);
        push_str(&mut text, digits.as_str());
        push_str(&mut text, "] Error");
        push_str(&mut text, place);
        push_str(&mut text, ": ");
        push_str(&mut text, message);
        proof {
            reveal_strlit("[line ");
            reveal_strlit("] Error");
            reveal_strlit(": ");
        }
        assert(text@ =~= report_text(line as nat, place@, message@));
        self.record(text);
        self.had_error = true;
    }

    /// Reports a scanning error for `line`.
    pub fn lex_error(&mut self, line: usize, message: &str)
        ensures
            final(self).reports() == old(self).reports().push(report_text(line as nat, Seq::empty(), message@)),
            final(self).spec_had_error(),
            final(self).spec_had_runtime_error() == old(self).spec_had_runtime_error(),
    {
        self.report(line, "", message);
        proof { reveal_strlit(""); }
    }

    /// Reports `message` at `token`.
    pub fn error(&mut self, token: &Token, message: &str)
        ensures
            final(self).reports() == old(self).reports().push(token_report(token@, message@)),
            final(self).spec_had_error(),
            final(self).spec_had_runtime_error() == old(self).spec_had_runtime_error(),
    {
        if *token.get_type() == TokenType::Eof {
            self.report(token.get_line(), " at end", message)
        } else {
            let mut err_type = String::new();
            push_str(&mut err_type, " at '");
            push_str(&mut err_type, token.get_lexeme());
            push_str(&mut err_type, "'");
            self.report(token.get_line(), err_type.as_str(), message)
        }
    }

    /// Reports the compile error `message` for `line` at the place described by `place`.
    pub fn compiler_error(&mut self, line: isize, place: &str, message: &str)
        ensures
            final(self).reports() == old(self).reports().push(compile_report_text(line as int, place@, message@)),
            final(self).spec_had_error(),
            final(self).spec_had_runtime_error() == old(self).spec_had_runtime_error(),
    {
        let mut text = String::new();
        push_str(&mut text, "[line ");
        if line < 0 {
            push_str(&mut text, "-");
            let magnitude: usize = ((-(line + 1)) as usize) + 1;
            push_str(&mut text, decimal_string(magnitude).as_str());
        } else {
            push_str(&mut text, decimal_string(line as usize).as_str());
        }
        push_str(&mut text, "] CompileError");
        push_str(&mut text, place);
        push_str(&mut text, ": ");
        push_str(&mut text, message);
        assert(text@ =~= compile_report_text(line as int, place@, message@));
        self.record(text);
        self.had_error = true;
    }

    /// Reports the runtime error `err`: its message and the line of its token.
    pub fn runtime_error(&mut self, err: RuntimeError)
        ensures
            final(self).reports() == old(self).reports().push(runtime_report_text(err.spec_message(), err.spec_token().line)),
            final(self).spec_had_runtime_error(),
            final(self).spec_had_error() == old(self).spec_had_error(),
    {
        let message = err.get_message();
        let line = err.get_token().get_line();
        self.runtime_error_at(message.as_str(), line);
    }

    /// Reports a runtime error `message` raised at `line`.
    pub fn runtime_error_at(&mut self, message: &str, line: usize)
        ensures
            final(self).reports() == old(self).reports().push(runtime_report_text(message@, line as nat)),
            final(self).spec_had_runtime_error(),
            final(self).spec_had_error() == old(self).spec_had_error(),
    {
        let mut text = String::new();
        push_str(&mut text, message);
        push_str(&mut text, "\n[line ");
        let digits = decimal_string(line);
        push_str(&mut text, digits.as_str());
        push_str(&mut text, "]");
        proof {
            reveal_strlit("\n[line ");
            reveal_strlit("]");
        }
        assert(text@ =~= runtime_report_text(message@, line as nat));
        self.record(text);
        self.had_runtime_error = true;
    }
}

} // verus!
