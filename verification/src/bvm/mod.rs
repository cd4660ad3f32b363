//! The front end and bytecode structures of the Lox virtual machine.
pub mod chunk;
pub mod codegen;
pub mod compiler;
pub mod debug;
pub mod emit;
pub mod object;
pub mod scanner;
pub mod token;
pub mod vm;

use vstd::prelude::*;
use crate::text::same_text;

verus! {

/// What the machine prints besides the program's output: the compiled
/// bytecode, debugging notes, the scanned tokens, an execution trace.
#[derive(Clone, Copy, Debug)]
pub struct Config {
    pub bytecode: bool,
    pub debug: bool,
    pub scanner: bool,
    pub trace: bool,
}

impl Config {
    /// Nothing besides the program's output.
    pub fn new() -> (c: Config)
        ensures
            c == (Config { bytecode: false, debug: false, scanner: false, trace: false }),
    {
        Config { bytecode: false, debug: false, scanner: false, trace: false }
    }
}

impl Default for Config {
    /// The same as `Config::new()`.
    fn default() -> (c: Config)
        ensures
            c == (Config { bytecode: false, debug: false, scanner: false, trace: false }),
    {
        Self::new()
    }
}

/// The command-line options that switch on one of the settings.
pub open spec fn is_option(option: Seq<char>) -> bool {
    option == "-b"@ || option == "-d"@ || option == "-s"@ || option == "-t"@
}

/// Switches on the setting that `option` names: `-b` bytecode, `-d` debug,
/// `-s` scanner, `-t` trace; the others stay as they were.
pub fn set_config(config: &mut Config, option: &str)
    requires
        is_option(option@),
    ensures
        *final(config) == (Config {
            bytecode: old(config).bytecode || option@ == "-b"@,
            debug: old(config).debug || option@ == "-d"@,
            scanner: old(config).scanner || option@ == "-s"@,
            trace: old(config).trace || option@ == "-t"@,
        }),
{
    proof {
        reveal_strlit("-b");
        reveal_strlit("-d");
        reveal_strlit("-s");
        reveal_strlit("-t");
        assert("-b"@[1] == 'b' && "-d"@[1] == 'd' && "-s"@[1] == 's' && "-t"@[1] == 't');
        assert(option@ == "-b"@ ==> option@[1] == 'b');
        assert(option@ == "-d"@ ==> option@[1] == 'd');
        assert(option@ == "-s"@ ==> option@[1] == 's');
        assert(option@ == "-t"@ ==> option@[1] == 't');
    }
    if same_text(option, "-b") {
        config.bytecode = true;
    } else if same_text(option, "-d") {
        config.debug = true;
    } else if same_text(option, "-s") {
        config.scanner = true;
    } else {
        config.trace = true;
    }
}

} // verus!
