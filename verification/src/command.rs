//! The command that is started in a pty.

use portable_pty::CommandBuilder;
use vstd::prelude::*;

use crate::launch::{pty_program, term_value};

verus! {

/// A command under construction, of the pty library.
#[verifier::external_type_specification]
#[verifier::external_body]
pub struct ExCommandBuilder(CommandBuilder);

/// The program and the arguments that a command holds.
pub uninterp spec fn argv_of(c: CommandBuilder) -> Seq<Seq<char>>;

/// The environment variables that were set on a command, beside those it has
/// from the environment of this process.
pub uninterp spec fn vars_of(c: CommandBuilder) -> Map<Seq<char>, Seq<char>>;

/// No environment variables.
pub open spec fn no_vars() -> Map<Seq<char>, Seq<char>> {
    Map::empty()
}

/// Calls `CommandBuilder::new`: the command holds the program alone, and no
/// variable has been set on it. What it has from the environment of this
/// process is left unsaid.
#[verifier::external_body]
fn new_command(program: &str) -> (c: CommandBuilder)
    ensures
        argv_of(c) == seq![program@],
        vars_of(c) == no_vars(),
{
    CommandBuilder::new(program)
}

/// Calls `CommandBuilder::arg`, which panics on a command without a program:
/// the argument comes after those that the command holds.
#[verifier::external_body]
fn add_arg(c: &mut CommandBuilder, arg: &str)
    requires
        argv_of(*old(c)).len() > 0,
    ensures
        argv_of(*final(c)) == argv_of(*old(c)).push(arg@),
        vars_of(*final(c)) == vars_of(*old(c)),
{
    c.arg(arg);
}

/// Calls `CommandBuilder::env` on a command on which no variable has been set
/// yet: this one is then the only one.
#[verifier::external_body]
fn set_var(c: &mut CommandBuilder, key: &str, value: &str)
    requires
        vars_of(*old(c)) == no_vars(),
    ensures
        argv_of(*final(c)) == argv_of(*old(c)),
        vars_of(*final(c)) == map![key@ => value@],
{
    c.env(key, value);
}

/// The command that is started in a new pty: the program that was asked for,
/// with its arguments, or else the shell without any. Programs are told the
/// terminal type, except on Windows.
pub fn pty_command(
    program: Option<String>,
    args: Option<Vec<String>>,
    shell: String,
    windows: bool,
) -> (c: CommandBuilder)
    ensures
        argv_of(c) == (if program is Some && program->0@.len() > 0 {
            seq![program->0@] + (match args {
                Some(a) => crate::engine::texts_of(a@),
                None => Seq::empty(),
            })
        } else {
            seq![shell@]
        }),
        vars_of(c) == (if windows {
            no_vars()
        } else {
            map!["TERM"@ => "xterm-256color"@]
        }),
{
    let l = pty_program(program, args, shell);
    let mut c = new_command(l.program.as_str());
    let ghost all = crate::engine::texts_of(l.args@);
    let mut i: usize = 0;
    assert(seq![l.program@] + all.take(0) =~= seq![l.program@]);
    while i < l.args.len()
        invariant
            i <= l.args.len(),
            all == crate::engine::texts_of(l.args@),
            argv_of(c) == seq![l.program@] + all.take(i as int),
            vars_of(c) == no_vars(),
        decreases l.args.len() - i,
    {
        add_arg(&mut c, l.args[i].as_str());
        assert(all.take(i + 1) =~= all.take(i as int).push(l.args@[i as int]@));
        assert(seq![l.program@] + all.take(i + 1) =~= (seq![l.program@] + all.take(i as int)).push(
            l.args@[i as int]@,
        ));
        i = i + 1;
    }
    assert(all.take(all.len() as int) =~= all);
    assert(seq![l.program@] + Seq::<Seq<char>>::empty() =~= seq![l.program@]);
    if let Some(term) = term_value(windows) {
        set_var(&mut c, "TERM", term);
    }
    c
}

} // verus!
