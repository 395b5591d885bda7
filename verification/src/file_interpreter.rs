//! Running the functions of a file that have run commands.
use crate::data_value::DataValue;
use crate::environment::Environment;
use crate::interpreter::{ControlFlow, Interpreter};
use crate::machine::{spec_call_by_name, MachineModel};
use crate::run_command::{
    args_of, failure_text, func_of, matched, print_text, RunCommand, RunCommandModel,
};
use crate::text::{unsigned_decimal, unsigned_text};
use crate::trap::{trap_text, Trap, TrapModel};
use vstd::prelude::*;

verus! {

/// Code that can be interpreted, and where it came from.
#[derive(Debug)]
pub struct FileInterpreter {
    path: Option<String>,
    contents: String,
}

/// Why a file could not be run.
#[derive(Debug)]
pub enum FileRunnerFailure {
    /// The file could not be read; the text says why.
    Io(String),
    /// The file of this path could not be parsed; the second text says why.
    ParsingClif(String, String),
    Trap(Trap),
    UnknownFunction(String),
    FailedExecution(String),
    /// The first text was expected, the second found.
    FailedAssertion(String, String),
}

/// The text of where inline code came from.
pub open spec fn inline_text() -> Seq<char> {
    "[inline code]"@
}

/// The name under which the function `func` of a run command stands in the
/// environment: with a `%` before it.
pub open spec fn environment_name(func: Seq<char>) -> Seq<char> {
    "%"@ + func
}

/// How a run command ended.
#[derive(Debug, PartialEq)]
pub enum CommandOutcome {
    /// The function returned what the command expects.
    Passed,
    /// The command is a print command: this is the line that it prints.
    Printed(String),
    /// The call trapped, or returned what the command does not expect: this
    /// is the text of the failure.
    Failed(String),
}

/// The mathematical content of a [`CommandOutcome`].
pub ghost enum CommandOutcomeModel {
    Passed,
    Printed(Seq<char>),
    Failed(Seq<char>),
}

impl View for CommandOutcome {
    type V = CommandOutcomeModel;

    open spec fn view(&self) -> CommandOutcomeModel {
        match self {
            CommandOutcome::Passed => CommandOutcomeModel::Passed,
            CommandOutcome::Printed(l) => CommandOutcomeModel::Printed(l@),
            CommandOutcome::Failed(t) => CommandOutcomeModel::Failed(t@),
        }
    }
}

/// What one run command gives on a machine: the machine after its function
/// was called, and how the command ended. A call that traps fails the
/// command with the text of the trap; a print command prints what was
/// returned; a run command passes where that is what it expects.
#[verifier::opaque]
pub open spec fn run_one(m: MachineModel, c: RunCommandModel, fuel: nat) -> (
    MachineModel,
    CommandOutcomeModel,
) {
    let (after, outcome) = spec_call_by_name(m, environment_name(func_of(c)), args_of(c), fuel);
    match outcome {
        Err(t) => (after, CommandOutcomeModel::Failed(trap_text(t))),
        Ok(actual) => if c is Print {
            (after, CommandOutcomeModel::Printed(print_text(c, actual)))
        } else if matched(c, actual) {
            (after, CommandOutcomeModel::Passed)
        } else {
            (after, CommandOutcomeModel::Failed(failure_text(c, actual)))
        },
    }
}

/// What the first `k` of `commands` give, run in order on one machine until
/// one fails: the machine after them, the lines that the print commands
/// among them print, and the text of the first failure.
pub open spec fn run_all(m: MachineModel, commands: Seq<RunCommandModel>, k: int, fuel: nat) -> (
    MachineModel,
    Seq<Seq<char>>,
    Option<Seq<char>>,
)
    decreases k,
{
    if k <= 0 {
        (m, Seq::empty(), None)
    } else {
        let (mid, lines, failed) = run_all(m, commands, k - 1, fuel);
        if failed is Some {
            (mid, lines, failed)
        } else {
            match run_one(mid, commands[k - 1], fuel) {
                (after, CommandOutcomeModel::Passed) => (after, lines, None),
                (after, CommandOutcomeModel::Printed(l)) => (after, lines.push(l), None),
                (after, CommandOutcomeModel::Failed(t)) => (after, lines, Some(t)),
            }
        }
    }
}

/// The views of the commands of a list.
pub open spec fn command_views(v: Seq<RunCommand>) -> Seq<RunCommandModel> {
    Seq::new(v.len(), |i: int| v[i]@)
}

/// The views of the lines of a list.
pub open spec fn line_views(v: Seq<String>) -> Seq<Seq<char>> {
    Seq::new(v.len(), |i: int| v[i]@)
}

/// Once a command has failed, the commands behind it are not run.
pub proof fn lemma_run_all_stops(
    m: MachineModel,
    commands: Seq<RunCommandModel>,
    k: int,
    n: int,
    fuel: nat,
)
    requires
        0 <= k <= n,
        run_all(m, commands, k, fuel).2 is Some,
    ensures
        run_all(m, commands, n, fuel) == run_all(m, commands, k, fuel),
    decreases n - k,
{
    if k < n {
        lemma_run_all_stops(m, commands, k, n - 1, fuel);
    }
}

/// The line that says how many files were run.
pub open spec fn files_text(total: usize) -> Seq<char> {
    if total == 0 {
        "0 files"@
    } else if total == 1 {
        "1 file"@
    } else {
        unsigned_text(total as u64) + " files"@
    }
}

/// The text that says how many files failed.
pub open spec fn failures_text(errors: usize) -> Seq<char> {
    if errors == 1 {
        "1 failure"@
    } else {
        unsigned_text(errors as u64) + " failures"@
    }
}

/// The line that says how many files were run; see [`files_text`].
pub fn files_line(total: usize) -> (r: String)
    ensures
        r@ == files_text(total),
{
    if total == 0 {
        String::from_str("0 files")
    } else if total == 1 {
        String::from_str("1 file")
    } else {
        unsigned_decimal(total as u64).concat(" files")
    }
}

/// The result of running files of which `errors` failed: success where
/// none did, else the text that says how many did.
pub fn failures(errors: usize) -> (r: Result<(), String>)
    ensures
        errors == 0 ==> r is Ok,
        errors != 0 ==> (r matches Err(m) && m@ == failures_text(errors)),
{
    if errors == 0 {
        Ok(())
    } else if errors == 1 {
        Err(String::from_str("1 failure"))
    } else {
        Err(unsigned_decimal(errors as u64).concat(" failures"))
    }
}

/// Calls the function of an invocation and returns what it returned.
pub fn invoke_function(func: &str, args: &[DataValue], interpreter: &mut Interpreter) -> (r: Result<
    Vec<DataValue>,
    FileRunnerFailure,
>)
    requires
        old(interpreter).wf(),
    ensures
        final(interpreter).wf(),
        final(interpreter).spec_step_limit() == old(interpreter).spec_step_limit(),
        final(interpreter)@ == spec_call_by_name(
            old(interpreter)@,
            func@,
            args@,
            old(interpreter).spec_step_limit() as nat,
        ).0,
        match spec_call_by_name(
            old(interpreter)@,
            func@,
            args@,
            old(interpreter).spec_step_limit() as nat,
        ).1 {
            Ok(vals) => r matches Ok(v) && v@ == vals,
            Err(t) => r matches Err(FileRunnerFailure::Trap(e)) && e@ == t,
        },
{
    match interpreter.call_by_name(func, args) {
        Ok(ControlFlow::Return(results)) => Ok(results),
        Ok(_) => Err(FileRunnerFailure::Trap(Trap::Unknown)),
        Err(t) => Err(FileRunnerFailure::Trap(t)),
    }
}

impl FileInterpreter {
    /// The path of the file that the code came from, if it came from one.
    pub closed spec fn spec_path(&self) -> Option<Seq<char>> {
        match self.path {
            Some(p) => Some(p@),
            None => None,
        }
    }

    /// The code.
    pub closed spec fn spec_contents(&self) -> Seq<char> {
        self.contents@
    }

    /// The code that was read from the file of this path.
    pub fn with_path(path: String, contents: String) -> (r: Self)
        ensures
            r.spec_path() == Some(path@),
            r.spec_contents() == contents@,
    {
        FileInterpreter { path: Some(path), contents }
    }

    /// Code that did not come from a file.
    pub fn from_inline_code(contents: String) -> (r: Self)
        ensures
            r.spec_path() is None,
            r.spec_contents() == contents@,
    {
        FileInterpreter { path: None, contents }
    }

    /// The path of the file, or `[inline code]`.
    pub fn path(&self) -> (r: String)
        ensures
            r@ == match self.spec_path() {
                Some(p) => p,
                None => inline_text(),
            },
    {
        match &self.path {
            None => String::from_str("[inline code]"),
            Some(p) => p.clone(),
        }
    }

    /// The code.
    pub fn contents(&self) -> (r: &String)
        ensures
            r@ == self.spec_contents(),
    {
        &self.contents
    }

    /// Runs one command on the interpreter; see [`run_one`].
    pub fn run_command(interpreter: &mut Interpreter, command: &RunCommand) -> (r: CommandOutcome)
        requires
            old(interpreter).wf(),
        ensures
            final(interpreter).wf(),
            final(interpreter).spec_step_limit() == old(interpreter).spec_step_limit(),
            final(interpreter)@ == run_one(
                old(interpreter)@,
                command@,
                old(interpreter).spec_step_limit() as nat,
            ).0,
            r@ == run_one(old(interpreter)@, command@, old(interpreter).spec_step_limit() as nat).1,
    {
        reveal(run_one);
        let name = String::from_str("%").concat(command.invocation().func.as_str());
        let outcome = interpreter.call_by_name(name.as_str(), command.invocation().args.as_slice());
        match outcome {
            Ok(ControlFlow::Return(results)) => match command {
                RunCommand::Print(_) => CommandOutcome::Printed(command.print_line(&results)),
                RunCommand::Run(_, _, _) => match command.check(&results) {
                    Ok(()) => CommandOutcome::Passed,
                    Err(s) => CommandOutcome::Failed(s),
                },
            },
            Ok(_) => CommandOutcome::Passed,
            Err(t) => CommandOutcome::Failed(t.message()),
        }
    }

    /// Runs the commands of a file on the functions of the file, in order,
    /// on one interpreter, until one fails; see [`run_all`]. The functions
    /// stand in the environment under their names with a `%` before them.
    /// Returns the lines that the print commands print, for the caller to
    /// print, and whether a command failed.
    pub fn run(interpreter: &mut Interpreter, commands: &Vec<RunCommand>) -> (r: (
        Vec<String>,
        Result<(), FileRunnerFailure>,
    ))
        requires
            old(interpreter).wf(),
        ensures
            final(interpreter).wf(),
            final(interpreter)@ == run_all(
                old(interpreter)@,
                command_views(commands@),
                commands@.len() as int,
                old(interpreter).spec_step_limit() as nat,
            ).0,
            line_views(r.0@) == run_all(
                old(interpreter)@,
                command_views(commands@),
                commands@.len() as int,
                old(interpreter).spec_step_limit() as nat,
            ).1,
            match run_all(
                old(interpreter)@,
                command_views(commands@),
                commands@.len() as int,
                old(interpreter).spec_step_limit() as nat,
            ).2 {
                None => r.1 is Ok,
                Some(text) => r.1 matches Err(FileRunnerFailure::FailedExecution(m)) && m@ == text,
            },
    {
        let ghost m0 = interpreter@;
        let ghost fuel = interpreter.spec_step_limit() as nat;
        let ghost cs = command_views(commands@);
        let mut lines: Vec<String> = Vec::new();
        let mut k: usize = 0;
        proof {
            assert(line_views(lines@) =~= Seq::<Seq<char>>::empty());
        }
        while k < commands.len()
            invariant
                k <= commands@.len(),
                interpreter.wf(),
                interpreter.spec_step_limit() as nat == fuel,
                m0 == old(interpreter)@,
                fuel == old(interpreter).spec_step_limit() as nat,
                cs == command_views(commands@),
                run_all(m0, cs, k as int, fuel) == (
                    interpreter@,
                    line_views(lines@),
                    None::<Seq<char>>,
                ),
            decreases commands@.len() - k,
        {
            let ghost before = interpreter@;
            let ghost shown = line_views(lines@);
            proof {
                assert(cs[k as int] == commands@[k as int]@);
            }
            match Self::run_command(interpreter, &commands[k]) {
                CommandOutcome::Passed => {},
                CommandOutcome::Printed(line) => {
                    lines.push(line);
                    proof {
                        assert(line_views(lines@) =~= shown.push(line@));
                    }
                },
                CommandOutcome::Failed(s) => {
                    proof {
                        lemma_run_all_stops(m0, cs, k + 1, commands@.len() as int, fuel);
                    }
                    return (lines, Err(FileRunnerFailure::FailedExecution(s)));
                },
            }
            k += 1;
        }
        (lines, Ok(()))
    }
}

} // verus!
