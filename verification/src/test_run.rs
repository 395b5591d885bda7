//! The `run` test command: it compiles each function of a test file on the
//! host and runs it.
use vstd::prelude::*;

verus! {

/// A test command of a test file: its name and its options.
#[derive(Debug)]
pub struct TestCommand {
    pub command: String,
    pub options: Vec<String>,
}

/// The `run` test.
#[derive(Clone, Copy, PartialEq, Eq, Structural, Debug)]
pub struct TestRun;

/// The first `k` of `options`, each with a blank before it.
pub open spec fn options_text(options: Seq<String>, k: int) -> Seq<char>
    decreases k,
{
    if k <= 0 {
        Seq::empty()
    } else {
        options_text(options, k - 1) + " "@ + options[k - 1]@
    }
}

/// The text of a test command: its name, its options, each with a blank
/// before it, and the end of the line.
pub open spec fn command_line(command: Seq<char>, options: Seq<String>) -> Seq<char> {
    command + options_text(options, options.len() as int) + "\n"@
}

/// The text of the failure of a `run` command that has options.
pub open spec fn no_options_text(command: Seq<char>, options: Seq<String>) -> Seq<char> {
    "No options allowed on "@ + command_line(command, options)
}

impl TestCommand {
    /// The command as it stands in a test file; see [`command_line`].
    pub fn to_text(&self) -> (r: String)
        ensures
            r@ == command_line(self.command@, self.options@),
    {
        let mut out = self.command.clone();
        let mut k: usize = 0;
        while k < self.options.len()
            invariant
                k <= self.options@.len(),
                out@ == self.command@ + options_text(self.options@, k as int),
            decreases self.options@.len() - k,
        {
            out.append(" ");
            out.append(self.options[k].as_str());
            proof {
                assert(out@ =~= self.command@ + options_text(self.options@, k + 1));
            }
            k += 1;
        }
        out.append("\n");
        out
    }
}

/// The test for a `run` command, which takes no options.
pub fn subtest(parsed: &TestCommand) -> (r: Result<TestRun, String>)
    requires
        parsed.command@ == "run"@,
    ensures
        parsed.options@.len() == 0 ==> r is Ok,
        parsed.options@.len() != 0 ==> (r matches Err(m) && m@ == no_options_text(
            parsed.command@,
            parsed.options@,
        )),
{
    if parsed.options.len() != 0 {
        Err(String::from_str("No options allowed on ").concat(parsed.to_text().as_str()))
    } else {
        Ok(TestRun)
    }
}

impl TestRun {
    pub fn name(&self) -> (r: &'static str)
        ensures
            r@ == "run"@,
    {
        "run"
    }

    /// The test changes no function.
    pub fn is_mutating(&self) -> (r: bool)
        ensures
            !r,
    {
        false
    }

    /// The test needs no instruction set handed to it: it runs on the
    /// host, whose instruction set it finds itself.
    pub fn needs_isa(&self) -> (r: bool)
        ensures
            !r,
    {
        false
    }
}

} // verus!
