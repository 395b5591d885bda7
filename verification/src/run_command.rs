//! Run commands: how a function of a test file is invoked and checked.
//!
//! A comment `; run: %fn(42) == 2` invokes the function and compares what
//! it returns; a comment `; print: %fn(42)` invokes it and prints what it
//! returns.
use crate::data_value::DataValue;
use crate::text::{
    decimal, decimal_text, float32_debug, float32_debug_text, float64_debug, float64_debug_text,
    ieee32, ieee32_text, ieee64, ieee64_text, quoted, quoted_text, unsigned_decimal,
    unsigned_text, vector, vector_text,
};
use vstd::prelude::*;

verus! {

/// A comparison of a run command.
#[derive(Clone, Copy, PartialEq, Eq, Structural, Debug)]
pub enum Comparison {
    Equals,
    NotEquals,
}

/// A call of a function: its name and its arguments.
#[derive(Debug, PartialEq)]
pub struct Invocation {
    /// The name of the function, without the leading `%`.
    pub func: String,
    pub args: Vec<DataValue>,
}

/// A run command of a test file.
#[derive(Debug, PartialEq)]
pub enum RunCommand {
    /// Invoke a function and print what it returns.
    Print(Invocation),
    /// Invoke a function and compare what it returns with these values.
    Run(Invocation, Comparison, Vec<DataValue>),
}

/// The mathematical content of a [`RunCommand`].
pub ghost enum RunCommandModel {
    Print { func: Seq<char>, args: Seq<DataValue> },
    Run { func: Seq<char>, args: Seq<DataValue>, comparison: Comparison, expected: Seq<DataValue> },
}

impl View for RunCommand {
    type V = RunCommandModel;

    open spec fn view(&self) -> RunCommandModel {
        match self {
            RunCommand::Print(i) => RunCommandModel::Print { func: i.func@, args: i.args@ },
            RunCommand::Run(i, c, e) => RunCommandModel::Run {
                func: i.func@,
                args: i.args@,
                comparison: *c,
                expected: e@,
            },
        }
    }
}

/// The name of the function that a command calls.
pub open spec fn func_of(c: RunCommandModel) -> Seq<char> {
    match c {
        RunCommandModel::Print { func, .. } => func,
        RunCommandModel::Run { func, .. } => func,
    }
}

/// The arguments that a command calls its function with.
pub open spec fn args_of(c: RunCommandModel) -> Seq<DataValue> {
    match c {
        RunCommandModel::Print { args, .. } => args,
        RunCommandModel::Run { args, .. } => args,
    }
}

/// A comment without its leading blanks and semicolons.
pub open spec fn spec_trim(s: Seq<char>) -> Seq<char>
    decreases s.len(),
{
    if s.len() > 0 && (s[0] == ' ' || s[0] == ';') {
        spec_trim(s.drop_first())
    } else {
        s
    }
}

/// Whether `s` begins with `prefix`.
pub open spec fn spec_starts_with(s: Seq<char>, prefix: Seq<char>) -> bool {
    prefix.len() <= s.len() && s.subrange(0, prefix.len() as int) == prefix
}

/// The text of a value.
pub open spec fn value_text(v: DataValue) -> Seq<char> {
    match v {
        DataValue::B(true) => "true"@,
        DataValue::B(false) => "false"@,
        DataValue::I8(n) => decimal_text(n as i64),
        DataValue::I16(n) => decimal_text(n as i64),
        DataValue::I32(n) => decimal_text(n as i64),
        DataValue::I64(n) => decimal_text(n),
        DataValue::F32(b) => ieee32_text(b),
        DataValue::F64(b) => ieee64_text(b),
        DataValue::V128(b) => vector_text(b),
    }
}

/// The texts of the first `k` of `list`, with `, ` between them.
pub open spec fn list_text(list: Seq<DataValue>, k: int) -> Seq<char>
    decreases k,
{
    if k <= 0 {
        Seq::empty()
    } else if k == 1 {
        value_text(list[0])
    } else {
        list_text(list, k - 1) + ", "@ + value_text(list[k - 1])
    }
}

/// The text of a call: `%name(arguments)`.
pub open spec fn invocation_text(func: Seq<char>, args: Seq<DataValue>) -> Seq<char> {
    "%"@ + func + "("@ + list_text(args, args.len() as int) + ")"@
}

/// The text of a comparison.
pub open spec fn comparison_text(c: Comparison) -> Seq<char> {
    match c {
        Comparison::Equals => "=="@,
        Comparison::NotEquals => "!="@,
    }
}

/// The text of a run command, as it stands in a test file.
pub open spec fn command_text(c: RunCommandModel) -> Seq<char> {
    match c {
        RunCommandModel::Print { func, args } => "print: "@ + invocation_text(func, args),
        RunCommandModel::Run { func, args, comparison, expected } => "run: "@ + invocation_text(
            func,
            args,
        ) + " "@ + comparison_text(comparison) + " "@ + (if expected.len() == 1 {
            value_text(expected[0])
        } else {
            "["@ + list_text(expected, expected.len() as int) + "]"@
        }),
    }
}

/// The byte at position `i` of the sixteen bytes of a vector.
pub open spec fn byte_of(v: u128, i: u32) -> u64 {
    ((v >> ((8 * i) as u32)) & 0xff) as u64
}

/// The first `k` bytes of a vector in decimal, with `, ` between them.
pub open spec fn bytes_debug_text(v: u128, k: int) -> Seq<char>
    decreases k,
{
    if k <= 0 {
        Seq::empty()
    } else if k == 1 {
        unsigned_text(byte_of(v, 0))
    } else {
        bytes_debug_text(v, k - 1) + ", "@ + unsigned_text(byte_of(v, (k - 1) as u32))
    }
}

/// The text of a value for debugging: the name of its kind, and between
/// round brackets what it holds; a vector holds its sixteen bytes between
/// square brackets.
pub open spec fn value_debug_text(v: DataValue) -> Seq<char> {
    match v {
        DataValue::B(true) => "B(true)"@,
        DataValue::B(false) => "B(false)"@,
        DataValue::I8(n) => "I8("@ + decimal_text(n as i64) + ")"@,
        DataValue::I16(n) => "I16("@ + decimal_text(n as i64) + ")"@,
        DataValue::I32(n) => "I32("@ + decimal_text(n as i64) + ")"@,
        DataValue::I64(n) => "I64("@ + decimal_text(n) + ")"@,
        DataValue::F32(b) => "F32("@ + float32_debug_text(b) + ")"@,
        DataValue::F64(b) => "F64("@ + float64_debug_text(b) + ")"@,
        DataValue::V128(b) => "V128(["@ + bytes_debug_text(b, 16) + "])"@,
    }
}

/// The texts for debugging of the first `k` of `list`, with `, ` between
/// them.
pub open spec fn joined_debug_text(list: Seq<DataValue>, k: int) -> Seq<char>
    decreases k,
{
    if k <= 0 {
        Seq::empty()
    } else if k == 1 {
        value_debug_text(list[0])
    } else {
        joined_debug_text(list, k - 1) + ", "@ + value_debug_text(list[k - 1])
    }
}

/// The text of a list of values for debugging: between square brackets.
pub open spec fn list_debug_text(list: Seq<DataValue>) -> Seq<char> {
    "["@ + joined_debug_text(list, list.len() as int) + "]"@
}

/// The text of a call for debugging.
pub open spec fn invocation_debug_text(func: Seq<char>, args: Seq<DataValue>) -> Seq<char> {
    "Invocation { func: "@ + quoted_text(func) + ", args: "@ + list_debug_text(args) + " }"@
}

/// The text of a comparison for debugging.
pub open spec fn comparison_debug_text(c: Comparison) -> Seq<char> {
    match c {
        Comparison::Equals => "Equals"@,
        Comparison::NotEquals => "NotEquals"@,
    }
}

/// The text of a run command for debugging.
pub open spec fn command_debug_text(c: RunCommandModel) -> Seq<char> {
    match c {
        RunCommandModel::Print { func, args } => "Print("@ + invocation_debug_text(func, args)
            + ")"@,
        RunCommandModel::Run { func, args, comparison, expected } => "Run("@
            + invocation_debug_text(func, args) + ", "@ + comparison_debug_text(comparison)
            + ", "@ + list_debug_text(expected) + ")"@,
    }
}

/// The line that a print command prints for what its function returned:
/// the call, ` -> `, and the values, both written for debugging.
pub open spec fn print_text(c: RunCommandModel, actual: Seq<DataValue>) -> Seq<char> {
    invocation_debug_text(func_of(c), args_of(c)) + " -> "@ + list_debug_text(actual)
}

/// The text of the failure of a run command that got `actual`: the command
/// and the actual values, both written for debugging.
pub open spec fn failure_text(c: RunCommandModel, actual: Seq<DataValue>) -> Seq<char> {
    "Failed test: "@ + command_debug_text(c) + ", actual: "@ + list_debug_text(actual)
}

/// Whether what a function returned is what the command expects. A print
/// command expects nothing.
pub open spec fn matched(c: RunCommandModel, actual: Seq<DataValue>) -> bool {
    match c {
        RunCommandModel::Print { .. } => true,
        RunCommandModel::Run { comparison, expected, .. } => match comparison {
            Comparison::Equals => expected == actual,
            Comparison::NotEquals => expected != actual,
        },
    }
}

/// Whether `r` is what a run command gives when the invocation came back
/// with `out`: the failure of the invocation, a failure that names the
/// actual values where they are not what is expected, and success else.
pub open spec fn run_outcome(c: RunCommandModel, out: Result<Vec<DataValue>, String>, r: Result<(), String>) -> bool {
    match out {
        Err(e) => r matches Err(m) && m@ == e@,
        Ok(actual) => if matched(c, actual@) {
            r is Ok
        } else {
            r matches Err(m) && m@ == failure_text(c, actual@)
        },
    }
}

/// Whether two lists hold the same values.
pub fn same_values(a: &Vec<DataValue>, b: &Vec<DataValue>) -> (r: bool)
    ensures
        r == (a@ == b@),
{
    if a.len() != b.len() {
        return false;
    }
    let mut k: usize = 0;
    while k < a.len()
        invariant
            k <= a@.len(),
            a@.len() == b@.len(),
            a@.subrange(0, k as int) == b@.subrange(0, k as int),
        decreases a@.len() - k,
    {
        if a[k] != b[k] {
            return false;
        }
        proof {
            assert(a@.subrange(0, k + 1) =~= a@.subrange(0, k as int).push(a@[k as int]));
            assert(b@.subrange(0, k + 1) =~= b@.subrange(0, k as int).push(b@[k as int]));
        }
        k += 1;
    }
    proof {
        assert(a@ =~= a@.subrange(0, k as int));
        assert(b@ =~= b@.subrange(0, k as int));
    }
    true
}

/// The text of a value; see [`value_text`].
pub fn value_to_text(v: DataValue) -> (r: String)
    ensures
        r@ == value_text(v),
{
    match v {
        DataValue::B(true) => String::from_str("true"),
        DataValue::B(false) => String::from_str("false"),
        DataValue::I8(n) => decimal(n as i64),
        DataValue::I16(n) => decimal(n as i64),
        DataValue::I32(n) => decimal(n as i64),
        DataValue::I64(n) => decimal(n),
        DataValue::F32(b) => ieee32(b),
        DataValue::F64(b) => ieee64(b),
        DataValue::V128(b) => vector(b),
    }
}

/// The texts of the values of a list, with `, ` between them.
pub fn write_data_value_list(list: &Vec<DataValue>) -> (r: String)
    ensures
        r@ == list_text(list@, list@.len() as int),
{
    let mut out = String::new();
    let mut k: usize = 0;
    while k < list.len()
        invariant
            k <= list@.len(),
            out@ == list_text(list@, k as int),
        decreases list@.len() - k,
    {
        if k > 0 {
            out.append(", ");
        }
        let t = value_to_text(list[k]);
        out.append(t.as_str());
        proof {
            if k == 0 {
                assert(out@ =~= value_text(list@[0]));
            }
        }
        k += 1;
    }
    out
}

/// The first bytes of a vector in decimal; see [`bytes_debug_text`].
fn bytes_to_debug(v: u128) -> (r: String)
    ensures
        r@ == bytes_debug_text(v, 16),
{
    let mut out = String::new();
    let mut i: u32 = 0;
    while i < 16
        invariant
            i <= 16,
            out@ == bytes_debug_text(v, i as int),
        decreases 16 - i,
    {
        if i > 0 {
            out.append(", ");
        }
        let shift: u32 = 8 * i;
        let byte: u64 = #[verifier::truncate] (((v >> shift) & 0xff) as u64);
        out.append(unsigned_decimal(byte).as_str());
        proof {
            assert(byte == byte_of(v, i));
            if i == 0 {
                assert(out@ =~= unsigned_text(byte_of(v, 0)));
            }
        }
        i += 1;
    }
    out
}

/// The text of a value for debugging; see [`value_debug_text`].
pub fn value_to_debug(v: DataValue) -> (r: String)
    ensures
        r@ == value_debug_text(v),
{
    match v {
        DataValue::B(true) => String::from_str("B(true)"),
        DataValue::B(false) => String::from_str("B(false)"),
        DataValue::I8(n) => String::from_str("I8(").concat(decimal(n as i64).as_str()).concat(")"),
        DataValue::I16(n) => String::from_str("I16(").concat(decimal(n as i64).as_str()).concat(
            ")",
        ),
        DataValue::I32(n) => String::from_str("I32(").concat(decimal(n as i64).as_str()).concat(
            ")",
        ),
        DataValue::I64(n) => String::from_str("I64(").concat(decimal(n).as_str()).concat(")"),
        DataValue::F32(b) => String::from_str("F32(").concat(float32_debug(b).as_str()).concat(
            ")",
        ),
        DataValue::F64(b) => String::from_str("F64(").concat(float64_debug(b).as_str()).concat(
            ")",
        ),
        DataValue::V128(b) => String::from_str("V128([").concat(
            bytes_to_debug(b).as_str(),
        ).concat("])"),
    }
}

/// The text of a list of values for debugging; see [`list_debug_text`].
pub fn list_to_debug(list: &Vec<DataValue>) -> (r: String)
    ensures
        r@ == list_debug_text(list@),
{
    let mut out = String::from_str("[");
    let mut k: usize = 0;
    while k < list.len()
        invariant
            k <= list@.len(),
            out@ == "["@ + joined_debug_text(list@, k as int),
        decreases list@.len() - k,
    {
        if k > 0 {
            out.append(", ");
        }
        let t = value_to_debug(list[k]);
        out.append(t.as_str());
        proof {
            assert(out@ =~= "["@ + joined_debug_text(list@, k + 1));
        }
        k += 1;
    }
    out.append("]");
    out
}

impl Comparison {
    /// The text of the comparison for debugging: its name.
    pub fn to_debug(&self) -> (r: String)
        ensures
            r@ == comparison_debug_text(*self),
    {
        match self {
            Comparison::Equals => String::from_str("Equals"),
            Comparison::NotEquals => String::from_str("NotEquals"),
        }
    }

    /// The text of the comparison: `==` or `!=`.
    pub fn to_text(&self) -> (r: String)
        ensures
            r@ == comparison_text(*self),
    {
        match self {
            Comparison::Equals => String::from_str("=="),
            Comparison::NotEquals => String::from_str("!="),
        }
    }
}

impl Invocation {
    /// The call of `func` with `args`.
    pub fn new(func: &str, args: Vec<DataValue>) -> (r: Self)
        ensures
            r.func@ == func@,
            r.args == args,
    {
        Invocation { func: String::from_str(func), args }
    }

    /// The text of the call for debugging; see [`invocation_debug_text`].
    pub fn to_debug(&self) -> (r: String)
        ensures
            r@ == invocation_debug_text(self.func@, self.args@),
    {
        let mut out = String::from_str("Invocation { func: ");
        out.append(quoted(self.func.as_str()).as_str());
        out.append(", args: ");
        out.append(list_to_debug(&self.args).as_str());
        out.append(" }");
        out
    }

    /// The text of the call; see [`invocation_text`].
    pub fn to_text(&self) -> (r: String)
        ensures
            r@ == invocation_text(self.func@, self.args@),
    {
        let mut out = String::from_str("%");
        out.append(self.func.as_str());
        out.append("(");
        let list = write_data_value_list(&self.args);
        out.append(list.as_str());
        out.append(")");
        out
    }
}

/// Whether `s` begins with `prefix`.
fn starts_with(s: &str, prefix: &str) -> (r: bool)
    ensures
        r == spec_starts_with(s@, prefix@),
{
    let n = prefix.unicode_len();
    if n > s.unicode_len() {
        return false;
    }
    let mut k: usize = 0;
    while k < n
        invariant
            k <= n,
            n == prefix@.len(),
            n <= s@.len(),
            s@.subrange(0, k as int) == prefix@.subrange(0, k as int),
        decreases n - k,
    {
        if s.get_char(k) != prefix.get_char(k) {
            proof {
                assert(s@.subrange(0, n as int)[k as int] != prefix@[k as int]);
            }
            return false;
        }
        proof {
            assert(s@.subrange(0, k + 1) =~= s@.subrange(0, k as int).push(s@[k as int]));
            assert(prefix@.subrange(0, k + 1) =~= prefix@.subrange(0, k as int).push(
                prefix@[k as int],
            ));
        }
        k += 1;
    }
    proof {
        assert(prefix@.subrange(0, n as int) =~= prefix@);
    }
    true
}

impl RunCommand {
    /// The comment without its leading blanks and semicolons.
    pub fn trim_comment_chars(comment: &str) -> (r: &str)
        ensures
            r@ == spec_trim(comment@),
    {
        let n = comment.unicode_len();
        let mut k: usize = 0;
        let mut done = false;
        proof {
            assert(comment@.subrange(0, n as int) =~= comment@);
        }
        while k < n && !done
            invariant
                k <= n,
                n == comment@.len(),
                spec_trim(comment@) == spec_trim(comment@.subrange(k as int, n as int)),
                done ==> k < n && comment@[k as int] != ' ' && comment@[k as int] != ';',
            decreases n - k + (if done { 0int } else { 1int }),
        {
            let c = comment.get_char(k);
            if c != ' ' && c != ';' {
                done = true;
            } else {
                proof {
                    assert(comment@.subrange(k as int, n as int).drop_first()
                        =~= comment@.subrange(k + 1, n as int));
                }
                k += 1;
            }
        }
        proof {
            let rest = comment@.subrange(k as int, n as int);
            if done {
                assert(rest[0] == comment@[k as int]);
            }
            assert(spec_trim(rest) == rest);
        }
        comment.substring_char(k, n)
    }

    /// Whether a comment may hold a run command: behind its leading blanks
    /// and semicolons stands `run` or `print`.
    pub fn is_potential_run_command(comment: &str) -> (r: bool)
        ensures
            r == (spec_starts_with(spec_trim(comment@), "run"@) || spec_starts_with(
                spec_trim(comment@),
                "print"@,
            )),
    {
        let trimmed = Self::trim_comment_chars(comment);
        starts_with(trimmed, "run") || starts_with(trimmed, "print")
    }

    /// The call that the command makes.
    pub fn invocation(&self) -> (r: &Invocation)
        ensures
            r.func@ == func_of(self@),
            r.args@ == args_of(self@),
    {
        match self {
            RunCommand::Print(i) => i,
            RunCommand::Run(i, _, _) => i,
        }
    }

    /// The text of the command, as it stands in a test file; see
    /// [`command_text`].
    pub fn to_text(&self) -> (r: String)
        ensures
            r@ == command_text(self@),
    {
        match self {
            RunCommand::Print(invocation) => {
                let mut out = String::from_str("print: ");
                out.append(invocation.to_text().as_str());
                out
            },
            RunCommand::Run(invocation, comparison, expected) => {
                let mut out = String::from_str("run: ");
                out.append(invocation.to_text().as_str());
                out.append(" ");
                out.append(comparison.to_text().as_str());
                out.append(" ");
                if expected.len() == 1 {
                    out.append(value_to_text(expected[0]).as_str());
                } else {
                    out.append("[");
                    out.append(write_data_value_list(expected).as_str());
                    out.append("]");
                }
                out
            },
        }
    }

    /// The text of the command for debugging; see [`command_debug_text`].
    pub fn to_debug(&self) -> (r: String)
        ensures
            r@ == command_debug_text(self@),
    {
        match self {
            RunCommand::Print(invocation) => {
                let mut out = String::from_str("Print(");
                out.append(invocation.to_debug().as_str());
                out.append(")");
                out
            },
            RunCommand::Run(invocation, comparison, expected) => {
                let mut out = String::from_str("Run(");
                out.append(invocation.to_debug().as_str());
                out.append(", ");
                out.append(comparison.to_debug().as_str());
                out.append(", ");
                out.append(list_to_debug(expected).as_str());
                out.append(")");
                out
            },
        }
    }

    /// The line that a print command prints for what its function
    /// returned; see [`print_text`].
    pub fn print_line(&self, actual: &Vec<DataValue>) -> (r: String)
        ensures
            r@ == print_text(self@, actual@),
    {
        let mut out = self.invocation().to_debug();
        out.append(" -> ");
        out.append(list_to_debug(actual).as_str());
        out
    }

    /// Checks what the function of the command returned: a print command
    /// takes anything, a run command fails with a text that names the
    /// actual values where they are not what it expects.
    pub fn check(&self, actual: &Vec<DataValue>) -> (r: Result<(), String>)
        ensures
            matched(self@, actual@) ==> r is Ok,
            !matched(self@, actual@) ==> (r matches Err(m) && m@ == failure_text(self@, actual@)),
    {
        let ok = match self {
            RunCommand::Print(_) => true,
            RunCommand::Run(_, compare, expected) => match compare {
                Comparison::Equals => same_values(expected, actual),
                Comparison::NotEquals => !same_values(expected, actual),
            },
        };
        if ok {
            Ok(())
        } else {
            let mut out = String::from_str("Failed test: ");
            out.append(self.to_debug().as_str());
            out.append(", actual: ");
            out.append(list_to_debug(actual).as_str());
            Err(out)
        }
    }

    /// Runs the command: invokes the function through `invoke_fn` and
    /// checks what it returned; see [`run_outcome`]. Printing is left to
    /// the caller, see [`print_line`](Self::print_line).
    pub fn run<F>(&self, invoke_fn: F) -> (r: Result<(), String>) where
        F: FnOnce(&str, &[DataValue]) -> Result<Vec<DataValue>, String>,

        requires
            forall|f: &str, a: &[DataValue]|
                f@ == func_of(self@) && a@ == args_of(self@) ==> call_requires(
                    invoke_fn,
                    (f, a),
                ),
        ensures
            exists|f: &str, a: &[DataValue], out: Result<Vec<DataValue>, String>|
                f@ == func_of(self@) && a@ == args_of(self@) && call_ensures(
                    invoke_fn,
                    (f, a),
                    out,
                ) && run_outcome(self@, out, r),
    {
        let invoke = self.invocation();
        let f = invoke.func.as_str();
        let a = invoke.args.as_slice();
        let out = invoke_fn(f, a);
        let r = match &out {
            Err(e) => Err(e.clone()),
            Ok(actual) => self.check(actual),
        };
        proof {
            assert(call_ensures(invoke_fn, (f, a), out) && run_outcome(self@, out, r));
        }
        r
    }
}

} // verus!
