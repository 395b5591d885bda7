//! What a function must be like to be compiled and run on the host. The
//! compiling and the running themselves are the work of a native runner
//! outside this library.
use crate::ir::function::{CallConv, Function};
use crate::ir::types::Type;
use vstd::prelude::*;

verus! {

pub open spec fn calling_convention_text() -> Seq<char> {
    "Functions only run on the host's default calling convention; remove the specified calling convention in the function signature to use the host's default."@
}

pub open spec fn signature_text() -> Seq<char> {
    "Functions must have a signature like: () -> boolean"@
}

/// A function together with the calling convention of the host that is to
/// run it.
pub struct FunctionRunner {
    function: Function,
    host_call_conv: CallConv,
}

impl FunctionRunner {
    pub closed spec fn spec_function(&self) -> Function {
        self.function
    }

    pub closed spec fn spec_host_call_conv(&self) -> CallConv {
        self.host_call_conv
    }

    /// Whether the function takes nothing and returns one boolean.
    pub open spec fn returns_one_boolean(&self) -> bool {
        let s = self.spec_function()@.signature;
        s.params.len() == 0 && s.returns.len() == 1 && s.returns[0].spec_is_bool()
    }

    /// A runner for `function` on a host with the default calling
    /// convention `host_call_conv`.
    pub fn new(function: Function, host_call_conv: CallConv) -> (r: Self)
        ensures
            r.spec_function() == function,
            r.spec_host_call_conv() == host_call_conv,
    {
        FunctionRunner { function, host_call_conv }
    }

    /// The function.
    pub fn function(&self) -> (r: &Function)
        ensures
            *r == self.spec_function(),
    {
        &self.function
    }

    /// Whether the function can be compiled for the host: it must be called
    /// by the host's default calling convention.
    pub fn check_compilable(&self) -> (r: Result<(), String>)
        ensures
            self.spec_function()@.signature.call_conv == self.spec_host_call_conv() ==> r is Ok,
            self.spec_function()@.signature.call_conv != self.spec_host_call_conv() ==> (
            r matches Err(m) && m@ == calling_convention_text()),
    {
        if self.function.signature.call_conv != self.host_call_conv {
            Err(
                String::from_str(
                    "Functions only run on the host's default calling convention; remove the specified calling convention in the function signature to use the host's default.",
                ),
            )
        } else {
            Ok(())
        }
    }

    /// Whether the function can be run as a test: it must take nothing and
    /// return one boolean.
    pub fn check_runnable(&self) -> (r: Result<(), String>)
        ensures
            self.returns_one_boolean() ==> r is Ok,
            !self.returns_one_boolean() ==> (r matches Err(m) && m@ == signature_text()),
    {
        let s = &self.function.signature;
        if s.params.len() == 0 && s.returns.len() == 1 && s.returns[0].is_bool() {
            Ok(())
        } else {
            Err(String::from_str("Functions must have a signature like: () -> boolean"))
        }
    }

    /// What a run of the function as a test comes to: success where it
    /// returned true, else a failure that names the function.
    pub fn report(&self, returned: bool) -> (r: Result<(), String>)
        ensures
            returned ==> r is Ok,
            !returned ==> (r matches Err(m) && m@ == "Failed: "@ + self.spec_function()@.name),
    {
        if returned {
            Ok(())
        } else {
            Err(String::from_str("Failed: ").concat(self.function.name.as_str()))
        }
    }

    /// Whether a native runner can call compiled code with `n` arguments:
    /// with none or with one.
    pub fn supports_arity(n: usize) -> (r: bool)
        ensures
            r == (n <= 1),
    {
        n <= 1
    }
}

} // verus!
