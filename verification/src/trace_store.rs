//! The compiled traces, by trace id.
use crate::data_value::DataValue;
use crate::trap::{TraceError, TraceErrorModel};
use std::collections::HashMap;
use vstd::prelude::*;

verus! {

/// A handle to a region of executable code that a native runner keeps: the
/// key under which the runner holds the region, and the region's length in
/// bytes.
#[derive(Clone, Copy, PartialEq, Eq, Structural, Debug, Hash)]
pub struct CompiledCode {
    pub key: u64,
    pub size: u64,
}

impl CompiledCode {
    pub fn new(key: u64, size: u64) -> (r: Self)
        ensures
            r == (CompiledCode { key, size }),
    {
        CompiledCode { key, size }
    }
}

/// The compiled traces, by trace id. The store only grows.
pub struct TraceStore(HashMap<i64, CompiledCode>);

impl View for TraceStore {
    type V = Map<i64, CompiledCode>;

    closed spec fn view(&self) -> Map<i64, CompiledCode> {
        self.0@
    }
}

impl TraceStore {
    /// The store without traces.
    pub fn new() -> (r: Self)
        ensures
            r@ == Map::<i64, CompiledCode>::empty(),
    {
        TraceStore(HashMap::new())
    }

    /// Whether a trace was compiled for `id`.
    pub fn contains(&self, id: i64) -> (r: bool)
        ensures
            r == self@.contains_key(id),
    {
        broadcast use vstd::std_specs::hash::group_hash_axioms;

        self.0.contains_key(&id)
    }

    /// Adds the code compiled for `id`, in place of what was there for it.
    pub fn insert(&mut self, id: i64, code: CompiledCode)
        ensures
            final(self)@ == old(self)@.insert(id, code),
    {
        broadcast use vstd::std_specs::hash::group_hash_axioms;

        self.0.insert(id, code);
    }

    /// The code compiled for `id`.
    pub fn get(&self, id: i64) -> (r: Option<CompiledCode>)
        ensures
            r == if self@.contains_key(id) {
                Some(self@[id])
            } else {
                None
            },
    {
        broadcast use vstd::std_specs::hash::group_hash_axioms;

        match self.0.get(&id) {
            Some(c) => Some(*c),
            None => None,
        }
    }

    /// What running the trace `id` gave, from what the native runner
    /// reported for its code: the value, or the runner's message as an
    /// `ExecutionFailed`.
    pub fn execute(&self, id: i64, outcome: Result<DataValue, String>) -> (r: Result<
        DataValue,
        TraceError,
    >)
        requires
            self@.contains_key(id),
        ensures
            match outcome {
                Ok(v) => r == Ok::<DataValue, TraceError>(v),
                Err(m) => r matches Err(e) && e@ == TraceErrorModel::ExecutionFailed(m@),
            },
    {
        match outcome {
            Ok(v) => Ok(v),
            Err(m) => Err(TraceError::ExecutionFailed(m)),
        }
    }
}

} // verus!
