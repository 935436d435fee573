//! System calls: handlers registered under numeric ids.

use std::collections::HashMap;

use vstd::prelude::*;

verus! {

broadcast use vstd::std_specs::hash::group_hash_axioms;

/// Why a system call failed.
#[derive(Debug)]
pub enum SyscallError {
    NotFound(u32),
    ExecutionError(String),
    InvalidInput(String),
}

/// The handlers of the system calls, by id.
pub struct SyscallHandler<F> {
    handlers: HashMap<u32, F>,
}

/// Every handler accepts every input.
pub open spec fn accepts_all<F: Fn(Vec<u8>) -> Vec<u8>>(handlers: Map<u32, F>) -> bool {
    forall|id: u32, input: Vec<u8>|
        handlers.contains_key(id) ==> #[trigger] call_requires(handlers[id], (input,))
}

impl<F: Fn(Vec<u8>) -> Vec<u8>> SyscallHandler<F> {
    /// The registered handlers.
    pub closed spec fn handlers(&self) -> Map<u32, F> {
        self.handlers@
    }

    /// No handler registered.
    pub fn new() -> (h: Self)
        ensures
            h.handlers() == Map::<u32, F>::empty(),
    {
        SyscallHandler { handlers: HashMap::new() }
    }

    /// Registers `handler` under `id`, replacing any handler it had.
    pub fn register(&mut self, id: u32, handler: F)
        requires
            accepts_all(old(self).handlers()),
            forall|input: Vec<u8>| call_requires(handler, (input,)),
        ensures
            final(self).handlers() == old(self).handlers().insert(id, handler),
            accepts_all(final(self).handlers()),
    {
        self.handlers.insert(id, handler);
    }

    /// Runs the handler registered under `id` on `input`.
    pub fn handle(&self, id: u32, input: Vec<u8>) -> (r: Result<Vec<u8>, SyscallError>)
        requires
            accepts_all(self.handlers()),
        ensures
            match r {
                Ok(out) => self.handlers().contains_key(id) && call_ensures(
                    self.handlers()[id],
                    (input,),
                    out,
                ),
                Err(e) => !self.handlers().contains_key(id) && e == SyscallError::NotFound(id),
            },
    {
        match self.handlers.get(&id) {
            Some(handler) => Ok(handler(input)),
            None => Err(SyscallError::NotFound(id)),
        }
    }
}

/// A handler registered under an id answers the calls to that id, and the
/// other ids keep their handlers.
pub proof fn law_register_then_handle<F>(handlers: Map<u32, F>, id: u32, handler: F, other: u32)
    ensures
        handlers.insert(id, handler).contains_key(id),
        handlers.insert(id, handler)[id] == handler,
        other != id ==> (handlers.insert(id, handler).contains_key(other) == handlers.contains_key(
            other,
        )),
        other != id && handlers.contains_key(other) ==> handlers.insert(id, handler)[other]
            == handlers[other],
{
}

} // verus!
