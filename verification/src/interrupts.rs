//! The interrupt descriptor table and its life: built once, loaded, and never
//! rebuilt. Only the breakpoint vector has a handler.

use vstd::prelude::*;

verus! {

/// Vectors in the table.
pub const VECTOR_COUNT: usize = 256;

/// The vector of the breakpoint trap.
pub const BREAKPOINT_VECTOR: usize = 3;

/// The handlers that a vector can be bound to.
#[derive(Clone, Copy, Debug, PartialEq, Eq)]
pub enum Handler {
    Breakpoint,
}

/// Whether the table has been made the processor's active table.
#[derive(Clone, Copy, Debug, PartialEq, Eq)]
pub enum LoadState {
    Unloaded,
    Loaded,
}

/// What the processor pushes when it enters a handler.
#[derive(Clone, Copy, Debug, PartialEq, Eq)]
pub struct InterruptStackFrame {
    pub instruction_pointer: u64,
    pub code_segment: u64,
    pub cpu_flags: u64,
    pub stack_pointer: u64,
    pub stack_segment: u64,
}

/// What becomes of a trap.
#[derive(Clone, Copy, Debug, PartialEq, Eq)]
pub enum Dispatch {
    /// The handler reports the stack frame and execution resumes.
    Resume { handler: Handler, report: InterruptStackFrame },
    /// No handler is bound to the vector: the fault is fatal.
    Unhandled,
}

/// The one table of this kernel: the breakpoint vector is bound, every other
/// vector is left without a handler.
pub open spec fn descriptor_table() -> Seq<Option<Handler>> {
    Seq::new(
        256,
        |v: int| if v == 3 { Some(Handler::Breakpoint) } else { None::<Handler> },
    )
}

/// A table of 256 vectors, each with a handler or none.
pub struct InterruptDescriptorTable {
    entries: Vec<Option<Handler>>,
}

impl InterruptDescriptorTable {
    /// The handler of each vector.
    pub closed spec fn view(self) -> Seq<Option<Handler>> {
        self.entries@
    }

    /// The table has one entry for each of the 256 vectors.
    pub open spec fn wf(self) -> bool {
        self@.len() == 256
    }

    /// A table in which no vector has a handler.
    pub fn new() -> (r: InterruptDescriptorTable)
        ensures
            r.wf(),
            r@ == Seq::new(256, |v: int| None::<Handler>),
    {
        let mut entries: Vec<Option<Handler>> = Vec::new();
        let mut i: usize = 0;
        while i < VECTOR_COUNT
            invariant
                i <= 256,
                entries@.len() == i,
                forall|k: int| 0 <= k < i ==> entries@[k] == None::<Handler>,
            decreases 256 - i,
        {
            entries.push(None);
            i = i + 1;
        }
        assert(entries@ =~= Seq::new(256, |v: int| None::<Handler>));
        InterruptDescriptorTable { entries }
    }

    /// Binds a vector to a handler, in place of what it was bound to.
    pub fn set_handler(&mut self, vector: usize, handler: Handler)
        requires
            vector < 256,
            old(self).wf(),
        ensures
            final(self).wf(),
            final(self)@ == old(self)@.update(vector as int, Some(handler)),
    {
        self.entries.set(vector, Some(handler));
    }

    /// The handler of a vector.
    pub fn handler(&self, vector: usize) -> (r: Option<Handler>)
        requires
            self.wf(),
        ensures
            r == if vector < 256 { self@[vector as int] } else { None::<Handler> },
    {
        if vector < VECTOR_COUNT {
            self.entries[vector]
        } else {
            None
        }
    }
}

/// The kernel's interrupt table and whether it is loaded. The table is built
/// when it is first asked for.
pub struct InterruptManager {
    table: Option<InterruptDescriptorTable>,
    state: LoadState,
}

impl InterruptManager {
    pub closed spec fn state(self) -> LoadState {
        self.state
    }

    /// The table, once it is built.
    pub closed spec fn table(self) -> Option<Seq<Option<Handler>>> {
        match self.table {
            Some(t) => Some(t@),
            None => None,
        }
    }

    /// A table that is built is the kernel's one table, and a table that is
    /// loaded is built.
    pub open spec fn wf(self) -> bool {
        &&& self.table() is Some ==> self.table() == Some(descriptor_table())
        &&& self.state() is Loaded ==> self.table() is Some
    }

    /// The table that the processor uses, if one is loaded.
    pub open spec fn active(self) -> Option<Seq<Option<Handler>>> {
        if self.state() is Loaded {
            self.table()
        } else {
            None
        }
    }

    /// A manager whose table is neither built nor loaded.
    pub fn new() -> (r: InterruptManager)
        ensures
            r.wf(),
            r.state() is Unloaded,
            r.table() is None,
    {
        InterruptManager { table: None, state: LoadState::Unloaded }
    }

    pub fn is_loaded(&self) -> (r: bool)
        ensures
            r == (self.state() is Loaded),
    {
        match self.state {
            LoadState::Loaded => true,
            LoadState::Unloaded => false,
        }
    }

    /// What becomes of a trap on `vector`: with the table loaded, the
    /// breakpoint trap is reported and execution resumes; every other trap
    /// has no handler.
    pub fn dispatch(&self, vector: usize, frame: InterruptStackFrame) -> (r: Dispatch)
        requires
            self.wf(),
        ensures
            r == if self.state() is Loaded && vector == 3 {
                Dispatch::Resume { handler: Handler::Breakpoint, report: frame }
            } else {
                Dispatch::Unhandled
            },
    {
        if !self.is_loaded() {
            return Dispatch::Unhandled;
        }
        let bound: Option<Handler> = match &self.table {
            Some(t) => t.handler(vector),
            None => None,
        };
        match bound {
            Some(handler) => Dispatch::Resume { handler, report: frame },
            None => Dispatch::Unhandled,
        }
    }
}

/// Builds the table if it is not built yet and marks it loaded. However
/// often it is called, and from whatever state, the active table is the same
/// one table; a table that was built before is kept as it is.
pub fn init_idt(manager: &mut InterruptManager)
    requires
        old(manager).wf(),
    ensures
        final(manager).wf(),
        final(manager).state() is Loaded,
        final(manager).table() == Some(descriptor_table()),
        final(manager).active() == Some(descriptor_table()),
{
    if manager.table.is_none() {
        let mut table = InterruptDescriptorTable::new();
        table.set_handler(BREAKPOINT_VECTOR, Handler::Breakpoint);
        assert(table@ =~= descriptor_table());
        manager.table = Some(table);
    }
    manager.state = LoadState::Loaded;
}

} // verus!
