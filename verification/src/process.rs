//! Processes.

use vstd::prelude::*;

use crate::arch::x86_64::process::ArchProcess;

verus! {

/// The number of a process.
#[derive(Debug, Clone, Copy, PartialEq, Eq, Structural)]
pub struct ProcessId(pub usize);

impl ProcessId {
    /// The id with the number `pid`.
    pub fn new(pid: usize) -> (r: Self)
        ensures
            r.0 == pid,
    {
        Self(pid)
    }
}

/// Hands out the numbers of processes from zero on, each once.
#[derive(Debug)]
pub struct ProcessIds {
    next: usize,
}

impl ProcessIds {
    /// The number that is handed out next.
    pub closed spec fn view(&self) -> usize {
        self.next
    }

    /// A source that has handed out no number.
    pub fn new() -> (r: Self)
        ensures
            r@ == 0,
    {
        Self { next: 0 }
    }

    /// The next number; after the largest number the numbers start at zero
    /// again.
    pub fn allocate(&mut self) -> (r: ProcessId)
        ensures
            r.0 == old(self)@,
            final(self)@ == (if old(self)@ == usize::MAX {
                0
            } else {
                old(self)@ + 1
            }),
    {
        let pid = self.next;
        self.next = if pid == usize::MAX {
            0
        } else {
            pid + 1
        };
        ProcessId::new(pid)
    }
}

/// A process.
#[derive(Debug)]
pub struct Process {
    pid: ProcessId,
    tid: ProcessId,
    arch: ArchProcess,
}

impl Process {
    /// The number of the process.
    pub closed spec fn id(&self) -> ProcessId {
        self.pid
    }

    /// The number of the thread.
    pub closed spec fn thread(&self) -> ProcessId {
        self.tid
    }

    /// What the architecture keeps of the process.
    pub closed spec fn arch(&self) -> &ArchProcess {
        &self.arch
    }

    /// The idle process: a kernel process that gets the next number.
    pub fn new_idle(ids: &mut ProcessIds, arch: ArchProcess) -> (r: Self)
        ensures
            r.id().0 == old(ids)@,
            r.thread() == r.id(),
            r.arch() == &arch,
            final(ids)@ == (if old(ids)@ == usize::MAX {
                0
            } else {
                old(ids)@ + 1
            }),
    {
        Self::new_kernel(ids, arch)
    }

    /// A kernel process: it gets the next number, which is the number of its
    /// only thread too.
    pub fn new_kernel(ids: &mut ProcessIds, arch: ArchProcess) -> (r: Self)
        ensures
            r.id().0 == old(ids)@,
            r.thread() == r.id(),
            r.arch() == &arch,
            final(ids)@ == (if old(ids)@ == usize::MAX {
                0
            } else {
                old(ids)@ + 1
            }),
    {
        let pid = ids.allocate();
        Process { pid, tid: pid, arch }
    }

    /// What the architecture keeps of the process.
    pub fn arch_process(&self) -> (r: &ArchProcess)
        ensures
            r == self.arch(),
    {
        &self.arch
    }
}

} // verus!
