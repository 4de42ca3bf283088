//! The state that system calls work on.

use vstd::prelude::*;

use crate::cpu::keyboard::{KeyV, Keyboard};
use crate::cpu::smp::{Smp, SmpV};
use crate::ipc::{ChanTable, ChanV};
use crate::mem::vmm::{MemV, Memory};
use crate::net::netd::{NetState, NetV};
use crate::sched::{Sched, SchedV};

verus! {

pub struct Kernel {
    pub sched: Sched,
    pub mem: Memory,
    pub smp: Smp,
    pub keys: Keyboard,
    pub chans: ChanTable,
    pub net: NetState,
}

pub struct KernelV {
    pub sched: SchedV,
    pub mem: MemV,
    pub smp: SmpV,
    pub keys: KeyV,
    pub chans: Seq<ChanV>,
    pub net: NetV,
}

impl Kernel {
    pub open spec fn view(&self) -> KernelV {
        KernelV {
            sched: self.sched@,
            mem: self.mem@,
            smp: self.smp@,
            keys: self.keys@,
            chans: self.chans@,
            net: self.net@,
        }
    }

    pub open spec fn wf(&self) -> bool {
        &&& self.sched.wf()
        &&& self.mem.wf()
        &&& self.smp.wf()
        &&& self.keys.wf()
        &&& self.chans.wf()
        &&& self.net.wf()
    }

    /// In order, with a task on `cpu`.
    pub open spec fn runs_on(&self, cpu: usize) -> bool {
        &&& self.wf()
        &&& crate::sched::runs_task(self.smp, cpu)
    }
}

impl KernelV {
    /// The slot of the task that runs on `cpu`.
    pub open spec fn slot(self, cpu: int) -> int {
        crate::sched::slot_on(self.smp.cpus, cpu)
    }
}

} // verus!
