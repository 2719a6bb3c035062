//! The capsule: a self-contained unit of GPU work.
use crate::dispatch::{is_dispatch_plan, last_offset, plan_dispatches, Dispatch};
use vstd::prelude::*;

verus! {

/// A compute program with everything it needs to run: the shader's source
/// and entry point, the input bytes, the size of the output, and the
/// geometry of the dispatch. The bytes mean what the shader takes them to
/// mean; nothing here looks into them.
#[derive(Debug, Clone)]
pub struct SerialisableProgram {
    pub in_data: Vec<u8>,
    pub out_data_nbytes: usize,
    pub program: String,
    pub entry_point: String,
    pub n_workgroups: usize,
    pub workgroup_size: usize,
}

impl SerialisableProgram {
    /// A capsule asks for some output, for at least one workgroup, and for
    /// at least one invocation in each.
    pub open spec fn well_formed(&self) -> bool {
        self.out_data_nbytes > 0 && self.workgroup_size >= 1 && self.n_workgroups >= 1
    }

    pub fn is_well_formed(&self) -> (ok: bool)
        ensures
            ok == self.well_formed(),
    {
        self.out_data_nbytes > 0 && self.workgroup_size >= 1 && self.n_workgroups >= 1
    }

    /// The dispatches in which a device that takes `max_per_dispatch`
    /// workgroups at a time runs this capsule; `None` for a capsule whose
    /// workgroups are empty.
    pub fn dispatches(&self, max_per_dispatch: u32) -> (plan: Option<Vec<Dispatch>>)
        requires
            self.n_workgroups > 0,
            max_per_dispatch > 0,
            last_offset(
                self.n_workgroups as nat,
                self.workgroup_size as nat,
                max_per_dispatch as nat,
            ) <= u32::MAX,
        ensures
            plan is None <==> self.workgroup_size == 0,
            plan matches Some(dispatches) ==> is_dispatch_plan(
                dispatches@,
                self.n_workgroups as nat,
                self.workgroup_size as nat,
                max_per_dispatch as nat,
            ),
    {
        plan_dispatches(self.n_workgroups, self.workgroup_size, max_per_dispatch)
    }
}

} // verus!
