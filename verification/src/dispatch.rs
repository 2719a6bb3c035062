//! Planning the dispatches of one compute program.
//!
//! A device accepts at most a fixed number of workgroups per dispatch. A
//! program that asks for more is run as a series of dispatches: as many full
//! ones as fit, then one for the remainder. Invocation ids restart at zero in
//! every dispatch, so each dispatch carries the global offset of its first
//! invocation, which the shader adds to the id it sees.
use crate::shader_bytes::{le_bytes, IntoShaderBytes};
use vstd::arithmetic::div_mod::lemma_fundamental_div_mod;
use vstd::prelude::*;

verus! {

/// One dispatch of `workgroups × 1 × 1` workgroups, whose first invocation has
/// the global index `offset`.
#[derive(Clone, Copy, Debug, PartialEq, Eq, Structural)]
pub struct Dispatch {
    pub offset: u32,
    pub workgroups: u32,
}

impl Dispatch {
    /// What the uniform buffer holds while this dispatch runs: the offset as
    /// four little-endian bytes.
    pub fn meta_bytes(&self) -> (bytes: Vec<u8>)
        ensures
            bytes@ == le_bytes(self.offset as nat, 4),
    {
        let mut metadata_var: Vec<u8> = vec![0u8; 4];
        self.offset.to_shader_bytes(metadata_var.as_mut_slice());
        assert(metadata_var@.take(4) =~= metadata_var@);
        metadata_var
    }
}

/// The number of dispatches that carry the device's maximum.
pub open spec fn full_dispatches(n_workgroups: nat, max_per_dispatch: nat) -> nat {
    n_workgroups / max_per_dispatch
}

/// The workgroups left over for a last, smaller dispatch.
pub open spec fn remainder_workgroups(n_workgroups: nat, max_per_dispatch: nat) -> nat {
    n_workgroups % max_per_dispatch
}

/// The number of dispatches in the plan.
pub open spec fn plan_len(n_workgroups: nat, max_per_dispatch: nat) -> nat {
    if remainder_workgroups(n_workgroups, max_per_dispatch) == 0 {
        full_dispatches(n_workgroups, max_per_dispatch)
    } else {
        full_dispatches(n_workgroups, max_per_dispatch) + 1
    }
}

/// The number of workgroups in dispatch `i` of the plan.
pub open spec fn planned_workgroups(n_workgroups: nat, max_per_dispatch: nat, i: int) -> nat {
    if i < full_dispatches(n_workgroups, max_per_dispatch) {
        max_per_dispatch
    } else {
        remainder_workgroups(n_workgroups, max_per_dispatch)
    }
}

/// The global index of the first invocation of dispatch `i`: every earlier
/// dispatch was a full one.
pub open spec fn planned_offset(workgroup_len: nat, max_per_dispatch: nat, i: int) -> int {
    i * (max_per_dispatch * workgroup_len)
}

/// The largest offset in the plan, that of its last dispatch.
pub open spec fn last_offset(n_workgroups: nat, workgroup_len: nat, max_per_dispatch: nat) -> int {
    planned_offset(workgroup_len, max_per_dispatch, plan_len(n_workgroups, max_per_dispatch) - 1)
}

/// Whether `plan` is the dispatch plan for `n_workgroups` workgroups of
/// `workgroup_len` invocations each, on a device that takes at most
/// `max_per_dispatch` workgroups per dispatch.
pub open spec fn is_dispatch_plan(
    plan: Seq<Dispatch>,
    n_workgroups: nat,
    workgroup_len: nat,
    max_per_dispatch: nat,
) -> bool {
    &&& plan.len() == plan_len(n_workgroups, max_per_dispatch)
    &&& forall|i: int|
        0 <= i < plan.len() ==> {
            &&& (#[trigger] plan[i]).workgroups == planned_workgroups(
                n_workgroups,
                max_per_dispatch,
                i,
            )
            &&& plan[i].offset == planned_offset(workgroup_len, max_per_dispatch, i)
        }
}

/// The workgroups of the first `count` dispatches of `plan`, added up.
pub open spec fn workgroups_in(plan: Seq<Dispatch>, count: nat) -> nat
    decreases count,
{
    if count == 0 {
        0
    } else {
        workgroups_in(plan, (count - 1) as nat) + plan[count - 1].workgroups as nat
    }
}

/// The first `count` dispatches of a plan, all of them full ones, hold `count`
/// times the device's maximum.
proof fn lemma_full_prefix(
    plan: Seq<Dispatch>,
    n_workgroups: nat,
    workgroup_len: nat,
    max_per_dispatch: nat,
    count: nat,
)
    requires
        max_per_dispatch > 0,
        is_dispatch_plan(plan, n_workgroups, workgroup_len, max_per_dispatch),
        count <= full_dispatches(n_workgroups, max_per_dispatch),
    ensures
        workgroups_in(plan, count) == count * max_per_dispatch,
    decreases count,
{
    if count > 0 {
        let before = (count - 1) as nat;
        lemma_full_prefix(plan, n_workgroups, workgroup_len, max_per_dispatch, before);
        assert(plan[before as int].workgroups == max_per_dispatch);
        assert(before * max_per_dispatch + max_per_dispatch == count * max_per_dispatch)
            by (nonlinear_arith)
            requires
                before + 1 == count,
        ;
    } else {
        assert(count * max_per_dispatch == 0) by (nonlinear_arith)
            requires
                count == 0,
        ;
    }
}

/// A dispatch plan runs every workgroup exactly once: no dispatch is empty or
/// over the device's limit, each starts where the one before it ended, and
/// together they hold `n_workgroups` workgroups.
pub proof fn lemma_plan_covers(
    plan: Seq<Dispatch>,
    n_workgroups: nat,
    workgroup_len: nat,
    max_per_dispatch: nat,
)
    requires
        max_per_dispatch > 0,
        is_dispatch_plan(plan, n_workgroups, workgroup_len, max_per_dispatch),
    ensures
        workgroups_in(plan, plan.len()) == n_workgroups,
        forall|i: int|
            0 <= i < plan.len() ==> 0 < (#[trigger] plan[i]).workgroups <= max_per_dispatch,
        forall|i: int|
            0 <= i < plan.len() ==> (#[trigger] plan[i]).offset == workgroups_in(plan, i as nat)
                * workgroup_len,
{
    let full = full_dispatches(n_workgroups, max_per_dispatch);
    let rest = remainder_workgroups(n_workgroups, max_per_dispatch);
    lemma_fundamental_div_mod(n_workgroups as int, max_per_dispatch as int);
    lemma_full_prefix(plan, n_workgroups, workgroup_len, max_per_dispatch, full);
    assert(full * max_per_dispatch == max_per_dispatch * full) by (nonlinear_arith);
    if rest != 0 {
        assert(plan[full as int].workgroups == rest);
        assert(workgroups_in(plan, full + 1) == workgroups_in(plan, full) + rest);
    }
    assert forall|i: int| 0 <= i < plan.len() implies (#[trigger] plan[i]).offset == workgroups_in(
        plan,
        i as nat,
    ) * workgroup_len by {
        lemma_full_prefix(plan, n_workgroups, workgroup_len, max_per_dispatch, i as nat);
        assert(i * (max_per_dispatch * workgroup_len) == (i * max_per_dispatch) * workgroup_len)
            by (nonlinear_arith);
    }
}

/// The offset of dispatch `i`, which is not behind the plan's last dispatch.
fn offset_of(i: usize, max: usize, workgroup_len: usize, Ghost(last): Ghost<int>) -> (offset: u32)
    requires
        0 <= i <= last,
        max <= u32::MAX,
        last * (max as int * workgroup_len as int) <= u32::MAX,
    ensures
        offset == planned_offset(workgroup_len as nat, max as nat, i as int),
{
    if i == 0 {
        assert(0 * (max as int * workgroup_len as int) == 0);
        return 0;
    }
    proof {
        let stride = max as int * workgroup_len as int;
        assert(0 <= stride <= last * stride && i * stride <= last * stride) by (nonlinear_arith)
            requires
                1 <= i <= last,
                stride == max as int * workgroup_len as int,
                0 <= max,
                0 <= workgroup_len,
        ;
    }
    let stride: u64 = (max as u64) * (workgroup_len as u64);
    let offset: u64 = (i as u64) * stride;
    offset as u32
}

/// Whether every offset of the plan fits the 32 bits in which it is handed to
/// the shader.
pub fn offsets_fit(n_workgroups: usize, workgroup_len: usize, max_per_dispatch: u32) -> (fit: bool)
    requires
        n_workgroups > 0,
        max_per_dispatch > 0,
    ensures
        fit == (last_offset(n_workgroups as nat, workgroup_len as nat, max_per_dispatch as nat)
            <= u32::MAX),
{
    let max: usize = max_per_dispatch as usize;
    let full: usize = n_workgroups / max;
    let rest: usize = n_workgroups % max;
    proof {
        lemma_fundamental_div_mod(n_workgroups as int, max as int);
        if full == 0 {
            assert(max as int * 0 == 0);
        }
    }
    let last: usize = if rest == 0 {
        full - 1
    } else {
        full
    };
    let ghost stride_spec: int = max as int * workgroup_len as int;
    if last == 0 || workgroup_len == 0 {
        assert(last * stride_spec == 0) by (nonlinear_arith)
            requires
                last == 0 || workgroup_len == 0,
                stride_spec == max as int * workgroup_len as int,
        ;
        return true;
    }
    assert(stride_spec < 0x1_0000_0000 * 0x1_0000_0000_0000_0000) by (nonlinear_arith)
        requires
            stride_spec == max as int * workgroup_len as int,
            0 <= max < 0x1_0000_0000,
            0 <= workgroup_len < 0x1_0000_0000_0000_0000,
    ;
    let stride: u128 = (max as u128) * (workgroup_len as u128);
    if stride > u32::MAX as u128 {
        assert(last * stride_spec > u32::MAX) by (nonlinear_arith)
            requires
                last >= 1,
                stride_spec > u32::MAX,
        ;
        return false;
    }
    assert(last * stride_spec < 0x1_0000_0000_0000_0000 * 0x1_0000_0000) by (nonlinear_arith)
        requires
            0 <= last < 0x1_0000_0000_0000_0000,
            0 <= stride_spec < 0x1_0000_0000,
    ;
    (last as u128) * stride <= u32::MAX as u128
}

/// Plans the dispatches of a program. A workgroup size of zero is refused
/// with `None`: workgroups must hold at least one invocation.
///
/// The program has at least one workgroup, the device takes at least one
/// workgroup per dispatch, and every offset fits the 32 bits in which it is
/// handed to the shader.
pub fn plan_dispatches(n_workgroups: usize, workgroup_len: usize, max_per_dispatch: u32) -> (plan:
    Option<Vec<Dispatch>>)
    requires
        n_workgroups > 0,
        max_per_dispatch > 0,
        last_offset(n_workgroups as nat, workgroup_len as nat, max_per_dispatch as nat)
            <= u32::MAX,
    ensures
        plan is None <==> workgroup_len == 0,
        plan matches Some(dispatches) ==> is_dispatch_plan(
            dispatches@,
            n_workgroups as nat,
            workgroup_len as nat,
            max_per_dispatch as nat,
        ),
{
    if workgroup_len == 0 {
        return None;
    }
    let max: usize = max_per_dispatch as usize;
    let full: usize = n_workgroups / max;
    let rest: usize = n_workgroups % max;
    let ghost stride: int = max as int * workgroup_len as int;
    let ghost last: int = plan_len(n_workgroups as nat, max as nat) - 1;
    proof {
        lemma_fundamental_div_mod(n_workgroups as int, max as int);
        assert(last >= 0) by {
            if full == 0 {
                assert(max as int * 0 == 0);
            }
        }
    }
    let mut dispatches: Vec<Dispatch> = Vec::new();
    let mut i: usize = 0;
    while i < full
        invariant
            i <= full,
            max == max_per_dispatch,
            full == full_dispatches(n_workgroups as nat, max as nat),
            rest == remainder_workgroups(n_workgroups as nat, max as nat),
            stride == max as int * workgroup_len as int,
            last == plan_len(n_workgroups as nat, max as nat) - 1,
            last * stride <= u32::MAX,
            dispatches@.len() == i,
            forall|k: int|
                0 <= k < i ==> {
                    &&& (#[trigger] dispatches@[k]).workgroups == max
                    &&& dispatches@[k].offset == planned_offset(
                        workgroup_len as nat,
                        max as nat,
                        k,
                    )
                },
        decreases full - i,
    {
        let offset = offset_of(i, max, workgroup_len, Ghost(last));
        dispatches.push(Dispatch { offset, workgroups: max_per_dispatch });
        i = i + 1;
    }
    if rest != 0 {
        let offset = offset_of(full, max, workgroup_len, Ghost(last));
        dispatches.push(Dispatch { offset, workgroups: rest as u32 });
    }
    Some(dispatches)
}

} // verus!
