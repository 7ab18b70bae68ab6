//! The batch action executor's decisions: the fixed action set, the argument
//! list per invocation, and the per-device outcome report whose key contract
//! is failure isolation — one device's failure never aborts the batch.

use vstd::prelude::*;
use vstd::string::StringExecFns;

use crate::device::{Device, DeviceView};

verus! {

/// The closed set of action verbs the device-control tool is driven with.
pub open spec fn spec_action_tokens() -> Seq<Seq<char>> {
    seq![
        "connect"@,
        "disconnect"@,
        "pair"@,
        "trust"@,
        "untrust"@,
        "block"@,
        "unblock"@,
        "remove"@,
    ]
}

/// The actions offered at the action stage, in their fixed order.
pub fn action_tokens() -> (r: Vec<String>)
    ensures
        r.deep_view() == spec_action_tokens(),
{
    let mut r: Vec<String> = Vec::new();
    r.push(String::from_str("connect"));
    r.push(String::from_str("disconnect"));
    r.push(String::from_str("pair"));
    r.push(String::from_str("trust"));
    r.push(String::from_str("untrust"));
    r.push(String::from_str("block"));
    r.push(String::from_str("unblock"));
    r.push(String::from_str("remove"));
    proof {
        assert(r.deep_view() =~= spec_action_tokens());
    }
    r
}

/// The argument list for one device-control invocation: the action verb,
/// then the target device's hardware address.
pub fn action_args(action: &str, device: &Device) -> (r: Vec<String>)
    ensures
        r.deep_view() == seq![action@, device@.mac_address],
{
    let mut r: Vec<String> = Vec::new();
    r.push(action.to_owned());
    r.push(device.mac_address.clone());
    proof {
        assert(r.deep_view() =~= seq![action@, device@.mac_address]);
    }
    r
}

/// The failure line for one device: the action attempted and the alias it
/// failed on.
pub open spec fn spec_failure_line(action: Seq<char>, alias: Seq<char>) -> Seq<char> {
    "Failed to "@ + action + " "@ + alias
}

/// Builds the failure line for one device.
pub fn failure_line(action: &str, alias: &str) -> (r: String)
    ensures
        r@ == spec_failure_line(action@, alias@),
{
    let mut r = String::from_str("Failed to ");
    r.append(action);
    r.append(" ");
    r.append(alias);
    proof {
        assert(r@ =~= spec_failure_line(action@, alias@));
    }
    r
}

/// The report of one batch pass: one line per device, in selection order —
/// the tool's captured output where the invocation succeeded, the failure
/// line where it did not.
pub open spec fn spec_batch_report(
    action: Seq<char>,
    devs: Seq<DeviceView>,
    outs: Seq<Option<Seq<char>>>,
) -> Seq<Seq<char>> {
    Seq::new(
        devs.len(),
        |i: int|
            match outs[i] {
                Some(o) => o,
                None => spec_failure_line(action, devs[i].alias),
            },
    )
}

/// Builds the report for one batch pass over the selection, given each
/// invocation's outcome in selection order: captured output on success,
/// nothing on failure.
pub fn batch_report(action: &str, selection: &Vec<Device>, outcomes: &Vec<Option<String>>) -> (r:
    Vec<String>)
    requires
        outcomes@.len() == selection@.len(),
    ensures
        r.deep_view() == spec_batch_report(action@, selection.deep_view(), outcomes.deep_view()),
{
    let ghost model = spec_batch_report(action@, selection.deep_view(), outcomes.deep_view());
    let mut r: Vec<String> = Vec::new();
    let mut i: usize = 0;
    proof {
        assert(r.deep_view() =~= model.take(0));
    }
    while i < selection.len()
        invariant
            i <= selection@.len(),
            outcomes@.len() == selection@.len(),
            model == spec_batch_report(action@, selection.deep_view(), outcomes.deep_view()),
            r.deep_view() == model.take(i as int),
        decreases selection@.len() - i,
    {
        let line = match &outcomes[i] {
            Some(o) => {
                let line = o.clone();
                proof {
                    assert(outcomes.deep_view()[i as int] == Some(o@));
                    assert(model[i as int] == line@);
                }
                line
            },
            None => {
                let line = failure_line(action, selection[i].alias.as_str());
                proof {
                    assert(outcomes.deep_view()[i as int] is None);
                    assert(selection.deep_view()[i as int] == selection@[i as int]@);
                    assert(model[i as int] == line@);
                }
                line
            },
        };
        let ghost prev_v = r@;
        let ghost prev_dv = r.deep_view();
        r.push(line);
        proof {
            assert(model[i as int] == line@);
            assert(model.len() == selection@.len());
            assert(prev_dv.len() == prev_v.len());
            assert(prev_dv.len() == i as int);
            assert(r@ == prev_v.push(line));
            assert(r@.len() == i as int + 1);
            assert forall|k: int| 0 <= k <= i as int implies r.deep_view()[k] == model.take(
                i as int + 1,
            )[k] by {
                assert(r.deep_view()[k] == r@[k].deep_view());
                if k < i as int {
                    assert(r@[k] == prev_v[k]);
                    assert(prev_dv[k] == prev_v[k].deep_view());
                    assert(prev_dv[k] == model.take(i as int)[k]);
                } else {
                    assert(r@[k] == line);
                }
            }
            assert(r.deep_view() =~= model.take(i as int + 1));
        }
        i = i + 1;
    }
    proof {
        assert(model.take(selection@.len() as int) =~= model);
    }
    r
}

/// How many invocations of a pass failed.
pub open spec fn spec_failure_count(outs: Seq<Option<Seq<char>>>) -> nat
    decreases outs.len(),
{
    if outs.len() == 0 {
        0
    } else {
        (spec_failure_count(outs.drop_last()) + if outs.last() is None {
            1nat
        } else {
            0nat
        }) as nat
    }
}

/// How many invocations of a pass succeeded.
pub open spec fn spec_success_count(outs: Seq<Option<Seq<char>>>) -> nat
    decreases outs.len(),
{
    if outs.len() == 0 {
        0
    } else {
        (spec_success_count(outs.drop_last()) + if outs.last() is Some {
            1nat
        } else {
            0nat
        }) as nat
    }
}

/// Batch isolation: a pass over N devices reports an outcome for every one
/// of the N, in selection order — each failed invocation yields exactly that
/// device's failure line, each successful one its own captured output, and
/// failures and successes partition the batch.
pub proof fn lemma_batch_isolation(
    action: Seq<char>,
    devs: Seq<DeviceView>,
    outs: Seq<Option<Seq<char>>>,
)
    requires
        outs.len() == devs.len(),
    ensures
        spec_batch_report(action, devs, outs).len() == devs.len(),
        forall|i: int|
            0 <= i < devs.len() && outs[i] is None ==> spec_batch_report(action, devs, outs)[i]
                == spec_failure_line(action, devs[i].alias),
        forall|i: int|
            0 <= i < devs.len() && outs[i] is Some ==> spec_batch_report(action, devs, outs)[i]
                == outs[i]->Some_0,
        spec_failure_count(outs) + spec_success_count(outs) == outs.len(),
{
    lemma_outcome_partition(outs);
}

proof fn lemma_outcome_partition(outs: Seq<Option<Seq<char>>>)
    ensures
        spec_failure_count(outs) + spec_success_count(outs) == outs.len(),
    decreases outs.len(),
{
    if outs.len() > 0 {
        lemma_outcome_partition(outs.drop_last());
    }
}

} // verus!
