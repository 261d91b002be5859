//! The library's laws: properties that relate several operations,
//! stated over the same views their contracts use and proved once for
//! all inputs.
use vstd::prelude::*;
use crate::record::VmRecord;
use crate::supervisor::{spec_stop_plan, SignalOutcome, StopDecision};

verus! {

/// Round trip through the registry: a record written under its id is
/// exactly what a lookup under that id then finds.
pub proof fn lemma_put_then_get(m: Map<Seq<char>, VmRecord>, v: VmRecord)
    ensures
        m.insert(v.id, v).contains_key(v.id),
        m.insert(v.id, v)[v.id] == v,
{
}

/// Round trip through the registry, second half: after a delete, a
/// lookup under the deleted id finds nothing.
pub proof fn lemma_delete_then_get(m: Map<Seq<char>, VmRecord>, k: Seq<char>)
    ensures
        !m.remove(k).contains_key(k),
{
}

/// Deleting an id that is not stored changes nothing, so repeating the
/// delete reports not-found again, without side effects.
pub proof fn lemma_delete_absent_id(m: Map<Seq<char>, VmRecord>, k: Seq<char>)
    requires
        !m.contains_key(k),
    ensures
        m.remove(k) == m,
{
    assert(m.remove(k) =~= m);
}

/// Stopping a process that has already exited succeeds silently: the
/// stop rule turns a no-such-process outcome into quiet success, never
/// an error, however often it is applied.
pub proof fn lemma_stop_exited_is_success()
    ensures
        spec_stop_plan(SignalOutcome::NoSuchProcess) == StopDecision::AlreadyExited,
{
}

/// Recovery preserves identity: rewriting a stored record with a new
/// pid keeps its id, name and SSH port, updates only the pid, leaves
/// every other record untouched, and neither adds nor removes an
/// entry.
pub proof fn lemma_recover_preserves_identity(
    m: Map<Seq<char>, VmRecord>,
    k: Seq<char>,
    v: VmRecord,
    new_pid: u32,
)
    requires
        m.contains_key(k),
        v.id == m[k].id,
        v.name == m[k].name,
        v.ssh_port == m[k].ssh_port,
        v.pid == new_pid,
    ensures
        m.insert(k, v).dom() == m.dom(),
        m.insert(k, v).len() == m.len(),
        m.insert(k, v)[k].id == m[k].id,
        m.insert(k, v)[k].name == m[k].name,
        m.insert(k, v)[k].ssh_port == m[k].ssh_port,
        m.insert(k, v)[k].pid == new_pid,
        forall|j: Seq<char>|
            #[trigger] m.contains_key(j) && j != k ==> m.insert(k, v)[j] == m[j],
{
    assert(m.insert(k, v).dom() =~= m.dom());
}

} // verus!
