//! The orchestrator's decisions over many sessions: connecting is all or
//! nothing, and the results of a command fanned out to every node are
//! gathered under the node they came from, whatever order they finish in.
//!
//! A session is held as an opaque handle `H` that the caller owns.
use crate::bridge::BridgeError;
use vstd::prelude::*;

verus! {

/// What the connect attempts gave, node by node.
pub type ConnectOutcome<H> = (String, Result<H, BridgeError>);

/// The established sessions among the outcomes, in order.
pub open spec fn established_of<H>(outcomes: Seq<ConnectOutcome<H>>) -> Seq<(String, H)>
    decreases outcomes.len(),
{
    if outcomes.len() == 0 {
        seq![]
    } else {
        let rest = established_of(outcomes.drop_first());
        match outcomes[0].1 {
            Ok(h) => seq![(outcomes[0].0, h)] + rest,
            Err(_) => rest,
        }
    }
}

/// The failed nodes among the outcomes, with their errors, in order.
pub open spec fn failures_of<H>(outcomes: Seq<ConnectOutcome<H>>) -> Seq<(String, BridgeError)>
    decreases outcomes.len(),
{
    if outcomes.len() == 0 {
        seq![]
    } else {
        let rest = failures_of(outcomes.drop_first());
        match outcomes[0].1 {
            Ok(_) => rest,
            Err(e) => seq![(outcomes[0].0, e)] + rest,
        }
    }
}

/// Whether a run goes on to execute commands after connecting.
pub enum ConnectDecision<H> {
    /// Every node connected: these sessions serve the run.
    Proceed(Vec<(String, H)>),
    /// Some node failed: report `failures`, close every session in `to_close`, stop the run.
    Abort { failures: Vec<(String, BridgeError)>, to_close: Vec<(String, H)> },
}

/// Decides the connect phase: the run proceeds only when every node connected;
/// otherwise every failure is reported and every established session is closed.
pub fn decide_connect<H>(outcomes: Vec<ConnectOutcome<H>>) -> (r: ConnectDecision<H>)
    ensures
        failures_of(outcomes@).len() == 0 ==> (r matches ConnectDecision::Proceed(v) && v@
            == established_of(outcomes@)),
        failures_of(outcomes@).len() > 0 ==> (r matches ConnectDecision::Abort { failures, to_close }
            && failures@ == failures_of(outcomes@) && to_close@ == established_of(outcomes@)),
{
    let ghost all = outcomes@;
    let mut rest = outcomes;
    let mut established: Vec<(String, H)> = Vec::new();
    let mut failures: Vec<(String, BridgeError)> = Vec::new();
    while rest.len() > 0
        invariant
            established_of(all) == established@ + established_of(rest@),
            failures_of(all) == failures@ + failures_of(rest@),
        decreases rest@.len(),
    {
        let ghost before = rest@;
        let (node, result) = rest.remove(0);
        assert(rest@ =~= before.drop_first());
        match result {
            Ok(h) => {
                let ghost e0 = established@;
                established.push((node, h));
                assert(established@ + established_of(rest@) =~= e0 + established_of(before));
                assert(failures@ + failures_of(rest@) =~= failures@ + failures_of(before));
            },
            Err(e) => {
                let ghost f0 = failures@;
                failures.push((node, e));
                assert(failures@ + failures_of(rest@) =~= f0 + failures_of(before));
                assert(established@ + established_of(rest@) =~= established@ + established_of(before));
            },
        }
    }
    assert(established@ + Seq::<(String, H)>::empty() =~= established@);
    assert(failures@ + Seq::<(String, BridgeError)>::empty() =~= failures@);
    if failures.len() == 0 {
        ConnectDecision::Proceed(established)
    } else {
        ConnectDecision::Abort { failures, to_close: established }
    }
}

/// A node whose connect attempt failed is reported, so the run aborts.
pub proof fn lemma_failed_node_reported<H>(outcomes: Seq<ConnectOutcome<H>>, k: int)
    requires
        0 <= k < outcomes.len(),
        outcomes[k].1 is Err,
    ensures
        failures_of(outcomes).len() > 0,
        failures_of(outcomes).contains((outcomes[k].0, outcomes[k].1->Err_0)),
    decreases outcomes.len(),
{
    let rest = outcomes.drop_first();
    if k == 0 {
        let f = failures_of(outcomes);
        assert(f[0] == (outcomes[0].0, outcomes[0].1->Err_0));
    } else {
        assert(rest[k - 1] == outcomes[k]);
        lemma_failed_node_reported(rest, k - 1);
        let fr = failures_of(rest);
        let i = choose|i: int| 0 <= i < fr.len() && fr[i] == (outcomes[k].0, outcomes[k].1->Err_0);
        match outcomes[0].1 {
            Ok(_) => {},
            Err(e) => {
                let f = failures_of(outcomes);
                assert(f[i + 1] == fr[i]);
            },
        }
    }
}

/// A node whose connect attempt succeeded has its session among those to close
/// (on an abort) or to use (when the run proceeds).
pub proof fn lemma_established_node_kept<H>(outcomes: Seq<ConnectOutcome<H>>, k: int)
    requires
        0 <= k < outcomes.len(),
        outcomes[k].1 is Ok,
    ensures
        established_of(outcomes).contains((outcomes[k].0, outcomes[k].1->Ok_0)),
    decreases outcomes.len(),
{
    let rest = outcomes.drop_first();
    if k == 0 {
        let s = established_of(outcomes);
        assert(s[0] == (outcomes[0].0, outcomes[0].1->Ok_0));
    } else {
        assert(rest[k - 1] == outcomes[k]);
        lemma_established_node_kept(rest, k - 1);
        let sr = established_of(rest);
        let i = choose|i: int| 0 <= i < sr.len() && sr[i] == (outcomes[k].0, outcomes[k].1->Ok_0);
        match outcomes[0].1 {
            Ok(h) => {
                let s = established_of(outcomes);
                assert(s[i + 1] == sr[i]);
            },
            Err(_) => {},
        }
    }
}

/// The result of a command on one node.
pub type NodeResult = Result<String, BridgeError>;

/// The slots after the result for node `index` has come in.
pub open spec fn recorded(slots: Seq<Option<NodeResult>>, index: int, result: NodeResult) -> Seq<
    Option<NodeResult>,
> {
    slots.update(index, Some(result))
}

/// One command fanned out to every node: a slot per node, filled as the
/// node's result comes in, in whatever order that happens.
pub struct ExecRound {
    nodes: Vec<String>,
    slots: Vec<Option<NodeResult>>,
}

impl ExecRound {
    /// The nodes, in order.
    pub closed spec fn nodes_of(&self) -> Seq<String> {
        self.nodes@
    }

    /// The results that have come in, by node position.
    pub closed spec fn slots_of(&self) -> Seq<Option<NodeResult>> {
        self.slots@
    }

    /// A round over these nodes with no result in yet.
    pub fn new(nodes: Vec<String>) -> (r: Self)
        ensures
            r.nodes_of() == nodes@,
            r.slots_of().len() == nodes@.len(),
            forall|i: int| 0 <= i < nodes@.len() ==> (#[trigger] r.slots_of()[i]) is None,
    {
        let n = nodes.len();
        let mut slots: Vec<Option<NodeResult>> = Vec::new();
        let mut i: usize = 0;
        while i < n
            invariant
                i <= n,
                slots@.len() == i,
                forall|j: int| 0 <= j < i ==> (#[trigger] slots@[j]) is None,
            decreases n - i,
        {
            slots.push(None);
            i = i + 1;
        }
        ExecRound { nodes, slots }
    }

    /// Number of nodes.
    pub fn len(&self) -> (r: usize)
        ensures
            r == self.nodes_of().len(),
    {
        self.nodes.len()
    }

    /// Takes the result for the node at `index`. It is kept only when that
    /// node has no result yet; a second result for a node is refused.
    pub fn record(&mut self, index: usize, result: NodeResult) -> (r: bool)
        requires
            old(self).slots_of().len() == old(self).nodes_of().len(),
        ensures
            final(self).nodes_of() == old(self).nodes_of(),
            r == (index < old(self).slots_of().len() && old(self).slots_of()[index as int] is None),
            r ==> final(self).slots_of() == recorded(old(self).slots_of(), index as int, result),
            !r ==> final(self).slots_of() == old(self).slots_of(),
    {
        if index < self.slots.len() && self.slots[index].is_none() {
            self.slots.set(index, Some(result));
            true
        } else {
            false
        }
    }

    /// Whether every node's result has come in.
    pub fn is_complete(&self) -> (r: bool)
        ensures
            r == forall|i: int| 0 <= i < self.slots_of().len() ==> (#[trigger] self.slots_of()[i]) is Some,
    {
        let mut i: usize = 0;
        while i < self.slots.len()
            invariant
                i <= self.slots@.len(),
                forall|j: int| 0 <= j < i ==> (#[trigger] self.slots@[j]) is Some,
            decreases self.slots@.len() - i,
        {
            if self.slots[i].is_none() {
                return false;
            }
            i = i + 1;
        }
        true
    }

    /// The report of a complete round: each node, in order, with its own result.
    pub fn into_report(self) -> (r: Vec<(String, NodeResult)>)
        requires
            self.slots_of().len() == self.nodes_of().len(),
            forall|i: int| 0 <= i < self.slots_of().len() ==> (#[trigger] self.slots_of()[i]) is Some,
        ensures
            r@.len() == self.nodes_of().len(),
            forall|i: int| 0 <= i < r@.len() ==> (#[trigger] r@[i]).0 == self.nodes_of()[i] && Some(r@[i].1)
                == self.slots_of()[i],
    {
        let ghost all_nodes = self.nodes@;
        let ghost all_slots = self.slots@;
        let mut nodes = self.nodes;
        let mut slots = self.slots;
        let mut report: Vec<(String, NodeResult)> = Vec::new();
        while nodes.len() > 0
            invariant
                nodes@.len() == slots@.len(),
                report@.len() + nodes@.len() == all_nodes.len(),
                nodes@ == all_nodes.subrange(report@.len() as int, all_nodes.len() as int),
                slots@ == all_slots.subrange(report@.len() as int, all_slots.len() as int),
                all_slots.len() == all_nodes.len(),
                forall|i: int| 0 <= i < all_slots.len() ==> (#[trigger] all_slots[i]) is Some,
                forall|i: int| 0 <= i < report@.len() ==> (#[trigger] report@[i]).0 == all_nodes[i] && Some(
                    report@[i].1,
                ) == all_slots[i],
            decreases nodes@.len(),
        {
            let k = report.len();
            let node = nodes.remove(0);
            let slot = slots.remove(0);
            assert(slot == all_slots[k as int]);
            let result = match slot {
                Some(res) => res,
                None => Err(BridgeError::ChannelUnavailable),
            };
            report.push((node, result));
            assert(nodes@ =~= all_nodes.subrange(report@.len() as int, all_nodes.len() as int));
            assert(slots@ =~= all_slots.subrange(report@.len() as int, all_slots.len() as int));
        }
        report
    }
}

/// Results that come in for two different nodes, in either order, leave the
/// same slots: no result is ever filed under another node.
pub proof fn lemma_record_order(
    slots: Seq<Option<NodeResult>>,
    i: int,
    ri: NodeResult,
    j: int,
    rj: NodeResult,
)
    requires
        0 <= i < slots.len(),
        0 <= j < slots.len(),
        i != j,
    ensures
        recorded(recorded(slots, i, ri), j, rj) == recorded(recorded(slots, j, rj), i, ri),
        recorded(recorded(slots, i, ri), j, rj)[i] == Some(ri),
        recorded(recorded(slots, i, ri), j, rj)[j] == Some(rj),
{
    assert(recorded(recorded(slots, i, ri), j, rj) =~= recorded(recorded(slots, j, rj), i, ri));
}

} // verus!
