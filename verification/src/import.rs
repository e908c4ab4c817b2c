//! Cross-node GPU buffer import, deduplicated per render node.

use vstd::prelude::*;
use crate::types::{NodeId, OutputId};

verus! {

/// The render node an output's frames are imported to, `None` when the
/// backend has no node for it (for instance, no hardware acceleration).
pub open spec fn node_for(nodes: Seq<Option<NodeId>>, output: OutputId) -> Option<NodeId> {
    if 0 <= output < nodes.len() {
        nodes[output as int]
    } else {
        None
    }
}

/// Whether some output in `visible` maps to render node `n`.
pub open spec fn node_is_visible(
    visible: Seq<OutputId>,
    nodes: Seq<Option<NodeId>>,
    n: NodeId,
) -> bool {
    exists|j: int| 0 <= j < visible.len() && node_for(nodes, #[trigger] visible[j]) == Some(n)
}

fn contains_node(v: &Vec<NodeId>, n: NodeId) -> (r: bool)
    ensures
        r == v@.contains(n),
{
    let mut i: usize = 0;
    while i < v.len()
        invariant
            i <= v.len(),
            forall|j: int| 0 <= j < i ==> v@[j] != n,
        decreases v.len() - i,
    {
        if v[i] == n {
            assert(v@[i as int] == n);
            return true;
        }
        i += 1;
    }
    false
}

/// The set of nodes to import a committed surface's buffer to: one entry
/// per distinct render node among the outputs the surface is visible on.
/// Outputs without a node are skipped silently; a node shared by several
/// visible outputs is imported to once, not once per output.
pub fn early_import_nodes(visible: &Vec<OutputId>, nodes: &Vec<Option<NodeId>>) -> (r: Vec<
    NodeId,
>)
    ensures
        r@.no_duplicates(),
        forall|n: NodeId| #[trigger] r@.contains(n) <==> node_is_visible(visible@, nodes@, n),
{
    let mut imported: Vec<NodeId> = Vec::new();
    let mut i: usize = 0;
    while i < visible.len()
        invariant
            i <= visible.len(),
            imported@.no_duplicates(),
            forall|n: NodeId| #[trigger]
                imported@.contains(n) <==> exists|j: int|
                    0 <= j < i && node_for(nodes@, #[trigger] visible@[j]) == Some(n),
        decreases visible.len() - i,
    {
        let output = visible[i];
        let target: Option<NodeId> = if output < nodes.len() {
            nodes[output]
        } else {
            None
        };
        proof {
            assert(target == node_for(nodes@, visible@[i as int]));
        }
        match target {
            Some(n) => {
                let ghost before = imported@;
                if !contains_node(&imported, n) {
                    imported.push(n);
                    proof {
                        assert forall|m: NodeId| #[trigger] imported@.contains(m) implies (
                        before.contains(m) || m == n) by {
                            let k = choose|k: int|
                                0 <= k < imported@.len() && imported@[k] == m;
                            if k < before.len() {
                                assert(before[k] == m);
                            }
                        }
                        assert forall|m: NodeId| before.contains(m) || m == n implies #[trigger]
                        imported@.contains(m) by {
                            if before.contains(m) {
                                let k = choose|k: int|
                                    0 <= k < before.len() && before[k] == m;
                                assert(imported@[k] == m);
                            } else {
                                assert(imported@[imported@.len() - 1] == n);
                            }
                        }
                    }
                } else {
                    proof {
                        assert(exists|j: int|
                            0 <= j < i && node_for(nodes@, #[trigger] visible@[j]) == Some(n));
                    }
                }
                proof {
                    assert forall|m: NodeId| #[trigger] imported@.contains(m) implies exists|j: int|
                        0 <= j < i + 1 && node_for(nodes@, #[trigger] visible@[j]) == Some(
                            m,
                        ) by {
                        if m == n {
                            assert(node_for(nodes@, visible@[i as int]) == Some(m));
                        }
                    }
                }
            },
            None => {},
        }
        i += 1;
    }
    imported
}

} // verus!
