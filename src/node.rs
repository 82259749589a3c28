use vstd::prelude::*;

verus! {

/// A game-relay server that hosts running matches.
#[derive(Debug, Clone, PartialEq, Eq)]
pub struct Node {
    pub id: i32,
    pub name: String,
    pub addr: String,
    pub country: String,
}

/// The nodes known at startup, with distinct ids.
#[derive(Debug)]
pub struct NodeRegistry {
    nodes: Vec<Node>,
}

/// Whether the node ids are distinct.
pub open spec fn ids_distinct(nodes: Seq<Node>) -> bool {
    forall|i: int, j: int|
        0 <= i < nodes.len() && 0 <= j < nodes.len() && i != j ==> #[trigger] nodes[i].id
            != #[trigger] nodes[j].id
}

impl NodeRegistry {
    pub closed spec fn nodes(&self) -> Seq<Node> {
        self.nodes@
    }

    pub open spec fn wf(&self) -> bool {
        ids_distinct(self.nodes())
    }

    /// A registry of `nodes`; `None` when two nodes share an id.
    pub fn new(nodes: Vec<Node>) -> (r: Option<NodeRegistry>)
        ensures
            r is Some <==> ids_distinct(nodes@),
            r matches Some(reg) ==> reg.nodes() == nodes@ && reg.wf(),
    {
        let mut i: usize = 0;
        while i < nodes.len()
            invariant
                i <= nodes.len(),
                forall|a: int, b: int|
                    0 <= a < i && 0 <= b < nodes@.len() && a != b ==> #[trigger] nodes@[a].id
                        != #[trigger] nodes@[b].id,
            decreases nodes.len() - i,
        {
            let mut j: usize = 0;
            while j < nodes.len()
                invariant
                    i < nodes.len(),
                    j <= nodes.len(),
                    forall|b: int| 0 <= b < j && b != i ==> nodes@[i as int].id != #[trigger] nodes@[b].id,
                decreases nodes.len() - j,
            {
                if j != i && nodes[j].id == nodes[i].id {
                    assert(nodes@[i as int].id == nodes@[j as int].id);
                    return None;
                }
                j = j + 1;
            }
            i = i + 1;
        }
        Some(NodeRegistry { nodes })
    }

    /// All nodes.
    pub fn list(&self) -> (r: &Vec<Node>)
        ensures
            r@ == self.nodes(),
    {
        &self.nodes
    }

    /// The node with id `id`, if known.
    pub fn get(&self, id: i32) -> (r: Option<&Node>)
        ensures
            r matches Some(n) ==> n.id == id && self.nodes().contains(*n),
            r is None ==> forall|k: int| 0 <= k < self.nodes().len() ==> #[trigger] self.nodes()[k].id != id,
    {
        let mut k: usize = 0;
        while k < self.nodes.len()
            invariant
                k <= self.nodes.len(),
                forall|m: int| 0 <= m < k ==> #[trigger] self.nodes@[m].id != id,
            decreases self.nodes.len() - k,
        {
            if self.nodes[k].id == id {
                assert(self.nodes@[k as int] == self.nodes[k as int]);
                return Some(&self.nodes[k]);
            }
            k = k + 1;
        }
        None
    }
}

} // verus!
