//! Building the plan tree out of flat plan nodes that name their parents.
use vstd::prelude::*;
use crate::models::{node_view, nodes_view, PlanNode, PlanNodeView};

verus! {

/// Orders used by the tree builder: 0 by id, descending; 1 by position,
/// ascending; 2 by id, ascending.
pub open spec fn goes_before(x: PlanNodeView, y: PlanNodeView, mode: u8) -> bool {
    if mode == 0 {
        y.id < x.id
    } else if mode == 1 {
        y.position > x.position
    } else {
        y.id > x.id
    }
}

/// Where a stable insertion puts `x`: before the first element it goes before.
pub open spec fn ins_pos(s: Seq<PlanNodeView>, x: PlanNodeView, mode: u8, j: int) -> int
    decreases s.len() - j,
{
    if j < 0 || j >= s.len() {
        s.len() as int
    } else if goes_before(x, s[j], mode) {
        j
    } else {
        ins_pos(s, x, mode, j + 1)
    }
}

pub proof fn lemma_ins_pos(s: Seq<PlanNodeView>, x: PlanNodeView, mode: u8, j: int)
    requires
        0 <= j <= s.len(),
    ensures
        j <= ins_pos(s, x, mode, j) <= s.len(),
    decreases s.len() - j,
{
    if j < s.len() && !goes_before(x, s[j], mode) {
        lemma_ins_pos(s, x, mode, j + 1);
    }
}

/// The stable sort of `s` in the order `mode` (what `sort_by` gives).
pub open spec fn sort_nodes(s: Seq<PlanNodeView>, mode: u8) -> Seq<PlanNodeView>
    decreases s.len(),
{
    if s.len() == 0 {
        seq![]
    } else {
        let t = sort_nodes(s.drop_last(), mode);
        t.insert(ins_pos(t, s.last(), mode, 0), s.last())
    }
}

pub proof fn lemma_sort_len(s: Seq<PlanNodeView>, mode: u8)
    ensures
        sort_nodes(s, mode).len() == s.len(),
    decreases s.len(),
{
    if s.len() > 0 {
        lemma_sort_len(s.drop_last(), mode);
        lemma_ins_pos(sort_nodes(s.drop_last(), mode), s.last(), mode, 0);
    }
}

/// Children waiting for their parent, keyed by the parent's id.
pub type Pending = Seq<(i32, Seq<PlanNodeView>)>;

pub open spec fn pending_find(m: Pending, k: i32, i: int) -> Option<int>
    decreases m.len() - i,
{
    if i < 0 || i >= m.len() {
        None
    } else if m[i].0 == k {
        Some(i)
    } else {
        pending_find(m, k, i + 1)
    }
}

pub proof fn lemma_pending_find(m: Pending, k: i32, i: int)
    requires
        0 <= i,
    ensures
        pending_find(m, k, i) matches Some(j) ==> i <= j < m.len() && m[j].0 == k,
    decreases m.len() - i,
{
    if i < m.len() && m[i].0 != k {
        lemma_pending_find(m, k, i + 1);
    }
}

/// Adds `n` to the children waiting for `p`.
pub open spec fn pending_push(m: Pending, p: i32, n: PlanNodeView) -> Pending {
    match pending_find(m, p, 0) {
        Some(j) => m.update(j, (p, m[j].1.push(n))),
        None => m.push((p, seq![n])),
    }
}

pub struct TreeState {
    pub pending: Pending,
    pub roots: Seq<PlanNodeView>,
}

/// Takes a node (in descending id order): it receives the children waiting
/// for its id, sorted by position, and then waits for its own parent, or
/// becomes a root.
pub open spec fn tree_step(st: TreeState, n: PlanNodeView) -> TreeState {
    let (n2, pend) = match pending_find(st.pending, n.id, 0) {
        Some(j) => (
            PlanNodeView { children: sort_nodes(st.pending[j].1, 1), ..n },
            st.pending.remove(j),
        ),
        None => (n, st.pending),
    };
    match n2.parent_id {
        Some(p) => TreeState { pending: pending_push(pend, p, n2), roots: st.roots },
        None => TreeState { pending: pend, roots: st.roots.push(n2) },
    }
}

pub open spec fn tree_fold(s: Seq<PlanNodeView>, i: int, st: TreeState) -> TreeState
    decreases s.len() - i,
{
    if i < 0 || i >= s.len() {
        st
    } else {
        tree_fold(s, i + 1, tree_step(st, s[i]))
    }
}

/// What `MockEngine::build_tree` returns for the flat nodes `s`: the roots
/// in ascending id order, each node holding its children in position order.
/// A node whose parent comes later in descending id order, or does not
/// exist, is left out.
pub open spec fn build_tree_spec(s: Seq<PlanNodeView>) -> Seq<PlanNodeView> {
    let st = tree_fold(sort_nodes(s, 0), 0, TreeState { pending: seq![], roots: seq![] });
    sort_nodes(st.roots, 2)
}

// ---------------------------------------------------------------------------
// The shape of the forest
// ---------------------------------------------------------------------------

/// Every child of `n`, at every depth, names its parent's id.
pub open spec fn parented(n: PlanNodeView) -> bool
    decreases n,
{
    forall|k: int|
        0 <= k < n.children.len() ==> (#[trigger] n.children[k]).parent_id == Some(n.id) && parented(
            n.children[k],
        )
}

pub proof fn lemma_sort_from(s: Seq<PlanNodeView>, mode: u8)
    ensures
        forall|x: PlanNodeView| #[trigger] sort_nodes(s, mode).contains(x) ==> s.contains(x),
    decreases s.len(),
{
    if s.len() > 0 {
        let t = sort_nodes(s.drop_last(), mode);
        lemma_sort_from(s.drop_last(), mode);
        lemma_ins_pos(t, s.last(), mode, 0);
        let p = ins_pos(t, s.last(), mode, 0);
        assert forall|x: PlanNodeView| #[trigger] sort_nodes(s, mode).contains(x) implies s.contains(x) by {
            let u = t.insert(p, s.last());
            let k = choose|k: int| 0 <= k < u.len() && u[k] == x;
            if k < p {
                assert(u[k] == t[k]);
                assert(t.contains(x));
            } else if k == p {
                assert(x == s.last());
                assert(s[s.len() - 1] == x);
            } else {
                assert(u[k] == t[k - 1]);
                assert(t.contains(x));
            }
            let j = choose|j: int| 0 <= j < s.drop_last().len() && s.drop_last()[j] == x;
            if k != p {
                assert(s[j] == x);
            }
        }
    }
}

/// What the builder's state says while it runs: roots have no parent,
/// waiting children name the parent they wait for, and every subtree is
/// parented.
pub open spec fn tree_inv(st: TreeState) -> bool {
    &&& forall|k: int| 0 <= k < st.roots.len() ==> (#[trigger] st.roots[k]).parent_id is None && parented(st.roots[k])
    &&& forall|j: int, k: int|
        0 <= j < st.pending.len() && 0 <= k < st.pending[j].1.len() ==> (#[trigger] st.pending[j].1[k]).parent_id == Some(st.pending[j].0)
            && parented(st.pending[j].1[k])
}

pub proof fn lemma_tree_step(st: TreeState, n: PlanNodeView)
    requires
        tree_inv(st),
        n.children.len() == 0,
    ensures
        tree_inv(tree_step(st, n)),
{
    lemma_pending_find(st.pending, n.id, 0);
    let (n2, pend) = match pending_find(st.pending, n.id, 0) {
        Some(j) => (
            PlanNodeView { children: sort_nodes(st.pending[j].1, 1), ..n },
            st.pending.remove(j),
        ),
        None => (n, st.pending),
    };
    assert(parented(n2)) by {
        match pending_find(st.pending, n.id, 0) {
            Some(j) => {
                let kids = st.pending[j].1;
                lemma_sort_from(kids, 1);
                assert forall|k: int| 0 <= k < n2.children.len() implies (#[trigger] n2.children[k]).parent_id == Some(n2.id) && parented(n2.children[k]) by {
                    assert(sort_nodes(kids, 1).contains(n2.children[k]));
                    let i = choose|i: int| 0 <= i < kids.len() && kids[i] == n2.children[k];
                    assert(st.pending[j].1[i] == kids[i]);
                }
            },
            None => {},
        }
    }
    assert forall|j: int, k: int| 0 <= j < pend.len() && 0 <= k < pend[j].1.len() implies (#[trigger] pend[j].1[k]).parent_id == Some(pend[j].0) && parented(pend[j].1[k]) by {
        match pending_find(st.pending, n.id, 0) {
            Some(i) => {
                if j < i {
                    assert(pend[j] == st.pending[j]);
                } else {
                    assert(pend[j] == st.pending[j + 1]);
                }
            },
            None => {},
        }
    }
    match n2.parent_id {
        Some(p) => {
            lemma_pending_find(pend, p, 0);
            let m = pending_push(pend, p, n2);
            assert forall|j: int, k: int| 0 <= j < m.len() && 0 <= k < m[j].1.len() implies (#[trigger] m[j].1[k]).parent_id == Some(m[j].0) && parented(m[j].1[k]) by {
                match pending_find(pend, p, 0) {
                    Some(i) => {
                        if j == i {
                            if k < pend[i].1.len() {
                                assert(m[j].1[k] == pend[i].1[k]);
                            } else {
                                assert(m[j].1[k] == n2);
                            }
                        } else {
                            assert(m[j] == pend[j]);
                        }
                    },
                    None => {
                        if j < pend.len() {
                            assert(m[j] == pend[j]);
                        } else {
                            assert(m[j].1 == seq![n2]);
                        }
                    },
                }
            }
        },
        None => {
            let r = st.roots.push(n2);
            assert forall|k: int| 0 <= k < r.len() implies (#[trigger] r[k]).parent_id is None && parented(r[k]) by {
                if k < st.roots.len() {
                    assert(r[k] == st.roots[k]);
                }
            }
        },
    }
}

pub proof fn lemma_tree_fold(s: Seq<PlanNodeView>, i: int, st: TreeState)
    requires
        0 <= i,
        tree_inv(st),
        forall|k: int| 0 <= k < s.len() ==> (#[trigger] s[k]).children.len() == 0,
    ensures
        tree_inv(tree_fold(s, i, st)),
    decreases s.len() - i,
{
    if i < s.len() {
        lemma_tree_step(st, s[i]);
        lemma_tree_fold(s, i + 1, tree_step(st, s[i]));
    }
}

/// Built from flat nodes (none holding children yet), the plan tree is a
/// forest: its roots have no parent, and every child, at every depth,
/// names its parent's id.
pub proof fn law_plan_forest(s: Seq<PlanNodeView>)
    requires
        forall|k: int| 0 <= k < s.len() ==> (#[trigger] s[k]).children.len() == 0,
    ensures
        forall|k: int|
            0 <= k < build_tree_spec(s).len() ==> (#[trigger] build_tree_spec(s)[k]).parent_id is None
                && parented(build_tree_spec(s)[k]),
{
    let sorted = sort_nodes(s, 0);
    lemma_sort_from(s, 0);
    assert forall|k: int| 0 <= k < sorted.len() implies (#[trigger] sorted[k]).children.len() == 0 by {
        assert(sorted.contains(sorted[k]));
        let j = choose|j: int| 0 <= j < s.len() && s[j] == sorted[k];
    }
    let st0 = TreeState { pending: seq![], roots: seq![] };
    lemma_tree_fold(sorted, 0, st0);
    let st = tree_fold(sorted, 0, st0);
    lemma_sort_from(st.roots, 2);
    let r = build_tree_spec(s);
    assert forall|k: int| 0 <= k < r.len() implies (#[trigger] r[k]).parent_id is None && parented(r[k]) by {
        assert(r.contains(r[k]));
        let j = choose|j: int| 0 <= j < st.roots.len() && st.roots[j] == r[k];
    }
}

// ---------------------------------------------------------------------------
// Implementation
// ---------------------------------------------------------------------------

pub proof fn lemma_node_view_children(n: PlanNode)
    ensures
        node_view(n).children == nodes_view(n.children@),
{
    assert(node_view(n).children =~= nodes_view(n.children@));
}

fn goes_before_exec(x: &PlanNode, y: &PlanNode, mode: u8) -> (r: bool)
    ensures
        r == goes_before(x@, y@, mode),
{
    if mode == 0 {
        y.id < x.id
    } else if mode == 1 {
        y.position > x.position
    } else {
        y.id > x.id
    }
}

/// Inserts `x` into the sorted `v` at its stable place.
fn insert_sorted(v: &mut Vec<PlanNode>, x: PlanNode, mode: u8)
    ensures
        nodes_view(final(v)@) == nodes_view(old(v)@).insert(
            ins_pos(nodes_view(old(v)@), x@, mode, 0),
            x@,
        ),
{
    let ghost sv = nodes_view(v@);
    let mut j: usize = 0;
    while j < v.len() && !goes_before_exec(&x, &v[j], mode)
        invariant
            sv == nodes_view(v@),
            0 <= j <= v.len(),
            ins_pos(sv, x@, mode, j as int) == ins_pos(sv, x@, mode, 0),
        decreases v.len() - j,
    {
        assert(sv[j as int] == v@[j as int]@);
        j += 1;
    }
    if j < v.len() {
        assert(sv[j as int] == v@[j as int]@);
    }
    let ghost xv = x@;
    v.insert(j, x);
    assert(nodes_view(v@) =~= sv.insert(j as int, xv));
}

/// The stable sort of `v` in the order `mode`.
fn sort_vec(v: Vec<PlanNode>, mode: u8) -> (r: Vec<PlanNode>)
    ensures
        nodes_view(r@) == sort_nodes(nodes_view(v@), mode),
{
    let ghost sv = nodes_view(v@);
    let mut src = v;
    let mut out: Vec<PlanNode> = Vec::new();
    let mut k: usize = 0;
    let n0 = src.len();
    assert(nodes_view(out@) =~= sort_nodes(sv.take(0), mode));
    while src.len() > 0
        invariant
            sv.len() == n0,
            k + src.len() == n0,
            nodes_view(src@) == sv.skip(k as int),
            nodes_view(out@) == sort_nodes(sv.take(k as int), mode),
        decreases src.len(),
    {
        let ghost before = src@;
        assert(nodes_view(before)[0] == node_view(before[0]));
        assert(sv.skip(k as int)[0] == sv[k as int]);
        let x = src.remove(0);
        assert(x@ == sv[k as int]);
        insert_sorted(&mut out, x, mode);
        assert(sv.take(k + 1).drop_last() =~= sv.take(k as int));
        assert(sv.take(k + 1).last() == sv[k as int]);
        assert(nodes_view(src@) =~= nodes_view(before).subrange(1, before.len() as int));
        k += 1;
        assert(nodes_view(src@) =~= sv.skip(k as int));
    }
    assert(sv.take(k as int) =~= sv);
    out
}

pub struct PendingExec {
    pub entries: Vec<(i32, Vec<PlanNode>)>,
}

impl View for PendingExec {
    type V = Pending;

    open spec fn view(&self) -> Pending {
        self.entries@.map_values(|e: (i32, Vec<PlanNode>)| (e.0, nodes_view(e.1@)))
    }
}

impl PendingExec {
    fn find(&self, k: i32) -> (r: Option<usize>)
        ensures
            r matches Some(j) ==> pending_find(self@, k, 0) == Some(j as int),
            r is None ==> pending_find(self@, k, 0) is None,
    {
        let mut i: usize = 0;
        while i < self.entries.len()
            invariant
                0 <= i <= self.entries.len(),
                pending_find(self@, k, i as int) == pending_find(self@, k, 0),
            decreases self.entries.len() - i,
        {
            if self.entries[i].0 == k {
                return Some(i);
            }
            i += 1;
        }
        None
    }

    fn push(&mut self, p: i32, n: PlanNode)
        ensures
            final(self)@ == pending_push(old(self)@, p, n@),
    {
        proof {
            lemma_pending_find(self@, p, 0);
        }
        let ghost before = self@;
        let ghost nv = n@;
        match self.find(p) {
            Some(j) => {
                let (k, mut kids) = self.entries.remove(j);
                let ghost kv = nodes_view(kids@);
                kids.push(n);
                assert(nodes_view(kids@) =~= kv.push(nv));
                self.entries.insert(j, (k, kids));
                assert(self@ =~= before.update(j as int, (p, before[j as int].1.push(nv))));
            },
            None => {
                let mut kids: Vec<PlanNode> = Vec::new();
                kids.push(n);
                assert(nodes_view(kids@) =~= seq![nv]);
                self.entries.push((p, kids));
                assert(self@ =~= before.push((p, seq![nv])));
            },
        }
    }
}

/// The plan tree of flat nodes that name their parents: the roots (nodes
/// without a parent) in ascending id order, each node holding its
/// children sorted by position.
pub fn build_tree(nodes: Vec<PlanNode>) -> (r: Vec<PlanNode>)
    ensures
        nodes_view(r@) == build_tree_spec(nodes_view(nodes@)),
{
    let ghost flat = nodes_view(nodes@);
    let sorted = sort_vec(nodes, 0);
    let ghost sv = nodes_view(sorted@);
    let mut src = sorted;
    let mut pending = PendingExec { entries: Vec::new() };
    let mut roots: Vec<PlanNode> = Vec::new();
    let n0 = src.len();
    let mut k: usize = 0;
    assert(pending@ =~= Seq::<(i32, Seq<PlanNodeView>)>::empty());
    assert(nodes_view(roots@) =~= Seq::<PlanNodeView>::empty());
    assert(sv.skip(0) =~= sv);
    while src.len() > 0
        invariant
            sv == sort_nodes(flat, 0),
            sv.len() == n0,
            k + src.len() == n0,
            nodes_view(src@) == sv.skip(k as int),
            tree_fold(sv, k as int, TreeState { pending: pending@, roots: nodes_view(roots@) })
                == tree_fold(sv, 0, TreeState { pending: seq![], roots: seq![] }),
        decreases src.len(),
    {
        let ghost before = src@;
        assert(nodes_view(before)[0] == node_view(before[0]));
        assert(sv.skip(k as int)[0] == sv[k as int]);
        let mut node = src.remove(0);
        assert(node@ == sv[k as int]);
        let ghost st0 = TreeState { pending: pending@, roots: nodes_view(roots@) };
        let ghost n_v = node@;
        proof {
            lemma_pending_find(pending@, node.id, 0);
        }
        match pending.find(node.id) {
            Some(j) => {
                let ghost pv = pending@;
                let (_, kids) = pending.entries.remove(j);
                assert(nodes_view(kids@) == pv[j as int].1);
                assert(pending@ =~= pv.remove(j as int));
                let sorted_kids = sort_vec(kids, 1);
                node.children = sorted_kids;
                proof {
                    lemma_node_view_children(node);
                }
                assert(node@ =~~= PlanNodeView { children: sort_nodes(pv[j as int].1, 1), ..n_v });
            },
            None => {},
        }
        let ghost n2 = node@;
        match node.parent_id {
            Some(p) => {
                pending.push(p, node);
            },
            None => {
                let ghost rv = nodes_view(roots@);
                roots.push(node);
                assert(nodes_view(roots@) =~= rv.push(n2));
            },
        }
        assert(TreeState { pending: pending@, roots: nodes_view(roots@) } == tree_step(st0, sv[k as int]));
        assert(nodes_view(src@) =~= nodes_view(before).subrange(1, before.len() as int));
        k += 1;
        assert(nodes_view(src@) =~= sv.skip(k as int));
    }
    sort_vec(roots, 2)
}

} // verus!
