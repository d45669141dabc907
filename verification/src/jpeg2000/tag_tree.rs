//! Tag trees: the quad trees that packet headers use to code 2D arrays of
//! values (code-block inclusion, zero bit-planes).
use crate::jpeg2000::bit_io::{write_step, BitIoError, BitWriteState, J2kBitReader, J2kBitWriter};
use vstd::prelude::*;

verus! {

/// The value a node holds before any is set.
pub const TAG_TREE_UNSET: i32 = 99999;

/// Number of nodes of a tag tree over `w` by `h` leaves: the leaves, then each
/// level of parents, half as wide and half as high (rounded up), up to a single root.
pub open spec fn tree_size(w: nat, h: nat) -> nat
    decreases w + h,
{
    if w <= 1 && h <= 1 {
        w * h
    } else {
        w * h + tree_size((w + 1) / 2, (h + 1) / 2)
    }
}

/// The parent of node `i` in a tag tree over `w` by `h` leaves, numbered level by
/// level, row by row from the leaves; the root and nodes past the end have none.
pub open spec fn tree_parent(w: nat, h: nat, i: int) -> Option<int>
    decreases w + h,
{
    if w <= 1 && h <= 1 {
        None
    } else if 0 <= i < w * h {
        let nw = (w + 1) / 2;
        Some(w * h + ((i / (w as int)) / 2) * (nw as int) + (i % (w as int)) / 2)
    } else {
        match tree_parent((w + 1) / 2, (h + 1) / 2, i - w * h) {
            Some(p) => Some(p + w * h),
            None => None,
        }
    }
}

/// A node of a tag tree.
#[derive(Clone, Copy, Debug)]
pub struct TagTreeNode {
    /// The value; for an inner node, the least value of its leaves that were set.
    pub value: i32,
    /// The lower bound on the value known to the coder.
    pub low: i32,
    /// Whether the value has been coded.
    pub known: bool,
    /// The parent node, none for the root.
    pub parent_index: Option<usize>,
}

impl TagTreeNode {
    /// A node with no value set yet.
    pub open spec fn is_fresh(&self) -> bool {
        self.value == TAG_TREE_UNSET && self.low == 0 && !self.known
    }
}

/// Tag tree for packet header coding.
pub struct TagTree {
    /// The nodes: the leaves row by row, then each level above.
    pub nodes: Vec<TagTreeNode>,
    /// Leaves per row.
    pub leaf_width: usize,
    /// Rows of leaves.
    pub leaf_height: usize,
}

/// The writer state after writing `bits` in order.
pub open spec fn write_seq(s: BitWriteState, bits: Seq<u8>) -> BitWriteState
    decreases bits.len(),
{
    if bits.len() == 0 {
        s
    } else {
        write_step(write_seq(s, bits.drop_last()), bits.last())
    }
}

/// `k` zero bits.
pub open spec fn zero_bits(k: int) -> Seq<u8> {
    Seq::new(k as nat, |i: int| 0u8)
}

/// The nodes from `i` up to the root, following the parent links.
pub open spec fn path_to_root(nodes: Seq<TagTreeNode>, i: int) -> Seq<int>
    decreases nodes.len() - i,
{
    if !(0 <= i < nodes.len()) {
        seq![]
    } else {
        match nodes[i].parent_index {
            Some(p) => if i < p < nodes.len() { seq![i] + path_to_root(nodes, p as int) } else { seq![i] },
            None => seq![i],
        }
    }
}

/// The lower bound node `n` has after it is coded up to `t`, coming from a parent
/// whose bound is `low`: the larger of the two, raised to `min(value, t)` when below
/// the value.
pub open spec fn coded_low(n: TagTreeNode, low: int, t: int) -> int {
    let l0 = if low > n.low { low } else { n.low as int };
    if l0 >= t || l0 >= n.value { l0 } else if n.value < t { n.value as int } else { t }
}

/// Whether node `n` is known after it is coded up to `t` from a parent bound `low`:
/// it was, or its value was reached below `t`.
pub open spec fn coded_known(n: TagTreeNode, low: int, t: int) -> bool {
    let l1 = coded_low(n, low, t);
    n.known || (l1 < t && l1 >= n.value)
}

/// The bits node `n` is coded with up to `t` from a parent bound `low`: a 0 for each
/// level the bound rises, then a 1 when the value is reached below `t` and was not
/// known.
pub open spec fn node_code(n: TagTreeNode, low: int, t: int) -> Seq<u8> {
    let l0 = if low > n.low { low } else { n.low as int };
    let l1 = coded_low(n, low, t);
    zero_bits(l1 - l0) + if l1 < t && l1 >= n.value && !n.known { seq![1u8] } else { seq![] }
}

/// Node `n` after it is coded up to `t` from a parent bound `low`.
pub open spec fn coded_node(n: TagTreeNode, low: int, t: int) -> TagTreeNode {
    TagTreeNode { low: coded_low(n, low, t) as i32, known: coded_known(n, low, t), ..n }
}

/// The bound after coding the last `m` nodes of `path` (the root first), from 0.
pub open spec fn path_low(nodes: Seq<TagTreeNode>, path: Seq<int>, m: nat, t: int) -> int
    decreases m,
{
    if m == 0 {
        0
    } else {
        coded_low(nodes[path[path.len() - m]], path_low(nodes, path, (m - 1) as nat, t), t)
    }
}

/// The bits of coding the last `m` nodes of `path` (the root first).
pub open spec fn path_bits(nodes: Seq<TagTreeNode>, path: Seq<int>, m: nat, t: int) -> Seq<u8>
    decreases m,
{
    if m == 0 {
        seq![]
    } else {
        path_bits(nodes, path, (m - 1) as nat, t) + node_code(
            nodes[path[path.len() - m]],
            path_low(nodes, path, (m - 1) as nat, t),
            t,
        )
    }
}

/// Writing `a` then `b` is writing `a + b`.
pub proof fn lemma_write_seq_append(s: BitWriteState, a: Seq<u8>, b: Seq<u8>)
    ensures
        write_seq(write_seq(s, a), b) == write_seq(s, a + b),
    decreases b.len(),
{
    if b.len() > 0 {
        lemma_write_seq_append(s, a, b.drop_last());
        assert((a + b).drop_last() =~= a + b.drop_last());
    } else {
        assert(a + b =~= a);
    }
}

/// The path from a node runs through increasing node numbers inside the tree, when
/// each parent comes after its child.
pub proof fn lemma_path_increasing(nodes: Seq<TagTreeNode>, i: int)
    requires
        0 <= i < nodes.len(),
    ensures
        path_to_root(nodes, i).len() >= 1,
        path_to_root(nodes, i)[0] == i,
        forall|a: int| 0 <= a < path_to_root(nodes, i).len() ==> i <= #[trigger] path_to_root(nodes, i)[a] < nodes.len(),
        forall|a: int, b: int|
            0 <= a < b < path_to_root(nodes, i).len() ==> #[trigger] path_to_root(nodes, i)[a] < #[trigger] path_to_root(
                nodes,
                i,
            )[b],
    decreases nodes.len() - i,
{
    match nodes[i].parent_index {
        Some(p) => {
            if i < p < nodes.len() {
                lemma_path_increasing(nodes, p as int);
                let rest = path_to_root(nodes, p as int);
                assert(path_to_root(nodes, i) == seq![i] + rest);
                assert forall|a: int, b: int|
                    0 <= a < b < path_to_root(nodes, i).len() implies #[trigger] path_to_root(nodes, i)[a]
                    < #[trigger] path_to_root(nodes, i)[b] by {
                    if a > 0 {
                        assert(rest[a - 1] < rest[b - 1]);
                    } else {
                        assert(p <= rest[b - 1]);
                    }
                }
            }
        },
        None => {},
    }
}

/// Whether node `i` is updated when a value `v` is propagated up from node `c`:
/// the chain of parents from `c` is followed while the nodes hold more than `v`.
pub open spec fn propagates_to(nodes: Seq<TagTreeNode>, c: int, v: i32, i: int) -> bool
    decreases nodes.len() - c,
{
    if !(0 <= c < nodes.len()) || nodes[c].value <= v {
        false
    } else if i == c {
        true
    } else {
        match nodes[c].parent_index {
            Some(p) => if c < p < nodes.len() { propagates_to(nodes, p as int, v, i) } else { false },
            None => false,
        }
    }
}

proof fn lemma_propagates_after(nodes: Seq<TagTreeNode>, c: int, v: i32, i: int)
    requires
        propagates_to(nodes, c, v, i),
    ensures
        c <= i,
    decreases nodes.len() - c,
{
    if i != c {
        let p = nodes[c].parent_index.unwrap();
        lemma_propagates_after(nodes, p as int, v, i);
    }
}

proof fn lemma_mul_index(x: int, y: int, w: int, h: int)
    requires
        0 <= x < w,
        0 <= y < h,
    ensures
        0 <= y * w + x < w * h,
        (y * w + x) / w == y,
        (y * w + x) % w == x,
{
    assert(0 <= y * w) by (nonlinear_arith)
        requires
            0 <= y,
            0 <= w,
    ;
    assert(y * w + x < w * h) by (nonlinear_arith)
        requires
            0 <= x < w,
            0 <= y < h,
    ;
    vstd::arithmetic::div_mod::lemma_fundamental_div_mod_converse(y * w + x, w, y, x);
}

proof fn lemma_half_bounds(w: nat, h: nat, x: int, y: int)
    requires
        0 <= x < w,
        0 <= y < h,
    ensures
        0 <= x / 2 < (w + 1) / 2,
        0 <= y / 2 < (h + 1) / 2,
{
}

impl TagTree {
    /// The tree has the shape of its leaf grid: its size, its parent links.
    pub open spec fn wf(&self) -> bool {
        &&& self.nodes@.len() == tree_size(self.leaf_width as nat, self.leaf_height as nat)
        &&& forall|i: int|
            0 <= i < self.nodes@.len() ==> match #[trigger] self.nodes@[i].parent_index {
                Some(p) => tree_parent(self.leaf_width as nat, self.leaf_height as nat, i) == Some(p as int),
                None => tree_parent(self.leaf_width as nat, self.leaf_height as nat, i) is None,
            }
    }

    /// The leaf at `(x, y)`.
    pub open spec fn leaf(&self, x: int, y: int) -> TagTreeNode {
        self.nodes@[y * self.leaf_width + x]
    }

    /// A tag tree over `w` by `h` leaves with no value set.
    pub fn new(w: usize, h: usize) -> (r: Self)
        requires
            tree_size(w as nat, h as nat) <= usize::MAX,
            w < usize::MAX,
            h < usize::MAX,
        ensures
            r.wf(),
            r.leaf_width == w,
            r.leaf_height == h,
            forall|i: int| 0 <= i < r.nodes@.len() ==> (#[trigger] r.nodes@[i]).is_fresh(),
    {
        let mut nodes: Vec<TagTreeNode> = Vec::new();
        let mut current_level_start: usize = 0;
        let mut current_w: usize = w;
        let mut current_h: usize = h;
        proof {
            lemma_tree_size_ge(w as nat, h as nat);
        }
        let leaves: usize = w * h;
        let mut k: usize = 0;
        while k < leaves
            invariant
                leaves == w * h,
                k <= leaves,
                nodes@.len() == k,
                forall|i: int| 0 <= i < k ==> (#[trigger] nodes@[i]).is_fresh() && nodes@[i].parent_index is None,
            decreases leaves - k,
        {
            nodes.push(TagTreeNode { value: TAG_TREE_UNSET, low: 0, known: false, parent_index: None });
            k = k + 1;
        }
        while current_w > 1 || current_h > 1
            invariant
                current_w <= w < usize::MAX,
                current_h <= h < usize::MAX,
                current_level_start + tree_size(current_w as nat, current_h as nat) == tree_size(w as nat, h as nat),
                tree_size(w as nat, h as nat) <= usize::MAX,
                nodes@.len() == current_level_start + current_w * current_h,
                forall|i: int| 0 <= i < nodes@.len() ==> (#[trigger] nodes@[i]).is_fresh(),
                forall|i: int|
                    0 <= i < current_level_start ==> match #[trigger] nodes@[i].parent_index {
                        Some(p) => tree_parent(w as nat, h as nat, i) == Some(p as int),
                        None => tree_parent(w as nat, h as nat, i) is None,
                    },
                forall|i: int| current_level_start <= i < nodes@.len() ==> (#[trigger] nodes@[i]).parent_index is None,
                forall|i: int|
                    current_level_start <= i ==> #[trigger] tree_parent(w as nat, h as nat, i) == match tree_parent(
                        current_w as nat,
                        current_h as nat,
                        i - current_level_start,
                    ) {
                        Some(p) => Some(p + current_level_start),
                        None => None,
                    },
            decreases current_w + current_h,
        {
            let next_w: usize = (current_w + 1) / 2;
            let next_h: usize = (current_h + 1) / 2;
            let next_level_start: usize = nodes.len();
            proof {
                lemma_tree_size_ge(next_w as nat, next_h as nat);
            }
            let count: usize = next_w * next_h;
            let mut k: usize = 0;
            while k < count
                invariant
                    count == next_w * next_h,
                    current_level_start <= next_level_start,
                    next_level_start + count <= usize::MAX,
                    k <= count,
                    nodes@.len() == next_level_start + k,
                    forall|i: int| 0 <= i < nodes@.len() ==> (#[trigger] nodes@[i]).is_fresh(),
                    forall|i: int|
                        0 <= i < current_level_start ==> match #[trigger] nodes@[i].parent_index {
                            Some(p) => tree_parent(w as nat, h as nat, i) == Some(p as int),
                            None => tree_parent(w as nat, h as nat, i) is None,
                        },
                    forall|i: int| current_level_start <= i < nodes@.len() ==> (#[trigger] nodes@[i]).parent_index is None,
                decreases count - k,
            {
                let ghost before = nodes@;
                nodes.push(TagTreeNode { value: TAG_TREE_UNSET, low: 0, known: false, parent_index: None });
                assert(forall|i: int| 0 <= i < before.len() ==> nodes@[i] == before[i]);
                k = k + 1;
            }
            let mut y: usize = 0;
            while y < current_h
                invariant
                    next_w == (current_w + 1) / 2,
                    next_h == (current_h + 1) / 2,
                    current_w > 1 || current_h > 1,
                    next_level_start == current_level_start + current_w * current_h,
                    nodes@.len() == next_level_start + next_w * next_h,
                    next_level_start + next_w * next_h <= usize::MAX,
                    y <= current_h,
                    forall|i: int| 0 <= i < nodes@.len() ==> (#[trigger] nodes@[i]).is_fresh(),
                    forall|i: int|
                        0 <= i < current_level_start + y * current_w ==> match #[trigger] nodes@[i].parent_index {
                            Some(p) => tree_parent(w as nat, h as nat, i) == Some(p as int),
                            None => tree_parent(w as nat, h as nat, i) is None,
                        },
                    forall|i: int|
                        current_level_start + y * current_w <= i < nodes@.len() ==> (
                        #[trigger] nodes@[i]).parent_index is None,
                    forall|i: int|
                        current_level_start <= i ==> #[trigger] tree_parent(w as nat, h as nat, i) == match tree_parent(
                            current_w as nat,
                            current_h as nat,
                            i - current_level_start,
                        ) {
                            Some(p) => Some(p + current_level_start),
                            None => None,
                        },
                decreases current_h - y,
            {
                let mut x: usize = 0;
                while x < current_w
                    invariant
                        next_w == (current_w + 1) / 2,
                        next_h == (current_h + 1) / 2,
                        current_w > 1 || current_h > 1,
                        next_level_start == current_level_start + current_w * current_h,
                        nodes@.len() == next_level_start + next_w * next_h,
                        next_level_start + next_w * next_h <= usize::MAX,
                        y < current_h,
                        x <= current_w,
                        forall|i: int| 0 <= i < nodes@.len() ==> (#[trigger] nodes@[i]).is_fresh(),
                        forall|i: int|
                            0 <= i < current_level_start + y * current_w + x ==> match #[trigger] nodes@[i].parent_index {
                                Some(p) => tree_parent(w as nat, h as nat, i) == Some(p as int),
                                None => tree_parent(w as nat, h as nat, i) is None,
                            },
                        forall|i: int|
                            current_level_start + y * current_w + x <= i < nodes@.len() ==> (
                            #[trigger] nodes@[i]).parent_index is None,
                        forall|i: int|
                            current_level_start <= i ==> #[trigger] tree_parent(w as nat, h as nat, i) == match tree_parent(
                                current_w as nat,
                                current_h as nat,
                                i - current_level_start,
                            ) {
                                Some(p) => Some(p + current_level_start),
                                None => None,
                            },
                    decreases current_w - x,
                {
                    proof {
                        lemma_mul_index(x as int, y as int, current_w as int, current_h as int);
                        lemma_half_bounds(current_w as nat, current_h as nat, x as int, y as int);
                        lemma_mul_index(
                            (x / 2) as int,
                            (y / 2) as int,
                            next_w as int,
                            next_h as int,
                        );
                    }
                    let child_idx: usize = current_level_start + y * current_w + x;
                    assert((y / 2) * next_w + (x / 2) < next_w * next_h);
                    let parent_idx: usize = next_level_start + (y / 2) * next_w + (x / 2);
                    let mut node = nodes[child_idx];
                    node.parent_index = Some(parent_idx);
                    nodes.set(child_idx, node);
                    proof {
                        let li = (y * current_w + x) as int;
                        assert(tree_parent(w as nat, h as nat, child_idx as int) == Some(parent_idx as int));
                        assert(li / (current_w as int) == y);
                    }
                    x = x + 1;
                }
                proof {
                    assert(current_level_start + y * current_w + current_w == current_level_start + (y + 1)
                        * current_w) by (nonlinear_arith);
                }
                y = y + 1;
            }
            proof {
                assert(current_h * current_w == current_w * current_h) by (nonlinear_arith);
                assert forall|i: int| next_level_start <= i implies #[trigger] tree_parent(w as nat, h as nat, i) == match tree_parent(
                    next_w as nat,
                    next_h as nat,
                    i - next_level_start,
                ) {
                    Some(p) => Some(p + next_level_start),
                    None => None,
                } by {
                    assert(tree_parent(w as nat, h as nat, i) == match tree_parent(
                        current_w as nat,
                        current_h as nat,
                        i - current_level_start,
                    ) {
                        Some(p) => Some(p + current_level_start),
                        None => None,
                    });
                }
            }
            current_w = next_w;
            current_h = next_h;
            current_level_start = next_level_start;
        }
        proof {
            assert forall|i: int| 0 <= i < nodes@.len() implies match #[trigger] nodes@[i].parent_index {
                Some(p) => tree_parent(w as nat, h as nat, i) == Some(p as int),
                None => tree_parent(w as nat, h as nat, i) is None,
            } by {
                if i >= current_level_start {
                    assert(tree_parent(current_w as nat, current_h as nat, i - current_level_start) is None);
                }
            }
        }
        TagTree { nodes, leaf_width: w, leaf_height: h }
    }
}

proof fn lemma_tree_size_ge(w: nat, h: nat)
    ensures
        tree_size(w, h) >= w * h,
    decreases w + h,
{
    if !(w <= 1 && h <= 1) {
        lemma_tree_size_ge((w + 1) / 2, (h + 1) / 2);
    }
}


proof fn lemma_parent_bounds(w: nat, h: nat, i: int)
    requires
        tree_parent(w, h, i) is Some,
    ensures
        i < tree_parent(w, h, i).unwrap() < tree_size(w, h),
    decreases w + h,
{
    let nw = (w + 1) / 2;
    let nh = (h + 1) / 2;
    if 0 <= i < w * h {
        let y = i / (w as int);
        let x = i % (w as int);
        assert(y < h) by (nonlinear_arith)
            requires
                0 <= i < w * h,
                y == i / (w as int),
                w > 0,
        ;
        lemma_half_bounds(w, h, x, y);
        lemma_mul_index(x / 2, y / 2, nw as int, nh as int);
        lemma_tree_size_ge(nw, nh);
    } else {
        lemma_parent_bounds(nw, nh, i - w * h);
    }
}

/// The parent of every node lies after it, within the tree.
pub proof fn lemma_wf_parents(t: &TagTree)
    requires
        t.wf(),
    ensures
        forall|i: int|
            0 <= i < t.nodes@.len() ==> match #[trigger] t.nodes@[i].parent_index {
                Some(p) => i < p < t.nodes@.len(),
                None => true,
            },
        t.leaf_width * t.leaf_height <= t.nodes@.len(),
{
    assert forall|i: int| 0 <= i < t.nodes@.len() implies match #[trigger] t.nodes@[i].parent_index {
        Some(p) => i < p < t.nodes@.len(),
        None => true,
    } by {
        if t.nodes@[i].parent_index is Some {
            lemma_parent_bounds(t.leaf_width as nat, t.leaf_height as nat, i);
        }
    }
    lemma_tree_size_ge(t.leaf_width as nat, t.leaf_height as nat);
}

/// `a` and `b` have the same shape and the same values; only what the coder knows may differ.
pub open spec fn same_values(a: Seq<TagTreeNode>, b: Seq<TagTreeNode>) -> bool {
    &&& a.len() == b.len()
    &&& forall|i: int|
        0 <= i < a.len() ==> (#[trigger] a[i]).value == b[i].value && a[i].parent_index == b[i].parent_index
}

impl TagTree {
    /// Clears every value and what the coder knows.
    pub fn reset(&mut self)
        requires
            old(self).wf(),
        ensures
            final(self).wf(),
            final(self).leaf_width == old(self).leaf_width,
            final(self).leaf_height == old(self).leaf_height,
            final(self).nodes@.len() == old(self).nodes@.len(),
            forall|i: int|
                0 <= i < final(self).nodes@.len() ==> (#[trigger] final(self).nodes@[i]).is_fresh()
                    && final(self).nodes@[i].parent_index == old(self).nodes@[i].parent_index,
    {
        let n = self.nodes.len();
        let mut k: usize = 0;
        while k < n
            invariant
                n == self.nodes@.len(),
                n == old(self).nodes@.len(),
                self.leaf_width == old(self).leaf_width,
                self.leaf_height == old(self).leaf_height,
                k <= n,
                forall|i: int|
                    0 <= i < n ==> (#[trigger] self.nodes@[i]).parent_index == old(self).nodes@[i].parent_index,
                forall|i: int| 0 <= i < k ==> (#[trigger] self.nodes@[i]).is_fresh(),
            decreases n - k,
        {
            let mut node = self.nodes[k];
            node.value = TAG_TREE_UNSET;
            node.low = 0;
            node.known = false;
            self.nodes.set(k, node);
            k = k + 1;
        }
        proof {
            assert(self.nodes@.len() == old(self).nodes@.len());
        }
    }

    /// What the coder knows of the value at leaf `(x, y)`: its lower bound; 0 outside the grid.
    pub fn get_current_value(&self, x: usize, y: usize) -> (r: i32)
        requires
            self.wf(),
        ensures
            x >= self.leaf_width || y >= self.leaf_height ==> r == 0,
            x < self.leaf_width && y < self.leaf_height ==> r == self.leaf(x as int, y as int).low,
    {
        if x >= self.leaf_width || y >= self.leaf_height {
            return 0;
        }
        proof {
            lemma_wf_parents(self);
            lemma_mul_index(x as int, y as int, self.leaf_width as int, self.leaf_height as int);
        }
        let total = self.nodes.len();
        let leaf_idx = y * self.leaf_width + x;
        self.nodes[leaf_idx].low
    }

    /// Whether the value at leaf `(x, y)` has been coded and is below `threshold`
    /// (the code-block was included in an earlier layer); false outside the grid.
    pub fn is_known_below_threshold(&self, x: usize, y: usize, threshold: i32) -> (r: bool)
        requires
            self.wf(),
        ensures
            r == (x < self.leaf_width && y < self.leaf_height && self.leaf(x as int, y as int).known
                && self.leaf(x as int, y as int).low < threshold),
    {
        if x >= self.leaf_width || y >= self.leaf_height {
            return false;
        }
        proof {
            lemma_wf_parents(self);
            lemma_mul_index(x as int, y as int, self.leaf_width as int, self.leaf_height as int);
        }
        let total = self.nodes.len();
        let leaf_idx = y * self.leaf_width + x;
        let node = self.nodes[leaf_idx];
        node.known && node.low < threshold
    }

    /// Sets the value at leaf `(x, y)` and carries it up the tree: each node on the way
    /// to the root takes it, until one holds no more than it already. Nothing outside the grid.
    pub fn set_value(&mut self, x: usize, y: usize, value: i32)
        requires
            old(self).wf(),
        ensures
            final(self).wf(),
            final(self).leaf_width == old(self).leaf_width,
            final(self).leaf_height == old(self).leaf_height,
            final(self).nodes@.len() == old(self).nodes@.len(),
            forall|i: int|
                0 <= i < final(self).nodes@.len() ==> {
                    let n = #[trigger] final(self).nodes@[i];
                    let o = old(self).nodes@[i];
                    &&& n.low == o.low
                    &&& n.known == o.known
                    &&& n.parent_index == o.parent_index
                    &&& n.value == if x < old(self).leaf_width && y < old(self).leaf_height && propagates_to(
                        old(self).nodes@,
                        y * old(self).leaf_width + x,
                        value,
                        i,
                    ) {
                        value
                    } else {
                        o.value
                    }
                },
    {
        if x >= self.leaf_width || y >= self.leaf_height {
            return;
        }
        proof {
            lemma_wf_parents(self);
            lemma_mul_index(x as int, y as int, self.leaf_width as int, self.leaf_height as int);
        }
        let total = self.nodes.len();
        let leaf_idx = y * self.leaf_width + x;
        let ghost old_nodes = self.nodes@;
        let mut cur: usize = leaf_idx;
        loop
            invariant_except_break
                cur < self.nodes@.len(),
                forall|i: int|
                    0 <= i < self.nodes@.len() ==> (propagates_to(old_nodes, leaf_idx as int, value, i) <==> (
                    (#[trigger] self.nodes@[i]).value != old_nodes[i].value || propagates_to(
                        old_nodes,
                        cur as int,
                        value,
                        i,
                    ))),
                forall|i: int|
                    0 <= i < self.nodes@.len() && (#[trigger] self.nodes@[i]).value != old_nodes[i].value ==> i
                        < cur,
            invariant
                self.leaf_width == old(self).leaf_width,
                self.leaf_height == old(self).leaf_height,
                old_nodes == old(self).nodes@,
                self.nodes@.len() == old_nodes.len(),
                old(self).wf(),
                forall|i: int|
                    0 <= i < old_nodes.len() ==> match #[trigger] old_nodes[i].parent_index {
                        Some(p) => i < p < old_nodes.len(),
                        None => true,
                    },
                forall|i: int|
                    0 <= i < self.nodes@.len() ==> {
                        let n = #[trigger] self.nodes@[i];
                        let o = old_nodes[i];
                        &&& n.low == o.low
                        &&& n.known == o.known
                        &&& n.parent_index == o.parent_index
                        &&& (n.value != o.value ==> n.value == value)
                    },
            ensures
                forall|i: int|
                    0 <= i < self.nodes@.len() ==> (propagates_to(old_nodes, leaf_idx as int, value, i) <==> (
                    #[trigger] self.nodes@[i]).value != old_nodes[i].value),
            decreases self.nodes@.len() - cur,
        {
            let node = self.nodes[cur];
            if node.value <= value {
                break;
            }
            let mut n = node;
            n.value = value;
            self.nodes.set(cur, n);
            match node.parent_index {
                Some(p) => {
                    proof {
                        assert forall|i: int| 0 <= i < self.nodes@.len() implies (propagates_to(
                            old_nodes,
                            cur as int,
                            value,
                            i,
                        ) <==> (i == cur || propagates_to(old_nodes, p as int, value, i))) by {}
                    }
                    cur = p;
                },
                None => {
                    break;
                },
            }
        }
    }
}

impl TagTree {
    /// Codes the value at leaf `(x, y)` up to `threshold`, from the root down: for each
    /// node, a 0 for each level the value lies above, then a 1 once it is reached, if
    /// that was not coded before. Nothing outside the grid.
    pub fn encode(&mut self, writer: &mut J2kBitWriter, x: usize, y: usize, threshold: i32)
        requires
            old(self).wf(),
            old(writer).wf(),
        ensures
            final(self).wf(),
            final(writer).wf(),
            final(self).leaf_width == old(self).leaf_width,
            final(self).leaf_height == old(self).leaf_height,
            same_values(final(self).nodes@, old(self).nodes@),
            forall|i: int|
                0 <= i < final(self).nodes@.len() ==> (#[trigger] final(self).nodes@[i]).low >= old(
                    self,
                ).nodes@[i].low,
            x >= old(self).leaf_width || y >= old(self).leaf_height ==> final(self).nodes@ == old(self).nodes@
                && final(writer).state() == old(writer).state(),
            x < old(self).leaf_width && y < old(self).leaf_height ==> {
                let o = old(self).nodes@;
                let path = path_to_root(o, y * old(self).leaf_width + x);
                let t = threshold as int;
                &&& final(writer).state() == write_seq(old(writer).state(), path_bits(o, path, path.len(), t))
                &&& forall|k: int|
                    0 <= k < path.len() ==> #[trigger] final(self).nodes@[path[k]] == coded_node(
                        o[path[k]],
                        path_low(o, path, (path.len() - k - 1) as nat, t),
                        t,
                    )
                &&& forall|i: int| 0 <= i < o.len() && !path.contains(i) ==> #[trigger] final(self).nodes@[i] == o[i]
            },
    {
        if x >= self.leaf_width || y >= self.leaf_height {
            return;
        }
        proof {
            lemma_wf_parents(self);
            lemma_mul_index(x as int, y as int, self.leaf_width as int, self.leaf_height as int);
        }
        let total = self.nodes.len();
        let leaf_idx = y * self.leaf_width + x;
        let ghost o = self.nodes@;
        let ghost path = path_to_root(o, leaf_idx as int);
        let ghost t = threshold as int;
        let ghost w0 = writer.state();
        proof {
            lemma_path_increasing(o, leaf_idx as int);
        }
        let mut stack: Vec<usize> = Vec::new();
        let mut idx: usize = leaf_idx;
        loop
            invariant_except_break
                path_to_root(o, idx as int) == path.subrange(stack@.len() as int, path.len() as int),
                stack@.len() < path.len(),
            invariant
                total == self.nodes@.len(),
                idx < total,
                self.wf(),
                self.nodes@ == o,
                forall|i: int|
                    0 <= i < self.nodes@.len() ==> match #[trigger] self.nodes@[i].parent_index {
                        Some(p) => i < p < self.nodes@.len(),
                        None => true,
                    },
                forall|k: int| 0 <= k < stack@.len() ==> #[trigger] stack@[k] < total,
                forall|k: int| 0 <= k < stack@.len() ==> #[trigger] stack@[k] as int == path[k],
            ensures
                forall|k: int| 0 <= k < stack@.len() ==> #[trigger] stack@[k] < total,
                forall|k: int| 0 <= k < stack@.len() ==> #[trigger] stack@[k] as int == path[k],
                stack@.len() == path.len(),
            decreases total - idx,
        {
            let ghost before = stack@.len() as int;
            proof {
                lemma_path_increasing(o, idx as int);
                assert(path[before] == path_to_root(o, idx as int)[0]);
            }
            stack.push(idx);
            match self.nodes[idx].parent_index {
                Some(p) => {
                    proof {
                        let sub = path.subrange(before, path.len() as int);
                        let up = path_to_root(o, p as int);
                        assert(path_to_root(o, idx as int) == seq![idx as int] + up);
                        assert(sub == seq![idx as int] + up);
                        assert(sub.len() == up.len() + 1);
                        assert forall|q: int| 0 <= q < up.len() implies #[trigger] up[q] == path.subrange(
                            before + 1,
                            path.len() as int,
                        )[q] by {
                            assert(sub[q + 1] == up[q]);
                        }
                        assert(up =~= path.subrange(before + 1, path.len() as int));
                        lemma_path_increasing(o, p as int);
                    }
                    idx = p;
                },
                None => {
                    proof {
                        assert(path_to_root(o, idx as int) == seq![idx as int]);
                        assert(path.subrange(before, path.len() as int).len() == 1);
                        assert(stack@.len() == path.len());
                        assert forall|k: int| 0 <= k < stack@.len() implies #[trigger] stack@[k] as int == path[k] by {
                            if k == before {
                                assert(stack@[k] == idx);
                            }
                        }
                    }
                    break;
                },
            }
        }
        let mut low: i32 = 0;
        let ghost n_path = path.len();
        while stack.len() > 0
            invariant
                total == self.nodes@.len(),
                self.wf(),
                writer.wf(),
                self.leaf_width == old(self).leaf_width,
                self.leaf_height == old(self).leaf_height,
                o == old(self).nodes@,
                path == path_to_root(o, leaf_idx as int),
                n_path == path.len(),
                t == threshold as int,
                w0 == old(writer).state(),
                same_values(self.nodes@, old(self).nodes@),
                forall|i: int|
                    0 <= i < self.nodes@.len() ==> (#[trigger] self.nodes@[i]).low >= old(self).nodes@[i].low,
                forall|k: int| 0 <= k < stack@.len() ==> #[trigger] stack@[k] < total,
                forall|k: int| 0 <= k < stack@.len() ==> #[trigger] stack@[k] as int == path[k],
                stack@.len() <= n_path,
                forall|a: int| 0 <= a < path.len() ==> 0 <= #[trigger] path[a] < o.len(),
                forall|a: int, b: int| 0 <= a < b < path.len() ==> #[trigger] path[a] < #[trigger] path[b],
                low as int == path_low(o, path, (n_path - stack@.len()) as nat, t),
                writer.state() == write_seq(w0, path_bits(o, path, (n_path - stack@.len()) as nat, t)),
                forall|k: int|
                    stack@.len() <= k < n_path ==> #[trigger] self.nodes@[path[k]] == coded_node(
                        o[path[k]],
                        path_low(o, path, (n_path - k - 1) as nat, t),
                        t,
                    ),
                forall|i: int|
                    0 <= i < o.len() && !path.subrange(stack@.len() as int, n_path as int).contains(i) ==> #[trigger] self.nodes@[i]
                        == o[i],
            decreases stack@.len(),
        {
            let ghost m = (n_path - stack@.len()) as nat;
            let curr = stack.pop().unwrap();
            let ghost kk = stack@.len() as int;
            assert(curr as int == path[kk]);
            proof {
                assert(!path.subrange(kk + 1, n_path as int).contains(curr as int)) by {
                    if path.subrange(kk + 1, n_path as int).contains(curr as int) {
                        let q = choose|q: int| 0 <= q < n_path - kk - 1 && #[trigger] path.subrange(kk + 1, n_path as int)[q] == curr as int;
                        assert(path[kk] < path[kk + 1 + q]);
                    }
                }
            }
            let mut node = self.nodes[curr];
            let ghost n0 = node;
            assert(n0 == o[path[kk]]);
            let ghost entry = low as int;
            if low > node.low {
                node.low = low;
            } else {
                low = node.low;
            }
            let ghost l0 = low as int;
            let ghost l1 = coded_low(n0, entry, t);
            let ghost wb = writer.state();
            let ghost v0 = node.value;
            let ghost p0 = node.parent_index;
            while low < threshold
                invariant_except_break
                    l0 <= low <= l1,
                    writer.state() == write_seq(wb, zero_bits(low - l0)),
                    node.known == n0.known,
                invariant
                    writer.wf(),
                    low >= node.low,
                    node.low == l0,
                    node.value == v0,
                    node.parent_index == p0,
                    v0 == n0.value,
                    l0 == (if entry > n0.low { entry } else { n0.low as int }),
                    l1 == coded_low(n0, entry, t),
                    t == threshold as int,
                ensures
                    low == l1,
                    writer.state() == write_seq(wb, node_code(n0, entry, t)),
                    node.known == coded_known(n0, entry, t),
                    node.low == l0,
                    node.value == v0,
                    node.parent_index == p0,
                decreases threshold - low,
            {
                if low >= node.value {
                    if !node.known {
                        writer.write_bit(1);
                        node.known = true;
                        proof {
                            let z = write_seq(wb, zero_bits(low - l0));
                            lemma_write_seq_append(wb, zero_bits(low - l0), seq![1u8]);
                            assert(seq![1u8].drop_last() =~= Seq::<u8>::empty());
                            assert(write_seq(z, Seq::<u8>::empty()) == z);
                            assert(write_seq(z, seq![1u8]) == write_step(z, 1u8));
                        }
                    } else {
                        assert(zero_bits(low - l0) + seq![] =~= zero_bits(low - l0));
                    }
                    break;
                }
                writer.write_bit(0);
                proof {
                    assert(zero_bits(low + 1 - l0).drop_last() =~= zero_bits(low - l0));
                }
                low = low + 1;
            }
            proof {
                if l0 >= t {
                    assert(node_code(n0, entry, t) =~= zero_bits(0));
                    assert(zero_bits(0) =~= Seq::<u8>::empty());
                } else if !(low < threshold) {
                    assert(node_code(n0, entry, t) =~= zero_bits(low - l0));
                }
            }
            node.low = low;
            self.nodes.set(curr, node);
            proof {
                lemma_write_seq_append(w0, path_bits(o, path, m, t), node_code(n0, entry, t));
                assert(path.len() - (m + 1) == kk);
                assert(path_bits(o, path, m + 1, t) == path_bits(o, path, m, t) + node_code(n0, entry, t));
                assert(node == coded_node(n0, entry, t));
                assert forall|k: int|
                    kk <= k < n_path implies #[trigger] self.nodes@[path[k]] == coded_node(
                        o[path[k]],
                        path_low(o, path, (n_path - k - 1) as nat, t),
                        t,
                    ) by {
                    if k > kk {
                        assert(path[kk] < path[k]);
                    }
                }
                assert forall|i: int|
                    0 <= i < o.len() && !path.subrange(kk, n_path as int).contains(i) implies #[trigger] self.nodes@[i]
                        == o[i] by {
                    if path.subrange(kk + 1, n_path as int).contains(i) {
                        let q = choose|q: int| 0 <= q < n_path - kk - 1 && #[trigger] path.subrange(kk + 1, n_path as int)[q] == i;
                        assert(path.subrange(kk, n_path as int)[q + 1] == i);
                    }
                    if i == curr as int {
                        assert(path.subrange(kk, n_path as int)[0] == i);
                    }
                }
            }
        }
        proof {
            assert(path.subrange(0, n_path as int) =~= path);
        }
    }

    /// Decodes the value at leaf `(x, y)` up to `threshold`, from the lowest node already
    /// known down to the leaf: a 1 bit ends a node at its current level, a 0 raises it.
    /// Returns whether the leaf's level reached `threshold`; false outside the grid.
    pub fn decode(&mut self, reader: &mut J2kBitReader<'_, '_>, x: usize, y: usize, threshold: i32) -> (r: Result<
        bool,
        BitIoError,
    >)
        requires
            old(self).wf(),
            old(reader).wf(),
        ensures
            final(self).wf(),
            final(reader).wf(),
            final(reader).reader.same_but_pos(old(reader).reader),
            final(self).leaf_width == old(self).leaf_width,
            final(self).leaf_height == old(self).leaf_height,
            same_values(final(self).nodes@, old(self).nodes@),
            x >= old(self).leaf_width || y >= old(self).leaf_height ==> r == Ok::<bool, BitIoError>(false)
                && final(self).nodes@ == old(self).nodes@ && final(reader).state() == old(reader).state(),
            x < old(self).leaf_width && y < old(self).leaf_height && r is Ok ==> r->Ok_0 == (final(self).leaf(
                x as int,
                y as int,
            ).low >= threshold),
    {
        if x >= self.leaf_width || y >= self.leaf_height {
            return Ok(false);
        }
        proof {
            lemma_wf_parents(self);
            lemma_mul_index(x as int, y as int, self.leaf_width as int, self.leaf_height as int);
        }
        let total = self.nodes.len();
        let leaf_idx = y * self.leaf_width + x;
        let mut stack: Vec<usize> = Vec::new();
        let mut idx: usize = leaf_idx;
        loop
            invariant
                total == self.nodes@.len(),
                idx < total,
                self.wf(),
                forall|i: int|
                    0 <= i < self.nodes@.len() ==> match #[trigger] self.nodes@[i].parent_index {
                        Some(p) => i < p < self.nodes@.len(),
                        None => true,
                    },
                forall|k: int| 0 <= k < stack@.len() ==> #[trigger] stack@[k] < total,
            decreases total - idx,
        {
            stack.push(idx);
            let node = self.nodes[idx];
            if node.low >= threshold || node.known {
                break;
            }
            match node.parent_index {
                Some(p) => {
                    idx = p;
                },
                None => {
                    break;
                },
            }
        }
        while stack.len() > 0
            invariant
                total == self.nodes@.len(),
                leaf_idx < total,
                x < old(self).leaf_width && y < old(self).leaf_height,
                self.wf(),
                reader.wf(),
                reader.reader.same_but_pos(old(reader).reader),
                self.leaf_width == old(self).leaf_width,
                self.leaf_height == old(self).leaf_height,
                same_values(self.nodes@, old(self).nodes@),
                forall|i: int|
                    0 <= i < self.nodes@.len() ==> match #[trigger] self.nodes@[i].parent_index {
                        Some(p) => i < p < self.nodes@.len(),
                        None => true,
                    },
                forall|k: int| 0 <= k < stack@.len() ==> #[trigger] stack@[k] < total,
            decreases stack@.len(),
        {
            let curr = match stack.pop() {
                Some(c) => c,
                None => {
                    break;
                },
            };
            let parent_low = match self.nodes[curr].parent_index {
                Some(p_idx) => self.nodes[p_idx].low,
                None => 0,
            };
            let mut node = self.nodes[curr];
            if node.low < parent_low {
                node.low = parent_low;
            }
            let ghost v0 = node.value;
            let ghost p0 = node.parent_index;
            while node.low < threshold
                invariant
                    reader.wf(),
                    reader.reader.same_but_pos(old(reader).reader),
                    node.value == v0,
                    node.parent_index == p0,
                    x < old(self).leaf_width && y < old(self).leaf_height,
                    self.wf(),
                    self.leaf_width == old(self).leaf_width,
                    self.leaf_height == old(self).leaf_height,
                    same_values(self.nodes@, old(self).nodes@),
                decreases threshold - node.low,
            {
                if node.known {
                    break;
                }
                let bit = match reader.read_bit() {
                    Ok(b) => b,
                    Err(e) => {
                        return Err(e);
                    },
                };
                if bit == 1 {
                    node.known = true;
                    break;
                } else {
                    node.low = node.low + 1;
                }
            }
            self.nodes.set(curr, node);
        }
        let result = self.nodes[leaf_idx].low >= threshold;
        Ok(result)
    }
}
} // verus!
