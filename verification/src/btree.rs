//! A B+tree held in memory: the entries lie in the leaves, in key order, and
//! all leaves lie at one depth.

use core::cmp::Ordering;
use vstd::prelude::*;
use vstd::std_specs::cmp::{PartialEqSpec, PartialOrdSpec};

verus! {

/// Whether the order and the equality of `K` are the ones that its
/// specifications state.
pub open spec fn ordered<K: PartialOrd>() -> bool {
    K::obeys_partial_cmp_spec() && K::obeys_eq_spec()
}

/// Whether `a` comes before `b`.
pub open spec fn key_less<K: PartialOrd>(a: K, b: K) -> bool {
    a.partial_cmp_spec(&b) == Some(Ordering::Less)
}

/// Whether `a` and `b` are equal keys.
pub open spec fn key_same<K: PartialOrd>(a: K, b: K) -> bool {
    a.eq_spec(&b)
}

fn less<K: PartialOrd>(a: &K, b: &K) -> (r: bool)
    ensures
        ordered::<K>() ==> r == key_less(*a, *b),
{
    *a < *b
}

fn same<K: PartialOrd>(a: &K, b: &K) -> (r: bool)
    ensures
        ordered::<K>() ==> r == key_same(*a, *b),
{
    *a == *b
}

/// A node that holds separator keys and children, one child more than keys.
pub struct InternalNode<K, V> {
    pub keys: Vec<K>,
    pub children: Vec<BTreeNode<K, V>>,
}

/// A node that holds entries.
pub struct LeafNode<K, V> {
    pub entries: Vec<(K, V)>,
    pub next_node: Option<Box<LeafNode<K, V>>>,
}

pub enum BTreeNode<K, V> {
    Internal(InternalNode<K, V>),
    LeafNode(LeafNode<K, V>),
}

/// The entries below `node`, a node `height` levels above the leaves, from
/// left to right.
pub open spec fn entries_of<K, V>(node: BTreeNode<K, V>, height: nat) -> Seq<(K, V)>
    decreases height, 0nat,
{
    match node {
        BTreeNode::LeafNode(leaf) => leaf.entries@,
        BTreeNode::Internal(internal) => if height == 0 {
            Seq::empty()
        } else {
            entries_below(
                internal.children@,
                internal.children@.len(),
                (height - 1) as nat,
            )
        },
    }
}

/// The entries below the first `n` of `children`, nodes `height` levels
/// above the leaves, from left to right.
pub open spec fn entries_below<K, V>(children: Seq<BTreeNode<K, V>>, n: nat, height: nat) -> Seq<
    (K, V),
>
    decreases height, n + 1,
{
    if n == 0 {
        Seq::empty()
    } else {
        entries_below(children, (n - 1) as nat, height) + entries_of(children[n - 1], height)
    }
}

/// The shape of a node `height` levels above the leaves in a tree of
/// minimum degree `t`: at most `2t - 1` keys or entries; a leaf exactly
/// where the height is zero; one child more than keys; every child of the
/// same shape, one level lower.
pub open spec fn node_wf<K, V>(node: BTreeNode<K, V>, t: int, height: nat) -> bool
    decreases height,
{
    match node {
        BTreeNode::LeafNode(leaf) => height == 0 && leaf.entries@.len() <= 2 * t - 1,
        BTreeNode::Internal(internal) => height > 0 && internal.keys@.len() <= 2 * t - 1
            && internal.children@.len() == internal.keys@.len() + 1 && forall|i: int|
            0 <= i < internal.children@.len() ==> node_wf(
                #[trigger] internal.children@[i],
                t,
                (height - 1) as nat,
            ),
    }
}

/// The number of keys of an internal node, of entries of a leaf.
pub open spec fn fill<K, V>(node: BTreeNode<K, V>) -> nat {
    match node {
        BTreeNode::LeafNode(leaf) => leaf.entries@.len(),
        BTreeNode::Internal(internal) => internal.keys@.len(),
    }
}

/// The first index from `i` on whose key does not come before `key`, or
/// the number of keys.
pub open spec fn lower_bound<K: PartialOrd>(keys: Seq<K>, key: K, i: int) -> int
    decreases keys.len() - i,
{
    if 0 <= i < keys.len() && key_less(keys[i], key) {
        lower_bound(keys, key, i + 1)
    } else {
        i
    }
}

/// The first index from `i` on whose entry has the key `key`, or the
/// number of entries.
pub open spec fn first_match<K: PartialOrd, V>(entries: Seq<(K, V)>, key: K, i: int) -> int
    decreases entries.len() - i,
{
    if 0 <= i < entries.len() && !key_same(entries[i].0, key) {
        first_match(entries, key, i + 1)
    } else {
        i
    }
}

/// The value that a search for `key` finds below `node`: the search goes
/// down by the child at the lower bound of `key` among the separators, and
/// takes the first entry of the leaf with that key.
pub open spec fn search<K: PartialOrd, V>(node: BTreeNode<K, V>, key: K, height: nat) -> Option<V>
    decreases height,
{
    match node {
        BTreeNode::LeafNode(leaf) => {
            let at = first_match(leaf.entries@, key, 0);
            if 0 <= at < leaf.entries@.len() {
                Some(leaf.entries@[at].1)
            } else {
                None
            }
        },
        BTreeNode::Internal(internal) => {
            let index = lower_bound(internal.keys@, key, 0);
            if height > 0 && 0 <= index < internal.children@.len() {
                search(internal.children@[index], key, (height - 1) as nat)
            } else {
                None
            }
        },
    }
}

/// Where every key from `from` up to `at` comes before `key`, and the key
/// at `at`, if there is one, does not, `at` is the lower bound of `key`.
pub proof fn lemma_lower_bound<K: PartialOrd>(keys: Seq<K>, key: K, from: int, at: int)
    requires
        0 <= from <= at <= keys.len(),
        forall|m: int| from <= m < at ==> key_less(#[trigger] keys[m], key),
        at == keys.len() || !key_less(keys[at], key),
    ensures
        lower_bound(keys, key, from) == at,
    decreases at - from,
{
    if from < at {
        assert(key_less(keys[from], key));
        lemma_lower_bound(keys, key, from + 1, at);
    }
}

/// Where an entry has the key `key`, the first match of `key` is that
/// entry or one before it.
pub proof fn lemma_first_match<K: PartialOrd, V>(entries: Seq<(K, V)>, key: K, from: int, at: int)
    requires
        0 <= from <= at < entries.len(),
        key_same(entries[at].0, key),
    ensures
        from <= first_match(entries, key, from) <= at,
    decreases at - from,
{
    if from < at && !key_same(entries[from].0, key) {
        lemma_first_match(entries, key, from + 1, at);
    }
}

/// The entries below two runs of children, one after the other.
pub proof fn lemma_entries_concat<K, V>(
    a: Seq<BTreeNode<K, V>>,
    b: Seq<BTreeNode<K, V>>,
    n: nat,
    height: nat,
)
    requires
        n <= b.len(),
    ensures
        entries_below(a + b, a.len() + n, height) == entries_below(a, a.len(), height)
            + entries_below(b, n, height),
    decreases n,
{
    if n == 0 {
        lemma_entries_same(a + b, a, a.len(), height);
        assert(entries_below(a, a.len(), height) + Seq::<(K, V)>::empty() =~= entries_below(
            a,
            a.len(),
            height,
        ));
    } else {
        lemma_entries_concat(a, b, (n - 1) as nat, height);
        assert((a + b)[a.len() + n - 1] == b[n - 1]);
        assert(entries_below(a + b, a.len() + n, height) =~= entries_below(a, a.len(), height)
            + entries_below(b, n, height));
    }
}

/// Children that agree on their first `n` have the same entries there.
pub proof fn lemma_entries_same<K, V>(
    a: Seq<BTreeNode<K, V>>,
    b: Seq<BTreeNode<K, V>>,
    n: nat,
    height: nat,
)
    requires
        n <= a.len(),
        n <= b.len(),
        forall|i: int| 0 <= i < n ==> a[i] == b[i],
    ensures
        entries_below(a, n, height) == entries_below(b, n, height),
    decreases n,
{
    if n > 0 {
        lemma_entries_same(a, b, (n - 1) as nat, height);
    }
}

/// The entries below the children, with the child at `at` set apart.
pub proof fn lemma_entries_around<K, V>(children: Seq<BTreeNode<K, V>>, at: int, height: nat)
    requires
        0 <= at < children.len(),
    ensures
        entries_below(children, children.len(), height) == entries_below(
            children.take(at),
            at as nat,
            height,
        ) + entries_of(children[at], height) + entries_below(
            children.skip(at + 1),
            (children.len() - at - 1) as nat,
            height,
        ),
{
    let left = children.take(at + 1);
    let right = children.skip(at + 1);
    assert(children =~= left + right);
    lemma_entries_concat(left, right, right.len(), height);
    lemma_entries_same(left, children.take(at), at as nat, height);
    assert(left[at] == children[at]);
}

/// Putting an entry among the entries below one child puts it among the
/// entries below all children.
pub proof fn lemma_child_grown<K, V>(
    before: Seq<BTreeNode<K, V>>,
    after: Seq<BTreeNode<K, V>>,
    i: int,
    height: nat,
    entry: (K, V),
)
    requires
        0 <= i < before.len(),
        after.len() == before.len(),
        forall|k: int| 0 <= k < before.len() && k != i ==> after[k] == before[k],
        exists|at: int|
            0 <= at <= entries_of(before[i], height).len() && #[trigger] entries_of(
                before[i],
                height,
            ).insert(at, entry) == entries_of(after[i], height),
    ensures
        exists|at: int|
            0 <= at <= entries_below(before, before.len(), height).len()
                && #[trigger] entries_below(before, before.len(), height).insert(at, entry)
                == entries_below(after, after.len(), height),
{
    let child = entries_of(before[i], height);
    let at = choose|at: int|
        0 <= at <= child.len() && #[trigger] child.insert(at, entry) == entries_of(
            after[i],
            height,
        );
    lemma_entries_around(before, i, height);
    lemma_entries_around(after, i, height);
    assert(after.take(i) =~= before.take(i));
    assert(after.skip(i + 1) =~= before.skip(i + 1));
    let left = entries_below(before.take(i), i as nat, height);
    let right = entries_below(before.skip(i + 1), (before.len() - i - 1) as nat, height);
    let all = entries_below(before, before.len(), height);
    assert(all.insert(left.len() + at, entry) =~= left + child.insert(at, entry) + right);
}

/// A B+tree of minimum degree `min_degree`: every node but the root holds
/// at least `min_degree - 1` and at most `2 * min_degree - 1` keys.
pub struct BTree<K, V> where K: PartialOrd + Clone, V: Clone {
    pub root: Option<BTreeNode<K, V>>,
    pub min_degree: usize,
    /// The number of levels between the root and the leaves.
    pub height: Ghost<nat>,
}

impl<K, V> BTree<K, V> where K: PartialOrd + Clone, V: Clone {
    /// The tree invariant: a minimum degree of at least 3, and a root of
    /// the shape of [`node_wf`].
    pub open spec fn wf(self) -> bool {
        &&& 3 <= self.min_degree <= usize::MAX / 2
        &&& match self.root {
            Some(root) => node_wf(root, self.min_degree as int, self.height@),
            None => true,
        }
    }

    /// The entries of the tree, from left to right.
    pub open spec fn entries(self) -> Seq<(K, V)> {
        match self.root {
            Some(root) => entries_of(root, self.height@),
            None => Seq::empty(),
        }
    }

    /// The value that a search for `key` finds.
    pub open spec fn found(self, key: K) -> Option<V> {
        match self.root {
            Some(root) => search(root, key, self.height@),
            None => None,
        }
    }

    /// An empty tree.
    pub fn new(min_degree: usize) -> (tree: Self)
        requires
            3 <= min_degree <= usize::MAX / 2,
        ensures
            tree.wf(),
            tree.root is None,
            tree.min_degree == min_degree,
            tree.entries().len() == 0,
    {
        Self { root: None, min_degree, height: Ghost(0) }
    }

    /// Puts the entry into the leaf that a search for `key` ends in, before
    /// the first entry there that does not come before `key`. A full node
    /// on the way down is split in two first. A search for `key` then finds
    /// an entry, where the key is equal to itself.
    pub fn insert(&mut self, key: K, val: V)
        requires
            old(self).wf(),
        ensures
            final(self).wf(),
            final(self).root is Some,
            final(self).min_degree == old(self).min_degree,
            exists|at: int|
                0 <= at <= old(self).entries().len() && #[trigger] old(self).entries().insert(
                    at,
                    (key, val),
                ) == final(self).entries(),
            ordered::<K>() && key_same(key, key) ==> final(self).found(key) is Some,
    {
        let t: usize = self.min_degree;
        let ghost before = old(self).entries();
        let root = match self.root.take() {
            None => {
                let mut entries: Vec<(K, V)> = Vec::new();
                entries.push((key, val));
                self.root = Some(BTreeNode::LeafNode(LeafNode { entries, next_node: None }));
                self.height = Ghost(0);
                assert(before.insert(0, (key, val)) =~= self.entries());
                proof {
                    if key_same(key, key) {
                        lemma_first_match(entries@, key, 0, 0);
                    }
                }
                return ;
            },
            Some(root) => root,
        };
        let ghost h = self.height@;
        let mut root = if Self::is_full(&root, t) {
            let mut children: Vec<BTreeNode<K, V>> = Vec::new();
            children.push(root);
            let mut new_root = InternalNode { keys: Vec::new(), children };
            proof {
                assert(entries_below(new_root.children@, 1, h) =~= before) by {
                    assert(entries_below(new_root.children@, 0, h) =~= Seq::<(K, V)>::empty());
                }
            }
            Self::split_child_helper(&mut new_root, 0, t, Ghost(h + 1));
            self.height = Ghost(h + 1);
            BTreeNode::Internal(new_root)
        } else {
            root
        };
        Self::insert_non_full_helper(&mut root, key, val, t, Ghost(self.height@));
        self.root = Some(root);
    }

    /// Whether the node holds as many keys as a node may hold.
    fn is_full(node: &BTreeNode<K, V>, min_degree: usize) -> (full: bool)
        requires
            3 <= min_degree <= usize::MAX / 2,
        ensures
            full == (fill(*node) == 2 * min_degree - 1),
    {
        let max_keys: usize = 2 * min_degree - 1;
        match node {
            BTreeNode::LeafNode(leaf) => leaf.entries.len() == max_keys,
            BTreeNode::Internal(internal) => internal.keys.len() == max_keys,
        }
    }

    /// Whether the node holds as many keys as a node may hold.
    pub fn is_node_full(&self, node: &BTreeNode<K, V>) -> (full: bool)
        requires
            self.wf(),
        ensures
            full == (fill(*node) == 2 * self.min_degree - 1),
    {
        Self::is_full(node, self.min_degree)
    }

    /// Puts the entry below a node that is not full.
    fn insert_non_full_helper(
        node: &mut BTreeNode<K, V>,
        key: K,
        val: V,
        min_degree: usize,
        Ghost(height): Ghost<nat>,
    )
        requires
            3 <= min_degree <= usize::MAX / 2,
            node_wf(*old(node), min_degree as int, height),
            fill(*old(node)) < 2 * min_degree - 1,
        ensures
            node_wf(*final(node), min_degree as int, height),
            fill(*final(node)) <= fill(*old(node)) + 1,
            exists|at: int|
                0 <= at <= entries_of(*old(node), height).len() && #[trigger] entries_of(
                    *old(node),
                    height,
                ).insert(at, (key, val)) == entries_of(*final(node), height),
            ordered::<K>() && key_same(key, key) ==> search(*final(node), key, height) is Some,
        decreases height,
    {
        let ghost entry = (key, val);
        let ghost old_entries = entries_of(*node, height);
        match node {
            BTreeNode::LeafNode(leaf) => {
                let ghost before = leaf.entries@;
                assert(old_entries == before);
                let mut index: usize = 0;
                while index < leaf.entries.len() && less(&leaf.entries[index].0, &key)
                    invariant
                        index <= leaf.entries@.len(),
                        leaf.entries@ == before,
                    decreases leaf.entries@.len() - index,
                {
                    index += 1;
                }
                leaf.entries.insert(index, (key, val));
                assert(old_entries.insert(index as int, entry) == leaf.entries@);
                proof {
                    if key_same(entry.0, entry.0) {
                        lemma_first_match(leaf.entries@, entry.0, 0, index as int);
                    }
                }
            },
            BTreeNode::Internal(internal) => {
                let mut index: usize = 0;
                let ghost keys_before = internal.keys@;
                while index < internal.keys.len() && less(&internal.keys[index], &key)
                    invariant
                        index <= internal.keys@.len(),
                        internal.keys@ == keys_before,
                        ordered::<K>() ==> forall|m: int|
                            0 <= m < index ==> key_less(#[trigger] keys_before[m], key),
                    decreases internal.keys@.len() - index,
                {
                    index += 1;
                }
                let ghost stop = index as int;
                assert(ordered::<K>() ==> stop == keys_before.len() || !key_less(
                    keys_before[stop],
                    key,
                ));
                let ghost below = (height - 1) as nat;
                assert(old_entries == entries_below(
                    internal.children@,
                    internal.children@.len(),
                    below,
                ));
                assert(node_wf(internal.children@[index as int], min_degree as int, below));
                if Self::is_full(&internal.children[index], min_degree) {
                    Self::split_child_helper(internal, index, min_degree, Ghost(height));
                    if less(&internal.keys[index], &key) {
                        index += 1;
                    }
                }
                let ghost children = internal.children@;
                let ghost keys = internal.keys@;
                proof {
                    if ordered::<K>() {
                        assert forall|m: int| 0 <= m < index implies key_less(
                            #[trigger] keys[m],
                            entry.0,
                        ) by {
                            if m < stop {
                                assert(keys[m] == keys_before[m]);
                            }
                        }
                        if index < keys.len() && index > stop {
                            assert(keys.remove(stop)[stop] == keys_before[stop]);
                        }
                        lemma_lower_bound(keys, entry.0, 0, index as int);
                    }
                }
                assert(node_wf(children[index as int], min_degree as int, below));
                Self::insert_non_full_helper(
                    &mut internal.children[index],
                    key,
                    val,
                    min_degree,
                    Ghost(below),
                );
                proof {
                    let after = internal.children@;
                    assert forall|i: int| 0 <= i < after.len() implies node_wf(
                        #[trigger] after[i],
                        min_degree as int,
                        below,
                    ) by {
                        if i != index {
                            assert(after[i] == children[i]);
                        }
                    }
                    lemma_child_grown(children, after, index as int, below, entry);
                    let all = entries_below(children, children.len(), below);
                    assert(all == old_entries);
                    let at = choose|at: int|
                        0 <= at <= all.len() && #[trigger] all.insert(at, entry) == entries_below(
                            after,
                            after.len(),
                            below,
                        );
                    assert(old_entries.insert(at, entry) == entries_below(
                        internal.children@,
                        internal.children@.len(),
                        below,
                    ));
                }
            },
        }
    }

    /// Splits the full child `child_index` of `parent` in two, and puts the
    /// key between the two into `parent`.
    fn split_child_helper(
        parent: &mut InternalNode<K, V>,
        child_index: usize,
        min_degree: usize,
        Ghost(height): Ghost<nat>,
    )
        requires
            3 <= min_degree <= usize::MAX / 2,
            height > 0,
            old(parent).keys@.len() < 2 * min_degree - 1,
            old(parent).children@.len() == old(parent).keys@.len() + 1,
            child_index < old(parent).children@.len(),
            forall|i: int|
                0 <= i < old(parent).children@.len() ==> node_wf(
                    #[trigger] old(parent).children@[i],
                    min_degree as int,
                    (height - 1) as nat,
                ),
            fill(old(parent).children@[child_index as int]) == 2 * min_degree - 1,
        ensures
            node_wf(BTreeNode::Internal(*final(parent)), min_degree as int, height),
            final(parent).keys@.len() == old(parent).keys@.len() + 1,
            child_index + 1 < final(parent).children@.len(),
            child_index < final(parent).keys@.len(),
            final(parent).keys@.remove(child_index as int) == old(parent).keys@,
            fill(final(parent).children@[child_index as int]) < 2 * min_degree - 1,
            fill(final(parent).children@[child_index + 1]) < 2 * min_degree - 1,
            entries_below(final(parent).children@, final(parent).children@.len(), (height - 1) as nat)
                == entries_below(
                old(parent).children@,
                old(parent).children@.len(),
                (height - 1) as nat,
            ),
    {
        let mid_index: usize = min_degree - 1;
        let ghost below = (height - 1) as nat;
        let ghost children = parent.children@;
        let ghost child = children[child_index as int];
        let ghost whole = entries_of(child, below);
        assert(node_wf(child, min_degree as int, below));
        let (mid_key, new_node) = match &mut parent.children[child_index] {
            BTreeNode::LeafNode(full_leaf) => {
                let entries = full_leaf.entries.split_off(mid_index);
                let new_leaf = LeafNode { entries, next_node: full_leaf.next_node.take() };
                let mid_key = new_leaf.entries[0].0.clone();
                assert(full_leaf.entries@ + new_leaf.entries@ =~= whole);
                (mid_key, BTreeNode::LeafNode(new_leaf))
            },
            BTreeNode::Internal(full_internal) => {
                let ghost grand = full_internal.children@;
                let keys = full_internal.keys.split_off(mid_index + 1);
                let moved = full_internal.children.split_off(mid_index + 1);
                let new_internal = InternalNode { keys, children: moved };
                let mid_key = match full_internal.keys.pop() {
                    Some(k) => k,
                    None => new_internal.keys[0].clone(),
                };
                proof {
                    let lower = (below - 1) as nat;
                    assert(grand =~= full_internal.children@ + new_internal.children@);
                    lemma_entries_concat(
                        full_internal.children@,
                        new_internal.children@,
                        new_internal.children@.len(),
                        lower,
                    );
                    assert forall|i: int|
                        0 <= i < new_internal.children@.len() implies node_wf(
                        #[trigger] new_internal.children@[i],
                        min_degree as int,
                        lower,
                    ) by {
                        assert(new_internal.children@[i] == grand[mid_index + 1 + i]);
                    }
                    assert forall|i: int|
                        0 <= i < full_internal.children@.len() implies node_wf(
                        #[trigger] full_internal.children@[i],
                        min_degree as int,
                        lower,
                    ) by {
                        assert(full_internal.children@[i] == grand[i]);
                    }
                }
                (mid_key, BTreeNode::Internal(new_internal))
            },
        };
        let ghost left = parent.children@[child_index as int];
        let ghost mid = parent.children@;
        parent.keys.insert(child_index, mid_key);
        parent.children.insert(child_index + 1, new_node);
        proof {
            assert(parent.keys@.remove(child_index as int) =~= old(parent).keys@);
            let after = parent.children@;
            let i = child_index as int;
            assert(entries_of(left, below) + entries_of(new_node, below) == whole);
            assert forall|k: int| 0 <= k < after.len() implies node_wf(
                #[trigger] after[k],
                min_degree as int,
                below,
            ) by {
                if k < i {
                    assert(after[k] == children[k]);
                } else if k > i + 1 {
                    assert(after[k] == children[k - 1]);
                }
            }
            lemma_entries_around(children, i, below);
            let head = children.take(i);
            let tail = children.skip(i + 1);
            let pair = seq![left, new_node];
            assert(after =~= (head + pair) + tail);
            lemma_entries_concat(head + pair, tail, tail.len(), below);
            lemma_entries_concat(head, pair, 2, below);
            assert(entries_below(pair, 2, below) =~= entries_of(left, below) + entries_of(
                new_node,
                below,
            )) by {
                assert(entries_below(pair, 1, below) =~= entries_of(left, below)) by {
                    assert(entries_below(pair, 0, below) =~= Seq::<(K, V)>::empty());
                }
            }
        }
    }

    /// The value of the first entry with the key `key` in the leaf that a
    /// search for `key` ends in.
    pub fn get(&self, key: &K) -> (value: Option<&V>)
        requires
            self.wf(),
        ensures
            ordered::<K>() ==> match self.found(*key) {
                Some(v) => value == Some(&v),
                None => value is None,
            },
    {
        match &self.root {
            Some(root) => Self::get_node(
                root,
                key,
                Ghost(self.min_degree as int),
                Ghost(self.height@),
            ),
            None => None,
        }
    }

    /// Whether a search for `key` finds an entry.
    pub fn contains_key(&self, key: &K) -> (found: bool)
        requires
            self.wf(),
        ensures
            ordered::<K>() ==> found == self.found(*key).is_some(),
    {
        self.get(key).is_some()
    }

    #[verifier::loop_isolation(false)]
    fn get_node<'a>(
        node: &'a BTreeNode<K, V>,
        key: &K,
        Ghost(t): Ghost<int>,
        Ghost(height): Ghost<nat>,
    ) -> (value: Option<&'a V>)
        requires
            node_wf(*node, t, height),
        ensures
            ordered::<K>() ==> match search(*node, *key, height) {
                Some(v) => value == Some(&v),
                None => value is None,
            },
        decreases height,
    {
        match node {
            BTreeNode::LeafNode(leaf) => {
                let n: usize = leaf.entries.len();
                let mut i: usize = 0;
                while i < n
                    invariant
                        i <= n,
                        n == leaf.entries@.len(),
                        ordered::<K>() ==> first_match(leaf.entries@, *key, 0) == first_match(
                            leaf.entries@,
                            *key,
                            i as int,
                        ),
                    decreases n - i,
                {
                    if same(&leaf.entries[i].0, key) {
                        return Some(&leaf.entries[i].1);
                    }
                    i += 1;
                }
                None
            },
            BTreeNode::Internal(internal) => {
                let mut index: usize = 0;
                while index < internal.keys.len() && less(&internal.keys[index], key)
                    invariant
                        index <= internal.keys@.len(),
                        ordered::<K>() ==> lower_bound(internal.keys@, *key, 0) == lower_bound(
                            internal.keys@,
                            *key,
                            index as int,
                        ),
                    decreases internal.keys@.len() - index,
                {
                    index += 1;
                }
                if index < internal.children.len() {
                    Self::get_node(
                        &internal.children[index],
                        key,
                        Ghost(t),
                        Ghost((height - 1) as nat),
                    )
                } else {
                    None
                }
            },
        }
    }

    /// Whether the tree holds no entry.
    pub fn is_empty(&self) -> (empty: bool)
        ensures
            empty == self.root.is_none(),
    {
        self.root.is_none()
    }
}

} // verus!
