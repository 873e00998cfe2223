use std::collections::HashMap;
use crate::mode::opt_view;
use vstd::prelude::*;

verus! {

broadcast use vstd::std_specs::hash::group_hash_axioms;

/// One node of the trie: its children, keyed by code point, as indices into
/// the trie's node table, and the value of the key that ends here, if any.
struct TrieNode {
    children: HashMap<u32, usize>,
    value: Option<String>,
}

impl TrieNode {
    fn empty() -> (r: TrieNode)
        ensures
            r.children@ == Map::<u32, usize>::empty(),
            r.value is None,
    {
        TrieNode { children: HashMap::new(), value: None }
    }
}

/// A prefix tree from character sequences to strings. Node 0 is the root;
/// every other node is owned by exactly one parent, which names it by index.
pub struct EmojiTrie {
    nodes: Vec<TrieNode>,
    /// The node reached by each path that exists in the tree.
    paths: Ghost<Map<Seq<char>, int>>,
}

impl View for EmojiTrie {
    type V = Map<Seq<char>, Seq<char>>;

    /// The keys inserted so far, each with its value.
    closed spec fn view(&self) -> Map<Seq<char>, Seq<char>> {
        Map::new(
            |p: Seq<char>| self.paths@.contains_key(p) && self.nodes@[self.paths@[p]].value is Some,
            |p: Seq<char>| self.nodes@[self.paths@[p]].value->0@,
        )
    }
}

/// What a lookup of `key` in `m` gives.
pub open spec fn entry_of(m: Map<Seq<char>, Seq<char>>, key: Seq<char>) -> Option<Seq<char>> {
    if m.contains_key(key) {
        Some(m[key])
    } else {
        None
    }
}

impl EmojiTrie {
    spec fn child_of(&self, i: int, c: char) -> Option<int> {
        if self.nodes@[i].children@.contains_key(c as u32) {
            Some(self.nodes@[i].children@[c as u32] as int)
        } else {
            None
        }
    }

    spec fn path_child(&self, p: Seq<char>, c: char) -> Option<int> {
        if self.paths@.contains_key(p.push(c)) {
            Some(self.paths@[p.push(c)])
        } else {
            None
        }
    }

    /// The tree is well formed: the root has the empty path, paths name
    /// distinct nodes, every path's parent path exists, and a node's children
    /// are exactly the one-character extensions of its path.
    pub closed spec fn wf(&self) -> bool {
        &&& self.nodes@.len() > 0
        &&& self.paths@.contains_key(Seq::<char>::empty())
        &&& self.paths@[Seq::<char>::empty()] == 0
        &&& forall|p: Seq<char>| #[trigger]
            self.paths@.contains_key(p) ==> 0 <= self.paths@[p] < self.nodes@.len()
        &&& forall|p: Seq<char>, q: Seq<char>|
            self.paths@.contains_key(p) && self.paths@.contains_key(q) && #[trigger] self.paths@[p]
                == #[trigger] self.paths@[q] ==> p == q
        &&& forall|p: Seq<char>|
            #![trigger self.paths@.contains_key(p)]
            self.paths@.contains_key(p) && p.len() > 0 ==> self.paths@.contains_key(p.drop_last())
        &&& forall|p: Seq<char>, c: char|
            self.paths@.contains_key(p) ==> #[trigger] self.child_of(self.paths@[p], c)
                == self.path_child(p, c)
    }

    proof fn lemma_prefix_present(&self, p: Seq<char>, k: int)
        requires
            self.wf(),
            self.paths@.contains_key(p),
            0 <= k <= p.len(),
        ensures
            self.paths@.contains_key(p.take(k)),
        decreases p.len() - k,
    {
        if k == p.len() {
            assert(p.take(k) =~= p);
        } else {
            self.lemma_prefix_present(p, k + 1);
            let q = p.take(k + 1);
            assert(self.paths@.contains_key(q));
            assert(q.drop_last() =~= p.take(k));
        }
    }

    /// A trie with no keys.
    pub fn new() -> (r: EmojiTrie)
        ensures
            r.wf(),
            r@ == Map::<Seq<char>, Seq<char>>::empty(),
    {
        let mut nodes: Vec<TrieNode> = Vec::new();
        nodes.push(TrieNode::empty());
        let ghost paths = Map::<Seq<char>, int>::empty().insert(Seq::<char>::empty(), 0int);
        let r = EmojiTrie { nodes, paths: Ghost(paths) };
        assert forall|p: Seq<char>, c: char| r.paths@.contains_key(p) implies #[trigger] r.child_of(
            r.paths@[p],
            c,
        ) == r.path_child(p, c) by {
            assert(p.push(c).len() > 0);
            assert(!r.paths@.contains_key(p.push(c)));
        }
        assert(r@ =~= Map::<Seq<char>, Seq<char>>::empty());
        r
    }

    /// Follows `prefix` one character at a time from the root and returns
    /// the value stored at the node reached; nothing when a step has no
    /// matching child or that node ends no key.
    pub fn lookup(&self, prefix: &str) -> (r: Option<String>)
        requires
            self.wf(),
        ensures
            opt_view(r) == entry_of(self@, prefix@),
    {
        let mut cur: usize = 0;
        let ghost key = prefix@;
        assert(key.take(0) =~= Seq::<char>::empty());
        for c in it: prefix.chars()
            invariant
                self.wf(),
                it.seq() == key,
                key == prefix@,
                self.paths@.contains_key(key.take(it.index() as int)),
                cur as int == self.paths@[key.take(it.index() as int)],
        {
            let ghost p = key.take(it.index() as int);
            assert(key.take(it.index() + 1) =~= p.push(c));
            assert(self.child_of(cur as int, c) == self.path_child(p, c));
            match self.nodes[cur].children.get(&(c as u32)) {
                Some(next) => {
                    cur = *next;
                },
                None => {
                    proof {
                        assert(!self.nodes@[cur as int].children@.contains_key(c as u32));
                        assert(self.path_child(p, c) is None);
                        if self.paths@.contains_key(key) {
                            self.lemma_prefix_present(key, it.index() + 1);
                            assert(self.paths@.contains_key(p.push(c)));
                        }
                        assert(!self@.contains_key(key));
                    }
                    return None;
                },
            }
        }
        assert(key.take(key.len() as int) =~= key);
        match &self.nodes[cur].value {
            Some(v) => Some(v.clone()),
            None => None,
        }
    }

    /// Walks `key` from the root, creating the nodes that are missing, and
    /// sets the value at the node reached; an earlier value there is replaced.
    pub fn insert(&mut self, key: &str, value: String)
        requires
            old(self).wf(),
        ensures
            final(self).wf(),
            final(self)@ == old(self)@.insert(key@, value@),
    {
        let mut cur: usize = 0;
        let ghost k = key@;
        assert(k.take(0) =~= Seq::<char>::empty());
        for c in it: key.chars()
            invariant
                self.wf(),
                self@ == old(self)@,
                it.seq() == k,
                k == key@,
                self.paths@.contains_key(k.take(it.index() as int)),
                cur as int == self.paths@[k.take(it.index() as int)],
        {
            let ghost p = k.take(it.index() as int);
            assert(k.take(it.index() + 1) =~= p.push(c));
            assert(self.child_of(cur as int, c) == self.path_child(p, c));
            match self.nodes[cur].children.get(&(c as u32)) {
                Some(next) => {
                    cur = *next;
                },
                None => {
                    let ghost pre = *self;
                    let n = self.nodes.len();
                    self.nodes.push(TrieNode::empty());
                    self.nodes[cur].children.insert(c as u32, n);
                    self.paths = Ghost(self.paths@.insert(p.push(c), n as int));
                    proof {
                        self.lemma_extended(pre, p, c, n);
                    }
                    cur = n;
                },
            }
        }
        assert(k.take(k.len() as int) =~= k);
        let ghost pre = *self;
        self.nodes[cur].value = Some(value);
        proof {
            assert(self.wf()) by {
                assert forall|p: Seq<char>, d: char| self.paths@.contains_key(p) implies
                    #[trigger] self.child_of(self.paths@[p], d) == self.path_child(p, d) by {
                    assert(pre.child_of(pre.paths@[p], d) == pre.path_child(p, d));
                }
            }
            assert forall|p: Seq<char>| self.paths@.contains_key(p) && p != k implies
                self.paths@[p] != cur by {}
            assert(self@ =~= pre@.insert(k, value@));
        }
    }

    /// After a child for `c` was added below the node of path `p`, as node
    /// `pre.nodes.len()`, the tree is still well formed and holds the same keys.
    proof fn lemma_extended(&self, pre: EmojiTrie, p: Seq<char>, c: char, n: usize)
        requires
            n == pre.nodes@.len(),
            pre.wf(),
            pre.paths@.contains_key(p),
            !pre.paths@.contains_key(p.push(c)),
            self.paths@ == pre.paths@.insert(p.push(c), pre.nodes@.len() as int),
            self.nodes@.len() == pre.nodes@.len() + 1,
            self.nodes@[pre.nodes@.len() as int].children@ == Map::<u32, usize>::empty(),
            self.nodes@[pre.nodes@.len() as int].value is None,
            self.nodes@[pre.paths@[p]].children@ == pre.nodes@[pre.paths@[p]].children@.insert(
                c as u32,
                n,
            ),
            self.nodes@[pre.paths@[p]].value == pre.nodes@[pre.paths@[p]].value,
            forall|i: int|
                0 <= i < pre.nodes@.len() && i != pre.paths@[p] ==> #[trigger] self.nodes@[i]
                    == pre.nodes@[i],
        ensures
            self.wf(),
            self@ == pre@,
    {
        let q = p.push(c);
        assert(q.drop_last() =~= p);
        assert forall|r: Seq<char>, d: char| self.paths@.contains_key(r) implies
            #[trigger] self.child_of(self.paths@[r], d) == self.path_child(r, d) by {
            let rd = r.push(d);
            assert(rd.drop_last() =~= r);
            if r == q {
                assert(rd.len() == q.len() + 1);
                assert(!pre.paths@.contains_key(rd));
                assert(self.path_child(r, d) is None);
                assert(self.child_of(n as int, d) is None);
                assert(self.child_of(self.paths@[r], d) == self.path_child(r, d));
            } else {
                assert(pre.paths@.contains_key(r));
                assert(self.paths@[r] == pre.paths@[r]);
                assert(pre.child_of(pre.paths@[r], d) == pre.path_child(r, d));
                if rd == q {
                    assert(r =~= p);
                    assert(d == rd.last() && c == q.last());
                    assert(self.child_of(pre.paths@[p], c) == Some(n as int));
                    assert(self.path_child(p, c) == Some(n as int));
                    assert(self.child_of(self.paths@[r], d) == self.path_child(r, d));
                } else if pre.paths@[r] == pre.paths@[p] {
                    assert(r == p);
                    assert(d != c);
                    vstd::utf8::char_u32_cast(c, c as u32);
                    vstd::utf8::char_u32_cast(d, d as u32);
                    assert(self.child_of(pre.paths@[p], d) == pre.child_of(pre.paths@[p], d));
                    assert(self.path_child(r, d) == pre.path_child(r, d));
                    assert(self.child_of(self.paths@[r], d) == self.path_child(r, d));
                } else {
                    let i = pre.paths@[r];
                    assert(self.nodes@[i] == pre.nodes@[i]);
                    assert(self.child_of(i, d) == pre.child_of(i, d));
                    assert(self.path_child(r, d) == pre.path_child(r, d));
                }
            }
        }
        assert forall|r: Seq<char>, s: Seq<char>|
            self.paths@.contains_key(r) && self.paths@.contains_key(s) && #[trigger] self.paths@[r]
                == #[trigger] self.paths@[s] implies r == s by {
            if r != q && s != q {
                assert(pre.paths@.contains_key(r) && pre.paths@.contains_key(s));
            }
        }
        assert forall|r: Seq<char>|
            #![trigger self.paths@.contains_key(r)]
            self.paths@.contains_key(r) && r.len() > 0 implies self.paths@.contains_key(
                r.drop_last(),
            ) by {
            if r != q {
                assert(pre.paths@.contains_key(r));
            }
        }
        assert(self@ =~= pre@);
    }
}

} // verus!
