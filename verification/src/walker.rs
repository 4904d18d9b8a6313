use vstd::prelude::*;
use vstd::multiset::Multiset;

use crate::entry::{reps_of, Entry, Kind};

verus! {

broadcast use
    vstd::seq_lib::group_to_multiset_ensures,
    vstd::seq_lib::lemma_multiset_commutative,
    vstd::multiset::group_multiset_axioms,
;

// ---------------------------------------------------------------------------
// Directory trees as values
// ---------------------------------------------------------------------------

/// A directory tree given as a value: one filesystem object carrying its
/// full path and, for a directory, its children.
pub enum FsTree {
    File(String),
    Dir(String, Vec<FsTree>),
    Other(String),
}

impl FsTree {
    /// The node's path.
    pub open spec fn path_view(self) -> Seq<char> {
        match self {
            FsTree::File(p) => p@,
            FsTree::Dir(p, _) => p@,
            FsTree::Other(p) => p@,
        }
    }

    /// The node's kind.
    pub open spec fn kind(self) -> Kind {
        match self {
            FsTree::File(_) => Kind::File,
            FsTree::Dir(_, _) => Kind::Dir,
            FsTree::Other(_) => Kind::Other,
        }
    }

    /// The node as an entry representation.
    pub open spec fn rep(self) -> (Seq<char>, Kind) {
        (self.path_view(), self.kind())
    }
}

/// Every entry of the forest `s`: each node of it, and everything below.
pub open spec fn forest_entries(s: Seq<FsTree>) -> Seq<(Seq<char>, Kind)>
    decreases s,
{
    if s.len() == 0 {
        Seq::empty()
    } else {
        forest_entries(s.drop_last()) + seq![s.last().rep()] + (match s.last() {
            FsTree::Dir(_, children) => forest_entries(children@),
            _ => Seq::empty(),
        })
    }
}

/// The entries strictly below a node: what a traversal rooted there must
/// discover. The root itself is not among them.
pub open spec fn below(t: FsTree) -> Seq<(Seq<char>, Kind)> {
    match t {
        FsTree::Dir(_, children) => forest_entries(children@),
        _ => Seq::empty(),
    }
}

/// The number of nodes in the forest `s`.
pub open spec fn forest_size(s: Seq<FsTree>) -> nat
    decreases s,
{
    if s.len() == 0 {
        0
    } else {
        forest_size(s.drop_last()) + 1 + (match s.last() {
            FsTree::Dir(_, children) => forest_size(children@),
            _ => 0nat,
        })
    }
}

/// The number of nodes of a tree.
pub open spec fn node_size(t: FsTree) -> nat {
    1 + (match t {
        FsTree::Dir(_, children) => forest_size(children@),
        _ => 0nat,
    })
}

/// The entries still owed by a work stack: everything below each of its
/// nodes.
pub open spec fn stack_below(s: Seq<FsTree>) -> Seq<(Seq<char>, Kind)>
    decreases s.len(),
{
    if s.len() == 0 {
        Seq::empty()
    } else {
        stack_below(s.drop_last()) + below(s.last())
    }
}

/// The total size of the trees on a work stack.
pub open spec fn stack_size(s: Seq<FsTree>) -> nat
    decreases s.len(),
{
    if s.len() == 0 {
        0
    } else {
        stack_size(s.drop_last()) + node_size(s.last())
    }
}

// ---------------------------------------------------------------------------
// Small facts about the stack measures
// ---------------------------------------------------------------------------

proof fn lemma_stack_push(s: Seq<FsTree>, t: FsTree)
    ensures
        stack_below(s.push(t)) == stack_below(s) + below(t),
        stack_size(s.push(t)) == stack_size(s) + node_size(t),
{
    assert(s.push(t).drop_last() =~= s);
    assert(s.push(t).last() == t);
}

proof fn lemma_forest_last(s: Seq<FsTree>)
    requires
        s.len() > 0,
    ensures
        forest_entries(s) == (forest_entries(s.drop_last()).push(s.last().rep())) + below(
            s.last(),
        ),
        forest_size(s) == forest_size(s.drop_last()) + node_size(s.last()),
{
    assert(forest_entries(s.drop_last()) + seq![s.last().rep()] =~= forest_entries(
        s.drop_last(),
    ).push(s.last().rep()));
    assert(forest_entries(s) =~= (forest_entries(s.drop_last()).push(s.last().rep())) + below(
        s.last(),
    ));
}

proof fn lemma_empty_to_multiset<A>()
    ensures
        Seq::<A>::empty().to_multiset() == Multiset::<A>::empty(),
{
    assert(Seq::<A>::empty().to_multiset() =~= Multiset::<A>::empty()) by {
        assert forall|y: A| Seq::<A>::empty().to_multiset().count(y) == 0 by {
            assert(!Seq::<A>::empty().contains(y));
        }
    }
}

// ---------------------------------------------------------------------------
// The traversal
// ---------------------------------------------------------------------------

/// Walks the directory tree `root` with an explicit work stack and returns
/// every entry reachable from the root by following subdirectories — the
/// entries of every kind, the root itself excluded. The order of discovery
/// is not part of the contract: the result is stated as a multiset, and
/// element for element.
pub fn walk(root: FsTree) -> (r: Vec<Entry>)
    ensures
        reps_of(r@).to_multiset() == below(root).to_multiset(),
        forall|x: (Seq<char>, Kind)| reps_of(r@).contains(x) <==> below(root).contains(x),
{
    let ghost total = below(root);
    let mut stack: Vec<FsTree> = Vec::new();
    let mut found: Vec<Entry> = Vec::new();
    stack.push(root);
    proof {
        lemma_empty_to_multiset::<(Seq<char>, Kind)>();
        assert(reps_of(found@) =~= Seq::<(Seq<char>, Kind)>::empty());
        lemma_stack_push(Seq::<FsTree>::empty(), root);
        assert(stack@ == Seq::<FsTree>::empty().push(root));
        assert(Seq::<(Seq<char>, Kind)>::empty() + below(root) =~= below(root));
        assert(stack_below(stack@) =~= total);
        assert(reps_of(found@).to_multiset().add(stack_below(stack@).to_multiset())
            =~= total.to_multiset());
    }
    while stack.len() > 0
        invariant
            reps_of(found@).to_multiset().add(stack_below(stack@).to_multiset())
                == total.to_multiset(),
        decreases stack_size(stack@),
    {
        let ghost s0 = stack@;
        let t = stack.pop().unwrap();
        let ghost tg = t;
        proof {
            assert(stack@ =~= s0.drop_last());
            assert(s0.last() == tg);
            assert(stack_below(s0) == stack_below(stack@) + below(tg));
            assert(stack_size(s0) == stack_size(stack@) + node_size(tg));
            assert(stack_below(s0).to_multiset() == stack_below(stack@).to_multiset().add(
                below(tg).to_multiset(),
            ));
        }
        let ghost m0: int = stack_size(s0) as int;
        match t {
            FsTree::Dir(_, mut children) => {
                proof {
                    assert(below(tg) == forest_entries(children@));
                    assert(node_size(tg) == 1 + forest_size(children@));
                }
                while children.len() > 0
                    invariant
                        reps_of(found@).to_multiset().add(
                            stack_below(stack@).to_multiset(),
                        ).add(forest_entries(children@).to_multiset()) == total.to_multiset(),
                        stack_size(stack@) + forest_size(children@) <= m0 - 1,
                    decreases children.len(),
                {
                    let ghost c0 = children@;
                    let ghost found0 = found@;
                    let ghost stack0 = stack@;
                    let c = children.pop().unwrap();
                    let ghost cg = c;
                    proof {
                        assert(children@ =~= c0.drop_last());
                        assert(c0.last() == cg);
                        lemma_forest_last(c0);
                        assert(forest_entries(c0).to_multiset() == forest_entries(
                            children@,
                        ).to_multiset().insert(cg.rep()).add(below(cg).to_multiset()));
                        assert(forest_size(c0) == forest_size(children@) + node_size(cg));
                    }
                    match c {
                        FsTree::File(p) => {
                            found.push(Entry { path: p, kind: Kind::File });
                            proof {
                                lemma_empty_to_multiset::<(Seq<char>, Kind)>();
                                assert(below(cg) =~= Seq::<(Seq<char>, Kind)>::empty());
                                assert(reps_of(found@) =~= reps_of(found0).push(cg.rep()));
                            }
                        },
                        FsTree::Other(p) => {
                            found.push(Entry { path: p, kind: Kind::Other });
                            proof {
                                lemma_empty_to_multiset::<(Seq<char>, Kind)>();
                                assert(below(cg) =~= Seq::<(Seq<char>, Kind)>::empty());
                                assert(reps_of(found@) =~= reps_of(found0).push(cg.rep()));
                            }
                        },
                        FsTree::Dir(p, sub) => {
                            found.push(Entry { path: p.clone(), kind: Kind::Dir });
                            stack.push(FsTree::Dir(p, sub));
                            proof {
                                assert(stack@.last() == cg);
                                assert(reps_of(found@) =~= reps_of(found0).push(cg.rep()));
                                lemma_stack_push(stack0, cg);
                                assert(stack_below(stack@).to_multiset() == stack_below(
                                    stack0,
                                ).to_multiset().add(below(cg).to_multiset()));
                            }
                        },
                    }
                    proof {
                        assert(reps_of(found@).to_multiset() == reps_of(
                            found0,
                        ).to_multiset().insert(cg.rep()));
                        assert(reps_of(found@).to_multiset().add(
                            stack_below(stack@).to_multiset(),
                        ).add(forest_entries(children@).to_multiset()) =~= total.to_multiset());
                    }
                }
                proof {
                    lemma_empty_to_multiset::<(Seq<char>, Kind)>();
                    assert(forest_entries(children@) =~= Seq::<(Seq<char>, Kind)>::empty());
                    assert(reps_of(found@).to_multiset().add(stack_below(stack@).to_multiset())
                        =~= total.to_multiset());
                }
            },
            _ => {
                proof {
                    lemma_empty_to_multiset::<(Seq<char>, Kind)>();
                    assert(below(tg) =~= Seq::<(Seq<char>, Kind)>::empty());
                    assert(reps_of(found@).to_multiset().add(stack_below(stack@).to_multiset())
                        =~= total.to_multiset());
                }
            },
        }
    }
    proof {
        lemma_empty_to_multiset::<(Seq<char>, Kind)>();
        assert(stack@ =~= Seq::<FsTree>::empty());
        assert(reps_of(found@).to_multiset() =~= total.to_multiset());
        assert forall|x: (Seq<char>, Kind)| reps_of(found@).contains(x) <==> total.contains(
            x,
        ) by {
            assert(reps_of(found@).to_multiset().count(x) == total.to_multiset().count(x));
        }
    }
    found
}

// ---------------------------------------------------------------------------
// The traversal as a state machine, for a live directory tree
// ---------------------------------------------------------------------------

/// The path strings of the directory entries of `children`, in order: what
/// a traversal still has to expand after recording them.
pub open spec fn dir_paths(children: Seq<Entry>) -> Seq<String>
    decreases children.len(),
{
    if children.len() == 0 {
        Seq::empty()
    } else {
        let rest = dir_paths(children.drop_last());
        if children.last().kind == Kind::Dir {
            rest.push(children.last().path)
        } else {
            rest
        }
    }
}

/// The walk over a live directory tree, one directory listing at a time.
///
/// The caller repeatedly takes the next pending path with `next_pending`,
/// reads that directory itself — the one step this library cannot take —
/// and hands every child it obtained to `record_children`; a path that
/// cannot be read, or a child that cannot be resolved, is diagnosed by the
/// caller and simply not handed back, so one unreadable subtree never
/// aborts the walk. `walk` above performs exactly these steps over a tree
/// given as a value.
pub struct Walker {
    pub pending: Vec<String>,
    pub found: Vec<Entry>,
}

impl Walker {
    /// Starts a walk: the root is pending, and not itself recorded.
    pub fn new(root: String) -> (w: Walker)
        ensures
            w.pending@ == Seq::<String>::empty().push(root),
            w.found@ == Seq::<Entry>::empty(),
    {
        let mut pending: Vec<String> = Vec::new();
        pending.push(root);
        Walker { pending, found: Vec::new() }
    }

    /// Takes the next path to read, if any is left.
    pub fn next_pending(&mut self) -> (r: Option<String>)
        ensures
            old(self).pending@.len() == 0 ==> r is None && final(self).pending@ == old(
                self,
            ).pending@ && final(self).found@ == old(self).found@,
            old(self).pending@.len() > 0 ==> r == Some(old(self).pending@.last())
                && final(self).pending@ == old(self).pending@.drop_last() && final(self).found@
                == old(self).found@,
    {
        proof {
            if old(self).pending@.len() > 0 {
                assert(old(self).pending@.subrange(0, old(self).pending@.len() - 1)
                    =~= old(self).pending@.drop_last());
            }
        }
        self.pending.pop()
    }

    /// Records every child of one directory listing: each becomes a
    /// discovered entry, and each child directory becomes pending.
    pub fn record_children(&mut self, children: &Vec<Entry>)
        ensures
            final(self).found@ == old(self).found@ + children@,
            final(self).pending@ == old(self).pending@ + dir_paths(children@),
    {
        let ghost found0 = self.found@;
        let ghost pending0 = self.pending@;
        let mut i: usize = 0;
        while i < children.len()
            invariant
                i <= children.len(),
                self.found@ == found0 + children@.take(i as int),
                self.pending@ == pending0 + dir_paths(children@.take(i as int)),
            decreases children.len() - i,
        {
            proof {
                let t = children@.take(i + 1);
                assert(t.drop_last() =~= children@.take(i as int));
                assert(t.last() == children@[i as int]);
            }
            self.found.push(children[i].clone());
            proof {
                assert(self.found@ =~= found0 + children@.take(i + 1));
            }
            if children[i].kind == Kind::Dir {
                self.pending.push(children[i].path.clone());
            }
            proof {
                assert(self.pending@ =~= pending0 + dir_paths(children@.take(i + 1)));
            }
            i = i + 1;
        }
        proof {
            assert(children@.take(children@.len() as int) =~= children@);
        }
    }

    /// Ends the walk, yielding everything discovered.
    pub fn into_found(self) -> (r: Vec<Entry>)
        ensures
            r@ == self.found@,
    {
        self.found
    }
}

} // verus!
