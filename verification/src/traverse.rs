use vstd::prelude::*;

verus! {

// The directory enumerator walks a tree with an explicit stack of open
// listing cursors instead of recursion: the top cursor is the most recently
// entered directory; a file entry is yielded at once, a directory entry
// pushes a new cursor, an exhausted cursor is popped. The tree is modelled
// as an arena: node `i` may only list children with indices below `i`.

/// One node of a directory tree: a regular file carrying its identity, or
/// a directory listing the indices of its entries.
pub enum FsNode {
    File(u64),
    Dir(Vec<usize>),
}

/// A directory tree held as an arena of nodes.
pub struct FsTree {
    pub nodes: Vec<FsNode>,
}

/// The entries a node lists: empty for a file or an index out of range.
pub open spec fn children_of(t: Seq<FsNode>, i: int) -> Seq<usize> {
    if 0 <= i < t.len() {
        match t[i] {
            FsNode::Dir(cs) => cs@,
            FsNode::File(_) => Seq::empty(),
        }
    } else {
        Seq::empty()
    }
}

/// Well-formedness of the arena: every listed entry has an index strictly
/// below the directory that lists it, so the tree has no cycles.
pub open spec fn tree_wf(t: Seq<FsNode>) -> bool {
    forall|i: int, j: int|
        0 <= i < t.len() && 0 <= j < children_of(t, i).len() ==> (#[trigger] children_of(t, i)[j])
            < i
}

/// Every regular file under node `i`, in listing order, directories
/// contributing nothing but their entries.
pub open spec fn files_of(t: Seq<FsNode>, i: int) -> Seq<u64>
    decreases i, 1int, 0int,
{
    if 0 <= i < t.len() {
        match t[i] {
            FsNode::File(id) => seq![id],
            FsNode::Dir(cs) => files_of_list(t, cs@, i),
        }
    } else {
        Seq::empty()
    }
}

/// The files under a list of entries, all expected below bound `b`.
pub open spec fn files_of_list(t: Seq<FsNode>, cs: Seq<usize>, b: int) -> Seq<u64>
    decreases b, 0int, cs.len(),
{
    if cs.len() == 0 {
        Seq::empty()
    } else if (cs[0] as int) < b {
        files_of(t, cs[0] as int) + files_of_list(t, cs.drop_first(), b)
    } else {
        files_of_list(t, cs.drop_first(), b)
    }
}

/// The number of nodes under node `i`, itself included.
pub open spec fn count_of(t: Seq<FsNode>, i: int) -> int
    decreases i, 1int, 0int,
{
    if 0 <= i < t.len() {
        match t[i] {
            FsNode::File(_) => 1int,
            FsNode::Dir(cs) => 1 + count_list(t, cs@, i),
        }
    } else {
        0
    }
}

/// The number of nodes under a list of entries below bound `b`.
pub open spec fn count_list(t: Seq<FsNode>, cs: Seq<usize>, b: int) -> int
    decreases b, 0int, cs.len(),
{
    if cs.len() == 0 {
        0
    } else if (cs[0] as int) < b {
        count_of(t, cs[0] as int) + count_list(t, cs.drop_first(), b)
    } else {
        count_list(t, cs.drop_first(), b)
    }
}

proof fn lemma_count_nonneg(t: Seq<FsNode>, i: int)
    ensures
        count_of(t, i) >= 0,
        0 <= i < t.len() ==> count_of(t, i) >= 1,
    decreases i, 1int, 0int,
{
    if 0 <= i < t.len() {
        match t[i] {
            FsNode::File(_) => {},
            FsNode::Dir(cs) => {
                lemma_count_list_nonneg(t, cs@, i);
            },
        }
    }
}

proof fn lemma_count_list_nonneg(t: Seq<FsNode>, cs: Seq<usize>, b: int)
    ensures
        count_list(t, cs, b) >= 0,
    decreases b, 0int, cs.len(),
{
    if cs.len() == 0 {
    } else if (cs[0] as int) < b {
        lemma_count_nonneg(t, cs[0] as int);
        lemma_count_list_nonneg(t, cs.drop_first(), b);
    } else {
        lemma_count_list_nonneg(t, cs.drop_first(), b);
    }
}

/// The files still to be yielded by a stack of cursors, the top cursor's
/// remaining entries first.
pub open spec fn rem_stack(t: Seq<FsNode>, st: Seq<(usize, usize)>) -> Seq<u64>
    decreases st.len(),
{
    if st.len() == 0 {
        Seq::empty()
    } else {
        files_of_list(
            t,
            children_of(t, st.last().0 as int).skip(st.last().1 as int),
            st.last().0 as int,
        ) + rem_stack(t, st.drop_last())
    }
}

/// The number of nodes still to be visited by a stack of cursors.
pub open spec fn weight_stack(t: Seq<FsNode>, st: Seq<(usize, usize)>) -> int
    decreases st.len(),
{
    if st.len() == 0 {
        0
    } else {
        count_list(
            t,
            children_of(t, st.last().0 as int).skip(st.last().1 as int),
            st.last().0 as int,
        ) + weight_stack(t, st.drop_last())
    }
}

proof fn lemma_weight_nonneg(t: Seq<FsNode>, st: Seq<(usize, usize)>)
    requires
        stack_wf(t, st),
    ensures
        weight_stack(t, st) >= 0,
    decreases st.len(),
{
    if st.len() > 0 {
        lemma_count_list_nonneg(
            t,
            children_of(t, st.last().0 as int).skip(st.last().1 as int),
            st.last().0 as int,
        );
        assert(stack_wf(t, st.drop_last())) by {
            assert(forall|k: int|
                0 <= k < st.len() - 1 ==> st.drop_last()[k] == #[trigger] st[k]);
        }
        lemma_weight_nonneg(t, st.drop_last());
    }
}

/// What every cursor on the stack satisfies: it lists an existing
/// directory, and its position is at most the listing's length.
pub open spec fn stack_wf(t: Seq<FsNode>, st: Seq<(usize, usize)>) -> bool {
    forall|k: int|
        0 <= k < st.len() ==> {
            &&& (#[trigger] st[k]).0 < t.len()
            &&& t[st[k].0 as int] is Dir
            &&& st[k].1 <= children_of(t, st[k].0 as int).len()
        }
}

/// Walks the tree under `root` with an explicit stack of cursors and
/// returns every regular file under it, in listing order: each file
/// exactly once, and none of the directories.
pub fn collect_files(t: &FsTree, root: usize) -> (r: Vec<u64>)
    requires
        tree_wf(t.nodes@),
        root < t.nodes@.len(),
    ensures
        r@ == files_of(t.nodes@, root as int),
{
    let ghost tn = t.nodes@;
    let mut out: Vec<u64> = Vec::new();
    let is_file = match &t.nodes[root] {
        FsNode::File(id) => {
            out.push(*id);
            true
        },
        FsNode::Dir(_) => false,
    };
    proof {
        assert(is_file == (tn[root as int] is File));
    }
    if is_file {
        proof {
            assert(out@ =~= files_of(tn, root as int));
        }
        return out;
    }
    proof {
        assert(tn[root as int] is Dir);
    }
    let mut stack: Vec<(usize, usize)> = Vec::new();
    stack.push((root, 0));
    proof {
        assert(rem_stack(tn, Seq::<(usize, usize)>::empty()) == Seq::<u64>::empty());
        assert(weight_stack(tn, Seq::<(usize, usize)>::empty()) == 0);
        assert(stack@.drop_last() =~= Seq::<(usize, usize)>::empty());
        assert(stack@.last() == (root, 0usize));
        assert(children_of(tn, root as int).skip(0) =~= children_of(tn, root as int));
        assert(rem_stack(tn, stack@) == files_of_list(tn, children_of(tn, root as int), root as int)
            + Seq::<u64>::empty());
        assert(files_of(tn, root as int) == files_of_list(tn, children_of(tn, root as int), root as int));
        assert(out@ + rem_stack(tn, stack@) =~= files_of(tn, root as int));
        lemma_weight_nonneg(tn, stack@);
    }
    while stack.len() > 0
        invariant
            tn == t.nodes@,
            tree_wf(tn),
            stack_wf(tn, stack@),
            files_of(tn, root as int) == out@ + rem_stack(tn, stack@),
        decreases weight_stack(tn, stack@), stack@.len(),
    {
        proof {
            lemma_weight_nonneg(tn, stack@);
        }
        let ghost st0 = stack@;
        let top = stack[stack.len() - 1];
        let d = top.0;
        let pos = top.1;
        proof {
            assert(st0.last() == (d, pos));
            assert(rem_stack(tn, st0) == files_of_list(
                tn,
                children_of(tn, d as int).skip(pos as int),
                d as int,
            ) + rem_stack(tn, st0.drop_last()));
            assert(weight_stack(tn, st0) == count_list(
                tn,
                children_of(tn, d as int).skip(pos as int),
                d as int,
            ) + weight_stack(tn, st0.drop_last()));
        }
        let cs_len = match &t.nodes[d] {
            FsNode::Dir(cs) => cs.len(),
            FsNode::File(_) => 0,
        };
        proof {
            assert(cs_len == children_of(tn, d as int).len());
        }
        if pos >= cs_len {
            // This listing is exhausted: pop its cursor.
            stack.pop();
            proof {
                assert(st0.drop_last() =~= stack@);
                assert(children_of(tn, d as int).skip(pos as int) =~= Seq::<usize>::empty());
                assert(files_of_list(tn, Seq::<usize>::empty(), d as int) == Seq::<u64>::empty());
                assert(count_list(tn, Seq::<usize>::empty(), d as int) == 0);
                assert(rem_stack(tn, st0) =~= rem_stack(tn, stack@));
                assert(weight_stack(tn, st0) == weight_stack(tn, stack@));
                lemma_weight_nonneg(tn, stack@);
            }
        } else {
            let c = match &t.nodes[d] {
                FsNode::Dir(cs) => cs[pos],
                FsNode::File(_) => 0,
            };
            proof {
                assert(children_of(tn, d as int)[pos as int] == c);
                assert((c as int) < d as int);
            }
            stack.pop();
            stack.push((d, pos + 1));
            let ghost st1 = stack@;
            proof {
                assert(st1.drop_last() =~= st0.drop_last());
                assert(st1.last() == (d, (pos + 1) as usize));
                assert(stack_wf(tn, st1)) by {
                    assert(forall|k: int| 0 <= k < st1.len() - 1 ==> st1[k] == #[trigger] st0[k]);
                }
                assert(rem_stack(tn, st1) == files_of_list(
                    tn,
                    children_of(tn, d as int).skip(pos + 1),
                    d as int,
                ) + rem_stack(tn, st1.drop_last()));
                assert(weight_stack(tn, st1) == count_list(
                    tn,
                    children_of(tn, d as int).skip(pos + 1),
                    d as int,
                ) + weight_stack(tn, st1.drop_last()));
                let ch = children_of(tn, d as int);
                assert(ch.skip(pos as int).drop_first() =~= ch.skip(pos + 1));
                assert(ch.skip(pos as int)[0] == c);
                assert(files_of_list(tn, ch.skip(pos as int), d as int) == files_of(tn, c as int)
                    + files_of_list(tn, ch.skip(pos + 1), d as int));
                assert(count_list(tn, ch.skip(pos as int), d as int) == count_of(tn, c as int)
                    + count_list(tn, ch.skip(pos + 1), d as int));
                lemma_count_nonneg(tn, c as int);
            }
            match &t.nodes[c] {
                FsNode::File(id) => {
                    let ghost out0 = out@;
                    out.push(*id);
                    proof {
                        assert(files_of(tn, c as int) =~= seq![*id]);
                        assert(count_of(tn, c as int) == 1);
                        assert(out0 + rem_stack(tn, st0) =~= out@ + rem_stack(tn, st1));
                        assert(weight_stack(tn, st1) == weight_stack(tn, st0) - 1);
                        lemma_weight_nonneg(tn, st1);
                    }
                },
                FsNode::Dir(_) => {
                    stack.push((c, 0));
                    proof {
                        let st2 = stack@;
                        assert(st2.drop_last() =~= st1);
                        assert(st2.last() == (c, 0usize));
                        assert(stack_wf(tn, st2)) by {
                            assert(forall|k: int|
                                0 <= k < st2.len() - 1 ==> st2[k] == #[trigger] st1[k]);
                        }
                        assert(rem_stack(tn, st2) == files_of_list(
                            tn,
                            children_of(tn, c as int).skip(0),
                            c as int,
                        ) + rem_stack(tn, st1));
                        assert(weight_stack(tn, st2) == count_list(
                            tn,
                            children_of(tn, c as int).skip(0),
                            c as int,
                        ) + weight_stack(tn, st1));
                        assert(children_of(tn, c as int).skip(0) =~= children_of(tn, c as int));
                        assert(files_of(tn, c as int) == files_of_list(
                            tn,
                            children_of(tn, c as int),
                            c as int,
                        ));
                        assert(count_of(tn, c as int) == 1 + count_list(
                            tn,
                            children_of(tn, c as int),
                            c as int,
                        ));
                        assert(out@ + rem_stack(tn, st0) =~= out@ + rem_stack(tn, st2));
                        assert(weight_stack(tn, st2) == weight_stack(tn, st0) - 1);
                        lemma_weight_nonneg(tn, st2);
                    }
                },
            }
        }
    }
    proof {
        assert(out@ + rem_stack(tn, stack@) =~= out@);
    }
    out
}

} // verus!
