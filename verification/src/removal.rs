//! Removing a resource and everything below it.
use crate::errors::{AtomicError, AtomicResult, ErrorView};
use crate::index::{IndexChange, IndexedAtom, Report, index_atoms};
use crate::text::{cat3, to_bytes};
use crate::transaction::{Operation, OperationView, Tree};
use vstd::prelude::*;

verus! {

/// A resource that is to be removed, with what is below it.
pub struct Removal {
    pub subject: String,
    /// Whether it is in the database.
    pub found: bool,
    /// What is below it, where that could be found out.
    pub children: AtomicResult<Vec<Removal>>,
    /// Its atoms.
    pub atoms: Vec<IndexedAtom>,
}

/// The change that removes the resource itself.
pub open spec fn removal_of(subject: Seq<char>) -> OperationView {
    crate::transaction::removing(vstd::utf8::encode_utf8(subject))
}

/// The changes that remove a resource and everything below it: first the resource, then what is
/// below it, then the atoms of the resource from the indexes.
pub open spec fn removal_ops(node: Removal) -> Result<Seq<OperationView>, ErrorView>
    decreases node, 0nat,
{
    if !node.found {
        Err(
            crate::errors::other(
                "Resource "@ + node.subject@
                    + " could not be deleted, because it was not found in the store."@,
            ),
        )
    } else {
        match node.children {
            Err(e) => Err(e@),
            Ok(children) => match children_ops(children@, children@.len()) {
                Err(e) => Err(e),
                Ok(below) => match crate::index::atoms_ops(
                    node.atoms@,
                    IndexChange::Remove,
                    Report::Plain,
                    node.atoms@.len(),
                ) {
                    Err(e) => Err(e),
                    Ok(atoms) => Ok(seq![removal_of(node.subject@)] + below + atoms),
                },
            },
        }
    }
}

/// The changes that remove the first `n` of some resources.
pub open spec fn children_ops(children: Seq<Removal>, n: nat) -> Result<
    Seq<OperationView>,
    ErrorView,
>
    decreases children, n,
{
    if n == 0 || n > children.len() {
        Ok(Seq::empty())
    } else {
        match children_ops(children, (n - 1) as nat) {
            Err(e) => Err(e),
            Ok(before) => match removal_ops(children[n - 1]) {
                Err(e) => Err(e),
                Ok(more) => Ok(before + more),
            },
        }
    }
}

proof fn lemma_children_stop(children: Seq<Removal>, n: nat)
    requires
        n <= children.len(),
        children_ops(children, n) is Err,
    ensures
        children_ops(children, children.len()) == children_ops(children, n),
    decreases children.len() - n,
{
    if n < children.len() {
        lemma_children_stop(children, n + 1);
    }
}

/// The changes that remove a resource and everything below it.
pub fn recursive_remove(node: &Removal) -> (r: AtomicResult<Vec<Operation>>)
    ensures
        crate::index::ops_outcome(r) == removal_ops(*node),
    decreases *node,
{
    if !node.found {
        return Err(
            AtomicError::other_error(
                cat3(
                    "Resource ",
                    node.subject.as_str(),
                    " could not be deleted, because it was not found in the store.",
                ),
            ),
        );
    }
    let mut transaction: Vec<Operation> = Vec::new();
    transaction.push(Operation::remove_resource(to_bytes(node.subject.as_str())));
    let ghost first = seq![removal_of(node.subject@)];
    assert(crate::transaction::ops_view(transaction@) =~= first);
    match &node.children {
        Err(e) => {
            return Err(e.copy());
        },
        Ok(children) => {
            let mut i: usize = 0;
            assert(first + Seq::<OperationView>::empty() =~= first);
            while i < children.len()
                invariant
                    i <= children@.len(),
                    node.found,
                    node.children == Ok::<Vec<Removal>, AtomicError>(*children),
                    children_ops(children@, i as nat) is Ok,
                    crate::transaction::ops_view(transaction@) == first + children_ops(
                        children@,
                        i as nat,
                    )->Ok_0,
                decreases children@.len() - i,
            {
                assert(decreases_to!(*node => node.children));
                assert(decreases_to!(node.children => node.children->Ok_0));
                match recursive_remove(&children[i]) {
                    Ok(mut more) => {
                        let ghost before = transaction@;
                        let ghost after = more@;
                        transaction.append(&mut more);
                        assert(crate::transaction::ops_view(transaction@)
                            =~= crate::transaction::ops_view(before)
                            + crate::transaction::ops_view(after));
                        assert(crate::transaction::ops_view(transaction@) =~= first
                            + children_ops(children@, (i + 1) as nat)->Ok_0);
                    },
                    Err(e) => {
                        proof {
                            lemma_children_stop(children@, (i + 1) as nat);
                        }
                        return Err(e);
                    },
                }
                i += 1;
            }
        },
    }
    match index_atoms(&node.atoms, IndexChange::Remove, Report::Plain) {
        Ok(mut atoms) => {
            let ghost before = transaction@;
            let ghost after = atoms@;
            transaction.append(&mut atoms);
            assert(crate::transaction::ops_view(transaction@) =~= crate::transaction::ops_view(
                before,
            ) + crate::transaction::ops_view(after));
            Ok(transaction)
        },
        Err(e) => Err(e),
    }
}

/// The changes to the resources among some changes.
pub open spec fn to_resources(ops: Seq<OperationView>) -> Seq<OperationView> {
    ops.filter(|op: OperationView| op.tree == Tree::Resources)
}

/// The removals of a resource and of everything below it.
pub open spec fn subtree(node: Removal) -> Seq<OperationView>
    decreases node, 0nat,
{
    match node.children {
        Ok(children) => seq![removal_of(node.subject@)] + subtrees(children@, children@.len()),
        Err(_) => seq![removal_of(node.subject@)],
    }
}

/// The removals of the first `n` of some resources, and of everything below them.
pub open spec fn subtrees(children: Seq<Removal>, n: nat) -> Seq<OperationView>
    decreases children, n,
{
    if n == 0 || n > children.len() {
        Seq::empty()
    } else {
        subtrees(children, (n - 1) as nat) + subtree(children[n - 1])
    }
}

/// The changes to the indexes for a resource and everything below it leave the resources alone.
pub open spec fn index_only(node: Removal) -> bool
    decreases node,
{
    &&& crate::index::atoms_ops(
        node.atoms@,
        IndexChange::Remove,
        Report::Plain,
        node.atoms@.len(),
    ) matches Ok(ops) ==> crate::index::only_indexes(ops)
    &&& node.children matches Ok(children) ==> forall|i: int|
        0 <= i < children@.len() ==> index_only(#[trigger] children@[i])
}

proof fn lemma_no_resources(ops: Seq<OperationView>)
    requires
        crate::index::only_indexes(ops),
    ensures
        to_resources(ops) == Seq::<OperationView>::empty(),
    decreases ops.len(),
{
    reveal(Seq::filter);
    if ops.len() > 0 {
        assert(ops[ops.len() - 1].tree != Tree::Resources);
        assert forall|i: int| 0 <= i < ops.drop_last().len() implies (#[trigger] ops.drop_last()[i]).tree
            != Tree::Resources by {
            assert(ops[i].tree != Tree::Resources);
        }
        lemma_no_resources(ops.drop_last());
    }
}

proof fn lemma_children_subtree(children: Seq<Removal>, n: nat)
    requires
        n <= children.len(),
        forall|i: int| 0 <= i < children.len() ==> index_only(#[trigger] children[i]),
        children_ops(children, n) is Ok,
    ensures
        to_resources(children_ops(children, n)->Ok_0) == subtrees(children, n),
    decreases children, n,
{
    reveal(Seq::filter);
    if n > 0 {
        lemma_children_subtree(children, (n - 1) as nat);
        assert(index_only(children[n - 1]));
        removing_takes_the_whole_subtree(children[n - 1]);
        Seq::filter_distributes_over_add(
            children_ops(children, (n - 1) as nat)->Ok_0,
            removal_ops(children[n - 1])->Ok_0,
            |op: OperationView| op.tree == Tree::Resources,
        );
    }
}

/// Removing a resource removes that resource and everything below it, each once for each time it
/// is below, and no other resource.
pub proof fn removing_takes_the_whole_subtree(node: Removal)
    requires
        index_only(node),
        removal_ops(node) is Ok,
    ensures
        to_resources(removal_ops(node)->Ok_0) == subtree(node),
    decreases node, 0nat,
{
    reveal(Seq::filter);
    let children = node.children->Ok_0;
    let below = children_ops(children@, children@.len())->Ok_0;
    let atoms = crate::index::atoms_ops(
        node.atoms@,
        IndexChange::Remove,
        Report::Plain,
        node.atoms@.len(),
    )->Ok_0;
    let first = seq![removal_of(node.subject@)];
    let wanted = |op: OperationView| op.tree == Tree::Resources;
    lemma_children_subtree(children@, children@.len());
    lemma_no_resources(atoms);
    Seq::filter_distributes_over_add(first + below, atoms, wanted);
    Seq::filter_distributes_over_add(first, below, wanted);
    assert(first.drop_last() =~= Seq::empty());
    assert(first.drop_last().filter(wanted) =~= Seq::empty());
    assert(first.filter(wanted) =~= first);
    assert(to_resources(removal_ops(node)->Ok_0) =~= subtree(node));
}

/// Whether some changes do nothing but remove resources.
pub open spec fn only_removals(ops: Seq<OperationView>) -> bool {
    forall|i: int|
        0 <= i < ops.len() ==> #[trigger] ops[i] == crate::transaction::removing(ops[i].key)
}

/// Whether some changes touch a key.
pub open spec fn touches(ops: Seq<OperationView>, key: Seq<u8>) -> bool {
    exists|i: int| 0 <= i < ops.len() && (#[trigger] ops[i]).key == key
}

proof fn lemma_subtree_removes(node: Removal)
    ensures
        only_removals(subtree(node)),
    decreases node, 0nat,
{
    if let Ok(children) = node.children {
        lemma_subtrees_remove(children@, children@.len());
    }
}

proof fn lemma_subtrees_remove(children: Seq<Removal>, n: nat)
    ensures
        only_removals(subtrees(children, n)),
    decreases children, n,
{
    if 0 < n <= children.len() {
        lemma_subtrees_remove(children, (n - 1) as nat);
        lemma_subtree_removes(children[n - 1]);
    }
}

proof fn lemma_other_trees(content: Map<Seq<u8>, Seq<u8>>, ops: Seq<OperationView>)
    ensures
        crate::transaction::after_ops(content, to_resources(ops), Tree::Resources)
            == crate::transaction::after_ops(content, ops, Tree::Resources),
    decreases ops.len(),
{
    reveal(Seq::filter);
    if ops.len() > 0 {
        lemma_other_trees(content, ops.drop_last());
        if ops.last().tree == Tree::Resources {
            let before = to_resources(ops.drop_last());
            assert(before.push(ops.last()).drop_last() =~= before);
        }
    }
}

proof fn lemma_after_removals(
    content: Map<Seq<u8>, Seq<u8>>,
    ops: Seq<OperationView>,
    key: Seq<u8>,
)
    requires
        only_removals(ops),
    ensures
        ({
            let after = crate::transaction::after_ops(content, ops, Tree::Resources);
            &&& after.contains_key(key) <==> content.contains_key(key) && !touches(ops, key)
            &&& after.contains_key(key) ==> after[key] == content[key]
        }),
    decreases ops.len(),
{
    if ops.len() > 0 {
        let before = ops.drop_last();
        let last = ops.len() - 1;
        assert(ops[last] == crate::transaction::removing(ops[last].key));
        assert forall|i: int| 0 <= i < before.len() implies #[trigger] before[i]
            == crate::transaction::removing(before[i].key) by {
            assert(ops[i] == crate::transaction::removing(ops[i].key));
        }
        lemma_after_removals(content, before, key);
        if touches(before, key) {
            let i = choose|i: int| 0 <= i < before.len() && (#[trigger] before[i]).key == key;
            assert(ops[i].key == key);
        }
        if touches(ops, key) && ops[last].key != key {
            let i = choose|i: int| 0 <= i < ops.len() && (#[trigger] ops[i]).key == key;
            assert(before[i].key == key);
        }
    }
}

/// When the changes have been written, a resource is in the database if it was there before and is
/// neither the one that was removed nor below it; and it is as it was.
pub proof fn removed_resources_are_gone(
    content: Map<Seq<u8>, Seq<u8>>,
    node: Removal,
    key: Seq<u8>,
)
    requires
        index_only(node),
        removal_ops(node) is Ok,
    ensures
        ({
            let after = crate::transaction::after_ops(
                content,
                removal_ops(node)->Ok_0,
                Tree::Resources,
            );
            &&& after.contains_key(key) <==> content.contains_key(key) && !touches(
                subtree(node),
                key,
            )
            &&& after.contains_key(key) ==> after[key] == content[key]
        }),
{
    removing_takes_the_whole_subtree(node);
    lemma_subtree_removes(node);
    lemma_other_trees(content, removal_ops(node)->Ok_0);
    lemma_after_removals(content, subtree(node), key);
}

proof fn lemma_children_contained(children: Seq<Removal>, n: nat, i: int, k: int)
    requires
        0 <= i < n <= children.len(),
        children_ops(children, n) is Ok,
        removal_ops(children[i]) is Ok ==> 0 <= k < removal_ops(children[i])->Ok_0.len(),
    ensures
        removal_ops(children[i]) is Ok,
        children_ops(children, n)->Ok_0.contains(removal_ops(children[i])->Ok_0[k]),
    decreases n,
{
    let before = children_ops(children, (n - 1) as nat)->Ok_0;
    let all = children_ops(children, n)->Ok_0;
    if i < n - 1 {
        lemma_children_contained(children, (n - 1) as nat, i, k);
        let m = before.index_of(removal_ops(children[i])->Ok_0[k]);
        assert(all[m] == before[m]);
    } else {
        assert(all[before.len() + k] == removal_ops(children[i])->Ok_0[k]);
    }
}

/// Removing a resource starts with the removal of what is stored under its address and ends with all
/// of its atoms leaving the indexes. Between them stand all changes that removing what is below it
/// takes.
pub proof fn removing_takes_resource_children_and_atoms(node: Removal, i: int, k: int)
    requires
        removal_ops(node) is Ok,
    ensures
        ({
            let ops = removal_ops(node)->Ok_0;
            let atoms = crate::index::all_changes(node.atoms@);
            &&& ops.len() > 0 && ops[0] == (OperationView {
                tree: Tree::Resources,
                method: crate::transaction::Method::Delete,
                key: vstd::utf8::encode_utf8(node.subject@),
                val: None,
            })
            &&& ops.len() > atoms.len() && ops.skip(ops.len() - atoms.len()) == atoms
            &&& node.children matches Ok(children) && (0 <= i < children@.len() ==> (removal_ops(
                children@[i],
            ) matches Ok(below) && (0 <= k < below.len() ==> ops.contains(below[k]))))
        }),
{
    let children = node.children->Ok_0;
    let below = children_ops(children@, children@.len())->Ok_0;
    crate::index::lemma_removed_changes(node.atoms@);
    let atoms = crate::index::all_changes(node.atoms@);
    let ops = removal_ops(node)->Ok_0;
    assert(ops.skip(ops.len() - atoms.len()) =~= atoms);
    if 0 <= i < children@.len() {
        lemma_child_is_ok(children@, children@.len(), i);
        if 0 <= k < removal_ops(children@[i])->Ok_0.len() {
            lemma_children_contained(children@, children@.len(), i, k);
            let m = below.index_of(removal_ops(children@[i])->Ok_0[k]);
            assert(ops[1 + m] == below[m]);
        }
    }
}

proof fn lemma_child_is_ok(children: Seq<Removal>, n: nat, i: int)
    requires
        0 <= i < n <= children.len(),
        children_ops(children, n) is Ok,
    ensures
        removal_ops(children[i]) is Ok,
    decreases n,
{
    if i < n - 1 {
        lemma_child_is_ok(children, (n - 1) as nat, i);
    }
}

proof fn lemma_all_children_ok(children: Seq<Removal>, n: nat)
    requires
        n <= children.len(),
        forall|i: int| 0 <= i < children.len() ==> removal_ops(#[trigger] children[i]) is Ok,
    ensures
        children_ops(children, n) is Ok,
    decreases n,
{
    if n > 0 {
        lemma_all_children_ok(children, (n - 1) as nat);
        assert(removal_ops(children[n - 1]) is Ok);
    }
}

/// A resource can be removed where it is there, what is below it could be found out and can be
/// removed, and nothing goes wrong with its atoms; and only there.
pub proof fn resources_are_removed_where_nothing_goes_wrong(node: Removal)
    ensures
        removal_ops(node) is Ok <==> node.found && crate::index::nothing_wrong(node.atoms@) && (
        node.children matches Ok(children) && forall|i: int|
            0 <= i < children@.len() ==> removal_ops(#[trigger] children@[i]) is Ok),
{
    crate::index::lemma_removed_changes(node.atoms@);
    if let Ok(children) = node.children {
        if removal_ops(node) is Ok {
            assert forall|i: int| 0 <= i < children@.len() implies removal_ops(
                #[trigger] children@[i],
            ) is Ok by {
                lemma_child_is_ok(children@, children@.len(), i);
            }
        }
        if forall|i: int| 0 <= i < children@.len() ==> removal_ops(#[trigger] children@[i]) is Ok {
            lemma_all_children_ok(children@, children@.len());
        }
    }
}

} // verus!
