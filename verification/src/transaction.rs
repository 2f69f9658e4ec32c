//! Changes to the trees of the database, collected and then written together.
use crate::errors::AtomicError;
use vstd::prelude::*;

verus! {

/// The trees of the database.
#[derive(Clone, Copy, Debug, PartialEq, Eq, Structural)]
pub enum Tree {
    /// All resources, by their addresses.
    Resources,
    /// Properties, their values and the resources that have them.
    PropValSub,
    /// Values, the properties that have them and the resources.
    ValPropSub,
    /// The queries whose results are kept.
    WatchedQueries,
    /// The results of these queries.
    QueryMembers,
}

/// What is done to a key of a tree.
#[derive(Clone, Copy, Debug, PartialEq, Eq, Structural)]
pub enum Method {
    Insert,
    Delete,
}

/// A change to a tree.
pub struct Operation {
    pub tree: Tree,
    pub method: Method,
    pub key: Vec<u8>,
    pub val: Option<Vec<u8>>,
}

/// What an [Operation] says.
pub struct OperationView {
    pub tree: Tree,
    pub method: Method,
    pub key: Seq<u8>,
    pub val: Option<Seq<u8>>,
}

impl View for Operation {
    type V = OperationView;

    open spec fn view(&self) -> OperationView {
        OperationView {
            tree: self.tree,
            method: self.method,
            key: self.key@,
            val: match self.val {
                Some(val) => Some(val@),
                None => None,
            },
        }
    }
}

/// What some changes say.
pub open spec fn ops_view(ops: Seq<Operation>) -> Seq<OperationView> {
    ops.map_values(|op: Operation| op@)
}

/// A change that inserts something has the value to insert.
pub open spec fn complete(op: OperationView) -> bool {
    op.method == Method::Insert ==> op.val is Some
}

impl Operation {
    /// A copy that says the same.
    pub fn copy(&self) -> (r: Operation)
        ensures
            r@ == self@,
    {
        Operation {
            tree: self.tree,
            method: self.method,
            key: copy_bytes(&self.key),
            val: match &self.val {
                Some(val) => Some(copy_bytes(val)),
                None => None,
            },
        }
    }

    /// The change that puts a resource in the database.
    pub fn insert_resource(subject: Vec<u8>, resource_bin: Vec<u8>) -> (r: Operation)
        ensures
            r@ == inserting(subject@, resource_bin@),
    {
        Operation {
            tree: Tree::Resources,
            method: Method::Insert,
            key: subject,
            val: Some(resource_bin),
        }
    }

    /// The change that removes a resource from the database.
    pub fn remove_resource(subject: Vec<u8>) -> (r: Operation)
        ensures
            r@ == removing(subject@),
    {
        Operation { tree: Tree::Resources, method: Method::Delete, key: subject, val: None }
    }
}

/// The change that puts a resource in the database.
pub open spec fn inserting(subject: Seq<u8>, resource_bin: Seq<u8>) -> OperationView {
    OperationView {
        tree: Tree::Resources,
        method: Method::Insert,
        key: subject,
        val: Some(resource_bin),
    }
}

/// The change that removes a resource from the database.
pub open spec fn removing(subject: Seq<u8>) -> OperationView {
    OperationView { tree: Tree::Resources, method: Method::Delete, key: subject, val: None }
}

/// A copy of some bytes.
pub fn copy_bytes(bytes: &Vec<u8>) -> (r: Vec<u8>)
    ensures
        r@ == bytes@,
{
    let mut r: Vec<u8> = Vec::new();
    let mut i: usize = 0;
    while i < bytes.len()
        invariant
            i <= bytes@.len(),
            r@ == bytes@.take(i as int),
        decreases bytes@.len() - i,
    {
        r.push(bytes[i]);
        assert(bytes@.take(i + 1) =~= bytes@.take(i as int).push(bytes@[i as int]));
        i += 1;
    }
    assert(bytes@.take(i as int) =~= bytes@);
    r
}

/// Changes to one tree of the database, as `sled` collects them.
#[verifier::external_type_specification]
#[verifier::external_body]
pub struct ExBatch(sled::Batch);

/// What a batch writes: for each key that it touches, the new value, or nothing where it removes
/// the key.
pub uninterp spec fn batch_writes(batch: sled::Batch) -> Map<Seq<u8>, Option<Seq<u8>>>;

/// What a batch writes that touches nothing.
pub open spec fn no_writes() -> Map<Seq<u8>, Option<Seq<u8>>> {
    Map::empty()
}

/// `sled::Batch::default`, a batch that touches nothing.
#[verifier::external_body]
fn new_batch() -> (batch: sled::Batch)
    ensures
        batch_writes(batch) == no_writes(),
{
    sled::Batch::default()
}

/// `sled::Batch::insert`: the key gets the value, whatever the batch did to it before.
#[verifier::external_body]
fn batch_insert(batch: &mut sled::Batch, key: &Vec<u8>, val: &Vec<u8>)
    ensures
        batch_writes(*final(batch)) == batch_writes(*old(batch)).insert(key@, Some(val@)),
{
    batch.insert(key.as_slice(), val.as_slice());
}

/// `sled::Batch::remove`: the key is removed, whatever the batch did to it before.
#[verifier::external_body]
fn batch_remove(batch: &mut sled::Batch, key: &Vec<u8>)
    ensures
        batch_writes(*final(batch)) == batch_writes(*old(batch)).insert(key@, None),
{
    batch.remove(key.as_slice());
}

/// The changes to all trees, each tree with a batch of its own.
pub struct Batches {
    pub resources: sled::Batch,
    pub prop_val_sub: sled::Batch,
    pub val_prop_sub: sled::Batch,
    pub watched_queries: sled::Batch,
    pub query_members: sled::Batch,
}

impl Batches {
    /// What the batch of a tree writes.
    pub open spec fn writes(self, tree: Tree) -> Map<Seq<u8>, Option<Seq<u8>>> {
        match tree {
            Tree::Resources => batch_writes(self.resources),
            Tree::PropValSub => batch_writes(self.prop_val_sub),
            Tree::ValPropSub => batch_writes(self.val_prop_sub),
            Tree::WatchedQueries => batch_writes(self.watched_queries),
            Tree::QueryMembers => batch_writes(self.query_members),
        }
    }
}

/// What changes write to a tree: the last change to each key counts.
pub open spec fn writes_of(ops: Seq<OperationView>, tree: Tree) -> Map<Seq<u8>, Option<Seq<u8>>>
    decreases ops.len(),
{
    if ops.len() == 0 {
        Map::empty()
    } else {
        let before = writes_of(ops.drop_last(), tree);
        let op = ops.last();
        if op.tree != tree {
            before
        } else {
            match op.method {
                Method::Insert => before.insert(op.key, op.val),
                Method::Delete => before.insert(op.key, None),
            }
        }
    }
}

/// Sorts the changes of a transaction by the tree that they are made to.
pub fn split_transaction(transaction: &Vec<Operation>) -> (r: Batches)
    requires
        forall|i: int| 0 <= i < transaction@.len() ==> complete((#[trigger] transaction@[i])@),
    ensures
        forall|tree: Tree| #[trigger]
            r.writes(tree) == writes_of(ops_view(transaction@), tree),
{
    let ghost all = ops_view(transaction@);
    let mut batches = Batches {
        resources: new_batch(),
        prop_val_sub: new_batch(),
        val_prop_sub: new_batch(),
        watched_queries: new_batch(),
        query_members: new_batch(),
    };
    let mut i: usize = 0;
    while i < transaction.len()
        invariant
            i <= transaction@.len(),
            all == ops_view(transaction@),
            forall|k: int| 0 <= k < transaction@.len() ==> complete((#[trigger] transaction@[k])@),
            forall|tree: Tree| #[trigger]
                batches.writes(tree) == writes_of(all.take(i as int), tree),
        decreases transaction@.len() - i,
    {
        let op = &transaction[i];
        let ghost before = batches;
        proof {
            assert(all.take(i + 1).drop_last() =~= all.take(i as int));
            assert(all.take(i + 1).last() == op@);
            assert(complete(op@));
            assert(before.writes(Tree::Resources) == writes_of(
                all.take(i as int),
                Tree::Resources,
            ));
            assert(before.writes(Tree::PropValSub) == writes_of(
                all.take(i as int),
                Tree::PropValSub,
            ));
            assert(before.writes(Tree::ValPropSub) == writes_of(
                all.take(i as int),
                Tree::ValPropSub,
            ));
            assert(before.writes(Tree::WatchedQueries) == writes_of(
                all.take(i as int),
                Tree::WatchedQueries,
            ));
            assert(before.writes(Tree::QueryMembers) == writes_of(
                all.take(i as int),
                Tree::QueryMembers,
            ));
        }
        let batch = match op.tree {
            Tree::Resources => &mut batches.resources,
            Tree::PropValSub => &mut batches.prop_val_sub,
            Tree::ValPropSub => &mut batches.val_prop_sub,
            Tree::WatchedQueries => &mut batches.watched_queries,
            Tree::QueryMembers => &mut batches.query_members,
        };
        match op.method {
            Method::Insert => {
                if let Some(val) = &op.val {
                    batch_insert(batch, &op.key, val);
                }
            },
            Method::Delete => {
                batch_remove(batch, &op.key);
            },
        }
        i += 1;
    }
    assert(all.take(i as int) =~= all);
    batches
}

/// The content of a tree after a batch has been written to it.
pub open spec fn after_batch(
    content: Map<Seq<u8>, Seq<u8>>,
    writes: Map<Seq<u8>, Option<Seq<u8>>>,
) -> Map<Seq<u8>, Seq<u8>> {
    Map::new(
        |key: Seq<u8>|
            if writes.contains_key(key) {
                writes[key] is Some
            } else {
                content.contains_key(key)
            },
        |key: Seq<u8>|
            if writes.contains_key(key) {
                writes[key]->0
            } else {
                content[key]
            },
    )
}

/// The content of a tree after changes have been made to it one after the other.
pub open spec fn after_ops(
    content: Map<Seq<u8>, Seq<u8>>,
    ops: Seq<OperationView>,
    tree: Tree,
) -> Map<Seq<u8>, Seq<u8>>
    decreases ops.len(),
{
    if ops.len() == 0 {
        content
    } else {
        let before = after_ops(content, ops.drop_last(), tree);
        let op = ops.last();
        if op.tree != tree {
            before
        } else {
            match op.method {
                Method::Insert => before.insert(op.key, op.val->0),
                Method::Delete => before.remove(op.key),
            }
        }
    }
}

/// Writing the batches leaves every tree as making the changes one after the other would.
pub proof fn batches_are_changes_in_order(
    content: Map<Seq<u8>, Seq<u8>>,
    ops: Seq<OperationView>,
    tree: Tree,
)
    requires
        forall|i: int| 0 <= i < ops.len() ==> complete(#[trigger] ops[i]),
    ensures
        after_batch(content, writes_of(ops, tree)) == after_ops(content, ops, tree),
    decreases ops.len(),
{
    if ops.len() == 0 {
        assert(after_batch(content, writes_of(ops, tree)) =~= content);
    } else {
        assert forall|i: int| 0 <= i < ops.drop_last().len() implies complete(
            #[trigger] ops.drop_last()[i],
        ) by {
            assert(complete(ops[i]));
        }
        batches_are_changes_in_order(content, ops.drop_last(), tree);
        assert(complete(ops[ops.len() - 1]));
        assert(after_batch(content, writes_of(ops, tree)) =~= after_ops(content, ops, tree));
    }
}

/// The last change to a key of a tree decides: what it inserts is there afterwards, and what it
/// deletes is not. A key that no change is made to stays as it was.
pub proof fn the_last_change_decides(
    content: Map<Seq<u8>, Seq<u8>>,
    ops: Seq<OperationView>,
    tree: Tree,
    key: Seq<u8>,
    i: int,
)
    requires
        -1 <= i < ops.len(),
        i >= 0 ==> ops[i].tree == tree && ops[i].key == key && complete(ops[i]),
        forall|j: int|
            i < j < ops.len() ==> (#[trigger] ops[j]).tree != tree || ops[j].key != key,
    ensures
        ({
            let after = after_ops(content, ops, tree);
            &&& i >= 0 && ops[i].method == Method::Insert ==> after.contains_key(key)
                && Some(after[key]) == ops[i].val
            &&& i >= 0 && ops[i].method == Method::Delete ==> !after.contains_key(key)
            &&& i < 0 ==> after.contains_key(key) == content.contains_key(key) && (
            after.contains_key(key) ==> after[key] == content[key])
        }),
    decreases ops.len(),
{
    if ops.len() > 0 && i < ops.len() - 1 {
        let before = ops.drop_last();
        assert forall|j: int| i < j < before.len() implies (#[trigger] before[j]).tree != tree
            || before[j].key != key by {
            assert(before[j] == ops[j]);
        }
        assert(ops[ops.len() - 1].tree != tree || ops[ops.len() - 1].key != key);
        the_last_change_decides(content, before, tree, key, i);
    }
}

/// A resource that is put in the database is found there under its address, and one that is removed
/// is not; other resources and the indexes stay as they are.
pub proof fn stored_resources_are_found(
    content: Map<Seq<u8>, Seq<u8>>,
    subject: Seq<u8>,
    resource_bin: Seq<u8>,
    tree: Tree,
)
    ensures
        after_ops(content, seq![inserting(subject, resource_bin)], Tree::Resources)
            == content.insert(subject, resource_bin),
        after_ops(content, seq![removing(subject)], Tree::Resources) == content.remove(subject),
        tree != Tree::Resources ==> after_ops(content, seq![inserting(subject, resource_bin)], tree)
            == content && after_ops(content, seq![removing(subject)], tree) == content,
{
    reveal_with_fuel(after_ops, 2);
    assert(seq![inserting(subject, resource_bin)].drop_last() =~= Seq::empty());
    assert(seq![removing(subject)].drop_last() =~= Seq::empty());
}

/// What is said where the batches could not be written.
pub fn explain_apply(cause: &str) -> (r: AtomicError)
    ensures
        r@ == crate::errors::other("Failed to apply transaction: "@ + cause@),
{
    AtomicError::other_error(crate::text::cat2("Failed to apply transaction: ", cause))
}

} // verus!
