//! The changes that keep the indexes of the database in step with its resources.
use crate::errors::{AtomicError, AtomicResult, ErrorView};
use crate::text::cat4;
use crate::transaction::{Operation, OperationView, Tree};
use vstd::prelude::*;

verus! {

/// Whether an atom enters the indexes or leaves them.
#[derive(Clone, Copy, Debug, PartialEq, Eq, Structural)]
pub enum IndexChange {
    Add,
    Remove,
}

/// The changes to the indexes for one value of an atom: to the index by value, to the index by
/// property, and to the results of the queries that it matches.
pub struct IndexSteps {
    pub reference: AtomicResult<Operation>,
    pub prop_val: AtomicResult<Operation>,
    /// The changes to the results of queries, up to where looking at the queries failed.
    pub filters: Vec<Operation>,
    /// Whether all queries could be looked at.
    pub checked: AtomicResult<()>,
}

/// What is said before the reason why the queries could not be looked at.
pub open spec fn filter_context(change: IndexChange) -> Seq<char> {
    match change {
        IndexChange::Add => "Failed to check_if_atom_matches_watched_collections. "@,
        IndexChange::Remove => "Checking atom went wrong: "@,
    }
}

/// The changes for one value of an atom.
pub open spec fn step_ops(step: IndexSteps, change: IndexChange) -> Result<
    Seq<OperationView>,
    ErrorView,
> {
    match step.reference {
        Err(e) => Err(e@),
        Ok(reference) => match step.prop_val {
            Err(e) => Err(e@),
            Ok(prop_val) => match step.checked {
                Err(e) => Err(crate::errors::other(filter_context(change) + e@.message)),
                Ok(_) => Ok(
                    seq![reference@, prop_val@] + crate::transaction::ops_view(step.filters@),
                ),
            },
        },
    }
}

/// The changes for one value of an atom, up to where something went wrong.
pub open spec fn step_pushed(step: IndexSteps) -> Seq<OperationView> {
    match step.reference {
        Err(_) => Seq::empty(),
        Ok(reference) => match step.prop_val {
            Err(_) => seq![reference@],
            Ok(prop_val) => seq![reference@, prop_val@] + crate::transaction::ops_view(
                step.filters@,
            ),
        },
    }
}

/// The changes for the first `n` values of an atom.
pub open spec fn atom_ops(steps: Seq<IndexSteps>, change: IndexChange, n: nat) -> Result<
    Seq<OperationView>,
    ErrorView,
>
    decreases n,
{
    if n == 0 || n > steps.len() {
        Ok(Seq::empty())
    } else {
        match atom_ops(steps, change, (n - 1) as nat) {
            Err(e) => Err(e),
            Ok(before) => match step_ops(steps[n - 1], change) {
                Err(e) => Err(e),
                Ok(more) => Ok(before + more),
            },
        }
    }
}

/// The changes for the first `n` values of an atom, up to where something went wrong.
pub open spec fn atom_pushed(steps: Seq<IndexSteps>, change: IndexChange, n: nat) -> Seq<
    OperationView,
>
    decreases n,
{
    if n == 0 || n > steps.len() {
        Seq::empty()
    } else {
        let before = atom_pushed(steps, change, (n - 1) as nat);
        match atom_ops(steps, change, (n - 1) as nat) {
            Err(_) => before,
            Ok(_) => before + step_pushed(steps[n - 1]),
        }
    }
}

/// What some changes come to.
pub open spec fn ops_outcome(r: AtomicResult<Vec<Operation>>) -> Result<
    Seq<OperationView>,
    ErrorView,
> {
    match r {
        Ok(ops) => Ok(crate::transaction::ops_view(ops@)),
        Err(e) => Err(e@),
    }
}

/// The changes that are added to the end of a transaction.
fn append_ops(transaction: &mut Vec<Operation>, more: Vec<Operation>)
    ensures
        crate::transaction::ops_view(final(transaction)@) == crate::transaction::ops_view(
            old(transaction)@,
        ) + crate::transaction::ops_view(more@),
{
    let mut more = more;
    let ghost before = transaction@;
    let ghost after = more@;
    transaction.append(&mut more);
    assert(crate::transaction::ops_view(transaction@) =~= crate::transaction::ops_view(before)
        + crate::transaction::ops_view(after));
}

proof fn lemma_atom_stops(steps: Seq<IndexSteps>, change: IndexChange, n: nat)
    requires
        n <= steps.len(),
        atom_ops(steps, change, n) is Err,
    ensures
        atom_ops(steps, change, steps.len()) == atom_ops(steps, change, n),
        atom_pushed(steps, change, steps.len()) == atom_pushed(steps, change, n),
    decreases steps.len() - n,
{
    if n < steps.len() {
        lemma_atom_stops(steps, change, n + 1);
    }
}

/// Adds the changes for one value of an atom to a transaction, up to where something goes wrong.
fn push_step(step: &IndexSteps, change: IndexChange, transaction: &mut Vec<Operation>) -> (r:
    AtomicResult<()>)
    ensures
        crate::transaction::ops_view(final(transaction)@) == crate::transaction::ops_view(
            old(transaction)@,
        ) + step_pushed(*step),
        match step_ops(*step, change) {
            Ok(ops) => r is Ok && ops == step_pushed(*step),
            Err(e) => r is Err && r->Err_0@ == e,
        },
{
    let ghost before = crate::transaction::ops_view(transaction@);
    match &step.reference {
        Ok(op) => {
            transaction.push(op.copy());
            assert(crate::transaction::ops_view(transaction@) =~= before + seq![op@]);
        },
        Err(e) => {
            assert(before =~= before + Seq::<OperationView>::empty());
            return Err(e.copy());
        },
    }
    match &step.prop_val {
        Ok(op) => {
            transaction.push(op.copy());
        },
        Err(e) => {
            return Err(e.copy());
        },
    }
    let ghost middle = crate::transaction::ops_view(transaction@);
    let ghost wanted = crate::transaction::ops_view(step.filters@);
    assert(middle =~= before + seq![step.reference->Ok_0@, step.prop_val->Ok_0@]);
    assert(middle + wanted.take(0) =~= middle);
    let mut k: usize = 0;
    while k < step.filters.len()
        invariant
            k <= step.filters@.len(),
            wanted == crate::transaction::ops_view(step.filters@),
            crate::transaction::ops_view(transaction@) == middle + wanted.take(k as int),
        decreases step.filters@.len() - k,
    {
        let ghost so_far = crate::transaction::ops_view(transaction@);
        transaction.push(step.filters[k].copy());
        assert(crate::transaction::ops_view(transaction@) =~= so_far.push(wanted[k as int]));
        assert(wanted.take(k + 1) =~= wanted.take(k as int).push(wanted[k as int]));
        assert(crate::transaction::ops_view(transaction@) =~= middle + wanted.take(k + 1));
        k += 1;
    }
    assert(wanted.take(k as int) =~= wanted);
    assert(middle + wanted =~= before + step_pushed(*step));
    match &step.checked {
        Ok(_) => Ok(()),
        Err(e) => Err(
            match change {
                IndexChange::Add => AtomicError::in_context(
                    "Failed to check_if_atom_matches_watched_collections. ",
                    e,
                ),
                IndexChange::Remove => AtomicError::in_context("Checking atom went wrong: ", e),
            },
        ),
    }
}

/// What adding the changes for an atom does to a transaction. Where something goes wrong, what was
/// added before stays.
pub open spec fn extended(
    before: Seq<OperationView>,
    after: Seq<OperationView>,
    steps: Seq<IndexSteps>,
    change: IndexChange,
    r: AtomicResult<()>,
) -> bool {
    &&& after == before + atom_pushed(steps, change, steps.len())
    &&& match atom_ops(steps, change, steps.len()) {
        Ok(ops) => r is Ok && after == before + ops,
        Err(e) => r is Err && r->Err_0@ == e,
    }
}

/// Adds the changes for an atom to a transaction, up to where something goes wrong.
fn push_atom(steps: &Vec<IndexSteps>, change: IndexChange, transaction: &mut Vec<Operation>) -> (r:
    AtomicResult<()>)
    ensures
        extended(
            crate::transaction::ops_view(old(transaction)@),
            crate::transaction::ops_view(final(transaction)@),
            steps@,
            change,
            r,
        ),
{
    let ghost before = crate::transaction::ops_view(transaction@);
    let mut i: usize = 0;
    assert(before =~= before + Seq::<OperationView>::empty());
    while i < steps.len()
        invariant
            i <= steps@.len(),
            before == crate::transaction::ops_view(old(transaction)@),
            crate::transaction::ops_view(transaction@) == before + atom_pushed(
                steps@,
                change,
                i as nat,
            ),
            atom_ops(steps@, change, i as nat) == Ok::<Seq<OperationView>, ErrorView>(
                atom_pushed(steps@, change, i as nat),
            ),
        decreases steps@.len() - i,
    {
        let ghost so_far = atom_pushed(steps@, change, i as nat);
        let done = push_step(&steps[i], change, transaction);
        assert(before + so_far + step_pushed(steps@[i as int]) =~= before + (so_far + step_pushed(
            steps@[i as int],
        )));
        if done.is_err() {
            proof {
                lemma_atom_stops(steps@, change, (i + 1) as nat);
            }
            return done;
        }
        i += 1;
    }
    Ok(())
}

/// The changes for an atom, or the first thing that went wrong.
fn collect_atom(steps: &Vec<IndexSteps>, change: IndexChange) -> (r: AtomicResult<Vec<Operation>>)
    ensures
        ops_outcome(r) == atom_ops(steps@, change, steps@.len()),
{
    let mut ops: Vec<Operation> = Vec::new();
    assert(crate::transaction::ops_view(ops@) =~= Seq::empty());
    match push_atom(steps, change, &mut ops) {
        Ok(_) => {
            proof {
                let wanted = atom_ops(steps@, change, steps@.len())->Ok_0;
                assert(Seq::<OperationView>::empty() + wanted =~= wanted);
            }
            Ok(ops)
        },
        Err(e) => Err(e),
    }
}

/// Adds the changes for an atom that enters the indexes to a transaction.
pub fn add_atom_to_index(steps: &Vec<IndexSteps>, transaction: &mut Vec<Operation>) -> (r:
    AtomicResult<()>)
    ensures
        extended(
            crate::transaction::ops_view(old(transaction)@),
            crate::transaction::ops_view(final(transaction)@),
            steps@,
            IndexChange::Add,
            r,
        ),
{
    push_atom(steps, IndexChange::Add, transaction)
}

/// Adds the changes for an atom that leaves the indexes to a transaction.
pub fn remove_atom_from_index(steps: &Vec<IndexSteps>, transaction: &mut Vec<Operation>) -> (r:
    AtomicResult<()>)
    ensures
        extended(
            crate::transaction::ops_view(old(transaction)@),
            crate::transaction::ops_view(final(transaction)@),
            steps@,
            IndexChange::Remove,
            r,
        ),
{
    push_atom(steps, IndexChange::Remove, transaction)
}

/// How errors about the atoms of a resource are reported.
#[derive(Clone, Copy, Debug, PartialEq, Eq, Structural)]
pub enum Report {
    /// As they are.
    Plain,
    /// With the atom.
    Named,
    /// As an error of a commit.
    Commit,
}

/// An atom of a resource: the text in which it is shown, and the changes for its values.
pub struct IndexedAtom {
    pub shown: String,
    pub steps: Vec<IndexSteps>,
}

/// What is said about an error with an atom.
pub open spec fn reported(
    report: Report,
    change: IndexChange,
    shown: Seq<char>,
    e: ErrorView,
) -> ErrorView {
    match (report, change) {
        (Report::Plain, _) => e,
        (Report::Named, IndexChange::Add) => crate::errors::other(
            "Failed to add atom to index "@ + shown + ". "@ + e.message,
        ),
        (Report::Named, IndexChange::Remove) => crate::errors::other(
            "Failed to remove atom from index "@ + shown + ". "@ + e.message,
        ),
        (Report::Commit, IndexChange::Add) => crate::errors::other(
            "Error adding atom to index: "@ + e.message + "  Atom: "@ + e.message,
        ),
        (Report::Commit, IndexChange::Remove) => crate::errors::other(
            "Error removing atom from index: "@ + e.message + "  Atom: "@ + e.message,
        ),
    }
}

/// The changes for the first `n` atoms of a resource.
pub open spec fn atoms_ops(
    atoms: Seq<IndexedAtom>,
    change: IndexChange,
    report: Report,
    n: nat,
) -> Result<Seq<OperationView>, ErrorView>
    decreases n,
{
    if n == 0 || n > atoms.len() {
        Ok(Seq::empty())
    } else {
        match atoms_ops(atoms, change, report, (n - 1) as nat) {
            Err(e) => Err(e),
            Ok(before) => match atom_ops(
                atoms[n - 1].steps@,
                change,
                atoms[n - 1].steps@.len(),
            ) {
                Err(e) => Err(reported(report, change, atoms[n - 1].shown@, e)),
                Ok(more) => Ok(before + more),
            },
        }
    }
}

proof fn lemma_atoms_stop(
    atoms: Seq<IndexedAtom>,
    change: IndexChange,
    report: Report,
    n: nat,
)
    requires
        n <= atoms.len(),
        atoms_ops(atoms, change, report, n) is Err,
    ensures
        atoms_ops(atoms, change, report, atoms.len()) == atoms_ops(atoms, change, report, n),
    decreases atoms.len() - n,
{
    if n < atoms.len() {
        lemma_atoms_stop(atoms, change, report, n + 1);
    }
}

/// Says what went wrong with an atom.
fn report_error(report: Report, change: IndexChange, shown: &str, e: AtomicError) -> (r: AtomicError)
    ensures
        r@ == reported(report, change, shown@, e@),
{
    match (report, change) {
        (Report::Plain, _) => e,
        (Report::Named, IndexChange::Add) => AtomicError::other_error(
            cat4("Failed to add atom to index ", shown, ". ", e.message.as_str()),
        ),
        (Report::Named, IndexChange::Remove) => AtomicError::other_error(
            cat4("Failed to remove atom from index ", shown, ". ", e.message.as_str()),
        ),
        (Report::Commit, IndexChange::Add) => AtomicError::other_error(
            cat4(
                "Error adding atom to index: ",
                e.message.as_str(),
                "  Atom: ",
                e.message.as_str(),
            ),
        ),
        (Report::Commit, IndexChange::Remove) => AtomicError::other_error(
            cat4(
                "Error removing atom from index: ",
                e.message.as_str(),
                "  Atom: ",
                e.message.as_str(),
            ),
        ),
    }
}

/// The changes for the atoms of a resource, or the first thing that went wrong.
pub fn index_atoms(atoms: &Vec<IndexedAtom>, change: IndexChange, report: Report) -> (r:
    AtomicResult<Vec<Operation>>)
    ensures
        ops_outcome(r) == atoms_ops(atoms@, change, report, atoms@.len()),
{
    let mut ops: Vec<Operation> = Vec::new();
    let mut i: usize = 0;
    assert(crate::transaction::ops_view(ops@) =~= Seq::empty());
    while i < atoms.len()
        invariant
            i <= atoms@.len(),
            atoms_ops(atoms@, change, report, i as nat) == ops_outcome(Ok(ops)),
        decreases atoms@.len() - i,
    {
        match collect_atom(&atoms[i].steps, change) {
            Ok(more) => {
                append_ops(&mut ops, more);
            },
            Err(e) => {
                proof {
                    lemma_atoms_stop(atoms@, change, report, (i + 1) as nat);
                }
                return Err(report_error(report, change, atoms[i].shown.as_str(), e));
            },
        }
        i += 1;
    }
    Ok(ops)
}

/// The changes that put a resource in the indexes, when these are built anew.
pub fn build_index(atoms: &Vec<IndexedAtom>) -> (r: AtomicResult<Vec<Operation>>)
    ensures
        ops_outcome(r) == atoms_ops(atoms@, IndexChange::Add, Report::Named, atoms@.len()),
{
    index_atoms(atoms, IndexChange::Add, Report::Named)
}

/// What is said where the changes to the indexes could not be written.
pub fn explain_build(cause: &AtomicError) -> (r: AtomicError)
    ensures
        r@ == crate::errors::other("Failed to commit transaction. "@ + cause@.message),
{
    AtomicError::in_context("Failed to commit transaction. ", cause)
}

/// Adding a resource: what is in the database, and what is to be done to it.
pub struct AddResource {
    pub subject: String,
    /// The atoms of the resource that is there already.
    pub existing: Option<Vec<IndexedAtom>>,
    /// The atoms of the new resource.
    pub atoms: Vec<IndexedAtom>,
    /// Whether the required properties are there, where that is to be checked.
    pub required: Option<AtomicResult<()>>,
    pub update_index: bool,
    pub overwrite_existing: bool,
}

/// The changes to the indexes when a resource is added, before the resource itself is written. A
/// resource that is there already stays untouched, unless it is to be overwritten.
pub open spec fn add_resource_ops(add: AddResource) -> Result<Seq<OperationView>, ErrorView> {
    if !add.overwrite_existing && add.existing is Some {
        Err(
            crate::errors::other(
                "Failed to add: '"@ + add.subject@
                    + "', already exists, should not be overwritten."@,
            ),
        )
    } else if add.required matches Some(Err(e)) {
        Err(add.required->0->Err_0@)
    } else if !add.update_index {
        Ok(Seq::empty())
    } else {
        let removed = match add.existing {
            Some(atoms) => atoms_ops(atoms@, IndexChange::Remove, Report::Named, atoms@.len()),
            None => Ok(Seq::empty()),
        };
        match removed {
            Err(e) => Err(e),
            Ok(removed) => match atoms_ops(
                add.atoms@,
                IndexChange::Add,
                Report::Named,
                add.atoms@.len(),
            ) {
                Err(e) => Err(e),
                Ok(added) => Ok(removed + added),
            },
        }
    }
}

/// The changes to the indexes when a resource is added.
pub fn add_resource_opts(add: &AddResource) -> (r: AtomicResult<Vec<Operation>>)
    ensures
        ops_outcome(r) == add_resource_ops(*add),
{
    if !add.overwrite_existing && add.existing.is_some() {
        return Err(
            AtomicError::other_error(
                crate::text::cat3(
                    "Failed to add: '",
                    add.subject.as_str(),
                    "', already exists, should not be overwritten.",
                ),
            ),
        );
    }
    if let Some(required) = &add.required {
        if let Err(e) = required {
            return Err(e.copy());
        }
    }
    let mut transaction: Vec<Operation> = Vec::new();
    assert(crate::transaction::ops_view(transaction@) =~= Seq::empty());
    if add.update_index {
        if let Some(existing) = &add.existing {
            match index_atoms(existing, IndexChange::Remove, Report::Named) {
                Ok(removed) => {
                    transaction = removed;
                },
                Err(e) => {
                    return Err(e);
                },
            }
        }
        match index_atoms(&add.atoms, IndexChange::Add, Report::Named) {
            Ok(added) => {
                append_ops(&mut transaction, added);
            },
            Err(e) => {
                return Err(e);
            },
        }
    }
    Ok(transaction)
}

/// The first part of the transaction of a commit: the commit itself, and the indexes for it.
pub open spec fn commit_ops(
    commit: Result<OperationView, ErrorView>,
    commit_atoms: Seq<IndexedAtom>,
) -> Result<Seq<OperationView>, ErrorView> {
    match commit {
        Err(e) => Err(e),
        Ok(op) => match atoms_ops(
            commit_atoms,
            IndexChange::Add,
            Report::Plain,
            commit_atoms.len(),
        ) {
            Err(e) => Err(e),
            Ok(ops) => Ok(seq![op] + ops),
        },
    }
}

/// What a change that may have failed comes to.
pub open spec fn op_outcome(r: AtomicResult<Operation>) -> Result<OperationView, ErrorView> {
    match r {
        Ok(op) => Ok(op@),
        Err(e) => Err(e@),
    }
}

/// The first part of the transaction of a commit: the commit itself, and the indexes for it.
pub fn save_commit(commit: AtomicResult<Operation>, commit_atoms: &Vec<IndexedAtom>) -> (r:
    AtomicResult<Vec<Operation>>)
    ensures
        ops_outcome(r) == commit_ops(op_outcome(commit), commit_atoms@),
{
    match commit {
        Err(e) => Err(e),
        Ok(op) => match index_atoms(commit_atoms, IndexChange::Add, Report::Plain) {
            Err(e) => Err(e),
            Ok(ops) => {
                let mut transaction: Vec<Operation> = Vec::new();
                transaction.push(op);
                assert(crate::transaction::ops_view(transaction@) =~= seq![op@]);
                append_ops(&mut transaction, ops);
                Ok(transaction)
            },
        },
    }
}

/// What a commit did to a resource.
pub struct CommitEffect {
    /// The change that writes the new resource, where there is one.
    pub new: Option<AtomicResult<Operation>>,
    /// Whether there was a resource before.
    pub old: bool,
    /// The atoms that the resource lost.
    pub remove_atoms: Vec<IndexedAtom>,
    /// The atoms that the resource gained.
    pub add_atoms: Vec<IndexedAtom>,
    pub update_index: bool,
}

/// The changes to the indexes for what a commit did to a resource.
pub open spec fn effect_index_ops(effect: CommitEffect) -> Result<Seq<OperationView>, ErrorView> {
    if !effect.update_index {
        Ok(Seq::empty())
    } else {
        let removed = if effect.old {
            atoms_ops(
                effect.remove_atoms@,
                IndexChange::Remove,
                Report::Commit,
                effect.remove_atoms@.len(),
            )
        } else {
            Ok(Seq::empty())
        };
        match removed {
            Err(e) => Err(e),
            Ok(removed) => if effect.new is Some {
                match atoms_ops(
                    effect.add_atoms@,
                    IndexChange::Add,
                    Report::Commit,
                    effect.add_atoms@.len(),
                ) {
                    Err(e) => Err(e),
                    Ok(added) => Ok(removed + added),
                }
            } else {
                Ok(removed)
            },
        }
    }
}

/// The second part of the transaction of a commit: the new resource, and the indexes for what
/// changed.
pub open spec fn effect_ops(effect: CommitEffect) -> Result<Seq<OperationView>, ErrorView> {
    match effect.new {
        Some(Err(e)) => Err(e@),
        Some(Ok(op)) => match effect_index_ops(effect) {
            Err(e) => Err(e),
            Ok(ops) => Ok(seq![op@] + ops),
        },
        None => effect_index_ops(effect),
    }
}

/// The changes to the indexes for what a commit did to a resource.
fn index_effect(effect: &CommitEffect) -> (r: AtomicResult<Vec<Operation>>)
    ensures
        ops_outcome(r) == effect_index_ops(*effect),
{
    let mut transaction: Vec<Operation> = Vec::new();
    assert(crate::transaction::ops_view(transaction@) =~= Seq::empty());
    if effect.update_index {
        if effect.old {
            match index_atoms(&effect.remove_atoms, IndexChange::Remove, Report::Commit) {
                Ok(removed) => {
                    transaction = removed;
                },
                Err(e) => {
                    return Err(e);
                },
            }
        }
        if effect.new.is_some() {
            match index_atoms(&effect.add_atoms, IndexChange::Add, Report::Commit) {
                Ok(added) => {
                    append_ops(&mut transaction, added);
                },
                Err(e) => {
                    return Err(e);
                },
            }
        }
    }
    Ok(transaction)
}

/// The second part of the transaction of a commit: the new resource, and the indexes for what
/// changed.
pub fn save_effect(effect: &CommitEffect) -> (r: AtomicResult<Vec<Operation>>)
    ensures
        ops_outcome(r) == effect_ops(*effect),
{
    let mut transaction: Vec<Operation> = Vec::new();
    assert(crate::transaction::ops_view(transaction@) =~= Seq::empty());
    if let Some(new) = &effect.new {
        match new {
            Ok(op) => {
                transaction.push(op.copy());
                assert(crate::transaction::ops_view(transaction@) =~= seq![op@]);
            },
            Err(e) => {
                return Err(e.copy());
            },
        }
    }
    match index_effect(effect) {
        Ok(ops) => {
            append_ops(&mut transaction, ops);
            assert(effect.new is None ==> crate::transaction::ops_view(transaction@)
                =~= crate::transaction::ops_view(ops@));
            Ok(transaction)
        },
        Err(e) => Err(e),
    }
}

/// All changes that some atoms stand for: for each value of each of them, the one to the index by
/// value, the one to the index by property, and those to the results of queries.
pub open spec fn all_changes(atoms: Seq<IndexedAtom>) -> Seq<OperationView> {
    atoms.map_values(
        |a: IndexedAtom|
            a.steps@.map_values(
                |s: IndexSteps|
                    seq![s.reference->Ok_0@, s.prop_val->Ok_0@] + crate::transaction::ops_view(
                        s.filters@,
                    ),
            ).flatten(),
    ).flatten()
}

/// Whether nothing went wrong with some atoms.
pub open spec fn nothing_wrong(atoms: Seq<IndexedAtom>) -> bool {
    forall|k: int, j: int|
        0 <= k < atoms.len() && 0 <= j < atoms[k].steps@.len() ==> (
        #[trigger] atoms[k].steps@[j]).reference is Ok && atoms[k].steps@[j].prop_val is Ok
            && atoms[k].steps@[j].checked is Ok
}

proof fn lemma_atom_changes(steps: Seq<IndexSteps>, change: IndexChange, n: nat)
    requires
        n <= steps.len(),
    ensures
        atom_ops(steps, change, n) is Ok <==> forall|j: int|
            0 <= j < n ==> (#[trigger] steps[j]).reference is Ok && steps[j].prop_val is Ok
                && steps[j].checked is Ok,
        atom_ops(steps, change, n) matches Ok(ops) ==> ops == steps.take(n as int).map_values(
            |s: IndexSteps|
                seq![s.reference->Ok_0@, s.prop_val->Ok_0@] + crate::transaction::ops_view(
                    s.filters@,
                ),
        ).flatten(),
    decreases n,
{
    broadcast use Seq::lemma_flatten_push;

    let triple = |s: IndexSteps|
        seq![s.reference->Ok_0@, s.prop_val->Ok_0@] + crate::transaction::ops_view(s.filters@);
    if n == 0 {
        assert(steps.take(0).map_values(triple) =~= Seq::empty());
    } else {
        lemma_atom_changes(steps, change, (n - 1) as nat);
        let before = steps.take(n - 1).map_values(triple);
        assert(steps.take(n as int).map_values(triple) =~= before.push(triple(steps[n - 1])));
        if atom_ops(steps, change, n) is Ok {
            assert forall|j: int| 0 <= j < n implies (#[trigger] steps[j]).reference is Ok
                && steps[j].prop_val is Ok && steps[j].checked is Ok by {
                assert(step_ops(steps[n - 1], change) is Ok);
            }
        } else if atom_ops(steps, change, (n - 1) as nat) is Ok {
            assert(!(steps[n - 1].reference is Ok && steps[n - 1].prop_val is Ok && steps[n
                - 1].checked is Ok));
        }
    }
}

proof fn lemma_atoms_changes(
    atoms: Seq<IndexedAtom>,
    change: IndexChange,
    report: Report,
    n: nat,
)
    requires
        n <= atoms.len(),
    ensures
        atoms_ops(atoms, change, report, n) is Ok <==> nothing_wrong(atoms.take(n as int)),
        atoms_ops(atoms, change, report, n) matches Ok(ops) ==> ops == all_changes(
            atoms.take(n as int),
        ),
    decreases n,
{
    broadcast use Seq::lemma_flatten_push;

    let changes = |a: IndexedAtom|
        a.steps@.map_values(
            |s: IndexSteps|
                seq![s.reference->Ok_0@, s.prop_val->Ok_0@] + crate::transaction::ops_view(
                    s.filters@,
                ),
        ).flatten();
    let some = atoms.take(n as int);
    if n == 0 {
        assert(some.map_values(changes) =~= Seq::empty());
    } else {
        let fewer = atoms.take(n - 1);
        let last = atoms[n - 1];
        lemma_atoms_changes(atoms, change, report, (n - 1) as nat);
        lemma_atom_changes(last.steps@, change, last.steps@.len());
        assert(last.steps@.take(last.steps@.len() as int) =~= last.steps@);
        assert(some.map_values(changes) =~= fewer.map_values(changes).push(changes(last)));
        if nothing_wrong(some) {
            assert forall|k: int, j: int|
                0 <= k < fewer.len() && 0 <= j < fewer[k].steps@.len() implies (
            #[trigger] fewer[k].steps@[j]).reference is Ok && fewer[k].steps@[j].prop_val is Ok
                && fewer[k].steps@[j].checked is Ok by {
                assert(some[k].steps@[j].reference is Ok);
            }
            assert forall|j: int| 0 <= j < last.steps@.len() implies (
            #[trigger] last.steps@[j]).reference is Ok && last.steps@[j].prop_val is Ok
                && last.steps@[j].checked is Ok by {
                assert(some[n - 1].steps@[j].reference is Ok);
            }
        }
        if atoms_ops(atoms, change, report, n) is Ok {
            assert forall|k: int, j: int|
                0 <= k < some.len() && 0 <= j < some[k].steps@.len() implies (
            #[trigger] some[k].steps@[j]).reference is Ok && some[k].steps@[j].prop_val is Ok
                && some[k].steps@[j].checked is Ok by {
                if k < n - 1 {
                    assert(fewer[k].steps@[j].reference is Ok);
                } else {
                    assert(last.steps@[j].reference is Ok);
                }
            }
        }
    }
}

/// Where a resource is added and the indexes are to be kept up, all atoms of the one that was there
/// leave them, and then all atoms of the new one enter them, whether there was one or not. Where
/// they are not to be kept up, nothing is changed.
pub proof fn added_resources_enter_the_indexes(add: AddResource)
    requires
        add_resource_ops(add) is Ok,
    ensures
        add.update_index && add.existing is None ==> add_resource_ops(add)->Ok_0 == all_changes(
            add.atoms@,
        ),
        add.update_index && add.existing is Some ==> add_resource_ops(add)->Ok_0 == all_changes(
            add.existing->0@,
        ) + all_changes(add.atoms@),
        !add.update_index ==> add_resource_ops(add)->Ok_0.len() == 0,
{
    if add.update_index {
        lemma_atoms_changes(add.atoms@, IndexChange::Add, Report::Named, add.atoms@.len());
        assert(add.atoms@.take(add.atoms@.len() as int) =~= add.atoms@);
        if let Some(existing) = add.existing {
            lemma_atoms_changes(
                existing@,
                IndexChange::Remove,
                Report::Named,
                existing@.len(),
            );
            assert(existing@.take(existing@.len() as int) =~= existing@);
        } else {
            let added = all_changes(add.atoms@);
            assert(Seq::<OperationView>::empty() + added =~= added);
        }
    }
}

/// A resource is added where nothing is in its way: there is none that is not to be overwritten, the
/// required properties are there, and nothing goes wrong with the indexes that are to be kept up.
/// Elsewhere it is not.
pub proof fn resources_are_added_where_nothing_is_in_the_way(add: AddResource)
    ensures
        add_resource_ops(add) is Ok <==> (add.existing is None || add.overwrite_existing) && !(
        add.required matches Some(Err(_))) && (add.update_index ==> nothing_wrong(add.atoms@) && (
        add.existing matches Some(existing) ==> nothing_wrong(existing@))),
{
    lemma_atoms_changes(add.atoms@, IndexChange::Add, Report::Named, add.atoms@.len());
    assert(add.atoms@.take(add.atoms@.len() as int) =~= add.atoms@);
    if let Some(existing) = add.existing {
        lemma_atoms_changes(existing@, IndexChange::Remove, Report::Named, existing@.len());
        assert(existing@.take(existing@.len() as int) =~= existing@);
    }
}

/// The atoms of a resource that is removed leave the indexes.
pub proof fn lemma_removed_changes(atoms: Seq<IndexedAtom>)
    ensures
        atoms_ops(atoms, IndexChange::Remove, Report::Plain, atoms.len()) is Ok <==> nothing_wrong(
            atoms,
        ),
        atoms_ops(atoms, IndexChange::Remove, Report::Plain, atoms.len()) matches Ok(ops) ==> ops
            == all_changes(atoms),
{
    lemma_atoms_changes(atoms, IndexChange::Remove, Report::Plain, atoms.len());
    assert(atoms.take(atoms.len() as int) =~= atoms);
}

proof fn lemma_flatten_contains<A>(lists: Seq<Seq<A>>, k: int, j: int)
    requires
        0 <= k < lists.len(),
        0 <= j < lists[k].len(),
    ensures
        lists.flatten().contains(lists[k][j]),
    decreases lists.len(),
{
    let rest = lists.drop_first();
    let all = lists.flatten();
    if k == 0 {
        assert(all[j] == lists[0][j]);
    } else {
        lemma_flatten_contains(rest, k - 1, j);
        let m = rest.flatten().index_of(lists[k][j]);
        assert(all[lists[0].len() + m] == rest.flatten()[m]);
    }
}

/// Every value of every atom is among the changes, in the index by value and in the index by
/// property, and so are the changes to the results of queries.
pub proof fn no_atom_is_left_out(atoms: Seq<IndexedAtom>, k: int, j: int)
    requires
        0 <= k < atoms.len(),
        0 <= j < atoms[k].steps@.len(),
    ensures
        all_changes(atoms).contains(atoms[k].steps@[j].reference->Ok_0@),
        all_changes(atoms).contains(atoms[k].steps@[j].prop_val->Ok_0@),
        forall|m: int|
            0 <= m < atoms[k].steps@[j].filters@.len() ==> all_changes(atoms).contains(
                (#[trigger] atoms[k].steps@[j].filters@[m])@,
            ),
{
    let triple = |s: IndexSteps|
        seq![s.reference->Ok_0@, s.prop_val->Ok_0@] + crate::transaction::ops_view(s.filters@);
    let changes = |a: IndexedAtom| a.steps@.map_values(triple).flatten();
    let lists = atoms.map_values(changes);
    let own = atoms[k].steps@.map_values(triple);
    let step = atoms[k].steps@[j];
    assert(own[j] == triple(step));
    assert forall|m: int| 0 <= m < own[j].len() implies all_changes(atoms).contains(
        #[trigger] own[j][m],
    ) by {
        lemma_flatten_contains(own, j, m);
        assert(lists[k] == own.flatten());
        let p = own.flatten().index_of(own[j][m]);
        lemma_flatten_contains(lists, k, p);
        assert(lists =~= atoms.map_values(
            |a: IndexedAtom|
                a.steps@.map_values(
                    |s: IndexSteps|
                        seq![s.reference->Ok_0@, s.prop_val->Ok_0@] + crate::transaction::ops_view(
                            s.filters@,
                        ),
                ).flatten(),
        ));
    }
    assert(own[j][0] == step.reference->Ok_0@);
    assert(own[j][1] == step.prop_val->Ok_0@);
    assert forall|m: int| 0 <= m < step.filters@.len() implies all_changes(atoms).contains(
        (#[trigger] step.filters@[m])@,
    ) by {
        assert(own[j][2 + m] == step.filters@[m]@);
    }
}

/// The transaction of a commit stores the commit first, and then puts all atoms of the commit in the
/// indexes.
pub proof fn commits_are_stored_and_indexed(
    commit: Result<OperationView, ErrorView>,
    commit_atoms: Seq<IndexedAtom>,
)
    ensures
        commit_ops(commit, commit_atoms) is Ok <==> commit is Ok && nothing_wrong(commit_atoms),
        commit_ops(commit, commit_atoms) matches Ok(ops) ==> ops == seq![commit->Ok_0]
            + all_changes(commit_atoms),
{
    lemma_atoms_changes(commit_atoms, IndexChange::Add, Report::Plain, commit_atoms.len());
    assert(commit_atoms.take(commit_atoms.len() as int) =~= commit_atoms);
}

/// The transaction of a commit stores the new resource, where there is one. Where the indexes are to
/// be kept up, the atoms that a resource lost leave them, and the atoms that it gained enter them.
pub proof fn changes_are_stored_and_indexed(effect: CommitEffect)
    requires
        effect_ops(effect) is Ok,
    ensures
        effect_ops(effect)->Ok_0 == (match effect.new {
            Some(Ok(op)) => seq![op@],
            _ => Seq::empty(),
        }) + (if effect.update_index && effect.old {
            all_changes(effect.remove_atoms@)
        } else {
            Seq::empty()
        }) + (if effect.update_index && effect.new is Some {
            all_changes(effect.add_atoms@)
        } else {
            Seq::empty()
        }),
{
    lemma_atoms_changes(
        effect.remove_atoms@,
        IndexChange::Remove,
        Report::Commit,
        effect.remove_atoms@.len(),
    );
    lemma_atoms_changes(
        effect.add_atoms@,
        IndexChange::Add,
        Report::Commit,
        effect.add_atoms@.len(),
    );
    assert(effect.remove_atoms@.take(effect.remove_atoms@.len() as int) =~= effect.remove_atoms@);
    assert(effect.add_atoms@.take(effect.add_atoms@.len() as int) =~= effect.add_atoms@);
    assert(effect_ops(effect)->Ok_0 =~= (match effect.new {
        Some(Ok(op)) => seq![op@],
        _ => Seq::empty(),
    }) + (if effect.update_index && effect.old {
        all_changes(effect.remove_atoms@)
    } else {
        Seq::empty()
    }) + (if effect.update_index && effect.new is Some {
        all_changes(effect.add_atoms@)
    } else {
        Seq::empty()
    }));
}

/// What a commit did can be stored where the new resource can be written and nothing goes wrong with
/// the indexes, and only there.
pub proof fn changes_are_stored_where_nothing_goes_wrong(effect: CommitEffect)
    ensures
        effect_ops(effect) is Ok <==> !(effect.new matches Some(Err(_))) && (effect.update_index ==> (
        effect.old ==> nothing_wrong(effect.remove_atoms@)) && (effect.new is Some
            ==> nothing_wrong(effect.add_atoms@))),
{
    lemma_atoms_changes(
        effect.remove_atoms@,
        IndexChange::Remove,
        Report::Commit,
        effect.remove_atoms@.len(),
    );
    lemma_atoms_changes(
        effect.add_atoms@,
        IndexChange::Add,
        Report::Commit,
        effect.add_atoms@.len(),
    );
    assert(effect.remove_atoms@.take(effect.remove_atoms@.len() as int) =~= effect.remove_atoms@);
    assert(effect.add_atoms@.take(effect.add_atoms@.len() as int) =~= effect.add_atoms@);
}

proof fn lemma_pushed_prefix(steps: Seq<IndexSteps>, change: IndexChange, n: nat)
    requires
        n <= steps.len(),
        atom_ops(steps, change, n) is Ok,
    ensures
        atom_pushed(steps, change, n) == atom_ops(steps, change, n)->Ok_0,
        atom_pushed(steps, change, n).is_prefix_of(atom_pushed(steps, change, steps.len())),
    decreases steps.len() - n, n,
{
    lemma_pushed_ok(steps, change, n);
    if n < steps.len() {
        let next = atom_pushed(steps, change, n + 1);
        assert(atom_pushed(steps, change, n).is_prefix_of(next));
        if atom_ops(steps, change, n + 1) is Ok {
            lemma_pushed_prefix(steps, change, n + 1);
            assert(atom_pushed(steps, change, n) =~= atom_pushed(
                steps,
                change,
                steps.len(),
            ).take(atom_pushed(steps, change, n).len() as int));
        } else {
            lemma_atom_stops(steps, change, n + 1);
        }
    }
}

proof fn lemma_pushed_ok(steps: Seq<IndexSteps>, change: IndexChange, n: nat)
    requires
        n <= steps.len(),
        atom_ops(steps, change, n) is Ok,
    ensures
        atom_pushed(steps, change, n) == atom_ops(steps, change, n)->Ok_0,
    decreases n,
{
    if n > 0 {
        lemma_pushed_ok(steps, change, (n - 1) as nat);
    }
}

/// Where something goes wrong with a value of an atom, the changes for all values before it have
/// been added to the transaction.
pub proof fn earlier_values_stay_added(steps: Seq<IndexSteps>, change: IndexChange, n: nat)
    requires
        n <= steps.len(),
        forall|j: int|
            0 <= j < n ==> (#[trigger] steps[j]).reference is Ok && steps[j].prop_val is Ok
                && steps[j].checked is Ok,
    ensures
        steps.take(n as int).map_values(
            |s: IndexSteps|
                seq![s.reference->Ok_0@, s.prop_val->Ok_0@] + crate::transaction::ops_view(
                    s.filters@,
                ),
        ).flatten().is_prefix_of(atom_pushed(steps, change, steps.len())),
{
    lemma_atom_changes(steps, change, n);
    lemma_pushed_prefix(steps, change, n);
}

/// Changes that leave the resources alone.
pub open spec fn only_indexes(ops: Seq<OperationView>) -> bool {
    forall|i: int| 0 <= i < ops.len() ==> (#[trigger] ops[i]).tree != Tree::Resources
}

proof fn lemma_only_indexes(
    content: Map<Seq<u8>, Seq<u8>>,
    first: Seq<OperationView>,
    ops: Seq<OperationView>,
)
    requires
        only_indexes(ops),
    ensures
        crate::transaction::after_ops(content, first + ops, Tree::Resources)
            == crate::transaction::after_ops(content, first, Tree::Resources),
    decreases ops.len(),
{
    if ops.len() == 0 {
        assert(first + ops =~= first);
    } else {
        assert((first + ops).drop_last() =~= first + ops.drop_last());
        assert((first + ops).last() == ops.last());
        assert(ops[ops.len() - 1].tree != Tree::Resources);
        assert forall|i: int| 0 <= i < ops.drop_last().len() implies (#[trigger] ops.drop_last()[i]).tree
            != Tree::Resources by {
            assert(ops[i].tree != Tree::Resources);
        }
        lemma_only_indexes(content, first, ops.drop_last());
    }
}

/// The changes to the indexes for a commit leave the resources alone.
pub open spec fn commit_indexes_only(commit_atoms: Seq<IndexedAtom>, effect: CommitEffect) -> bool {
    &&& atoms_ops(
        commit_atoms,
        IndexChange::Add,
        Report::Plain,
        commit_atoms.len(),
    ) matches Ok(ops) ==> only_indexes(ops)
    &&& effect_index_ops(effect) matches Ok(ops) ==> only_indexes(ops)
}

/// The resources after a commit with what it did.
pub open spec fn after_commit(
    content: Map<Seq<u8>, Seq<u8>>,
    commit: (Seq<u8>, Seq<u8>),
    effect: CommitEffect,
) -> Map<Seq<u8>, Seq<u8>> {
    let stored = content.insert(commit.0, commit.1);
    match effect.new {
        Some(Ok(op)) => stored.insert(op@.key, op@.val->0),
        _ => stored,
    }
}

/// Applying the transaction of a commit stores the commit and, where there is one, the new
/// resource, and leaves all other resources as they were.
pub proof fn commits_store_commit_and_resource(
    content: Map<Seq<u8>, Seq<u8>>,
    commit: (Seq<u8>, Seq<u8>),
    commit_atoms: Seq<IndexedAtom>,
    effect: CommitEffect,
)
    requires
        commit_indexes_only(commit_atoms, effect),
        commit_ops(Ok(crate::transaction::inserting(commit.0, commit.1)), commit_atoms) is Ok,
        effect_ops(effect) is Ok,
        effect.new matches Some(Ok(op)) ==> exists|key: Seq<u8>, val: Seq<u8>|
            op@ == #[trigger] crate::transaction::inserting(key, val),
    ensures
        ({
            let first = commit_ops(
                Ok(crate::transaction::inserting(commit.0, commit.1)),
                commit_atoms,
            )->Ok_0;
            crate::transaction::after_ops(
                content,
                first + effect_ops(effect)->Ok_0,
                Tree::Resources,
            ) == after_commit(content, commit, effect)
        }),
{
    let c = crate::transaction::inserting(commit.0, commit.1);
    let commit_index = atoms_ops(
        commit_atoms,
        IndexChange::Add,
        Report::Plain,
        commit_atoms.len(),
    )->Ok_0;
    let new_index = effect_index_ops(effect)->Ok_0;
    let first = seq![c] + commit_index;
    reveal_with_fuel(crate::transaction::after_ops, 2);
    assert(seq![c].drop_last() =~= Seq::empty());
    lemma_only_indexes(content, seq![c], commit_index);
    match effect.new {
        Some(Ok(op)) => {
            let second = seq![op@] + new_index;
            assert(first + second =~= first.push(op@) + new_index);
            lemma_only_indexes(content, first.push(op@), new_index);
            assert(first.push(op@).drop_last() =~= first);
        },
        _ => {
            lemma_only_indexes(content, first, new_index);
        },
    }
}

/// Whatever goes wrong with an atom, what is said ends in the error; where atoms are named, it names
/// the atom; and adding and removing are told apart.
pub proof fn errors_with_atoms_are_reported(
    report: Report,
    change: IndexChange,
    shown: Seq<char>,
    e: ErrorView,
)
    ensures
        report is Plain ==> reported(report, change, shown, e) == e,
        e.message.is_suffix_of(reported(report, change, shown, e).message),
        report is Named ==> crate::text::includes(
            reported(report, change, shown, e).message,
            shown,
        ),
        report is Named && change is Add ==> "Failed to add atom to index "@.is_prefix_of(
            reported(report, change, shown, e).message,
        ),
        report is Named && change is Remove ==> "Failed to remove atom from index "@.is_prefix_of(
            reported(report, change, shown, e).message,
        ),
        report is Commit && change is Add ==> "Error adding atom to index: "@.is_prefix_of(
            reported(report, change, shown, e).message,
        ),
        report is Commit && change is Remove ==> "Error removing atom from index: "@.is_prefix_of(
            reported(report, change, shown, e).message,
        ),
{
    let message = reported(report, change, shown, e).message;
    assert(message.subrange(message.len() - e.message.len(), message.len() as int) =~= e.message);
    let front = match (report, change) {
        (Report::Named, IndexChange::Add) => "Failed to add atom to index "@,
        (Report::Named, IndexChange::Remove) => "Failed to remove atom from index "@,
        (Report::Commit, IndexChange::Add) => "Error adding atom to index: "@,
        (Report::Commit, IndexChange::Remove) => "Error removing atom from index: "@,
        _ => Seq::empty(),
    };
    assert(message.subrange(0, front.len() as int) =~= front);
    if report is Named {
        let n = front.len() as int;
        assert(message.subrange(n, n + shown.len()) =~= shown);
        assert(crate::text::occurs(message, shown, n));
    }
}

/// The first thing that goes wrong with the atoms of a resource is what is said, whatever follows: with
/// the index by value, with the index by property, or with the queries whose results are kept, in this
/// order. `i` is the place of the first atom, and `j` of its first value, with which anything is wrong.
pub proof fn the_first_error_with_an_atom_counts(
    atoms: Seq<IndexedAtom>,
    change: IndexChange,
    report: Report,
    i: int,
    j: int,
)
    requires
        0 <= i < atoms.len(),
        0 <= j < atoms[i].steps@.len(),
        atoms_ops(atoms, change, report, i as nat) is Ok,
        atom_ops(atoms[i].steps@, change, j as nat) is Ok,
    ensures
        ({
            let step = atoms[i].steps@[j];
            let said = atoms_ops(atoms, change, report, atoms.len());
            let report_of = |e: ErrorView|
                Err::<Seq<OperationView>, ErrorView>(reported(report, change, atoms[i].shown@, e));
            &&& step.reference matches Err(e) ==> said == report_of(e@)
            &&& step.reference is Ok ==> (step.prop_val matches Err(e) ==> said == report_of(e@))
            &&& step.reference is Ok && step.prop_val is Ok ==> (step.checked matches Err(e)
                ==> said == report_of(
                crate::errors::other(
                    if change is Add {
                        "Failed to check_if_atom_matches_watched_collections. "@ + e@.message
                    } else {
                        "Checking atom went wrong: "@ + e@.message
                    },
                ),
            ))
        }),
{
    let steps = atoms[i].steps@;
    if step_ops(steps[j], change) is Err {
        assert(atom_ops(steps, change, (j + 1) as nat) is Err);
        lemma_atom_stops(steps, change, (j + 1) as nat);
        assert(atoms_ops(atoms, change, report, (i + 1) as nat) is Err);
        lemma_atoms_stop(atoms, change, report, (i + 1) as nat);
    }
}

/// The changes for an atom go to the end of a transaction: all of them where nothing goes wrong, and
/// only then it works. What was in the transaction stays.
pub proof fn changes_go_to_the_end(
    before: Seq<OperationView>,
    after: Seq<OperationView>,
    steps: Seq<IndexSteps>,
    change: IndexChange,
    r: AtomicResult<()>,
)
    requires
        extended(before, after, steps, change, r),
    ensures
        before.is_prefix_of(after),
        r is Ok <==> atom_ops(steps, change, steps.len()) is Ok,
        r is Ok ==> after == before + atom_ops(steps, change, steps.len())->Ok_0,
        r matches Err(e) ==> atom_ops(steps, change, steps.len()) == Err::<
            Seq<OperationView>,
            ErrorView,
        >(e@),
{
    assert(after.subrange(0, before.len() as int) =~= before);
}

} // verus!
