//! The rules of the database: what is found, what is listed, and what is said about errors.
use crate::errors::{AtomicError, AtomicResult};
use crate::text::{cat3, cat4, starts_with};
use vstd::prelude::*;

verus! {

/// What is said about a resource in the database that cannot be read.
pub fn corrupt_db_message(subject: &str) -> (r: String)
    ensures
        r@ == "Could not deserialize item "@ + subject@
            + " from database. DB is possibly corrupt, could be due to an update or a lack of migrations. Restore to a previous version, export your data and import your data again."@,
{
    cat3(
        "Could not deserialize item ",
        subject,
        " from database. DB is possibly corrupt, could be due to an update or a lack of migrations. Restore to a previous version, export your data and import your data again.",
    )
}

/// What is said about an entry of the database that cannot be read.
pub const DB_CORRUPT_MSG: &'static str = "Could not deserialize item from database. DB is possibly corrupt, could be due to an update or a lack of migrations. Restore to a previous version, export your data and import your data again.";

/// What was found in the database under an address. The error of the database is told apart from
/// there being nothing.
pub fn get_propvals<T>(subject: &str, found: Result<Option<T>, String>) -> (r: AtomicResult<T>)
    ensures
        match found {
            Ok(Some(value)) => r == Ok::<T, AtomicError>(value),
            Ok(None) => r is Err && r->Err_0@ == crate::errors::missing(
                "Resource "@ + subject@ + " not found"@,
            ),
            Err(e) => r is Err && r->Err_0@ == crate::errors::other(
                "Can't open "@ + subject@ + " from store: "@ + e@,
            ),
        },
{
    match found {
        Ok(Some(value)) => Ok(value),
        Ok(None) => Err(AtomicError::not_found(cat3("Resource ", subject, " not found"))),
        Err(e) => Err(
            AtomicError::other_error(cat4("Can't open ", subject, " from store: ", e.as_str())),
        ),
    }
}

/// Whether an entry of the database is listed: one of this server, or any where others are listed
/// too.
pub fn map_sled_item_to_resource(subject: &str, self_url: &str, include_external: bool) -> (r: bool)
    ensures
        r == crate::query::counts(include_external, self_url@, subject@),
{
    include_external || starts_with(subject, self_url)
}

/// The agent that acts where nobody else is named.
pub fn get_default_agent<T>(agent: Option<T>) -> (r: AtomicResult<T>)
    ensures
        match agent {
            Some(a) => r == Ok::<T, AtomicError>(a),
            None => r is Err && r->Err_0@ == crate::errors::other(
                "No default agent has been set."@,
            ),
        },
{
    match agent {
        Some(a) => Ok(a),
        None => Err(AtomicError::other_error("No default agent has been set.".to_owned())),
    }
}

/// Whether the database is to be written to disk after an index has been built for this many
/// resources.
pub fn flush_due(count: usize) -> (r: bool)
    ensures
        r == (count % 10000 == 0),
{
    count % 10000 == 0
}

/// An atom: a resource, a property, and the text of its value.
pub struct Atom {
    pub subject: String,
    pub property: String,
    pub value: String,
}

/// The atoms of some resources: for each resource, the places of its atoms.
pub type AtomGroups = Vec<(String, Vec<usize>)>;

/// What the atoms of some resources say.
pub open spec fn groups_view(groups: Seq<(String, Vec<usize>)>) -> Seq<(Seq<char>, Seq<usize>)> {
    groups.map_values(|g: (String, Vec<usize>)| (g.0@, g.1@))
}

/// The places of the atoms of a resource among the first `n` atoms.
pub open spec fn atoms_of(atoms: Seq<Atom>, subject: Seq<char>, n: nat) -> Seq<usize>
    decreases n,
{
    if n == 0 || n > atoms.len() {
        Seq::empty()
    } else if atoms[n - 1].subject@ == subject {
        atoms_of(atoms, subject, (n - 1) as nat).push((n - 1) as usize)
    } else {
        atoms_of(atoms, subject, (n - 1) as nat)
    }
}

/// Whether some groups are those of the first `n` atoms: each resource that has one of them has
/// one group, with all of its atoms in order.
pub open spec fn grouped(
    groups: Seq<(Seq<char>, Seq<usize>)>,
    atoms: Seq<Atom>,
    n: nat,
) -> bool {
    &&& crate::assoc::distinct(groups)
    &&& forall|subject: Seq<char>| #[trigger]
        crate::assoc::lookup(groups, subject) == (if atoms_of(atoms, subject, n).len() == 0 {
            None
        } else {
            Some(atoms_of(atoms, subject, n))
        })
}

/// Sorts atoms by the resources that they belong to, in order to make one resource of each.
pub fn add_atoms(atoms: &Vec<Atom>) -> (r: AtomGroups)
    ensures
        grouped(groups_view(r@), atoms@, atoms@.len()),
{
    let mut groups: AtomGroups = Vec::new();
    let mut i: usize = 0;
    assert(groups_view(groups@) =~= Seq::empty());
    while i < atoms.len()
        invariant
            i <= atoms@.len(),
            grouped(groups_view(groups@), atoms@, i as nat),
        decreases atoms@.len() - i,
    {
        let ghost before = groups_view(groups@);
        let ghost subject = atoms@[i as int].subject@;
        let k = crate::assoc::place_of(&groups, atoms[i].subject.as_str());
        proof {
            crate::assoc::lemma_place_is(before, subject, k as int);
        }
        let ghost earlier = atoms_of(atoms@, subject, i as nat);
        assert(crate::assoc::lookup(before, subject) == (if earlier.len() == 0 {
            None
        } else {
            Some(earlier)
        }));
        if k < groups.len() {
            let mut places: Vec<usize> = Vec::new();
            std::mem::swap(&mut places, &mut groups[k].1);
            places.push(i);
            groups.set(k, (atoms[i].subject.clone(), places));
            assert(groups_view(groups@) =~= crate::assoc::put(before, subject, earlier.push(i)));
        } else {
            let mut places: Vec<usize> = Vec::new();
            places.push(i);
            groups.push((atoms[i].subject.clone(), places));
            assert(earlier =~= Seq::empty());
            assert(places@ =~= earlier.push(i));
            assert(groups_view(groups@) =~= crate::assoc::put(before, subject, earlier.push(i)));
        }
        proof {
            let after = groups_view(groups@);
            assert forall|other: Seq<char>| #[trigger]
                crate::assoc::lookup(after, other) == (if atoms_of(
                    atoms@,
                    other,
                    (i + 1) as nat,
                ).len() == 0 {
                    None
                } else {
                    Some(atoms_of(atoms@, other, (i + 1) as nat))
                }) by {
                crate::assoc::put_then_lookup(before, subject, earlier.push(i), other);
                assert(crate::assoc::lookup(before, other) == (if atoms_of(
                    atoms@,
                    other,
                    i as nat,
                ).len() == 0 {
                    None
                } else {
                    Some(atoms_of(atoms@, other, i as nat))
                }));
            }
            crate::assoc::put_then_lookup(before, subject, earlier.push(i), subject);
        }
        i += 1;
    }
    groups
}

/// An atom is in the group of its resource and in no other, and atoms keep their order.
pub proof fn atoms_belong_to_their_resource(atoms: Seq<Atom>, subject: Seq<char>, n: nat, i: usize)
    requires
        n <= atoms.len() <= usize::MAX,
    ensures
        atoms_of(atoms, subject, n).contains(i) <==> i < n && atoms[i as int].subject@ == subject,
        forall|a: int, b: int|
            0 <= a < b < atoms_of(atoms, subject, n).len() ==> #[trigger] atoms_of(
                atoms,
                subject,
                n,
            )[a] < #[trigger] atoms_of(atoms, subject, n)[b],
    decreases n,
{
    if n > 0 {
        let m = (n - 1) as nat;
        let before = atoms_of(atoms, subject, m);
        let all = atoms_of(atoms, subject, n);
        atoms_belong_to_their_resource(atoms, subject, m, i);
        if atoms[n - 1].subject@ == subject {
            assert(all[before.len() as int] == (n - 1) as usize);
            if before.contains(i) {
                let k = choose|k: int| 0 <= k < before.len() && before[k] == i;
                assert(all[k] == i);
            }
            assert forall|a: int, b: int| 0 <= a < b < all.len() implies #[trigger] all[a]
                < #[trigger] all[b] by {
                if b == before.len() {
                    assert(before.contains(all[a]));
                    atoms_belong_to_their_resource(atoms, subject, m, all[a]);
                }
            }
        }
    }
}

} // verus!
