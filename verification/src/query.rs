//! Queries: which index answers them, which of its atoms are shown, and when an index is built.
use crate::agents::ForAgent;
use crate::errors::{AtomicError, AtomicResult};
use crate::text::{same, starts_with};
use crate::values::PropValue;
use vstd::prelude::*;

verus! {

/// A search for the resources that have a value.
pub struct Query {
    /// The property that has the value, or any.
    pub property: Option<String>,
    /// The value, or any.
    pub value: Option<PropValue>,
    /// The greatest number of resources to return.
    pub limit: Option<usize>,
    /// The least and the greatest value of the property to sort by.
    pub start_val: Option<PropValue>,
    pub end_val: Option<PropValue>,
    /// The number of resources to leave out at the start.
    pub offset: usize,
    pub sort_by: Option<String>,
    pub sort_desc: bool,
    /// Whether resources of other servers are returned.
    pub include_external: bool,
    /// Whether the resources themselves are returned.
    pub include_nested: bool,
    pub for_agent: ForAgent,
}

/// Which index answers a query.
#[derive(Clone, Copy, Debug, PartialEq, Eq, Structural)]
pub enum IndexSource {
    /// The index by property.
    PropValSub,
    /// The index by value.
    ValPropSub,
    /// None: all atoms are looked at.
    AllAtoms,
}

/// Which index answers a query.
pub fn get_index_iterator_for_query(q: &Query) -> (r: IndexSource)
    ensures
        r == (if q.property is Some {
            IndexSource::PropValSub
        } else if q.value is Some {
            IndexSource::ValPropSub
        } else {
            IndexSource::AllAtoms
        }),
{
    if q.property.is_some() {
        IndexSource::PropValSub
    } else if q.value.is_some() {
        IndexSource::ValPropSub
    } else {
        IndexSource::AllAtoms
    }
}

/// What stands for a value that is not there when resources are sorted.
pub const NO_VALUE: &'static str = "";

/// Where the value comes from by which a resource is sorted.
#[derive(Clone, Copy, Debug, PartialEq, Eq, Structural)]
pub enum SortSource {
    /// From the atom in the index.
    Atom,
    /// From the property to sort by, as the database has it.
    Stored,
}

/// Where the value comes from by which the resource of an atom of `property` is sorted.
pub open spec fn sort_source(sort_by: Option<Seq<char>>, property: Seq<char>) -> SortSource {
    match sort_by {
        Some(sort) => if property == sort {
            SortSource::Atom
        } else {
            SortSource::Stored
        },
        None => SortSource::Atom,
    }
}

/// Finds out where the value comes from by which the resource of an atom is sorted.
pub fn find_sort_source(sort_by: &Option<String>, property: &str) -> (r: SortSource)
    ensures
        r == sort_source(crate::text::opt(*sort_by), property@),
{
    match sort_by {
        Some(sort) => if same(property, sort.as_str()) {
            SortSource::Atom
        } else {
            SortSource::Stored
        },
        None => SortSource::Atom,
    }
}

/// The value by which the resource of an atom is sorted.
pub open spec fn sorting_value(
    source: SortSource,
    atom_value: Seq<char>,
    stored: Option<Seq<char>>,
) -> Seq<char> {
    match source {
        SortSource::Atom => atom_value,
        SortSource::Stored => match stored {
            Some(value) => value,
            None => NO_VALUE@,
        },
    }
}

/// A resource is sorted by its value of the property to sort by: by the value of the atom where
/// that is of this property, or where nothing is said of it, and by the stored one elsewhere. Where
/// there is none, it is sorted as one with an empty value.
pub proof fn resources_are_sorted_by_the_property(
    sort_by: Option<Seq<char>>,
    property: Seq<char>,
    atom_value: Seq<char>,
    stored: Option<Seq<char>>,
)
    ensures
        ({
            let value = sorting_value(sort_source(sort_by, property), atom_value, stored);
            &&& sort_by is None || sort_by == Some(property) ==> value == atom_value
            &&& sort_by is Some && sort_by != Some(property) && stored is Some ==> Some(value)
                == stored
            &&& sort_by is Some && sort_by != Some(property) && stored is None ==> value.len() == 0
        }),
{
    reveal_strlit("");
}

/// The value by which the resource of an atom is sorted. `stored` is what the database has for the
/// property to sort by.
pub fn build_index_for_atom(source: SortSource, atom_value: &str, stored: Option<String>) -> (r:
    String)
    ensures
        r@ == sorting_value(source, atom_value@, crate::text::opt(stored)),
{
    match source {
        SortSource::Atom => atom_value.to_owned(),
        SortSource::Stored => match stored {
            Some(value) => value,
            None => NO_VALUE.to_owned(),
        },
    }
}

/// What the atoms of an index are held against.
pub struct ScanRules {
    pub limit: Option<usize>,
    pub offset: usize,
    pub include_external: bool,
    /// Whether the resources themselves are fetched.
    pub fetch: bool,
    /// The address of the server.
    pub self_url: String,
}

/// A walk through the atoms of an index.
pub struct Scan {
    /// The number of atoms that have been looked at.
    pub seen: usize,
    /// The number of those that are of this server, where only those count.
    pub count: usize,
    /// The resources to return.
    pub subjects: Vec<String>,
}

/// What a [Scan] says.
pub struct ScanView {
    pub seen: nat,
    pub count: nat,
    pub subjects: Seq<Seq<char>>,
}

impl View for Scan {
    type V = ScanView;

    open spec fn view(&self) -> ScanView {
        ScanView {
            seen: self.seen as nat,
            count: self.count as nat,
            subjects: crate::text::list(self.subjects@),
        }
    }
}

/// Whether a resource counts: it is one of this server, or others count too.
pub open spec fn counts(include_external: bool, self_url: Seq<char>, subject: Seq<char>) -> bool {
    include_external || self_url.is_prefix_of(subject)
}

impl ScanRules {
    /// Whether a resource counts.
    pub open spec fn counts(self, subject: Seq<char>) -> bool {
        counts(self.include_external, self.self_url@, subject)
    }

    /// Whether there is room for a resource: the offset is behind, and the limit is not reached.
    pub open spec fn room(self, scan: ScanView) -> bool {
        &&& self.offset <= scan.seen
        &&& match self.limit {
            Some(limit) => scan.subjects.len() < limit,
            None => true,
        }
    }

    /// What an atom does to the walk. `readable` says whether the resource could be fetched, which
    /// counts only where resources are fetched.
    pub open spec fn step(self, scan: ScanView, subject: Seq<char>, readable: bool) -> ScanView {
        ScanView {
            seen: scan.seen + 1,
            count: if self.counts(subject) {
                scan.count + 1
            } else {
                scan.count
            },
            subjects: if self.counts(subject) && self.room(scan) && (self.fetch ==> readable) {
                scan.subjects.push(subject)
            } else {
                scan.subjects
            },
        }
    }

    /// The walk through the first `n` atoms: the resources that they belong to, and whether these
    /// can be fetched.
    pub open spec fn walk(self, atoms: Seq<(Seq<char>, bool)>, n: nat) -> ScanView
        decreases n,
    {
        if n == 0 || n > atoms.len() {
            ScanView { seen: 0, count: 0, subjects: Seq::empty() }
        } else {
            self.step(self.walk(atoms, (n - 1) as nat), atoms[n - 1].0, atoms[n - 1].1)
        }
    }

    /// The number of the first `n` atoms that count.
    pub open spec fn counting(self, atoms: Seq<(Seq<char>, bool)>, n: nat) -> nat
        decreases n,
    {
        if n == 0 || n > atoms.len() {
            0
        } else {
            self.counting(atoms, (n - 1) as nat) + (if self.counts(atoms[n - 1].0) {
                1nat
            } else {
                0nat
            })
        }
    }

    /// A query returns at most as many resources as its limit, and only ones that count; its count
    /// is that of all resources that count, whatever the limit and the offset are.
    pub proof fn queries_keep_their_limit(self, atoms: Seq<(Seq<char>, bool)>, n: nat)
        requires
            n <= atoms.len(),
        ensures
            self.walk(atoms, n).seen == n,
            self.walk(atoms, n).count == self.counting(atoms, n),
            self.limit matches Some(limit) ==> self.walk(atoms, n).subjects.len() <= limit,
            forall|i: int|
                0 <= i < self.walk(atoms, n).subjects.len() ==> self.counts(
                    #[trigger] self.walk(atoms, n).subjects[i],
                ),
        decreases n,
    {
        if n > 0 {
            self.queries_keep_their_limit(atoms, (n - 1) as nat);
            let before = self.walk(atoms, (n - 1) as nat).subjects;
            let after = self.walk(atoms, n).subjects;
            assert forall|i: int| 0 <= i < after.len() implies self.counts(
                #[trigger] after[i],
            ) by {
                if i < before.len() {
                    assert(after[i] == before[i]);
                }
            }
        }
    }
}

impl Scan {
    /// There are never more resources that count than have been looked at.
    pub open spec fn wf(&self) -> bool {
        self.count <= self.seen
    }

    /// Starts to walk. The address of the server has to be known.
    pub fn start(self_url: Option<String>) -> (r: AtomicResult<(Scan, String)>)
        ensures
            match self_url {
                Some(url) => r is Ok && r->Ok_0.1 == url && r->Ok_0.0.wf() && r->Ok_0.0@ == (
                ScanView { seen: 0, count: 0, subjects: Seq::empty() }),
                None => r is Err && r->Err_0@ == crate::errors::other(
                    "No self_url set, required for Queries"@,
                ),
            },
    {
        match self_url {
            Some(url) => {
                let scan = Scan { seen: 0, count: 0, subjects: Vec::new() };
                assert(scan@.subjects =~= Seq::empty());
                Ok((scan, url))
            },
            None => Err(
                AtomicError::other_error("No self_url set, required for Queries".to_owned()),
            ),
        }
    }

    /// Looks at the next atom. Where the resource has to be fetched before it is returned, the
    /// result is true; it is then to be included, if it can be fetched.
    pub fn offer(&mut self, rules: &ScanRules, subject: &str) -> (r: bool)
        requires
            old(self).wf(),
            old(self).seen < usize::MAX,
        ensures
            final(self).wf(),
            r == (rules.fetch && rules.counts(subject@) && rules.room(old(self)@)),
            final(self)@ == rules.step(old(self)@, subject@, false),
    {
        let ghost before = self@;
        let i = self.seen;
        self.seen = i + 1;
        if !rules.include_external && !starts_with(subject, rules.self_url.as_str()) {
            return false;
        }
        self.count = self.count + 1;
        if rules.offset > i {
            return false;
        }
        let room = match rules.limit {
            Some(limit) => self.subjects.len() < limit,
            None => true,
        };
        if !room {
            return false;
        }
        if rules.fetch {
            return true;
        }
        self.subjects.push(subject.to_owned());
        assert(self@.subjects =~= before.subjects.push(subject@));
        false
    }

    /// Includes a resource that has been fetched.
    pub fn include_fetched(&mut self, subject: &str)
        requires
            old(self).wf(),
        ensures
            final(self).wf(),
            final(self)@ == (ScanView {
                subjects: old(self)@.subjects.push(subject@),
                ..old(self)@
            }),
    {
        let ghost before = self@;
        self.subjects.push(subject.to_owned());
        assert(self@.subjects =~= before.subjects.push(subject@));
    }
}

/// Offering an atom, and including its resource where it is asked for and can be fetched, is one
/// step of the walk.
pub proof fn offering_and_including_is_a_step(
    rules: ScanRules,
    scan: ScanView,
    subject: Seq<char>,
    readable: bool,
)
    ensures
        ({
            let offered = rules.step(scan, subject, false);
            let asked = rules.fetch && rules.counts(subject) && rules.room(scan);
            let done = if asked && readable {
                ScanView { subjects: offered.subjects.push(subject), ..offered }
            } else {
                offered
            };
            done == rules.step(scan, subject, readable)
        }),
{
}

/// The resources of the atoms that may be shown: all but the first `offset`, of this server where
/// only those count, and such as can be fetched where they are.
pub open spec fn shown(rules: ScanRules, atoms: Seq<(Seq<char>, bool)>) -> Seq<Seq<char>> {
    if rules.offset >= atoms.len() {
        Seq::empty()
    } else {
        atoms.skip(rules.offset as int).filter(
            |a: (Seq<char>, bool)|
                (rules.include_external || rules.self_url@.is_prefix_of(a.0)) && (rules.fetch
                    ==> a.1),
        ).map_values(|a: (Seq<char>, bool)| a.0)
    }
}

proof fn lemma_shown_next(rules: ScanRules, atoms: Seq<(Seq<char>, bool)>, atom: (Seq<char>, bool))
    ensures
        shown(rules, atoms.push(atom)) == (if atoms.len() >= rules.offset && (rules.include_external
            || rules.self_url@.is_prefix_of(atom.0)) && (rules.fetch ==> atom.1) {
            shown(rules, atoms).push(atom.0)
        } else {
            shown(rules, atoms)
        }),
{
    broadcast use Seq::lemma_filter_push;

    let pred = |a: (Seq<char>, bool)|
        (rules.include_external || rules.self_url@.is_prefix_of(a.0)) && (rules.fetch ==> a.1);
    let subject = |a: (Seq<char>, bool)| a.0;
    let offset = rules.offset as int;
    if atoms.len() >= offset {
        let before = atoms.skip(offset);
        assert(atoms.push(atom).skip(offset) =~= before.push(atom));
        assert(before.push(atom).filter(pred).map_values(subject) =~= if pred(atom) {
            before.filter(pred).map_values(subject).push(atom.0)
        } else {
            before.filter(pred).map_values(subject)
        });
        if atoms.len() == offset {
            assert(before =~= Seq::empty());
            reveal(Seq::filter);
            assert(before.filter(pred).map_values(subject) =~= Seq::empty());
        }
    }
}

proof fn lemma_walk_shows(rules: ScanRules, atoms: Seq<(Seq<char>, bool)>, n: nat)
    requires
        n <= atoms.len(),
    ensures
        rules.walk(atoms, n).seen == n,
        rules.walk(atoms, n).subjects == (match rules.limit {
            Some(limit) => if limit < shown(rules, atoms.take(n as int)).len() {
                shown(rules, atoms.take(n as int)).take(limit as int)
            } else {
                shown(rules, atoms.take(n as int))
            },
            None => shown(rules, atoms.take(n as int)),
        }),
    decreases n,
{
    if n > 0 {
        let before = atoms.take(n - 1);
        lemma_walk_shows(rules, atoms, (n - 1) as nat);
        lemma_shown_next(rules, before, atoms[n - 1]);
        assert(atoms.take(n as int) =~= before.push(atoms[n - 1]));
        let old = shown(rules, before);
        let new = shown(rules, atoms.take(n as int));
        if let Some(limit) = rules.limit {
            if limit <= old.len() {
                assert(new.take(limit as int) =~= old.take(limit as int));
                assert(old.take(old.len() as int) =~= old);
            }
        }
        assert(rules.walk(atoms, n).subjects =~= match rules.limit {
            Some(limit) => if limit < new.len() {
                new.take(limit as int)
            } else {
                new
            },
            None => new,
        });
    } else if let Some(limit) = rules.limit {
        assert(atoms.take(0) =~= Seq::empty());
    }
}

/// A query returns the resources that may be shown, in the order of the index, and no more of them
/// than its limit: the first ones.
pub proof fn queries_return_what_may_be_shown(rules: ScanRules, atoms: Seq<(Seq<char>, bool)>)
    ensures
        rules.limit is None ==> rules.walk(atoms, atoms.len()).subjects == shown(rules, atoms),
        rules.limit matches Some(limit) ==> rules.walk(atoms, atoms.len()).subjects.is_prefix_of(
            shown(rules, atoms),
        ) && rules.walk(atoms, atoms.len()).subjects.len() == (if limit < shown(
            rules,
            atoms,
        ).len() {
            limit as nat
        } else {
            shown(rules, atoms).len()
        }),
{
    lemma_walk_shows(rules, atoms, atoms.len());
    assert(atoms.take(atoms.len() as int) =~= atoms);
    if let Some(limit) = rules.limit {
        if limit < shown(rules, atoms).len() {
            assert(rules.walk(atoms, atoms.len()).subjects.is_prefix_of(shown(rules, atoms)));
        }
    }
}

/// Of an index whose atoms all count and can be fetched, a query leaves out as many as its offset
/// says, and returns those that follow, up to its limit.
pub proof fn queries_leave_out_their_offset(rules: ScanRules, atoms: Seq<(Seq<char>, bool)>, i: int)
    requires
        forall|k: int|
            0 <= k < atoms.len() ==> (#[trigger] atoms[k]).1 && (rules.include_external
                || rules.self_url@.is_prefix_of(atoms[k].0)),
        0 <= i,
    ensures
        i < rules.walk(atoms, atoms.len()).subjects.len() <==> rules.offset + i < atoms.len() && (
        rules.limit matches Some(limit) ==> i < limit),
        i < rules.walk(atoms, atoms.len()).subjects.len() ==> rules.walk(
            atoms,
            atoms.len(),
        ).subjects[i] == atoms[rules.offset + i].0,
{
    queries_return_what_may_be_shown(rules, atoms);
    let pred = |a: (Seq<char>, bool)|
        (rules.include_external || rules.self_url@.is_prefix_of(a.0)) && (rules.fetch ==> a.1);
    if rules.offset < atoms.len() {
        let rest = atoms.skip(rules.offset as int);
        assert forall|k: int| 0 <= k < rest.len() implies pred(#[trigger] rest[k]) by {
            assert(rest[k] == atoms[rules.offset + k]);
        }
        crate::assoc::lemma_filter_all(rest, pred);
        assert(shown(rules, atoms) =~= rest.map_values(|a: (Seq<char>, bool)| a.0));
    }
    let result = rules.walk(atoms, atoms.len()).subjects;
    if i < result.len() {
        assert(result[i] == shown(rules, atoms)[i]);
    }
}

/// Two pages of one length, the second of which starts where the first ends, are together a page
/// of twice that length.
pub proof fn pages_follow_each_other(
    first: ScanRules,
    second: ScanRules,
    both: ScanRules,
    atoms: Seq<(Seq<char>, bool)>,
    size: usize,
)
    requires
        forall|k: int|
            0 <= k < atoms.len() ==> (#[trigger] atoms[k]).1 && (first.include_external
                || first.self_url@.is_prefix_of(atoms[k].0)),
        first.limit == Some(size),
        second == (ScanRules { offset: second.offset, ..first }),
        second.offset == first.offset + size,
        both == (ScanRules { limit: both.limit, ..first }),
        both.limit is Some && both.limit->0 == size + size,
    ensures
        both.walk(atoms, atoms.len()).subjects == first.walk(atoms, atoms.len()).subjects
            + second.walk(atoms, atoms.len()).subjects,
{
    let n = atoms.len();
    let a = first.walk(atoms, n).subjects;
    let b = second.walk(atoms, n).subjects;
    let c = both.walk(atoms, n).subjects;
    queries_leave_out_their_offset(first, atoms, a.len() as int);
    queries_leave_out_their_offset(second, atoms, b.len() as int);
    queries_leave_out_their_offset(both, atoms, c.len() as int);
    if a.len() > 0 {
        queries_leave_out_their_offset(first, atoms, a.len() - 1);
    }
    if b.len() > 0 {
        queries_leave_out_their_offset(second, atoms, b.len() - 1);
        queries_leave_out_their_offset(first, atoms, size as int - 1);
    }
    if c.len() > 0 {
        queries_leave_out_their_offset(both, atoms, c.len() - 1);
    }
    assert(c.len() == a.len() + b.len());
    assert forall|i: int| 0 <= i < c.len() implies c[i] == (a + b)[i] by {
        queries_leave_out_their_offset(both, atoms, i);
        if i < a.len() {
            queries_leave_out_their_offset(first, atoms, i);
        } else {
            queries_leave_out_their_offset(second, atoms, i - a.len());
        }
    }
    assert(c =~= a + b);
}

/// The count of a query is the number of atoms that are of this server, where only those count,
/// whatever the offset and the limit are.
pub proof fn queries_count_everything(rules: ScanRules, atoms: Seq<(Seq<char>, bool)>, n: nat)
    requires
        n <= atoms.len(),
    ensures
        rules.walk(atoms, n).count == atoms.take(n as int).filter(
            |a: (Seq<char>, bool)| rules.include_external || rules.self_url@.is_prefix_of(a.0),
        ).len(),
    decreases n,
{
    broadcast use Seq::lemma_filter_push;

    let pred = |a: (Seq<char>, bool)|
        rules.include_external || rules.self_url@.is_prefix_of(a.0);
    if n > 0 {
        queries_count_everything(rules, atoms, (n - 1) as nat);
        assert(atoms.take(n as int) =~= atoms.take(n - 1).push(atoms[n - 1]));
    } else {
        reveal(Seq::filter);
        assert(atoms.take(0) =~= Seq::empty());
    }
}

/// What is to be done next to answer a query from an index of its own.
#[derive(Clone, Copy, Debug, PartialEq, Eq, Structural)]
pub enum ComplexStep {
    /// Ask the index.
    Ask,
    /// See whether the index is being kept.
    CheckWatched,
    /// Keep it from now on.
    Watch,
    /// Collect the changes that fill it.
    BuildIndex,
    /// Write them.
    Apply,
    /// Ask the index again.
    AskAgain,
    /// Nothing: what the index answered last is the result.
    Done,
    /// Nothing: the last action failed.
    Failed,
}

/// How an action turned out.
#[derive(Clone, Copy, Debug, PartialEq, Eq, Structural)]
pub enum ComplexEvent {
    /// How many resources the index has.
    Counted(usize),
    /// Whether the index is being kept.
    Watched(bool),
    /// Whether any other action worked.
    Worked(bool),
}

/// What is to be done after an action. An event that does not belong to the action changes nothing.
pub open spec fn complex_next(step: ComplexStep, event: ComplexEvent) -> ComplexStep {
    match (step, event) {
        (ComplexStep::Ask, ComplexEvent::Counted(n)) => if n == 0 {
            ComplexStep::CheckWatched
        } else {
            ComplexStep::Done
        },
        (ComplexStep::CheckWatched, ComplexEvent::Watched(watched)) => if watched {
            ComplexStep::Done
        } else {
            ComplexStep::Watch
        },
        (ComplexStep::Watch, ComplexEvent::Worked(true)) => ComplexStep::BuildIndex,
        (ComplexStep::BuildIndex, ComplexEvent::Worked(true)) => ComplexStep::Apply,
        (ComplexStep::Apply, ComplexEvent::Worked(true)) => ComplexStep::AskAgain,
        (ComplexStep::AskAgain, ComplexEvent::Counted(_)) => ComplexStep::Done,
        (ComplexStep::Done, _) => step,
        (_, ComplexEvent::Worked(false)) => ComplexStep::Failed,
        _ => step,
    }
}

/// What is to be done after an action to answer a query from an index of its own.
pub fn query_complex(step: ComplexStep, event: ComplexEvent) -> (r: ComplexStep)
    ensures
        r == complex_next(step, event),
{
    match (step, event) {
        (ComplexStep::Ask, ComplexEvent::Counted(n)) => if n == 0 {
            ComplexStep::CheckWatched
        } else {
            ComplexStep::Done
        },
        (ComplexStep::CheckWatched, ComplexEvent::Watched(watched)) => if watched {
            ComplexStep::Done
        } else {
            ComplexStep::Watch
        },
        (ComplexStep::Watch, ComplexEvent::Worked(true)) => ComplexStep::BuildIndex,
        (ComplexStep::BuildIndex, ComplexEvent::Worked(true)) => ComplexStep::Apply,
        (ComplexStep::Apply, ComplexEvent::Worked(true)) => ComplexStep::AskAgain,
        (ComplexStep::AskAgain, ComplexEvent::Counted(_)) => ComplexStep::Done,
        (ComplexStep::Done, _) => step,
        (_, ComplexEvent::Worked(false)) => ComplexStep::Failed,
        _ => step,
    }
}

/// What is to be done after a number of actions.
pub open spec fn complex_after(events: Seq<ComplexEvent>) -> ComplexStep
    decreases events.len(),
{
    if events.len() == 0 {
        ComplexStep::Ask
    } else {
        complex_next(complex_after(events.drop_last()), events.last())
    }
}

/// Answering a query from an index of its own ends: at once where the index has resources, or where
/// it is being kept; and otherwise after the index has been kept, built, written and asked again.
pub proof fn kept_queries_are_answered(n: usize, m: usize, watched: bool)
    ensures
        ({
            let events = seq![
                ComplexEvent::Counted(n),
                ComplexEvent::Watched(watched),
                ComplexEvent::Worked(true),
                ComplexEvent::Worked(true),
                ComplexEvent::Worked(true),
                ComplexEvent::Counted(m),
            ];
            &&& complex_after(events) is Done
            &&& complex_after(events.take(1)) is Done <==> n > 0
            &&& complex_after(events.take(2)) is Done <==> n > 0 || watched
            &&& n == 0 && !watched ==> complex_after(events.take(2)) is Watch && complex_after(
                events.take(3),
            ) is BuildIndex && complex_after(events.take(4)) is Apply && complex_after(
                events.take(5),
            ) is AskAgain
        }),
{
    let events = seq![
        ComplexEvent::Counted(n),
        ComplexEvent::Watched(watched),
        ComplexEvent::Worked(true),
        ComplexEvent::Worked(true),
        ComplexEvent::Worked(true),
        ComplexEvent::Counted(m),
    ];
    reveal_with_fuel(complex_after, 7);
    assert(events.take(6) =~= events);
    assert(events.take(6).drop_last() =~= events.take(5));
    assert(events.take(5).drop_last() =~= events.take(4));
    assert(events.take(4).drop_last() =~= events.take(3));
    assert(events.take(3).drop_last() =~= events.take(2));
    assert(events.take(2).drop_last() =~= events.take(1));
    assert(events.take(1).drop_last() =~= Seq::empty());
}

/// Where an action fails, the query fails, unless it has been answered; and it stays so.
pub proof fn failed_queries_stay_failed(events: Seq<ComplexEvent>, event: ComplexEvent)
    ensures
        complex_after(events) is Failed ==> complex_after(events.push(event)) is Failed,
        complex_after(events) is Done ==> complex_after(events.push(event)) is Done,
        !(complex_after(events) is Done) ==> complex_after(
            events.push(ComplexEvent::Worked(false)),
        ) is Failed,
        complex_after(events.push(event)) is Failed ==> complex_after(events) is Failed || event
            == ComplexEvent::Worked(false),
{
    assert(events.push(event).drop_last() =~= events);
    assert(events.push(ComplexEvent::Worked(false)).drop_last() =~= events);
}

/// An index is built only where it is empty and has not been kept.
pub proof fn indexes_are_built_once(events: Seq<ComplexEvent>)
    requires
        complex_after(events) is Watch || complex_after(events) is BuildIndex || complex_after(
            events,
        ) is Apply || complex_after(events) is AskAgain,
    ensures
        events.contains(ComplexEvent::Counted(0)),
        events.contains(ComplexEvent::Watched(false)),
    decreases events.len(),
{
    let before = events.drop_last();
    let last = events.last();
    assert(events[events.len() - 1] == last);
    if complex_after(before) is CheckWatched {
        lemma_empty_first(before);
        assert(events[before.index_of(ComplexEvent::Counted(0))] == ComplexEvent::Counted(0));
    } else {
        indexes_are_built_once(before);
        assert(events[before.index_of(ComplexEvent::Counted(0))] == ComplexEvent::Counted(0));
        assert(events[before.index_of(ComplexEvent::Watched(false))] == ComplexEvent::Watched(
            false,
        ));
    }
}

proof fn lemma_empty_first(events: Seq<ComplexEvent>)
    requires
        complex_after(events) is CheckWatched,
    ensures
        events.contains(ComplexEvent::Counted(0)),
    decreases events.len(),
{
    let before = events.drop_last();
    assert(events[events.len() - 1] == events.last());
    if complex_after(before) is CheckWatched {
        lemma_empty_first(before);
        assert(events[before.index_of(ComplexEvent::Counted(0))] == ComplexEvent::Counted(0));
    }
}

} // verus!
