//! Loading class extenders that are compiled to Wasm, with a cache of what has been compiled.
use crate::agents::ForAgent;
use crate::errors::{AtomicError, AtomicResult};
use crate::parse::{ParseOpts, SaveOpts, Schema, Stop, StopView, parse_json_ad_resource};
use crate::text::{cat2, position, same, to_chars};
use crate::plugin::{CommitContext, GetContext, ResourceJson};
use crate::values::{Resource, ResourceResponse, ResourceView, ResponseView};
use vstd::prelude::*;

verus! {

/// The directory with the plugins, in the directory for all plugins of the server.
pub const CLASS_EXTENDER_DIR_NAME: &'static str = "class-extenders";

/// The directory with the plugins, from the directory of the store.
pub const WASM_EXTENDER_DIR: &'static str = "../plugins/class-extenders";

/// The digit for a number below 16.
pub open spec fn hex_digit(n: int) -> char {
    if n < 10 {
        ('0' as int + n) as char
    } else {
        ('a' as int + n - 10) as char
    }
}

/// Bytes written with two digits each.
pub open spec fn hex(bytes: Seq<u8>) -> Seq<char>
    decreases bytes.len(),
{
    if bytes.len() == 0 {
        Seq::empty()
    } else {
        hex(bytes.drop_last()) + seq![
            hex_digit(bytes.last() as int / 16),
            hex_digit(bytes.last() as int % 16),
        ]
    }
}

/// The digit for a number below 16.
fn to_digit(n: u8) -> (r: char)
    requires
        n < 16,
    ensures
        r == hex_digit(n as int),
{
    if n < 10 {
        (48u8 + n) as char
    } else {
        (97u8 + (n - 10)) as char
    }
}

/// Writes bytes with two digits each.
pub fn hex_encode(bytes: &[u8]) -> (r: String)
    ensures
        r@ == hex(bytes@),
        r@.len() == 2 * bytes@.len(),
{
    let mut r = String::new();
    let mut i: usize = 0;
    assert(r@ =~= Seq::<char>::empty());
    while i < bytes.len()
        invariant
            i <= bytes@.len(),
            r@ == hex(bytes@.take(i as int)),
            r@.len() == 2 * i,
        decreases bytes@.len() - i,
    {
        let ghost before = r@;
        let b = bytes[i];
        r.push(to_digit(b / 16));
        r.push(to_digit(b % 16));
        assert(bytes@.take(i + 1).drop_last() =~= bytes@.take(i as int));
        assert(r@ =~= before + seq![hex_digit(b as int / 16), hex_digit(b as int % 16)]);
        i += 1;
    }
    assert(bytes@.take(bytes@.len() as int) =~= bytes@);
    r
}

proof fn lemma_digit(a: int, b: int)
    requires
        0 <= a < 16,
        0 <= b < 16,
        hex_digit(a) == hex_digit(b),
    ensures
        a == b,
{
}

/// Different bytes are written differently.
pub proof fn hex_is_injective(a: Seq<u8>, b: Seq<u8>)
    requires
        hex(a) == hex(b),
    ensures
        a == b,
    decreases a.len(),
{
    if a.len() == 0 {
        if b.len() > 0 {
            assert(hex(b).len() >= 2);
        }
        assert(a =~= b);
    } else {
        if b.len() == 0 {
            assert(hex(a).len() >= 2);
        }
        let n = hex(a).len() as int;
        let fa = hex(a.drop_last());
        let fb = hex(b.drop_last());
        assert(hex(a)[n - 1] == hex_digit(a.last() as int % 16));
        assert(hex(a)[n - 2] == hex_digit(a.last() as int / 16));
        assert(hex(b)[n - 1] == hex_digit(b.last() as int % 16));
        assert(hex(b)[n - 2] == hex_digit(b.last() as int / 16));
        lemma_digit(a.last() as int % 16, b.last() as int % 16);
        lemma_digit(a.last() as int / 16, b.last() as int / 16);
        assert(fa =~= hex(a).take(n - 2));
        assert(fb =~= hex(b).take(n - 2));
        hex_is_injective(a.drop_last(), b.drop_last());
        assert(a =~= a.drop_last().push(a.last()));
        assert(b =~= b.drop_last().push(b.last()));
    }
}

/// The SHA-256 digest of some bytes.
pub uninterp spec fn sha256(bytes: Seq<u8>) -> Seq<u8>;

/// `ring::digest::digest` with `ring::digest::SHA256`: 32 bytes that depend on the data alone.
#[verifier::external_body]
fn digest(bytes: &Vec<u8>) -> (r: Vec<u8>)
    requires
        bytes@.len() < 0x2000_0000_0000_0000,
    ensures
        r@ == sha256(bytes@),
        r@.len() == 32,
{
    ring::digest::digest(&ring::digest::SHA256, bytes).as_ref().to_vec()
}

/// The name under which a compiled plugin is cached. It depends on the content of the plugin alone.
pub fn cwasm_name(wasm_bytes: &Vec<u8>) -> (r: String)
    requires
        wasm_bytes@.len() < 0x2000_0000_0000_0000,
    ensures
        r@ == hex(sha256(wasm_bytes@)) + ".cwasm"@,
{
    let hash = digest(wasm_bytes);
    let hash_hex = hex_encode(hash.as_slice());
    cat2(hash_hex.as_str(), ".cwasm")
}

/// Whether the name of a file has this extension: the part after its last dot, where something
/// stands before that dot.
pub open spec fn extension_is(name: Seq<char>, extension: Seq<char>) -> bool {
    exists|i: int|
        0 < i < name.len() && #[trigger] name[i] == '.' && !name.skip(i + 1).contains('.')
            && name.skip(i + 1) == extension
}

/// Whether the name of a file has this extension.
pub fn has_extension(name: &str, extension: &str) -> (r: bool)
    ensures
        r == extension_is(name@, extension@),
{
    let chars = to_chars(name);
    let mut i: usize = chars.len();
    while i > 0
        invariant
            i <= chars@.len(),
            chars@ == name@,
            forall|j: int| i <= j < chars@.len() ==> chars@[j] != '.',
        decreases i,
    {
        i -= 1;
        if chars[i] == '.' {
            let rest = crate::text::from_chars(&chars, i + 1, chars.len());
            assert(rest@ =~= name@.skip(i + 1));
            proof {
                let after = name@.skip(i + 1);
                assert(!after.contains('.')) by {
                    assert forall|k: int| 0 <= k < after.len() implies #[trigger] after[k]
                        != '.' by {
                        assert(after[k] == chars@[i + 1 + k]);
                    }
                }
                if extension_is(name@, extension@) {
                    let k = choose|k: int|
                        0 < k < name@.len() && #[trigger] name@[k] == '.' && !name@.skip(
                            k + 1,
                        ).contains('.') && name@.skip(k + 1) == extension@;
                    if k < i {
                        assert(name@.skip(k + 1)[i - k - 1] == '.');
                    }
                    assert(k == i);
                }
            }
            return i > 0 && same(rest.as_str(), extension);
        }
    }
    false
}

/// An entry of the directory with the plugins. A directory has entries of its own.
pub struct DirEntry {
    pub name: String,
    pub children: Option<Vec<String>>,
}

/// What a [DirEntry] says.
pub struct DirEntryView {
    pub name: Seq<char>,
    pub children: Option<Seq<Seq<char>>>,
}

impl View for DirEntry {
    type V = DirEntryView;

    open spec fn view(&self) -> DirEntryView {
        DirEntryView {
            name: self.name@,
            children: match self.children {
                Some(children) => Some(crate::text::list(children@)),
                None => None,
            },
        }
    }
}

/// The place of a plugin: of the entry, and of the entry in it.
#[derive(Clone, Copy, Debug, PartialEq, Eq, Structural)]
pub struct Place {
    pub entry: usize,
    pub child: Option<usize>,
}

/// The first `n` of some names that have the extension of a plugin, as entries of `entry`.
pub open spec fn wasm_children(entry: usize, names: Seq<Seq<char>>, n: nat) -> Seq<Place>
    decreases n,
{
    if n == 0 || n > names.len() {
        Seq::empty()
    } else {
        let before = wasm_children(entry, names, (n - 1) as nat);
        if extension_is(names[n - 1], "wasm"@) {
            before.push(Place { entry, child: Some((n - 1) as usize) })
        } else {
            before
        }
    }
}

/// The plugins among the first `n` entries of a directory: files in it, and in the directories in
/// it, but no deeper.
pub open spec fn wasm_places(entries: Seq<DirEntryView>, n: nat) -> Seq<Place>
    decreases n,
{
    if n == 0 || n > entries.len() {
        Seq::empty()
    } else {
        let before = wasm_places(entries, (n - 1) as nat);
        match entries[n - 1].children {
            Some(children) => before + wasm_children(
                (n - 1) as usize,
                children,
                children.len(),
            ),
            None => if extension_is(entries[n - 1].name, "wasm"@) {
                before.push(Place { entry: (n - 1) as usize, child: None })
            } else {
                before
            },
        }
    }
}

/// What the entries of a directory say.
pub open spec fn entries_view(entries: Seq<DirEntry>) -> Seq<DirEntryView> {
    entries.map_values(|e: DirEntry| e@)
}

/// The plugins in a directory.
pub fn find_wasm_files(entries: &Vec<DirEntry>) -> (r: Vec<Place>)
    ensures
        r@ == wasm_places(entries_view(entries@), entries@.len()),
{
    let ghost all = entries_view(entries@);
    let mut files: Vec<Place> = Vec::new();
    let mut i: usize = 0;
    while i < entries.len()
        invariant
            i <= entries@.len(),
            all == entries_view(entries@),
            files@ == wasm_places(all, i as nat),
        decreases entries@.len() - i,
    {
        assert(all[i as int] == entries@[i as int]@);
        match &entries[i].children {
            Some(children) => {
                let ghost before = files@;
                let ghost names = crate::text::list(children@);
                let mut k: usize = 0;
                assert(before + wasm_children(i, names, 0) =~= before);
                while k < children.len()
                    invariant
                        k <= children@.len(),
                        names == crate::text::list(children@),
                        files@ == before + wasm_children(i, names, k as nat),
                    decreases children@.len() - k,
                {
                    assert(names[k as int] == children@[k as int]@);
                    if has_extension(children[k].as_str(), "wasm") {
                        files.push(Place { entry: i, child: Some(k) });
                        assert(files@ =~= before + wasm_children(i, names, (k + 1) as nat));
                    }
                    k += 1;
                }
            },
            None => {
                if has_extension(entries[i].name.as_str(), "wasm") {
                    files.push(Place { entry: i, child: None });
                }
            },
        }
        i += 1;
    }
    files
}

/// The plugins among the first `n` entries of a directory, in the directory itself only.
pub open spec fn flat_wasm_places(entries: Seq<DirEntryView>, n: nat) -> Seq<Place>
    decreases n,
{
    if n == 0 || n > entries.len() {
        Seq::empty()
    } else {
        let before = flat_wasm_places(entries, (n - 1) as nat);
        if extension_is(entries[n - 1].name, "wasm"@) {
            before.push(Place { entry: (n - 1) as usize, child: None })
        } else {
            before
        }
    }
}

/// The plugins in a directory, without those in the directories in it.
pub fn find_flat_wasm_files(entries: &Vec<DirEntry>) -> (r: Vec<Place>)
    ensures
        r@ == flat_wasm_places(entries_view(entries@), entries@.len()),
{
    let ghost all = entries_view(entries@);
    let mut files: Vec<Place> = Vec::new();
    let mut i: usize = 0;
    while i < entries.len()
        invariant
            i <= entries@.len(),
            all == entries_view(entries@),
            files@ == flat_wasm_places(all, i as nat),
        decreases entries@.len() - i,
    {
        assert(all[i as int] == entries@[i as int]@);
        if has_extension(entries[i].name.as_str(), "wasm") {
            files.push(Place { entry: i, child: None });
        }
        i += 1;
    }
    files
}

/// The files of the cache that no plugin uses any more.
pub open spec fn unused(cached: Seq<Seq<char>>, used: Seq<Seq<char>>) -> Seq<Seq<char>> {
    cached.filter(|name: Seq<char>| extension_is(name, "cwasm"@) && !used.contains(name))
}

/// The files to delete from the cache: those that no plugin uses any more.
pub fn cleanup_cache(cached: &Vec<String>, used_files: &Vec<String>) -> (r: Vec<String>)
    ensures
        crate::text::list(r@) == unused(
            crate::text::list(cached@),
            crate::text::list(used_files@),
        ),
{
    let ghost all = crate::text::list(cached@);
    let ghost used = crate::text::list(used_files@);
    let ghost wanted = |name: Seq<char>| extension_is(name, "cwasm"@) && !used.contains(name);
    let mut r: Vec<String> = Vec::new();
    let mut i: usize = 0;
    proof {
        reveal(Seq::filter);
        assert(all.take(0).filter(wanted) =~= crate::text::list(r@));
    }
    while i < cached.len()
        invariant
            i <= cached@.len(),
            all == crate::text::list(cached@),
            used == crate::text::list(used_files@),
            wanted == (|name: Seq<char>| extension_is(name, "cwasm"@) && !used.contains(name)),
            crate::text::list(r@) == all.take(i as int).filter(wanted),
        decreases cached@.len() - i,
    {
        broadcast use Seq::lemma_filter_push;

        let name = cached[i].as_str();
        let ghost before = crate::text::list(r@);
        assert(all[i as int] == name@);
        assert(all.take(i + 1) =~= all.take(i as int).push(all[i as int]));
        let unused_file = match position(used_files, name) {
            None => true,
            Some(k) => {
                assert(used[k as int] == name@);
                false
            },
        };
        if has_extension(name, "cwasm") && unused_file {
            r.push(name.to_owned());
            assert(crate::text::list(r@) =~= before.push(name@));
        }
        i += 1;
    }
    assert(all.take(cached@.len() as int) =~= all);
    r
}

/// Cleaning up deletes no file that a plugin uses, and leaves no compiled plugin that none uses.
pub proof fn cleanup_keeps_what_is_used(
    cached: Seq<Seq<char>>,
    used: Seq<Seq<char>>,
    name: Seq<char>,
)
    ensures
        used.contains(name) ==> !unused(cached, used).contains(name),
        unused(cached, used).contains(name) ==> cached.contains(name),
        cached.contains(name) && extension_is(name, "cwasm"@) && !used.contains(name) ==> unused(
            cached,
            used,
        ).contains(name),
{
    broadcast use vstd::seq_lib::group_filter_ensures;

    let wanted = |name: Seq<char>| extension_is(name, "cwasm"@) && !used.contains(name);
    let kept = cached.filter(wanted);
    if kept.contains(name) {
        let k = kept.index_of(name);
        assert(wanted(kept[k]));
        cached.lemma_filter_contains_rev(wanted, name);
    }
    if cached.contains(name) && wanted(name) {
        let k = cached.index_of(name);
        assert(kept.contains(cached[k]));
    }
}

/// What is to be done next to load the plugins.
#[derive(Clone, Copy, Debug, PartialEq, Eq, Structural)]
pub enum LoadStep {
    /// See whether there is a directory with plugins.
    CheckPlugins,
    /// Make one.
    CreatePlugins,
    /// See whether there is a cache.
    CheckCache,
    /// Make one.
    CreateCache,
    /// Start the engine that runs plugins.
    BuildEngine,
    /// List the plugins.
    FindFiles,
    /// Read the plugin with this place in the list.
    ReadFile(usize),
    /// Load it.
    LoadFile(usize),
    /// Delete what is not used from the cache.
    Cleanup,
    /// Nothing.
    Finished,
}

/// How an action turned out.
#[derive(Clone, Copy, Debug, PartialEq, Eq, Structural)]
pub enum LoadEvent {
    /// Whether the directory is there.
    Exists(bool),
    /// Whether the action worked.
    Tried(bool),
    /// The number of plugins in the list.
    Files(usize),
}

/// The loading of the plugins.
pub struct LoadRun {
    /// Whether compiled plugins are cached.
    pub cached: bool,
    pub step: LoadStep,
    /// The number of plugins in the list.
    pub files: usize,
    /// The plugins that have been read.
    pub used: Vec<usize>,
    /// The plugins that have been loaded.
    pub loaded: Vec<usize>,
}

/// What a [LoadRun] says.
pub struct LoadView {
    pub cached: bool,
    pub step: LoadStep,
    pub files: nat,
    pub used: Seq<usize>,
    pub loaded: Seq<usize>,
}

impl View for LoadRun {
    type V = LoadView;

    open spec fn view(&self) -> LoadView {
        LoadView {
            cached: self.cached,
            step: self.step,
            files: self.files as nat,
            used: self.used@,
            loaded: self.loaded@,
        }
    }
}

/// What is to be done first.
pub open spec fn load_start(cached: bool) -> LoadView {
    LoadView {
        cached,
        step: LoadStep::CheckPlugins,
        files: 0,
        used: Seq::empty(),
        loaded: Seq::empty(),
    }
}

/// What is to be done from the plugin with place `i` on.
pub open spec fn file_step(cached: bool, files: nat, i: int) -> LoadStep {
    if i < files {
        if cached {
            LoadStep::ReadFile(i as usize)
        } else {
            LoadStep::LoadFile(i as usize)
        }
    } else if cached {
        LoadStep::Cleanup
    } else {
        LoadStep::Finished
    }
}

/// What is to be done after an action. A directory that cannot be listed is taken for an empty one.
/// An event that does not belong to the action changes nothing.
pub open spec fn load_next(run: LoadView, event: LoadEvent) -> LoadView {
    match (run.step, event) {
        (LoadStep::CheckPlugins, LoadEvent::Exists(true)) => LoadView {
            step: if run.cached {
                LoadStep::CheckCache
            } else {
                LoadStep::BuildEngine
            },
            ..run
        },
        (LoadStep::CheckPlugins, LoadEvent::Exists(false)) => LoadView {
            step: LoadStep::CreatePlugins,
            ..run
        },
        (LoadStep::CreatePlugins, LoadEvent::Tried(_)) => LoadView {
            step: LoadStep::Finished,
            ..run
        },
        (LoadStep::CheckCache, LoadEvent::Exists(true)) => LoadView {
            step: LoadStep::BuildEngine,
            ..run
        },
        (LoadStep::CheckCache, LoadEvent::Exists(false)) => LoadView {
            step: LoadStep::CreateCache,
            ..run
        },
        (LoadStep::CreateCache, LoadEvent::Tried(_)) => LoadView {
            step: LoadStep::BuildEngine,
            ..run
        },
        (LoadStep::BuildEngine, LoadEvent::Tried(true)) => LoadView {
            step: LoadStep::FindFiles,
            ..run
        },
        (LoadStep::BuildEngine, LoadEvent::Tried(false)) => LoadView {
            step: LoadStep::Finished,
            ..run
        },
        (LoadStep::FindFiles, LoadEvent::Tried(false)) => LoadView {
            step: file_step(run.cached, 0, 0),
            files: 0,
            ..run
        },
        (LoadStep::FindFiles, LoadEvent::Files(files)) => LoadView {
            step: file_step(run.cached, files as nat, 0),
            files: files as nat,
            ..run
        },
        (LoadStep::ReadFile(i), LoadEvent::Tried(true)) => LoadView {
            step: LoadStep::LoadFile(i),
            used: run.used.push(i),
            ..run
        },
        (LoadStep::ReadFile(i), LoadEvent::Tried(false)) => LoadView {
            step: file_step(run.cached, run.files, i + 1),
            ..run
        },
        (LoadStep::LoadFile(i), LoadEvent::Tried(worked)) => LoadView {
            step: file_step(run.cached, run.files, i + 1),
            loaded: if worked {
                run.loaded.push(i)
            } else {
                run.loaded
            },
            ..run
        },
        (LoadStep::Cleanup, LoadEvent::Tried(_)) => LoadView { step: LoadStep::Finished, ..run },
        _ => run,
    }
}

/// The plugins that a loading looks at. With a cache, those in the directories in the directory
/// count too.
pub open spec fn listed(cached: bool, entries: Seq<DirEntryView>) -> Seq<Place> {
    if cached {
        wasm_places(entries, entries.len())
    } else {
        flat_wasm_places(entries, entries.len())
    }
}

impl LoadRun {
    /// The plugins that are looked at.
    pub fn list_files(&self, entries: &Vec<DirEntry>) -> (r: Vec<Place>)
        ensures
            r@ == listed(self@.cached, entries_view(entries@)),
    {
        if self.cached {
            find_wasm_files(entries)
        } else {
            find_flat_wasm_files(entries)
        }
    }

    /// Starts the loading of the plugins.
    pub fn start(cached: bool) -> (r: LoadRun)
        ensures
            r@ == load_start(cached),
            r.wf(),
    {
        LoadRun {
            cached,
            step: LoadStep::CheckPlugins,
            files: 0,
            used: Vec::new(),
            loaded: Vec::new(),
        }
    }

    /// The plugin that is being read or loaded is in the list.
    pub open spec fn wf(&self) -> bool {
        &&& self.step matches LoadStep::ReadFile(i) ==> i < self.files
        &&& self.step matches LoadStep::LoadFile(i) ==> i < self.files
    }

    /// What is to be done from the plugin with place `i` on.
    fn go_to_file(&mut self, i: usize)
        ensures
            final(self)@ == (LoadView {
                step: file_step(old(self)@.cached, old(self)@.files, i as int),
                ..old(self)@
            }),
            final(self).wf(),
    {
        self.step = if i < self.files {
            if self.cached {
                LoadStep::ReadFile(i)
            } else {
                LoadStep::LoadFile(i)
            }
        } else if self.cached {
            LoadStep::Cleanup
        } else {
            LoadStep::Finished
        };
    }

    /// Takes in how an action turned out. One plugin that does not work does not stop the others.
    pub fn load_wasm_class_extenders(&mut self, event: LoadEvent)
        requires
            old(self).wf(),
        ensures
            final(self)@ == load_next(old(self)@, event),
            final(self).wf(),
    {
        match (self.step, event) {
            (LoadStep::CheckPlugins, LoadEvent::Exists(true)) => {
                self.step = if self.cached {
                    LoadStep::CheckCache
                } else {
                    LoadStep::BuildEngine
                };
            },
            (LoadStep::CheckPlugins, LoadEvent::Exists(false)) => {
                self.step = LoadStep::CreatePlugins;
            },
            (LoadStep::CreatePlugins, LoadEvent::Tried(_)) => {
                self.step = LoadStep::Finished;
            },
            (LoadStep::CheckCache, LoadEvent::Exists(true)) => {
                self.step = LoadStep::BuildEngine;
            },
            (LoadStep::CheckCache, LoadEvent::Exists(false)) => {
                self.step = LoadStep::CreateCache;
            },
            (LoadStep::CreateCache, LoadEvent::Tried(_)) => {
                self.step = LoadStep::BuildEngine;
            },
            (LoadStep::BuildEngine, LoadEvent::Tried(true)) => {
                self.step = LoadStep::FindFiles;
            },
            (LoadStep::BuildEngine, LoadEvent::Tried(false)) => {
                self.step = LoadStep::Finished;
            },
            (LoadStep::FindFiles, LoadEvent::Tried(false)) => {
                self.files = 0;
                self.go_to_file(0);
            },
            (LoadStep::FindFiles, LoadEvent::Files(files)) => {
                self.files = files;
                self.go_to_file(0);
            },
            (LoadStep::ReadFile(i), LoadEvent::Tried(true)) => {
                self.used.push(i);
                self.step = LoadStep::LoadFile(i);
            },
            (LoadStep::ReadFile(i), LoadEvent::Tried(false)) => {
                self.go_to_file(i + 1);
            },
            (LoadStep::LoadFile(i), LoadEvent::Tried(worked)) => {
                if worked {
                    self.loaded.push(i);
                }
                self.go_to_file(i + 1);
            },
            (LoadStep::Cleanup, LoadEvent::Tried(_)) => {
                self.step = LoadStep::Finished;
            },
            _ => {},
        }
    }
}

/// What became of a plugin.
#[derive(Clone, Copy, Debug, PartialEq, Eq, Structural)]
pub enum FileOutcome {
    Unreadable,
    Broken,
    Loaded,
}

/// What the loading comes to after a number of actions.
pub open spec fn load_after(run: LoadView, events: Seq<LoadEvent>) -> LoadView
    decreases events.len(),
{
    if events.len() == 0 {
        run
    } else {
        load_next(load_after(run, events.drop_last()), events.last())
    }
}

/// How the actions on the first `n` plugins turn out.
pub open spec fn file_events(cached: bool, outcomes: Seq<FileOutcome>, n: nat) -> Seq<LoadEvent>
    decreases n,
{
    if n == 0 || n > outcomes.len() {
        Seq::empty()
    } else {
        let before = file_events(cached, outcomes, (n - 1) as nat);
        match outcomes[n - 1] {
            FileOutcome::Unreadable => before.push(LoadEvent::Tried(false)),
            FileOutcome::Broken => if cached {
                before.push(LoadEvent::Tried(true)).push(LoadEvent::Tried(false))
            } else {
                before.push(LoadEvent::Tried(false))
            },
            FileOutcome::Loaded => if cached {
                before.push(LoadEvent::Tried(true)).push(LoadEvent::Tried(true))
            } else {
                before.push(LoadEvent::Tried(true))
            },
        }
    }
}

/// The places of the first `n` plugins of which this became.
pub open spec fn with_outcome(
    outcomes: Seq<FileOutcome>,
    wanted: spec_fn(FileOutcome) -> bool,
    n: nat,
) -> Seq<usize>
    decreases n,
{
    if n == 0 || n > outcomes.len() {
        Seq::empty()
    } else {
        let before = with_outcome(outcomes, wanted, (n - 1) as nat);
        if wanted(outcomes[n - 1]) {
            before.push((n - 1) as usize)
        } else {
            before
        }
    }
}

/// A loading that is about to look at the first of `files` plugins.
pub open spec fn at_first_file(cached: bool, files: nat) -> LoadView {
    LoadView {
        cached,
        step: file_step(cached, files, 0),
        files,
        used: Seq::empty(),
        loaded: Seq::empty(),
    }
}

proof fn lemma_load_push(run: LoadView, events: Seq<LoadEvent>, event: LoadEvent)
    ensures
        load_after(run, events.push(event)) == load_next(load_after(run, events), event),
{
    assert(events.push(event).drop_last() =~= events);
}

/// Plugins that cannot be read or loaded do not stop the others: after the first `n` plugins,
/// those that work are loaded, and those that could be read are in use.
pub proof fn broken_plugins_do_not_stop_others(
    cached: bool,
    outcomes: Seq<FileOutcome>,
    n: nat,
)
    requires
        n <= outcomes.len() <= usize::MAX,
    ensures
        ({
            let run = load_after(
                at_first_file(cached, outcomes.len()),
                file_events(cached, outcomes, n),
            );
            &&& run.cached == cached
            &&& run.files == outcomes.len()
            &&& run.step == file_step(cached, outcomes.len(), n as int)
            &&& run.loaded == with_outcome(outcomes, |o: FileOutcome| o is Loaded, n)
            &&& cached ==> run.used == with_outcome(
                outcomes,
                |o: FileOutcome| !(o is Unreadable),
                n,
            )
        }),
    decreases n,
{
    let start = at_first_file(cached, outcomes.len());
    if n > 0 {
        broken_plugins_do_not_stop_others(cached, outcomes, (n - 1) as nat);
        let before = file_events(cached, outcomes, (n - 1) as nat);
        lemma_load_push(start, before, LoadEvent::Tried(true));
        lemma_load_push(start, before, LoadEvent::Tried(false));
        lemma_load_push(
            start,
            before.push(LoadEvent::Tried(true)),
            LoadEvent::Tried(true),
        );
        lemma_load_push(
            start,
            before.push(LoadEvent::Tried(true)),
            LoadEvent::Tried(false),
        );
        assert(((n - 1) as usize) as int == n - 1);
    }
}

/// For whom a plugin asks the server. One that names no agent asks for everybody.
pub fn host_agent(agent: Option<String>) -> (r: ForAgent)
    ensures
        r == (match agent {
            Some(subject) => ForAgent::AgentSubject(subject),
            None => ForAgent::Public,
        }),
{
    match agent {
        Some(subject) => ForAgent::AgentSubject(subject),
        None => ForAgent::Public,
    }
}

/// What is to be done next to get a plugin ready to run.
#[derive(Clone, Copy, Debug, PartialEq, Eq, Structural)]
pub enum ComponentStep {
    /// See whether it is in the cache.
    CheckCached,
    /// Read it from the cache.
    ReadCached,
    /// Open what was read from the cache.
    OpenCached,
    /// Compile it.
    Compile,
    /// Write what was compiled to the cache.
    WriteCached,
    /// Open what was compiled.
    OpenCompiled,
    /// Ask it which class it extends.
    AskClass,
    /// Nothing: it is ready.
    Ready,
    /// Nothing: compiling it failed.
    CompileFailed,
    /// Nothing: opening what was compiled failed.
    OpenFailed,
    /// Nothing: it did not say which class it extends.
    AskFailed,
}

/// What is to be done after an action to get a plugin ready to run. What is in the cache but
/// cannot be used is compiled again; a cache that cannot be written does no harm.
pub open spec fn component_next(step: ComponentStep, worked: bool) -> ComponentStep {
    match (step, worked) {
        (ComponentStep::CheckCached, true) => ComponentStep::ReadCached,
        (ComponentStep::CheckCached, false) => ComponentStep::Compile,
        (ComponentStep::ReadCached, true) => ComponentStep::OpenCached,
        (ComponentStep::ReadCached, false) => ComponentStep::Compile,
        (ComponentStep::OpenCached, true) => ComponentStep::AskClass,
        (ComponentStep::OpenCached, false) => ComponentStep::Compile,
        (ComponentStep::Compile, true) => ComponentStep::WriteCached,
        (ComponentStep::Compile, false) => ComponentStep::CompileFailed,
        (ComponentStep::WriteCached, _) => ComponentStep::OpenCompiled,
        (ComponentStep::OpenCompiled, true) => ComponentStep::AskClass,
        (ComponentStep::OpenCompiled, false) => ComponentStep::OpenFailed,
        (ComponentStep::AskClass, true) => ComponentStep::Ready,
        (ComponentStep::AskClass, false) => ComponentStep::AskFailed,
        _ => step,
    }
}

/// What is to be done after an action to get a plugin ready to run.
pub fn advance_component(step: ComponentStep, worked: bool) -> (r: ComponentStep)
    ensures
        r == component_next(step, worked),
{
    match (step, worked) {
        (ComponentStep::CheckCached, true) => ComponentStep::ReadCached,
        (ComponentStep::CheckCached, false) => ComponentStep::Compile,
        (ComponentStep::ReadCached, true) => ComponentStep::OpenCached,
        (ComponentStep::ReadCached, false) => ComponentStep::Compile,
        (ComponentStep::OpenCached, true) => ComponentStep::AskClass,
        (ComponentStep::OpenCached, false) => ComponentStep::Compile,
        (ComponentStep::Compile, true) => ComponentStep::WriteCached,
        (ComponentStep::Compile, false) => ComponentStep::CompileFailed,
        (ComponentStep::WriteCached, _) => ComponentStep::OpenCompiled,
        (ComponentStep::OpenCompiled, true) => ComponentStep::AskClass,
        (ComponentStep::OpenCompiled, false) => ComponentStep::OpenFailed,
        (ComponentStep::AskClass, true) => ComponentStep::Ready,
        (ComponentStep::AskClass, false) => ComponentStep::AskFailed,
        _ => step,
    }
}

/// What is to be done after a number of actions to get a plugin ready to run.
pub open spec fn component_after(events: Seq<bool>) -> ComponentStep
    decreases events.len(),
{
    if events.len() == 0 {
        ComponentStep::CheckCached
    } else {
        component_next(component_after(events.drop_last()), events.last())
    }
}

proof fn lemma_component_push(events: Seq<bool>, worked: bool)
    ensures
        component_after(events.push(worked)) == component_next(component_after(events), worked),
{
    assert(events.push(worked).drop_last() =~= events);
}

/// Whatever is wrong with the cache, a plugin that compiles gets ready: where it is not in the
/// cache, cannot be read from it or opened, and where it cannot be written to it.
pub proof fn bad_cache_does_no_harm(cache: Seq<bool>, written: bool)
    requires
        cache == seq![false] || cache == seq![true, false] || cache == seq![true, true, false],
    ensures
        component_after(cache) is Compile,
        component_after(cache + seq![true, written, true, true]) is Ready,
{
    reveal_with_fuel(component_after, 4);
    assert(seq![false].drop_last() =~= Seq::empty());
    assert(seq![true].drop_last() =~= Seq::empty());
    assert(seq![true, false].drop_last() =~= seq![true]);
    assert(seq![true, true].drop_last() =~= seq![true]);
    assert(seq![true, true, false].drop_last() =~= seq![true, true]);
    let a = cache.push(true);
    let b = a.push(written);
    let c = b.push(true);
    lemma_component_push(cache, true);
    lemma_component_push(a, written);
    lemma_component_push(b, true);
    lemma_component_push(c, true);
    assert(cache + seq![true, written, true, true] =~= c.push(true));
}

/// What is said where compiling a plugin failed.
pub fn explain_compile(cause: &str) -> (r: AtomicError)
    ensures
        r@ == crate::errors::other("Failed to precompile component: "@ + cause@),
{
    AtomicError::other_error(cat2("Failed to precompile component: ", cause))
}

/// What is said where opening a compiled plugin failed.
pub fn explain_open(cause: &str) -> (r: AtomicError)
    ensures
        r@ == crate::errors::other("Failed to deserialize compiled component: "@ + cause@),
{
    AtomicError::other_error(cat2("Failed to deserialize compiled component: ", cause))
}

/// What a resource is handed to a plugin as: its address and its text, where it can be written.
pub fn encode_resource(subject: &str, json_ad: AtomicResult<String>) -> (r: AtomicResult<
    ResourceJson,
>)
    ensures
        match json_ad {
            Ok(text) => r is Ok && r->Ok_0.subject@ == subject@ && r->Ok_0.json_ad == text,
            Err(e) => r == Err::<ResourceJson, AtomicError>(e),
        },
{
    match json_ad {
        Ok(text) => Ok(ResourceJson { subject: subject.to_owned(), json_ad: text }),
        Err(e) => Err(e),
    }
}

/// What a plugin is handed when a resource is fetched.
pub fn build_get_context(
    request_url: &str,
    subject: &str,
    agent_subject: &str,
    json_ad: AtomicResult<String>,
) -> (r: AtomicResult<GetContext>)
    ensures
        match json_ad {
            Ok(text) => r is Ok && r->Ok_0.request_url@ == request_url@
                && r->Ok_0.requested_subject@ == subject@ && r->Ok_0.agent_subject@
                == agent_subject@ && r->Ok_0.snapshot.subject@ == subject@
                && r->Ok_0.snapshot.json_ad == text,
            Err(e) => r == Err::<GetContext, AtomicError>(e),
        },
{
    match encode_resource(subject, json_ad) {
        Ok(snapshot) => Ok(
            GetContext {
                request_url: request_url.to_owned(),
                requested_subject: subject.to_owned(),
                agent_subject: agent_subject.to_owned(),
                snapshot,
            },
        ),
        Err(e) => Err(e),
    }
}

/// What a plugin is handed before and after a commit.
pub fn build_commit_context(
    subject: &str,
    commit_json: AtomicResult<String>,
    json_ad: AtomicResult<String>,
) -> (r: AtomicResult<CommitContext>)
    ensures
        match (commit_json, json_ad) {
            (Ok(commit), Ok(text)) => r is Ok && r->Ok_0.subject@ == subject@
                && r->Ok_0.commit_json == commit && r->Ok_0.snapshot is Some
                && r->Ok_0.snapshot->0.subject@ == subject@ && r->Ok_0.snapshot->0.json_ad == text,
            (Err(e), _) => r == Err::<CommitContext, AtomicError>(e),
            (Ok(_), Err(e)) => r == Err::<CommitContext, AtomicError>(e),
        },
{
    match commit_json {
        Err(e) => Err(e),
        Ok(commit_json) => match encode_resource(subject, json_ad) {
            Ok(snapshot) => Ok(
                CommitContext {
                    subject: subject.to_owned(),
                    commit_json,
                    snapshot: Some(snapshot),
                },
            ),
            Err(e) => Err(e),
        },
    }
}

/// The resource in a text that a plugin handed back. The address comes with the text.
pub open spec fn inflated(
    schema: crate::parse::SchemaView,
    subject: Seq<char>,
    json_ad: Seq<char>,
) -> Result<ResourceView, StopView> {
    match crate::parse::resource_of_text(
        crate::parse::Known { schema, importer: None },
        json_ad,
    ) {
        Ok(resource) => Ok(ResourceView { subject, propvals: resource.propvals }),
        Err(stop) => Err(stop),
    }
}

/// The resources in the first `n` texts that a plugin handed back.
pub open spec fn inflated_list(
    schema: crate::parse::SchemaView,
    items: Seq<ResourceJson>,
    n: nat,
) -> Result<Seq<ResourceView>, StopView>
    decreases n,
{
    if n == 0 || n > items.len() {
        Ok(Seq::empty())
    } else {
        match inflated_list(schema, items, (n - 1) as nat) {
            Err(stop) => Err(stop),
            Ok(list) => match inflated(schema, items[n - 1].subject@, items[n - 1].json_ad@) {
                Err(stop) => Err(stop),
                Ok(resource) => Ok(list.push(resource)),
            },
        }
    }
}

/// The answer that a plugin handed back.
pub open spec fn inflated_response(
    schema: crate::parse::SchemaView,
    payload: crate::plugin::ResourceResponse,
) -> Result<ResponseView, StopView> {
    match inflated(schema, payload.primary.subject@, payload.primary.json_ad@) {
        Err(stop) => Err(stop),
        Ok(base) => match inflated_list(schema, payload.referenced@, payload.referenced@.len()) {
            Err(stop) => Err(stop),
            Ok(referenced) => if referenced.len() == 0 {
                Ok(ResponseView::Resource(base))
            } else {
                Ok(ResponseView::ResourceWithReferenced(base, referenced))
            },
        },
    }
}

/// The resource in a text that a plugin handed back.
fn inflate(item: &ResourceJson, schema: &Schema) -> (r: Result<Resource, Stop>)
    ensures
        crate::parse::resource_outcome(r) == inflated(schema@, item.subject@, item.json_ad@),
{
    let parse_opts = ParseOpts {
        importer: None,
        for_agent: crate::agents::ForAgent::Sudo,
        signer: None,
        save: SaveOpts::DontSave,
        overwrite_outside: true,
    };
    match parse_json_ad_resource(item.json_ad.as_str(), schema, &parse_opts) {
        Ok(resource) => Ok(
            Resource { subject: item.subject.clone(), propvals: resource.propvals },
        ),
        Err(stop) => Err(stop),
    }
}

proof fn lemma_inflate_stops(
    schema: crate::parse::SchemaView,
    items: Seq<ResourceJson>,
    n: nat,
)
    requires
        n <= items.len(),
        inflated_list(schema, items, n) is Err,
    ensures
        inflated_list(schema, items, items.len()) == inflated_list(schema, items, n),
    decreases items.len() - n,
{
    if n < items.len() {
        lemma_inflate_stops(schema, items, n + 1);
    }
}

/// What reading the answer of a plugin comes to.
pub open spec fn response_outcome(r: Result<ResourceResponse, Stop>) -> Result<
    ResponseView,
    StopView,
> {
    match r {
        Ok(response) => Ok(response@),
        Err(s) => Err(s@),
    }
}

/// Reads the answer that a plugin handed back.
pub fn inflate_resource_response(
    payload: &crate::plugin::ResourceResponse,
    schema: &Schema,
) -> (r: Result<ResourceResponse, Stop>)
    ensures
        response_outcome(r) == inflated_response(schema@, *payload),
{
    let base = match inflate(&payload.primary, schema) {
        Ok(base) => base,
        Err(stop) => {
            return Err(stop);
        },
    };
    let mut referenced: Vec<Resource> = Vec::new();
    let ghost items = payload.referenced@;
    let mut i: usize = 0;
    assert(crate::values::resources_view(referenced@) =~= Seq::empty());
    while i < payload.referenced.len()
        invariant
            i <= payload.referenced@.len(),
            items == payload.referenced@,
            inflated(schema@, payload.primary.subject@, payload.primary.json_ad@) == Ok::<
                ResourceView,
                StopView,
            >(base@),
            referenced@.len() == i,
            inflated_list(schema@, items, i as nat) == Ok::<Seq<ResourceView>, StopView>(
                crate::values::resources_view(referenced@),
            ),
        decreases payload.referenced@.len() - i,
    {
        match inflate(&payload.referenced[i], schema) {
            Ok(resource) => {
                let ghost before = crate::values::resources_view(referenced@);
                referenced.push(resource);
                assert(crate::values::resources_view(referenced@) =~= before.push(resource@));
            },
            Err(stop) => {
                proof {
                    lemma_inflate_stops(schema@, items, (i + 1) as nat);
                }
                return Err(stop);
            },
        }
        i += 1;
    }
    if referenced.len() == 0 {
        Ok(ResourceResponse::Resource(base))
    } else {
        Ok(ResourceResponse::ResourceWithReferenced(base, referenced))
    }
}

/// What stands after the last dot of a name is its extension, and nothing else is; a name without a
/// dot has none, and a dot at the beginning does not count.
pub proof fn extensions_stand_after_the_last_dot(
    stem: Seq<char>,
    extension: Seq<char>,
    other: Seq<char>,
)
    requires
        !extension.contains('.'),
    ensures
        stem.len() > 0 ==> (extension_is(stem + seq!['.'] + extension, other) <==> other
            == extension),
        !extension_is(seq!['.'] + extension, other),
        !extension_is(extension, other),
{
    let name = stem + seq!['.'] + extension;
    let n = stem.len() as int;
    assert(name.skip(n + 1) =~= extension);
    assert(name[n] == '.');
    if extension_is(name, other) {
        let i = choose|i: int|
            0 < i < name.len() && #[trigger] name[i] == '.' && !name.skip(i + 1).contains('.')
                && name.skip(i + 1) == other;
        if i < n {
            assert(name.skip(i + 1)[n - i - 1] == '.');
        }
        if i > n {
            assert(extension[i - n - 1] == '.');
        }
    }
    let hidden = seq!['.'] + extension;
    if extension_is(hidden, other) {
        let i = choose|i: int|
            0 < i < hidden.len() && #[trigger] hidden[i] == '.' && !hidden.skip(i + 1).contains(
                '.',
            ) && hidden.skip(i + 1) == other;
        assert(extension[i - 1] == '.');
    }
}

/// Whether a plugin stands at a place.
pub open spec fn plugin_at(entries: Seq<DirEntryView>, place: Place) -> bool {
    &&& place.entry < entries.len()
    &&& match (entries[place.entry as int].children, place.child) {
        (Some(names), Some(k)) => k < names.len() && extension_is(names[k as int], "wasm"@),
        (None, None) => extension_is(entries[place.entry as int].name, "wasm"@),
        _ => false,
    }
}

/// Whether a place comes before another.
pub open spec fn comes_before(a: Place, b: Place) -> bool {
    a.entry < b.entry || (a.entry == b.entry && (a.child matches Some(i) && (b.child matches Some(j)
        && i < j)))
}

proof fn lemma_children(entry: usize, names: Seq<Seq<char>>, n: nat, place: Place)
    requires
        n <= names.len() <= usize::MAX,
    ensures
        wasm_children(entry, names, n).contains(place) <==> place.entry == entry && (
        place.child matches Some(k) && k < n && extension_is(names[k as int], "wasm"@)),
        forall|a: int, b: int|
            0 <= a < b < wasm_children(entry, names, n).len() ==> comes_before(
                #[trigger] wasm_children(entry, names, n)[a],
                #[trigger] wasm_children(entry, names, n)[b],
            ),
    decreases n,
{
    if n > 0 {
        let m = (n - 1) as nat;
        let before = wasm_children(entry, names, m);
        let all = wasm_children(entry, names, n);
        lemma_children(entry, names, m, place);
        if extension_is(names[n - 1], "wasm"@) {
            assert(all[before.len() as int] == Place { entry, child: Some((n - 1) as usize) });
            if before.contains(place) {
                let k = choose|k: int| 0 <= k < before.len() && before[k] == place;
                assert(all[k] == place);
            }
            assert forall|a: int, b: int| 0 <= a < b < all.len() implies comes_before(
                #[trigger] all[a],
                #[trigger] all[b],
            ) by {
                if b == before.len() {
                    assert(before.contains(all[a]));
                    lemma_children(entry, names, m, all[a]);
                }
            }
        }
    }
}

/// Every plugin among the first `n` entries of a directory is found: the files in it and those in the
/// directories in it. Nothing else is, and each is found once, in the order of the entries.
pub proof fn every_plugin_is_found(entries: Seq<DirEntryView>, n: nat, place: Place)
    requires
        n <= entries.len() <= usize::MAX,
        forall|i: int|
            0 <= i < entries.len() ==> ((#[trigger] entries[i]).children matches Some(names)
                ==> names.len() <= usize::MAX),
    ensures
        wasm_places(entries, n).contains(place) <==> place.entry < n && plugin_at(entries, place),
        forall|a: int, b: int|
            0 <= a < b < wasm_places(entries, n).len() ==> comes_before(
                #[trigger] wasm_places(entries, n)[a],
                #[trigger] wasm_places(entries, n)[b],
            ),
    decreases n,
{
    if n > 0 {
        let m = (n - 1) as nat;
        let entry = (n - 1) as usize;
        let before = wasm_places(entries, m);
        let all = wasm_places(entries, n);
        let more = match entries[n - 1].children {
            Some(names) => wasm_children(entry, names, names.len()),
            None => if extension_is(entries[n - 1].name, "wasm"@) {
                seq![Place { entry, child: None }]
            } else {
                Seq::empty()
            },
        };
        assert(all =~= before + more);
        every_plugin_is_found(entries, m, place);
        if let Some(names) = entries[n - 1].children {
            lemma_children(entry, names, names.len(), place);
        } else if extension_is(entries[n - 1].name, "wasm"@) {
            assert(more[0] == Place { entry, child: None });
        }
        if before.contains(place) {
            let k = choose|k: int| 0 <= k < before.len() && before[k] == place;
            assert(all[k] == place);
        }
        if more.contains(place) {
            let k = choose|k: int| 0 <= k < more.len() && more[k] == place;
            assert(all[before.len() + k] == place);
        }
        if all.contains(place) {
            let k = choose|k: int| 0 <= k < all.len() && all[k] == place;
            if k >= before.len() {
                assert(more[k - before.len()] == place);
            } else {
                assert(before[k] == place);
            }
        }
        assert forall|a: int, b: int| 0 <= a < b < all.len() implies comes_before(
            #[trigger] all[a],
            #[trigger] all[b],
        ) by {
            let len = before.len() as int;
            if b < len {
                assert(all[a] == before[a] && all[b] == before[b]);
            } else if a >= len {
                assert(all[a] == more[a - len] && all[b] == more[b - len]);
            } else {
                assert(all[a] == before[a] && all[b] == more[b - len]);
                assert(before.contains(all[a]));
                every_plugin_is_found(entries, m, all[a]);
                assert(more.contains(all[b]));
                if let Some(names) = entries[n - 1].children {
                    lemma_children(entry, names, names.len(), all[b]);
                }
            }
        }
    }
}

/// Without a cache every plugin in the directory itself is found, nothing else, and each once.
pub proof fn every_plugin_in_the_directory_is_found(
    entries: Seq<DirEntryView>,
    n: nat,
    place: Place,
)
    requires
        n <= entries.len() <= usize::MAX,
    ensures
        flat_wasm_places(entries, n).contains(place) <==> place.child is None && place.entry < n
            && extension_is(entries[place.entry as int].name, "wasm"@),
        forall|a: int, b: int|
            0 <= a < b < flat_wasm_places(entries, n).len() ==> comes_before(
                #[trigger] flat_wasm_places(entries, n)[a],
                #[trigger] flat_wasm_places(entries, n)[b],
            ),
    decreases n,
{
    if n > 0 {
        let m = (n - 1) as nat;
        let before = flat_wasm_places(entries, m);
        let all = flat_wasm_places(entries, n);
        every_plugin_in_the_directory_is_found(entries, m, place);
        if extension_is(entries[n - 1].name, "wasm"@) {
            assert(all[before.len() as int] == Place { entry: (n - 1) as usize, child: None });
            if before.contains(place) {
                let k = choose|k: int| 0 <= k < before.len() && before[k] == place;
                assert(all[k] == place);
            }
            assert forall|a: int, b: int| 0 <= a < b < all.len() implies comes_before(
                #[trigger] all[a],
                #[trigger] all[b],
            ) by {
                if b == before.len() {
                    assert(before.contains(all[a]));
                    every_plugin_in_the_directory_is_found(entries, m, all[a]);
                }
            }
        }
    }
}

/// A loading with a cache looks into the directories in the directory, too; one without does not.
pub proof fn caching_looks_deeper(cached: bool, entries: Seq<DirEntryView>, place: Place)
    requires
        entries.len() <= usize::MAX,
        forall|i: int|
            0 <= i < entries.len() ==> ((#[trigger] entries[i]).children matches Some(names)
                ==> names.len() <= usize::MAX),
    ensures
        cached ==> (listed(cached, entries).contains(place) <==> plugin_at(entries, place)),
        !cached ==> (listed(cached, entries).contains(place) <==> place.child is None
            && place.entry < entries.len() && extension_is(
            entries[place.entry as int].name,
            "wasm"@,
        )),
{
    every_plugin_is_found(entries, entries.len(), place);
    every_plugin_in_the_directory_is_found(entries, entries.len(), place);
}

/// Where there is a directory with plugins and the engine starts, every plugin that is listed is
/// looked at, whether or not there is a cache or one can be made.
pub proof fn loading_gets_to_the_plugins(cached: bool, there: bool, made: bool, files: usize)
    ensures
        ({
            let plugins = load_next(load_start(cached), LoadEvent::Exists(true));
            let cache = if !cached {
                plugins
            } else if there {
                load_next(plugins, LoadEvent::Exists(true))
            } else {
                load_next(load_next(plugins, LoadEvent::Exists(false)), LoadEvent::Tried(made))
            };
            let engine = load_next(cache, LoadEvent::Tried(true));
            let first = load_next(engine, LoadEvent::Files(files));
            &&& load_start(cached).step is CheckPlugins
            &&& cached ==> plugins.step is CheckCache
            &&& cached && !there ==> load_next(plugins, LoadEvent::Exists(false)).step is CreateCache
            &&& cache.step is BuildEngine
            &&& engine.step is FindFiles
            &&& first.cached == cached && first.files == files
            &&& first.used.len() == 0 && first.loaded.len() == 0
            &&& files > 0 && cached ==> first.step == LoadStep::ReadFile(0)
            &&& files > 0 && !cached ==> first.step == LoadStep::LoadFile(0)
            &&& files == 0 && cached ==> first.step is Cleanup
            &&& files == 0 && !cached ==> first.step is Finished
        }),
{
}

/// A directory that is missing is made and nothing is loaded. Without an engine nothing is loaded. A
/// directory that cannot be listed counts as empty. Whatever comes of cleaning up, the loading is
/// finished then, and stays so.
pub proof fn loading_ends_where_there_is_nothing_to_load(
    run: LoadView,
    worked: bool,
    event: LoadEvent,
)
    ensures
        run.step is CheckPlugins ==> load_next(run, LoadEvent::Exists(false)) == (LoadView {
            step: LoadStep::CreatePlugins,
            ..run
        }),
        run.step is CreatePlugins || run.step is Cleanup ==> load_next(
            run,
            LoadEvent::Tried(worked),
        ) == (LoadView { step: LoadStep::Finished, ..run }),
        run.step is BuildEngine ==> load_next(run, LoadEvent::Tried(false)) == (LoadView {
            step: LoadStep::Finished,
            ..run
        }),
        run.step is FindFiles ==> load_next(run, LoadEvent::Tried(false)) == load_next(
            run,
            LoadEvent::Files(0),
        ),
        run.step is Finished ==> load_next(run, event) == run,
{
}

/// After the last plugin the cache is cleaned up where there is one, and the loading is finished where
/// there is none; before that, the next plugin is looked at.
pub proof fn every_plugin_is_looked_at(run: LoadView, i: usize, worked: bool)
    requires
        run.step == LoadStep::LoadFile(i) || (run.step == LoadStep::ReadFile(i) && !worked),
        i < run.files <= usize::MAX,
    ensures
        ({
            let after = load_next(run, LoadEvent::Tried(worked));
            &&& i + 1 < run.files && run.cached ==> after.step == LoadStep::ReadFile(
                (i + 1) as usize,
            )
            &&& i + 1 < run.files && !run.cached ==> after.step == LoadStep::LoadFile(
                (i + 1) as usize,
            )
            &&& i + 1 == run.files && run.cached ==> after.step is Cleanup
            &&& i + 1 == run.files && !run.cached ==> after.step is Finished
            &&& after.loaded == (if worked {
                run.loaded.push(i)
            } else {
                run.loaded
            })
            &&& after.used == run.used
        }),
{
}

/// A plugin that has been read is loaded next, and counts as used.
pub proof fn plugins_that_are_read_are_loaded(run: LoadView, i: usize)
    requires
        run.step == LoadStep::ReadFile(i),
    ensures
        load_next(run, LoadEvent::Tried(true)).step == LoadStep::LoadFile(i),
        load_next(run, LoadEvent::Tried(true)).used == run.used.push(i),
        load_next(run, LoadEvent::Tried(true)).loaded == run.loaded,
{
}

/// A plugin of the list is among those of which something became if and only if that became of it.
pub proof fn outcomes_are_told_apart(
    outcomes: Seq<FileOutcome>,
    wanted: spec_fn(FileOutcome) -> bool,
    n: nat,
    i: usize,
)
    requires
        n <= outcomes.len() <= usize::MAX,
    ensures
        with_outcome(outcomes, wanted, n).contains(i) <==> i < n && wanted(outcomes[i as int]),
    decreases n,
{
    if n > 0 {
        let before = with_outcome(outcomes, wanted, (n - 1) as nat);
        let all = with_outcome(outcomes, wanted, n);
        outcomes_are_told_apart(outcomes, wanted, (n - 1) as nat, i);
        if wanted(outcomes[n - 1]) {
            assert(all[before.len() as int] == (n - 1) as usize);
            if before.contains(i) {
                let k = choose|k: int| 0 <= k < before.len() && before[k] == i;
                assert(all[k] == i);
            }
        }
    }
}

/// A plugin that is in the cache is not compiled again: it is ready as soon as it has been read,
/// opened and asked which class it extends.
pub proof fn cached_plugins_are_not_compiled()
    ensures
        component_after(Seq::empty()) is CheckCached,
        component_after(seq![true]) is ReadCached,
        component_after(seq![true, true]) is OpenCached,
        component_after(seq![true, true, true]) is AskClass,
        component_after(seq![true, true, true, true]) is Ready,
{
    reveal_with_fuel(component_after, 5);
    assert(seq![true].drop_last() =~= Seq::empty());
    assert(seq![true, true].drop_last() =~= seq![true]);
    assert(seq![true, true, true].drop_last() =~= seq![true, true]);
    assert(seq![true, true, true, true].drop_last() =~= seq![true, true, true]);
}

/// Only a plugin that has been opened and has said which class it extends is ready. One that does not
/// compile, cannot be opened when it has been compiled, or does not say it, is not, for that reason.
pub proof fn plugins_are_refused_for_a_reason(step: ComponentStep, worked: bool)
    ensures
        component_next(step, worked) is Ready && !(step is Ready) ==> step is AskClass && worked,
        component_next(step, worked) is AskClass && !(step is AskClass) ==> worked && (step is
            OpenCached || step is OpenCompiled),
        component_next(ComponentStep::Compile, false) is CompileFailed,
        component_next(ComponentStep::OpenCompiled, false) is OpenFailed,
        component_next(ComponentStep::AskClass, false) is AskFailed,
        step is Ready || step is CompileFailed || step is OpenFailed || step is AskFailed
            ==> component_next(step, worked) == step,
        worked ==> !(component_next(step, worked) is CompileFailed && !(step is CompileFailed)) && !(
        component_next(step, worked) is OpenFailed && !(step is OpenFailed)) && !(component_next(
            step,
            worked,
        ) is AskFailed && !(step is AskFailed)),
{
}

/// The answer of a plugin is read whole: its resource has the address that came with it and the
/// properties in its text, and so has every resource that it refers to, in their order.
pub proof fn answers_of_plugins_are_read_whole(
    schema: crate::parse::SchemaView,
    payload: crate::plugin::ResourceResponse,
    response: ResponseView,
    i: int,
)
    requires
        inflated_response(schema, payload) == Ok::<ResponseView, StopView>(response),
        0 <= i < payload.referenced@.len(),
    ensures
        ({
            let known = crate::parse::Known { schema, importer: None };
            &&& response matches ResponseView::ResourceWithReferenced(base, referenced)
            &&& base.subject == payload.primary.subject@
            &&& crate::parse::resource_of_text(known, payload.primary.json_ad@) matches Ok(read)
                && read.propvals == base.propvals
            &&& referenced.len() == payload.referenced@.len()
            &&& referenced[i].subject == payload.referenced@[i].subject@
            &&& crate::parse::resource_of_text(known, payload.referenced@[i].json_ad@) matches Ok(
                read,
            ) && read.propvals == referenced[i].propvals
        }),
{
    lemma_inflated(schema, payload.referenced@, payload.referenced@.len(), i);
}

/// The answer of a plugin that refers to no other resource is the resource in its text.
pub proof fn plain_answers_of_plugins_are_read(
    schema: crate::parse::SchemaView,
    payload: crate::plugin::ResourceResponse,
)
    requires
        payload.referenced@.len() == 0,
    ensures
        match (
            crate::parse::resource_of_text(
                crate::parse::Known { schema, importer: None },
                payload.primary.json_ad@,
            ),
            inflated_response(schema, payload),
        ) {
            (Ok(read), Ok(response)) => response == ResponseView::Resource(
                ResourceView { subject: payload.primary.subject@, propvals: read.propvals },
            ),
            (Err(stop), Err(other)) => stop == other,
            _ => false,
        },
{
}

proof fn lemma_inflated(
    schema: crate::parse::SchemaView,
    items: Seq<ResourceJson>,
    n: nat,
    i: int,
)
    requires
        inflated_list(schema, items, n) is Ok,
        n <= items.len(),
        0 <= i < n,
    ensures
        ({
            let list = inflated_list(schema, items, n)->Ok_0;
            let known = crate::parse::Known { schema, importer: None };
            &&& list.len() == n
            &&& list[i].subject == items[i].subject@
            &&& crate::parse::resource_of_text(known, items[i].json_ad@) matches Ok(read)
                && read.propvals == list[i].propvals
        }),
    decreases n,
{
    if n > 1 {
        lemma_inflated(
            schema,
            items,
            (n - 1) as nat,
            if i < n - 1 {
                i
            } else {
                0
            },
        );
    } else {
        assert(inflated_list(schema, items, 0) == Ok::<Seq<ResourceView>, StopView>(Seq::empty()));
    }
}

/// The number that a digit below 16 stands for.
pub open spec fn digit_value(c: char) -> int {
    if c <= '9' {
        c as int - '0' as int
    } else {
        c as int - 'a' as int + 10
    }
}

/// Each byte is written with two digits, the greater first, at the place of the byte.
pub proof fn bytes_are_written_in_order(bytes: Seq<u8>, i: int)
    requires
        0 <= i < bytes.len(),
    ensures
        hex(bytes).len() == 2 * bytes.len(),
        digit_value(hex(bytes)[2 * i]) * 16 + digit_value(hex(bytes)[2 * i + 1]) == bytes[i],
        0 <= digit_value(hex(bytes)[2 * i]) < 16,
        0 <= digit_value(hex(bytes)[2 * i + 1]) < 16,
    decreases bytes.len(),
{
    let before = bytes.drop_last();
    lemma_hex_len(before);
    if i < before.len() {
        bytes_are_written_in_order(before, i);
        assert(hex(bytes)[2 * i] == hex(before)[2 * i]);
        assert(hex(bytes)[2 * i + 1] == hex(before)[2 * i + 1]);
    } else {
        let b = bytes.last() as int;
        assert(hex(bytes)[2 * i] == hex_digit(b / 16));
        assert(hex(bytes)[2 * i + 1] == hex_digit(b % 16));
    }
}

proof fn lemma_hex_len(bytes: Seq<u8>)
    ensures
        hex(bytes).len() == 2 * bytes.len(),
    decreases bytes.len(),
{
    if bytes.len() > 0 {
        lemma_hex_len(bytes.drop_last());
    }
}

} // verus!
