//! The settings file and the application state built from it.

use crate::instance::{fresh_instance, Instance, InstanceView};
use crate::uid::{is_random_uuid, new_uid_not_in};
use std::collections::BTreeMap;
use vstd::prelude::*;
use vstd::std_specs::iter::IteratorSpec;

verus! {

/// The contents of the settings file: the configuration paths of the tabs,
/// whether to start every client when the application starts, and whether
/// to start without showing the window.
#[derive(Debug, Clone, PartialEq, Eq, Default)]
pub struct ConfigFile {
    pub file_paths: Vec<String>,
    pub auto_launch_kcptun: bool,
    pub silent_start: bool,
}

pub struct ConfigFileView {
    pub file_paths: Seq<Seq<char>>,
    pub auto_launch_kcptun: bool,
    pub silent_start: bool,
}

impl View for ConfigFile {
    type V = ConfigFileView;

    open spec fn view(&self) -> ConfigFileView {
        ConfigFileView {
            file_paths: self.file_paths@.map_values(|p: String| p@),
            auto_launch_kcptun: self.auto_launch_kcptun,
            silent_start: self.silent_start,
        }
    }
}

/// The application's state: its instances by identifier, and the two flags.
#[derive(Debug)]
pub struct State {
    pub configs: BTreeMap<u128, Instance>,
    pub auto_launch_kcptun: bool,
    pub silent_start: bool,
}

pub struct StateView {
    pub configs: Map<u128, InstanceView>,
    pub auto_launch_kcptun: bool,
    pub silent_start: bool,
}

impl View for State {
    type V = StateView;

    open spec fn view(&self) -> StateView {
        StateView {
            configs: self.configs@.map_values(|i: Instance| i@),
            auto_launch_kcptun: self.auto_launch_kcptun,
            silent_start: self.silent_start,
        }
    }
}

impl Default for State {
    /// No instance; both flags off.
    fn default() -> (s: State)
        ensures
            s@.configs == Map::<u128, InstanceView>::empty(),
            !s.auto_launch_kcptun,
            !s.silent_start,
    {
        let s = State { configs: BTreeMap::new(), auto_launch_kcptun: false, silent_start: false };
        assert(s@.configs =~= Map::<u128, InstanceView>::empty());
        s
    }
}

/// The instance that loading makes for a configuration path.
pub open spec fn loaded_instance(uid: u128, path: Seq<char>) -> InstanceView {
    InstanceView { path, ..fresh_instance(uid) }
}

/// The instances made from `paths`: one for each non-empty path, the one
/// for `paths[i]` under identifier `uids[i]` (a later one replaces an
/// earlier one under the same identifier).
pub open spec fn configs_from_paths(paths: Seq<Seq<char>>, uids: Seq<u128>) -> Map<
    u128,
    InstanceView,
>
    decreases paths.len(),
{
    if paths.len() == 0 {
        Map::empty()
    } else {
        let i = paths.len() - 1;
        let rest = configs_from_paths(paths.drop_last(), uids);
        if paths[i].len() == 0 {
            rest
        } else {
            rest.insert(uids[i], loaded_instance(uids[i], paths[i]))
        }
    }
}

/// The instances that loading a settings file makes: those of its paths,
/// or a single empty instance (identifier `uids[0]`) when it lists no path.
pub open spec fn loaded_configs(file: ConfigFileView, uids: Seq<u128>) -> Map<u128, InstanceView> {
    if file.file_paths.len() == 0 {
        map![uids[0] => fresh_instance(uids[0])]
    } else {
        configs_from_paths(file.file_paths, uids)
    }
}

/// The state loaded from a settings file, with identifiers `uids`.
pub open spec fn loaded_state(file: ConfigFileView, uids: Seq<u128>) -> StateView {
    StateView {
        configs: loaded_configs(file, uids),
        auto_launch_kcptun: file.auto_launch_kcptun,
        silent_start: file.silent_start,
    }
}

/// Builds the state that a settings file describes; the instance for
/// `file.file_paths[i]` gets identifier `uids[i]`, and the single empty
/// instance made for a file without paths gets `uids[0]`.
pub fn settings_from_file(file: &ConfigFile, uids: &Vec<u128>) -> (s: State)
    requires
        uids.len() >= file.file_paths.len(),
        uids.len() >= 1,
    ensures
        s@ == loaded_state(file@, uids@),
{
    let mut configs: BTreeMap<u128, Instance> = BTreeMap::new();
    let n = file.file_paths.len();
    let ghost paths = file@.file_paths;
    assert(configs@.map_values(|i: Instance| i@) =~= configs_from_paths(paths.take(0), uids@));
    for i in 0..n
        invariant
            n == file.file_paths.len(),
            paths == file@.file_paths,
            uids.len() >= n,
            configs@.map_values(|i: Instance| i@) == configs_from_paths(paths.take(i as int), uids@),
    {
        let c = &file.file_paths[i];
        let ghost before = configs@;
        assert(paths.take(i + 1).drop_last() =~= paths.take(i as int));
        assert(paths.take(i + 1)[i as int] == c@);
        if !c.as_str().is_empty() {
            let mut ins = Instance::from_uid(uids[i]);
            ins.update_config(c);
            configs.insert(uids[i], ins);
            assert(configs@.map_values(|i: Instance| i@) =~= before.map_values(|i: Instance| i@).insert(
                uids@[i as int],
                loaded_instance(uids@[i as int], c@),
            ));
        }
    }
    assert(paths.take(n as int) =~= paths);
    if n == 0 {
        let ins = Instance::from_uid(uids[0]);
        configs.insert(uids[0], ins);
        assert(configs@.map_values(|i: Instance| i@) =~= map![uids@[0] => fresh_instance(uids@[0])]);
    }
    State { configs, auto_launch_kcptun: file.auto_launch_kcptun, silent_start: file.silent_start }
}

/// What reading the settings file gave.
pub enum SettingsFile {
    /// The file could not be read.
    Unreadable,
    /// The file was read but does not hold valid settings.
    Malformed,
    /// The settings the file holds.
    Parsed(ConfigFile),
}

/// Builds the application state from what reading the settings file gave:
/// nothing when it could not be read; one empty instance when it holds no
/// valid settings; else the state that the file describes. Identifiers are
/// drawn at random and distinct, so the state is exact up to them. (The
/// bound on the number of paths is one no list of strings in memory
/// reaches.)
pub fn load_settings(file: SettingsFile) -> (s: State)
    requires
        file matches SettingsFile::Parsed(data) ==> data.file_paths.len() < 0x4000_0000_0000_0000,
    ensures
        match file {
            SettingsFile::Unreadable => {
                &&& s@.configs == Map::<u128, InstanceView>::empty()
                &&& !s@.auto_launch_kcptun
                &&& !s@.silent_start
            },
            SettingsFile::Malformed => {
                &&& exists|u: u128| is_random_uuid(u) && s@.configs == map![u => fresh_instance(u)]
                &&& !s@.auto_launch_kcptun
                &&& !s@.silent_start
            },
            SettingsFile::Parsed(data) => exists|uids: Seq<u128>|
                {
                    &&& uids.len() >= data.file_paths.len()
                    &&& uids.len() >= 1
                    &&& forall|i: int| 0 <= i < uids.len() ==> is_random_uuid(#[trigger] uids[i])
                    &&& uids.no_duplicates()
                    &&& s@ == loaded_state(data@, uids)
                },
        },
{
    match file {
        SettingsFile::Unreadable => {
            let s = State { configs: BTreeMap::new(), auto_launch_kcptun: false, silent_start: false };
            assert(s@.configs =~= Map::<u128, InstanceView>::empty());
            s
        },
        SettingsFile::Malformed => {
            let mut configs: BTreeMap<u128, Instance> = BTreeMap::new();
            let ins = Instance::new();
            let u = ins.uid;
            configs.insert(u, ins);
            let s = State { configs, auto_launch_kcptun: false, silent_start: false };
            assert(s@.configs =~= map![u => fresh_instance(u)]);
            s
        },
        SettingsFile::Parsed(data) => {
            let n = data.file_paths.len();
            let count = if n == 0 { 1 } else { n };
            let mut uids: Vec<u128> = Vec::new();
            while uids.len() < count
                invariant
                    uids.len() <= count,
                    count == if n == 0 { 1 } else { n },
                    n == data.file_paths.len(),
                    n < 0x4000_0000_0000_0000,
                    forall|j: int| 0 <= j < uids.len() ==> is_random_uuid(#[trigger] uids@[j]),
                    uids@.no_duplicates(),
                decreases count - uids.len(),
            {
                let u = new_uid_not_in(&uids);
                uids.push(u);
            }
            settings_from_file(&data, &uids)
        },
    }
}

/// The non-empty paths of `paths`, in order.
pub open spec fn nonempty_paths(paths: Seq<Seq<char>>) -> Seq<Seq<char>>
    decreases paths.len(),
{
    if paths.len() == 0 {
        Seq::empty()
    } else {
        let rest = nonempty_paths(paths.drop_last());
        if paths.last().len() == 0 {
            rest
        } else {
            rest.push(paths.last())
        }
    }
}

/// `keys` lists the set `dom` in increasing order.
pub open spec fn lists_in_order(keys: Seq<u128>, dom: Set<u128>) -> bool {
    &&& forall|i: int, j: int| 0 <= i < j < keys.len() ==> keys[i] < keys[j]
    &&& keys.to_set() == dom
}

/// The configuration paths of `configs`, taken in the order `keys`.
pub open spec fn paths_in_order(configs: Map<u128, InstanceView>, keys: Seq<u128>) -> Seq<
    Seq<char>,
> {
    keys.map_values(|k: u128| configs[k].path)
}

/// The settings file that saving `state` writes: the flags, and the
/// non-empty configuration paths in increasing order of identifier.
pub open spec fn saved_file(state: StateView, keys: Seq<u128>) -> ConfigFileView {
    ConfigFileView {
        file_paths: nonempty_paths(paths_in_order(state.configs, keys)),
        auto_launch_kcptun: state.auto_launch_kcptun,
        silent_start: state.silent_start,
    }
}

/// A sequence of identifiers that `BTreeMap` reports as increasing is
/// strictly increasing.
pub(crate) proof fn lemma_increasing_keys(keys: Seq<u128>)
    requires
        vstd::std_specs::btree::increasing_seq(keys),
    ensures
        forall|i: int, j: int| 0 <= i < j < keys.len() ==> keys[i] < keys[j],
{
    assert forall|i: int, j: int| 0 <= i < j < keys.len() implies keys[i] < keys[j] by {
        assert(vstd::std_specs::cmp::OrdSpec::cmp_spec(&keys[i], &keys[j]) is Less);
    }
}

/// As [`lemma_increasing_keys`], for the references a key iterator yields.
pub(crate) proof fn lemma_increasing_key_refs(keys: Seq<&u128>)
    requires
        vstd::std_specs::btree::increasing_seq(keys),
    ensures
        forall|i: int, j: int| 0 <= i < j < keys.len() ==> *keys[i] < *keys[j],
{
    assert forall|i: int, j: int| 0 <= i < j < keys.len() implies *keys[i] < *keys[j] by {
        assert(vstd::std_specs::cmp::OrdSpec::cmp_spec(&keys[i], &keys[j]) is Less);
    }
}

/// The settings file that describes `conf` (what saving writes).
pub fn config_file_of(conf: &State) -> (file: ConfigFile)
    ensures
        exists|keys: Seq<u128>|
            lists_in_order(keys, conf@.configs.dom()) && file@ == saved_file(conf@, keys),
{
    let ghost m = conf.configs@;
    let values = conf.configs.values();
    let ghost keys = choose|key_seq: Seq<u128>|
        {
            &&& vstd::std_specs::btree::increasing_seq(key_seq)
            &&& key_seq.to_set() == m.dom()
            &&& key_seq.no_duplicates()
            &&& IteratorSpec::remaining(&values) == key_seq.map(|i: int, k: u128| &m[k])
        };
    let mut file_paths: Vec<String> = Vec::new();
    for ins in it: values
        invariant
            it.seq() == keys.map(|i: int, k: u128| &m[k]),
            keys.to_set() == m.dom(),
            m == conf.configs@,
            file_paths@.map_values(|p: String| p@) == nonempty_paths(
                paths_in_order(conf@.configs, keys.take(it.index() as int)),
            ),
    {
        let ghost j = it.index();
        let ghost before = file_paths@.map_values(|p: String| p@);
        proof {
            let k = keys[j];
            assert(keys.to_set().contains(k));
            let a = paths_in_order(conf@.configs, keys.take(j + 1));
            assert(a.drop_last() =~= paths_in_order(conf@.configs, keys.take(j)));
            assert(a.last() == ins.path@);
        }
        if !ins.path.as_str().is_empty() {
            file_paths.push(ins.path.clone());
            assert(file_paths@.map_values(|p: String| p@) =~= before.push(ins.path@));
        }
    }
    proof {
        assert(keys.take(keys.len() as int) =~= keys);
        lemma_increasing_keys(keys);
    }
    let file = ConfigFile {
        file_paths,
        auto_launch_kcptun: conf.auto_launch_kcptun,
        silent_start: conf.silent_start,
    };
    assert(conf@.configs.dom() =~= m.dom());
    assert(lists_in_order(keys, conf@.configs.dom()));
    assert(file@.file_paths == saved_file(conf@, keys).file_paths);
    file
}

} // verus!
