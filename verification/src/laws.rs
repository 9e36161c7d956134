//! Properties that span several operations of the library.

use crate::cmd::{client_binary, client_command};
use crate::control::{
    after_start_all, kill_pids, start_requests, started_by_start_all, stop_requests,
    stopped_by_stop_all,
};
use crate::instance::{
    fresh_instance, remove_label, select_label, tab_status, tab_title, toggle_label, ActionView,
    InstanceView,
};
use crate::tab::{config_tab_status, config_tab_title, config_tab_toggle};
use crate::text::{bool_text, decimal, digit_char};
use crate::uid::{hex_digit, hyphenated, nibble};
use crate::settings::{
    configs_from_paths, lists_in_order, loaded_state, nonempty_paths, paths_in_order, saved_file,
    ConfigFileView, StateView,
};
use vstd::prelude::*;

verus! {

broadcast use vstd::seq_lib::group_to_multiset_ensures;

/// The identifiers that loading gives the non-empty paths, in the order of
/// the paths.
pub open spec fn keys_of_paths(paths: Seq<Seq<char>>, uids: Seq<u128>) -> Seq<u128>
    decreases paths.len(),
{
    if paths.len() == 0 {
        Seq::empty()
    } else {
        let rest = keys_of_paths(paths.drop_last(), uids);
        if paths.last().len() == 0 {
            rest
        } else {
            rest.push(uids[paths.len() - 1])
        }
    }
}

proof fn lemma_loaded_keys(paths: Seq<Seq<char>>, uids: Seq<u128>)
    requires
        uids.len() >= paths.len(),
        uids.take(paths.len() as int).no_duplicates(),
    ensures
        ({
            let m = configs_from_paths(paths, uids);
            let ks = keys_of_paths(paths, uids);
            &&& ks.no_duplicates()
            &&& ks.to_set() == m.dom()
            &&& forall|k: u128| #[trigger]
                m.dom().contains(k) ==> uids.take(paths.len() as int).contains(k)
            &&& forall|k: u128| #[trigger] m.dom().contains(k) ==> m[k].path.len() > 0
            &&& paths_in_order(m, ks) == nonempty_paths(paths)
        }),
    decreases paths.len(),
{
    let m = configs_from_paths(paths, uids);
    let ks = keys_of_paths(paths, uids);
    if paths.len() == 0 {
        assert(ks.to_set() =~= m.dom());
        assert(paths_in_order(m, ks) =~= nonempty_paths(paths));
    } else {
        let n = paths.len() - 1;
        let p0 = paths.drop_last();
        assert(uids.take(n).no_duplicates()) by {
            assert forall|i: int, j: int| 0 <= i < j < n implies uids.take(n)[i] != uids.take(n)[j] by {
                assert(uids.take(n)[i] == uids.take(n + 1)[i]);
                assert(uids.take(n)[j] == uids.take(n + 1)[j]);
            }
        }
        lemma_loaded_keys(p0, uids);
        let m0 = configs_from_paths(p0, uids);
        let ks0 = keys_of_paths(p0, uids);
        assert forall|k: u128| #[trigger] m.dom().contains(k) implies uids.take(
            paths.len() as int,
        ).contains(k) by {
            if m0.dom().contains(k) {
                let i = choose|i: int| 0 <= i < n && uids.take(n)[i] == k;
                assert(uids.take(n + 1)[i] == k);
            } else {
                assert(uids.take(n + 1)[n] == k);
            }
        }
        if paths.last().len() > 0 {
            let u = uids[n];
            assert(!m0.dom().contains(u)) by {
                if m0.dom().contains(u) {
                    let i = choose|i: int| 0 <= i < n && uids.take(n)[i] == u;
                    assert(uids.take(n + 1)[i] == uids.take(n + 1)[n]);
                }
            }
            assert(ks =~= ks0.push(u));
            assert(!ks0.contains(u)) by {
                if ks0.contains(u) {
                    assert(ks0.to_set().contains(u));
                }
            }
            assert(ks.to_set() =~= m.dom()) by {
                ks0.lemma_push_to_set_commute(u);
            }
            assert(paths_in_order(m, ks) =~= nonempty_paths(paths)) by {
                assert forall|j: int| 0 <= j < ks0.len() implies #[trigger] m[ks0[j]] == m0[ks0[j]] by {
                    assert(ks0.to_set().contains(ks0[j]));
                }
            }
        } else {
            assert(ks == ks0);
            assert(m == m0);
        }
    }
}

proof fn lemma_same_keys_same_paths(m: Map<u128, InstanceView>, a: Seq<u128>, b: Seq<u128>)
    requires
        a.no_duplicates(),
        b.no_duplicates(),
        a.to_set() == b.to_set(),
    ensures
        paths_in_order(m, a).to_multiset() == paths_in_order(m, b).to_multiset(),
    decreases a.len(),
{
    if a.len() == 0 {
        if b.len() > 0 {
            assert(b.to_set().contains(b[0]));
        }
        assert(paths_in_order(m, a) =~= paths_in_order(m, b));
    } else {
        let x = a.last();
        let a0 = a.drop_last();
        assert(a.to_set().contains(x));
        assert(b.contains(x));
        let j = choose|j: int| 0 <= j < b.len() && b[j] == x;
        let b0 = b.remove(j);
        assert(a0.no_duplicates());
        assert(b0.no_duplicates()) by {
            assert forall|i: int, k: int| 0 <= i < k < b0.len() implies b0[i] != b0[k] by {
                let ii = if i < j { i } else { i + 1 };
                let kk = if k < j { k } else { k + 1 };
                assert(b0[i] == b[ii] && b0[k] == b[kk]);
            }
        }
        assert(a0.to_set() =~= b0.to_set()) by {
            assert forall|y: u128| a0.to_set().contains(y) implies b0.to_set().contains(y) by {
                let i = choose|i: int| 0 <= i < a0.len() && a0[i] == y;
                assert(a[i] == y && i != a.len() - 1);
                assert(a.to_set().contains(y));
                let k = choose|k: int| 0 <= k < b.len() && b[k] == y;
                assert(k != j);
                if k < j {
                    assert(b0[k] == y);
                } else {
                    assert(b0[k - 1] == y);
                }
            }
            assert forall|y: u128| b0.to_set().contains(y) implies a0.to_set().contains(y) by {
                let k = choose|k: int| 0 <= k < b0.len() && b0[k] == y;
                let kk = if k < j { k } else { k + 1 };
                assert(b[kk] == y && kk != j);
                assert(b.to_set().contains(y));
                let i = choose|i: int| 0 <= i < a.len() && a[i] == y;
                assert(i != a.len() - 1);
                assert(a0[i] == y);
            }
        }
        lemma_same_keys_same_paths(m, a0, b0);
        assert(paths_in_order(m, a) =~= paths_in_order(m, a0).push(m[x].path));
        assert(paths_in_order(m, b) =~= paths_in_order(m, b0).insert(j, m[x].path));
    }
}

proof fn lemma_all_nonempty(s: Seq<Seq<char>>)
    requires
        forall|i: int| 0 <= i < s.len() ==> #[trigger] s[i].len() > 0,
    ensures
        nonempty_paths(s) == s,
    decreases s.len(),
{
    if s.len() > 0 {
        lemma_all_nonempty(s.drop_last());
        assert(s.drop_last().push(s.last()) =~= s);
    }
}

/// Every path that [`nonempty_paths`] keeps is non-empty.
pub proof fn lemma_nonempty_paths_nonempty(s: Seq<Seq<char>>)
    ensures
        forall|i: int|
            0 <= i < nonempty_paths(s).len() ==> #[trigger] nonempty_paths(s)[i].len() > 0,
    decreases s.len(),
{
    if s.len() > 0 {
        lemma_nonempty_paths_nonempty(s.drop_last());
        let rest = nonempty_paths(s.drop_last());
        if s.last().len() > 0 {
            assert forall|i: int| 0 <= i < nonempty_paths(s).len() implies #[trigger] nonempty_paths(
                s,
            )[i].len() > 0 by {
                if i < rest.len() {
                    assert(nonempty_paths(s)[i] == rest[i]);
                }
            }
        }
    }
}

proof fn lemma_in_order_no_duplicates(keys: Seq<u128>, dom: Set<u128>)
    requires
        lists_in_order(keys, dom),
    ensures
        keys.no_duplicates(),
{
    assert forall|i: int, j: int| 0 <= i < keys.len() && 0 <= j < keys.len() && i != j implies keys[i]
        != keys[j] by {
        if i < j {
            assert(keys[i] < keys[j]);
        } else {
            assert(keys[j] < keys[i]);
        }
    }
}

/// A set has one listing in increasing order: saving writes the paths in a
/// single, determined order.
pub proof fn law_key_order_unique(a: Seq<u128>, b: Seq<u128>, dom: Set<u128>)
    requires
        lists_in_order(a, dom),
        lists_in_order(b, dom),
    ensures
        a == b,
    decreases a.len(),
{
    if a.len() == 0 {
        if b.len() > 0 {
            assert(b.to_set().contains(b[0]));
        }
        assert(a =~= b);
    } else {
        assert(b.len() > 0) by {
            assert(a.to_set().contains(a[0]));
        }
        // the first elements are both the least element of `dom`
        assert(a[0] == b[0]) by {
            assert(a.to_set().contains(a[0]) && b.to_set().contains(b[0]));
            let j = choose|j: int| 0 <= j < b.len() && b[j] == a[0];
            let i = choose|i: int| 0 <= i < a.len() && a[i] == b[0];
            if j > 0 {
                assert(b[0] < b[j]);
                if i > 0 {
                    assert(a[0] < a[i]);
                }
            }
            if i > 0 {
                assert(a[0] < a[i]);
            }
        }
        let x = a[0];
        let a1 = a.drop_first();
        let b1 = b.drop_first();
        let d1 = dom.remove(x);
        assert(a1.to_set() =~= d1) by {
            assert forall|y: u128| a1.to_set().contains(y) implies d1.contains(y) by {
                let i = choose|i: int| 0 <= i < a1.len() && a1[i] == y;
                assert(a[i + 1] == y && a[0] < a[i + 1]);
                assert(a.to_set().contains(y));
            }
            assert forall|y: u128| d1.contains(y) implies a1.to_set().contains(y) by {
                assert(a.to_set().contains(y));
                let i = choose|i: int| 0 <= i < a.len() && a[i] == y;
                assert(i > 0);
                assert(a1[i - 1] == y);
            }
        }
        assert(b1.to_set() =~= d1) by {
            assert forall|y: u128| b1.to_set().contains(y) implies d1.contains(y) by {
                let i = choose|i: int| 0 <= i < b1.len() && b1[i] == y;
                assert(b[i + 1] == y && b[0] < b[i + 1]);
                assert(b.to_set().contains(y));
            }
            assert forall|y: u128| d1.contains(y) implies b1.to_set().contains(y) by {
                assert(b.to_set().contains(y));
                let i = choose|i: int| 0 <= i < b.len() && b[i] == y;
                assert(i > 0);
                assert(b1[i - 1] == y);
            }
        }
        law_key_order_unique(a1, b1, d1);
        assert(a =~= b1.insert(0, x));
        assert(b =~= b1.insert(0, x));
    }
}

/// The paths of the instances that loading `file` makes: its non-empty
/// paths, or the single empty path of the one empty instance made for a file
/// that lists none.
pub open spec fn loaded_paths(file: ConfigFileView) -> Seq<Seq<char>> {
    if file.file_paths.len() == 0 {
        seq![Seq::<char>::empty()]
    } else {
        nonempty_paths(file.file_paths)
    }
}

proof fn lemma_take_no_duplicates(uids: Seq<u128>, n: int)
    requires
        uids.no_duplicates(),
        0 <= n <= uids.len(),
    ensures
        uids.take(n).no_duplicates(),
{
    assert forall|i: int, j: int| 0 <= i < n && 0 <= j < n && i != j implies uids.take(n)[i]
        != uids.take(n)[j] by {
        assert(uids.take(n)[i] == uids[i] && uids.take(n)[j] == uids[j]);
    }
}

/// Loading makes one instance per non-empty path of the file, each path as
/// often as the file lists it (and one empty instance for a file without
/// paths), provided the identifiers drawn are distinct, as
/// [`crate::settings::load_settings`] ensures.
pub proof fn law_loaded_one_instance_per_path(
    file: ConfigFileView,
    uids: Seq<u128>,
    keys: Seq<u128>,
)
    requires
        uids.len() >= file.file_paths.len(),
        uids.len() >= 1,
        uids.no_duplicates(),
        lists_in_order(keys, loaded_state(file, uids).configs.dom()),
    ensures
        paths_in_order(loaded_state(file, uids).configs, keys).to_multiset() == loaded_paths(
            file,
        ).to_multiset(),
        loaded_state(file, uids).configs.dom().len() == loaded_paths(file).len(),
        keys.len() == loaded_paths(file).len(),
{
    let m = loaded_state(file, uids).configs;
    let paths = file.file_paths;
    lemma_in_order_no_duplicates(keys, m.dom());
    keys.unique_seq_to_set();
    lemma_take_no_duplicates(uids, paths.len() as int);
    if paths.len() == 0 {
        let u = uids[0];
        assert(keys =~= seq![u]) by {
            assert(m.dom().contains(u));
            assert(keys.to_set().contains(u));
            if keys.len() > 1 {
                assert(keys.to_set().contains(keys[0]) && keys.to_set().contains(keys[1]));
                assert(keys[0] < keys[1]);
            }
        }
        assert(paths_in_order(m, keys) =~= loaded_paths(file));
    } else {
        lemma_loaded_keys(paths, uids);
        let ks = keys_of_paths(paths, uids);
        lemma_same_keys_same_paths(m, keys, ks);
        ks.unique_seq_to_set();
        assert(paths_in_order(m, keys).len() == keys.len());
        assert(paths_in_order(m, ks).len() == ks.len());
    }
}

/// Loading the same file twice gives the same flags and the same paths,
/// each as often; only the identifiers differ.
pub proof fn law_load_deterministic(
    file: ConfigFileView,
    uids1: Seq<u128>,
    keys1: Seq<u128>,
    uids2: Seq<u128>,
    keys2: Seq<u128>,
)
    requires
        uids1.len() >= file.file_paths.len(),
        uids1.len() >= 1,
        uids1.no_duplicates(),
        lists_in_order(keys1, loaded_state(file, uids1).configs.dom()),
        uids2.len() >= file.file_paths.len(),
        uids2.len() >= 1,
        uids2.no_duplicates(),
        lists_in_order(keys2, loaded_state(file, uids2).configs.dom()),
    ensures
        loaded_state(file, uids1).auto_launch_kcptun == loaded_state(file, uids2).auto_launch_kcptun,
        loaded_state(file, uids1).silent_start == loaded_state(file, uids2).silent_start,
        paths_in_order(loaded_state(file, uids1).configs, keys1).to_multiset() == paths_in_order(
            loaded_state(file, uids2).configs,
            keys2,
        ).to_multiset(),
        loaded_state(file, uids1).configs.dom().len() == loaded_state(file, uids2).configs.dom().len(),
{
    law_loaded_one_instance_per_path(file, uids1, keys1);
    law_loaded_one_instance_per_path(file, uids2, keys2);
}

/// Saving the state that loading a settings file produced writes the same
/// two flags and the same non-empty paths, each as often as the file lists
/// it (in the order of the identifiers rather than of the file); when every
/// path of the file is non-empty, the paths written are a permutation of
/// the file's.
pub proof fn law_save_after_load(file: ConfigFileView, uids: Seq<u128>, keys: Seq<u128>)
    requires
        uids.len() >= file.file_paths.len(),
        uids.len() >= 1,
        uids.no_duplicates(),
        lists_in_order(keys, loaded_state(file, uids).configs.dom()),
    ensures
        ({
            let saved = saved_file(loaded_state(file, uids), keys);
            &&& saved.file_paths.to_multiset() == nonempty_paths(file.file_paths).to_multiset()
            &&& saved.auto_launch_kcptun == file.auto_launch_kcptun
            &&& saved.silent_start == file.silent_start
            &&& (forall|i: int| 0 <= i < file.file_paths.len() ==> #[trigger] file.file_paths[i].len() > 0)
                ==> saved.file_paths.to_multiset() == file.file_paths.to_multiset()
        }),
{
    let state = loaded_state(file, uids);
    let m = state.configs;
    let paths = file.file_paths;
    law_loaded_one_instance_per_path(file, uids, keys);
    if paths.len() == 0 {
        let u = uids[0];
        lemma_in_order_no_duplicates(keys, m.dom());
        assert(keys =~= seq![u]) by {
            assert(m.dom().contains(u));
            assert(keys.to_set().contains(u));
            if keys.len() > 1 {
                assert(keys.to_set().contains(keys[0]) && keys.to_set().contains(keys[1]));
                assert(keys[0] < keys[1]);
            }
        }
        let one = seq![Seq::<char>::empty()];
        assert(paths_in_order(m, keys) =~= one);
        assert(one.drop_last() =~= Seq::<Seq<char>>::empty());
        assert(nonempty_paths(one.drop_last()) =~= Seq::<Seq<char>>::empty());
        assert(one.last().len() == 0);
        assert(nonempty_paths(one) =~= Seq::<Seq<char>>::empty());
        assert(nonempty_paths(paths) =~= Seq::<Seq<char>>::empty());
    } else {
        lemma_take_no_duplicates(uids, paths.len() as int);
        lemma_loaded_keys(paths, uids);
        assert forall|i: int| 0 <= i < paths_in_order(m, keys).len() implies #[trigger] paths_in_order(
            m,
            keys,
        )[i].len() > 0 by {
            assert(keys.to_set().contains(keys[i]));
        }
        lemma_all_nonempty(paths_in_order(m, keys));
    }
    if forall|i: int| 0 <= i < paths.len() ==> #[trigger] paths[i].len() > 0 {
        lemma_all_nonempty(paths);
    }
}

/// Loading what saving wrote gives the saved flags and instances with the
/// same non-empty paths, each as often (so saving again writes the same
/// paths, up to their order); a state without any non-empty path loads back
/// as a single empty instance.
pub proof fn law_load_after_save(
    state: StateView,
    keys: Seq<u128>,
    uids: Seq<u128>,
    keys2: Seq<u128>,
)
    requires
        lists_in_order(keys, state.configs.dom()),
        uids.len() >= saved_file(state, keys).file_paths.len(),
        uids.len() >= 1,
        uids.no_duplicates(),
        lists_in_order(keys2, loaded_state(saved_file(state, keys), uids).configs.dom()),
    ensures
        ({
            let first = saved_file(state, keys);
            let loaded = loaded_state(first, uids);
            &&& loaded.auto_launch_kcptun == state.auto_launch_kcptun
            &&& loaded.silent_start == state.silent_start
            &&& nonempty_paths(paths_in_order(loaded.configs, keys2)).to_multiset()
                == nonempty_paths(paths_in_order(state.configs, keys)).to_multiset()
            &&& saved_file(loaded, keys2).file_paths.to_multiset() == first.file_paths.to_multiset()
            &&& nonempty_paths(paths_in_order(state.configs, keys)).len() == 0 ==> loaded.configs
                == map![uids[0] => fresh_instance(uids[0])]
        }),
{
    let first = saved_file(state, keys);
    law_save_after_load(first, uids, keys2);
    lemma_nonempty_paths_nonempty(paths_in_order(state.configs, keys));
    lemma_all_nonempty(first.file_paths);
}

proof fn lemma_paths_instances_idle(paths: Seq<Seq<char>>, uids: Seq<u128>)
    ensures
        forall|k: u128| #[trigger]
            configs_from_paths(paths, uids).dom().contains(k) ==> {
                let ins = configs_from_paths(paths, uids)[k];
                &&& ins.uid == k
                &&& !ins.running
                &&& !ins.starting
                &&& ins.cmd is None
                &&& ins.logs.len() == 0
            },
    decreases paths.len(),
{
    if paths.len() > 0 {
        lemma_paths_instances_idle(paths.drop_last(), uids);
    }
}

/// Every instance that loading makes is stored under its own identifier,
/// holds no process, does not run, has no start pending, and has an empty
/// log.
pub proof fn law_loaded_instances_idle(file: ConfigFileView, uids: Seq<u128>)
    requires
        uids.len() >= 1,
    ensures
        forall|k: u128| #[trigger]
            loaded_state(file, uids).configs.dom().contains(k) ==> {
                let ins = loaded_state(file, uids).configs[k];
                &&& ins.uid == k
                &&& !ins.running
                &&& !ins.starting
                &&& ins.cmd is None
                &&& ins.logs.len() == 0
                &&& ins.is_consistent()
            },
{
    lemma_paths_instances_idle(file.file_paths, uids);
}

/// Stopping an instance and then starting it asks for its client on the
/// same configuration.
pub proof fn law_restart_after_kill(ins: InstanceView, os: Seq<char>)
    ensures
        ins.stopped().run_action(os) == ActionView::Spawn(client_command(os, ins.path)),
        ins.stopped().is_consistent(),
        ins.stopped().stopped() == ins.stopped(),
{
}


proof fn lemma_start_requests(m: Map<u128, InstanceView>, keys: Seq<u128>, os: Seq<char>)
    ensures
        forall|i: int|
            #![trigger start_requests(m, keys, os)[i]]
            0 <= i < start_requests(m, keys, os).len() ==> {
                let id = start_requests(m, keys, os)[i].0;
                &&& keys.contains(id)
                &&& m[id].path.len() > 0
                &&& !m[id].running
                &&& !m[id].starting
                &&& start_requests(m, keys, os)[i].1 == ActionView::Spawn(
                    client_command(os, m[id].path),
                )
            },
        forall|k: u128|
            #![trigger keys.contains(k)]
            keys.contains(k) && m[k].path.len() > 0 && !m[k].running && !m[k].starting
                ==> exists|i: int|
                0 <= i < start_requests(m, keys, os).len() && #[trigger] start_requests(
                    m,
                    keys,
                    os,
                )[i].0 == k,
        (forall|i: int, j: int| 0 <= i < j < keys.len() ==> keys[i] < keys[j]) ==> forall|
            i: int,
            j: int,
        |
            0 <= i < j < start_requests(m, keys, os).len() ==> start_requests(m, keys, os)[i].0
                < start_requests(m, keys, os)[j].0,
    decreases keys.len(),
{
    if keys.len() > 0 {
        let k0 = keys.drop_last();
        lemma_start_requests(m, k0, os);
        let r = start_requests(m, keys, os);
        let r0 = start_requests(m, k0, os);
        let last = keys.last();
        assert forall|i: int| 0 <= i < r0.len() implies #[trigger] r[i] == r0[i] && keys.contains(
            r0[i].0,
        ) by {
            let id = r0[i].0;
            assert(k0.contains(id));
            let j = choose|j: int| 0 <= j < k0.len() && k0[j] == id;
            assert(keys[j] == id);
        }
        assert(keys.contains(last)) by {
            assert(keys[keys.len() - 1] == last);
        }
        assert forall|k: u128|
            #![trigger keys.contains(k)]
            keys.contains(k) && m[k].path.len() > 0 && !m[k].running && !m[k].starting implies exists|
                i: int,
            |
                0 <= i < r.len() && #[trigger] r[i].0 == k by {
            let j = choose|j: int| 0 <= j < keys.len() && keys[j] == k;
            if j == keys.len() - 1 {
                assert(r[r.len() - 1].0 == k);
            } else {
                assert(k0[j] == k);
                assert(k0.contains(k));
                let i = choose|i: int| 0 <= i < r0.len() && #[trigger] r0[i].0 == k;
                assert(r[i].0 == k);
            }
        }
        if forall|i: int, j: int| 0 <= i < j < keys.len() ==> keys[i] < keys[j] {
            assert(forall|i: int, j: int| 0 <= i < j < k0.len() ==> k0[i] < k0[j]);
            assert forall|i: int, j: int| 0 <= i < j < r.len() implies r[i].0 < r[j].0 by {
                if j == r0.len() {
                    let id = r0[i].0;
                    assert(k0.contains(id));
                    let t = choose|t: int| 0 <= t < k0.len() && k0[t] == id;
                    assert(keys[t] == id);
                    assert(r[j].0 == last);
                    assert(keys[t] < keys[keys.len() - 1]);
                }
            }
        }
    }
}

/// "Start all" asks, for each instance that it starts, for the client on
/// that instance's own configuration, naming the instance by the key it is
/// stored under: every request names a key of the map whose instance has a
/// configuration and neither runs nor is being started; every such key is
/// named; the keys come in increasing order.
pub proof fn law_start_requests_name_keys(m: Map<u128, InstanceView>, keys: Seq<u128>, os: Seq<char>)
    requires
        lists_in_order(keys, m.dom()),
    ensures
        forall|i: int|
            #![trigger start_requests(m, keys, os)[i]]
            0 <= i < start_requests(m, keys, os).len() ==> {
                let id = start_requests(m, keys, os)[i].0;
                &&& m.dom().contains(id)
                &&& m[id].path.len() > 0
                &&& !m[id].running
                &&& !m[id].starting
                &&& start_requests(m, keys, os)[i].1 == ActionView::Spawn(
                    client_command(os, m[id].path),
                )
            },
        forall|k: u128|
            #![trigger m.dom().contains(k)]
            m.dom().contains(k) && m[k].path.len() > 0 && !m[k].running && !m[k].starting
                ==> exists|i: int|
                0 <= i < start_requests(m, keys, os).len() && #[trigger] start_requests(
                    m,
                    keys,
                    os,
                )[i].0 == k,
        forall|i: int, j: int|
            0 <= i < j < start_requests(m, keys, os).len() ==> start_requests(m, keys, os)[i].0
                < start_requests(m, keys, os)[j].0,
{
    lemma_start_requests(m, keys, os);
    assert forall|i: int| 0 <= i < start_requests(m, keys, os).len() implies m.dom().contains(
        #[trigger] start_requests(m, keys, os)[i].0,
    ) by {
        assert(keys.to_set().contains(start_requests(m, keys, os)[i].0));
    }
    assert forall|k: u128| #[trigger] m.dom().contains(k) implies keys.contains(k) by {
        assert(keys.to_set().contains(k));
    }
}

/// After "start all", the instances it starts have a start pending and
/// nothing else of any instance changes.
pub proof fn law_start_all_marks_started(m: Map<u128, InstanceView>)
    ensures
        after_start_all(m).dom() == m.dom(),
        forall|k: u128|
            #[trigger] m.dom().contains(k) ==> after_start_all(m)[k] == (InstanceView {
                starting: m[k].starting || (m[k].path.len() > 0 && !m[k].running),
                ..m[k]
            }),
{
    assert(after_start_all(m).dom() =~= m.dom());
}

proof fn lemma_stop_requests(m: Map<u128, InstanceView>, keys: Seq<u128>)
    ensures
        forall|i: int|
            #![trigger stop_requests(m, keys)[i]]
            0 <= i < stop_requests(m, keys).len() ==> {
                let id = stop_requests(m, keys)[i].0;
                &&& keys.contains(id)
                &&& m[id].path.len() > 0
                &&& m[id].running
                &&& stop_requests(m, keys)[i].1 == match m[id].cmd {
                    Some(p) => ActionView::Kill(p),
                    None => ActionView::Nothing,
                }
            },
    decreases keys.len(),
{
    if keys.len() > 0 {
        let k0 = keys.drop_last();
        lemma_stop_requests(m, k0);
        let r = stop_requests(m, keys);
        let r0 = stop_requests(m, k0);
        assert forall|i: int| 0 <= i < r0.len() implies #[trigger] r[i] == r0[i] && keys.contains(
            r0[i].0,
        ) by {
            let id = r0[i].0;
            assert(k0.contains(id));
            let j = choose|j: int| 0 <= j < k0.len() && k0[j] == id;
            assert(keys[j] == id);
        }
        assert(keys[keys.len() - 1] == keys.last());
    }
}

/// "Stop all" names each instance it stops by the key it is stored under;
/// such an instance has a configuration and runs, and the request kills its
/// process.
pub proof fn law_stop_requests_name_keys(m: Map<u128, InstanceView>, keys: Seq<u128>)
    requires
        lists_in_order(keys, m.dom()),
    ensures
        forall|i: int|
            #![trigger stop_requests(m, keys)[i]]
            0 <= i < stop_requests(m, keys).len() ==> {
                let id = stop_requests(m, keys)[i].0;
                &&& m.dom().contains(id)
                &&& m[id].path.len() > 0
                &&& m[id].running
                &&& stop_requests(m, keys)[i].1 == match m[id].cmd {
                    Some(p) => ActionView::Kill(p),
                    None => ActionView::Nothing,
                }
            },
{
    lemma_stop_requests(m, keys);
    assert forall|i: int| 0 <= i < stop_requests(m, keys).len() implies m.dom().contains(
        #[trigger] stop_requests(m, keys)[i].0,
    ) by {
        assert(keys.to_set().contains(stop_requests(m, keys)[i].0));
    }
}

/// The number that a string of decimal digits denotes.
pub open spec fn read_decimal(s: Seq<char>) -> int
    decreases s.len(),
{
    if s.len() == 0 {
        0
    } else {
        read_decimal(s.drop_last()) * 10 + ((s.last() as int) - 48)
    }
}

/// Each digit character is the ASCII digit of its value.
pub proof fn law_digit_char_is_ascii_digit(d: nat)
    requires
        d < 10,
    ensures
        digit_char(d) as int == 48 + d,
{
}

/// The decimal text of `n` consists of ASCII digits, starts with a non-zero
/// digit unless `n` is 0, and reads back as `n`.
pub proof fn law_decimal_reads_back(n: nat)
    ensures
        read_decimal(decimal(n)) == n,
        decimal(n).len() >= 1,
        forall|i: int|
            0 <= i < decimal(n).len() ==> 48 <= #[trigger] (decimal(n)[i] as int) <= 57,
        n > 0 ==> decimal(n)[0] != '0',
    decreases n,
{
    law_digit_char_is_ascii_digit(n % 10);
    if n < 10 {
        let s = decimal(n);
        assert(s.drop_last() =~= Seq::<char>::empty());
        assert(read_decimal(s.drop_last()) == 0);
        assert(s.last() == digit_char(n));
        assert(read_decimal(s) == (digit_char(n) as int) - 48);
    } else {
        law_decimal_reads_back(n / 10);
        let a = decimal(n / 10);
        let s = decimal(n);
        assert(s.drop_last() =~= a);
        assert(s.last() == digit_char(n % 10));
        assert(forall|i: int| 0 <= i < a.len() ==> s[i] == a[i]);
        assert((n / 10) * 10 + n % 10 == n);
        assert(read_decimal(s) == read_decimal(a) * 10 + ((digit_char(n % 10) as int) - 48));
    }
}

/// `true` and `false` print as such.
pub proof fn law_bool_text(b: bool)
    ensures
        bool_text(b) == (if b { "true"@ } else { "false"@ }),
{
    reveal_strlit("true");
    reveal_strlit("false");
    assert(bool_text(true) =~= "true"@);
    assert(bool_text(false) =~= "false"@);
}

/// A configured tab's status line gives its path and whether its client
/// runs (its `running` flag, printed as `true` or `false`); its run / stop
/// button reads `Stop` exactly when the client runs.
pub proof fn law_status_shows_running(ins: InstanceView, order: nat)
    requires
        ins.path.len() > 0,
    ensures
        tab_status(ins, order) == "Path: "@ + ins.path + ". Running: "@ + (if ins.running {
            "true"@
        } else {
            "false"@
        }),
        config_tab_status(ins) == "Path: "@ + ins.path + ". Running: "@ + (if ins.running {
            "true"@
        } else {
            "false"@
        }),
        toggle_label(ins) == Some(if ins.running { "Stop"@ } else { "Run"@ }),
        config_tab_toggle(ins) == (if ins.running { "Stop"@ } else { "Run"@ }),
        select_label(ins) == "Re-Select"@,
        remove_label(ins, order) == Some("Remove Config #"@ + decimal(order)),
{
    law_bool_text(ins.running);
}

/// A tab without configuration asks for one, and its number is the one
/// given, in decimal.
pub proof fn law_empty_tab_texts(ins: InstanceView, order: nat)
    requires
        ins.path.len() == 0,
    ensures
        tab_status(ins, order) == "[#"@ + decimal(order) + "] Please specify your config."@,
        config_tab_status(ins) == "Please specify your config."@,
        select_label(ins) == "Select"@,
        remove_label(ins, order) is None,
        toggle_label(ins) is None,
        read_decimal(tab_title(order).drop_first()) == order,
        read_decimal(config_tab_title(order).skip(8)) == order,
{
    law_decimal_reads_back(order);
    reveal_strlit("#");
    reveal_strlit("Config #");
    assert(tab_title(order).drop_first() =~= decimal(order));
    assert(config_tab_title(order).skip(8) =~= decimal(order));
}

/// The client command hands the configuration path over unchanged, as the
/// argument after `-c`, and runs the binary built for the operating system.
pub proof fn law_client_command_passes_path(os: Seq<char>, path: Seq<char>)
    ensures
        client_command(os, path).args == seq!["-c"@, path],
        client_command(os, path).args.len() == 2,
        client_command(os, path).args[1] == path,
        client_command(os, path).program == client_binary(os),
        client_command(os, path).hide_console <==> os == "windows"@,
        os == "windows"@ ==> client_binary(os) == "./client_windows_amd64.exe"@,
        os == "macos"@ ==> client_binary(os) == "./client_darwin_amd64"@,
        os != "windows"@ && os != "macos"@ ==> client_binary(os) == "./client_linux_amd64"@,
{
    reveal_strlit("windows");
    reveal_strlit("macos");
    assert("macos"@ != "windows"@) by {
        assert("macos"@.len() != "windows"@.len());
    }
}


proof fn lemma_kill_pids(m: Map<u128, InstanceView>, keys: Seq<u128>)
    ensures
        forall|i: int|
            #![trigger kill_pids(m, keys)[i]]
            0 <= i < kill_pids(m, keys).len() ==> exists|j: int|
                0 <= j < keys.len() && m[#[trigger] keys[j]].cmd == Some(kill_pids(m, keys)[i]),
        forall|j: int|
            0 <= j < keys.len() && #[trigger] m[keys[j]].cmd is Some ==> kill_pids(m, keys).contains(
                m[keys[j]].cmd->0,
            ),
    decreases keys.len(),
{
    if keys.len() > 0 {
        let k0 = keys.drop_last();
        lemma_kill_pids(m, k0);
        let r = kill_pids(m, keys);
        let r0 = kill_pids(m, k0);
        assert forall|i: int| #![trigger r[i]] 0 <= i < r.len() implies exists|j: int|
            0 <= j < keys.len() && m[#[trigger] keys[j]].cmd == Some(r[i]) by {
            if i < r0.len() {
                assert(r[i] == r0[i]);
                let j = choose|j: int| 0 <= j < k0.len() && m[#[trigger] k0[j]].cmd == Some(r0[i]);
                assert(keys[j] == k0[j]);
            } else {
                assert(m[keys[keys.len() - 1]].cmd == Some(r[i]));
            }
        }
        assert forall|j: int|
            0 <= j < keys.len() && #[trigger] m[keys[j]].cmd is Some implies r.contains(
                m[keys[j]].cmd->0,
            ) by {
            if j < keys.len() - 1 {
                assert(k0[j] == keys[j]);
                assert(m[k0[j]].cmd is Some);
                let t = choose|t: int| 0 <= t < r0.len() && r0[t] == m[k0[j]].cmd->0;
                assert(r[t] == r0[t]);
            } else {
                assert(r[r.len() - 1] == m[keys[j]].cmd->0);
            }
        }
    }
}

/// Stopping every instance kills exactly the processes the instances hold:
/// every id returned is held by an instance, and every held process is
/// among them.
pub proof fn law_kill_all_kills_held_processes(m: Map<u128, InstanceView>, keys: Seq<u128>)
    requires
        lists_in_order(keys, m.dom()),
    ensures
        forall|i: int|
            #![trigger kill_pids(m, keys)[i]]
            0 <= i < kill_pids(m, keys).len() ==> exists|k: u128|
                m.dom().contains(k) && #[trigger] m[k].cmd == Some(kill_pids(m, keys)[i]),
        forall|k: u128|
            m.dom().contains(k) && #[trigger] m[k].cmd is Some ==> kill_pids(m, keys).contains(
                m[k].cmd->0,
            ),
{
    lemma_kill_pids(m, keys);
    assert forall|i: int| #![trigger kill_pids(m, keys)[i]] 0 <= i < kill_pids(m, keys).len() implies exists|k: u128|
        m.dom().contains(k) && #[trigger] m[k].cmd == Some(kill_pids(m, keys)[i]) by {
        let j = choose|j: int| 0 <= j < keys.len() && m[#[trigger] keys[j]].cmd == Some(kill_pids(m, keys)[i]);
        assert(keys.to_set().contains(keys[j]));
    }
    assert forall|k: u128| m.dom().contains(k) && #[trigger] m[k].cmd is Some implies kill_pids(
        m,
        keys,
    ).contains(m[k].cmd->0) by {
        assert(keys.to_set().contains(k));
        let j = choose|j: int| 0 <= j < keys.len() && keys[j] == k;
        assert(m[keys[j]].cmd is Some);
    }
}

/// What stopping, starting and reporting a start do to an instance, field
/// by field.
pub proof fn law_instance_steps(ins: InstanceView, os: Seq<char>, pid: Option<u32>)
    ensures
        ins.stopped().uid == ins.uid && ins.stopped().path == ins.path,
        !ins.stopped().running && !ins.stopped().starting && ins.stopped().cmd is None,
        ins.stopped().logs.len() == 0,
        ins.kill_action() == (match ins.cmd {
            Some(p) => ActionView::Kill(p),
            None => ActionView::Nothing,
        }),
        !ins.running && !ins.starting ==> ins.run_action(os) == ActionView::Spawn(
            client_command(os, ins.path),
        ) && ins.after_run() == (InstanceView { starting: true, ..ins }),
        ins.running || ins.starting ==> ins.run_action(os) == ActionView::Nothing
            && ins.after_run() == ins,
        ins.starting && pid is Some ==> ins.after_spawn(pid) == (InstanceView {
            running: true,
            starting: false,
            cmd: pid,
            ..ins
        }) && ins.spawn_action(pid) == ActionView::Nothing,
        ins.starting && pid is None ==> ins.after_spawn(pid) == (InstanceView {
            starting: false,
            ..ins
        }) && ins.spawn_action(pid) == ActionView::Nothing,
        !ins.starting ==> ins.after_spawn(pid) == ins && ins.spawn_action(pid) == (match pid {
            Some(p) => ActionView::Kill(p),
            None => ActionView::Nothing,
        }),
{
}


/// The value of a lower-case hexadecimal digit.
pub open spec fn hex_value(c: char) -> int {
    if (c as int) <= 57 {
        (c as int) - 48
    } else {
        (c as int) - 87
    }
}

/// The number that a string of hexadecimal digits denotes.
pub open spec fn read_hex(s: Seq<char>) -> int
    decreases s.len(),
{
    if s.len() == 0 {
        0
    } else {
        read_hex(s.drop_last()) * 16 + hex_value(s.last())
    }
}

/// Where the `i`-th hexadecimal digit stands in the hyphenated form.
pub open spec fn digit_position(i: int) -> int {
    if i < 8 {
        i
    } else if i < 12 {
        i + 1
    } else if i < 16 {
        i + 2
    } else if i < 20 {
        i + 3
    } else {
        i + 4
    }
}

/// The hexadecimal digits of the hyphenated form, without the hyphens.
pub open spec fn hyphenated_digits(u: u128) -> Seq<char> {
    Seq::new(32, |i: int| hyphenated(u)[digit_position(i)])
}

proof fn lemma_nibble_small(u: u128, sh: u128)
    by (bit_vector)
    ensures
        (u >> sh) & 0xfu128 < 16,
{
}

proof fn lemma_top_nibble(u: u128)
    by (bit_vector)
    ensures
        (u >> 124u128) & 0xfu128 == u >> 124u128,
{
}

proof fn lemma_nibble_step(u: u128, s: u128)
    by (bit_vector)
    requires
        s <= 120,
    ensures
        (u >> (s + 4)) * 16 + ((u >> s) & 0xfu128) == u >> s,
{
}

proof fn lemma_hex_prefix(u: u128, k: int)
    requires
        1 <= k <= 32,
    ensures
        read_hex(hyphenated_digits(u).take(k)) == u >> ((32 - k) * 4) as u128,
    decreases k,
{
    let d = hyphenated_digits(u);
    assert(d[k - 1] == hex_digit(nibble(u, k - 1)));
    let v = nibble(u, k - 1);
    lemma_nibble_small(u, ((31 - (k - 1)) * 4) as u128);
    assert(hex_value(hex_digit(v)) == v);
    assert(d.take(k).drop_last() =~= d.take(k - 1));
    assert(d.take(k).last() == d[k - 1]);
    assert(read_hex(d.take(k)) == read_hex(d.take(k - 1)) * 16 + v);
    if k == 1 {
        assert(d.take(0) =~= Seq::<char>::empty());
        assert(read_hex(d.take(0)) == 0);
        lemma_top_nibble(u);
        assert(v == (u >> 124u128) & 0xfu128);
    } else {
        lemma_hex_prefix(u, k - 1);
        let s = ((32 - k) * 4) as u128;
        lemma_nibble_step(u, s);
        assert(((32 - (k - 1)) * 4) as u128 == s + 4);
        assert(v == (u >> s) & 0xfu128);
    }
}

/// The text of an identifier is the hyphenated `8-4-4-4-12` form of 36
/// characters whose 32 lower-case hexadecimal digits read back as the
/// identifier.
pub proof fn law_uid_text_reads_back(u: u128)
    ensures
        hyphenated(u).len() == 36,
        hyphenated(u)[8] == '-' && hyphenated(u)[13] == '-' && hyphenated(u)[18] == '-'
            && hyphenated(u)[23] == '-',
        forall|i: int|
            0 <= i < 32 ==> {
                let c = #[trigger] hyphenated_digits(u)[i];
                (48 <= (c as int) <= 57) || (97 <= (c as int) <= 102)
            },
        read_hex(hyphenated_digits(u)) == u,
{
    assert forall|i: int| 0 <= i < 32 implies #[trigger] hyphenated_digits(u)[i] == hex_digit(
        nibble(u, i),
    ) && nibble(u, i) < 16 by {
        lemma_nibble_small(u, ((31 - i) * 4) as u128);
    }
    lemma_hex_prefix(u, 32);
    assert(hyphenated_digits(u).take(32) =~= hyphenated_digits(u));
    assert(u >> 0u128 == u) by (bit_vector);
}


/// "Start all" starts an instance exactly when it has a configuration and
/// neither runs nor is being started; "stop all" stops one exactly when it
/// has a configuration and runs. A new instance has no configuration and
/// holds nothing.
pub proof fn law_batch_conditions(ins: InstanceView, uid: u128)
    ensures
        started_by_start_all(ins) == (ins.path.len() > 0 && !ins.running && !ins.starting),
        stopped_by_stop_all(ins) == (ins.path.len() > 0 && ins.running),
        fresh_instance(uid).uid == uid,
        fresh_instance(uid).path.len() == 0,
        !fresh_instance(uid).running && !fresh_instance(uid).starting,
        fresh_instance(uid).cmd is None && fresh_instance(uid).logs.len() == 0,
{
}

/// A listing in order goes through the set in strictly increasing order and
/// lists each of its elements.
pub proof fn law_lists_in_order_increasing(keys: Seq<u128>, dom: Set<u128>)
    requires
        lists_in_order(keys, dom),
    ensures
        forall|i: int, j: int| 0 <= i < j < keys.len() ==> keys[i] < keys[j],
        forall|k: u128| dom.contains(k) <==> keys.contains(k),
{
    assert forall|k: u128| dom.contains(k) <==> keys.contains(k) by {
        if keys.contains(k) {
            assert(keys.to_set().contains(k));
        }
    }
}

/// Saving keeps every non-empty path as often as it occurs and drops the
/// empty ones.
pub proof fn law_nonempty_paths_counts(s: Seq<Seq<char>>)
    ensures
        forall|p: Seq<char>|
            #![trigger nonempty_paths(s).to_multiset().count(p)]
            p.len() > 0 ==> nonempty_paths(s).to_multiset().count(p) == s.to_multiset().count(p),
        nonempty_paths(s).to_multiset().count(Seq::<char>::empty()) == 0,
    decreases s.len(),
{
    if s.len() > 0 {
        law_nonempty_paths_counts(s.drop_last());
        assert(s =~= s.drop_last().push(s.last()));
    }
}


/// Adding a tab under a key that no tab uses (as "Add Config" does) makes
/// one tab more and keeps every other tab as it was.
pub proof fn law_add_tab_grows(m: Map<u128, InstanceView>, key: u128, uid: u128)
    requires
        m.dom().finite(),
        !m.dom().contains(key),
    ensures
        m.insert(key, fresh_instance(uid)).dom().len() == m.dom().len() + 1,
        forall|k: u128|
            #[trigger] m.dom().contains(k) ==> m.insert(key, fresh_instance(uid))[k] == m[k],
        m.insert(key, fresh_instance(uid))[key] == fresh_instance(uid),
{
    assert(m.insert(key, fresh_instance(uid)).dom() =~= m.dom().insert(key));
}

} // verus!
