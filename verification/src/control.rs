//! What the main window does with all instances at once: start or stop
//! them together, add a tab, remove one.

use crate::instance::{fresh_instance, Action, ActionView, Instance, InstanceView};
use crate::settings::{lemma_increasing_key_refs, lists_in_order, State, StateView};
use vstd::std_specs::iter::IteratorSpec;
use crate::uid::{is_random_uuid, new_uid, new_uid_not_in};
use vstd::prelude::*;

verus! {

/// The requests to start the client of every instance, in the order `keys`,
/// that has a configuration and is not running.
pub open spec fn start_requests(m: Map<u128, InstanceView>, keys: Seq<u128>, os: Seq<char>) -> Seq<
    (u128, ActionView),
>
    decreases keys.len(),
{
    if keys.len() == 0 {
        Seq::empty()
    } else {
        let rest = start_requests(m, keys.drop_last(), os);
        let k = keys.last();
        if started_by_start_all(m[k]) {
            rest.push((k, m[k].run_action(os)))
        } else {
            rest
        }
    }
}

/// Whether "start all" starts this instance: it has a configuration, does
/// not run and is not being started.
pub open spec fn started_by_start_all(ins: InstanceView) -> bool {
    ins.path.len() > 0 && ins.can_start()
}

/// The instances after "start all": a start is pending for each it starts.
pub open spec fn after_start_all(m: Map<u128, InstanceView>) -> Map<u128, InstanceView> {
    m.map_values(|i: InstanceView| if started_by_start_all(i) { i.after_run() } else { i })
}

/// Whether "stop all" stops this instance: it has a configuration and runs.
pub open spec fn stopped_by_stop_all(ins: InstanceView) -> bool {
    ins.path.len() > 0 && ins.running
}

/// The requests to kill the client of every instance, in the order `keys`,
/// that "stop all" stops.
pub open spec fn stop_requests(m: Map<u128, InstanceView>, keys: Seq<u128>) -> Seq<
    (u128, ActionView),
>
    decreases keys.len(),
{
    if keys.len() == 0 {
        Seq::empty()
    } else {
        let rest = stop_requests(m, keys.drop_last());
        let k = keys.last();
        if stopped_by_stop_all(m[k]) {
            rest.push((k, m[k].kill_action()))
        } else {
            rest
        }
    }
}

/// The process ids that stopping every instance, in the order `keys`, kills.
pub open spec fn kill_pids(m: Map<u128, InstanceView>, keys: Seq<u128>) -> Seq<u32>
    decreases keys.len(),
{
    if keys.len() == 0 {
        Seq::empty()
    } else {
        let rest = kill_pids(m, keys.drop_last());
        match m[keys.last()].cmd {
            Some(p) => rest.push(p),
            None => rest,
        }
    }
}

pub open spec fn requests_view(r: Seq<(u128, Action)>) -> Seq<(u128, ActionView)> {
    r.map_values(|p: (u128, Action)| (p.0, p.1@))
}

impl State {
    /// The identifiers of all instances, in increasing order.
    pub fn config_keys(&self) -> (keys: Vec<u128>)
        ensures
            lists_in_order(keys@, self@.configs.dom()),
    {
        let ghost m = self.configs@;
        let iter = self.configs.keys();
        let ghost init = IteratorSpec::remaining(&iter);
        proof {
            vstd::std_specs::btree::axiom_spec_keys_iter(&self.configs);
        }
        let mut keys: Vec<u128> = Vec::new();
        for k in it: iter
            invariant
                it.seq() == init,
                keys@ == init.take(it.index() as int).map_values(|r: &u128| *r),
        {
            assert(keys@.push(*k) =~= init.take(it.index() + 1).map_values(|r: &u128| *r));
            keys.push(*k);
        }
        proof {
            assert(init.take(init.len() as int) =~= init);
            assert(init.unref() =~= keys@);
            lemma_increasing_key_refs(init);
            assert(self@.configs.dom() =~= m.dom());
        }
        keys
    }
}


impl State {
    /// Takes the instance with identifier `k` out of the map.
    fn take_instance(&mut self, k: u128) -> (ins: Instance)
        requires
            old(self)@.configs.dom().contains(k),
        ensures
            ins@ == old(self)@.configs[k],
            final(self)@.configs == old(self)@.configs.remove(k),
            final(self).auto_launch_kcptun == old(self).auto_launch_kcptun,
            final(self).silent_start == old(self).silent_start,
    {
        let removed = self.configs.remove(&k);
        assert(self@.configs =~= old(self)@.configs.remove(k));
        match removed {
            Some(ins) => ins,
            None => Instance::from_uid(k),
        }
    }

    /// Puts `ins` into the map under identifier `k`.
    fn put_instance(&mut self, k: u128, ins: Instance)
        ensures
            final(self)@.configs == old(self)@.configs.insert(k, ins@),
            final(self).auto_launch_kcptun == old(self).auto_launch_kcptun,
            final(self).silent_start == old(self).silent_start,
    {
        let ghost v = ins@;
        self.configs.insert(k, ins);
        assert(self@.configs =~= old(self)@.configs.insert(k, v));
    }

    /// Stops every instance's client (as [`Instance::kill`] does), and
    /// returns the ids of the processes to kill, in increasing order of the
    /// instances' identifiers.
    pub fn kill_all(&mut self) -> (pids: Vec<u32>)
        ensures
            final(self)@.configs == old(self)@.configs.map_values(|i: InstanceView| i.stopped()),
            final(self)@.auto_launch_kcptun == old(self)@.auto_launch_kcptun,
            final(self)@.silent_start == old(self)@.silent_start,
            exists|keys: Seq<u128>|
                lists_in_order(keys, old(self)@.configs.dom()) && pids@ == kill_pids(
                    old(self)@.configs,
                    keys,
                ),
    {
        let ghost m0 = self@.configs;
        let keys = self.config_keys();
        let mut pids: Vec<u32> = Vec::new();
        let n = keys.len();
        for i in 0..n
            invariant
                n == keys.len(),
                lists_in_order(keys@, m0.dom()),
                self@.configs.dom() == m0.dom(),
                forall|j: int| 0 <= j < i ==> self@.configs[#[trigger] keys@[j]] == m0[keys@[j]].stopped(),
                forall|j: int| i <= j < n ==> self@.configs[#[trigger] keys@[j]] == m0[keys@[j]],
                pids@ == kill_pids(m0, keys@.take(i as int)),
                self.auto_launch_kcptun == old(self).auto_launch_kcptun,
                self.silent_start == old(self).silent_start,
        {
            let k = keys[i];
            assert(keys@.to_set().contains(k));
            let mut ins = self.take_instance(k);
            let action = ins.kill();
            assert(keys@.take(i + 1).drop_last() =~= keys@.take(i as int));
            match action {
                Action::Kill(p) => pids.push(p),
                Action::Nothing => {},
                Action::Spawn(_) => {},
            }
            self.put_instance(k, ins);
            assert forall|j: int| 0 <= j < n && j != i implies keys@[j] != k by {}
            assert(self@.configs.dom() =~= m0.dom());
        }
        proof {
            assert(keys@.take(n as int) =~= keys@);
            assert forall|k: u128| #[trigger] self@.configs.dom().contains(k) implies self@.configs[k]
                == m0[k].stopped() by {
                assert(keys@.to_set().contains(k));
                let j = choose|j: int| 0 <= j < keys@.len() && keys@[j] == k;
                assert(self@.configs[keys@[j]] == m0[keys@[j]].stopped());
            }
            assert(self@.configs =~= m0.map_values(|i: InstanceView| i.stopped()));
        }
        pids
    }

    /// Starts the client of every instance that has a configuration and
    /// neither runs nor is being started; returns the requests, in increasing
    /// order of identifier.
    fn start_all(&mut self, os: &str) -> (requests: Vec<(u128, Action)>)
        ensures
            final(self)@.configs == after_start_all(old(self)@.configs),
            final(self)@.auto_launch_kcptun == old(self)@.auto_launch_kcptun,
            final(self)@.silent_start == old(self)@.silent_start,
            exists|keys: Seq<u128>|
                lists_in_order(keys, old(self)@.configs.dom()) && requests_view(requests@)
                    == start_requests(old(self)@.configs, keys, os@),
    {
        let ghost m0 = self@.configs;
        let ghost f = |i: InstanceView| if started_by_start_all(i) { i.after_run() } else { i };
        let keys = self.config_keys();
        let mut requests: Vec<(u128, Action)> = Vec::new();
        let n = keys.len();
        for i in 0..n
            invariant
                n == keys.len(),
                f == (|i: InstanceView| if started_by_start_all(i) { i.after_run() } else { i }),
                lists_in_order(keys@, m0.dom()),
                self@.configs.dom() == m0.dom(),
                forall|j: int| 0 <= j < i ==> self@.configs[#[trigger] keys@[j]] == f(m0[keys@[j]]),
                forall|j: int| i <= j < n ==> self@.configs[#[trigger] keys@[j]] == m0[keys@[j]],
                requests_view(requests@) == start_requests(m0, keys@.take(i as int), os@),
                self.auto_launch_kcptun == old(self).auto_launch_kcptun,
                self.silent_start == old(self).silent_start,
        {
            let k = keys[i];
            assert(keys@.to_set().contains(k));
            assert(keys@.take(i + 1).drop_last() =~= keys@.take(i as int));
            let ghost before = requests_view(requests@);
            let mut ins = self.take_instance(k);
            if !ins.path.as_str().is_empty() && !ins.running && !ins.starting {
                let action = ins.run(os);
                requests.push((k, action));
                assert(requests_view(requests@) =~= before.push((k, m0[k].run_action(os@))));
            }
            self.put_instance(k, ins);
            assert forall|j: int| 0 <= j < n && j != i implies keys@[j] != k by {}
            assert(self@.configs.dom() =~= m0.dom());
        }
        proof {
            assert(keys@.take(n as int) =~= keys@);
            assert forall|k: u128| #[trigger] self@.configs.dom().contains(k) implies self@.configs[k]
                == f(m0[k]) by {
                assert(keys@.to_set().contains(k));
                let j = choose|j: int| 0 <= j < keys@.len() && keys@[j] == k;
                assert(self@.configs[keys@[j]] == f(m0[keys@[j]]));
            }
            assert(self@.configs =~= m0.map_values(f));
        }
        requests
    }

    /// What the main window's "Start ALL" (`enable`) and "Stop ALL" buttons
    /// do: start the client of every instance with a configuration that is not
    /// running, or stop every instance with a configuration that runs. The
    /// requests are paired with the instances' identifiers, in increasing
    /// order of identifier.
    pub fn batch_control(&mut self, enable: bool, os: &str) -> (requests: Vec<(u128, Action)>)
        ensures
            enable ==> {
                &&& final(self)@.configs == after_start_all(old(self)@.configs)
                &&& final(self)@.auto_launch_kcptun == old(self)@.auto_launch_kcptun
                &&& final(self)@.silent_start == old(self)@.silent_start
                &&& exists|keys: Seq<u128>|
                    lists_in_order(keys, old(self)@.configs.dom()) && requests_view(requests@)
                        == start_requests(old(self)@.configs, keys, os@)
            },
            !enable ==> {
                &&& final(self)@.configs == old(self)@.configs.map_values(
                    |i: InstanceView| if stopped_by_stop_all(i) { i.stopped() } else { i },
                )
                &&& final(self)@.auto_launch_kcptun == old(self)@.auto_launch_kcptun
                &&& final(self)@.silent_start == old(self)@.silent_start
                &&& exists|keys: Seq<u128>|
                    lists_in_order(keys, old(self)@.configs.dom()) && requests_view(requests@)
                        == stop_requests(old(self)@.configs, keys)
            },
            !enable ==> forall|k: u128| #[trigger]
                final(self)@.configs.dom().contains(k) ==> !stopped_by_stop_all(final(self)@.configs[k]),
    {
        if enable {
            return self.start_all(os);
        }
        let ghost m0 = self@.configs;
        let ghost f = |i: InstanceView| if stopped_by_stop_all(i) { i.stopped() } else { i };
        let keys = self.config_keys();
        let mut requests: Vec<(u128, Action)> = Vec::new();
        let n = keys.len();
        for i in 0..n
            invariant
                n == keys.len(),
                f == (|i: InstanceView| if stopped_by_stop_all(i) { i.stopped() } else { i }),
                lists_in_order(keys@, m0.dom()),
                self@.configs.dom() == m0.dom(),
                forall|j: int| 0 <= j < i ==> self@.configs[#[trigger] keys@[j]] == f(m0[keys@[j]]),
                forall|j: int| i <= j < n ==> self@.configs[#[trigger] keys@[j]] == m0[keys@[j]],
                requests_view(requests@) == stop_requests(m0, keys@.take(i as int)),
                self.auto_launch_kcptun == old(self).auto_launch_kcptun,
                self.silent_start == old(self).silent_start,
        {
            let k = keys[i];
            assert(keys@.to_set().contains(k));
            assert(keys@.take(i + 1).drop_last() =~= keys@.take(i as int));
            let ghost before = requests_view(requests@);
            let mut ins = self.take_instance(k);
            if !ins.path.as_str().is_empty() && ins.running {
                let action = ins.kill();
                requests.push((k, action));
                assert(requests_view(requests@) =~= before.push((k, m0[k].kill_action())));
            }
            self.put_instance(k, ins);
            assert forall|j: int| 0 <= j < n && j != i implies keys@[j] != k by {}
            assert(self@.configs.dom() =~= m0.dom());
        }
        proof {
            assert(keys@.take(n as int) =~= keys@);
            assert forall|k: u128| #[trigger] self@.configs.dom().contains(k) implies self@.configs[k]
                == f(m0[k]) by {
                assert(keys@.to_set().contains(k));
                let j = choose|j: int| 0 <= j < keys@.len() && keys@[j] == k;
                assert(self@.configs[keys@[j]] == f(m0[keys@[j]]));
            }
            assert(self@.configs =~= m0.map_values(f));
        }
        requests
    }

    /// What happens when the application starts: when the settings ask for
    /// it, the client of every instance with a configuration is started.
    pub fn auto_launch(&mut self, os: &str) -> (requests: Vec<(u128, Action)>)
        ensures
            !old(self)@.auto_launch_kcptun ==> requests@.len() == 0 && final(self)@ == old(self)@,
            old(self)@.auto_launch_kcptun ==> {
                &&& final(self)@.configs == after_start_all(old(self)@.configs)
                &&& final(self)@.auto_launch_kcptun == old(self)@.auto_launch_kcptun
                &&& final(self)@.silent_start == old(self)@.silent_start
                &&& exists|keys: Seq<u128>|
                    lists_in_order(keys, old(self)@.configs.dom()) && requests_view(requests@)
                        == start_requests(old(self)@.configs, keys, os@)
            },
    {
        if !self.auto_launch_kcptun {
            return Vec::new();
        }
        self.start_all(os)
    }

    /// Adds a tab: a new instance stored under identifier `key`, whose own
    /// identifier is `uid`.
    pub fn add_config_with(&mut self, key: u128, uid: u128)
        ensures
            final(self)@ == (StateView {
                configs: old(self)@.configs.insert(key, fresh_instance(uid)),
                ..old(self)@
            }),
    {
        self.put_instance(key, Instance::from_uid(uid));
    }

    /// The main window's "Add Config" button: adds a new instance under a
    /// random identifier that no tab uses yet (the instance itself carries
    /// another random one), so there is one tab more. (The bound on the
    /// number of tabs is one no map in memory reaches.)
    pub fn add_config(&mut self)
        ensures
            exists|key: u128, uid: u128|
                #![trigger old(self)@.configs.insert(key, fresh_instance(uid))]
                is_random_uuid(key) && is_random_uuid(uid) && final(self)@ == (StateView {
                    configs: old(self)@.configs.insert(key, fresh_instance(uid)),
                    ..old(self)@
                }) && (old(self)@.configs.dom().len() < 0x4000_0000_0000_0000 ==> !old(
                    self,
                )@.configs.dom().contains(key)),
            old(self)@.configs.dom().len() < 0x4000_0000_0000_0000 ==> final(self)@.configs.dom().len()
                == old(self)@.configs.dom().len() + 1,
    {
        let keys = self.config_keys();
        let ghost dom = old(self)@.configs.dom();
        proof {
            assert(keys@.no_duplicates()) by {
                assert forall|i: int, j: int|
                    0 <= i < keys@.len() && 0 <= j < keys@.len() && i != j implies keys@[i]
                    != keys@[j] by {
                    if i < j {
                        assert(keys@[i] < keys@[j]);
                    } else {
                        assert(keys@[j] < keys@[i]);
                    }
                }
            }
            keys@.unique_seq_to_set();
        }
        let key = if (keys.len() as u128) < 0x4000_0000_0000_0000u128 {
            let k = new_uid_not_in(&keys);
            proof {
                if dom.contains(k) {
                    assert(keys@.to_set().contains(k));
                }
            }
            k
        } else {
            new_uid()
        };
        proof {
            if dom.len() < 0x4000_0000_0000_0000 {
                assert(dom.insert(key).len() == dom.len() + 1);
                assert(old(self)@.configs.insert(key, fresh_instance(0)).dom() =~= dom.insert(key));
            }
        }
        let uid = new_uid();
        self.add_config_with(key, uid);
    }

    /// Removes the tab stored under `k`; the last tab is not removed but
    /// replaced by a new instance with identifier `uid`.
    pub fn remove_config_with(&mut self, k: u128, uid: u128)
        requires
            old(self)@.configs.dom().len() == 1 ==> old(self)@.configs.dom().contains(k),
        ensures
            old(self)@.configs.dom().len() == 1 ==> final(self)@ == (StateView {
                configs: old(self)@.configs.insert(k, fresh_instance(uid)),
                ..old(self)@
            }),
            old(self)@.configs.dom().len() != 1 ==> final(self)@ == (StateView {
                configs: old(self)@.configs.remove(k),
                ..old(self)@
            }),
            old(self)@.configs.dom().len() >= 1 ==> final(self)@.configs.dom().len() >= 1,
    {
        assert(self@.configs.dom() =~= self.configs@.dom());
        if self.configs.len() == 1 {
            self.put_instance(k, Instance::from_uid(uid));
        } else {
            self.configs.remove(&k);
            assert(self@.configs =~= old(self)@.configs.remove(k));
        }
    }

    /// Removes the tab stored under `k` (see [`State::remove_config_with`]);
    /// a replacing instance gets a random identifier.
    pub fn remove_config(&mut self, k: u128)
        requires
            old(self)@.configs.dom().len() == 1 ==> old(self)@.configs.dom().contains(k),
        ensures
            old(self)@.configs.dom().len() == 1 ==> exists|uid: u128|
                #![trigger fresh_instance(uid)]
                is_random_uuid(uid) && final(self)@ == (StateView {
                    configs: old(self)@.configs.insert(k, fresh_instance(uid)),
                    ..old(self)@
                }),
            old(self)@.configs.dom().len() != 1 ==> final(self)@ == (StateView {
                configs: old(self)@.configs.remove(k),
                ..old(self)@
            }),
    {
        let uid = new_uid();
        self.remove_config_with(k, uid);
    }
}

} // verus!
