//! The whole configuration file, and the construction of the unit
//! table from its `[[units]]` blocks.

use vstd::prelude::*;

use crate::config::application::Application;
use crate::config::rpc_server::RpcServer;
use crate::config::unit as config_unit;
use crate::graph;
use crate::unit;
use crate::unit::units_wf;

verus! {

/// The parsed configuration file.
#[derive(Debug)]
pub struct Configuration {
    pub application: Application,
    pub rpc_server: RpcServer,
    pub units: Vec<config_unit::Unit>,
}

/// The dependency names a block carries, with the default applied.
pub open spec fn spec_dep_names(cfg: config_unit::Unit) -> Seq<String> {
    match cfg.dependencies {
        Some(names) => names@,
        None => Seq::empty(),
    }
}

/// The first block index carrying this name, scanning from `from`.
pub open spec fn spec_resolve_from(
    cfgs: Seq<config_unit::Unit>,
    name: Seq<char>,
    from: int,
) -> Option<int>
    decreases cfgs.len() - from,
    when 0 <= from <= cfgs.len()
{
    if from >= cfgs.len() {
        None
    } else if cfgs[from].name@ == name {
        Some(from)
    } else {
        spec_resolve_from(cfgs, name, from + 1)
    }
}

/// The first block index carrying this name, if any.
pub open spec fn spec_resolve(cfgs: Seq<config_unit::Unit>, name: Seq<char>) -> Option<int> {
    spec_resolve_from(cfgs, name, 0)
}

/// The dependency edges the names wire to, in order, unknown names
/// skipped.
pub open spec fn spec_wired(cfgs: Seq<config_unit::Unit>, names: Seq<String>) -> Seq<usize>
    decreases names.len(),
{
    if names.len() == 0 {
        Seq::empty()
    } else {
        let rest = spec_wired(cfgs, names.drop_last());
        match spec_resolve(cfgs, names.last()@) {
            Some(j) => rest.push(j as usize),
            None => rest,
        }
    }
}

/// A resolved index is a block index.
pub proof fn lemma_resolve_range(cfgs: Seq<config_unit::Unit>, name: Seq<char>, from: int)
    requires
        0 <= from <= cfgs.len(),
    ensures
        spec_resolve_from(cfgs, name, from) matches Some(j) ==> from <= j < cfgs.len(),
    decreases cfgs.len() - from,
{
    if from < cfgs.len() && cfgs[from].name@ != name {
        lemma_resolve_range(cfgs, name, from + 1);
    }
}

/// Every wired edge is a block index.
pub proof fn lemma_wired_range(cfgs: Seq<config_unit::Unit>, names: Seq<String>)
    ensures
        forall|q: int|
            0 <= q < spec_wired(cfgs, names).len() ==> (#[trigger] spec_wired(cfgs, names)[
                q
            ] as int) < cfgs.len(),
    decreases names.len(),
{
    if names.len() > 0 {
        lemma_wired_range(cfgs, names.drop_last());
        lemma_resolve_range(cfgs, names.last()@, 0);
        assert forall|q: int|
            0 <= q < spec_wired(cfgs, names).len() implies (#[trigger] spec_wired(cfgs, names)[
            q
        ] as int) < cfgs.len() by {
            let rest = spec_wired(cfgs, names.drop_last());
            if q < rest.len() {
                assert(spec_wired(cfgs, names)[q] == rest[q]);
            }
        }
    }
}

/// The built unit carries what its block configured, defaults
/// applied; its dependency indices are wired separately.
pub open spec fn built_matches(u: unit::Unit, cfg: config_unit::Unit) -> bool {
    &&& u.name == cfg.name
    &&& u.process.executable == cfg.executable
    &&& (cfg.arguments matches Some(a) ==> u.process.arguments@ == a@)
    &&& (cfg.arguments is None ==> u.process.arguments@.len() == 0)
    &&& (cfg.restart_policy matches Some(p) ==> u.restart_policy == p)
    &&& (cfg.restart_policy is None ==> u.restart_policy is Always)
    &&& (cfg.enabled matches Some(e) ==> u.enabled == e)
    &&& (cfg.enabled is None ==> u.enabled)
    &&& u.state is Stopped
    &&& !u.spec_is_running()
    &&& u.wf()
}

/// The first block index carrying this name, as `spec_resolve`
/// reads it.
fn find_block_index(cfgs: &Vec<config_unit::Unit>, name: &String) -> (r: Option<usize>)
    ensures
        r matches Some(j) ==> j < cfgs@.len() && spec_resolve(cfgs@, name@) == Some(j as int),
        r is None ==> spec_resolve(cfgs@, name@) is None,
{
    let mut j: usize = 0;
    while j < cfgs.len()
        invariant
            0 <= j <= cfgs@.len(),
            spec_resolve(cfgs@, name@) == spec_resolve_from(cfgs@, name@, j as int),
        decreases cfgs@.len() - j,
    {
        if cfgs[j].name.eq(name) {
            return Some(j);
        }
        j = j + 1;
    }
    None
}

impl Configuration {
    pub fn get_application(&self) -> (r: &Application)
        ensures
            r == &self.application,
    {
        &self.application
    }

    pub fn get_rpc_server(&self) -> (r: &RpcServer)
        ensures
            r == &self.rpc_server,
    {
        &self.rpc_server
    }

    /// Builds the unit table: every block becomes a unit, in file
    /// order; each dependency name is resolved to the first block
    /// carrying it and becomes an index edge, unknown names are
    /// skipped; and a table whose dependency relation is cyclic is
    /// rejected outright, since the supervisor's bring-up is sound
    /// only on an acyclic relation.  The table is built exactly when
    /// the name-wired dependency graph is acyclic.
    #[verifier::rlimit(80)]
    #[verifier::spinoff_prover]
    pub fn build_units(&self) -> (r: Result<Vec<unit::Unit>, String>)
        ensures
            r matches Ok(units) ==> {
                &&& units@.len() == self.units@.len()
                &&& units_wf(units@)
                &&& graph::acyclic(units@)
                &&& forall|i: int|
                    0 <= i < units@.len() ==> built_matches(
                        #[trigger] units@[i],
                        self.units@[i],
                    )
                &&& forall|i: int|
                    0 <= i < units@.len() ==> #[trigger] units@[i].dependencies@ == spec_wired(
                        self.units@,
                        spec_dep_names(self.units@[i]),
                    )
                },
            r is Err ==> forall|w: Seq<unit::Unit>|
                (w.len() == self.units@.len() && (forall|i: int|
                    0 <= i < w.len() ==> #[trigger] w[i].dependencies@ == spec_wired(
                        self.units@,
                        spec_dep_names(self.units@[i]),
                    ))) ==> !graph::acyclic(w),
    {
        let n = self.units.len();
        let mut units: Vec<unit::Unit> = Vec::new();
        let mut i: usize = 0;
        while i < n
            invariant
                n == self.units@.len(),
                0 <= i <= n,
                units@.len() == i,
                forall|q: int|
                    0 <= q < i ==> built_matches(#[trigger] units@[q], self.units@[q]),
                forall|q: int| 0 <= q < i ==> #[trigger] units@[q].dependencies@.len() == 0,
            decreases n - i,
        {
            let built = self.units[i].build_ref();
            units.push(built);
            i = i + 1;
        }
        let mut i: usize = 0;
        while i < n
            invariant
                n == self.units@.len(),
                units@.len() == n,
                0 <= i <= n,
                forall|q: int|
                    0 <= q < n ==> built_matches(#[trigger] units@[q], self.units@[q]),
                graph::deps_in_range(units@),
                forall|q: int|
                    0 <= q < i ==> #[trigger] units@[q].dependencies@ == spec_wired(
                        self.units@,
                        spec_dep_names(self.units@[q]),
                    ),
                forall|q: int| i <= q < n ==> #[trigger] units@[q].dependencies@.len() == 0,
            decreases n - i,
        {
            let dep_names = self.units[i].get_dependencies();
            proof {
                assert(dep_names@ =~= spec_dep_names(self.units@[i as int]));
            }
            let mut k: usize = 0;
            while k < dep_names.len()
                invariant
                    n == self.units@.len(),
                    units@.len() == n,
                    0 <= i < n,
                    0 <= k <= dep_names@.len(),
                    dep_names@ == spec_dep_names(self.units@[i as int]),
                    forall|q: int|
                        0 <= q < n ==> built_matches(#[trigger] units@[q], self.units@[q]),
                    graph::deps_in_range(units@),
                    forall|q: int|
                        0 <= q < i ==> #[trigger] units@[q].dependencies@ == spec_wired(
                            self.units@,
                            spec_dep_names(self.units@[q]),
                        ),
                    forall|q: int| i < q < n ==> #[trigger] units@[q].dependencies@.len() == 0,
                    units@[i as int].dependencies@ == spec_wired(
                        self.units@,
                        dep_names@.take(k as int),
                    ),
                decreases dep_names@.len() - k,
            {
                let found = find_block_index(&self.units, &dep_names[k]);
                proof {
                    assert(dep_names@.take(k + 1).drop_last() =~= dep_names@.take(k as int));
                    assert(dep_names@.take(k + 1).last() == dep_names@[k as int]);
                }
                match found {
                    Some(j) => {
                        let ghost pre = units@;
                        {
                            let unit = &mut units[i];
                            unit.add_dependency(j);
                        }
                        proof {
                            assert forall|q: int|
                                0 <= q < n implies built_matches(
                                #[trigger] units@[q],
                                self.units@[q],
                            ) by {
                                if q != i as int {
                                    assert(units@[q] == pre[q]);
                                }
                            }
                            assert forall|q: int, kk: int|
                                0 <= q < n && 0 <= kk < units@[q].dependencies@.len() implies 0
                                <= #[trigger] graph::dep(units@, q, kk) < n by {
                                if q == i as int && kk == pre[q].dependencies@.len() {
                                    assert(graph::dep(units@, q, kk) == j as int);
                                } else {
                                    assert(units@[q].dependencies@[kk]
                                        == pre[q].dependencies@[kk]);
                                    assert(graph::dep(units@, q, kk) == graph::dep(pre, q, kk));
                                }
                            }
                            assert(units@[i as int].dependencies@ =~= spec_wired(
                                self.units@,
                                dep_names@.take(k + 1),
                            ));
                            assert forall|q: int|
                                0 <= q < i implies #[trigger] units@[q].dependencies@
                                == spec_wired(self.units@, spec_dep_names(self.units@[q])) by {
                                assert(units@[q] == pre[q]);
                            }
                            assert forall|q: int|
                                i < q < n implies #[trigger] units@[q].dependencies@.len()
                                == 0 by {
                                assert(units@[q] == pre[q]);
                            }
                        }
                    },
                    None => {
                        proof {
                            assert(units@[i as int].dependencies@ =~= spec_wired(
                                self.units@,
                                dep_names@.take(k + 1),
                            ));
                        }
                    },
                }
                k = k + 1;
            }
            proof {
                assert(dep_names@.take(dep_names@.len() as int) =~= dep_names@);
            }
            i = i + 1;
        }
        proof {
            assert forall|q: int| 0 <= q < units@.len() implies #[trigger] units@[q].wf() by {
                assert(built_matches(units@[q], self.units@[q]));
            }
            assert(units_wf(units@));
        }
        let checked = graph::check_acyclic(&units);
        match checked {
            Some(_ranks) => Ok(units),
            None => {
                proof {
                    assert forall|w: Seq<unit::Unit>|
                        (w.len() == self.units@.len() && (forall|q: int|
                            0 <= q < w.len() ==> #[trigger] w[q].dependencies@ == spec_wired(
                                self.units@,
                                spec_dep_names(self.units@[q]),
                            ))) implies !graph::acyclic(w) by {
                        if w.len() == self.units@.len() && (forall|q: int|
                            0 <= q < w.len() ==> #[trigger] w[q].dependencies@ == spec_wired(
                                self.units@,
                                spec_dep_names(self.units@[q]),
                            )) {
                            assert forall|q: int|
                                0 <= q < units@.len() implies units@[q].dependencies@ == #[trigger] w[
                                q
                            ].dependencies@ by {
                                assert(units@[q].dependencies@ == spec_wired(
                                    self.units@,
                                    spec_dep_names(self.units@[q]),
                                ));
                            }
                            graph::lemma_same_deps(units@, w);
                        }
                    }
                }
                Err(String::from_str("Configuration error: the unit dependencies form a cycle"))
            },
        }
    }
}

} // verus!
