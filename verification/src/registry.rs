//! The executors of all backends.
//!
//! Every session of a backend works on the one executor that the registry
//! holds for the backend, so a reload of the guards of a backend reaches
//! the sessions that are open.
use crate::decision::GuardError;
use crate::executor::{
    first_failure, initial_entries, reload_limit_error, schema_calls, schema_calls_view, EntryView,
    GuardExecutor,
};
use crate::guard::{configs_view, is_build_error, McpSecurityGuard};
use crate::order::{first_where, lemma_first_where, lemma_first_where_is};
use crate::text::text_eq;
use crate::wasm::{GuestCall, GuestCallView};
use vstd::prelude::*;

verus! {

/// The registry: backend names with the executor of each.
pub struct GuardExecutorRegistry {
    executors: Vec<(String, GuardExecutor)>,
}

/// What the registry holds for one backend: its name, its chain of guards
/// and the count of reloads of its executor.
pub struct BackendView {
    pub name: Seq<char>,
    pub entries: Seq<EntryView>,
    pub generation: u64,
}

/// The value of an entry of the registry.
pub open spec fn backend_view(e: (String, GuardExecutor)) -> BackendView {
    BackendView { name: e.0@, entries: e.1.entries(), generation: e.1.generation() }
}

/// Whether an entry is that of the backend `name`.
pub open spec fn of_backend(name: Seq<char>) -> spec_fn(BackendView) -> bool {
    |b: BackendView| b.name == name
}

/// The position of the executor of the backend `name`, or the number of
/// backends when it has none.
pub open spec fn backend_position(backends: Seq<BackendView>, name: Seq<char>) -> int {
    first_where(backends, of_backend(name))
}

/// The schema calls of the guards of the first `n` backends.
pub open spec fn all_schema_calls(backends: Seq<BackendView>, n: nat) -> Seq<
    (Seq<char>, GuestCallView, GuestCallView),
>
    decreases n,
{
    if n == 0 || n > backends.len() {
        Seq::empty()
    } else {
        all_schema_calls(backends, (n - 1) as nat) + schema_calls(
            backends[n - 1].entries,
            backends[n - 1].entries.len(),
        )
    }
}

/// The executor that is made for a new backend.
pub open spec fn new_backend(name: Seq<char>, configs: Seq<crate::guard::GuardConfigView>)
    -> BackendView {
    BackendView { name, entries: initial_entries(configs), generation: 0 }
}

impl Default for GuardExecutorRegistry {
    fn default() -> (res: GuardExecutorRegistry)
        ensures
            res.backends() == Seq::<BackendView>::empty(),
    {
        GuardExecutorRegistry::new()
    }
}

impl GuardExecutorRegistry {
    /// What the registry holds, in the order in which the backends came.
    pub closed spec fn backends(&self) -> Seq<BackendView> {
        Seq::new(self.executors@.len(), |i: int| backend_view(self.executors@[i]))
    }

    /// An empty registry.
    pub fn new() -> (res: GuardExecutorRegistry)
        ensures
            res.backends() == Seq::<BackendView>::empty(),
    {
        let r = GuardExecutorRegistry { executors: Vec::new() };
        assert(r.backends() =~= Seq::<BackendView>::empty());
        r
    }

    /// The position of the executor of a backend.
    pub fn find(&self, backend_name: &str) -> (res: Option<usize>)
        ensures
            match res {
                Some(at) => at < self.backends().len() && at == backend_position(
                    self.backends(),
                    backend_name@,
                ),
                None => backend_position(self.backends(), backend_name@) == self.backends().len(),
            },
    {
        let ghost bv = self.backends();
        let ghost named = of_backend(backend_name@);
        let mut i: usize = 0;
        while i < self.executors.len()
            invariant
                i <= self.executors@.len(),
                bv == self.backends(),
                named == of_backend(backend_name@),
                forall|k: int| 0 <= k < i ==> !named(#[trigger] bv[k]),
            decreases self.executors@.len() - i,
        {
            proof {
                assert(bv[i as int] == backend_view(self.executors@[i as int]));
            }
            if text_eq(self.executors[i].0.as_str(), backend_name) {
                proof {
                    lemma_first_where_is(bv, named, i as int);
                }
                return Some(i);
            }
            i += 1;
        }
        proof {
            lemma_first_where_is(bv, named, bv.len() as int);
        }
        None
    }

    /// The position of the executor of a backend; if the backend has none
    /// yet, one is made from the given configurations first.
    pub fn get_or_create(&mut self, backend_name: &str, configs: Vec<McpSecurityGuard>) -> (res:
        Result<usize, GuardError>)
        ensures
            ({
                let before = old(self).backends();
                let at = backend_position(before, backend_name@);
                let cv = configs_view(configs@);
                if at < before.len() {
                    res == Ok::<usize, GuardError>(at as usize) && final(self).backends() == before
                } else if first_failure(cv) >= cv.len() {
                    res == Ok::<usize, GuardError>(before.len() as usize) && final(self).backends()
                        == before.push(new_backend(backend_name@, cv))
                } else {
                    res matches Err(e) && is_build_error(cv[first_failure(cv)].kind, e@) && final(self).backends() == before
                }
            }),
    {
        match self.find(backend_name) {
            Some(at) => Ok(at),
            None => {
                let ghost before = self.backends();
                let executor = GuardExecutor::new(configs)?;
                let at = self.executors.len();
                self.executors.push((backend_name.to_owned(), executor));
                proof {
                    assert(self.backends() =~= before.push(
                        new_backend(backend_name@, configs_view(configs@)),
                    ));
                }
                Ok(at)
            },
        }
    }

    /// Replaces the guards of a backend. The executor of the backend is
    /// updated in place; a backend without executor gets one.
    pub fn update_backend(&mut self, backend_name: &str, configs: Vec<McpSecurityGuard>) -> (res:
        Result<(), GuardError>)
        ensures
            ({
                let before = old(self).backends();
                let at = backend_position(before, backend_name@);
                let cv = configs_view(configs@);
                if first_failure(cv) < cv.len() {
                    res matches Err(e) && is_build_error(cv[first_failure(cv)].kind, e@) && final(self).backends() == before
                } else if at >= before.len() {
                    res is Ok && final(self).backends() == before.push(
                        new_backend(backend_name@, cv),
                    )
                } else if before[at].generation == u64::MAX {
                    res matches Err(e) && e@ == reload_limit_error() && final(self).backends()
                        == before
                } else {
                    res is Ok && final(self).backends() == before.update(
                        at,
                        BackendView {
                            name: backend_name@,
                            entries: initial_entries(cv),
                            generation: (before[at].generation + 1) as u64,
                        },
                    )
                }
            }),
    {
        let ghost before = self.backends();
        match self.find(backend_name) {
            Some(at) => {
                proof {
                    assert(before[at as int] == backend_view(self.executors@[at as int]));
                    lemma_first_where(before, of_backend(backend_name@));
                }
                let res = self.executors[at].1.update(configs);
                proof {
                    let now = self.backends();
                    assert(now[at as int] == backend_view(self.executors@[at as int]));
                    assert forall|k: int| 0 <= k < before.len() && k != at implies now[k]
                        == before[k] by {
                        assert(now[k] == backend_view(self.executors@[k]));
                        assert(before[k] == backend_view(old(self).executors@[k]));
                    }
                    if res is Ok {
                        assert(now =~= before.update(
                            at as int,
                            BackendView {
                                name: backend_name@,
                                entries: initial_entries(configs_view(configs@)),
                                generation: (before[at as int].generation + 1) as u64,
                            },
                        ));
                    } else {
                        assert(now =~= before);
                    }
                }
                res
            },
            None => {
                let executor = GuardExecutor::new(configs)?;
                self.executors.push((backend_name.to_owned(), executor));
                proof {
                    assert(self.backends() =~= before.push(
                        new_backend(backend_name@, configs_view(configs@)),
                    ));
                }
                Ok(())
            },
        }
    }

    /// Removes the executor of a backend.
    pub fn remove_backend(&mut self, backend_name: &str)
        ensures
            ({
                let before = old(self).backends();
                let at = backend_position(before, backend_name@);
                if at < before.len() {
                    final(self).backends() == before.remove(at)
                } else {
                    final(self).backends() == before
                }
            }),
    {
        let ghost before = self.backends();
        match self.find(backend_name) {
            Some(at) => {
                self.executors.remove(at);
                proof {
                    assert(self.backends() =~= before.remove(at as int));
                }
            },
            None => {},
        }
    }

    /// The names of the backends that have an executor.
    pub fn backend_names(&self) -> (res: Vec<String>)
        ensures
            res@.len() == self.backends().len(),
            forall|i: int| 0 <= i < res@.len() ==> (#[trigger] res@[i])@ == self.backends()[i].name,
    {
        let mut names: Vec<String> = Vec::new();
        let mut i: usize = 0;
        while i < self.executors.len()
            invariant
                i <= self.executors@.len(),
                names@.len() == i,
                forall|k: int| 0 <= k < i ==> (#[trigger] names@[k])@ == self.backends()[k].name,
            decreases self.executors@.len() - i,
        {
            names.push(self.executors[i].0.clone());
            i += 1;
        }
        names
    }

    /// The executor at a position.
    pub fn executor(&self, at: usize) -> (res: Option<&GuardExecutor>)
        ensures
            match res {
                Some(x) => at < self.backends().len() && x.entries() == self.backends()[at as int].entries
                    && x.generation() == self.backends()[at as int].generation,
                None => at >= self.backends().len(),
            },
    {
        if at < self.executors.len() {
            Some(&self.executors[at].1)
        } else {
            None
        }
    }

    /// The executor at a position, to work on. What is done to the executor
    /// is done to the registry's entry for the backend; the other entries
    /// stay as they are.
    pub fn executor_mut(&mut self, at: usize) -> (res: Option<&mut GuardExecutor>)
        ensures
            match res {
                Some(x) => {
                    &&& at < old(self).backends().len()
                    &&& x.entries() == old(self).backends()[at as int].entries
                    &&& x.generation() == old(self).backends()[at as int].generation
                    &&& final(self).backends() == old(self).backends().update(
                        at as int,
                        BackendView {
                            name: old(self).backends()[at as int].name,
                            entries: final(x).entries(),
                            generation: final(x).generation(),
                        },
                    )
                },
                None => at >= old(self).backends().len() && final(self).backends() == old(self).backends(),
            },
    {
        if at < self.executors.len() {
            Some(&mut self.executors[at].1)
        } else {
            None
        }
    }

    /// For each guard of any backend that runs as a component, backend by
    /// backend, its identifier with the calls that ask its guest for the
    /// schema of its settings and for its default configuration.
    pub fn collect_wasm_schemas(&self) -> (res: Vec<(String, GuestCall, GuestCall)>)
        ensures
            schema_calls_view(res@) == all_schema_calls(self.backends(), self.backends().len()),
    {
        let ghost bv = self.backends();
        let mut out: Vec<(String, GuestCall, GuestCall)> = Vec::new();
        let mut i: usize = 0;
        proof {
            assert(schema_calls_view(out@) =~= all_schema_calls(bv, 0));
        }
        while i < self.executors.len()
            invariant
                i <= self.executors@.len(),
                bv == self.backends(),
                schema_calls_view(out@) == all_schema_calls(bv, i as nat),
            decreases self.executors@.len() - i,
        {
            let mut found = self.executors[i].1.collect_guard_schemas();
            let ghost before = schema_calls_view(out@);
            let ghost added = schema_calls_view(found@);
            proof {
                assert(bv[i as int] == backend_view(self.executors@[i as int]));
            }
            out.append(&mut found);
            proof {
                assert(schema_calls_view(out@) =~= before + added);
            }
            i += 1;
        }
        out
    }
}

} // verus!
