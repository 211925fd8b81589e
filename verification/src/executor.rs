//! The chain of guards of one backend.
//!
//! An executor holds the enabled guards of a backend in ascending order of
//! priority. An evaluation walks the chain: a guard runs if it is configured
//! for the phase; `Allow` goes on to the next guard, `Deny` ends the chain, a
//! replaced payload is handed to the guards that follow, and a failure ends
//! the chain or is passed over, as the failure mode of the guard says.
//!
//! A guard that runs as a component cannot be asked from here. When the chain
//! reaches one, the evaluation stops with the call that the host is to make;
//! the host makes the call and resumes the evaluation with what the guest
//! decided.
use crate::decision::{
    ContextView, DecisionView, ErrorView, FailureMode, GuardContext, GuardDecision, GuardError,
    GuardPhase, GuardResult, ModifyAction, ModifyView, result_view, texts_view,
};
use crate::guard::{
    build_fails, configs_view, guard_of, guest_call, is_build_error, native_outcome, reset_guard,
    runs_in, runs_on_phase, ChainInput, GuardConfigView, GuardView, InputView, McpSecurityGuard,
    NativeGuard,
};
use crate::json::Json;
use crate::order::{
    arrange, comes_before, first_where, lemma_first_where_is, lemma_insert_in_order,
    lemma_stable_order, stable_order,
};
use crate::tool::{clone_tools, Tool, tools_view};
use crate::wasm::{GuestCall, GuestCallView};
use vstd::prelude::*;

verus! {

/// A guard of a chain, with the settings that the chain reads.
pub struct InitializedGuard {
    pub id: String,
    pub priority: u32,
    pub failure_mode: FailureMode,
    pub timeout_ms: u64,
    pub runs_on: Vec<GuardPhase>,
    pub guard: NativeGuard,
}

/// The mathematical value of an [`InitializedGuard`].
pub struct EntryView {
    pub id: Seq<char>,
    pub priority: u32,
    pub failure_mode: FailureMode,
    pub timeout_ms: u64,
    pub runs_on: Seq<GuardPhase>,
    pub guard: GuardView,
}

impl View for InitializedGuard {
    type V = EntryView;

    open spec fn view(&self) -> EntryView {
        EntryView {
            id: self.id@,
            priority: self.priority,
            failure_mode: self.failure_mode,
            timeout_ms: self.timeout_ms,
            runs_on: self.runs_on@,
            guard: self.guard@,
        }
    }
}

/// The values of a list of guards.
pub open spec fn entries_view(guards: Seq<InitializedGuard>) -> Seq<EntryView> {
    Seq::new(guards.len(), |i: int| guards[i]@)
}

/// The guard that is made from a configuration.
pub open spec fn entry_of(c: GuardConfigView) -> EntryView {
    EntryView {
        id: c.id,
        priority: c.priority,
        failure_mode: c.failure_mode,
        timeout_ms: c.timeout_ms,
        runs_on: c.runs_on,
        guard: guard_of(c.id, c.kind),
    }
}

/// The guards of the enabled configurations, in the order of the
/// configurations.
pub open spec fn enabled_entries(configs: Seq<GuardConfigView>) -> Seq<EntryView>
    decreases configs.len(),
{
    if configs.len() == 0 {
        Seq::empty()
    } else {
        let head = enabled_entries(configs.drop_last());
        if configs.last().enabled {
            head.push(entry_of(configs.last()))
        } else {
            head
        }
    }
}

/// The priorities of a list of guards.
pub open spec fn priorities(entries: Seq<EntryView>) -> Seq<u64> {
    Seq::new(entries.len(), |i: int| entries[i].priority as u64)
}

/// The chain that is made from a list of configurations: the guards of the
/// enabled configurations in ascending order of priority; guards of equal
/// priority keep the order of their configurations.
pub open spec fn initial_entries(configs: Seq<GuardConfigView>) -> Seq<EntryView> {
    arrange(enabled_entries(configs), stable_order(priorities(enabled_entries(configs))))
}

/// Whether a configuration is enabled and no guard can be made from it.
pub open spec fn fails() -> spec_fn(GuardConfigView) -> bool {
    |c: GuardConfigView| c.enabled && build_fails(c.kind)
}

/// The position of the first configuration from which no guard can be made,
/// or the number of configurations when there is none.
pub open spec fn first_failure(configs: Seq<GuardConfigView>) -> int {
    first_where(configs, fails())
}

/// What an evaluation did besides deciding: the positions of the guards that
/// it ran, in the order in which it ran them, and a warning for every
/// failure that it passed over.
#[derive(Debug)]
pub struct ChainLog {
    pub invoked: Vec<usize>,
    pub warnings: Vec<String>,
}

/// The mathematical value of a [`ChainLog`].
pub struct LogView {
    pub invoked: Seq<int>,
    pub warnings: Seq<Seq<char>>,
}

impl View for ChainLog {
    type V = LogView;

    open spec fn view(&self) -> LogView {
        LogView {
            invoked: Seq::new(self.invoked@.len(), |i: int| self.invoked@[i] as int),
            warnings: texts_view(self.warnings@),
        }
    }
}

/// An evaluation that waits for a guest.
#[derive(Debug)]
pub struct Pending {
    position: usize,
    input: ChainInput,
    context: GuardContext,
    modified: bool,
    log: ChainLog,
    call: GuestCall,
    timeout_ms: u64,
    generation: u64,
}

/// How an evaluation stands: finished, or waiting for the guest of a guard.
#[derive(Debug)]
pub enum Evaluation {
    Finished { result: GuardResult, log: ChainLog },
    Guest(Pending),
}

/// The mathematical value of an [`Evaluation`].
pub enum EndView {
    Finished { result: Result<DecisionView, ErrorView>, log: LogView },
    Guest {
        position: int,
        input: InputView,
        context: ContextView,
        modified: bool,
        log: LogView,
        call: GuestCallView,
        /// The time, in milliseconds, that the guard is given.
        timeout_ms: u64,
    },
}

impl View for Pending {
    type V = EndView;

    closed spec fn view(&self) -> EndView {
        EndView::Guest {
            position: self.position as int,
            input: self.input@,
            context: self.context@,
            modified: self.modified,
            log: self.log@,
            call: self.call@,
            timeout_ms: self.timeout_ms,
        }
    }
}

impl View for Evaluation {
    type V = EndView;

    open spec fn view(&self) -> EndView {
        match self {
            Evaluation::Finished { result, log } => EndView::Finished {
                result: result_view(*result),
                log: log@,
            },
            Evaluation::Guest(p) => p@,
        }
    }
}

impl EndView {
    /// What the evaluation did so far.
    pub open spec fn log(self) -> LogView {
        match self {
            EndView::Finished { log, .. } => log,
            EndView::Guest { log, .. } => log,
        }
    }
}

/// The result of a chain that came to its end: the payload, if a guard
/// replaced it, else `Allow`.
pub open spec fn final_result(input: InputView, modified: bool) -> Result<DecisionView, ErrorView> {
    if modified && input.payload() is Some {
        Ok(DecisionView::Modify(ModifyView::Transform(input.payload()->Some_0)))
    } else {
        Ok(DecisionView::Allow)
    }
}

/// The message of the error that ends a chain when a guard fails closed.
pub open spec fn failure_text(id: Seq<char>, e: ErrorView) -> Seq<char> {
    "Guard "@ + id + " failed: "@ + e.message()
}

/// The warning for a failure that is passed over.
pub open spec fn warning_text(id: Seq<char>, e: ErrorView) -> Seq<char> {
    "Guard "@ + id + " failed but continuing due to fail_open: "@ + e.message()
}

/// The log after the guard at `position` was run.
pub open spec fn ran(log: LogView, position: int) -> LogView {
    LogView { invoked: log.invoked.push(position), ..log }
}

/// The log after a warning was added.
pub open spec fn warned(log: LogView, warning: Seq<char>) -> LogView {
    LogView { warnings: log.warnings.push(warning), ..log }
}

/// An evaluation from the guard at `from` on: the guards after it, and how
/// it ends.
pub open spec fn chain(
    guards: Seq<EntryView>,
    input: InputView,
    context: ContextView,
    from: int,
    modified: bool,
    log: LogView,
) -> (Seq<EntryView>, EndView)
    decreases guards.len() - from, 1int,
{
    if from < 0 || from >= guards.len() {
        (guards, EndView::Finished { result: final_result(input, modified), log })
    } else if !runs_in(guards[from].runs_on, input.phase()) {
        chain(guards, input, context, from + 1, modified, log)
    } else {
        match guest_call(guards[from].guard, input, context) {
            Some(call) => (
                guards,
                EndView::Guest {
                    position: from,
                    input,
                    context,
                    modified,
                    log: ran(log, from),
                    call,
                    timeout_ms: guards[from].timeout_ms,
                },
            ),
            None => {
                let o = native_outcome(guards[from].guard, input, context);
                settled(
                    guards.update(from, EntryView { guard: o.1, ..guards[from] }),
                    input,
                    context,
                    from,
                    modified,
                    ran(log, from),
                    o.0,
                )
            },
        }
    }
}

/// An evaluation from the point where the guard at `at` gave `outcome`.
pub open spec fn settled(
    guards: Seq<EntryView>,
    input: InputView,
    context: ContextView,
    at: int,
    modified: bool,
    log: LogView,
    outcome: Result<DecisionView, ErrorView>,
) -> (Seq<EntryView>, EndView)
    decreases guards.len() - at, 0int,
{
    if at < 0 || at >= guards.len() {
        (guards, EndView::Finished { result: outcome, log })
    } else {
        match outcome {
            Ok(DecisionView::Allow) => chain(guards, input, context, at + 1, modified, log),
            Ok(DecisionView::Deny(r)) => (
                guards,
                EndView::Finished { result: Ok(DecisionView::Deny(r)), log },
            ),
            Ok(DecisionView::Modify(ModifyView::Transform(v))) => {
                if input.payload() is Some {
                    chain(guards, input.with_payload(v), context, at + 1, true, log)
                } else {
                    chain(guards, input, context, at + 1, modified, log)
                }
            },
            Ok(DecisionView::Modify(_)) => chain(guards, input, context, at + 1, modified, log),
            Err(e) => match guards[at].failure_mode {
                FailureMode::FailClosed => (
                    guards,
                    EndView::Finished {
                        result: Err(ErrorView::ExecutionError(failure_text(guards[at].id, e))),
                        log,
                    },
                ),
                FailureMode::FailOpen => chain(
                    guards,
                    input,
                    context,
                    at + 1,
                    modified,
                    warned(log, warning_text(guards[at].id, e)),
                ),
            },
        }
    }
}

/// The call of a function of the guest that takes nothing.
pub open spec fn plain_call(guard_id: Seq<char>, function: Seq<char>, timeout_ms: u64)
    -> GuestCallView {
    GuestCallView { guard_id, function, args: Seq::empty(), timeout_ms }
}

/// For each guard among the first `n` that runs as a component: its
/// identifier, the call for the schema of its settings and the call for its
/// default configuration.
pub open spec fn schema_calls(entries: Seq<EntryView>, n: nat) -> Seq<
    (Seq<char>, GuestCallView, GuestCallView),
>
    decreases n,
{
    if n == 0 || n > entries.len() {
        Seq::empty()
    } else {
        let head = schema_calls(entries, (n - 1) as nat);
        match entries[n - 1].guard {
            GuardView::Wasm { guard_id, timeout_ms, .. } => head.push(
                (
                    guard_id,
                    plain_call(guard_id, "get-settings-schema"@, timeout_ms),
                    plain_call(guard_id, "get-default-config"@, timeout_ms),
                ),
            ),
            _ => head,
        }
    }
}

/// The values of a list of schema calls.
pub open spec fn schema_calls_view(calls: Seq<(String, GuestCall, GuestCall)>) -> Seq<
    (Seq<char>, GuestCallView, GuestCallView),
> {
    Seq::new(calls.len(), |i: int| (calls[i].0@, calls[i].1@, calls[i].2@))
}

/// The error of an evaluation that is resumed after the guards were
/// replaced.
pub open spec fn reloaded_error() -> ErrorView {
    ErrorView::ExecutionError("Guards were reloaded during the evaluation"@)
}

/// The error of a reload that cannot be counted any more.
pub open spec fn reload_limit_error() -> ErrorView {
    ErrorView::ConfigError("Guards cannot be reloaded any more"@)
}

/// Makes the chain of a list of configurations.
///
/// Disabled configurations are passed over. The guards are made in the
/// order of the configurations, and the first configuration from which no
/// guard can be made gives the error.
pub fn initialize_guards(configs: Vec<McpSecurityGuard>) -> (res: Result<
    Vec<InitializedGuard>,
    GuardError,
>)
    ensures
        res is Ok <==> first_failure(configs_view(configs@)) >= configs@.len(),
        res matches Ok(guards) ==> entries_view(guards@) == initial_entries(configs_view(configs@)),
        res matches Err(e) ==> is_build_error(
            configs_view(configs@)[first_failure(configs_view(configs@))].kind,
            e@,
        ),
{
    let ghost cv = configs_view(configs@);
    let n = configs.len();
    let mut rest = configs;
    let mut out: Vec<InitializedGuard> = Vec::new();
    let mut i: usize = 0;
    proof {
        assert(cv.take(0) =~= Seq::<GuardConfigView>::empty());
        assert(cv.subrange(0, n as int) =~= cv);
        assert(entries_view(out@) =~= initial_entries(cv.take(0)));
    }
    while rest.len() > 0
        invariant
            i + rest@.len() == n,
            n == cv.len(),
            configs_view(rest@) == cv.subrange(i as int, n as int),
            forall|k: int| 0 <= k < i ==> !fails()(#[trigger] cv[k]),
            entries_view(out@) == initial_entries(cv.take(i as int)),
        decreases rest@.len(),
    {
        let ghost rv = configs_view(rest@);
        let ghost old_rest = rest@;
        let config = rest.remove(0);
        proof {
            assert(rest@ == old_rest.remove(0));
            assert(config == old_rest[0]);
            assert(rv[0] == config@);
            assert(cv[i as int] == config@);
            assert forall|k: int| 0 <= k < rest@.len() implies configs_view(rest@)[k]
                == cv.subrange(i + 1, n as int)[k] by {
                assert(rest@[k] == old_rest[k + 1]);
                assert(rv[k + 1] == old_rest[k + 1]@);
            }
            assert(configs_view(rest@) =~= cv.subrange(i + 1, n as int));
            let next = cv.take(i + 1);
            assert(next.last() == cv[i as int]);
            assert(next.drop_last() =~= cv.take(i as int));
        }
        let McpSecurityGuard {
            id,
            description: _,
            priority,
            failure_mode,
            timeout_ms,
            runs_on,
            enabled,
            kind,
        } = config;
        if enabled {
            match NativeGuard::build(id.as_str(), kind) {
                Err(e) => {
                    proof {
                        assert(fails()(cv[i as int]));
                        lemma_first_where_is(cv, fails(), i as int);
                    }
                    return Err(e);
                },
                Ok(guard) => {
                    let entry = InitializedGuard {
                        id,
                        priority,
                        failure_mode,
                        timeout_ms,
                        runs_on,
                        guard,
                    };
                    let ghost sorted = entries_view(out@);
                    let ghost items = enabled_entries(cv.take(i + 1));
                    let ghost keys = priorities(items);
                    proof {
                        assert(entry@ == entry_of(cv[i as int]));
                        assert(items == enabled_entries(cv.take(i as int)).push(entry@));
                        assert(items.drop_last() =~= enabled_entries(cv.take(i as int)));
                        assert(keys.drop_last() =~= priorities(items.drop_last()));
                        lemma_stable_order(keys.drop_last());
                    }
                    let mut pos: usize = 0;
                    while pos < out.len() && out[pos].priority <= entry.priority
                        invariant
                            pos <= out@.len(),
                            sorted == entries_view(out@),
                            forall|k: int|
                                0 <= k < pos ==> (#[trigger] sorted[k]).priority <= entry.priority,
                        decreases out@.len() - pos,
                    {
                        proof {
                            assert(sorted[pos as int] == out@[pos as int]@);
                        }
                        pos += 1;
                    }
                    proof {
                        let before = stable_order(keys.drop_last());
                        let sorted_keys = priorities(sorted);
                        assert forall|k: int| 0 <= k < sorted.len() implies #[trigger] sorted_keys[k]
                            == keys[before[k]] by {
                            assert(sorted[k] == items.drop_last()[before[k]]);
                            assert(items[before[k]] == items.drop_last()[before[k]]);
                        }
                        assert forall|k: int| 0 <= k < pos implies sorted_keys[k]
                            <= keys.last() by {
                            assert(sorted[k].priority <= entry.priority);
                        }
                        if pos < sorted.len() {
                            assert(sorted[pos as int] == out@[pos as int]@);
                        }
                        lemma_insert_in_order(items, keys, sorted, sorted_keys, pos as int);
                    }
                    let ghost entry_view = entry@;
                    out.insert(pos, entry);
                    proof {
                        assert(entries_view(out@) =~= sorted.insert(pos as int, entry_view));
                    }
                },
            }
        } else {
            proof {
                assert(!fails()(cv[i as int]));
            }
        }
        i += 1;
    }
    proof {
        assert(cv.take(n as int) =~= cv);
        lemma_first_where_is(cv, fails(), n as int);
    }
    Ok(out)
}

/// The executor of the guards of one backend.
pub struct GuardExecutor {
    guards: Vec<InitializedGuard>,
    generation: u64,
}

fn empty_log() -> (res: ChainLog)
    ensures
        res@ == (LogView { invoked: Seq::empty(), warnings: Seq::empty() }),
{
    let log = ChainLog { invoked: Vec::new(), warnings: Vec::new() };
    proof {
        assert(log@.invoked =~= Seq::<int>::empty());
        assert(log@.warnings =~= Seq::<Seq<char>>::empty());
    }
    log
}

impl Pending {
    /// The call that the host is to make.
    pub fn call(&self) -> (res: &GuestCall)
        ensures
            self@ matches EndView::Guest { call, .. } && res@ == call,
    {
        &self.call
    }

    /// The time, in milliseconds, that the guard is given.
    pub fn timeout_ms(&self) -> (res: u64)
        ensures
            self@ matches EndView::Guest { timeout_ms, .. } && res == timeout_ms,
    {
        self.timeout_ms
    }

    /// The position of the guard whose guest is asked.
    pub fn position(&self) -> (res: usize)
        ensures
            self@ matches EndView::Guest { position, .. } && res == position,
    {
        self.position
    }

    /// The executor's count of reloads when the evaluation began.
    pub closed spec fn generation(&self) -> u64 {
        self.generation
    }
}

impl Evaluation {
    /// The result of a finished evaluation.
    pub fn into_result(self) -> (res: Option<GuardResult>)
        ensures
            match res {
                Some(r) => self@ matches EndView::Finished { result, .. } && result_view(r)
                    == result,
                None => self@ is Guest,
            },
    {
        match self {
            Evaluation::Finished { result, log } => Some(result),
            Evaluation::Guest(_) => None,
        }
    }
}

impl GuardExecutor {
    /// The chain of guards, in the order in which they run.
    pub closed spec fn entries(&self) -> Seq<EntryView> {
        entries_view(self.guards@)
    }

    /// How often the guards were replaced.
    pub closed spec fn generation(&self) -> u64 {
        self.generation
    }

    /// The executor of a list of configurations.
    pub fn new(configs: Vec<McpSecurityGuard>) -> (res: Result<GuardExecutor, GuardError>)
        ensures
            res is Ok <==> first_failure(configs_view(configs@)) >= configs@.len(),
            res matches Ok(x) ==> x.entries() == initial_entries(configs_view(configs@))
                && x.generation() == 0,
            res matches Err(e) ==> is_build_error(
                configs_view(configs@)[first_failure(configs_view(configs@))].kind,
                e@,
            ),
    {
        match initialize_guards(configs) {
            Ok(guards) => Ok(GuardExecutor { guards, generation: 0 }),
            Err(e) => Err(e),
        }
    }

    /// An executor without guards.
    pub fn empty() -> (res: GuardExecutor)
        ensures
            res.entries() == Seq::<EntryView>::empty(),
            res.generation() == 0,
    {
        let x = GuardExecutor { guards: Vec::new(), generation: 0 };
        assert(x.entries() =~= Seq::<EntryView>::empty());
        x
    }

    /// Whether the chain holds a guard.
    pub fn has_guards(&self) -> (res: bool)
        ensures
            res == (self.entries().len() > 0),
    {
        self.guards.len() > 0
    }

    /// The number of guards of the chain.
    pub fn guard_count(&self) -> (res: usize)
        ensures
            res == self.entries().len(),
    {
        self.guards.len()
    }

    /// The identifier of the guard at a position of the chain.
    pub fn guard_id(&self, position: usize) -> (res: Option<&str>)
        ensures
            match res {
                Some(id) => position < self.entries().len() && id@
                    == self.entries()[position as int].id,
                None => position >= self.entries().len(),
            },
    {
        if position < self.guards.len() {
            proof {
                assert(self.entries()[position as int] == self.guards@[position as int]@);
            }
            Some(self.guards[position].id.as_str())
        } else {
            None
        }
    }

    /// Replaces the whole chain by that of a new list of configurations.
    ///
    /// If no guard can be made from one of the configurations, or if the
    /// count of reloads is exhausted, the executor stays as it is.
    pub fn update(&mut self, configs: Vec<McpSecurityGuard>) -> (res: Result<(), GuardError>)
        ensures
            res is Ok <==> first_failure(configs_view(configs@)) >= configs@.len() && old(self).generation() < u64::MAX,
            res is Ok ==> final(self).entries() == initial_entries(configs_view(configs@))
                && final(self).generation() == old(self).generation() + 1,
            res is Err ==> final(self).entries() == old(self).entries() && final(self).generation() == old(self).generation(),
            res matches Err(e) ==> if first_failure(configs_view(configs@)) < configs@.len() {
                is_build_error(
                    configs_view(configs@)[first_failure(configs_view(configs@))].kind,
                    e@,
                )
            } else {
                e@ == reload_limit_error()
            },
    {
        let new_guards = initialize_guards(configs)?;
        if self.generation == u64::MAX {
            return Err(GuardError::ConfigError("Guards cannot be reloaded any more".to_owned()));
        }
        self.guards = new_guards;
        self.generation = self.generation + 1;
        Ok(())
    }

    /// Walks the chain from the guard at `from` on.
    fn run_from(
        &mut self,
        input: ChainInput,
        context: GuardContext,
        from: usize,
        modified: bool,
        log: ChainLog,
    ) -> (res: Evaluation)
        ensures
            final(self).generation() == old(self).generation(),
            (final(self).entries(), res@) == chain(
                old(self).entries(),
                input@,
                context@,
                from as int,
                modified,
                log@,
            ),
            res matches Evaluation::Guest(p) ==> p.generation() == old(self).generation(),
        decreases old(self).guards@.len() - from, 1int,
    {
        if from >= self.guards.len() {
            let result = if modified {
                match input.payload() {
                    Some(v) => Ok(GuardDecision::Modify(ModifyAction::Transform(v))),
                    None => Ok(GuardDecision::Allow),
                }
            } else {
                Ok(GuardDecision::Allow)
            };
            return Evaluation::Finished { result, log };
        }
        let ghost before = entries_view(self.guards@);
        proof {
            assert(before[from as int] == self.guards@[from as int]@);
        }
        if !runs_on_phase(&self.guards[from].runs_on, input.phase()) {
            return self.run_from(input, context, from + 1, modified, log);
        }
        let mut log = log;
        let ghost old_log = log@;
        log.invoked.push(from);
        proof {
            assert(log@.invoked =~= old_log.invoked.push(from as int));
            assert(log@ == ran(old_log, from as int));
        }
        match self.guards[from].guard.guest_call(&input, &context) {
            Some(call) => Evaluation::Guest(
                Pending {
                    position: from,
                    input,
                    context,
                    modified,
                    log,
                    call,
                    timeout_ms: self.guards[from].timeout_ms,
                    generation: self.generation,
                },
            ),
            None => {
                let outcome = self.guards[from].guard.evaluate(&input, &context);
                proof {
                    let o = native_outcome(before[from as int].guard, input@, context@);
                    assert(entries_view(self.guards@) =~= before.update(
                        from as int,
                        EntryView { guard: o.1, ..before[from as int] },
                    ));
                }
                self.settle_at(input, context, from, modified, log, outcome)
            },
        }
    }

    /// Goes on from the point where the guard at `at` gave `outcome`.
    fn settle_at(
        &mut self,
        input: ChainInput,
        context: GuardContext,
        at: usize,
        modified: bool,
        log: ChainLog,
        outcome: GuardResult,
    ) -> (res: Evaluation)
        ensures
            final(self).generation() == old(self).generation(),
            (final(self).entries(), res@) == settled(
                old(self).entries(),
                input@,
                context@,
                at as int,
                modified,
                log@,
                result_view(outcome),
            ),
            res matches Evaluation::Guest(p) ==> p.generation() == old(self).generation(),
        decreases old(self).guards@.len() - at, 0int,
    {
        if at >= self.guards.len() {
            return Evaluation::Finished { result: outcome, log };
        }
        proof {
            assert(entries_view(self.guards@)[at as int] == self.guards@[at as int]@);
        }
        match outcome {
            Ok(GuardDecision::Allow) => self.run_from(input, context, at + 1, modified, log),
            Ok(GuardDecision::Deny(r)) => Evaluation::Finished {
                result: Ok(GuardDecision::Deny(r)),
                log,
            },
            Ok(GuardDecision::Modify(ModifyAction::Transform(v))) => {
                match input.phase() {
                    GuardPhase::ToolInvoke | GuardPhase::Response => {
                        let replaced = input.with_payload(v);
                        self.run_from(replaced, context, at + 1, true, log)
                    },
                    _ => self.run_from(input, context, at + 1, modified, log),
                }
            },
            Ok(GuardDecision::Modify(_)) => self.run_from(input, context, at + 1, modified, log),
            Err(e) => {
                let text = e.message();
                match self.guards[at].failure_mode {
                    FailureMode::FailClosed => {
                        let mut message = "Guard ".to_owned();
                        message.append(self.guards[at].id.as_str());
                        message.append(" failed: ");
                        message.append(text.as_str());
                        Evaluation::Finished {
                            result: Err(GuardError::ExecutionError(message)),
                            log,
                        }
                    },
                    FailureMode::FailOpen => {
                        let mut warning = "Guard ".to_owned();
                        warning.append(self.guards[at].id.as_str());
                        warning.append(" failed but continuing due to fail_open: ");
                        warning.append(text.as_str());
                        let mut log = log;
                        let ghost old_log = log@;
                        let ghost w = warning@;
                        log.warnings.push(warning);
                        proof {
                            assert(log@.warnings =~= old_log.warnings.push(w));
                            assert(log@.invoked =~= old_log.invoked);
                            assert(log@ == warned(old_log, w));
                        }
                        self.run_from(input, context, at + 1, modified, log)
                    },
                }
            },
        }
    }

    /// Runs the guards of the connection phase on a connection to a server.
    pub fn evaluate_connection(
        &mut self,
        server_name: &str,
        server_url: Option<&str>,
        context: &GuardContext,
    ) -> (res: Evaluation)
        ensures
            final(self).generation() == old(self).generation(),
            (final(self).entries(), res@) == chain(
                old(self).entries(),
                InputView::Connection {
                    server_name: server_name@,
                    server_url: match server_url {
                        Some(u) => Some(u@),
                        None => None,
                    },
                },
                context@,
                0,
                false,
                LogView { invoked: Seq::empty(), warnings: Seq::empty() },
            ),
            res matches Evaluation::Guest(p) ==> p.generation() == old(self).generation(),
    {
        let server_url = match server_url {
            Some(u) => Some(u.to_owned()),
            None => None,
        };
        let input = ChainInput::Connection { server_name: server_name.to_owned(), server_url };
        self.run_from(input, context.clone(), 0, false, empty_log())
    }

    /// Runs the guards of the tools-list phase, and those of the response
    /// phase, on the list of tools of a server.
    pub fn evaluate_tools_list(&mut self, tools: &Vec<Tool>, context: &GuardContext) -> (res:
        Evaluation)
        ensures
            final(self).generation() == old(self).generation(),
            (final(self).entries(), res@) == chain(
                old(self).entries(),
                InputView::ToolsList { tools: tools_view(tools@) },
                context@,
                0,
                false,
                LogView { invoked: Seq::empty(), warnings: Seq::empty() },
            ),
            res matches Evaluation::Guest(p) ==> p.generation() == old(self).generation(),
    {
        let input = ChainInput::ToolsList { tools: clone_tools(tools) };
        self.run_from(input, context.clone(), 0, false, empty_log())
    }

    /// Runs the guards of the tool-invoke phase, and those of the request
    /// phase, on a tool invocation.
    pub fn evaluate_tool_invoke(
        &mut self,
        tool_name: &str,
        arguments: &Json,
        context: &GuardContext,
    ) -> (res: Evaluation)
        ensures
            final(self).generation() == old(self).generation(),
            (final(self).entries(), res@) == chain(
                old(self).entries(),
                InputView::ToolInvoke { tool_name: tool_name@, arguments: arguments@ },
                context@,
                0,
                false,
                LogView { invoked: Seq::empty(), warnings: Seq::empty() },
            ),
            res matches Evaluation::Guest(p) ==> p.generation() == old(self).generation(),
    {
        let input = ChainInput::ToolInvoke {
            tool_name: tool_name.to_owned(),
            arguments: arguments.clone(),
        };
        self.run_from(input, context.clone(), 0, false, empty_log())
    }

    /// Runs the guards of the response phase on a response.
    pub fn evaluate_response(&mut self, response: &Json, context: &GuardContext) -> (res:
        Evaluation)
        ensures
            final(self).generation() == old(self).generation(),
            (final(self).entries(), res@) == chain(
                old(self).entries(),
                InputView::Response { response: response@ },
                context@,
                0,
                false,
                LogView { invoked: Seq::empty(), warnings: Seq::empty() },
            ),
            res matches Evaluation::Guest(p) ==> p.generation() == old(self).generation(),
    {
        let input = ChainInput::Response { response: response.clone() };
        self.run_from(input, context.clone(), 0, false, empty_log())
    }

    /// What the guard of a guest gave, seen against the time that the guard
    /// is given: the outcome, or a timeout if the call into the guest took
    /// longer, `elapsed_ms` milliseconds.
    pub fn execute_with_timeout(pending: &Pending, elapsed_ms: u64, outcome: GuardResult) -> (res:
        GuardResult)
        ensures
            pending@ matches EndView::Guest { timeout_ms, .. } && result_view(res) == if elapsed_ms
                > timeout_ms {
                Err(ErrorView::Timeout(timeout_ms))
            } else {
                result_view(outcome)
            },
    {
        if elapsed_ms > pending.timeout_ms {
            Err(GuardError::Timeout(pending.timeout_ms))
        } else {
            outcome
        }
    }

    /// Goes on with an evaluation that waited for a guest, given what the
    /// guest's guard decided.
    ///
    /// An evaluation that began before the guards were replaced is not
    /// continued: it ends with an error, and no guard runs.
    pub fn resume(&mut self, pending: Pending, outcome: GuardResult) -> (res: Evaluation)
        ensures
            final(self).generation() == old(self).generation(),
            pending@ matches EndView::Guest { position, input, context, modified, log, .. } && (
            final(self).entries(),
            res@,
        ) == if pending.generation() == old(self).generation() {
                settled(
                    old(self).entries(),
                    input,
                    context,
                    position,
                    modified,
                    log,
                    result_view(outcome),
                )
            } else {
                (old(self).entries(), EndView::Finished { result: Err(reloaded_error()), log })
            },
            res matches Evaluation::Guest(p) ==> p.generation() == old(self).generation(),
    {
        let Pending {
            position,
            input,
            context,
            modified,
            log,
            call: _,
            timeout_ms: _,
            generation,
        } = pending;
        if generation != self.generation {
            return Evaluation::Finished {
                result: Err(
                    GuardError::ExecutionError(
                        "Guards were reloaded during the evaluation".to_owned(),
                    ),
                ),
                log,
            };
        }
        self.settle_at(input, context, position, modified, log, outcome)
    }

    /// Forgets what the guards remember of a server.
    pub fn reset_server(&mut self, server_name: &str)
        ensures
            final(self).generation() == old(self).generation(),
            final(self).entries().len() == old(self).entries().len(),
            forall|i: int|
                0 <= i < old(self).entries().len() ==> #[trigger] final(self).entries()[i] == (
                EntryView {
                    guard: reset_guard(old(self).entries()[i].guard, server_name@),
                    ..old(self).entries()[i]
                }),
    {
        let ghost before = entries_view(self.guards@);
        let mut i: usize = 0;
        while i < self.guards.len()
            invariant
                i <= self.guards@.len(),
                self.guards@.len() == before.len(),
                self.generation == old(self).generation,
                forall|k: int|
                    0 <= k < i ==> #[trigger] entries_view(self.guards@)[k] == (EntryView {
                        guard: reset_guard(before[k].guard, server_name@),
                        ..before[k]
                    }),
                forall|k: int|
                    i <= k < before.len() ==> #[trigger] entries_view(self.guards@)[k] == before[k],
            decreases self.guards@.len() - i,
        {
            let ghost mid = entries_view(self.guards@);
            proof {
                assert(mid[i as int] == self.guards@[i as int]@);
            }
            self.guards[i].guard.reset_server(server_name);
            proof {
                let now = entries_view(self.guards@);
                assert forall|k: int| 0 <= k < before.len() && k != i implies now[k] == mid[k] by {
                    assert(now[k] == self.guards@[k]@);
                }
                assert(now[i as int] == self.guards@[i as int]@);
            }
            i += 1;
        }
    }

    /// For each guard that runs as a component, in the order of the chain,
    /// its identifier with the call that asks its guest for the schema of
    /// its settings and the call that asks for its default configuration.
    pub fn collect_guard_schemas(&self) -> (res: Vec<(String, GuestCall, GuestCall)>)
        ensures
            schema_calls_view(res@) == schema_calls(self.entries(), self.entries().len()),
    {
        let ghost entries = self.entries();
        let mut out: Vec<(String, GuestCall, GuestCall)> = Vec::new();
        let mut i: usize = 0;
        proof {
            assert(schema_calls_view(out@) =~= schema_calls(entries, 0));
        }
        while i < self.guards.len()
            invariant
                i <= self.guards@.len(),
                entries == self.entries(),
                schema_calls_view(out@) == schema_calls(entries, i as nat),
            decreases self.guards@.len() - i,
        {
            proof {
                assert(entries[i as int] == self.guards@[i as int]@);
            }
            match &self.guards[i].guard {
                NativeGuard::Wasm(g) => {
                    let ghost before = schema_calls_view(out@);
                    let item = (g.id().to_owned(), g.get_settings_schema(), g.get_default_config());
                    let ghost iv = (item.0@, item.1@, item.2@);
                    out.push(item);
                    proof {
                        assert(schema_calls_view(out@) =~= before.push(iv));
                    }
                },
                _ => {},
            }
            i += 1;
        }
        out
    }
}

/// Priority order of a chain: the chain lists the guards of the enabled
/// configurations, each once, in ascending order of priority, and guards of
/// equal priority in the order of their configurations.
pub proof fn law_priority_order(configs: Seq<GuardConfigView>)
    ensures
        ({
            let chain = initial_entries(configs);
            let enabled = enabled_entries(configs);
            let perm = stable_order(priorities(enabled));
            &&& chain.len() == enabled.len()
            &&& perm.len() == enabled.len()
            &&& forall|k: int|
                0 <= k < chain.len() ==> 0 <= #[trigger] perm[k] < enabled.len() && chain[k]
                    == enabled[perm[k]]
            &&& forall|a: int, b: int|
                0 <= a < b < chain.len() ==> (#[trigger] chain[a]).priority <= (
                #[trigger] chain[b]).priority
            &&& forall|a: int, b: int|
                0 <= a < b < chain.len() && chain[a].priority == chain[b].priority
                    ==> #[trigger] perm[a] < #[trigger] perm[b]
            &&& forall|a: int, b: int|
                0 <= a < b < chain.len() ==> #[trigger] perm[a] != #[trigger] perm[b]
        }),
{
    let enabled = enabled_entries(configs);
    let keys = priorities(enabled);
    let perm = stable_order(keys);
    lemma_stable_order(keys);
    let chain = initial_entries(configs);
    assert forall|a: int, b: int| 0 <= a < b < chain.len() implies (#[trigger] chain[a]).priority
        <= (#[trigger] chain[b]).priority by {
        assert(comes_before(keys, perm[a], perm[b]));
    }
    assert forall|a: int, b: int|
        0 <= a < b < chain.len() && chain[a].priority == chain[b].priority implies #[trigger] perm[a]
        < #[trigger] perm[b] by {
        assert(comes_before(keys, perm[a], perm[b]));
    }
    assert forall|a: int, b: int| 0 <= a < b < chain.len() implies #[trigger] perm[a]
        != #[trigger] perm[b] by {
        assert(comes_before(keys, perm[a], perm[b]));
    }
}

/// Whether `after` is `before` followed by positions of a chain of `count`
/// guards that are not below `from` and that increase.
pub open spec fn in_order_from(before: Seq<int>, after: Seq<int>, from: int, count: int) -> bool {
    &&& before.len() <= after.len()
    &&& after.subrange(0, before.len() as int) == before
    &&& forall|k: int| before.len() <= k < after.len() ==> from <= #[trigger] after[k] < count
    &&& forall|j: int, k: int|
        before.len() <= j < k < after.len() ==> #[trigger] after[j] < #[trigger] after[k]
}

/// Order of invocation: an evaluation runs guards in the order of the chain,
/// each at most once, and keeps the number of guards.
pub proof fn law_invocation_order(
    guards: Seq<EntryView>,
    input: InputView,
    context: ContextView,
    from: int,
    modified: bool,
    log: LogView,
)
    requires
        0 <= from,
    ensures
        chain(guards, input, context, from, modified, log).0.len() == guards.len(),
        in_order_from(
            log.invoked,
            chain(guards, input, context, from, modified, log).1.log().invoked,
            from,
            guards.len() as int,
        ),
    decreases guards.len() - from, 1int,
{
    let end = chain(guards, input, context, from, modified, log).1.log().invoked;
    if from >= guards.len() {
        assert(end.subrange(0, log.invoked.len() as int) =~= log.invoked);
    } else if !runs_in(guards[from].runs_on, input.phase()) {
        law_invocation_order(guards, input, context, from + 1, modified, log);
    } else {
        let log1 = ran(log, from);
        match guest_call(guards[from].guard, input, context) {
            Some(call) => {
                assert(end == log1.invoked);
                assert(end.subrange(0, log.invoked.len() as int) =~= log.invoked);
            },
            None => {
                let o = native_outcome(guards[from].guard, input, context);
                let next = guards.update(from, EntryView { guard: o.1, ..guards[from] });
                lemma_settled_order(next, input, context, from, modified, log1, o.0);
                assert(end.subrange(0, log1.invoked.len() as int) == log1.invoked);
                assert(end.subrange(0, log.invoked.len() as int) =~= log.invoked) by {
                    assert forall|k: int| 0 <= k < log.invoked.len() implies end[k]
                        == log.invoked[k] by {
                        assert(end.subrange(0, log1.invoked.len() as int)[k] == log1.invoked[k]);
                    }
                }
                assert(end[log.invoked.len() as int] == from) by {
                    assert(end.subrange(0, log1.invoked.len() as int)[log.invoked.len() as int]
                        == log1.invoked[log.invoked.len() as int]);
                }
            },
        }
    }
}

/// Order of invocation from the point where a guard gave its outcome.
pub proof fn lemma_settled_order(
    guards: Seq<EntryView>,
    input: InputView,
    context: ContextView,
    at: int,
    modified: bool,
    log: LogView,
    outcome: Result<DecisionView, ErrorView>,
)
    requires
        0 <= at,
    ensures
        settled(guards, input, context, at, modified, log, outcome).0.len() == guards.len(),
        in_order_from(
            log.invoked,
            settled(guards, input, context, at, modified, log, outcome).1.log().invoked,
            at + 1,
            guards.len() as int,
        ),
    decreases guards.len() - at, 0int,
{
    let end = settled(guards, input, context, at, modified, log, outcome).1.log().invoked;
    if at >= guards.len() {
        assert(end.subrange(0, log.invoked.len() as int) =~= log.invoked);
    } else {
        match outcome {
            Ok(DecisionView::Allow) => {
                law_invocation_order(guards, input, context, at + 1, modified, log);
            },
            Ok(DecisionView::Deny(r)) => {
                assert(end.subrange(0, log.invoked.len() as int) =~= log.invoked);
            },
            Ok(DecisionView::Modify(ModifyView::Transform(v))) => {
                if input.payload() is Some {
                    law_invocation_order(guards, input.with_payload(v), context, at + 1, true, log);
                } else {
                    law_invocation_order(guards, input, context, at + 1, modified, log);
                }
            },
            Ok(DecisionView::Modify(_)) => {
                law_invocation_order(guards, input, context, at + 1, modified, log);
            },
            Err(e) => match guards[at].failure_mode {
                FailureMode::FailClosed => {
                    assert(end.subrange(0, log.invoked.len() as int) =~= log.invoked);
                },
                FailureMode::FailOpen => {
                    law_invocation_order(
                        guards,
                        input,
                        context,
                        at + 1,
                        modified,
                        warned(log, warning_text(guards[at].id, e)),
                    );
                },
            },
        }
    }
}

/// Short circuit on `Deny`: when a guard denies, the evaluation ends with
/// that denial; no guard behind it runs, and no guard changes.
pub proof fn law_deny_short_circuits(
    guards: Seq<EntryView>,
    input: InputView,
    context: ContextView,
    at: int,
    modified: bool,
    log: LogView,
    reason: crate::decision::DenyReasonView,
)
    requires
        0 <= at < guards.len(),
    ensures
        settled(guards, input, context, at, modified, log, Ok(DecisionView::Deny(reason))) == (
            guards,
            EndView::Finished { result: Ok(DecisionView::Deny(reason)), log },
        ),
{
}

/// Short circuit on `Deny`, seen from the chain: when the guard at `from`
/// runs and denies by itself, the evaluation ends there, and that guard is
/// the last that ran.
pub proof fn law_native_deny_ends_chain(
    guards: Seq<EntryView>,
    input: InputView,
    context: ContextView,
    from: int,
    modified: bool,
    log: LogView,
)
    requires
        0 <= from < guards.len(),
        runs_in(guards[from].runs_on, input.phase()),
        guest_call(guards[from].guard, input, context) is None,
        native_outcome(guards[from].guard, input, context).0 matches Ok(DecisionView::Deny(_)),
    ensures
        chain(guards, input, context, from, modified, log).1 == (EndView::Finished {
            result: native_outcome(guards[from].guard, input, context).0,
            log: ran(log, from),
        }),
{
    let o = native_outcome(guards[from].guard, input, context);
    let next = guards.update(from, EntryView { guard: o.1, ..guards[from] });
    assert(next.len() == guards.len());
    assert(settled(next, input, context, from, modified, ran(log, from), o.0).1 == (
        EndView::Finished { result: o.0, log: ran(log, from) }));
}

/// Fail open: when a guard fails and its failure mode is to fail open, the
/// evaluation goes on with the next guard, with a warning that names the
/// guard.
pub proof fn law_fail_open_continues(
    guards: Seq<EntryView>,
    input: InputView,
    context: ContextView,
    at: int,
    modified: bool,
    log: LogView,
    e: ErrorView,
)
    requires
        0 <= at < guards.len(),
        guards[at].failure_mode == FailureMode::FailOpen,
    ensures
        settled(guards, input, context, at, modified, log, Err(e)) == chain(
            guards,
            input,
            context,
            at + 1,
            modified,
            warned(log, warning_text(guards[at].id, e)),
        ),
{
}

} // verus!
