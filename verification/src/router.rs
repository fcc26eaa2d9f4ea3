//! The router: the per-caller state machine that issues outbound calls on a
//! caller's behalf and keeps the calls that were scheduled for later.
//!
//! A router account starts uninitialized and is initialized exactly once.
//! From then on it can execute a promise at once, schedule a promise under the
//! next free nonce, or execute a scheduled promise, which consumes it.

use crate::decimal::{
    decimal, decimal_value, is_decimal, is_decimal_text, parse_decimal, push_decimal,
};
use crate::error::BridgeError;
use crate::promise::{PromiseCreate, PromiseCreateView, PromiseSpec, PromiseSpecView};
use crate::wire::accepted_promise_spec;
use std::collections::HashMap;
use vstd::prelude::*;
use vstd::string::StringExecFns;

verus! {

broadcast use vstd::std_specs::hash::group_hash_axioms;

/// One call that the host is asked to deliver.
#[derive(Clone, Debug, PartialEq, Eq)]
pub struct OutboundCall {
    /// The account that receives the call.
    pub receiver_id: String,
    /// The method to call on it.
    pub method_name: String,
    /// The arguments handed to the method.
    pub args: Vec<u8>,
    /// The balance that travels with the call.
    pub deposit: u128,
    /// The gas that the call may use.
    pub gas: u64,
}

/// One outbound action: a call and, where the promise asked for one, the
/// callback that the host fires once the call has completed, never before.
#[derive(Clone, Debug, PartialEq, Eq)]
pub struct OutboundAction {
    pub call: OutboundCall,
    pub callback: Option<OutboundCall>,
}

/// What scheduling a promise gives back.
#[derive(Clone, Debug, PartialEq, Eq)]
pub struct Scheduled {
    /// The nonce under which the promise now waits.
    pub nonce: u64,
    /// The log record of the event.
    pub log: String,
}

/// The mathematical value of an [`OutboundCall`].
pub struct OutboundCallView {
    pub receiver_id: Seq<char>,
    pub method_name: Seq<char>,
    pub args: Seq<u8>,
    pub deposit: u128,
    pub gas: u64,
}

/// The mathematical value of an [`OutboundAction`].
pub struct OutboundActionView {
    pub call: OutboundCallView,
    pub callback: Option<OutboundCallView>,
}

impl View for OutboundCall {
    type V = OutboundCallView;

    open spec fn view(&self) -> OutboundCallView {
        OutboundCallView {
            receiver_id: self.receiver_id@,
            method_name: self.method_name@,
            args: self.args@,
            deposit: self.deposit,
            gas: self.gas,
        }
    }
}

impl View for OutboundAction {
    type V = OutboundActionView;

    open spec fn view(&self) -> OutboundActionView {
        OutboundActionView {
            call: self.call@,
            callback: match self.callback {
                Some(callback) => Some(callback@),
                None => None,
            },
        }
    }
}

/// The call that a descriptor asks for: to its target account, with its
/// method, arguments, attached balance and attached gas.
pub open spec fn call_of(create: PromiseCreateView) -> OutboundCallView {
    OutboundCallView {
        receiver_id: create.target_account,
        method_name: create.method,
        args: create.args,
        deposit: create.attached_balance,
        gas: create.attached_gas,
    }
}

/// The one outbound action that a promise turns into.
pub open spec fn action_of(spec: PromiseSpecView) -> OutboundActionView {
    match spec {
        PromiseSpecView::Create(create) => OutboundActionView {
            call: call_of(create),
            callback: None,
        },
        PromiseSpecView::Callback { base, callback } => OutboundActionView {
            call: call_of(base),
            callback: Some(call_of(callback)),
        },
    }
}

/// The log record of a promise scheduled under `nonce`.
pub open spec fn schedule_log(nonce: nat) -> Seq<char> {
    "Promise scheduled at nonce "@ + decimal(nonce)
}

/// The state of a router account, as a mathematical value.
pub struct RouterView {
    pub initialized: bool,
    pub wnear_account: Seq<char>,
    pub must_register: bool,
    pub next_nonce: nat,
    pub scheduled: Map<nat, PromiseSpecView>,
}

impl RouterView {
    /// The state of an account that was never initialized.
    pub open spec fn fresh() -> RouterView {
        RouterView {
            initialized: false,
            wnear_account: Seq::empty(),
            must_register: false,
            next_nonce: 0,
            scheduled: Map::empty(),
        }
    }

    /// What holds in every state that an account can reach: every scheduled
    /// promise waits under a nonce that was handed out, and an account that was
    /// not initialized has handed out none.
    pub open spec fn wf(self) -> bool {
        &&& forall|n: nat| self.scheduled.contains_key(n) ==> n < self.next_nonce
        &&& !self.initialized ==> self.next_nonce == 0
    }

    /// Initialization: turned down if it happened before; else it sets the
    /// configuration and touches nothing else.
    pub open spec fn initialize(self, wnear_account: Seq<char>, must_register: bool) -> Result<
        RouterView,
        BridgeError,
    > {
        if self.initialized {
            Err(BridgeError::AlreadyInitialized)
        } else {
            Ok(RouterView { initialized: true, wnear_account, must_register, ..self })
        }
    }

    /// Scheduling: the promise is stored under the next nonce, and the next
    /// nonce moves up by one.
    pub open spec fn schedule(self, spec: PromiseSpecView) -> RouterView {
        RouterView {
            next_nonce: self.next_nonce + 1,
            scheduled: self.scheduled.insert(self.next_nonce, spec),
            ..self
        }
    }

    /// Scheduling one promise after another, first to last.
    pub open spec fn schedule_all(self, specs: Seq<PromiseSpecView>) -> RouterView
        decreases specs.len(),
    {
        if specs.len() == 0 {
            self
        } else {
            self.schedule_all(specs.drop_last()).schedule(specs.last())
        }
    }

    /// Executing a scheduled promise: turned down if nothing waits under the
    /// nonce; else the promise leaves the account and becomes one action.
    pub open spec fn execute_scheduled(self, nonce: nat) -> Result<
        (RouterView, OutboundActionView),
        BridgeError,
    > {
        if self.scheduled.contains_key(nonce) {
            Ok(
                (
                    RouterView { scheduled: self.scheduled.remove(nonce), ..self },
                    action_of(self.scheduled[nonce]),
                ),
            )
        } else {
            Err(BridgeError::NotFound)
        }
    }
}

/// Nonces start at zero: an account that has just been initialized hands out
/// nonce 0 first, and holds no promise.
pub proof fn lemma_first_nonce_is_zero(wnear_account: Seq<char>, must_register: bool)
    ensures
        RouterView::fresh().wf(),
        RouterView::fresh().initialize(wnear_account, must_register) matches Ok(state)
            && state.wf() && state.initialized && state.next_nonce == 0 && state.scheduled
            == Map::<nat, PromiseSpecView>::empty(),
{
}

/// An account is initialized once: after a first initialization, every
/// further one is turned down.
pub proof fn lemma_initialize_once(
    state: RouterView,
    first: (Seq<char>, bool),
    second: (Seq<char>, bool),
)
    requires
        state.initialize(first.0, first.1) is Ok,
    ensures
        state.initialize(first.0, first.1).unwrap().initialize(second.0, second.1) == Err::<
            RouterView,
            BridgeError,
        >(BridgeError::AlreadyInitialized),
{
}

/// Nonces count up by one: scheduling a run of promises hands out the nonces
/// that follow the last one handed out, in order and without gaps, stores
/// each promise under its nonce, and leaves what was scheduled before as it
/// was.
pub proof fn lemma_nonces_count_up(state: RouterView, specs: Seq<PromiseSpecView>)
    requires
        state.wf(),
        state.initialized,
    ensures
        state.schedule_all(specs).wf(),
        state.schedule_all(specs).initialized,
        state.schedule_all(specs).next_nonce == state.next_nonce + specs.len(),
        forall|i: nat|
            i < specs.len() ==> (#[trigger] state.schedule_all(specs).scheduled.contains_key(
                state.next_nonce + i,
            )) && state.schedule_all(specs).scheduled[state.next_nonce + i] == specs[i as int],
        forall|n: nat| #[trigger]
            state.scheduled.contains_key(n) ==> state.schedule_all(specs).scheduled.contains_key(n)
                && state.schedule_all(specs).scheduled[n] == state.scheduled[n],
        forall|n: nat| #[trigger]
            state.schedule_all(specs).scheduled.contains_key(n) ==> state.scheduled.contains_key(n)
                || state.next_nonce <= n < state.next_nonce + specs.len(),
    decreases specs.len(),
{
    if specs.len() > 0 {
        let earlier = specs.drop_last();
        lemma_nonces_count_up(state, earlier);
        let before = state.schedule_all(earlier);
        let after = state.schedule_all(specs);
        assert(after == before.schedule(specs.last()));
        assert(after.scheduled == before.scheduled.insert(before.next_nonce, specs.last()));
        assert forall|i: nat| i < specs.len() implies (#[trigger] after.scheduled.contains_key(
            state.next_nonce + i,
        )) && after.scheduled[state.next_nonce + i] == specs[i as int] by {
            if i < specs.len() - 1 {
                assert(before.scheduled.contains_key(state.next_nonce + i));
                assert(earlier[i as int] == specs[i as int]);
            }
        }
        assert forall|n: nat| #[trigger] state.scheduled.contains_key(n) implies after.scheduled.contains_key(
            n,
        ) && after.scheduled[n] == state.scheduled[n] by {
            assert(before.scheduled.contains_key(n));
        }
    } else {
        assert(state.schedule_all(specs) == state);
    }
}

/// A scheduled promise is executed at most once: the first execution under a
/// nonce gives the action of the promise that waited there and removes it, and
/// a second execution under the same nonce is turned down.
pub proof fn lemma_execute_scheduled_once(state: RouterView, nonce: nat)
    requires
        state.scheduled.contains_key(nonce),
    ensures
        state.execute_scheduled(nonce) matches Ok((after, action)) && action == action_of(
            state.scheduled[nonce],
        ) && !after.scheduled.contains_key(nonce) && after.execute_scheduled(nonce) == Err::<
            (RouterView, OutboundActionView),
            BridgeError,
        >(BridgeError::NotFound),
{
}

/// A nonce that was never handed out has nothing to execute.
pub proof fn lemma_execute_unscheduled(state: RouterView, nonce: nat)
    requires
        state.wf(),
        nonce >= state.next_nonce,
    ensures
        state.execute_scheduled(nonce) == Err::<(RouterView, OutboundActionView), BridgeError>(
            BridgeError::NotFound,
        ),
{
}

/// A router account.
#[derive(Debug)]
pub struct RouterAccount {
    initialized: bool,
    wnear_account: String,
    must_register: bool,
    next_nonce: u64,
    scheduled: HashMap<u64, PromiseSpec>,
}

impl View for RouterAccount {
    type V = RouterView;

    closed spec fn view(&self) -> RouterView {
        RouterView {
            initialized: self.initialized,
            wnear_account: self.wnear_account@,
            must_register: self.must_register,
            next_nonce: self.next_nonce as nat,
            scheduled: Map::new(
                |n: nat| n <= u64::MAX && self.scheduled@.contains_key(n as u64),
                |n: nat| self.scheduled@[n as u64]@,
            ),
        }
    }
}

fn into_call(create: PromiseCreate) -> (call: OutboundCall)
    ensures
        call@ == call_of(create@),
{
    OutboundCall {
        receiver_id: create.target_account,
        method_name: create.method,
        args: create.args,
        deposit: create.attached_balance,
        gas: create.attached_gas,
    }
}

/// Turns a promise into the one outbound action that it asks for.
pub fn into_action(spec: PromiseSpec) -> (action: OutboundAction)
    ensures
        action@ == action_of(spec@),
{
    match spec {
        PromiseSpec::Create(create) => OutboundAction { call: into_call(create), callback: None },
        PromiseSpec::Callback { base, callback } => OutboundAction {
            call: into_call(base),
            callback: Some(into_call(callback)),
        },
    }
}

impl RouterAccount {
    /// Whether the account is in a state that it can reach.
    pub open spec fn wf(&self) -> bool {
        self@.wf()
    }

    /// Nonces fit in 64 bits.
    pub proof fn lemma_nonce_bound(&self)
        ensures
            self@.next_nonce <= u64::MAX,
            forall|n: nat| self@.scheduled.contains_key(n) ==> n <= u64::MAX,
    {
    }

    /// An account that was never initialized.
    pub fn new() -> (account: RouterAccount)
        ensures
            account@ == RouterView::fresh(),
            account.wf(),
    {
        let account = RouterAccount {
            initialized: false,
            wnear_account: String::new(),
            must_register: false,
            next_nonce: 0,
            scheduled: HashMap::new(),
        };
        assert(account@.scheduled =~= Map::<nat, PromiseSpecView>::empty());
        account
    }

    /// Initializes the account. This works once: a second call is turned down
    /// with [`BridgeError::AlreadyInitialized`] and changes nothing.
    pub fn initialize(&mut self, wnear_account: String, must_register: bool) -> (res: Result<
        (),
        BridgeError,
    >)
        requires
            old(self).wf(),
        ensures
            final(self).wf(),
            match res {
                Ok(()) => old(self)@.initialize(wnear_account@, must_register) == Ok::<
                    RouterView,
                    BridgeError,
                >(final(self)@),
                Err(e) => old(self)@.initialize(wnear_account@, must_register) == Err::<
                    RouterView,
                    BridgeError,
                >(e) && final(self)@ == old(self)@,
            },
    {
        if self.initialized {
            return Err(BridgeError::AlreadyInitialized);
        }
        self.initialized = true;
        self.wnear_account = wnear_account;
        self.must_register = must_register;
        assert(self@.scheduled =~= old(self)@.scheduled);
        Ok(())
    }

    /// Whether the account was initialized.
    pub fn is_initialized(&self) -> (yes: bool)
        ensures
            yes == self@.initialized,
    {
        self.initialized
    }

    /// The account of the wrapped native token that the account was
    /// initialized with.
    pub fn wnear_account(&self) -> (account: &str)
        ensures
            account@ == self@.wnear_account,
    {
        self.wnear_account.as_str()
    }

    /// Whether the account has to register with the wrapped native token
    /// before first use.
    pub fn must_register(&self) -> (yes: bool)
        ensures
            yes == self@.must_register,
    {
        self.must_register
    }

    /// The nonce that the next scheduled promise will get.
    pub fn next_nonce(&self) -> (nonce: u64)
        ensures
            nonce as nat == self@.next_nonce,
    {
        self.next_nonce
    }

    /// Whether a promise waits under `nonce`.
    pub fn has_scheduled(&self, nonce: u64) -> (yes: bool)
        ensures
            yes == self@.scheduled.contains_key(nonce as nat),
    {
        self.scheduled.contains_key(&nonce)
    }

    /// The number of promises that wait to be executed.
    pub fn scheduled_len(&self) -> (len: usize)
        ensures
            len == self@.scheduled.len(),
            self@.scheduled.dom().finite(),
    {
        proof {
            self.lemma_scheduled_len();
        }
        self.scheduled.len()
    }

    proof fn lemma_scheduled_len(&self)
        ensures
            self@.scheduled.dom().finite(),
            self@.scheduled.len() == self.scheduled@.len(),
    {
        let keys = self.scheduled@.dom();
        let lifted = keys.map(|k: u64| k as nat);
        assert(self@.scheduled.dom() =~= lifted) by {
            assert forall|n: nat| self@.scheduled.dom().contains(n) implies lifted.contains(n) by {
                assert(keys.contains(n as u64));
            }
        }
        vstd::set_lib::lemma_map_size(keys, lifted, |k: u64| k as nat);
        keys.lemma_map_finite(|k: u64| k as nat);
    }

    /// Stores a promise for later execution under the next nonce and says so
    /// in a log record. No action is issued.
    pub fn schedule(&mut self, spec: PromiseSpec) -> (scheduled: Scheduled)
        requires
            old(self).wf(),
            old(self)@.initialized,
            old(self)@.next_nonce < u64::MAX,
        ensures
            final(self).wf(),
            final(self)@ == old(self)@.schedule(spec@),
            scheduled.nonce as nat == old(self)@.next_nonce,
            scheduled.log@ == schedule_log(old(self)@.next_nonce),
    {
        let nonce = self.next_nonce;
        let ghost value = spec@;
        self.scheduled.insert(nonce, spec);
        self.next_nonce = nonce + 1;
        let mut log = String::from_str("Promise scheduled at nonce ");
        push_decimal(&mut log, nonce);
        assert(self@.scheduled =~= old(self)@.scheduled.insert(nonce as nat, value));
        Scheduled { nonce, log }
    }

    /// Turns a promise into one outbound action at once. The account itself
    /// does not change.
    pub fn execute(&self, spec: PromiseSpec) -> (action: OutboundAction)
        requires
            self.wf(),
            self@.initialized,
        ensures
            action@ == action_of(spec@),
    {
        into_action(spec)
    }

    /// Executes the promise that waits under `nonce`, and removes it: state
    /// change and action come together or not at all. Turned down with
    /// [`BridgeError::NotFound`] if nothing waits under `nonce`.
    pub fn execute_scheduled(&mut self, nonce: u64) -> (res: Result<OutboundAction, BridgeError>)
        requires
            old(self).wf(),
            old(self)@.initialized,
        ensures
            final(self).wf(),
            match res {
                Ok(action) => old(self)@.execute_scheduled(nonce as nat) == Ok::<
                    (RouterView, OutboundActionView),
                    BridgeError,
                >((final(self)@, action@)),
                Err(e) => old(self)@.execute_scheduled(nonce as nat) == Err::<
                    (RouterView, OutboundActionView),
                    BridgeError,
                >(e) && final(self)@ == old(self)@,
            },
    {
        match self.scheduled.remove(&nonce) {
            Some(spec) => {
                assert(self@.scheduled =~= old(self)@.scheduled.remove(nonce as nat));
                Ok(into_action(spec))
            },
            None => {
                assert(self@.scheduled =~= old(self)@.scheduled);
                Err(BridgeError::NotFound)
            },
        }
    }

    /// The `schedule` entry point: decodes `input` as a promise and schedules
    /// it. Input that is not the encoding of a valid promise is turned down
    /// with [`BridgeError::MalformedInput`] and changes nothing.
    pub fn schedule_encoded(&mut self, input: &[u8], max_gas: u64) -> (res: Result<
        Scheduled,
        BridgeError,
    >)
        requires
            old(self).wf(),
            old(self)@.initialized,
            old(self)@.next_nonce < u64::MAX,
        ensures
            final(self).wf(),
            match res {
                Ok(scheduled) => accepted_promise_spec(input@, max_gas) matches Some(spec)
                    && final(self)@ == old(self)@.schedule(spec) && scheduled.nonce as nat == old(
                    self,
                )@.next_nonce && scheduled.log@ == schedule_log(old(self)@.next_nonce),
                Err(e) => e == BridgeError::MalformedInput && accepted_promise_spec(
                    input@,
                    max_gas,
                ) is None && final(self)@ == old(self)@,
            },
    {
        match PromiseSpec::try_from_slice(input, max_gas) {
            Ok(spec) => Ok(self.schedule(spec)),
            Err(e) => Err(e),
        }
    }

    /// The `execute` entry point: decodes `input` as a promise and turns it
    /// into one outbound action. Input that is not the encoding of a valid
    /// promise is turned down with [`BridgeError::MalformedInput`].
    pub fn execute_encoded(&self, input: &[u8], max_gas: u64) -> (res: Result<
        OutboundAction,
        BridgeError,
    >)
        requires
            self.wf(),
            self@.initialized,
        ensures
            match res {
                Ok(action) => accepted_promise_spec(input@, max_gas) matches Some(spec)
                    && action@ == action_of(spec),
                Err(e) => e == BridgeError::MalformedInput && accepted_promise_spec(
                    input@,
                    max_gas,
                ) is None,
            },
    {
        match PromiseSpec::try_from_slice(input, max_gas) {
            Ok(spec) => Ok(self.execute(spec)),
            Err(e) => Err(e),
        }
    }

    /// The `execute_scheduled` entry point, which takes its nonce as decimal
    /// text. Text that is not decimal is turned down with
    /// [`BridgeError::MalformedInput`]; decimal text is read as a nonce and
    /// handled as [`RouterAccount::execute_scheduled`] handles it.
    pub fn execute_scheduled_text(&mut self, nonce: &str) -> (res: Result<
        OutboundAction,
        BridgeError,
    >)
        requires
            old(self).wf(),
            old(self)@.initialized,
        ensures
            final(self).wf(),
            !is_decimal(nonce@) ==> res == Err::<OutboundAction, BridgeError>(
                BridgeError::MalformedInput,
            ) && final(self)@ == old(self)@,
            is_decimal(nonce@) ==> match res {
                Ok(action) => old(self)@.execute_scheduled(decimal_value(nonce@)) == Ok::<
                    (RouterView, OutboundActionView),
                    BridgeError,
                >((final(self)@, action@)),
                Err(e) => old(self)@.execute_scheduled(decimal_value(nonce@)) == Err::<
                    (RouterView, OutboundActionView),
                    BridgeError,
                >(e) && final(self)@ == old(self)@,
            },
    {
        if !is_decimal_text(nonce) {
            return Err(BridgeError::MalformedInput);
        }
        match parse_decimal(nonce) {
            Some(n) => self.execute_scheduled(n),
            None => {
                proof {
                    self.lemma_nonce_bound();
                }
                Err(BridgeError::NotFound)
            },
        }
    }
}

} // verus!
