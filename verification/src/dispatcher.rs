//! The dispatcher: the entry point of the bridge.
//!
//! A call arrives as a caller's address and a byte string. The dispatcher
//! prices the call, decodes it, finds the caller's router account, creating
//! and funding it on first use, and hands the promise to the router: to be
//! executed at once for an eager call, to be stored for a delayed one. A call
//! that is turned down changes nothing; its gas is charged all the same.

use crate::costs::{
    CostModel, CROSS_CONTRACT_CALL_BASE, CROSS_CONTRACT_CALL_BYTE, ROUTER_EXEC, ROUTER_SCHEDULE,
};
use crate::error::BridgeError;
use crate::promise::{BridgeCall, BridgeCallView};
use crate::router::{
    action_of, schedule_log, OutboundAction, OutboundActionView, RouterAccount, RouterView,
};
use crate::types::{hex, Address};
use crate::wire::accepted_bridge_call;
use vstd::prelude::*;
use vstd::string::StringExecFns;

verus! {

/// The balance that a new router account is funded with, to pay for the
/// storage that it takes up.
pub const STORAGE_AMOUNT: u128 = 2_000_000_000_000_000_000_000_000;

/// The most gas that may be attached to one outbound call.
pub const MAX_ATTACHED_GAS: u64 = 300_000_000_000_000;

/// What a caller holds of the wrapped native currency, and how much of it the
/// bridge may draw.
#[derive(Clone, Copy, Debug, PartialEq, Eq, Structural)]
pub struct WrappedFunds {
    pub balance: u128,
    pub allowance: u128,
}

/// The fixed configuration of the bridge.
#[derive(Clone, Debug, PartialEq, Eq)]
pub struct BridgeConfig {
    /// The price of a bridging call, in machine gas.
    pub costs: CostModel,
    /// The most gas that may be attached to one outbound call.
    pub max_attached_gas: u64,
    /// The balance that a new router account is funded with.
    pub storage_stake: u128,
    /// The most host gas that a router may spend to execute a promise.
    pub router_exec_gas: u64,
    /// The most host gas that a router may spend to schedule a promise.
    pub router_schedule_gas: u64,
    /// The account of the wrapped native token, handed to every new router.
    pub wnear_account: String,
    /// Whether a new router has to register with the wrapped native token.
    pub must_register: bool,
}

/// The mathematical value of a [`BridgeConfig`].
pub struct BridgeConfigView {
    pub costs: CostModel,
    pub max_attached_gas: u64,
    pub storage_stake: u128,
    pub router_exec_gas: u64,
    pub router_schedule_gas: u64,
    pub wnear_account: Seq<char>,
    pub must_register: bool,
}

impl View for BridgeConfig {
    type V = BridgeConfigView;

    open spec fn view(&self) -> BridgeConfigView {
        BridgeConfigView {
            costs: self.costs,
            max_attached_gas: self.max_attached_gas,
            storage_stake: self.storage_stake,
            router_exec_gas: self.router_exec_gas,
            router_schedule_gas: self.router_schedule_gas,
            wnear_account: self.wnear_account@,
            must_register: self.must_register,
        }
    }
}

impl BridgeConfig {
    /// The configuration with the standard constants, for the given wrapped
    /// native token.
    pub fn standard(wnear_account: String) -> (config: BridgeConfig)
        ensures
            config@ == (BridgeConfigView {
                costs: CostModel {
                    base: CROSS_CONTRACT_CALL_BASE,
                    per_byte: CROSS_CONTRACT_CALL_BYTE,
                },
                max_attached_gas: MAX_ATTACHED_GAS,
                storage_stake: STORAGE_AMOUNT,
                router_exec_gas: ROUTER_EXEC,
                router_schedule_gas: ROUTER_SCHEDULE,
                wnear_account: wnear_account@,
                must_register: true,
            }),
    {
        BridgeConfig {
            costs: CostModel::configured(),
            max_attached_gas: MAX_ATTACHED_GAS,
            storage_stake: STORAGE_AMOUNT,
            router_exec_gas: ROUTER_EXEC,
            router_schedule_gas: ROUTER_SCHEDULE,
            wnear_account,
            must_register: true,
        }
    }
}

/// The name of the router account of `caller` under the engine account
/// `engine_account`: the caller's address in hexadecimal, a dot, and the
/// engine's name.
pub open spec fn router_account_name(caller: Seq<u8>, engine_account: Seq<char>) -> Seq<char> {
    hex(caller) + seq!['.'] + engine_account
}

/// The name of the router account of `caller` under the engine account
/// `engine_account`.
pub fn router_account_id(caller: &Address, engine_account: &str) -> (name: String)
    ensures
        name@ == router_account_name(caller@, engine_account@),
{
    let mut name = caller.encode();
    proof {
        reveal_strlit(".");
    }
    name.append(".");
    name.append(engine_account);
    assert(name@ =~= router_account_name(caller@, engine_account@));
    name
}

/// What a bridging call that went through leaves in the triggering receipt.
#[derive(Clone, Debug, PartialEq, Eq)]
pub struct Receipt {
    /// The outbound actions that the call issued.
    pub actions: Vec<OutboundAction>,
    /// The log records that the call wrote.
    pub logs: Vec<String>,
    /// Whether the call created the caller's router account.
    pub router_created: bool,
    /// The most host gas that the router may spend on the call.
    pub router_gas: u64,
}

/// The mathematical value of a [`Receipt`].
pub struct ReceiptView {
    pub actions: Seq<OutboundActionView>,
    pub logs: Seq<Seq<char>>,
    pub router_created: bool,
    pub router_gas: u64,
}

impl View for Receipt {
    type V = ReceiptView;

    open spec fn view(&self) -> ReceiptView {
        ReceiptView {
            actions: Seq::new(self.actions@.len(), |i: int| self.actions@[i]@),
            logs: Seq::new(self.logs@.len(), |i: int| self.logs@[i]@),
            router_created: self.router_created,
            router_gas: self.router_gas,
        }
    }
}

/// How a bridging call ended: the gas that the caller owes, and the receipt
/// or the reason for which the call was turned down.
#[derive(Debug, PartialEq, Eq)]
pub struct Dispatch {
    pub gas_charged: u128,
    pub outcome: Result<Receipt, BridgeError>,
}

/// The state of the bridge as a mathematical value: its configuration, and
/// the router account of every caller that has one, by the caller's address.
pub struct DispatcherView {
    pub config: BridgeConfigView,
    pub routers: Map<Seq<u8>, RouterView>,
}

/// What a bridging call does, as a mathematical value: the state and the
/// caller's funds after the call, the gas charged, and how the call ended.
pub struct DispatchView {
    pub state: DispatcherView,
    pub funds: WrappedFunds,
    pub gas_charged: nat,
    pub outcome: Result<ReceiptView, BridgeError>,
}

impl DispatcherView {
    /// What holds in every state that the bridge can reach: every router
    /// account is initialized and is in a state that it can reach.
    pub open spec fn wf(self) -> bool {
        forall|owner: Seq<u8>| #[trigger]
            self.routers.contains_key(owner) ==> self.routers[owner].wf()
                && self.routers[owner].initialized
    }

    /// Whether `funds` cover the storage stake of a new router account.
    pub open spec fn can_fund(self, funds: WrappedFunds) -> bool {
        funds.balance >= self.config.storage_stake && funds.allowance >= self.config.storage_stake
    }

    /// A router account as the bridge creates it: initialized with the
    /// configured token account, and nothing scheduled.
    pub open spec fn new_router(self) -> RouterView {
        RouterView {
            initialized: true,
            wnear_account: self.config.wnear_account,
            must_register: self.config.must_register,
            next_nonce: 0,
            scheduled: Map::empty(),
        }
    }

    /// The router account that serves `caller`: the caller's own if there is
    /// one, else a new one.
    pub open spec fn router_for(self, caller: Seq<u8>) -> RouterView {
        if self.routers.contains_key(caller) {
            self.routers[caller]
        } else {
            self.new_router()
        }
    }

    /// What is left of `funds` once the router of `caller` is paid for: all of
    /// it if the caller has a router, else all but the storage stake.
    pub open spec fn funds_after(self, caller: Seq<u8>, funds: WrappedFunds) -> WrappedFunds {
        if self.routers.contains_key(caller) {
            funds
        } else {
            WrappedFunds {
                balance: (funds.balance - self.config.storage_stake) as u128,
                allowance: (funds.allowance - self.config.storage_stake) as u128,
            }
        }
    }

    /// The price of a call with the given input, in machine gas.
    pub open spec fn price(self, input: Seq<u8>) -> nat {
        self.config.costs.price(input.len())
    }

    /// A call that is turned down: nothing changes, and the gas is charged.
    pub open spec fn turned_down(
        self,
        input: Seq<u8>,
        funds: WrappedFunds,
        error: BridgeError,
    ) -> DispatchView {
        DispatchView { state: self, funds, gas_charged: self.price(input), outcome: Err(error) }
    }

    /// What the bridging call `input` from `caller`, who holds `funds`, does
    /// in this state.
    ///
    /// Input that is not the encoding of a valid call is turned down as
    /// malformed. A caller without a router account whose funds do not cover
    /// the storage stake is turned down for insufficient funds. Else the
    /// caller's router account exists after the call, paid for from the funds
    /// if it is new. An eager call issues the one action of its promise and
    /// leaves the router as it is; a delayed call issues nothing, schedules the
    /// promise in the router and logs the nonce.
    pub open spec fn dispatch(self, caller: Seq<u8>, input: Seq<u8>, funds: WrappedFunds)
        -> DispatchView {
        match accepted_bridge_call(input, self.config.max_attached_gas) {
            None => self.turned_down(input, funds, BridgeError::MalformedInput),
            Some(call) => if !self.routers.contains_key(caller) && !self.can_fund(funds) {
                self.turned_down(input, funds, BridgeError::InsufficientFunds)
            } else {
                let router = self.router_for(caller);
                let created = !self.routers.contains_key(caller);
                match call {
                    BridgeCallView::Eager(spec) => DispatchView {
                        state: DispatcherView {
                            routers: self.routers.insert(caller, router),
                            ..self
                        },
                        funds: self.funds_after(caller, funds),
                        gas_charged: self.price(input),
                        outcome: Ok(
                            ReceiptView {
                                actions: seq![action_of(spec)],
                                logs: Seq::empty(),
                                router_created: created,
                                router_gas: self.config.router_exec_gas,
                            },
                        ),
                    },
                    BridgeCallView::Delayed(spec) => DispatchView {
                        state: DispatcherView {
                            routers: self.routers.insert(caller, router.schedule(spec)),
                            ..self
                        },
                        funds: self.funds_after(caller, funds),
                        gas_charged: self.price(input),
                        outcome: Ok(
                            ReceiptView {
                                actions: Seq::empty(),
                                logs: seq![schedule_log(router.next_nonce)],
                                router_created: created,
                                router_gas: self.config.router_schedule_gas,
                            },
                        ),
                    },
                }
            },
        }
    }

    /// What executing the promise scheduled by `caller` under `nonce` does in
    /// this state: turned down if the caller has no router account or nothing
    /// waits there under the nonce; else the promise leaves the router and
    /// becomes one action.
    pub open spec fn execute_scheduled(self, caller: Seq<u8>, nonce: nat) -> Result<
        (DispatcherView, OutboundActionView),
        BridgeError,
    > {
        if !self.routers.contains_key(caller) {
            Err(BridgeError::NotFound)
        } else {
            match self.routers[caller].execute_scheduled(nonce) {
                Ok((router, action)) => Ok(
                    (DispatcherView { routers: self.routers.insert(caller, router), ..self }, action),
                ),
                Err(e) => Err(e),
            }
        }
    }
}

/// When a bridging call goes through, and why it does not: it is turned
/// down as malformed exactly when the input is not the encoding of a valid
/// call, and for insufficient funds exactly when the input is such an
/// encoding, the caller has no router account and the funds do not cover the
/// storage stake. In every other case it goes through.
pub proof fn lemma_dispatch_outcome(
    state: DispatcherView,
    caller: Seq<u8>,
    input: Seq<u8>,
    funds: WrappedFunds,
)
    ensures
        ({
            let done = state.dispatch(caller, input, funds);
            let accepted = accepted_bridge_call(input, state.config.max_attached_gas);
            let served = state.routers.contains_key(caller) || state.can_fund(funds);
            &&& done.outcome is Ok <==> accepted is Some && served
            &&& done.outcome == Err::<ReceiptView, BridgeError>(BridgeError::MalformedInput)
                <==> accepted is None
            &&& done.outcome == Err::<ReceiptView, BridgeError>(BridgeError::InsufficientFunds)
                <==> accepted is Some && !served
        }),
{
}

/// The price of a bridging call is affine in the length of its input, and is
/// charged whether or not the call goes through.
pub proof fn lemma_dispatch_gas(
    state: DispatcherView,
    caller: Seq<u8>,
    input: Seq<u8>,
    funds: WrappedFunds,
)
    ensures
        state.dispatch(caller, input, funds).gas_charged == state.config.costs.base
            + state.config.costs.per_byte * input.len(),
{
}

/// A bridging call that is turned down leaves no trace: the state of the
/// bridge and the caller's funds are what they were.
pub proof fn lemma_dispatch_turned_down(
    state: DispatcherView,
    caller: Seq<u8>,
    input: Seq<u8>,
    funds: WrappedFunds,
)
    requires
        state.dispatch(caller, input, funds).outcome is Err,
    ensures
        state.dispatch(caller, input, funds).state == state,
        state.dispatch(caller, input, funds).funds == funds,
{
}

/// Router accounts are created on first use and never again: after a call
/// that went through the caller has a router account; the call created it
/// exactly if the caller had none; it drew the storage stake from the
/// caller's funds exactly if it created the account, and nothing otherwise;
/// and no other caller's account was touched.
pub proof fn lemma_dispatch_creates_router_once(
    state: DispatcherView,
    caller: Seq<u8>,
    input: Seq<u8>,
    funds: WrappedFunds,
)
    requires
        state.dispatch(caller, input, funds).outcome is Ok,
    ensures
        ({
            let done = state.dispatch(caller, input, funds);
            let created = done.outcome.unwrap().router_created;
            &&& done.state.routers.contains_key(caller)
            &&& done.state.config == state.config
            &&& created == !state.routers.contains_key(caller)
            &&& created ==> funds.balance >= state.config.storage_stake && funds.allowance
                >= state.config.storage_stake && done.funds.balance == funds.balance
                - state.config.storage_stake && done.funds.allowance == funds.allowance
                - state.config.storage_stake
            &&& !created ==> done.funds == funds
            &&& forall|other: Seq<u8>|
                other != caller ==> (#[trigger] done.state.routers.contains_key(other))
                    == state.routers.contains_key(other)
            &&& forall|other: Seq<u8>|
                other != caller && state.routers.contains_key(other)
                    ==> #[trigger] done.state.routers[other] == state.routers[other]
        }),
{
}

/// An eager call issues exactly one outbound action, the action of its
/// promise, in the triggering receipt, writes no log record and schedules
/// nothing.
pub proof fn lemma_dispatch_eager(
    state: DispatcherView,
    caller: Seq<u8>,
    input: Seq<u8>,
    funds: WrappedFunds,
)
    requires
        accepted_bridge_call(input, state.config.max_attached_gas) matches Some(call)
            && call is Eager,
        state.dispatch(caller, input, funds).outcome is Ok,
    ensures
        ({
            let done = state.dispatch(caller, input, funds);
            let receipt = done.outcome.unwrap();
            let spec = accepted_bridge_call(input, state.config.max_attached_gas).unwrap().promise();
            &&& receipt.actions.len() == 1
            &&& receipt.actions[0] == action_of(spec)
            &&& receipt.logs.len() == 0
            &&& receipt.router_gas == state.config.router_exec_gas
            &&& done.state.routers[caller] == state.router_for(caller)
        }),
{
}

/// A delayed call issues no outbound action and adds exactly one scheduled
/// entry: its promise, under the nonce that was next, which the log record
/// names. What was scheduled before stays as it was.
pub proof fn lemma_dispatch_delayed(
    state: DispatcherView,
    caller: Seq<u8>,
    input: Seq<u8>,
    funds: WrappedFunds,
)
    requires
        state.wf(),
        accepted_bridge_call(input, state.config.max_attached_gas) matches Some(call)
            && call is Delayed,
        state.dispatch(caller, input, funds).outcome is Ok,
    ensures
        ({
            let done = state.dispatch(caller, input, funds);
            let receipt = done.outcome.unwrap();
            let spec = accepted_bridge_call(input, state.config.max_attached_gas).unwrap().promise();
            let before = state.router_for(caller);
            let after = done.state.routers[caller];
            &&& receipt.actions.len() == 0
            &&& receipt.logs == seq![schedule_log(before.next_nonce)]
            &&& receipt.router_gas == state.config.router_schedule_gas
            &&& !before.scheduled.contains_key(before.next_nonce)
            &&& after.scheduled == before.scheduled.insert(before.next_nonce, spec)
            &&& after.scheduled.dom() == before.scheduled.dom().insert(before.next_nonce)
            &&& after.next_nonce == before.next_nonce + 1
        }),
{
    let before = state.router_for(caller);
    assert(before.wf());
}

/// A delayed call can be executed later, once: executing under the nonce
/// that the call was scheduled under gives exactly the action of its promise,
/// and executing under that nonce again is turned down as not found.
pub proof fn lemma_delayed_then_executed_once(
    state: DispatcherView,
    caller: Seq<u8>,
    input: Seq<u8>,
    funds: WrappedFunds,
)
    requires
        state.wf(),
        accepted_bridge_call(input, state.config.max_attached_gas) matches Some(call)
            && call is Delayed,
        state.dispatch(caller, input, funds).outcome is Ok,
    ensures
        ({
            let scheduled = state.dispatch(caller, input, funds).state;
            let spec = accepted_bridge_call(input, state.config.max_attached_gas).unwrap().promise();
            let nonce = state.router_for(caller).next_nonce;
            &&& scheduled.execute_scheduled(caller, nonce) matches Ok((executed, action))
                && action == action_of(spec) && executed.execute_scheduled(caller, nonce) == Err::<
                (DispatcherView, OutboundActionView),
                BridgeError,
            >(BridgeError::NotFound)
        }),
{
    lemma_dispatch_delayed(state, caller, input, funds);
}

/// Router accounts are never deleted: whoever has a router account before a
/// bridging call or the execution of a scheduled promise has one after it,
/// however the step ends.
pub proof fn lemma_routers_are_never_deleted(
    state: DispatcherView,
    caller: Seq<u8>,
    input: Seq<u8>,
    funds: WrappedFunds,
    nonce: nat,
    owner: Seq<u8>,
)
    requires
        state.routers.contains_key(owner),
    ensures
        state.dispatch(caller, input, funds).state.routers.contains_key(owner),
        state.execute_scheduled(caller, nonce) matches Ok((after, _))
            ==> after.routers.contains_key(owner),
{
}

/// The bridge stays in a state that it can reach, whatever call arrives.
pub proof fn lemma_dispatch_preserves_wf(
    state: DispatcherView,
    caller: Seq<u8>,
    input: Seq<u8>,
    funds: WrappedFunds,
)
    requires
        state.wf(),
    ensures
        state.dispatch(caller, input, funds).state.wf(),
{
    let done = state.dispatch(caller, input, funds);
    let router = state.router_for(caller);
    assert(router.wf() && router.initialized);
    assert forall|owner: Seq<u8>| #[trigger]
        done.state.routers.contains_key(owner) implies done.state.routers[owner].wf()
        && done.state.routers[owner].initialized by {
        if owner != caller {
            assert(state.routers.contains_key(owner));
        }
    }
}

#[derive(Debug)]
struct RouterEntry {
    owner: Address,
    account: RouterAccount,
}

spec fn has_owner(entries: Seq<RouterEntry>, owner: Seq<u8>) -> bool {
    exists|i: int| 0 <= i < entries.len() && (#[trigger] entries[i]).owner@ == owner
}

spec fn index_of(entries: Seq<RouterEntry>, owner: Seq<u8>) -> int {
    choose|i: int| 0 <= i < entries.len() && (#[trigger] entries[i]).owner@ == owner
}

spec fn routers_of(entries: Seq<RouterEntry>) -> Map<Seq<u8>, RouterView> {
    Map::new(
        |owner: Seq<u8>| has_owner(entries, owner),
        |owner: Seq<u8>| entries[index_of(entries, owner)].account@,
    )
}

spec fn unique_owners(entries: Seq<RouterEntry>) -> bool {
    forall|i: int, j: int|
        0 <= i < j < entries.len() ==> (#[trigger] entries[i]).owner@ != (#[trigger] entries[j]).owner@
}

proof fn lemma_index_of(entries: Seq<RouterEntry>, i: int)
    requires
        unique_owners(entries),
        0 <= i < entries.len(),
    ensures
        has_owner(entries, entries[i].owner@),
        index_of(entries, entries[i].owner@) == i,
        routers_of(entries).contains_key(entries[i].owner@),
        routers_of(entries)[entries[i].owner@] == entries[i].account@,
{
    let found = index_of(entries, entries[i].owner@);
    assert(0 <= found < entries.len() && entries[found].owner@ == entries[i].owner@);
    if found < i {
        assert(entries[found].owner@ != entries[i].owner@);
    } else if i < found {
        assert(entries[i].owner@ != entries[found].owner@);
    }
}

proof fn lemma_routers_update(entries: Seq<RouterEntry>, i: int, entry: RouterEntry)
    requires
        unique_owners(entries),
        0 <= i < entries.len(),
        entry.owner@ == entries[i].owner@,
    ensures
        unique_owners(entries.update(i, entry)),
        routers_of(entries.update(i, entry)) == routers_of(entries).insert(
            entry.owner@,
            entry.account@,
        ),
{
    let after = entries.update(i, entry);
    assert forall|a: int, b: int| 0 <= a < b < after.len() implies (#[trigger] after[a]).owner@ != (
    #[trigger] after[b]).owner@ by {
        assert(after[a].owner@ == entries[a].owner@);
        assert(after[b].owner@ == entries[b].owner@);
    }
    let expected = routers_of(entries).insert(entry.owner@, entry.account@);
    assert forall|owner: Seq<u8>| #[trigger]
        routers_of(after).contains_key(owner) == expected.contains_key(owner) by {
        if has_owner(after, owner) {
            let k = index_of(after, owner);
            assert(entries[k].owner@ == owner);
        }
        if has_owner(entries, owner) {
            let k = index_of(entries, owner);
            assert(after[k].owner@ == owner);
        }
        if owner == entry.owner@ {
            assert(after[i].owner@ == owner);
        }
    }
    assert forall|owner: Seq<u8>| #[trigger] expected.contains_key(owner) implies routers_of(
        after,
    )[owner] == expected[owner] by {
        assert(routers_of(after).contains_key(owner));
        let k = index_of(after, owner);
        lemma_index_of(after, k);
        if k == i {
        } else {
            assert(entries[k].owner@ == owner);
            lemma_index_of(entries, k);
        }
    }
    assert(routers_of(after) =~= expected);
}

proof fn lemma_routers_push(entries: Seq<RouterEntry>, entry: RouterEntry)
    requires
        unique_owners(entries),
        !has_owner(entries, entry.owner@),
    ensures
        unique_owners(entries.push(entry)),
        routers_of(entries.push(entry)) == routers_of(entries).insert(
            entry.owner@,
            entry.account@,
        ),
{
    let after = entries.push(entry);
    assert forall|a: int, b: int| 0 <= a < b < after.len() implies (#[trigger] after[a]).owner@ != (
    #[trigger] after[b]).owner@ by {
        assert(after[a] == entries[a]);
        if b < entries.len() {
            assert(after[b] == entries[b]);
        }
    }
    let expected = routers_of(entries).insert(entry.owner@, entry.account@);
    assert forall|owner: Seq<u8>| #[trigger]
        routers_of(after).contains_key(owner) == expected.contains_key(owner) by {
        if has_owner(after, owner) {
            let k = index_of(after, owner);
            if k < entries.len() {
                assert(entries[k].owner@ == owner);
            }
        }
        if has_owner(entries, owner) {
            let k = index_of(entries, owner);
            assert(after[k].owner@ == owner);
        }
        if owner == entry.owner@ {
            assert(after[entries.len() as int].owner@ == owner);
        }
    }
    assert forall|owner: Seq<u8>| #[trigger] expected.contains_key(owner) implies routers_of(
        after,
    )[owner] == expected[owner] by {
        assert(routers_of(after).contains_key(owner));
        let k = index_of(after, owner);
        lemma_index_of(after, k);
        if k < entries.len() {
            assert(entries[k].owner@ == owner);
            lemma_index_of(entries, k);
        }
    }
    assert(routers_of(after) =~= expected);
}

/// The bridge: its configuration and the router accounts of its callers.
#[derive(Debug)]
pub struct Dispatcher {
    config: BridgeConfig,
    entries: Vec<RouterEntry>,
}

impl View for Dispatcher {
    type V = DispatcherView;

    closed spec fn view(&self) -> DispatcherView {
        DispatcherView { config: self.config@, routers: routers_of(self.entries@) }
    }
}

impl Dispatcher {
    /// Whether the bridge is in a state that it can reach.
    pub closed spec fn wf(&self) -> bool {
        &&& unique_owners(self.entries@)
        &&& forall|i: int|
            0 <= i < self.entries@.len() ==> (#[trigger] self.entries@[i]).account.wf()
                && self.entries@[i].account@.initialized
    }

    /// In a state that the bridge can reach, every router account is
    /// initialized and in a state that it can reach, and its nonces fit in 64
    /// bits.
    pub proof fn lemma_wf(&self)
        requires
            self.wf(),
        ensures
            self@.wf(),
            forall|owner: Seq<u8>| #[trigger]
                self@.routers.contains_key(owner) ==> self@.routers[owner].next_nonce <= u64::MAX,
    {
        assert forall|owner: Seq<u8>| #[trigger] self@.routers.contains_key(owner) implies self@.routers[owner].wf()
            && self@.routers[owner].initialized && self@.routers[owner].next_nonce <= u64::MAX by {
            let k = index_of(self.entries@, owner);
            assert(self.entries@[k].account.wf());
            self.entries@[k].account.lemma_nonce_bound();
        }
    }

    /// A bridge with the given configuration and no router account yet.
    pub fn new(config: BridgeConfig) -> (bridge: Dispatcher)
        ensures
            bridge.wf(),
            bridge@.config == config@,
            bridge@.routers == Map::<Seq<u8>, RouterView>::empty(),
    {
        let bridge = Dispatcher { config, entries: Vec::new() };
        assert(bridge@.routers =~= Map::<Seq<u8>, RouterView>::empty());
        bridge
    }

    /// The configuration of the bridge.
    pub fn config(&self) -> (config: &BridgeConfig)
        ensures
            config@ == self@.config,
    {
        &self.config
    }

    fn find(&self, caller: &Address) -> (found: Option<usize>)
        requires
            self.wf(),
        ensures
            match found {
                Some(i) => i < self.entries@.len() && self.entries@[i as int].owner@ == caller@
                    && self@.routers.contains_key(caller@) && self@.routers[caller@]
                    == self.entries@[i as int].account@,
                None => !has_owner(self.entries@, caller@) && !self@.routers.contains_key(caller@),
            },
    {
        let mut i: usize = 0;
        while i < self.entries.len()
            invariant
                i <= self.entries@.len(),
                self.wf(),
                forall|k: int| 0 <= k < i ==> (#[trigger] self.entries@[k]).owner@ != caller@,
            decreases self.entries@.len() - i,
        {
            if self.entries[i].owner.same_as(caller) {
                proof {
                    lemma_index_of(self.entries@, i as int);
                }
                return Some(i);
            }
            i = i + 1;
        }
        None
    }

    /// Whether `caller` has a router account.
    pub fn has_router(&self, caller: &Address) -> (yes: bool)
        requires
            self.wf(),
        ensures
            yes == self@.routers.contains_key(caller@),
    {
        self.find(caller).is_some()
    }

    /// The nonce that the next promise scheduled by `caller` will get, if
    /// `caller` has a router account.
    pub fn next_nonce_of(&self, caller: &Address) -> (nonce: Option<u64>)
        requires
            self.wf(),
        ensures
            match nonce {
                Some(n) => self@.routers.contains_key(caller@) && self@.routers[caller@].next_nonce
                    == n as nat,
                None => !self@.routers.contains_key(caller@),
            },
    {
        match self.find(caller) {
            Some(i) => Some(self.entries[i].account.next_nonce()),
            None => None,
        }
    }

    /// Whether a promise of `caller` waits under `nonce`.
    pub fn has_scheduled(&self, caller: &Address, nonce: u64) -> (yes: bool)
        requires
            self.wf(),
        ensures
            yes == (self@.routers.contains_key(caller@)
                && self@.routers[caller@].scheduled.contains_key(nonce as nat)),
    {
        match self.find(caller) {
            Some(i) => self.entries[i].account.has_scheduled(nonce),
            None => false,
        }
    }

    /// Handles the bridging call `input` from `caller`, whose holdings of the
    /// wrapped native currency are `funds`, as [`DispatcherView::dispatch`]
    /// says. The funds are drawn on only to pay for a new router account, and
    /// only if the call goes through.
    pub fn dispatch(&mut self, caller: &Address, input: &[u8], funds: &mut WrappedFunds) -> (done:
        Dispatch)
        requires
            old(self).wf(),
            old(self)@.routers.contains_key(caller@) ==> old(self)@.routers[caller@].next_nonce
                < u64::MAX,
        ensures
            final(self).wf(),
            final(self)@ == old(self)@.dispatch(caller@, input@, *old(funds)).state,
            *final(funds) == old(self)@.dispatch(caller@, input@, *old(funds)).funds,
            done.gas_charged as nat == old(self)@.dispatch(caller@, input@, *old(funds)).gas_charged,
            match done.outcome {
                Ok(receipt) => old(self)@.dispatch(caller@, input@, *old(funds)).outcome == Ok::<
                    ReceiptView,
                    BridgeError,
                >(receipt@),
                Err(e) => old(self)@.dispatch(caller@, input@, *old(funds)).outcome == Err::<
                    ReceiptView,
                    BridgeError,
                >(e),
            },
    {
        let gas_charged = self.config.costs.cost(input.len());
        let call = match BridgeCall::try_from_slice(input, self.config.max_attached_gas) {
            Ok(call) => call,
            Err(e) => {
                return Dispatch { gas_charged, outcome: Err(e) };
            },
        };
        let ghost before = self@;
        let (index, created) = match self.find(caller) {
            Some(i) => (i, false),
            None => {
                let stake = self.config.storage_stake;
                if funds.balance < stake || funds.allowance < stake {
                    return Dispatch { gas_charged, outcome: Err(BridgeError::InsufficientFunds) };
                }
                funds.balance = funds.balance - stake;
                funds.allowance = funds.allowance - stake;
                let mut account = RouterAccount::new();
                let _ = account.initialize(
                    self.config.wnear_account.clone(),
                    self.config.must_register,
                );
                let entry = RouterEntry { owner: *caller, account };
                proof {
                    lemma_routers_push(self.entries@, entry);
                    assert(entry.account@.scheduled =~= before.new_router().scheduled);
                    assert(entry.account@ == before.new_router());
                }
                self.entries.push(entry);
                proof {
                    lemma_index_of(self.entries@, self.entries@.len() - 1);
                }
                (self.entries.len() - 1, true)
            },
        };
        assert(self@.routers =~= before.routers.insert(caller@, before.router_for(caller@)));
        match call {
            BridgeCall::Eager(spec) => {
                let action = self.entries[index].account.execute(spec);
                let mut actions: Vec<OutboundAction> = Vec::new();
                actions.push(action);
                let receipt = Receipt {
                    actions,
                    logs: Vec::new(),
                    router_created: created,
                    router_gas: self.config.router_exec_gas,
                };
                proof {
                    let expected = before.dispatch(caller@, input@, *old(funds)).outcome.unwrap();
                    assert(receipt@.actions =~= expected.actions);
                    assert(receipt@.logs =~= expected.logs);
                }
                Dispatch { gas_charged, outcome: Ok(receipt) }
            },
            BridgeCall::Delayed(spec) => {
                let ghost entries = self.entries@;
                let mut entry = self.entries.remove(index);
                let scheduled = entry.account.schedule(spec);
                proof {
                    lemma_routers_update(entries, index as int, entry);
                    assert(entries.remove(index as int).insert(index as int, entry) =~= entries.update(
                        index as int,
                        entry,
                    ));
                }
                self.entries.insert(index, entry);
                let mut logs: Vec<String> = Vec::new();
                logs.push(scheduled.log);
                let receipt = Receipt {
                    actions: Vec::new(),
                    logs,
                    router_created: created,
                    router_gas: self.config.router_schedule_gas,
                };
                proof {
                    let expected = before.dispatch(caller@, input@, *old(funds)).outcome.unwrap();
                    assert(receipt@.actions =~= expected.actions);
                    assert(receipt@.logs =~= expected.logs);
                    assert(self@.routers =~= before.dispatch(
                        caller@,
                        input@,
                        *old(funds),
                    ).state.routers);
                }
                Dispatch { gas_charged, outcome: Ok(receipt) }
            },
        }
    }

    /// Executes the promise that `caller` scheduled under `nonce`, and
    /// removes it, as [`DispatcherView::execute_scheduled`] says.
    pub fn execute_scheduled(&mut self, caller: &Address, nonce: u64) -> (res: Result<
        OutboundAction,
        BridgeError,
    >)
        requires
            old(self).wf(),
        ensures
            final(self).wf(),
            match res {
                Ok(action) => old(self)@.execute_scheduled(caller@, nonce as nat) == Ok::<
                    (DispatcherView, OutboundActionView),
                    BridgeError,
                >((final(self)@, action@)),
                Err(e) => old(self)@.execute_scheduled(caller@, nonce as nat) == Err::<
                    (DispatcherView, OutboundActionView),
                    BridgeError,
                >(e) && final(self)@ == old(self)@,
            },
    {
        let index = match self.find(caller) {
            Some(i) => i,
            None => {
                return Err(BridgeError::NotFound);
            },
        };
        let ghost entries = self.entries@;
        let mut entry = self.entries.remove(index);
        let res = entry.account.execute_scheduled(nonce);
        proof {
            lemma_routers_update(entries, index as int, entry);
            assert(entries.remove(index as int).insert(index as int, entry) =~= entries.update(
                index as int,
                entry,
            ));
        }
        self.entries.insert(index, entry);
        proof {
            if res is Err {
                assert(self@.routers =~= old(self)@.routers);
            }
        }
        res
    }
}

} // verus!
