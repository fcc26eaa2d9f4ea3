//! Descriptors of outbound calls, and the rules that a descriptor must meet
//! before the bridge accepts it.

use vstd::prelude::*;
use vstd::utf8::{is_ascii_chars, is_ascii_chars_encode_utf8};

verus! {

/// Greatest length of an account identifier, in characters.
pub const MAX_ACCOUNT_ID_LEN: usize = 64;

/// Least length of an account identifier, in characters.
pub const MIN_ACCOUNT_ID_LEN: usize = 2;

/// Greatest length of a method name, in characters.
pub const MAX_METHOD_NAME_LEN: usize = 256;

/// A descriptor of one outbound call.
#[derive(Clone, Debug, PartialEq, Eq)]
pub struct PromiseCreate {
    /// The account that receives the call.
    pub target_account: String,
    /// The method to call on it.
    pub method: String,
    /// The arguments handed to the method.
    pub args: Vec<u8>,
    /// The balance attached to the call, in the smallest host currency unit.
    pub attached_balance: u128,
    /// The gas attached to the call, in host compute units.
    pub attached_gas: u64,
}

/// What a bridging call asks the host to do.
#[derive(Clone, Debug, PartialEq, Eq)]
pub enum PromiseSpec {
    /// A single outbound call.
    Create(PromiseCreate),
    /// An outbound call whose result feeds a second call.
    Callback { base: PromiseCreate, callback: PromiseCreate },
}

/// A call into the bridge.
#[derive(Clone, Debug, PartialEq, Eq)]
pub enum BridgeCall {
    /// Issue the promise now.
    Eager(PromiseSpec),
    /// Store the promise, to be issued later.
    Delayed(PromiseSpec),
}

/// The mathematical value of a [`PromiseCreate`].
pub struct PromiseCreateView {
    pub target_account: Seq<char>,
    pub method: Seq<char>,
    pub args: Seq<u8>,
    pub attached_balance: u128,
    pub attached_gas: u64,
}

/// The mathematical value of a [`PromiseSpec`].
pub enum PromiseSpecView {
    Create(PromiseCreateView),
    Callback { base: PromiseCreateView, callback: PromiseCreateView },
}

/// The mathematical value of a [`BridgeCall`].
pub enum BridgeCallView {
    Eager(PromiseSpecView),
    Delayed(PromiseSpecView),
}

impl View for PromiseCreate {
    type V = PromiseCreateView;

    open spec fn view(&self) -> PromiseCreateView {
        PromiseCreateView {
            target_account: self.target_account@,
            method: self.method@,
            args: self.args@,
            attached_balance: self.attached_balance,
            attached_gas: self.attached_gas,
        }
    }
}

impl View for PromiseSpec {
    type V = PromiseSpecView;

    open spec fn view(&self) -> PromiseSpecView {
        match self {
            PromiseSpec::Create(create) => PromiseSpecView::Create(create@),
            PromiseSpec::Callback { base, callback } => PromiseSpecView::Callback {
                base: base@,
                callback: callback@,
            },
        }
    }
}

impl View for BridgeCall {
    type V = BridgeCallView;

    open spec fn view(&self) -> BridgeCallView {
        match self {
            BridgeCall::Eager(spec) => BridgeCallView::Eager(spec@),
            BridgeCall::Delayed(spec) => BridgeCallView::Delayed(spec@),
        }
    }
}

/// An ASCII letter or digit.
pub open spec fn is_alphanumeric(c: char) -> bool {
    ('a' <= c && c <= 'z') || ('A' <= c && c <= 'Z') || ('0' <= c && c <= '9')
}

/// One of the characters that may part two runs of letters and digits in an
/// account identifier.
pub open spec fn is_separator(c: char) -> bool {
    c == '-' || c == '_' || c == '.'
}

/// Whether `s` is a well-formed account identifier: 2 to 64 characters, each
/// an ASCII letter, a digit or a separator, with no separator at either end
/// and no two separators in a row.
pub open spec fn is_account_id(s: Seq<char>) -> bool {
    &&& MIN_ACCOUNT_ID_LEN <= s.len() <= MAX_ACCOUNT_ID_LEN
    &&& forall|i: int| 0 <= i < s.len() ==> is_alphanumeric(#[trigger] s[i]) || is_separator(s[i])
    &&& !is_separator(s[0])
    &&& forall|i: int| 0 <= i < s.len() && is_separator(#[trigger] s[i]) ==> i + 1 < s.len()
        && !is_separator(s[i + 1])
}

/// Whether `s` is a well-formed method name: 1 to 256 characters, each an
/// ASCII letter, a digit or an underscore.
pub open spec fn is_method_name(s: Seq<char>) -> bool {
    &&& 1 <= s.len() <= MAX_METHOD_NAME_LEN
    &&& forall|i: int| 0 <= i < s.len() ==> is_alphanumeric(#[trigger] s[i]) || s[i] == '_'
}

impl PromiseCreateView {
    /// Whether the bridge accepts this descriptor when at most `max_gas` may be
    /// attached to one call.
    pub open spec fn is_valid(self, max_gas: u64) -> bool {
        &&& is_account_id(self.target_account)
        &&& is_method_name(self.method)
        &&& self.attached_gas <= max_gas
    }
}

impl PromiseSpecView {
    /// Whether every descriptor in the promise is valid.
    pub open spec fn is_valid(self, max_gas: u64) -> bool {
        match self {
            PromiseSpecView::Create(create) => create.is_valid(max_gas),
            PromiseSpecView::Callback { base, callback } => base.is_valid(max_gas)
                && callback.is_valid(max_gas),
        }
    }

    /// The number of descriptors in the promise.
    pub open spec fn call_count(self) -> nat {
        match self {
            PromiseSpecView::Create(_) => 1,
            PromiseSpecView::Callback { .. } => 2,
        }
    }
}

impl BridgeCallView {
    /// The promise that the call carries.
    pub open spec fn promise(self) -> PromiseSpecView {
        match self {
            BridgeCallView::Eager(spec) => spec,
            BridgeCallView::Delayed(spec) => spec,
        }
    }

    /// Whether the promise that the call carries is valid.
    pub open spec fn is_valid(self, max_gas: u64) -> bool {
        self.promise().is_valid(max_gas)
    }
}

fn byte_is_alphanumeric(b: u8) -> (yes: bool)
    ensures
        yes == is_alphanumeric(b as char),
{
    // 'a' to 'z', 'A' to 'Z', '0' to '9'
    (b >= 97 && b <= 122) || (b >= 65 && b <= 90) || (b >= 48 && b <= 57)
}

fn byte_is_separator(b: u8) -> (yes: bool)
    ensures
        yes == is_separator(b as char),
{
    // '-', '_', '.'
    b == 45 || b == 95 || b == 46
}

/// Decides whether `s` is a well-formed account identifier.
pub fn valid_account_id(s: &str) -> (valid: bool)
    ensures
        valid == is_account_id(s@),
{
    if !s.is_ascii() {
        return false;
    }
    let bytes = s.as_bytes();
    let n = bytes.len();
    proof {
        is_ascii_chars_encode_utf8(s@);
        assert(forall|i: int| 0 <= i < n ==> (bytes@[i] as char) == #[trigger] s@[i]);
    }
    if n < MIN_ACCOUNT_ID_LEN || n > MAX_ACCOUNT_ID_LEN {
        return false;
    }
    let mut i: usize = 0;
    let mut after_separator: bool = true;
    while i < n
        invariant
            i <= n == bytes@.len() == s@.len(),
            forall|k: int| 0 <= k < n ==> (bytes@[k] as char) == #[trigger] s@[k],
            forall|k: int| 0 <= k < i ==> is_alphanumeric(#[trigger] s@[k]) || is_separator(s@[k]),
            forall|k: int|
                0 <= k < i && is_separator(#[trigger] s@[k]) ==> k + 1 <= i && (k + 1 < i
                    ==> !is_separator(s@[k + 1])),
            after_separator == (i == 0 || is_separator(s@[i - 1])),
            i > 0 ==> !is_separator(s@[0]),
        decreases n - i,
    {
        let b = bytes[i];
        if byte_is_separator(b) {
            if after_separator {
                proof {
                    if i > 0 {
                        assert(is_separator(s@[i - 1]) && is_separator(s@[i as int]));
                    }
                }
                return false;
            }
            after_separator = true;
        } else if byte_is_alphanumeric(b) {
            after_separator = false;
        } else {
            assert(!(is_alphanumeric(s@[i as int]) || is_separator(s@[i as int])));
            return false;
        }
        i = i + 1;
    }
    proof {
        if after_separator {
            assert(is_separator(s@[n - 1]));
        }
    }
    !after_separator
}

/// Decides whether `s` is a well-formed method name.
pub fn valid_method_name(s: &str) -> (valid: bool)
    ensures
        valid == is_method_name(s@),
{
    if !s.is_ascii() {
        return false;
    }
    let bytes = s.as_bytes();
    let n = bytes.len();
    proof {
        is_ascii_chars_encode_utf8(s@);
        assert(forall|i: int| 0 <= i < n ==> (bytes@[i] as char) == #[trigger] s@[i]);
    }
    if n < 1 || n > MAX_METHOD_NAME_LEN {
        return false;
    }
    let mut i: usize = 0;
    while i < n
        invariant
            i <= n == bytes@.len() == s@.len(),
            forall|k: int| 0 <= k < n ==> (bytes@[k] as char) == #[trigger] s@[k],
            forall|k: int| 0 <= k < i ==> is_alphanumeric(#[trigger] s@[k]) || s@[k] == '_',
        decreases n - i,
    {
        let b = bytes[i];
        if !(byte_is_alphanumeric(b) || b == 95) {
            assert(!(is_alphanumeric(s@[i as int]) || s@[i as int] == '_'));
            return false;
        }
        i = i + 1;
    }
    true
}

impl PromiseCreate {
    /// Decides whether the bridge accepts this descriptor when at most
    /// `max_gas` may be attached to one call.
    pub fn is_valid(&self, max_gas: u64) -> (valid: bool)
        ensures
            valid == self@.is_valid(max_gas),
    {
        valid_account_id(self.target_account.as_str()) && valid_method_name(self.method.as_str())
            && self.attached_gas <= max_gas
    }
}

impl PromiseSpec {
    /// Decides whether every descriptor in the promise is valid.
    pub fn is_valid(&self, max_gas: u64) -> (valid: bool)
        ensures
            valid == self@.is_valid(max_gas),
    {
        match self {
            PromiseSpec::Create(create) => create.is_valid(max_gas),
            PromiseSpec::Callback { base, callback } => base.is_valid(max_gas) && callback.is_valid(
                max_gas,
            ),
        }
    }
}

} // verus!
