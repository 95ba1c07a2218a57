//! The Ethereum methods that the balancer treats apart.

use crate::text::same;
use vstd::prelude::*;

verus! {

#[derive(Clone, Copy, PartialEq, Eq, Structural)]
pub enum EthRpcMethod {
    BlockNumber,
    Syncing,
    GetBalance,
    GetStorageAt,
    GetTransactionCount,
    GetBlockTransactionCountByNumber,
    GetBlockByNumber,
    Subscribe,
    Unsubscribe,
    Subscription,
}

impl EthRpcMethod {
    /// The name of the method.
    pub open spec fn name(self) -> Seq<char> {
        match self {
            EthRpcMethod::BlockNumber => "eth_blockNumber"@,
            EthRpcMethod::Syncing => "eth_syncing"@,
            EthRpcMethod::GetBalance => "eth_getBalance"@,
            EthRpcMethod::GetStorageAt => "eth_getStorageAt"@,
            EthRpcMethod::GetTransactionCount => "eth_getTransactionCount"@,
            EthRpcMethod::GetBlockTransactionCountByNumber => "eth_getBlockTransactionCountByNumber"@,
            EthRpcMethod::GetBlockByNumber => "eth_getBlockByNumber"@,
            EthRpcMethod::Subscribe => "eth_subscribe"@,
            EthRpcMethod::Unsubscribe => "eth_unsubscribe"@,
            EthRpcMethod::Subscription => "eth_subscription"@,
        }
    }

    /// The name of the method.
    pub fn as_str(&self) -> (name: &'static str)
        ensures
            name@ == self.name(),
    {
        match self {
            EthRpcMethod::BlockNumber => "eth_blockNumber",
            EthRpcMethod::Syncing => "eth_syncing",
            EthRpcMethod::GetBalance => "eth_getBalance",
            EthRpcMethod::GetStorageAt => "eth_getStorageAt",
            EthRpcMethod::GetTransactionCount => "eth_getTransactionCount",
            EthRpcMethod::GetBlockTransactionCountByNumber => "eth_getBlockTransactionCountByNumber",
            EthRpcMethod::GetBlockByNumber => "eth_getBlockByNumber",
            EthRpcMethod::Subscribe => "eth_subscribe",
            EthRpcMethod::Unsubscribe => "eth_unsubscribe",
            EthRpcMethod::Subscription => "eth_subscription",
        }
    }

    /// Where among the parameters of a method the block stands.
    pub fn get_position(method: Option<&str>) -> (position: Option<usize>)
        ensures
            position == block_position(
                match method {
                    Some(name) => Some(name@),
                    None => None,
                },
            ),
    {
        match method {
            None => None,
            Some(name) => if same(name, "eth_getBlockByNumber") || same(
                name,
                "eth_getBlockTransactionCountByNumber",
            ) {
                Some(0)
            } else if same(name, "eth_getBalance") || same(name, "eth_getTransactionCount") {
                Some(1)
            } else if same(name, "eth_getStorageAt") {
                Some(2)
            } else {
                None
            },
        }
    }
}

/// Where among the parameters of a method the block stands.
pub open spec fn block_position(method: Option<Seq<char>>) -> Option<usize> {
    match method {
        None => None,
        Some(name) => if name == EthRpcMethod::GetBlockByNumber.name() || name
            == EthRpcMethod::GetBlockTransactionCountByNumber.name() {
            Some(0)
        } else if name == EthRpcMethod::GetBalance.name() || name
            == EthRpcMethod::GetTransactionCount.name() {
            Some(1)
        } else if name == EthRpcMethod::GetStorageAt.name() {
            Some(2)
        } else {
            None
        },
    }
}

/// The parameter that names a block is the first, the second or the third, for five methods; no
/// other method has one, and neither has a request without a method.
pub proof fn law_block_stands_where_the_method_says(
    method: Option<&str>,
    position: Option<usize>,
)
    requires
        call_ensures(EthRpcMethod::get_position, (method,), position),
    ensures
        method is None ==> position is None,
        method is Some ==> {
            let name = method->0@;
            &&& (position == Some(0usize) <==> name == "eth_getBlockByNumber"@ || name
                == "eth_getBlockTransactionCountByNumber"@)
            &&& (position == Some(1usize) <==> name == "eth_getBalance"@ || name
                == "eth_getTransactionCount"@)
            &&& (position == Some(2usize) <==> name == "eth_getStorageAt"@)
            &&& position is Some ==> position->0 <= 2
        },
{
    lemma_names_differ();
}

proof fn lemma_names_differ()
    ensures
        "eth_getBlockByNumber"@.len() == 20,
        "eth_getBlockTransactionCountByNumber"@.len() == 36,
        "eth_getBalance"@.len() == 14,
        "eth_getTransactionCount"@.len() == 23,
        "eth_getStorageAt"@.len() == 16,
{
    reveal_strlit("eth_getBlockByNumber");
    reveal_strlit("eth_getBlockTransactionCountByNumber");
    reveal_strlit("eth_getBalance");
    reveal_strlit("eth_getTransactionCount");
    reveal_strlit("eth_getStorageAt");
}

/// The methods go by the names that nodes know them by.
pub proof fn law_methods_have_their_names(method: &EthRpcMethod, name: &'static str)
    requires
        call_ensures(EthRpcMethod::as_str, (method,), name),
    ensures
        *method == EthRpcMethod::BlockNumber ==> name@ == "eth_blockNumber"@,
        *method == EthRpcMethod::Syncing ==> name@ == "eth_syncing"@,
        *method == EthRpcMethod::GetBalance ==> name@ == "eth_getBalance"@,
        *method == EthRpcMethod::GetStorageAt ==> name@ == "eth_getStorageAt"@,
        *method == EthRpcMethod::GetTransactionCount ==> name@ == "eth_getTransactionCount"@,
        *method == EthRpcMethod::GetBlockTransactionCountByNumber ==> name@
            == "eth_getBlockTransactionCountByNumber"@,
        *method == EthRpcMethod::GetBlockByNumber ==> name@ == "eth_getBlockByNumber"@,
        *method == EthRpcMethod::Subscribe ==> name@ == "eth_subscribe"@,
        *method == EthRpcMethod::Unsubscribe ==> name@ == "eth_unsubscribe"@,
        *method == EthRpcMethod::Subscription ==> name@ == "eth_subscription"@,
{
}

} // verus!
