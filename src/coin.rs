//! Funds attached to a call, and the intents to move funds that calls emit.
use vstd::prelude::*;

verus! {

/// An amount of one denomination.
#[derive(Debug, Clone)]
pub struct Coin {
    pub denom: String,
    pub amount: u128,
}

/// The amount of the first attached coin of `denom`, if any.
pub open spec fn sent_amount(funds: Seq<Coin>, denom: Seq<char>) -> Option<u128>
    decreases funds.len(),
{
    if funds.len() == 0 {
        None
    } else if funds[0].denom@ == denom {
        Some(funds[0].amount)
    } else {
        sent_amount(funds.drop_first(), denom)
    }
}

/// The amount of `denom` attached to the call: the first coin of that denomination.
pub fn must_pay(funds: &Vec<Coin>, denom: &String) -> (r: Option<u128>)
    ensures
        r == sent_amount(funds@, denom@),
{
    let mut i: usize = 0;
    assert(funds@.subrange(0, funds@.len() as int) =~= funds@);
    while i < funds.len()
        invariant
            i <= funds@.len(),
            sent_amount(funds@, denom@) == sent_amount(funds@.subrange(i as int, funds@.len() as int), denom@),
        decreases funds@.len() - i,
    {
        proof {
            let rest = funds@.subrange(i as int, funds@.len() as int);
            assert(rest.drop_first() =~= funds@.subrange(i + 1, funds@.len() as int));
        }
        if funds[i].denom == *denom {
            return Some(funds[i].amount);
        }
        i = i + 1;
    }
    assert(funds@.subrange(i as int, funds@.len() as int).len() == 0);
    None
}

/// Who receives a transfer.
#[derive(Debug, Clone, Copy, PartialEq, Eq, Structural)]
pub enum Payee {
    /// The account that made the call.
    Caller,
    /// The staking yield pool.
    YieldPool,
    /// The liquidity providers.
    LiquidityProviders,
    /// The treasury.
    Treasury,
}

} // verus!
