//! Checking the funds attached to a message.
use vstd::prelude::*;
use crate::error::PaymentError;
use crate::msg::Coin;

verus! {

/// The outcome of requiring exactly one coin of `denom`, with a nonzero amount:
/// no coin (or one of amount zero) means no funds; several coins, several
/// denominations; one coin of another denomination, the missing denomination.
pub open spec fn spec_must_pay(funds: Seq<Coin>, denom: Seq<char>) -> Result<u128, PaymentError> {
    if funds.len() == 0 {
        Err(PaymentError::NoFunds)
    } else if funds.len() > 1 {
        Err(PaymentError::MultipleDenoms)
    } else if funds[0].amount == 0 {
        Err(PaymentError::NoFunds)
    } else if funds[0].denom@ != denom {
        Err(PaymentError::MissingDenom(arbitrary()))
    } else {
        Ok(funds[0].amount)
    }
}

/// `e` is the error the payment check reports for these funds.
pub open spec fn is_payment_error(funds: Seq<Coin>, denom: Seq<char>, e: PaymentError) -> bool {
    if funds.len() == 0 {
        e == PaymentError::NoFunds
    } else if funds.len() > 1 {
        e == PaymentError::MultipleDenoms
    } else if funds[0].amount == 0 {
        e == PaymentError::NoFunds
    } else if funds[0].denom@ != denom {
        e matches PaymentError::MissingDenom(d) && d@ == denom
    } else {
        false
    }
}

/// Requires exactly one coin, of the given denomination and with a nonzero
/// amount, and returns that amount.
pub fn must_pay(funds: &Vec<Coin>, denom: &String) -> (r: Result<u128, PaymentError>)
    ensures
        r is Ok <==> spec_must_pay(funds@, denom@) is Ok,
        r is Ok ==> r == spec_must_pay(funds@, denom@),
        r matches Err(e) ==> is_payment_error(funds@, denom@, e),
        funds@.len() == 0 ==> r == Err::<u128, PaymentError>(PaymentError::NoFunds),
        funds@.len() > 1 ==> r == Err::<u128, PaymentError>(PaymentError::MultipleDenoms),
        funds@.len() == 1 && funds@[0].amount == 0 ==> r == Err::<u128, PaymentError>(
            PaymentError::NoFunds,
        ),
        funds@.len() == 1 && funds@[0].amount != 0 && funds@[0].denom@ != denom@ ==> (r matches Err(
            PaymentError::MissingDenom(d),
        ) && d@ == denom@),
{
    if funds.len() == 0 {
        Err(PaymentError::NoFunds)
    } else if funds.len() > 1 {
        Err(PaymentError::MultipleDenoms)
    } else if funds[0].amount == 0 {
        Err(PaymentError::NoFunds)
    } else if funds[0].denom != *denom {
        Err(PaymentError::MissingDenom(denom.clone()))
    } else {
        Ok(funds[0].amount)
    }
}

} // verus!
