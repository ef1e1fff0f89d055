//! Properties of the hub's share accounting that hold across operations.
use vstd::prelude::*;
use crate::decimal::{DECIMAL_FRACTIONAL, spec_mul_floor, spec_ratio};
use crate::hub::{spec_issue, bond_defined, unbond_defined, saturating_sub, HubState, commission_due, reinvest_start};
use crate::state::{Supply, spec_assets, spec_tokens_per_share, spec_shares_per_token, assets_defined};

verus! {

/// If `q * b <= a` then `q` is at most the quotient `a / b`.
proof fn lemma_below_quotient(q: int, a: int, b: int)
    requires
        b > 0,
        q * b <= a,
    ensures
        q <= a / b,
{
    assert(q <= a / b) by (nonlinear_arith)
        requires
            b > 0,
            q * b <= a,
    ;
}

/// A quotient times its divisor does not exceed the dividend.
proof fn lemma_quotient_times(a: int, b: int)
    requires
        b > 0,
        a >= 0,
    ensures
        (a / b) * b <= a,
        a / b >= 0,
{
    assert((a / b) * b <= a && a / b >= 0) by (nonlinear_arith)
        requires
            b > 0,
            a >= 0,
    ;
}

/// Bonding never lowers the exchange rate: the shares minted for a deposit
/// are worth no more than the deposit, so the tokens per share once the
/// deposit is in the balance are at least those before it.
pub proof fn law_bond_keeps_exchange_rate(s: Supply, paid: u128, balance: u128)
    requires
        paid <= balance,
        bond_defined(s, paid, balance),
    ensures
        spec_tokens_per_share(
            Supply { issued: (s.issued + spec_issue(s, paid, balance)) as u128, ..s },
            balance,
        ) >= spec_tokens_per_share(s, (balance - paid) as u128),
{
    let d = DECIMAL_FRACTIONAL as int;
    let before = (balance - paid) as u128;
    assert(saturating_sub(balance as int, paid as int) == before);
    let a = spec_assets(s, before);
    let i = s.issued as int;
    let p = paid as int;
    let spt = spec_shares_per_token(s, before);
    let issue = spec_issue(s, paid, balance);
    let after = Supply { issued: (s.issued + issue) as u128, ..s };
    assert(spec_assets(after, balance) == a + p);
    assert(a >= 0);
    assert(issue == (p * spt) / d);
    if a == 0 {
        assert(spt == d);
        assert(issue == p) by (nonlinear_arith)
            requires
                issue == (p * spt) / d,
                spt == d,
                d > 0,
        ;
        if i == 0 {
            if p != 0 {
                assert(spec_ratio(a + p, i + issue) == d) by (nonlinear_arith)
                    requires
                        a == 0,
                        i == 0,
                        issue == p,
                        p > 0,
                        spec_ratio(a + p, i + issue) == ((a + p) * d) / (i + issue),
                ;
            }
        } else {
            assert(spec_ratio(a, i) == 0) by (nonlinear_arith)
                requires
                    a == 0,
                    i > 0,
                    spec_ratio(a, i) == (a * d) / i,
            ;
            lemma_quotient_times((a + p) * d, i + issue);
        }
    } else if i == 0 {
        // nothing issued yet: a deposit mints one share per token
        assert(spt == d);
        assert(issue == p) by (nonlinear_arith)
            requires
                issue == (p * spt) / d,
                spt == d,
                d > 0,
        ;
        if p != 0 {
            assert(spec_ratio(a + p, i + issue) >= d) by (nonlinear_arith)
                requires
                    a > 0,
                    i == 0,
                    issue == p,
                    p > 0,
                    d > 0,
                    spec_ratio(a + p, i + issue) == ((a + p) * d) / (i + issue),
            ;
        }
    } else {
        assert(spt == (i * d) / a);
        {
            let q = (a * d) / i;
            lemma_quotient_times(a * d, i);
            lemma_quotient_times(i * d, a);
            lemma_quotient_times(p * spt, d);
            // the new shares are worth at most the deposit: issue * a <= p * i
            assert(issue * a <= p * i) by (nonlinear_arith)
                requires
                    issue * d <= p * spt,
                    spt * a <= i * d,
                    d > 0,
                    a > 0,
                    p >= 0,
                    issue >= 0,
                    spt >= 0,
            ;
            assert(q * issue <= p * d) by (nonlinear_arith)
                requires
                    q * i <= a * d,
                    issue * a <= p * i,
                    i > 0,
                    a > 0,
                    q >= 0,
                    issue >= 0,
                    d > 0,
            ;
            assert(q * (i + issue) <= (a + p) * d) by (nonlinear_arith)
                requires
                    q * i <= a * d,
                    q * issue <= p * d,
            ;
            lemma_below_quotient(q, (a + p) * d, i + issue);
        }
    }
}

/// Unbonding never lowers the exchange rate of the shares that remain: the
/// tokens claimed for the burnt shares are at most their part of the assets.
/// (Once every share is burnt, the rate starts over at one.)
pub proof fn law_unbond_keeps_exchange_rate(s: Supply, amount: u128, balance: u128)
    requires
        unbond_defined(s, amount, balance),
        amount < s.issued,
    ensures
        ({
            let native = spec_mul_floor(amount as int, spec_tokens_per_share(s, balance));
            spec_tokens_per_share(
                Supply { issued: (s.issued - amount) as u128, claims: (s.claims + native) as u128, ..s },
                balance,
            ) >= spec_tokens_per_share(s, balance)
        }),
{
    let d = DECIMAL_FRACTIONAL as int;
    let a = spec_assets(s, balance);
    let i = s.issued as int;
    let m = amount as int;
    let q = spec_tokens_per_share(s, balance);
    let native = spec_mul_floor(m, q);
    let after = Supply { issued: (s.issued - amount) as u128, claims: (s.claims + native) as u128, ..s };
    assert(spec_assets(after, balance) == a - native);
    assert(q == (a * d) / i);
    lemma_quotient_times(a * d, i);
    assert(q >= 0);
    assert(native == (m * q) / d);
    lemma_quotient_times(m * q, d);
    assert(q * (i - m) <= (a - native) * d) by (nonlinear_arith)
        requires
            q * i <= a * d,
            native * d <= m * q,
    ;
    lemma_below_quotient(q, (a - native) * d, i - m);
}

/// Rewards never lower the exchange rate: with more tokens in the balance,
/// each share is worth at least as much.
pub proof fn law_rewards_raise_exchange_rate(s: Supply, balance: u128, more: u128)
    requires
        balance <= more,
        assets_defined(s, balance),
    ensures
        spec_tokens_per_share(s, more) >= spec_tokens_per_share(s, balance),
{
    if s.issued != 0 {
        let d = DECIMAL_FRACTIONAL as int;
        let a = spec_assets(s, balance);
        let b = spec_assets(s, more);
        let i = s.issued as int;
        assert(0 <= a <= b);
        assert((a * d) / i <= (b * d) / i) by (nonlinear_arith)
            requires
                0 <= a <= b,
                d > 0,
                i > 0,
        ;
    }
}

/// A reinvest that continues at once, without withdrawing rewards, pays no
/// commission: the balance it recorded is the balance it reinvests.
pub proof fn law_no_commission_without_rewards(s: HubState, now: u64, balance: u128)
    ensures
        commission_due(reinvest_start(s, now, balance), balance) == 0,
{
    let c = reinvest_start(s, now, balance).config.commission.atomics as int;
    assert(reinvest_start(s, now, balance).tmp_state.unwrap().balance == balance);
    assert(spec_mul_floor(0, c) == 0) by (nonlinear_arith)
        requires
            c >= 0,
    ;
}

} // verus!
