# wynd-lsd

Liquid staking contracts for CosmWasm chains, with their rules verified by
Verus.

- The **LSD hub** takes native tokens, stakes them over a weighted set of
  validators and mints a liquid staking token for them. Every reinvest epoch
  it collects the staking rewards, pays a commission to a treasury and stakes
  the rest; holders who unbond get a claim that can be paid out once the
  unbonding period has passed. It detects slashing and scales the stake, the
  pending unbondings and the claims accordingly.
- The **bond router** buys the liquid staking token on a pool while the pool
  sells it below the hub's exchange rate, and bonds the rest on the hub.
- The **gauge adapter** offers the validators whose commission is low enough
  as options of a gauge and turns the gauge's selection into a new validator
  set for the hub.

## Layout

- `src/` is the verified library. Each handler of the hub is a state
  transition of `HubState` (`src/hub.rs`) that takes what the chain reported
  (block time, bank balance, delegations) and returns the messages to send.
  - `decimal.rs`: fixed-point decimals with 18 digits.
  - `state.rs`: configuration and epochs, the supply and the exchange rate,
    the unbonding queue, claims and their slashing adjustment.
  - `keys.rs`: maps keyed by validator address, kept as sorted vectors.
  - `valset.rs`: rebalancing the stake onto a new validator set.
  - `rewards.rs`: sharing a surplus out by weight, taking a shortfall back.
  - `slashing.rs`: detecting and applying slashing.
  - `laws.rs`: properties of the share accounting across operations.
  - `router.rs`, `gauge.rs`, `migration.rs`: the other contracts and the
    hub's migration.
- `tests/` runs the library on concrete values.
- `app/` holds the CosmWasm entry points: storage, queries of the chain,
  and the JSON messages.
