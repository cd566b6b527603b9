# MentorMinds contracts

The contracts of a mentoring platform, written in Verus. `src/` is the library: each
contract is a state machine over plain values, with its behaviour stated in contracts
and proved. `app/` puts the contracts on a Soroban ledger: it loads storage, asks
other contracts, and does what the library asks for.

| Module | What it holds |
| --- | --- |
| `types`, `table`, `lists`, `sums` | addresses and digests, storage tables, lists, sums over tables |
| `fixed_point`, `lmsr` | exponential and logarithm in fixed point; the market's cost and prices |
| `crypto` | SHA-256, by the ledger's own host |
| `prediction_market` | markets on learning goals, bets, payouts, refunds |
| `governance` | proposals, votes weighted by a snapshot, execution |
| `referral` | referrals, rewards, leaderboards by epoch |
| `session_registry` | sessions and the occupancy of mentors' time |
| `session_nft` | bundles of completed sessions as tokens |
| `treasury` | deposits, allocations, revenue, buybacks |
| `upgrade_registry` | versions of contracts under a timelock |

A call takes a `Context`: the ledger time, the contract's address and who consented.
What other contracts answer comes as arguments; functions whose names end in `query` or
`queries` say what has to be asked. A call that is refused says why and changes nothing.
Transfers, calls and events are collected in `effects`, in order.

For each contract the mathematical value of its storage is the `View` of its struct. On
it stand, for each call, why it is refused (`..._refusal`) and what it makes of the
storage; the `law_...` proof functions state what holds across calls.
