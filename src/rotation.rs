//! Epoch rotation: advancing the epoch clock, sampling the nominated
//! validators from a seed that the rotating transaction supplies, and
//! sweeping expired slashing proposals.

use vstd::prelude::*;

use crate::action::{ActionResult, HandlerResult};
use crate::error::ContractError;
use crate::external::{base64url_decoded, decode_base64url, xoshiro_u32_draw, xoshiro_u32_draws};
use crate::shared::{Address, TransactionId};
use crate::slashing::{on_update_epoch, proposals_swept};
use crate::state::{registry_addresses, validator_addresses, State, Validator};

verus! {

/// The seed that transaction `tx` yields: the first 32 bytes of its
/// base64url decoding, where it decodes to at least that many.
pub open spec fn seed_of(tx: Seq<char>) -> Option<Seq<u8>> {
    match base64url_decoded(tx) {
        Some(bytes) => if bytes.len() >= 32 {
            Some(bytes.subrange(0, 32))
        } else {
            None
        },
        None => None,
    }
}

/// A generator seed taken from a transaction identifier.
pub struct TransactionBasedRngSeed(pub [u8; 32]);

impl TransactionBasedRngSeed {
    /// Decodes `tx_hash` and keeps its first 32 bytes; fails where it does
    /// not decode, or to fewer bytes.
    pub fn try_from(tx_hash: &str) -> (r: Result<TransactionBasedRngSeed, ()>)
        ensures
            match seed_of(tx_hash@) {
                Some(seed) => r matches Ok(s) && s.0@ == seed,
                None => r is Err,
            },
    {
        let bytes = match decode_base64url(tx_hash) {
            Ok(bytes) => bytes,
            Err(_) => {
                return Err(());
            },
        };
        if bytes.len() < 32 {
            return Err(());
        }
        let mut seed = [0u8; 32];
        let mut i: usize = 0;
        while i < 32
            invariant
                i <= 32,
                bytes@.len() >= 32,
                forall|j: int| 0 <= j < i ==> seed@[j] == bytes@[j],
            decreases 32 - i,
        {
            seed[i] = bytes[i];
            i += 1;
        }
        assert(seed@ =~= bytes@.subrange(0, 32));
        Ok(TransactionBasedRngSeed(seed))
    }
}

/// The index order after the first `i` steps of a Fisher-Yates shuffle of
/// `0..n` driven by `draws`: step `a` swaps position `a` with position
/// `draws[a] % (n - a) + a`.
pub open spec fn shuffled(draws: Seq<u32>, n: nat, i: nat) -> Seq<int>
    decreases i,
{
    if i == 0 {
        Seq::new(n, |j: int| j)
    } else {
        let a = i - 1;
        let p = shuffled(draws, n, a as nat);
        let r = (draws[a] as int) % (n - a) + a;
        p.update(a, p[r]).update(r, p[a])
    }
}

/// The first `k` entries of `vals` in the order that the shuffle leaves.
pub open spec fn picked(vals: Seq<Address>, draws: Seq<u32>, k: nat) -> Seq<Address> {
    let p = shuffled(draws, vals.len(), k);
    Seq::new(k, |j: int| vals[p[j]])
}

/// The first `k` values of the generator seeded with `seed`.
pub open spec fn seeded_draws(seed: Seq<u8>, k: nat) -> Seq<u32> {
    Seq::new(k, |i: int| xoshiro_u32_draw(seed, i as nat))
}

/// Sampling picks `k` distinct positions of the candidates: every nominee
/// is a candidate, and candidates that are distinct give distinct nominees.
pub proof fn lemma_picked_distinct(vals: Seq<Address>, draws: Seq<u32>, k: nat)
    requires
        k <= vals.len(),
        k <= draws.len(),
        forall|x: int, y: int| 0 <= x < y < vals.len() ==> #[trigger] vals[x]@ != #[trigger] vals[y]@,
    ensures
        picked(vals, draws, k).len() == k,
        forall|j: int|
            0 <= j < k ==> 0 <= #[trigger] shuffled(draws, vals.len(), k)[j] < vals.len()
                && picked(vals, draws, k)[j] == vals[shuffled(draws, vals.len(), k)[j]],
        forall|x: int, y: int|
            0 <= x < y < k ==> #[trigger] picked(vals, draws, k)[x]@ != #[trigger] picked(
                vals,
                draws,
                k,
            )[y]@,
{
    let n = vals.len();
    lemma_shuffled_in_range(draws, n, k);
    lemma_shuffled_injective(draws, n, k);
    let p = shuffled(draws, n, k);
    let out = picked(vals, draws, k);
    assert forall|x: int, y: int| 0 <= x < y < k implies #[trigger] out[x]@ != #[trigger] out[y]@ by {
        assert(p[x] != p[y]);
        assert(out[x] == vals[p[x]] && out[y] == vals[p[y]]);
        if p[x] < p[y] {
            assert(vals[p[x]]@ != vals[p[y]]@);
        } else {
            assert(vals[p[y]]@ != vals[p[x]]@);
        }
    }
}

/// The nominees of an epoch: every candidate where there are at most `k`,
/// otherwise `k` of them sampled with the generator seeded with `seed`.
pub open spec fn nominees(candidates: Seq<Address>, seed: Seq<u8>, k: nat) -> Seq<Address> {
    if candidates.len() <= k {
        candidates
    } else {
        picked(candidates, seeded_draws(seed, k), k)
    }
}

/// Rotation is due at once while no epoch has started, and afterwards once
/// the current epoch has run its full duration.
pub open spec fn rotation_due(state: State, current: u128) -> bool {
    state.epoch.seq == 0 || current >= state.epoch.height + state.epoch_duration
}

/// Where the next epoch starts: at the current block for the first epoch,
/// otherwise one duration after the current epoch.
pub open spec fn next_epoch_height(state: State, current: u128) -> int {
    if state.epoch.seq == 0 {
        current as int
    } else {
        state.epoch.height + state.epoch_duration
    }
}

/// Sampling is deterministic: registries that list the same addresses in
/// the same order, sampled with the same seed for the same number of
/// nominees, nominate the same sequence, whatever their stakes.
pub proof fn lemma_nomination_deterministic(
    a: Seq<Validator>,
    b: Seq<Validator>,
    seed: Seq<u8>,
    k: nat,
)
    requires
        a.len() == b.len(),
        forall|i: int| 0 <= i < a.len() ==> #[trigger] a[i].address == b[i].address,
    ensures
        nominees(validator_addresses(a), seed, k) == nominees(validator_addresses(b), seed, k),
{
    assert(validator_addresses(a) =~= validator_addresses(b));
}

proof fn lemma_shuffled_in_range(draws: Seq<u32>, n: nat, i: nat)
    requires
        i <= n,
        i <= draws.len(),
    ensures
        shuffled(draws, n, i).len() == n,
        forall|j: int| 0 <= j < n ==> 0 <= #[trigger] shuffled(draws, n, i)[j] < n,
    decreases i,
{
    if i > 0 {
        lemma_shuffled_in_range(draws, n, (i - 1) as nat);
        let a = i - 1;
        let r = (draws[a] as int) % (n - a) + a;
        assert(a <= r < n);
    }
}

/// Each step of the shuffle only swaps two positions, so the order stays a
/// permutation of `0..n`.
proof fn lemma_shuffled_injective(draws: Seq<u32>, n: nat, i: nat)
    requires
        i <= n,
        i <= draws.len(),
    ensures
        forall|x: int, y: int|
            0 <= x < y < n ==> #[trigger] shuffled(draws, n, i)[x] != #[trigger] shuffled(
                draws,
                n,
                i,
            )[y],
    decreases i,
{
    lemma_shuffled_in_range(draws, n, i);
    if i > 0 {
        lemma_shuffled_injective(draws, n, (i - 1) as nat);
        lemma_shuffled_in_range(draws, n, (i - 1) as nat);
        let a = i - 1;
        let p = shuffled(draws, n, a as nat);
        let r = (draws[a] as int) % (n - a) + a;
        let q = shuffled(draws, n, i);
        assert forall|x: int, y: int| 0 <= x < y < n implies #[trigger] q[x] != #[trigger] q[y] by {
            let px = if x == r { a } else if x == a { r } else { x };
            let py = if y == r { a } else if y == a { r } else { y };
            assert(q[x] == p[px] && q[y] == p[py]);
            assert(px != py);
            if px < py {
                assert(p[px] != p[py]);
            } else {
                assert(p[py] != p[px]);
            }
        }
    }
}

/// Samples `count` distinct candidates by a partial Fisher-Yates shuffle
/// whose swaps `draws` decides.
pub fn pick_random_nominees(draws: &Vec<u32>, validators: &Vec<Address>, count: u8) -> (r: Vec<
    Address,
>)
    requires
        count <= validators@.len(),
        count <= draws@.len(),
    ensures
        r@ == picked(validators@, draws@, count as nat),
{
    let n = validators.len();
    let ghost gn = n as nat;
    let mut range: Vec<usize> = Vec::new();
    let mut j: usize = 0;
    while j < n
        invariant
            j <= n,
            n == validators@.len(),
            range@.len() == j,
            forall|m: int| 0 <= m < j ==> #[trigger] range@[m] as int == m,
        decreases n - j,
    {
        range.push(j);
        j += 1;
    }
    let mut addresses: Vec<Address> = Vec::new();
    let mut i: usize = 0;
    while i < count as usize
        invariant
            i <= count,
            count <= n,
            count <= draws@.len(),
            n == validators@.len(),
            gn == n,
            range@.len() == n,
            forall|m: int| 0 <= m < n ==> #[trigger] range@[m] as int == shuffled(draws@, gn, i as nat)[m],
            addresses@.len() == i,
            forall|m: int| 0 <= m < i ==> #[trigger] addresses@[m] == validators@[shuffled(draws@, gn, i as nat)[m]],
        decreases count - i,
    {
        proof {
            lemma_shuffled_in_range(draws@, gn, i as nat);
            lemma_shuffled_in_range(draws@, gn, (i + 1) as nat);
        }
        let random_index: usize = (draws[i] as usize % (n - i)) + i;
        let a = range[i];
        let b = range[random_index];
        range[i] = b;
        range[random_index] = a;
        addresses.push(validators[range[i]].clone());
        assert forall|m: int| 0 <= m < i implies shuffled(draws@, gn, (i + 1) as nat)[m] == shuffled(draws@, gn, i as nat)[m] by {}
        i += 1;
    }
    assert(addresses@ =~= picked(validators@, draws@, count as nat));
    addresses
}

/// Moves the registry into its next epoch: advances the epoch clock, draws
/// the nominated validators with a seed taken from the rotating transaction,
/// and force-closes the slashing proposals that have expired.
pub fn update_epoch(mut state: State, current_tx_id: TransactionId, current_block_height: u128) -> (r:
    ActionResult)
    requires
        state.wf(),
        state.epoch.seq < u128::MAX,
    ensures
        !rotation_due(state, current_block_height) ==> r is Err && r->Err_0
            == ContractError::UpdateEpochBlocked,
        rotation_due(state, current_block_height) ==> match seed_of(current_tx_id@) {
            None => r is Err && r->Err_0 is RuntimeError,
            Some(seed) => r matches Ok(HandlerResult::NewState(s)) && {
                &&& s.wf()
                &&& s.epoch.seq == state.epoch.seq + 1
                &&& s.epoch.tx == current_tx_id
                &&& s.epoch.height == next_epoch_height(state, current_block_height)
                &&& s.nominated_validators@ == nominees(
                    validator_addresses(state.validators@),
                    seed,
                    state.max_num_nominated_validators as nat,
                )
                &&& s.bundler == state.bundler
                &&& s.bundlers_contract == state.bundlers_contract
                &&& s.epoch_duration == state.epoch_duration
                &&& s.minimum_stake == state.minimum_stake
                &&& s.token == state.token
                &&& s.max_num_nominated_validators == state.max_num_nominated_validators
                &&& s.validators == state.validators
                &&& s.slash_proposal_lifetime == state.slash_proposal_lifetime
                &&& proposals_swept(
                    state.slash_proposals@,
                    s.slash_proposals@,
                    state.validators@,
                    state.slash_proposal_lifetime,
                    current_block_height,
                )
            },
        },
{
    let due = state.epoch.seq == 0 || (current_block_height >= state.epoch.height
        && current_block_height - state.epoch.height >= state.epoch_duration as u128);
    if !due {
        return Err(ContractError::UpdateEpochBlocked);
    }
    let next_height = if state.epoch.seq == 0 {
        current_block_height
    } else {
        state.epoch.height + state.epoch_duration as u128
    };
    let seed = match TransactionBasedRngSeed::try_from(current_tx_id.0.as_str()) {
        Ok(seed) => seed,
        Err(()) => {
            return Err(
                ContractError::RuntimeError(
                    "could not extract 32 bytes from the transaction id".to_string(),
                ),
            );
        },
    };
    state.epoch = state.epoch.next(current_tx_id, next_height);
    let candidates = registry_addresses(&state.validators);
    let k = state.max_num_nominated_validators;
    if candidates.len() <= k as usize {
        state.nominated_validators = candidates;
    } else {
        let draws = xoshiro_u32_draws(seed.0, k as usize);
        assert(draws@ =~= seeded_draws(seed.0@, k as nat));
        state.nominated_validators = pick_random_nominees(&draws, &candidates, k);
    }
    on_update_epoch(&mut state, current_block_height);
    Ok(HandlerResult::NewState(state))
}

} // verus!
