//! The validator registry and the full contract state.

use vstd::prelude::*;
use vstd::string::StrSliceExecFns;

use crate::epoch::Epoch;
use crate::shared::{Address, Amount, TransactionId};
use crate::slashing::{voters_distinct, SlashProposalRecord, Vote, Voting};

verus! {

/// A registered validator.
#[derive(Debug, PartialEq)]
pub struct Validator {
    pub address: Address,
    pub url: url::Url,
    pub stake: Amount,
}

/// The whole state of the validators contract. The registry `validators` is
/// kept in ascending address order, which is also the order in which the
/// nominee sampler enumerates it; `slash_proposals` is keyed by the
/// transaction that each proposal judges.
#[derive(Debug, PartialEq)]
pub struct State {
    pub bundler: Address,
    pub bundlers_contract: Address,
    pub epoch: Epoch,
    pub epoch_duration: u16,
    pub minimum_stake: Amount,
    pub token: Address,
    pub max_num_nominated_validators: u8,
    pub validators: Vec<Validator>,
    pub nominated_validators: Vec<Address>,
    pub slash_proposal_lifetime: u16,
    pub slash_proposals: Vec<(TransactionId, SlashProposalRecord)>,
}

/// Lexicographic order on addresses, character by character.
pub open spec fn addr_lt(a: Seq<char>, b: Seq<char>) -> bool
    decreases a.len(),
{
    if a.len() == 0 {
        b.len() > 0
    } else if b.len() == 0 {
        false
    } else if a[0] != b[0] {
        a[0] < b[0]
    } else {
        addr_lt(a.drop_first(), b.drop_first())
    }
}

/// The registry lists its validators in strictly ascending address order.
pub open spec fn validators_sorted(vals: Seq<Validator>) -> bool {
    forall|i: int, j: int|
        0 <= i < j < vals.len() ==> addr_lt(#[trigger] vals[i].address@, #[trigger] vals[j].address@)
}

/// No address is registered twice.
pub open spec fn addresses_distinct(vals: Seq<Validator>) -> bool {
    forall|i: int, j: int|
        0 <= i < j < vals.len() ==> #[trigger] vals[i].address@ != #[trigger] vals[j].address@
}

pub open spec fn is_validator(vals: Seq<Validator>, a: Seq<char>) -> bool {
    exists|i: int| 0 <= i < vals.len() && #[trigger] vals[i].address@ == a
}

/// The stake registered for address `a`, zero for an address that is not
/// registered.
pub open spec fn stake_of(vals: Seq<Validator>, a: Seq<char>) -> u128
    decreases vals.len(),
{
    if vals.len() == 0 {
        0
    } else if vals.last().address@ == a {
        vals.last().stake.0
    } else {
        stake_of(vals.drop_last(), a)
    }
}

/// The stake of the whole registry.
pub open spec fn total_stake(vals: Seq<Validator>) -> int
    decreases vals.len(),
{
    if vals.len() == 0 {
        0
    } else {
        total_stake(vals.drop_last()) + vals.last().stake.0
    }
}

pub open spec fn proposal_keys_distinct(props: Seq<(TransactionId, SlashProposalRecord)>) -> bool {
    forall|i: int, j: int|
        0 <= i < j < props.len() ==> #[trigger] props[i].0@ != #[trigger] props[j].0@
}

/// An open voting has one entry per voter, and every voter is registered.
pub open spec fn open_voting_valid(votes: Seq<(Address, Vote)>, vals: Seq<Validator>) -> bool {
    &&& voters_distinct(votes)
    &&& forall|j: int| 0 <= j < votes.len() ==> is_validator(vals, #[trigger] votes[j].0@)
}

/// Every open voting on record is valid.
pub open spec fn open_votings_valid(
    props: Seq<(TransactionId, SlashProposalRecord)>,
    vals: Seq<Validator>,
) -> bool {
    forall|k: int|
        0 <= k < props.len() && (#[trigger] props[k]).1.voting is Open ==> open_voting_valid(
            props[k].1.voting->Open_0@,
            vals,
        )
}

impl State {
    /// The invariant that the calls of this contract keep.
    pub open spec fn wf(&self) -> bool {
        &&& validators_sorted(self.validators@)
        &&& total_stake(self.validators@) <= i128::MAX
        &&& proposal_keys_distinct(self.slash_proposals@)
        &&& open_votings_valid(self.slash_proposals@, self.validators@)
    }
}

pub proof fn lemma_addr_lt_irreflexive(a: Seq<char>)
    ensures
        !addr_lt(a, a),
    decreases a.len(),
{
    if a.len() > 0 {
        lemma_addr_lt_irreflexive(a.drop_first());
    }
}

pub proof fn lemma_addr_lt_transitive(a: Seq<char>, b: Seq<char>, c: Seq<char>)
    requires
        addr_lt(a, b),
        addr_lt(b, c),
    ensures
        addr_lt(a, c),
    decreases a.len(),
{
    if a.len() > 0 && b.len() > 0 && c.len() > 0 && a[0] == b[0] && b[0] == c[0] {
        lemma_addr_lt_transitive(a.drop_first(), b.drop_first(), c.drop_first());
    }
}

pub proof fn lemma_addr_lt_total(a: Seq<char>, b: Seq<char>)
    requires
        a != b,
    ensures
        addr_lt(a, b) || addr_lt(b, a),
    decreases a.len(),
{
    if a.len() == 0 && b.len() == 0 {
        assert(a =~= b);
    }
    if a.len() > 0 && b.len() > 0 && a[0] == b[0] {
        if a.drop_first() == b.drop_first() {
            assert(a.drop_first().len() == b.drop_first().len());
            assert(a =~= b) by {
                assert forall|i: int| 0 <= i < a.len() implies a[i] == b[i] by {
                    if i > 0 {
                        assert(a[i] == a.drop_first()[i - 1]);
                        assert(b[i] == b.drop_first()[i - 1]);
                    }
                }
            }
        }
        lemma_addr_lt_total(a.drop_first(), b.drop_first());
    }
}

pub proof fn lemma_sorted_distinct(vals: Seq<Validator>)
    requires
        validators_sorted(vals),
    ensures
        addresses_distinct(vals),
{
    assert forall|i: int, j: int| 0 <= i < j < vals.len() implies #[trigger] vals[i].address@
        != #[trigger] vals[j].address@ by {
        lemma_addr_lt_irreflexive(vals[i].address@);
    }
}

pub proof fn lemma_stake_of_member(vals: Seq<Validator>, i: int)
    requires
        addresses_distinct(vals),
        0 <= i < vals.len(),
    ensures
        stake_of(vals, vals[i].address@) == vals[i].stake.0,
    decreases vals.len(),
{
    if i < vals.len() - 1 {
        let d = vals.drop_last();
        assert(d[i] == vals[i]);
        lemma_stake_of_member(d, i);
    }
}

pub proof fn lemma_stake_of_non_member(vals: Seq<Validator>, a: Seq<char>)
    requires
        !is_validator(vals, a),
    ensures
        stake_of(vals, a) == 0,
    decreases vals.len(),
{
    if vals.len() > 0 {
        let d = vals.drop_last();
        assert(!is_validator(d, a)) by {
            if is_validator(d, a) {
                let i = choose|i: int| 0 <= i < d.len() && #[trigger] d[i].address@ == a;
                assert(vals[i] == d[i]);
            }
        }
        assert(vals[vals.len() - 1] == vals.last());
        lemma_stake_of_non_member(d, a);
    }
}

pub proof fn lemma_total_stake_prefix(vals: Seq<Validator>, i: int)
    requires
        0 <= i < vals.len(),
    ensures
        total_stake(vals.subrange(0, i + 1)) == total_stake(vals.subrange(0, i)) + vals[i].stake.0,
{
    assert(vals.subrange(0, i + 1).drop_last() =~= vals.subrange(0, i));
}

pub proof fn lemma_total_stake_prefix_bound(vals: Seq<Validator>, i: int)
    requires
        0 <= i <= vals.len(),
    ensures
        0 <= total_stake(vals.subrange(0, i)) <= total_stake(vals),
    decreases vals.len() - i,
{
    if i == vals.len() {
        assert(vals.subrange(0, i) =~= vals);
        lemma_total_stake_nonneg(vals);
    } else {
        lemma_total_stake_prefix(vals, i);
        lemma_total_stake_nonneg(vals.subrange(0, i));
        lemma_total_stake_prefix_bound(vals, i + 1);
    }
}

pub proof fn lemma_total_stake_nonneg(vals: Seq<Validator>)
    ensures
        total_stake(vals) >= 0,
    decreases vals.len(),
{
    if vals.len() > 0 {
        lemma_total_stake_nonneg(vals.drop_last());
    }
}

/// A proposal judging transaction `t` is on record.
pub open spec fn has_proposal(props: Seq<(TransactionId, SlashProposalRecord)>, t: Seq<char>) -> bool {
    exists|i: int| 0 <= i < props.len() && #[trigger] props[i].0@ == t
}

/// The position of the record judging transaction `t`.
pub open spec fn proposal_index(props: Seq<(TransactionId, SlashProposalRecord)>, t: Seq<char>) -> int {
    choose|i: int| 0 <= i < props.len() && #[trigger] props[i].0@ == t
}

/// `b` is `a` with, at most, other slashing proposals.
pub open spec fn same_except_proposals(a: State, b: State) -> bool {
    &&& b.bundler == a.bundler
    &&& b.bundlers_contract == a.bundlers_contract
    &&& b.epoch == a.epoch
    &&& b.epoch_duration == a.epoch_duration
    &&& b.minimum_stake == a.minimum_stake
    &&& b.token == a.token
    &&& b.max_num_nominated_validators == a.max_num_nominated_validators
    &&& b.validators == a.validators
    &&& b.nominated_validators == a.nominated_validators
    &&& b.slash_proposal_lifetime == a.slash_proposal_lifetime
}

pub proof fn lemma_proposal_index(props: Seq<(TransactionId, SlashProposalRecord)>, i: int)
    requires
        proposal_keys_distinct(props),
        0 <= i < props.len(),
    ensures
        has_proposal(props, props[i].0@),
        proposal_index(props, props[i].0@) == i,
{
    assert(has_proposal(props, props[i].0@));
    let j = proposal_index(props, props[i].0@);
    if j < i {
        assert(props[j].0@ != props[i].0@);
    } else if j > i {
        assert(props[i].0@ != props[j].0@);
    }
}

/// Looks up the record judging transaction `t`.
pub fn find_proposal(props: &Vec<(TransactionId, SlashProposalRecord)>, t: &TransactionId) -> (r:
    Option<usize>)
    ensures
        r is None <==> !has_proposal(props@, t@),
        r matches Some(i) ==> i < props@.len() && props@[i as int].0@ == t@,
{
    let mut i: usize = 0;
    while i < props.len()
        invariant
            i <= props@.len(),
            forall|j: int| 0 <= j < i ==> #[trigger] props@[j].0@ != t@,
        decreases props@.len() - i,
    {
        if props[i].0 == *t {
            return Some(i);
        }
        i += 1;
    }
    None
}

/// Compares two addresses in the order the registry keeps.
pub fn address_lt(a: &Address, b: &Address) -> (r: bool)
    ensures
        r == addr_lt(a@, b@),
{
    let sa = a.0.as_str();
    let sb = b.0.as_str();
    let la = sa.unicode_len();
    let lb = sb.unicode_len();
    let mut i: usize = 0;
    assert(a@.subrange(0, la as int) =~= a@);
    assert(b@.subrange(0, lb as int) =~= b@);
    while i < la && i < lb
        invariant
            i <= la,
            i <= lb,
            la == a@.len(),
            lb == b@.len(),
            sa@ == a@,
            sb@ == b@,
            addr_lt(a@, b@) == addr_lt(a@.subrange(i as int, la as int), b@.subrange(i as int, lb as int)),
        decreases la - i,
    {
        let ca = sa.get_char(i);
        let cb = sb.get_char(i);
        let ghost x = a@.subrange(i as int, la as int);
        let ghost y = b@.subrange(i as int, lb as int);
        assert(x[0] == ca && y[0] == cb);
        if ca != cb {
            return ca < cb;
        }
        assert(x.drop_first() =~= a@.subrange(i + 1, la as int));
        assert(y.drop_first() =~= b@.subrange(i + 1, lb as int));
        i += 1;
    }
    i == la && i < lb
}

/// Checks the registry order.
fn sorted_exec(vals: &Vec<Validator>) -> (r: bool)
    ensures
        r == validators_sorted(vals@),
{
    let mut i: usize = 0;
    while i < vals.len()
        invariant
            i <= vals@.len(),
            forall|p: int, q: int|
                0 <= p < i && p < q < vals@.len() ==> addr_lt(
                    #[trigger] vals@[p].address@,
                    #[trigger] vals@[q].address@,
                ),
        decreases vals@.len() - i,
    {
        let mut j: usize = i + 1;
        while j < vals.len()
            invariant
                i < vals@.len(),
                i + 1 <= j <= vals@.len(),
                forall|p: int, q: int|
                    0 <= p < i && p < q < vals@.len() ==> addr_lt(
                        #[trigger] vals@[p].address@,
                        #[trigger] vals@[q].address@,
                    ),
                forall|q: int|
                    i < q < j ==> addr_lt(vals@[i as int].address@, #[trigger] vals@[q].address@),
            decreases vals@.len() - j,
        {
            if !address_lt(&vals[i].address, &vals[j].address) {
                return false;
            }
            j += 1;
        }
        i += 1;
    }
    true
}

/// Checks that the stake of the registry stays within `i128`.
fn stake_fits_exec(vals: &Vec<Validator>) -> (r: bool)
    ensures
        r == (total_stake(vals@) <= i128::MAX),
{
    let mut total: u128 = 0;
    let mut i: usize = 0;
    while i < vals.len()
        invariant
            i <= vals@.len(),
            total == total_stake(vals@.subrange(0, i as int)),
            total <= i128::MAX,
        decreases vals@.len() - i,
    {
        proof {
            lemma_total_stake_prefix(vals@, i as int);
            lemma_total_stake_prefix_bound(vals@, i + 1);
        }
        let stake = vals[i].stake.0;
        if stake > i128::MAX as u128 - total {
            return false;
        }
        total = total + stake;
        i += 1;
    }
    assert(vals@.subrange(0, vals@.len() as int) =~= vals@);
    true
}

/// Checks that no transaction is judged twice.
fn keys_distinct_exec(props: &Vec<(TransactionId, SlashProposalRecord)>) -> (r: bool)
    ensures
        r == proposal_keys_distinct(props@),
{
    let mut i: usize = 0;
    while i < props.len()
        invariant
            i <= props@.len(),
            forall|p: int, q: int|
                0 <= p < i && p < q < props@.len() ==> #[trigger] props@[p].0@ != #[trigger] props@[q].0@,
        decreases props@.len() - i,
    {
        let mut j: usize = i + 1;
        while j < props.len()
            invariant
                i < props@.len(),
                i + 1 <= j <= props@.len(),
                forall|p: int, q: int|
                    0 <= p < i && p < q < props@.len() ==> #[trigger] props@[p].0@ != #[trigger] props@[q].0@,
                forall|q: int| i < q < j ==> props@[i as int].0@ != #[trigger] props@[q].0@,
            decreases props@.len() - j,
        {
            if props[i].0 == props[j].0 {
                return false;
            }
            j += 1;
        }
        i += 1;
    }
    true
}

/// Checks one open voting against the registry.
fn voting_valid_exec(votes: &Vec<(Address, Vote)>, vals: &Vec<Validator>) -> (r: bool)
    ensures
        r == open_voting_valid(votes@, vals@),
{
    let mut i: usize = 0;
    while i < votes.len()
        invariant
            i <= votes@.len(),
            forall|p: int, q: int|
                0 <= p < i && p < q < votes@.len() ==> #[trigger] votes@[p].0@ != #[trigger] votes@[q].0@,
            forall|p: int| 0 <= p < i ==> is_validator(vals@, #[trigger] votes@[p].0@),
        decreases votes@.len() - i,
    {
        if find_validator(vals, &votes[i].0).is_none() {
            return false;
        }
        let mut j: usize = i + 1;
        while j < votes.len()
            invariant
                i < votes@.len(),
                i + 1 <= j <= votes@.len(),
                forall|p: int, q: int|
                    0 <= p < i && p < q < votes@.len() ==> #[trigger] votes@[p].0@ != #[trigger] votes@[q].0@,
                forall|q: int| i < q < j ==> votes@[i as int].0@ != #[trigger] votes@[q].0@,
            decreases votes@.len() - j,
        {
            if votes[i].0 == votes[j].0 {
                return false;
            }
            j += 1;
        }
        i += 1;
    }
    true
}

impl State {
    /// Checks the invariant, so that a caller outside the verified code can
    /// test it before handing a state in.
    pub fn is_well_formed(&self) -> (r: bool)
        ensures
            r == self.wf(),
    {
        if !sorted_exec(&self.validators) || !stake_fits_exec(&self.validators)
            || !keys_distinct_exec(&self.slash_proposals) {
            return false;
        }
        let props = &self.slash_proposals;
        let mut k: usize = 0;
        while k < props.len()
            invariant
                k <= props@.len(),
                props@ == self.slash_proposals@,
                forall|m: int|
                    0 <= m < k && (#[trigger] props@[m]).1.voting is Open ==> open_voting_valid(
                        props@[m].1.voting->Open_0@,
                        self.validators@,
                    ),
            decreases props@.len() - k,
        {
            match &props[k].1.voting {
                Voting::Open(votes) => {
                    if !voting_valid_exec(votes, &self.validators) {
                        assert(props@[k as int].1.voting is Open);
                        assert(!open_voting_valid(props@[k as int].1.voting->Open_0@, self.validators@));
                        return false;
                    }
                },
                Voting::Closed { .. } => {},
            }
            k += 1;
        }
        true
    }
}

/// The registered addresses, in registry (ascending address) order.
pub open spec fn validator_addresses(vals: Seq<Validator>) -> Seq<Address> {
    vals.map_values(|v: Validator| v.address)
}

/// Lists the registered addresses in registry order.
pub fn registry_addresses(vals: &Vec<Validator>) -> (r: Vec<Address>)
    ensures
        r@ == validator_addresses(vals@),
{
    let mut r: Vec<Address> = Vec::new();
    let mut i: usize = 0;
    while i < vals.len()
        invariant
            i <= vals@.len(),
            r@ == validator_addresses(vals@).subrange(0, i as int),
        decreases vals@.len() - i,
    {
        r.push(vals[i].address.clone());
        i += 1;
        assert(r@ =~= validator_addresses(vals@).subrange(0, i as int));
    }
    assert(r@ =~= validator_addresses(vals@));
    r
}

/// Looks up `a` in the registry.
pub fn find_validator(vals: &Vec<Validator>, a: &Address) -> (r: Option<usize>)
    ensures
        r is None <==> !is_validator(vals@, a@),
        r matches Some(i) ==> i < vals@.len() && vals@[i as int].address@ == a@,
{
    let mut i: usize = 0;
    while i < vals.len()
        invariant
            i <= vals@.len(),
            forall|j: int| 0 <= j < i ==> #[trigger] vals@[j].address@ != a@,
        decreases vals@.len() - i,
    {
        if vals[i].address == *a {
            return Some(i);
        }
        i += 1;
    }
    None
}

} // verus!
