//! The plain parts of a test network's genesis: who is endowed, who
//! collates with which key, and who stakes on whom.
use rand::seq::SliceRandom;
use rand::Rng;
use sp_core::Pair;
use vstd::prelude::*;
use crate::collators::NimbusId;
use crate::types::{eq_bytes32, Balance, Perbill};

verus! {

/// Accounts of the real chain: 32 bytes.
pub type AccountId32 = [u8; 32];

/// The parachain's id.
pub const PARA_ID: u32 = 2022u32;

/// What every genesis account is endowed with: 2^60.
pub const GENESIS_BALANCE: Balance = 1152921504606846976u128;

/// The chain spec's extensions.
pub struct Extensions {
    /// The relay chain of the parachain.
    pub relay_chain: String,
    /// The id of the parachain.
    pub para_id: u32,
}

/// The session keys of a collator: its consensus key.
#[derive(Clone, Copy, Debug, PartialEq, Eq)]
pub struct SessionKeys {
    pub nimbus: NimbusId,
}

/// The session keys made of the consensus key `keys`.
pub fn template_session_keys(keys: NimbusId) -> (k: SessionKeys)
    ensures
        k.nimbus == keys,
{
    SessionKeys { nimbus: keys }
}

/// The chain's token properties.
pub struct Properties {
    pub token_symbol: String,
    pub token_decimals: u32,
    pub ss58_format: u32,
}

/// The chain's token: `BAND`, with twelve decimals, under address format 42.
pub fn get_properties() -> (p: Properties)
    ensures
        p.token_symbol@ == "BAND"@,
        p.token_decimals == 12,
        p.ss58_format == 42,
{
    Properties { token_symbol: String::from_str("BAND"), token_decimals: 12, ss58_format: 42 }
}

/// The extensions of the development and local test network specs: the
/// local rococo relay chain, and this parachain's id.
pub fn testnet_extensions() -> (e: Extensions)
    ensures
        e.relay_chain@ == "rococo-local"@,
        e.para_id == PARA_ID,
{
    Extensions { relay_chain: String::from_str("rococo-local"), para_id: PARA_ID }
}

/// Whether a staker validates or nominates, and whom.
pub enum StakerStatus {
    Validator,
    Nominator(Vec<AccountId32>),
}

/// A staker's status as plain values.
pub enum StakerStatusView {
    Validator,
    Nominator(Seq<AccountId32>),
}

/// A staker at genesis.
pub struct Staker {
    pub stash: AccountId32,
    pub controller: AccountId32,
    pub value: Balance,
    pub status: StakerStatus,
}

/// A staker as plain values.
pub struct StakerView {
    pub stash: AccountId32,
    pub controller: AccountId32,
    pub value: Balance,
    pub status: StakerStatusView,
}

impl View for Staker {
    type V = StakerView;

    open spec fn view(&self) -> StakerView {
        StakerView {
            stash: self.stash,
            controller: self.controller,
            value: self.value,
            status: match &self.status {
                StakerStatus::Validator => StakerStatusView::Validator,
                StakerStatus::Nominator(v) => StakerStatusView::Nominator(v@),
            },
        }
    }
}

/// The plain parts of a test network's genesis.
pub struct TestnetGenesis {
    pub balances: Vec<(AccountId32, Balance)>,
    pub parachain_id: u32,
    pub session_keys: Vec<(AccountId32, AccountId32, SessionKeys)>,
    pub collator_mapping: Vec<(AccountId32, NimbusId)>,
    pub validator_count: u32,
    pub minimum_validator_count: u32,
    pub invulnerables: Vec<AccountId32>,
    pub slash_reward_fraction: Perbill,
    pub stakers: Vec<Staker>,
    pub min_create_bond: Balance,
    pub min_join_bond: Balance,
}

/// A collator at genesis: its stash, its controller and its key.
pub type Invulnerable = (AccountId32, AccountId32, NimbusId);

/// `endowed`, followed by each of `extra` that it does not hold yet.
pub open spec fn endow(endowed: Seq<AccountId32>, extra: Seq<AccountId32>) -> Seq<AccountId32>
    decreases extra.len(),
{
    if extra.len() == 0 {
        endowed
    } else {
        let e = endow(endowed, extra.drop_last());
        if e.contains(extra.last()) {
            e
        } else {
            e.push(extra.last())
        }
    }
}

/// Endowing keeps every endowed account, adds every extra one, and adds no
/// account twice: from an endowment list without repeats it makes one
/// without repeats.
pub proof fn endow_covers_everyone_once(endowed: Seq<AccountId32>, extra: Seq<AccountId32>, a: AccountId32)
    ensures
        endow(endowed, extra).contains(a) <==> (endowed.contains(a) || extra.contains(a)),
        endowed.no_duplicates() ==> endow(endowed, extra).no_duplicates(),
    decreases extra.len(),
{
    if extra.len() > 0 {
        let d = extra.drop_last();
        endow_covers_everyone_once(endowed, d, a);
        let e = endow(endowed, d);
        if extra.contains(a) && !d.contains(a) {
            let i = choose|i: int| 0 <= i < extra.len() && extra[i] == a;
            if i < d.len() {
                assert(d[i] == a);
            }
        }
        if d.contains(a) {
            let i = choose|i: int| 0 <= i < d.len() && d[i] == a;
            assert(extra[i] == a);
        }
        if !e.contains(extra.last()) {
            let e2 = e.push(extra.last());
            assert(e2[e.len() as int] == extra.last());
            if e.contains(a) {
                let i = choose|i: int| 0 <= i < e.len() && e[i] == a;
                assert(e2[i] == a);
            }
            if e2.contains(a) && a != extra.last() {
                let i = choose|i: int| 0 <= i < e2.len() && e2[i] == a;
                assert(e[i] == a);
            }
        }
        assert(extra[extra.len() - 1] == extra.last());
        if endowed.no_duplicates() {
            endow_covers_everyone_once(endowed, d, extra.last());
        }
    }
}

/// The stashes of `invulnerables`.
pub open spec fn stashes(invulnerables: Seq<Invulnerable>) -> Seq<AccountId32> {
    invulnerables.map_values(|x: Invulnerable| x.0)
}

/// What each staker bonds: a thousandth of ten million units.
pub open spec fn stash_value(unit: Balance) -> int {
    10_000_000 * unit / 1000
}

/// How many validators a nominator may nominate at most, plus one.
pub open spec fn nomination_limit(max_nominations: u32, n_invulnerables: int) -> int {
    if max_nominations < n_invulnerables {
        max_nominations as int
    } else {
        n_invulnerables
    }
}

/// The genesis of a test network with `invulnerables` as collators and
/// validators, `initial_nominators` nominating the stashes of
/// `invulnerables` at positions `nominations`, and `endowed_accounts`
/// endowed along with all of them.
pub open spec fn genesis_ok(
    g: TestnetGenesis,
    invulnerables: Seq<Invulnerable>,
    initial_nominators: Seq<AccountId32>,
    endowed_accounts: Seq<AccountId32>,
    id: u32,
    unit: Balance,
    nominations: Seq<Seq<usize>>,
) -> bool {
    let n = invulnerables.len();
    &&& g.balances@ == endow(endowed_accounts, stashes(invulnerables) + initial_nominators).map_values(
        |k: AccountId32| (k, GENESIS_BALANCE),
    )
    &&& g.parachain_id == id
    &&& g.session_keys@ == invulnerables.map_values(|x: Invulnerable| (x.0, x.0, SessionKeys { nimbus: x.2 }))
    &&& g.collator_mapping@ == invulnerables.map_values(|x: Invulnerable| (x.0, x.2))
    &&& g.validator_count == n as u32
    &&& g.minimum_validator_count == n as u32
    &&& g.invulnerables@ == stashes(invulnerables)
    &&& g.slash_reward_fraction.spec_parts() == 100_000_000
    &&& g.min_create_bond == 10 * unit
    &&& g.min_join_bond == unit
    &&& g.stakers@.len() == n + initial_nominators.len()
    &&& forall|i: int| 0 <= i < n ==> #[trigger] g.stakers@[i]@ == (StakerView {
        stash: invulnerables[i].0,
        controller: invulnerables[i].1,
        value: stash_value(unit) as Balance,
        status: StakerStatusView::Validator,
    })
    &&& forall|j: int| 0 <= j < initial_nominators.len() ==> #[trigger] g.stakers@[n + j]@ == (StakerView {
        stash: initial_nominators[j],
        controller: initial_nominators[j],
        value: stash_value(unit) as Balance,
        status: StakerStatusView::Nominator(nominations[j].map_values(|p: usize| stashes(invulnerables)[p as int])),
    })
}

/// A random number, as `rand::thread_rng().gen::<usize>()` draws it.
/// Nothing is claimed of the number.  The thread's generator is seeded from
/// the operating system, and panics if the system gives no entropy; that
/// case is not stated.
#[verifier::external_body]
fn random_usize() -> (r: usize) {
    rand::thread_rng().gen::<usize>()
}

/// Calls `SliceRandom::choose_multiple` of `rand` on `positions` with the
/// thread's generator and collects what it yields.
/// Claimed: it yields `min(amount, positions.len())` items, each an item of
/// `positions` taken from a position not taken before, so distinct items
/// stay distinct.  Which items, and their order, depend on chance.  The
/// thread's generator panics if the system gives no entropy; that case is
/// not stated.
#[verifier::external_body]
fn choose_multiple_positions(positions: &Vec<usize>, amount: usize) -> (r: Vec<usize>)
    ensures
        r@.len() == if amount < positions@.len() { amount as int } else { positions@.len() as int },
        forall|i: int| 0 <= i < r@.len() ==> positions@.contains(#[trigger] r@[i]),
        positions@.no_duplicates() ==> r@.no_duplicates(),
{
    positions.as_slice().choose_multiple(&mut rand::thread_rng(), amount).cloned().collect()
}

/// A copy of `v`.
fn copy_accounts(v: &Vec<AccountId32>) -> (r: Vec<AccountId32>)
    ensures
        r@ == v@,
{
    let mut r: Vec<AccountId32> = Vec::new();
    let mut i: usize = 0;
    while i < v.len()
        invariant
            i <= v@.len(),
            r@ == v@.take(i as int),
        decreases v@.len() - i,
    {
        r.push(v[i]);
        proof {
            assert(r@ =~= v@.take(i + 1));
        }
        i += 1;
    }
    proof {
        assert(v@.take(v@.len() as int) =~= v@);
    }
    r
}

/// `endowed` with each of `extra` that it does not hold yet added, in order.
fn endow_all(endowed: &mut Vec<AccountId32>, extra: &Vec<AccountId32>)
    ensures
        final(endowed)@ == endow(old(endowed)@, extra@),
{
    let mut i: usize = 0;
    while i < extra.len()
        invariant
            i <= extra@.len(),
            endowed@ == endow(old(endowed)@, extra@.take(i as int)),
        decreases extra@.len() - i,
    {
        let x = extra[i];
        let mut found = false;
        let mut k: usize = 0;
        while k < endowed.len()
            invariant
                k <= endowed@.len(),
                found == exists|q: int| 0 <= q < k && endowed@[q] == x,
            decreases endowed@.len() - k,
        {
            if eq_bytes32(&endowed[k], &x) {
                found = true;
            }
            k += 1;
        }
        proof {
            assert(extra@.take(i + 1).drop_last() =~= extra@.take(i as int));
            assert(extra@.take(i + 1).last() == x);
        }
        if !found {
            endowed.push(x);
        }
        i += 1;
    }
    proof {
        assert(extra@.take(extra@.len() as int) =~= extra@);
    }
}

/// The genesis of a test network whose nominators nominate the stashes of
/// `invulnerables` at the positions `nominations` give.
pub fn testnet_genesis_with(
    invulnerables: Vec<Invulnerable>,
    initial_nominators: Vec<AccountId32>,
    endowed_accounts: Vec<AccountId32>,
    id: u32,
    unit: Balance,
    nominations: Vec<Vec<usize>>,
) -> (g: TestnetGenesis)
    requires
        10_000_000 * unit <= u128::MAX,
        nominations@.len() == initial_nominators@.len(),
        forall|j: int, k: int| 0 <= j < nominations@.len() && 0 <= k < nominations@[j]@.len() ==> #[trigger] nominations@[j]@[k] < invulnerables@.len(),
    ensures
        genesis_ok(g, invulnerables@, initial_nominators@, endowed_accounts@, id, unit, nominations@.map_values(|v: Vec<usize>| v@)),
{
    let n = invulnerables.len();
    let mut stash_list: Vec<AccountId32> = Vec::new();
    let mut session_keys: Vec<(AccountId32, AccountId32, SessionKeys)> = Vec::new();
    let mut mapping: Vec<(AccountId32, NimbusId)> = Vec::new();
    let stash: Balance = 10_000_000 * unit / 1000;
    let mut stakers: Vec<Staker> = Vec::new();
    let mut i: usize = 0;
    while i < n
        invariant
            n == invulnerables@.len(),
            i <= n,
            stash == stash_value(unit),
            stash_list@ == stashes(invulnerables@.take(i as int)),
            session_keys@ == invulnerables@.take(i as int).map_values(|x: Invulnerable| (x.0, x.0, SessionKeys { nimbus: x.2 })),
            mapping@ == invulnerables@.take(i as int).map_values(|x: Invulnerable| (x.0, x.2)),
            stakers@.len() == i,
            forall|q: int| 0 <= q < i ==> #[trigger] stakers@[q]@ == (StakerView {
                stash: invulnerables@[q].0,
                controller: invulnerables@[q].1,
                value: stash,
                status: StakerStatusView::Validator,
            }),
        decreases n - i,
    {
        let (s, c, key) = invulnerables[i];
        stash_list.push(s);
        session_keys.push((s, s, template_session_keys(key)));
        mapping.push((s, key));
        stakers.push(Staker { stash: s, controller: c, value: stash, status: StakerStatus::Validator });
        proof {
            assert(stash_list@ =~= stashes(invulnerables@.take(i + 1)));
            assert(session_keys@ =~= invulnerables@.take(i + 1).map_values(|x: Invulnerable| (x.0, x.0, SessionKeys { nimbus: x.2 })));
            assert(mapping@ =~= invulnerables@.take(i + 1).map_values(|x: Invulnerable| (x.0, x.2)));
        }
        i += 1;
    }
    proof {
        assert(invulnerables@.take(n as int) =~= invulnerables@);
    }
    let mut j: usize = 0;
    while j < initial_nominators.len()
        invariant
            n == invulnerables@.len(),
            stash == stash_value(unit),
            j <= initial_nominators@.len(),
            nominations@.len() == initial_nominators@.len(),
            forall|a: int, k: int| 0 <= a < nominations@.len() && 0 <= k < nominations@[a]@.len() ==> #[trigger] nominations@[a]@[k] < invulnerables@.len(),
            stash_list@ == stashes(invulnerables@),
            stakers@.len() == n + j,
            forall|q: int| 0 <= q < n ==> #[trigger] stakers@[q]@ == (StakerView {
                stash: invulnerables@[q].0,
                controller: invulnerables@[q].1,
                value: stash,
                status: StakerStatusView::Validator,
            }),
            forall|q: int| 0 <= q < j ==> #[trigger] stakers@[n + q]@ == (StakerView {
                stash: initial_nominators@[q],
                controller: initial_nominators@[q],
                value: stash,
                status: StakerStatusView::Nominator(nominations@[q]@.map_values(|p: usize| stashes(invulnerables@)[p as int])),
            }),
        decreases initial_nominators@.len() - j,
    {
        let x = initial_nominators[j];
        let positions = &nominations[j];
        let mut chosen: Vec<AccountId32> = Vec::new();
        let mut k: usize = 0;
        while k < positions.len()
            invariant
                k <= positions@.len(),
                positions@ == nominations@[j as int]@,
                forall|t: int| 0 <= t < positions@.len() ==> #[trigger] positions@[t] < stash_list@.len(),
                chosen@ == positions@.take(k as int).map_values(|p: usize| stash_list@[p as int]),
            decreases positions@.len() - k,
        {
            let p = positions[k];
            chosen.push(stash_list[p]);
            proof {
                assert(chosen@ =~= positions@.take(k + 1).map_values(|p: usize| stash_list@[p as int]));
            }
            k += 1;
        }
        proof {
            assert(positions@.take(positions@.len() as int) =~= positions@);
        }
        stakers.push(Staker { stash: x, controller: x, value: stash, status: StakerStatus::Nominator(chosen) });
        j += 1;
    }
    let mut endowed = endowed_accounts;
    let mut extra = copy_accounts(&stash_list);
    let mut noms = copy_accounts(&initial_nominators);
    extra.append(&mut noms);
    endow_all(&mut endowed, &extra);
    let mut balances: Vec<(AccountId32, Balance)> = Vec::new();
    let mut b: usize = 0;
    while b < endowed.len()
        invariant
            b <= endowed@.len(),
            balances@ == endowed@.take(b as int).map_values(|k: AccountId32| (k, GENESIS_BALANCE)),
        decreases endowed@.len() - b,
    {
        balances.push((endowed[b], GENESIS_BALANCE));
        proof {
            assert(balances@ =~= endowed@.take(b + 1).map_values(|k: AccountId32| (k, GENESIS_BALANCE)));
        }
        b += 1;
    }
    proof {
        assert(endowed@.take(endowed@.len() as int) =~= endowed@);
    }
    let count = #[verifier::truncate] (n as u32);
    let g = TestnetGenesis {
        balances,
        parachain_id: id,
        session_keys,
        collator_mapping: mapping,
        validator_count: count,
        minimum_validator_count: count,
        invulnerables: stash_list,
        slash_reward_fraction: Perbill::from_percent(10),
        stakers,
        min_create_bond: 10 * unit,
        min_join_bond: unit,
    };
    proof {
        let noms = nominations@.map_values(|v: Vec<usize>| v@);
        assert(g.balances@ == endow(endowed_accounts@, stashes(invulnerables@) + initial_nominators@).map_values(
            |k: AccountId32| (k, GENESIS_BALANCE)));
        assert(g.slash_reward_fraction.spec_parts() == 100_000_000);
        assert forall|q: int| 0 <= q < initial_nominators@.len() implies #[trigger] g.stakers@[n + q]@ == (StakerView {
            stash: initial_nominators@[q],
            controller: initial_nominators@[q],
            value: stash_value(unit) as Balance,
            status: StakerStatusView::Nominator(noms[q].map_values(|p: usize| stashes(invulnerables@)[p as int])),
        }) by {
            assert(noms[q] == nominations@[q]@);
        }
    }
    g
}


/// Whether `nominations` are a valid draw for `n_nominators` nominators
/// among `n_invulnerables` validators: each nominator names fewer than the
/// limit, each a validator's position, none twice.
pub open spec fn nominations_drawn(nominations: Seq<Seq<usize>>, n_nominators: int, n_invulnerables: int, max_nominations: u32) -> bool {
    &&& nominations.len() == n_nominators
    &&& forall|j: int| 0 <= j < n_nominators ==> {
        &&& (#[trigger] nominations[j]).len() < nomination_limit(max_nominations, n_invulnerables)
        &&& nominations[j].no_duplicates()
        &&& forall|k: int| 0 <= k < nominations[j].len() ==> nominations[j][k] < n_invulnerables
    }
}

/// The genesis of a test network: `invulnerables` collate and validate,
/// each of `initial_nominators` nominates a random number, below the
/// nomination limit, of them, chosen at random, and `endowed_accounts` are
/// endowed along with all of them.  `unit` is the currency's unit and
/// `max_nominations` the runtime's limit on nominations.
pub fn testnet_genesis(
    invulnerables: Vec<Invulnerable>,
    initial_nominators: Vec<AccountId32>,
    endowed_accounts: Vec<AccountId32>,
    id: u32,
    unit: Balance,
    max_nominations: u32,
) -> (g: TestnetGenesis)
    requires
        10_000_000 * unit <= u128::MAX,
        initial_nominators@.len() > 0 ==> nomination_limit(max_nominations, invulnerables@.len() as int) > 0,
    ensures
        exists|nominations: Seq<Seq<usize>>|
            nominations_drawn(nominations, initial_nominators@.len() as int, invulnerables@.len() as int, max_nominations)
                && genesis_ok(g, invulnerables@, initial_nominators@, endowed_accounts@, id, unit, nominations),
{
    let n = invulnerables.len();
    let limit: usize = if (max_nominations as usize) < n { max_nominations as usize } else { n };
    let mut positions: Vec<usize> = Vec::new();
    let mut p: usize = 0;
    while p < n
        invariant
            p <= n,
            positions@.len() == p,
            forall|q: int| 0 <= q < p ==> #[trigger] positions@[q] == q,
        decreases n - p,
    {
        positions.push(p);
        p += 1;
    }
    assert(positions@.no_duplicates());
    let mut nominations: Vec<Vec<usize>> = Vec::new();
    let mut j: usize = 0;
    while j < initial_nominators.len()
        invariant
            j <= initial_nominators@.len(),
            n == invulnerables@.len(),
            limit == nomination_limit(max_nominations, n as int),
            initial_nominators@.len() > 0 ==> limit > 0,
            positions@.len() == n,
            positions@.no_duplicates(),
            forall|q: int| 0 <= q < n ==> #[trigger] positions@[q] == q,
            nominations_drawn(nominations@.map_values(|v: Vec<usize>| v@), j as int, n as int, max_nominations),
        decreases initial_nominators@.len() - j,
    {
        let count = random_usize() % limit;
        let chosen = choose_multiple_positions(&positions, count);
        assert forall|k: int| 0 <= k < chosen@.len() implies chosen@[k] < n by {
            let q = choose|q: int| 0 <= q < positions@.len() && positions@[q] == chosen@[k];
        }
        let ghost prev = nominations@.map_values(|v: Vec<usize>| v@);
        assert(count < limit);
        assert(chosen@.len() == count);
        nominations.push(chosen);
        proof {
            let drawn = nominations@.map_values(|v: Vec<usize>| v@);
            assert(drawn =~= prev.push(chosen@));
        }
        j += 1;
    }
    let ghost drawn = nominations@.map_values(|v: Vec<usize>| v@);
    proof {
        assert forall|a: int, k: int| 0 <= a < nominations@.len() && 0 <= k < nominations@[a]@.len() implies #[trigger] nominations@[a]@[k] < invulnerables@.len() by {
            assert(drawn[a] == nominations@[a]@);
        }
    }
    let g = testnet_genesis_with(invulnerables, initial_nominators, endowed_accounts, id, unit, nominations);
    assert(nominations_drawn(drawn, initial_nominators@.len() as int, invulnerables@.len() as int, max_nominations));
    g
}


/// The sr25519 public key that the secret URI `uri` derives, or `None` if
/// `uri` is no valid secret URI.
pub uninterp spec fn uri_public_key(uri: Seq<char>) -> Option<[u8; 32]>;

/// The sr25519 public key of development seed `seed`: the key of the secret
/// URI `//seed`, a hard derivation from the development phrase.
pub open spec fn dev_public_key(seed: Seq<char>) -> Option<[u8; 32]> {
    uri_public_key(seq!['/', '/'] + seed)
}

/// The secret URI of development seed `seed`: `//seed`.
pub fn dev_uri(seed: &str) -> (uri: String)
    ensures
        uri@ == seq!['/', '/'] + seed@,
{
    let prefix = String::from_str("//");
    proof {
        reveal_strlit("//");
    }
    prefix.concat(seed)
}

/// Calls `sp_core::sr25519::Pair::from_string` on `uri` with no password,
/// and takes the public key of the pair.
/// Claimed: the key, or `None` where the URI is refused, is a function of
/// the URI alone; what key it is is not stated.
#[verifier::external_body]
fn sr25519_public_from_uri(uri: &str) -> (r: Option<[u8; 32]>)
    ensures
        r == uri_public_key(uri@),
{
    match sp_core::sr25519::Pair::from_string(uri, None) {
        Ok(pair) => Some(pair.public().0),
        Err(_) => None,
    }
}

/// The public key of development seed `seed`.
fn sr25519_public_from_seed(seed: &str) -> (r: Option<[u8; 32]>)
    ensures
        r == dev_public_key(seed@),
{
    let uri = dev_uri(seed);
    sr25519_public_from_uri(uri.as_str())
}

/// The public key of development seed `seed`, or `None` if `//seed` is no
/// valid secret URI.
pub fn try_get_from_seed(seed: &str) -> (r: Option<[u8; 32]>)
    ensures
        r == dev_public_key(seed@),
{
    sr25519_public_from_seed(seed)
}

/// The public key of development seed `seed`.
pub fn get_from_seed(seed: &str) -> (r: [u8; 32])
    requires
        dev_public_key(seed@) is Some,
    ensures
        dev_public_key(seed@) == Some(r),
{
    match sr25519_public_from_seed(seed) {
        Some(k) => k,
        None => [0u8; 32],
    }
}

/// The public key of development seed `seed`.
pub fn get_pair_from_seed(seed: &str) -> (r: [u8; 32])
    requires
        dev_public_key(seed@) is Some,
    ensures
        dev_public_key(seed@) == Some(r),
{
    get_from_seed(seed)
}

/// The consensus key of development seed `seed`.
pub fn get_collator_keys_from_seed(seed: &str) -> (k: NimbusId)
    requires
        dev_public_key(seed@) is Some,
    ensures
        dev_public_key(seed@) == Some(k.key),
{
    NimbusId { key: get_pair_from_seed(seed) }
}

/// The account of development seed `seed`: an sr25519 signer's account is
/// its public key.
pub fn get_account_id_from_seed(seed: &str) -> (a: AccountId32)
    requires
        dev_public_key(seed@) is Some,
    ensures
        dev_public_key(seed@) == Some(a),
{
    get_from_seed(seed)
}

/// Whether every one of `seeds` is a valid development seed.
pub open spec fn seeds_valid(seeds: Seq<Seq<char>>) -> bool {
    forall|i: int| 0 <= i < seeds.len() ==> dev_public_key(#[trigger] seeds[i]) is Some
}

/// The accounts of the development seeds `seeds`.
pub open spec fn seed_accounts(seeds: Seq<Seq<char>>) -> Seq<AccountId32> {
    seeds.map_values(|s: Seq<char>| dev_public_key(s)->Some_0)
}

/// The accounts of the development seeds `seeds`, or `None` if one of them
/// is not valid.
fn accounts_from_seeds(seeds: &Vec<&str>) -> (r: Option<Vec<AccountId32>>)
    ensures
        seeds_valid(seeds@.map_values(|s: &str| s@)) <==> r is Some,
        r is Some ==> r->Some_0@ == seed_accounts(seeds@.map_values(|s: &str| s@)),
{
    let ghost views = seeds@.map_values(|s: &str| s@);
    let mut accounts: Vec<AccountId32> = Vec::new();
    let mut i: usize = 0;
    while i < seeds.len()
        invariant
            i <= seeds@.len(),
            views == seeds@.map_values(|s: &str| s@),
            forall|j: int| 0 <= j < i ==> dev_public_key(#[trigger] views[j]) is Some,
            accounts@ == seed_accounts(views.take(i as int)),
        decreases seeds@.len() - i,
    {
        match try_get_from_seed(seeds[i]) {
            Some(a) => {
                accounts.push(a);
                proof {
                    assert(accounts@ =~= seed_accounts(views.take(i + 1)));
                }
            },
            None => {
                proof {
                    assert(dev_public_key(views[i as int]) is None);
                }
                return None;
            },
        }
        i += 1;
    }
    proof {
        assert(views.take(seeds@.len() as int) =~= views);
    }
    Some(accounts)
}

/// The seeds the test networks endow.
pub open spec fn endowed_seeds() -> Seq<Seq<char>> {
    seq![
        "Alice"@, "Bob"@, "Charlie"@, "Dave"@, "Eve"@, "Ferdie"@,
        "Alice//stash"@, "Bob//stash"@, "Charlie//stash"@, "Dave//stash"@, "Eve//stash"@, "Ferdie//stash"@,
    ]
}

fn endowed_seed_list() -> (v: Vec<&'static str>)
    ensures
        v@.map_values(|s: &str| s@) == endowed_seeds(),
{
    let v = vec![
        "Alice", "Bob", "Charlie", "Dave", "Eve", "Ferdie",
        "Alice//stash", "Bob//stash", "Charlie//stash", "Dave//stash", "Eve//stash", "Ferdie//stash",
    ];
    assert(v@.map_values(|s: &str| s@) =~= endowed_seeds());
    v
}

/// The kind of a network.
#[derive(Clone, Copy, Debug, PartialEq, Eq)]
pub enum ChainType {
    Development,
    Local,
}

/// What a chain spec of a test network holds, as plain values.
pub struct ChainSpecPlan {
    pub name: String,
    pub id: String,
    pub chain_type: ChainType,
    pub protocol_id: Option<String>,
    pub properties: Properties,
    pub extensions: Extensions,
    pub genesis: TestnetGenesis,
}

/// The collators of a test network: Alice and Bob with their keys, Bob
/// controlled by `bob_controller`.
pub open spec fn testnet_invulnerables(bob_controller: Seq<char>) -> Seq<Invulnerable> {
    let alice = dev_public_key("Alice"@)->Some_0;
    let bob = dev_public_key("Bob"@)->Some_0;
    seq![
        (alice, alice, NimbusId { key: alice }),
        (bob, dev_public_key(bob_controller)->Some_0, NimbusId { key: bob }),
    ]
}

/// Whether `c` is the spec of a test network named `name` with id `id`,
/// kind `chain_type` and protocol `protocol_id`, whose Bob is controlled by
/// `bob_controller`, in `unit`s.
pub open spec fn testnet_plan_ok(c: ChainSpecPlan, name: Seq<char>, id: Seq<char>, chain_type: ChainType, protocol_id: Option<Seq<char>>, bob_controller: Seq<char>, unit: Balance) -> bool {
    &&& c.name@ == name
    &&& c.id@ == id
    &&& c.chain_type == chain_type
    &&& match c.protocol_id {
        Some(p) => protocol_id == Some(p@),
        None => protocol_id is None,
    }
    &&& c.properties.token_symbol@ == "BAND"@
    &&& c.properties.token_decimals == 12
    &&& c.properties.ss58_format == 42
    &&& c.extensions.relay_chain@ == "rococo-local"@
    &&& c.extensions.para_id == PARA_ID
    &&& genesis_ok(c.genesis, testnet_invulnerables(bob_controller), Seq::empty(), seed_accounts(endowed_seeds()), PARA_ID, unit, Seq::empty())
}

/// The spec of a test network with Alice and Bob collating, Bob controlled
/// by `bob_controller`, every endowed seed endowed, and no nominator; or
/// `None` if a seed is not valid.
fn testnet_plan(name: &str, id: &str, chain_type: ChainType, protocol_id: Option<&str>, bob_controller: &str, unit: Balance) -> (r: Option<ChainSpecPlan>)
    requires
        10_000_000 * unit <= u128::MAX,
    ensures
        r is Some <==> (seeds_valid(endowed_seeds()) && dev_public_key(bob_controller@) is Some),
        r is Some ==> testnet_plan_ok(r->Some_0, name@, id@, chain_type, match protocol_id { Some(p) => Some(p@), None => None }, bob_controller@, unit),
{
    let seeds = endowed_seed_list();
    let endowed = match accounts_from_seeds(&seeds) {
        Some(v) => v,
        None => return None,
    };
    proof {
        assert(dev_public_key(endowed_seeds()[0]) is Some);
        assert(dev_public_key(endowed_seeds()[1]) is Some);
    }
    if try_get_from_seed(bob_controller).is_none() {
        return None;
    }
    let alice = get_account_id_from_seed("Alice");
    let bob = get_account_id_from_seed("Bob");
    let invulnerables = vec![
        (alice, alice, get_collator_keys_from_seed("Alice")),
        (bob, get_account_id_from_seed(bob_controller), get_collator_keys_from_seed("Bob")),
    ];
    proof {
        assert(invulnerables@ =~= testnet_invulnerables(bob_controller@));
    }
    let no_nominations: Vec<Vec<usize>> = Vec::new();
    proof {
        assert(no_nominations@.map_values(|v: Vec<usize>| v@) =~= Seq::<Seq<usize>>::empty());
    }
    let genesis = testnet_genesis_with(invulnerables, Vec::new(), endowed, PARA_ID, unit, no_nominations);
    let protocol = match protocol_id {
        Some(p) => Some(String::from_str(p)),
        None => None,
    };
    Some(ChainSpecPlan {
        name: String::from_str(name),
        id: String::from_str(id),
        chain_type,
        protocol_id: protocol,
        properties: get_properties(),
        extensions: testnet_extensions(),
        genesis,
    })
}

/// The development network: "Aband Development", id "aband dev", with
/// Alice and Bob collating, both controlled by Alice; `None` if a
/// development seed is not valid.
pub fn development_config(unit: Balance) -> (r: Option<ChainSpecPlan>)
    requires
        10_000_000 * unit <= u128::MAX,
    ensures
        r is Some <==> seeds_valid(endowed_seeds()),
        r is Some ==> testnet_plan_ok(r->Some_0, "Aband Development"@, "aband dev"@, ChainType::Development, None, "Alice"@, unit),
{
    let r = testnet_plan("Aband Development", "aband dev", ChainType::Development, None, "Alice", unit);
    proof {
        if seeds_valid(endowed_seeds()) {
            assert(dev_public_key(endowed_seeds()[0]) is Some);
        }
    }
    r
}

/// The local test network: "Aband Testnet", id "aband_testnet", protocol
/// "aband_testnet", with Alice and Bob collating, each its own controller;
/// `None` if a development seed is not valid.
pub fn local_testnet_config(unit: Balance) -> (r: Option<ChainSpecPlan>)
    requires
        10_000_000 * unit <= u128::MAX,
    ensures
        r is Some <==> seeds_valid(endowed_seeds()),
        r is Some ==> testnet_plan_ok(r->Some_0, "Aband Testnet"@, "aband_testnet"@, ChainType::Local, Some("aband_testnet"@), "Bob"@, unit),
{
    let r = testnet_plan("Aband Testnet", "aband_testnet", ChainType::Local, Some("aband_testnet"), "Bob", unit);
    proof {
        if seeds_valid(endowed_seeds()) {
            assert(dev_public_key(endowed_seeds()[1]) is Some);
        }
    }
    r
}

} // verus!
