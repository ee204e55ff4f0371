use vstd::prelude::*;

verus! {

/// The economic parameters of the protocol. Shares and inflation are percents.
#[derive(Clone, Copy, Debug)]
pub struct RewardParams {
    pub max_inflation: u128,
    pub node_share: u128,
    pub protocol_share: u128,
    pub service_builder_share: u128,
    pub epochs_per_year: u64,
    /// The largest stake boost, as a multiplier.
    pub max_boost: u64,
}

/// The supply of the staking token (18 decimals).
#[derive(Clone, Copy, Debug, PartialEq, Eq, Structural)]
pub struct Supply {
    pub total_supply: u128,
    pub supply_at_year_start: u128,
}

/// `a * b / c` rounded down, where `b <= c`: `a = q * c + r` gives
/// `q * b + r * b / c`, exact as long as `r * b` fits.
pub open spec fn share_of(a: int, b: int, c: int) -> int {
    a * b / c
}

proof fn lemma_split_share(a: int, b: int, c: int)
    requires
        0 <= a,
        0 <= b <= c,
        0 < c,
    ensures
        a * b / c == (a / c) * b + ((a % c) * b) / c,
        ((a % c) * b) / c <= a - (a / c) * b,
        (a / c) * b <= a,
{
    let q = a / c;
    let r = a % c;
    vstd::arithmetic::div_mod::lemma_fundamental_div_mod(a, c);
    assert(a * b == (q * b) * c + r * b) by (nonlinear_arith)
        requires
            a == c * q + r,
    ;
    assert(0 <= r < c);
    assert(r * b >= 0) by (nonlinear_arith)
        requires
            0 <= r,
            0 <= b,
    ;
    let q2 = (r * b) / c;
    let r2 = (r * b) % c;
    vstd::arithmetic::div_mod::lemma_fundamental_div_mod(r * b, c);
    assert(a * b == (q * b + q2) * c + r2) by (nonlinear_arith)
        requires
            a * b == (q * b) * c + r * b,
            r * b == c * q2 + r2,
    ;
    vstd::arithmetic::div_mod::lemma_fundamental_div_mod_converse(a * b, c, q * b + q2, r2);
    assert(r * b <= r * c) by (nonlinear_arith)
        requires
            0 <= r,
            b <= c,
    ;
    assert((r * b) / c <= r) by (nonlinear_arith)
        requires
            r * b <= r * c,
            0 < c,
            0 <= r * b,
    {
        vstd::arithmetic::div_mod::lemma_div_is_ordered(r * b, r * c, c);
        vstd::arithmetic::div_mod::lemma_div_by_multiple(r, c);
    }
    assert(q * b <= q * c) by (nonlinear_arith)
        requires
            0 <= q,
            b <= c,
    ;
}

/// `a * b / c`, rounded down, for `0 < c` and `b <= c`; `None` where an
/// intermediate product exceeds `u128`.
pub fn mul_div(a: u128, b: u128, c: u128) -> (r: Option<u128>)
    requires
        0 < c,
        b <= c,
    ensures
        r is Some <==> (a % c) * b <= u128::MAX,
        r is Some ==> r->Some_0 == share_of(a as int, b as int, c as int),
{
    let q = a / c;
    let rem = a % c;
    if b != 0 && rem > u128::MAX / b {
        assert(rem * b > u128::MAX) by (nonlinear_arith)
            requires
                b != 0,
                rem > u128::MAX / b,
        ;
        return None;
    }
    assert(rem * b <= u128::MAX) by (nonlinear_arith)
        requires
            b == 0 || rem <= u128::MAX / b,
    ;
    assert(q * b <= a) by (nonlinear_arith)
        requires
            q == a / c,
            b <= c,
            0 < c,
    ;
    let low = (rem * b) / c;
    proof {
        lemma_split_share(a as int, b as int, c as int);
    }
    Some(q * b + low)
}

/// The tokens minted in one epoch: the yearly inflation of the supply at the
/// start of the year, spread over the epochs of the year.
pub open spec fn emissions_of(p: RewardParams, s: Supply) -> int {
    s.supply_at_year_start * p.max_inflation / 100 / (p.epochs_per_year as int)
}

/// The supply after an epoch of `epoch_of_year` (counted from 0) has ended: the
/// emissions are added, and at the end of the year the result becomes the
/// supply at the start of the next one.
pub open spec fn supply_after(p: RewardParams, s: Supply, epoch_of_year: u64) -> Supply {
    let total = (s.total_supply + emissions_of(p, s)) as u128;
    Supply {
        total_supply: total,
        supply_at_year_start: if epoch_of_year + 1 == p.epochs_per_year {
            total
        } else {
            s.supply_at_year_start
        },
    }
}

/// Whether the supply can grow by one epoch's emissions within `u128`.
pub open spec fn supply_fits(p: RewardParams, s: Supply) -> bool {
    &&& s.supply_at_year_start * p.max_inflation <= u128::MAX
    &&& s.total_supply + emissions_of(p, s) <= u128::MAX
}

/// One epoch's emissions, where they fit.
pub fn emissions(p: &RewardParams, s: &Supply) -> (r: Option<u128>)
    requires
        p.epochs_per_year > 0,
    ensures
        r is Some <==> s.supply_at_year_start * p.max_inflation <= u128::MAX,
        r is Some ==> r->Some_0 == emissions_of(*p, *s),
{
    if p.max_inflation != 0 && s.supply_at_year_start > u128::MAX / p.max_inflation {
        assert(s.supply_at_year_start * p.max_inflation > u128::MAX) by (nonlinear_arith)
            requires
                p.max_inflation != 0,
                s.supply_at_year_start > u128::MAX / p.max_inflation,
        ;
        return None;
    }
    assert(s.supply_at_year_start * p.max_inflation <= u128::MAX) by (nonlinear_arith)
        requires
            p.max_inflation == 0 || s.supply_at_year_start <= u128::MAX / p.max_inflation,
    ;
    Some(s.supply_at_year_start * p.max_inflation / 100 / (p.epochs_per_year as u128))
}

/// Ends an epoch for the supply: adds the epoch's emissions and, after the last
/// epoch of the year, moves the start-of-year supply. Returns the emissions, or
/// `None`, leaving the supply as it was, where they do not fit.
pub fn advance_supply(s: &mut Supply, p: &RewardParams, epoch_of_year: u64) -> (r: Option<u128>)
    requires
        p.epochs_per_year > 0,
    ensures
        r is Some <==> supply_fits(*p, *old(s)),
        r is Some ==> {
            &&& r->Some_0 == emissions_of(*p, *old(s))
            &&& *final(s) == supply_after(*p, *old(s), epoch_of_year)
        },
        r is None ==> *final(s) == *old(s),
{
    let e = match emissions(p, s) {
        Some(e) => e,
        None => {
            return None;
        },
    };
    if s.total_supply > u128::MAX - e {
        return None;
    }
    s.total_supply = s.total_supply + e;
    if epoch_of_year < u64::MAX && epoch_of_year + 1 == p.epochs_per_year {
        s.supply_at_year_start = s.total_supply;
    }
    Some(e)
}

/// The total supply after a run of epochs: the one before plus every epoch's
/// emissions.
pub open spec fn total_after(p: RewardParams, s: Supply, epochs: Seq<u64>) -> Supply
    decreases epochs.len(),
{
    if epochs.len() == 0 {
        s
    } else {
        total_after(p, supply_after(p, s, epochs[0]), epochs.drop_first())
    }
}

/// The emissions of each epoch of a run, in order.
pub open spec fn emitted(p: RewardParams, s: Supply, epochs: Seq<u64>) -> Seq<int>
    decreases epochs.len(),
{
    if epochs.len() == 0 {
        seq![]
    } else {
        seq![emissions_of(p, s)] + emitted(p, supply_after(p, s, epochs[0]), epochs.drop_first())
    }
}

pub open spec fn sum(s: Seq<int>) -> int
    decreases s.len(),
{
    if s.len() == 0 {
        0
    } else {
        s[0] + sum(s.drop_first())
    }
}

/// Where every epoch's emissions fit, the total supply after a run of epochs is
/// the supply before it plus the sum of the emissions of its epochs.
pub proof fn lemma_supply_accounts_for_emissions(p: RewardParams, s: Supply, epochs: Seq<u64>)
    requires
        p.epochs_per_year > 0,
        all_fit(p, s, epochs),
    ensures
        total_after(p, s, epochs).total_supply == s.total_supply + sum(emitted(p, s, epochs)),
    decreases epochs.len(),
{
    if epochs.len() > 0 {
        let next = supply_after(p, s, epochs[0]);
        assert(emitted(p, s, epochs).drop_first() =~= emitted(p, next, epochs.drop_first()));
        assert(emissions_of(p, s) >= 0) by (nonlinear_arith)
            requires
                p.epochs_per_year > 0,
        {
            assert(s.supply_at_year_start * p.max_inflation >= 0);
        }
        lemma_supply_accounts_for_emissions(p, next, epochs.drop_first());
    }
}

/// Every epoch of the run grows the supply within `u128`.
pub open spec fn all_fit(p: RewardParams, s: Supply, epochs: Seq<u64>) -> bool
    decreases epochs.len(),
{
    if epochs.len() == 0 {
        true
    } else {
        supply_fits(p, s) && all_fit(p, supply_after(p, s, epochs[0]), epochs.drop_first())
    }
}

/// A node's acknowledged deliveries of one service in the epoch.
#[derive(Clone, Copy, Debug)]
pub struct DeliveryAck {
    pub node: u32,
    pub service_id: u32,
    pub commodity: u128,
}

/// What an epoch pays out. Stablecoin amounts have 6 decimals, token amounts 18.
pub struct Rewards {
    pub emissions: u128,
    pub node_stables: Vec<u128>,
    pub node_flk: Vec<u128>,
    pub protocol_stables: u128,
    pub protocol_flk: u128,
    pub service_stables: Vec<u128>,
    pub service_flk: Vec<u128>,
}

/// What an acknowledgment earns: the commodity at its service's price (0 for an
/// unknown service).
pub open spec fn ack_value(a: DeliveryAck, prices: Seq<u128>) -> int {
    if a.service_id < prices.len() {
        a.commodity * prices[a.service_id as int]
    } else {
        0
    }
}

pub open spec fn total_revenue(acks: Seq<DeliveryAck>, prices: Seq<u128>) -> int
    decreases acks.len(),
{
    if acks.len() == 0 {
        0
    } else {
        total_revenue(acks.drop_last(), prices) + ack_value(acks.last(), prices)
    }
}

pub open spec fn node_revenue(acks: Seq<DeliveryAck>, prices: Seq<u128>, j: int) -> int
    decreases acks.len(),
{
    if acks.len() == 0 {
        0
    } else {
        node_revenue(acks.drop_last(), prices, j) + if acks.last().node == j {
            ack_value(acks.last(), prices)
        } else {
            0
        }
    }
}

pub open spec fn service_revenue(acks: Seq<DeliveryAck>, prices: Seq<u128>, s: int) -> int
    decreases acks.len(),
{
    if acks.len() == 0 {
        0
    } else {
        service_revenue(acks.drop_last(), prices, s) + if acks.last().service_id == s {
            ack_value(acks.last(), prices)
        } else {
            0
        }
    }
}

proof fn lemma_revenue_bounds(acks: Seq<DeliveryAck>, prices: Seq<u128>, j: int)
    ensures
        0 <= node_revenue(acks, prices, j) <= total_revenue(acks, prices),
        0 <= service_revenue(acks, prices, j) <= total_revenue(acks, prices),
    decreases acks.len(),
{
    if acks.len() > 0 {
        lemma_revenue_bounds(acks.drop_last(), prices, j);
        let a = acks.last();
        if a.service_id < prices.len() {
            assert(a.commodity * prices[a.service_id as int] >= 0) by (nonlinear_arith);
        }
    }
}

/// `a * share / 100`.
pub open spec fn percent(a: int, share: u128) -> int {
    a * share / 100
}

/// A node's weight in the token rewards: its revenue times its stake boost.
pub open spec fn weight(acks: Seq<DeliveryAck>, prices: Seq<u128>, boosts: Seq<u128>, j: int) -> int {
    node_revenue(acks, prices, j) * boosts[j]
}

pub open spec fn total_weight(acks: Seq<DeliveryAck>, prices: Seq<u128>, boosts: Seq<u128>, n: int) -> int
    decreases n,
{
    if n <= 0 {
        0
    } else {
        total_weight(acks, prices, boosts, n - 1) + weight(acks, prices, boosts, n - 1)
    }
}

/// `pool * part / whole`, or 0 where the whole is 0.
pub open spec fn split(pool: int, part: int, whole: int) -> int {
    if whole == 0 {
        0
    } else {
        share_of(pool, part, whole)
    }
}

/// Whether every amount of the distribution can be computed within `u128`.
pub open spec fn distribution_fits(
    p: RewardParams,
    emissions: u128,
    prices: Seq<u128>,
    acks: Seq<DeliveryAck>,
    boosts: Seq<u128>,
) -> bool {
    let total = total_revenue(acks, prices);
    let w = total_weight(acks, prices, boosts, boosts.len() as int);
    &&& forall|k: int| 0 <= k <= acks.len() ==> #[trigger] total_revenue(acks.subrange(0, k), prices) <= u128::MAX
    &&& forall|k: int| 0 <= k < acks.len() ==> ack_value(#[trigger] acks[k], prices) <= u128::MAX
    &&& total * p.node_share <= u128::MAX
    &&& total * p.protocol_share <= u128::MAX
    &&& total * p.service_builder_share <= u128::MAX
    &&& emissions * p.node_share <= u128::MAX
    &&& emissions * p.protocol_share <= u128::MAX
    &&& emissions * p.service_builder_share <= u128::MAX
    &&& forall|k: int| 0 <= k <= boosts.len() ==> #[trigger] total_weight(acks, prices, boosts, k) <= u128::MAX
    &&& forall|j: int| 0 <= j < boosts.len() ==> #[trigger] weight(acks, prices, boosts, j) <= u128::MAX
    &&& w > 0 ==> forall|j: int|
        0 <= j < boosts.len() ==> (percent(emissions as int, p.node_share) % w) * #[trigger] weight(
            acks,
            prices,
            boosts,
            j,
        ) <= u128::MAX
    &&& total > 0 ==> forall|s: int|
        0 <= s < prices.len() ==> (percent(emissions as int, p.service_builder_share) % total)
            * #[trigger] service_revenue(acks, prices, s) <= u128::MAX
}

proof fn lemma_weight_nonneg(acks: Seq<DeliveryAck>, prices: Seq<u128>, boosts: Seq<u128>, j: int)
    requires
        0 <= j < boosts.len(),
    ensures
        weight(acks, prices, boosts, j) >= 0,
{
    lemma_revenue_bounds(acks, prices, j);
    let r = node_revenue(acks, prices, j);
    let b = boosts[j] as int;
    assert(r * b >= 0) by (nonlinear_arith)
        requires
            r >= 0,
            b >= 0,
    ;
}

proof fn lemma_weight_bounds(acks: Seq<DeliveryAck>, prices: Seq<u128>, boosts: Seq<u128>, n: int, j: int)
    requires
        0 <= n <= boosts.len(),
    ensures
        total_weight(acks, prices, boosts, n) >= 0,
        0 <= j < n ==> 0 <= weight(acks, prices, boosts, j) <= total_weight(acks, prices, boosts, n),
    decreases n,
{
    if n > 0 {
        lemma_weight_bounds(acks, prices, boosts, n - 1, j);
        lemma_weight_nonneg(acks, prices, boosts, n - 1);
        if 0 <= j < n {
            lemma_weight_nonneg(acks, prices, boosts, j);
        }
    }
}

/// A node's stake boost, in units of `1 / epochs_per_year`:
/// `min(1 + locked_for / epochs_per_year * (max_boost - 1), max_boost)`.
pub open spec fn boost_of(p: RewardParams, locked_for: u64) -> int {
    let e = p.epochs_per_year as int;
    let b = e + locked_for * (p.max_boost - 1);
    if b < p.max_boost * e {
        b
    } else {
        p.max_boost * e
    }
}

/// The stake boost of a node whose stake stays locked for `locked_for` more
/// epochs, scaled by the number of epochs in a year so that it is exact.
pub fn stake_boost(p: &RewardParams, locked_for: u64) -> (r: u128)
    requires
        p.max_boost >= 1,
    ensures
        r == boost_of(*p, locked_for),
{
    let e = p.epochs_per_year as u128;
    let l = locked_for as u128;
    let m = (p.max_boost - 1) as u128;
    let mb = p.max_boost as u128;
    assert(l * m <= 340282366920938463426481119284349108225) by (nonlinear_arith)
        requires
            l <= 18446744073709551615,
            m <= 18446744073709551615,
    ;
    assert(mb * e <= 340282366920938463426481119284349108225) by (nonlinear_arith)
        requires
            mb <= 18446744073709551615,
            e <= 18446744073709551615,
    ;
    let extra: u128 = l * m;
    let b = e + extra;
    let cap: u128 = mb * e;
    if b < cap {
        b
    } else {
        cap
    }
}

/// `a * b`, or `None` where it exceeds `u128`.
fn checked_product(a: u128, b: u128) -> (r: Option<u128>)
    ensures
        r is Some <==> a * b <= u128::MAX,
        r is Some ==> r->Some_0 == a * b,
{
    if a != 0 && b > u128::MAX / a {
        assert(a * b > u128::MAX) by (nonlinear_arith)
            requires
                a != 0,
                b > u128::MAX / a,
        ;
        None
    } else {
        assert(a * b <= u128::MAX) by (nonlinear_arith)
            requires
                a == 0 || b <= u128::MAX / a,
        ;
        Some(a * b)
    }
}

/// What acknowledgment `a` earns.
fn value_of(a: &DeliveryAck, prices: &Vec<u128>) -> (r: Option<u128>)
    ensures
        r is Some <==> ack_value(*a, prices@) <= u128::MAX,
        r is Some ==> r->Some_0 == ack_value(*a, prices@),
{
    if (a.service_id as usize) < prices.len() {
        checked_product(a.commodity, prices[a.service_id as usize])
    } else {
        Some(0)
    }
}

/// Splits an epoch's payout. Stablecoins: each node, the protocol and each
/// service's owner get their percent of the revenue they account for. Tokens:
/// the protocol gets its percent of the emissions; the nodes share theirs in
/// proportion to revenue times stake boost (`boosts`, one per node), and the
/// services share theirs in proportion to revenue. Acknowledgments of unknown
/// nodes or services earn nothing for them. Returns `Some` whenever every
/// amount fits in a `u128`.
pub fn distribute_rewards(
    p: &RewardParams,
    emissions: u128,
    prices: &Vec<u128>,
    acks: &Vec<DeliveryAck>,
    boosts: &Vec<u128>,
) -> (r: Option<Rewards>)
    ensures
        r is Some <==> distribution_fits(*p, emissions, prices@, acks@, boosts@),
        r is Some ==> {
            let rw = r->Some_0;
            let total = total_revenue(acks@, prices@);
            let w = total_weight(acks@, prices@, boosts@, boosts@.len() as int);
            &&& rw.emissions == emissions
            &&& rw.protocol_stables == percent(total, p.protocol_share)
            &&& rw.protocol_flk == percent(emissions as int, p.protocol_share)
            &&& rw.node_stables@.len() == boosts@.len()
            &&& rw.node_flk@.len() == boosts@.len()
            &&& forall|j: int|
                0 <= j < boosts@.len() ==> {
                    &&& #[trigger] rw.node_stables@[j] == percent(node_revenue(acks@, prices@, j), p.node_share)
                    &&& rw.node_flk@[j] == split(
                        percent(emissions as int, p.node_share),
                        weight(acks@, prices@, boosts@, j),
                        w,
                    )
                }
            &&& rw.service_stables@.len() == prices@.len()
            &&& rw.service_flk@.len() == prices@.len()
            &&& forall|s: int|
                0 <= s < prices@.len() ==> {
                    &&& #[trigger] rw.service_stables@[s] == percent(
                        service_revenue(acks@, prices@, s),
                        p.service_builder_share,
                    )
                    &&& rw.service_flk@[s] == split(
                        percent(emissions as int, p.service_builder_share),
                        service_revenue(acks@, prices@, s),
                        total,
                    )
                }
        },
{
    let ghost fits = distribution_fits(*p, emissions, prices@, acks@, boosts@);
    let n = boosts.len();
    let m = prices.len();
    // Revenue in total, per node and per service.
    let mut total: u128 = 0;
    let mut node_rev: Vec<u128> = Vec::new();
    let mut j: usize = 0;
    while j < n
        invariant
            0 <= j <= n,
            n == boosts@.len(),
            node_rev@.len() == j,
            forall|k: int| 0 <= k < j ==> node_rev@[k] == 0,
        decreases n - j,
    {
        node_rev.push(0);
        j = j + 1;
    }
    let mut service_rev: Vec<u128> = Vec::new();
    let mut s: usize = 0;
    while s < m
        invariant
            0 <= s <= m,
            m == prices@.len(),
            service_rev@.len() == s,
            forall|k: int| 0 <= k < s ==> service_rev@[k] == 0,
        decreases m - s,
    {
        service_rev.push(0);
        s = s + 1;
    }
    let mut i: usize = 0;
    assert(acks@.subrange(0, 0) =~= Seq::<DeliveryAck>::empty());
    while i < acks.len()
        invariant
            0 <= i <= acks@.len(),
            n == boosts@.len(),
            m == prices@.len(),
            fits == distribution_fits(*p, emissions, prices@, acks@, boosts@),
            total == total_revenue(acks@.subrange(0, i as int), prices@),
            forall|k: int| 0 <= k <= i ==> #[trigger] total_revenue(acks@.subrange(0, k), prices@) <= u128::MAX,
            forall|k: int| 0 <= k < i ==> ack_value(#[trigger] acks@[k], prices@) <= u128::MAX,
            node_rev@.len() == n,
            service_rev@.len() == m,
            forall|k: int| 0 <= k < n ==> #[trigger] node_rev@[k] == node_revenue(acks@.subrange(0, i as int), prices@, k),
            forall|k: int| 0 <= k < m ==> #[trigger] service_rev@[k] == service_revenue(acks@.subrange(0, i as int), prices@, k),
        decreases acks@.len() - i,
    {
        let a = acks[i];
        let ghost pre = acks@.subrange(0, i as int);
        let ghost post = acks@.subrange(0, i + 1);
        assert(post.drop_last() =~= pre);
        assert(post.last() == a);
        let v = match value_of(&a, prices) {
            Some(v) => v,
            None => {
                assert(!fits);
                return None;
            },
        };
        if total > u128::MAX - v {
            assert(total_revenue(post, prices@) > u128::MAX);
            assert(!fits);
            return None;
        }
        total = total + v;
        assert(total_revenue(acks@.subrange(0, i + 1), prices@) == total);
        proof {
            lemma_revenue_bounds(post, prices@, a.node as int);
            lemma_revenue_bounds(post, prices@, a.service_id as int);
        }
        if (a.node as usize) < n {
            let k = a.node as usize;
            node_rev[k] = node_rev[k] + v;
        }
        if (a.service_id as usize) < m {
            let k = a.service_id as usize;
            service_rev[k] = service_rev[k] + v;
        }
        i = i + 1;
    }
    assert(acks@.subrange(0, acks@.len() as int) =~= acks@);
    proof {
        assert forall|k: int| 0 <= k < n implies #[trigger] node_rev@[k] <= total by {
            lemma_revenue_bounds(acks@, prices@, k);
        }
        assert forall|k: int| 0 <= k < m implies #[trigger] service_rev@[k] <= total by {
            lemma_revenue_bounds(acks@, prices@, k);
        }
    }
    // Percent shares of revenue and of emissions.
    let tn = match checked_product(total, p.node_share) {
        Some(x) => x,
        None => {
            return None;
        },
    };
    let tp = match checked_product(total, p.protocol_share) {
        Some(x) => x,
        None => {
            return None;
        },
    };
    let ts = match checked_product(total, p.service_builder_share) {
        Some(x) => x,
        None => {
            return None;
        },
    };
    let en = match checked_product(emissions, p.node_share) {
        Some(x) => x,
        None => {
            return None;
        },
    };
    let ep = match checked_product(emissions, p.protocol_share) {
        Some(x) => x,
        None => {
            return None;
        },
    };
    let es = match checked_product(emissions, p.service_builder_share) {
        Some(x) => x,
        None => {
            return None;
        },
    };
    let node_pool = en / 100;
    let service_pool = es / 100;
    // Node weights: revenue times stake boost.
    let mut weights: Vec<u128> = Vec::new();
    let mut w_total: u128 = 0;
    let mut j: usize = 0;
    while j < n
        invariant
            0 <= j <= n,
            n == boosts@.len(),
            fits == distribution_fits(*p, emissions, prices@, acks@, boosts@),
            node_rev@.len() == n,
            forall|k: int| 0 <= k < n ==> #[trigger] node_rev@[k] == node_revenue(acks@, prices@, k),
            weights@.len() == j,
            forall|k: int| 0 <= k < j ==> #[trigger] weights@[k] == weight(acks@, prices@, boosts@, k),
            w_total == total_weight(acks@, prices@, boosts@, j as int),
            forall|k: int| 0 <= k <= j ==> #[trigger] total_weight(acks@, prices@, boosts@, k) <= u128::MAX,
        decreases n - j,
    {
        let w = match checked_product(node_rev[j], boosts[j]) {
            Some(w) => w,
            None => {
                assert(weight(acks@, prices@, boosts@, j as int) > u128::MAX);
                return None;
            },
        };
        if w_total > u128::MAX - w {
            assert(total_weight(acks@, prices@, boosts@, j + 1) > u128::MAX);
            return None;
        }
        w_total = w_total + w;
        weights.push(w);
        j = j + 1;
    }
    // Node payouts.
    let mut node_stables: Vec<u128> = Vec::new();
    let mut node_flk: Vec<u128> = Vec::new();
    let mut j: usize = 0;
    while j < n
        invariant
            0 <= j <= n,
            n == boosts@.len(),
            fits == distribution_fits(*p, emissions, prices@, acks@, boosts@),
            node_rev@.len() == n,
            forall|k: int| 0 <= k < n ==> #[trigger] node_rev@[k] == node_revenue(acks@, prices@, k),
            forall|k: int| 0 <= k < n ==> #[trigger] node_rev@[k] <= total,
            weights@.len() == n,
            forall|k: int| 0 <= k < n ==> #[trigger] weights@[k] == weight(acks@, prices@, boosts@, k),
            w_total == total_weight(acks@, prices@, boosts@, n as int),
            tn == total * p.node_share,
            node_pool == percent(emissions as int, p.node_share),
            node_stables@.len() == j,
            node_flk@.len() == j,
            forall|k: int| 0 <= k < j ==> #[trigger] node_stables@[k] == percent(node_revenue(acks@, prices@, k), p.node_share),
            forall|k: int| 0 <= k < j ==> #[trigger] node_flk@[k] == split(node_pool as int, weight(acks@, prices@, boosts@, k), w_total as int),
            forall|k: int| 0 <= k <= n ==> #[trigger] total_weight(acks@, prices@, boosts@, k) <= u128::MAX,
            w_total > 0 ==> forall|k: int| 0 <= k < j ==> (node_pool % w_total) * #[trigger] weight(acks@, prices@, boosts@, k) <= u128::MAX,
        decreases n - j,
    {
        let r = node_rev[j];
        assert(r * p.node_share <= total * p.node_share) by (nonlinear_arith)
            requires
                r <= total,
        ;
        node_stables.push(r * p.node_share / 100);
        if w_total == 0 {
            node_flk.push(0);
        } else {
            proof {
                lemma_weight_bounds(acks@, prices@, boosts@, n as int, j as int);
            }
            match mul_div(node_pool, weights[j], w_total) {
                Some(x) => node_flk.push(x),
                None => {
                    return None;
                },
            }
        }
        j = j + 1;
    }
    // Service payouts.
    let mut service_stables: Vec<u128> = Vec::new();
    let mut service_flk: Vec<u128> = Vec::new();
    let mut s: usize = 0;
    while s < m
        invariant
            0 <= s <= m,
            m == prices@.len(),
            fits == distribution_fits(*p, emissions, prices@, acks@, boosts@),
            total == total_revenue(acks@, prices@),
            service_rev@.len() == m,
            forall|k: int| 0 <= k < m ==> #[trigger] service_rev@[k] == service_revenue(acks@, prices@, k),
            forall|k: int| 0 <= k < m ==> #[trigger] service_rev@[k] <= total,
            ts == total * p.service_builder_share,
            service_pool == percent(emissions as int, p.service_builder_share),
            service_stables@.len() == s,
            service_flk@.len() == s,
            forall|k: int| 0 <= k < s ==> #[trigger] service_stables@[k] == percent(service_revenue(acks@, prices@, k), p.service_builder_share),
            forall|k: int| 0 <= k < s ==> #[trigger] service_flk@[k] == split(service_pool as int, service_revenue(acks@, prices@, k), total as int),
            total > 0 ==> forall|k: int| 0 <= k < s ==> (service_pool % total) * #[trigger] service_revenue(acks@, prices@, k) <= u128::MAX,
        decreases m - s,
    {
        let r = service_rev[s];
        assert(r * p.service_builder_share <= total * p.service_builder_share) by (nonlinear_arith)
            requires
                r <= total,
        ;
        service_stables.push(r * p.service_builder_share / 100);
        if total == 0 {
            service_flk.push(0);
        } else {
            match mul_div(service_pool, r, total) {
                Some(x) => service_flk.push(x),
                None => {
                    return None;
                },
            }
        }
        s = s + 1;
    }
    assert forall|j: int| 0 <= j < boosts@.len() implies #[trigger] weight(acks@, prices@, boosts@, j) <= u128::MAX by {
        assert(weights@[j] == weight(acks@, prices@, boosts@, j));
    }
    Some(
        Rewards {
            emissions,
            node_stables,
            node_flk,
            protocol_stables: tp / 100,
            protocol_flk: ep / 100,
            service_stables,
            service_flk,
        },
    )
}

} // verus!
