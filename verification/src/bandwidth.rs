//! Fair global bandwidth scheduling.
//!
//! The scheduler owns the process-wide download budget and divides it among
//! registered flows (normally one flow per active job) by weighted
//! water-filling:
//!
//! 1. every flow gets a share proportional to its effective weight
//!    (foreground flows count four times a background flow of equal weight);
//! 2. a flow never receives more than its `max_bps` cap — freed budget is
//!    redistributed to the remaining flows;
//! 3. a flow never receives less than its `min_bps` floor (or a small
//!    starvation floor when none is configured);
//! 4. if the floors alone exceed the capacity they are scaled down
//!    proportionally.
//!
//! Rates are recomputed whenever a flow registers, unregisters, is
//! reconfigured, or the global capacity changes; the type invariant states
//! that every stored rate is the fair share of the current configuration.
//! The rates never sum to more than the global capacity.
use vstd::prelude::*;
use vstd::arithmetic::div_mod::{lemma_fundamental_div_mod, lemma_mod_bound};

verus! {

/// Starvation floor divisor: an unconfigured flow is guaranteed at least
/// `capacity / (flows * DEFAULT_FLOOR_DIVISOR)` bytes per second.
pub const DEFAULT_FLOOR_DIVISOR: u64 = 16;

#[derive(Debug, Clone, Copy, PartialEq, Eq, Structural)]
pub enum FlowClass {
    Foreground,
    Background,
}

impl FlowClass {
    pub open spec fn multiplier(self) -> u64 {
        match self {
            FlowClass::Foreground => 4,
            FlowClass::Background => 1,
        }
    }

    pub fn weight_multiplier(self) -> (m: u64)
        ensures
            m == self.multiplier(),
    {
        match self {
            FlowClass::Foreground => 4,
            FlowClass::Background => 1,
        }
    }
}

#[derive(Debug, Clone, Copy)]
pub struct FlowConfig {
    /// Relative weight; zero is treated as one.
    pub weight: u32,
    pub class: FlowClass,
    /// Guaranteed floor in bytes per second.
    pub min_bps: Option<u64>,
    /// Hard cap in bytes per second.
    pub max_bps: Option<u64>,
}

impl Default for FlowConfig {
    fn default() -> (config: Self)
        ensures
            config.weight == 1,
            config.class == FlowClass::Foreground,
            config.min_bps is None,
            config.max_bps is None,
    {
        FlowConfig { weight: 1, class: FlowClass::Foreground, min_bps: None, max_bps: None }
    }
}

/// One flow as the water-filling sees it.
pub struct Entry {
    pub weight: u64,
    pub floor: u64,
    pub cap: u64,
}

/// Effective weight of a flow: `max(weight, 1)` times the class multiplier.
pub open spec fn config_weight(c: FlowConfig) -> u64 {
    ((if c.weight == 0 { 1 } else { c.weight as int }) * c.class.multiplier()) as u64
}

/// Hard cap of a flow; an absent cap is `u64::MAX`, a zero cap is one.
pub open spec fn config_cap(c: FlowConfig) -> u64 {
    match c.max_bps {
        Some(m) => if m == 0 { 1 } else { m },
        None => u64::MAX,
    }
}

/// Floor before scaling: the configured floor (or the default), never above the cap.
pub open spec fn config_raw_floor(c: FlowConfig, default_floor: u64) -> u64 {
    let f = match c.min_bps {
        Some(m) => m,
        None => default_floor,
    };
    if f <= config_cap(c) { f } else { config_cap(c) }
}

pub open spec fn default_floor(capacity: u64, flow_count: nat) -> u64 {
    let d = capacity as int / (flow_count * DEFAULT_FLOOR_DIVISOR);
    if d >= 1 { d as u64 } else { 1 }
}

pub open spec fn raw_floor_sum(configs: Seq<FlowConfig>, df: u64, k: int) -> nat
    decreases k,
{
    if k <= 0 {
        0
    } else {
        raw_floor_sum(configs, df, k - 1) + config_raw_floor(configs[k - 1], df) as nat
    }
}

/// The entries the water-filling runs on: floors are scaled down
/// proportionally when their sum exceeds the capacity.
pub open spec fn scaled_entries(capacity: u64, configs: Seq<FlowConfig>) -> Seq<Entry> {
    let df = default_floor(capacity, configs.len());
    let total = raw_floor_sum(configs, df, configs.len() as int);
    Seq::new(
        configs.len(),
        |i: int|
            {
                let raw = config_raw_floor(configs[i], df);
                Entry {
                    weight: config_weight(configs[i]),
                    floor: if total > capacity {
                        (raw as int * capacity as int / total as int) as u64
                    } else {
                        raw
                    },
                    cap: config_cap(configs[i]),
                }
            },
    )
}

pub open spec fn open_weight(es: Seq<Entry>, asg: Seq<Option<u64>>, k: int) -> nat
    decreases k,
{
    if k <= 0 {
        0
    } else {
        open_weight(es, asg, k - 1) + if asg[k - 1] is None {
            es[k - 1].weight as nat
        } else {
            0
        }
    }
}

pub open spec fn open_count(asg: Seq<Option<u64>>, k: int) -> nat
    decreases k,
{
    if k <= 0 {
        0
    } else {
        open_count(asg, k - 1) + if asg[k - 1] is None {
            1nat
        } else {
            0
        }
    }
}

/// Weight-proportional share of the remaining budget (`weight_sum` is never zero
/// where it matters; the division guards it like the executable code does).
pub open spec fn share(remaining: nat, weight: nat, weight_sum: nat) -> nat {
    remaining * weight / (if weight_sum == 0 { 1 } else { weight_sum })
}

/// An open flow whose share falls below its floor.
pub open spec fn below_floor(es: Seq<Entry>, asg: Seq<Option<u64>>, remaining: nat, wsum: nat, i: int) -> bool {
    asg[i] is None && share(remaining, es[i].weight as nat, wsum) < es[i].floor
}

/// Some flow among the first `k` is below its floor.
pub open spec fn below_any(es: Seq<Entry>, asg: Seq<Option<u64>>, remaining: nat, wsum: nat, k: int) -> bool
    decreases k,
{
    if k <= 0 {
        false
    } else {
        below_any(es, asg, remaining, wsum, k - 1) || below_floor(es, asg, remaining, wsum, k - 1)
    }
}

/// A round that pins floors: some open flow's share is below its floor.
/// Floors are pinned before caps are compared, so that what they take is
/// no longer part of the budget that capped flows are measured against.
pub open spec fn floor_round(es: Seq<Entry>, asg: Seq<Option<u64>>, remaining: nat, wsum: nat) -> bool {
    below_any(es, asg, remaining, wsum, es.len() as int)
}

/// An open flow is pinned in a round: at its floor in a floor round, else
/// at its cap where its share reaches the cap.
pub open spec fn pinned_at(
    es: Seq<Entry>,
    asg: Seq<Option<u64>>,
    remaining: nat,
    wsum: nat,
    i: int,
) -> bool {
    let s = share(remaining, es[i].weight as nat, wsum);
    asg[i] is None && if floor_round(es, asg, remaining, wsum) {
        s < es[i].floor
    } else {
        s >= es[i].cap
    }
}

pub open spec fn pin_value(e: Entry, s: nat) -> u64 {
    if s >= e.cap {
        e.cap
    } else {
        e.floor
    }
}

pub open spec fn clamp_value(e: Entry, s: nat) -> u64 {
    if s < e.floor {
        e.floor
    } else if s > e.cap {
        e.cap
    } else {
        s as u64
    }
}

pub open spec fn any_pinned(es: Seq<Entry>, asg: Seq<Option<u64>>, remaining: nat, wsum: nat) -> bool {
    exists|i: int| 0 <= i < es.len() && pinned_at(es, asg, remaining, wsum, i)
}

pub open spec fn after_pins(
    es: Seq<Entry>,
    asg: Seq<Option<u64>>,
    remaining: nat,
    wsum: nat,
) -> Seq<Option<u64>> {
    Seq::new(
        asg.len(),
        |i: int|
            if pinned_at(es, asg, remaining, wsum, i) {
                Some(pin_value(es[i], share(remaining, es[i].weight as nat, wsum)))
            } else {
                asg[i]
            },
    )
}

pub open spec fn final_round(
    es: Seq<Entry>,
    asg: Seq<Option<u64>>,
    remaining: nat,
    wsum: nat,
) -> Seq<Option<u64>> {
    Seq::new(
        asg.len(),
        |i: int|
            if asg[i] is None {
                Some(clamp_value(es[i], share(remaining, es[i].weight as nat, wsum)))
            } else {
                asg[i]
            },
    )
}

pub open spec fn pinned_total(
    es: Seq<Entry>,
    asg: Seq<Option<u64>>,
    remaining: nat,
    wsum: nat,
    k: int,
) -> nat
    decreases k,
{
    if k <= 0 {
        0
    } else {
        pinned_total(es, asg, remaining, wsum, k - 1) + if pinned_at(
            es,
            asg,
            remaining,
            wsum,
            k - 1,
        ) {
            pin_value(es[k - 1], share(remaining, es[k - 1].weight as nat, wsum)) as nat
        } else {
            0
        }
    }
}

pub open spec fn saturating_minus(a: nat, b: nat) -> nat {
    if a >= b {
        (a - b) as nat
    } else {
        0
    }
}

/// Weighted water-filling: each round hands every open flow its share of the
/// remaining budget. Where some shares fall below their floors, those flows
/// are pinned at their floors; otherwise flows whose share reaches their cap
/// are pinned at their caps. What was pinned leaves the budget and the round
/// repeats on the rest, until a round pins nothing and every open flow takes
/// its share.
pub open spec fn fill(es: Seq<Entry>, asg: Seq<Option<u64>>, remaining: nat, fuel: nat) -> Seq<
    Option<u64>,
>
    decreases fuel,
{
    let n = es.len() as int;
    let w = open_weight(es, asg, n);
    if fuel == 0 || open_count(asg, n) == 0 {
        asg
    } else if !any_pinned(es, asg, remaining, w) {
        final_round(es, asg, remaining, w)
    } else {
        fill(
            es,
            after_pins(es, asg, remaining, w),
            saturating_minus(remaining, pinned_total(es, asg, remaining, w, n)),
            (fuel - 1) as nat,
        )
    }
}

pub open spec fn unwrap_all(asg: Seq<Option<u64>>) -> Seq<u64> {
    Seq::new(
        asg.len(),
        |i: int|
            match asg[i] {
                Some(v) => v,
                None => 0,
            },
    )
}

/// The rate every flow receives for a capacity and a sequence of flow
/// configurations. A zero capacity means unlimited: each flow runs at its cap,
/// or unthrottled (zero) when it has none.
pub open spec fn fair_shares(capacity: u64, configs: Seq<FlowConfig>) -> Seq<u64> {
    if capacity == 0 {
        Seq::new(
            configs.len(),
            |i: int|
                match configs[i].max_bps {
                    Some(m) => m,
                    None => 0,
                },
        )
    } else {
        let es = scaled_entries(capacity, configs);
        unwrap_all(fill(es, Seq::new(es.len(), |i: int| None::<u64>), capacity as nat, es.len()))
    }
}

pub open spec fn sum_u64(s: Seq<u64>, k: int) -> nat
    decreases k,
{
    if k <= 0 {
        0
    } else {
        sum_u64(s, k - 1) + s[k - 1] as nat
    }
}


pub open spec fn entries_wf(es: Seq<Entry>) -> bool {
    forall|i: int|
        0 <= i < es.len() ==> {
            &&& 1 <= #[trigger] es[i].weight <= 4 * 0xffff_ffffu64
            &&& es[i].floor <= es[i].cap
        }
}

pub open spec fn pinned_count(es: Seq<Entry>, asg: Seq<Option<u64>>, remaining: nat, wsum: nat, k: int) -> nat
    decreases k,
{
    if k <= 0 {
        0
    } else {
        pinned_count(es, asg, remaining, wsum, k - 1) + if pinned_at(es, asg, remaining, wsum, k - 1) {
            1nat
        } else {
            0
        }
    }
}

/// `(a / d) * d <= a < (a / d) * d + d` for naturals.
proof fn lemma_div_bounds(a: int, d: int)
    requires
        a >= 0,
        d > 0,
    ensures
        (a / d) * d <= a,
        a < (a / d) * d + d,
        a / d >= 0,
{
    lemma_fundamental_div_mod(a, d);
    lemma_mod_bound(a, d);
    assert(d * (a / d) == (a / d) * d) by (nonlinear_arith);
    if a / d < 0 {
        assert((a / d) * d <= -d) by (nonlinear_arith)
            requires
                a / d < 0,
                d > 0,
        ;
    }
}

proof fn lemma_open_weight_ge(es: Seq<Entry>, asg: Seq<Option<u64>>, k: int, i: int)
    requires
        0 <= i < k <= es.len(),
        k <= asg.len(),
        asg[i] is None,
    ensures
        open_weight(es, asg, k) >= es[i].weight,
    decreases k,
{
    if i < k - 1 {
        lemma_open_weight_ge(es, asg, k - 1, i);
    }
}

proof fn lemma_open_weight_bound(es: Seq<Entry>, asg: Seq<Option<u64>>, k: int)
    requires
        0 <= k <= es.len(),
        entries_wf(es),
    ensures
        open_weight(es, asg, k) <= k * (4 * 0xffff_ffffu64),
    decreases k,
{
    if k > 0 {
        lemma_open_weight_bound(es, asg, k - 1);
        assert(es[k - 1].weight <= 4 * 0xffff_ffffu64);
    }
}

proof fn lemma_open_weight_positive(es: Seq<Entry>, asg: Seq<Option<u64>>, k: int)
    requires
        0 <= k <= es.len(),
        k <= asg.len(),
        entries_wf(es),
    ensures
        open_weight(es, asg, k) >= open_count(asg, k),
    decreases k,
{
    if k > 0 {
        lemma_open_weight_positive(es, asg, k - 1);
        assert(es[k - 1].weight >= 1);
    }
}

proof fn lemma_share_le_remaining(remaining: nat, w: nat, wsum: nat)
    requires
        w <= wsum,
        wsum >= 1,
    ensures
        share(remaining, w, wsum) <= remaining,
{
    lemma_div_bounds((remaining * w) as int, wsum as int);
    assert(remaining * w <= remaining * wsum) by (nonlinear_arith)
        requires
            w <= wsum,
    ;
    let q = (remaining * w) as int / wsum as int;
    assert(q * wsum <= remaining * wsum);
    assert(q <= remaining) by (nonlinear_arith)
        requires
            q * wsum <= remaining * wsum,
            wsum >= 1,
    ;
}

proof fn lemma_pin_counts(es: Seq<Entry>, asg: Seq<Option<u64>>, remaining: nat, wsum: nat, k: int)
    requires
        0 <= k <= es.len(),
        es.len() == asg.len(),
    ensures
        open_count(after_pins(es, asg, remaining, wsum), k) + pinned_count(es, asg, remaining, wsum, k)
            == open_count(asg, k),
        pinned_count(es, asg, remaining, wsum, k) > 0 <==> exists|i: int|
            0 <= i < k && pinned_at(es, asg, remaining, wsum, i),
    decreases k,
{
    if k > 0 {
        lemma_pin_counts(es, asg, remaining, wsum, k - 1);
        if pinned_at(es, asg, remaining, wsum, k - 1) {
            assert(exists|i: int| 0 <= i < k && pinned_at(es, asg, remaining, wsum, i));
        }
        if exists|i: int| 0 <= i < k && pinned_at(es, asg, remaining, wsum, i) {
            let i = choose|i: int| 0 <= i < k && pinned_at(es, asg, remaining, wsum, i);
            if i < k - 1 {
                assert(exists|j: int| 0 <= j < k - 1 && pinned_at(es, asg, remaining, wsum, j));
            }
        }
    }
}

proof fn lemma_pinned_total_bound(es: Seq<Entry>, asg: Seq<Option<u64>>, remaining: nat, wsum: nat, k: int)
    requires
        0 <= k <= es.len(),
    ensures
        pinned_total(es, asg, remaining, wsum, k) <= k * 0xffff_ffff_ffff_ffffu64,
    decreases k,
{
    if k > 0 {
        lemma_pinned_total_bound(es, asg, remaining, wsum, k - 1);
    }
}

proof fn lemma_open_count_zero_is_total(asg: Seq<Option<u64>>, k: int)
    requires
        0 <= k <= asg.len(),
        open_count(asg, k) == 0,
    ensures
        forall|i: int| 0 <= i < k ==> asg[i] is Some,
    decreases k,
{
    if k > 0 {
        lemma_open_count_zero_is_total(asg, k - 1);
    }
}

/// Sum of the open entries' weights.
fn weight_sum(es: &Vec<Entry>, asg: &Vec<Option<u64>>) -> (w: u128)
    requires
        es.len() == asg.len(),
        entries_wf(es@),
    ensures
        w == open_weight(es@, asg@, es.len() as int),
{
    let n = es.len();
    let mut w: u128 = 0;
    let mut i: usize = 0;
    while i < n
        invariant
            n == es.len(),
            es.len() == asg.len(),
            entries_wf(es@),
            i <= n,
            w == open_weight(es@, asg@, i as int),
        decreases n - i,
    {
        proof {
            lemma_open_weight_bound(es@, asg@, i as int + 1);
            assert((i as int + 1) * (4 * 0xffff_ffffu64) < 0x1_0000_0000_0000_0000_0000_0000_0000_0000int) by (nonlinear_arith)
                requires i < 0x1_0000_0000_0000_0000int;
        }
        if asg[i].is_none() {
            w = w + es[i].weight as u128;
        }
        i = i + 1;
    }
    w
}

/// Runs the water-filling over `es` with budget `capacity`.
fn water_fill(capacity: u64, es: &Vec<Entry>) -> (rates: Vec<u64>)
    requires
        entries_wf(es@),
    ensures
        rates@ == unwrap_all(
            fill(es@, Seq::new(es@.len(), |i: int| None::<u64>), capacity as nat, es@.len()),
        ),
{
    let n = es.len();
    let mut asg: Vec<Option<u64>> = Vec::new();
    let mut i: usize = 0;
    while i < n
        invariant
            i <= n,
            asg@ == Seq::new(i as nat, |j: int| None::<u64>),
        decreases n - i,
    {
        asg.push(None);
        i = i + 1;
    }
    let ghost start = asg@;
    let ghost target = fill(es@, start, capacity as nat, n as nat);
    proof {
        assert(start =~= Seq::new(es@.len(), |i: int| None::<u64>));
        assert forall|k: int| 0 <= k <= n implies open_count(start, k) == k by {
            lemma_open_count_all_none(start, k);
        }
    }
    let mut remaining: u64 = capacity;
    let mut open: usize = n;
    let ghost mut fuel: nat = n as nat;
    loop
        invariant_except_break
            n == es.len(),
            asg.len() == n,
            entries_wf(es@),
            open == open_count(asg@, n as int),
            open <= fuel,
            fill(es@, asg@, remaining as nat, fuel) == target,
        ensures
            asg@ == target,
            asg.len() == n,
        decreases open,
    {
        if open == 0 {
            proof {
                if fuel > 0 {
                    assert(fill(es@, asg@, remaining as nat, fuel) == asg@);
                }
            }
            break;
        }
        let w = weight_sum(es, &asg);
        proof {
            lemma_open_weight_positive(es@, asg@, n as int);
        }
        let ghost before = asg@;
        let ghost r = remaining as nat;
        let mut below = false;
        let mut b: usize = 0;
        while b < n
            invariant
                n == es.len(),
                asg.len() == n,
                asg@ == before,
                entries_wf(es@),
                w == open_weight(es@, before, n as int),
                w >= 1,
                r == remaining,
                b <= n,
                below == below_any(es@, before, r, w as nat, b as int),
            decreases n - b,
        {
            if asg[b].is_none() {
                let e = &es[b];
                proof {
                    lemma_open_weight_ge(es@, before, n as int, b as int);
                    lemma_share_le_remaining(r, e.weight as nat, w as nat);
                    assert(remaining as int * e.weight as int <= 0xffff_ffff_ffff_ffffu64 as int * (4 * 0xffff_ffffu64) as int) by (nonlinear_arith)
                        requires remaining <= 0xffff_ffff_ffff_ffffu64, e.weight <= 4 * 0xffff_ffffu64;
                }
                let s: u64 = ((remaining as u128) * (e.weight as u128) / w) as u64;
                if s < e.floor {
                    below = true;
                }
            }
            b = b + 1;
        }
        let mut pinned_sum: u128 = 0;
        let mut pinned_n: usize = 0;
        let mut j: usize = 0;
        while j < n
            invariant
                n == es.len(),
                asg.len() == n,
                before.len() == n,
                entries_wf(es@),
                w == open_weight(es@, before, n as int),
                w >= 1,
                r == remaining,
                j <= n,
                forall|k: int|
                    0 <= k < n ==> #[trigger] asg@[k] == if k < j {
                        after_pins(es@, before, r, w as nat)[k]
                    } else {
                        before[k]
                    },
                pinned_sum == pinned_total(es@, before, r, w as nat, j as int),
                pinned_n == pinned_count(es@, before, r, w as nat, j as int),
                pinned_n <= j,
                below == floor_round(es@, before, r, w as nat),
            decreases n - j,
        {
            proof {
                lemma_pinned_total_bound(es@, before, r, w as nat, j as int + 1);
                assert((j as int + 1) * 0xffff_ffff_ffff_ffffu64 < 0x1_0000_0000_0000_0000_0000_0000_0000_0000int) by (nonlinear_arith)
                    requires j < 0x1_0000_0000_0000_0000int;
            }
            if asg[j].is_none() {
                let e = &es[j];
                proof {
                    lemma_open_weight_ge(es@, before, n as int, j as int);
                    lemma_share_le_remaining(r, e.weight as nat, w as nat);
                    assert(remaining as int * e.weight as int <= 0xffff_ffff_ffff_ffffu64 as int * (4 * 0xffff_ffffu64) as int) by (nonlinear_arith)
                        requires remaining <= 0xffff_ffff_ffff_ffffu64, e.weight <= 4 * 0xffff_ffffu64;
                }
                let s128: u128 = (remaining as u128) * (e.weight as u128) / w;
                let s: u64 = s128 as u64;
                assert(s as nat == share(r, e.weight as nat, w as nat));
                assert(e.floor <= e.cap);
                if below {
                    if s < e.floor {
                        asg.set(j, Some(e.floor));
                        pinned_sum = pinned_sum + e.floor as u128;
                        pinned_n = pinned_n + 1;
                    }
                } else if s >= e.cap {
                    asg.set(j, Some(e.cap));
                    pinned_sum = pinned_sum + e.cap as u128;
                    pinned_n = pinned_n + 1;
                }
            }
            j = j + 1;
        }
        proof {
            assert(asg@ =~= after_pins(es@, before, r, w as nat));
            lemma_pin_counts(es@, before, r, w as nat, n as int);
        }
        if pinned_n == 0 {
            let ghost mid = asg@;
            let mut k: usize = 0;
            while k < n
                invariant
                    n == es.len(),
                    asg.len() == n,
                    mid == before,
                    before.len() == n,
                    entries_wf(es@),
                    w == open_weight(es@, before, n as int),
                    w >= 1,
                    r == remaining,
                    k <= n,
                    forall|t: int|
                        0 <= t < n ==> #[trigger] asg@[t] == if t < k {
                            final_round(es@, before, r, w as nat)[t]
                        } else {
                            before[t]
                        },
                decreases n - k,
            {
                if asg[k].is_none() {
                    let e = &es[k];
                    proof {
                        lemma_open_weight_ge(es@, before, n as int, k as int);
                        lemma_share_le_remaining(r, e.weight as nat, w as nat);
                        assert(remaining as int * e.weight as int <= 0xffff_ffff_ffff_ffffu64 as int * (4 * 0xffff_ffffu64) as int) by (nonlinear_arith)
                            requires remaining <= 0xffff_ffff_ffff_ffffu64, e.weight <= 4 * 0xffff_ffffu64;
                    }
                    let s: u64 = ((remaining as u128) * (e.weight as u128) / w) as u64;
                    let v = if s < e.floor {
                        e.floor
                    } else if s > e.cap {
                        e.cap
                    } else {
                        s
                    };
                    asg.set(k, Some(v));
                }
                k = k + 1;
            }
            proof {
                assert(asg@ =~= final_round(es@, before, r, w as nat));
                assert(!any_pinned(es@, before, r, w as nat));
            }
            break;
        }
        proof {
            assert(any_pinned(es@, before, r, w as nat));
        }
        remaining = if pinned_sum <= remaining as u128 {
            (remaining as u128 - pinned_sum) as u64
        } else {
            0
        };
        open = open - pinned_n;
        proof {
            fuel = (fuel - 1) as nat;
        }
    }
    let mut rates: Vec<u64> = Vec::new();
    let mut t: usize = 0;
    while t < n
        invariant
            t <= n,
            asg.len() == n,
            asg@ == target,
            rates@ == unwrap_all(asg@).subrange(0, t as int),
        decreases n - t,
    {
        let v = match asg[t] {
            Some(v) => v,
            None => 0,
        };
        rates.push(v);
        proof {
            assert(unwrap_all(asg@).subrange(0, t as int + 1) =~= unwrap_all(asg@).subrange(0, t as int).push(v));
        }
        t = t + 1;
    }
    proof {
        assert(rates@ =~= unwrap_all(asg@));
    }
    rates
}

proof fn lemma_open_count_all_none(asg: Seq<Option<u64>>, k: int)
    requires
        0 <= k <= asg.len(),
        forall|i: int| 0 <= i < asg.len() ==> asg[i] is None,
    ensures
        open_count(asg, k) == k,
    decreases k,
{
    if k > 0 {
        lemma_open_count_all_none(asg, k - 1);
    }
}


fn config_cap_exec(c: &FlowConfig) -> (cap: u64)
    ensures
        cap == config_cap(*c),
{
    match c.max_bps {
        Some(m) => if m == 0 {
            1
        } else {
            m
        },
        None => u64::MAX,
    }
}

proof fn lemma_raw_floor_sum_bound(configs: Seq<FlowConfig>, df: u64, k: int)
    requires
        0 <= k <= configs.len(),
    ensures
        raw_floor_sum(configs, df, k) <= k * 0xffff_ffff_ffff_ffffu64,
    decreases k,
{
    if k > 0 {
        lemma_raw_floor_sum_bound(configs, df, k - 1);
    }
}

/// Builds the water-filling entries, scaling overcommitted floors into the budget.
fn build_entries(capacity: u64, configs: &Vec<FlowConfig>) -> (es: Vec<Entry>)
    requires
        capacity > 0,
        configs.len() > 0,
    ensures
        es@ == scaled_entries(capacity, configs@),
        entries_wf(es@),
{
    let n = configs.len();
    let divisor: u128 = (n as u128) * (DEFAULT_FLOOR_DIVISOR as u128);
    assert(divisor >= 16) by (nonlinear_arith)
        requires divisor == (n as u128) * 16, n > 0;
    let d: u128 = (capacity as u128) / divisor;
    let df: u64 = if d >= 1 {
        d as u64
    } else {
        1
    };
    proof {
        assert(d <= capacity) by (nonlinear_arith)
            requires
                d == (capacity as u128) / divisor,
                divisor >= 1,
        ;
        assert(df == default_floor(capacity, configs@.len()));
    }
    let mut total: u128 = 0;
    let mut i: usize = 0;
    while i < n
        invariant
            n == configs.len(),
            i <= n,
            total == raw_floor_sum(configs@, df, i as int),
        decreases n - i,
    {
        proof {
            lemma_raw_floor_sum_bound(configs@, df, i as int + 1);
            assert((i as int + 1) * 0xffff_ffff_ffff_ffffu64 < 0x1_0000_0000_0000_0000_0000_0000_0000_0000int) by (nonlinear_arith)
                requires i < 0x1_0000_0000_0000_0000int;
        }
        let c = &configs[i];
        let cap = config_cap_exec(c);
        let f = match c.min_bps {
            Some(m) => m,
            None => df,
        };
        let raw = if f <= cap {
            f
        } else {
            cap
        };
        total = total + raw as u128;
        i = i + 1;
    }
    let ghost target = scaled_entries(capacity, configs@);
    let mut es: Vec<Entry> = Vec::new();
    let mut k: usize = 0;
    while k < n
        invariant
            n == configs.len(),
            k <= n,
            total == raw_floor_sum(configs@, df, n as int),
            df == default_floor(capacity, configs@.len()),
            target == scaled_entries(capacity, configs@),
            es@.len() == k,
            forall|t: int| 0 <= t < k ==> #[trigger] es@[t] == target[t],
            entries_wf(es@),
        decreases n - k,
    {
        let c = &configs[k];
        let cap = config_cap_exec(c);
        let f = match c.min_bps {
            Some(m) => m,
            None => df,
        };
        let raw = if f <= cap {
            f
        } else {
            cap
        };
        proof {
            assert(raw as int * capacity as int <= 0xffff_ffff_ffff_ffffu64 as int * 0xffff_ffff_ffff_ffffu64 as int) by (nonlinear_arith)
                requires raw <= 0xffff_ffff_ffff_ffffu64, capacity <= 0xffff_ffff_ffff_ffffu64;
        }
        let floor: u64 = if total > capacity as u128 {
            let scaled: u128 = (raw as u128) * (capacity as u128) / total;
            proof {
                assert(scaled <= raw) by (nonlinear_arith)
                    requires
                        scaled as int == (raw as int * capacity as int) / total as int,
                        (capacity as int) < total as int,
                ;
            }
            scaled as u64
        } else {
            raw
        };
        let mult = c.class.weight_multiplier();
        let base: u64 = if c.weight == 0 {
            1
        } else {
            c.weight as u64
        };
        let weight: u64 = base * mult;
        assert(floor <= raw);
        assert(1 <= weight <= 4 * 0xffff_ffffu64);
        es.push(Entry { weight, floor, cap });
        proof {
            assert(es@[k as int] == target[k as int]);
            assert(entries_wf(es@));
        }
        k = k + 1;
    }
    proof {
        assert(es@ =~= target);
    }
    es
}

/// The fair share of every flow, as `fair_shares` defines it.
fn compute_rates(capacity: u64, configs: &Vec<FlowConfig>) -> (rates: Vec<u64>)
    ensures
        rates@ == fair_shares(capacity, configs@),
{
    let n = configs.len();
    if capacity == 0 {
        let mut rates: Vec<u64> = Vec::new();
        let mut i: usize = 0;
        while i < n
            invariant
                n == configs.len(),
                i <= n,
                capacity == 0,
                fair_shares(capacity, configs@).len() == n,
                rates@ =~= fair_shares(capacity, configs@).subrange(0, i as int),
            decreases n - i,
        {
            let v = match configs[i].max_bps {
                Some(m) => m,
                None => 0,
            };
            rates.push(v);
            proof {
                assert(fair_shares(capacity, configs@).subrange(0, i as int + 1) =~= fair_shares(
                    capacity,
                    configs@,
                ).subrange(0, i as int).push(v));
            }
            i = i + 1;
        }
        return rates;
    }
    if n == 0 {
        let rates: Vec<u64> = Vec::new();
        proof {
            assert(rates@ =~= fair_shares(capacity, configs@));
        }
        return rates;
    }
    let es = build_entries(capacity, configs);
    water_fill(capacity, &es)
}


/// Process-wide bandwidth budget divided among registered flows. A flow is
/// named by a 128-bit identifier (a job's UUID).
pub struct FairBandwidthScheduler {
    /// Zero means unlimited: flows are constrained only by their own caps.
    capacity_bps: u64,
    ids: Vec<u128>,
    configs: Vec<FlowConfig>,
    rates: Vec<u64>,
}

pub open spec fn distinct_ids(ids: Seq<u128>) -> bool {
    forall|i: int, j: int| 0 <= i < ids.len() && 0 <= j < ids.len() && i != j ==> ids[i] != ids[j]
}

impl FairBandwidthScheduler {
    pub closed spec fn capacity(&self) -> u64 {
        self.capacity_bps
    }

    pub closed spec fn flow_ids(&self) -> Seq<u128> {
        self.ids@
    }

    pub closed spec fn flow_configs(&self) -> Seq<FlowConfig> {
        self.configs@
    }

    pub closed spec fn flow_rates(&self) -> Seq<u64> {
        self.rates@
    }

    /// Every flow has one configuration and one rate, no id occurs twice,
    /// and the rates are the fair shares of the configurations.
    pub open spec fn valid(&self) -> bool {
        &&& self.flow_ids().len() == self.flow_configs().len()
        &&& distinct_ids(self.flow_ids())
        &&& self.flow_rates() == fair_shares(self.capacity(), self.flow_configs())
    }

    #[verifier::type_invariant]
    spec fn well_formed(&self) -> bool {
        &&& self.ids@.len() == self.configs@.len()
        &&& distinct_ids(self.ids@)
        &&& self.rates@ == fair_shares(self.capacity_bps, self.configs@)
    }

    pub fn new(capacity_bps: u64) -> (s: Self)
        ensures
            s.capacity() == capacity_bps,
            s.flow_ids().len() == 0,
            s.flow_configs().len() == 0,
            s.flow_rates().len() == 0,
            s.valid(),
    {
        let configs: Vec<FlowConfig> = Vec::new();
        let rates = compute_rates(capacity_bps, &configs);
        FairBandwidthScheduler { capacity_bps, ids: Vec::new(), configs, rates }
    }

    /// Updates the global budget and immediately re-divides it.
    pub fn set_capacity_bps(&mut self, capacity_bps: u64)
        ensures
            final(self).capacity() == capacity_bps,
            final(self).flow_ids() == old(self).flow_ids(),
            final(self).flow_configs() == old(self).flow_configs(),
            final(self).flow_rates() == fair_shares(capacity_bps, old(self).flow_configs()),
            final(self).valid(),
    {
        proof {
            use_type_invariant(&*self);
        }
        let rates = compute_rates(capacity_bps, &self.configs);
        let ids = self.ids.clone();
        let configs = self.configs.clone();
        proof {
            assert(ids@ =~= self.ids@);
            assert(configs@ =~= self.configs@);
        }
        *self = FairBandwidthScheduler { capacity_bps, ids, configs, rates };
    }

    pub fn capacity_bps(&self) -> (c: u64)
        ensures
            c == self.capacity(),
            self.valid(),
    {
        proof {
            use_type_invariant(self);
        }
        self.capacity_bps
    }

    fn position(&self, id: u128) -> (p: Option<usize>)
        ensures
            match p {
                Some(i) => i < self.flow_ids().len() && self.flow_ids()[i as int] == id,
                None => !self.flow_ids().contains(id),
            },
    {
        let mut i: usize = 0;
        while i < self.ids.len()
            invariant
                i <= self.ids@.len(),
                forall|j: int| 0 <= j < i ==> self.ids@[j] != id,
            decreases self.ids@.len() - i,
        {
            if self.ids[i] == id {
                return Some(i);
            }
            i = i + 1;
        }
        None
    }

    /// Registers a flow (replacing the configuration of a flow already
    /// registered under the same id) and re-divides the budget.
    pub fn register(&mut self, id: u128, config: FlowConfig)
        ensures
            final(self).capacity() == old(self).capacity(),
            old(self).flow_ids().contains(id) ==> {
                let i = old(self).flow_ids().index_of(id);
                &&& final(self).flow_ids() == old(self).flow_ids()
                &&& final(self).flow_configs() == old(self).flow_configs().update(i, config)
            },
            !old(self).flow_ids().contains(id) ==> {
                &&& final(self).flow_ids() == old(self).flow_ids().push(id)
                &&& final(self).flow_configs() == old(self).flow_configs().push(config)
            },
            final(self).flow_rates() == fair_shares(final(self).capacity(), final(self).flow_configs()),
            final(self).valid(),
    {
        proof {
            use_type_invariant(&*self);
        }
        let mut ids = self.ids.clone();
        let mut configs = self.configs.clone();
        proof {
            assert(ids@ =~= self.ids@);
            assert(configs@ =~= self.configs@);
        }
        match self.position(id) {
            Some(i) => {
                proof {
                    assert(self.ids@.index_of(id) == i) by {
                        assert(self.ids@[i as int] == id);
                    }
                }
                configs.set(i, config);
            },
            None => {
                ids.push(id);
                configs.push(config);
                proof {
                    assert forall|a: int, b: int|
                        0 <= a < ids@.len() && 0 <= b < ids@.len() && a != b implies ids@[a]
                        != ids@[b] by {
                        if a < self.ids@.len() && b < self.ids@.len() {
                        } else if a < self.ids@.len() {
                            assert(self.ids@.contains(ids@[a]));
                        } else {
                            assert(self.ids@.contains(ids@[b]));
                        }
                    }
                }
            },
        }
        let rates = compute_rates(self.capacity_bps, &configs);
        *self = FairBandwidthScheduler { capacity_bps: self.capacity_bps, ids, configs, rates };
    }

    /// Reconfigures a live flow; unknown ids are ignored.
    pub fn reconfigure(&mut self, id: u128, config: FlowConfig)
        ensures
            final(self).capacity() == old(self).capacity(),
            final(self).flow_ids() == old(self).flow_ids(),
            old(self).flow_ids().contains(id) ==> final(self).flow_configs() == old(
                self,
            ).flow_configs().update(old(self).flow_ids().index_of(id), config),
            !old(self).flow_ids().contains(id) ==> final(self).flow_configs() == old(
                self,
            ).flow_configs(),
            final(self).flow_rates() == fair_shares(final(self).capacity(), final(self).flow_configs()),
            final(self).valid(),
    {
        proof {
            use_type_invariant(&*self);
        }
        if let Some(i) = self.position(id) {
            proof {
                assert(self.ids@.index_of(id) == i) by {
                    assert(self.ids@[i as int] == id);
                }
            }
            let ids = self.ids.clone();
            let mut configs = self.configs.clone();
            proof {
                assert(ids@ =~= self.ids@);
            }
            configs.set(i, config);
            let rates = compute_rates(self.capacity_bps, &configs);
            *self = FairBandwidthScheduler { capacity_bps: self.capacity_bps, ids, configs, rates };
        }
    }

    /// Removes a flow and re-divides the budget among the rest; unknown ids
    /// are ignored.
    pub fn unregister(&mut self, id: u128)
        ensures
            final(self).capacity() == old(self).capacity(),
            old(self).flow_ids().contains(id) ==> {
                let i = old(self).flow_ids().index_of(id);
                &&& final(self).flow_ids() == old(self).flow_ids().remove(i)
                &&& final(self).flow_configs() == old(self).flow_configs().remove(i)
            },
            !old(self).flow_ids().contains(id) ==> {
                &&& final(self).flow_ids() == old(self).flow_ids()
                &&& final(self).flow_configs() == old(self).flow_configs()
            },
            !final(self).flow_ids().contains(id),
            final(self).flow_rates() == fair_shares(final(self).capacity(), final(self).flow_configs()),
            final(self).valid(),
    {
        proof {
            use_type_invariant(&*self);
        }
        if let Some(i) = self.position(id) {
            proof {
                assert(self.ids@.index_of(id) == i) by {
                    assert(self.ids@[i as int] == id);
                }
            }
            let mut ids = self.ids.clone();
            let mut configs = self.configs.clone();
            proof {
                assert(ids@ =~= self.ids@);
                assert(configs@ =~= self.configs@);
            }
            ids.remove(i);
            configs.remove(i);
            proof {
                let old_ids = self.ids@;
                assert(ids@ =~= old_ids.remove(i as int));
                assert forall|a: int, b: int|
                    0 <= a < ids@.len() && 0 <= b < ids@.len() && a != b implies ids@[a]
                    != ids@[b] by {
                    let a2 = if a < i { a } else { a + 1 };
                    let b2 = if b < i { b } else { b + 1 };
                    assert(ids@[a] == old_ids[a2]);
                    assert(ids@[b] == old_ids[b2]);
                }
                if ids@.contains(id) {
                    let a = choose|a: int| 0 <= a < ids@.len() && ids@[a] == id;
                    let a2 = if a < i { a } else { a + 1 };
                    assert(old_ids[a2] == id);
                }
            }
            let rates = compute_rates(self.capacity_bps, &configs);
            *self = FairBandwidthScheduler { capacity_bps: self.capacity_bps, ids, configs, rates };
        }
    }

    pub fn flow_count(&self) -> (n: usize)
        ensures
            n == self.flow_ids().len(),
            self.valid(),
    {
        proof {
            use_type_invariant(self);
        }
        self.ids.len()
    }

    /// The rate currently assigned to a flow, for diagnostics and tests.
    pub fn assigned_bps(&self, id: u128) -> (rate: Option<u64>)
        ensures
            self.flow_ids().contains(id) ==> rate == Some(
                self.flow_rates()[self.flow_ids().index_of(id)],
            ),
            !self.flow_ids().contains(id) ==> rate is None,
            self.valid(),
    {
        proof {
            use_type_invariant(self);
        }
        match self.position(id) {
            Some(i) => {
                proof {
                    assert(self.ids@.index_of(id) == i) by {
                        assert(self.ids@[i as int] == id);
                    }
                    lemma_fair_shares_len(self.capacity_bps, self.configs@);
                }
                Some(self.rates[i])
            },
            None => None,
        }
    }
}


proof fn lemma_fill_len(es: Seq<Entry>, asg: Seq<Option<u64>>, remaining: nat, fuel: nat)
    ensures
        fill(es, asg, remaining, fuel).len() == asg.len(),
    decreases fuel,
{
    let n = es.len() as int;
    let w = open_weight(es, asg, n);
    if fuel == 0 || open_count(asg, n) == 0 {
    } else if !any_pinned(es, asg, remaining, w) {
    } else {
        lemma_fill_len(
            es,
            after_pins(es, asg, remaining, w),
            saturating_minus(remaining, pinned_total(es, asg, remaining, w, n)),
            (fuel - 1) as nat,
        );
    }
}

/// Every registered flow receives exactly one rate.
pub proof fn lemma_fair_shares_len(capacity: u64, configs: Seq<FlowConfig>)
    ensures
        fair_shares(capacity, configs).len() == configs.len(),
{
    if capacity != 0 {
        let es = scaled_entries(capacity, configs);
        lemma_fill_len(es, Seq::new(es.len(), |i: int| None::<u64>), capacity as nat, es.len());
    }
}


pub open spec fn within_bounds(es: Seq<Entry>, asg: Seq<Option<u64>>) -> bool {
    forall|i: int|
        0 <= i < asg.len() ==> match #[trigger] asg[i] {
            Some(v) => es[i].floor <= v <= es[i].cap,
            None => true,
        }
}

proof fn lemma_fill_bounds(es: Seq<Entry>, asg: Seq<Option<u64>>, remaining: nat, fuel: nat)
    requires
        entries_wf(es),
        asg.len() == es.len(),
        open_count(asg, es.len() as int) <= fuel,
        within_bounds(es, asg),
    ensures
        within_bounds(es, fill(es, asg, remaining, fuel)),
        fill(es, asg, remaining, fuel).len() == es.len(),
        forall|i: int|
            0 <= i < es.len() ==> #[trigger] fill(es, asg, remaining, fuel)[i] is Some,
    decreases fuel,
{
    let n = es.len() as int;
    let w = open_weight(es, asg, n);
    lemma_fill_len(es, asg, remaining, fuel);
    if fuel == 0 || open_count(asg, n) == 0 {
        lemma_open_count_zero_is_total(asg, n);
    } else if !any_pinned(es, asg, remaining, w) {
        let f = final_round(es, asg, remaining, w);
        assert forall|i: int| 0 <= i < f.len() implies match #[trigger] f[i] {
            Some(v) => es[i].floor <= v <= es[i].cap,
            None => true,
        } by {
            assert(es[i].floor <= es[i].cap);
        }
    } else {
        let next = after_pins(es, asg, remaining, w);
        lemma_pin_counts(es, asg, remaining, w, n);
        assert forall|i: int| 0 <= i < next.len() implies match #[trigger] next[i] {
            Some(v) => es[i].floor <= v <= es[i].cap,
            None => true,
        } by {
            assert(es[i].floor <= es[i].cap);
            if !pinned_at(es, asg, remaining, w, i) {
                assert(next[i] == asg[i]);
            }
        }
        lemma_fill_bounds(
            es,
            next,
            saturating_minus(remaining, pinned_total(es, asg, remaining, w, n)),
            (fuel - 1) as nat,
        );
    }
}

proof fn lemma_scaled_entries_wf(capacity: u64, configs: Seq<FlowConfig>)
    requires
        capacity > 0,
    ensures
        entries_wf(scaled_entries(capacity, configs)),
{
    let es = scaled_entries(capacity, configs);
    let df = default_floor(capacity, configs.len());
    let total = raw_floor_sum(configs, df, configs.len() as int);
    assert forall|i: int| 0 <= i < es.len() implies {
        &&& 1 <= #[trigger] es[i].weight <= 4 * 0xffff_ffffu64
        &&& es[i].floor <= es[i].cap
    } by {
        let raw = config_raw_floor(configs[i], df);
        if total > capacity {
            assert(raw as int * capacity as int / total as int <= raw) by (nonlinear_arith)
                requires
                    capacity < total,
                    raw >= 0,
            ;
        }
    }
}

/// Every flow receives at least its (possibly proportionally scaled) floor and
/// never more than its cap; with an unlimited (zero) capacity a flow runs at
/// its cap, or unthrottled (zero) when it has none.
pub proof fn lemma_rates_respect_floors_and_caps(capacity: u64, configs: Seq<FlowConfig>, i: int)
    requires
        0 <= i < configs.len(),
    ensures
        fair_shares(capacity, configs).len() == configs.len(),
        capacity == 0 ==> fair_shares(capacity, configs)[i] == match configs[i].max_bps {
            Some(m) => m,
            None => 0u64,
        },
        capacity > 0 ==> scaled_entries(capacity, configs)[i].floor <= fair_shares(
            capacity,
            configs,
        )[i] <= config_cap(configs[i]),
{
    lemma_fair_shares_len(capacity, configs);
    if capacity > 0 {
        let es = scaled_entries(capacity, configs);
        let none = Seq::new(es.len(), |k: int| None::<u64>);
        lemma_scaled_entries_wf(capacity, configs);
        lemma_open_count_all_none(none, es.len() as int);
        assert(within_bounds(es, none));
        lemma_fill_bounds(es, none, capacity as nat, es.len());
        let f = fill(es, none, capacity as nat, es.len());
        assert(f[i] is Some);
    }
}

/// When the guaranteed floors fit into the capacity they are not scaled:
/// a flow with a configured floor receives at least that floor (or its cap,
/// if the cap is lower).
pub proof fn lemma_configured_floor_is_guaranteed(capacity: u64, configs: Seq<FlowConfig>, i: int)
    requires
        0 <= i < configs.len(),
        capacity > 0,
        raw_floor_sum(
            configs,
            default_floor(capacity, configs.len()),
            configs.len() as int,
        ) <= capacity,
        configs[i].min_bps is Some,
    ensures
        fair_shares(capacity, configs)[i] >= if configs[i].min_bps->0 <= config_cap(configs[i]) {
            configs[i].min_bps->0
        } else {
            config_cap(configs[i])
        },
{
    lemma_rates_respect_floors_and_caps(capacity, configs, i);
}


pub open spec fn assigned_sum(asg: Seq<Option<u64>>, k: int) -> nat
    decreases k,
{
    if k <= 0 {
        0
    } else {
        assigned_sum(asg, k - 1) + match asg[k - 1] {
            Some(v) => v as nat,
            None => 0nat,
        }
    }
}

pub open spec fn open_floor_sum(es: Seq<Entry>, asg: Seq<Option<u64>>, k: int) -> nat
    decreases k,
{
    if k <= 0 {
        0
    } else {
        open_floor_sum(es, asg, k - 1) + if asg[k - 1] is None {
            es[k - 1].floor as nat
        } else {
            0
        }
    }
}

pub open spec fn open_clamp_sum(es: Seq<Entry>, asg: Seq<Option<u64>>, remaining: nat, wsum: nat, k: int) -> nat
    decreases k,
{
    if k <= 0 {
        0
    } else {
        open_clamp_sum(es, asg, remaining, wsum, k - 1) + if asg[k - 1] is None {
            clamp_value(es[k - 1], share(remaining, es[k - 1].weight as nat, wsum)) as nat
        } else {
            0
        }
    }
}

proof fn lemma_after_pins_sums(es: Seq<Entry>, asg: Seq<Option<u64>>, r: nat, w: nat, k: int)
    requires
        0 <= k <= es.len(),
        es.len() == asg.len(),
    ensures
        assigned_sum(after_pins(es, asg, r, w), k) == assigned_sum(asg, k) + pinned_total(es, asg, r, w, k),
        (forall|i: int| 0 <= i < k && pinned_at(es, asg, r, w, i) ==> share(r, es[i].weight as nat, w) < es[i].cap)
            ==> open_floor_sum(es, after_pins(es, asg, r, w), k) + pinned_total(es, asg, r, w, k)
            == open_floor_sum(es, asg, k),
    decreases k,
{
    if k > 0 {
        lemma_after_pins_sums(es, asg, r, w, k - 1);
    }
}

proof fn lemma_final_round_sum(es: Seq<Entry>, asg: Seq<Option<u64>>, r: nat, w: nat, k: int)
    requires
        0 <= k <= es.len(),
        es.len() == asg.len(),
    ensures
        assigned_sum(final_round(es, asg, r, w), k) == assigned_sum(asg, k) + open_clamp_sum(es, asg, r, w, k),
    decreases k,
{
    if k > 0 {
        lemma_final_round_sum(es, asg, r, w, k - 1);
    }
}

proof fn lemma_open_clamp_sum_bound(es: Seq<Entry>, asg: Seq<Option<u64>>, r: nat, w: nat, k: int)
    requires
        0 <= k <= es.len(),
        es.len() == asg.len(),
        w >= 1,
        !floor_round(es, asg, r, w),
        forall|i: int| 0 <= i < k ==> !pinned_at(es, asg, r, w, i),
        forall|i: int| 0 <= i < k ==> !below_floor(es, asg, r, w, i),
    ensures
        open_clamp_sum(es, asg, r, w, k) * w <= r * open_weight(es, asg, k),
    decreases k,
{
    if k > 0 {
        lemma_open_clamp_sum_bound(es, asg, r, w, k - 1);
        if asg[k - 1] is None {
            let wi = es[k - 1].weight as nat;
            let sh = share(r, wi, w);
            assert(!pinned_at(es, asg, r, w, k - 1));
            assert(!below_floor(es, asg, r, w, k - 1));
            assert(clamp_value(es[k - 1], sh) == sh);
            lemma_div_bounds((r * wi) as int, w as int);
            let prev = open_clamp_sum(es, asg, r, w, k - 1);
            let pw = open_weight(es, asg, k - 1);
            assert((prev + sh) * w <= r * (pw + wi)) by (nonlinear_arith)
                requires
                    prev * w <= r * pw,
                    sh * w <= r * wi,
            ;
            assert(open_clamp_sum(es, asg, r, w, k) == prev + sh);
            assert(open_weight(es, asg, k) == pw + wi);
            assert(open_clamp_sum(es, asg, r, w, k) * w <= r * open_weight(es, asg, k));
        } else {
            assert(open_clamp_sum(es, asg, r, w, k) == open_clamp_sum(es, asg, r, w, k - 1));
            assert(open_weight(es, asg, k) == open_weight(es, asg, k - 1));
            assert(open_clamp_sum(es, asg, r, w, k) * w <= r * open_weight(es, asg, k));
        }
    } else {
        assert(open_clamp_sum(es, asg, r, w, k) == 0);
        assert(open_weight(es, asg, k) == 0);
        assert(0 * w <= r * 0) by (nonlinear_arith);
    }
}

/// Sum of the open flows' shares.
pub open spec fn open_share_sum(es: Seq<Entry>, asg: Seq<Option<u64>>, r: nat, w: nat, k: int) -> nat
    decreases k,
{
    if k <= 0 {
        0
    } else {
        open_share_sum(es, asg, r, w, k - 1) + if asg[k - 1] is None {
            share(r, es[k - 1].weight as nat, w)
        } else {
            0
        }
    }
}

proof fn lemma_open_share_sum_bound(es: Seq<Entry>, asg: Seq<Option<u64>>, r: nat, w: nat, k: int)
    requires
        0 <= k <= es.len(),
        es.len() == asg.len(),
        w >= 1,
    ensures
        open_share_sum(es, asg, r, w, k) * w <= r * open_weight(es, asg, k),
    decreases k,
{
    if k > 0 {
        lemma_open_share_sum_bound(es, asg, r, w, k - 1);
        let prev = open_share_sum(es, asg, r, w, k - 1);
        let pw = open_weight(es, asg, k - 1);
        if asg[k - 1] is None {
            let wi = es[k - 1].weight as nat;
            let sh = share(r, wi, w);
            lemma_div_bounds((r * wi) as int, w as int);
            assert((prev + sh) * w <= r * (pw + wi)) by (nonlinear_arith)
                requires
                    prev * w <= r * pw,
                    sh * w <= r * wi,
            ;
            assert(open_share_sum(es, asg, r, w, k) == prev + sh);
            assert(open_weight(es, asg, k) == pw + wi);
        } else {
            assert(open_share_sum(es, asg, r, w, k) == prev);
            assert(open_weight(es, asg, k) == pw);
        }
    } else {
        assert(0 * w <= r * 0) by (nonlinear_arith);
    }
}

proof fn lemma_below_any(es: Seq<Entry>, asg: Seq<Option<u64>>, r: nat, w: nat, k: int)
    requires
        0 <= k <= es.len(),
    ensures
        below_any(es, asg, r, w, k) <==> exists|i: int| 0 <= i < k && below_floor(es, asg, r, w, i),
    decreases k,
{
    if k > 0 {
        lemma_below_any(es, asg, r, w, k - 1);
        if below_floor(es, asg, r, w, k - 1) {
            assert(exists|i: int| 0 <= i < k && below_floor(es, asg, r, w, i));
        }
        if exists|i: int| 0 <= i < k && below_floor(es, asg, r, w, i) {
            let i = choose|i: int| 0 <= i < k && below_floor(es, asg, r, w, i);
            if i < k - 1 {
                assert(exists|j: int| 0 <= j < k - 1 && below_floor(es, asg, r, w, j));
            }
        }
    }
}

/// In a round that pins caps, every open flow's share covers its floor, so
/// the caps pinned plus the floors still open stay within the shares.
proof fn lemma_cap_round(es: Seq<Entry>, asg: Seq<Option<u64>>, r: nat, w: nat, k: int)
    requires
        0 <= k <= es.len(),
        es.len() == asg.len(),
        entries_wf(es),
        !floor_round(es, asg, r, w),
        forall|i: int| 0 <= i < k ==> !below_floor(es, asg, r, w, i),
    ensures
        pinned_total(es, asg, r, w, k) + open_floor_sum(es, after_pins(es, asg, r, w), k)
            <= open_share_sum(es, asg, r, w, k),
    decreases k,
{
    if k > 0 {
        lemma_cap_round(es, asg, r, w, k - 1);
        let next = after_pins(es, asg, r, w);
        assert(!below_floor(es, asg, r, w, k - 1));
        assert(es[k - 1].weight >= 1 && es[k - 1].floor <= es[k - 1].cap);
        if pinned_at(es, asg, r, w, k - 1) {
            assert(next[k - 1] is Some);
        } else {
            assert(next[k - 1] == asg[k - 1]);
        }
    }
}

proof fn lemma_fill_total(es: Seq<Entry>, asg: Seq<Option<u64>>, r: nat, fuel: nat, capacity: nat)
    requires
        entries_wf(es),
        asg.len() == es.len(),
        assigned_sum(asg, es.len() as int) + r <= capacity,
        open_floor_sum(es, asg, es.len() as int) <= r,
    ensures
        assigned_sum(fill(es, asg, r, fuel), es.len() as int) <= capacity,
    decreases fuel,
{
    let n = es.len() as int;
    let w = open_weight(es, asg, n);
    if fuel == 0 || open_count(asg, n) == 0 {
    } else if !any_pinned(es, asg, r, w) {
        lemma_open_weight_positive(es, asg, n);
        lemma_below_any(es, asg, r, w, n);
        if floor_round(es, asg, r, w) {
            let i = choose|i: int| 0 <= i < n && below_floor(es, asg, r, w, i);
            assert(pinned_at(es, asg, r, w, i));
        }
        assert forall|i: int| 0 <= i < n implies !pinned_at(es, asg, r, w, i) by {
            if pinned_at(es, asg, r, w, i) {
                assert(any_pinned(es, asg, r, w));
            }
        }
        lemma_final_round_sum(es, asg, r, w, n);
        lemma_open_clamp_sum_bound(es, asg, r, w, n);
        let cs = open_clamp_sum(es, asg, r, w, n);
        assert(cs <= r) by (nonlinear_arith)
            requires
                cs * w <= r * w,
                w >= 1,
        ;
    } else {
        let next = after_pins(es, asg, r, w);
        let pt = pinned_total(es, asg, r, w, n);
        lemma_after_pins_sums(es, asg, r, w, n);
        lemma_open_weight_positive(es, asg, n);
        lemma_below_any(es, asg, r, w, n);
        if floor_round(es, asg, r, w) {
            assert forall|i: int| 0 <= i < n && pinned_at(es, asg, r, w, i) implies share(
                r,
                es[i].weight as nat,
                w,
            ) < es[i].cap by {
                assert(es[i].floor <= es[i].cap);
            }
        } else {
            lemma_open_share_sum_bound(es, asg, r, w, n);
            lemma_cap_round(es, asg, r, w, n);
            let ss = open_share_sum(es, asg, r, w, n);
            assert(ss <= r) by (nonlinear_arith)
                requires
                    ss * w <= r * w,
                    w >= 1,
            ;
        }
        lemma_fill_total(es, next, saturating_minus(r, pt), (fuel - 1) as nat, capacity);
    }
}

proof fn lemma_initial_floor_sum(capacity: u64, configs: Seq<FlowConfig>, k: int)
    requires
        capacity > 0,
        0 <= k <= configs.len(),
    ensures
        ({
            let es = scaled_entries(capacity, configs);
            let df = default_floor(capacity, configs.len());
            let total = raw_floor_sum(configs, df, configs.len() as int);
            let none = Seq::new(es.len(), |t: int| None::<u64>);
            &&& total <= capacity ==> open_floor_sum(es, none, k) == raw_floor_sum(configs, df, k)
            &&& total > capacity ==> open_floor_sum(es, none, k) * total <= raw_floor_sum(configs, df, k) * capacity
        }),
    decreases k,
{
    let es = scaled_entries(capacity, configs);
    let df = default_floor(capacity, configs.len());
    let total = raw_floor_sum(configs, df, configs.len() as int);
    if k > 0 {
        lemma_initial_floor_sum(capacity, configs, k - 1);
        let none = Seq::new(es.len(), |t: int| None::<u64>);
        assert(none[k - 1] is None);
        assert(open_floor_sum(es, none, k) == open_floor_sum(es, none, k - 1) + es[k - 1].floor);
        if total <= capacity {
            assert(es[k - 1].floor == config_raw_floor(configs[k - 1], df));
        }
        if total > capacity {
            let raw = config_raw_floor(configs[k - 1], df) as int;
            let f = raw * capacity as int / total as int;
            lemma_div_bounds(raw * capacity as int, total as int);
            let prev = open_floor_sum(es, Seq::new(es.len(), |t: int| None::<u64>), k - 1);
            let praw = raw_floor_sum(configs, df, k - 1);
            assert((prev + f) * total <= (praw + raw) * capacity) by (nonlinear_arith)
                requires
                    prev * total <= praw * capacity,
                    f * total <= raw * capacity,
            ;
            assert(f <= raw) by (nonlinear_arith)
                requires
                    f == raw * capacity as int / total as int,
                    capacity < total,
                    raw >= 0,
            ;
            assert(es[k - 1].floor == f);
            assert(open_floor_sum(es, none, k) == prev + f);
            assert(raw_floor_sum(configs, df, k) == praw + raw);
        }
    } else {
        let none = Seq::new(es.len(), |t: int| None::<u64>);
        assert(open_floor_sum(es, none, k) == 0);
        assert(raw_floor_sum(configs, df, k) == 0);
        assert(0 * total <= 0 * capacity) by (nonlinear_arith);
    }
}

/// The rates never sum to more than the capacity: the floors are scaled
/// into the budget first, and every water-filling round hands out at most
/// what remains of it.
pub proof fn lemma_rates_within_capacity(capacity: u64, configs: Seq<FlowConfig>)
    requires
        capacity > 0,
    ensures
        sum_u64(fair_shares(capacity, configs), configs.len() as int) <= capacity,
{
    let es = scaled_entries(capacity, configs);
    let n = es.len() as int;
    let none = Seq::new(es.len(), |t: int| None::<u64>);
    let df = default_floor(capacity, configs.len());
    let total = raw_floor_sum(configs, df, configs.len() as int);
    lemma_scaled_entries_wf(capacity, configs);
    lemma_open_count_all_none(none, n);
    lemma_initial_floor_sum(capacity, configs, n);
    if total > capacity {
        let fs = open_floor_sum(es, none, n);
        assert(fs <= capacity) by (nonlinear_arith)
            requires
                fs * total <= total * capacity,
                total > capacity,
        ;
    }
    lemma_assigned_sum_none(none, n);
    lemma_fill_total(es, none, capacity as nat, es.len(), capacity as nat);
    let f = fill(es, none, capacity as nat, es.len());
    lemma_fill_len(es, none, capacity as nat, es.len());
    lemma_sum_unwrap(f, n);
}

/// What a scheduler hands out: in all never more than its capacity, and to
/// each flow no more than its cap and no less than its floor, the
/// configured or starvation floor itself wherever the floors fit into the
/// capacity.
pub proof fn lemma_scheduler_rates(s: FairBandwidthScheduler)
    requires
        s.valid(),
    ensures
        s.flow_rates().len() == s.flow_ids().len(),
        s.capacity() > 0 ==> sum_u64(s.flow_rates(), s.flow_ids().len() as int) <= s.capacity(),
        forall|i: int|
            0 <= i < s.flow_ids().len() && s.capacity() > 0 ==> {
                &&& #[trigger] s.flow_rates()[i] <= config_cap(s.flow_configs()[i])
                &&& scaled_entries(s.capacity(), s.flow_configs())[i].floor <= s.flow_rates()[i]
                &&& raw_floor_sum(
                    s.flow_configs(),
                    default_floor(s.capacity(), s.flow_configs().len()),
                    s.flow_configs().len() as int,
                ) <= s.capacity() ==> config_raw_floor(
                    s.flow_configs()[i],
                    default_floor(s.capacity(), s.flow_configs().len()),
                ) <= s.flow_rates()[i]
            },
{
    let c = s.capacity();
    let configs = s.flow_configs();
    lemma_fair_shares_len(c, configs);
    if c > 0 {
        lemma_rates_within_capacity(c, configs);
    }
    assert forall|i: int| 0 <= i < s.flow_ids().len() && s.capacity() > 0 implies {
        &&& #[trigger] s.flow_rates()[i] <= config_cap(s.flow_configs()[i])
        &&& scaled_entries(s.capacity(), s.flow_configs())[i].floor <= s.flow_rates()[i]
        &&& raw_floor_sum(
            s.flow_configs(),
            default_floor(s.capacity(), s.flow_configs().len()),
            s.flow_configs().len() as int,
        ) <= s.capacity() ==> config_raw_floor(
            s.flow_configs()[i],
            default_floor(s.capacity(), s.flow_configs().len()),
        ) <= s.flow_rates()[i]
    } by {
        lemma_rates_respect_floors_and_caps(c, configs, i);
    }
}

proof fn lemma_assigned_sum_none(asg: Seq<Option<u64>>, k: int)
    requires
        0 <= k <= asg.len(),
        forall|i: int| 0 <= i < asg.len() ==> asg[i] is None,
    ensures
        assigned_sum(asg, k) == 0,
    decreases k,
{
    if k > 0 {
        lemma_assigned_sum_none(asg, k - 1);
    }
}

proof fn lemma_sum_unwrap(asg: Seq<Option<u64>>, k: int)
    requires
        0 <= k <= asg.len(),
    ensures
        sum_u64(unwrap_all(asg), k) == assigned_sum(asg, k),
    decreases k,
{
    if k > 0 {
        lemma_sum_unwrap(asg, k - 1);
    }
}


} // verus!
