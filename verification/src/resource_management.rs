//! Deterministic energy accounting for resource-aware swarm decisions.
use vstd::prelude::*;

pub mod energy_costs;

verus! {

/// Hardware-specific energy profile, for calibration against real devices.
#[derive(Debug, Clone, Copy)]
pub struct EnergyProfile {
    /// Human-readable profile name.
    pub name: &'static str,
    /// Cost of one prediction.
    pub predict_cost: u32,
    /// Cost of sending a gossip packet.
    pub gossip_send_cost: u32,
    /// Cost of receiving a gossip packet.
    pub gossip_recv_cost: u32,
    /// Cost of adapting weights.
    pub adapt_cost: u32,
    /// Idle drain per tick.
    pub idle_leak_rate: u32,
    /// Heartbeat cost.
    pub heartbeat_cost: u32,
    /// Recharge per calm tick.
    pub recharge_rate: u32,
}

/// Theoretical spiking-network profile.
pub fn snn_theoretical_profile() -> (p: EnergyProfile)
    ensures
        p.name@ == "SNN Theoretical (0.9pJ MAC)"@,
        p.predict_cost == 1,
        p.gossip_send_cost == 50,
        p.gossip_recv_cost == 20,
        p.adapt_cost == 25,
        p.idle_leak_rate == 0,
        p.heartbeat_cost == 5,
        p.recharge_rate == 5,
{
    EnergyProfile {
        name: "SNN Theoretical (0.9pJ MAC)",
        predict_cost: 1,
        gossip_send_cost: 50,
        gossip_recv_cost: 20,
        adapt_cost: 25,
        idle_leak_rate: 0,
        heartbeat_cost: 5,
        recharge_rate: 5,
    }
}

/// Raspberry Pi Zero 2 W profile (estimated).
pub fn pi_zero_profile() -> (p: EnergyProfile)
    ensures
        p.name@ == "Raspberry Pi Zero 2 W"@,
        p.predict_cost == 2,
        p.gossip_send_cost == 120,
        p.gossip_recv_cost == 45,
        p.adapt_cost == 35,
        p.idle_leak_rate == 10,
        p.heartbeat_cost == 15,
        p.recharge_rate == 8,
{
    EnergyProfile {
        name: "Raspberry Pi Zero 2 W",
        predict_cost: 2,
        gossip_send_cost: 120,
        gossip_recv_cost: 45,
        adapt_cost: 35,
        idle_leak_rate: 10,
        heartbeat_cost: 15,
        recharge_rate: 8,
    }
}

/// ESP32-S3 profile (estimated).
pub fn esp32_profile() -> (p: EnergyProfile)
    ensures
        p.name@ == "ESP32-S3 (Low Power)"@,
        p.predict_cost == 1,
        p.gossip_send_cost == 200,
        p.gossip_recv_cost == 80,
        p.adapt_cost == 20,
        p.idle_leak_rate == 5,
        p.heartbeat_cost == 25,
        p.recharge_rate == 3,
{
    EnergyProfile {
        name: "ESP32-S3 (Low Power)",
        predict_cost: 1,
        gossip_send_cost: 200,
        gossip_recv_cost: 80,
        adapt_cost: 20,
        idle_leak_rate: 5,
        heartbeat_cost: 25,
        recharge_rate: 3,
    }
}

impl Default for EnergyProfile {
    fn default() -> (p: Self)
        ensures
        p.predict_cost == 1,
        p.gossip_send_cost == 50,
        p.gossip_recv_cost == 20,
        p.adapt_cost == 25,
        p.idle_leak_rate == 0,
        p.heartbeat_cost == 5,
        p.recharge_rate == 5,
    {
        snn_theoretical_profile()
    }
}

/// Whether `current` out of `max` is below `percent` per cent; an empty pool
/// (capacity zero) counts as below every positive threshold.
pub open spec fn below_percent(current: u32, max: u32, percent: int) -> bool {
    max == 0 || 100 * (current as int) < percent * (max as int)
}

/// Deterministic energy pool for resource-aware decisions.
#[derive(Debug, Clone)]
pub struct EnergyPool {
    current: u32,
    max_capacity: u32,
    lifetime_consumption: u64,
}

impl View for EnergyPool {
    /// Current level, capacity and lifetime consumption.
    type V = (u32, u32, u64);

    closed spec fn view(&self) -> (u32, u32, u64) {
        (self.current, self.max_capacity, self.lifetime_consumption)
    }
}

impl EnergyPool {
    /// The level never exceeds the capacity.
    pub open spec fn wf(&self) -> bool {
        self@.0 <= self@.1
    }

    /// A full pool of the given capacity, with nothing consumed yet.
    pub fn new(max_capacity: u32) -> (p: Self)
        ensures
            p@ == (max_capacity, max_capacity, 0u64),
        p.wf(),
    {
        EnergyPool { current: max_capacity, max_capacity, lifetime_consumption: 0 }
    }

    /// Current energy level.
    pub fn current(&self) -> (c: u32)
        ensures
            c == self@.0,
    {
        self.current
    }

    /// Maximum capacity.
    pub fn max_capacity(&self) -> (c: u32)
        ensures
            c == self@.1,
    {
        self.max_capacity
    }

    /// Total energy consumed over the pool's lifetime.
    pub fn lifetime_consumption(&self) -> (c: u64)
        ensures
            c == self@.2,
    {
        self.lifetime_consumption
    }

    /// Whether the pool holds at least `cost`.
    pub fn can_afford(&self, cost: u32) -> (b: bool)
        ensures
            b == (self@.0 >= cost),
    {
        self.current >= cost
    }

    /// Spends `cost` when the pool can afford it (and returns `true`);
    /// otherwise leaves the pool unchanged and returns `false`.
    pub fn spend(&mut self, cost: u32) -> (ok: bool)
        requires
            old(self)@.2 + cost <= u64::MAX,
        ensures
            ok == (old(self)@.0 >= cost),
            ok ==> final(self)@ == ((old(self)@.0 - cost) as u32, old(self)@.1, (old(self)@.2 + cost) as u64),
            !ok ==> final(self)@ == old(self)@,
            final(self)@ == spend_step(old(self)@, cost),
            old(self).wf() ==> final(self).wf(),
    {
        if self.can_afford(cost) {
            self.current = self.current - cost;
            self.lifetime_consumption = self.lifetime_consumption + cost as u64;
            true
        } else {
            false
        }
    }

    /// Adds `amount`, capped at the capacity (the sum is taken in 64 bits,
    /// so no amount overflows).
    pub fn recharge(&mut self, amount: u32)
        ensures
            final(self)@.0 == if old(self)@.0 + amount <= old(self)@.1 {
                (old(self)@.0 + amount) as u32
            } else {
                old(self)@.1
            },
            final(self)@.1 == old(self)@.1,
            final(self)@.2 == old(self)@.2,
            final(self)@ == recharge_step(old(self)@, amount),
            final(self).wf(),
    {
        let sum: u64 = self.current as u64 + amount as u64;
        self.current = if sum <= self.max_capacity as u64 { sum as u32 } else { self.max_capacity };
    }

    /// Critical: below 10% of capacity (an empty-capacity pool is critical).
    pub fn is_critical(&self) -> (b: bool)
        ensures
            b == below_percent(self@.0, self@.1, 10),
    {
        self.max_capacity == 0 || (self.current as u64) * 10 < self.max_capacity as u64
    }

    /// Low: below 30% of capacity (an empty-capacity pool is low).
    pub fn is_low(&self) -> (b: bool)
        ensures
            b == below_percent(self@.0, self@.1, 30),
    {
        self.max_capacity == 0 || (self.current as u64) * 10 < (self.max_capacity as u64) * 3
    }

    /// Sets the level, capped at the capacity.
    pub fn set_energy(&mut self, amount: u32)
        ensures
            final(self)@.0 == if amount <= old(self)@.1 { amount } else { old(self)@.1 },
            final(self)@.1 == old(self)@.1,
            final(self)@.2 == old(self)@.2,
            final(self)@ == set_energy_step(old(self)@, amount),
            final(self).wf(),
    {
        self.current = if amount <= self.max_capacity { amount } else { self.max_capacity };
    }
}

impl Default for EnergyPool {
    fn default() -> (p: Self)
        ensures
            p@ == (1000u32, 1000u32, 0u64),
    {
        Self::new(1000)
    }
}

/// Spending what the pool can afford and recharging the same amount gives
/// back the previous level (the capacity is never exceeded on the way).
pub proof fn lemma_spend_recharge(before: EnergyPool, spent: EnergyPool, after: EnergyPool, cost: u32)
    requires
        before.wf(),
        before@.0 >= cost,
        spent@ == ((before@.0 - cost) as u32, before@.1, (before@.2 + cost) as u64),
        after@.0 == if spent@.0 + cost <= spent@.1 { (spent@.0 + cost) as u32 } else { spent@.1 },
    ensures
        after@.0 == before@.0,
{
}

/// The pool view after trying to spend `cost`: lowered by `cost` and
/// counted as consumed when affordable, unchanged otherwise.
pub open spec fn spend_step(p: (u32, u32, u64), cost: u32) -> (u32, u32, u64) {
    if p.0 >= cost {
        ((p.0 - cost) as u32, p.1, (p.2 + cost) as u64)
    } else {
        p
    }
}

/// The pool view after a recharge: the level raised by `amount`, capped at
/// the capacity.
pub open spec fn recharge_step(p: (u32, u32, u64), amount: u32) -> (u32, u32, u64) {
    (if p.0 + amount <= p.1 { (p.0 + amount) as u32 } else { p.1 }, p.1, p.2)
}

/// The pool view after setting the level, capped at the capacity.
pub open spec fn set_energy_step(p: (u32, u32, u64), amount: u32) -> (u32, u32, u64) {
    (if amount <= p.1 { amount } else { p.1 }, p.1, p.2)
}

/// A call that changes an energy pool.
pub enum EnergyOp {
    Spend(u32),
    Recharge(u32),
    SetEnergy(u32),
}

/// The pool view after one call.
pub open spec fn energy_op_step(p: (u32, u32, u64), op: EnergyOp) -> (u32, u32, u64) {
    match op {
        EnergyOp::Spend(c) => spend_step(p, c),
        EnergyOp::Recharge(a) => recharge_step(p, a),
        EnergyOp::SetEnergy(a) => set_energy_step(p, a),
    }
}

/// The pool view after the calls, in order.
pub open spec fn run_energy_ops(p: (u32, u32, u64), ops: Seq<EnergyOp>) -> (u32, u32, u64)
    decreases ops.len(),
{
    if ops.len() == 0 {
        p
    } else {
        energy_op_step(run_energy_ops(p, ops.drop_last()), ops.last())
    }
}

/// The total cost of the spends among the calls that succeeded (that the
/// pool could afford when they came).
pub open spec fn successful_spends(p: (u32, u32, u64), ops: Seq<EnergyOp>) -> int
    decreases ops.len(),
{
    if ops.len() == 0 {
        0
    } else {
        let q = run_energy_ops(p, ops.drop_last());
        successful_spends(p, ops.drop_last()) + match ops.last() {
            EnergyOp::Spend(c) => if q.0 >= c { c as int } else { 0 },
            _ => 0,
        }
    }
}

/// The total cost of all spends among the calls.
pub open spec fn attempted_spends(ops: Seq<EnergyOp>) -> int
    decreases ops.len(),
{
    if ops.len() == 0 {
        0
    } else {
        attempted_spends(ops.drop_last()) + match ops.last() {
            EnergyOp::Spend(c) => c as int,
            _ => 0,
        }
    }
}

/// Over any sequence of spends, recharges and level settings, the lifetime
/// consumption grows by exactly the cost of the spends that succeeded
/// (recharges and level settings never change it), and the capacity stays.
pub proof fn lemma_consumption_is_sum_of_spends(p: (u32, u32, u64), ops: Seq<EnergyOp>)
    requires
        p.2 + attempted_spends(ops) <= u64::MAX,
    ensures
        run_energy_ops(p, ops).2 == p.2 + successful_spends(p, ops),
        run_energy_ops(p, ops).1 == p.1,
        0 <= successful_spends(p, ops) <= attempted_spends(ops),
    decreases ops.len(),
{
    if ops.len() > 0 {
        lemma_consumption_is_sum_of_spends(p, ops.drop_last());
    }
}

/// Critical implies low: any level below 10% is also below 30%.
pub proof fn lemma_critical_implies_low(current: u32, max: u32)
    requires
        below_percent(current, max, 10),
    ensures
        below_percent(current, max, 30),
{
}

/// Thread-pool sizing state; starts at the minimum of two workers.
pub struct WorkerPool {
    pub current_capacity: usize,
}

impl WorkerPool {
    /// A pool at the minimum capacity of two workers.
    pub fn new() -> (w: Self)
        ensures
            w.current_capacity == 2,
    {
        WorkerPool { current_capacity: 2 }
    }
}

impl Default for WorkerPool {
    fn default() -> (w: Self)
        ensures
            w.current_capacity == 2,
    {
        Self::new()
    }
}

} // verus!
