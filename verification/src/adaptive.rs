//! Regime hysteresis and the strategic-silence state machine: the integer
//! decisions of the adaptive layer.
use vstd::prelude::*;

pub mod votes;

verus! {

/// Operating regime of the swarm.
#[derive(Debug, Clone, Copy, PartialEq, Eq, Structural)]
pub enum Regime {
    Calm,
    /// Entropy rising: adaptation is stepped up before a storm.
    PreStorm,
    Storm,
}

/// Consecutive confirmations needed to move from `from` to `to`, given the
/// base number of hysteresis rounds: escalation is quicker than
/// de-escalation.
pub open spec fn required_confirmations(from: Regime, to: Regime, rounds: int) -> int {
    match (from, to) {
        (Regime::Calm, Regime::PreStorm) => 2 * rounds / 3,
        (Regime::PreStorm, Regime::Storm) => rounds,
        (Regime::Calm, Regime::Storm) => rounds,
        (Regime::Storm, Regime::Calm) => 5 * rounds / 3,
        (Regime::Storm, Regime::PreStorm) => rounds,
        (Regime::PreStorm, Regime::Calm) => 2 * rounds / 3,
        _ => 1,
    }
}

/// Largest hysteresis setting for which the confirmation counts fit a `usize`.
pub const MAX_HYSTERESIS_ROUNDS: usize = 0x3333_3333;

/// Hysteresis over regime signals: a new regime is adopted only after it has
/// been indicated a required number of consecutive times.
#[derive(Debug, Clone)]
pub struct RegimeHysteresis {
    current_regime: Regime,
    pending_regime: Option<Regime>,
    transition_streak: usize,
    hysteresis_rounds: usize,
}

impl RegimeHysteresis {
    /// The adopted regime.
    pub closed spec fn spec_current(&self) -> Regime {
        self.current_regime
    }

    /// The regime being confirmed, if any.
    pub closed spec fn spec_pending(&self) -> Option<Regime> {
        self.pending_regime
    }

    /// Consecutive indications of the pending regime.
    pub closed spec fn spec_streak(&self) -> nat {
        self.transition_streak as nat
    }

    /// Base number of confirmation rounds.
    pub closed spec fn spec_rounds(&self) -> nat {
        self.hysteresis_rounds as nat
    }

    /// Consistent state: counts that cannot overflow.
    pub closed spec fn wf(&self) -> bool {
        &&& 1 <= self.hysteresis_rounds <= MAX_HYSTERESIS_ROUNDS
        &&& self.transition_streak < usize::MAX
    }

    /// Calm, nothing pending, three base rounds.
    pub fn new() -> (h: Self)
        ensures
            h.wf(),
            h.spec_current() == Regime::Calm,
            h.spec_pending() is None,
            h.spec_streak() == 0,
            h.spec_rounds() == 3,
    {
        RegimeHysteresis {
            current_regime: Regime::Calm,
            pending_regime: None,
            transition_streak: 0,
            hysteresis_rounds: 3,
        }
    }

    /// Sets the base number of rounds (at least one).
    pub fn set_hysteresis_rounds(&mut self, rounds: usize)
        requires
            old(self).wf(),
            rounds <= MAX_HYSTERESIS_ROUNDS,
        ensures
            final(self).wf(),
            final(self).spec_rounds() == if rounds >= 1 { rounds as nat } else { 1 },
            final(self).spec_current() == old(self).spec_current(),
            final(self).spec_pending() == old(self).spec_pending(),
            final(self).spec_streak() == old(self).spec_streak(),
    {
        self.hysteresis_rounds = if rounds >= 1 { rounds } else { 1 };
    }

    /// The adopted regime.
    pub fn current_regime(&self) -> (r: Regime)
        ensures
            r == self.spec_current(),
    {
        self.current_regime
    }

    /// The regime being confirmed, if any.
    pub fn pending_regime(&self) -> (r: Option<Regime>)
        ensures
            r == self.spec_pending(),
    {
        self.pending_regime
    }

    /// Consecutive indications of the pending regime.
    pub fn transition_streak(&self) -> (s: usize)
        ensures
            s == self.spec_streak(),
    {
        self.transition_streak
    }

    /// Sets the adopted regime directly (a decision made outside the
    /// hysteresis, such as a consensus veto).
    pub fn set_current_regime(&mut self, regime: Regime)
        requires
            old(self).wf(),
        ensures
            final(self).wf(),
            final(self).spec_current() == regime,
            final(self).spec_pending() == old(self).spec_pending(),
            final(self).spec_streak() == old(self).spec_streak(),
            final(self).spec_rounds() == old(self).spec_rounds(),
    {
        self.current_regime = regime;
    }

    /// Feeds one indicated regime as `apply_hysteresis` does, then holds a
    /// Storm that the consensus has not authorised at PreStorm. Returns the
    /// regime adopted afterwards.
    pub fn apply_hysteresis_with_consensus(&mut self, indicated: Regime, storm_authorized: bool) -> (r: Regime)
        requires
            old(self).wf(),
        ensures
            final(self).wf(),
            final(self).spec_rounds() == old(self).spec_rounds(),
            r == final(self).spec_current(),
            ({
                let step = hysteresis_step(
                    (old(self).spec_current(), old(self).spec_pending(), old(self).spec_streak()),
                    old(self).spec_rounds() as int,
                    indicated,
                );
                &&& r == consensus_gated(step.0, storm_authorized)
                &&& final(self).spec_pending() == step.1
                &&& final(self).spec_streak() == step.2
            }),
    {
        let adopted = self.apply_hysteresis(indicated);
        let gated = if adopted == Regime::Storm && !storm_authorized {
            Regime::PreStorm
        } else {
            adopted
        };
        self.set_current_regime(gated);
        gated
    }

    /// Confirmations needed to move from `from` to `to`.
    pub fn get_required_confirmations(&self, from: Regime, to: Regime) -> (n: usize)
        requires
            self.spec_rounds() <= MAX_HYSTERESIS_ROUNDS,
        ensures
            n == required_confirmations(from, to, self.spec_rounds() as int),
    {
        let r = self.hysteresis_rounds;
        match (from, to) {
            (Regime::Calm, Regime::PreStorm) => 2 * r / 3,
            (Regime::PreStorm, Regime::Storm) => r,
            (Regime::Calm, Regime::Storm) => r,
            (Regime::Storm, Regime::Calm) => 5 * r / 3,
            (Regime::Storm, Regime::PreStorm) => r,
            (Regime::PreStorm, Regime::Calm) => 2 * r / 3,
            _ => 1,
        }
    }

    /// Feeds one indicated regime: the same regime as the adopted one clears
    /// any pending transition; a different one extends (or starts) its
    /// streak, and is adopted once the streak reaches the required count.
    /// Returns the regime adopted afterwards.
    pub fn apply_hysteresis(&mut self, indicated: Regime) -> (r: Regime)
        requires
            old(self).wf(),
        ensures
            final(self).wf(),
            final(self).spec_rounds() == old(self).spec_rounds(),
            r == final(self).spec_current(),
            (final(self).spec_current(), final(self).spec_pending(), final(self).spec_streak()) == hysteresis_step(
                (old(self).spec_current(), old(self).spec_pending(), old(self).spec_streak()),
                old(self).spec_rounds() as int,
                indicated,
            ),
    {
        if indicated == self.current_regime {
            self.pending_regime = None;
            self.transition_streak = 0;
            return self.current_regime;
        }
        let continuing = match self.pending_regime {
            Some(p) => p == indicated,
            None => false,
        };
        if continuing {
            self.transition_streak = self.transition_streak + 1;
        } else {
            self.pending_regime = Some(indicated);
            self.transition_streak = 1;
        }
        let required = self.get_required_confirmations(self.current_regime, indicated);
        if self.transition_streak >= required {
            self.pending_regime = None;
            self.transition_streak = 0;
            self.current_regime = indicated;
            indicated
        } else {
            self.current_regime
        }
    }
}

/// The regime that stands after the consensus gate: a Storm without
/// authorisation is held at PreStorm; any other regime stands.
pub open spec fn consensus_gated(adopted: Regime, storm_authorized: bool) -> Regime {
    if adopted == Regime::Storm && !storm_authorized {
        Regime::PreStorm
    } else {
        adopted
    }
}

/// One hysteresis step on (adopted, pending, streak) for an indicated regime.
pub open spec fn hysteresis_step(s: (Regime, Option<Regime>, nat), rounds: int, indicated: Regime) -> (
    Regime,
    Option<Regime>,
    nat,
) {
    if indicated == s.0 {
        (s.0, None, 0)
    } else {
        let streak = if s.1 == Some(indicated) {
            s.2 + 1
        } else {
            1
        };
        if streak >= required_confirmations(s.0, indicated, rounds) {
            (indicated, None, 0)
        } else {
            (s.0, Some(indicated), streak)
        }
    }
}

/// The state after `k` identical indications.
pub open spec fn hysteresis_repeat(s: (Regime, Option<Regime>, nat), rounds: int, indicated: Regime, k: nat) -> (
    Regime,
    Option<Regime>,
    nat,
)
    decreases k,
{
    if k == 0 {
        s
    } else {
        hysteresis_step(hysteresis_repeat(s, rounds, indicated, (k - 1) as nat), rounds, indicated)
    }
}

/// From a settled state, a different regime is adopted exactly when it has
/// been indicated the required number of consecutive times: before that the
/// adopted regime stays and the streak counts the indications.
pub proof fn lemma_hysteresis_confirmation(current: Regime, rounds: int, indicated: Regime, k: nat)
    requires
        indicated != current,
        1 <= k,
    ensures
        k < required_confirmations(current, indicated, rounds) ==> hysteresis_repeat(
            (current, None, 0),
            rounds,
            indicated,
            k,
        ) == (current, Some(indicated), k),
        k == required_confirmations(current, indicated, rounds) ==> hysteresis_repeat(
            (current, None, 0),
            rounds,
            indicated,
            k,
        ) == (indicated, Option::<Regime>::None, 0nat),
    decreases k,
{
    let s0 = (current, Option::<Regime>::None, 0nat);
    let prev = hysteresis_repeat(s0, rounds, indicated, (k - 1) as nat);
    assert(hysteresis_repeat(s0, rounds, indicated, k) == hysteresis_step(prev, rounds, indicated));
    if k > 1 {
        lemma_hysteresis_confirmation(current, rounds, indicated, (k - 1) as nat);
    } else {
        assert(prev == s0);
    }
}

/// With the default three rounds, escalation from Calm to Storm takes three
/// signals and de-escalation from Storm to Calm takes five.
pub proof fn lemma_default_confirmations()
    ensures
        required_confirmations(Regime::Calm, Regime::PreStorm, 3) == 2,
        required_confirmations(Regime::PreStorm, Regime::Storm, 3) == 3,
        required_confirmations(Regime::Calm, Regime::Storm, 3) == 3,
        required_confirmations(Regime::Storm, Regime::Calm, 3) == 5,
        required_confirmations(Regime::Storm, Regime::PreStorm, 3) == 3,
        required_confirmations(Regime::PreStorm, Regime::Calm, 3) == 2,
{
}

/// For every configured number of rounds `r >= 1`: moving between PreStorm
/// and Storm in either direction, and jumping from Calm to Storm, needs
/// exactly `r` confirmations; the milder steps Calm to PreStorm and back
/// need two thirds of `r` (rounded down), and the full de-escalation from
/// Storm to Calm five thirds of `r` (rounded down); re-indicating the
/// adopted regime needs one. So every count scales with the rounds.
pub proof fn lemma_confirmations_follow_rounds(r: int)
    requires
        r >= 1,
    ensures
        required_confirmations(Regime::Storm, Regime::PreStorm, r) == r,
        required_confirmations(Regime::PreStorm, Regime::Storm, r) == r,
        required_confirmations(Regime::Calm, Regime::Storm, r) == r,
        ({
            let c = required_confirmations(Regime::Calm, Regime::PreStorm, r);
            3 * c <= 2 * r < 3 * c + 3
        }),
        ({
            let c = required_confirmations(Regime::PreStorm, Regime::Calm, r);
            3 * c <= 2 * r < 3 * c + 3
        }),
        ({
            let c = required_confirmations(Regime::Storm, Regime::Calm, r);
            3 * c <= 5 * r < 3 * c + 3
        }),
        forall|g: Regime| #[trigger] required_confirmations(g, g, r) == 1,
        required_confirmations(Regime::Calm, Regime::PreStorm, r) <= required_confirmations(
            Regime::Calm,
            Regime::Storm,
            r,
        ) <= required_confirmations(Regime::Storm, Regime::Calm, r),
{
    assert forall|g: Regime| #[trigger] required_confirmations(g, g, r) == 1 by {
        match g {
            Regime::Calm => {},
            Regime::PreStorm => {},
            Regime::Storm => {},
        }
    }
}

/// A settled Storm detector with `r >= 1` rounds keeps Storm through the
/// first `r - 1` consecutive PreStorm indications and adopts PreStorm at the
/// `r`-th, whatever `r` is configured.
pub proof fn lemma_storm_to_prestorm_takes_rounds(r: int, k: nat)
    requires
        r >= 1,
        1 <= k <= r,
    ensures
        k < r ==> hysteresis_repeat((Regime::Storm, None, 0), r, Regime::PreStorm, k).0 == Regime::Storm,
        k == r ==> hysteresis_repeat((Regime::Storm, None, 0), r, Regime::PreStorm, k).0 == Regime::PreStorm,
{
    lemma_confirmations_follow_rounds(r);
    lemma_hysteresis_confirmation(Regime::Storm, r, Regime::PreStorm, k);
}

/// Escalating to Storm, from PreStorm or straight from Calm, takes exactly
/// `r` consecutive Storm indications with `r >= 1` rounds configured.
pub proof fn lemma_escalation_takes_rounds(from: Regime, r: int, k: nat)
    requires
        from != Regime::Storm,
        r >= 1,
        1 <= k <= r,
    ensures
        k < r ==> hysteresis_repeat((from, None, 0), r, Regime::Storm, k).0 == from,
        k == r ==> hysteresis_repeat((from, None, 0), r, Regime::Storm, k).0 == Regime::Storm,
{
    lemma_confirmations_follow_rounds(r);
    lemma_hysteresis_confirmation(from, r, Regime::Storm, k);
}

/// Silence states of a node.
#[derive(Debug, Clone, Copy, PartialEq, Eq, Structural)]
pub enum SilenceState {
    /// Gossiping normally.
    Active,
    /// A storm is coming: ready to wake, pre-charging energy.
    Alert,
    /// Stable and quiet: only heartbeats are sent.
    DeepSilence,
}

impl Default for SilenceState {
    fn default() -> (s: Self)
        ensures
            s == SilenceState::Active,
    {
        SilenceState::Active
    }
}

/// The state the controller moves to for a regime signal.
pub open spec fn silence_target(regime: Regime, variance_stable: bool, calm_streak: int) -> SilenceState {
    match regime {
        Regime::Storm => SilenceState::Active,
        Regime::PreStorm => SilenceState::Alert,
        Regime::Calm => if variance_stable && calm_streak >= 100 {
            SilenceState::DeepSilence
        } else {
            SilenceState::Active
        },
    }
}

/// Strategic-silence controller: the state and the heartbeat clock.
#[derive(Debug, Clone)]
pub struct SilenceController {
    state: SilenceState,
    ticks_since_heartbeat: u64,
    heartbeat_interval: u64,
}

impl SilenceController {
    /// Current state.
    pub closed spec fn spec_state(&self) -> SilenceState {
        self.state
    }

    /// Ticks since the last heartbeat or state change.
    pub closed spec fn spec_ticks(&self) -> u64 {
        self.ticks_since_heartbeat
    }

    /// Ticks between heartbeats in deep silence.
    pub closed spec fn spec_interval(&self) -> u64 {
        self.heartbeat_interval
    }

    /// Active, with a heartbeat every 50 ticks.
    pub fn new() -> (c: Self)
        ensures
            c.spec_state() == SilenceState::Active,
            c.spec_ticks() == 0,
            c.spec_interval() == 50,
    {
        SilenceController { state: SilenceState::Active, ticks_since_heartbeat: 0, heartbeat_interval: 50 }
    }

    /// The same controller with another heartbeat interval.
    pub fn with_heartbeat_interval(self, interval: u64) -> (c: Self)
        ensures
            c.spec_state() == self.spec_state(),
            c.spec_ticks() == self.spec_ticks(),
            c.spec_interval() == interval,
    {
        let mut c = self;
        c.heartbeat_interval = interval;
        c
    }

    /// Current state.
    pub fn state(&self) -> (s: SilenceState)
        ensures
            s == self.spec_state(),
    {
        self.state
    }

    /// Ticks since the last heartbeat or state change.
    pub fn ticks_since_heartbeat(&self) -> (t: u64)
        ensures
            t == self.spec_ticks(),
    {
        self.ticks_since_heartbeat
    }

    /// One tick of the broadcast decision. The clock advances; a node whose
    /// energy is critical never broadcasts; an active node broadcasts when
    /// the utility gate passes or its energy is high; an alert node when its
    /// energy is moderate; a node in deep silence only when a heartbeat is
    /// due, which restarts the clock.
    pub fn decide_broadcast(
        &mut self,
        energy_critical: bool,
        utility_passes: bool,
        energy_high: bool,
        energy_moderate: bool,
    ) -> (b: bool)
        requires
            old(self).spec_ticks() < u64::MAX,
        ensures
            final(self).spec_state() == old(self).spec_state(),
            final(self).spec_interval() == old(self).spec_interval(),
            energy_critical ==> !b && final(self).spec_ticks() == old(self).spec_ticks() + 1,
            !energy_critical ==> match old(self).spec_state() {
                SilenceState::Active => b == (utility_passes || energy_high) && final(self).spec_ticks()
                    == old(self).spec_ticks() + 1,
                SilenceState::Alert => b == energy_moderate && final(self).spec_ticks() == old(self).spec_ticks()
                    + 1,
                SilenceState::DeepSilence => {
                    &&& b == (old(self).spec_ticks() + 1 >= old(self).spec_interval())
                    &&& final(self).spec_ticks() == if b { 0 } else { old(self).spec_ticks() + 1 }
                },
            },
    {
        self.ticks_since_heartbeat = self.ticks_since_heartbeat + 1;
        if energy_critical {
            return false;
        }
        match self.state {
            SilenceState::Active => utility_passes || energy_high,
            SilenceState::Alert => energy_moderate,
            SilenceState::DeepSilence => {
                if self.ticks_since_heartbeat >= self.heartbeat_interval {
                    self.ticks_since_heartbeat = 0;
                    true
                } else {
                    false
                }
            },
        }
    }

    /// Whether a heartbeat is due: in deep silence, once the interval has
    /// elapsed.
    pub fn should_send_heartbeat(&self) -> (b: bool)
        ensures
            b == (self.spec_state() == SilenceState::DeepSilence && self.spec_ticks() >= self.spec_interval()),
    {
        self.state == SilenceState::DeepSilence && self.ticks_since_heartbeat >= self.heartbeat_interval
    }

    /// Moves to the state the regime calls for. A storm restarts the clock;
    /// so does any change of state.
    pub fn transition(&mut self, regime: Regime, variance_stable: bool, calm_streak: usize)
        ensures
            final(self).spec_state() == silence_target(regime, variance_stable, calm_streak as int),
            final(self).spec_interval() == old(self).spec_interval(),
            final(self).spec_ticks() == if regime == Regime::Storm || final(self).spec_state() != old(
                self,
            ).spec_state() {
                0
            } else {
                old(self).spec_ticks()
            },
    {
        let new_state = match regime {
            Regime::Storm => {
                self.ticks_since_heartbeat = 0;
                SilenceState::Active
            },
            Regime::PreStorm => SilenceState::Alert,
            Regime::Calm => {
                if variance_stable && calm_streak >= 100 {
                    SilenceState::DeepSilence
                } else {
                    SilenceState::Active
                }
            },
        };
        if new_state != self.state {
            self.state = new_state;
            self.ticks_since_heartbeat = 0;
        }
    }

    /// Forces a state (restarting the clock).
    pub fn set_state(&mut self, state: SilenceState)
        ensures
            final(self).spec_state() == state,
            final(self).spec_ticks() == 0,
            final(self).spec_interval() == old(self).spec_interval(),
    {
        self.state = state;
        self.ticks_since_heartbeat = 0;
    }
}

impl Default for SilenceController {
    fn default() -> (c: Self)
        ensures
            c.spec_state() == SilenceState::Active,
            c.spec_ticks() == 0,
            c.spec_interval() == 50,
    {
        Self::new()
    }
}

/// A storm always wakes the node, whatever its state, stability or streak.
pub proof fn lemma_storm_wakes(variance_stable: bool, calm_streak: int)
    ensures
        silence_target(Regime::Storm, variance_stable, calm_streak) == SilenceState::Active,
{
}

/// Deep silence is entered only in a calm, stable regime after at least one
/// hundred calm observations.
pub proof fn lemma_deep_silence_needs_stability(regime: Regime, variance_stable: bool, calm_streak: int)
    requires
        silence_target(regime, variance_stable, calm_streak) == SilenceState::DeepSilence,
    ensures
        regime == Regime::Calm,
        variance_stable,
        calm_streak >= 100,
{
}

} // verus!
