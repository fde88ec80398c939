use crate::color::{from_hsv_turn, hsv_turn_spec, rgb_tuple, Rgb};
use vstd::arithmetic::div_mod::{
    lemma_add_mod_noop, lemma_add_mod_noop_right, lemma_mod_pos_bound, lemma_small_mod,
};
use vstd::prelude::*;

verus! {

/// The phase after `k` ticks of `step` from `t0`, on a cycle of `cycle` units.
pub open spec fn phase_after(t0: nat, step: nat, cycle: nat, k: nat) -> nat
    decreases k,
{
    if k == 0 {
        t0
    } else {
        ((phase_after(t0, step, cycle, (k - 1) as nat) + step) as int % cycle as int) as nat
    }
}

/// How far output `j` of `n` outputs stands ahead of output `0`: `j / n` of the cycle, rounded
/// down.
pub open spec fn offset_spec(j: nat, cycle: nat, n: nat) -> int {
    (j * cycle) as int / n as int
}

/// The phase of output `j` of `n` outputs staggered evenly round the cycle, the outputs'
/// common phase being `t`.
pub open spec fn output_phase_spec(t: nat, j: nat, cycle: nat, n: nat) -> int {
    (t + offset_spec(j, cycle, n)) % cycle as int
}

/// The hue, in degrees, of output `j`.
pub open spec fn output_hue_spec(t: nat, j: nat, cycle: nat, n: nat) -> int {
    output_phase_spec(t, j, cycle, n) * 360 / cycle as int
}

/// `k` ticks of `step` from `t0` reach `(t0 + k * step) % cycle`.
pub proof fn lemma_phase_after(t0: nat, step: nat, cycle: nat, k: nat)
    requires
        0 < cycle,
        t0 < cycle,
    ensures
        phase_after(t0, step, cycle, k) as int == (t0 + k * step) as int % cycle as int,
    decreases k,
{
    if k == 0 {
        lemma_small_mod(t0, cycle);
    } else {
        let k1 = (k - 1) as nat;
        lemma_phase_after(t0, step, cycle, k1);
        lemma_add_mod_noop_right(step as int, (t0 + k1 * step) as int, cycle as int);
        assert(t0 + k1 * step + step == t0 + k * step) by (nonlinear_arith)
            requires
                k1 == k - 1,
        ;
    }
}

/// The phase comes back to where it started after any number of ticks whose steps add up to
/// whole cycles.
pub proof fn lemma_phase_wraps(t0: nat, step: nat, cycle: nat, k: nat)
    requires
        0 < cycle,
        t0 < cycle,
        (k * step) as int % cycle as int == 0,
    ensures
        phase_after(t0, step, cycle, k) == t0,
{
    lemma_phase_after(t0, step, cycle, k);
    lemma_add_mod_noop(t0 as int, (k * step) as int, cycle as int);
    lemma_small_mod(t0, cycle);
}

/// Outputs keep their phase relationship: when `m` ticks advance the phase by the stagger
/// between outputs `j` and `j + 1`, output `j` shows after `k + m` ticks what output `j + 1`
/// showed after `k` ticks, in phase and so in color.
pub proof fn lemma_phase_shift(t0: nat, step: nat, cycle: nat, n: nat, j: nat, k: nat, m: nat)
    requires
        0 < cycle,
        0 < n,
        t0 < cycle,
        j + 1 < n,
        (m * step) as int % cycle as int == (offset_spec(j + 1, cycle, n) - offset_spec(
            j,
            cycle,
            n,
        )) % cycle as int,
    ensures
        output_phase_spec(phase_after(t0, step, cycle, k + m), j, cycle, n) == output_phase_spec(
            phase_after(t0, step, cycle, k),
            j + 1,
            cycle,
            n,
        ),
        forall|sat: int, val: int|
            hsv_turn_spec(
                output_phase_spec(phase_after(t0, step, cycle, k + m), j, cycle, n),
                cycle as int,
                sat,
                val,
            ) == #[trigger] hsv_turn_spec(
                output_phase_spec(phase_after(t0, step, cycle, k), j + 1, cycle, n),
                cycle as int,
                sat,
                val,
            ),
{
    let c = cycle as int;
    let js = offset_spec(j, cycle, n);
    let st = offset_spec(j + 1, cycle, n) - js;
    let a = (t0 + k * step) as int;
    lemma_phase_after(t0, step, cycle, k + m);
    lemma_phase_after(t0, step, cycle, k);
    assert(t0 + (k + m) * step == a + m * step) by (nonlinear_arith)
        requires
            a == t0 + k * step,
    ;
    // the later phase of output j
    lemma_add_mod_noop_right(js, a + m * step, c);
    lemma_add_mod_noop(a + js, (m * step) as int, c);
    lemma_add_mod_noop(a + js, st, c);
    // the earlier phase of output j + 1
    lemma_add_mod_noop_right(js + st, a, c);
}

/// Phases measured in units of a cycle of `cycle` units; each tick advances the phase by
/// `step` units, wrapping, and `outputs` outputs are staggered evenly round the cycle.
pub struct PhaseSequencer {
    phase: u32,
    cycle: u32,
    step: u32,
    outputs: u32,
}

impl PhaseSequencer {
    pub closed spec fn phase(&self) -> nat {
        self.phase as nat
    }

    pub closed spec fn cycle(&self) -> nat {
        self.cycle as nat
    }

    pub closed spec fn step(&self) -> nat {
        self.step as nat
    }

    pub closed spec fn outputs(&self) -> nat {
        self.outputs as nat
    }

    pub closed spec fn wf(&self) -> bool {
        0 < self.outputs && self.phase < self.cycle
    }

    /// A sequencer at phase zero; `None` when `cycle` or `outputs` is zero.
    pub fn new(cycle: u32, step: u32, outputs: u32) -> (r: Option<Self>)
        ensures
            r.is_none() <==> (cycle == 0 || outputs == 0),
            r matches Some(s) ==> s.wf() && s.phase() == 0 && s.cycle() == cycle && s.step()
                == step && s.outputs() == outputs,
    {
        if cycle == 0 || outputs == 0 {
            None
        } else {
            Some(PhaseSequencer { phase: 0, cycle, step, outputs })
        }
    }

    /// Advances the phase by one step, wrapping into the cycle.
    pub fn tick(&mut self)
        requires
            old(self).wf(),
        ensures
            final(self).wf(),
            final(self).cycle() == old(self).cycle(),
            final(self).step() == old(self).step(),
            final(self).outputs() == old(self).outputs(),
            final(self).phase() == phase_after(old(self).phase(), old(self).step(), old(self).cycle(), 1),
    {
        let t: u64 = (self.phase as u64 + self.step as u64) % (self.cycle as u64);
        self.phase = t as u32;
        proof {
            assert(phase_after(old(self).phase(), self.step(), self.cycle(), 0) == old(self).phase());
        }
    }

    /// The phase of output `j`, in units of the cycle.
    pub fn output_phase(&self, j: u32) -> (p: u32)
        requires
            self.wf(),
            j < self.outputs(),
        ensures
            p == output_phase_spec(self.phase(), j as nat, self.cycle(), self.outputs()),
            p < self.cycle(),
    {
        let c: u64 = self.cycle as u64;
        proof {
            assert(j * c <= 0xffff_ffff * 0xffff_ffff) by (nonlinear_arith)
                requires
                    j <= 0xffff_ffff,
                    c <= 0xffff_ffff,
            ;
            assert(j * c <= self.outputs * c) by (nonlinear_arith)
                requires
                    j < self.outputs,
            ;
            vstd::arithmetic::div_mod::lemma_div_is_ordered(
                (j * c) as int,
                (self.outputs * c) as int,
                self.outputs as int,
            );
            vstd::arithmetic::div_mod::lemma_div_by_multiple(c as int, self.outputs as int);
            assert(self.outputs * c == c * self.outputs) by (nonlinear_arith);
        }
        let off: u64 = j as u64 * c / self.outputs as u64;
        let p: u64 = (self.phase as u64 + off) % c;
        proof {
            lemma_mod_pos_bound((self.phase + off) as int, c as int);
        }
        p as u32
    }

    /// The hue of output `j`, in degrees.
    pub fn output_hue(&self, j: u32) -> (h: u16)
        requires
            self.wf(),
            j < self.outputs(),
        ensures
            h == output_hue_spec(self.phase(), j as nat, self.cycle(), self.outputs()),
            h < 360,
    {
        let p = self.output_phase(j);
        let c: u64 = self.cycle as u64;
        let h: u64 = p as u64 * 360 / c;
        proof {
            assert(p * 360 < c * 360) by (nonlinear_arith)
                requires
                    p < c,
            ;
            vstd::arithmetic::div_mod::lemma_div_is_ordered(p * 360, c * 360, c as int);
            vstd::arithmetic::div_mod::lemma_div_by_multiple(360, c as int);
            assert(c * 360 == 360 * c) by (nonlinear_arith);
            if h == 360 {
                vstd::arithmetic::div_mod::lemma_fundamental_div_mod((p * 360) as int, c as int);
                assert(false) by (nonlinear_arith)
                    requires
                        p * 360 == c * ((p * 360) as int / c as int) + (p * 360) as int % c as int,
                        (p * 360) as int / c as int == 360,
                        (p * 360) as int % c as int >= 0,
                        p < c,
                ;
            }
        }
        h as u16
    }

    /// The color of output `j` at saturation `sat` and value `val` (both in 255ths), its hue
    /// being its phase as a fraction of the cycle.
    pub fn output_color(&self, j: u32, sat: u8, val: u8) -> (c: Rgb)
        requires
            self.wf(),
            j < self.outputs(),
        ensures
            rgb_tuple(c) == hsv_turn_spec(
                output_phase_spec(self.phase(), j as nat, self.cycle(), self.outputs()),
                self.cycle() as int,
                sat as int,
                val as int,
            ),
    {
        from_hsv_turn(self.output_phase(j), self.cycle, sat, val)
    }
}

} // verus!
