use vstd::arithmetic::div_mod::{
    lemma_add_mod_noop_right, lemma_fundamental_div_mod, lemma_fundamental_div_mod_converse,
    lemma_mod_add_multiples_vanish, lemma_mod_bound, lemma_mod_pos_bound, lemma_mod_self_0,
    lemma_small_mod,
};
use vstd::prelude::*;

verus! {

/// The window of `w` entries after `c` ticks, oldest first: entry `k` is palette entry
/// `(c - w + k) mod p`, so the newest is the entry of tick `c - 1`. Before `w` ticks the
/// window reaches back past the start of the palette and wraps to its end.
pub open spec fn window_at<T>(palette: Seq<T>, w: nat, c: int) -> Seq<T> {
    Seq::new(w, |k: int| palette[(c - w + k) % (palette.len() as int)])
}

/// Stepping a counter by one steps its remainder by one, wrapping at `m`.
pub proof fn lemma_step_mod(t: int, m: int)
    requires
        0 < m,
    ensures
        (t + 1) % m == if t % m + 1 == m {
            0
        } else {
            t % m + 1
        },
{
    lemma_add_mod_noop_right(1, t, m);
    lemma_mod_bound(t, m);
    if t % m + 1 == m {
        lemma_mod_self_0(m);
    } else {
        lemma_small_mod((t % m + 1) as nat, m as nat);
    }
}

/// Each tick slides the window by one: the oldest entry drops out and the next palette entry
/// comes in as the newest.
pub proof fn lemma_window_slides<T>(palette: Seq<T>, w: nat, c: int)
    requires
        0 < w,
        0 < palette.len(),
    ensures
        window_at(palette, w, c + 1) == window_at(palette, w, c).drop_first().push(
            palette[c % (palette.len() as int)],
        ),
{
    assert(window_at(palette, w, c + 1) =~= window_at(palette, w, c).drop_first().push(
        palette[c % (palette.len() as int)],
    ));
}

/// After as many ticks as the palette has entries the window is the same again.
pub proof fn lemma_window_cycles<T>(palette: Seq<T>, w: nat, c: int)
    requires
        0 < palette.len(),
    ensures
        window_at(palette, w, c + palette.len()) == window_at(palette, w, c),
{
    let p = palette.len() as int;
    assert forall|k: int| 0 <= k < w implies #[trigger] window_at(palette, w, c + p)[k]
        == window_at(palette, w, c)[k] by {
        lemma_mod_add_multiples_vanish(c - w + k, p);
        assert(c + p - w + k == p + (c - w + k));
    }
    assert(window_at(palette, w, c + palette.len()) =~= window_at(palette, w, c));
}

/// `(-w) mod p`, the palette position of the oldest entry before any tick.
fn first_start(w: usize, p: usize) -> (s: usize)
    requires
        0 < p,
    ensures
        s as int == (0 - w) % (p as int),
{
    let r = w % p;
    proof {
        lemma_fundamental_div_mod(w as int, p as int);
        lemma_mod_pos_bound(w as int, p as int);
    }
    if r == 0 {
        proof {
            let a = w as int / p as int;
            assert(0 - w == (-a) * p + 0) by (nonlinear_arith)
                requires
                    w == p * a + 0,
            ;
            lemma_fundamental_div_mod_converse(0 - w, p as int, -a, 0);
        }
        0
    } else {
        proof {
            let a = w as int / p as int;
            assert(0 - w == (-a - 1) * p + (p - r)) by (nonlinear_arith)
                requires
                    w == p * a + r,
            ;
            lemma_fundamental_div_mod_converse(0 - w, p as int, -a - 1, p - r);
        }
        p - r
    }
}

/// A window of `w` consecutive palette entries slid across the palette one entry per tick,
/// wrapping from the last entry to the first.
pub struct WindowSequencer<T> {
    palette: Vec<T>,
    size: usize,
    start: usize,
    ticks: Ghost<nat>,
}

impl<T: Copy> WindowSequencer<T> {
    pub closed spec fn palette(&self) -> Seq<T> {
        self.palette@
    }

    /// The number of entries in the window.
    pub closed spec fn size(&self) -> nat {
        self.size as nat
    }

    /// The number of ticks so far.
    pub closed spec fn ticks(&self) -> nat {
        self.ticks@
    }

    pub closed spec fn wf(&self) -> bool {
        &&& 0 < self.size
        &&& 0 < self.palette@.len()
        &&& self.start as int == (self.ticks@ - self.size) % (self.palette@.len() as int)
    }

    /// The window as it stands, oldest entry first.
    pub open spec fn window(&self) -> Seq<T> {
        window_at(self.palette(), self.size(), self.ticks() as int)
    }

    /// A window of `size` entries over `palette`, before any tick; `None` when either is
    /// empty.
    pub fn new(palette: Vec<T>, size: usize) -> (r: Option<Self>)
        ensures
            r.is_none() <==> (size == 0 || palette@.len() == 0),
            r matches Some(s) ==> s.wf() && s.palette() == palette@ && s.size() == size
                && s.ticks() == 0,
    {
        if size == 0 || palette.len() == 0 {
            return None;
        }
        let start = first_start(size, palette.len());
        Some(WindowSequencer { palette, size, start, ticks: Ghost(0) })
    }

    /// The window, oldest entry first: entry `k` is palette entry `(ticks - size + k) mod p`.
    pub fn frame(&self) -> (r: Vec<T>)
        requires
            self.wf(),
        ensures
            r@ == self.window(),
    {
        let p = self.palette.len();
        let mut out: Vec<T> = Vec::new();
        let mut idx: usize = self.start;
        let mut k: usize = 0;
        while k < self.size
            invariant
                self.wf(),
                p == self.palette@.len(),
                k <= self.size,
                idx as int == (self.ticks@ - self.size + k) % (p as int),
                out@.len() == k,
                forall|i: int|
                    0 <= i < k ==> out@[i] == self.palette@[(self.ticks@ - self.size + i) % (p as int)],
            decreases self.size - k,
        {
            proof {
                lemma_mod_bound(self.ticks@ - self.size + k, p as int);
                lemma_step_mod(self.ticks@ - self.size + k, p as int);
            }
            out.push(self.palette[idx]);
            idx = if idx + 1 == p {
                0
            } else {
                idx + 1
            };
            k = k + 1;
        }
        assert(out@ =~= self.window());
        out
    }

    /// Slides the window on by one palette entry.
    pub fn tick(&mut self)
        requires
            old(self).wf(),
        ensures
            final(self).wf(),
            final(self).palette() == old(self).palette(),
            final(self).size() == old(self).size(),
            final(self).ticks() == old(self).ticks() + 1,
    {
        let p = self.palette.len();
        proof {
            lemma_mod_bound(self.ticks@ - self.size, p as int);
            lemma_step_mod(self.ticks@ - self.size, p as int);
        }
        self.start = if self.start + 1 == p {
            0
        } else {
            self.start + 1
        };
        self.ticks = Ghost(self.ticks@ + 1);
    }
}

} // verus!
