use vstd::prelude::*;
use vstd::arithmetic::div_mod::{
    lemma_add_mod_noop,
    lemma_fundamental_div_mod,
    lemma_fundamental_div_mod_converse,
    lemma_small_mod,
};
use crate::counter::{next_value, CounterState};

verus! {

/// The state after `n` advances.
pub open spec fn advanced_by<C>(s: CounterState<C>, n: nat) -> CounterState<C>
    decreases n,
{
    if n == 0 {
        s
    } else {
        advanced_by(s, (n - 1) as nat).advanced()
    }
}

/// The dispatches that `n` advances perform, in order: which callback is
/// called, and with which value.
pub open spec fn dispatches<C>(s: CounterState<C>, n: nat) -> Seq<(C, u32)>
    decreases n,
{
    if n == 0 {
        Seq::empty()
    } else {
        let before = advanced_by(s, (n - 1) as nat);
        match before.delivered() {
            Some(v) => dispatches(s, (n - 1) as nat).push((before.callback->0, v)),
            None => dispatches(s, (n - 1) as nat),
        }
    }
}

proof fn lemma_advanced_by_keeps<C>(s: CounterState<C>, n: nat)
    ensures
        advanced_by(s, n).trigger == s.trigger,
        advanced_by(s, n).callback == s.callback,
    decreases n,
{
    if n > 0 {
        lemma_advanced_by_keeps(s, (n - 1) as nat);
    }
}

/// Moving from `x - 1` to `x` crosses a multiple of `t` exactly when `x` is one.
proof fn lemma_crossing(x: int, t: int)
    requires
        x >= 1,
        t > 0,
    ensures
        x / t - (x - 1) / t == (if x % t == 0 {
            1int
        } else {
            0int
        }),
{
    lemma_fundamental_div_mod(x, t);
    let q = x / t;
    let r = x % t;
    assert(x == q * t + r) by (nonlinear_arith)
        requires
            x == t * q + r,
    ;
    if r > 0 {
        lemma_fundamental_div_mod_converse(x - 1, t, q, r - 1);
    } else {
        assert(x - 1 == (q - 1) * t + (t - 1)) by (nonlinear_arith)
            requires
                x == q * t + r,
                r == 0,
        ;
        lemma_fundamental_div_mod_converse(x - 1, t, q - 1, t - 1);
    }
}

/// After `n` advances the value is the start plus `n`, modulo 2^32; trigger
/// and callback are unchanged.
pub proof fn law_value_after_advances<C>(s: CounterState<C>, n: nat)
    ensures
        advanced_by(s, n).value == (s.value + n) % 0x1_0000_0000,
        advanced_by(s, n).trigger == s.trigger,
        advanced_by(s, n).callback == s.callback,
    decreases n,
{
    lemma_advanced_by_keeps(s, n);
    if n == 0 {
        lemma_small_mod(s.value as nat, 0x1_0000_0000);
    } else {
        law_value_after_advances(s, (n - 1) as nat);
        let a = s.value + n - 1;
        lemma_add_mod_noop(a, 1, 0x1_0000_0000);
        lemma_small_mod(1, 0x1_0000_0000);
        let m = a % 0x1_0000_0000;
        if m + 1 < 0x1_0000_0000 {
            lemma_small_mod((m + 1) as nat, 0x1_0000_0000);
        }
    }
}

/// With a callback registered and no wrap-around on the way, `n` advances
/// from value `v` dispatch once for each multiple of the trigger in
/// `(v, v + n]`: `(v + n) / trigger - v / trigger` times, each time with a
/// value that is such a multiple, and always to the registered callback.
pub proof fn law_dispatch_count<C>(s: CounterState<C>, n: nat)
    requires
        s.trigger > 0,
        s.callback is Some,
        s.value + n <= u32::MAX,
    ensures
        dispatches(s, n).len() == (s.value + n) / (s.trigger as int) - (s.value as int) / (s.trigger as int),
        forall|i: int|
            0 <= i < dispatches(s, n).len() ==> {
                &&& #[trigger] dispatches(s, n)[i].1 % s.trigger == 0
                &&& s.value < dispatches(s, n)[i].1 <= s.value + n
                &&& dispatches(s, n)[i].0 == s.callback->0
            },
    decreases n,
{
    if n > 0 {
        let k = (n - 1) as nat;
        law_dispatch_count(s, k);
        law_value_after_advances(s, k);
        lemma_small_mod((s.value + k) as nat, 0x1_0000_0000);
        let before = advanced_by(s, k);
        assert(before.value == s.value + k);
        assert(next_value(before.value) == s.value + n);
        lemma_crossing(s.value + n, s.trigger as int);
        let prev = dispatches(s, k);
        let cur = dispatches(s, n);
        assert forall|i: int| 0 <= i < cur.len() implies {
            &&& #[trigger] cur[i].1 % s.trigger == 0
            &&& s.value < cur[i].1 <= s.value + n
            &&& cur[i].0 == s.callback->0
        } by {
            if i < prev.len() {
                assert(cur[i] == prev[i]);
            }
        }
    }
}

/// Advancing `a + b` times is advancing `a` times, then `b` times; the
/// dispatches of the two runs follow each other.
proof fn lemma_dispatches_split<C>(s: CounterState<C>, a: nat, b: nat)
    ensures
        advanced_by(s, a + b) == advanced_by(advanced_by(s, a), b),
        dispatches(s, a + b) == dispatches(s, a) + dispatches(advanced_by(s, a), b),
    decreases b,
{
    if b == 0 {
        assert(dispatches(s, a) + Seq::<(C, u32)>::empty() =~= dispatches(s, a));
    } else {
        let k = (b - 1) as nat;
        lemma_dispatches_split(s, a, k);
        assert((a + b - 1) as nat == a + k);
        let mid = advanced_by(s, a);
        match advanced_by(mid, k).delivered() {
            Some(v) => {
                assert(dispatches(s, a + b) =~= dispatches(s, a) + dispatches(mid, b));
            },
            None => {},
        }
    }
}

/// Exactly `trigger` advances with a callback registered dispatch exactly
/// once, with a multiple of the trigger, to the registered callback. With
/// wrap-around this fails only when a multiple of the trigger lies between
/// the start and `u32::MAX` as well as the wrap to zero: those starts are
/// left out.
pub proof fn law_one_dispatch_per_trigger<C>(s: CounterState<C>)
    requires
        s.trigger > 0,
        s.callback is Some,
        s.value + s.trigger <= u32::MAX || s.value / s.trigger == u32::MAX / s.trigger,
    ensures
        dispatches(s, s.trigger as nat).len() == 1,
        dispatches(s, s.trigger as nat)[0].1 % s.trigger == 0,
        dispatches(s, s.trigger as nat)[0].0 == s.callback->0,
{
    let t = s.trigger as int;
    let v = s.value as int;
    if v + t <= u32::MAX {
        law_dispatch_count(s, s.trigger as nat);
        lemma_fundamental_div_mod(v, t);
        assert(v + t == (v / t + 1) * t + v % t) by (nonlinear_arith)
            requires
                v == t * (v / t) + v % t,
        ;
        lemma_fundamental_div_mod_converse(v + t, t, v / t + 1, v % t);
    } else {
        // up to u32::MAX without wrapping, then the wrap to zero, then the rest
        let a = (u32::MAX - v) as nat;
        let b = (t - a - 1) as nat;
        law_dispatch_count(s, a);
        law_value_after_advances(s, a);
        lemma_small_mod(u32::MAX as nat, 0x1_0000_0000);
        let top = advanced_by(s, a);
        assert(top.value == u32::MAX);
        lemma_dispatches_split(s, a, 1);
        lemma_dispatches_split(top, 1, b);
        assert(advanced_by(top, 0) == top);
        assert(top.delivered() == Some(0u32));
        let zero = advanced_by(top, 1);
        law_value_after_advances(top, 1);
        assert(zero.value == 0);
        law_dispatch_count(zero, b);
        lemma_fundamental_div_mod_converse(b as int, t, 0, b as int);
        lemma_fundamental_div_mod_converse(0, t, 0, 0);
        assert(v + a == u32::MAX);
        lemma_dispatches_split(s, a + 1, b);
        assert(a + 1 + b == t);
        assert(dispatches(top, 1) =~= seq![(s.callback->0, 0u32)]);
        let d = dispatches(s, s.trigger as nat);
        assert(d =~= dispatches(s, a) + seq![(s.callback->0, 0u32)] + dispatches(zero, b));
    }
}

/// Once `callback` is registered, every later dispatch goes to it, whatever
/// was registered before: an earlier callback never fires again.
pub proof fn law_latest_callback_fires<C>(s: CounterState<C>, callback: C, n: nat)
    ensures
        forall|i: int|
            0 <= i < dispatches(s.with_callback(callback), n).len()
                ==> #[trigger] dispatches(s.with_callback(callback), n)[i].0 == callback,
    decreases n,
{
    let r = s.with_callback(callback);
    if n > 0 {
        let k = (n - 1) as nat;
        law_latest_callback_fires(s, callback, k);
        lemma_advanced_by_keeps(r, k);
        let prev = dispatches(r, k);
        let cur = dispatches(r, n);
        assert forall|i: int| 0 <= i < cur.len() implies #[trigger] cur[i].0 == callback by {
            if i < prev.len() {
                assert(cur[i] == prev[i]);
            }
        }
    }
}

/// With no callback registered, no number of advances dispatches anything,
/// whatever the value and trigger.
pub proof fn law_no_callback_no_dispatch<C>(s: CounterState<C>, n: nat)
    requires
        s.callback is None,
    ensures
        dispatches(s, n).len() == 0,
    decreases n,
{
    if n > 0 {
        law_no_callback_no_dispatch(s, (n - 1) as nat);
        lemma_advanced_by_keeps(s, (n - 1) as nat);
    }
}

} // verus!
