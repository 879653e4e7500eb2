use vstd::prelude::*;

verus! {

/// The abstract state of a counter: its current value, the divisor that
/// decides when the callback is due, and the registered callback, if any.
pub struct CounterState<C> {
    pub value: u32,
    pub trigger: u32,
    pub callback: Option<C>,
}

/// The value that follows `v` under 32-bit wrap-around.
pub open spec fn next_value(v: u32) -> u32 {
    if v == u32::MAX {
        0
    } else {
        (v + 1) as u32
    }
}

impl<C> CounterState<C> {
    /// A fresh counter: no callback registered yet.
    pub open spec fn initial(start: u32, trigger: u32) -> Self {
        CounterState { value: start, trigger, callback: None }
    }

    /// The state once `callback` has replaced whatever was registered.
    pub open spec fn with_callback(self, callback: C) -> Self {
        CounterState { callback: Some(callback), ..self }
    }

    /// The state after one advance: only the value moves.
    pub open spec fn advanced(self) -> Self {
        CounterState { value: next_value(self.value), ..self }
    }

    /// Whether one advance from this state lands on a multiple of the trigger.
    pub open spec fn lands_on_trigger(self) -> bool {
        next_value(self.value) % self.trigger == 0
    }

    /// The value that one advance from this state hands to the registered
    /// callback, or `None` when that advance dispatches nothing.
    pub open spec fn delivered(self) -> Option<u32> {
        if self.callback is Some && self.lands_on_trigger() {
            Some(next_value(self.value))
        } else {
            None
        }
    }
}

/// A counter that owes its callback a call each time its value becomes a
/// multiple of its trigger.
///
/// The callback type is left open: a plain function pointer for native
/// callers, or a reference into a managed runtime. The counter only decides
/// when a dispatch is due and with which value; the caller performs it.
pub struct PingPong<C> {
    value: u32,
    trigger: u32,
    callback: Option<C>,
}

impl<C> View for PingPong<C> {
    type V = CounterState<C>;

    closed spec fn view(&self) -> CounterState<C> {
        CounterState { value: self.value, trigger: self.trigger, callback: self.callback }
    }
}

impl<C> PingPong<C> {
    /// A counter starting at `start_value` that fires on multiples of
    /// `pong_trigger`; no callback is registered yet.
    pub fn new(start_value: u32, pong_trigger: u32) -> (r: Self)
        ensures
            r@ == CounterState::<C>::initial(start_value, pong_trigger),
    {
        PingPong { value: start_value, trigger: pong_trigger, callback: None }
    }

    /// Registers `callback`, replacing (and dropping) any earlier one.
    pub fn set_callback(&mut self, callback: C)
        ensures
            final(self)@ == old(self)@.with_callback(callback),
    {
        self.callback = Some(callback);
    }

    /// Increments the value, wrapping at `u32::MAX`, and returns the value
    /// to hand to the registered callback when the new value is a multiple
    /// of the trigger.
    pub fn ping(&mut self) -> (r: Option<u32>)
        requires
            old(self)@.trigger > 0,
        ensures
            final(self)@ == old(self)@.advanced(),
            r == old(self)@.delivered(),
    {
        self.value = self.value.wrapping_add(1);
        if self.value % self.trigger == 0 {
            self.trigger_pong_callback()
        } else {
            None
        }
    }

    /// The value owed to the registered callback right now: the current
    /// value when a callback is registered, nothing otherwise.
    pub fn trigger_pong_callback(&self) -> (r: Option<u32>)
        ensures
            r == (if self@.callback is Some {
                Some(self@.value)
            } else {
                None::<u32>
            }),
    {
        match self.callback {
            Some(_) => Some(self.value),
            None => None,
        }
    }

    /// The registered callback, if any.
    pub fn callback(&self) -> (r: Option<&C>)
        ensures
            r is Some <==> self@.callback is Some,
            r matches Some(c) ==> self@.callback == Some(*c),
    {
        self.callback.as_ref()
    }

    /// The current value.
    pub fn value(&self) -> (r: u32)
        ensures
            r == self@.value,
    {
        self.value
    }

    /// The divisor that decides when the callback is due.
    pub fn trigger(&self) -> (r: u32)
        ensures
            r == self@.trigger,
    {
        self.trigger
    }
}

} // verus!
