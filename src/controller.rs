use vstd::prelude::*;

verus! {

/// A binary output that drives one direction of an actuator.
pub trait UpDownPin {
    /// Whether the output is currently driven.
    spec fn active(&self) -> bool;

    /// Stops driving the output.
    fn disable(&mut self)
        ensures
            !final(self).active(),
    ;

    /// Drives the output.
    fn enable(&mut self)
        ensures
            final(self).active(),
    ;

    /// Reads whether the output is driven.
    fn is_active(&self) -> (r: bool)
        ensures
            r == self.active(),
    ;
}

/// An output held in memory: a stand-in for a hardware pin.
pub struct MemoryPin {
    pub level: bool,
}

impl UpDownPin for MemoryPin {
    open spec fn active(&self) -> bool {
        self.level
    }

    fn disable(&mut self) {
        self.level = false;
    }

    fn enable(&mut self) {
        self.level = true;
    }

    fn is_active(&self) -> (r: bool) {
        self.level
    }
}

/// What a channel is, as far as its behaviour goes.
pub struct ChannelState {
    pub up_active: bool,
    pub down_active: bool,
    pub remaining_up: Option<u32>,
    pub remaining_down: Option<u32>,
    pub limit_up: Option<u32>,
    pub limit_down: Option<u32>,
}

impl ChannelState {
    /// Motion goes one way at a time, and a countdown runs only while its
    /// output is driven.
    pub open spec fn wf(self) -> bool {
        &&& !(self.up_active && self.down_active)
        &&& self.remaining_up is Some ==> self.up_active
        &&& self.remaining_down is Some ==> self.down_active
    }
}

impl ChannelState {
    /// Whether either output is driven.
    pub open spec fn moving(self) -> bool {
        self.up_active || self.down_active
    }

    /// The state after `stop`.
    pub open spec fn stopped(self) -> ChannelState {
        ChannelState {
            up_active: false,
            down_active: false,
            remaining_up: None,
            remaining_down: None,
            ..self
        }
    }

    /// The state after `up`.
    pub open spec fn going_up(self) -> ChannelState {
        ChannelState {
            up_active: true,
            down_active: false,
            remaining_up: self.limit_up,
            remaining_down: None,
            ..self
        }
    }

    /// The state after `down`.
    pub open spec fn going_down(self) -> ChannelState {
        ChannelState {
            up_active: false,
            down_active: true,
            remaining_up: None,
            remaining_down: self.limit_down,
            ..self
        }
    }

    /// The state after `set_limit(limit_up, limit_down)`.
    pub open spec fn limited(self, limit_up: Option<u32>, limit_down: Option<u32>) -> ChannelState {
        ChannelState {
            remaining_up: if self.up_active {
                limit_up
            } else {
                self.remaining_up
            },
            remaining_down: if self.down_active {
                limit_down
            } else {
                self.remaining_down
            },
            limit_up,
            limit_down,
            ..self
        }
    }

    /// The state after `update(delta)`.
    pub open spec fn advanced(self, delta: u32) -> ChannelState {
        ChannelState {
            up_active: self.up_active && !runs_out(self.remaining_up, delta),
            down_active: self.down_active && !runs_out(self.remaining_down, delta),
            remaining_up: count_down(self.remaining_up, delta),
            remaining_down: count_down(self.remaining_down, delta),
            ..self
        }
    }
}

/// The countdown that is left once `delta` has passed.
pub open spec fn count_down(remaining: Option<u32>, delta: u32) -> Option<u32> {
    match remaining {
        Some(t) => if t > delta {
            Some((t - delta) as u32)
        } else {
            None
        },
        None => None,
    }
}

/// Whether a countdown runs out once `delta` has passed.
pub open spec fn runs_out(remaining: Option<u32>, delta: u32) -> bool {
    match remaining {
        Some(t) => t <= delta,
        None => false,
    }
}

/// One actuator: two direction outputs, their countdowns and their limits.
pub struct ControlChannel<P: UpDownPin> {
    pin_up: P,
    pin_down: P,
    time_up: Option<u32>,
    time_down: Option<u32>,
    limit_up: Option<u32>,
    limit_down: Option<u32>,
}

impl<P: UpDownPin> View for ControlChannel<P> {
    type V = ChannelState;

    closed spec fn view(&self) -> ChannelState {
        ChannelState {
            up_active: self.pin_up.active(),
            down_active: self.pin_down.active(),
            remaining_up: self.time_up,
            remaining_down: self.time_down,
            limit_up: self.limit_up,
            limit_down: self.limit_down,
        }
    }
}

impl<P: UpDownPin> ControlChannel<P> {
    /// A channel at rest, with both outputs disabled and no limits.
    pub fn new(pin_up: P, pin_down: P) -> (r: Self)
        ensures
            r@ == (ChannelState {
                up_active: false,
                down_active: false,
                remaining_up: None,
                remaining_down: None,
                limit_up: None,
                limit_down: None,
            }),
            r@.wf(),
    {
        let mut r = ControlChannel {
            pin_up,
            pin_down,
            time_up: None,
            time_down: None,
            limit_up: None,
            limit_down: None,
        };
        r.pin_up.disable();
        r.pin_down.disable();
        r
    }

    /// Disables both outputs and clears both countdowns.
    pub fn stop(&mut self)
        requires
            old(self)@.wf(),
        ensures
            final(self)@ == old(self)@.stopped(),
            final(self)@.wf(),
    {
        self.pin_up.disable();
        self.pin_down.disable();
        self.time_up = None;
        self.time_down = None;
    }

    /// Starts upward motion, timed by the up limit if there is one.
    pub fn up(&mut self)
        requires
            old(self)@.wf(),
        ensures
            final(self)@ == old(self)@.going_up(),
            final(self)@.wf(),
    {
        self.pin_down.disable();
        self.pin_up.enable();
        self.time_up = self.limit_up;
        self.time_down = None;
    }

    /// Starts downward motion, timed by the down limit if there is one.
    pub fn down(&mut self)
        requires
            old(self)@.wf(),
        ensures
            final(self)@ == old(self)@.going_down(),
            final(self)@.wf(),
    {
        self.pin_up.disable();
        self.pin_down.enable();
        self.time_up = None;
        self.time_down = self.limit_down;
    }

    /// Replaces both limits; a direction in motion restarts its countdown
    /// from its new limit.
    pub fn set_limit(&mut self, limit_up: Option<u32>, limit_down: Option<u32>)
        requires
            old(self)@.wf(),
        ensures
            final(self)@ == old(self)@.limited(limit_up, limit_down),
            final(self)@.wf(),
    {
        self.limit_up = limit_up;
        self.limit_down = limit_down;
        if self.pin_up.is_active() {
            self.time_up = self.limit_up;
        }
        if self.pin_down.is_active() {
            self.time_down = self.limit_down;
        }
    }

    /// Lets `delta` pass: each running countdown shrinks by `delta`, and one
    /// that does not outlast it stops its output.
    pub fn update(&mut self, delta: u32)
        requires
            old(self)@.wf(),
        ensures
            final(self)@ == old(self)@.advanced(delta),
            final(self)@.wf(),
    {
        match self.time_up {
            Some(time) => {
                if time > delta {
                    self.time_up = Some(time - delta);
                } else {
                    self.pin_up.disable();
                    self.time_up = None;
                }
            },
            None => {},
        }
        match self.time_down {
            Some(time) => {
                if time > delta {
                    self.time_down = Some(time - delta);
                } else {
                    self.pin_down.disable();
                    self.time_down = None;
                }
            },
            None => {},
        }
    }

    /// Whether either output is driven.
    pub fn is_active(&self) -> (r: bool)
        ensures
            r == self@.moving(),
    {
        self.pin_up.is_active() || self.pin_down.is_active()
    }
}

/// A fixed set of `N` channels addressed by index. An index that names no
/// channel is accepted and does nothing.
pub struct Controller<P: UpDownPin, const N: usize> {
    channels: [ControlChannel<P>; N],
}

impl<P: UpDownPin, const N: usize> View for Controller<P, N> {
    type V = Seq<ChannelState>;

    closed spec fn view(&self) -> Seq<ChannelState> {
        self.channels@.map_values(|c: ControlChannel<P>| c@)
    }
}

/// Every channel is well formed.
pub open spec fn all_wf(s: Seq<ChannelState>) -> bool {
    forall|i: int| 0 <= i < s.len() ==> #[trigger] s[i].wf()
}

/// Whether some channel is in motion.
pub open spec fn any_moving(s: Seq<ChannelState>) -> bool {
    exists|i: int| 0 <= i < s.len() && #[trigger] s[i].moving()
}

/// `s` with the channel at `index` changed to `c`, or `s` itself where
/// `index` names no channel.
pub open spec fn at_index(s: Seq<ChannelState>, index: usize, c: ChannelState) -> Seq<ChannelState> {
    if index < s.len() {
        s.update(index as int, c)
    } else {
        s
    }
}

impl<P: UpDownPin, const N: usize> Controller<P, N> {
    /// Takes charge of `channels`, addressed by their position.
    pub fn new(channels: [ControlChannel<P>; N]) -> (r: Self)
        requires
            forall|i: int| 0 <= i < N ==> (#[trigger] channels@[i])@.wf(),
        ensures
            r@ == channels@.map_values(|c: ControlChannel<P>| c@),
            r@.len() == N,
            all_wf(r@),
    {
        Controller { channels }
    }

    /// Stops every channel.
    pub fn stop_all(&mut self)
        requires
            all_wf(old(self)@),
        ensures
            final(self)@ == old(self)@.map_values(|c: ChannelState| c.stopped()),
            final(self)@.len() == N,
            all_wf(final(self)@),
    {
        let mut i: usize = 0;
        while i < N
            invariant
                i <= N,
                self@.len() == N,
                old(self)@.len() == N,
                all_wf(old(self)@),
                forall|j: int| 0 <= j < i ==> #[trigger] self@[j] == old(self)@[j].stopped(),
                forall|j: int| i <= j < N ==> #[trigger] self@[j] == old(self)@[j],
                all_wf(self@),
            decreases N - i,
        {
            let ghost prev = self@;
            assert(self.channels@[i as int]@ == prev[i as int]);
            self.channels[i].stop();
            assert(self@ =~= prev.update(i as int, prev[i as int].stopped()));
            i = i + 1;
        }
        assert(self@ =~= old(self)@.map_values(|c: ChannelState| c.stopped()));
    }

    /// Stops the channel at `index`, if there is one.
    pub fn stop(&mut self, index: usize)
        requires
            all_wf(old(self)@),
        ensures
            final(self)@ == at_index(old(self)@, index, old(self)@[index as int].stopped()),
            all_wf(final(self)@),
    {
        if index < N {
            assert(self.channels@[index as int]@ == old(self)@[index as int]);
            self.channels[index].stop();
            assert(self@ =~= old(self)@.update(index as int, old(self)@[index as int].stopped()));
        }
    }

    /// Starts the channel at `index` upwards, if there is one.
    pub fn up(&mut self, index: usize)
        requires
            all_wf(old(self)@),
        ensures
            final(self)@ == at_index(old(self)@, index, old(self)@[index as int].going_up()),
            all_wf(final(self)@),
    {
        if index < N {
            assert(self.channels@[index as int]@ == old(self)@[index as int]);
            self.channels[index].up();
            assert(self@ =~= old(self)@.update(index as int, old(self)@[index as int].going_up()));
        }
    }

    /// Starts the channel at `index` downwards, if there is one.
    pub fn down(&mut self, index: usize)
        requires
            all_wf(old(self)@),
        ensures
            final(self)@ == at_index(old(self)@, index, old(self)@[index as int].going_down()),
            all_wf(final(self)@),
    {
        if index < N {
            assert(self.channels@[index as int]@ == old(self)@[index as int]);
            self.channels[index].down();
            assert(self@ =~= old(self)@.update(index as int, old(self)@[index as int].going_down()));
        }
    }

    /// Sets the limits of the channel at `index`, if there is one.
    pub fn limit(&mut self, index: usize, up_limit: Option<u32>, down_limit: Option<u32>)
        requires
            all_wf(old(self)@),
        ensures
            final(self)@ == at_index(old(self)@, index, old(self)@[index as int].limited(up_limit, down_limit)),
            all_wf(final(self)@),
    {
        if index < N {
            assert(self.channels@[index as int]@ == old(self)@[index as int]);
            self.channels[index].set_limit(up_limit, down_limit);
            assert(self@ =~= old(self)@.update(index as int, old(self)@[index as int].limited(up_limit, down_limit)));
        }
    }

    /// Lets `delta` pass on every channel.
    pub fn update(&mut self, delta: u32)
        requires
            all_wf(old(self)@),
        ensures
            final(self)@ == old(self)@.map_values(|c: ChannelState| c.advanced(delta)),
            final(self)@.len() == N,
            all_wf(final(self)@),
    {
        let mut i: usize = 0;
        while i < N
            invariant
                i <= N,
                self@.len() == N,
                old(self)@.len() == N,
                all_wf(old(self)@),
                forall|j: int| 0 <= j < i ==> #[trigger] self@[j] == old(self)@[j].advanced(delta),
                forall|j: int| i <= j < N ==> #[trigger] self@[j] == old(self)@[j],
                all_wf(self@),
            decreases N - i,
        {
            let ghost prev = self@;
            assert(self.channels@[i as int]@ == prev[i as int]);
            self.channels[i].update(delta);
            assert(self@ =~= prev.update(i as int, prev[i as int].advanced(delta)));
            i = i + 1;
        }
        assert(self@ =~= old(self)@.map_values(|c: ChannelState| c.advanced(delta)));
    }

    /// Whether some channel is in motion.
    pub fn is_active(&self) -> (r: bool)
        ensures
            r == any_moving(self@),
    {
        let mut i: usize = 0;
        while i < N
            invariant
                i <= N,
                self@.len() == N,
                forall|j: int| 0 <= j < i ==> !(#[trigger] self@[j]).moving(),
            decreases N - i,
        {
            assert(self.channels@[i as int]@ == self@[i as int]);
            if self.channels[i].is_active() {
                return true;
            }
            i = i + 1;
        }
        false
    }
}

/// Starting down after starting up leaves only the down output driven and no
/// upward countdown, whatever the state before.
pub proof fn lemma_up_then_down(s: ChannelState)
    ensures
        s.going_up().going_down().remaining_up is None,
        !s.going_up().going_down().up_active,
        s.going_up().going_down().down_active,
        s.going_up().going_down().wf(),
{
}

/// A countdown that survives an update is never left at zero.
pub proof fn lemma_countdown_never_zero(s: ChannelState, delta: u32)
    ensures
        s.advanced(delta).remaining_up != Some(0u32),
        s.advanced(delta).remaining_down != Some(0u32),
{
}

/// Stopping twice is stopping once.
pub proof fn lemma_stop_idempotent(s: ChannelState)
    ensures
        s.stopped().stopped() == s.stopped(),
{
}

/// Changing the channel at an index that names none changes nothing.
pub proof fn lemma_out_of_range_unchanged(s: Seq<ChannelState>, index: usize, c: ChannelState)
    requires
        index >= s.len(),
    ensures
        at_index(s, index, c) == s,
{
}

/// Once every channel is stopped, none is in motion.
pub proof fn lemma_none_moving_after_stop_all(s: Seq<ChannelState>)
    ensures
        !any_moving(s.map_values(|c: ChannelState| c.stopped())),
{
}

/// Once every driven output has run out its countdown, no channel is in
/// motion.
pub proof fn lemma_none_moving_after_expiry(s: Seq<ChannelState>, delta: u32)
    requires
        all_wf(s),
        forall|i: int|
            0 <= i < s.len() ==> ((#[trigger] s[i]).up_active ==> runs_out(s[i].remaining_up, delta))
                && (s[i].down_active ==> runs_out(s[i].remaining_down, delta)),
    ensures
        !any_moving(s.map_values(|c: ChannelState| c.advanced(delta))),
{
    let t = s.map_values(|c: ChannelState| c.advanced(delta));
    assert forall|i: int| 0 <= i < t.len() implies !(#[trigger] t[i]).moving() by {
        assert(t[i] == s[i].advanced(delta));
    }
}

} // verus!
