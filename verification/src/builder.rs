//! Settings of the timer wheel.
use crate::duration::Duration;
use vstd::prelude::*;

verus! {

/// Configures and builds a timer wheel.
///
/// Every setting is optional; the getters give the default where one was not set.
#[derive(Debug)]
pub struct Builder {
    tick_duration: Option<Duration>,
    num_slots: Option<usize>,
    initial_capacity: Option<usize>,
    max_capacity: Option<usize>,
    max_timeout: Option<Duration>,
    channel_capacity: Option<usize>,
    thread_name: Option<String>,
}

/// What was set on a [`Builder`].
pub struct Settings {
    pub tick_duration: Option<Duration>,
    pub num_slots: Option<usize>,
    pub initial_capacity: Option<usize>,
    pub max_capacity: Option<usize>,
    pub max_timeout: Option<Duration>,
    pub channel_capacity: Option<usize>,
    pub thread_name: Option<Seq<char>>,
}

impl Settings {
    /// The settings of a builder on which nothing was set.
    pub open spec fn none() -> Settings {
        Settings {
            tick_duration: None,
            num_slots: None,
            initial_capacity: None,
            max_capacity: None,
            max_timeout: None,
            channel_capacity: None,
            thread_name: None,
        }
    }

    /// The tick, in nanoseconds.
    pub open spec fn tick_nanos(self) -> nat {
        match self.tick_duration {
            Some(d) => d@,
            None => 100_000_000,
        }
    }

    pub open spec fn slots(self) -> usize {
        match self.num_slots {
            Some(n) => n,
            None => 4_096,
        }
    }

    pub open spec fn channel(self) -> usize {
        match self.channel_capacity {
            Some(n) => n,
            None => 128,
        }
    }

    /// The storage is never smaller than the channel that feeds it.
    pub open spec fn initial(self) -> usize {
        let cap: usize = match self.initial_capacity {
            Some(n) => n,
            None => 128,
        };
        if cap >= self.channel() {
            cap
        } else {
            self.channel()
        }
    }

    pub open spec fn max(self) -> usize {
        match self.max_capacity {
            Some(n) => n,
            None => 4_194_304,
        }
    }

    /// The longest timeout, in nanoseconds: one turn of the wheel unless set.
    pub open spec fn max_timeout_nanos(self) -> nat {
        match self.max_timeout {
            Some(d) => d@,
            None => self.tick_nanos() * self.slots() as nat,
        }
    }
}

impl View for Builder {
    type V = Settings;

    closed spec fn view(&self) -> Settings {
        Settings {
            tick_duration: self.tick_duration,
            num_slots: self.num_slots,
            initial_capacity: self.initial_capacity,
            max_capacity: self.max_capacity,
            max_timeout: self.max_timeout,
            channel_capacity: self.channel_capacity,
            thread_name: match self.thread_name {
                Some(name) => Some(name@),
                None => None,
            },
        }
    }
}

impl Builder {
    /// A builder with every setting at its default.
    pub fn new() -> (b: Builder)
        ensures
            b@ == Settings::none(),
    {
        Builder {
            tick_duration: None,
            num_slots: None,
            initial_capacity: None,
            max_capacity: None,
            max_timeout: None,
            channel_capacity: None,
            thread_name: None,
        }
    }

    /// The tick duration.
    pub fn get_tick_duration(&self) -> (d: Duration)
        ensures
            d@ == self@.tick_nanos(),
            self@.tick_duration matches Some(set) ==> d == set,
            self@.tick_duration is None ==> d.nanos < 1_000_000_000,
    {
        match self.tick_duration {
            Some(d) => d,
            None => Duration::from_millis(100),
        }
    }

    /// Set the timer tick duration.
    ///
    /// Defaults to 100ms.
    pub fn tick_duration(self, tick_duration: Duration) -> (b: Self)
        ensures
            b@ == (Settings { tick_duration: Some(tick_duration), ..self@ }),
    {
        Builder { tick_duration: Some(tick_duration), ..self }
    }

    /// The number of slots.
    pub fn get_num_slots(&self) -> (n: usize)
        ensures
            n == self@.slots(),
    {
        // About 6 minutes at a 100 ms tick size
        match self.num_slots {
            Some(n) => n,
            None => 4_096,
        }
    }

    /// Set the number of slots in the timer wheel.
    ///
    /// The number of slots must be a power of two.
    ///
    /// Defaults to 4,096.
    pub fn num_slots(self, num_slots: usize) -> (b: Self)
        ensures
            b@ == (Settings { num_slots: Some(num_slots), ..self@ }),
    {
        Builder { num_slots: Some(num_slots), ..self }
    }

    /// The initial capacity: what was set, or the channel capacity where that is more.
    pub fn get_initial_capacity(&self) -> (n: usize)
        ensures
            n == self@.initial(),
    {
        let cap: usize = match self.initial_capacity {
            Some(n) => n,
            None => 128,
        };
        let channel: usize = self.get_channel_capacity();
        if cap >= channel {
            cap
        } else {
            channel
        }
    }

    /// Set the initial capacity of the timer
    ///
    /// The timer's timeout storage will be initialized to this capacity. When the
    /// capacity is reached, the storage grows until `max_capacity` is reached.
    ///
    /// Default: 128
    pub fn initial_capacity(self, initial_capacity: usize) -> (b: Self)
        ensures
            b@ == (Settings { initial_capacity: Some(initial_capacity), ..self@ }),
    {
        Builder { initial_capacity: Some(initial_capacity), ..self }
    }

    /// The most timers that there can be at one time.
    pub fn get_max_capacity(&self) -> (n: usize)
        ensures
            n == self@.max(),
    {
        match self.max_capacity {
            Some(n) => n,
            None => 4_194_304,
        }
    }

    /// Set the max capacity of the timer
    ///
    /// The timer's timeout storage cannot get larger than this capacity setting.
    ///
    /// Default: 4,194,304
    pub fn max_capacity(self, max_capacity: usize) -> (b: Self)
        ensures
            b@ == (Settings { max_capacity: Some(max_capacity), ..self@ }),
    {
        Builder { max_capacity: Some(max_capacity), ..self }
    }

    /// The longest timeout that can be requested. The default, the product of tick
    /// and slots, must fit a duration.
    pub fn get_max_timeout(&self) -> (d: Duration)
        requires
            self@.max_timeout is None ==> self@.max_timeout_nanos() / 1_000_000_000 <= u64::MAX,
        ensures
            d@ == self@.max_timeout_nanos(),
            self@.max_timeout matches Some(set) ==> d == set,
            self@.max_timeout is None ==> d.nanos < 1_000_000_000,
    {
        match self.max_timeout {
            Some(d) => d,
            None => {
                let tick: u128 = self.get_tick_duration().as_nanos();
                let slots: u128 = self.get_num_slots() as u128;
                assert(tick * slots == self@.max_timeout_nanos());
                Duration::from_nanos(tick * slots)
            },
        }
    }

    /// Set the max timeout duration that can be requested
    ///
    /// Setting the max timeout allows preventing the case of timeout collision
    /// in the hash wheel and helps guarantee optimal runtime characteristics.
    ///
    /// Defaults to `num_slots * tick_duration`
    pub fn max_timeout(self, max_timeout: Duration) -> (b: Self)
        ensures
            b@ == (Settings { max_timeout: Some(max_timeout), ..self@ }),
    {
        Builder { max_timeout: Some(max_timeout), ..self }
    }

    /// The channel capacity.
    pub fn get_channel_capacity(&self) -> (n: usize)
        ensures
            n == self@.channel(),
    {
        match self.channel_capacity {
            Some(n) => n,
            None => 128,
        }
    }

    /// Set the timer communication channel capacity
    ///
    /// This setting indicates the max number of timeout requests that are able
    /// to be buffered before timeout requests are rejected.
    ///
    /// Defaults to 128
    pub fn channel_capacity(self, channel_capacity: usize) -> (b: Self)
        ensures
            b@ == (Settings { channel_capacity: Some(channel_capacity), ..self@ }),
    {
        Builder { channel_capacity: Some(channel_capacity), ..self }
    }
}

} // verus!
