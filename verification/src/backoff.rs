//! The pause before the next attempt to connect.
use vstd::prelude::*;

verus! {

/// The pause before the first attempt after a connection, in seconds.
pub const FIRST_DELAY_SECS: u64 = 1;

/// The longest pause, in seconds.
pub const MAX_DELAY_SECS: u64 = 10;

/// How long to wait before the next attempt. It doubles after each wait, up to the longest pause.
#[derive(Clone, Copy, Debug, PartialEq, Eq, Structural)]
pub struct Backoff {
    pub delay_secs: u64,
}

/// The pause after `n` waits since the last connection.
pub open spec fn delay_after(n: nat) -> nat
    decreases n,
{
    if n == 0 {
        FIRST_DELAY_SECS as nat
    } else {
        let twice = 2 * delay_after((n - 1) as nat);
        if twice < MAX_DELAY_SECS {
            twice
        } else {
            MAX_DELAY_SECS as nat
        }
    }
}

impl Backoff {
    /// The pause lies between the first and the longest one.
    pub open spec fn wf(self) -> bool {
        FIRST_DELAY_SECS <= self.delay_secs <= MAX_DELAY_SECS
    }

    /// The state at the start, and after each connection.
    pub fn new() -> (res: Self)
        ensures
            res.wf(),
            res.delay_secs == FIRST_DELAY_SECS,
    {
        Backoff { delay_secs: FIRST_DELAY_SECS }
    }

    /// Starts over after a connection.
    pub fn reset(&mut self)
        ensures
            final(self).wf(),
            final(self).delay_secs == FIRST_DELAY_SECS,
    {
        self.delay_secs = FIRST_DELAY_SECS;
    }

    /// Doubles the pause after a wait, up to the longest one.
    pub fn grow(&mut self)
        requires
            old(self).wf(),
        ensures
            final(self).wf(),
            final(self).delay_secs == (if 2 * old(self).delay_secs < MAX_DELAY_SECS {
                2 * old(self).delay_secs
            } else {
                MAX_DELAY_SECS as int
            }),
            forall|n: nat|
                old(self).delay_secs == delay_after(n) ==> final(self).delay_secs
                    == #[trigger] delay_after(n + 1),
    {
        let twice: u64 = self.delay_secs * 2;
        self.delay_secs = if twice < MAX_DELAY_SECS {
            twice
        } else {
            MAX_DELAY_SECS
        };
    }
}

/// The pauses since the last connection are 1, 2, 4, 8 and from then on 10 seconds.
pub proof fn delays(n: nat)
    ensures
        delay_after(0) == 1,
        delay_after(1) == 2,
        delay_after(2) == 4,
        delay_after(3) == 8,
        n >= 4 ==> delay_after(n) == 10,
    decreases n,
{
    reveal_with_fuel(delay_after, 5);
    if n > 4 {
        delays((n - 1) as nat);
    }
}

} // verus!
