//! What the sessions of a project used.

use vstd::prelude::*;

verus! {

/// What the sessions of a project used.
#[derive(Clone, Copy, Debug, PartialEq, Eq, Structural)]
pub struct ProjectStats {
    pub input_tokens: u64,
    pub output_tokens: u64,
    pub cache_write_tokens: u64,
    pub cache_read_tokens: u64,
    /// What the tokens cost, in microcents (millionths of a cent).
    pub cost: u128,
    pub sessions: u64,
}

/// The sums that `ProjectStats` holds, without a bound.
pub struct Totals {
    pub input_tokens: nat,
    pub output_tokens: nat,
    pub cache_write_tokens: nat,
    pub cache_read_tokens: nat,
    pub cost: nat,
    pub sessions: nat,
}

impl Totals {
    /// Nothing used.
    pub open spec fn zero() -> Totals {
        Totals {
            input_tokens: 0,
            output_tokens: 0,
            cache_write_tokens: 0,
            cache_read_tokens: 0,
            cost: 0,
            sessions: 0,
        }
    }

    /// The sums of both.
    pub open spec fn plus(self, other: Totals) -> Totals {
        Totals {
            input_tokens: self.input_tokens + other.input_tokens,
            output_tokens: self.output_tokens + other.output_tokens,
            cache_write_tokens: self.cache_write_tokens + other.cache_write_tokens,
            cache_read_tokens: self.cache_read_tokens + other.cache_read_tokens,
            cost: self.cost + other.cost,
            sessions: self.sessions + other.sessions,
        }
    }

    /// No sum is less than that of `other`.
    pub open spec fn covers(self, other: Totals) -> bool {
        &&& self.input_tokens >= other.input_tokens
        &&& self.output_tokens >= other.output_tokens
        &&& self.cache_write_tokens >= other.cache_write_tokens
        &&& self.cache_read_tokens >= other.cache_read_tokens
        &&& self.cost >= other.cost
        &&& self.sessions >= other.sessions
    }

    /// Each sum fits in the field of `ProjectStats` that holds it.
    pub open spec fn fits(self) -> bool {
        &&& self.input_tokens <= u64::MAX
        &&& self.output_tokens <= u64::MAX
        &&& self.cache_write_tokens <= u64::MAX
        &&& self.cache_read_tokens <= u64::MAX
        &&& self.cost <= u128::MAX
        &&& self.sessions <= u64::MAX
    }

    /// Tokens come from sessions, and cost no more than the highest price.
    pub open spec fn plausible(self) -> bool {
        &&& self.sessions == 0 ==> self == Totals::zero()
        &&& self.cost <= 1500 * self.input_tokens + 7500 * self.output_tokens
    }

    /// The tokens that count for the rank of a project.
    pub open spec fn total_tokens(self) -> nat {
        self.input_tokens + self.output_tokens
    }
}

impl View for ProjectStats {
    type V = Totals;

    open spec fn view(&self) -> Totals {
        Totals {
            input_tokens: self.input_tokens as nat,
            output_tokens: self.output_tokens as nat,
            cache_write_tokens: self.cache_write_tokens as nat,
            cache_read_tokens: self.cache_read_tokens as nat,
            cost: self.cost as nat,
            sessions: self.sessions as nat,
        }
    }
}

impl Default for ProjectStats {
    /// Nothing used.
    fn default() -> (r: Self)
        ensures
            r@ == Totals::zero(),
    {
        ProjectStats {
            input_tokens: 0,
            output_tokens: 0,
            cache_write_tokens: 0,
            cache_read_tokens: 0,
            cost: 0,
            sessions: 0,
        }
    }
}

impl ProjectStats {
    /// Input and output together.
    pub fn total_tokens(&self) -> (r: u64)
        requires
            self@.total_tokens() <= u64::MAX,
        ensures
            r == self@.total_tokens(),
    {
        self.input_tokens + self.output_tokens
    }

    /// Adds `other`.
    pub fn accumulate(&mut self, other: &ProjectStats)
        requires
            old(self)@.plus(other@).fits(),
        ensures
            final(self)@ == old(self)@.plus(other@),
    {
        self.input_tokens += other.input_tokens;
        self.output_tokens += other.output_tokens;
        self.cache_write_tokens += other.cache_write_tokens;
        self.cache_read_tokens += other.cache_read_tokens;
        self.cost += other.cost;
        self.sessions += other.sessions;
    }

    /// Whether the sums of both fit.
    pub fn can_accumulate(&self, other: &ProjectStats) -> (r: bool)
        ensures
            r == self@.plus(other@).fits(),
    {
        other.input_tokens <= u64::MAX - self.input_tokens && other.output_tokens <= u64::MAX
            - self.output_tokens && other.cache_write_tokens <= u64::MAX - self.cache_write_tokens
            && other.cache_read_tokens <= u64::MAX - self.cache_read_tokens && other.sessions
            <= u64::MAX - self.sessions && other.cost <= u128::MAX - self.cost
    }
}

/// The sums of both are the sums of each field, whichever comes first, and adding
/// nothing changes nothing.
pub proof fn law_sums(a: Totals, b: Totals)
    ensures
        a.plus(b).input_tokens == a.input_tokens + b.input_tokens,
        a.plus(b).output_tokens == a.output_tokens + b.output_tokens,
        a.plus(b).cache_write_tokens == a.cache_write_tokens + b.cache_write_tokens,
        a.plus(b).cache_read_tokens == a.cache_read_tokens + b.cache_read_tokens,
        a.plus(b).cost == a.cost + b.cost,
        a.plus(b).sessions == a.sessions + b.sessions,
        a.plus(b) == b.plus(a),
        a.plus(Totals::zero()) == a,
        a.total_tokens() == a.input_tokens + a.output_tokens,
{
}

/// The sums are those that the fields hold.
pub proof fn law_fields(stats: ProjectStats)
    ensures
        stats@.input_tokens == stats.input_tokens,
        stats@.output_tokens == stats.output_tokens,
        stats@.cache_write_tokens == stats.cache_write_tokens,
        stats@.cache_read_tokens == stats.cache_read_tokens,
        stats@.cost == stats.cost,
        stats@.sessions == stats.sessions,
{
}

} // verus!
