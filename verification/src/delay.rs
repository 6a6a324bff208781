use rand::Rng;
use vstd::prelude::*;

verus! {

/// The waits of one cycle.
#[derive(Debug, Clone, Copy, PartialEq, Eq, Structural)]
pub enum DelayKind {
    /// How long the cast key is held down.
    CastHold,
    /// How long the bobber is left to settle after the cast.
    Settle,
    /// How long the pointer is left alone after it was moved.
    Aim,
    /// The wait between two samples while watching for a splash.
    Poll,
    /// The wait between a splash and the press of the button.
    ReactLead,
    /// How long the button is held down.
    ReactHold,
    /// The rest between two cycles.
    Rest,
}

/// A closed range of milliseconds that a wait is drawn from.
#[derive(Debug, Clone, Copy, PartialEq, Eq, Structural)]
pub struct DelayRange {
    min_ms: u64,
    max_ms: u64,
}

impl DelayRange {
    #[verifier::type_invariant]
    spec fn inv(self) -> bool {
        self.min_ms <= self.max_ms
    }

    /// Shortest wait of the range.
    pub closed spec fn spec_min_ms(&self) -> u64 {
        self.min_ms
    }

    /// Longest wait of the range.
    pub closed spec fn spec_max_ms(&self) -> u64 {
        self.max_ms
    }

    /// The range holds `ms`.
    pub open spec fn holds(&self, ms: u64) -> bool {
        self.spec_min_ms() <= ms <= self.spec_max_ms()
    }

    /// Makes the range from `min_ms` to `max_ms`, both included; there is
    /// none when `min_ms` is above `max_ms`.
    pub fn new(min_ms: u64, max_ms: u64) -> (r: Option<DelayRange>)
        ensures
            r is Some <==> min_ms <= max_ms,
            r is Some ==> r->Some_0.spec_min_ms() == min_ms && r->Some_0.spec_max_ms() == max_ms,
    {
        if min_ms <= max_ms {
            Some(DelayRange { min_ms, max_ms })
        } else {
            None
        }
    }

    /// The range that holds `ms` and nothing else.
    pub fn fixed(ms: u64) -> (r: DelayRange)
        ensures
            r.spec_min_ms() == ms,
            r.spec_max_ms() == ms,
    {
        DelayRange { min_ms: ms, max_ms: ms }
    }

    /// Shortest wait of the range.
    #[verifier::when_used_as_spec(spec_min_ms)]
    pub fn min_ms(&self) -> (ms: u64)
        ensures
            ms == self.spec_min_ms(),
            ms <= self.spec_max_ms(),
    {
        proof {
            use_type_invariant(self);
        }
        self.min_ms
    }

    /// Longest wait of the range.
    #[verifier::when_used_as_spec(spec_max_ms)]
    pub fn max_ms(&self) -> (ms: u64)
        ensures
            ms == self.spec_max_ms(),
            self.spec_min_ms() <= ms,
    {
        proof {
            use_type_invariant(self);
        }
        self.max_ms
    }

    /// Tells whether the range holds `ms`.
    pub fn contains(&self, ms: u64) -> (r: bool)
        ensures
            r == self.holds(ms),
    {
        self.min_ms <= ms && ms <= self.max_ms
    }
}

/// Draws a number of milliseconds between `low` and `high`, both included.
///
/// The body calls `rand::thread_rng()` for the generator of the thread
/// and `Rng::gen_range` on the closed range. Nothing of this is proved.
/// What is taken on trust is that the value lies within the range, as
/// the sampler adds an offset below the width of the range to `low`.
/// Which value comes is left open: two draws from one range need not
/// agree. `gen_range` refuses a range whose start lies above its end,
/// which the precondition rules out. The generator is seeded by the
/// operating system when a thread first asks for it.
#[verifier::external_body]
fn draw_inclusive(low: u64, high: u64) -> (ms: u64)
    requires
        low <= high,
    ensures
        low <= ms <= high,
{
    rand::thread_rng().gen_range(low..=high)
}

/// Draws the length of one wait, in milliseconds, from `range`.
///
/// The wait itself is left to the caller.
pub fn random_delay(range: &DelayRange) -> (ms: u64)
    ensures
        range.holds(ms),
{
    let low = range.min_ms();
    let high = range.max_ms();
    if low == high {
        low
    } else {
        draw_inclusive(low, high)
    }
}

/// The ranges that the waits of a cycle are drawn from.
#[derive(Debug, Clone, Copy, PartialEq, Eq, Structural)]
pub struct DelayPolicy {
    cast_hold: DelayRange,
    settle: DelayRange,
    aim: DelayRange,
    poll: DelayRange,
    react_lead: DelayRange,
    react_hold: DelayRange,
    rest: DelayRange,
}

/// Bounds of the range that the shipped policy has for `kind`.
pub open spec fn standard_bounds(kind: DelayKind) -> (u64, u64) {
    match kind {
        DelayKind::CastHold => (150, 350),
        DelayKind::Settle => (1800, 2200),
        DelayKind::Aim => (400, 600),
        DelayKind::Poll => (50, 50),
        DelayKind::ReactLead => (50, 189),
        DelayKind::ReactHold => (184, 483),
        DelayKind::Rest => (684, 4833),
    }
}

impl DelayPolicy {
    /// The range that waits of the given kind are drawn from.
    pub closed spec fn spec_range(&self, kind: DelayKind) -> DelayRange {
        match kind {
            DelayKind::CastHold => self.cast_hold,
            DelayKind::Settle => self.settle,
            DelayKind::Aim => self.aim,
            DelayKind::Poll => self.poll,
            DelayKind::ReactLead => self.react_lead,
            DelayKind::ReactHold => self.react_hold,
            DelayKind::Rest => self.rest,
        }
    }

    /// The policy that the cycle ships with.
    pub fn standard() -> (p: DelayPolicy)
        ensures
            forall|kind: DelayKind|
                (#[trigger] p.spec_range(kind)).spec_min_ms() == standard_bounds(kind).0
                    && p.spec_range(kind).spec_max_ms() == standard_bounds(kind).1,
    {
        DelayPolicy {
            cast_hold: DelayRange { min_ms: 150, max_ms: 350 },
            settle: DelayRange { min_ms: 1800, max_ms: 2200 },
            aim: DelayRange { min_ms: 400, max_ms: 600 },
            poll: DelayRange { min_ms: 50, max_ms: 50 },
            react_lead: DelayRange { min_ms: 50, max_ms: 189 },
            react_hold: DelayRange { min_ms: 184, max_ms: 483 },
            rest: DelayRange { min_ms: 684, max_ms: 4833 },
        }
    }

    /// The policy under which no wait takes any time.
    pub fn immediate() -> (p: DelayPolicy)
        ensures
            forall|kind: DelayKind|
                (#[trigger] p.spec_range(kind)).spec_min_ms() == 0 && p.spec_range(
                    kind,
                ).spec_max_ms() == 0,
    {
        let none = DelayRange::fixed(0);
        DelayPolicy {
            cast_hold: none,
            settle: none,
            aim: none,
            poll: none,
            react_lead: none,
            react_hold: none,
            rest: none,
        }
    }

    /// The range that waits of the given kind are drawn from.
    #[verifier::when_used_as_spec(spec_range)]
    pub fn range(&self, kind: DelayKind) -> (r: DelayRange)
        ensures
            r == self.spec_range(kind),
    {
        match kind {
            DelayKind::CastHold => self.cast_hold,
            DelayKind::Settle => self.settle,
            DelayKind::Aim => self.aim,
            DelayKind::Poll => self.poll,
            DelayKind::ReactLead => self.react_lead,
            DelayKind::ReactHold => self.react_hold,
            DelayKind::Rest => self.rest,
        }
    }

    /// The same policy, but with waits of the given kind drawn from `range`.
    pub fn with_range(self, kind: DelayKind, range: DelayRange) -> (p: DelayPolicy)
        ensures
            p.spec_range(kind) == range,
            forall|other: DelayKind| other != kind ==> p.spec_range(other) == self.spec_range(other),
    {
        let mut p = self;
        match kind {
            DelayKind::CastHold => {
                p.cast_hold = range;
            },
            DelayKind::Settle => {
                p.settle = range;
            },
            DelayKind::Aim => {
                p.aim = range;
            },
            DelayKind::Poll => {
                p.poll = range;
            },
            DelayKind::ReactLead => {
                p.react_lead = range;
            },
            DelayKind::ReactHold => {
                p.react_hold = range;
            },
            DelayKind::Rest => {
                p.rest = range;
            },
        }
        p
    }

    /// Draws the length of one wait of the given kind, in milliseconds.
    ///
    /// Every draw lies within the range of its kind, both bounds included.
    pub fn sample(&self, kind: DelayKind) -> (ms: u64)
        ensures
            self.spec_range(kind).holds(ms),
    {
        let range = self.range(kind);
        random_delay(&range)
    }
}

/// Under the shipped policy every wait lies within the bounds of its
/// kind, both included.
pub proof fn lemma_standard_waits_are_bounded(policy: DelayPolicy, kind: DelayKind, ms: u64)
    requires
        forall|k: DelayKind|
            (#[trigger] policy.spec_range(k)).spec_min_ms() == standard_bounds(k).0
                && policy.spec_range(k).spec_max_ms() == standard_bounds(k).1,
        policy.spec_range(kind).holds(ms),
    ensures
        kind == DelayKind::CastHold ==> 150 <= ms <= 350,
        kind == DelayKind::Settle ==> 1800 <= ms <= 2200,
        kind == DelayKind::Aim ==> 400 <= ms <= 600,
        kind == DelayKind::Poll ==> ms == 50,
        kind == DelayKind::ReactLead ==> 50 <= ms <= 189,
        kind == DelayKind::ReactHold ==> 184 <= ms <= 483,
        kind == DelayKind::Rest ==> 684 <= ms <= 4833,
{
    assert(policy.spec_range(kind).spec_min_ms() == standard_bounds(kind).0);
}

impl Default for DelayPolicy {
    fn default() -> (p: DelayPolicy)
        ensures
            forall|kind: DelayKind|
                (#[trigger] p.spec_range(kind)).spec_min_ms() == standard_bounds(kind).0
                    && p.spec_range(kind).spec_max_ms() == standard_bounds(kind).1,
    {
        DelayPolicy::standard()
    }
}

} // verus!
