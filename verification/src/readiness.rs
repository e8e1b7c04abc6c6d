//! Whether the encryption sync has received anything yet, over its successive generations.

use vstd::prelude::*;

verus! {

/// Lifecycle state of the current encryption sync.
#[derive(Clone, Copy, Debug, PartialEq, Eq, Structural)]
pub enum EncryptionSyncReadinessState {
    /// No generation has started.
    NotStarted,
    /// Waiting for the first committed response.
    Pending,
    /// At least one response committed.
    Received,
    /// The generation ended with an error.
    Failed,
    /// The generation ended or was dropped.
    Cancelled,
}

/// Snapshot of the encryption sync's lifecycle.
#[derive(Clone, Copy, Debug, PartialEq, Eq, Structural)]
pub struct EncryptionSyncReadinessSnapshot {
    /// Generation within this process; it never decreases.
    pub generation: u64,
    /// Lifecycle state.
    pub state: EncryptionSyncReadinessState,
}

impl Default for EncryptionSyncReadinessSnapshot {
    fn default() -> (r: Self)
        ensures
            r.generation == 0,
            r.state == EncryptionSyncReadinessState::NotStarted,
    {
        EncryptionSyncReadinessSnapshot {
            generation: 0,
            state: EncryptionSyncReadinessState::NotStarted,
        }
    }
}

/// Observation state of the encryption sync.
#[derive(Debug)]
pub struct EncryptionSyncReadiness {
    current: EncryptionSyncReadinessSnapshot,
}

impl View for EncryptionSyncReadiness {
    type V = EncryptionSyncReadinessSnapshot;

    closed spec fn view(&self) -> EncryptionSyncReadinessSnapshot {
        self.current
    }
}

/// The snapshot after a new generation has begun. The number of a generation stays where it is once
/// it has reached its maximum.
pub open spec fn begun(before: EncryptionSyncReadinessSnapshot) -> EncryptionSyncReadinessSnapshot {
    EncryptionSyncReadinessSnapshot {
        generation: if before.generation == u64::MAX {
            u64::MAX
        } else {
            (before.generation + 1) as u64
        },
        state: EncryptionSyncReadinessState::Pending,
    }
}

/// The snapshot after a generation has moved to a state: only the current generation can.
pub open spec fn moved(
    before: EncryptionSyncReadinessSnapshot,
    generation: u64,
    state: EncryptionSyncReadinessState,
) -> EncryptionSyncReadinessSnapshot {
    if before.generation == generation {
        EncryptionSyncReadinessSnapshot { generation, state }
    } else {
        before
    }
}

/// Whether `published` is what is to be published of a move: the new snapshot where the generation
/// is the current one, and nothing otherwise.
pub open spec fn published_after_move(
    before: EncryptionSyncReadinessSnapshot,
    generation: u64,
    state: EncryptionSyncReadinessState,
    published: Option<EncryptionSyncReadinessSnapshot>,
) -> bool {
    published == if before.generation == generation {
        Some(moved(before, generation, state))
    } else {
        None
    }
}

impl EncryptionSyncReadiness {
    /// No generation has started.
    pub fn new() -> (r: Self)
        ensures
            r@.generation == 0,
            r@.state == EncryptionSyncReadinessState::NotStarted,
    {
        EncryptionSyncReadiness { current: EncryptionSyncReadinessSnapshot::default() }
    }

    /// Begins a generation. The second part is the snapshot to publish.
    pub fn begin(&mut self) -> (r: (
        EncryptionSyncGenerationGuard,
        EncryptionSyncReadinessSnapshot,
    ))
        ensures
            final(self)@ == begun(old(self)@),
            r.0.number() == final(self)@.generation,
            !r.0.is_terminal(),
            r.1 == final(self)@,
    {
        self.current = EncryptionSyncReadinessSnapshot {
            generation: self.current.generation.saturating_add(1),
            state: EncryptionSyncReadinessState::Pending,
        };
        (
            EncryptionSyncGenerationGuard { generation: self.current.generation, terminal: false },
            self.current,
        )
    }

    /// The current snapshot.
    pub fn snapshot(&self) -> (r: EncryptionSyncReadinessSnapshot)
        ensures
            r == self@,
    {
        self.current
    }

    /// Moves a generation to a state. The result is the snapshot to publish.
    pub fn transition(&mut self, generation: u64, state: EncryptionSyncReadinessState) -> (r:
        Option<EncryptionSyncReadinessSnapshot>)
        ensures
            final(self)@ == moved(old(self)@, generation, state),
            published_after_move(old(self)@, generation, state, r),
    {
        if self.current.generation != generation {
            return None;
        }
        self.current.state = state;
        Some(self.current)
    }
}

/// Guard of one generation, owned by the stream that runs it.
#[derive(Debug)]
pub struct EncryptionSyncGenerationGuard {
    generation: u64,
    terminal: bool,
}

impl EncryptionSyncGenerationGuard {
    /// The number of the generation.
    pub closed spec fn number(self) -> u64 {
        self.generation
    }

    /// Whether the generation was marked as failed or cancelled.
    pub closed spec fn is_terminal(self) -> bool {
        self.terminal
    }

    /// The number of the generation.
    pub fn generation(&self) -> (r: u64)
        ensures
            r == self.number(),
    {
        self.generation
    }

    /// Marks a committed response. The result is the snapshot to publish.
    pub fn mark_received(&mut self, readiness: &mut EncryptionSyncReadiness) -> (r: Option<
        EncryptionSyncReadinessSnapshot,
    >)
        ensures
            *final(self) == *old(self),
            final(readiness)@ == moved(
                old(readiness)@,
                old(self).number(),
                EncryptionSyncReadinessState::Received,
            ),
            published_after_move(
                old(readiness)@,
                old(self).number(),
                EncryptionSyncReadinessState::Received,
                r,
            ),
    {
        readiness.transition(self.generation, EncryptionSyncReadinessState::Received)
    }

    /// Marks failure. The result is the snapshot to publish.
    pub fn mark_failed(&mut self, readiness: &mut EncryptionSyncReadiness) -> (r: Option<
        EncryptionSyncReadinessSnapshot,
    >)
        ensures
            final(self).number() == old(self).number(),
            final(self).is_terminal(),
            final(readiness)@ == moved(
                old(readiness)@,
                old(self).number(),
                EncryptionSyncReadinessState::Failed,
            ),
            published_after_move(
                old(readiness)@,
                old(self).number(),
                EncryptionSyncReadinessState::Failed,
                r,
            ),
    {
        let published = readiness.transition(
            self.generation,
            EncryptionSyncReadinessState::Failed,
        );
        self.terminal = true;
        published
    }

    /// Marks normal end or cancellation. The result is the snapshot to publish.
    pub fn mark_cancelled(&mut self, readiness: &mut EncryptionSyncReadiness) -> (r: Option<
        EncryptionSyncReadinessSnapshot,
    >)
        ensures
            final(self).number() == old(self).number(),
            final(self).is_terminal(),
            final(readiness)@ == moved(
                old(readiness)@,
                old(self).number(),
                EncryptionSyncReadinessState::Cancelled,
            ),
            published_after_move(
                old(readiness)@,
                old(self).number(),
                EncryptionSyncReadinessState::Cancelled,
                r,
            ),
    {
        let published = readiness.transition(
            self.generation,
            EncryptionSyncReadinessState::Cancelled,
        );
        self.terminal = true;
        published
    }

    /// Ends the guard: a generation that was not marked as ended counts as cancelled. The result is
    /// the snapshot to publish.
    pub fn close(self, readiness: &mut EncryptionSyncReadiness) -> (r: Option<
        EncryptionSyncReadinessSnapshot,
    >)
        ensures
            self.is_terminal() ==> final(readiness)@ == old(readiness)@ && r is None,
            !self.is_terminal() ==> final(readiness)@ == moved(
                old(readiness)@,
                self.number(),
                EncryptionSyncReadinessState::Cancelled,
            ) && published_after_move(
                old(readiness)@,
                self.number(),
                EncryptionSyncReadinessState::Cancelled,
                r,
            ),
    {
        if !self.terminal {
            return readiness.transition(self.generation, EncryptionSyncReadinessState::Cancelled);
        }
        None
    }
}

/// Something that happens to the observation state.
pub enum ReadinessStep {
    /// A generation begins.
    Begin,
    /// A generation moves to a state.
    Move {
        /// The generation.
        generation: u64,
        /// The state.
        state: EncryptionSyncReadinessState,
    },
}

/// The snapshot after a number of steps.
pub open spec fn after_steps(
    before: EncryptionSyncReadinessSnapshot,
    steps: Seq<ReadinessStep>,
) -> EncryptionSyncReadinessSnapshot
    decreases steps.len(),
{
    if steps.len() == 0 {
        before
    } else {
        let earlier = after_steps(before, steps.drop_last());
        match steps.last() {
            ReadinessStep::Begin => begun(earlier),
            ReadinessStep::Move { generation, state } => moved(earlier, generation, state),
        }
    }
}

/// The generation never decreases.
pub proof fn generation_never_decreases(
    before: EncryptionSyncReadinessSnapshot,
    steps: Seq<ReadinessStep>,
)
    ensures
        before.generation <= after_steps(before, steps).generation,
    decreases steps.len(),
{
    if steps.len() > 0 {
        generation_never_decreases(before, steps.drop_last());
    }
}

/// Once another generation has begun, an older one can no longer change the snapshot.
pub proof fn superseded_generation_changes_nothing(
    before: EncryptionSyncReadinessSnapshot,
    steps: Seq<ReadinessStep>,
    state: EncryptionSyncReadinessState,
)
    requires
        before.generation < u64::MAX,
    ensures
        ({
            let now = after_steps(begun(before), steps);
            moved(now, before.generation, state) == now
        }),
{
    generation_never_decreases(begun(before), steps);
}

/// A generation that has begun is pending until it is moved, and every generation but the last
/// possible one has a number of its own.
pub proof fn generation_begins_pending(before: EncryptionSyncReadinessSnapshot)
    ensures
        begun(before).state == EncryptionSyncReadinessState::Pending,
        before.generation < u64::MAX ==> before.generation < begun(before).generation,
{
}

/// A new generation is numbered after the one before, as long as there are numbers, and waits for its
/// first response.
pub proof fn generations_are_numbered_in_turn(before: EncryptionSyncReadinessSnapshot)
    ensures
        before.generation < u64::MAX ==> begun(before).generation == before.generation + 1,
        before.generation == u64::MAX ==> begun(before).generation == u64::MAX,
        begun(before).state is Pending,
{
}

/// The current generation moves to any state, from whatever state it is in, and the move is published.
/// Any other generation moves nothing and publishes nothing.
pub proof fn only_the_current_generation_moves(
    before: EncryptionSyncReadinessSnapshot,
    generation: u64,
    state: EncryptionSyncReadinessState,
    published: Option<EncryptionSyncReadinessSnapshot>,
)
    ensures
        moved(before, generation, state).generation == before.generation,
        generation == before.generation ==> moved(before, generation, state).state == state,
        generation != before.generation ==> moved(before, generation, state) == before,
        published_after_move(before, generation, state, published) <==> {
            &&& generation == before.generation ==> (published matches Some(snapshot)
                && snapshot.generation == generation && snapshot.state == state)
            &&& generation != before.generation ==> published is None
        },
{
}

/// Steps are taken one after the other, each from what the ones before it left.
pub proof fn steps_are_taken_in_turn(
    before: EncryptionSyncReadinessSnapshot,
    steps: Seq<ReadinessStep>,
    step: ReadinessStep,
)
    ensures
        after_steps(before, Seq::empty()) == before,
        step is Begin ==> after_steps(before, steps.push(step)) == begun(
            after_steps(before, steps),
        ),
        step matches ReadinessStep::Move { generation, state } ==> after_steps(
            before,
            steps.push(step),
        ) == moved(after_steps(before, steps), generation, state),
{
    assert(steps.push(step).drop_last() =~= steps);
}

} // verus!
