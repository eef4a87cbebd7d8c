//! The relay loop: claim a batch, publish each message in order, mark the
//! ones that went out, commit, and decide whether to go round again.
//!
//! The loop is a state machine. Its driver talks to the store and to the
//! broker; it reports each result as a [`RelayEvent`] and carries out the
//! [`RelayAction`] that comes back.

use crate::outbox::{
    after_claim, after_commit, after_mark, batch_of, claims_row, lemma_batch_id_tells_row,
    lemma_claimed_row_is_in_batch, lemma_commit_processes_marked_rows, table_wf, OutboxMessage,
    OutboxRow,
};
use vstd::prelude::*;

verus! {

/// Where the relay stands in its cycle.
#[derive(Clone, Copy, Debug, PartialEq, Eq, Structural)]
pub enum RelayPhase {
    /// Waiting for the next trigger.
    Idle,
    /// A claim was asked for.
    Claiming,
    /// A message of the batch is with the publisher.
    Publishing,
    /// The store was asked to mark the delivered rows.
    Marking,
    /// The store was asked to commit.
    Committing,
    /// The store failed; the relay does nothing more.
    Stopped,
}

/// What the driver reports to the relay.
#[derive(Debug)]
pub enum RelayEvent {
    /// The trigger fired: run a cycle.
    Triggered,
    /// The store returned the claimed batch, in the order of creation.
    Claimed(Vec<OutboxMessage>),
    /// The publisher answered for the message that was last handed to it.
    Published { ok: bool },
    /// The store marked the delivered rows.
    Marked,
    /// The store committed.
    Committed,
    /// The store failed to claim, mark or commit.
    StoreFailed,
}

/// What the driver must do next.
#[derive(Clone, Copy, Debug, PartialEq, Eq)]
pub enum RelayAction {
    /// Claim a batch with the given limit.
    Claim { limit: Option<u32> },
    /// Publish the message of the batch at `index`.
    Publish { index: usize },
    /// Mark the delivered rows as processed.
    MarkProcessed,
    /// Commit the claim.
    Commit,
    /// Wait for the next trigger.
    AwaitTrigger,
    /// Give up the open claim and stop: the store is broken.
    Stop,
    /// The event has no place in the current phase; nothing changed.
    Ignore,
}

/// The relay as a mathematical value.
pub struct RelayModel {
    /// The most rows that one claim takes, if bounded.
    pub limit: Option<u32>,
    /// Where the relay stands in its cycle.
    pub phase: RelayPhase,
    /// The batch of the current cycle.
    pub batch: Seq<OutboxMessage>,
    /// How many messages of the batch the publisher has answered for.
    pub cursor: nat,
    /// The identifiers of the messages that went out, in batch order.
    pub delivered: Seq<i64>,
}

impl RelayModel {
    /// A relay that waits for its first trigger.
    pub open spec fn initial(limit: Option<u32>) -> RelayModel {
        RelayModel { limit, phase: RelayPhase::Idle, batch: Seq::empty(), cursor: 0, delivered: Seq::empty() }
    }

    /// The relay in another phase, with the same batch and progress.
    pub open spec fn in_phase(self, phase: RelayPhase) -> RelayModel {
        RelayModel {
            limit: self.limit,
            phase,
            batch: self.batch,
            cursor: self.cursor,
            delivered: self.delivered,
        }
    }

    /// The relay at the start of a cycle: it has asked for a claim and holds
    /// nothing of the cycle before.
    pub open spec fn claiming(self) -> RelayModel {
        RelayModel {
            limit: self.limit,
            phase: RelayPhase::Claiming,
            batch: Seq::empty(),
            cursor: 0,
            delivered: Seq::empty(),
        }
    }

    /// Whether the claimed batch may have left rows behind: a limit is set
    /// and the batch is as long as the limit.
    pub open spec fn batch_is_full(self) -> bool {
        self.limit matches Some(l) && self.batch.len() == l
    }

    /// A trigger starts a cycle when the relay is idle.
    pub open spec fn on_trigger(self) -> (RelayModel, RelayAction) {
        if self.phase == RelayPhase::Idle {
            (self.claiming(), RelayAction::Claim { limit: self.limit })
        } else {
            (self, RelayAction::Ignore)
        }
    }

    /// A claimed batch goes to the publisher message by message, from the
    /// first. An empty batch is committed at once, which ends the claim.
    pub open spec fn on_claimed(self, batch: Seq<OutboxMessage>) -> (RelayModel, RelayAction) {
        if self.phase != RelayPhase::Claiming {
            (self, RelayAction::Ignore)
        } else {
            let taken = RelayModel {
                limit: self.limit,
                phase: if batch.len() == 0 {
                    RelayPhase::Committing
                } else {
                    RelayPhase::Publishing
                },
                batch,
                cursor: 0,
                delivered: Seq::empty(),
            };
            (
                taken,
                if batch.len() == 0 {
                    RelayAction::Commit
                } else {
                    RelayAction::Publish { index: 0 }
                },
            )
        }
    }

    /// The publisher's answer for the message at the cursor. A success adds
    /// the message's identifier to the delivered ones; a failure adds
    /// nothing and stops nothing. Then the next message goes out; after the
    /// last one the delivered rows are marked, or, where none went out, the
    /// claim is committed as it is.
    pub open spec fn on_published(self, ok: bool) -> (RelayModel, RelayAction) {
        if self.phase != RelayPhase::Publishing || self.cursor >= self.batch.len() {
            (self, RelayAction::Ignore)
        } else {
            let delivered = if ok {
                self.delivered.push(self.batch[self.cursor as int].id)
            } else {
                self.delivered
            };
            let cursor = self.cursor + 1;
            let phase = if cursor < self.batch.len() {
                RelayPhase::Publishing
            } else if delivered.len() > 0 {
                RelayPhase::Marking
            } else {
                RelayPhase::Committing
            };
            (
                RelayModel { limit: self.limit, phase, batch: self.batch, cursor, delivered },
                if cursor < self.batch.len() {
                    RelayAction::Publish { index: cursor as usize }
                } else if delivered.len() > 0 {
                    RelayAction::MarkProcessed
                } else {
                    RelayAction::Commit
                },
            )
        }
    }

    /// Once the delivered rows are marked, the claim is committed.
    pub open spec fn on_marked(self) -> (RelayModel, RelayAction) {
        if self.phase == RelayPhase::Marking {
            (self.in_phase(RelayPhase::Committing), RelayAction::Commit)
        } else {
            (self, RelayAction::Ignore)
        }
    }

    /// After the commit the relay claims again at once where the batch was
    /// full, and waits for the next trigger where it was not.
    pub open spec fn on_committed(self) -> (RelayModel, RelayAction) {
        if self.phase != RelayPhase::Committing {
            (self, RelayAction::Ignore)
        } else if self.batch_is_full() {
            (self.claiming(), RelayAction::Claim { limit: self.limit })
        } else {
            (self.in_phase(RelayPhase::Idle), RelayAction::AwaitTrigger)
        }
    }

    /// A failure of the store in the middle of a cycle stops the relay.
    pub open spec fn on_store_failure(self) -> (RelayModel, RelayAction) {
        if self.phase == RelayPhase::Claiming || self.phase == RelayPhase::Publishing || self.phase
            == RelayPhase::Marking || self.phase == RelayPhase::Committing {
            (self.in_phase(RelayPhase::Stopped), RelayAction::Stop)
        } else {
            (self, RelayAction::Ignore)
        }
    }

    /// One transition of the relay.
    pub open spec fn step(self, event: RelayEvent) -> (RelayModel, RelayAction) {
        match event {
            RelayEvent::Triggered => self.on_trigger(),
            RelayEvent::Claimed(batch) => self.on_claimed(batch@),
            RelayEvent::Published { ok } => self.on_published(ok),
            RelayEvent::Marked => self.on_marked(),
            RelayEvent::Committed => self.on_committed(),
            RelayEvent::StoreFailed => self.on_store_failure(),
        }
    }
}

/// The state of one relay loop.
pub struct RelayLoop {
    limit: Option<u32>,
    phase: RelayPhase,
    batch: Vec<OutboxMessage>,
    cursor: usize,
    delivered: Vec<i64>,
}

impl View for RelayLoop {
    type V = RelayModel;

    closed spec fn view(&self) -> RelayModel {
        RelayModel {
            limit: self.limit,
            phase: self.phase,
            batch: self.batch@,
            cursor: self.cursor as nat,
            delivered: self.delivered@,
        }
    }
}

impl RelayLoop {
    /// A relay that claims at most `limit` rows at a time, or every pending
    /// row where `limit` is `None`. It waits for its first trigger.
    pub fn new(limit: Option<u32>) -> (relay: Self)
        ensures
            relay@ == RelayModel::initial(limit),
    {
        RelayLoop { limit, phase: RelayPhase::Idle, batch: Vec::new(), cursor: 0, delivered: Vec::new() }
    }

    /// Where the relay stands in its cycle.
    pub fn phase(&self) -> (phase: RelayPhase)
        ensures
            phase == self@.phase,
    {
        self.phase
    }

    /// The most rows that one claim takes, if bounded.
    pub fn limit(&self) -> (limit: Option<u32>)
        ensures
            limit == self@.limit,
    {
        self.limit
    }

    /// The message of the current batch at `index`, if the batch is that
    /// long.
    pub fn message(&self, index: usize) -> (message: Option<&OutboxMessage>)
        ensures
            match message {
                Some(m) => index < self@.batch.len() && *m == self@.batch[index as int],
                None => index >= self@.batch.len(),
            },
    {
        if index < self.batch.len() {
            Some(&self.batch[index])
        } else {
            None
        }
    }

    /// The identifiers of the messages of the current batch that went out,
    /// in batch order.
    pub fn delivered(&self) -> (ids: &Vec<i64>)
        ensures
            ids@ == self@.delivered,
    {
        &self.delivered
    }

    /// Takes the firing of the trigger.
    pub fn on_trigger(&mut self) -> (action: RelayAction)
        ensures
            (final(self)@, action) == old(self)@.on_trigger(),
    {
        match self.phase {
            RelayPhase::Idle => {
                self.start_claim();
                RelayAction::Claim { limit: self.limit }
            },
            _ => RelayAction::Ignore,
        }
    }

    fn start_claim(&mut self)
        ensures
            final(self)@ == old(self)@.claiming(),
    {
        self.phase = RelayPhase::Claiming;
        self.batch = Vec::new();
        self.cursor = 0;
        self.delivered = Vec::new();
    }

    /// Takes the batch that the store returned for the claim.
    pub fn on_claimed(&mut self, batch: Vec<OutboxMessage>) -> (action: RelayAction)
        ensures
            (final(self)@, action) == old(self)@.on_claimed(batch@),
    {
        match self.phase {
            RelayPhase::Claiming => {
                let empty: bool = batch.len() == 0;
                self.batch = batch;
                self.cursor = 0;
                self.delivered = Vec::new();
                if empty {
                    self.phase = RelayPhase::Committing;
                    RelayAction::Commit
                } else {
                    self.phase = RelayPhase::Publishing;
                    RelayAction::Publish { index: 0 }
                }
            },
            _ => RelayAction::Ignore,
        }
    }

    /// Takes the publisher's answer for the message that was last handed to
    /// it.
    pub fn on_published(&mut self, ok: bool) -> (action: RelayAction)
        ensures
            (final(self)@, action) == old(self)@.on_published(ok),
    {
        match self.phase {
            RelayPhase::Publishing => {
                if self.cursor >= self.batch.len() {
                    return RelayAction::Ignore;
                }
                if ok {
                    self.delivered.push(self.batch[self.cursor].id);
                }
                self.cursor = self.cursor + 1;
                if self.cursor < self.batch.len() {
                    RelayAction::Publish { index: self.cursor }
                } else if self.delivered.len() > 0 {
                    self.phase = RelayPhase::Marking;
                    RelayAction::MarkProcessed
                } else {
                    self.phase = RelayPhase::Committing;
                    RelayAction::Commit
                }
            },
            _ => RelayAction::Ignore,
        }
    }

    /// Takes the store's word that the delivered rows are marked.
    pub fn on_marked(&mut self) -> (action: RelayAction)
        ensures
            (final(self)@, action) == old(self)@.on_marked(),
    {
        match self.phase {
            RelayPhase::Marking => {
                self.phase = RelayPhase::Committing;
                RelayAction::Commit
            },
            _ => RelayAction::Ignore,
        }
    }

    /// Takes the store's word that the claim is committed.
    pub fn on_committed(&mut self) -> (action: RelayAction)
        ensures
            (final(self)@, action) == old(self)@.on_committed(),
    {
        match self.phase {
            RelayPhase::Committing => {
                let full: bool = match self.limit {
                    Some(l) => self.batch.len() == l as usize,
                    None => false,
                };
                if full {
                    self.start_claim();
                    RelayAction::Claim { limit: self.limit }
                } else {
                    self.phase = RelayPhase::Idle;
                    RelayAction::AwaitTrigger
                }
            },
            _ => RelayAction::Ignore,
        }
    }

    /// Takes a failure of the store.
    pub fn on_store_failure(&mut self) -> (action: RelayAction)
        ensures
            (final(self)@, action) == old(self)@.on_store_failure(),
    {
        match self.phase {
            RelayPhase::Idle => RelayAction::Ignore,
            RelayPhase::Stopped => RelayAction::Ignore,
            _ => {
                self.phase = RelayPhase::Stopped;
                RelayAction::Stop
            },
        }
    }

    /// Takes one event and says what the driver must do.
    pub fn step(&mut self, event: RelayEvent) -> (action: RelayAction)
        ensures
            (final(self)@, action) == old(self)@.step(event),
    {
        match event {
            RelayEvent::Triggered => self.on_trigger(),
            RelayEvent::Claimed(batch) => self.on_claimed(batch),
            RelayEvent::Published { ok } => self.on_published(ok),
            RelayEvent::Marked => self.on_marked(),
            RelayEvent::Committed => self.on_committed(),
            RelayEvent::StoreFailed => self.on_store_failure(),
        }
    }
}

/// The identifiers of the messages of `batch` whose publisher's answer, at
/// the same position in `answers`, was a success; in batch order.
pub open spec fn delivered_ids(batch: Seq<OutboxMessage>, answers: Seq<bool>) -> Seq<i64>
    decreases answers.len(),
{
    if answers.len() == 0 {
        Seq::empty()
    } else {
        let before = delivered_ids(batch, answers.drop_last());
        if answers.last() && answers.len() <= batch.len() {
            before.push(batch[answers.len() - 1].id)
        } else {
            before
        }
    }
}

/// The relay after it took the publisher's `answers`, one after the other.
pub open spec fn after_answers(m: RelayModel, answers: Seq<bool>) -> RelayModel
    decreases answers.len(),
{
    if answers.len() == 0 {
        m
    } else {
        after_answers(m, answers.drop_last()).on_published(answers.last()).0
    }
}

/// The relay that was triggered while idle and got `batch` for its claim.
pub open spec fn cycle_start(limit: Option<u32>, batch: Seq<OutboxMessage>) -> RelayModel {
    RelayModel::initial(limit).on_trigger().0.on_claimed(batch).0
}

/// An identifier is among the delivered ones exactly when the message at
/// some position has it and the answer at that position was a success.
pub proof fn lemma_delivered_ids_are_successes(
    batch: Seq<OutboxMessage>,
    answers: Seq<bool>,
    id: i64,
)
    requires
        answers.len() <= batch.len(),
    ensures
        delivered_ids(batch, answers).contains(id) <==> exists|k: int|
            0 <= k < answers.len() && answers[k] && (#[trigger] batch[k]).id == id,
    decreases answers.len(),
{
    let ids = delivered_ids(batch, answers);
    if answers.len() > 0 {
        let front = answers.drop_last();
        let last = answers.len() - 1;
        let before = delivered_ids(batch, front);
        lemma_delivered_ids_are_successes(batch, front, id);
        if ids.contains(id) {
            let n = choose|n: int| 0 <= n < ids.len() && ids[n] == id;
            if n < before.len() {
                assert(before[n] == id);
                assert(before.contains(id));
                let k = choose|k: int| 0 <= k < front.len() && front[k] && (#[trigger] batch[k]).id == id;
                assert(answers[k] && batch[k].id == id);
            } else {
                assert(answers[last] && batch[last].id == id);
            }
        }
        if exists|k: int| 0 <= k < answers.len() && answers[k] && (#[trigger] batch[k]).id == id {
            let k = choose|k: int| 0 <= k < answers.len() && answers[k] && (#[trigger] batch[k]).id == id;
            if k < last {
                assert(front[k] && batch[k].id == id);
                assert(before.contains(id));
                let n = choose|n: int| 0 <= n < before.len() && before[n] == id;
                assert(ids[n] == id);
            } else {
                assert(ids[ids.len() - 1] == id);
            }
        }
    }
}

/// Success-gated marking, in order. A relay that got a batch hands its
/// messages to the publisher one by one from the first; whatever the
/// answers, none stops it; and once every message is answered for, the
/// identifiers it will mark are those of the messages that went out, no
/// others. With none delivered it commits without marking.
pub proof fn lemma_relay_marks_what_went_out(
    limit: Option<u32>,
    batch: Seq<OutboxMessage>,
    answers: Seq<bool>,
)
    requires
        0 < batch.len() <= usize::MAX,
        answers.len() <= batch.len(),
    ensures
        cycle_start(limit, batch).phase == RelayPhase::Publishing,
        RelayModel::initial(limit).on_trigger().0.on_claimed(batch).1 == (RelayAction::Publish {
            index: 0,
        }),
        after_answers(cycle_start(limit, batch), answers) == (RelayModel {
            limit,
            phase: if answers.len() < batch.len() {
                RelayPhase::Publishing
            } else if delivered_ids(batch, answers).len() > 0 {
                RelayPhase::Marking
            } else {
                RelayPhase::Committing
            },
            batch,
            cursor: answers.len(),
            delivered: delivered_ids(batch, answers),
        }),
        answers.len() > 0 ==> after_answers(cycle_start(limit, batch), answers.drop_last()).on_published(
            answers.last(),
        ).1 == if answers.len() < batch.len() {
            RelayAction::Publish { index: answers.len() as usize }
        } else if delivered_ids(batch, answers).len() > 0 {
            RelayAction::MarkProcessed
        } else {
            RelayAction::Commit
        },
    decreases answers.len(),
{
    if answers.len() > 0 {
        lemma_relay_marks_what_went_out(limit, batch, answers.drop_last());
    }
}

/// No row is marked without a successful publish. Where a relay claims from
/// a well-formed table, marks the identifiers that it delivered and
/// commits, a row is processed afterwards only if the claim took it and the
/// publisher's answer for its message was a success; every other row is
/// what it was before the cycle, so what failed to go out is pending and
/// free for the next cycle. And every message that went out has its row
/// processed.
pub proof fn lemma_cycle_processes_what_went_out(
    rows: Seq<OutboxRow>,
    limit: Option<u32>,
    claim: u64,
    answers: Seq<bool>,
    now: i64,
)
    requires
        table_wf(rows),
        forall|i: int| 0 <= i < rows.len() ==> (#[trigger] rows[i]).held_by != Some(claim),
        answers.len() == batch_of(rows, limit).len(),
    ensures
        ({
            let batch = batch_of(rows, limit);
            let ids = delivered_ids(batch, answers);
            let done = after_commit(after_mark(after_claim(rows, limit, claim), claim, ids, now), claim);
            &&& done.len() == rows.len()
            &&& forall|i: int|
                0 <= i < rows.len() ==> #[trigger] done[i] == rows[i] || (done[i] == rows[i].marked(
                    now,
                ).committed() && exists|k: int|
                    0 <= k < batch.len() && answers[k] && #[trigger] batch[k] == rows[i].message)
            &&& forall|k: int|
                0 <= k < batch.len() && answers[k] ==> exists|i: int|
                    0 <= i < rows.len() && rows[i].message == #[trigger] batch[k] && #[trigger] done[i]
                        == rows[i].marked(now).committed()
        }),
{
    let batch = batch_of(rows, limit);
    let ids = delivered_ids(batch, answers);
    let done = after_commit(after_mark(after_claim(rows, limit, claim), claim, ids, now), claim);
    lemma_commit_processes_marked_rows(rows, limit, claim, ids, now);
    assert forall|i: int| 0 <= i < rows.len() implies #[trigger] done[i] == rows[i] || (done[i]
        == rows[i].marked(now).committed() && exists|k: int|
        0 <= k < batch.len() && answers[k] && #[trigger] batch[k] == rows[i].message) by {
        if claims_row(rows, limit, i) && ids.contains(rows[i].message.id) {
            lemma_delivered_ids_are_successes(batch, answers, rows[i].message.id);
            let k = choose|k: int|
                0 <= k < answers.len() && answers[k] && (#[trigger] batch[k]).id == rows[i].message.id;
            lemma_batch_id_tells_row(rows, limit, k, i);
            assert(answers[k] && batch[k] == rows[i].message);
        }
    }
    assert forall|k: int| 0 <= k < batch.len() && answers[k] implies exists|i: int|
        0 <= i < rows.len() && rows[i].message == #[trigger] batch[k] && #[trigger] done[i]
            == rows[i].marked(now).committed() by {
        crate::outbox::lemma_claim_takes_free_rows(rows, limit, claim);
        let i = choose|i: int|
            {
                &&& 0 <= i < rows.len()
                &&& rows[i].claimable()
                &&& rows[i].message == #[trigger] batch[k]
                &&& #[trigger] after_claim(rows, limit, claim)[i] == rows[i].held(claim)
            };
        lemma_batch_id_tells_row(rows, limit, k, i);
        lemma_delivered_ids_are_successes(batch, answers, rows[i].message.id);
        assert(answers[k] && batch[k].id == rows[i].message.id);
        assert(ids.contains(rows[i].message.id));
        assert(done[i] == rows[i].marked(now).committed());
    }
}

/// A cycle without a limit in which every publish succeeds, on a table that
/// no other claim holds rows of, leaves no row pending.
pub proof fn lemma_successful_cycle_drains(
    rows: Seq<OutboxRow>,
    claim: u64,
    answers: Seq<bool>,
    now: i64,
)
    requires
        table_wf(rows),
        forall|i: int| 0 <= i < rows.len() ==> (#[trigger] rows[i]).held_by is None,
        answers.len() == batch_of(rows, None).len(),
        forall|k: int| 0 <= k < answers.len() ==> answers[k],
    ensures
        ({
            let ids = delivered_ids(batch_of(rows, None), answers);
            let done = after_commit(after_mark(after_claim(rows, None, claim), claim, ids, now), claim);
            forall|i: int| 0 <= i < rows.len() ==> !(#[trigger] done[i]).pending()
        }),
{
    let batch = batch_of(rows, None);
    let ids = delivered_ids(batch, answers);
    let done = after_commit(after_mark(after_claim(rows, None, claim), claim, ids, now), claim);
    lemma_commit_processes_marked_rows(rows, None, claim, ids, now);
    assert forall|i: int| 0 <= i < rows.len() implies !(#[trigger] done[i]).pending() by {
        if rows[i].pending() {
            assert(claims_row(rows, None, i));
            lemma_claimed_row_is_in_batch(rows, None, i);
            let k = choose|k: int| 0 <= k < batch.len() && #[trigger] batch[k] == rows[i].message;
            lemma_delivered_ids_are_successes(batch, answers, rows[i].message.id);
            assert(answers[k] && batch[k].id == rows[i].message.id);
        }
    }
}


} // verus!
