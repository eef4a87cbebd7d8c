//! The outbox table and its claim protocol.
//!
//! [`OutboxStore`] keeps the rows in memory, ordered by their time of
//! creation, and gives them the semantics that the relay rests on: a claim
//! locks the pending rows it returns and passes over rows that another claim
//! holds; marking and committing make rows processed; aborting gives them
//! back untouched.

use vstd::prelude::*;

verus! {

/// One row of the outbox table as a relay sees it.
#[derive(Debug, PartialEq, Eq)]
pub struct OutboxMessage {
    /// The surrogate key, unique in the table.
    pub id: i64,
    /// The queue or routing key that the message goes to.
    pub topic: String,
    /// The serialized event.
    pub payload: String,
    /// When the row was inserted.
    pub created_at: i64,
    /// When the row was delivered; `None` while it is pending.
    pub processed_at: Option<i64>,
}

impl Clone for OutboxMessage {
    fn clone(&self) -> (copy: Self)
        ensures
            copy == *self,
    {
        OutboxMessage {
            id: self.id,
            topic: self.topic.clone(),
            payload: self.payload.clone(),
            created_at: self.created_at,
            processed_at: self.processed_at,
        }
    }
}

/// A row together with the state of the claim that holds it.
pub struct OutboxRow {
    /// The row's columns.
    pub message: OutboxMessage,
    /// The claim that holds the row's lock, if one does.
    pub held_by: Option<u64>,
    /// The processed time that the holding claim has written and not yet
    /// committed.
    pub staged: Option<i64>,
}

impl OutboxRow {
    /// A row that no claim holds.
    pub open spec fn free(message: OutboxMessage) -> OutboxRow {
        OutboxRow { message, held_by: None, staged: None }
    }

    /// Whether the row is still to be delivered.
    pub open spec fn pending(self) -> bool {
        self.message.processed_at is None
    }

    /// Whether a new claim may take the row: it is pending and no claim
    /// holds it.
    pub open spec fn claimable(self) -> bool {
        self.pending() && self.held_by is None
    }

    /// The row once `claim` has locked it.
    pub open spec fn held(self, claim: u64) -> OutboxRow {
        OutboxRow { message: self.message, held_by: Some(claim), staged: self.staged }
    }

    /// The row once its holder has written `now` as its processed time.
    pub open spec fn marked(self, now: i64) -> OutboxRow {
        OutboxRow { message: self.message, held_by: self.held_by, staged: Some(now) }
    }

    /// The row once its holder has committed: what was staged is its
    /// processed time, and the lock is gone.
    pub open spec fn committed(self) -> OutboxRow {
        OutboxRow::free(
            OutboxMessage {
                id: self.message.id,
                topic: self.message.topic,
                payload: self.message.payload,
                created_at: self.message.created_at,
                processed_at: match self.staged {
                    Some(at) => Some(at),
                    None => self.message.processed_at,
                },
            },
        )
    }

    /// The row once its holder has aborted: as it was before the claim.
    pub open spec fn released(self) -> OutboxRow {
        OutboxRow::free(self.message)
    }
}

/// What holds of the rows of every store: they stand in the order of their
/// creation, no identifier occurs twice, only a held row has a staged time,
/// and only a pending row is held.
pub open spec fn table_wf(rows: Seq<OutboxRow>) -> bool {
    &&& forall|i: int, j: int|
        0 <= i < j < rows.len() ==> #[trigger] rows[i].message.created_at
            <= #[trigger] rows[j].message.created_at
    &&& forall|i: int, j: int|
        0 <= i < j < rows.len() ==> #[trigger] rows[i].message.id != #[trigger] rows[j].message.id
    &&& forall|i: int|
        0 <= i < rows.len() ==> ((#[trigger] rows[i]).staged is Some ==> rows[i].held_by is Some)
    &&& forall|i: int|
        0 <= i < rows.len() ==> ((#[trigger] rows[i]).held_by is Some ==> rows[i].pending())
}

/// The rows created no later than `created_at`.
pub open spec fn not_later(rows: Seq<OutboxRow>, created_at: i64) -> Seq<OutboxRow> {
    rows.filter(|row: OutboxRow| row.message.created_at <= created_at)
}

/// The table with `message` as a new free row, behind every row created no
/// later than it.
pub open spec fn after_insert(rows: Seq<OutboxRow>, message: OutboxMessage) -> Seq<OutboxRow> {
    rows.insert(not_later(rows, message.created_at).len() as int, OutboxRow::free(message))
}

/// The rows that a new claim may take, in table order.
pub open spec fn claimable_rows(rows: Seq<OutboxRow>) -> Seq<OutboxRow> {
    rows.filter(|row: OutboxRow| row.claimable())
}

/// The first `limit` items of `items`, or all of them where there is no
/// limit or there are no more than `limit`.
pub open spec fn cut<A>(items: Seq<A>, limit: Option<u32>) -> Seq<A> {
    match limit {
        Some(l) => if l < items.len() {
            items.take(l as int)
        } else {
            items
        },
        None => items,
    }
}

/// The messages that a claim with the given limit returns: the claimable
/// rows in the order of their creation, cut to the limit.
pub open spec fn batch_of(rows: Seq<OutboxRow>, limit: Option<u32>) -> Seq<OutboxMessage> {
    cut(claimable_rows(rows), limit).map_values(|row: OutboxRow| row.message)
}

/// Whether a claim with the given limit takes the row at index `i`: the row
/// is claimable, and fewer than `limit` claimable rows stand before it.
pub open spec fn claims_row(rows: Seq<OutboxRow>, limit: Option<u32>, i: int) -> bool {
    &&& rows[i].claimable()
    &&& limit matches Some(l) ==> claimable_rows(rows.take(i)).len() < l
}

/// The table after `claim` took its batch: the rows it takes are held by it,
/// the others are as they were.
pub open spec fn after_claim(rows: Seq<OutboxRow>, limit: Option<u32>, claim: u64) -> Seq<
    OutboxRow,
> {
    Seq::new(
        rows.len(),
        |i: int|
            if claims_row(rows, limit, i) {
                rows[i].held(claim)
            } else {
                rows[i]
            },
    )
}

/// The table after `claim` wrote `now` as the processed time of the rows it
/// holds whose identifier is among `ids`.
pub open spec fn after_mark(rows: Seq<OutboxRow>, claim: u64, ids: Seq<i64>, now: i64) -> Seq<
    OutboxRow,
> {
    Seq::new(
        rows.len(),
        |i: int|
            if rows[i].held_by == Some(claim) && ids.contains(rows[i].message.id) {
                rows[i].marked(now)
            } else {
                rows[i]
            },
    )
}

/// The table after `claim` committed.
pub open spec fn after_commit(rows: Seq<OutboxRow>, claim: u64) -> Seq<OutboxRow> {
    Seq::new(
        rows.len(),
        |i: int|
            if rows[i].held_by == Some(claim) {
                rows[i].committed()
            } else {
                rows[i]
            },
    )
}

/// The table after `claim` aborted.
pub open spec fn after_abort(rows: Seq<OutboxRow>, claim: u64) -> Seq<OutboxRow> {
    Seq::new(
        rows.len(),
        |i: int|
            if rows[i].held_by == Some(claim) {
                rows[i].released()
            } else {
                rows[i]
            },
    )
}

/// Why the store refused an operation.
#[derive(Clone, Copy, Debug, PartialEq, Eq, Structural)]
pub enum StoreError {
    /// Every identifier has been given out.
    IdsExhausted,
    /// Every claim token has been given out.
    ClaimsExhausted,
}

/// What a claim returns: the token of the open claim, and the messages that
/// it holds, in the order of their creation.
#[derive(Debug)]
pub struct Claim {
    /// The token that names the claim when it marks, commits or aborts.
    pub token: u64,
    /// The messages that the claim holds.
    pub messages: Vec<OutboxMessage>,
}

/// The outbox table.
pub struct OutboxStore {
    rows: Vec<OutboxRow>,
    next_id: i64,
    next_claim: u64,
}

impl View for OutboxStore {
    type V = Seq<OutboxRow>;

    closed spec fn view(&self) -> Seq<OutboxRow> {
        self.rows@
    }
}

impl OutboxStore {
    /// The identifier that the next inserted row gets.
    pub closed spec fn next_id(&self) -> i64 {
        self.next_id
    }

    /// The token that the next claim gets.
    pub closed spec fn next_claim(&self) -> u64 {
        self.next_claim
    }

    /// The store's invariant: its rows are a well-formed table, every
    /// identifier in it was given out before the next one, and so was every
    /// token that holds a row.
    pub open spec fn wf(&self) -> bool {
        &&& table_wf(self@)
        &&& forall|i: int| 0 <= i < self@.len() ==> (#[trigger] self@[i]).message.id < self.next_id()
        &&& forall|i: int|
            0 <= i < self@.len() ==> ((#[trigger] self@[i]).held_by matches Some(claim) ==> claim
                < self.next_claim())
    }

    /// An empty table whose first row will get identifier 1.
    pub fn new() -> (store: Self)
        ensures
            store.wf(),
            store@ == Seq::<OutboxRow>::empty(),
            store.next_id() == 1,
            store.next_claim() == 0,
    {
        OutboxStore { rows: Vec::new(), next_id: 1, next_claim: 0 }
    }

    /// An empty table that gives out identifiers from `first_id` on and claim
    /// tokens from `first_claim` on.
    pub fn starting_at(first_id: i64, first_claim: u64) -> (store: Self)
        ensures
            store.wf(),
            store@ == Seq::<OutboxRow>::empty(),
            store.next_id() == first_id,
            store.next_claim() == first_claim,
    {
        OutboxStore { rows: Vec::new(), next_id: first_id, next_claim: first_claim }
    }

    /// The number of rows in the table.
    pub fn len(&self) -> (n: usize)
        ensures
            n == self@.len(),
    {
        self.rows.len()
    }

    /// Inserts a pending row with the next identifier and returns that
    /// identifier. The row goes behind every row created no later than it, so
    /// the table stays in the order of creation. Fails, and changes nothing,
    /// exactly when no identifier is left.
    pub fn insert(&mut self, topic: String, payload: String, created_at: i64) -> (outcome: Result<
        i64,
        StoreError,
    >)
        requires
            old(self).wf(),
        ensures
            final(self).wf(),
            final(self).next_claim() == old(self).next_claim(),
            match outcome {
                Ok(id) => {
                    &&& old(self).next_id() < i64::MAX
                    &&& id == old(self).next_id()
                    &&& final(self).next_id() == id + 1
                    &&& final(self)@ == after_insert(
                        old(self)@,
                        OutboxMessage { id, topic, payload, created_at, processed_at: None },
                    )
                },
                Err(e) => {
                    &&& old(self).next_id() == i64::MAX
                    &&& e == StoreError::IdsExhausted
                    &&& final(self)@ == old(self)@
                    &&& final(self).next_id() == old(self).next_id()
                },
            },
    {
        if self.next_id == i64::MAX {
            return Err(StoreError::IdsExhausted);
        }
        let id: i64 = self.next_id;
        let mut slot: usize = self.rows.len();
        while slot > 0 && self.rows[slot - 1].message.created_at > created_at
            invariant
                slot <= self.rows.len(),
                forall|j: int|
                    slot <= j < self.rows.len() ==> (#[trigger] self.rows@[j]).message.created_at
                        > created_at,
            decreases slot,
        {
            slot = slot - 1;
        }
        let message = OutboxMessage { id, topic, payload, created_at, processed_at: None };
        proof {
            let rows = self.rows@;
            assert forall|j: int| 0 <= j < slot implies (#[trigger] rows[j]).message.created_at
                <= created_at by {
                assert(rows[j].message.created_at <= rows[slot - 1].message.created_at);
            }
            lemma_not_later_is_prefix(rows, created_at, slot as int);
            lemma_insert_keeps_table(rows, message, slot as int);
        }
        self.rows.insert(slot, OutboxRow { message, held_by: None, staged: None });
        self.next_id = id + 1;
        proof {
            let rows = old(self).rows@;
            let row = OutboxRow::free(message);
            assert forall|i: int| 0 <= i < self@.len() implies (#[trigger] self@[i]).message.id
                < self.next_id() by {
                if i < slot {
                    assert(self@[i] == rows[i]);
                } else if i == slot {
                    assert(self@[i] == row);
                } else {
                    assert(self@[i] == rows[i - 1]);
                }
            }
            assert forall|i: int| 0 <= i < self@.len() implies ((#[trigger] self@[i]).held_by matches Some(
                claim,
            ) ==> claim < self.next_claim()) by {
                if i < slot {
                    assert(self@[i] == rows[i]);
                } else if i == slot {
                    assert(self@[i] == row);
                } else {
                    assert(self@[i] == rows[i - 1]);
                }
            }
        }
        Ok(id)
    }

    /// Opens a claim and takes its batch: the pending rows that no claim
    /// holds, in the order of their creation, up to `limit` where one is
    /// given. The rows taken are held by the new claim until it commits or
    /// aborts; rows that another claim holds are passed over. Fails, and
    /// changes nothing, exactly when no claim token is left.
    pub fn claim_batch(&mut self, limit: Option<u32>) -> (outcome: Result<Claim, StoreError>)
        requires
            old(self).wf(),
        ensures
            final(self).wf(),
            final(self).next_id() == old(self).next_id(),
            match outcome {
                Ok(claim) => {
                    &&& old(self).next_claim() < u64::MAX
                    &&& claim.token == old(self).next_claim()
                    &&& final(self).next_claim() == claim.token + 1
                    &&& claim.messages@ == batch_of(old(self)@, limit)
                    &&& final(self)@ == after_claim(old(self)@, limit, claim.token)
                    &&& forall|k: int, m: int|
                        0 <= k < m < claim.messages@.len() ==> #[trigger] claim.messages@[k].created_at
                            <= #[trigger] claim.messages@[m].created_at
                },
                Err(e) => {
                    &&& old(self).next_claim() == u64::MAX
                    &&& e == StoreError::ClaimsExhausted
                    &&& final(self)@ == old(self)@
                    &&& final(self).next_claim() == old(self).next_claim()
                },
            },
    {
        if self.next_claim == u64::MAX {
            return Err(StoreError::ClaimsExhausted);
        }
        let token: u64 = self.next_claim;
        let ghost before = self.rows@;
        let mut messages: Vec<OutboxMessage> = Vec::new();
        let mut i: usize = 0;
        proof {
            assert(before.take(0) =~= Seq::<OutboxRow>::empty());
            reveal(Seq::filter);
            assert(batch_of(before.take(0), limit) =~= Seq::<OutboxMessage>::empty());
        }
        while i < self.rows.len()
            invariant
                i <= before.len(),
                self.rows@.len() == before.len(),
                self.next_id == old(self).next_id,
                self.next_claim == old(self).next_claim,
                token == self.next_claim,
                messages@ == batch_of(before.take(i as int), limit),
                forall|j: int| 0 <= j < i ==> #[trigger] self.rows@[j] == after_claim(before, limit, token)[j],
                forall|j: int| i <= j < before.len() ==> #[trigger] self.rows@[j] == before[j],
            decreases before.len() - i,
        {
            let within: bool = match limit {
                Some(l) => messages.len() < l as usize,
                None => true,
            };
            proof {
                assert(before.take(i + 1).drop_last() =~= before.take(i as int));
                lemma_batch_push(before.take(i + 1), limit);
                lemma_claims_row_prefix(before, limit, i + 1, i as int);
            }
            if within && self.rows[i].message.processed_at.is_none() && self.rows[i].held_by.is_none() {
                let message = self.rows[i].message.clone();
                self.rows[i].held_by = Some(token);
                messages.push(message);
            }
            i = i + 1;
        }
        self.next_claim = token + 1;
        proof {
            assert(before.take(before.len() as int) =~= before);
            assert(self@ =~= after_claim(before, limit, token));
            lemma_batch_in_order(before, limit);
            lemma_claim_keeps_table(before, limit, token);
        }
        Ok(Claim { token, messages })
    }

    /// Writes `now` as the processed time of the rows that `claim` holds and
    /// whose identifier is among `ids`. Nothing is visible to others before
    /// the claim commits, and identifiers of rows that the claim does not
    /// hold are passed over.
    pub fn mark_processed(&mut self, claim: u64, ids: &Vec<i64>, now: i64)
        requires
            old(self).wf(),
        ensures
            final(self).wf(),
            final(self).next_id() == old(self).next_id(),
            final(self).next_claim() == old(self).next_claim(),
            final(self)@ == after_mark(old(self)@, claim, ids@, now),
    {
        let ghost before = self.rows@;
        let mut i: usize = 0;
        while i < self.rows.len()
            invariant
                i <= before.len(),
                self.rows@.len() == before.len(),
                self.next_id == old(self).next_id,
                self.next_claim == old(self).next_claim,
                forall|j: int| 0 <= j < i ==> #[trigger] self.rows@[j] == after_mark(before, claim, ids@, now)[j],
                forall|j: int| i <= j < before.len() ==> #[trigger] self.rows@[j] == before[j],
            decreases before.len() - i,
        {
            if holds(&self.rows[i], claim) && contains_id(ids, self.rows[i].message.id) {
                self.rows[i].staged = Some(now);
            }
            i = i + 1;
        }
        proof {
            assert(self@ =~= after_mark(before, claim, ids@, now));
        }
    }

    /// Ends `claim` for good: every row it holds is free again, and those it
    /// marked are processed at the time it wrote.
    pub fn commit(&mut self, claim: u64)
        requires
            old(self).wf(),
        ensures
            final(self).wf(),
            final(self).next_id() == old(self).next_id(),
            final(self).next_claim() == old(self).next_claim(),
            final(self)@ == after_commit(old(self)@, claim),
    {
        let ghost before = self.rows@;
        let mut i: usize = 0;
        while i < self.rows.len()
            invariant
                i <= before.len(),
                self.rows@.len() == before.len(),
                self.next_id == old(self).next_id,
                self.next_claim == old(self).next_claim,
                forall|j: int| 0 <= j < i ==> #[trigger] self.rows@[j] == after_commit(before, claim)[j],
                forall|j: int| i <= j < before.len() ==> #[trigger] self.rows@[j] == before[j],
            decreases before.len() - i,
        {
            if holds(&self.rows[i], claim) {
                let staged: Option<i64> = self.rows[i].staged;
                if staged.is_some() {
                    self.rows[i].message.processed_at = staged;
                }
                self.rows[i].held_by = None;
                self.rows[i].staged = None;
            }
            i = i + 1;
        }
        proof {
            assert(self@ =~= after_commit(before, claim));
        }
    }

    /// Gives up `claim`: every row it holds is free again and pending as
    /// before, whatever the claim had marked.
    pub fn abort(&mut self, claim: u64)
        requires
            old(self).wf(),
        ensures
            final(self).wf(),
            final(self).next_id() == old(self).next_id(),
            final(self).next_claim() == old(self).next_claim(),
            final(self)@ == after_abort(old(self)@, claim),
    {
        let ghost before = self.rows@;
        let mut i: usize = 0;
        while i < self.rows.len()
            invariant
                i <= before.len(),
                self.rows@.len() == before.len(),
                self.next_id == old(self).next_id,
                self.next_claim == old(self).next_claim,
                forall|j: int| 0 <= j < i ==> #[trigger] self.rows@[j] == after_abort(before, claim)[j],
                forall|j: int| i <= j < before.len() ==> #[trigger] self.rows@[j] == before[j],
            decreases before.len() - i,
        {
            if holds(&self.rows[i], claim) {
                self.rows[i].held_by = None;
                self.rows[i].staged = None;
            }
            i = i + 1;
        }
        proof {
            assert(self@ =~= after_abort(before, claim));
        }
    }

    /// The row with the given identifier, if the table has one.
    pub fn get(&self, id: i64) -> (found: Option<OutboxMessage>)
        ensures
            match found {
                Some(message) => exists|i: int|
                    {
                        &&& 0 <= i < self@.len()
                        &&& #[trigger] self@[i].message == message
                        &&& message.id == id
                        &&& forall|j: int| 0 <= j < i ==> (#[trigger] self@[j]).message.id != id
                    },
                None => forall|i: int| 0 <= i < self@.len() ==> (#[trigger] self@[i]).message.id != id,
            },
    {
        let mut i: usize = 0;
        while i < self.rows.len()
            invariant
                i <= self.rows@.len(),
                forall|j: int| 0 <= j < i ==> (#[trigger] self.rows@[j]).message.id != id,
            decreases self.rows@.len() - i,
        {
            if self.rows[i].message.id == id {
                let message = self.rows[i].message.clone();
                assert(self@[i as int].message == message);
                return Some(message);
            }
            i = i + 1;
        }
        None
    }
}

/// Whether `claim` holds the row.
fn holds(row: &OutboxRow, claim: u64) -> (r: bool)
    ensures
        r == (row.held_by == Some(claim)),
{
    match row.held_by {
        Some(holder) => holder == claim,
        None => false,
    }
}

/// Whether `id` is among `ids`.
fn contains_id(ids: &Vec<i64>, id: i64) -> (r: bool)
    ensures
        r == ids@.contains(id),
{
    let mut i: usize = 0;
    while i < ids.len()
        invariant
            i <= ids@.len(),
            forall|j: int| 0 <= j < i ==> ids@[j] != id,
        decreases ids@.len() - i,
    {
        if ids[i] == id {
            return true;
        }
        i = i + 1;
    }
    false
}

/// Whether a claim takes a row depends only on the rows up to it.
proof fn lemma_claims_row_prefix(rows: Seq<OutboxRow>, limit: Option<u32>, n: int, i: int)
    requires
        0 <= i < n <= rows.len(),
    ensures
        claims_row(rows.take(n), limit, i) == claims_row(rows, limit, i),
{
    assert(rows.take(n).take(i) =~= rows.take(i));
}

/// The batch of a table with a last row is the batch of the rows before it,
/// with the last row's message behind it where the claim takes that row.
proof fn lemma_batch_push(rows: Seq<OutboxRow>, limit: Option<u32>)
    requires
        rows.len() > 0,
    ensures
        batch_of(rows, limit) == if claims_row(rows, limit, rows.len() - 1) {
            batch_of(rows.drop_last(), limit).push(rows.last().message)
        } else {
            batch_of(rows.drop_last(), limit)
        },
{
    let front = rows.drop_last();
    let keep = |row: OutboxRow| row.claimable();
    let message_of = |row: OutboxRow| row.message;
    assert(rows =~= front.push(rows.last()));
    front.lemma_filter_push(rows.last(), keep);
    assert(rows.take(rows.len() - 1) =~= front);
    let kept = claimable_rows(front);
    if rows.last().claimable() {
        let grown = kept.push(rows.last());
        assert(claimable_rows(rows) == grown);
        match limit {
            Some(l) => {
                if kept.len() < l {
                    assert(cut(grown, limit) =~= cut(kept, limit).push(rows.last()));
                    assert(cut(grown, limit).map_values(message_of) =~= cut(kept, limit).map_values(
                        message_of,
                    ).push(rows.last().message));
                } else {
                    assert(cut(grown, limit) =~= cut(kept, limit));
                }
            },
            None => {
                assert(grown.map_values(message_of) =~= kept.map_values(message_of).push(
                    rows.last().message,
                ));
            },
        }
    }
}

/// The indices of the rows that a claim takes, in rising order.
spec fn sources(rows: Seq<OutboxRow>, limit: Option<u32>) -> Seq<int>
    decreases rows.len(),
{
    if rows.len() == 0 {
        Seq::empty()
    } else {
        let front = sources(rows.drop_last(), limit);
        if claims_row(rows, limit, rows.len() - 1) {
            front.push(rows.len() - 1)
        } else {
            front
        }
    }
}

/// The batch holds, in rising order of their indices, the messages of
/// exactly the rows that the claim takes.
proof fn lemma_sources(rows: Seq<OutboxRow>, limit: Option<u32>)
    ensures
        sources(rows, limit).len() == batch_of(rows, limit).len(),
        forall|k: int|
            0 <= k < sources(rows, limit).len() ==> {
                let i = #[trigger] sources(rows, limit)[k];
                &&& 0 <= i < rows.len()
                &&& claims_row(rows, limit, i)
                &&& rows[i].message == batch_of(rows, limit)[k]
            },
        forall|k: int, m: int|
            0 <= k < m < sources(rows, limit).len() ==> #[trigger] sources(rows, limit)[k]
                < #[trigger] sources(rows, limit)[m],
        forall|i: int|
            0 <= i < rows.len() && claims_row(rows, limit, i) ==> #[trigger] sources(
                rows,
                limit,
            ).contains(i),
    decreases rows.len(),
{
    if rows.len() == 0 {
        reveal(Seq::filter);
        assert(batch_of(rows, limit) =~= Seq::<OutboxMessage>::empty());
    } else {
        let front = rows.drop_last();
        let last = rows.len() - 1;
        lemma_sources(front, limit);
        lemma_batch_push(rows, limit);
        let src = sources(rows, limit);
        let old_src = sources(front, limit);
        assert forall|i: int| 0 <= i < last implies claims_row(front, limit, i) == claims_row(
            rows,
            limit,
            i,
        ) by {
            lemma_claims_row_prefix(rows, limit, last, i);
            assert(rows.take(last) =~= front);
        }
        assert forall|k: int| 0 <= k < src.len() implies {
            let i = #[trigger] src[k];
            &&& 0 <= i < rows.len()
            &&& claims_row(rows, limit, i)
            &&& rows[i].message == batch_of(rows, limit)[k]
        } by {
            if k < old_src.len() {
                assert(src[k] == old_src[k]);
                assert(front[old_src[k]] == rows[old_src[k]]);
            }
        }
        assert forall|k: int, m: int| 0 <= k < m < src.len() implies #[trigger] src[k]
            < #[trigger] src[m] by {
            if m < old_src.len() {
                assert(src[k] == old_src[k]);
                assert(src[m] == old_src[m]);
            } else {
                assert(src[k] == old_src[k]);
            }
        }
        assert forall|i: int| 0 <= i < rows.len() && claims_row(rows, limit, i) implies #[trigger] src.contains(
            i,
        ) by {
            if i < last {
                assert(old_src.contains(i));
                let k = choose|k: int| 0 <= k < old_src.len() && old_src[k] == i;
                assert(src[k] == i);
            } else {
                assert(src[src.len() - 1] == i);
            }
        }
    }
}

/// Batch ordering: the messages of one batch stand in the order of their
/// creation.
pub proof fn lemma_batch_in_order(rows: Seq<OutboxRow>, limit: Option<u32>)
    requires
        table_wf(rows),
    ensures
        forall|k: int, m: int|
            0 <= k < m < batch_of(rows, limit).len() ==> #[trigger] batch_of(rows, limit)[k].created_at
                <= #[trigger] batch_of(rows, limit)[m].created_at,
{
    lemma_sources(rows, limit);
    let src = sources(rows, limit);
    let batch = batch_of(rows, limit);
    assert forall|k: int, m: int| 0 <= k < m < batch.len() implies #[trigger] batch[k].created_at
        <= #[trigger] batch[m].created_at by {
        assert(rows[src[k]].message == batch[k]);
        assert(rows[src[m]].message == batch[m]);
        assert(src[k] < src[m]);
    }
}

/// A claim with a token of its own keeps the table well formed.
proof fn lemma_claim_keeps_table(rows: Seq<OutboxRow>, limit: Option<u32>, claim: u64)
    requires
        table_wf(rows),
    ensures
        table_wf(after_claim(rows, limit, claim)),
{
    let taken = after_claim(rows, limit, claim);
    assert forall|i: int| 0 <= i < rows.len() implies (#[trigger] taken[i]).message == rows[i].message by {}
    assert forall|i: int, j: int| 0 <= i < j < taken.len() implies #[trigger] taken[i].message.created_at
        <= #[trigger] taken[j].message.created_at by {
        assert(taken[i].message == rows[i].message);
        assert(taken[j].message == rows[j].message);
    }
    assert forall|i: int, j: int| 0 <= i < j < taken.len() implies #[trigger] taken[i].message.id
        != #[trigger] taken[j].message.id by {
        assert(taken[i].message == rows[i].message);
        assert(taken[j].message == rows[j].message);
    }
    assert forall|i: int| 0 <= i < taken.len() && (#[trigger] taken[i]).staged is Some implies taken[i].held_by is Some by {
        assert(taken[i].staged == rows[i].staged);
    }
    assert forall|i: int| 0 <= i < taken.len() && (#[trigger] taken[i]).held_by is Some implies taken[i].pending() by {
        assert(taken[i].message == rows[i].message);
    }
}

/// Where every row before `slot` is created no later than `created_at` and
/// every row from `slot` on is created later, the rows created no later are
/// the first `slot` rows.
proof fn lemma_not_later_is_prefix(rows: Seq<OutboxRow>, created_at: i64, slot: int)
    requires
        0 <= slot <= rows.len(),
        forall|j: int| 0 <= j < slot ==> (#[trigger] rows[j]).message.created_at <= created_at,
        forall|j: int| slot <= j < rows.len() ==> (#[trigger] rows[j]).message.created_at > created_at,
    ensures
        not_later(rows, created_at) == rows.take(slot),
    decreases rows.len(),
{
    let keep = |row: OutboxRow| row.message.created_at <= created_at;
    if rows.len() == 0 {
        reveal(Seq::filter);
        assert(rows.filter(keep) =~= rows.take(slot));
    } else {
        let front = rows.drop_last();
        assert(rows =~= front.push(rows.last()));
        front.lemma_filter_push(rows.last(), keep);
        if slot == rows.len() {
            lemma_not_later_is_prefix(front, created_at, slot - 1);
            assert(front.take(slot - 1) =~= front);
            assert(rows.take(slot) =~= rows);
        } else {
            lemma_not_later_is_prefix(front, created_at, slot);
            assert(front.take(slot) =~= rows.take(slot));
        }
    }
}

/// Inserting a free row with a new identifier at a slot that keeps the order
/// of creation keeps the table well formed.
proof fn lemma_insert_keeps_table(rows: Seq<OutboxRow>, message: OutboxMessage, slot: int)
    requires
        table_wf(rows),
        0 <= slot <= rows.len(),
        forall|j: int| 0 <= j < slot ==> (#[trigger] rows[j]).message.created_at <= message.created_at,
        forall|j: int|
            slot <= j < rows.len() ==> (#[trigger] rows[j]).message.created_at > message.created_at,
        forall|j: int| 0 <= j < rows.len() ==> (#[trigger] rows[j]).message.id != message.id,
        message.processed_at is None,
    ensures
        table_wf(rows.insert(slot, OutboxRow::free(message))),
{
    let row = OutboxRow::free(message);
    let grown = rows.insert(slot, row);
    let origin = |i: int| if i < slot { i } else { i - 1 };
    assert forall|i: int| 0 <= i < grown.len() && i != slot implies #[trigger] grown[i] == rows[origin(i)] by {}
    assert forall|i: int, j: int| 0 <= i < j < grown.len() implies #[trigger] grown[i].message.created_at
        <= #[trigger] grown[j].message.created_at by {
        if i != slot {
            assert(grown[i] == rows[origin(i)]);
        }
        if j != slot {
            assert(grown[j] == rows[origin(j)]);
        }
    }
    assert forall|i: int, j: int| 0 <= i < j < grown.len() implies #[trigger] grown[i].message.id
        != #[trigger] grown[j].message.id by {
        if i != slot {
            assert(grown[i] == rows[origin(i)]);
        }
        if j != slot {
            assert(grown[j] == rows[origin(j)]);
        }
    }
    assert forall|i: int| 0 <= i < grown.len() && (#[trigger] grown[i]).staged is Some implies grown[i].held_by is Some by {
        if i != slot {
            assert(grown[i] == rows[origin(i)]);
        }
    }
    assert forall|i: int| 0 <= i < grown.len() && (#[trigger] grown[i]).held_by is Some implies grown[i].pending() by {
        if i != slot {
            assert(grown[i] == rows[origin(i)]);
        }
    }
}

/// A claim takes only rows that are pending and that no claim holds: every
/// message of its batch is the message of such a row, and once the claim is
/// made that row is held by it.
pub proof fn lemma_claim_takes_free_rows(rows: Seq<OutboxRow>, limit: Option<u32>, claim: u64)
    ensures
        forall|k: int|
            0 <= k < batch_of(rows, limit).len() ==> exists|i: int|
                {
                    &&& 0 <= i < rows.len()
                    &&& rows[i].claimable()
                    &&& rows[i].message == #[trigger] batch_of(rows, limit)[k]
                    &&& #[trigger] after_claim(rows, limit, claim)[i] == rows[i].held(claim)
                },
{
    lemma_sources(rows, limit);
    let src = sources(rows, limit);
    let batch = batch_of(rows, limit);
    let taken = after_claim(rows, limit, claim);
    assert forall|k: int| 0 <= k < batch.len() implies exists|i: int|
        {
            &&& 0 <= i < rows.len()
            &&& rows[i].claimable()
            &&& rows[i].message == #[trigger] batch[k]
            &&& #[trigger] taken[i] == rows[i].held(claim)
        } by {
        let i = src[k];
        assert(claims_row(rows, limit, i));
        assert(taken[i] == rows[i].held(claim));
    }
}

/// A row that a claim holds is in no batch, whatever the limit.
pub proof fn lemma_held_rows_are_passed_over(rows: Seq<OutboxRow>, limit: Option<u32>, i: int)
    requires
        table_wf(rows),
        0 <= i < rows.len(),
        rows[i].held_by is Some,
    ensures
        forall|k: int|
            0 <= k < batch_of(rows, limit).len() ==> (#[trigger] batch_of(rows, limit)[k]).id
                != rows[i].message.id,
{
    lemma_sources(rows, limit);
    let src = sources(rows, limit);
    let batch = batch_of(rows, limit);
    assert forall|k: int| 0 <= k < batch.len() implies (#[trigger] batch[k]).id
        != rows[i].message.id by {
        let j = src[k];
        assert(rows[j].message == batch[k]);
        assert(rows[j].claimable());
        if j < i {
            assert(rows[j].message.id != rows[i].message.id);
        } else if i < j {
            assert(rows[i].message.id != rows[j].message.id);
        }
    }
}

/// At most one claim. Of two claims whose windows overlap, the second one
/// made while the first is open, no row identifier is in both batches.
pub proof fn lemma_overlapping_claims_are_disjoint(
    rows: Seq<OutboxRow>,
    first_limit: Option<u32>,
    first: u64,
    second_limit: Option<u32>,
)
    requires
        table_wf(rows),
    ensures
        forall|k: int, m: int|
            0 <= k < batch_of(rows, first_limit).len() && 0 <= m < batch_of(
                after_claim(rows, first_limit, first),
                second_limit,
            ).len() ==> (#[trigger] batch_of(rows, first_limit)[k]).id != (#[trigger] batch_of(
                after_claim(rows, first_limit, first),
                second_limit,
            )[m]).id,
{
    let taken = after_claim(rows, first_limit, first);
    let one = batch_of(rows, first_limit);
    let two = batch_of(taken, second_limit);
    lemma_sources(rows, first_limit);
    lemma_claim_keeps_table(rows, first_limit, first);
    let src = sources(rows, first_limit);
    assert forall|k: int, m: int| 0 <= k < one.len() && 0 <= m < two.len() implies (#[trigger] one[k]).id
        != (#[trigger] two[m]).id by {
        let i = src[k];
        assert(rows[i].message == one[k]);
        assert(taken[i] == rows[i].held(first));
        lemma_held_rows_are_passed_over(taken, second_limit, i);
    }
}

/// While a claim is open, what other claims do leaves the rows it holds as
/// they are: held by it, with what it has marked.
pub proof fn lemma_others_leave_held_rows(
    rows: Seq<OutboxRow>,
    claim: u64,
    other: u64,
    limit: Option<u32>,
    ids: Seq<i64>,
    now: i64,
    i: int,
)
    requires
        0 <= i < rows.len(),
        rows[i].held_by == Some(claim),
        other != claim,
    ensures
        after_claim(rows, limit, other)[i] == rows[i],
        after_mark(rows, other, ids, now)[i] == rows[i],
        after_commit(rows, other)[i] == rows[i],
        after_abort(rows, other)[i] == rows[i],
{
}

/// A claim that ends in an abort loses nothing: whatever it took and
/// whatever it marked, the table is afterwards what it was before the claim,
/// every row as pending and as free as it had been.
pub proof fn lemma_abort_gives_rows_back(
    rows: Seq<OutboxRow>,
    limit: Option<u32>,
    claim: u64,
    ids: Seq<i64>,
    now: i64,
)
    requires
        table_wf(rows),
        forall|i: int| 0 <= i < rows.len() ==> (#[trigger] rows[i]).held_by != Some(claim),
    ensures
        after_abort(after_mark(after_claim(rows, limit, claim), claim, ids, now), claim) == rows,
{
    let taken = after_claim(rows, limit, claim);
    let marked = after_mark(taken, claim, ids, now);
    let back = after_abort(marked, claim);
    assert forall|i: int| 0 <= i < rows.len() implies back[i] == rows[i] by {
        assert(rows[i].staged is Some ==> rows[i].held_by is Some);
    }
    assert(back =~= rows);
}

/// A claim that commits makes processed exactly the rows that it took and
/// marked; every other row is afterwards what it was before the claim, and
/// the rows that it took and did not mark are pending and free again.
pub proof fn lemma_commit_processes_marked_rows(
    rows: Seq<OutboxRow>,
    limit: Option<u32>,
    claim: u64,
    ids: Seq<i64>,
    now: i64,
)
    requires
        table_wf(rows),
        forall|i: int| 0 <= i < rows.len() ==> (#[trigger] rows[i]).held_by != Some(claim),
    ensures
        after_commit(after_mark(after_claim(rows, limit, claim), claim, ids, now), claim).len()
            == rows.len(),
        forall|i: int|
            0 <= i < rows.len() ==> #[trigger] after_commit(
                after_mark(after_claim(rows, limit, claim), claim, ids, now),
                claim,
            )[i] == if claims_row(rows, limit, i) && ids.contains(rows[i].message.id) {
                rows[i].marked(now).committed()
            } else {
                rows[i]
            },
{
    let taken = after_claim(rows, limit, claim);
    let marked = after_mark(taken, claim, ids, now);
    let done = after_commit(marked, claim);
    assert forall|i: int| 0 <= i < rows.len() implies #[trigger] done[i] == if claims_row(
        rows,
        limit,
        i,
    ) && ids.contains(rows[i].message.id) {
        rows[i].marked(now).committed()
    } else {
        rows[i]
    } by {
        assert(rows[i].staged is Some ==> rows[i].held_by is Some);
        assert(rows[i].held_by is Some ==> rows[i].pending());
    }
}

/// A claim without a limit takes every row that is pending and free.
pub proof fn lemma_unbounded_claim_takes_all(rows: Seq<OutboxRow>, i: int)
    requires
        0 <= i < rows.len(),
        rows[i].claimable(),
    ensures
        batch_of(rows, None).contains(rows[i].message),
{
    lemma_sources(rows, None);
    let src = sources(rows, None);
    assert(claims_row(rows, None, i));
    assert(src.contains(i));
    let k = choose|k: int| 0 <= k < src.len() && src[k] == i;
    assert(batch_of(rows, None)[k] == rows[i].message);
}


/// Within a well-formed table the identifier tells the row: a message of the
/// batch that has the identifier of a row is that row's message, and the
/// claim takes that row.
pub proof fn lemma_batch_id_tells_row(rows: Seq<OutboxRow>, limit: Option<u32>, k: int, i: int)
    requires
        table_wf(rows),
        0 <= k < batch_of(rows, limit).len(),
        0 <= i < rows.len(),
        batch_of(rows, limit)[k].id == rows[i].message.id,
    ensures
        claims_row(rows, limit, i),
        rows[i].message == batch_of(rows, limit)[k],
{
    lemma_sources(rows, limit);
    let j = sources(rows, limit)[k];
    assert(rows[j].message == batch_of(rows, limit)[k]);
    if j < i {
        assert(rows[j].message.id != rows[i].message.id);
    } else if i < j {
        assert(rows[i].message.id != rows[j].message.id);
    }
}

/// Every row that a claim takes has its message in the batch.
pub proof fn lemma_claimed_row_is_in_batch(rows: Seq<OutboxRow>, limit: Option<u32>, i: int)
    requires
        0 <= i < rows.len(),
        claims_row(rows, limit, i),
    ensures
        exists|k: int|
            0 <= k < batch_of(rows, limit).len() && #[trigger] batch_of(rows, limit)[k]
                == rows[i].message,
{
    lemma_sources(rows, limit);
    let src = sources(rows, limit);
    assert(src.contains(i));
    let k = choose|k: int| 0 <= k < src.len() && src[k] == i;
    assert(batch_of(rows, limit)[k] == rows[i].message);
}


/// Whether `after` is `before` with at most its processed time written for
/// the first time: the other columns are the same, and a processed time that
/// was there is still there.
pub open spec fn at_most_processed(before: OutboxMessage, after: OutboxMessage) -> bool {
    &&& after.id == before.id
    &&& after.topic == before.topic
    &&& after.payload == before.payload
    &&& after.created_at == before.created_at
    &&& before.processed_at is Some ==> after.processed_at == before.processed_at
}

/// A row changes in one way only: from pending to processed, once. No claim,
/// mark, commit or abort removes a row, touches another column, or changes
/// or clears a processed time that is set.
pub proof fn lemma_rows_only_become_processed(
    rows: Seq<OutboxRow>,
    limit: Option<u32>,
    claim: u64,
    ids: Seq<i64>,
    now: i64,
    i: int,
)
    requires
        table_wf(rows),
        0 <= i < rows.len(),
    ensures
        after_claim(rows, limit, claim).len() == rows.len(),
        after_mark(rows, claim, ids, now).len() == rows.len(),
        after_commit(rows, claim).len() == rows.len(),
        after_abort(rows, claim).len() == rows.len(),
        after_claim(rows, limit, claim)[i].message == rows[i].message,
        after_mark(rows, claim, ids, now)[i].message == rows[i].message,
        after_abort(rows, claim)[i].message == rows[i].message,
        at_most_processed(rows[i].message, after_commit(rows, claim)[i].message),
{
    assert(rows[i].held_by is Some ==> rows[i].pending());
}

} // verus!
