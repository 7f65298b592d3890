//! Last-writer-wins conflict resolution with tombstone collection.
use vstd::prelude::*;
use crate::assoc::Assoc;
use crate::hlc::{PeerId, Stamp};

verus! {

/// What a write does to its record.
#[derive(Debug, Clone, Copy, PartialEq, Eq, Structural, Hash)]
pub enum Op {
    Insert,
    Update,
    Delete,
}

/// A write together with the stamp that ranks it.
#[derive(Debug, PartialEq, Eq)]
pub struct StampedWrite {
    pub stamp: Stamp,
    pub op: Op,
    pub entity: String,
    pub id: String,
    pub data: Vec<u8>,
}

/// The mathematical content of a [`StampedWrite`].
#[verifier::ext_equal]
pub struct WriteModel {
    pub stamp: Stamp,
    pub op: Op,
    pub entity: Seq<char>,
    pub id: Seq<char>,
    pub data: Seq<u8>,
}

impl View for StampedWrite {
    type V = WriteModel;

    open spec fn view(&self) -> WriteModel {
        WriteModel {
            stamp: self.stamp,
            op: self.op,
            entity: self.entity@,
            id: self.id@,
            data: self.data@,
        }
    }
}

impl Clone for StampedWrite {
    fn clone(&self) -> (copy: Self)
        ensures
            copy@ == self@,
    {
        StampedWrite {
            stamp: self.stamp,
            op: self.op,
            entity: self.entity.clone(),
            id: self.id.clone(),
            data: self.data.clone(),
        }
    }
}

impl WriteModel {
    /// The record the write is about.
    pub open spec fn key(self) -> (Seq<char>, Seq<char>) {
        (self.entity, self.id)
    }
}

/// What is left of a record.
#[derive(Debug)]
enum Content {
    /// The data of the winning write.
    Live(Vec<u8>),
    /// The winning write was a delete.
    Tombstone,
    /// The tombstone was collected; only the winning stamp is kept, as a floor
    /// under which no write can bring the record back.
    Collected,
}

/// The winning write of a record.
#[derive(Debug)]
struct Slot {
    stamp: Stamp,
    content: Content,
}

/// The mathematical content of a record's contents.
#[verifier::ext_equal]
pub enum ContentModel {
    Live(Seq<u8>),
    Tombstone,
    Collected,
}

/// The mathematical content of a record: who won, and what is left.
#[verifier::ext_equal]
pub struct SlotModel {
    pub stamp: Stamp,
    pub content: ContentModel,
}

/// The mathematical content of an [`Applier`].
pub type StateModel = Map<(Seq<char>, Seq<char>), SlotModel>;

impl View for Slot {
    type V = SlotModel;

    closed spec fn view(&self) -> SlotModel {
        SlotModel {
            stamp: self.stamp,
            content: match self.content {
                Content::Live(data) => ContentModel::Live(data@),
                Content::Tombstone => ContentModel::Tombstone,
                Content::Collected => ContentModel::Collected,
            },
        }
    }
}

/// What a winning write leaves of its record.
pub open spec fn slot_of(write: WriteModel) -> SlotModel {
    SlotModel {
        stamp: write.stamp,
        content: if write.op is Delete {
            ContentModel::Tombstone
        } else {
            ContentModel::Live(write.data)
        },
    }
}

/// `write` outranks what the state holds of its record.
pub open spec fn wins(state: StateModel, write: WriteModel) -> bool {
    state.contains_key(write.key()) ==> state[write.key()].stamp.before(write.stamp)
}

/// The state after [`Applier::merge`].
pub open spec fn merged(state: StateModel, write: WriteModel) -> StateModel {
    if wins(state, write) {
        state.insert(write.key(), slot_of(write))
    } else {
        state
    }
}

/// The visible data of a record and the peer that wrote it.
pub open spec fn visible_slot(state: StateModel, entity: Seq<char>, id: Seq<char>) -> Option<
    (Seq<u8>, PeerId),
> {
    if state.contains_key((entity, id)) {
        match state[(entity, id)].content {
            ContentModel::Live(data) => Some((data, state[(entity, id)].stamp.peer)),
            _ => None,
        }
    } else {
        None
    }
}

/// The visible data of a record.
pub open spec fn visible_in(state: StateModel, entity: Seq<char>, id: Seq<char>) -> Option<
    Seq<u8>,
> {
    match visible_slot(state, entity, id) {
        Some((data, _)) => Some(data),
        None => None,
    }
}

/// The record holds a tombstone that can be collected.
pub open spec fn collectable(state: StateModel, entity: Seq<char>, id: Seq<char>) -> bool {
    state.contains_key((entity, id)) && state[(entity, id)].content is Tombstone
}

/// The state after [`Applier::collect_tombstone`].
pub open spec fn collected(state: StateModel, entity: Seq<char>, id: Seq<char>) -> StateModel {
    if collectable(state, entity, id) {
        state.insert(
            (entity, id),
            SlotModel {
                stamp: state[(entity, id)].stamp,
                content: ContentModel::Collected,
            },
        )
    } else {
        state
    }
}

/// What became of a merged write.
#[derive(Debug, Clone, Copy, PartialEq, Eq, Structural)]
pub enum MergeOutcome {
    /// The write is now the winner of its record.
    Applied,
    /// A write with a later or equal stamp had won already.
    Stale,
}

/// The winning write of every record.
#[derive(Debug)]
pub struct Applier {
    slots: Assoc<(String, String), Slot>,
}

impl View for Applier {
    type V = StateModel;

    closed spec fn view(&self) -> StateModel {
        self.slots@.map_values(|slot: Slot| slot@)
    }
}

/// `rows` lists the visible records of `entity` with their authors: each once,
/// and none left out.
pub open spec fn lists_entity(
    state: StateModel,
    entity: Seq<char>,
    rows: Seq<(String, Vec<u8>, PeerId)>,
) -> bool {
    &&& forall|i: int, j: int|
        0 <= i < j < rows.len() ==> (#[trigger] rows[i]).0@ != (#[trigger] rows[j]).0@
    &&& forall|i: int|
        0 <= i < rows.len() ==> visible_slot(state, entity, (#[trigger] rows[i]).0@) == Some(
            (rows[i].1@, rows[i].2),
        )
    &&& forall|id: Seq<char>| #[trigger]
        visible_slot(state, entity, id) is Some ==> exists|i: int|
            0 <= i < rows.len() && (#[trigger] rows[i]).0@ == id
}

spec fn row_models(rows: Seq<(String, Vec<u8>, PeerId)>) -> Seq<(Seq<char>, Seq<u8>, PeerId)> {
    Seq::new(rows.len(), |i: int| (rows[i].0@, rows[i].1@, rows[i].2))
}

/// The slot is a live record of `entity` and shows as `row`.
spec fn gives_row(
    pair: ((String, String), Slot),
    entity: Seq<char>,
    row: (Seq<char>, Seq<u8>, PeerId),
) -> bool {
    pair.0.0@ == entity && pair.0.1@ == row.0 && pair.1@.content == ContentModel::Live(row.1)
        && pair.1.stamp.peer == row.2
}

/// The live records of `entity` among some slots, in order.
spec fn live_rows(pairs: Seq<((String, String), Slot)>, entity: Seq<char>) -> Seq<
    (Seq<char>, Seq<u8>, PeerId),
>
    decreases pairs.len(),
{
    if pairs.len() == 0 {
        Seq::empty()
    } else {
        let rest = live_rows(pairs.drop_last(), entity);
        let pair = pairs.last();
        match pair.1.content {
            Content::Live(data) if pair.0.0@ == entity => rest.push(
                (pair.0.1@, data@, pair.1.stamp.peer),
            ),
            _ => rest,
        }
    }
}

proof fn lemma_live_rows(pairs: Seq<((String, String), Slot)>, entity: Seq<char>)
    requires
        crate::assoc::distinct_keys(pairs),
    ensures
        forall|k: int|
            #![trigger live_rows(pairs, entity)[k]]
            0 <= k < live_rows(pairs, entity).len() ==> exists|j: int|
                0 <= j < pairs.len() && gives_row(
                    #[trigger] pairs[j],
                    entity,
                    live_rows(pairs, entity)[k],
                ),
        forall|k: int, l: int|
            0 <= k < l < live_rows(pairs, entity).len() ==> (
            #[trigger] live_rows(pairs, entity)[k]).0 != (
            #[trigger] live_rows(pairs, entity)[l]).0,
        forall|j: int|
            0 <= j < pairs.len() && (#[trigger] pairs[j]).0.0@ == entity
                && pairs[j].1@.content is Live ==> exists|k: int|
                0 <= k < live_rows(pairs, entity).len() && (
                #[trigger] live_rows(pairs, entity)[k]).0 == pairs[j].0.1@,
    decreases pairs.len(),
{
    if pairs.len() > 0 {
        let front = pairs.drop_last();
        let rows = live_rows(pairs, entity);
        let rest = live_rows(front, entity);
        let pair = pairs.last();
        assert(crate::assoc::distinct_keys(front)) by {
            assert forall|i: int, j: int| 0 <= i < j < front.len() implies crate::assoc::Key::model(
                &(#[trigger] front[i]).0,
            ) != crate::assoc::Key::model(&(#[trigger] front[j]).0) by {
                assert(front[i] == pairs[i] && front[j] == pairs[j]);
            }
        }
        lemma_live_rows(front, entity);
        let added = pair.1.content is Live && pair.0.0@ == entity;
        assert forall|k: int| 0 <= k < rows.len() implies exists|j: int|
            0 <= j < pairs.len() && gives_row(#[trigger] pairs[j], entity, #[trigger] rows[k]) by {
            if k < rest.len() {
                assert(rows[k] == rest[k]);
                let j = choose|j: int| 0 <= j < front.len() && gives_row(
                    #[trigger] front[j],
                    entity,
                    rest[k],
                );
                assert(pairs[j] == front[j]);
            } else {
                assert(gives_row(pairs[pairs.len() - 1], entity, rows[k]));
            }
        }
        assert forall|k: int, l: int| 0 <= k < l < rows.len() implies (#[trigger] rows[k]).0 != (
        #[trigger] rows[l]).0 by {
            assert(rows[k] == rest[k]);
            if l < rest.len() {
                assert(rows[l] == rest[l]);
            } else {
                let j = choose|j: int| 0 <= j < front.len() && gives_row(
                    #[trigger] front[j],
                    entity,
                    rest[k],
                );
                assert(pairs[j] == front[j]);
                assert(crate::assoc::Key::model(&pairs[j].0) != crate::assoc::Key::model(
                    &pairs[pairs.len() - 1].0,
                ));
            }
        }
        assert forall|j: int|
            0 <= j < pairs.len() && (#[trigger] pairs[j]).0.0@ == entity
                && pairs[j].1@.content is Live implies exists|k: int|
            0 <= k < rows.len() && (#[trigger] rows[k]).0 == pairs[j].0.1@ by {
            if j < front.len() {
                assert(front[j] == pairs[j]);
                let k = choose|k: int| 0 <= k < rest.len() && (#[trigger] rest[k]).0
                    == front[j].0.1@;
                assert(rows[k] == rest[k]);
            } else {
                assert(added);
                assert(rows[rest.len() as int].0 == pairs[j].0.1@);
            }
        }
    }
}

proof fn lemma_rows_list_entity(
    pairs: Seq<((String, String), Slot)>,
    entity: Seq<char>,
    rows: Seq<(String, Vec<u8>, PeerId)>,
)
    requires
        crate::assoc::distinct_keys(pairs),
        row_models(rows) == live_rows(pairs, entity),
    ensures
        lists_entity(
            crate::assoc::map_of(pairs).map_values(|slot: Slot| slot@),
            entity,
            rows,
        ),
{
    let map = crate::assoc::map_of(pairs);
    let state = map.map_values(|slot: Slot| slot@);
    let models = live_rows(pairs, entity);
    crate::assoc::lemma_map_of(pairs);
    lemma_live_rows(pairs, entity);
    assert forall|k: int| 0 <= k < rows.len() implies (#[trigger] rows[k]).0@ == models[k].0
        && rows[k].1@ == models[k].1 && rows[k].2 == models[k].2 by {
        assert(row_models(rows)[k] == models[k]);
    }
    assert forall|k: int, l: int| 0 <= k < l < rows.len() implies (#[trigger] rows[k]).0@ != (
    #[trigger] rows[l]).0@ by {
        assert(models[k].0 != models[l].0);
    }
    assert forall|k: int| 0 <= k < rows.len() implies visible_slot(
        state,
        entity,
        (#[trigger] rows[k]).0@,
    ) == Some((rows[k].1@, rows[k].2)) by {
        let row = models[k];
        let j = choose|j: int| 0 <= j < pairs.len() && gives_row(#[trigger] pairs[j], entity, row);
        assert(map.contains_key(crate::assoc::Key::model(&pairs[j].0)));
        assert(state[(entity, row.0)] == pairs[j].1@);
    }
    assert forall|id: Seq<char>| #[trigger] visible_slot(state, entity, id) is Some implies exists|
        k: int,
    |
        0 <= k < rows.len() && (#[trigger] rows[k]).0@ == id by {
        assert(map.contains_key((entity, id)));
        let j = choose|j: int|
            0 <= j < pairs.len() && crate::assoc::Key::model(&(#[trigger] pairs[j]).0) == (
                entity,
                id,
            );
        assert(state[(entity, id)] == pairs[j].1@);
        let k = choose|k: int| 0 <= k < models.len() && (#[trigger] models[k]).0 == id;
        assert(rows[k].0@ == models[k].0);
    }
}

impl Applier {
    #[must_use]
    pub fn new() -> (applier: Self)
        ensures
            applier@ == StateModel::empty(),
    {
        let applier = Applier { slots: Assoc::new() };
        assert(applier@ =~= StateModel::empty());
        applier
    }

    /// Merges a write: it wins if its stamp is later than that of the write
    /// that had won so far.
    pub fn merge(&mut self, write: StampedWrite) -> (outcome: MergeOutcome)
        ensures
            outcome is Applied <==> wins(old(self)@, write@),
            final(self)@ == merged(old(self)@, write@),
    {
        let ghost model = write@;
        let stamp = write.stamp;
        let key = (write.entity, write.id);
        if let Some(slot) = self.slots.get(&key) {
            if !(slot.stamp < stamp) {
                return MergeOutcome::Stale;
            }
        }
        let content = match write.op {
            Op::Delete => Content::Tombstone,
            _ => Content::Live(write.data),
        };
        let slot = Slot { stamp, content };
        assert(slot@ == slot_of(model));
        self.slots.insert(key, slot);
        assert(self@ =~= merged(old(self)@, model));
        MergeOutcome::Applied
    }

    fn slot(&self, entity: &str, id: &str) -> (slot: Option<&Slot>)
        ensures
            match slot {
                Some(s) => self@.contains_key((entity@, id@)) && self@[(entity@, id@)] == s@,
                None => !self@.contains_key((entity@, id@)),
            },
    {
        let key = (entity.to_string(), id.to_string());
        self.slots.get(&key)
    }

    /// The data of a record, if the record is there and not deleted.
    #[must_use]
    pub fn visible(&self, entity: &str, id: &str) -> (data: Option<&[u8]>)
        ensures
            match data {
                Some(bytes) => visible_in(self@, entity@, id@) == Some(bytes@),
                None => visible_in(self@, entity@, id@) is None,
            },
    {
        match self.slot(entity, id) {
            Some(slot) => match &slot.content {
                Content::Live(data) => Some(data.as_slice()),
                _ => None,
            },
            None => None,
        }
    }

    /// The visible record plus the peer id that authored the winning write.
    #[must_use]
    pub fn visible_with_author(&self, entity: &str, id: &str) -> (found: Option<(Vec<u8>, PeerId)>)
        ensures
            match found {
                Some((data, author)) => visible_slot(self@, entity@, id@) == Some((data@, author)),
                None => visible_slot(self@, entity@, id@) is None,
            },
    {
        match self.slot(entity, id) {
            Some(slot) => match &slot.content {
                Content::Live(data) => Some((data.clone(), slot.stamp.peer)),
                _ => None,
            },
            None => None,
        }
    }

    /// Every visible record of an entity as `(id, data, author)`.
    #[must_use]
    pub fn entries_with_authors(&self, entity: &str) -> (rows: Vec<(String, Vec<u8>, PeerId)>)
        ensures
            lists_entity(self@, entity@, rows@),
    {
        let mut out: Vec<(String, Vec<u8>, PeerId)> = Vec::new();
        let count = self.slots.len();
        let ghost listing = self.slots.listing();
        let name = entity.to_string();
        let mut i: usize = 0;
        while i < count
            invariant
                i <= count,
                count == listing.len(),
                name@ == entity@,
                listing == self.slots.listing(),
                row_models(out@) == live_rows(listing.take(i as int), entity@),
            decreases count - i,
        {
            let (key, slot) = self.slots.at(i);
            let ghost before = row_models(out@);
            if key.0 == name {
                if let Content::Live(data) = &slot.content {
                    out.push((key.1.clone(), data.clone(), slot.stamp.peer));
                    assert(row_models(out@) =~= before.push(
                        (key.1@, data@, slot.stamp.peer),
                    ));
                }
            }
            assert(listing.take(i + 1).drop_last() =~= listing.take(i as int));
            i = i + 1;
        }
        proof {
            assert(listing.take(i as int) =~= listing);
            lemma_rows_list_entity(listing, entity@, out@);
        }
        out
    }

    /// Every visible (non-deleted) record of an entity, as `(id, data)`.
    #[must_use]
    pub fn visible_entity(&self, entity: &str) -> (rows: Vec<(String, Vec<u8>)>)
        ensures
            forall|i: int, j: int|
                0 <= i < j < rows@.len() ==> (#[trigger] rows@[i]).0@ != (#[trigger] rows@[j]).0@,
            forall|i: int|
                0 <= i < rows@.len() ==> visible_in(self@, entity@, (#[trigger] rows@[i]).0@)
                    == Some(rows@[i].1@),
            forall|id: Seq<char>| #[trigger]
                visible_in(self@, entity@, id) is Some ==> exists|i: int|
                    0 <= i < rows@.len() && (#[trigger] rows@[i]).0@ == id,
    {
        let entries = self.entries_with_authors(entity);
        let mut out: Vec<(String, Vec<u8>)> = Vec::new();
        let mut i: usize = 0;
        while i < entries.len()
            invariant
                i <= entries@.len(),
                out@.len() == i,
                forall|j: int|
                    0 <= j < i ==> (#[trigger] out@[j]).0@ == entries@[j].0@ && out@[j].1@
                        == entries@[j].1@,
            decreases entries@.len() - i,
        {
            out.push((entries[i].0.clone(), entries[i].1.clone()));
            i = i + 1;
        }
        proof {
            assert forall|a: int, b: int| 0 <= a < b < out@.len() implies (
            #[trigger] out@[a]).0@ != (#[trigger] out@[b]).0@ by {
                assert(entries@[a].0@ != entries@[b].0@);
            }
            assert forall|a: int| 0 <= a < out@.len() implies visible_in(
                self@,
                entity@,
                (#[trigger] out@[a]).0@,
            ) == Some(out@[a].1@) by {
                assert(visible_slot(self@, entity@, entries@[a].0@) is Some);
            }
            assert forall|id: Seq<char>| #[trigger]
                visible_in(self@, entity@, id) is Some implies exists|a: int|
                0 <= a < out@.len() && (#[trigger] out@[a]).0@ == id by {
                assert(visible_slot(self@, entity@, id) is Some);
                let a = choose|a: int| 0 <= a < entries@.len() && (#[trigger] entries@[a]).0@ == id;
                assert(out@[a].0@ == id);
            }
        }
        out
    }

    /// Drops the tombstone of a deleted record and keeps its stamp as a floor.
    /// Returns whether there was one.
    pub fn collect_tombstone(&mut self, entity: &str, id: &str) -> (done: bool)
        ensures
            done == collectable(old(self)@, entity@, id@),
            final(self)@ == collected(old(self)@, entity@, id@),
    {
        let stamp = match self.slot(entity, id) {
            Some(slot) => match &slot.content {
                Content::Tombstone => slot.stamp,
                _ => return false,
            },
            None => return false,
        };
        let slot = Slot { stamp, content: Content::Collected };
        self.slots.insert((entity.to_string(), id.to_string()), slot);
        assert(self@ =~= collected(old(self)@, entity@, id@));
        true
    }
}

/// One thing that can happen to an applier.
pub enum Step {
    Merge(WriteModel),
    Collect(Seq<char>, Seq<char>),
}

/// The state after some steps.
pub open spec fn after_steps(state: StateModel, steps: Seq<Step>) -> StateModel
    decreases steps.len(),
{
    if steps.len() == 0 {
        state
    } else {
        let before = after_steps(state, steps.drop_last());
        match steps.last() {
            Step::Merge(write) => merged(before, write),
            Step::Collect(entity, id) => collected(before, entity, id),
        }
    }
}

/// `write` is among `steps`.
pub open spec fn merges(steps: Seq<Step>, write: WriteModel) -> bool {
    exists|i: int| 0 <= i < steps.len() && #[trigger] steps[i] == Step::Merge(write)
}

/// `write` is the latest write of its record among `steps`.
pub open spec fn latest(steps: Seq<Step>, write: WriteModel) -> bool {
    &&& merges(steps, write)
    &&& forall|other: WriteModel| #[trigger]
        merges(steps, other) && other.key() == write.key() ==> !write.stamp.before(other.stamp)
}

/// What a record shows after a write: its data and who wrote it, and nothing
/// after a delete.
pub open spec fn left_by(write: WriteModel) -> Option<(Seq<u8>, PeerId)> {
    if write.op is Delete {
        None
    } else {
        Some((write.data, write.stamp.peer))
    }
}

/// Where several writes of a record share the latest stamp, they leave the same.
pub open spec fn latest_agree(steps: Seq<Step>, entity: Seq<char>, id: Seq<char>) -> bool {
    forall|a: WriteModel, b: WriteModel| #[trigger]
        latest(steps, a) && #[trigger] latest(steps, b) && a.key() == (entity, id) && b.key() == (
        entity,
        id,
    ) ==> left_by(a) == left_by(b)
}

/// What the state holds of a record is left by the latest write of it.
proof fn lemma_state_is_latest(steps: Seq<Step>, key: (Seq<char>, Seq<char>))
    ensures
        after_steps(StateModel::empty(), steps).contains_key(key) ==> exists|w: WriteModel|
            #[trigger] latest(steps, w) && w.key() == key
                && after_steps(StateModel::empty(), steps)[key].stamp == w.stamp && (
            after_steps(StateModel::empty(), steps)[key].content == slot_of(w).content || (
            w.op is Delete && after_steps(StateModel::empty(), steps)[key].content is Collected)),
        !after_steps(StateModel::empty(), steps).contains_key(key) ==> forall|w: WriteModel|
            #[trigger] merges(steps, w) ==> w.key() != key,
    decreases steps.len(),
{
    let state = after_steps(StateModel::empty(), steps);
    if steps.len() > 0 {
        let front = steps.drop_last();
        let before = after_steps(StateModel::empty(), front);
        lemma_state_is_latest(front, key);
        assert forall|w: WriteModel| #[trigger] merges(steps, w) implies merges(front, w)
            || steps.last() == Step::Merge(w) by {
            let i = choose|i: int| 0 <= i < steps.len() && #[trigger] steps[i] == Step::Merge(w);
            if i < front.len() {
                assert(front[i] == Step::Merge(w));
            }
        }
        assert forall|w: WriteModel| #[trigger] merges(front, w) implies merges(steps, w) by {
            let i = choose|i: int| 0 <= i < front.len() && #[trigger] front[i] == Step::Merge(w);
            assert(steps[i] == Step::Merge(w));
        }
        match steps.last() {
            Step::Merge(write) => {
                assert(steps[steps.len() - 1] == Step::Merge(write));
                assert(merges(steps, write));
                if write.key() == key {
                    if wins(before, write) {
                        assert(latest(steps, write)) by {
                            assert forall|other: WriteModel| #[trigger]
                                merges(steps, other) && other.key()
                                    == write.key() implies !write.stamp.before(other.stamp) by {
                                crate::hlc::stamps_totally_ordered(write.stamp, write.stamp);
                                if merges(front, other) {
                                    let w = choose|w: WriteModel| #[trigger]
                                        latest(front, w) && w.key() == key && before[key].stamp
                                            == w.stamp;
                                    if write.stamp.before(other.stamp) {
                                        crate::hlc::stamp_order_transitive(
                                            w.stamp,
                                            write.stamp,
                                            other.stamp,
                                        );
                                    }
                                }
                            }
                        }
                    } else {
                        let w = choose|w: WriteModel| #[trigger]
                            latest(front, w) && w.key() == key && before[key].stamp == w.stamp
                                && (before[key].content == slot_of(w).content || (w.op is Delete
                                && before[key].content is Collected));
                        assert(latest(steps, w));
                    }
                } else if before.contains_key(key) {
                    let w = choose|w: WriteModel| #[trigger]
                        latest(front, w) && w.key() == key && before[key].stamp == w.stamp && (
                        before[key].content == slot_of(w).content || (w.op is Delete
                            && before[key].content is Collected));
                    assert(latest(steps, w));
                }
            },
            Step::Collect(entity, id) => {
                if before.contains_key(key) {
                    let w = choose|w: WriteModel| #[trigger]
                        latest(front, w) && w.key() == key && before[key].stamp == w.stamp && (
                        before[key].content == slot_of(w).content || (w.op is Delete
                            && before[key].content is Collected));
                    assert(latest(steps, w));
                }
            },
        }
    }
}

/// A record shows exactly the data of its latest write, and nothing if that
/// was a delete, whenever tombstones were collected on the way. In particular
/// no write that arrives after a collection brings a deleted record back.
pub proof fn visible_is_the_latest_write(steps: Seq<Step>, write: WriteModel)
    requires
        latest(steps, write),
        latest_agree(steps, write.entity, write.id),
    ensures
        visible_slot(after_steps(StateModel::empty(), steps), write.entity, write.id) == left_by(
            write,
        ),
{
    let key = write.key();
    let state = after_steps(StateModel::empty(), steps);
    lemma_state_is_latest(steps, key);
    assert(merges(steps, write));
    let w = choose|w: WriteModel| #[trigger]
        latest(steps, w) && w.key() == key && state[key].stamp == w.stamp && (state[key].content
            == slot_of(w).content || (w.op is Delete && state[key].content is Collected));
    assert(left_by(w) == left_by(write));
}

/// A record that no write concerns shows nothing.
pub proof fn unwritten_records_are_absent(steps: Seq<Step>, entity: Seq<char>, id: Seq<char>)
    requires
        forall|w: WriteModel| #[trigger] merges(steps, w) ==> w.key() != (entity, id),
    ensures
        visible_slot(after_steps(StateModel::empty(), steps), entity, id) is None,
{
    lemma_state_is_latest(steps, (entity, id));
}

/// Two peers that have seen the same writes show the same of a record, whatever
/// the order in which the writes came and whichever tombstones each of them
/// collected on the way, unless its latest writes disagree under one stamp.
pub proof fn same_writes_converge(
    left: Seq<Step>,
    right: Seq<Step>,
    entity: Seq<char>,
    id: Seq<char>,
)
    requires
        forall|w: WriteModel|
            #![trigger merges(left, w)]
            #![trigger merges(right, w)]
            merges(left, w) <==> merges(right, w),
        latest_agree(left, entity, id),
    ensures
        visible_slot(after_steps(StateModel::empty(), left), entity, id) == visible_slot(
            after_steps(StateModel::empty(), right),
            entity,
            id,
        ),
{
    let key = (entity, id);
    let a = after_steps(StateModel::empty(), left);
    lemma_state_is_latest(left, key);
    lemma_state_is_latest(right, key);
    assert forall|w: WriteModel| #[trigger] latest(right, w) implies latest(left, w) by {
        assert(merges(left, w));
    }
    if a.contains_key(key) {
        let w = choose|w: WriteModel| #[trigger] latest(left, w) && w.key() == key;
        assert(merges(right, w));
        assert(latest(right, w));
        visible_is_the_latest_write(left, w);
        visible_is_the_latest_write(right, w);
    } else {
        assert(!after_steps(StateModel::empty(), right).contains_key(key)) by {
            if after_steps(StateModel::empty(), right).contains_key(key) {
                let w = choose|w: WriteModel| #[trigger] latest(right, w) && w.key() == key;
                assert(merges(left, w));
            }
        }
    }
}

/// Merging a write twice is merging it once.
pub proof fn merging_is_idempotent(state: StateModel, write: WriteModel)
    ensures
        merged(merged(state, write), write) == merged(state, write),
{
    crate::hlc::stamps_totally_ordered(write.stamp, write.stamp);
}

/// The order in which two writes are merged does not matter, unless they write
/// different things to one record under one stamp.
pub proof fn merging_commutes(state: StateModel, a: WriteModel, b: WriteModel)
    requires
        a.stamp == b.stamp && a.key() == b.key() ==> slot_of(a) == slot_of(b),
    ensures
        merged(merged(state, a), b) == merged(merged(state, b), a),
{
    crate::hlc::stamps_totally_ordered(a.stamp, b.stamp);
    if a.key() == b.key() && state.contains_key(a.key()) {
        let s = state[a.key()].stamp;
        if s.before(a.stamp) && a.stamp.before(b.stamp) {
            crate::hlc::stamp_order_transitive(s, a.stamp, b.stamp);
        }
        if s.before(b.stamp) && b.stamp.before(a.stamp) {
            crate::hlc::stamp_order_transitive(s, b.stamp, a.stamp);
        }
    }
    assert(merged(merged(state, a), b) =~= merged(merged(state, b), a));
}

/// A merged write is shown, under its author's name and with its data, if it is
/// later than what was held of its record; a delete leaves nothing to show. An
/// earlier or equal stamp changes nothing. No other record is touched.
pub proof fn later_writes_win(
    state: StateModel,
    write: WriteModel,
    entity: Seq<char>,
    id: Seq<char>,
)
    ensures
        ({
            let key = (write.entity, write.id);
            let after = merged(state, write);
            let later = state.contains_key(key) ==> state[key].stamp.before(write.stamp);
            &&& write.key() == key
            &&& wins(state, write) == later
            &&& later ==> after.contains_key(key) && after[key].stamp == write.stamp
            &&& later && !(write.op is Delete) ==> visible_slot(after, write.entity, write.id)
                == Some((write.data, write.stamp.peer)) && visible_in(
                after,
                write.entity,
                write.id,
            ) == Some(write.data)
            &&& later && write.op is Delete ==> visible_slot(after, write.entity, write.id) is None
                && visible_in(after, write.entity, write.id) is None && collectable(
                after,
                write.entity,
                write.id,
            )
            &&& !later ==> after == state
            &&& (entity, id) != key ==> after.contains_key((entity, id)) == state.contains_key(
                (entity, id),
            ) && after[(entity, id)] == state[(entity, id)] && visible_slot(after, entity, id)
                == visible_slot(state, entity, id)
        }),
{
}

/// Collecting a tombstone keeps its stamp, so that no earlier write brings the
/// record back, and touches nothing else. There is a tombstone only where the
/// record was deleted and not collected since.
pub proof fn collecting_keeps_the_stamp(
    state: StateModel,
    entity: Seq<char>,
    id: Seq<char>,
    other: (Seq<char>, Seq<char>),
    write: WriteModel,
)
    ensures
        ({
            let key = (entity, id);
            let after = collected(state, entity, id);
            &&& collectable(state, entity, id) ==> after.contains_key(key) && after[key].stamp
                == state[key].stamp && !collectable(after, entity, id)
            &&& !collectable(state, entity, id) ==> after == state
            &&& visible_slot(after, entity, id) == visible_slot(state, entity, id)
            &&& collectable(state, entity, id) ==> visible_slot(state, entity, id) is None
                && state.contains_key(key)
            &&& wins(after, write) == wins(state, write)
            &&& other != key ==> after.contains_key(other) == state.contains_key(other)
                && after[other] == state[other]
        }),
{
}

/// What the listing of an entity shows is what reading its records shows: one row
/// for each visible record and no other.
pub proof fn listings_agree_with_reading(
    state: StateModel,
    entity: Seq<char>,
    rows: Seq<(String, Vec<u8>, PeerId)>,
    id: Seq<char>,
)
    requires
        lists_entity(state, entity, rows),
    ensures
        visible_slot(state, entity, id) matches Some((data, author)) ==> exists|i: int|
            0 <= i < rows.len() && (#[trigger] rows[i]).0@ == id && rows[i].1@ == data && rows[i].2
                == author,
        visible_slot(state, entity, id) is None ==> forall|i: int|
            0 <= i < rows.len() ==> (#[trigger] rows[i]).0@ != id,
        forall|i: int, j: int|
            0 <= i < rows.len() && 0 <= j < rows.len() && (#[trigger] rows[i]).0@ == (
            #[trigger] rows[j]).0@ ==> i == j,
        visible_in(state, entity, id) == (match visible_slot(state, entity, id) {
            Some(pair) => Some(pair.0),
            None => None,
        }),
{
    assert forall|i: int, j: int|
        0 <= i < rows.len() && 0 <= j < rows.len() && (#[trigger] rows[i]).0@ == (
        #[trigger] rows[j]).0@ implies i == j by {
        if i < j {
            assert(rows[i].0@ != rows[j].0@);
        } else if j < i {
            assert(rows[j].0@ != rows[i].0@);
        }
    }
}

/// A write leaves its data under its author's name, and a delete nothing.
pub proof fn writes_leave_their_data(write: WriteModel)
    ensures
        !(write.op is Delete) ==> left_by(write) == Some((write.data, write.stamp.peer)),
        write.op is Delete ==> left_by(write) is None,
{
}

/// Merging keeps the later write: a later one is applied and shows its data, or nothing
/// if it deletes, an earlier one is not and changes nothing, and no other record
/// changes.
pub proof fn merges_keep_the_later_write(
    merging: &mut Applier,
    write: StampedWrite,
    outcome: MergeOutcome,
    before: Option<(Vec<u8>, PeerId)>,
    asked: &Applier,
    entity: &str,
    id: &str,
    after: Option<(Vec<u8>, PeerId)>,
    data: Option<&[u8]>,
)
    requires
        call_ensures(Applier::visible_with_author, (&*old(merging), entity, id), before),
        call_ensures(Applier::merge, (merging, write), outcome),
        *asked == *final(merging),
        call_ensures(Applier::visible_with_author, (asked, entity, id), after),
        call_ensures(Applier::visible, (asked, entity, id), data),
    ensures
        ({
            let key = (write.entity@, write.id@);
            let known = old(merging)@.contains_key(key);
            &&& outcome is Applied <==> (known ==> old(merging)@[key].stamp.before(write.stamp))
            &&& key == (entity@, id@) && outcome is Applied && !(write.op is Delete) ==> (
            after matches Some((bytes, author)) && bytes@ == write.data@ && author
                == write.stamp.peer)
            &&& key == (entity@, id@) && outcome is Applied && write.op is Delete ==> after is None
            &&& key != (entity@, id@) || !(outcome is Applied) ==> {
                &&& after is Some <==> before is Some
                &&& after is Some ==> after->Some_0.0@ == before->Some_0.0@ && after->Some_0.1
                    == before->Some_0.1
            }
            &&& data is Some <==> after is Some
            &&& data is Some ==> data->Some_0@ == after->Some_0.0@
        }),
{
}

/// Collecting a deleted record is not seen, and an earlier write still loses to it.
pub proof fn collected_records_stay_deleted(
    collecting: &mut Applier,
    entity: &str,
    id: &str,
    done: bool,
    merging: &mut Applier,
    write: StampedWrite,
    outcome: MergeOutcome,
    asked: &Applier,
    data: Option<&[u8]>,
)
    requires
        call_ensures(Applier::collect_tombstone, (collecting, entity, id), done),
        done,
        *old(merging) == *final(collecting),
        write.entity@ == entity@,
        write.id@ == id@,
        old(collecting)@.contains_key((entity@, id@)),
        !old(collecting)@[(entity@, id@)].stamp.before(write.stamp),
        call_ensures(Applier::merge, (merging, write), outcome),
        *asked == *final(merging),
        call_ensures(Applier::visible, (asked, entity, id), data),
    ensures
        !(outcome is Applied),
        data is None,
{
}

} // verus!
