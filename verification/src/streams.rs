//! Bookkeeping of several lazy streams of tensor operations.
//!
//! Each stream has a queue of operations that are not run yet. The queues themselves, what runs
//! them and the record of shared tensors live outside; their answers come in as arguments. Kept
//! here is which tensors each stream still tracks, how far each stream has got, what a drop
//! request leads to and which streams have to be drained.

use crate::tables;
use crate::tables::{
    ids_drain, ids_insert, ids_new, pairs_new, pairs_push, pairs_slice, table_get, table_ids,
    table_insert, table_new, table_remove, IdSet, PairList, StreamTable,
};
use std::collections::BTreeMap;
use vstd::prelude::*;

verus! {

/// How an operation uses a tensor.
#[derive(Clone, Copy, Debug, PartialEq, Eq, Structural)]
pub enum TensorStatus {
    ReadOnly,
    NotInit,
    ReadWrite,
}

/// A tensor of an operation.
#[derive(Clone, Copy, Debug, PartialEq, Eq, Structural)]
pub struct TensorNode {
    pub id: u64,
    pub status: TensorStatus,
}

/// A tensor that a stream tracks: the stream it was made on and how it was last used.
#[derive(Clone, Copy, Debug, PartialEq, Eq, Structural)]
pub struct Variable {
    pub origin: u64,
    pub status: TensorStatus,
}

/// What a queue holds after it was worked on.
pub struct QueueState {
    pub variables: BTreeMap<u64, Variable>,
    pub pending: usize,
}

/// A stream: the tensors it tracks, the operations that wait, and how many were run.
pub struct StreamState {
    pub variables: BTreeMap<u64, Variable>,
    pub pending: usize,
    pub cursor: u64,
}

/// A stream as a value.
#[verifier::ext_equal]
pub struct StreamModel {
    pub variables: Map<u64, Variable>,
    pub pending: usize,
    pub cursor: u64,
}

impl View for StreamState {
    type V = StreamModel;

    open spec fn view(&self) -> StreamModel {
        StreamModel { variables: self.variables@, pending: self.pending, cursor: self.cursor }
    }
}

/// What to do with a request to drop a tensor.
#[derive(Debug)]
pub enum DropAction {
    /// Another stream still needs the tensor: the request is ignored, the drop comes later.
    SkipSharedTensor,
    /// All sharing streams are done: the drop goes ahead, and the listed streams stop tracking
    /// the tensor.
    ForceSharedTensor(Vec<u64>, u64),
    /// The tensor is owned here but still recorded as shared: drop, then drain.
    ContinueDropShared,
    /// The tensor is owned here and not shared.
    ContinueDrop,
}

/// What the record of shared tensors says of a drop.
#[derive(Debug)]
pub enum SharedTensorDropAction {
    ForceDrop(Vec<u64>),
    Skip,
}

/// The answer that `handle_drop_op` needs.
#[derive(Debug)]
pub enum DropAnswer {
    /// Whether the tensor is recorded as shared: for a tensor that is owned here.
    Shared(bool),
    /// What the drop leads to: for any other tensor.
    OnDrop(SharedTensorDropAction),
}

/// How an operation's tensor relates to the streams.
#[derive(Clone, Copy, Debug, PartialEq, Eq, Structural)]
pub enum SharedTensorAnalysis {
    NotShared,
    SharedFromCurrentStream,
    SharedFromExistingStream { stream_id: u64, original_cursor: u64 },
    SharedFromNewStream { stream_id: u64 },
}

/// The shared tensors of an operation, sorted by how they are shared.
pub struct MultiSharedTensorAnalysis {
    pub current: Vec<(u64, TensorStatus)>,
    pub new: Vec<(u64, u64)>,
    pub existing: Vec<(u64, u64, u64)>,
}

/// The streams.
pub struct MultiStream {
    streams: StreamTable,
}

/// The stream without a tensor.
pub open spec fn without(s: StreamModel, tensor: u64) -> StreamModel {
    StreamModel { variables: s.variables.remove(tensor), ..s }
}

/// The stream without the listed tensors.
pub open spec fn without_all(s: StreamModel, tensors: Seq<u64>) -> StreamModel {
    StreamModel { variables: s.variables.remove_keys(tensors.to_set()), ..s }
}

/// The tensors of `tensors` that stream `id` tracks and that were made on another stream.
pub open spec fn foreign(s: StreamModel, id: u64, tensors: Seq<u64>) -> Set<u64> {
    Set::new(
        |t: u64|
            tensors.contains(t) && s.variables.contains_key(t) && s.variables[t].origin != id,
    )
}

/// The streams after the listed ones stopped tracking a tensor; those with nothing left to track
/// are gone.
pub open spec fn forgotten(
    m: Map<u64, StreamModel>,
    ids: Seq<u64>,
    tensor: u64,
) -> Map<u64, StreamModel> {
    Map::new(
        |k: u64|
            m.contains_key(k) && !(ids.contains(k) && without(m[k], tensor).variables.is_empty()),
        |k: u64| if ids.contains(k) { without(m[k], tensor) } else { m[k] },
    )
}

/// The streams after all of them stopped tracking the listed tensors; those with nothing left
/// are gone, but for the current one.
pub open spec fn cleared(
    m: Map<u64, StreamModel>,
    tensors: Seq<u64>,
    current: u64,
) -> Map<u64, StreamModel> {
    Map::new(
        |k: u64|
            m.contains_key(k) && (k == current || !without_all(
                m[k],
                tensors,
            ).variables.is_empty()),
        |k: u64| without_all(m[k], tensors),
    )
}

/// The streams after each stopped tracking those of the listed tensors that were made elsewhere.
pub open spec fn dropped(m: Map<u64, StreamModel>, tensors: Seq<u64>) -> Map<u64, StreamModel> {
    Map::new(
        |k: u64| m.contains_key(k),
        |k: u64|
            StreamModel {
                variables: m[k].variables.remove_keys(foreign(m[k], k, tensors)),
                ..m[k]
            },
    )
}

/// A tensor comes from a stream that is new to it.
pub open spec fn shared_from_new(new: Seq<(u64, u64)>, s: u64) -> bool {
    exists|i: int| 0 <= i < new.len() && (#[trigger] new[i]).1 == s
}

/// A tensor comes from another stream that has not got past the point where it was made.
pub open spec fn shared_from_existing(
    existing: Seq<(u64, u64, u64)>,
    m: Map<u64, StreamModel>,
    current: u64,
    s: u64,
) -> bool {
    m.contains_key(s) && s != current && exists|i: int|
        0 <= i < existing.len() && (#[trigger] existing[i]).1 == s && m[s].cursor <= existing[i].2
}

/// A tensor that is owned here is shared with the stream.
pub open spec fn shared_from_current(
    current: Seq<(u64, TensorStatus)>,
    streams_of: Seq<Vec<u64>>,
    s: u64,
) -> bool {
    exists|i: int|
        0 <= i < current.len() && (#[trigger] current[i]).1 is ReadWrite
            && streams_of[i]@.contains(s)
}

/// The streams after a tensor was read on one of them.
pub open spec fn after_read(
    m: Map<u64, StreamModel>,
    id: u64,
    tensor: TensorNode,
) -> Map<u64, StreamModel> {
    if tensor.status is ReadWrite {
        forgotten(m, seq![id], tensor.id)
    } else {
        m
    }
}

/// The tensor and the action that a drop request leads to.
pub open spec fn drop_decided(tensor: TensorNode, answer: DropAnswer) -> (TensorNode, DropAction) {
    match answer {
        DropAnswer::Shared(shared) => (
            tensor,
            if shared {
                DropAction::ContinueDropShared
            } else {
                DropAction::ContinueDrop
            },
        ),
        DropAnswer::OnDrop(SharedTensorDropAction::ForceDrop(streams)) => (
            TensorNode { status: TensorStatus::ReadWrite, ..tensor },
            DropAction::ForceSharedTensor(streams, tensor.id),
        ),
        DropAnswer::OnDrop(SharedTensorDropAction::Skip) => (tensor, DropAction::SkipSharedTensor),
    }
}

/// Whether a stream has to be drained once an operation with this action is enqueued; nothing if
/// it must not be enqueued.
pub open spec fn drains_after(action: Option<DropAction>, drain_enabled: bool) -> Option<bool> {
    match action {
        None => Some(false),
        Some(DropAction::SkipSharedTensor) => None,
        Some(DropAction::ContinueDrop) => Some(drain_enabled),
        Some(DropAction::ContinueDropShared) => Some(true),
        Some(DropAction::ForceSharedTensor(_, _)) => Some(true),
    }
}

/// The streams once an operation with this action has begun.
pub open spec fn begun(
    m: Map<u64, StreamModel>,
    action: Option<DropAction>,
) -> Map<u64, StreamModel> {
    match action {
        Some(DropAction::ForceSharedTensor(ids, tensor)) => forgotten(m, ids@, tensor),
        _ => m,
    }
}

/// The streams after operations of one of them were run, which left its queue with these tensors
/// and so many operations.
pub open spec fn ran(
    m: Map<u64, StreamModel>,
    id: u64,
    variables: Map<u64, Variable>,
    pending: usize,
    executed: int,
) -> Map<u64, StreamModel> {
    m.insert(
        id,
        StreamModel {
            variables,
            pending,
            cursor: (stream_or_fresh(m, id).cursor + executed) as u64,
        },
    )
}

/// How many operations wait on a stream that has to be drained.
pub open spec fn due(m: Map<u64, StreamModel>, id: u64, sync: bool) -> Option<usize> {
    if sync && m.contains_key(id) && !m[id].variables.is_empty() {
        Some(m[id].pending)
    } else {
        None
    }
}

/// A stream on which nothing has happened yet.
pub open spec fn fresh() -> StreamModel {
    StreamModel { variables: Map::empty(), pending: 0, cursor: 0 }
}

/// A stream whose number is given, or a new one.
pub open spec fn stream_or_fresh(m: Map<u64, StreamModel>, id: u64) -> StreamModel {
    if m.contains_key(id) {
        m[id]
    } else {
        fresh()
    }
}

impl View for MultiStream {
    type V = Map<u64, StreamModel>;

    closed spec fn view(&self) -> Map<u64, StreamModel> {
        tables::table_of(self.streams).map_values(|s: StreamState| s@)
    }
}

/// Whether dropping an ordinary tensor drains its stream, given the value of the switch in the
/// environment: it does, unless the switch is set to `0`.
pub fn continue_drop_drain_enabled(var: Option<&str>) -> (r: bool)
    ensures
        r == crate::text::on_unless(var, "0"@),
{
    match var {
        Some(v) => !crate::text::same(v, "0"),
        None => true,
    }
}

/// Forgetting on one more stream.
proof fn forgotten_step(m: Map<u64, StreamModel>, ids: Seq<u64>, id: u64, tensor: u64)
    ensures
        forgotten(forgotten(m, ids, tensor), seq![id], tensor) == forgotten(
            m,
            ids.push(id),
            tensor,
        ),
{
    let a = forgotten(forgotten(m, ids, tensor), seq![id], tensor);
    let b = forgotten(m, ids.push(id), tensor);
    assert forall|k: u64| #[trigger] ids.push(id).contains(k) <==> ids.contains(k) || k == id by {
        if ids.contains(k) {
            let i = choose|i: int| 0 <= i < ids.len() && ids[i] == k;
            assert(ids.push(id)[i] == k);
        }
        if k == id {
            assert(ids.push(id)[ids.len() as int] == k);
        }
    }
    assert forall|k: u64| #[trigger] seq![id].contains(k) <==> k == id by {
        assert(seq![id][0] == id);
    }
    assert forall|s: StreamModel| #[trigger] without(without(s, tensor), tensor) == without(
        s,
        tensor,
    ) by {
        assert(without(without(s, tensor), tensor) =~= without(s, tensor));
    }
    assert(a =~= b);
}

impl MultiStream {
    /// No streams.
    pub fn new() -> (r: MultiStream)
        ensures
            r@ == Map::<u64, StreamModel>::empty(),
    {
        let r = MultiStream { streams: table_new() };
        assert(r@ =~= Map::<u64, StreamModel>::empty());
        r
    }

    /// Whether there is a stream of that number. A drop on a stream that is not there is a drop
    /// on a completed stream.
    pub fn has_stream(&self, id: u64) -> (r: bool)
        ensures
            r == self@.contains_key(id),
    {
        match table_get(&self.streams, id) {
            Some(_) => true,
            None => false,
        }
    }

    /// Stops a stream from tracking a tensor, and takes the stream out if nothing is left.
    fn forget(&mut self, id: u64, tensor: u64)
        ensures
            final(self)@ == forgotten(old(self)@, seq![id], tensor),
    {
        broadcast use vstd::std_specs::btree::group_btree_axioms;
        let ghost m = self@;
        assert(seq![id].contains(id)) by {
            assert(seq![id][0] == id);
        }
        match table_remove(&mut self.streams, id) {
            Some(mut s) => {
                s.variables.remove(&tensor);
                assert(s@ =~= without(m[id], tensor));
                if !s.variables.is_empty() {
                    table_insert(&mut self.streams, id, s);
                }
            }
            None => {}
        }
        assert(self@ =~= forgotten(m, seq![id], tensor));
    }

    /// Notes that a tensor was read. If its reader owned it, the stream tracks it no longer.
    pub fn mark_read(&mut self, id: u64, tensor: &TensorNode)
        ensures
            final(self)@ == after_read(old(self)@, id, *tensor),
    {
        match tensor.status {
            TensorStatus::ReadWrite => {
                self.forget(id, tensor.id);
            }
            _ => {}
        }
    }

    /// Decides what a drop request leads to. A forced drop makes the tensor owned again.
    ///
    /// Of a tensor that its stream owns, the answer is whether it is recorded as shared; of any
    /// other, what the record of shared tensors makes of the drop.
    pub fn handle_drop_op(tensor: &mut TensorNode, answer: DropAnswer) -> (r: DropAction)
        requires
            old(tensor).status is ReadWrite <==> answer is Shared,
        ensures
            final(tensor).id == old(tensor).id,
            (*final(tensor), r) == drop_decided(*old(tensor), answer),
    {
        match answer {
            DropAnswer::Shared(shared) => {
                if shared {
                    DropAction::ContinueDropShared
                } else {
                    DropAction::ContinueDrop
                }
            }
            DropAnswer::OnDrop(SharedTensorDropAction::ForceDrop(streams)) => {
                tensor.status = TensorStatus::ReadWrite;
                DropAction::ForceSharedTensor(streams, tensor.id)
            }
            DropAnswer::OnDrop(SharedTensorDropAction::Skip) => DropAction::SkipSharedTensor,
        }
    }

    /// Starts an operation. The action is that of a drop request, if the operation is one.
    ///
    /// Returns whether the stream has to be drained once the operation is enqueued, or nothing
    /// if the operation must not be enqueued at all.
    pub fn begin(&mut self, action: Option<DropAction>, drain_enabled: bool) -> (r: Option<bool>)
        ensures
            r == drains_after(action, drain_enabled),
            final(self)@ == begun(old(self)@, action),
    {
        match action {
            None => Some(false),
            Some(DropAction::SkipSharedTensor) => None,
            Some(DropAction::ContinueDrop) => Some(drain_enabled),
            Some(DropAction::ContinueDropShared) => Some(true),
            Some(DropAction::ForceSharedTensor(ids, tensor)) => {
                let ghost m = self@;
                let mut i: usize = 0;
                assert(self@ =~= forgotten(m, ids@.take(0), tensor));
                while i < ids.len()
                    invariant
                        i <= ids@.len(),
                        self@ == forgotten(m, ids@.take(i as int), tensor),
                    decreases ids@.len() - i,
                {
                    self.forget(ids[i], tensor);
                    proof {
                        forgotten_step(m, ids@.take(i as int), ids@[i as int], tensor);
                        assert(ids@.take(i + 1) =~= ids@.take(i as int).push(ids@[i as int]));
                    }
                    i += 1;
                }
                assert(ids@.take(i as int) =~= ids@);
                Some(true)
            }
        }
    }

    /// Notes that an operation was added to a stream's queue and that the queue was given the
    /// chance to run: it held `len_before` operations then and is left in state `after`. The
    /// stream is opened if it is new. Returns how many operations were run.
    pub fn enqueue_operation(&mut self, id: u64, len_before: usize, after: QueueState) -> (r: usize)
        requires
            after.pending <= len_before,
            stream_or_fresh(old(self)@, id).cursor + (len_before - after.pending) <= u64::MAX,
        ensures
            r == len_before - after.pending,
            final(self)@ == ran(old(self)@, id, after.variables@, after.pending, r as int),
    {
        let ghost m = self@;
        let cursor: u64 = match table_get(&self.streams, id) {
            Some(s) => {
                assert(s@ == m[id]);
                s.cursor
            }
            None => 0,
        };
        let executed: usize = len_before - after.pending;
        let s = StreamState {
            variables: after.variables,
            pending: after.pending,
            cursor: cursor + executed as u64,
        };
        table_insert(&mut self.streams, id, s);
        assert(self@ =~= m.insert(id, s@));
        executed
    }

    /// How many operations wait on a stream that has to be drained now: one that is there and
    /// still tracks a tensor, if draining was asked for.
    pub fn drain_due(&self, id: u64, sync: bool) -> (r: Option<usize>)
        ensures
            r == due(self@, id, sync),
    {
        match table_get(&self.streams, id) {
            Some(s) => {
                assert(s@ == self@[id]);
                if sync && !s.variables.is_empty() {
                    Some(s.pending)
                } else {
                    None
                }
            }
            None => None,
        }
    }

    /// Notes that all that waited on a stream was run, which left its queue in state `after`.
    /// Returns whether there is such a stream.
    pub fn drain(&mut self, id: u64, after: QueueState) -> (r: bool)
        requires
            old(self)@.contains_key(id) ==> old(self)@[id].cursor + old(self)@[id].pending
                <= u64::MAX,
        ensures
            r == old(self)@.contains_key(id),
            final(self)@ == if r {
                ran(
                    old(self)@,
                    id,
                    after.variables@,
                    after.pending,
                    old(self)@[id].pending as int,
                )
            } else {
                old(self)@
            },
    {
        let ghost m = self@;
        match table_remove(&mut self.streams, id) {
            Some(old_state) => {
                assert(old_state@ == m[id]);
                let s = StreamState {
                    variables: after.variables,
                    pending: after.pending,
                    cursor: old_state.cursor + old_state.pending as u64,
                };
                table_insert(&mut self.streams, id, s);
                assert(self@ =~= m.insert(id, s@));
                true
            }
            None => {
                assert(self@ =~= m);
                false
            }
        }
    }

    /// Whether a stream tracks one of the tensors, so that it has to be drained before they are
    /// used on another stream.
    pub fn resolve_stream(&self, id: u64, nodes: &[TensorNode]) -> (r: bool)
        ensures
            r == (self@.contains_key(id) && exists|i: int|
                0 <= i < nodes@.len() && self@[id].variables.contains_key(
                    (#[trigger] nodes@[i]).id,
                )),
    {
        broadcast use vstd::std_specs::btree::group_btree_axioms;
        match table_get(&self.streams, id) {
            Some(s) => {
                assert(s@ == self@[id]);
                let mut i: usize = 0;
                while i < nodes.len()
                    invariant
                        i <= nodes@.len(),
                        forall|j: int| 0 <= j < i ==> !s.variables@.contains_key(
                            (#[trigger] nodes@[j]).id,
                        ),
                        s@ == self@[id],
                        self@.contains_key(id),
                    decreases nodes@.len() - i,
                {
                    broadcast use vstd::std_specs::btree::group_btree_axioms;
                    if s.variables.contains_key(&nodes[i].id) {
                        return true;
                    }
                    i += 1;
                }
                false
            }
            None => false,
        }
    }

    /// The streams that may have to be drained before an operation on stream `current`: each
    /// once, in an order that is left open. `streams_of` lists, for each shared tensor of the
    /// current stream, the streams that share it.
    pub fn streams_to_sync(
        &self,
        analysis: &MultiSharedTensorAnalysis,
        streams_of: &Vec<Vec<u64>>,
        current: u64,
    ) -> (r: Vec<u64>)
        requires
            streams_of@.len() == analysis.current@.len(),
        ensures
            r@.no_duplicates(),
            forall|s: u64| #[trigger]
                r@.contains(s) <==> (shared_from_new(analysis.new@, s) || shared_from_existing(
                    analysis.existing@,
                    self@,
                    current,
                    s,
                ) || shared_from_current(analysis.current@, streams_of@, s)),
    {
        let mut set: IdSet = ids_new();
        let mut i: usize = 0;
        while i < analysis.new.len()
            invariant
                i <= analysis.new@.len(),
                forall|s: u64| #[trigger]
                    tables::ids_of(set).contains(s) <==> shared_from_new(
                        analysis.new@.take(i as int),
                        s,
                    ),
            decreases analysis.new@.len() - i,
        {
            ids_insert(&mut set, analysis.new[i].1);
            proof {
                let before = analysis.new@.take(i as int);
                let after = analysis.new@.take(i + 1);
                let p = analysis.new@[i as int];
                assert(after =~= before.push(p));
                assert forall|s: u64|
                    #[trigger] shared_from_new(after, s) <==> shared_from_new(before, s) || s
                        == p.1 by {
                    if shared_from_new(before, s) {
                        let j = choose|j: int| 0 <= j < before.len() && (#[trigger] before[j]).1
                            == s;
                        assert(after[j].1 == s);
                    }
                    assert(after[i as int] == p);
                }
            }
            i += 1;
        }
        assert(analysis.new@.take(i as int) =~= analysis.new@);
        let ghost base = tables::ids_of(set);
        let mut i: usize = 0;
        while i < analysis.existing.len()
            invariant
                i <= analysis.existing@.len(),
                forall|s: u64| #[trigger]
                    tables::ids_of(set).contains(s) <==> base.contains(s) || shared_from_existing(
                        analysis.existing@.take(i as int),
                        self@,
                        current,
                        s,
                    ),
            decreases analysis.existing@.len() - i,
        {
            let (_, id, original_cursor) = analysis.existing[i];
            let mut behind = false;
            match table_get(&self.streams, id) {
                Some(s) => {
                    assert(s@ == self@[id]);
                    if s.cursor <= original_cursor && id != current {
                        behind = true;
                    }
                }
                None => {}
            }
            if behind {
                ids_insert(&mut set, id);
            }
            proof {
                let before = analysis.existing@.take(i as int);
                let after = analysis.existing@.take(i + 1);
                let p = analysis.existing@[i as int];
                assert(after =~= before.push(p));
                assert forall|s: u64| #[trigger]
                    shared_from_existing(after, self@, current, s) <==> shared_from_existing(
                        before,
                        self@,
                        current,
                        s,
                    ) || (s == id && behind) by {
                    if shared_from_existing(before, self@, current, s) {
                        let j = choose|j: int|
                            0 <= j < before.len() && (#[trigger] before[j]).1 == s
                                && self@[s].cursor <= before[j].2;
                        assert(after[j] == before[j]);
                    }
                    assert(after[i as int] == p);
                }
            }
            i += 1;
        }
        assert(analysis.existing@.take(i as int) =~= analysis.existing@);
        let ghost base = tables::ids_of(set);
        let mut i: usize = 0;
        while i < analysis.current.len()
            invariant
                i <= analysis.current@.len(),
                streams_of@.len() == analysis.current@.len(),
                forall|s: u64| #[trigger]
                    tables::ids_of(set).contains(s) <==> base.contains(s) || shared_from_current(
                        analysis.current@.take(i as int),
                        streams_of@,
                        s,
                    ),
            decreases analysis.current@.len() - i,
        {
            let ghost before_set = tables::ids_of(set);
            let owned = match analysis.current[i].1 {
                TensorStatus::ReadWrite => true,
                _ => false,
            };
            if owned {
                let list = &streams_of[i];
                let mut j: usize = 0;
                while j < list.len()
                    invariant
                        j <= list@.len(),
                        forall|s: u64| #[trigger]
                            tables::ids_of(set).contains(s) <==> before_set.contains(s)
                                || list@.take(j as int).contains(s),
                    decreases list@.len() - j,
                {
                    ids_insert(&mut set, list[j]);
                    proof {
                        let p = list@.take(j as int);
                        let q = list@.take(j + 1);
                        assert(q =~= p.push(list@[j as int]));
                        assert forall|s: u64|
                            #[trigger] q.contains(s) <==> p.contains(s) || s == list@[j as int] by {
                            if p.contains(s) {
                                let k = choose|k: int| 0 <= k < p.len() && p[k] == s;
                                assert(q[k] == s);
                            }
                            assert(q[j as int] == list@[j as int]);
                        }
                    }
                    j += 1;
                }
                assert(list@.take(j as int) =~= list@);
            }
            proof {
                let before = analysis.current@.take(i as int);
                let after = analysis.current@.take(i + 1);
                assert(after =~= before.push(analysis.current@[i as int]));
                assert forall|s: u64| #[trigger]
                    shared_from_current(after, streams_of@, s) <==> shared_from_current(
                        before,
                        streams_of@,
                        s,
                    ) || (owned && streams_of@[i as int]@.contains(s)) by {
                    if shared_from_current(before, streams_of@, s) {
                        let j = choose|j: int|
                            0 <= j < before.len() && (#[trigger] before[j]).1 is ReadWrite
                                && streams_of@[j]@.contains(s);
                        assert(after[j] == before[j]);
                    }
                    assert(after[i as int] == analysis.current@[i as int]);
                }
            }
            i += 1;
        }
        assert(analysis.current@.take(i as int) =~= analysis.current@);
        ids_drain(&mut set)
    }

    /// All streams stop tracking the listed tensors. Streams with nothing left to track are
    /// taken out, but for the current one.
    pub fn clear_shared_tensors(&mut self, tensors: &[u64], current: u64)
        ensures
            final(self)@ == cleared(old(self)@, tensors@, current),
    {
        let ghost m = self@;
        let ids: Vec<u64> = table_ids(&self.streams);
        assert forall|j: int| 0 <= j < ids@.len() implies m.contains_key(#[trigger] ids@[j]) by {
            assert(ids@.contains(ids@[j]));
        }
        let mut i: usize = 0;
        while i < ids.len()
            invariant
                i <= ids@.len(),
                ids@.no_duplicates(),
                forall|k: u64| #[trigger] ids@.contains(k) <==> m.contains_key(k),
                forall|j: int| #![trigger ids@[j]]
                    i <= j < ids@.len() ==> self@.contains_key(ids@[j]) && self@[ids@[j]]
                        == m[ids@[j]],
                forall|k: u64| #[trigger]
                    self@.contains_key(k) ==> m.contains_key(k),
                forall|j: int| #![trigger ids@[j]]
                    0 <= j < i ==> (self@.contains_key(ids@[j]) <==> cleared(
                        m,
                        tensors@,
                        current,
                    ).contains_key(ids@[j])) && (self@.contains_key(ids@[j]) ==> self@[ids@[j]]
                        == cleared(m, tensors@, current)[ids@[j]]),
            decreases ids@.len() - i,
        {
            let id: u64 = ids[i];
            let ghost before = self@;
            assert(before.contains_key(ids@[i as int]));
            assert(m.contains_key(id)) by {
                assert(ids@.contains(ids@[i as int]));
            }
            match table_remove(&mut self.streams, id) {
                Some(s0) => {
                    let mut s: StreamState = s0;
                    assert(s@ == m[id]);
                    let mut j: usize = 0;
                    assert(s@ =~= without_all(m[id], tensors@.take(0)));
                    while j < tensors.len()
                        invariant
                            j <= tensors@.len(),
                            s@ == without_all(m[id], tensors@.take(j as int)),
                        decreases tensors@.len() - j,
                    {
                        broadcast use vstd::std_specs::btree::group_btree_axioms;
                        s.variables.remove(&tensors[j]);
                        proof {
                            let p = tensors@.take(j as int);
                            let q = tensors@.take(j + 1);
                            assert(q =~= p.push(tensors@[j as int]));
                            assert forall|t: u64| #[trigger]
                                q.contains(t) <==> p.contains(t) || t == tensors@[j as int] by {
                                if p.contains(t) {
                                    let k = choose|k: int| 0 <= k < p.len() && p[k] == t;
                                    assert(q[k] == t);
                                }
                                assert(q[j as int] == tensors@[j as int]);
                            }
                            assert(s@.variables =~= without_all(m[id], q).variables);
                        }
                        j += 1;
                    }
                    assert(tensors@.take(j as int) =~= tensors@);
                    if id == current || !s.variables.is_empty() {
                        table_insert(&mut self.streams, id, s);
                    }
                }
                None => {
                    assert(false);
                }
            }
            assert forall|k: u64| k != id implies (#[trigger] self@.contains_key(k)
                <==> before.contains_key(k)) && (self@.contains_key(k) ==> self@[k]
                == before[k]) by {}
            i += 1;
        }
        proof {
            let want = cleared(m, tensors@, current);
            assert forall|k: u64| #[trigger] self@.contains_key(k) <==> want.contains_key(k) by {
                if m.contains_key(k) {
                    assert(ids@.contains(k));
                    let j = choose|j: int| 0 <= j < ids@.len() && ids@[j] == k;
                    assert(ids@[j] == k);
                }
            }
            assert forall|k: u64| #[trigger] self@.contains_key(k) implies self@[k] == want[k] by {
                assert(ids@.contains(k));
                let j = choose|j: int| 0 <= j < ids@.len() && ids@[j] == k;
                assert(ids@[j] == k);
            }
            assert(self@ =~= want);
        }
    }

    /// Each stream stops tracking those of the listed tensors that were made on another stream.
    /// A drop of each tensor is to be registered afterwards.
    pub fn drop_shared_tensors(&mut self, tensors: &[u64])
        ensures
            final(self)@ == dropped(old(self)@, tensors@),
    {
        let ghost m = self@;
        let ids: Vec<u64> = table_ids(&self.streams);
        assert forall|j: int| 0 <= j < ids@.len() implies m.contains_key(#[trigger] ids@[j]) by {
            assert(ids@.contains(ids@[j]));
        }
        let mut i: usize = 0;
        while i < ids.len()
            invariant
                i <= ids@.len(),
                ids@.no_duplicates(),
                forall|k: u64| #[trigger] ids@.contains(k) <==> m.contains_key(k),
                forall|j: int| #![trigger ids@[j]]
                    i <= j < ids@.len() ==> self@.contains_key(ids@[j]) && self@[ids@[j]]
                        == m[ids@[j]],
                forall|k: u64| #[trigger] self@.contains_key(k) <==> m.contains_key(k),
                forall|j: int| #![trigger ids@[j]]
                    0 <= j < i ==> self@.contains_key(ids@[j]) && self@[ids@[j]] == dropped(
                        m,
                        tensors@,
                    )[ids@[j]],
            decreases ids@.len() - i,
        {
            let id: u64 = ids[i];
            let ghost before = self@;
            assert(before.contains_key(ids@[i as int]));
            assert(m.contains_key(id)) by {
                assert(ids@.contains(ids@[i as int]));
            }
            match table_remove(&mut self.streams, id) {
                Some(s0) => {
                    let mut s: StreamState = s0;
                    assert(s@ == m[id]);
                    let mut j: usize = 0;
                    assert(s@.variables =~= m[id].variables.remove_keys(
                        foreign(m[id], id, tensors@.take(0)),
                    ));
                    while j < tensors.len()
                        invariant
                            j <= tensors@.len(),
                            s@.variables == m[id].variables.remove_keys(
                                foreign(m[id], id, tensors@.take(j as int)),
                            ),
                            s.pending == m[id].pending,
                            s.cursor == m[id].cursor,
                        decreases tensors@.len() - j,
                    {
                        broadcast use vstd::std_specs::btree::group_btree_axioms;
                        let elsewhere = match s.variables.get(&tensors[j]) {
                            Some(v) => v.origin != id,
                            None => false,
                        };
                        if elsewhere {
                            s.variables.remove(&tensors[j]);
                        }
                        proof {
                            let p = tensors@.take(j as int);
                            let q = tensors@.take(j + 1);
                            assert(q =~= p.push(tensors@[j as int]));
                            assert forall|t: u64| #[trigger]
                                q.contains(t) <==> p.contains(t) || t == tensors@[j as int] by {
                                if p.contains(t) {
                                    let k = choose|k: int| 0 <= k < p.len() && p[k] == t;
                                    assert(q[k] == t);
                                }
                                assert(q[j as int] == tensors@[j as int]);
                            }
                            assert(s@.variables =~= m[id].variables.remove_keys(
                                foreign(m[id], id, q),
                            ));
                        }
                        j += 1;
                    }
                    assert(tensors@.take(j as int) =~= tensors@);
                    assert(s@ == dropped(m, tensors@)[id]);
                    table_insert(&mut self.streams, id, s);
                }
                None => {
                    assert(false);
                }
            }
            assert forall|k: u64| k != id implies (#[trigger] self@.contains_key(k)
                <==> before.contains_key(k)) && (self@.contains_key(k) ==> self@[k]
                == before[k]) by {}
            assert forall|j: int| 0 <= j < ids@.len() implies m.contains_key(
                #[trigger] ids@[j],
            ) by {
                assert(ids@.contains(ids@[j]));
            }
            i += 1;
        }
        proof {
            let want = dropped(m, tensors@);
            assert forall|k: u64| #[trigger] self@.contains_key(k) implies self@[k] == want[k] by {
                assert(ids@.contains(k));
                let j = choose|j: int| 0 <= j < ids@.len() && ids@[j] == k;
                assert(ids@[j] == k);
            }
            assert(self@ =~= want);
        }
    }
}

/// The tensors among the first `n` that are shared with the current stream, with their use.
pub open spec fn current_of(
    nodes: Seq<TensorNode>,
    answers: Seq<SharedTensorAnalysis>,
    n: nat,
) -> Seq<(u64, TensorStatus)>
    decreases n,
{
    if n == 0 {
        Seq::empty()
    } else {
        let rest = current_of(nodes, answers, (n - 1) as nat);
        match answers[n - 1] {
            SharedTensorAnalysis::SharedFromCurrentStream => rest.push(
                (nodes[n - 1].id, nodes[n - 1].status),
            ),
            _ => rest,
        }
    }
}

/// The tensors among the first `n` that come from a new stream, with that stream.
pub open spec fn new_of(
    nodes: Seq<TensorNode>,
    answers: Seq<SharedTensorAnalysis>,
    n: nat,
) -> Seq<(u64, u64)>
    decreases n,
{
    if n == 0 {
        Seq::empty()
    } else {
        let rest = new_of(nodes, answers, (n - 1) as nat);
        match answers[n - 1] {
            SharedTensorAnalysis::SharedFromNewStream { stream_id } => rest.push(
                (nodes[n - 1].id, stream_id),
            ),
            _ => rest,
        }
    }
}

/// The tensors among the first `n` that come from an existing stream, with that stream and the
/// point where they were made.
pub open spec fn existing_of(
    nodes: Seq<TensorNode>,
    answers: Seq<SharedTensorAnalysis>,
    n: nat,
) -> Seq<(u64, u64, u64)>
    decreases n,
{
    if n == 0 {
        Seq::empty()
    } else {
        let rest = existing_of(nodes, answers, (n - 1) as nat);
        match answers[n - 1] {
            SharedTensorAnalysis::SharedFromExistingStream { stream_id, original_cursor } =>
                rest.push((nodes[n - 1].id, stream_id, original_cursor)),
            _ => rest,
        }
    }
}

/// Sorts the tensors of an operation by how they are shared, given what is recorded of each.
pub fn analyse_shared_tensors(
    nodes: &[TensorNode],
    answers: &[SharedTensorAnalysis],
) -> (r: MultiSharedTensorAnalysis)
    requires
        nodes@.len() == answers@.len(),
    ensures
        r.current@ == current_of(nodes@, answers@, nodes@.len()),
        r.new@ == new_of(nodes@, answers@, nodes@.len()),
        r.existing@ == existing_of(nodes@, answers@, nodes@.len()),
{
    let mut current: Vec<(u64, TensorStatus)> = Vec::new();
    let mut new: Vec<(u64, u64)> = Vec::new();
    let mut existing: Vec<(u64, u64, u64)> = Vec::new();
    let mut i: usize = 0;
    while i < nodes.len()
        invariant
            i <= nodes@.len(),
            nodes@.len() == answers@.len(),
            current@ == current_of(nodes@, answers@, i as nat),
            new@ == new_of(nodes@, answers@, i as nat),
            existing@ == existing_of(nodes@, answers@, i as nat),
        decreases nodes@.len() - i,
    {
        match answers[i] {
            SharedTensorAnalysis::NotShared => {}
            SharedTensorAnalysis::SharedFromCurrentStream => {
                current.push((nodes[i].id, nodes[i].status));
            }
            SharedTensorAnalysis::SharedFromExistingStream { stream_id, original_cursor } => {
                existing.push((nodes[i].id, stream_id, original_cursor));
            }
            SharedTensorAnalysis::SharedFromNewStream { stream_id } => {
                new.push((nodes[i].id, stream_id));
            }
        }
        i += 1;
    }
    MultiSharedTensorAnalysis { current, new, existing }
}

/// The tensors that an operation may only read: all that come from other streams and, of the
/// current stream's, those that it only reads.
pub open spec fn readonly_of(a: MultiSharedTensorAnalysis) -> Seq<u64> {
    a.new@.map_values(|p: (u64, u64)| p.0) + a.existing@.map_values(|p: (u64, u64, u64)| p.0)
        + read_only_ids(a.current@)
}

/// The tensors that are only read.
pub open spec fn read_only_ids(current: Seq<(u64, TensorStatus)>) -> Seq<u64>
    decreases current.len(),
{
    if current.len() == 0 {
        Seq::empty()
    } else {
        let rest = read_only_ids(current.drop_last());
        if current.last().1 is ReadOnly {
            rest.push(current.last().0)
        } else {
            rest
        }
    }
}

/// Lists the tensors that an operation has to treat as read-only, so that their drop is left to
/// the record of shared tensors.
pub fn readonly_tensors(a: &MultiSharedTensorAnalysis) -> (r: Vec<u64>)
    ensures
        r@ == readonly_of(*a),
{
    let mut r: Vec<u64> = Vec::new();
    let mut i: usize = 0;
    while i < a.new.len()
        invariant
            i <= a.new@.len(),
            r@ == a.new@.take(i as int).map_values(|p: (u64, u64)| p.0),
        decreases a.new@.len() - i,
    {
        r.push(a.new[i].0);
        i += 1;
        assert(r@ =~= a.new@.take(i as int).map_values(|p: (u64, u64)| p.0));
    }
    assert(a.new@.take(i as int) =~= a.new@);
    let ghost first = r@;
    let mut i: usize = 0;
    assert(r@ =~= first + a.existing@.take(0).map_values(|p: (u64, u64, u64)| p.0));
    while i < a.existing.len()
        invariant
            i <= a.existing@.len(),
            r@ == first + a.existing@.take(i as int).map_values(|p: (u64, u64, u64)| p.0),
        decreases a.existing@.len() - i,
    {
        r.push(a.existing[i].0);
        i += 1;
        assert(r@ =~= first + a.existing@.take(i as int).map_values(|p: (u64, u64, u64)| p.0));
    }
    assert(a.existing@.take(i as int) =~= a.existing@);
    let ghost second = r@;
    let mut i: usize = 0;
    assert(r@ =~= second + read_only_ids(a.current@.take(0)));
    while i < a.current.len()
        invariant
            i <= a.current@.len(),
            r@ == second + read_only_ids(a.current@.take(i as int)),
        decreases a.current@.len() - i,
    {
        assert(a.current@.take(i + 1).drop_last() =~= a.current@.take(i as int));
        assert(a.current@.take(i + 1).last() == a.current@[i as int]);
        match a.current[i].1 {
            TensorStatus::ReadOnly => {
                r.push(a.current[i].0);
            }
            _ => {}
        }
        i += 1;
        assert(r@ =~= second + read_only_ids(a.current@.take(i as int)));
    }
    assert(a.current@.take(i as int) =~= a.current@);
    r
}

/// The streams that the inputs of an operation were made on, and the stream it is made on.
pub struct OperationStreams {
    pub streams: PairList,
    pub current: u64,
}

/// The position of a tensor's pair, if the list holds one.
pub open spec fn listed(pairs: Seq<(u64, u64)>, tensor: u64) -> bool {
    exists|i: int| 0 <= i < pairs.len() && (#[trigger] pairs[i]).0 == tensor
}

/// The pairs after the first `n` tensors were registered in order, each under its first stream.
pub open spec fn registered(tensors: Seq<(u64, u64)>, n: nat) -> Seq<(u64, u64)>
    decreases n,
{
    if n == 0 {
        Seq::empty()
    } else {
        let rest = registered(tensors, (n - 1) as nat);
        if listed(rest, tensors[n - 1].0) {
            rest
        } else {
            rest.push(tensors[n - 1])
        }
    }
}

impl OperationStreams {
    /// The registered tensors with their streams, in order.
    pub open spec fn pairs(self) -> Seq<(u64, u64)> {
        tables::pairs_of(self.streams)
    }

    /// No tensor is registered twice.
    pub open spec fn wf(self) -> bool {
        forall|i: int, j: int|
            0 <= i < j < self.pairs().len() ==> (#[trigger] self.pairs()[i]).0 != (
            #[trigger] self.pairs()[j]).0
    }

    /// No inputs.
    pub fn new(current: u64) -> (r: OperationStreams)
        ensures
            r.wf(),
            r.pairs() == Seq::<(u64, u64)>::empty(),
            r.current == current,
    {
        let r = OperationStreams { streams: pairs_new(), current };
        assert(r.pairs() =~= Seq::<(u64, u64)>::empty());
        r
    }

    /// Registers an input tensor with the stream it was made on. A tensor that is registered
    /// keeps its stream.
    pub fn tensor(&mut self, id: u64, stream: u64)
        requires
            old(self).wf(),
        ensures
            final(self).wf(),
            final(self).current == old(self).current,
            final(self).pairs() == if listed(old(self).pairs(), id) {
                old(self).pairs()
            } else {
                old(self).pairs().push((id, stream))
            },
    {
        let pairs = pairs_slice(&self.streams);
        let mut i: usize = 0;
        while i < pairs.len()
            invariant
                i <= pairs@.len(),
                pairs@ == self.pairs(),
                *self == *old(self),
                self.wf(),
                forall|j: int| 0 <= j < i ==> (#[trigger] pairs@[j]).0 != id,
            decreases pairs@.len() - i,
        {
            if pairs[i].0 == id {
                return;
            }
            i += 1;
        }
        pairs_push(&mut self.streams, (id, stream));
    }

    /// The stream that a tensor was registered with.
    pub fn get(&self, id: u64) -> (r: Option<u64>)
        requires
            self.wf(),
        ensures
            match r {
                Some(s) => self.pairs().contains((id, s)),
                None => !listed(self.pairs(), id),
            },
    {
        let pairs = pairs_slice(&self.streams);
        let mut i: usize = 0;
        while i < pairs.len()
            invariant
                i <= pairs@.len(),
                pairs@ == self.pairs(),
                forall|j: int| 0 <= j < i ==> (#[trigger] pairs@[j]).0 != id,
            decreases pairs@.len() - i,
        {
            if pairs[i].0 == id {
                assert(self.pairs()[i as int] == (id, pairs@[i as int].1));
                return Some(pairs[i].1);
            }
            i += 1;
        }
        None
    }

    /// The streams of an operation with the given input tensors.
    pub fn with_inputs(tensors: &[(u64, u64)], current: u64) -> (r: OperationStreams)
        ensures
            r.wf(),
            r.current == current,
            r.pairs() == registered(tensors@, tensors@.len()),
    {
        let mut r = OperationStreams::new(current);
        let mut i: usize = 0;
        while i < tensors.len()
            invariant
                i <= tensors@.len(),
                r.wf(),
                r.current == current,
                r.pairs() == registered(tensors@, i as nat),
            decreases tensors@.len() - i,
        {
            r.tensor(tensors[i].0, tensors[i].1);
            i += 1;
        }
        r
    }
}

/// A forced drop leaves no trace: of the listed streams those that remain track other tensors
/// and not this one, and streams that are not listed are as before.
pub proof fn forced_drop_leaves_no_trace(
    m: Map<u64, StreamModel>,
    ids: Seq<u64>,
    tensor: u64,
    k: u64,
)
    ensures
        ids.contains(k) && forgotten(m, ids, tensor).contains_key(k) ==> !forgotten(
            m,
            ids,
            tensor,
        )[k].variables.contains_key(tensor) && !forgotten(m, ids, tensor)[k].variables.is_empty(),
        !ids.contains(k) ==> (forgotten(m, ids, tensor).contains_key(k) <==> m.contains_key(k)),
        !ids.contains(k) && m.contains_key(k) ==> forgotten(m, ids, tensor)[k] == m[k],
{
}

/// After shared tensors are cleared no stream tracks any of them, and every stream but the
/// current one tracks something.
pub proof fn cleared_tensors_are_untracked(
    m: Map<u64, StreamModel>,
    tensors: Seq<u64>,
    current: u64,
    k: u64,
)
    requires
        cleared(m, tensors, current).contains_key(k),
    ensures
        forall|t: u64|
            tensors.contains(t) ==> !#[trigger] cleared(
                m,
                tensors,
                current,
            )[k].variables.contains_key(t),
        k != current ==> !cleared(m, tensors, current)[k].variables.is_empty(),
{
}

/// Every input of an operation is registered, and the stream found for it is that of its first
/// occurrence.
pub proof fn inputs_are_registered(tensors: Seq<(u64, u64)>, i: int)
    requires
        0 <= i < tensors.len(),
        forall|j: int| 0 <= j < i ==> (#[trigger] tensors[j]).0 != tensors[i].0,
    ensures
        registered(tensors, tensors.len()).contains(tensors[i]),
{
    registered_at_first(tensors, i, tensors.len());
}

proof fn registered_at_first(tensors: Seq<(u64, u64)>, i: int, n: nat)
    requires
        0 <= i < tensors.len(),
        n <= tensors.len(),
        forall|j: int| 0 <= j < i ==> (#[trigger] tensors[j]).0 != tensors[i].0,
    ensures
        n <= i ==> !listed(registered(tensors, n), tensors[i].0),
        n > i ==> registered(tensors, n).contains(tensors[i]),
    decreases n,
{
    if n > 0 {
        let m = (n - 1) as nat;
        registered_at_first(tensors, i, m);
        let rest = registered(tensors, m);
        let all = registered(tensors, n);
        if n - 1 == i {
            assert(all == rest.push(tensors[i]));
            assert(all[rest.len() as int] == tensors[i]);
        } else if n - 1 > i {
            let k = choose|k: int| 0 <= k < rest.len() && rest[k] == tensors[i];
            assert(all[k] == tensors[i]);
        } else {
            assert(tensors[n - 1].0 != tensors[i].0);
            assert forall|k: int| 0 <= k < all.len() implies (#[trigger] all[k]).0
                != tensors[i].0 by {
                if k < rest.len() {
                    assert(rest[k] == all[k]);
                }
            }
        }
    }
}

/// What forgetting a tensor does to a stream. A listed stream keeps every other tensor, its queue
/// and its cursor; it is closed exactly if it tracked nothing else.
pub proof fn forgetting_spares_other_tensors(
    m: Map<u64, StreamModel>,
    ids: Seq<u64>,
    tensor: u64,
    k: u64,
    t: u64,
)
    requires
        m.contains_key(k),
        ids.contains(k),
    ensures
        ({
            let r = forgotten(m, ids, tensor);
            &&& r.contains_key(k) <==> exists|u: u64|
                u != tensor && #[trigger] m[k].variables.contains_key(u)
            &&& r.contains_key(k) && t != tensor ==> (r[k].variables.contains_key(t)
                <==> m[k].variables.contains_key(t))
            &&& r.contains_key(k) && t != tensor && m[k].variables.contains_key(t)
                ==> r[k].variables[t] == m[k].variables[t]
            &&& r.contains_key(k) ==> r[k].pending == m[k].pending && r[k].cursor == m[k].cursor
        }),
{
    let rest = without(m[k], tensor).variables;
    if exists|u: u64| u != tensor && #[trigger] m[k].variables.contains_key(u) {
        let u = choose|u: u64| u != tensor && #[trigger] m[k].variables.contains_key(u);
        assert(rest.contains_key(u));
        assert(rest.dom().contains(u));
        assert(!rest.is_empty());
    } else {
        assert(rest.dom() =~= Set::empty());
        assert(rest =~= Map::empty());
    }
}

/// No stream appears by forgetting, reading, clearing or dropping.
pub proof fn no_stream_appears(
    m: Map<u64, StreamModel>,
    ids: Seq<u64>,
    tensors: Seq<u64>,
    node: TensorNode,
    k: u64,
)
    requires
        !m.contains_key(k),
    ensures
        !forgotten(m, ids, node.id).contains_key(k),
        !after_read(m, k, node).contains_key(k),
        !cleared(m, tensors, k).contains_key(k),
        !dropped(m, tensors).contains_key(k),
{
}

/// Reading a tensor ends its tracking on the reader's stream if the reader owned it, and changes
/// nothing else: not the tensor on other streams, and nothing at all if it was only read.
pub proof fn owned_tensors_are_read_once(
    m: Map<u64, StreamModel>,
    id: u64,
    tensor: TensorNode,
    k: u64,
)
    requires
        m.contains_key(k),
    ensures
        tensor.status is ReadWrite && after_read(m, id, tensor).contains_key(id) ==> !after_read(
            m,
            id,
            tensor,
        )[id].variables.contains_key(tensor.id),
        k != id ==> after_read(m, id, tensor).contains_key(k) && after_read(m, id, tensor)[k]
            == m[k],
        !(tensor.status is ReadWrite) ==> after_read(m, id, tensor) == m,
{
    let ids = seq![id];
    assert(ids[0] == id);
    assert(ids.contains(id));
    assert(ids.contains(k) ==> k == id);
}

/// What clearing shared tensors does to a stream: it loses exactly these tensors and keeps its
/// queue and its cursor, and it is closed exactly if it is not the current one and tracked nothing
/// else.
pub proof fn clearing_spares_other_tensors(
    m: Map<u64, StreamModel>,
    tensors: Seq<u64>,
    current: u64,
    k: u64,
    t: u64,
)
    requires
        m.contains_key(k),
    ensures
        ({
            let r = cleared(m, tensors, current);
            &&& r.contains_key(k) <==> k == current || exists|u: u64|
                !tensors.contains(u) && #[trigger] m[k].variables.contains_key(u)
            &&& r.contains_key(k) ==> (r[k].variables.contains_key(t) <==> !tensors.contains(t)
                && m[k].variables.contains_key(t))
            &&& r.contains_key(k) && r[k].variables.contains_key(t) ==> r[k].variables[t]
                == m[k].variables[t]
            &&& r.contains_key(k) ==> r[k].pending == m[k].pending && r[k].cursor == m[k].cursor
        }),
{
    let rest = without_all(m[k], tensors).variables;
    if exists|u: u64| !tensors.contains(u) && #[trigger] m[k].variables.contains_key(u) {
        let u = choose|u: u64| !tensors.contains(u) && #[trigger] m[k].variables.contains_key(u);
        assert(rest.contains_key(u));
        assert(rest.dom().contains(u));
        assert(!rest.is_empty());
    } else {
        assert(rest.dom() =~= Set::empty());
        assert(rest =~= Map::empty());
    }
}

/// Dropping shared tensors ends their tracking on every stream but the one that they were made on,
/// and nothing else; no stream is closed by it.
pub proof fn dropping_spares_the_origin(
    m: Map<u64, StreamModel>,
    tensors: Seq<u64>,
    k: u64,
    t: u64,
)
    requires
        m.contains_key(k),
    ensures
        ({
            let r = dropped(m, tensors);
            &&& r.contains_key(k)
            &&& m[k].variables.contains_key(t) ==> (r[k].variables.contains_key(t)
                <==> !tensors.contains(t) || m[k].variables[t].origin == k)
            &&& r[k].variables.contains_key(t) ==> m[k].variables.contains_key(t)
                && r[k].variables[t] == m[k].variables[t]
            &&& r[k].pending == m[k].pending && r[k].cursor == m[k].cursor
        }),
{
}

/// A drop request that is skipped is not enqueued and changes nothing. One that goes ahead drains
/// the stream if the tensor was shared, and otherwise as the switch says. An operation that drops
/// nothing does not drain. Only a forced drop changes what streams track.
pub proof fn drops_lead_to_drains(
    m: Map<u64, StreamModel>,
    tensor: TensorNode,
    answer: DropAnswer,
    drain_enabled: bool,
)
    ensures
        ({
            let (node, action) = drop_decided(tensor, answer);
            let skipped = answer == DropAnswer::OnDrop(SharedTensorDropAction::Skip);
            let forced = answer matches DropAnswer::OnDrop(SharedTensorDropAction::ForceDrop(_));
            &&& drains_after(Some(action), drain_enabled) is None <==> skipped
            &&& answer == DropAnswer::Shared(true) ==> drains_after(Some(action), drain_enabled)
                == Some(true)
            &&& answer == DropAnswer::Shared(false) ==> drains_after(Some(action), drain_enabled)
                == Some(drain_enabled)
            &&& forced ==> drains_after(Some(action), drain_enabled) == Some(true)
            &&& forced ==> node.status is ReadWrite
            &&& !forced ==> node == tensor && begun(m, Some(action)) == m
            &&& answer matches DropAnswer::OnDrop(SharedTensorDropAction::ForceDrop(ids)) ==> begun(
                m,
                Some(action),
            ) == forgotten(m, ids@, tensor.id)
            &&& node.id == tensor.id
        }),
        drains_after(None, drain_enabled) == Some(false),
        begun(m, None) == m,
{
}

/// The cursor of a stream counts the operations that were run on it, from nothing when it is
/// opened, and other streams do not move.
pub proof fn cursors_count_operations(
    m: Map<u64, StreamModel>,
    id: u64,
    variables: Map<u64, Variable>,
    pending: usize,
    executed: int,
    k: u64,
)
    requires
        0 <= executed,
        m.contains_key(id) ==> m[id].cursor + executed <= u64::MAX,
        !m.contains_key(id) ==> executed <= u64::MAX,
    ensures
        ({
            let r = ran(m, id, variables, pending, executed);
            &&& r.contains_key(id)
            &&& m.contains_key(id) ==> r[id].cursor - m[id].cursor == executed
            &&& !m.contains_key(id) ==> r[id].cursor == executed
            &&& r[id].pending == pending && r[id].variables == variables
            &&& k != id ==> (r.contains_key(k) <==> m.contains_key(k))
            &&& k != id && m.contains_key(k) ==> r[k] == m[k]
        }),
{
}

/// A stream is drained only if that is asked for, it is there and it tracks something; what waits
/// on it is then run.
pub proof fn drains_are_due_when_tensors_wait(m: Map<u64, StreamModel>, id: u64, sync: bool, t: u64)
    ensures
        !sync || !m.contains_key(id) ==> due(m, id, sync) is None,
        sync && m.contains_key(id) && m[id].variables.contains_key(t) ==> due(m, id, sync) == Some(
            m[id].pending,
        ),
        due(m, id, sync) is Some ==> exists|u: u64| #[trigger] m[id].variables.contains_key(u),
{
    let v = m[id].variables;
    if v.contains_key(t) {
        assert(v.dom().contains(t));
        assert(!v.is_empty());
    }
    if !v.is_empty() {
        assert(!(v.dom() =~= Set::empty()));
        let u = choose|u: u64| v.dom().contains(u);
        assert(v.contains_key(u));
    }
}

/// Every tensor of an operation is sorted by the answer on it: one that is shared from the current
/// stream, from a new one or from an existing one stands in that list, with what the answer says,
/// and one that is not shared in none.
pub proof fn shared_tensors_are_sorted_by_answer(
    nodes: Seq<TensorNode>,
    answers: Seq<SharedTensorAnalysis>,
    i: int,
)
    requires
        nodes.len() == answers.len(),
        0 <= i < nodes.len(),
    ensures
        answers[i] is SharedFromCurrentStream ==> current_of(nodes, answers, nodes.len()).contains(
            (nodes[i].id, nodes[i].status),
        ),
        answers[i] matches SharedTensorAnalysis::SharedFromNewStream { stream_id } ==> new_of(
            nodes,
            answers,
            nodes.len(),
        ).contains((nodes[i].id, stream_id)),
        answers[i] matches SharedTensorAnalysis::SharedFromExistingStream {
            stream_id,
            original_cursor,
        } ==> existing_of(nodes, answers, nodes.len()).contains(
            (nodes[i].id, stream_id, original_cursor),
        ),
        current_of(nodes, answers, nodes.len()).len() + new_of(nodes, answers, nodes.len()).len()
            + existing_of(nodes, answers, nodes.len()).len() + unshared(answers, nodes.len())
            == nodes.len(),
{
    sorted_by_answer(nodes, answers, i, nodes.len());
}

/// How many of the first answers say that a tensor is not shared.
pub open spec fn unshared(answers: Seq<SharedTensorAnalysis>, n: nat) -> nat
    decreases n,
{
    if n == 0 {
        0
    } else {
        unshared(answers, (n - 1) as nat) + if answers[n - 1] is NotShared {
            1nat
        } else {
            0nat
        }
    }
}

proof fn sorted_by_answer(
    nodes: Seq<TensorNode>,
    answers: Seq<SharedTensorAnalysis>,
    i: int,
    n: nat,
)
    requires
        nodes.len() == answers.len(),
        0 <= i < nodes.len(),
        n <= nodes.len(),
    ensures
        current_of(nodes, answers, n).len() + new_of(nodes, answers, n).len() + existing_of(
            nodes,
            answers,
            n,
        ).len() + unshared(answers, n) == n,
        i < n && answers[i] is SharedFromCurrentStream ==> current_of(nodes, answers, n).contains(
            (nodes[i].id, nodes[i].status),
        ),
        i < n ==> (answers[i] matches SharedTensorAnalysis::SharedFromNewStream { stream_id }
            ==> new_of(nodes, answers, n).contains((nodes[i].id, stream_id))),
        i < n ==> (answers[i] matches SharedTensorAnalysis::SharedFromExistingStream {
            stream_id,
            original_cursor,
        } ==> existing_of(nodes, answers, n).contains((nodes[i].id, stream_id, original_cursor))),
    decreases n,
{
    if n > 0 {
        let m = (n - 1) as nat;
        sorted_by_answer(nodes, answers, i, m);
        let c = current_of(nodes, answers, m);
        let w = new_of(nodes, answers, m);
        let e = existing_of(nodes, answers, m);
        match answers[n - 1] {
            SharedTensorAnalysis::SharedFromCurrentStream => {
                let x = (nodes[n - 1].id, nodes[n - 1].status);
                assert(c.push(x)[c.len() as int] == x);
                kept_by_push(c, x, (nodes[i].id, nodes[i].status));
            },
            SharedTensorAnalysis::SharedFromNewStream { stream_id } => {
                let x = (nodes[n - 1].id, stream_id);
                assert(w.push(x)[w.len() as int] == x);
                if let SharedTensorAnalysis::SharedFromNewStream { stream_id: s } = answers[i] {
                    kept_by_push(w, x, (nodes[i].id, s));
                }
            },
            SharedTensorAnalysis::SharedFromExistingStream { stream_id, original_cursor } => {
                let x = (nodes[n - 1].id, stream_id, original_cursor);
                assert(e.push(x)[e.len() as int] == x);
                if let SharedTensorAnalysis::SharedFromExistingStream {
                    stream_id: s,
                    original_cursor: o,
                } = answers[i] {
                    kept_by_push(e, x, (nodes[i].id, s, o));
                }
            },
            SharedTensorAnalysis::NotShared => {},
        }
    }
}

proof fn kept_by_push<A>(s: Seq<A>, x: A, y: A)
    ensures
        s.contains(y) ==> s.push(x).contains(y),
{
    if s.contains(y) {
        let k = choose|k: int| 0 <= k < s.len() && s[k] == y;
        assert(s.push(x)[k] == y);
    }
}

/// The tensors that are only read: those that are shared from another stream, and of those of the
/// current stream the ones that the operation does not own.
pub proof fn shared_tensors_are_read_only(a: MultiSharedTensorAnalysis, i: int)
    ensures
        0 <= i < a.new@.len() ==> readonly_of(a).contains(a.new@[i].0),
        0 <= i < a.existing@.len() ==> readonly_of(a).contains(a.existing@[i].0),
        0 <= i < a.current@.len() && a.current@[i].1 is ReadOnly ==> readonly_of(a).contains(
            a.current@[i].0,
        ),
        0 <= i < readonly_of(a).len() - a.new@.len() - a.existing@.len() ==> exists|k: int|
            0 <= k < a.current@.len() && (#[trigger] a.current@[k]).1 is ReadOnly
                && a.current@[k].0 == readonly_of(a)[a.new@.len() + a.existing@.len() + i],
{
    let x = a.new@.map_values(|p: (u64, u64)| p.0);
    let y = a.existing@.map_values(|p: (u64, u64, u64)| p.0);
    let z = read_only_ids(a.current@);
    let r = readonly_of(a);
    if 0 <= i < a.new@.len() {
        assert(r[i] == x[i]);
    }
    if 0 <= i < a.existing@.len() {
        assert(r[x.len() + i] == y[i]);
    }
    if 0 <= i < a.current@.len() && a.current@[i].1 is ReadOnly {
        read_only_found(a.current@, i, 0);
        let k = choose|k: int| 0 <= k < z.len() && z[k] == a.current@[i].0;
        assert(r[x.len() + y.len() + k] == z[k]);
    }
    if 0 <= i < z.len() {
        read_only_found(a.current@, 0, i);
        assert(r[x.len() + y.len() + i] == z[i]);
    }
}

proof fn read_only_found(current: Seq<(u64, TensorStatus)>, i: int, j: int)
    ensures
        0 <= i < current.len() && current[i].1 is ReadOnly ==> read_only_ids(current).contains(
            current[i].0,
        ),
        0 <= j < read_only_ids(current).len() ==> exists|k: int|
            0 <= k < current.len() && (#[trigger] current[k]).1 is ReadOnly && current[k].0
                == read_only_ids(current)[j],
    decreases current.len(),
{
    if current.len() > 0 {
        let front = current.drop_last();
        let rest = read_only_ids(front);
        read_only_found(front, i, j);
        let last = current.last();
        if last.1 is ReadOnly {
            assert(rest.push(last.0)[rest.len() as int] == last.0);
            if 0 <= i < front.len() {
                assert(front[i] == current[i]);
                kept_by_push(rest, last.0, current[i].0);
            }
        } else if 0 <= i < front.len() {
            assert(front[i] == current[i]);
        }
        if 0 <= j < read_only_ids(current).len() {
            if j < rest.len() {
                let k = choose|k: int|
                    0 <= k < front.len() && (#[trigger] front[k]).1 is ReadOnly && front[k].0
                        == rest[j];
                assert(current[k] == front[k]);
            } else {
                assert(current[current.len() - 1] == last);
            }
        }
    }
}

/// A stream has to be synced for an existing share only if it has not got past the point at which
/// the tensor was shared, and never the current one.
pub proof fn synced_streams_lag_behind(
    existing: Seq<(u64, u64, u64)>,
    m: Map<u64, StreamModel>,
    current: u64,
    s: u64,
    i: int,
)
    ensures
        shared_from_existing(existing, m, current, s) ==> m.contains_key(s) && s != current,
        0 <= i < existing.len() && m.contains_key(s) && s != current && existing[i].1 == s
            && m[s].cursor <= existing[i].2 ==> shared_from_existing(existing, m, current, s),
        (forall|k: int|
            0 <= k < existing.len() && (#[trigger] existing[k]).1 == s ==> existing[k].2
                < m[s].cursor) ==> !shared_from_existing(existing, m, current, s),
{
}

/// Every stream that a tensor is newly shared from has to be synced, and every stream that shares a
/// tensor which the operation owns on the current stream; one that is only read is no reason.
pub proof fn owned_tensors_are_synced(
    new: Seq<(u64, u64)>,
    current: Seq<(u64, TensorStatus)>,
    streams_of: Seq<Vec<u64>>,
    s: u64,
    i: int,
)
    ensures
        0 <= i < new.len() ==> shared_from_new(new, new[i].1),
        0 <= i < current.len() && current[i].1 is ReadWrite && streams_of[i]@.contains(s)
            ==> shared_from_current(current, streams_of, s),
        (forall|k: int| 0 <= k < current.len() ==> !((#[trigger] current[k]).1 is ReadWrite))
            ==> !shared_from_current(current, streams_of, s),
        (forall|k: int| 0 <= k < new.len() ==> (#[trigger] new[k]).1 != s) ==> !shared_from_new(
            new,
            s,
        ),
{
}

} // verus!
