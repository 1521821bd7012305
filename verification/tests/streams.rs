use rust_sdt::streams::{
    analyse_shared_tensors, continue_drop_drain_enabled, readonly_tensors, DropAction, DropAnswer,
    MultiStream, OperationStreams, QueueState, SharedTensorAnalysis, SharedTensorDropAction,
    TensorNode, TensorStatus, Variable,
};
use std::collections::BTreeMap;

fn queue(vars: &[(u64, u64)], pending: usize) -> QueueState {
    let mut variables = BTreeMap::new();
    for (t, origin) in vars {
        variables.insert(*t, Variable { origin: *origin, status: TensorStatus::ReadOnly });
    }
    QueueState { variables, pending }
}

fn node(id: u64, status: TensorStatus) -> TensorNode {
    TensorNode { id, status }
}

fn sorted(mut v: Vec<u64>) -> Vec<u64> {
    v.sort_unstable();
    v
}

#[test]
fn drops_drain_unless_switched_off() {
    assert!(continue_drop_drain_enabled(None));
    assert!(continue_drop_drain_enabled(Some("1")));
    assert!(!continue_drop_drain_enabled(Some("0")));
}

#[test]
fn enqueuing_opens_a_stream_and_moves_its_cursor() {
    let mut m = MultiStream::new();
    assert!(!m.has_stream(1));
    assert_eq!(m.enqueue_operation(1, 3, queue(&[(10, 1)], 1)), 2);
    assert!(m.has_stream(1));
    assert_eq!(m.drain_due(1, true), Some(1));
    assert_eq!(m.drain_due(1, false), None);
    assert_eq!(m.drain_due(2, true), None);
}

#[test]
fn a_drained_stream_has_nothing_to_drain() {
    let mut m = MultiStream::new();
    m.enqueue_operation(1, 2, queue(&[(10, 1)], 2));
    assert!(m.drain(1, queue(&[], 0)));
    assert_eq!(m.drain_due(1, true), None);
    assert!(!m.drain(9, queue(&[], 0)));
}

#[test]
fn reading_an_owned_tensor_forgets_it() {
    let mut m = MultiStream::new();
    m.enqueue_operation(1, 1, queue(&[(10, 1), (11, 1)], 1));
    m.mark_read(1, &node(10, TensorStatus::ReadOnly));
    assert!(m.resolve_stream(1, &[node(10, TensorStatus::ReadOnly)]));
    m.mark_read(1, &node(10, TensorStatus::ReadWrite));
    assert!(!m.resolve_stream(1, &[node(10, TensorStatus::ReadOnly)]));
    assert!(m.has_stream(1));
    m.mark_read(1, &node(11, TensorStatus::ReadWrite));
    assert!(!m.has_stream(1));
}

#[test]
fn drop_actions() {
    let mut t = node(5, TensorStatus::ReadWrite);
    assert!(matches!(
        MultiStream::handle_drop_op(&mut t, DropAnswer::Shared(true)),
        DropAction::ContinueDropShared
    ));
    assert!(matches!(
        MultiStream::handle_drop_op(&mut t, DropAnswer::Shared(false)),
        DropAction::ContinueDrop
    ));
    let mut t = node(5, TensorStatus::ReadOnly);
    assert!(matches!(
        MultiStream::handle_drop_op(&mut t, DropAnswer::OnDrop(SharedTensorDropAction::Skip)),
        DropAction::SkipSharedTensor
    ));
    assert_eq!(t.status, TensorStatus::ReadOnly);
    match MultiStream::handle_drop_op(
        &mut t,
        DropAnswer::OnDrop(SharedTensorDropAction::ForceDrop(vec![2, 3])),
    ) {
        DropAction::ForceSharedTensor(streams, id) => {
            assert_eq!(streams, vec![2, 3]);
            assert_eq!(id, 5);
        }
        a => panic!("{:?}", a),
    }
    assert_eq!(t.status, TensorStatus::ReadWrite);
}

#[test]
fn actions_decide_about_draining() {
    let mut m = MultiStream::new();
    assert_eq!(m.begin(None, true), Some(false));
    assert_eq!(m.begin(Some(DropAction::SkipSharedTensor), true), None);
    assert_eq!(m.begin(Some(DropAction::ContinueDrop), true), Some(true));
    assert_eq!(m.begin(Some(DropAction::ContinueDrop), false), Some(false));
    assert_eq!(m.begin(Some(DropAction::ContinueDropShared), false), Some(true));
}

#[test]
fn a_forced_drop_leaves_no_trace() {
    let mut m = MultiStream::new();
    m.enqueue_operation(1, 1, queue(&[(5, 1)], 1));
    m.enqueue_operation(2, 1, queue(&[(5, 1), (6, 2)], 1));
    m.enqueue_operation(3, 1, queue(&[(5, 1)], 1));
    let r = m.begin(Some(DropAction::ForceSharedTensor(vec![1, 2, 8], 5)), false);
    assert_eq!(r, Some(true));
    assert!(!m.has_stream(1));
    assert!(m.has_stream(2));
    assert!(!m.resolve_stream(2, &[node(5, TensorStatus::ReadOnly)]));
    assert!(m.resolve_stream(3, &[node(5, TensorStatus::ReadOnly)]));
}

#[test]
fn cleared_tensors_are_tracked_nowhere() {
    let mut m = MultiStream::new();
    m.enqueue_operation(1, 1, queue(&[(5, 1)], 1));
    m.enqueue_operation(2, 1, queue(&[(5, 1)], 1));
    m.enqueue_operation(3, 1, queue(&[(5, 1), (7, 3)], 1));
    m.clear_shared_tensors(&[5], 1);
    assert!(m.has_stream(1));
    assert!(!m.has_stream(2));
    assert!(m.has_stream(3));
    assert!(!m.resolve_stream(3, &[node(5, TensorStatus::ReadOnly)]));
    assert!(m.resolve_stream(3, &[node(7, TensorStatus::ReadOnly)]));
}

#[test]
fn dropped_tensors_stay_on_their_own_stream() {
    let mut m = MultiStream::new();
    m.enqueue_operation(1, 1, queue(&[(5, 1)], 1));
    m.enqueue_operation(2, 1, queue(&[(5, 1), (6, 2)], 1));
    m.drop_shared_tensors(&[5, 6]);
    assert!(m.resolve_stream(1, &[node(5, TensorStatus::ReadOnly)]));
    assert!(!m.resolve_stream(2, &[node(5, TensorStatus::ReadOnly)]));
    assert!(m.resolve_stream(2, &[node(6, TensorStatus::ReadOnly)]));
}

#[test]
fn shared_tensors_are_sorted() {
    let nodes = [
        node(1, TensorStatus::ReadWrite),
        node(2, TensorStatus::ReadOnly),
        node(3, TensorStatus::ReadOnly),
        node(4, TensorStatus::ReadOnly),
        node(5, TensorStatus::ReadWrite),
    ];
    let answers = [
        SharedTensorAnalysis::SharedFromCurrentStream,
        SharedTensorAnalysis::SharedFromCurrentStream,
        SharedTensorAnalysis::SharedFromExistingStream { stream_id: 8, original_cursor: 2 },
        SharedTensorAnalysis::SharedFromNewStream { stream_id: 9 },
        SharedTensorAnalysis::NotShared,
    ];
    let a = analyse_shared_tensors(&nodes, &answers);
    assert_eq!(a.current, vec![(1, TensorStatus::ReadWrite), (2, TensorStatus::ReadOnly)]);
    assert_eq!(a.existing, vec![(3, 8, 2)]);
    assert_eq!(a.new, vec![(4, 9)]);
    assert_eq!(readonly_tensors(&a), vec![4, 3, 2]);
}

#[test]
fn streams_that_lag_behind_are_synced() {
    let mut m = MultiStream::new();
    m.enqueue_operation(8, 3, queue(&[(3, 8)], 1));
    m.enqueue_operation(7, 9, queue(&[(4, 7)], 0));
    let nodes = [
        node(1, TensorStatus::ReadWrite),
        node(3, TensorStatus::ReadOnly),
        node(4, TensorStatus::ReadOnly),
        node(5, TensorStatus::ReadOnly),
    ];
    let answers = [
        SharedTensorAnalysis::SharedFromCurrentStream,
        SharedTensorAnalysis::SharedFromExistingStream { stream_id: 8, original_cursor: 2 },
        SharedTensorAnalysis::SharedFromExistingStream { stream_id: 7, original_cursor: 2 },
        SharedTensorAnalysis::SharedFromNewStream { stream_id: 9 },
    ];
    let a = analyse_shared_tensors(&nodes, &answers);
    let list = m.streams_to_sync(&a, &vec![vec![11, 12]], 1);
    assert_eq!(sorted(list), vec![8, 9, 11, 12]);
    let list = m.streams_to_sync(&a, &vec![vec![]], 8);
    assert_eq!(sorted(list), vec![9]);
}

#[test]
fn inputs_are_registered_once() {
    let s = OperationStreams::with_inputs(&[(1, 5), (2, 6), (1, 7)], 3);
    assert_eq!(s.get(1), Some(5));
    assert_eq!(s.get(2), Some(6));
    assert_eq!(s.get(3), None);
    assert_eq!(s.current, 3);
}

#[test]
fn more_inputs_than_fit_inline() {
    let mut s = OperationStreams::new(0);
    for i in 0..20 {
        s.tensor(i, i + 100);
    }
    assert_eq!(s.get(0), Some(100));
    assert_eq!(s.get(19), Some(119));
}
