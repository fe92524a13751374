use dispersion_equalizer::model::{
    node_type_label, NodeShape, NodeModel, NodeRuntimeParams, NodeType, RootNote, ScaleMode, MAX_NODE_SLOTS,
};
use dispersion_equalizer::slots::{
    first_enabled_slot, first_free_slot, graph_action_step, overlay_state_nodes, GraphEdit,
    ParamWrite, SelectionUpdate, selected_slot, set_state_node_enabled,
    state_node_at, sync_state_nodes_from_target, upsert_state_node,
};

type Shape = NodeShape<f32>;

fn shape(freq_hz: f32, amount_ms: f32, width_oct: f32) -> Shape {
    NodeShape::new(freq_hz, amount_ms, width_oct)
}

fn params(enabled: bool, node_type: NodeType, s: Shape) -> NodeRuntimeParams<Shape> {
    NodeRuntimeParams {
        enabled,
        node_type,
        shape: s,
        scale_root: RootNote::A,
        scale_mode: ScaleMode::MinorPentatonic,
    }
}

fn idle() -> NodeRuntimeParams<Shape> {
    params(false, NodeType::Bell, shape(1000.0, 0.0, 1.0))
}

fn model(slot: usize, enabled: bool) -> NodeModel<Shape> {
    NodeModel::from_runtime(slot, params(enabled, NodeType::Bell, shape(500.0, 100.0, 1.0)))
}

#[test]
fn labels() {
    assert_eq!(node_type_label(NodeType::Bell), "Bell");
    assert_eq!(node_type_label(NodeType::LowShelf), "Low Shelf");
    assert_eq!(node_type_label(NodeType::HighShelf), "High Shelf");
    assert_eq!(node_type_label(NodeType::Scale), "Scale");
    let m = NodeModel::from_runtime(3, params(true, NodeType::HighShelf, shape(5000.0, 250.0, 1.1)));
    assert_eq!(m.display_name(), "High Shelf");
}

#[test]
fn from_runtime_numbers_ids_from_one() {
    let p = params(true, NodeType::LowShelf, shape(250.0, 300.0, 1.2));
    let m = NodeModel::from_runtime(0, p);
    assert_eq!(m.slot, 0);
    assert_eq!(m.id, 1);
    assert_eq!(NodeModel::from_runtime(15, p).id, 16);
    assert_eq!(m.to_runtime(), p);
}

#[test]
fn first_free_slot_with_empty_cache_follows_host() {
    let nodes: Vec<NodeModel<Shape>> = Vec::new();
    let mut enabled = [false; MAX_NODE_SLOTS];
    assert_eq!(first_free_slot(&nodes, &enabled), Some(0));
    enabled[0] = true;
    enabled[1] = true;
    assert_eq!(first_free_slot(&nodes, &enabled), Some(2));
    let full = [true; MAX_NODE_SLOTS];
    assert_eq!(first_free_slot(&nodes, &full), None);
}

#[test]
fn first_free_slot_with_cache_ignores_host() {
    let nodes = vec![model(0, true), model(1, false), model(2, true)];
    let full = [true; MAX_NODE_SLOTS];
    assert_eq!(first_free_slot(&nodes, &full), Some(1));
    let all: Vec<NodeModel<Shape>> = (0..MAX_NODE_SLOTS).map(|s| model(s, true)).collect();
    assert_eq!(first_free_slot(&all, &[false; MAX_NODE_SLOTS]), None);
}

#[test]
fn selected_slot_rules() {
    let nodes = vec![model(2, true), model(4, false)];
    let mut enabled = [false; MAX_NODE_SLOTS];
    enabled[4] = true;
    enabled[6] = true;
    assert_eq!(selected_slot(None, &nodes, &enabled), None);
    assert_eq!(selected_slot(Some(2), &nodes, &enabled), Some(2));
    // the cached entry wins over the host flag
    assert_eq!(selected_slot(Some(4), &nodes, &enabled), None);
    // no cached entry: the host flag decides
    assert_eq!(selected_slot(Some(6), &nodes, &enabled), Some(6));
    assert_eq!(selected_slot(Some(7), &nodes, &enabled), None);
    assert_eq!(selected_slot(Some(40), &nodes, &enabled), None);
}

#[test]
fn upsert_replaces_or_appends() {
    let mut nodes = vec![model(1, true)];
    upsert_state_node(&mut nodes, 5, NodeType::Bell, shape(800.0, 200.0, 1.0), None, None, true);
    assert_eq!(nodes.len(), 2);
    assert_eq!(nodes[1].slot, 5);
    assert_eq!(nodes[1].id, 6);
    assert_eq!(nodes[1].scale_root, RootNote::A);
    assert_eq!(nodes[1].scale_mode, ScaleMode::MinorPentatonic);
    upsert_state_node(
        &mut nodes,
        1,
        NodeType::Scale,
        shape(440.0, 350.0, 0.055),
        Some(RootNote::C),
        Some(ScaleMode::MajorPentatonic),
        false,
    );
    assert_eq!(nodes.len(), 2);
    assert_eq!(nodes[0].node_type, NodeType::Scale);
    assert_eq!(nodes[0].scale_root, RootNote::C);
    assert!(!nodes[0].enabled);
    let read = state_node_at(&nodes, 1).unwrap();
    assert_eq!(read.shape, shape(440.0, 350.0, 0.055));
    assert_eq!(read.scale_mode, ScaleMode::MajorPentatonic);
    assert_eq!(state_node_at(&nodes, 9), None);
}

#[test]
fn set_enabled_touches_only_first_entry_of_slot() {
    let mut nodes = vec![model(3, true), model(3, true), model(4, true)];
    set_state_node_enabled(&mut nodes, 3, false);
    assert!(!nodes[0].enabled);
    assert!(nodes[1].enabled);
    assert!(nodes[2].enabled);
    let before = nodes.clone();
    set_state_node_enabled(&mut nodes, 8, false);
    assert_eq!(nodes, before);
}

#[test]
fn sync_keeps_enabled_slots_in_order() {
    let mut target = [idle(); MAX_NODE_SLOTS];
    target[7] = params(true, NodeType::Bell, shape(65.0, 280.0, 0.8));
    target[2] = params(true, NodeType::LowShelf, shape(180.0, 340.0, 1.2));
    let nodes = sync_state_nodes_from_target(&target);
    assert_eq!(nodes.len(), 2);
    assert_eq!((nodes[0].slot, nodes[0].id), (2, 3));
    assert_eq!((nodes[1].slot, nodes[1].id), (7, 8));
    assert_eq!(nodes[0].to_runtime(), target[2]);
}

#[test]
fn overlay_of_synced_cache_is_target() {
    let mut target = [idle(); MAX_NODE_SLOTS];
    target[0] = params(true, NodeType::HighShelf, shape(5200.0, 340.0, 1.1));
    target[1] = params(true, NodeType::Bell, shape(1700.0, 220.0, 0.85));
    let nodes = sync_state_nodes_from_target(&target);
    let mut snapshot = target;
    overlay_state_nodes(&mut snapshot, &nodes);
    assert_eq!(snapshot, target);
}

#[test]
fn overlay_later_entries_win_and_far_slots_are_ignored() {
    let mut snapshot = [idle(); MAX_NODE_SLOTS];
    let first = NodeModel::from_runtime(4, params(true, NodeType::Bell, shape(100.0, 10.0, 1.0)));
    let second = NodeModel::from_runtime(4, params(true, NodeType::Bell, shape(200.0, 20.0, 1.0)));
    let far = NodeModel::from_runtime(99, params(true, NodeType::Bell, shape(300.0, 30.0, 1.0)));
    overlay_state_nodes(&mut snapshot, &vec![first, far, second]);
    assert_eq!(snapshot[4], second.to_runtime());
    assert_eq!(snapshot[5], idle());
}

#[test]
fn first_enabled_slot_finds_lowest() {
    let mut enabled = [false; MAX_NODE_SLOTS];
    assert_eq!(first_enabled_slot(&enabled), None);
    enabled[9] = true;
    enabled[12] = true;
    assert_eq!(first_enabled_slot(&enabled), Some(9));
}

#[test]
fn graph_add_bell_takes_first_free_slot() {
    let mut nodes = vec![model(0, true)];
    let enabled = [false; MAX_NODE_SLOTS];
    let step = graph_action_step(
        &mut nodes,
        &enabled,
        GraphEdit::AddBell { freq_hz: 700.0, amount_ms: 120.0, width_oct: 1.0 },
    );
    assert_eq!(
        step.writes,
        vec![
            ParamWrite::NodeType(1, NodeType::Bell),
            ParamWrite::Freq(1, 700.0),
            ParamWrite::Amount(1, 120.0),
            ParamWrite::Width(1, 1.0),
            ParamWrite::Enabled(1, true),
        ]
    );
    assert_eq!(step.selection, SelectionUpdate::Replace(Some(1)));
    assert_eq!(nodes.len(), 2);
    assert_eq!(nodes[1].slot, 1);
    assert_eq!(nodes[1].shape, shape(700.0, 120.0, 1.0));
    assert_eq!(nodes[1].scale_root, RootNote::A);
    assert_eq!(nodes[1].scale_mode, ScaleMode::MinorPentatonic);
}

#[test]
fn graph_add_bell_with_all_slots_taken_does_nothing() {
    let mut nodes: Vec<NodeModel<Shape>> = (0..MAX_NODE_SLOTS).map(|s| model(s, true)).collect();
    let before = nodes.clone();
    let step = graph_action_step(
        &mut nodes,
        &[true; MAX_NODE_SLOTS],
        GraphEdit::AddBell { freq_hz: 700.0, amount_ms: 120.0, width_oct: 1.0 },
    );
    assert!(step.writes.is_empty());
    assert_eq!(step.selection, SelectionUpdate::Keep);
    assert_eq!(nodes, before);
}

#[test]
fn graph_move_keeps_width_and_edits_only_cached_slots() {
    let mut nodes = vec![NodeModel::from_runtime(
        2,
        NodeRuntimeParams {
            enabled: true,
            node_type: NodeType::Scale,
            shape: shape(440.0, 350.0, 0.055),
            scale_root: RootNote::C,
            scale_mode: ScaleMode::MajorPentatonic,
        },
    )];
    let enabled = [false; MAX_NODE_SLOTS];
    let step =
        graph_action_step(&mut nodes, &enabled, GraphEdit::Move { slot: 2, freq_hz: 500.0, amount_ms: 90.0 });
    assert_eq!(step.writes, vec![ParamWrite::Freq(2, 500.0), ParamWrite::Amount(2, 90.0)]);
    assert_eq!(step.selection, SelectionUpdate::Keep);
    assert_eq!(nodes[0].shape, shape(500.0, 90.0, 0.055));
    assert_eq!(nodes[0].scale_root, RootNote::C);
    assert_eq!(nodes[0].node_type, NodeType::Scale);

    let step = graph_action_step(&mut nodes, &enabled, GraphEdit::Width { slot: 5, width_oct: 2.0 });
    assert_eq!(step.writes, vec![ParamWrite::Width(5, 2.0)]);
    assert_eq!(nodes.len(), 1);

    let step = graph_action_step(&mut nodes, &enabled, GraphEdit::Width { slot: 2, width_oct: 0.3 });
    assert_eq!(step.writes, vec![ParamWrite::Width(2, 0.3)]);
    assert_eq!(nodes[0].shape, shape(500.0, 90.0, 0.3));

    let step =
        graph_action_step(&mut nodes, &enabled, GraphEdit::Move { slot: 16, freq_hz: 1.0, amount_ms: 1.0 });
    assert!(step.writes.is_empty());
}

#[test]
fn graph_remove_and_select() {
    let mut nodes = vec![model(3, true)];
    let enabled = [false; MAX_NODE_SLOTS];
    let step = graph_action_step(&mut nodes, &enabled, GraphEdit::Remove(3));
    assert_eq!(step.writes, vec![ParamWrite::Enabled(3, false)]);
    assert_eq!(step.selection, SelectionUpdate::FirstEnabled);
    assert!(!nodes[0].enabled);
    let step = graph_action_step(&mut nodes, &enabled, GraphEdit::Select(Some(7)));
    assert!(step.writes.is_empty());
    assert_eq!(step.selection, SelectionUpdate::Replace(Some(7)));
    let step = graph_action_step(&mut nodes, &enabled, GraphEdit::Nothing);
    assert!(step.writes.is_empty());
    assert_eq!(step.selection, SelectionUpdate::Keep);
}
