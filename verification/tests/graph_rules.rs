use melody_bay::graph::{
    check_handle_context, validate_channel_config_for_node, AudioNodeHandle, AudioNodeInfo, ChannelCountMode, ChannelInterpretation, GraphError,
    GraphTopology, NodeId, NodeRole, ParamId,
};

fn chain() -> (GraphTopology, NodeId, NodeId, NodeId) {
    let mut g = GraphTopology::new(2);
    let a = g.push_node(NodeRole::Processor);
    let b = g.push_node(NodeRole::Processor);
    let d = g.push_node(NodeRole::Delay);
    (g, a, b, d)
}

#[test]
fn cycles_without_delay_are_refused() {
    let (mut g, a, b, _) = chain();
    assert_eq!(g.connect_nodes(a, b), Ok(()));
    assert_eq!(g.connect_nodes(b, a), Err(GraphError::Cycle));
    assert_eq!(g.connect_nodes(a, a), Err(GraphError::Cycle));
    assert_eq!(g.connections.len(), 1);
}

#[test]
fn a_delay_may_close_a_cycle() {
    let (mut g, a, b, d) = chain();
    assert_eq!(g.connect_nodes(a, b), Ok(()));
    assert_eq!(g.connect_nodes(b, d), Ok(()));
    assert_eq!(g.connect_nodes(d, a), Ok(()));
    assert_eq!(g.delay_cycle_nodes(), vec![false, false, false, true]);
    let order = g.compile_order().unwrap();
    let position = |id: NodeId| order.iter().position(|n| *n == id).unwrap();
    assert_eq!(order.len(), 4);
    assert!(position(d) < position(a));
    assert!(position(a) < position(b));
}

#[test]
fn a_delay_off_the_cycle_does_not_guard_it() {
    let (mut g, a, b, d) = chain();
    assert_eq!(g.connect_nodes(a, b), Ok(()));
    assert_eq!(g.connect_nodes(b, d), Ok(()));
    assert_eq!(g.connect_nodes(b, a), Err(GraphError::Cycle));
    assert!(!g.cycle_contains_delay(b, a));
    assert_eq!(g.connections.len(), 2);
    assert!(g.compile_order().is_ok());
}

#[test]
fn a_delay_on_the_cycle_guards_it() {
    let (mut g, a, _, d) = chain();
    assert_eq!(g.connect_nodes(a, d), Ok(()));
    assert!(g.cycle_contains_delay(d, a));
    assert_eq!(g.connect_nodes(d, a), Ok(()));
    assert!(g.compile_order().is_ok());
}

#[test]
fn param_connections_refuse_delay_free_cycles() {
    let (mut g, a, b, _) = chain();
    assert_eq!(g.connect_nodes(a, b), Ok(()));
    assert_eq!(g.connect_param_node(b, ParamId { node: a, param: 0 }), Err(GraphError::Cycle));
    assert_eq!(g.connect_param_node(a, ParamId { node: a, param: 0 }), Err(GraphError::Cycle));
    assert_eq!(g.param_connections.len(), 0);
    assert_eq!(g.disconnect_param_node(b, ParamId { node: a, param: 0 }), Ok(()));
}

#[test]
fn connecting_twice_keeps_one_connection_and_disconnecting_removes_it() {
    let (mut g, a, b, _) = chain();
    assert_eq!(g.connect_nodes(a, b), Ok(()));
    assert_eq!(g.connect_nodes(a, b), Ok(()));
    assert_eq!(g.connections.len(), 1);
    assert!(g.has_path(a, b));
    assert_eq!(g.disconnect_nodes(a, b), Ok(()));
    assert_eq!(g.connections.len(), 0);
    assert!(!g.has_path(a, b));
}

#[test]
fn index_checks() {
    let (mut g, a, _, _) = chain();
    let source = g.push_node(NodeRole::Source);
    assert_eq!(g.connect_nodes(a, source), Err(GraphError::InvalidConnectionIndex));
    assert_eq!(g.connect_nodes(NodeId(0), a), Err(GraphError::InvalidConnectionIndex));
    assert_eq!(g.connect_nodes(NodeId(99), a), Err(GraphError::UnknownNode));
    assert_eq!(g.connect_nodes_with_indices(source, 1, a, 0), Err(GraphError::InvalidConnectionIndex));
}

#[test]
fn param_connections_count_as_edges() {
    let (mut g, a, b, _) = chain();
    assert_eq!(g.connect_param_node(a, ParamId { node: b, param: 0 }), Ok(()));
    assert!(g.has_path(a, b));
    assert_eq!(g.connect_nodes(b, a), Err(GraphError::Cycle));
    assert_eq!(g.disconnect_param_outputs(a), Ok(()));
    assert_eq!(g.connect_nodes(b, a), Ok(()));
}

#[test]
fn channel_splitters_and_node_info() {
    let mut g = GraphTopology::new(0);
    assert_eq!(g.try_create_channel_splitter(0), Err(GraphError::InvalidChannelCount));
    let s = g.try_create_channel_splitter(3).unwrap();
    assert_eq!(
        g.node_info(s),
        Ok(AudioNodeInfo {
            number_of_inputs: 1,
            number_of_outputs: 3,
            channel_count: 3,
            channel_count_mode: ChannelCountMode::Explicit,
            channel_interpretation: ChannelInterpretation::Discrete,
        })
    );
    assert_eq!(g.node_info(NodeId(0)).unwrap().channel_count, 1);
    assert_eq!(g.node_info(NodeId(7)), Err(GraphError::UnknownNode));
    assert_eq!(
        g.try_set_channel_config(s, 2, ChannelCountMode::Explicit, ChannelInterpretation::Discrete),
        Err(GraphError::InvalidChannelCount)
    );
}

#[test]
fn channel_rules_by_role() {
    assert_eq!(
        validate_channel_config_for_node(&NodeRole::StereoLimited, 2, ChannelCountMode::ClampedMax, ChannelInterpretation::Speakers),
        Ok(())
    );
    assert_eq!(
        validate_channel_config_for_node(&NodeRole::StereoLimited, 2, ChannelCountMode::Max, ChannelInterpretation::Speakers),
        Err(GraphError::InvalidChannelCount)
    );
    assert_eq!(
        validate_channel_config_for_node(&NodeRole::ChannelMerger { inputs: 4 }, 1, ChannelCountMode::Explicit, ChannelInterpretation::Discrete),
        Ok(())
    );
}

#[test]
fn labels_are_unique_and_plain() {
    let (mut g, a, b, _) = chain();
    assert_eq!(g.label_node(a, String::from("lead")), Ok(()));
    assert_eq!(g.label_node(b, String::from("lead")), Err(GraphError::InvalidNodeLabel));
    assert_eq!(g.label_node(b, String::from("le.ad")), Err(GraphError::InvalidNodeLabel));
    assert_eq!(g.label_node(b, String::from("")), Err(GraphError::InvalidNodeLabel));
    assert_eq!(g.label_node(NodeId(42), String::from("x")), Err(GraphError::UnknownNode));
    assert_eq!(g.label_node(a, String::from("lead")), Ok(()));
}

#[test]
fn graph_error_messages() {
    assert_eq!(GraphError::Cycle.to_string(), "graph connection would create a cycle");
    assert_eq!(GraphError::ExternalSound(String::from("gone")).to_string(), "external sound source failed: gone");
    assert_eq!(GraphError::UnsupportedPanningModel.to_string(), "unsupported panning model: HRTF is not implemented");
}

#[test]
fn bare_node_ids_belong_to_every_context() {
    let id = NodeId(3);
    assert_eq!(id.node_id(), NodeId(3));
    assert_eq!(id.context_identity(), None);
    assert_eq!(check_handle_context(17, &id), Ok(()));
}

#[test]
fn a_cycle_into_a_delay_only_through_its_parameter_is_refused() {
    let (mut g, a, _, d) = chain();
    assert_eq!(g.connect_nodes(d, a), Ok(()));
    assert_eq!(g.connect_param_node(a, ParamId { node: d, param: 0 }), Err(GraphError::Cycle));
    assert_eq!(g.connect_nodes(a, d), Ok(()));
    assert!(g.compile_order().is_ok());
}
