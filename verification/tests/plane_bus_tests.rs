use sdn_core::bus::{CrossHandlerRoute, NetDecision, PlaneBus};
use sdn_core::identity::ConnId;
use sdn_core::plane::{InternalDispatch, NetworkBehaviorAction, NetworkPlaneInternalEvent, PlaneInternal, PlaneInternalAction};
use sdn_core::router::{resolve_path_to_key, resolve_path_to_node, resolve_path_to_service, RouteAction, ServiceDestination};
use sdn_core::transport::{ConnLiveness, ConnectionRejectReason};

#[test]
fn bus_tracks_each_conn_once() {
    let mut bus = PlaneBus::new();
    let c1 = ConnId::from_incoming(1);
    let c2 = ConnId::from_outgoing(1);

    assert!(bus.add_conn(10, c1));
    assert!(bus.add_conn(10, c2));
    assert!(!bus.add_conn(11, c1));

    assert_eq!(bus.conn_node(c1), Some(10));
    assert!(bus.remove_conn(10, c1));
    assert!(!bus.remove_conn(10, c1));
    assert_eq!(bus.conn_node(c1), None);
    assert_eq!(bus.conn_node(c2), Some(10));
}

#[test]
fn bus_routes_handler_events() {
    let mut bus = PlaneBus::new();
    let c1 = ConnId::from_incoming(1);
    let c2 = ConnId::from_incoming(2);
    bus.add_conn(10, c1);
    bus.add_conn(10, c2);

    assert_eq!(bus.send_to_handler(CrossHandlerRoute::Conn(c2)), Some(c2));
    assert_eq!(
        bus.send_to_handler(CrossHandlerRoute::Conn(ConnId::from_incoming(9))),
        None
    );
    // the oldest connection of the node wins
    assert_eq!(bus.send_to_handler(CrossHandlerRoute::NodeFirst(10)), Some(c1));
    assert_eq!(bus.send_to_handler(CrossHandlerRoute::NodeFirst(11)), None);
}

#[test]
fn bus_decides_net_messages_by_router_verdict() {
    let mut bus = PlaneBus::new();
    let c1 = ConnId::from_outgoing(5);
    bus.add_conn(20, c1);

    assert_eq!(bus.send_to_net(RouteAction::Reject), NetDecision::Drop);
    assert_eq!(bus.send_to_net(RouteAction::Local), NetDecision::DeliverLocal);
    assert_eq!(bus.send_to_net(RouteAction::Next(c1, 20)), NetDecision::Forward(c1));
    assert_eq!(
        bus.send_to_net(RouteAction::Next(ConnId::from_outgoing(6), 20)),
        NetDecision::Drop
    );
}

#[test]
fn bus_closes_every_conn_of_a_node() {
    let mut bus = PlaneBus::new();
    let c1 = ConnId::from_incoming(1);
    let c2 = ConnId::from_outgoing(2);
    let c3 = ConnId::from_incoming(3);
    bus.add_conn(10, c1);
    bus.add_conn(11, c2);
    bus.add_conn(10, c3);

    assert_eq!(bus.close_node(10), vec![c1, c3]);
    assert_eq!(bus.close_node(12), Vec::<ConnId>::new());
    assert!(bus.close_conn(c2));
    assert!(!bus.close_conn(ConnId::from_outgoing(9)));
}

#[test]
fn plane_first_veto_wins() {
    let mut plane: PlaneInternal<u8, u8> = PlaneInternal::new(1, vec![0, 4]);

    assert_eq!(plane.on_connection_request(false, 7, vec![None, None]), Ok(()));
    assert_eq!(plane.pop_action(), None);

    assert_eq!(
        plane.on_connection_request(
            false,
            7,
            vec![None, Some(ConnectionRejectReason::ConnectionLimited), Some(ConnectionRejectReason::ValidateError)]
        ),
        Err(ConnectionRejectReason::ConnectionLimited)
    );

    assert_eq!(plane.on_connection_request(true, 8, vec![None]), Ok(()));
    assert_eq!(
        plane.pop_action(),
        Some(PlaneInternalAction::ContinuePendingOutgoingConnection(8))
    );

    assert_eq!(
        plane.on_connection_request(true, 9, vec![Some(ConnectionRejectReason::ValidateError)]),
        Err(ConnectionRejectReason::ValidateError)
    );
    assert_eq!(
        plane.pop_action(),
        Some(PlaneInternalAction::DropPendingOutgoingConnection(9))
    );
}

#[test]
fn plane_behavior_actions_drain_in_production_order() {
    let mut plane: PlaneInternal<u8, u8> = PlaneInternal::new(1, vec![4]);

    plane.on_behavior_actions(4, vec![
        NetworkBehaviorAction::CloseNode(7),
        NetworkBehaviorAction::CloseConn(ConnId::from_incoming(3)),
    ]);
    plane.on_behavior_actions(5, vec![NetworkBehaviorAction::CloseNode(8)]);

    assert_eq!(
        plane.pop_action(),
        Some(PlaneInternalAction::BehaviorAction(4, NetworkBehaviorAction::CloseNode(7)))
    );
    assert_eq!(
        plane.pop_action(),
        Some(PlaneInternalAction::BehaviorAction(
            4,
            NetworkBehaviorAction::CloseConn(ConnId::from_incoming(3))
        ))
    );
    assert_eq!(
        plane.pop_action(),
        Some(PlaneInternalAction::BehaviorAction(5, NetworkBehaviorAction::CloseNode(8)))
    );
    assert_eq!(plane.pop_action(), None);
}

#[test]
fn plane_spawns_established_connections() {
    let mut plane: PlaneInternal<u8, u8> = PlaneInternal::new(1, vec![0, 4]);
    let conn = ConnId::from_incoming(3);

    plane.on_connection_established(false, 9, conn, vec![true, false]);
    assert_eq!(
        plane.pop_action(),
        Some(PlaneInternalAction::SpawnConnection {
            outgoing: false,
            node: 9,
            conn,
            handlers: vec![true, false]
        })
    );
}

#[test]
fn liveness_closes_after_ten_seconds_without_pong() {
    let mut live = ConnLiveness::new(0);
    assert!(!live.on_tick(1000));
    assert!(!live.on_tick(10000));
    assert_eq!(live.on_pong(5000, 4990), 10);
    assert!(!live.on_tick(15000));
    assert!(live.on_tick(15001));
    // once closed, closed for good
    assert!(live.on_tick(0));
}

#[test]
fn router_verdicts_compose_as_documented() {
    let conn = ConnId::from_outgoing(3);

    assert_eq!(resolve_path_to_node(1, 1, None), RouteAction::Local);
    assert_eq!(resolve_path_to_node(1, 2, Some((conn, 2))), RouteAction::Next(conn, 2));
    assert_eq!(resolve_path_to_node(1, 2, None), RouteAction::Reject);

    assert_eq!(resolve_path_to_key(Some((conn, 2))), RouteAction::Next(conn, 2));
    assert_eq!(resolve_path_to_key(None), RouteAction::Local);

    assert_eq!(resolve_path_to_service(Some(ServiceDestination::Local)), RouteAction::Local);
    assert_eq!(
        resolve_path_to_service(Some(ServiceDestination::Remote(conn, 2))),
        RouteAction::Next(conn, 2)
    );
    assert_eq!(resolve_path_to_service(None), RouteAction::Reject);
}

#[test]
fn plane_internal_events_dispatch_and_update_pending() {
    let mut plane: PlaneInternal<u8, u8> = PlaneInternal::new(1, vec![4]);
    let conn = ConnId::from_outgoing(5);

    assert_eq!(
        plane.on_internal_event::<u8>(NetworkPlaneInternalEvent::OutgoingRequest(9, conn)),
        InternalDispatch::Recorded
    );
    assert_eq!(
        plane.on_internal_event::<u8>(NetworkPlaneInternalEvent::AwakeBehaviour { service_id: 4 }),
        InternalDispatch::Awake(4)
    );
    assert_eq!(
        plane.on_internal_event::<u8>(NetworkPlaneInternalEvent::ToBehaviourFromHandler {
            service_id: 4,
            node_id: 9,
            conn_id: conn,
            event: 7,
        }),
        InternalDispatch::HandlerEvent(4, 9, conn, 7)
    );
    assert_eq!(
        plane.on_internal_event::<u8>(NetworkPlaneInternalEvent::OutgoingDisconnected(9, conn)),
        InternalDispatch::Disconnected { outgoing: true, node: 9, conn }
    );
}
