use zellij_agent_threads::pane_size::{
    resize_border_direction, resize_plan, Direction, LayoutPane, PaneSizeConfig, PaneSizeEffect,
    PaneSizeService, Resize, SIZE_PIPE_NAME,
};
use zellij_agent_threads::runtime::PaneId;

fn pane(id: u32, pane_x: usize, pane_columns: usize) -> LayoutPane {
    LayoutPane {
        id,
        is_plugin: true,
        plugin_url: None,
        pane_x,
        pane_columns,
        pane_content_columns: 0,
    }
}

fn message(collapsed: bool, target_cols: usize, revision: u64, source: u32) -> String {
    format!(
        "{{\"kind\":\"pane_size\",\"collapsed\":{collapsed},\"target_cols\":{target_cols},\"revision\":{revision},\"source_plugin_id\":{source}}}"
    )
}

#[test]
fn ignores_old_revisions_from_same_source() {
    let mut service = PaneSizeService::new(PaneSizeConfig::default());
    let payload = message(true, 8, 1, 7);

    assert_eq!(
        service
            .handle_pipe(SIZE_PIPE_NAME, Some(&payload), None, 0)
            .unwrap()
            .collapsed,
        true
    );
    assert_eq!(service.handle_pipe(SIZE_PIPE_NAME, Some(&payload), None, 0), None);
}

#[test]
fn local_toggle_returns_resize_and_peer_messages() {
    let mut service = PaneSizeService::new(PaneSizeConfig::default());
    service.peers = vec![2, 3];

    let effects = service.local_toggle(Some(1), true, 16);

    assert_eq!(effects.len(), 3);
    assert!(matches!(
        effects[0],
        PaneSizeEffect::ResizePluginPane {
            pane_id: PaneId::Plugin(1),
            current_cols: 16,
            target_cols: 8,
            direction: None,
        }
    ));
    assert!(matches!(
        effects[1],
        PaneSizeEffect::SendControlMessage { peer: 2, .. }
    ));
    assert!(matches!(
        effects[2],
        PaneSizeEffect::SendControlMessage { peer: 3, .. }
    ));
}

#[test]
fn chooses_right_border_for_left_sidebar() {
    let own = pane(1, 0, 8);
    let main = pane(2, 8, 72);

    assert_eq!(
        resize_border_direction(&own, &vec![own.clone(), main]),
        Some(Direction::Right)
    );
}

#[test]
fn chooses_left_border_for_right_sidebar() {
    let main = pane(1, 0, 72);
    let own = pane(2, 72, 8);

    assert_eq!(
        resize_border_direction(&own, &vec![main, own.clone()]),
        Some(Direction::Left)
    );
}

#[test]
fn chooses_border_against_terminal_neighbor() {
    let own = pane(1, 0, 8);
    let terminal = LayoutPane {
        id: 2,
        is_plugin: false,
        plugin_url: None,
        pane_x: 8,
        pane_columns: 72,
        pane_content_columns: 0,
    };

    assert_eq!(
        resize_border_direction(&own, &vec![own.clone(), terminal]),
        Some(Direction::Right)
    );
}

#[test]
fn lone_pane_has_no_resize_border() {
    let own = pane(1, 0, 8);
    assert_eq!(resize_border_direction(&own, &vec![own.clone()]), None);
}

#[test]
fn toggle_message_announces_new_revision() {
    let mut service = PaneSizeService::new(PaneSizeConfig::default());
    service.peers = vec![4];
    let effects = service.local_toggle(Some(1), false, 8);
    assert_eq!(service.revision, 1);
    assert_eq!(
        effects[1],
        PaneSizeEffect::SendControlMessage {
            peer: 4,
            payload: message(false, 16, 1, 1),
        }
    );
}

#[test]
fn newer_revision_resizes_to_announced_width() {
    let mut service = PaneSizeService::new(PaneSizeConfig::default());
    let first = message(true, 8, 1, 7);
    let second = message(false, 16, 2, 7);
    assert!(service.handle_pipe(SIZE_PIPE_NAME, Some(&first), Some(1), 16).is_some());
    let update = service
        .handle_pipe(SIZE_PIPE_NAME, Some(&second), Some(1), 8)
        .unwrap();
    assert!(!update.collapsed);
    assert_eq!(
        update.effects,
        vec![PaneSizeEffect::ResizePluginPane {
            pane_id: PaneId::Plugin(1),
            current_cols: 8,
            target_cols: 16,
            direction: None,
        }]
    );
}

#[test]
fn messages_from_self_or_other_pipes_are_ignored() {
    let mut service = PaneSizeService::new(PaneSizeConfig::default());
    let own = message(true, 8, 1, 1);
    assert_eq!(service.handle_pipe(SIZE_PIPE_NAME, Some(&own), Some(1), 16), None);
    let other = message(true, 8, 1, 7);
    assert_eq!(service.handle_pipe("other", Some(&other), Some(1), 16), None);
    assert_eq!(service.handle_pipe(SIZE_PIPE_NAME, Some("not json"), Some(1), 16), None);
    assert_eq!(service.handle_pipe(SIZE_PIPE_NAME, None, Some(1), 16), None);
}

#[test]
fn resize_plan_steps_towards_target() {
    assert_eq!(resize_plan(16, 8), Some((Resize::Decrease, 8)));
    assert_eq!(resize_plan(8, 16), Some((Resize::Increase, 8)));
    assert_eq!(resize_plan(8, 8), None);
    assert_eq!(resize_plan(0, 8), None);
}

#[test]
fn target_cols_follow_collapsed_state() {
    let service = PaneSizeService::new(PaneSizeConfig::default());
    assert_eq!(service.target_cols_for_state(true), 8);
    assert_eq!(service.target_cols_for_state(false), 16);
}

#[test]
fn size_message_in_array_form_is_applied() {
    let mut service = PaneSizeService::new(PaneSizeConfig::default());
    let update = service
        .handle_pipe(SIZE_PIPE_NAME, Some("[\"pane_size\",false,16,2,7]"), Some(1), 8)
        .unwrap();
    assert!(!update.collapsed);
    assert_eq!(
        update.effects,
        vec![PaneSizeEffect::ResizePluginPane {
            pane_id: PaneId::Plugin(1),
            current_cols: 8,
            target_cols: 16,
            direction: None,
        }]
    );
}

#[test]
fn size_message_array_must_hold_every_field() {
    let mut service = PaneSizeService::new(PaneSizeConfig::default());
    assert_eq!(service.handle_pipe(SIZE_PIPE_NAME, Some("[\"pane_size\",false,16,2]"), Some(1), 8), None);
    assert_eq!(service.handle_pipe(SIZE_PIPE_NAME, Some("[\"pane_size\",false,16,2,7,0]"), Some(1), 8), None);
    let extra = "{\"kind\":\"pane_size\",\"collapsed\":false,\"target_cols\":16,\"revision\":2,\"source_plugin_id\":7,\"note\":\"x\"}";
    assert!(service.handle_pipe(SIZE_PIPE_NAME, Some(extra), Some(1), 8).is_some());
}
