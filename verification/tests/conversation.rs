use dontspeak::conversation::{
    CenterAction, ConversationItem, ConversationView, Hosted, ItemEvent, MoveAction, PaneEvent,
    PanelState, TitleStrip, Transfer, Workspace, TELEMETRY_EVENT,
};

/// A live view, as the agent panel builds it.
fn view(number: u64) -> ConversationView {
    ConversationView {
        view_id: number,
        thread_id: 100 + u128::from(number),
        root_session_id: Some(format!("session-{number}")),
        title: format!("Thread {number}"),
    }
}

#[test]
fn test_tab_content_text_is_thread_title() {
    let conversation_view = view(1);
    let expected = conversation_view.title.clone();
    let item = ConversationItem::new(conversation_view);
    assert_eq!(item.tab_content_text(), expected);
}

#[test]
fn test_renders_as_center_pane_item() {
    let mut workspace = Workspace::new();
    let conversation_view = view(1);
    let (view_id, thread_id) = (conversation_view.view_id, conversation_view.thread_id);
    assert_eq!(
        ConversationItem::deploy(conversation_view, &mut workspace),
        CenterAction::Add { thread_id }
    );

    assert_eq!(workspace.items().len(), 1);
    let active = ConversationItem::find_for_thread(&workspace, thread_id)
        .expect("center pane should have an item");
    assert_eq!(active.conversation_view().view_id, view_id);
    assert!(active.is_view_visible(view_id, Hosted::InPane { active: true }));
}

#[test]
fn test_events_update_tab() {
    assert_eq!(ConversationItem::item_events(), vec![ItemEvent::UpdateTab]);
}

#[test]
fn test_host_visibility_tracks_pane_active_item() {
    let conversation_view = view(1);
    let view_id = conversation_view.view_id;
    let item = ConversationItem::new(conversation_view);
    assert!(
        item.is_view_visible(view_id, Hosted::InPane { active: true }),
        "the view should be visible while its item is the active pane item"
    );
    assert!(
        !item.is_view_visible(view_id, Hosted::InPane { active: false }),
        "the view should be hidden while another pane item is active"
    );
    assert!(!item.is_view_visible(view_id + 1, Hosted::InPane { active: true }));
    assert!(!item.is_view_visible(view_id, Hosted::NoPane));
    assert!(!item.is_view_visible(view_id, Hosted::WorkspaceGone));
}

#[test]
fn test_reveal_thread_activates_item() {
    let conversation_view = view(1);
    let thread_id = conversation_view.thread_id;
    let item = ConversationItem::new(conversation_view);
    assert_eq!(
        item.reveal_thread(Hosted::InPane { active: false }),
        Some(CenterAction::Activate {
            thread_id,
            focus: true
        }),
        "reveal_thread should re-activate the item hosting the thread"
    );
    assert_eq!(item.reveal_thread(Hosted::WorkspaceGone), None);
}

#[test]
fn test_open_thread_in_center_transfers_panel_thread() {
    let mut workspace = Workspace::new();
    let taken = view(1);
    let (view_id, thread_id) = (taken.view_id, taken.thread_id);

    assert_eq!(
        ConversationItem::open_visible_panel_thread_in_center(
            &workspace,
            PanelState::Showing(thread_id)
        ),
        Transfer::TakeFromPanel
    );
    assert_eq!(
        ConversationItem::finish_transfer(Some(taken), &mut workspace),
        Some(CenterAction::Add { thread_id }),
        "the visible thread should transfer to the center"
    );

    // The item hosts the same live view; nothing was rebuilt.
    let item = ConversationItem::find_for_thread(&workspace, thread_id).unwrap();
    assert_eq!(item.conversation_view().view_id, view_id);

    // Exactly one center item hosts it.
    assert_eq!(workspace.items().len(), 1);

    // A second transfer activates it.
    assert_eq!(
        ConversationItem::open_visible_panel_thread_in_center(
            &workspace,
            PanelState::Showing(thread_id)
        ),
        Transfer::Activate {
            thread_id,
            focus: true
        }
    );
}

#[test]
fn test_open_thread_in_center_ignores_empty_draft() {
    let mut workspace = Workspace::new();
    let item = ConversationItem::finish_transfer(None, &mut workspace);
    assert!(
        item.is_none(),
        "an empty ephemeral draft has nothing to host in the center"
    );
    assert_eq!(workspace.items().len(), 0);
    for panel in [PanelState::Missing, PanelState::NoThread] {
        assert_eq!(
            ConversationItem::open_visible_panel_thread_in_center(&workspace, panel),
            Transfer::Nothing
        );
    }
}

#[test]
fn test_deploy_dedupes_items_per_thread() {
    let mut workspace = Workspace::new();
    let first = ConversationItem::deploy(view(1), &mut workspace);
    let second = ConversationItem::deploy(view(1), &mut workspace);

    assert_eq!(first, CenterAction::Add { thread_id: 101 });
    assert_eq!(
        second,
        CenterAction::Activate {
            thread_id: 101,
            focus: true
        },
        "deploying an already-hosted thread should activate the existing item"
    );
    assert_eq!(workspace.items().len(), 1);
}

#[test]
fn test_move_thread_to_panel_reverses_transfer() {
    let mut workspace = Some(Workspace::new());
    ConversationItem::deploy(view(1), workspace.as_mut().unwrap());
    ConversationItem::deploy(view(2), workspace.as_mut().unwrap());
    let item = ConversationItem::new(view(2));

    assert_eq!(
        item.move_to_panel(&mut workspace, true),
        vec![
            MoveAction::RemoveItem,
            MoveAction::RevealPanel,
            MoveAction::AdoptView { view_id: 2 },
            MoveAction::FocusPanel,
        ]
    );

    // The center item is gone, and the other one is not.
    let workspace = workspace.unwrap();
    assert_eq!(workspace.items().len(), 1);
    assert!(ConversationItem::find_for_thread(&workspace, 102).is_none());
    assert!(ConversationItem::find_for_thread(&workspace, 101).is_some());
}

#[test]
fn test_activate_for_thread_routes_to_center_item() {
    let mut workspace = Workspace::new();
    ConversationItem::deploy(view(1), &mut workspace);
    ConversationItem::deploy(view(2), &mut workspace);

    assert_eq!(
        ConversationItem::activate_for_thread(&workspace, 101, true),
        Some(CenterAction::Activate {
            thread_id: 101,
            focus: true
        }),
        "the center item should be found and activated"
    );
    assert_eq!(
        ConversationItem::activate_for_thread(&workspace, 7, true),
        None,
        "unknown threads fall back to the agent-panel path"
    );
}

#[test]
fn test_find_for_session_routes_mentions_to_center_item() {
    let mut workspace = Workspace::new();
    ConversationItem::deploy(
        ConversationView {
            root_session_id: None,
            ..view(3)
        },
        &mut workspace,
    );
    ConversationItem::deploy(view(1), &mut workspace);

    assert_eq!(
        ConversationItem::find_for_session(&workspace, "session-1")
            .map(|found| found.conversation_view().view_id),
        Some(1)
    );
    assert!(
        ConversationItem::find_for_session(&workspace, "unknown").is_none(),
        "unknown sessions fall back to the agent-panel path"
    );
}

#[test]
fn a_move_without_a_panel_or_a_workspace_does_nothing() {
    let item = ConversationItem::new(view(1));
    assert_eq!(item.move_to_panel(&mut None, true), vec![]);
    let mut workspace = Some(Workspace::new());
    ConversationItem::deploy(view(1), workspace.as_mut().unwrap());
    assert_eq!(item.move_to_panel(&mut workspace, false), vec![]);
    assert_eq!(workspace.unwrap().items().len(), 1);
}

#[test]
fn an_item_in_no_pane_is_adopted_without_a_removal() {
    let item = ConversationItem::new(view(1));
    assert_eq!(
        item.move_to_panel(&mut Some(Workspace::new()), true),
        vec![
            MoveAction::RevealPanel,
            MoveAction::AdoptView { view_id: 1 },
            MoveAction::FocusPanel,
        ]
    );
}

#[test]
fn a_closed_item_makes_room_for_its_thread() {
    let mut workspace = Workspace::new();
    ConversationItem::deploy(view(1), &mut workspace);
    workspace.remove(101);
    workspace.remove(101);
    assert_eq!(
        ConversationItem::deploy(view(1), &mut workspace),
        CenterAction::Add { thread_id: 101 }
    );
}

#[test]
fn the_title_can_be_edited_unless_it_is_being_generated() {
    let item = ConversationItem::new(view(1));
    assert_eq!(item.render_title(false, true), TitleStrip::Label);
    assert_eq!(item.render_title(false, false), TitleStrip::Label);
    assert_eq!(item.render_title(true, true), TitleStrip::PulsingLabel);
    assert_eq!(item.render_title(true, false), TitleStrip::Editor);
}

#[test]
fn activation_and_focus_of_the_pane_may_reveal_a_view() {
    assert!(ConversationItem::may_reveal(PaneEvent::ActivateItem));
    assert!(ConversationItem::may_reveal(PaneEvent::Focus));
    assert!(!ConversationItem::may_reveal(PaneEvent::Other));
    assert!(ConversationItem::observable(Hosted::InPane {
        active: false
    }));
    assert!(!ConversationItem::observable(Hosted::NoPane));
    assert_eq!(TELEMETRY_EVENT, "Agent Thread Opened In Center");
}

#[test]
fn a_move_leaves_another_view_of_the_thread_in_its_pane() {
    let mut workspace = Some(Workspace::new());
    ConversationItem::deploy(view(1), workspace.as_mut().unwrap());
    let item = ConversationItem::new(ConversationView {
        view_id: 7,
        ..view(1)
    });
    assert_eq!(
        item.move_to_panel(&mut workspace, true),
        vec![
            MoveAction::RevealPanel,
            MoveAction::AdoptView { view_id: 7 },
            MoveAction::FocusPanel,
        ]
    );
    assert_eq!(workspace.unwrap().items().len(), 1);
}
