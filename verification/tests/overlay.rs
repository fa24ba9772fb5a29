use runtime_core::primitives::overlay::{build_overlay_portal, overlay, BackdropMode, Node};

fn pointer_events_none(el: &Node<u32>) -> Option<bool> {
    match el {
        Node::Portal { pointer_events_none, .. } => Some(*pointer_events_none),
        _ => None,
    }
}

#[test]
fn click_through_marks_portal_root_pointer_events_none() {
    let el: Node<u32> = overlay(vec![]).backdrop(BackdropMode::Off).click_through(true).build(0);
    assert_eq!(
        pointer_events_none(&el),
        Some(true),
        "click-through overlay must mark its portal root pointer-events:none",
    );
}

#[test]
fn default_overlay_leaves_portal_interactive() {
    let el: Node<u32> = overlay(vec![]).build(0);
    assert_eq!(
        pointer_events_none(&el),
        Some(false),
        "a modal overlay must not mark its portal click-through",
    );
}

fn layers(el: &Node<u32>) -> &Vec<Node<u32>> {
    match el {
        Node::Portal { children, .. } => children,
        _ => panic!("not a portal"),
    }
}

fn click_of(el: &Node<u32>) -> Option<u32> {
    match el {
        Node::Pressable { on_click, .. } => Some(*on_click),
        _ => None,
    }
}

#[test]
fn dismiss_backdrop_fires_on_dismiss() {
    let el = build_overlay_portal(vec![Node::View { children: vec![] }], BackdropMode::Dismiss, Some(7u32), 0, true, false);
    let ls = layers(&el);
    assert_eq!(ls.len(), 2);
    assert_eq!(click_of(&ls[0]), Some(7));
    match &ls[1] {
        Node::View { children } => assert_eq!(children.len(), 1),
        _ => panic!("content layer must be a view"),
    }
    match &el {
        Node::Portal { on_dismiss, trap_focus, .. } => {
            assert_eq!(*on_dismiss, Some(7));
            assert!(*trap_focus);
        }
        _ => panic!("not a portal"),
    }
}

#[test]
fn dismiss_backdrop_without_handler_is_noop() {
    let el = build_overlay_portal(vec![], BackdropMode::Dismiss, None, 3u32, false, false);
    assert_eq!(click_of(&layers(&el)[0]), Some(3));
}

#[test]
fn opaque_backdrop_swallows_clicks() {
    let el = build_overlay_portal(vec![], BackdropMode::Opaque, Some(7u32), 3, true, false);
    let ls = layers(&el);
    assert_eq!(ls.len(), 2);
    assert_eq!(click_of(&ls[0]), Some(3));
}

#[test]
fn no_backdrop_has_content_only() {
    let el = build_overlay_portal(vec![], BackdropMode::Off, Some(7u32), 3, true, true);
    let ls = layers(&el);
    assert_eq!(ls.len(), 1);
    assert!(matches!(ls[0], Node::View { .. }));
    assert_eq!(pointer_events_none(&el), Some(true));
}
