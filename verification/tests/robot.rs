use runtime_core::robot::{
    ActionSet, Actions, Element, ElementId, ElementKind, FrameKind, Query, RegistryEntry, Robot, RobotError,
};
use std::cell::Cell;
use std::rc::Rc;

/// Backend actions that count clicks and report a fixed frame.
#[derive(Clone)]
struct Probe {
    clicks: Rc<Cell<u32>>,
}

impl Actions for Probe {
    type Rect = (f32, f32, f32, f32);
    fn click(&self) {
        self.clicks.set(self.clicks.get() + 1);
    }
    fn set_text(&self, _text: String) {}
    fn set_toggle(&self, _value: bool) {}
    fn focus(&self) {}
    fn blur(&self) {}
    fn frame(&self, which: FrameKind) -> Option<Self::Rect> {
        match which {
            FrameKind::Device => Some((10.0, 20.0, 30.0, 40.0)),
            _ => Some((1.0, 2.0, 3.0, 4.0)),
        }
    }
    fn rect_json(r: &Self::Rect) -> String {
        format!("{{\"x\":{},\"y\":{},\"width\":{},\"height\":{}}}", r.0, r.1, r.2, r.3)
    }
}

fn probe() -> Probe {
    Probe { clicks: Rc::new(Cell::new(0)) }
}

fn entry(test_id: &'static str) -> RegistryEntry<Probe> {
    RegistryEntry {
        kind: ElementKind::Text,
        test_id: Some(test_id.to_string()),
        label: None,
        available: ActionSet::empty(),
        actions: probe(),
        parent: None,
        children: Vec::new(),
    }
}

#[test]
fn find_all_returns_every_duplicate_test_id() {
    let mut robot = Robot::new();
    robot.reset();
    robot.register(entry("row-del"));
    robot.register(entry("row-del"));
    robot.register(entry("row-del"));
    robot.register(entry("other"));
    assert_eq!(robot.find_all(Query::test_id("row-del")).len(), 3);
    assert_eq!(robot.find_all(Query::test_id("other")).len(), 1);
    assert!(robot.find(Query::test_id("row-del")).is_some());
    robot.reset();
}

#[test]
fn snapshot_surfaces_orphan_with_dead_parent() {
    let mut robot = Robot::new();
    robot.reset();
    let dead_parent = robot.register(entry("dead-parent"));
    let child = robot.register(RegistryEntry {
        kind: ElementKind::Text,
        test_id: Some("orphan-child".to_string()),
        label: None,
        available: ActionSet::empty(),
        actions: probe(),
        parent: Some(dead_parent),
        children: Vec::new(),
    });
    robot.deregister(dead_parent);
    let tree = robot.snapshot();
    let surfaced = tree.iter().any(|n| n.id == child && n.test_id.as_deref() == Some("orphan-child"));
    assert!(surfaced, "orphaned entry (parent points to a freed slot) must surface as a snapshot root");
    robot.reset();
}

#[test]
fn actions_report_gone_and_unavailable_and_run_when_wired() {
    let mut robot = Robot::new();
    let p = probe();
    let mut available = ActionSet::empty();
    available.click = true;
    available.device_frame = true;
    let id = robot.register(RegistryEntry {
        kind: ElementKind::Button,
        test_id: Some("ok".to_string()),
        label: Some("Save changes".to_string()),
        available,
        actions: p.clone(),
        parent: None,
        children: Vec::new(),
    });
    let el = robot.find(Query::label_contains("changes")).expect("label substring matches");
    assert_eq!(el.id, id);
    assert_eq!(robot.click(&el), Ok(()));
    assert_eq!(p.clicks.get(), 1);
    assert_eq!(robot.focus(&el), Err(RobotError::ActionNotAvailable("focus")));
    assert_eq!(robot.device_frame(&el), Ok(Some((10.0, 20.0, 30.0, 40.0))));
    assert_eq!(robot.frame(&el), Err(RobotError::ActionNotAvailable("frame")));
    assert_eq!(RobotError::ActionNotAvailable("focus").message(), "action 'focus' not available on this element");
    robot.deregister(id);
    assert_eq!(robot.click(&el), Err(RobotError::ElementGone));
    assert_eq!(RobotError::ElementGone.message(), "element has been unmounted");
    assert!(robot.find(Query::test_id("ok")).is_none(), "the test-id index forgets a deregistered element");
}

#[test]
fn tree_queries_follow_live_links() {
    let mut robot = Robot::new();
    let root = robot.register(RegistryEntry { kind: ElementKind::View, ..entry("root") });
    let a = robot.register(RegistryEntry { parent: Some(root), ..entry("a") });
    let b = robot.register(RegistryEntry { parent: Some(root), kind: ElementKind::Button, ..entry("b") });
    robot.add_child(root, a);
    robot.add_child(root, b);
    let root_el = Element { id: root, kind: ElementKind::View, test_id: None, label: None };
    let kids: Vec<ElementId> = robot.children_of(&root_el).iter().map(|e| e.id).collect();
    assert_eq!(kids, vec![a, b]);
    let b_el = robot.find(Query::kind(ElementKind::Button)).unwrap();
    assert_eq!(robot.parent_of(&b_el).map(|p| p.id), Some(root));
    assert_eq!(robot.count(Some(ElementKind::Text)), 1);
    assert_eq!(robot.count(None), 3);
    let tree = robot.subtree(&root_el).unwrap();
    assert_eq!(tree.children.len(), 2);
    robot.deregister(a);
    let kids: Vec<ElementId> = robot.children_of(&root_el).iter().map(|e| e.id).collect();
    assert_eq!(kids, vec![b], "a deregistered child is unlinked from its parent");
    assert_eq!(robot.snapshot().len(), 1);
    assert_eq!(robot.elements().len(), 2);
}
