use runtime_core::robot::navigators::{nav_snapshot_json, NavSnapshot};

#[test]
fn navigator_record_is_json() {
    let s = NavSnapshot {
        nav_id: 4,
        element_id: Some(3),
        kind_name: "stack_navigator::Presentation".to_string(),
        active_route: "detail".to_string(),
        active_path: "/detail/7".to_string(),
        depth: 2,
        can_go_back: true,
        is_current: true,
        base: "/".to_string(),
        stack: vec![("home".to_string(), "/".to_string()), ("detail".to_string(), "/detail/7".to_string())],
    };
    let out = nav_snapshot_json(&s);
    assert_eq!(
        out,
        "{\"nav_id\":4,\"element_id\":3,\"type_name\":\"stack_navigator::Presentation\",\"active_route\":\"detail\",\
\"active_path\":\"/detail/7\",\"depth\":2,\"can_go_back\":true,\"is_current\":true,\"base\":\"/\",\
\"stack\":[{\"route\":\"home\",\"path\":\"/\"},{\"route\":\"detail\",\"path\":\"/detail/7\"}]}"
    );
    let v: serde_json::Value = serde_json::from_str(&out).unwrap();
    assert_eq!(v["stack"][1]["route"], "detail");
    let none = NavSnapshot { element_id: None, stack: vec![], ..s };
    assert!(nav_snapshot_json(&none).contains("\"element_id\":null"));
    assert!(nav_snapshot_json(&none).ends_with("\"stack\":[]}"));
}
