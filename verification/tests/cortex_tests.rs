use chimera::cortex::{
    build_ax_tree, count_clickable, count_interactive, engine_clean, find_roi,
    tostring_wrapped_warning, AxBounds, AxNode, AxTree, EngineProbe, FusionState, RawAxNode,
};

fn raw(
    id: &str,
    role: &str,
    name: Option<&str>,
    parent: Option<&str>,
    bounds: Option<AxBounds>,
    children: Vec<&str>,
) -> RawAxNode {
    RawAxNode {
        node_id: id.to_string(),
        role: role.to_string(),
        name: name.map(|s| s.to_string()),
        value: None,
        parent_id: parent.map(|s| s.to_string()),
        bounds,
        state: Vec::new(),
        child_ids: children.iter().map(|s| s.to_string()).collect(),
    }
}

fn b(x: i64, y: i64, w: i64, h: i64) -> AxBounds {
    AxBounds { x, y, width: w, height: h }
}

#[test]
fn noise_roles_are_dropped_and_children_lifted() {
    // root -> generic container -> button: the container is dropped and
    // the button's parent becomes the root
    let nodes = vec![
        raw("1", "RootWebArea", None, None, None, vec!["2"]),
        raw("2", "generic", None, Some("1"), None, vec!["3"]),
        raw("3", "button", Some("Submit"), Some("2"), Some(b(10, 20, 100, 30)), vec![]),
    ];
    let tree = build_ax_tree(&nodes);
    assert_eq!(tree.nodes.len(), 2);
    assert_eq!(tree.nodes[0].node_id, "1");
    assert_eq!(tree.nodes[1].node_id, "3");
    assert_eq!(tree.nodes[1].parent_id, Some("1".to_string()));
    for n in &tree.nodes {
        assert!(n.role != "generic" && n.role != "LayoutTable" && n.role != "presentation");
        if let Some(pid) = &n.parent_id {
            assert!(tree.nodes.iter().any(|m| &m.node_id == pid));
        }
    }
}

#[test]
fn noise_root_lifts_children_to_top_level() {
    let nodes = vec![
        raw("1", "presentation", None, None, None, vec!["2", "3"]),
        raw("2", "link", Some("Home"), Some("1"), Some(b(0, 0, 50, 20)), vec![]),
        raw("3", "LayoutTable", None, Some("1"), None, vec!["4"]),
        raw("4", "textbox", Some("Search"), Some("3"), Some(b(60, 0, 200, 20)), vec![]),
    ];
    let tree = build_ax_tree(&nodes);
    assert_eq!(tree.nodes.len(), 2);
    assert_eq!(tree.nodes[0].node_id, "2");
    assert_eq!(tree.nodes[0].parent_id, None);
    assert_eq!(tree.nodes[1].node_id, "4");
    assert_eq!(tree.nodes[1].parent_id, None);
}

#[test]
fn roi_is_the_union_box() {
    let nodes = vec![
        raw("1", "RootWebArea", None, None, None, vec!["2", "3", "4"]),
        raw("2", "button", Some("Alpha"), Some("1"), Some(b(10, 10, 20, 20)), vec![]),
        raw("3", "button", Some("Beta"), Some("1"), Some(b(100, 50, 40, 10)), vec![]),
        raw("4", "link", Some("Gamma"), Some("1"), Some(b(500, 500, 10, 10)), vec![]),
    ];
    let tree = build_ax_tree(&nodes);
    let roi = find_roi(&tree, "button", None).unwrap();
    assert_eq!((roi.x, roi.y), (10, 10));
    assert_eq!((roi.width, roi.height), (140 - 10, 60 - 10));
    // case-insensitive name filtering
    let alpha = find_roi(&tree, "button", Some("ALPHA")).unwrap();
    assert_eq!((alpha.x, alpha.y, alpha.width, alpha.height), (10, 10, 20, 20));
    assert!(find_roi(&tree, "slider", None).is_none());
    assert!(find_roi(&tree, "button", Some("Delta")).is_none());
}

#[test]
fn clickable_counts() {
    let mk = |role: &str| AxNode {
        node_id: "x".to_string(),
        role: role.to_string(),
        name: None,
        value: None,
        parent_id: None,
        bounds: None,
        state: Vec::new(),
    };
    let tree = AxTree {
        nodes: vec![
            mk("button"),
            mk("link"),
            mk("textbox"),
            mk("checkbox"),
            mk("radio"),
            mk("menuitem"),
            mk("tab"),
            mk("option"),
            mk("heading"),
        ],
    };
    assert_eq!(count_clickable(&tree), 5);
    assert_eq!(count_interactive(&tree), 8);
}

#[test]
fn engine_health_verdict() {
    // all sanitization injected: the probe sees an undefined marker
    let clean = EngineProbe {
        type_of: "undefined".to_string(),
        value_absent: true,
        to_string_signature: None,
    };
    assert!(engine_clean(&clean));
    // sanitization disabled: the native flag leaks through
    let dirty = EngineProbe {
        type_of: "boolean".to_string(),
        value_absent: false,
        to_string_signature: None,
    };
    assert!(!engine_clean(&dirty));
    // a wrapped getter warns but does not decide
    let wrapped = EngineProbe {
        type_of: "undefined".to_string(),
        value_absent: true,
        to_string_signature: Some("function () { return undefined; }".to_string()),
    };
    assert!(engine_clean(&wrapped));
    assert!(tostring_wrapped_warning(&wrapped));
    let native = EngineProbe {
        type_of: "undefined".to_string(),
        value_absent: true,
        to_string_signature: Some("function get webdriver() { [native code] }".to_string()),
    };
    assert!(!tostring_wrapped_warning(&native));
}

#[test]
fn fusion_state_semantic_lookup() {
    let nodes = vec![
        raw("1", "RootWebArea", None, None, None, vec!["2", "3"]),
        raw("2", "button", Some("Go"), Some("1"), Some(b(100, 200, 40, 20)), vec![]),
        raw("3", "button", Some("Stop"), Some("1"), None, vec![]),
    ];
    let tree = build_ax_tree(&nodes);
    let fused = FusionState { screenshot: vec![1, 2, 3], ax_tree: tree };
    assert!(fused.has_element("button", Some("Go")));
    assert!(!fused.has_element("slider", None));
    let idx = fused.find_node("button", Some("Stop")).unwrap();
    assert_eq!(fused.ax_tree.nodes[idx].node_id, "3");
    assert_eq!(fused.get_coordinates("button", Some("Go")), Some((120, 210)));
    assert_eq!(fused.get_coordinates("button", Some("Stop")), None);
}
