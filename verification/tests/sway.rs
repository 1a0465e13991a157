use serde_json::Value;
use shotori::windowsnap::{SwayNode, SwayRect, SwayWindow, sway_windows};

/// The fields of a `GET_TREE` node that the walk reads.
fn node(v: &Value) -> SwayNode {
    let children = |key: &str| -> Vec<SwayNode> {
        v.get(key).and_then(Value::as_array).map(|a| a.iter().map(node).collect()).unwrap_or_default()
    };
    SwayNode {
        app_id: v.get("app_id").and_then(Value::as_str).map(str::to_owned),
        window: v.get("window").and_then(Value::as_i64),
        visible: v.get("visible").and_then(Value::as_bool),
        focused: v.get("focused").and_then(Value::as_bool),
        rect: v.get("rect").map(|r| SwayRect {
            x: r["x"].as_i64().unwrap_or_default(),
            y: r["y"].as_i64().unwrap_or_default(),
            width: r["width"].as_i64().unwrap_or(0),
            height: r["height"].as_i64().unwrap_or(0),
        }),
        class: v.pointer("/window_properties/class").and_then(Value::as_str).map(str::to_owned),
        nodes: children("nodes"),
        floating_nodes: children("floating_nodes"),
    }
}

fn walk(json: &str) -> Vec<SwayWindow> {
    let tree: Value = serde_json::from_str(json).unwrap();
    sway_windows(&node(&tree))
}

/// Trimmed sway `GET_TREE` shape: root → output → workspace →
/// tiled window + floating window, plus an invisible workspace.
const TREE: &str = r#"{
    "id": 1, "name": "root", "type": "root",
    "nodes": [{
        "id": 2, "name": "HDMI-A-1", "type": "output",
        "nodes": [{
            "id": 3, "name": "1", "type": "workspace", "visible": true,
            "nodes": [{
                "id": 4, "name": "Alacritty", "type": "con",
                "app_id": "Alacritty", "window": null, "visible": true,
                "focused": false,
                "rect": {"x": 0, "y": 0, "width": 954, "height": 1048}
            }],
            "floating_nodes": [{
                "id": 5, "name": "pavucontrol", "type": "floating_con",
                "app_id": "pavucontrol", "window": null, "visible": true,
                "focused": true,
                "rect": {"x": 300, "y": 200, "width": 500, "height": 400}
            }]
        }, {
            "id": 6, "name": "2", "type": "workspace", "visible": false,
            "nodes": [{
                "id": 7, "name": "hidden editor", "type": "con",
                "app_id": "nvim", "window": null, "visible": false,
                "rect": {"x": 0, "y": 0, "width": 954, "height": 1048}
            }],
            "floating_nodes": []
        }]
    }]
}"#;

#[test]
fn collects_visible_tiled_and_floating_skips_inactive() {
    let rects = walk(TREE);
    assert_eq!(rects.len(), 2, "hidden workspace window must be skipped");

    assert_eq!(rects[0].app_id, "Alacritty");
    assert_eq!((rects[0].rect.x, rects[0].rect.y), (0, 0));
    assert!(!rects[0].focused);

    assert_eq!(rects[1].app_id, "pavucontrol");
    assert!(rects[1].focused);
    assert_eq!((rects[1].rect.width, rects[1].rect.height), (500, 400));
}

#[test]
fn xwayland_window_uses_window_properties_class() {
    let rects = walk(
        r#"{"id": 9, "type": "con", "app_id": null, "window": 12345,
            "visible": true,
            "window_properties": {"class": "Steam"},
            "rect": {"x": 10, "y": 20, "width": 100, "height": 50}}"#,
    );
    assert_eq!(rects.len(), 1);
    assert_eq!(rects[0].app_id, "Steam");
}

#[test]
fn containers_zero_windows_and_empty_rects_are_skipped() {
    // a visible container with a rect but neither app id nor window
    assert!(walk(r#"{"visible": true, "rect": {"x": 0, "y": 0, "width": 10, "height": 10}}"#).is_empty());
    // an X11 window id of 0 is no window
    assert!(walk(r#"{"window": 0, "visible": true, "rect": {"x": 0, "y": 0, "width": 10, "height": 10}}"#).is_empty());
    // zero-sized and rect-less windows
    assert!(walk(r#"{"app_id": "a", "visible": true, "rect": {"x": 0, "y": 0, "width": 0, "height": 10}}"#).is_empty());
    assert!(walk(r#"{"app_id": "a", "visible": true}"#).is_empty());
    // visibility missing counts as hidden; focus missing as unfocused
    assert!(walk(r#"{"app_id": "a", "rect": {"x": 0, "y": 0, "width": 5, "height": 5}}"#).is_empty());
    let r = walk(r#"{"window": 7, "visible": true, "rect": {"x": 1, "y": 2, "width": 5, "height": 5}}"#);
    assert_eq!(r.len(), 1);
    assert_eq!(r[0].app_id, "");
    assert!(!r[0].focused);
}

#[test]
fn a_window_node_still_walks_its_children_tiled_first() {
    let r = walk(
        r#"{"app_id": "parent", "visible": true, "rect": {"x": 0, "y": 0, "width": 9, "height": 9},
            "floating_nodes": [{"app_id": "f", "visible": true, "rect": {"x": 0, "y": 0, "width": 1, "height": 1}}],
            "nodes": [{"app_id": "t", "visible": true, "rect": {"x": 0, "y": 0, "width": 1, "height": 1}}]}"#,
    );
    let names: Vec<&str> = r.iter().map(|w| w.app_id.as_str()).collect();
    assert_eq!(names, vec!["parent", "t", "f"]);
}
