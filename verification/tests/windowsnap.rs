use shotori::windowsnap::{
    HyprClient, HyprMonitor, MonitorRef, NiriOutput, NiriWindow, NiriWorkspace, focus_recency, keep_client,
    niri_window_output, visible_clients,
};

fn monitors() -> Vec<HyprMonitor> {
    vec![
        HyprMonitor { id: Some(0), name: Some("DP-1".to_string()), active_workspace: Some(1) },
        HyprMonitor { id: Some(1), name: Some("HDMI-A-1".to_string()), active_workspace: Some(3) },
    ]
}

fn client(visible: Option<bool>, mapped: Option<bool>, ws: i64, monitor: MonitorRef) -> HyprClient {
    HyprClient { visible, mapped, workspace: Some(ws), monitor }
}

#[test]
fn keeps_only_active_workspace_windows_per_monitor() {
    let clients = vec![
        client(Some(true), Some(true), 1, MonitorRef::Id(Some(0))), // kitty
        client(Some(true), Some(true), 2, MonitorRef::Id(Some(0))), // hidden-on-ws2
        client(Some(true), Some(true), 3, MonitorRef::Name("HDMI-A-1".to_string())), // firefox
        client(Some(false), Some(false), 1, MonitorRef::Id(Some(0))), // unmapped
        client(None, Some(true), 1, MonitorRef::Id(Some(0))), // legacy-no-visible-field
        client(Some(true), Some(true), -99, MonitorRef::Id(Some(0))), // special
    ];
    assert_eq!(visible_clients(&clients, &monitors()), vec![0, 2, 4]);
}

#[test]
fn empty_or_malformed_inputs_yield_nothing() {
    assert!(visible_clients(&vec![], &monitors()).is_empty());
    let odd = vec![
        client(Some(true), None, 1, MonitorRef::Missing),
        client(Some(true), None, 1, MonitorRef::Id(None)),
        HyprClient { visible: Some(true), mapped: None, workspace: None, monitor: MonitorRef::Id(Some(0)) },
    ];
    assert!(visible_clients(&odd, &monitors()).is_empty());
    assert!(visible_clients(&odd, &vec![]).is_empty());
}

#[test]
fn first_monitor_with_an_active_workspace_decides() {
    let mons = vec![
        HyprMonitor { id: Some(0), name: None, active_workspace: None },
        HyprMonitor { id: Some(0), name: Some("A".to_string()), active_workspace: Some(5) },
        HyprMonitor { id: Some(0), name: Some("A".to_string()), active_workspace: Some(6) },
    ];
    assert!(keep_client(&client(Some(true), None, 5, MonitorRef::Id(Some(0))), &mons));
    assert!(!keep_client(&client(Some(true), None, 6, MonitorRef::Id(Some(0))), &mons));
    assert!(keep_client(&client(Some(true), None, 5, MonitorRef::Name("A".to_string())), &mons));
}

fn niri_outputs() -> Vec<NiriOutput> {
    vec![
        NiriOutput { name: "HDMI-A-1".to_string(), has_logical: true },
        NiriOutput { name: "DP-2".to_string(), has_logical: true },
    ]
}

fn niri_workspaces() -> Vec<NiriWorkspace> {
    vec![
        NiriWorkspace { id: 38, output: Some("HDMI-A-1".to_string()) },
        NiriWorkspace { id: 39, output: Some("HDMI-A-1".to_string()) },
    ]
}

#[test]
fn real_session_dump_produces_global_rects() {
    let outs = niri_outputs();
    let wss = niri_workspaces();
    // zen, in view on workspace 38
    let zen = NiriWindow { workspace_id: Some(38), in_view: true, width: 936, height: 1009 };
    // scrolled out of view: dropped
    let hidden = NiriWindow { workspace_id: Some(39), in_view: false, width: 936, height: 1009 };
    // floating clash-verge on workspace 38
    let float = NiriWindow { workspace_id: Some(38), in_view: true, width: 940, height: 700 };
    let kept: Vec<usize> = [&zen, &hidden, &float]
        .iter()
        .filter_map(|w| niri_window_output(w, &wss, &outs))
        .collect();
    assert_eq!(kept.len(), 2, "null-view window must be dropped");
    assert_eq!(kept, vec![0, 0]);
    assert_eq!(focus_recency(Some((53865, 942428172))), 53_865_942);
    assert_eq!(focus_recency(Some((60000, 0))), 60_000_000);
    assert_eq!(focus_recency(None), 0);
}

#[test]
fn window_on_unknown_output_or_zero_size_is_dropped() {
    let wss = vec![NiriWorkspace { id: 7, output: Some("ghost".to_string()) }];
    let w = NiriWindow { workspace_id: Some(7), in_view: true, width: 0, height: 0 };
    assert_eq!(niri_window_output(&w, &wss, &Vec::new()), None);
    // each reason alone drops the window
    let sized = NiriWindow { workspace_id: Some(7), in_view: true, width: 10, height: 10 };
    assert_eq!(niri_window_output(&sized, &wss, &Vec::new()), None);
    let wss_ok = niri_workspaces();
    let zero = NiriWindow { workspace_id: Some(38), in_view: true, width: 0, height: 10 };
    assert_eq!(niri_window_output(&zero, &wss_ok, &niri_outputs()), None);
}

#[test]
fn niri_window_resolves_through_workspace_to_output() {
    let outs = vec![
        NiriOutput { name: "HDMI-A-1".to_string(), has_logical: true },
        NiriOutput { name: "DP-2".to_string(), has_logical: true },
        NiriOutput { name: "eDP-1".to_string(), has_logical: false },
    ];
    let wss = vec![
        NiriWorkspace { id: 1, output: Some("DP-2".to_string()) },
        NiriWorkspace { id: 2, output: None },
        NiriWorkspace { id: 3, output: Some("eDP-1".to_string()) },
        // a repeated id: the later entry wins
        NiriWorkspace { id: 1, output: Some("HDMI-A-1".to_string()) },
    ];
    let on = |id: u64| NiriWindow { workspace_id: Some(id), in_view: true, width: 5, height: 5 };
    assert_eq!(niri_window_output(&on(1), &wss, &outs), Some(0));
    assert_eq!(niri_window_output(&on(2), &wss, &outs), None);
    // an output without logical geometry (disabled) is no target
    assert_eq!(niri_window_output(&on(3), &wss, &outs), None);
    assert_eq!(niri_window_output(&on(4), &wss, &outs), None);
    let floating = NiriWindow { workspace_id: None, in_view: true, width: 5, height: 5 };
    assert_eq!(niri_window_output(&floating, &wss, &outs), None);
}
