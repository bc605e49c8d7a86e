use herdr_mirror::json::{
    member_flag, member_items, member_present, member_text, member_unsigned,
};
use herdr_mirror::listing::{
    created_workspace, layout_root, local_workspace_ids, read_panes, read_workspaces, tab_ids_in, PaneInfo,
    WorkspaceInfo,
};
use herdr_mirror::pick::follow::{fresh_mirror, fresh_tab, FollowStep, Follower, LOOKS};
use herdr_mirror::pick::host::HostEntry;
use herdr_mirror::pick::intercept::{
    hook_named, wanted, Act, Hook, HostMap, Interceptor, Located, MappedWorkspace, RemoteKind,
    Reply, Stage, Step, ACT_WINDOW,
};
use herdr_mirror::pick::menu::{draw, menu_rows};
use herdr_mirror::pick::popup::{
    chosen_cwd, invoking_cwd, popup_opened, popup_request, remote_context, PopupStep,
    BORDER,
};
use serde_json::Value;

const HOLE: &str = "/state/.mirror-pane";

fn json(text: &str) -> Value {
    serde_json::from_str(text).unwrap()
}

fn strings(v: &[&str]) -> Vec<String> {
    v.iter().map(|s| s.to_string()).collect()
}

fn ws(id: &str, label: &str, focused: bool, panes: u64) -> WorkspaceInfo {
    WorkspaceInfo {
        workspace_id: Some(id.into()),
        label: Some(label.into()),
        focused: Some(focused),
        pane_count: Some(panes),
    }
}

fn pane(ws: &str, tab: &str, id: &str, cwd: &str, agent: bool) -> PaneInfo {
    PaneInfo {
        workspace_id: Some(ws.into()),
        pane_id: Some(id.into()),
        tab_id: Some(tab.into()),
        cwd: Some(cwd.into()),
        agent,
    }
}

fn map(ws: &str, tombstoned: bool, root: Option<&str>, tabs: &[&str], panes: &[&str]) -> HostMap {
    HostMap {
        workspaces: vec![MappedWorkspace {
            local_id: ws.into(),
            tombstoned,
            root_tab: root.map(String::from),
        }],
        tabs: strings(tabs),
        panes: strings(panes),
    }
}

fn ask(step: Step) -> Interceptor {
    match step {
        Step::Ask(i) => i,
        Step::Do(acts) => panic!("{acts:?}"),
    }
}

fn acts(step: Step) -> Vec<Act<String>> {
    match step {
        Step::Do(acts) => acts,
        Step::Ask(_) => panic!("still asking"),
    }
}

fn start(hook: Hook, hosts: usize) -> Interceptor {
    ask(Interceptor::begin(hook, Some(hosts), Some(HOLE)))
}

/// A hook inside mirror `w1` of the only host, up to the panes.
fn in_mirror(hook: Hook, panes: Vec<PaneInfo>) -> Step {
    let i = ask(start(hook, 1).answered(Reply::Workspaces(vec![ws("w1", "h: x", true, 2)])));
    let m = map("w1", false, Some("root"), &["t1"], &["p1", "p2"]);
    let i = ask(i.answered(Reply::Host(m)));
    i.answered(Reply::Panes(panes))
}

#[test]
fn hooks_by_name() {
    assert_eq!(hook_named("tab"), Hook::Tab);
    assert_eq!(hook_named("pane"), Hook::Pane);
    assert_eq!(hook_named("workspace"), Hook::Workspace);
    assert_eq!(hook_named(""), Hook::Workspace);
    assert!(wanted(None));
    assert!(wanted(Some(true)));
    assert!(!wanted(Some(false)));
}

#[test]
fn a_bare_placeholder_workspace_makes_way_for_the_picker() {
    let i = ask(Interceptor::begin(Hook::Workspace, None, Some(HOLE)));
    let list = vec![ws("w0", "x", false, 1), ws("w1", ".mirror-pane", true, 1)];
    let i = ask(i.answered(Reply::Workspaces(list)));
    let panes = vec![pane("w0", "t", "p", "/x", false), pane("w1", "t", "p", HOLE, false)];
    assert_eq!(
        acts(i.answered(Reply::Panes(panes))),
        [Act::CloseWorkspace("w1".to_string()), Act::OpenPopup]
    );
}

#[test]
fn other_workspaces_are_left_alone() {
    for w in [
        ws("w1", "mine", true, 1),
        ws("w1", ".mirror-pane", true, 2),
        ws("w1", ".mirror-pane", false, 1),
        WorkspaceInfo {
            workspace_id: None,
            label: Some(".mirror-pane".into()),
            focused: Some(true),
            pane_count: Some(1),
        },
    ] {
        assert!(acts(start(Hook::Workspace, 1).answered(Reply::Workspaces(vec![w]))).is_empty());
    }
    for p in [
        pane("w1", "t", "p", HOLE, true),
        pane("w1", "t", "p", "/elsewhere", false),
        pane("w2", "t", "p", HOLE, false),
    ] {
        let list = vec![ws("w1", ".mirror-pane", true, 1)];
        let i = ask(start(Hook::Workspace, 1).answered(Reply::Workspaces(list)));
        assert!(acts(i.answered(Reply::Panes(vec![p]))).is_empty());
    }
}

#[test]
fn a_new_tab_is_made_on_the_remote() {
    let i = ask(in_mirror(
        Hook::Tab,
        vec![
            pane("w2", "t9", "p2", "/x", false),
            pane("w1", "t1", "p1", HOLE, false),
            pane("w1", "t2", "new", HOLE, false),
        ],
    ));
    assert_eq!(
        acts(i.answered(Reply::Marker(None))),
        [
            Act::RememberTabs("w1".to_string()),
            Act::Mark,
            Act::CloseTab("t2".to_string()),
            Act::RunRemote {
                ws: "w1".to_string(),
                pane: "p1".to_string(),
                kind: RemoteKind::Tab,
                direction: None
            },
            Act::FocusNewTab("w1".to_string()),
        ]
    );
}

#[test]
fn a_new_split_is_made_where_it_was_made() {
    let panes = || {
        vec![
            pane("w1", "t1", "p1", HOLE, false),
            pane("w1", "t1", "p2", HOLE, false),
            pane("w1", "t1", "new", HOLE, false),
        ]
    };
    let split = |located: Option<Located>| {
        let i = ask(in_mirror(Hook::Pane, panes()));
        let i = ask(i.answered(Reply::Marker(Some(ACT_WINDOW))));
        match &i.stage {
            Stage::Layout { find, .. } => {
                assert_eq!(find.tab, "t1");
                assert_eq!(find.pane, "new");
            }
            _ => panic!("the layout is asked for"),
        }
        acts(i.answered(Reply::Layout(located)))
    };
    let made = |anchor: &str, direction: &str| {
        vec![
            Act::Mark,
            Act::ClosePane("new".to_string()),
            Act::RunRemote {
                ws: "w1".to_string(),
                pane: anchor.to_string(),
                kind: RemoteKind::Split,
                direction: Some(direction.to_string()),
            },
        ]
    };
    let down = |s: &[&str]| Some(Located { direction: "down".into(), siblings: strings(s) });
    assert_eq!(split(down(&["p2", "p1"])), made("p2", "down"));
    assert_eq!(split(down(&["x", "p1"])), made("p1", "down"));
    // the tree is of no help: any mirrored pane of the tab, to the right
    assert_eq!(split(down(&["x"])), made("p1", "right"));
    assert_eq!(split(None), made("p1", "right"));
}

#[test]
fn a_split_in_the_root_tab_of_a_fresh_mirror_counts_as_inside() {
    let i = ask(in_mirror(
        Hook::Pane,
        vec![pane("w1", "root", "new", HOLE, false), pane("w1", "root", "p2", "/x", true)],
    ));
    let i = ask(i.answered(Reply::Marker(None)));
    assert_eq!(acts(i.answered(Reply::Layout(None)))[1], Act::ClosePane("new".to_string()));
}

#[test]
fn without_an_anchor_nothing_is_done() {
    let i = ask(in_mirror(Hook::Tab, vec![pane("w1", "t2", "new", HOLE, false)]));
    assert!(acts(i.answered(Reply::Marker(None))).is_empty());
    let i = ask(in_mirror(
        Hook::Pane,
        vec![pane("w1", "t1", "new", HOLE, false), pane("w1", "t3", "p1", HOLE, false)],
    ));
    let i = ask(i.answered(Reply::Marker(None)));
    assert!(acts(i.answered(Reply::Layout(None))).is_empty());
}

#[test]
fn each_hook_keeps_to_its_own_shape() {
    let tab = || vec![pane("w1", "t1", "p1", HOLE, false), pane("w1", "t2", "new", HOLE, false)];
    let split = || vec![pane("w1", "t1", "p1", HOLE, false), pane("w1", "t1", "new", HOLE, false)];
    let i = ask(in_mirror(Hook::Pane, tab()));
    assert!(acts(i.answered(Reply::Marker(None))).is_empty());
    let i = ask(in_mirror(Hook::Tab, split()));
    assert!(acts(i.answered(Reply::Marker(None))).is_empty());
}

#[test]
fn mirrors_and_agents_are_never_junk() {
    assert!(acts(in_mirror(Hook::Tab, vec![pane("w1", "t2", "p1", HOLE, false)])).is_empty());
    assert!(acts(in_mirror(Hook::Tab, vec![pane("w1", "t2", "new", HOLE, true)])).is_empty());
    assert!(acts(in_mirror(Hook::Tab, vec![pane("w1", "t2", "new", "/x", false)])).is_empty());
    assert!(acts(in_mirror(Hook::Tab, vec![pane("w2", "t2", "new", HOLE, false)])).is_empty());
}

#[test]
fn a_recent_act_holds_hooks_off() {
    let panes = || vec![pane("w1", "t1", "p1", HOLE, false), pane("w1", "t2", "new", HOLE, false)];
    let i = ask(in_mirror(Hook::Tab, panes()));
    assert!(acts(i.answered(Reply::Marker(Some(ACT_WINDOW - 1)))).is_empty());
    let i = ask(in_mirror(Hook::Tab, panes()));
    assert!(!acts(i.answered(Reply::Marker(Some(ACT_WINDOW)))).is_empty());
}

#[test]
fn a_recent_act_holds_splits_off() {
    let panes = || vec![pane("w1", "t1", "p1", HOLE, false), pane("w1", "t1", "new", HOLE, false)];
    let i = ask(in_mirror(Hook::Pane, panes()));
    assert!(acts(i.answered(Reply::Marker(Some(0)))).is_empty());
    let i = ask(in_mirror(Hook::Pane, panes()));
    let i = ask(i.answered(Reply::Marker(Some(ACT_WINDOW))));
    assert_eq!(acts(i.answered(Reply::Layout(None)))[1], Act::ClosePane("new".to_string()));
}

#[test]
fn hosts_are_asked_in_turn() {
    let list = || Reply::Workspaces(vec![ws("w1", "h: x", true, 2)]);
    let i = ask(start(Hook::Tab, 3).answered(list()));
    let i = ask(i.answered(Reply::Host(map("w9", false, None, &[], &[]))));
    assert!(matches!(i.stage, Stage::Host { at: 1, .. }));
    let i = ask(i.answered(Reply::Host(map("w1", true, None, &[], &[]))));
    assert!(matches!(i.stage, Stage::Host { at: 2, .. }));
    let end = i.answered(Reply::Host(map("w2", false, None, &[], &[])));
    assert!(acts(end).is_empty());
    assert!(acts(start(Hook::Tab, 0).answered(list())).is_empty());
    assert!(acts(Interceptor::begin(Hook::Pane, None, Some(HOLE))).is_empty());
    assert!(acts(start(Hook::Tab, 1).answered(Reply::Marker(None))).is_empty());
}

#[test]
fn a_tab_with_work_in_it_is_left_alone() {
    for other in [
        pane("w1", "t2", "busy", "/work", true),
        pane("w1", "t2", "second", HOLE, false),
        pane("w1", "t2", "p2", "/x", false),
    ] {
        let i = ask(in_mirror(
            Hook::Tab,
            vec![
                pane("w1", "t1", "p1", HOLE, false),
                pane("w1", "t2", "new", HOLE, false),
                other,
            ],
        ));
        assert!(acts(i.answered(Reply::Marker(None))).is_empty());
    }
    // a pane of another workspace or of another tab is in nobody's way
    let i = ask(in_mirror(
        Hook::Tab,
        vec![
            pane("w1", "t1", "p1", HOLE, false),
            pane("w2", "t2", "busy", "/work", true),
            pane("w1", "t2", "new", HOLE, false),
            pane("w1", "t3", "busy", "/work", true),
        ],
    ));
    assert_eq!(acts(i.answered(Reply::Marker(None)))[2], Act::CloseTab("t2".to_string()));
}

#[test]
fn no_pane_sits_in_a_placeholder_that_is_no_text() {
    let i = ask(Interceptor::begin(Hook::Workspace, None, None));
    let i = ask(i.answered(Reply::Workspaces(vec![ws("w1", ".mirror-pane", true, 1)])));
    let mut p = pane("w1", "t", "p", HOLE, false);
    p.cwd = None;
    assert!(acts(i.answered(Reply::Panes(vec![p]))).is_empty());
}

#[test]
fn members_of_a_document() {
    let v = json(r#"{"s": "text", "b": true, "n": 3, "neg": -3, "f": 1.5, "z": null, "a": [1]}"#);
    assert_eq!(member_text(&v, "s"), Some("text".into()));
    assert_eq!(member_text(&v, "b"), None);
    assert_eq!(member_text(&v, "missing"), None);
    assert_eq!(member_flag(&v, "b"), Some(true));
    assert_eq!(member_flag(&v, "s"), None);
    assert_eq!(member_unsigned(&v, "n"), Some(3));
    assert_eq!(member_unsigned(&v, "neg"), None);
    assert_eq!(member_unsigned(&v, "f"), None);
    assert!(member_present(&v, "b"));
    assert!(!member_present(&v, "z"));
    assert!(!member_present(&v, "missing"));
    assert_eq!(member_items(&v, "a").map(|a| a.len()), Some(1));
    assert!(member_items(&v, "s").is_none());
    assert_eq!(member_text(&json("[]"), "s"), None);
}

#[test]
fn listings_are_read() {
    let v = json(
        r#"{"workspaces": [
            {"workspace_id": "w1", "label": "x", "focused": true, "pane_count": 2},
            {"workspace_id": 7, "focused": "yes"},
            3]}"#,
    );
    let list = read_workspaces(&v);
    assert_eq!(list.len(), 3);
    assert_eq!(list[0].workspace_id.as_deref(), Some("w1"));
    assert_eq!(list[0].label.as_deref(), Some("x"));
    assert_eq!(list[0].focused, Some(true));
    assert_eq!(list[0].pane_count, Some(2));
    assert!(list[1].workspace_id.is_none() && list[1].focused.is_none());
    assert!(list[2].label.is_none());
    assert!(read_workspaces(&json("{}")).is_empty());
    assert!(read_workspaces(&json(r#"{"workspaces": 1}"#)).is_empty());
    assert_eq!(local_workspace_ids(&v), ["w1"]);
    assert!(local_workspace_ids(&json("null")).is_empty());

    let v = json(
        r#"{"panes": [
            {"workspace_id": "w", "pane_id": "p", "tab_id": "t", "cwd": "/c", "agent": null},
            {"agent": {}},
            {}]}"#,
    );
    let panes = read_panes(&v);
    assert_eq!(panes.len(), 3);
    assert_eq!(panes[0].pane_id.as_deref(), Some("p"));
    assert_eq!(panes[0].tab_id.as_deref(), Some("t"));
    assert_eq!(panes[0].workspace_id.as_deref(), Some("w"));
    assert_eq!(panes[0].cwd.as_deref(), Some("/c"));
    assert_eq!(panes.iter().map(|p| p.agent).collect::<Vec<_>>(), [false, true, false]);

    let v = json(
        r#"{"tabs": [
            {"workspace_id": "w", "tab_id": "t1"},
            {"workspace_id": "x", "tab_id": "t2"},
            {"workspace_id": "w"},
            {"workspace_id": "w", "tab_id": "t3"}]}"#,
    );
    assert_eq!(tab_ids_in(&v, "w"), ["t1", "t3"]);
    assert!(tab_ids_in(&v, "y").is_empty());
    assert!(tab_ids_in(&json("{}"), "w").is_empty());
}

#[test]
fn a_create_reply_names_its_workspace() {
    assert_eq!(created_workspace(&json(r#"{"workspace": {"workspace_id": "w3"}}"#)), "w3");
    assert_eq!(created_workspace(&json(r#"{"workspace": {}}"#)), "?");
    assert_eq!(created_workspace(&json("{}")), "?");
}

#[test]
fn an_exported_layout_has_a_root() {
    let v = json(r#"{"layout": {"root": {"pane": "p1"}}}"#);
    assert_eq!(layout_root(&v), Some(&json(r#"{"pane": "p1"}"#)));
    assert_eq!(layout_root(&json(r#"{"layout": {"root": null}}"#)), Some(&json("null")));
    assert_eq!(layout_root(&json(r#"{"layout": {}}"#)), None);
    assert_eq!(layout_root(&json(r#"{"root": 1}"#)), None);
    assert_eq!(layout_root(&json("[]")), None);
}

#[test]
fn the_directory_comes_from_the_pane_or_the_context() {
    let ctx = r#"{"focused_pane_cwd": "/from/context"}"#;
    assert_eq!(invoking_cwd(Some("/here"), Some(ctx)), Some("/here".into()));
    assert_eq!(invoking_cwd(Some(""), Some(ctx)), Some("/from/context".into()));
    assert_eq!(invoking_cwd(None, Some(ctx)), Some("/from/context".into()));
    assert_eq!(invoking_cwd(None, Some("{")), None);
    assert_eq!(invoking_cwd(None, Some(r#"{"focused_pane_cwd": 1}"#)), None);
    assert_eq!(invoking_cwd(None, None), None);
    assert_eq!(invoking_cwd(Some("/s/.mirror-pane"), Some(ctx)), None);
    assert_eq!(chosen_cwd(None, Some("/s/.mirror-pane")), None);
    assert_eq!(chosen_cwd(None, Some(".mirror-pane")), Some(".mirror-pane".into()));
    assert_eq!(chosen_cwd(None, Some("")), Some("".into()));
}

#[test]
fn the_popup_fits_its_content() {
    let host = |name: &str, target: &str| HostEntry { name: name.into(), target: target.into() };
    let r = popup_request(&[], None, Some("/x"), None);
    assert_eq!((r.width, r.height, r.cwd), (58, 12, Some("/x".into())));
    let r = popup_request(&[], None, None, None);
    assert_eq!((r.width, r.height, r.cwd), (58, 12, None));
    let hosts = [host("a", "b"), host(&"n".repeat(20), &"t".repeat(30))];
    let r = popup_request(&hosts, None, None, None);
    assert_eq!((r.width, r.height), (66, 13));
    // the mark of the default host takes its room
    assert_eq!(popup_request(&hosts, Some(&"n".repeat(20)), None, None).width, 76);
    let long = "/".repeat(40);
    assert_eq!(popup_request(&hosts[..1], None, Some(&long), None).width, 68);
    assert_eq!(popup_request(&[], None, Some(&long), None).width, 68);
    assert_eq!(popup_request(&hosts[..1], None, Some(&long), Some(&long)).width, 58);
    let long = "/".repeat(400);
    assert_eq!(popup_request(&hosts, None, Some(&long), None).width, 90);
    // widths are counted in bytes
    let hosts = [host(&"ü".repeat(25), "")];
    assert_eq!(popup_request(&hosts, None, None, None).width, 66);
}

#[test]
fn the_popup_shows_its_rows_whole() {
    let host = |name: &str, target: &str| HostEntry { name: name.into(), target: target.into() };
    let target = "t".repeat(60);
    let one = [host("a", &target)];
    assert_eq!(popup_request(&one, None, None, None).width, 88);
    let two = [host("a", &"t".repeat(52)), host("b", "b")];
    assert_eq!(popup_request(&two, Some("a"), None, None).width, 90);
    for (hosts, default) in [(&one[..], None), (&two[..], Some("a"))] {
        let width = popup_request(hosts, default, Some("/some/where"), None).width;
        let rows = menu_rows(hosts, default, Some("/some/where"), None);
        let shown = draw(&rows, 0, None, width - BORDER);
        for r in &rows {
            assert!(shown.contains(&r.sub), "{shown:?}");
        }
    }
}

#[test]
fn asking_twice_closes_the_popup() {
    assert_eq!(popup_opened(None), PopupStep::Done);
    assert_eq!(popup_opened(Some("error: popup already open (1)")), PopupStep::CloseOpenPopup);
    assert_eq!(popup_opened(Some("popup already opem")), PopupStep::Fail);
    assert_eq!(popup_opened(Some("")), PopupStep::Fail);
}

#[test]
fn a_remote_action_is_pointed_at_the_mirror() {
    assert_eq!(
        remote_context("w1", "p1"),
        [
            ("HERDR_PLUGIN_CONTEXT_JSON".to_string(), None),
            ("HERDR_ACTIVE_WORKSPACE_ID".to_string(), Some("w1".to_string())),
            ("HERDR_ACTIVE_PANE_ID".to_string(), Some("p1".to_string())),
            ("HERDR_ACTIVE_PANE_CWD".to_string(), None),
        ]
    );
}

#[test]
fn a_follower_looks_sixteen_times() {
    let mut f = Follower::new();
    for _ in 1..LOOKS {
        assert_eq!(f.missed(), FollowStep::LookAgain);
    }
    assert_eq!(f.missed(), FollowStep::GiveUp);
}

#[test]
fn the_mirror_of_a_create_is_the_new_one_of_its_host() {
    let list = [
        ws("w1", "h: old", false, 1),
        ws("w2", "hh: new", false, 1),
        ws("w3", "h: new", false, 1),
        ws("w4", "h: newer", false, 1),
    ];
    let known = strings(&["w1"]);
    assert_eq!(fresh_mirror(&list, &known, "h"), Some(("w3".into(), "h: new".into())));
    assert_eq!(fresh_mirror(&list[..2], &known, "h"), None);
    assert_eq!(fresh_mirror(&[], &known, "h"), None);
}

#[test]
fn a_new_tab_is_one_that_was_not_there() {
    let before = strings(&["t1", "t2"]);
    assert_eq!(fresh_tab(&strings(&["t2", "t3", "t1"]), &before), Some("t3".into()));
    assert_eq!(fresh_tab(&strings(&["t1"]), &before), None);
    assert_eq!(fresh_tab(&[], &before), None);
}
