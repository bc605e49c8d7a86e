//! What the local server lists: workspaces, panes and tabs.

use crate::json::{
    json_tree, json_trees, law_members_are_read_for_what_they_are, listed_member, member, member_flag, member_items, member_present,
    member_text, member_unsigned, present_member, text_member, flag_member, unsigned_member,
    JsonTree,
};
use crate::text::{opt_text, texts};
use vstd::prelude::*;

verus! {

/// A workspace of a listing; what the listing leaves out is left out here.
#[derive(Debug)]
pub struct WorkspaceInfo {
    pub workspace_id: Option<String>,
    pub label: Option<String>,
    pub focused: Option<bool>,
    pub pane_count: Option<u64>,
}

pub struct WorkspaceText {
    pub workspace_id: Option<Seq<char>>,
    pub label: Option<Seq<char>>,
    pub focused: Option<bool>,
    pub pane_count: Option<u64>,
}

impl View for WorkspaceInfo {
    type V = WorkspaceText;

    open spec fn view(&self) -> WorkspaceText {
        WorkspaceText {
            workspace_id: opt_text(self.workspace_id),
            label: opt_text(self.label),
            focused: self.focused,
            pane_count: self.pane_count,
        }
    }
}

/// A pane of a listing, and whether an agent runs in it.
#[derive(Debug)]
pub struct PaneInfo {
    pub workspace_id: Option<String>,
    pub pane_id: Option<String>,
    pub tab_id: Option<String>,
    pub cwd: Option<String>,
    pub agent: bool,
}

pub struct PaneText {
    pub workspace_id: Option<Seq<char>>,
    pub pane_id: Option<Seq<char>>,
    pub tab_id: Option<Seq<char>>,
    pub cwd: Option<Seq<char>>,
    pub agent: bool,
}

impl View for PaneInfo {
    type V = PaneText;

    open spec fn view(&self) -> PaneText {
        PaneText {
            workspace_id: opt_text(self.workspace_id),
            pane_id: opt_text(self.pane_id),
            tab_id: opt_text(self.tab_id),
            cwd: opt_text(self.cwd),
            agent: self.agent,
        }
    }
}

pub open spec fn workspace_texts(list: Seq<WorkspaceInfo>) -> Seq<WorkspaceText> {
    list.map_values(|w: WorkspaceInfo| w@)
}

pub open spec fn pane_texts(list: Seq<PaneInfo>) -> Seq<PaneText> {
    list.map_values(|p: PaneInfo| p@)
}

/// What a listing says of a workspace.
pub open spec fn workspace_of(tree: JsonTree) -> WorkspaceText {
    WorkspaceText {
        workspace_id: text_member(tree, "workspace_id"@),
        label: text_member(tree, "label"@),
        focused: flag_member(tree, "focused"@),
        pane_count: unsigned_member(tree, "pane_count"@),
    }
}

/// What a listing says of a pane.
pub open spec fn pane_of(tree: JsonTree) -> PaneText {
    PaneText {
        workspace_id: text_member(tree, "workspace_id"@),
        pane_id: text_member(tree, "pane_id"@),
        tab_id: text_member(tree, "tab_id"@),
        cwd: text_member(tree, "cwd"@),
        agent: present_member(tree, "agent"@),
    }
}

/// The workspaces of a `workspace.list` reply, in order.
pub fn read_workspaces(reply: &serde_json::Value) -> (r: Vec<WorkspaceInfo>)
    ensures
        workspace_texts(r@) == listed_member(json_tree(*reply), "workspaces"@).map_values(
            |t: JsonTree| workspace_of(t),
        ),
{
    let mut out: Vec<WorkspaceInfo> = Vec::new();
    let ghost all = listed_member(json_tree(*reply), "workspaces"@);
    if let Some(items) = member_items(reply, "workspaces") {
        let mut i: usize = 0;
        while i < items.len()
            invariant
                i <= items@.len(),
                out@.len() == i,
                json_trees(items@) == all,
                forall|j: int| 0 <= j < i ==> (#[trigger] out@[j])@ == workspace_of(all[j]),
            decreases items@.len() - i,
        {
            let v = &items[i];
            assert(json_tree(*v) == all[i as int]);
            out.push(
                WorkspaceInfo {
                    workspace_id: member_text(v, "workspace_id"),
                    label: member_text(v, "label"),
                    focused: member_flag(v, "focused"),
                    pane_count: member_unsigned(v, "pane_count"),
                },
            );
            i += 1;
        }
    }
    assert(workspace_texts(out@) =~= all.map_values(|t: JsonTree| workspace_of(t)));
    out
}

/// The panes of a `pane.list` reply, in order.
pub fn read_panes(reply: &serde_json::Value) -> (r: Vec<PaneInfo>)
    ensures
        pane_texts(r@) == listed_member(json_tree(*reply), "panes"@).map_values(
            |t: JsonTree| pane_of(t),
        ),
{
    let mut out: Vec<PaneInfo> = Vec::new();
    let ghost all = listed_member(json_tree(*reply), "panes"@);
    if let Some(items) = member_items(reply, "panes") {
        let mut i: usize = 0;
        while i < items.len()
            invariant
                i <= items@.len(),
                out@.len() == i,
                json_trees(items@) == all,
                forall|j: int| 0 <= j < i ==> (#[trigger] out@[j])@ == pane_of(all[j]),
            decreases items@.len() - i,
        {
            let v = &items[i];
            assert(json_tree(*v) == all[i as int]);
            out.push(
                PaneInfo {
                    workspace_id: member_text(v, "workspace_id"),
                    pane_id: member_text(v, "pane_id"),
                    tab_id: member_text(v, "tab_id"),
                    cwd: member_text(v, "cwd"),
                    agent: member_present(v, "agent"),
                },
            );
            i += 1;
        }
    }
    assert(pane_texts(out@) =~= all.map_values(|t: JsonTree| pane_of(t)));
    out
}

/// The ids of the tabs that lie in a workspace, in order.
pub open spec fn ids_in_workspace(tabs: Seq<JsonTree>, ws: Seq<char>) -> Seq<Seq<char>>
    decreases tabs.len(),
{
    if tabs.len() == 0 {
        Seq::empty()
    } else {
        let before = ids_in_workspace(tabs.drop_last(), ws);
        match (text_member(tabs.last(), "workspace_id"@), text_member(tabs.last(), "tab_id"@)) {
            (Some(w), Some(t)) => if w == ws {
                before.push(t)
            } else {
                before
            },
            _ => before,
        }
    }
}

/// The ids of the tabs of a `tab.list` reply that lie in workspace `ws_id`.
pub fn tab_ids_in(reply: &serde_json::Value, ws_id: &str) -> (r: Vec<String>)
    ensures
        texts(r@) == ids_in_workspace(listed_member(json_tree(*reply), "tabs"@), ws_id@),
{
    let mut out: Vec<String> = Vec::new();
    let ghost all = listed_member(json_tree(*reply), "tabs"@);
    if let Some(items) = member_items(reply, "tabs") {
        let mut i: usize = 0;
        assert(texts(out@) =~= ids_in_workspace(all.take(0), ws_id@));
        while i < items.len()
            invariant
                i <= items@.len(),
                json_trees(items@) == all,
                texts(out@) == ids_in_workspace(all.take(i as int), ws_id@),
            decreases items@.len() - i,
        {
            let v = &items[i];
            let ghost before = out@;
            proof {
                assert(json_tree(*v) == all[i as int]);
                assert(all.take(i + 1).drop_last() =~= all.take(i as int));
                assert(all.take(i + 1).last() == all[i as int]);
            }
            if let Some(w) = member_text(v, "workspace_id") {
                if crate::text::same(w.as_str(), ws_id) {
                    if let Some(t) = member_text(v, "tab_id") {
                        out.push(t);
                        assert(texts(out@) =~= texts(before).push(t@));
                    }
                }
            }
            i += 1;
        }
        assert(all.take(i as int) =~= all);
    }
    assert(out@.len() == 0 ==> texts(out@) =~= Seq::empty());
    out
}

/// The ids of some workspaces, in order.
pub open spec fn workspace_ids(list: Seq<JsonTree>) -> Seq<Seq<char>>
    decreases list.len(),
{
    if list.len() == 0 {
        Seq::empty()
    } else {
        match text_member(list.last(), "workspace_id"@) {
            Some(w) => workspace_ids(list.drop_last()).push(w),
            None => workspace_ids(list.drop_last()),
        }
    }
}

/// The ids of the workspaces of a `workspace.list` reply.
pub fn local_workspace_ids(reply: &serde_json::Value) -> (r: Vec<String>)
    ensures
        texts(r@) == workspace_ids(listed_member(json_tree(*reply), "workspaces"@)),
{
    let mut out: Vec<String> = Vec::new();
    let ghost all = listed_member(json_tree(*reply), "workspaces"@);
    if let Some(items) = member_items(reply, "workspaces") {
        let mut i: usize = 0;
        assert(texts(out@) =~= workspace_ids(all.take(0)));
        while i < items.len()
            invariant
                i <= items@.len(),
                json_trees(items@) == all,
                texts(out@) == workspace_ids(all.take(i as int)),
            decreases items@.len() - i,
        {
            let v = &items[i];
            let ghost before = out@;
            proof {
                assert(json_tree(*v) == all[i as int]);
                assert(all.take(i + 1).drop_last() =~= all.take(i as int));
                assert(all.take(i + 1).last() == all[i as int]);
            }
            if let Some(w) = member_text(v, "workspace_id") {
                out.push(w);
                assert(texts(out@) =~= texts(before).push(w@));
            }
            i += 1;
        }
        assert(all.take(i as int) =~= all);
    }
    assert(out@.len() == 0 ==> texts(out@) =~= Seq::empty());
    out
}

/// The root of the layout in a `layout.export` reply.
pub open spec fn root_in(reply: JsonTree) -> Option<JsonTree> {
    match reply.get("layout"@) {
        Some(layout) => layout.get("root"@),
        None => None,
    }
}

/// The root of the layout that a `layout.export` reply holds, where it holds one.
pub fn layout_root<'a>(reply: &'a serde_json::Value) -> (r: Option<&'a serde_json::Value>)
    ensures
        (match r {
            Some(root) => Some(json_tree(*root)),
            None => None,
        }) == root_in(json_tree(*reply)),
{
    match member(reply, "layout") {
        Some(layout) => member(layout, "root"),
        None => None,
    }
}

/// The id in a `workspace.create` reply, or a question mark.
pub open spec fn created_id(reply: JsonTree) -> Seq<char> {
    match reply.get("workspace"@) {
        Some(w) => match text_member(w, "workspace_id"@) {
            Some(id) => id,
            None => "?"@,
        },
        None => "?"@,
    }
}

/// The id of the workspace that a `workspace.create` reply names, for the
/// message about it.
pub fn created_workspace(reply: &serde_json::Value) -> (r: String)
    ensures
        r@ == created_id(json_tree(*reply)),
{
    if let Some(w) = member(reply, "workspace") {
        if let Some(id) = member_text(w, "workspace_id") {
            return id;
        }
    }
    "?".to_owned()
}

// --- laws -------------------------------------------------------------------

/// An object says of a workspace what its members by these names hold.
pub proof fn law_workspace_is_what_is_said_of_it(members: Map<Seq<char>, JsonTree>)
    ensures
        ({
            let w = workspace_of(JsonTree::Object(members));
            &&& forall|t: Seq<char>|
                #![auto]
                w.workspace_id == Some(t) <==> members.contains_key("workspace_id"@)
                    && members["workspace_id"@] == JsonTree::Text(t)
            &&& forall|t: Seq<char>|
                #![auto]
                w.label == Some(t) <==> members.contains_key("label"@) && members["label"@]
                    == JsonTree::Text(t)
            &&& forall|b: bool|
                #![auto]
                w.focused == Some(b) <==> members.contains_key("focused"@) && members["focused"@]
                    == JsonTree::Bool(b)
            &&& forall|n: u64|
                #![auto]
                w.pane_count == Some(n) <==> members.contains_key("pane_count"@)
                    && members["pane_count"@] == JsonTree::Number(Some(n))
        }),
{
    law_members_are_read_for_what_they_are(members, "workspace_id"@);
    law_members_are_read_for_what_they_are(members, "label"@);
    law_members_are_read_for_what_they_are(members, "focused"@);
    law_members_are_read_for_what_they_are(members, "pane_count"@);
}

/// An object says of a pane what its members by these names hold; an agent runs in
/// it where one is named that is not null.
pub proof fn law_pane_is_what_is_said_of_it(members: Map<Seq<char>, JsonTree>)
    ensures
        ({
            let p = pane_of(JsonTree::Object(members));
            &&& forall|t: Seq<char>|
                #![auto]
                p.workspace_id == Some(t) <==> members.contains_key("workspace_id"@)
                    && members["workspace_id"@] == JsonTree::Text(t)
            &&& forall|t: Seq<char>|
                #![auto]
                p.pane_id == Some(t) <==> members.contains_key("pane_id"@) && members["pane_id"@]
                    == JsonTree::Text(t)
            &&& forall|t: Seq<char>|
                #![auto]
                p.tab_id == Some(t) <==> members.contains_key("tab_id"@) && members["tab_id"@]
                    == JsonTree::Text(t)
            &&& forall|t: Seq<char>|
                #![auto]
                p.cwd == Some(t) <==> members.contains_key("cwd"@) && members["cwd"@]
                    == JsonTree::Text(t)
            &&& p.agent <==> members.contains_key("agent"@) && members["agent"@] !is Null
        }),
{
    law_members_are_read_for_what_they_are(members, "workspace_id"@);
    law_members_are_read_for_what_they_are(members, "pane_id"@);
    law_members_are_read_for_what_they_are(members, "tab_id"@);
    law_members_are_read_for_what_they_are(members, "cwd"@);
    law_members_are_read_for_what_they_are(members, "agent"@);
}

/// The texts of a listing are those of its entries, field for field and in order.
pub proof fn law_listings_keep_their_entries(
    ws: Seq<WorkspaceInfo>,
    ps: Seq<PaneInfo>,
    i: int,
    j: int,
)
    requires
        0 <= i < ws.len(),
        0 <= j < ps.len(),
    ensures
        workspace_texts(ws).len() == ws.len(),
        workspace_texts(ws)[i].workspace_id == opt_text(ws[i].workspace_id),
        workspace_texts(ws)[i].label == opt_text(ws[i].label),
        workspace_texts(ws)[i].focused == ws[i].focused,
        workspace_texts(ws)[i].pane_count == ws[i].pane_count,
        pane_texts(ps).len() == ps.len(),
        pane_texts(ps)[j].workspace_id == opt_text(ps[j].workspace_id),
        pane_texts(ps)[j].pane_id == opt_text(ps[j].pane_id),
        pane_texts(ps)[j].tab_id == opt_text(ps[j].tab_id),
        pane_texts(ps)[j].cwd == opt_text(ps[j].cwd),
        pane_texts(ps)[j].agent == ps[j].agent,
{
}

/// The tab ids of a workspace are those of the listed tabs that lie in it: one more
/// tab adds its id at the end where it lies there, and nothing where it does not.
pub proof fn law_tab_ids_are_those_in_the_workspace(
    tabs: Seq<JsonTree>,
    tab: JsonTree,
    ws: Seq<char>,
    id: Seq<char>,
)
    ensures
        ids_in_workspace(Seq::empty(), ws).len() == 0,
        text_member(tab, "workspace_id"@) == Some(ws) && text_member(tab, "tab_id"@) == Some(id)
            ==> ids_in_workspace(tabs.push(tab), ws) == ids_in_workspace(tabs, ws).push(id),
        text_member(tab, "workspace_id"@) != Some(ws) || text_member(tab, "tab_id"@) is None
            ==> ids_in_workspace(tabs.push(tab), ws) == ids_in_workspace(tabs, ws),
        ids_in_workspace(tabs, ws).contains(id) <==> exists|i: int|
            0 <= i < tabs.len() && text_member(#[trigger] tabs[i], "workspace_id"@) == Some(ws)
                && text_member(tabs[i], "tab_id"@) == Some(id),
    decreases tabs.len(),
{
    assert(tabs.push(tab).drop_last() =~= tabs);
    let ids = ids_in_workspace(tabs, ws);
    if tabs.len() > 0 {
        let rest = tabs.drop_last();
        let before = ids_in_workspace(rest, ws);
        law_tab_ids_are_those_in_the_workspace(rest, tab, ws, id);
        let here = text_member(tabs.last(), "workspace_id"@) == Some(ws) && text_member(
            tabs.last(),
            "tab_id"@,
        ) == Some(id);
        if ids.contains(id) {
            let k = choose|k: int| 0 <= k < ids.len() && ids[k] == id;
            if k < before.len() {
                assert(before[k] == id);
                let i = choose|i: int|
                    0 <= i < rest.len() && text_member(#[trigger] rest[i], "workspace_id"@) == Some(
                        ws,
                    ) && text_member(rest[i], "tab_id"@) == Some(id);
                assert(tabs[i] == rest[i]);
            } else {
                assert(tabs[tabs.len() - 1] == tabs.last());
            }
        }
        if exists|i: int|
            0 <= i < tabs.len() && text_member(#[trigger] tabs[i], "workspace_id"@) == Some(ws)
                && text_member(tabs[i], "tab_id"@) == Some(id) {
            let i = choose|i: int|
                0 <= i < tabs.len() && text_member(#[trigger] tabs[i], "workspace_id"@) == Some(ws)
                    && text_member(tabs[i], "tab_id"@) == Some(id);
            if i < rest.len() {
                assert(rest[i] == tabs[i]);
                let k = choose|k: int| 0 <= k < before.len() && before[k] == id;
                assert(ids[k] == id);
            } else {
                assert(ids[before.len() as int] == id);
            }
        }
    }
}

/// The workspace ids of a listing are those of its entries, in order: one more
/// entry adds its id at the end where it has one.
pub proof fn law_workspace_ids_are_those_listed(
    list: Seq<JsonTree>,
    entry: JsonTree,
    id: Seq<char>,
)
    ensures
        workspace_ids(Seq::empty()).len() == 0,
        text_member(entry, "workspace_id"@) == Some(id) ==> workspace_ids(list.push(entry))
            == workspace_ids(list).push(id),
        text_member(entry, "workspace_id"@) is None ==> workspace_ids(list.push(entry))
            == workspace_ids(list),
{
    assert(list.push(entry).drop_last() =~= list);
}

/// A create reply is read for the id in its `workspace`, an export for the `root` of
/// its `layout`; where there is none, the one gives a question mark, the other
/// nothing.
pub proof fn law_replies_are_read_in_depth(reply: JsonTree, inner: JsonTree)
    ensures
        reply.get("workspace"@) == Some(inner) ==> created_id(reply) == (match text_member(
            inner,
            "workspace_id"@,
        ) {
            Some(id) => id,
            None => "?"@,
        }),
        reply.get("workspace"@) is None ==> created_id(reply) == "?"@,
        reply.get("layout"@) == Some(inner) ==> root_in(reply) == inner.get("root"@),
        reply.get("layout"@) is None ==> root_in(reply) is None,
{
}

} // verus!
