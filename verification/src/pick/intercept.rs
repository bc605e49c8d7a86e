//! Creation hooks: a native create inside a mirror lands in the placeholder
//! directory that mirrored panes sit in, and makes a bare local object that
//! nobody asked for. A hook finds that object, closes it, and does what the
//! user meant: opens the picker, or creates on the remote.
//!
//! A hook alternates between questions to the local server, the state on disk
//! and the layout, and decisions on the replies. The decisions are here: an
//! `Interceptor` says what to ask next, takes the reply, and ends with a list
//! of acts, to be done in order up to the first that fails.

use crate::listing::{
    pane_texts, workspace_texts, PaneInfo, PaneText, WorkspaceInfo, WorkspaceText,
};
use crate::search::{first, lemma_first_fits, lemma_first_is, lemma_first_none};
use crate::text::{
    copied, listed, opt_pair, opt_str, opt_text, or_empty, owned, same, text_or_empty, texts,
};
use vstd::prelude::*;

verus! {

/// Pause before a hook looks, in milliseconds: time for the create to be
/// focused and for the daemon to write its map.
pub const SETTLE_MS: u64 = 250;

/// Nanoseconds within which a hook acts but once. Acting more often means that
/// it misjudged and eats its own mirrors.
pub const ACT_WINDOW: u128 = 4_000_000_000;

/// The label and directory name of placeholders.
pub const PLACEHOLDER: &'static str = ".mirror-pane";

/// What was created.
#[derive(Debug, Clone, Copy, PartialEq, Eq, Structural)]
pub enum Hook {
    Workspace,
    Tab,
    Pane,
}

/// What was created, by the name of the hook.
pub open spec fn hook_of(what: Seq<char>) -> Hook {
    if what == "tab"@ {
        Hook::Tab
    } else if what == "pane"@ {
        Hook::Pane
    } else {
        Hook::Workspace
    }
}

/// What was created, by the name of the hook.
pub fn hook_named(what: &str) -> (r: Hook)
    ensures
        r == (if what@ == "tab"@ {
            Hook::Tab
        } else if what@ == "pane"@ {
            Hook::Pane
        } else {
            Hook::Workspace
        }),
        r == hook_of(what@),
{
    if same(what, "tab") {
        Hook::Tab
    } else if same(what, "pane") {
        Hook::Pane
    } else {
        Hook::Workspace
    }
}

/// Whether hooks are wanted.
pub open spec fn is_wanted(setting: Option<bool>) -> bool {
    setting != Some(false)
}

/// Whether hooks are wanted, by the setting of a readable configuration: unless
/// it says no.
pub fn wanted(setting: Option<bool>) -> (r: bool)
    ensures
        r == (setting != Some(false)),
        r == is_wanted(setting),
{
    match setting {
        Some(b) => b,
        None => true,
    }
}

// --- what is known of a host ------------------------------------------------

/// A workspace in the map of a host.
#[derive(Debug)]
pub struct MappedWorkspace {
    pub local_id: String,
    pub tombstoned: bool,
    pub root_tab: Option<String>,
}

pub struct MappedText {
    pub local_id: Seq<char>,
    pub tombstoned: bool,
    pub root_tab: Option<Seq<char>>,
}

impl View for MappedWorkspace {
    type V = MappedText;

    open spec fn view(&self) -> MappedText {
        MappedText {
            local_id: self.local_id@,
            tombstoned: self.tombstoned,
            root_tab: opt_text(self.root_tab),
        }
    }
}

/// The map of a host: its workspaces, and the local ids of its tabs and panes.
#[derive(Debug)]
pub struct HostMap {
    pub workspaces: Vec<MappedWorkspace>,
    pub tabs: Vec<String>,
    pub panes: Vec<String>,
}

pub struct HostMapText {
    pub workspaces: Seq<MappedText>,
    pub tabs: Seq<Seq<char>>,
    pub panes: Seq<Seq<char>>,
}

impl View for HostMap {
    type V = HostMapText;

    open spec fn view(&self) -> HostMapText {
        HostMapText {
            workspaces: self.workspaces@.map_values(|w: MappedWorkspace| w@),
            tabs: texts(self.tabs@),
            panes: texts(self.panes@),
        }
    }
}

/// The local tabs and panes that are mirrors.
pub struct Known {
    pub tabs: Vec<String>,
    pub panes: Vec<String>,
}

pub struct KnownText {
    pub tabs: Set<Seq<char>>,
    pub panes: Set<Seq<char>>,
}

impl View for Known {
    type V = KnownText;

    open spec fn view(&self) -> KnownText {
        KnownText { tabs: texts(self.tabs@).to_set(), panes: texts(self.panes@).to_set() }
    }
}

/// The workspace is a live mirror of the host.
pub open spec fn mirrors(map: HostMapText, ws: Seq<char>) -> bool {
    exists|i: int|
        0 <= i < map.workspaces.len() && (#[trigger] map.workspaces[i]).local_id == ws
            && !map.workspaces[i].tombstoned
}

/// The tab is the root tab of some workspace of the host. That of a fresh
/// mirror is kept with the workspace and not among the tabs.
pub open spec fn is_root_tab(map: HostMapText, tab: Seq<char>) -> bool {
    exists|i: int|
        0 <= i < map.workspaces.len() && (#[trigger] map.workspaces[i]).root_tab == Some(tab)
}

/// What a host's map makes known.
pub open spec fn known_from(map: HostMapText) -> KnownText {
    KnownText {
        tabs: Set::new(|t: Seq<char>| map.tabs.contains(t) || is_root_tab(map, t)),
        panes: map.panes.to_set(),
    }
}

// --- what is found ----------------------------------------------------------

/// The pane that nobody asked for, the tab it lies in, whether it is the only
/// pane there, and mirrored panes to anchor the remote action on: any of the
/// workspace, and one of the same tab.
pub struct Find {
    pub pane: String,
    pub tab: String,
    pub alone: bool,
    pub any: Option<String>,
    pub near: Option<String>,
}

pub struct FindText {
    pub pane: Seq<char>,
    pub tab: Seq<char>,
    pub alone: bool,
    pub any: Option<Seq<char>>,
    pub near: Option<Seq<char>>,
}

impl View for Find {
    type V = FindText;

    open spec fn view(&self) -> FindText {
        FindText {
            pane: self.pane@,
            tab: self.tab@,
            alone: self.alone,
            any: opt_text(self.any),
            near: opt_text(self.near),
        }
    }
}

/// A pane without an agent in the placeholder directory.
pub open spec fn bare(pane: PaneText, placeholder: Option<Seq<char>>) -> bool {
    !pane.agent && placeholder is Some && pane.cwd == placeholder
}

pub open spec fn lies_in(ws: Seq<char>) -> spec_fn(PaneText) -> bool {
    |p: PaneText| p.workspace_id == Some(ws)
}

/// A bare pane of the workspace that is no mirror.
pub open spec fn is_junk(
    ws: Seq<char>,
    panes: Set<Seq<char>>,
    placeholder: Option<Seq<char>>,
) -> spec_fn(PaneText) -> bool {
    |p: PaneText|
        p.workspace_id == Some(ws) && !panes.contains(text_or_empty(p.pane_id)) && bare(
            p,
            placeholder,
        )
}

/// A mirrored pane of the workspace, of one tab where one is given.
pub open spec fn is_sibling(
    ws: Seq<char>,
    panes: Set<Seq<char>>,
    tab: Option<Seq<char>>,
) -> spec_fn(PaneText) -> bool {
    |p: PaneText|
        p.workspace_id == Some(ws) && panes.contains(text_or_empty(p.pane_id)) && (tab is None
            || p.tab_id == tab)
}

/// The first mirrored pane of the workspace, of one tab where one is given.
pub open spec fn sibling(
    list: Seq<PaneText>,
    ws: Seq<char>,
    panes: Set<Seq<char>>,
    tab: Option<Seq<char>>,
) -> Option<Seq<char>> {
    match first(list, is_sibling(ws, panes, tab)) {
        Some(at) => list[at].pane_id,
        None => None,
    }
}

/// No other listed pane of the workspace lies in the tab of pane number `at`.
pub open spec fn alone_in_tab(list: Seq<PaneText>, ws: Seq<char>, at: int) -> bool {
    forall|k: int|
        0 <= k < list.len() && k != at && (#[trigger] list[k]).workspace_id == Some(ws)
            ==> text_or_empty(list[k].tab_id) != text_or_empty(list[at].tab_id)
}

/// The first bare pane of the workspace that is no mirror, and its mirrored
/// siblings.
pub open spec fn find_in(
    list: Seq<PaneText>,
    ws: Seq<char>,
    panes: Set<Seq<char>>,
    placeholder: Option<Seq<char>>,
) -> Option<FindText> {
    match first(list, is_junk(ws, panes, placeholder)) {
        Some(at) => {
            let tab = text_or_empty(list[at].tab_id);
            Some(
                FindText {
                    pane: text_or_empty(list[at].pane_id),
                    tab,
                    alone: alone_in_tab(list, ws, at),
                    any: sibling(list, ws, panes, None),
                    near: sibling(list, ws, panes, Some(tab)),
                },
            )
        },
        None => None,
    }
}

/// Where a pane hangs in the layout of its tab: the direction of the split it
/// was made by, and the panes on the other side, nearest first.
#[derive(Debug)]
pub struct Located {
    pub direction: String,
    pub siblings: Vec<String>,
}

pub struct LocatedText {
    pub direction: Seq<char>,
    pub siblings: Seq<Seq<char>>,
}

impl View for Located {
    type V = LocatedText;

    open spec fn view(&self) -> LocatedText {
        LocatedText { direction: self.direction@, siblings: texts(self.siblings@) }
    }
}

pub open spec fn opt_located(l: Option<Located>) -> Option<LocatedText> {
    match l {
        Some(x) => Some(x@),
        None => None,
    }
}

pub open spec fn is_in(panes: Set<Seq<char>>) -> spec_fn(Seq<char>) -> bool {
    |id: Seq<char>| panes.contains(id)
}

/// The pane to split on the remote, and the direction: the nearest mirrored
/// pane across the split that was made; where the layout does not tell, a
/// mirrored pane of the same tab, to the right.
pub open spec fn split_at(
    located: Option<LocatedText>,
    panes: Set<Seq<char>>,
    near: Option<Seq<char>>,
) -> Option<(Seq<char>, Seq<char>)> {
    let origin = match located {
        Some(l) => match first(l.siblings, is_in(panes)) {
            Some(at) => Some((l.siblings[at], l.direction)),
            None => None,
        },
        None => None,
    };
    match (origin, near) {
        (Some(o), _) => Some(o),
        (None, Some(n)) => Some((n, "right"@)),
        (None, None) => None,
    }
}

// --- acts -------------------------------------------------------------------

/// What is created on the remote.
#[derive(Debug, Clone, Copy, PartialEq, Eq, Structural)]
pub enum RemoteKind {
    Tab,
    Split,
}

/// Something to be done.
#[derive(Debug, PartialEq, Eq)]
pub enum Act<T> {
    CloseWorkspace(T),
    OpenPopup,
    /// keep the ids of the tabs that the workspace has now
    RememberTabs(T),
    /// note on disk that a hook acts now
    Mark,
    CloseTab(T),
    ClosePane(T),
    /// create on the remote, as if invoked from that pane
    RunRemote { ws: T, pane: T, kind: RemoteKind, direction: Option<T> },
    /// wait for a tab that is not among those remembered, and focus it
    FocusNewTab(T),
}

impl View for Act<String> {
    type V = Act<Seq<char>>;

    open spec fn view(&self) -> Act<Seq<char>> {
        match self {
            Act::CloseWorkspace(w) => Act::CloseWorkspace(w@),
            Act::OpenPopup => Act::OpenPopup,
            Act::RememberTabs(w) => Act::RememberTabs(w@),
            Act::Mark => Act::Mark,
            Act::CloseTab(t) => Act::CloseTab(t@),
            Act::ClosePane(p) => Act::ClosePane(p@),
            Act::RunRemote { ws, pane, kind, direction } => Act::RunRemote {
                ws: ws@,
                pane: pane@,
                kind: *kind,
                direction: opt_text(*direction),
            },
            Act::FocusNewTab(w) => Act::FocusNewTab(w@),
        }
    }
}

pub open spec fn act_texts(acts: Seq<Act<String>>) -> Seq<Act<Seq<char>>> {
    acts.map_values(|a: Act<String>| a@)
}

/// A workspace that nobody asked for makes way for the picker.
pub open spec fn workspace_acts(ws: Seq<char>) -> Seq<Act<Seq<char>>> {
    seq![Act::CloseWorkspace(ws), Act::OpenPopup]
}

/// A tab that nobody asked for makes way for one on the remote, which is
/// focused when its mirror arrives.
pub open spec fn tab_acts(ws: Seq<char>, tab: Seq<char>, anchor: Seq<char>) -> Seq<Act<Seq<char>>> {
    seq![
        Act::RememberTabs(ws),
        Act::Mark,
        Act::CloseTab(tab),
        Act::RunRemote { ws, pane: anchor, kind: RemoteKind::Tab, direction: None },
        Act::FocusNewTab(ws),
    ]
}

/// A split that nobody asked for makes way for one of the remote pane.
pub open spec fn split_acts(
    ws: Seq<char>,
    pane: Seq<char>,
    anchor: Seq<char>,
    direction: Seq<char>,
) -> Seq<Act<Seq<char>>> {
    seq![
        Act::Mark,
        Act::ClosePane(pane),
        Act::RunRemote { ws, pane: anchor, kind: RemoteKind::Split, direction: Some(direction) },
    ]
}

// --- questions and replies --------------------------------------------------

/// What an interceptor waits for.
pub enum Stage {
    /// the workspaces
    Workspaces,
    /// the panes, to see whether workspace `ws` is bare
    WorkspacePanes { ws: String },
    /// the map of host number `at`, to see whether it mirrors workspace `ws`
    Host { ws: String, at: usize },
    /// the panes, to find the one that nobody asked for
    MirrorPanes { ws: String, known: Known },
    /// the time since a hook acted
    Marker { ws: String, known: Known, find: Find },
    /// where the pane that was found hangs in the layout
    Layout { ws: String, known: Known, find: Find },
}

pub enum StageText {
    Workspaces,
    WorkspacePanes { ws: Seq<char> },
    Host { ws: Seq<char>, at: nat },
    MirrorPanes { ws: Seq<char>, known: KnownText },
    Marker { ws: Seq<char>, known: KnownText, find: FindText },
    Layout { ws: Seq<char>, known: KnownText, find: FindText },
}

impl View for Stage {
    type V = StageText;

    open spec fn view(&self) -> StageText {
        match self {
            Stage::Workspaces => StageText::Workspaces,
            Stage::WorkspacePanes { ws } => StageText::WorkspacePanes { ws: ws@ },
            Stage::Host { ws, at } => StageText::Host { ws: ws@, at: *at as nat },
            Stage::MirrorPanes { ws, known } => StageText::MirrorPanes { ws: ws@, known: known@ },
            Stage::Marker { ws, known, find } => StageText::Marker {
                ws: ws@,
                known: known@,
                find: find@,
            },
            Stage::Layout { ws, known, find } => StageText::Layout {
                ws: ws@,
                known: known@,
                find: find@,
            },
        }
    }
}

/// What came back.
pub enum Reply {
    Workspaces(Vec<WorkspaceInfo>),
    Host(HostMap),
    Panes(Vec<PaneInfo>),
    /// nanoseconds since a hook acted, where one did
    Marker(Option<u128>),
    /// nothing where the layout could not be had
    Layout(Option<Located>),
}

pub enum ReplyText {
    Workspaces(Seq<WorkspaceText>),
    Host(HostMapText),
    Panes(Seq<PaneText>),
    Marker(Option<u128>),
    Layout(Option<LocatedText>),
}

impl View for Reply {
    type V = ReplyText;

    open spec fn view(&self) -> ReplyText {
        match self {
            Reply::Workspaces(list) => ReplyText::Workspaces(workspace_texts(list@)),
            Reply::Host(map) => ReplyText::Host(map@),
            Reply::Panes(list) => ReplyText::Panes(pane_texts(list@)),
            Reply::Marker(age) => ReplyText::Marker(*age),
            Reply::Layout(located) => ReplyText::Layout(opt_located(*located)),
        }
    }
}

/// A hook at work.
pub struct Interceptor {
    pub hook: Hook,
    /// number of hosts that the configuration names
    pub hosts: usize,
    /// the placeholder directory, where it is text
    pub placeholder: Option<String>,
    pub stage: Stage,
}

pub struct InterceptorText {
    pub hook: Hook,
    pub hosts: nat,
    pub placeholder: Option<Seq<char>>,
    pub stage: StageText,
}

impl View for Interceptor {
    type V = InterceptorText;

    open spec fn view(&self) -> InterceptorText {
        InterceptorText {
            hook: self.hook,
            hosts: self.hosts as nat,
            placeholder: opt_text(self.placeholder),
            stage: self.stage@,
        }
    }
}

/// How it goes on: with a question, or with acts.
pub enum Step {
    Ask(Interceptor),
    Do(Vec<Act<String>>),
}

pub enum StepText {
    Ask(InterceptorText),
    Do(Seq<Act<Seq<char>>>),
}

impl View for Step {
    type V = StepText;

    open spec fn view(&self) -> StepText {
        match self {
            Step::Ask(i) => StepText::Ask(i@),
            Step::Do(acts) => StepText::Do(act_texts(acts@)),
        }
    }
}

// --- the decisions ----------------------------------------------------------

/// Nothing is done.
pub open spec fn nothing() -> StepText {
    StepText::Do(Seq::empty())
}

pub open spec fn is_focused() -> spec_fn(WorkspaceText) -> bool {
    |w: WorkspaceText| w.focused == Some(true)
}

impl InterceptorText {
    pub open spec fn at(self, stage: StageText) -> StepText {
        StepText::Ask(InterceptorText { stage, ..self })
    }

    /// The focused workspace settles what comes next. For a new workspace: it
    /// must carry the placeholder's label and hold one pane. For a new tab or
    /// split: some host must mirror it.
    pub open spec fn on_workspaces(self, list: Seq<WorkspaceText>) -> StepText {
        match first(list, is_focused()) {
            None => nothing(),
            Some(i) => {
                let w = list[i];
                match w.workspace_id {
                    None => nothing(),
                    Some(ws) => if self.hook == Hook::Workspace {
                        if w.label == Some(PLACEHOLDER@) && w.pane_count == Some(1u64) {
                            self.at(StageText::WorkspacePanes { ws })
                        } else {
                            nothing()
                        }
                    } else if self.hosts > 0 {
                        self.at(StageText::Host { ws, at: 0 })
                    } else {
                        nothing()
                    },
                }
            },
        }
    }

    /// The workspace goes if its first pane is bare.
    pub open spec fn on_workspace_panes(self, ws: Seq<char>, list: Seq<PaneText>) -> StepText {
        match first(list, lies_in(ws)) {
            Some(i) => if bare(list[i], self.placeholder) {
                StepText::Do(workspace_acts(ws))
            } else {
                nothing()
            },
            None => nothing(),
        }
    }

    /// The first host that mirrors the workspace says what is known.
    pub open spec fn on_host(self, ws: Seq<char>, at: nat, map: HostMapText) -> StepText {
        if mirrors(map, ws) {
            self.at(StageText::MirrorPanes { ws, known: known_from(map) })
        } else if at + 1 < self.hosts {
            self.at(StageText::Host { ws, at: at + 1 })
        } else {
            nothing()
        }
    }

    pub open spec fn on_mirror_panes(
        self,
        ws: Seq<char>,
        known: KnownText,
        list: Seq<PaneText>,
    ) -> StepText {
        match find_in(list, ws, known.panes, self.placeholder) {
            Some(find) => self.at(StageText::Marker { ws, known, find }),
            None => nothing(),
        }
    }

    /// Shortly after a hook acted, none acts. A new tab is one that is no
    /// mirror and holds nothing but the pane that was found; a new split lies in
    /// a tab that is a mirror.
    pub open spec fn on_marker(
        self,
        ws: Seq<char>,
        known: KnownText,
        find: FindText,
        age: Option<u128>,
    ) -> StepText {
        if age matches Some(a) && a < ACT_WINDOW {
            nothing()
        } else if self.hook == Hook::Tab && !known.tabs.contains(find.tab) && find.alone {
            match find.any {
                Some(anchor) => StepText::Do(tab_acts(ws, find.tab, anchor)),
                None => nothing(),
            }
        } else if self.hook == Hook::Pane && known.tabs.contains(find.tab) {
            self.at(StageText::Layout { ws, known, find })
        } else {
            nothing()
        }
    }

    pub open spec fn on_layout(
        self,
        ws: Seq<char>,
        known: KnownText,
        find: FindText,
        located: Option<LocatedText>,
    ) -> StepText {
        match split_at(located, known.panes, find.near) {
            Some((anchor, direction)) => StepText::Do(split_acts(ws, find.pane, anchor, direction)),
            None => nothing(),
        }
    }

    /// How it goes on after a reply. A reply to another question ends it.
    pub open spec fn next(self, reply: ReplyText) -> StepText {
        match (self.stage, reply) {
            (StageText::Workspaces, ReplyText::Workspaces(list)) => self.on_workspaces(list),
            (StageText::WorkspacePanes { ws }, ReplyText::Panes(list)) => self.on_workspace_panes(
                ws,
                list,
            ),
            (StageText::Host { ws, at }, ReplyText::Host(map)) => self.on_host(ws, at, map),
            (
                StageText::MirrorPanes { ws, known },
                ReplyText::Panes(list),
            ) => self.on_mirror_panes(ws, known, list),
            (StageText::Marker { ws, known, find }, ReplyText::Marker(age)) => self.on_marker(
                ws,
                known,
                find,
                age,
            ),
            (StageText::Layout { ws, known, find }, ReplyText::Layout(located)) => self.on_layout(
                ws,
                known,
                find,
                located,
            ),
            _ => nothing(),
        }
    }
}

/// How a hook starts.
pub open spec fn begun(hook: Hook, hosts: Option<nat>, placeholder: Option<Seq<char>>) -> StepText {
    if hook != Hook::Workspace && hosts is None {
        nothing()
    } else {
        StepText::Ask(
            InterceptorText {
                hook,
                hosts: match hosts {
                    Some(n) => n,
                    None => 0,
                },
                placeholder,
                stage: StageText::Workspaces,
            },
        )
    }
}

fn do_nothing() -> (r: Step)
    ensures
        r@ == nothing(),
{
    let acts: Vec<Act<String>> = Vec::new();
    assert(act_texts(acts@) =~= Seq::empty());
    Step::Do(acts)
}

fn is_bare_placeholder(pane: &PaneInfo, placeholder: &Option<String>) -> (r: bool)
    ensures
        r == bare(pane@, opt_text(*placeholder)),
{
    match placeholder {
        Some(p) => !pane.agent && is_text(&pane.cwd, p.as_str()),
        None => false,
    }
}

fn is_text(a: &Option<String>, b: &str) -> (r: bool)
    ensures
        r == (opt_text(*a) == Some(b@)),
{
    match a {
        Some(x) => same(x.as_str(), b),
        None => false,
    }
}

fn focused_workspace(list: &Vec<WorkspaceInfo>) -> (r: Option<usize>)
    ensures
        first(workspace_texts(list@), is_focused()) == (match r {
            Some(i) => Some(i as int),
            None => None,
        }),
        r matches Some(i) ==> i < list@.len(),
{
    let ghost all = workspace_texts(list@);
    let ghost fits = is_focused();
    let mut i: usize = 0;
    while i < list.len()
        invariant
            i <= list@.len(),
            all == workspace_texts(list@),
            fits == is_focused(),
            forall|j: int| 0 <= j < i ==> !fits(#[trigger] all[j]),
        decreases list@.len() - i,
    {
        assert(all[i as int] == list@[i as int]@);
        let focused = match list[i].focused {
            Some(f) => f,
            None => false,
        };
        if focused {
            proof {
                lemma_first_is(all, fits, i as int);
            }
            return Some(i);
        }
        i += 1;
    }
    proof {
        lemma_first_none(all, fits);
    }
    None
}

fn first_pane_in(list: &Vec<PaneInfo>, ws: &str) -> (r: Option<usize>)
    ensures
        first(pane_texts(list@), lies_in(ws@)) == (match r {
            Some(i) => Some(i as int),
            None => None,
        }),
        r matches Some(i) ==> i < list@.len(),
{
    let ghost all = pane_texts(list@);
    let ghost fits = lies_in(ws@);
    let mut i: usize = 0;
    while i < list.len()
        invariant
            i <= list@.len(),
            all == pane_texts(list@),
            fits == lies_in(ws@),
            forall|j: int| 0 <= j < i ==> !fits(#[trigger] all[j]),
        decreases list@.len() - i,
    {
        assert(all[i as int] == list@[i as int]@);
        if is_text(&list[i].workspace_id, ws) {
            proof {
                lemma_first_is(all, fits, i as int);
            }
            return Some(i);
        }
        i += 1;
    }
    proof {
        lemma_first_none(all, fits);
    }
    None
}

fn first_junk(list: &Vec<PaneInfo>, ws: &str, panes: &Vec<String>, placeholder: &Option<String>) -> (r:
    Option<usize>)
    ensures
        first(pane_texts(list@), is_junk(ws@, texts(panes@).to_set(), opt_text(*placeholder))) == (
        match r {
            Some(i) => Some(i as int),
            None => None,
        }),
        r matches Some(i) ==> i < list@.len(),
{
    let ghost all = pane_texts(list@);
    let ghost fits = is_junk(ws@, texts(panes@).to_set(), opt_text(*placeholder));
    let mut i: usize = 0;
    while i < list.len()
        invariant
            i <= list@.len(),
            all == pane_texts(list@),
            fits == is_junk(ws@, texts(panes@).to_set(), opt_text(*placeholder)),
            forall|j: int| 0 <= j < i ==> !fits(#[trigger] all[j]),
        decreases list@.len() - i,
    {
        assert(all[i as int] == list@[i as int]@);
        let id = or_empty(&list[i].pane_id);
        let is_known = listed(panes.as_slice(), id.as_str());
        if is_text(&list[i].workspace_id, ws) && !is_known && is_bare_placeholder(
            &list[i],
            placeholder,
        ) {
            proof {
                lemma_first_is(all, fits, i as int);
            }
            return Some(i);
        }
        i += 1;
    }
    proof {
        lemma_first_none(all, fits);
    }
    None
}

fn first_sibling(list: &Vec<PaneInfo>, ws: &str, panes: &Vec<String>, tab: Option<&str>) -> (r:
    Option<String>)
    ensures
        opt_text(r) == sibling(pane_texts(list@), ws@, texts(panes@).to_set(), opt_str(tab)),
{
    let ghost all = pane_texts(list@);
    let ghost fits = is_sibling(ws@, texts(panes@).to_set(), opt_str(tab));
    let mut i: usize = 0;
    while i < list.len()
        invariant
            i <= list@.len(),
            all == pane_texts(list@),
            fits == is_sibling(ws@, texts(panes@).to_set(), opt_str(tab)),
            forall|j: int| 0 <= j < i ==> !fits(#[trigger] all[j]),
        decreases list@.len() - i,
    {
        assert(all[i as int] == list@[i as int]@);
        let id = or_empty(&list[i].pane_id);
        let is_known = listed(panes.as_slice(), id.as_str());
        let in_tab = match tab {
            Some(t) => is_text(&list[i].tab_id, t),
            None => true,
        };
        if is_text(&list[i].workspace_id, ws) && is_known && in_tab {
            proof {
                lemma_first_is(all, fits, i as int);
            }
            return match &list[i].pane_id {
                Some(p) => Some(copied(p)),
                None => None,
            };
        }
        i += 1;
    }
    proof {
        lemma_first_none(all, fits);
    }
    None
}

fn is_alone(list: &Vec<PaneInfo>, ws: &str, at: usize) -> (r: bool)
    requires
        at < list@.len(),
    ensures
        r == alone_in_tab(pane_texts(list@), ws@, at as int),
{
    let ghost all = pane_texts(list@);
    let tab = or_empty(&list[at].tab_id);
    assert(all[at as int] == list@[at as int]@);
    let mut i: usize = 0;
    while i < list.len()
        invariant
            i <= list@.len(),
            at < list@.len(),
            all == pane_texts(list@),
            tab@ == text_or_empty(all[at as int].tab_id),
            forall|k: int|
                0 <= k < i && k != at && (#[trigger] all[k]).workspace_id == Some(ws@)
                    ==> text_or_empty(all[k].tab_id) != tab@,
        decreases list@.len() - i,
    {
        assert(all[i as int] == list@[i as int]@);
        let other = or_empty(&list[i].tab_id);
        if i != at && is_text(&list[i].workspace_id, ws) && same(other.as_str(), tab.as_str()) {
            return false;
        }
        i += 1;
    }
    true
}

fn find_junk(list: &Vec<PaneInfo>, ws: &str, panes: &Vec<String>, placeholder: &Option<String>) -> (r:
    Option<Find>)
    ensures
        (match r {
            Some(f) => Some(f@),
            None => None,
        }) == find_in(pane_texts(list@), ws@, texts(panes@).to_set(), opt_text(*placeholder)),
{
    match first_junk(list, ws, panes, placeholder) {
        Some(i) => {
            assert(pane_texts(list@)[i as int] == list@[i as int]@);
            let pane = or_empty(&list[i].pane_id);
            let tab = or_empty(&list[i].tab_id);
            let any = first_sibling(list, ws, panes, None);
            let near = first_sibling(list, ws, panes, Some(tab.as_str()));
            let alone = is_alone(list, ws, i);
            Some(Find { pane, tab, alone, any, near })
        },
        None => None,
    }
}

fn is_mirrored(map: &HostMap, ws: &str) -> (r: bool)
    ensures
        r == mirrors(map@, ws@),
{
    let mut i: usize = 0;
    while i < map.workspaces.len()
        invariant
            i <= map.workspaces@.len(),
            forall|j: int|
                0 <= j < i ==> (#[trigger] map@.workspaces[j]).local_id != ws@
                    || map@.workspaces[j].tombstoned,
        decreases map.workspaces@.len() - i,
    {
        assert(map@.workspaces[i as int] == map.workspaces@[i as int]@);
        if same(map.workspaces[i].local_id.as_str(), ws) && !map.workspaces[i].tombstoned {
            return true;
        }
        i += 1;
    }
    false
}

spec fn roots_upto(list: Seq<MappedText>, tab: Seq<char>, upto: int) -> bool {
    exists|j: int| 0 <= j < upto && (#[trigger] list[j]).root_tab == Some(tab)
}

proof fn lemma_roots_step(list: Seq<MappedText>, tab: Seq<char>, upto: int)
    requires
        0 <= upto < list.len(),
    ensures
        roots_upto(list, tab, upto + 1) == (roots_upto(list, tab, upto) || list[upto].root_tab
            == Some(tab)),
{
    if roots_upto(list, tab, upto) {
        let j = choose|j: int| 0 <= j < upto && (#[trigger] list[j]).root_tab == Some(tab);
        assert(0 <= j < upto + 1 && list[j].root_tab == Some(tab));
    }
}

fn what_is_known(map: HostMap) -> (r: Known)
    ensures
        r@ == known_from(map@),
{
    let ghost of = map@;
    let HostMap { workspaces, tabs, panes } = map;
    let mut all = tabs;
    let ghost own = texts(all@);
    let mut i: usize = 0;
    while i < workspaces.len()
        invariant
            i <= workspaces@.len(),
            of.workspaces == workspaces@.map_values(|w: MappedWorkspace| w@),
            own == of.tabs,
            forall|t: Seq<char>| #[trigger]
                texts(all@).contains(t) <==> own.contains(t) || roots_upto(
                    of.workspaces,
                    t,
                    i as int,
                ),
        decreases workspaces@.len() - i,
    {
        let ghost before = texts(all@);
        assert(of.workspaces[i as int] == workspaces@[i as int]@);
        match &workspaces[i].root_tab {
            Some(root) => {
                let root = copied(root);
                all.push(root);
                proof {
                    assert(texts(all@) =~= before.push(root@));
                    assert(of.workspaces[i as int].root_tab == Some(root@));
                    assert forall|t: Seq<char>|
                        #[trigger] texts(all@).contains(t) <==> before.contains(t) || t
                            == root@ by {
                        if before.contains(t) {
                            let k = choose|k: int| 0 <= k < before.len() && before[k] == t;
                            assert(before.push(root@)[k] == t);
                        }
                        assert(before.push(root@)[before.len() as int] == root@);
                    }
                }
            },
            None => {
                assert(of.workspaces[i as int].root_tab is None);
            },
        }
        proof {
            assert forall|t: Seq<char>| #[trigger]
                texts(all@).contains(t) <==> own.contains(t) || roots_upto(
                    of.workspaces,
                    t,
                    i + 1,
                ) by {
                lemma_roots_step(of.workspaces, t, i as int);
                assert(before.contains(t) <==> own.contains(t) || roots_upto(
                    of.workspaces,
                    t,
                    i as int,
                ));
            }
        }
        i += 1;
    }
    let r = Known { tabs: all, panes };
    assert(r@.tabs =~= known_from(of).tabs);
    r
}

fn split_anchor(located: Option<Located>, panes: &Vec<String>, near: &Option<String>) -> (r: Option<
    (String, String),
>)
    ensures
        opt_pair(r) == split_at(
            opt_located(located),
            texts(panes@).to_set(),
            opt_text(*near),
        ),
{
    if let Some(l) = &located {
        let ghost all = texts(l.siblings@);
        let ghost fits = is_in(texts(panes@).to_set());
        let mut i: usize = 0;
        while i < l.siblings.len()
            invariant
                i <= l.siblings@.len(),
                all == texts(l.siblings@),
                fits == is_in(texts(panes@).to_set()),
                located == Some(*l),
                forall|j: int| 0 <= j < i ==> !fits(#[trigger] all[j]),
            decreases l.siblings@.len() - i,
        {
            assert(all[i as int] == l.siblings@[i as int]@);
            if listed(panes.as_slice(), l.siblings[i].as_str()) {
                proof {
                    lemma_first_is(all, fits, i as int);
                }
                return Some((copied(&l.siblings[i]), copied(&l.direction)));
            }
            i += 1;
        }
        proof {
            lemma_first_none(all, fits);
        }
    }
    match near {
        Some(n) => Some((copied(n), "right".to_owned())),
        None => None,
    }
}

fn replace_workspace(ws: String) -> (r: Step)
    ensures
        r@ == StepText::Do(workspace_acts(ws@)),
{
    let mut acts: Vec<Act<String>> = Vec::new();
    acts.push(Act::CloseWorkspace(copied(&ws)));
    acts.push(Act::OpenPopup);
    assert(act_texts(acts@) =~= workspace_acts(ws@));
    Step::Do(acts)
}

fn replace_tab(ws: String, tab: String, anchor: String) -> (r: Step)
    ensures
        r@ == StepText::Do(tab_acts(ws@, tab@, anchor@)),
{
    let mut acts: Vec<Act<String>> = Vec::new();
    acts.push(Act::RememberTabs(copied(&ws)));
    acts.push(Act::Mark);
    acts.push(Act::CloseTab(copied(&tab)));
    acts.push(
        Act::RunRemote {
            ws: copied(&ws),
            pane: copied(&anchor),
            kind: RemoteKind::Tab,
            direction: None,
        },
    );
    acts.push(Act::FocusNewTab(copied(&ws)));
    assert(act_texts(acts@) =~= tab_acts(ws@, tab@, anchor@));
    Step::Do(acts)
}

fn replace_split(ws: String, pane: String, anchor: String, direction: String) -> (r: Step)
    ensures
        r@ == StepText::Do(split_acts(ws@, pane@, anchor@, direction@)),
{
    let mut acts: Vec<Act<String>> = Vec::new();
    acts.push(Act::Mark);
    acts.push(Act::ClosePane(copied(&pane)));
    acts.push(
        Act::RunRemote {
            ws: copied(&ws),
            pane: copied(&anchor),
            kind: RemoteKind::Split,
            direction: Some(copied(&direction)),
        },
    );
    assert(act_texts(acts@) =~= split_acts(ws@, pane@, anchor@, direction@));
    Step::Do(acts)
}

impl Interceptor {
    /// Starts a hook. What was created inside a mirror takes the hosts of a
    /// readable configuration to judge; a new workspace does not.
    pub fn begin(hook: Hook, hosts: Option<usize>, placeholder: Option<&str>) -> (r: Step)
        ensures
            r@ == (if hook != Hook::Workspace && hosts is None {
                nothing()
            } else {
                StepText::Ask(
                    InterceptorText {
                        hook,
                        hosts: match hosts {
                            Some(n) => n as nat,
                            None => 0,
                        },
                        placeholder: opt_str(placeholder),
                        stage: StageText::Workspaces,
                    },
                )
            }),
            r@ == begun(
                hook,
                match hosts {
                    Some(n) => Some(n as nat),
                    None => None,
                },
                opt_str(placeholder),
            ),
    {
        let count: usize = match hosts {
            Some(n) => n,
            None => {
                if hook != Hook::Workspace {
                    return do_nothing();
                }
                0
            },
        };
        Step::Ask(
            Interceptor {
                hook,
                hosts: count,
                placeholder: owned(placeholder),
                stage: Stage::Workspaces,
            },
        )
    }

    /// Takes the reply to the question and says how it goes on.
    pub fn answered(self, reply: Reply) -> (r: Step)
        ensures
            r@ == self@.next(reply@),
    {
        let Interceptor { hook, hosts, placeholder, stage } = self;
        match (stage, reply) {
            (Stage::Workspaces, Reply::Workspaces(list)) => {
                let i = match focused_workspace(&list) {
                    Some(i) => i,
                    None => {
                        return do_nothing();
                    },
                };
                let w = &list[i];
                assert(workspace_texts(list@)[i as int] == w@);
                let ws = match &w.workspace_id {
                    Some(id) => copied(id),
                    None => {
                        return do_nothing();
                    },
                };
                if hook == Hook::Workspace {
                    let single = match w.pane_count {
                        Some(n) => n == 1,
                        None => false,
                    };
                    if is_text(&w.label, PLACEHOLDER) && single {
                        Step::Ask(
                            Interceptor {
                                hook,
                                hosts,
                                placeholder,
                                stage: Stage::WorkspacePanes { ws },
                            },
                        )
                    } else {
                        do_nothing()
                    }
                } else if hosts > 0 {
                    Step::Ask(
                        Interceptor { hook, hosts, placeholder, stage: Stage::Host { ws, at: 0 } },
                    )
                } else {
                    do_nothing()
                }
            },
            (Stage::WorkspacePanes { ws }, Reply::Panes(list)) => {
                match first_pane_in(&list, ws.as_str()) {
                    Some(i) => {
                        assert(pane_texts(list@)[i as int] == list@[i as int]@);
                        if is_bare_placeholder(&list[i], &placeholder) {
                            replace_workspace(ws)
                        } else {
                            do_nothing()
                        }
                    },
                    None => do_nothing(),
                }
            },
            (Stage::Host { ws, at }, Reply::Host(map)) => {
                if is_mirrored(&map, ws.as_str()) {
                    Step::Ask(
                        Interceptor {
                            hook,
                            hosts,
                            placeholder,
                            stage: Stage::MirrorPanes { ws, known: what_is_known(map) },
                        },
                    )
                } else if at < hosts && at + 1 < hosts {
                    Step::Ask(
                        Interceptor {
                            hook,
                            hosts,
                            placeholder,
                            stage: Stage::Host { ws, at: at + 1 },
                        },
                    )
                } else {
                    do_nothing()
                }
            },
            (Stage::MirrorPanes { ws, known }, Reply::Panes(list)) => {
                match find_junk(&list, ws.as_str(), &known.panes, &placeholder) {
                    Some(find) => Step::Ask(
                        Interceptor {
                            hook,
                            hosts,
                            placeholder,
                            stage: Stage::Marker { ws, known, find },
                        },
                    ),
                    None => do_nothing(),
                }
            },
            (Stage::Marker { ws, known, find }, Reply::Marker(age)) => {
                let recently = match age {
                    Some(a) => a < ACT_WINDOW,
                    None => false,
                };
                if recently {
                    return do_nothing();
                }
                let tab_known = listed(known.tabs.as_slice(), find.tab.as_str());
                if hook == Hook::Tab && !tab_known && find.alone {
                    match find.any {
                        Some(anchor) => replace_tab(ws, find.tab, anchor),
                        None => do_nothing(),
                    }
                } else if hook == Hook::Pane && tab_known {
                    Step::Ask(
                        Interceptor {
                            hook,
                            hosts,
                            placeholder,
                            stage: Stage::Layout { ws, known, find },
                        },
                    )
                } else {
                    do_nothing()
                }
            },
            (Stage::Layout { ws, known, find }, Reply::Layout(located)) => {
                match split_anchor(located, &known.panes, &find.near) {
                    Some((anchor, direction)) => replace_split(ws, find.pane, anchor, direction),
                    None => do_nothing(),
                }
            },
            _ => do_nothing(),
        }
    }
}

// --- laws -------------------------------------------------------------------

/// What holds at each stage: a hook keeps to its own questions, and what it has
/// found is no mirror.
pub open spec fn sound(i: InterceptorText) -> bool {
    match i.stage {
        StageText::Workspaces => true,
        StageText::WorkspacePanes { .. } => i.hook == Hook::Workspace,
        StageText::Host { at, .. } => i.hook != Hook::Workspace && at < i.hosts,
        StageText::MirrorPanes { .. } => i.hook != Hook::Workspace,
        StageText::Marker { known, find, .. } => i.hook != Hook::Workspace
            && !known.panes.contains(find.pane),
        StageText::Layout { known, find, .. } => i.hook == Hook::Pane && !known.panes.contains(
            find.pane,
        ) && known.tabs.contains(find.tab),
    }
}

/// What a hook has found is a pane of the workspace that is no mirror, runs no
/// agent and sits in the placeholder directory. It counts as alone where no other
/// pane of the workspace lies in its tab.
pub proof fn law_found_pane_is_unasked_for(
    list: Seq<PaneText>,
    ws: Seq<char>,
    panes: Set<Seq<char>>,
    placeholder: Option<Seq<char>>,
)
    ensures
        find_in(list, ws, panes, placeholder) matches Some(f) ==> !panes.contains(f.pane)
            && exists|k: int|
            #![trigger list[k]]
            0 <= k < list.len() && list[k].workspace_id == Some(ws) && bare(list[k], placeholder)
                && f.pane == text_or_empty(list[k].pane_id) && f.tab == text_or_empty(
                list[k].tab_id,
            ) && f.alone == alone_in_tab(list, ws, k),
{
    lemma_first_fits(list, is_junk(ws, panes, placeholder));
    if let Some(at) = first(list, is_junk(ws, panes, placeholder)) {
        assert(is_junk(ws, panes, placeholder)(list[at]));
    }
}

/// Each reply leaves a hook in order: what holds at a stage holds at the next.
pub proof fn law_stages_stay_sound(i: InterceptorText, reply: ReplyText)
    requires
        sound(i),
    ensures
        i.next(reply) matches StepText::Ask(j) ==> sound(j) && j.hook == i.hook && j.hosts
            == i.hosts && j.placeholder == i.placeholder,
{
    if let (StageText::MirrorPanes { ws, known }, ReplyText::Panes(list)) = (i.stage, reply) {
        law_found_pane_is_unasked_for(list, ws, known.panes, i.placeholder);
    }
}

/// A mirror is never closed: what a hook closes is a pane that is none, a tab
/// that is none and holds nothing but the pane that was found, or, where a
/// workspace was created, that workspace.
pub proof fn law_mirrors_are_never_closed(
    i: InterceptorText,
    reply: ReplyText,
    acts: Seq<Act<Seq<char>>>,
    k: int,
)
    requires
        sound(i),
        i.next(reply) == StepText::Do(acts),
        0 <= k < acts.len(),
    ensures
        acts[k] matches Act::ClosePane(p) ==> i.stage matches StageText::Layout { known, .. }
            && !known.panes.contains(p),
        acts[k] matches Act::CloseTab(t) ==> i.stage matches StageText::Marker {
            known,
            find,
            ..
        } && !known.tabs.contains(t) && t == find.tab && find.alone,
        acts[k] is CloseWorkspace ==> i.hook == Hook::Workspace,
{
}

/// A hook notes that it acts before it closes a tab or a pane, and closes
/// before it creates on the remote.
pub proof fn law_acts_come_in_order(
    i: InterceptorText,
    reply: ReplyText,
    acts: Seq<Act<Seq<char>>>,
    k: int,
)
    requires
        i.next(reply) == StepText::Do(acts),
        0 <= k < acts.len(),
    ensures
        acts[k] is CloseTab || acts[k] is ClosePane ==> k > 0 && acts[k - 1] == Act::<
            Seq<char>,
        >::Mark,
        acts[k] is RunRemote ==> k > 0 && (acts[k - 1] is CloseTab || acts[k - 1] is ClosePane),
{
}

/// Within the window after a hook acted, no hook closes or creates anything
/// inside a mirror.
pub proof fn law_one_act_per_window(
    i: InterceptorText,
    ws: Seq<char>,
    known: KnownText,
    find: FindText,
    age: u128,
)
    requires
        age < ACT_WINDOW,
    ensures
        i.on_marker(ws, known, find, Some(age)) == nothing(),
{
}

/// A new tab and a new split both make a new pane; of the two hooks that fire,
/// at most one goes on.
pub proof fn law_one_hook_answers(
    tab: InterceptorText,
    pane: InterceptorText,
    ws: Seq<char>,
    known: KnownText,
    find: FindText,
    age: Option<u128>,
)
    requires
        tab.hook == Hook::Tab,
        pane.hook == Hook::Pane,
    ensures
        tab.on_marker(ws, known, find, age) == nothing() || pane.on_marker(ws, known, find, age)
            == nothing(),
{
}

/// How a hook goes on once the maps of the hosts from number `at` on are known.
pub open spec fn through_hosts(
    i: InterceptorText,
    ws: Seq<char>,
    maps: Seq<HostMapText>,
    at: nat,
) -> StepText
    decreases maps.len() - at,
{
    if at >= maps.len() {
        nothing()
    } else {
        match i.on_host(ws, at, maps[at as int]) {
            StepText::Ask(j) => if j.stage is Host {
                through_hosts(i, ws, maps, at + 1)
            } else {
                StepText::Ask(j)
            },
            StepText::Do(acts) => StepText::Do(acts),
        }
    }
}

/// In a workspace that no host mirrors, the hooks for tabs and splits do
/// nothing; in one that a host mirrors, they go by the first such host.
pub proof fn law_only_mirrors_are_touched(
    i: InterceptorText,
    ws: Seq<char>,
    maps: Seq<HostMapText>,
    at: nat,
)
    requires
        i.hosts == maps.len(),
        at < maps.len(),
    ensures
        (forall|k: int| at <= k < maps.len() ==> !mirrors(#[trigger] maps[k], ws))
            ==> through_hosts(i, ws, maps, at) == nothing(),
        forall|k: int|
            #![trigger maps[k]]
            at <= k < maps.len() && mirrors(maps[k], ws) && (forall|m: int|
                at <= m < k ==> !mirrors(#[trigger] maps[m], ws)) ==> through_hosts(
                i,
                ws,
                maps,
                at,
            ) == i.at(StageText::MirrorPanes { ws, known: known_from(maps[k]) }),
    decreases maps.len() - at,
{
    if at + 1 < maps.len() {
        law_only_mirrors_are_touched(i, ws, maps, at + 1);
    }
    assert forall|k: int|
        #![trigger maps[k]]
        at <= k < maps.len() && mirrors(maps[k], ws) && (forall|m: int|
            at <= m < k ==> !mirrors(#[trigger] maps[m], ws)) implies through_hosts(
        i,
        ws,
        maps,
        at,
    ) == i.at(StageText::MirrorPanes { ws, known: known_from(maps[k]) }) by {
        if k > at {
            assert(!mirrors(maps[at as int], ws));
        }
    }
}

/// A split is repeated where it was made: on the nearest mirrored pane across
/// it, in its direction, whichever other panes the tab has.
pub proof fn law_split_keeps_its_place(
    located: LocatedText,
    panes: Set<Seq<char>>,
    near: Option<Seq<char>>,
    k: int,
)
    requires
        0 <= k < located.siblings.len(),
        panes.contains(located.siblings[k]),
        forall|m: int| 0 <= m < k ==> !panes.contains(#[trigger] located.siblings[m]),
    ensures
        split_at(Some(located), panes, near) == Some((located.siblings[k], located.direction)),
{
    lemma_first_is(located.siblings, is_in(panes), k);
}

// --- a whole run ------------------------------------------------------------

/// How a hook ends up after some replies.
pub open spec fn run(i: InterceptorText, replies: Seq<ReplyText>) -> StepText
    decreases replies.len(),
{
    if replies.len() == 0 {
        StepText::Ask(i)
    } else {
        match i.next(replies[0]) {
            StepText::Ask(j) => run(j, replies.drop_first()),
            StepText::Do(acts) => StepText::Do(acts),
        }
    }
}

/// The reply lists `ws` as the focused workspace.
pub open spec fn shows_focused(reply: ReplyText, ws: Seq<char>) -> bool {
    reply matches ReplyText::Workspaces(list) && first(list, is_focused()) matches Some(a)
        && list[a].workspace_id == Some(ws)
}

/// The reply lists `ws` as the focused workspace, labelled as a placeholder and
/// with a single pane.
pub open spec fn shows_placeholder(reply: ReplyText, ws: Seq<char>) -> bool {
    shows_focused(reply, ws) && {
        let list = reply->Workspaces_0;
        let w = list[first(list, is_focused())->0];
        w.label == Some(PLACEHOLDER@) && w.pane_count == Some(1u64)
    }
}

/// The reply is the map of a host that mirrors `ws`, and makes `known` known.
pub open spec fn shows_mirror(reply: ReplyText, ws: Seq<char>, known: KnownText) -> bool {
    reply matches ReplyText::Host(map) && mirrors(map, ws) && known_from(map) == known
}

/// The reply lists the pane that was found.
pub open spec fn shows_find(
    reply: ReplyText,
    ws: Seq<char>,
    known: KnownText,
    placeholder: Option<Seq<char>>,
    find: FindText,
) -> bool {
    reply matches ReplyText::Panes(list) && find_in(list, ws, known.panes, placeholder) == Some(
        find,
    )
}

/// The reply lists a bare pane as the first of `ws`.
pub open spec fn shows_bare(reply: ReplyText, ws: Seq<char>, placeholder: Option<Seq<char>>) -> bool {
    reply matches ReplyText::Panes(list) && first(list, lies_in(ws)) matches Some(a) && bare(
        list[a],
        placeholder,
    )
}

pub open spec fn told_focused(all: Seq<ReplyText>, ws: Seq<char>) -> bool {
    exists|k: int| 0 <= k < all.len() && shows_focused(#[trigger] all[k], ws)
}

pub open spec fn told_placeholder(all: Seq<ReplyText>, ws: Seq<char>) -> bool {
    exists|k: int| 0 <= k < all.len() && shows_placeholder(#[trigger] all[k], ws)
}

pub open spec fn told_mirror(all: Seq<ReplyText>, ws: Seq<char>, known: KnownText) -> bool {
    exists|k: int| 0 <= k < all.len() && shows_mirror(#[trigger] all[k], ws, known)
}

pub open spec fn told_find(
    all: Seq<ReplyText>,
    ws: Seq<char>,
    known: KnownText,
    placeholder: Option<Seq<char>>,
    find: FindText,
) -> bool {
    exists|k: int|
        0 <= k < all.len() && shows_find(#[trigger] all[k], ws, known, placeholder, find)
}

/// The reply says that no hook acted within the window.
pub open spec fn shows_rest(reply: ReplyText) -> bool {
    reply matches ReplyText::Marker(age) && !(age matches Some(a) && a < ACT_WINDOW)
}

pub open spec fn told_rest(all: Seq<ReplyText>) -> bool {
    exists|k: int| 0 <= k < all.len() && shows_rest(#[trigger] all[k])
}

pub open spec fn told_bare(
    all: Seq<ReplyText>,
    ws: Seq<char>,
    placeholder: Option<Seq<char>>,
) -> bool {
    exists|k: int| 0 <= k < all.len() && shows_bare(#[trigger] all[k], ws, placeholder)
}

/// The replies show that workspace `ws` is focused, that a host mirrors it,
/// which makes `known` known, and that a bare pane lies in it that is no mirror.
pub open spec fn shown(
    all: Seq<ReplyText>,
    placeholder: Option<Seq<char>>,
    ws: Seq<char>,
    known: KnownText,
    find: FindText,
) -> bool {
    told_focused(all, ws) && told_mirror(all, ws, known) && told_find(
        all,
        ws,
        known,
        placeholder,
        find,
    )
}

/// What a stage rests on has been told.
spec fn informed(i: InterceptorText, seen: Seq<ReplyText>) -> bool {
    match i.stage {
        StageText::Workspaces => true,
        StageText::WorkspacePanes { ws } => told_placeholder(seen, ws),
        StageText::Host { ws, .. } => told_focused(seen, ws),
        StageText::MirrorPanes { ws, known } => told_focused(seen, ws) && told_mirror(
            seen,
            ws,
            known,
        ),
        StageText::Marker { ws, known, find } => shown(seen, i.placeholder, ws, known, find),
        StageText::Layout { ws, known, find } => shown(seen, i.placeholder, ws, known, find)
            && known.tabs.contains(find.tab) && told_rest(seen),
    }
}

/// What an act may rest on.
pub open spec fn justified(
    act: Act<Seq<char>>,
    all: Seq<ReplyText>,
    placeholder: Option<Seq<char>>,
) -> bool {
    match act {
        Act::CloseWorkspace(ws) => told_placeholder(all, ws) && told_bare(all, ws, placeholder),
        Act::CloseTab(t) => told_rest(all) && exists|
            ws: Seq<char>,
            known: KnownText,
            find: FindText,
        |
            #[trigger] shown(all, placeholder, ws, known, find) && t == find.tab && find.alone
                && !known.tabs.contains(t),
        Act::ClosePane(p) => told_rest(all) && exists|
            ws: Seq<char>,
            known: KnownText,
            find: FindText,
        |
            #[trigger] shown(all, placeholder, ws, known, find) && p == find.pane
                && known.tabs.contains(find.tab),
        Act::RunRemote { .. } => told_rest(all),
        _ => true,
    }
}

proof fn lemma_told_stays(
    seen: Seq<ReplyText>,
    more: Seq<ReplyText>,
    ws: Seq<char>,
    known: KnownText,
    placeholder: Option<Seq<char>>,
    find: FindText,
)
    ensures
        told_focused(seen, ws) ==> told_focused(seen + more, ws),
        told_placeholder(seen, ws) ==> told_placeholder(seen + more, ws),
        told_mirror(seen, ws, known) ==> told_mirror(seen + more, ws, known),
        told_find(seen, ws, known, placeholder, find) ==> told_find(
            seen + more,
            ws,
            known,
            placeholder,
            find,
        ),
        told_rest(seen) ==> told_rest(seen + more),
{
    let all = seen + more;
    if told_rest(seen) {
        let k = choose|k: int| 0 <= k < seen.len() && shows_rest(#[trigger] seen[k]);
        assert(shows_rest(all[k]));
    }
    if told_focused(seen, ws) {
        let k = choose|k: int| 0 <= k < seen.len() && shows_focused(#[trigger] seen[k], ws);
        assert(shows_focused(all[k], ws));
    }
    if told_placeholder(seen, ws) {
        let k = choose|k: int| 0 <= k < seen.len() && shows_placeholder(#[trigger] seen[k], ws);
        assert(shows_placeholder(all[k], ws));
    }
    if told_mirror(seen, ws, known) {
        let k = choose|k: int| 0 <= k < seen.len() && shows_mirror(#[trigger] seen[k], ws, known);
        assert(shows_mirror(all[k], ws, known));
    }
    if told_find(seen, ws, known, placeholder, find) {
        let k = choose|k: int|
            0 <= k < seen.len() && shows_find(#[trigger] seen[k], ws, known, placeholder, find);
        assert(shows_find(all[k], ws, known, placeholder, find));
    }
}

proof fn lemma_stays_informed(i: InterceptorText, seen: Seq<ReplyText>, reply: ReplyText)
    requires
        informed(i, seen),
        i.next(reply) is Ask,
    ensures
        informed(i.next(reply)->Ask_0, seen + seq![reply]),
        i.next(reply)->Ask_0.placeholder == i.placeholder,
{
    let all = seen + seq![reply];
    let last = seen.len() as int;
    assert(all[last] == reply);
    match (i.stage, reply) {
        (StageText::Workspaces, ReplyText::Workspaces(list)) => {
            let ws = list[first(list, is_focused())->0].workspace_id->0;
            assert(shows_focused(all[last], ws));
            if i.hook == Hook::Workspace {
                assert(shows_placeholder(all[last], ws));
            }
        },
        (StageText::Host { ws, at }, ReplyText::Host(map)) => {
            let known = known_from(map);
            lemma_told_stays(seen, seq![reply], ws, known, None, arbitrary());
            if mirrors(map, ws) {
                assert(shows_mirror(all[last], ws, known));
            }
        },
        (StageText::MirrorPanes { ws, known }, ReplyText::Panes(list)) => {
            let find = find_in(list, ws, known.panes, i.placeholder)->0;
            lemma_told_stays(seen, seq![reply], ws, known, i.placeholder, find);
            assert(shows_find(all[last], ws, known, i.placeholder, find));
        },
        (StageText::Marker { ws, known, find }, ReplyText::Marker(age)) => {
            lemma_told_stays(seen, seq![reply], ws, known, i.placeholder, find);
            assert(shows_rest(all[last]));
        },
        _ => {},
    }
}

proof fn lemma_acts_are_justified(
    i: InterceptorText,
    seen: Seq<ReplyText>,
    reply: ReplyText,
    more: Seq<ReplyText>,
    acts: Seq<Act<Seq<char>>>,
    k: int,
)
    requires
        informed(i, seen),
        i.next(reply) == StepText::Do(acts),
        0 <= k < acts.len(),
    ensures
        justified(acts[k], seen + (seq![reply] + more), i.placeholder),
{
    let rest = seq![reply] + more;
    let all = seen + rest;
    let last = seen.len() as int;
    assert(rest[0] == reply);
    assert(all[last] == reply);
    match (i.stage, reply) {
        (StageText::WorkspacePanes { ws }, ReplyText::Panes(list)) => {
            lemma_told_stays(seen, rest, ws, arbitrary(), None, arbitrary());
            assert(shows_bare(all[last], ws, i.placeholder));
        },
        (StageText::Marker { ws, known, find }, ReplyText::Marker(age)) => {
            lemma_told_stays(seen, rest, ws, known, i.placeholder, find);
            assert(shows_rest(all[last]));
            assert(shown(all, i.placeholder, ws, known, find));
        },
        (StageText::Layout { ws, known, find }, ReplyText::Layout(located)) => {
            lemma_told_stays(seen, rest, ws, known, i.placeholder, find);
            assert(shown(all, i.placeholder, ws, known, find));
        },
        _ => {},
    }
}

proof fn lemma_run_is_justified(
    i: InterceptorText,
    seen: Seq<ReplyText>,
    replies: Seq<ReplyText>,
    acts: Seq<Act<Seq<char>>>,
    k: int,
)
    requires
        informed(i, seen),
        run(i, replies) == StepText::Do(acts),
        0 <= k < acts.len(),
    ensures
        justified(acts[k], seen + replies, i.placeholder),
    decreases replies.len(),
{
    let reply = replies[0];
    let more = replies.drop_first();
    assert(replies =~= seq![reply] + more);
    match i.next(reply) {
        StepText::Ask(j) => {
            lemma_stays_informed(i, seen, reply);
            lemma_run_is_justified(j, seen + seq![reply], more, acts, k);
            assert(seen + seq![reply] + more =~= seen + replies);
        },
        StepText::Do(_) => {
            lemma_acts_are_justified(i, seen, reply, more, acts, k);
        },
    }
}

/// Over a whole run, a hook closes only what the replies show that nobody asked
/// for: a focused workspace that is labelled as a placeholder and holds one bare
/// pane; a tab that is no mirror and holds one pane, a bare one, in a workspace
/// that a host mirrors; a bare pane that is no mirror, in a tab that is one. And
/// it closes a tab or a pane, or creates on the remote, only where a reply says
/// that no hook acted within the window.
pub proof fn law_only_the_unasked_for_is_closed(
    start: InterceptorText,
    replies: Seq<ReplyText>,
    acts: Seq<Act<Seq<char>>>,
    k: int,
)
    requires
        start.stage is Workspaces,
        run(start, replies) == StepText::Do(acts),
        0 <= k < acts.len(),
    ensures
        justified(acts[k], replies, start.placeholder),
{
    lemma_run_is_justified(start, Seq::empty(), replies, acts, k);
    assert(Seq::<ReplyText>::empty() + replies =~= replies);
}

// --- what each reply leads to -----------------------------------------------

/// The hooks go by name: `tab` and `pane` are theirs, any other name is that of the
/// hook for workspaces. They are wanted unless a readable configuration says no.
pub proof fn law_hooks_go_by_name(what: Seq<char>, setting: Option<bool>)
    ensures
        hook_of("tab"@) is Tab,
        hook_of("pane"@) is Pane,
        what != "tab"@ && what != "pane"@ ==> hook_of(what) is Workspace,
        is_wanted(setting) <==> (setting matches Some(yes) ==> yes),
{
    reveal_strlit("tab");
    reveal_strlit("pane");
    assert("tab"@[0] == 't' && "pane"@[0] == 'p');
}

/// A hook first asks for the workspaces, knowing the number of hosts and the
/// placeholder it was given. Inside a mirror it takes a readable configuration to
/// start at all.
pub proof fn law_hook_starts_with_the_workspaces(
    hook: Hook,
    n: nat,
    placeholder: Option<Seq<char>>,
)
    ensures
        begun(hook, Some(n), placeholder) == StepText::Ask(
            (InterceptorText { hook, hosts: n, placeholder, stage: StageText::Workspaces }),
        ),
        begun(Hook::Tab, None, placeholder) == StepText::Do(Seq::empty()),
        begun(Hook::Pane, None, placeholder) == StepText::Do(Seq::empty()),
        begun(Hook::Workspace, None, placeholder) == StepText::Ask(
            (InterceptorText {
                hook: Hook::Workspace,
                hosts: 0,
                placeholder,
                stage: StageText::Workspaces,
            }),
        ),
{
}

/// The first focused workspace settles how it goes on: for a new workspace, that it
/// is labelled `.mirror-pane` and holds one pane; inside a mirror, that hosts are
/// known to ask for it.
pub proof fn law_focused_workspace_settles_the_next_question(
    i: InterceptorText,
    list: Seq<WorkspaceText>,
    k: int,
    ws: Seq<char>,
)
    requires
        i.stage is Workspaces,
        0 <= k < list.len(),
        list[k].focused == Some(true),
        list[k].workspace_id == Some(ws),
        forall|j: int| 0 <= j < k ==> (#[trigger] list[j]).focused != Some(true),
    ensures
        i.hook is Workspace && list[k].label == Some(".mirror-pane"@) && list[k].pane_count == Some(
            1u64,
        ) ==> i.next(ReplyText::Workspaces(list)) == StepText::Ask(
            (InterceptorText { stage: StageText::WorkspacePanes { ws }, ..i }),
        ),
        i.hook is Workspace && !(list[k].label == Some(".mirror-pane"@) && list[k].pane_count
            == Some(1u64)) ==> i.next(ReplyText::Workspaces(list)) == StepText::Do(Seq::empty()),
        !(i.hook is Workspace) && i.hosts > 0 ==> i.next(ReplyText::Workspaces(list))
            == StepText::Ask((InterceptorText { stage: StageText::Host { ws, at: 0 }, ..i })),
        !(i.hook is Workspace) && i.hosts == 0 ==> i.next(ReplyText::Workspaces(list))
            == StepText::Do(Seq::empty()),
{
    let fits = is_focused();
    assert forall|j: int| 0 <= j < k implies !fits(#[trigger] list[j]) by {}
    lemma_first_is(list, fits, k);
}

/// Where no workspace is focused, or the first focused one has no id, nothing is
/// done.
pub proof fn law_without_a_focused_workspace_nothing_is_done(
    i: InterceptorText,
    list: Seq<WorkspaceText>,
)
    requires
        i.stage is Workspaces,
        forall|j: int|
            0 <= j < list.len() && (#[trigger] list[j]).focused == Some(true)
                ==> list[j].workspace_id is None,
    ensures
        i.next(ReplyText::Workspaces(list)) == StepText::Do(Seq::empty()),
{
    lemma_first_fits(list, is_focused());
    if let Some(a) = first(list, is_focused()) {
        assert(is_focused()(list[a]));
    }
}

/// A new workspace makes way for the picker exactly where its first listed pane runs
/// no agent and sits in the placeholder directory: then it is closed and the popup
/// opened, in this order.
pub proof fn law_bare_workspace_makes_way_for_the_picker(
    i: InterceptorText,
    ws: Seq<char>,
    list: Seq<PaneText>,
    k: int,
    dir: Seq<char>,
)
    requires
        i.stage == (StageText::WorkspacePanes { ws }),
        i.placeholder == Some(dir),
        0 <= k < list.len(),
        list[k].workspace_id == Some(ws),
        forall|j: int| 0 <= j < k ==> (#[trigger] list[j]).workspace_id != Some(ws),
    ensures
        !list[k].agent && list[k].cwd == Some(dir) ==> i.next(ReplyText::Panes(list))
            == StepText::Do(seq![Act::CloseWorkspace(ws), Act::OpenPopup]),
        list[k].agent || list[k].cwd != Some(dir) ==> i.next(ReplyText::Panes(list))
            == StepText::Do(Seq::empty()),
{
    let fits = lies_in(ws);
    assert forall|j: int| 0 <= j < k implies !fits(#[trigger] list[j]) by {}
    lemma_first_is(list, fits, k);
}

/// A workspace that is listed with no pane at all is left alone.
pub proof fn law_workspace_without_panes_is_left_alone(
    i: InterceptorText,
    ws: Seq<char>,
    list: Seq<PaneText>,
)
    requires
        i.stage == (StageText::WorkspacePanes { ws }),
        forall|j: int| 0 <= j < list.len() ==> (#[trigger] list[j]).workspace_id != Some(ws),
    ensures
        i.next(ReplyText::Panes(list)) == StepText::Do(Seq::empty()),
{
    let fits = lies_in(ws);
    assert forall|j: int| 0 <= j < list.len() implies !fits(#[trigger] list[j]) by {}
    lemma_first_none(list, fits);
}

/// A pane is bare exactly where it runs no agent and sits in the placeholder
/// directory; where that is no text, none is.
pub proof fn law_bare_panes_sit_in_the_placeholder(
    pane: PaneText,
    dir: Seq<char>,
    placeholder: Option<Seq<char>>,
)
    ensures
        bare(pane, Some(dir)) <==> !pane.agent && pane.cwd == Some(dir),
        !bare(pane, None),
        bare(pane, placeholder) ==> pane.cwd is Some && pane.cwd == placeholder,
{
}

/// A workspace is a live mirror of a host wherever in the host's map it stands: if
/// entry `k` has its id and is not tombstoned, the hook goes on to the panes, with
/// what that map makes known.
pub proof fn law_live_mirror_is_found_wherever_it_stands(
    i: InterceptorText,
    ws: Seq<char>,
    at: nat,
    map: HostMapText,
    k: int,
)
    requires
        i.stage == (StageText::Host { ws, at }),
        0 <= k < map.workspaces.len(),
        map.workspaces[k].local_id == ws,
        !map.workspaces[k].tombstoned,
    ensures
        i.next(ReplyText::Host(map)) == StepText::Ask(
            (InterceptorText {
                stage: StageText::MirrorPanes { ws, known: known_from(map) },
                ..i
            }),
        ),
{
    assert(mirrors(map, ws));
}

/// Where every entry of a host's map has another id or is tombstoned, the hook does
/// not go on to the panes: it asks the next host, and does nothing after the last.
pub proof fn law_other_hosts_are_asked_in_turn(
    i: InterceptorText,
    ws: Seq<char>,
    at: nat,
    map: HostMapText,
)
    requires
        i.stage == (StageText::Host { ws, at }),
        forall|k: int|
            0 <= k < map.workspaces.len() ==> (#[trigger] map.workspaces[k]).local_id != ws
                || map.workspaces[k].tombstoned,
    ensures
        at + 1 < i.hosts ==> i.next(ReplyText::Host(map)) == StepText::Ask(
            (InterceptorText { stage: StageText::Host { ws, at: at + 1 }, ..i }),
        ),
        at + 1 >= i.hosts ==> i.next(ReplyText::Host(map)) == StepText::Do(Seq::empty()),
{
}

/// A map makes known each of its tabs, the root tab of each of its workspaces, and
/// each of its panes, and nothing else.
pub proof fn law_map_makes_its_tabs_and_panes_known(map: HostMapText, id: Seq<char>)
    ensures
        known_from(map).tabs.contains(id) <==> (exists|k: int|
            0 <= k < map.tabs.len() && map.tabs[k] == id) || (exists|k: int|
            0 <= k < map.workspaces.len() && (#[trigger] map.workspaces[k]).root_tab == Some(id)),
        known_from(map).panes.contains(id) <==> exists|k: int|
            0 <= k < map.panes.len() && map.panes[k] == id,
{
}

/// A pane that nobody asked for: of the workspace, not among the mirrored ones,
/// without an agent, in the placeholder directory.
pub open spec fn unasked(
    p: PaneText,
    ws: Seq<char>,
    panes: Set<Seq<char>>,
    dir: Seq<char>,
) -> bool {
    &&& p.workspace_id == Some(ws)
    &&& !p.agent
    &&& p.cwd == Some(dir)
    &&& !panes.contains(text_or_empty(p.pane_id))
}

/// A mirrored pane of the workspace.
pub open spec fn mirrored(p: PaneText, ws: Seq<char>, panes: Set<Seq<char>>) -> bool {
    p.workspace_id == Some(ws) && panes.contains(text_or_empty(p.pane_id))
}

/// Of a list of panes, the first that nobody asked for is found, with its tab and
/// whether another pane of the workspace lies in that; and the hook asks when one
/// last acted.
pub proof fn law_first_unasked_pane_is_found(
    i: InterceptorText,
    ws: Seq<char>,
    known: KnownText,
    list: Seq<PaneText>,
    dir: Seq<char>,
    k: int,
) -> (find: FindText)
    requires
        i.stage == (StageText::MirrorPanes { ws, known }),
        i.placeholder == Some(dir),
        0 <= k < list.len(),
        unasked(list[k], ws, known.panes, dir),
        forall|j: int| 0 <= j < k ==> !unasked(#[trigger] list[j], ws, known.panes, dir),
    ensures
        i.next(ReplyText::Panes(list)) == StepText::Ask(
            (InterceptorText { stage: StageText::Marker { ws, known, find }, ..i }),
        ),
        find.pane == text_or_empty(list[k].pane_id),
        find.tab == text_or_empty(list[k].tab_id),
        find.alone <==> forall|j: int|
            0 <= j < list.len() && j != k && (#[trigger] list[j]).workspace_id == Some(ws)
                ==> text_or_empty(list[j].tab_id) != text_or_empty(list[k].tab_id),
        find.any == sibling(list, ws, known.panes, None),
        find.near == sibling(list, ws, known.panes, Some(find.tab)),
{
    let fits = is_junk(ws, known.panes, i.placeholder);
    assert forall|j: int| 0 <= j < k implies !fits(#[trigger] list[j]) by {
        assert(!unasked(list[j], ws, known.panes, dir));
    }
    assert(fits(list[k]));
    lemma_first_is(list, fits, k);
    find_in(list, ws, known.panes, i.placeholder)->0
}

/// Where nobody's pane is listed, or the placeholder is no text, nothing is done.
pub proof fn law_without_an_unasked_pane_nothing_is_done(
    i: InterceptorText,
    ws: Seq<char>,
    known: KnownText,
    list: Seq<PaneText>,
)
    requires
        i.stage == (StageText::MirrorPanes { ws, known }),
        i.placeholder matches Some(dir) ==> forall|j: int|
            0 <= j < list.len() ==> !unasked(#[trigger] list[j], ws, known.panes, dir),
    ensures
        i.next(ReplyText::Panes(list)) == StepText::Do(Seq::empty()),
{
    let fits = is_junk(ws, known.panes, i.placeholder);
    assert forall|j: int| 0 <= j < list.len() implies !fits(#[trigger] list[j]) by {
        if let Some(dir) = i.placeholder {
            assert(!unasked(list[j], ws, known.panes, dir));
        }
    }
    lemma_first_none(list, fits);
}

/// The pane to anchor on is the first mirrored one of the workspace, or of one tab of
/// it; there is none only where none is listed.
pub proof fn law_first_mirrored_pane_is_the_anchor(
    list: Seq<PaneText>,
    ws: Seq<char>,
    panes: Set<Seq<char>>,
    tab: Option<Seq<char>>,
    k: int,
)
    ensures
        0 <= k < list.len() && mirrored(list[k], ws, panes) && (tab is None || list[k].tab_id
            == tab) && (forall|j: int|
            0 <= j < k ==> !(mirrored(#[trigger] list[j], ws, panes) && (tab is None
                || list[j].tab_id == tab))) ==> sibling(list, ws, panes, tab) == list[k].pane_id,
        (forall|j: int|
            0 <= j < list.len() ==> !(mirrored(#[trigger] list[j], ws, panes) && (tab is None
                || list[j].tab_id == tab))) ==> sibling(list, ws, panes, tab) is None,
{
    let fits = is_sibling(ws, panes, tab);
    if 0 <= k < list.len() && mirrored(list[k], ws, panes) && (tab is None || list[k].tab_id == tab)
        && (forall|j: int|
        0 <= j < k ==> !(mirrored(#[trigger] list[j], ws, panes) && (tab is None || list[j].tab_id
            == tab))) {
        assert forall|j: int| 0 <= j < k implies !fits(#[trigger] list[j]) by {
            assert(!(mirrored(list[j], ws, panes) && (tab is None || list[j].tab_id == tab)));
        }
        lemma_first_is(list, fits, k);
    }
    if forall|j: int|
        0 <= j < list.len() ==> !(mirrored(#[trigger] list[j], ws, panes) && (tab is None
            || list[j].tab_id == tab)) {
        assert forall|j: int| 0 <= j < list.len() implies !fits(#[trigger] list[j]) by {
            assert(!(mirrored(list[j], ws, panes) && (tab is None || list[j].tab_id == tab)));
        }
        lemma_first_none(list, fits);
    }
}

/// Four seconds after a hook acted, or where none did, the next one acts; before that
/// none does.
pub proof fn law_window_is_four_seconds(
    i: InterceptorText,
    ws: Seq<char>,
    known: KnownText,
    find: FindText,
    age: u128,
)
    requires
        i.stage == (StageText::Marker { ws, known, find }),
    ensures
        age < 4_000_000_000 ==> i.next(ReplyText::Marker(Some(age))) == StepText::Do(Seq::empty()),
        age >= 4_000_000_000 ==> i.next(ReplyText::Marker(Some(age))) == i.next(
            ReplyText::Marker(None),
        ),
{
}

/// A new tab that is no mirror, holds only the pane that was found, and has a
/// mirrored pane to anchor on, makes way for one on the remote: the tabs are
/// remembered, the act is noted, the tab closed, one created on the remote from the
/// anchor, and the one that arrives is focused. In all other cases the hook for tabs
/// does nothing.
pub proof fn law_new_tab_makes_way_for_a_remote_one(
    i: InterceptorText,
    ws: Seq<char>,
    known: KnownText,
    find: FindText,
    anchor: Seq<char>,
)
    requires
        i.hook is Tab,
        i.stage == (StageText::Marker { ws, known, find }),
    ensures
        !known.tabs.contains(find.tab) && find.alone && find.any == Some(anchor) ==> i.next(
            ReplyText::Marker(None),
        ) == StepText::Do(
            seq![
                Act::RememberTabs(ws),
                Act::Mark,
                Act::CloseTab(find.tab),
                Act::RunRemote { ws, pane: anchor, kind: RemoteKind::Tab, direction: None },
                Act::FocusNewTab(ws),
            ],
        ),
        known.tabs.contains(find.tab) || !find.alone || find.any is None ==> i.next(
            ReplyText::Marker(None),
        ) == StepText::Do(Seq::empty()),
{
}

/// A new split is one in a tab that is a mirror: only then does the hook for panes go
/// on, to the layout of that tab.
pub proof fn law_new_split_lies_in_a_mirrored_tab(
    i: InterceptorText,
    ws: Seq<char>,
    known: KnownText,
    find: FindText,
)
    requires
        i.hook is Pane,
        i.stage == (StageText::Marker { ws, known, find }),
    ensures
        known.tabs.contains(find.tab) ==> i.next(ReplyText::Marker(None)) == StepText::Ask(
            (InterceptorText { stage: StageText::Layout { ws, known, find }, ..i }),
        ),
        !known.tabs.contains(find.tab) ==> i.next(ReplyText::Marker(None)) == StepText::Do(
            Seq::empty(),
        ),
{
}

/// A new split makes way for one on the remote, of the nearest mirrored pane across
/// it and in its direction.
pub proof fn law_new_split_makes_way_for_a_remote_one(
    i: InterceptorText,
    ws: Seq<char>,
    known: KnownText,
    find: FindText,
    located: LocatedText,
    k: int,
)
    requires
        i.stage == (StageText::Layout { ws, known, find }),
        0 <= k < located.siblings.len(),
        known.panes.contains(located.siblings[k]),
        forall|m: int| 0 <= m < k ==> !known.panes.contains(#[trigger] located.siblings[m]),
    ensures
        i.next(ReplyText::Layout(Some(located))) == StepText::Do(
            seq![
                Act::Mark,
                Act::ClosePane(find.pane),
                Act::RunRemote {
                    ws,
                    pane: located.siblings[k],
                    kind: RemoteKind::Split,
                    direction: Some(located.direction),
                },
            ],
        ),
{
    law_split_keeps_its_place(located, known.panes, find.near, k);
}

/// Where the layout does not tell, the split is made of a mirrored pane of the same
/// tab, to the right; without one, nothing is done.
pub proof fn law_split_without_a_layout_goes_right(
    i: InterceptorText,
    ws: Seq<char>,
    known: KnownText,
    find: FindText,
    located: Option<LocatedText>,
    near: Seq<char>,
)
    requires
        i.stage == (StageText::Layout { ws, known, find }),
        located matches Some(l) ==> forall|m: int|
            0 <= m < l.siblings.len() ==> !known.panes.contains(#[trigger] l.siblings[m]),
    ensures
        find.near == Some(near) ==> i.next(ReplyText::Layout(located)) == StepText::Do(
            seq![
                Act::Mark,
                Act::ClosePane(find.pane),
                Act::RunRemote {
                    ws,
                    pane: near,
                    kind: RemoteKind::Split,
                    direction: Some("right"@),
                },
            ],
        ),
        find.near is None ==> i.next(ReplyText::Layout(located)) == StepText::Do(Seq::empty()),
{
    if let Some(l) = located {
        let fits = is_in(known.panes);
        assert forall|m: int| 0 <= m < l.siblings.len() implies !fits(#[trigger] l.siblings[m]) by {
            assert(!known.panes.contains(l.siblings[m]));
        }
        lemma_first_none(l.siblings, fits);
    }
}

/// A whole run of the hook for tabs: in a focused workspace that some entry of a
/// host's map mirrors, a tab that holds nothing but a pane nobody asked for, and is
/// no mirror, is replaced by one on the remote, anchored on the first mirrored pane;
/// whichever entry of the map, tab and panes these are.
pub proof fn law_tab_in_a_mirror_is_made_on_the_remote(
    dir: Seq<char>,
    ws: Seq<char>,
    workspaces: Seq<WorkspaceText>,
    focused: int,
    map: HostMapText,
    entry: int,
    panes: Seq<PaneText>,
    found: int,
    anchor: int,
    anchor_id: Seq<char>,
)
    requires
        0 <= focused < workspaces.len(),
        workspaces[focused].focused == Some(true),
        workspaces[focused].workspace_id == Some(ws),
        forall|j: int| 0 <= j < focused ==> (#[trigger] workspaces[j]).focused != Some(true),
        0 <= entry < map.workspaces.len(),
        map.workspaces[entry].local_id == ws,
        !map.workspaces[entry].tombstoned,
        0 <= found < panes.len(),
        unasked(panes[found], ws, map.panes.to_set(), dir),
        forall|j: int|
            0 <= j < found ==> !unasked(#[trigger] panes[j], ws, map.panes.to_set(), dir),
        forall|j: int|
            0 <= j < panes.len() && j != found && (#[trigger] panes[j]).workspace_id == Some(ws)
                ==> text_or_empty(panes[j].tab_id) != text_or_empty(panes[found].tab_id),
        !map.tabs.contains(text_or_empty(panes[found].tab_id)),
        forall|k: int|
            0 <= k < map.workspaces.len() ==> (#[trigger] map.workspaces[k]).root_tab != Some(
                text_or_empty(panes[found].tab_id),
            ),
        0 <= anchor < panes.len(),
        mirrored(panes[anchor], ws, map.panes.to_set()),
        panes[anchor].pane_id == Some(anchor_id),
        forall|j: int|
            0 <= j < anchor ==> !mirrored(#[trigger] panes[j], ws, map.panes.to_set()),
    ensures
        run(
            InterceptorText {
                hook: Hook::Tab,
                hosts: 1,
                placeholder: Some(dir),
                stage: StageText::Workspaces,
            },
            seq![
                ReplyText::Workspaces(workspaces),
                ReplyText::Host(map),
                ReplyText::Panes(panes),
                ReplyText::Marker(None),
            ],
        ) == StepText::Do(
            seq![
                Act::RememberTabs(ws),
                Act::Mark,
                Act::CloseTab(text_or_empty(panes[found].tab_id)),
                Act::RunRemote { ws, pane: anchor_id, kind: RemoteKind::Tab, direction: None },
                Act::FocusNewTab(ws),
            ],
        ),
{
    let i0 = InterceptorText {
        hook: Hook::Tab,
        hosts: 1,
        placeholder: Some(dir),
        stage: StageText::Workspaces,
    };
    let known = known_from(map);
    let i1 = InterceptorText { stage: StageText::Host { ws, at: 0 }, ..i0 };
    let i2 = InterceptorText { stage: StageText::MirrorPanes { ws, known }, ..i0 };
    let r0 = seq![
        ReplyText::Workspaces(workspaces),
        ReplyText::Host(map),
        ReplyText::Panes(panes),
        ReplyText::Marker(None),
    ];
    let r1 = r0.drop_first();
    let r2 = r1.drop_first();
    let r3 = r2.drop_first();
    law_focused_workspace_settles_the_next_question(i0, workspaces, focused, ws);
    law_live_mirror_is_found_wherever_it_stands(i1, ws, 0, map, entry);
    let find = law_first_unasked_pane_is_found(i2, ws, known, panes, dir, found);
    let i3 = InterceptorText { stage: StageText::Marker { ws, known, find }, ..i0 };
    law_map_makes_its_tabs_and_panes_known(map, find.tab);
    law_first_mirrored_pane_is_the_anchor(panes, ws, known.panes, None, anchor);
    law_new_tab_makes_way_for_a_remote_one(i3, ws, known, find, anchor_id);
    assert(r0[0] == ReplyText::Workspaces(workspaces));
    assert(r1[0] == ReplyText::Host(map));
    assert(r2[0] == ReplyText::Panes(panes));
    assert(r3[0] == ReplyText::Marker(None));
    assert(run(i0, r0) == run(i1, r1));
    assert(run(i1, r1) == run(i2, r2));
    assert(run(i2, r2) == run(i3, r3));
}

/// A reply to another question than the one asked ends the hook without an act.
pub proof fn law_stray_reply_ends_the_hook(i: InterceptorText, reply: ReplyText)
    requires
        match i.stage {
            StageText::Workspaces => !(reply is Workspaces),
            StageText::WorkspacePanes { .. } => !(reply is Panes),
            StageText::Host { .. } => !(reply is Host),
            StageText::MirrorPanes { .. } => !(reply is Panes),
            StageText::Marker { .. } => !(reply is Marker),
            StageText::Layout { .. } => !(reply is Layout),
        },
    ensures
        i.next(reply) == StepText::Do(Seq::empty()),
{
}

/// A map is seen as it is, entry for entry.
pub proof fn law_maps_are_seen_as_they_are(map: HostMap, i: int, j: int, k: int)
    requires
        0 <= i < map.workspaces@.len(),
        0 <= j < map.tabs@.len(),
        0 <= k < map.panes@.len(),
    ensures
        map@.workspaces.len() == map.workspaces@.len(),
        map@.workspaces[i].local_id == map.workspaces@[i].local_id@,
        map@.workspaces[i].tombstoned == map.workspaces@[i].tombstoned,
        map@.workspaces[i].root_tab == opt_text(map.workspaces@[i].root_tab),
        map@.tabs.len() == map.tabs@.len(),
        map@.tabs[j] == map.tabs@[j]@,
        map@.panes.len() == map.panes@.len(),
        map@.panes[k] == map.panes@[k]@,
{
}

/// Acts are seen as they are, one for one and in order.
pub proof fn law_acts_are_seen_as_they_are(
    acts: Seq<Act<String>>,
    i: int,
    a: String,
    b: String,
    kind: RemoteKind,
    direction: Option<String>,
)
    requires
        0 <= i < acts.len(),
    ensures
        act_texts(acts).len() == acts.len(),
        act_texts(acts)[i] == acts[i]@,
        Act::CloseWorkspace(a)@ == Act::CloseWorkspace(a@),
        Act::<String>::OpenPopup@ == Act::<Seq<char>>::OpenPopup,
        Act::RememberTabs(a)@ == Act::RememberTabs(a@),
        Act::<String>::Mark@ == Act::<Seq<char>>::Mark,
        Act::CloseTab(a)@ == Act::CloseTab(a@),
        Act::ClosePane(a)@ == Act::ClosePane(a@),
        Act::FocusNewTab(a)@ == Act::FocusNewTab(a@),
        (Act::RunRemote { ws: a, pane: b, kind, direction })@ == (Act::RunRemote {
            ws: a@,
            pane: b@,
            kind,
            direction: opt_text(direction),
        }),
{
}

/// A layout is seen as it is: the direction, and the panes across, nearest first.
pub proof fn law_layouts_are_seen_as_they_are(l: Located, i: int)
    requires
        0 <= i < l.siblings@.len(),
    ensures
        opt_located(Some(l)) == Some(l@),
        opt_located(None) is None,
        l@.direction == l.direction@,
        l@.siblings.len() == l.siblings@.len(),
        l@.siblings[i] == l.siblings@[i]@,
{
}

/// Replies are seen as they are.
pub proof fn law_replies_are_seen_as_they_are(
    workspaces: Vec<WorkspaceInfo>,
    panes: Vec<PaneInfo>,
    map: HostMap,
    age: Option<u128>,
    located: Option<Located>,
)
    ensures
        Reply::Workspaces(workspaces)@ == ReplyText::Workspaces(workspace_texts(workspaces@)),
        Reply::Panes(panes)@ == ReplyText::Panes(pane_texts(panes@)),
        Reply::Host(map)@ == ReplyText::Host(map@),
        Reply::Marker(age)@ == ReplyText::Marker(age),
        Reply::Layout(located)@ == ReplyText::Layout(opt_located(located)),
{
}

/// A hook at work is seen as it is, with what it waits for.
pub proof fn law_hooks_are_seen_as_they_are(i: Interceptor, acts: Vec<Act<String>>, f: Find, k: Known)
    ensures
        Step::Ask(i)@ == StepText::Ask(i@),
        Step::Do(acts)@ == StepText::Do(act_texts(acts@)),
        i@.hook == i.hook,
        i@.hosts == i.hosts,
        i@.placeholder == opt_text(i.placeholder),
        i@.stage == i.stage@,
        f@.pane == f.pane@,
        f@.tab == f.tab@,
        f@.alone == f.alone,
        f@.any == opt_text(f.any),
        f@.near == opt_text(f.near),
        k@.tabs == texts(k.tabs@).to_set(),
        k@.panes == texts(k.panes@).to_set(),
{
}

/// What a hook waits for is seen as it is.
pub proof fn law_stages_are_seen_as_they_are(ws: String, at: usize, known: Known, find: Find)
    ensures
        Stage::Workspaces@ == StageText::Workspaces,
        (Stage::WorkspacePanes { ws })@ == (StageText::WorkspacePanes { ws: ws@ }),
        (Stage::Host { ws, at })@ == (StageText::Host { ws: ws@, at: at as nat }),
        (Stage::MirrorPanes { ws, known })@ == (StageText::MirrorPanes { ws: ws@, known: known@ }),
        (Stage::Marker { ws, known, find })@ == (StageText::Marker {
            ws: ws@,
            known: known@,
            find: find@,
        }),
        (Stage::Layout { ws, known, find })@ == (StageText::Layout {
            ws: ws@,
            known: known@,
            find: find@,
        }),
{
}

} // verus!
