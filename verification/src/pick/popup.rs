//! The popup that the picker runs in, and what it is told.

use crate::json::{json_document, member_text, parse_json, text_member, JsonTree};
use crate::pick::host::{host_texts, set_text, set_value, HostEntry};
use crate::pick::menu::{
    all_rows, cut_sub, frame, law_frame_has_its_lines, law_name_column_is_the_longest_name,
    line_feeds, menu_rows, name_column, name_width, one_line, row_texts, Row, RowText,
};
use crate::text::{
    byte_len, chars_of, contains, ends_with, law_occurrence_is_a_piece, lemma_bytes_cover_chars,
    occurs_in, opt_str, opt_text, owned,
};
use vstd::prelude::*;

verus! {

/// Variable that carries the invoking pane's directory into the popup.
pub const CWD_ENV: &'static str = "HERDR_MIRROR_PICK_CWD";

// --- the directory ----------------------------------------------------------

/// The directory that a new local workspace takes over. The placeholder that
/// mirrored panes sit in is none.
pub open spec fn cwd_from(active: Option<Seq<char>>, context: Option<Seq<char>>) -> Option<
    Seq<char>,
> {
    let cwd = match set_text(active) {
        Some(c) => Some(c),
        None => context,
    };
    match cwd {
        Some(c) => if "/.mirror-pane"@.is_suffix_of(c) {
            None
        } else {
            Some(c)
        },
        None => None,
    }
}

/// The directory that a plugin context names.
pub open spec fn context_cwd(doc: Option<JsonTree>) -> Option<Seq<char>> {
    match doc {
        Some(d) => text_member(d, "focused_pane_cwd"@),
        None => None,
    }
}

/// The directory that a plugin context names, where there is a context.
pub open spec fn opt_context_cwd(context: Option<Seq<char>>) -> Option<Seq<char>> {
    match context {
        Some(c) => context_cwd(json_document(c)),
        None => None,
    }
}

/// The directory that a new local workspace takes over, given that of the
/// active pane and the one that the plugin context names.
pub fn chosen_cwd(active: Option<&str>, context: Option<&str>) -> (r: Option<String>)
    ensures
        opt_text(r) == cwd_from(opt_str(active), opt_str(context)),
{
    let cwd = match set_value(active) {
        Some(c) => c,
        None => match context {
            Some(c) => c.to_owned(),
            None => {
                return None;
            },
        },
    };
    let cs = chars_of(cwd.as_str());
    let decoy = chars_of("/.mirror-pane");
    if ends_with(cs.as_slice(), decoy.as_slice()) {
        None
    } else {
        Some(cwd)
    }
}

/// The directory that a new local workspace takes over, given that of the
/// active pane and the text of the plugin context.
pub open spec fn inherited_cwd(active: Option<Seq<char>>, context: Option<Seq<char>>) -> Option<
    Seq<char>,
> {
    cwd_from(active, opt_context_cwd(context))
}

/// The directory that a new local workspace takes over, given that of the
/// active pane and the text of the plugin context.
pub fn invoking_cwd(active: Option<&str>, context: Option<&str>) -> (r: Option<String>)
    ensures
        opt_text(r) == cwd_from(opt_str(active), opt_context_cwd(opt_str(context))),
        opt_text(r) == inherited_cwd(opt_str(active), opt_str(context)),
{
    let named = match context {
        Some(c) => match parse_json(c) {
            Some(doc) => member_text(&doc, "focused_pane_cwd"),
            None => None,
        },
        None => None,
    };
    match &named {
        Some(n) => chosen_cwd(active, Some(n.as_str())),
        None => chosen_cwd(active, None),
    }
}

// --- the popup --------------------------------------------------------------

/// The length of the longest subtitle, in bytes.
pub open spec fn longest_sub(rows: Seq<RowText>) -> nat
    decreases rows.len(),
{
    if rows.len() == 0 {
        0
    } else {
        let rest = longest_sub(rows.drop_last());
        let last = byte_len(rows.last().sub);
        if rest < last {
            last
        } else {
            rest
        }
    }
}

/// Columns of a popup that its border takes.
pub const BORDER: usize = 2;

/// The columns that a popup takes to show the longest row: the name column, the
/// longest subtitle, the marks, number and blanks around them, and the border.
pub open spec fn widest(rows: Seq<RowText>) -> nat {
    name_width(rows) + 16 + longest_sub(rows)
}

pub open spec fn clamped(n: nat, low: nat, high: nat) -> nat {
    if n < low {
        low
    } else if n > high {
        high
    } else {
        n
    }
}

/// The lines of the popup for so many hosts.
pub open spec fn popup_height(hosts: nat) -> nat {
    if hosts == 0 {
        12
    } else {
        hosts + 11
    }
}

/// What the popup is asked for.
#[derive(Debug, PartialEq, Eq)]
pub struct PopupRequest {
    pub width: usize,
    pub height: usize,
    pub cwd: Option<String>,
}

/// The popup fits its content and its border, within limits: a line for each
/// host besides those around them, and as many columns as the longest row of the
/// menu takes.
pub fn popup_request(
    hosts: &[HostEntry],
    default_host: Option<&str>,
    cwd: Option<&str>,
    home: Option<&str>,
) -> (r: PopupRequest)
    requires
        hosts@.len() + 11 <= usize::MAX,
    ensures
        r.width == clamped(
            widest(
                all_rows(
                    host_texts(hosts@),
                    opt_str(default_host),
                    opt_str(cwd),
                    opt_str(home),
                ),
            ),
            58,
            90,
        ),
        r.height == (if hosts@.len() == 0 {
            12
        } else {
            hosts@.len() + 11
        }),
        r.height == popup_height(hosts@.len()),
        opt_text(r.cwd) == opt_str(cwd),
{
    let rows = menu_rows(hosts, default_host, cwd, home);
    let name: usize = name_column(rows.as_slice());
    let sub: usize = sub_column(rows.as_slice());
    let wide: usize = name.saturating_add(sub).saturating_add(16);
    let count: usize = hosts.len();
    PopupRequest {
        width: if wide < 58 {
            58
        } else if wide > 90 {
            90
        } else {
            wide
        },
        height: if count == 0 {
            12
        } else {
            count + 11
        },
        cwd: owned(cwd),
    }
}

/// The length of the longest subtitle, in bytes.
fn sub_column(rows: &[Row]) -> (r: usize)
    ensures
        r == longest_sub(row_texts(rows@)),
{
    let mut w: usize = 0;
    let mut i: usize = 0;
    let ghost all = row_texts(rows@);
    while i < rows.len()
        invariant
            i <= rows@.len(),
            all == row_texts(rows@),
            w == longest_sub(all.take(i as int)),
        decreases rows@.len() - i,
    {
        let n: usize = rows[i].sub.as_str().as_bytes().len();
        proof {
            assert(all.take(i + 1).drop_last() =~= all.take(i as int));
            assert(all.take(i + 1).last() == rows@[i as int]@);
        }
        if w < n {
            w = n;
        }
        i += 1;
    }
    assert(all.take(i as int) =~= all);
    w
}

/// What follows a request for the popup.
#[derive(Debug, Clone, Copy, PartialEq, Eq, Structural)]
pub enum PopupStep {
    Done,
    CloseOpenPopup,
    Fail,
}

/// What follows a request for the popup that met this error.
pub open spec fn step_for(error: Option<Seq<char>>) -> PopupStep {
    match error {
        None => PopupStep::Done,
        Some(e) => if occurs_in(e, "popup already open"@) {
            PopupStep::CloseOpenPopup
        } else {
            PopupStep::Fail
        },
    }
}

/// What follows a request for the popup, by the error it met. There is one
/// popup at a time; where one is open, to ask again is to close it.
pub fn popup_opened(error: Option<&str>) -> (r: PopupStep)
    ensures
        r == (match opt_str(error) {
            None => PopupStep::Done,
            Some(e) => if occurs_in(e, "popup already open"@) {
                PopupStep::CloseOpenPopup
            } else {
                PopupStep::Fail
            },
        }),
        r == step_for(opt_str(error)),
{
    match error {
        None => PopupStep::Done,
        Some(e) => {
            let es = chars_of(e);
            let open = chars_of("popup already open");
            if contains(es.as_slice(), open.as_slice()) {
                PopupStep::CloseOpenPopup
            } else {
                PopupStep::Fail
            }
        },
    }
}

/// The popup is never narrower or wider than its limits.
pub proof fn law_popup_keeps_its_limits(rows: Seq<RowText>)
    ensures
        58 <= clamped(widest(rows), 58, 90) <= 90,
{
}

proof fn lemma_sub_fits(rows: Seq<RowText>, i: int)
    requires
        0 <= i < rows.len(),
    ensures
        rows[i].sub.len() <= longest_sub(rows),
    decreases rows.len(),
{
    if i == rows.len() - 1 {
        lemma_bytes_cover_chars(rows[i].sub);
    } else {
        lemma_sub_fits(rows.drop_last(), i);
        assert(rows.drop_last()[i] == rows[i]);
    }
}

/// The popup is wide enough for its rows: unless the longest takes more than the
/// widest popup has, no target and no directory is cut within the border.
pub proof fn law_popup_shows_its_rows_whole(rows: Seq<RowText>, i: int)
    requires
        0 <= i < rows.len(),
        widest(rows) <= 90,
    ensures
        cut_sub(rows[i].sub, name_width(rows), (clamped(widest(rows), 58, 90) - BORDER) as nat)
            == rows[i].sub,
{
    lemma_sub_fits(rows, i);
}

/// A workspace never starts in the placeholder of mirrored panes.
pub proof fn law_decoy_is_never_inherited(active: Option<Seq<char>>, context: Option<Seq<char>>)
    ensures
        cwd_from(active, context) matches Some(c) ==> !"/.mirror-pane"@.is_suffix_of(c),
{
}

// --- the remote action ------------------------------------------------------

/// The variables that point a remote action at a mirrored pane.
pub open spec fn context_vars(ws: Seq<char>, pane: Seq<char>) -> Seq<
    (Seq<char>, Option<Seq<char>>),
> {
    seq![
        ("HERDR_PLUGIN_CONTEXT_JSON"@, None),
        ("HERDR_ACTIVE_WORKSPACE_ID"@, Some(ws)),
        ("HERDR_ACTIVE_PANE_ID"@, Some(pane)),
        ("HERDR_ACTIVE_PANE_CWD"@, None),
    ]
}

/// The texts of variables and their values.
pub open spec fn var_texts(vars: Seq<(String, Option<String>)>) -> Seq<
    (Seq<char>, Option<Seq<char>>),
> {
    vars.map_values(|v: (String, Option<String>)| (v.0@, opt_text(v.1)))
}

/// The variables that point a remote action at a mirrored pane, as if it had
/// been invoked there; those without a value are unset.
pub fn remote_context(ws_id: &str, pane_id: &str) -> (r: Vec<(String, Option<String>)>)
    ensures
        r@.len() == 4,
        r@[0].0@ == "HERDR_PLUGIN_CONTEXT_JSON"@,
        opt_text(r@[0].1) == None::<Seq<char>>,
        r@[1].0@ == "HERDR_ACTIVE_WORKSPACE_ID"@,
        opt_text(r@[1].1) == Some(ws_id@),
        r@[2].0@ == "HERDR_ACTIVE_PANE_ID"@,
        opt_text(r@[2].1) == Some(pane_id@),
        r@[3].0@ == "HERDR_ACTIVE_PANE_CWD"@,
        opt_text(r@[3].1) == None::<Seq<char>>,
        var_texts(r@) == context_vars(ws_id@, pane_id@),
{
    let mut r: Vec<(String, Option<String>)> = Vec::new();
    r.push(("HERDR_PLUGIN_CONTEXT_JSON".to_owned(), None));
    r.push(("HERDR_ACTIVE_WORKSPACE_ID".to_owned(), Some(ws_id.to_owned())));
    r.push(("HERDR_ACTIVE_PANE_ID".to_owned(), Some(pane_id.to_owned())));
    r.push(("HERDR_ACTIVE_PANE_CWD".to_owned(), None));
    assert(var_texts(r@) =~= context_vars(ws_id@, pane_id@));
    r
}

// --- laws -------------------------------------------------------------------

/// The directory of the active pane is taken over wherever it is set, not empty and
/// no placeholder, whatever the context says and whether there is one.
pub proof fn law_active_directory_comes_first(cwd: Seq<char>, context: Option<Seq<char>>)
    requires
        cwd.len() > 0,
    ensures
        !"/.mirror-pane"@.is_suffix_of(cwd) ==> cwd_from(Some(cwd), context) == Some(cwd),
        "/.mirror-pane"@.is_suffix_of(cwd) ==> cwd_from(Some(cwd), context) is None,
{
}

/// Where the active pane has no directory, or an empty one, the directory that the
/// context names is taken over, unless it is a placeholder; without one there is
/// none.
pub proof fn law_context_directory_comes_second(
    active: Option<Seq<char>>,
    context: Option<Seq<char>>,
)
    requires
        active matches Some(a) ==> a.len() == 0,
    ensures
        context matches Some(c) && !"/.mirror-pane"@.is_suffix_of(c) ==> cwd_from(active, context)
            == context,
        context matches Some(c) && "/.mirror-pane"@.is_suffix_of(c) ==> cwd_from(active, context)
            is None,
        context is None ==> cwd_from(active, context) is None,
{
}

/// The context names the directory in its member `focused_pane_cwd`, where that is
/// text; what is no JSON names none.
pub proof fn law_context_names_the_focused_directory(
    members: Map<Seq<char>, JsonTree>,
    t: Seq<char>,
    text: Seq<char>,
)
    ensures
        context_cwd(Some(JsonTree::Object(members))) == Some(t) <==> members.contains_key(
            "focused_pane_cwd"@,
        ) && members["focused_pane_cwd"@] == JsonTree::Text(t),
        context_cwd(None) is None,
        opt_context_cwd(None) is None,
        opt_context_cwd(Some(text)) == context_cwd(json_document(text)),
{
    crate::json::law_members_are_read_for_what_they_are(members, "focused_pane_cwd"@);
}

/// The longest subtitle is as long as one of them, in bytes, and as any other.
pub proof fn law_longest_subtitle_is_one_of_them(rows: Seq<RowText>, i: int)
    ensures
        0 <= i < rows.len() ==> byte_len(rows[i].sub) <= longest_sub(rows),
        rows.len() == 0 ==> longest_sub(rows) == 0,
        rows.len() > 0 ==> exists|k: int|
            0 <= k < rows.len() && byte_len((#[trigger] rows[k]).sub) == longest_sub(rows),
    decreases rows.len(),
{
    if rows.len() > 0 {
        let rest = rows.drop_last();
        law_longest_subtitle_is_one_of_them(rest, i);
        if 0 <= i < rest.len() {
            assert(rest[i] == rows[i]);
        }
        if byte_len(rows.last().sub) == longest_sub(rows) {
            assert(byte_len(rows[rows.len() - 1].sub) == longest_sub(rows));
        } else {
            assert(rest.len() > 0);
            let k = choose|k: int|
                0 <= k < rest.len() && byte_len((#[trigger] rest[k]).sub) == longest_sub(rest);
            assert(rows[k] == rest[k]);
        }
    }
}

/// The popup has room for the name of any row beside the subtitle of any row, with
/// sixteen columns more, up to ninety; and beyond fifty-eight it has no more than
/// some name and some subtitle take.
pub proof fn law_popup_is_as_wide_as_its_rows(rows: Seq<RowText>, i: int, j: int)
    requires
        0 <= i < rows.len(),
        0 <= j < rows.len(),
    ensures
        ({
            let width = clamped(widest(rows), 58, 90);
            &&& width == 90 || byte_len(rows[i].main) + 16 + byte_len(rows[j].sub) <= width
            &&& width == 58 || exists|k: int, m: int|
                0 <= k < rows.len() && 0 <= m < rows.len() && width <= byte_len(
                    (#[trigger] rows[k]).main,
                ) + 16 + byte_len((#[trigger] rows[m]).sub)
        }),
{
    law_name_column_is_the_longest_name(rows, i);
    law_longest_subtitle_is_one_of_them(rows, j);
    let k = choose|k: int|
        0 <= k < rows.len() && byte_len((#[trigger] rows[k]).main) == name_width(rows);
    let m = choose|m: int|
        0 <= m < rows.len() && byte_len((#[trigger] rows[m]).sub) == longest_sub(rows);
    assert(widest(rows) == byte_len(rows[k].main) + 16 + byte_len(rows[m].sub));
}

/// A number is kept between two limits: as it is where it lies there, else as the
/// limit it lies beyond.
pub proof fn law_limits_are_kept(n: nat, low: nat, high: nat)
    requires
        low <= high,
    ensures
        low <= clamped(n, low, high) <= high,
        low <= n <= high ==> clamped(n, low, high) == n,
        n < low ==> clamped(n, low, high) == low,
        n > high ==> clamped(n, low, high) == high,
{
}

/// The popup has a line for each line of the frame and two for its border, also with
/// the note that stands there where no host is known; with hosts it has no more.
pub proof fn law_popup_is_as_high_as_its_frame(
    rows: Seq<RowText>,
    sel: nat,
    note: Option<Seq<char>>,
    cols: nat,
)
    requires
        rows.len() > 0,
        rows.len() > 1 ==> note is None,
        forall|j: int| 0 <= j < rows.len() ==> one_line((#[trigger] rows[j]).main),
        forall|j: int| 0 <= j < rows.len() ==> one_line((#[trigger] rows[j]).sub),
        note matches Some(n) ==> one_line(n),
    ensures
        line_feeds(frame(rows, sel, note, cols)) + 2 <= popup_height((rows.len() - 1) as nat),
        rows.len() > 1 ==> line_feeds(frame(rows, sel, note, cols)) + 2 == popup_height(
            (rows.len() - 1) as nat,
        ),
        rows.len() == 1 && note is Some ==> line_feeds(frame(rows, sel, note, cols)) + 2
            == popup_height(0),
{
    law_frame_has_its_lines(rows, sel, note, cols);
}

/// A request that met no error is done. One that was refused because a popup is open
/// closes that one; any other refusal is a failure.
pub proof fn law_asking_again_closes_the_popup(e: Seq<char>, before: Seq<char>, after: Seq<char>)
    ensures
        step_for(None) is Done,
        step_for(Some((before + "popup already open"@) + after)) is CloseOpenPopup,
        !occurs_in(e, "popup already open"@) ==> step_for(Some(e)) is Fail,
{
    let hay = (before + "popup already open"@) + after;
    law_occurrence_is_a_piece(hay, "popup already open"@);
    assert(hay == ((before + "popup already open"@) + after));
}

/// A remote action sees the given workspace and pane as the active ones, and neither
/// the context nor the directory of another pane.
pub proof fn law_remote_action_sees_the_mirror(
    ws: Seq<char>,
    pane: Seq<char>,
    name: Seq<char>,
    value: Option<Seq<char>>,
)
    ensures
        context_vars(ws, pane).contains((name, value)) <==> (name == "HERDR_PLUGIN_CONTEXT_JSON"@
            && value is None) || (name == "HERDR_ACTIVE_WORKSPACE_ID"@ && value == Some(ws)) || (
        name == "HERDR_ACTIVE_PANE_ID"@ && value == Some(pane)) || (name
            == "HERDR_ACTIVE_PANE_CWD"@ && value is None),
        context_vars(ws, pane).len() == 4,
{
    let vars = context_vars(ws, pane);
    assert(vars[0] == ("HERDR_PLUGIN_CONTEXT_JSON"@, None::<Seq<char>>));
    assert(vars[1] == ("HERDR_ACTIVE_WORKSPACE_ID"@, Some(ws)));
    assert(vars[2] == ("HERDR_ACTIVE_PANE_ID"@, Some(pane)));
    assert(vars[3] == ("HERDR_ACTIVE_PANE_CWD"@, None::<Seq<char>>));
}

/// The text of the context matters only where the active pane has no directory: with
/// one, the result is that or, in a placeholder, none, whatever the context is; with
/// none, it is what the context names.
pub proof fn law_context_is_read_only_without_an_active_directory(
    cwd: Seq<char>,
    context: Option<Seq<char>>,
    text: Seq<char>,
)
    ensures
        cwd.len() > 0 && !"/.mirror-pane"@.is_suffix_of(cwd) ==> inherited_cwd(Some(cwd), context)
            == Some(cwd),
        cwd.len() > 0 && "/.mirror-pane"@.is_suffix_of(cwd) ==> inherited_cwd(Some(cwd), context)
            is None,
        cwd.len() == 0 ==> inherited_cwd(Some(cwd), context) == inherited_cwd(None, context),
        inherited_cwd(None, None) is None,
        json_document(text) is None ==> inherited_cwd(None, Some(text)) is None,
        json_document(text) matches Some(doc) ==> text_member(doc, "focused_pane_cwd"@) matches Some(
            c,
        ) ==> inherited_cwd(None, Some(text)) == (if "/.mirror-pane"@.is_suffix_of(c) {
            None
        } else {
            Some(c)
        }),
        json_document(text) matches Some(doc) && text_member(doc, "focused_pane_cwd"@) is None
            ==> inherited_cwd(None, Some(text)) is None,
{
}

/// Variables are seen as they are, one for one.
pub proof fn law_variables_are_seen_as_they_are(vars: Seq<(String, Option<String>)>, i: int)
    requires
        0 <= i < vars.len(),
    ensures
        var_texts(vars).len() == vars.len(),
        var_texts(vars)[i].0 == vars[i].0@,
        var_texts(vars)[i].1 == opt_text(vars[i].1),
{
}

} // verus!
