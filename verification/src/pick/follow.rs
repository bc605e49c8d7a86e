//! Following a create to what the daemon mirrors of it: a bounded number of
//! looks, half a second apart.

use crate::listing::{workspace_texts, WorkspaceInfo, WorkspaceText};
use crate::search::{first, lemma_first_fits, lemma_first_is, lemma_first_none};
use crate::text::{chars_of, listed, opt_pair, opt_text, or_empty, starts_with, text_or_empty, texts};
use vstd::prelude::*;

verus! {

/// Number of looks before the follower gives up.
pub const LOOKS: u32 = 16;

/// Pause before each look, in milliseconds.
pub const PAUSE_MS: u64 = 500;

/// What follows a look that found nothing.
#[derive(Debug, Clone, Copy, PartialEq, Eq, Structural)]
pub enum FollowStep {
    LookAgain,
    GiveUp,
}

/// Counts the looks.
pub struct Follower {
    left: u32,
}

impl Follower {
    pub closed spec fn left(self) -> nat {
        self.left as nat
    }

    /// A look is still to come.
    pub open spec fn wf(self) -> bool {
        0 < self.left() <= LOOKS
    }

    /// A follower before its first look.
    pub fn new() -> (r: Follower)
        ensures
            r.wf(),
            r.left() == LOOKS,
            r.left() == 16,
    {
        Follower { left: LOOKS }
    }

    /// A look found nothing.
    pub fn missed(&mut self) -> (r: FollowStep)
        requires
            old(self).wf(),
        ensures
            final(self).left() == old(self).left() - 1,
            r == (if final(self).left() == 0 {
                FollowStep::GiveUp
            } else {
                FollowStep::LookAgain
            }),
    {
        self.left = self.left - 1;
        if self.left == 0 {
            FollowStep::GiveUp
        } else {
            FollowStep::LookAgain
        }
    }
}

// --- workspaces -------------------------------------------------------------

/// A workspace that was not there before and that mirrors this host, by its
/// label.
pub open spec fn is_fresh(known: Seq<Seq<char>>, host: Seq<char>) -> spec_fn(WorkspaceText) -> bool {
    |w: WorkspaceText|
        !known.contains(text_or_empty(w.workspace_id)) && (host + ": "@).is_prefix_of(
            text_or_empty(w.label),
        )
}

/// The first workspace that was not there before and that mirrors this host:
/// its id and its label.
pub open spec fn fresh_mirror_in(
    list: Seq<WorkspaceText>,
    known: Seq<Seq<char>>,
    host: Seq<char>,
) -> Option<(Seq<char>, Seq<char>)> {
    match first(list, is_fresh(known, host)) {
        Some(at) => Some((text_or_empty(list[at].workspace_id), text_or_empty(list[at].label))),
        None => None,
    }
}

/// The mirror that the daemon built for a create on `host`: the first workspace
/// of the list that was not known before and is labelled for the host. Gives
/// its id, to focus it, and its label, to speak of it.
pub fn fresh_mirror(list: &[WorkspaceInfo], known: &[String], host: &str) -> (r: Option<
    (String, String),
>)
    ensures
        opt_pair(r) == fresh_mirror_in(workspace_texts(list@), texts(known@), host@),
{
    let mut prefix = host.to_owned();
    prefix.append(": ");
    let ps = chars_of(prefix.as_str());
    let ghost all = workspace_texts(list@);
    let ghost fits = is_fresh(texts(known@), host@);
    let mut i: usize = 0;
    while i < list.len()
        invariant
            i <= list@.len(),
            all == workspace_texts(list@),
            fits == is_fresh(texts(known@), host@),
            ps@ == host@ + ": "@,
            forall|j: int| 0 <= j < i ==> !fits(#[trigger] all[j]),
        decreases list@.len() - i,
    {
        let id = or_empty(&list[i].workspace_id);
        let label = or_empty(&list[i].label);
        let ls = chars_of(label.as_str());
        assert(all[i as int] == list@[i as int]@);
        if !listed(known, id.as_str()) && starts_with(ls.as_slice(), ps.as_slice()) {
            proof {
                lemma_first_is(all, fits, i as int);
            }
            return Some((id, label));
        }
        i += 1;
    }
    proof {
        lemma_first_none(all, fits);
    }
    None
}

// --- tabs -------------------------------------------------------------------

/// A tab that was not there before.
pub open spec fn is_new(before: Seq<Seq<char>>) -> spec_fn(Seq<char>) -> bool {
    |id: Seq<char>| !before.contains(id)
}

/// The first tab that was not there before.
pub open spec fn fresh_tab_in(now: Seq<Seq<char>>, before: Seq<Seq<char>>) -> Option<Seq<char>> {
    match first(now, is_new(before)) {
        Some(at) => Some(now[at]),
        None => None,
    }
}

/// The first tab that was not there before.
pub fn fresh_tab(now: &[String], before: &[String]) -> (r: Option<String>)
    ensures
        opt_text(r) == fresh_tab_in(texts(now@), texts(before@)),
{
    let ghost all = texts(now@);
    let ghost fits = is_new(texts(before@));
    let mut i: usize = 0;
    while i < now.len()
        invariant
            i <= now@.len(),
            all == texts(now@),
            fits == is_new(texts(before@)),
            forall|j: int| 0 <= j < i ==> !fits(#[trigger] all[j]),
        decreases now@.len() - i,
    {
        assert(all[i as int] == now@[i as int]@);
        if !listed(before, now[i].as_str()) {
            proof {
                lemma_first_is(all, fits, i as int);
            }
            return Some(now[i].as_str().to_owned());
        }
        i += 1;
    }
    proof {
        lemma_first_none(all, fits);
    }
    None
}

/// What is followed is new: a workspace or tab that was there before the create
/// is never taken for it, and one that came since is not overlooked.
pub proof fn law_only_arrivals_are_followed(
    list: Seq<WorkspaceText>,
    known: Seq<Seq<char>>,
    host: Seq<char>,
    now: Seq<Seq<char>>,
    before: Seq<Seq<char>>,
)
    ensures
        fresh_mirror_in(list, known, host) matches Some(m) ==> !known.contains(m.0) && (host
            + ": "@).is_prefix_of(m.1),
        fresh_tab_in(now, before) matches Some(t) ==> now.contains(t) && !before.contains(t),
        fresh_tab_in(now, before) is None ==> forall|i: int|
            0 <= i < now.len() ==> before.contains(#[trigger] now[i]),
{
    lemma_first_fits(list, is_fresh(known, host));
    lemma_first_fits(now, is_new(before));
    if let Some(at) = first(list, is_fresh(known, host)) {
        assert(is_fresh(known, host)(list[at]));
    }
    if fresh_tab_in(now, before) is None {
        assert forall|i: int| 0 <= i < now.len() implies before.contains(#[trigger] now[i]) by {
            assert(!is_new(before)(now[i]));
        }
    }
}

/// The mirror of a create is the first workspace of the list, and only of the list,
/// whose id was not known before and whose label starts with the host's name, a
/// colon and a blank; there is none only where no workspace is such.
pub proof fn law_first_new_mirror_of_the_host_is_followed(
    list: Seq<WorkspaceText>,
    known: Seq<Seq<char>>,
    host: Seq<char>,
    k: int,
)
    requires
        0 <= k < list.len(),
        !known.contains(text_or_empty(list[k].workspace_id)),
        (host + ": "@).is_prefix_of(text_or_empty(list[k].label)),
        forall|j: int|
            0 <= j < k ==> known.contains(text_or_empty((#[trigger] list[j]).workspace_id)) || !(
            host + ": "@).is_prefix_of(text_or_empty(list[j].label)),
    ensures
        fresh_mirror_in(list, known, host) == Some(
            (text_or_empty(list[k].workspace_id), text_or_empty(list[k].label)),
        ),
{
    let fits = is_fresh(known, host);
    assert forall|j: int| 0 <= j < k implies !fits(#[trigger] list[j]) by {}
    lemma_first_is(list, fits, k);
}

/// Where every listed workspace was known before or is labelled otherwise, there is
/// no mirror to follow.
pub proof fn law_without_a_new_mirror_none_is_followed(
    list: Seq<WorkspaceText>,
    known: Seq<Seq<char>>,
    host: Seq<char>,
)
    requires
        forall|j: int|
            0 <= j < list.len() ==> known.contains(text_or_empty((#[trigger] list[j]).workspace_id))
                || !(host + ": "@).is_prefix_of(text_or_empty(list[j].label)),
    ensures
        fresh_mirror_in(list, known, host) is None,
{
    let fits = is_fresh(known, host);
    assert forall|j: int| 0 <= j < list.len() implies !fits(#[trigger] list[j]) by {}
    lemma_first_none(list, fits);
}

/// The tab to follow is the first one of now that was not there before.
pub proof fn law_first_new_tab_is_followed(
    now: Seq<Seq<char>>,
    before: Seq<Seq<char>>,
    k: int,
)
    requires
        0 <= k < now.len(),
        !before.contains(now[k]),
        forall|j: int| 0 <= j < k ==> before.contains(#[trigger] now[j]),
    ensures
        fresh_tab_in(now, before) == Some(now[k]),
{
    let fits = is_new(before);
    assert forall|j: int| 0 <= j < k implies !fits(#[trigger] now[j]) by {}
    lemma_first_is(now, fits, k);
}

/// All looks of a follower, with the pause before each, take eight seconds.
pub proof fn law_following_takes_eight_seconds()
    ensures
        LOOKS * PAUSE_MS == 8000,
        LOOKS == 16,
{
}

} // verus!
