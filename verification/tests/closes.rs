use herdr_mirror::closes::{new_closes, CloseTracker, SELF_CLOSE_TTL, USER_CLOSE_TTL};

fn ids(v: &[&str]) -> Vec<String> {
    v.iter().map(|s| s.to_string()).collect()
}

#[test]
fn user_close_is_reported_once_to_the_owning_host() {
    let mut t = CloseTracker::default();
    t.note_close_event("w1");
    assert_eq!(t.take_user_closed(&ids(&["w1", "w2"])), ids(&["w1"]));
    // drained: a second converge must not re-close the remote
    assert!(t.take_user_closed(&ids(&["w1"])).is_empty());
}

#[test]
fn our_own_close_is_not_user_intent() {
    let mut t = CloseTracker::default();
    t.mark_self_close("w1"); // teardown / heal / reap closing a mirror
    t.note_close_event("w1"); // the echo of that close
    assert!(t.take_user_closed(&ids(&["w1"])).is_empty());
}

#[test]
fn self_mark_is_consumed_so_a_later_user_close_still_counts() {
    let mut t = CloseTracker::default();
    t.mark_self_close("w1");
    t.note_close_event("w1"); // ours: swallowed, mark consumed
    // the id is later re-mapped (heal adopts it) and the user closes it
    t.note_close_event("w1");
    assert_eq!(t.take_user_closed(&ids(&["w1"])), ids(&["w1"]));
}

#[test]
fn a_reused_id_does_not_inherit_the_old_holders_close() {
    let mut t = CloseTracker::default();
    t.note_close_event("p7"); // a junk/native pane closed: its id is freed
    t.forget("p7"); // the daemon maps a fresh mirror pane that got the freed id
    assert!(t.take_user_closed(&ids(&["p7"])).is_empty());
    // a REAL close of the new pane still counts
    t.note_close_event("p7");
    assert_eq!(t.take_user_closed(&ids(&["p7"])), ids(&["p7"]));
}

#[test]
fn closes_for_other_hosts_ids_are_left_alone() {
    let mut t = CloseTracker::default();
    t.note_close_event("wA");
    assert!(t.take_user_closed(&ids(&["wB"])).is_empty());
    assert_eq!(t.take_user_closed(&ids(&["wA"])), ids(&["wA"]));
}

/// A bulk close whose ids are not marked leaves user intent behind, and ids are
/// recycled, so the mirrors rebuilt afterwards inherit that intent.
#[test]
fn an_unmarked_bulk_close_becomes_intent_for_a_recycled_id() {
    let mut t = CloseTracker::default();
    t.note_close_event("w8C"); // hide closed it without a mark
    // map cleared, so this pass attributes nothing
    assert!(t.take_user_closed(&ids(&[])).is_empty());
    // show rebuilds, herdr hands back the same id
    assert_eq!(t.take_user_closed(&ids(&["w8C"])), ids(&["w8C"]), "stale intent survived");
}

/// The same close, marked as ours first, is inert forever after.
#[test]
fn a_marked_bulk_close_never_becomes_intent() {
    let mut t = CloseTracker::default();
    t.mark_self_close("w8C");
    t.note_close_event("w8C");
    assert!(t.take_user_closed(&ids(&[])).is_empty());
    assert!(
        t.take_user_closed(&ids(&["w8C"])).is_empty(),
        "a marked close must not reach the remote through a recycled id"
    );
}

#[test]
fn a_mark_holds_just_under_its_time() {
    let mut t = CloseTracker::default();
    t.mark_self_close_at("w1", 1000);
    t.note_close_event_at("w1", 1000 + SELF_CLOSE_TTL - 1);
    assert!(t.take_user_closed_at(&ids(&["w1"]), 1000 + SELF_CLOSE_TTL).is_empty());

    let mut t = CloseTracker::default();
    t.mark_self_close_at("w1", 1000);
    t.note_close_event_at("w1", 1000 + SELF_CLOSE_TTL);
    assert_eq!(t.take_user_closed_at(&ids(&["w1"]), 1000 + SELF_CLOSE_TTL), ids(&["w1"]));
}

#[test]
fn a_user_close_waits_just_under_its_time() {
    let mut t = CloseTracker::default();
    t.note_close_event_at("w1", 5);
    assert_eq!(t.take_user_closed_at(&ids(&["w1"]), 5 + USER_CLOSE_TTL - 1), ids(&["w1"]));

    let mut t = CloseTracker::default();
    t.note_close_event_at("w1", 5);
    assert!(t.take_user_closed_at(&ids(&["w1"]), 5 + USER_CLOSE_TTL).is_empty());
    // dropped for good, also for a reading from before
    assert!(t.take_user_closed_at(&ids(&["w1"]), 5).is_empty());
}

#[test]
fn entries_expire_when_their_time_is_up() {
    let mut t = CloseTracker::default();
    t.mark_self_close_at("m", 0);
    t.note_close_event_at("c", 0);
    t.expire(SELF_CLOSE_TTL - 1);
    t.note_close_event_at("m", 0); // the mark still held
    assert_eq!(t.take_user_closed_at(&ids(&["m"]), 0), ids(&[]));
    t.mark_self_close_at("m", 0);
    t.expire(SELF_CLOSE_TTL);
    t.expire(SELF_CLOSE_TTL);
    t.note_close_event_at("m", 0); // the mark was gone
    assert_eq!(t.take_user_closed_at(&ids(&["m"]), 0), ids(&["m"]));
    t.expire(USER_CLOSE_TTL - 1);
    t.note_close_event_at("d", 1);
    t.expire(USER_CLOSE_TTL);
    assert_eq!(t.take_user_closed_at(&ids(&["c", "d"]), 0), ids(&["d"]));
}

#[test]
fn what_is_left_at_one_time_stays_at_that_time() {
    let mut t = CloseTracker::default();
    t.note_close_event_at("old", 0);
    t.note_close_event_at("new", 1);
    let now = USER_CLOSE_TTL;
    assert!(t.take_user_closed_at(&[], now).is_empty());
    assert!(t.take_user_closed_at(&[], now).is_empty());
    assert_eq!(t.take_user_closed_at(&ids(&["old", "new"]), now), ids(&["new"]));
}

#[test]
fn a_later_entry_has_no_age() {
    let mut t = CloseTracker::default();
    t.note_close_event_at("w1", USER_CLOSE_TTL * 3);
    assert_eq!(t.take_user_closed_at(&ids(&["w1"]), 0), ids(&["w1"]));
}

#[test]
fn several_closes_are_taken_together_and_once_each() {
    let mut t = CloseTracker::default();
    for id in ["a", "b", "c", "d", "b"] {
        t.note_close_event_at(id, 10);
    }
    let mut got = t.take_user_closed_at(&ids(&["d", "b", "x", "b", "a"]), 11);
    got.sort();
    assert_eq!(got, ids(&["a", "b", "d"]));
    assert_eq!(t.take_user_closed_at(&ids(&["a", "b", "c", "d"]), 12), ids(&["c"]));
}

#[test]
fn marks_of_different_ids_are_independent() {
    let mut t = CloseTracker::default();
    t.mark_self_close_at("a", 1);
    t.mark_self_close_at("b", 1);
    t.note_close_event_at("b", 2);
    t.note_close_event_at("c", 2);
    t.note_close_event_at("a", 2);
    assert_eq!(t.take_user_closed_at(&ids(&["a", "b", "c"]), 3), ids(&["c"]));
}

#[test]
fn marking_again_renews_the_mark() {
    let mut t = CloseTracker::default();
    t.mark_self_close_at("a", 0);
    t.mark_self_close_at("a", SELF_CLOSE_TTL - 1);
    t.note_close_event_at("a", SELF_CLOSE_TTL + 5);
    assert!(t.take_user_closed_at(&ids(&["a"]), SELF_CLOSE_TTL + 6).is_empty());
}

#[test]
fn the_clock_of_a_tracker_runs() {
    let mut t = CloseTracker::default();
    // a mark from far beyond any time the tracker has run for has no age, so
    // it still holds when the real clock is read
    t.mark_self_close_at("a", u128::MAX);
    t.note_close_event("a");
    assert!(t.take_user_closed(&ids(&["a"])).is_empty());
}

#[test]
fn a_shared_tracker_starts_empty_and_is_shared() {
    let closes = new_closes();
    let other = closes.clone();
    assert!(closes.lock().unwrap().take_user_closed(&ids(&["a"])).is_empty());
    other.lock().unwrap().note_close_event("a");
    assert_eq!(closes.lock().unwrap().take_user_closed(&ids(&["a"])), ids(&["a"]));
}

#[test]
fn nothing_is_reported_without_an_event() {
    let mut t = CloseTracker::default();
    t.mark_self_close_at("a", 1);
    t.forget("b");
    assert!(t.take_user_closed_at(&ids(&["a", "b", "c"]), 2).is_empty());
    // the event came before the mark: it was the user's
    t.note_close_event_at("d", 3);
    t.mark_self_close_at("d", 4);
    assert_eq!(t.take_user_closed_at(&ids(&["d"]), 5), ids(&["d"]));
}
