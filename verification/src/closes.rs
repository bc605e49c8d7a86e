//! Who closed a local object: the user, or the mirror itself.
//!
//! That an object is missing says nothing about why, and guessing wrong closes
//! a live remote session. So a remote close is driven by the local close event
//! alone, and the events of closes that the mirror performs itself are marked
//! beforehand and swallowed.

use crate::text::{listed, same, texts};
use std::sync::{Arc, Mutex};
use std::time::Instant;
use vstd::prelude::*;

verus! {

/// How long a mark of an own close holds, in nanoseconds: a close event that
/// never comes must not claim the id forever.
pub const SELF_CLOSE_TTL: u128 = 30_000_000_000;

/// How long a close by the user waits to be taken, in nanoseconds: what nobody
/// claims belongs to no mirror.
pub const USER_CLOSE_TTL: u128 = 60_000_000_000;

/// Ids and the time each was put down.
pub type Times = Map<Seq<char>, u128>;

/// What a tracker knows.
#[verifier::ext_equal]
pub struct CloseState {
    /// ids that the mirror is closing itself
    pub self_closed: Times,
    /// ids that the user closed
    pub user_closed: Times,
}

/// The entries that are younger than `ttl` at time `now`. An entry from later
/// than `now` has no age.
pub open spec fn live(entries: Times, now: u128, ttl: u128) -> Times {
    Map::new(
        |id: Seq<char>| entries.contains_key(id) && now - entries[id] < ttl,
        |id: Seq<char>| entries[id],
    )
}

impl CloseState {
    /// Nothing marked, nothing closed.
    pub open spec fn empty() -> CloseState {
        CloseState { self_closed: Map::empty(), user_closed: Map::empty() }
    }

    /// What is left at time `now`.
    pub open spec fn swept(self, now: u128) -> CloseState {
        CloseState {
            self_closed: live(self.self_closed, now, SELF_CLOSE_TTL),
            user_closed: live(self.user_closed, now, USER_CLOSE_TTL),
        }
    }

    /// After the mirror announced to close `id`.
    pub open spec fn marked(self, id: Seq<char>, now: u128) -> CloseState {
        let s = self.swept(now);
        CloseState { self_closed: s.self_closed.insert(id, now), user_closed: s.user_closed }
    }

    /// After the event that `id` was closed: the echo of an own close uses up
    /// its mark, any other is the user's.
    pub open spec fn noted(self, id: Seq<char>, now: u128) -> CloseState {
        let s = self.swept(now);
        if s.self_closed.contains_key(id) {
            CloseState { self_closed: s.self_closed.remove(id), user_closed: s.user_closed }
        } else {
            CloseState { self_closed: s.self_closed, user_closed: s.user_closed.insert(id, now) }
        }
    }

    /// After `id` went to a new object.
    pub open spec fn forgotten(self, id: Seq<char>) -> CloseState {
        CloseState { self_closed: self.self_closed, user_closed: self.user_closed.remove(id) }
    }

    /// The ids among `mine` that the user closed.
    pub open spec fn closed_among(self, mine: Set<Seq<char>>, now: u128) -> Set<Seq<char>> {
        self.swept(now).user_closed.dom().intersect(mine)
    }

    /// After the ids among `mine` were taken.
    pub open spec fn taken(self, mine: Set<Seq<char>>, now: u128) -> CloseState {
        let s = self.swept(now);
        CloseState { self_closed: s.self_closed, user_closed: s.user_closed.remove_keys(mine) }
    }
}

// --- entries ----------------------------------------------------------------

struct Entry {
    id: String,
    at: u128,
}

spec fn place(list: Seq<Entry>, id: Seq<char>) -> int {
    choose|i: int| 0 <= i < list.len() && list[i].id@ == id
}

spec fn times(list: Seq<Entry>) -> Times {
    Map::new(
        |id: Seq<char>| exists|i: int| 0 <= i < list.len() && (#[trigger] list[i]).id@ == id,
        |id: Seq<char>| list[place(list, id)].at,
    )
}

spec fn distinct(list: Seq<Entry>) -> bool {
    forall|i: int, j: int|
        0 <= i < j < list.len() ==> (#[trigger] list[i]).id@ != (#[trigger] list[j]).id@
}

/// Entries of which no two have the same id.
struct Entries {
    list: Vec<Entry>,
}

impl View for Entries {
    type V = Times;

    closed spec fn view(&self) -> Times {
        times(self.list@)
    }
}

proof fn lemma_times(list: Seq<Entry>, i: int)
    requires
        distinct(list),
        0 <= i < list.len(),
    ensures
        times(list).contains_key(list[i].id@),
        times(list)[list[i].id@] == list[i].at,
{
    let k = place(list, list[i].id@);
    assert(0 <= k < list.len() && list[k].id@ == list[i].id@);
    if k < i {
        assert(list[k].id@ != list[i].id@);
    }
    if i < k {
        assert(list[i].id@ != list[k].id@);
    }
}

proof fn lemma_times_remove(list: Seq<Entry>, i: int)
    requires
        distinct(list),
        0 <= i < list.len(),
    ensures
        distinct(list.remove(i)),
        times(list.remove(i)) == times(list).remove(list[i].id@),
{
    let rest = list.remove(i);
    assert(distinct(rest));
    assert forall|id: Seq<char>|
        times(rest).contains_key(id) <==> times(list).remove(list[i].id@).contains_key(id) by {
        if times(rest).contains_key(id) {
            let k = choose|k: int| 0 <= k < rest.len() && (#[trigger] rest[k]).id@ == id;
            let m = if k < i {
                k
            } else {
                k + 1
            };
            assert(list[m].id@ == id);
            if m < i {
                assert(list[m].id@ != list[i].id@);
            } else {
                assert(list[i].id@ != list[m].id@);
            }
        }
        if times(list).remove(list[i].id@).contains_key(id) {
            let m = choose|m: int| 0 <= m < list.len() && (#[trigger] list[m]).id@ == id;
            let k = if m < i {
                m
            } else {
                m - 1
            };
            assert(rest[k].id@ == id);
        }
    }
    assert forall|id: Seq<char>| #[trigger] times(rest).contains_key(id) implies times(rest)[id]
        == times(list)[id] by {
        let k = choose|k: int| 0 <= k < rest.len() && (#[trigger] rest[k]).id@ == id;
        let m = if k < i {
            k
        } else {
            k + 1
        };
        lemma_times(rest, k);
        lemma_times(list, m);
    }
    assert(times(rest) =~= times(list).remove(list[i].id@));
}

proof fn lemma_times_push(list: Seq<Entry>, e: Entry)
    requires
        distinct(list),
        !times(list).contains_key(e.id@),
    ensures
        distinct(list.push(e)),
        times(list.push(e)) == times(list).insert(e.id@, e.at),
{
    let more = list.push(e);
    assert forall|i: int, j: int| 0 <= i < j < more.len() implies (#[trigger] more[i]).id@ != (
    #[trigger] more[j]).id@ by {
        assert(more[i] == list[i]);
        if j < list.len() {
            assert(more[j] == list[j]);
        }
    }
    assert forall|id: Seq<char>|
        times(more).contains_key(id) <==> times(list).insert(e.id@, e.at).contains_key(id) by {
        if times(list).contains_key(id) {
            let k = choose|k: int| 0 <= k < list.len() && (#[trigger] list[k]).id@ == id;
            assert(more[k].id@ == id);
        }
        assert(more[list.len() as int].id@ == e.id@);
        if times(more).contains_key(id) && id != e.id@ {
            let k = choose|k: int| 0 <= k < more.len() && (#[trigger] more[k]).id@ == id;
            assert(list[k].id@ == id);
        }
    }
    assert forall|id: Seq<char>| #[trigger] times(more).contains_key(id) implies times(more)[id]
        == times(list).insert(e.id@, e.at)[id] by {
        let k = choose|k: int| 0 <= k < more.len() && (#[trigger] more[k]).id@ == id;
        lemma_times(more, k);
        if k < list.len() {
            assert(more[k] == list[k]);
            lemma_times(list, k);
        }
    }
    assert(times(more) =~= times(list).insert(e.id@, e.at));
}

impl Entries {
    #[verifier::type_invariant]
    spec fn wf(self) -> bool {
        distinct(self.list@)
    }

    fn new() -> (r: Entries)
        ensures
            r@ == Map::<Seq<char>, u128>::empty(),
    {
        let r = Entries { list: Vec::new() };
        assert(r@ =~= Map::<Seq<char>, u128>::empty());
        r
    }

    /// Takes `id` out, and says whether it was there.
    fn take_out(&mut self, id: &str) -> (r: bool)
        ensures
            r == old(self)@.contains_key(id@),
            final(self)@ == old(self)@.remove(id@),
    {
        proof {
            use_type_invariant(&*self);
        }
        let mut list: Vec<Entry> = Vec::new();
        std::mem::swap(&mut list, &mut self.list);
        let mut i: usize = 0;
        while i < list.len()
            invariant
                i <= list@.len(),
                distinct(list@),
                list@ == old(self).list@,
                forall|j: int| 0 <= j < i ==> (#[trigger] list@[j]).id@ != id@,
            decreases list@.len() - i,
        {
            if same(list[i].id.as_str(), id) {
                proof {
                    lemma_times(list@, i as int);
                    lemma_times_remove(list@, i as int);
                }
                list.remove(i);
                self.list = list;
                return true;
            }
            i += 1;
        }
        self.list = list;
        assert(self@.remove(id@) =~= self@);
        false
    }

    /// Puts `id` down with time `at`.
    fn put(&mut self, id: &str, at: u128)
        ensures
            final(self)@ == old(self)@.insert(id@, at),
    {
        self.take_out(id);
        proof {
            use_type_invariant(&*self);
        }
        let mut list: Vec<Entry> = Vec::new();
        std::mem::swap(&mut list, &mut self.list);
        let e = Entry { id: id.to_owned(), at };
        proof {
            lemma_times_push(list@, e);
        }
        list.push(e);
        self.list = list;
        assert(self@ =~= old(self)@.insert(id@, at));
    }

    /// Drops what is `ttl` old or older.
    fn sweep(&mut self, now: u128, ttl: u128)
        ensures
            final(self)@ == live(old(self)@, now, ttl),
    {
        proof {
            use_type_invariant(&*self);
        }
        let mut list: Vec<Entry> = Vec::new();
        std::mem::swap(&mut list, &mut self.list);
        let ghost all = times(list@);
        let mut i: usize = 0;
        while i < list.len()
            invariant
                i <= list@.len(),
                distinct(list@),
                forall|j: int| 0 <= j < i ==> now - (#[trigger] list@[j]).at < ttl,
                live(times(list@), now, ttl) == live(all, now, ttl),
            decreases list@.len() - i,
        {
            if list[i].at <= now && now - list[i].at >= ttl {
                let ghost before = list@;
                proof {
                    lemma_times(before, i as int);
                    lemma_times_remove(before, i as int);
                }
                list.remove(i);
                assert(live(times(list@), now, ttl) =~= live(times(before), now, ttl));
            } else {
                i += 1;
            }
        }
        proof {
            assert forall|id: Seq<char>| #[trigger] times(list@).contains_key(id) implies now
                - times(list@)[id] < ttl by {
                let k = choose|k: int| 0 <= k < list@.len() && (#[trigger] list@[k]).id@ == id;
                lemma_times(list@, k);
            }
            assert(live(times(list@), now, ttl) =~= times(list@));
        }
        self.list = list;
    }

    /// Takes out the ids that `mine` lists, and gives them.
    fn take_listed(&mut self, mine: &[String]) -> (r: Vec<String>)
        ensures
            texts(r@).no_duplicates(),
            texts(r@).to_set() == old(self)@.dom().intersect(texts(mine@).to_set()),
            final(self)@ == old(self)@.remove_keys(texts(mine@).to_set()),
    {
        proof {
            use_type_invariant(&*self);
        }
        let mut list: Vec<Entry> = Vec::new();
        std::mem::swap(&mut list, &mut self.list);
        let ghost all = times(list@);
        let ghost want = texts(mine@).to_set();
        let mut hit: Vec<String> = Vec::new();
        let mut i: usize = 0;
        assert(texts(hit@) =~= Seq::empty());
        assert(all.remove_keys(texts(hit@).to_set()) =~= all);
        while i < list.len()
            invariant
                i <= list@.len(),
                distinct(list@),
                want == texts(mine@).to_set(),
                times(list@) == all.remove_keys(texts(hit@).to_set()),
                texts(hit@).no_duplicates(),
                forall|k: int|
                    0 <= k < hit@.len() ==> want.contains(#[trigger] texts(hit@)[k])
                        && all.contains_key(texts(hit@)[k]),
                forall|j: int| 0 <= j < i ==> !want.contains((#[trigger] list@[j]).id@),
            decreases list@.len() - i,
        {
            let wanted = listed(mine, list[i].id.as_str());
            if wanted {
                let ghost before = list@;
                let ghost hit_before = texts(hit@);
                proof {
                    lemma_times(before, i as int);
                    lemma_times_remove(before, i as int);
                }
                let e = list.remove(i);
                hit.push(e.id);
                proof {
                    assert(texts(hit@) =~= hit_before.push(e.id@));
                    assert(!hit_before.contains(e.id@)) by {
                        if hit_before.contains(e.id@) {
                            assert(hit_before.to_set().contains(e.id@));
                        }
                    }
                    assert(times(before).contains_key(e.id@));
                    assert(texts(hit@).to_set() =~= hit_before.to_set().insert(e.id@)) by {
                        broadcast use vstd::seq_lib::group_seq_properties;

                    }
                    assert(times(list@) =~= all.remove_keys(texts(hit@).to_set()));
                }
            } else {
                i += 1;
            }
        }
        proof {
            let got = texts(hit@);
            assert forall|id: Seq<char>|
                got.to_set().contains(id) <==> all.dom().intersect(want).contains(id) by {
                if got.contains(id) {
                    let k = choose|k: int| 0 <= k < got.len() && got[k] == id;
                    assert(want.contains(got[k]));
                }
                if all.contains_key(id) && want.contains(id) && !got.contains(id) {
                    assert(times(list@).contains_key(id));
                    let k = choose|k: int| 0 <= k < list@.len() && (#[trigger] list@[k]).id@ == id;
                    assert(!want.contains(list@[k].id@));
                }
            }
            assert(got.to_set() =~= all.dom().intersect(want));
            assert(times(list@) =~= all.remove_keys(want));
        }
        self.list = list;
        hit
    }
}

// --- the tracker ------------------------------------------------------------

/// A point of the monotonic clock.
#[verifier::external_type_specification]
#[verifier::external_body]
pub struct ExInstant(Instant);

/// `Instant::now`: a reading of the monotonic clock. Which one is left open.
pub assume_specification[ Instant::now ]() -> (r: Instant)
;

/// `Instant::elapsed`, in nanoseconds: the time since `start`. How much that is
/// is left open.
#[verifier::external_body]
fn nanos_since(start: &Instant) -> (r: u128) {
    start.elapsed().as_nanos()
}

/// Keeps the closes that the mirror performs apart from those of the user.
pub struct CloseTracker {
    started: Instant,
    /// the time of the last reading of the clock
    latest: u128,
    self_closed: Entries,
    user_closed: Entries,
}

impl View for CloseTracker {
    type V = CloseState;

    closed spec fn view(&self) -> CloseState {
        CloseState { self_closed: self.self_closed@, user_closed: self.user_closed@ }
    }
}

impl Default for CloseTracker {
    fn default() -> (r: CloseTracker)
        ensures
            r@ == CloseState::empty(),
            r.clock() == 0,
    {
        CloseTracker {
            started: Instant::now(),
            latest: 0,
            self_closed: Entries::new(),
            user_closed: Entries::new(),
        }
    }
}

impl CloseTracker {
    /// The point of the clock that the tracker counts its times from.
    pub closed spec fn started(&self) -> Instant {
        self.started
    }

    /// The time, counted from `started`, at which the clock was last read.
    pub closed spec fn clock(&self) -> u128 {
        self.latest
    }

    /// Reads the clock. It runs forward only: what it gives is never less than
    /// what it gave before.
    fn read_clock(&mut self) -> (r: u128)
        ensures
            r == final(self).clock(),
            final(self).clock() >= old(self).clock(),
            final(self)@ == old(self)@,
            final(self).started() == old(self).started(),
    {
        let now: u128 = nanos_since(&self.started);
        if now > self.latest {
            self.latest = now;
        }
        self.latest
    }

    /// Marks a local id that is about to be closed by the mirror, so that its
    /// close event is not taken for the user's. To be called before the close.
    pub fn mark_self_close(&mut self, local_id: &str)
        ensures
            exists|now: u128| final(self)@ == #[trigger] old(self)@.marked(local_id@, now),
            final(self)@ == old(self)@.marked(local_id@, final(self).clock()),
            final(self).clock() >= old(self).clock(),
            final(self).started() == old(self).started(),
    {
        let now: u128 = self.read_clock();
        self.mark_self_close_at(local_id, now);
    }

    /// As `mark_self_close`, at time `now`.
    pub fn mark_self_close_at(&mut self, local_id: &str, now: u128)
        ensures
            final(self)@ == old(self)@.marked(local_id@, now),
            final(self).started() == old(self).started(),
            final(self).clock() == old(self).clock(),
    {
        self.expire(now);
        self.self_closed.put(local_id, now);
    }

    /// Takes the event that a local id was closed: the echo of an own close is
    /// swallowed, anything else is the user closing that object.
    pub fn note_close_event(&mut self, local_id: &str)
        ensures
            exists|now: u128| final(self)@ == #[trigger] old(self)@.noted(local_id@, now),
            final(self)@ == old(self)@.noted(local_id@, final(self).clock()),
            final(self).clock() >= old(self).clock(),
            final(self).started() == old(self).started(),
    {
        let now: u128 = self.read_clock();
        self.note_close_event_at(local_id, now);
    }

    /// As `note_close_event`, at time `now`.
    pub fn note_close_event_at(&mut self, local_id: &str, now: u128)
        ensures
            final(self)@ == old(self)@.noted(local_id@, now),
            final(self).started() == old(self).started(),
            final(self).clock() == old(self).clock(),
    {
        self.expire(now);
        if !self.self_closed.take_out(local_id) {
            self.user_closed.put(local_id, now);
        }
        assert(self@ =~= old(self)@.noted(local_id@, now));
    }

    /// A local id went to an object that the mirror made or adopted. Ids are
    /// used again, so a close noted before can only mean the id's last holder.
    pub fn forget(&mut self, local_id: &str)
        ensures
            final(self)@ == old(self)@.forgotten(local_id@),
            final(self).started() == old(self).started(),
            final(self).clock() == old(self).clock(),
    {
        self.user_closed.take_out(local_id);
    }

    /// Takes the ids among `mine` that the user closed. What is not among
    /// `mine` stays for others to take.
    pub fn take_user_closed(&mut self, mine: &[String]) -> (r: Vec<String>)
        ensures
            texts(r@).no_duplicates(),
            exists|now: u128|
                {
                    &&& final(self)@ == #[trigger] old(self)@.taken(texts(mine@).to_set(), now)
                    &&& texts(r@).to_set() == old(self)@.closed_among(texts(mine@).to_set(), now)
                },
            final(self)@ == old(self)@.taken(texts(mine@).to_set(), final(self).clock()),
            texts(r@).to_set() == old(self)@.closed_among(
                texts(mine@).to_set(),
                final(self).clock(),
            ),
            final(self).clock() >= old(self).clock(),
            final(self).started() == old(self).started(),
    {
        let now: u128 = self.read_clock();
        self.take_user_closed_at(mine, now)
    }

    /// As `take_user_closed`, at time `now`.
    pub fn take_user_closed_at(&mut self, mine: &[String], now: u128) -> (r: Vec<String>)
        ensures
            texts(r@).no_duplicates(),
            final(self)@ == old(self)@.taken(texts(mine@).to_set(), now),
            final(self).started() == old(self).started(),
            final(self).clock() == old(self).clock(),
            texts(r@).to_set() == old(self)@.closed_among(texts(mine@).to_set(), now),
    {
        self.expire(now);
        self.user_closed.take_listed(mine)
    }

    /// Drops what is too old at time `now`: marks of thirty seconds and more,
    /// closes by the user of sixty and more.
    pub fn expire(&mut self, now: u128)
        ensures
            final(self)@ == old(self)@.swept(now),
            final(self).started() == old(self).started(),
            final(self).clock() == old(self).clock(),
    {
        self.self_closed.sweep(now, SELF_CLOSE_TTL);
        self.user_closed.sweep(now, USER_CLOSE_TTL);
    }
}

/// A lock of std.
#[verifier::external_type_specification]
#[verifier::external_body]
#[verifier::reject_recursive_types(T)]
pub struct ExMutex<T: ?Sized>(Mutex<T>);

/// A tracker that the local event stream and the hosts' converges share.
pub type Closes = Arc<Mutex<CloseTracker>>;

/// What the tracker knew when the lock around it was made.
pub uninterp spec fn guarded_from(lock: Mutex<CloseTracker>) -> CloseState;

/// `Mutex::new`: a lock around the tracker as it is handed in.
#[verifier::external_body]
fn guard(tracker: CloseTracker) -> (r: Mutex<CloseTracker>)
    ensures
        guarded_from(r) == tracker@,
{
    Mutex::new(tracker)
}

/// A shared tracker that knows of nothing yet.
pub fn new_closes() -> (r: Closes)
    ensures
        guarded_from(*r) == CloseState::empty(),
{
    Arc::new(guard(CloseTracker::default()))
}

// --- laws -------------------------------------------------------------------

/// A close by the user is reported, to the one who claims the id, and once.
pub proof fn law_user_close_is_reported_once(
    s: CloseState,
    id: Seq<char>,
    mine: Set<Seq<char>>,
    later: Set<Seq<char>>,
    closed_at: u128,
    taken_at: u128,
    later_at: u128,
)
    requires
        !s.swept(closed_at).self_closed.contains_key(id),
        mine.contains(id),
        taken_at - closed_at < USER_CLOSE_TTL,
    ensures
        s.noted(id, closed_at).closed_among(mine, taken_at).contains(id),
        !s.noted(id, closed_at).taken(mine, taken_at).closed_among(later, later_at).contains(id),
{
}

/// A close that was marked first never becomes the user's: its event leaves no
/// trace that anyone could ever take.
pub proof fn law_own_close_is_no_intent(
    s: CloseState,
    id: Seq<char>,
    mine: Set<Seq<char>>,
    marked_at: u128,
    closed_at: u128,
    taken_at: u128,
)
    requires
        !s.user_closed.contains_key(id),
        closed_at - marked_at < SELF_CLOSE_TTL,
    ensures
        !s.marked(id, marked_at).noted(id, closed_at).user_closed.contains_key(id),
        !s.marked(id, marked_at).noted(id, closed_at).closed_among(mine, taken_at).contains(id),
{
}

/// The echo uses the mark up: the next close of the same id is the user's.
pub proof fn law_mark_is_used_up(
    s: CloseState,
    id: Seq<char>,
    mine: Set<Seq<char>>,
    marked_at: u128,
    echo_at: u128,
    closed_at: u128,
    taken_at: u128,
)
    requires
        mine.contains(id),
        echo_at - marked_at < SELF_CLOSE_TTL,
        taken_at - closed_at < USER_CLOSE_TTL,
    ensures
        s.marked(id, marked_at).noted(id, echo_at).noted(id, closed_at).closed_among(
            mine,
            taken_at,
        ).contains(id),
{
}

/// An id that went to a new object does not inherit the close of its last
/// holder, and a close of the new object still counts.
pub proof fn law_reused_id_starts_afresh(
    s: CloseState,
    id: Seq<char>,
    mine: Set<Seq<char>>,
    closed_at: u128,
    taken_at: u128,
)
    requires
        mine.contains(id),
        !s.swept(closed_at).self_closed.contains_key(id),
        taken_at - closed_at < USER_CLOSE_TTL,
    ensures
        !s.forgotten(id).closed_among(mine, taken_at).contains(id),
        s.forgotten(id).noted(id, closed_at).closed_among(mine, taken_at).contains(id),
{
}

/// One host's take leaves the ids of others for them to take.
pub proof fn law_other_ids_are_left_alone(
    s: CloseState,
    id: Seq<char>,
    mine: Set<Seq<char>>,
    other: Set<Seq<char>>,
    taken_at: u128,
    later_at: u128,
)
    requires
        !mine.contains(id),
        taken_at <= later_at,
    ensures
        s.taken(mine, taken_at).closed_among(other, later_at).contains(id) == s.closed_among(
            other,
            later_at,
        ).contains(id),
{
}

/// A mark whose event never came stops to claim the id, and a close that
/// nobody took is dropped.
pub proof fn law_nothing_waits_forever(
    s: CloseState,
    id: Seq<char>,
    mine: Set<Seq<char>>,
    first: u128,
    second: u128,
)
    requires
        !s.swept(first).self_closed.contains_key(id),
    ensures
        second - first >= SELF_CLOSE_TTL ==> s.marked(id, first).noted(
            id,
            second,
        ).user_closed.contains_key(id),
        second - first >= USER_CLOSE_TTL ==> !s.noted(id, first).closed_among(mine, second).contains(
            id,
        ),
{
}

/// An entry is dropped when its time is up, and not before: a mark at exactly
/// thirty seconds, a close by the user at exactly sixty. What is left keeps its
/// time.
pub proof fn law_entries_go_when_their_time_is_up(s: CloseState, id: Seq<char>, now: u128)
    ensures
        s.swept(now).self_closed.contains_key(id) <==> s.self_closed.contains_key(id) && now
            - s.self_closed[id] < 30_000_000_000,
        s.swept(now).user_closed.contains_key(id) <==> s.user_closed.contains_key(id) && now
            - s.user_closed[id] < 60_000_000_000,
        s.swept(now).self_closed.contains_key(id) ==> s.swept(now).self_closed[id]
            == s.self_closed[id],
        s.swept(now).user_closed.contains_key(id) ==> s.swept(now).user_closed[id]
            == s.user_closed[id],
{
}

/// Dropping what is too old is done with once: at the same time, nothing more is
/// dropped.
pub proof fn law_sweeping_again_changes_nothing(s: CloseState, now: u128)
    ensures
        s.swept(now).swept(now) == s.swept(now),
{
    assert(s.swept(now).swept(now) =~= s.swept(now));
}

/// To mark an id puts it down with the time of the mark and touches nothing else:
/// what is younger than thirty seconds among the marks, and than sixty among the
/// closes, stays as it is, and the rest goes.
pub proof fn law_mark_is_put_down_now(s: CloseState, id: Seq<char>, now: u128, x: Seq<char>)
    ensures
        s.marked(id, now).self_closed.contains_key(id),
        s.marked(id, now).self_closed[id] == now,
        x != id ==> (s.marked(id, now).self_closed.contains_key(x) <==> s.self_closed.contains_key(
            x,
        ) && now - s.self_closed[x] < 30_000_000_000),
        s.marked(id, now).user_closed.contains_key(x) <==> s.user_closed.contains_key(x) && now
            - s.user_closed[x] < 60_000_000_000,
        x != id && s.marked(id, now).self_closed.contains_key(x) ==> s.marked(
            id,
            now,
        ).self_closed[x] == s.self_closed[x],
        s.marked(id, now).user_closed.contains_key(x) ==> s.marked(id, now).user_closed[x]
            == s.user_closed[x],
{
}

/// The event that an id was closed is swallowed where a mark of less than thirty
/// seconds claims it, which uses the mark up; else it is put down as the user's,
/// with the time of the event. Other ids are left as they are, but for what is
/// too old.
pub proof fn law_event_is_swallowed_or_put_down(
    s: CloseState,
    id: Seq<char>,
    now: u128,
    x: Seq<char>,
)
    ensures
        !s.noted(id, now).self_closed.contains_key(id),
        ({
            let claimed = s.self_closed.contains_key(id) && now - s.self_closed[id]
                < 30_000_000_000;
            &&& !claimed ==> s.noted(id, now).user_closed.contains_key(id) && s.noted(
                id,
                now,
            ).user_closed[id] == now
            &&& claimed ==> (s.noted(id, now).user_closed.contains_key(id)
                <==> s.user_closed.contains_key(id) && now - s.user_closed[id] < 60_000_000_000)
            &&& claimed && s.noted(id, now).user_closed.contains_key(id) ==> s.noted(
                id,
                now,
            ).user_closed[id] == s.user_closed[id]
        }),
        x != id ==> (s.noted(id, now).self_closed.contains_key(x) <==> s.self_closed.contains_key(x)
            && now - s.self_closed[x] < 30_000_000_000),
        x != id ==> (s.noted(id, now).user_closed.contains_key(x) <==> s.user_closed.contains_key(x)
            && now - s.user_closed[x] < 60_000_000_000),
        x != id && s.noted(id, now).self_closed.contains_key(x) ==> s.noted(id, now).self_closed[x]
            == s.self_closed[x],
        x != id && s.noted(id, now).user_closed.contains_key(x) ==> s.noted(id, now).user_closed[x]
            == s.user_closed[x],
{
}

/// To forget an id drops its close by the user and nothing else.
pub proof fn law_forgetting_drops_one_close(s: CloseState, id: Seq<char>, x: Seq<char>)
    ensures
        !s.forgotten(id).user_closed.contains_key(id),
        x != id ==> s.forgotten(id).user_closed.contains_key(x) == s.user_closed.contains_key(x),
        x != id && s.user_closed.contains_key(x) ==> s.forgotten(id).user_closed[x]
            == s.user_closed[x],
        s.forgotten(id).self_closed.contains_key(x) == s.self_closed.contains_key(x),
        s.self_closed.contains_key(x) ==> s.forgotten(id).self_closed[x] == s.self_closed[x],
{
}

/// A take gives exactly the ids among `mine` that the user closed less than sixty
/// seconds ago, and drops exactly these, besides what is too old.
pub proof fn law_take_gives_the_closes_among_mine(
    s: CloseState,
    mine: Set<Seq<char>>,
    now: u128,
    x: Seq<char>,
)
    ensures
        s.closed_among(mine, now).contains(x) <==> mine.contains(x) && s.user_closed.contains_key(x)
            && now - s.user_closed[x] < 60_000_000_000,
        s.taken(mine, now).user_closed.contains_key(x) <==> !mine.contains(x)
            && s.user_closed.contains_key(x) && now - s.user_closed[x] < 60_000_000_000,
        s.taken(mine, now).user_closed.contains_key(x) ==> s.taken(mine, now).user_closed[x]
            == s.user_closed[x],
        s.taken(mine, now).self_closed.contains_key(x) <==> s.self_closed.contains_key(x) && now
            - s.self_closed[x] < 30_000_000_000,
        s.taken(mine, now).self_closed.contains_key(x) ==> s.taken(mine, now).self_closed[x]
            == s.self_closed[x],
{
}

/// A new tracker has no marks and no closes: it reports nothing, and takes the
/// first close of any id for the user's.
pub proof fn law_new_tracker_knows_nothing(id: Seq<char>, mine: Set<Seq<char>>, now: u128)
    ensures
        !CloseState::empty().closed_among(mine, now).contains(id),
        !CloseState::empty().self_closed.contains_key(id),
        CloseState::empty().noted(id, now).user_closed.contains_key(id),
{
}

/// Something that happens to a tracker.
pub enum CloseOp {
    Mark(Seq<char>, u128),
    Note(Seq<char>, u128),
    Forget(Seq<char>),
    Take(Set<Seq<char>>, u128),
}

impl CloseState {
    pub open spec fn after_op(self, op: CloseOp) -> CloseState {
        match op {
            CloseOp::Mark(id, now) => self.marked(id, now),
            CloseOp::Note(id, now) => self.noted(id, now),
            CloseOp::Forget(id) => self.forgotten(id),
            CloseOp::Take(mine, now) => self.taken(mine, now),
        }
    }
}

/// What a new tracker knows after all that happened to it.
pub open spec fn after_all(ops: Seq<CloseOp>) -> CloseState
    decreases ops.len(),
{
    if ops.len() == 0 {
        CloseState::empty()
    } else {
        after_all(ops.drop_last()).after_op(ops.last())
    }
}

/// What a tracker that knew `s` knows after all that happened to it since.
pub open spec fn after_more(s: CloseState, ops: Seq<CloseOp>) -> CloseState
    decreases ops.len(),
{
    if ops.len() == 0 {
        s
    } else {
        after_more(s, ops.drop_last()).after_op(ops.last())
    }
}

/// Within thirty seconds of a mark at `marked_at`, something other than a mark or
/// a close of `id`, at or after that time.
pub open spec fn elsewhere(op: CloseOp, id: Seq<char>, marked_at: u128) -> bool {
    match op {
        CloseOp::Mark(i, now) => i != id && marked_at <= now && now - marked_at < 30_000_000_000,
        CloseOp::Note(i, now) => i != id && marked_at <= now && now - marked_at < 30_000_000_000,
        CloseOp::Forget(_) => true,
        CloseOp::Take(_, now) => marked_at <= now && now - marked_at < 30_000_000_000,
    }
}

proof fn lemma_mark_stays(s: CloseState, id: Seq<char>, marked_at: u128, ops: Seq<CloseOp>)
    requires
        !s.user_closed.contains_key(id),
        forall|k: int| 0 <= k < ops.len() ==> elsewhere(#[trigger] ops[k], id, marked_at),
    ensures
        after_more(s.marked(id, marked_at), ops).self_closed.contains_key(id),
        after_more(s.marked(id, marked_at), ops).self_closed[id] == marked_at,
        !after_more(s.marked(id, marked_at), ops).user_closed.contains_key(id),
    decreases ops.len(),
{
    if ops.len() > 0 {
        let before = ops.drop_last();
        assert forall|k: int| 0 <= k < before.len() implies elsewhere(
            #[trigger] before[k],
            id,
            marked_at,
        ) by {
            assert(before[k] == ops[k]);
        }
        lemma_mark_stays(s, id, marked_at, before);
        assert(elsewhere(ops[ops.len() - 1], id, marked_at));
    }
}

/// A close that the mirror announced is never taken for the user's where its event
/// comes less than thirty seconds later, however long the tracker has run when it
/// is announced and whatever happens to other ids in between.
pub proof fn law_announced_close_is_swallowed(
    s: CloseState,
    id: Seq<char>,
    mine: Set<Seq<char>>,
    between: Seq<CloseOp>,
    marked_at: u128,
    closed_at: u128,
    taken_at: u128,
)
    requires
        !s.user_closed.contains_key(id),
        forall|k: int| 0 <= k < between.len() ==> elsewhere(#[trigger] between[k], id, marked_at),
        marked_at <= closed_at,
        closed_at - marked_at < 30_000_000_000,
    ensures
        ({
            let end = after_more(s.marked(id, marked_at), between).noted(id, closed_at);
            !end.user_closed.contains_key(id) && !end.closed_among(mine, taken_at).contains(id)
        }),
{
    lemma_mark_stays(s, id, marked_at, between);
}

/// Step `k` was the event that `id` was closed, at a time when no mark of the
/// mirror claimed it, and since then `id` was neither taken nor forgotten.
pub open spec fn closed_by_user_at(ops: Seq<CloseOp>, id: Seq<char>, k: int) -> bool {
    &&& 0 <= k < ops.len()
    &&& ops[k] matches CloseOp::Note(i, now) && i == id && !after_all(ops.take(k)).swept(
        now,
    ).self_closed.contains_key(id)
    &&& forall|m: int|
        k < m < ops.len() ==> match #[trigger] ops[m] {
            CloseOp::Forget(i) => i != id,
            CloseOp::Take(mine, _) => !mine.contains(id),
            _ => true,
        }
}

/// Whatever happened, an id is reported as closed by the user only for an event
/// that said so: one that no mark of the mirror claimed, that was not reported
/// before, and after which the id went to no new object.
pub proof fn law_reports_rest_on_events(
    ops: Seq<CloseOp>,
    id: Seq<char>,
    mine: Set<Seq<char>>,
    now: u128,
)
    requires
        after_all(ops).closed_among(mine, now).contains(id),
    ensures
        exists|k: int| closed_by_user_at(ops, id, k),
{
    lemma_user_closes_rest_on_events(ops, id);
}

proof fn lemma_user_closes_rest_on_events(ops: Seq<CloseOp>, id: Seq<char>)
    requires
        after_all(ops).user_closed.contains_key(id),
    ensures
        exists|k: int| closed_by_user_at(ops, id, k),
    decreases ops.len(),
{
    let before = ops.drop_last();
    let last = ops.len() - 1;
    let s = after_all(before);
    assert(ops.take(last) =~= before);
    let fresh = ops[last] matches CloseOp::Note(i, now) && i == id && !s.swept(
        now,
    ).self_closed.contains_key(id);
    if fresh {
        assert(closed_by_user_at(ops, id, last));
    } else {
        assert(s.user_closed.contains_key(id));
        lemma_user_closes_rest_on_events(before, id);
        let k = choose|k: int| closed_by_user_at(before, id, k);
        assert(ops.take(k) =~= before.take(k));
        assert(ops[k] == before[k]);
        assert forall|m: int| k < m < ops.len() implies match #[trigger] ops[m] {
            CloseOp::Forget(i) => i != id,
            CloseOp::Take(mine, _) => !mine.contains(id),
            _ => true,
        } by {
            if m < last {
                assert(ops[m] == before[m]);
            }
        }
        assert(closed_by_user_at(ops, id, k));
    }
}

} // verus!
