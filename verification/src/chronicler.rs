//! Models of the versioned-entity service's responses, and the lazy,
//! sequential paging of its cursor-chained listings: a pull-based stream
//! that yields one item at a time, asking its driver for the next page
//! exactly when the current one is exhausted, until the remote reports
//! no further cursor.

use vstd::prelude::*;
use crate::request::{Order, Request, RequestBuilder};
use crate::time::Timestamp;

verus! {

/// One page of a plain (non-versioned) listing: an optional continuation
/// cursor and the items of this page.
#[derive(Debug)]
pub struct Data<T> {
    pub next_page: Option<String>,
    pub data: Vec<T>,
}

/// One recorded version of an entity: when it became valid, whose entity
/// it is, and the payload itself.
#[derive(Debug, Clone)]
pub struct Version<T> {
    pub valid_from: Timestamp,
    pub entity_id: String,
    pub data: T,
}

/// One page of versioned items: an optional continuation cursor and the
/// items of this page. The cursor is absent exactly on the terminal page.
#[derive(Debug)]
pub struct Versions<T> {
    pub next_page: Option<String>,
    pub items: Vec<Version<T>>,
}

/// One recorded revision of the site's static files.
#[derive(Debug, Clone)]
pub struct SiteUpdate {
    pub timestamp: Timestamp,
    pub path: String,
    pub hash: String,
    pub download_url: String,
}

/// The live-feed payload: each top-level feed is either present (a raw
/// payload) or absent.
#[derive(Debug, Clone)]
pub struct StreamValue {
    pub games: Option<String>,
    pub leagues: Option<String>,
    pub temporal: Option<String>,
    pub fights: Option<String>,
}

/// One live-feed message.
#[derive(Debug, Clone)]
pub struct Stream {
    pub value: StreamValue,
}

impl Stream {
    /// Whether no feed carries a payload.
    pub fn is_empty(&self) -> (r: bool)
        ensures
            r == (self.value.games is None && self.value.leagues is None
                && self.value.temporal is None && self.value.fights is None),
    {
        self.value.games.is_none() && self.value.leagues.is_none()
            && self.value.temporal.is_none() && self.value.fights.is_none()
    }
}

/// A player's identifier and display name.
#[derive(Debug, Clone)]
pub struct PlayerNameId {
    pub id: String,
    pub name: String,
}

/// One season's offseason summary: the season number is read, everything
/// else is carried through untouched as raw key-value pairs.
#[derive(Debug, Clone)]
pub struct OffseasonRecap {
    pub season: i64,
    pub everything_else: Vec<(String, String)>,
}

/// One recorded game with the day it belongs to.
#[derive(Debug, Clone)]
pub struct ChroniclerGame {
    pub game_id: String,
    pub start_time: Timestamp,
    pub data: GameDay,
}

/// A game's place in the calendar.
#[derive(Debug, Clone, Copy, PartialEq, Eq, Hash, Structural)]
pub struct GameDay {
    pub season: i64,
    pub tournament: i64,
    pub day: i64,
}

/// The day's tournament number when the remote omits one.
pub fn default_tournament() -> (r: i64)
    ensures
        r == -1,
{
    -1
}

/// Why a fetch failed: the connection itself (not retried here), the
/// payload's shape, or a non-success status from the remote, with the
/// status preserved.
#[derive(Debug, Clone, PartialEq, Eq)]
pub enum FetchError {
    Transport(String),
    Decode(String),
    Remote(u16),
}

/// What the paging state machine asks of its driver next.
pub enum StreamStep<T> {
    /// The next item, in page order.
    Yield(Version<T>),
    /// Fetch the page this request names and hand the response back.
    Fetch(Request),
    /// The terminal page is drained; nothing further will ever come.
    Done,
}

/// A lazy, sequential, finite walk over a cursor-chained listing. The
/// driver alternates `step` (which yields items while the current page
/// lasts, then asks for a fetch) with `provide_page` (which installs a
/// fetched page and advances the cursor). Items are yielded exactly in
/// the order pages provide them; pages are consumed strictly in cursor
/// order.
pub struct VersionStream<T> {
    req: Request,
    buffer: Vec<Version<T>>,
    no_more_pages: bool,
    pages_fetched: u64,
    delivered: Ghost<Seq<Version<T>>>,
    provided: Ghost<Seq<Version<T>>>,
}

impl<T> VersionStream<T> {
    /// Everything any page has provided so far, in order.
    pub closed spec fn provided_items(self) -> Seq<Version<T>> {
        self.provided@
    }

    /// Everything yielded so far, in order.
    pub closed spec fn delivered_items(self) -> Seq<Version<T>> {
        self.delivered@
    }

    /// Provided but not yet yielded, in order.
    pub closed spec fn pending(self) -> Seq<Version<T>> {
        self.buffer@
    }

    /// The request the next fetch would use.
    pub closed spec fn current_request(self) -> Request {
        self.req
    }

    /// Whether the terminal page (no cursor) has been provided.
    pub closed spec fn finished(self) -> bool {
        self.no_more_pages
    }

    /// How many pages were provided.
    pub closed spec fn fetch_count(self) -> u64 {
        self.pages_fetched
    }

    /// Yielded items always form a prefix of the provided items, in order.
    pub closed spec fn wf(self) -> bool {
        self.provided@ == self.delivered@ + self.pending()
    }

    /// A fresh walk driven by `req`; nothing provided, nothing yielded.
    pub fn new(req: Request) -> (s: VersionStream<T>)
        ensures
            s.wf(),
            s.current_request() == req,
            s.provided_items() == Seq::<Version<T>>::empty(),
            s.delivered_items() == Seq::<Version<T>>::empty(),
            s.pending() == Seq::<Version<T>>::empty(),
            !s.finished(),
            s.fetch_count() == 0,
    {
        let s = VersionStream {
            req,
            buffer: Vec::new(),
            no_more_pages: false,
            pages_fetched: 0,
            delivered: Ghost(Seq::empty()),
            provided: Ghost(Seq::empty()),
        };
        proof {
            assert(s.pending() =~= Seq::<Version<T>>::empty());
            assert(s.provided@ =~= s.delivered@ + s.pending());
        }
        s
    }

    /// One pull: the next pending item in order; else a fetch request for
    /// the next page; else, after the terminal page, the end of the walk.
    pub fn step(&mut self) -> (r: StreamStep<T>)
        requires
            old(self).wf(),
        ensures
            final(self).wf(),
            final(self).current_request() == old(self).current_request(),
            final(self).provided_items() == old(self).provided_items(),
            final(self).finished() == old(self).finished(),
            final(self).fetch_count() == old(self).fetch_count(),
            old(self).pending().len() > 0 ==> (r matches StreamStep::Yield(v)
                && v == old(self).pending()[0]
                && final(self).delivered_items() == old(self).delivered_items().push(v)
                && final(self).pending() == old(self).pending().drop_first()),
            old(self).pending().len() == 0 && !old(self).finished() ==> (r matches
                StreamStep::Fetch(q) && q == old(self).current_request()
                && final(self).delivered_items() == old(self).delivered_items()
                && final(self).pending() == old(self).pending()),
            old(self).pending().len() == 0 && old(self).finished() ==> (r is Done
                && final(self).delivered_items() == old(self).delivered_items()
                && final(self).pending() == old(self).pending()),
    {
        if self.buffer.len() > 0 {
            let item = self.buffer.remove(0);
            self.delivered = Ghost(self.delivered@.push(item));
            proof {
                assert(final(self).pending() =~= old(self).pending().drop_first());
                assert(final(self).provided@ =~= final(self).delivered@ + final(self).pending());
            }
            StreamStep::Yield(item)
        } else if self.no_more_pages {
            StreamStep::Done
        } else {
            StreamStep::Fetch(self.req.duplicate())
        }
    }

    /// Installs a fetched page: its items become the pending tail, its
    /// cursor becomes the next request's page (or ends the walk).
    pub fn provide_page(&mut self, page: Versions<T>)
        requires
            old(self).wf(),
            old(self).pending().len() == 0,
            !old(self).finished(),
            old(self).fetch_count() < u64::MAX,
        ensures
            final(self).wf(),
            final(self).delivered_items() == old(self).delivered_items(),
            final(self).provided_items() == old(self).provided_items() + page.items@,
            final(self).pending() == page.items@,
            final(self).finished() == (page.next_page is None),
            final(self).fetch_count() == old(self).fetch_count() + 1,
            page.next_page matches Some(c) ==> final(self).current_request() == (Request {
                page: Some(c),
                ..old(self).current_request()
            }),
            page.next_page is None ==> final(self).current_request() == old(
                self,
            ).current_request(),
    {
        match page.next_page {
            Some(c) => {
                self.req.page = Some(c);
            },
            None => {
                self.no_more_pages = true;
            },
        }
        self.buffer = page.items;
        self.pages_fetched = self.pages_fetched + 1;
        self.provided = Ghost(self.provided@ + self.buffer@);
        proof {
            assert(final(self).pending() =~= final(self).buffer@);
            assert(old(self).provided@ =~= old(self).delivered@);
            assert(final(self).provided@ =~= final(self).delivered@ + final(self).pending());
        }
    }

    /// Whether the walk is waiting on a page: nothing pending and the
    /// terminal page not yet seen — exactly when `step` asks for a fetch.
    pub fn needs_page(&self) -> (r: bool)
        ensures
            r == (self.pending().len() == 0 && !self.finished()),
    {
        self.buffer.len() == 0 && !self.no_more_pages
    }

    /// How many pages have been provided so far.
    pub fn pages_provided(&self) -> (n: u64)
        ensures
            n == self.fetch_count(),
    {
        self.pages_fetched
    }
}

/// One in-game update of a recorded game.
#[derive(Debug, Clone)]
pub struct GameUpdate {
    pub timestamp: Timestamp,
    pub data: String,
}

/// The payload of the first update, in the given order, whose instant lies
/// strictly before `time`.
pub open spec fn first_update_before(items: Seq<GameUpdate>, time: Timestamp) -> Option<String>
    decreases items.len(),
{
    if items.len() == 0 {
        None
    } else if items[0].timestamp.spec_lt(time) {
        Some(items[0].data)
    } else {
        first_update_before(items.drop_first(), time)
    }
}

/// Picks, from updates listed newest first, the payload of the first one
/// strictly before `time` — the state of the game as of that instant.
pub fn pick_game_update(items: &Vec<GameUpdate>, time: &Timestamp) -> (r: Option<String>)
    ensures
        r == first_update_before(items@, *time),
{
    let mut i: usize = 0;
    assert(items@.skip(0) =~= items@);
    while i < items.len()
        invariant
            i <= items@.len(),
            first_update_before(items@, *time) == first_update_before(
                items@.skip(i as int),
                *time,
            ),
            forall|k: int| 0 <= k < i ==> !items@[k].timestamp.spec_lt(*time),
        decreases items@.len() - i,
    {
        if items[i].timestamp.before(time) {
            assert(items@.skip(i as int)[0] == items@[i as int]);
            return Some(items[i].data.clone());
        }
        proof {
            assert(items@.skip(i as int).drop_first() =~= items@.skip(i + 1));
        }
        i = i + 1;
    }
    proof {
        assert(items@.skip(i as int) =~= Seq::<GameUpdate>::empty());
    }
    None
}

/// The request `fetch_game` sends for a non-empty game id: the newest
/// thousand updates of that game, newest first. An empty id asks nothing.
pub fn game_updates_request(id: String) -> (r: Option<Request>)
    ensures
        id@.len() == 0 ==> r is None,
        id@.len() > 0 ==> (r matches Some(q) && q.route@ == "v1/games/updates"@ && q.game == Some(
            id,
        ) && q.order == Some(Order::Desc) && q.count == Some(1000usize) && q.page is None
            && q.ty is None && q.id is None && q.at is None && q.after is None && q.before is None
            && q.started is None && q.season is None && q.day is None),
{
    if id.as_str().is_empty() {
        None
    } else {
        let b = RequestBuilder::new(String::from_str("v1/games/updates")).game(id).order(
            Order::Desc,
        ).count(1000);
        Some(b.build())
    }
}

} // verus!
