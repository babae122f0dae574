use crate::route::model::RawStop;
use crate::utils::{json_item, json_member, value_item, value_member};
use serde_json::Value;
use vstd::prelude::*;

verus! {

/// The options sent with every request: the full geometry as GeoJSON, no
/// turn-by-turn steps, and no U-turn at a waypoint.
pub const ROUTE_OPTIONS: &'static str =
    "?overview=full&geometries=geojson&steps=false&continue_straight=true";

/// Largest number of times one request is sent.
pub const MAX_ATTEMPTS: u32 = 3;

/// Pause before a request is sent again, in milliseconds.
pub const RETRY_DELAY_MS: u64 = 500;

/// Distance key of 90 metres: a stop is moved onto its corridor only from
/// this far or nearer. Distance keys are described at
/// `utils::geo::DISTANCE_CEILING`.
pub const CORRIDOR_LIMIT: u64 = 0x4056_8000_0000_0000;

/// The address of a request: the engine's base address, a slash, the
/// coordinate list and the options.
pub open spec fn route_url_of(base: Seq<char>, coords: Seq<char>) -> Seq<char> {
    base + "/"@ + coords + ROUTE_OPTIONS@
}

/// Builds the address of the request for a coordinate list.
pub fn route_url(base: &str, coords: &str) -> (url: String)
    ensures
        url@ == route_url_of(base@, coords@),
{
    let mut url = String::from_str(base);
    url.append("/");
    url.append(coords);
    url.append(ROUTE_OPTIONS);
    url
}

/// Longitude and latitude of a waypoint, each written out as the request
/// carries it.
pub struct CoordinateText {
    pub lon: String,
    pub lat: String,
}

/// The coordinate list of a request: each waypoint as longitude, comma,
/// latitude; the waypoints in order with a semicolon between neighbours.
pub open spec fn coordinate_list_of(points: Seq<CoordinateText>) -> Seq<char>
    decreases points.len(),
{
    if points.len() == 0 {
        Seq::empty()
    } else if points.len() == 1 {
        points[0].lon@ + ","@ + points[0].lat@
    } else {
        coordinate_list_of(points.drop_last()) + ";"@ + points.last().lon@ + ","@
            + points.last().lat@
    }
}

/// Writes the coordinate list of a request.
pub fn coordinate_list(points: &Vec<CoordinateText>) -> (list: String)
    ensures
        list@ == coordinate_list_of(points@),
{
    let mut list = String::new();
    let mut i: usize = 0;
    while i < points.len()
        invariant
            0 <= i <= points.len(),
            list@ == coordinate_list_of(points@.take(i as int)),
        decreases points.len() - i,
    {
        proof {
            assert(points@.take(i + 1).drop_last() =~= points@.take(i as int));
            assert(points@.take(i + 1).last() == points@[i as int]);
        }
        if i > 0 {
            list.append(";");
        }
        list.append(points[i].lon.as_str());
        list.append(",");
        list.append(points[i].lat.as_str());
        proof {
            if i == 0 {
                assert(list@ =~= points@[0].lon@ + ","@ + points@[0].lat@);
            }
        }
        i += 1;
    }
    proof {
        assert(points@.take(points@.len() as int) =~= points@);
    }
    list
}

/// The place of the geometry in an answer of the routing engine: what
/// stands under `coordinates` in the `geometry` of the first of its
/// `routes`.
pub open spec fn coordinates_place(answer: Value) -> Value {
    json_member(
        json_member(json_item(json_member(answer, "routes"@), 0), "geometry"@),
        "coordinates"@,
    )
}

/// The place of the geometry in an answer of the routing engine: the
/// coordinates of the geometry of the first path that it offers. The null
/// value stands for an answer without that place.
pub fn first_route_coordinates(answer: &Value) -> (place: &Value)
    ensures
        *place == coordinates_place(*answer),
{
    value_member(
        value_member(value_item(value_member(answer, "routes"), 0), "geometry"),
        "coordinates",
    )
}

/// What a request to the routing engine came to.
pub enum Reply<P> {
    /// The request did not get through: no connection, or no answer in
    /// time.
    TransportFailure,
    /// The engine answered with a status other than success.
    Rejected,
    /// The answer could not be read, or holds no geometry of the expected
    /// shape.
    Unreadable,
    /// The geometry of the first path that the engine offers.
    Geometry(Vec<P>),
}

/// What to do after a reply.
pub enum Step<P> {
    /// Wait for `delay_ms` milliseconds and send the request again.
    Retry { delay_ms: u64 },
    /// The call is over, with the polyline or without a result.
    Done(Option<Vec<P>>),
}

/// Number of failed transports after a reply, given the number before it.
pub open spec fn failed_after<P>(failed: nat, reply: Reply<P>) -> nat {
    if reply is TransportFailure && failed < MAX_ATTEMPTS {
        failed + 1
    } else {
        failed
    }
}

/// The step that follows a reply, given the number of failed transports
/// before it. Only a failed transport is worth another attempt, and only
/// while attempts are left; an empty geometry is no result.
pub open spec fn step_after<P>(failed: nat, reply: Reply<P>) -> Step<P> {
    match reply {
        Reply::TransportFailure => if failed + 1 < MAX_ATTEMPTS {
            Step::Retry { delay_ms: RETRY_DELAY_MS }
        } else {
            Step::Done(None)
        },
        Reply::Rejected => Step::Done(None),
        Reply::Unreadable => Step::Done(None),
        Reply::Geometry(points) => if points@.len() == 0 {
            Step::Done(None)
        } else {
            Step::Done(Some(points))
        },
    }
}

/// One call of the routing engine: counts the transports that failed and
/// decides after each reply whether the request is sent again.
pub struct RoutingCall {
    failed: u32,
}

impl View for RoutingCall {
    type V = nat;

    closed spec fn view(&self) -> nat {
        self.failed as nat
    }
}

impl RoutingCall {
    /// A call whose first request is about to be sent.
    pub fn new() -> (c: Self)
        ensures
            c@ == 0,
    {
        RoutingCall { failed: 0 }
    }

    /// Takes in the reply to the request that was sent last.
    pub fn on_reply<P>(&mut self, reply: Reply<P>) -> (step: Step<P>)
        ensures
            final(self)@ == failed_after(old(self)@, reply),
            step == step_after(old(self)@, reply),
    {
        match reply {
            Reply::TransportFailure => {
                if self.failed < MAX_ATTEMPTS {
                    self.failed += 1;
                    if self.failed < MAX_ATTEMPTS {
                        return Step::Retry { delay_ms: RETRY_DELAY_MS };
                    }
                }
                Step::Done(None)
            },
            Reply::Rejected => Step::Done(None),
            Reply::Unreadable => Step::Done(None),
            Reply::Geometry(points) => {
                if points.len() == 0 {
                    Step::Done(None)
                } else {
                    Step::Done(Some(points))
                }
            },
        }
    }
}

/// Number of requests sent in a call that has seen `failed` failed
/// transports and has a request under way, when the replies come in as
/// listed: each reply answers the request under way, and the call goes on
/// only after a step to retry.
pub open spec fn requests_sent<P>(failed: nat, replies: Seq<Reply<P>>) -> nat
    decreases replies.len(),
{
    if replies.len() == 0 {
        1
    } else if step_after(failed, replies[0]) is Retry {
        1 + requests_sent(failed_after(failed, replies[0]), replies.skip(1))
    } else {
        1
    }
}

/// Whatever the replies, a call sends its request at most `MAX_ATTEMPTS`
/// times.
pub proof fn lemma_attempts_bounded<P>(failed: nat, replies: Seq<Reply<P>>)
    requires
        failed < MAX_ATTEMPTS,
    ensures
        requests_sent(failed, replies) <= MAX_ATTEMPTS - failed,
    decreases replies.len(),
{
    if replies.len() > 0 && step_after(failed, replies[0]) is Retry {
        lemma_attempts_bounded(failed_after(failed, replies[0]), replies.skip(1));
    }
}

/// Only a failed transport leads to another attempt.
pub proof fn lemma_retry_only_after_transport_failure<P>(failed: nat, reply: Reply<P>)
    ensures
        step_after(failed, reply) is Retry ==> reply is TransportFailure,
{
}

/// The three stops of a corridor: the reference path runs from `prev` to
/// `next`, and `stop` is the stop between them that is held against it.
#[derive(Clone, Copy, Debug, PartialEq, Eq, Structural)]
pub struct CorridorSpan {
    pub prev: usize,
    pub stop: usize,
    pub next: usize,
}

/// The corridor of stop `i` in a route of `stop_count` stops: every stop
/// but the first and the last has one.
pub open spec fn corridor_of(i: int, stop_count: int) -> Option<CorridorSpan> {
    if 1 <= i && i + 1 < stop_count {
        Some(CorridorSpan { prev: (i - 1) as usize, stop: i as usize, next: (i + 1) as usize })
    } else {
        None
    }
}

/// The projection of a stop onto its corridor, with the distance key from
/// the stop to it.
pub struct Projection<C> {
    pub lon: C,
    pub lat: C,
    pub distance: u64,
}

/// A projection is taken if the stop lies within the corridor limit of it,
/// the limit included.
pub open spec fn accepts<C>(projection: Option<Projection<C>>) -> bool {
    projection matches Some(p) && p.distance <= CORRIDOR_LIMIT
}

/// Whether a stop at this distance from its projection is moved onto it.
pub fn within_corridor(distance: u64) -> (r: bool)
    ensures
        r == (distance <= CORRIDOR_LIMIT),
{
    distance <= CORRIDOR_LIMIT
}

/// The stop list after the corridor of stop `i` has been settled: an
/// accepted projection replaces the stop's coordinates, nothing else
/// changes.
pub open spec fn settled<C>(
    stops: Seq<RawStop<C>>,
    i: int,
    projection: Option<Projection<C>>,
) -> Seq<RawStop<C>> {
    if accepts(projection) {
        stops.update(
            i,
            RawStop { gps_long: projection->0.lon, gps_lat: projection->0.lat, ..stops[i] },
        )
    } else {
        stops
    }
}

/// One pass over a route that moves drifted stops onto their corridors.
/// The caller asks for the pending corridor, has its reference path routed
/// and the stop projected onto it, and hands the projection back, until no
/// corridor is pending.
pub struct CorridorPass {
    cursor: usize,
}

impl View for CorridorPass {
    type V = nat;

    closed spec fn view(&self) -> nat {
        self.cursor as nat
    }
}

impl CorridorPass {
    /// A pass that starts at the second stop.
    pub fn new() -> (p: Self)
        ensures
            p@ == 1,
    {
        CorridorPass { cursor: 1 }
    }

    /// The corridor to settle next in a route of `stop_count` stops; `None`
    /// once the last interior stop is done, and from the start for a route
    /// of fewer than three stops.
    pub fn pending(&self, stop_count: usize) -> (r: Option<CorridorSpan>)
        ensures
            r == corridor_of(self@ as int, stop_count as int),
    {
        if self.cursor >= 1 && stop_count >= 2 && self.cursor < stop_count - 1 {
            Some(CorridorSpan { prev: self.cursor - 1, stop: self.cursor, next: self.cursor + 1 })
        } else {
            None
        }
    }

    /// Settles the pending corridor. `projection` is `None` where no
    /// reference path came back or the path offers no projection.
    pub fn settle<C>(&mut self, stops: &mut Vec<RawStop<C>>, projection: Option<Projection<C>>)
        requires
            corridor_of(old(self)@ as int, old(stops)@.len() as int) is Some,
        ensures
            final(self)@ == old(self)@ + 1,
            final(stops)@ == settled(old(stops)@, old(self)@ as int, projection),
    {
        let i = self.cursor;
        let stop_count = stops.len();
        assert(i + 1 < stop_count);
        match projection {
            Some(p) => {
                if within_corridor(p.distance) {
                    stops[i].gps_long = p.lon;
                    stops[i].gps_lat = p.lat;
                    assert(stops@ =~= settled(old(stops)@, i as int, projection));
                }
            },
            None => {},
        }
        self.cursor = i + 1;
    }
}

/// Settling a corridor keeps the number of stops, leaves every stop but
/// the one in the middle of the corridor as it was, and changes nothing
/// but the coordinates of that one. The first and the last stop of a route
/// are in the middle of no corridor.
pub proof fn lemma_settle_touches_one_stop<C>(
    stops: Seq<RawStop<C>>,
    i: int,
    projection: Option<Projection<C>>,
)
    requires
        corridor_of(i, stops.len() as int) is Some,
    ensures
        settled(stops, i, projection).len() == stops.len(),
        0 < i < stops.len() - 1,
        forall|j: int|
            0 <= j < stops.len() && j != i ==> settled(stops, i, projection)[j] == stops[j],
        settled(stops, i, projection)[i].node_id == stops[i].node_id,
        settled(stops, i, projection)[i].node_nm == stops[i].node_nm,
        settled(stops, i, projection)[i].node_ord == stops[i].node_ord,
        settled(stops, i, projection)[i].node_no == stops[i].node_no,
        settled(stops, i, projection)[i].up_down_cd == stops[i].up_down_cd,
        !accepts(projection) ==> settled(stops, i, projection) == stops,
{
}

} // verus!
