use crate::route::model::{Keyed, RawStop, RouteProcessData};
use crate::utils::text::{lemma_position_in, lemma_position_is, position_in, same_text, texts};
use crate::utils::{
    is_flexible_string, json_integer, json_member, json_text, parse_flexible_string,
    value_integer, value_member, value_text,
};
use serde_json::Value;
use vstd::prelude::*;

verus! {

/// The stops are in ascending order of `node_ord`.
pub open spec fn is_sorted_by_order<C>(stops: Seq<RawStop<C>>) -> bool {
    forall|i: int, j: int| 0 <= i < j < stops.len() ==> stops[i].node_ord <= stops[j].node_ord
}

/// The test that picks the stops of order `k`.
pub open spec fn has_order<C>(k: i64) -> spec_fn(RawStop<C>) -> bool {
    |s: RawStop<C>| s.node_ord == k
}

/// The stops of order `k`, in the sequence in which the list holds them.
pub open spec fn with_order<C>(stops: Seq<RawStop<C>>, k: i64) -> Seq<RawStop<C>> {
    stops.filter(has_order(k))
}

/// `sorted` holds the stops of `stops` in ascending order of `node_ord`,
/// stops of the same order in the sequence in which `stops` holds them.
pub open spec fn is_stable_sort_of<C>(sorted: Seq<RawStop<C>>, stops: Seq<RawStop<C>>) -> bool {
    &&& sorted.len() == stops.len()
    &&& is_sorted_by_order(sorted)
    &&& forall|k: i64| #[trigger] with_order(sorted, k) == with_order(stops, k)
}

/// Moving a stop ahead of a run of stops of other orders leaves the stops
/// of every order in their sequence.
proof fn lemma_move_keeps_orders<C>(
    head: Seq<RawStop<C>>,
    run: Seq<RawStop<C>>,
    x: RawStop<C>,
    tail: Seq<RawStop<C>>,
    k: i64,
)
    requires
        forall|t: int| 0 <= t < run.len() ==> run[t].node_ord != x.node_ord,
    ensures
        with_order(head + run + seq![x] + tail, k) == with_order(head + seq![x] + run + tail, k),
{
    let p = has_order::<C>(k);
    Seq::filter_distributes_over_add(head + run + seq![x], tail, p);
    Seq::filter_distributes_over_add(head + run, seq![x], p);
    Seq::filter_distributes_over_add(head, run, p);
    Seq::filter_distributes_over_add(head + seq![x] + run, tail, p);
    Seq::filter_distributes_over_add(head + seq![x], run, p);
    Seq::filter_distributes_over_add(head, seq![x], p);
    if x.node_ord == k {
        assert forall|t: int| 0 <= t < run.len() implies !p(#[trigger] run[t]) by {}
        run.lemma_all_neg_filter_empty(p);
        assert(run.filter(p) =~= Seq::empty());
    } else {
        let one = seq![x];
        assert forall|t: int| 0 <= t < one.len() implies !p(#[trigger] one[t]) by {}
        one.lemma_all_neg_filter_empty(p);
        assert(one.filter(p) =~= Seq::empty());
    }
    assert(head.filter(p) + run.filter(p) + seq![x].filter(p) + tail.filter(p) =~= head.filter(p)
        + seq![x].filter(p) + run.filter(p) + tail.filter(p));
}

/// The stops of order `k` of a list that ends with a stop of order `k` end
/// with that stop; a last stop of another order does not count among them.
proof fn lemma_with_order_of_last<C>(stops: Seq<RawStop<C>>, k: i64)
    requires
        stops.len() > 0,
    ensures
        stops.last().node_ord == k ==> with_order(stops, k) == with_order(
            stops.drop_last(),
            k,
        ).push(stops.last()),
        stops.last().node_ord != k ==> with_order(stops, k) == with_order(stops.drop_last(), k),
{
    reveal(Seq::filter);
}

/// Where a list holds stops of order `k`, one of its stops has that order.
proof fn lemma_order_is_present<C>(stops: Seq<RawStop<C>>, k: i64)
    requires
        with_order(stops, k).len() > 0,
    ensures
        exists|i: int| 0 <= i < stops.len() && stops[i].node_ord == k,
    decreases stops.len(),
{
    reveal(Seq::filter);
    if stops.len() > 0 && stops.last().node_ord != k {
        lemma_order_is_present(stops.drop_last(), k);
        let i = choose|i: int| 0 <= i < stops.drop_last().len() && stops.drop_last()[i].node_ord == k;
        assert(stops[i].node_ord == k);
    }
}

/// Two sorted lists that hold the same stops of every order, in the same
/// sequence, are the same list.
pub proof fn lemma_sorted_lists_agree<C>(a: Seq<RawStop<C>>, b: Seq<RawStop<C>>)
    requires
        a.len() == b.len(),
        is_sorted_by_order(a),
        is_sorted_by_order(b),
        forall|k: i64| #[trigger] with_order(a, k) == with_order(b, k),
    ensures
        a == b,
    decreases a.len(),
{
    if a.len() == 0 {
        assert(a =~= b);
    } else {
        let ka = a.last().node_ord;
        let kb = b.last().node_ord;
        lemma_with_order_of_last(a, ka);
        lemma_with_order_of_last(b, kb);
        assert(with_order(b, ka) == with_order(a, ka));
        assert(with_order(a, kb) == with_order(b, kb));
        lemma_order_is_present(b, ka);
        lemma_order_is_present(a, kb);
        assert(ka == kb);
        assert(with_order(a, ka).last() == a.last());
        assert(with_order(b, ka).last() == b.last());
        let a0 = a.drop_last();
        let b0 = b.drop_last();
        assert forall|k: i64| #[trigger] with_order(a0, k) == with_order(b0, k) by {
            lemma_with_order_of_last(a, k);
            lemma_with_order_of_last(b, k);
            assert(with_order(a, k) == with_order(b, k));
            if k == ka {
                assert(with_order(a0, k) =~= with_order(a, k).drop_last());
                assert(with_order(b0, k) =~= with_order(b, k).drop_last());
            }
        }
        lemma_sorted_lists_agree(a0, b0);
        assert(a =~= a0.push(a.last()));
        assert(b =~= b0.push(b.last()));
    }
}

/// A list of stops has one stable sort: the contract of `sort_stops` names
/// its result.
pub proof fn lemma_stable_sort_unique<C>(
    a: Seq<RawStop<C>>,
    b: Seq<RawStop<C>>,
    stops: Seq<RawStop<C>>,
)
    requires
        is_stable_sort_of(a, stops),
        is_stable_sort_of(b, stops),
    ensures
        a == b,
{
    assert forall|k: i64| #[trigger] with_order(a, k) == with_order(b, k) by {
        assert(with_order(a, k) == with_order(stops, k));
        assert(with_order(b, k) == with_order(stops, k));
    }
    lemma_sorted_lists_agree(a, b);
}

/// Sorts the stops of a route by `node_ord`; stops of the same order stay
/// in the sequence in which they came.
pub fn sort_stops<C>(stops: &mut Vec<RawStop<C>>)
    ensures
        is_stable_sort_of(final(stops)@, old(stops)@),
{
    let ghost orig = stops@;
    let n = stops.len();
    let mut i: usize = 1;
    while i < n
        invariant
            1 <= i,
            n == stops@.len(),
            n == orig.len(),
            is_sorted_by_order(stops@.take(if i <= n { i as int } else { n as int })),
            forall|k: i64| #[trigger] with_order(stops@, k) == with_order(orig, k),
        decreases n - i,
    {
        let key = stops[i].node_ord;
        let ghost before = stops@;
        let mut j: usize = i;
        while j > 0 && stops[j - 1].node_ord > key
            invariant
                0 <= j <= i < n,
                n == stops@.len(),
                stops@ == before,
                key == before[i as int].node_ord,
                forall|t: int| j <= t < i ==> before[t].node_ord > key,
            decreases j,
        {
            j -= 1;
        }
        if j < i {
            let x = stops.remove(i);
            stops.insert(j, x);
            proof {
                let head = before.take(j as int);
                let run = before.subrange(j as int, i as int);
                let tail = before.skip(i + 1);
                assert(before =~= head + run + seq![x] + tail);
                assert(stops@ =~= head + seq![x] + run + tail);
                assert forall|k: i64| #[trigger] with_order(stops@, k) == with_order(orig, k) by {
                    lemma_move_keeps_orders(head, run, x, tail, k);
                    assert(with_order(before, k) == with_order(orig, k));
                }
                let now = stops@.take(i + 1);
                let was = before.take(i as int);
                assert forall|a: int, b: int| 0 <= a < b < now.len() implies now[a].node_ord
                    <= now[b].node_ord by {
                    if b < j {
                        assert(now[a] == was[a] && now[b] == was[b]);
                    } else if b == j {
                        assert(now[a] == was[a]);
                        if j > 0 {
                            assert(was[a].node_ord <= was[j - 1].node_ord);
                        }
                    } else if a < j {
                        assert(now[a] == was[a] && now[b] == was[b - 1]);
                    } else if a == j {
                        assert(now[b] == before[b - 1]);
                    } else {
                        assert(now[a] == was[a - 1] && now[b] == was[b - 1]);
                    }
                }
            }
        } else {
            proof {
                let now = stops@.take(i + 1);
                let was = before.take(i as int);
                assert forall|a: int, b: int| 0 <= a < b < now.len() implies now[a].node_ord
                    <= now[b].node_ord by {
                    if b < i {
                        assert(now[a] == was[a] && now[b] == was[b]);
                    } else {
                        assert(now[a] == was[a]);
                        if i > 0 {
                            assert(was[a].node_ord <= was[i - 1].node_ord);
                        }
                    }
                }
            }
        }
        i += 1;
    }
    proof {
        if n == 0 {
            assert(stops@.take(0) =~= stops@);
        } else {
            assert(stops@.take(n as int) =~= stops@);
        }
    }
}

/// Route number that stands for a route whose number cannot be read.
pub const UNKNOWN_ROUTE: &'static str = "UNKNOWN";

/// Whether a route of the transit service can be fetched: it has an
/// identifier, and its number could be read.
pub fn is_known_route(route_id: &str, route_no: &str) -> (r: bool)
    ensures
        r == (route_id@.len() > 0 && route_no@ != UNKNOWN_ROUTE@),
{
    !(same_text(route_no, UNKNOWN_ROUTE) || route_id.is_empty())
}

/// The name of the file that stores the stop list of a route: number,
/// underscore, identifier, and the extension `json`.
pub fn raw_file_name(route_no: &str, route_id: &str) -> (name: String)
    ensures
        name@ == route_no@ + "_"@ + route_id@ + ".json"@,
{
    let mut name = String::from_str(route_no);
    name.append("_");
    name.append(route_id);
    name.append(".json");
    name
}

/// Identifier and number of a route.
pub struct RouteIdentity {
    pub route_id: String,
    pub route_no: String,
}

/// The identifier that the transit service lists for a route: the text
/// under `routeid`, or the empty text where there is none.
pub open spec fn listed_route_id(route_info: Value) -> Seq<char> {
    match json_text(json_member(route_info, "routeid"@)) {
        Some(id) => id,
        None => Seq::empty(),
    }
}

/// `route_no` is the number that the transit service lists for a route:
/// what stands under `routeno`, written as a text.
pub open spec fn is_listed_route_no(route_no: String, route_info: Value) -> bool {
    is_flexible_string(
        route_no,
        json_text(json_member(route_info, "routeno"@)),
        json_integer(json_member(route_info, "routeno"@)),
    )
}

/// Identifier and number of a route as the transit service lists it. The
/// identifier is the text under `routeid`, the number what stands under
/// `routeno`, written as a text. A route without an identifier, or whose
/// number is neither a text nor a whole number, cannot be fetched and
/// gives `None`.
pub fn route_identity(route_info: &Value) -> (r: Option<RouteIdentity>)
    ensures
        exists|route_no: String|
            is_listed_route_no(route_no, *route_info) && (r is Some <==> listed_route_id(
                *route_info,
            ).len() > 0 && route_no@ != UNKNOWN_ROUTE@) && (r matches Some(id) ==> id.route_id@
                == listed_route_id(*route_info) && id.route_no == route_no),
        r matches Some(id) ==> id.route_id@.len() > 0 && id.route_no@ != UNKNOWN_ROUTE@,
{
    let route_id = match value_text(value_member(route_info, "routeid")) {
        Some(s) => s,
        None => String::new(),
    };
    let route_no = parse_flexible_string(value_member(route_info, "routeno"));
    let ghost listed = route_no;
    assert(route_id@ == listed_route_id(*route_info));
    assert(is_listed_route_no(listed, *route_info));
    let r = if is_known_route(route_id.as_str(), route_no.as_str()) {
        Some(RouteIdentity { route_id, route_no })
    } else {
        None
    };
    assert(is_listed_route_no(listed, *route_info) && (r is Some <==> listed_route_id(
        *route_info,
    ).len() > 0 && listed@ != UNKNOWN_ROUTE@) && (r matches Some(id) ==> id.route_id@
        == listed_route_id(*route_info) && id.route_no == listed));
    r
}

/// The whole number that a text writes, as the standard library reads it;
/// `None` for a text that writes none in the range of `i64`.
pub uninterp spec fn integer_of_text(s: Seq<char>) -> Option<i64>;

/// `str::parse` of the standard library, for `i64`: the number that the
/// text writes, which depends on the text alone.
#[verifier::external_body]
fn parse_integer(s: &str) -> (r: Option<i64>)
    ensures
        r == integer_of_text(s@),
{
    s.parse::<i64>().ok()
}

/// The direction code of a stop, given what its field holds and, where the
/// field is a text, the number that the text writes: the number of a
/// numeric field, else the number that a text field writes, else 0.
pub fn direction_code_of(number: Option<i64>, written: Option<i64>) -> (code: i64)
    ensures
        code == match number {
            Some(n) => n,
            None => match written {
                Some(n) => n,
                None => 0,
            },
        },
{
    match number {
        Some(n) => n,
        None => match written {
            Some(n) => n,
            None => 0,
        },
    }
}

/// The direction code that a field holds as a number or as a text.
pub open spec fn direction_code_spec(number: Option<i64>, text: Option<String>) -> i64 {
    match number {
        Some(n) => n,
        None => match text {
            Some(t) => match integer_of_text(t@) {
                Some(n) => n,
                None => 0,
            },
            None => 0,
        },
    }
}

/// The direction code of a stop from the two readings of its field.
pub fn direction_code(number: Option<i64>, text: Option<String>) -> (code: i64)
    ensures
        code == direction_code_spec(number, text),
{
    let written = match &text {
        Some(t) => parse_integer(t.as_str()),
        None => None,
    };
    direction_code_of(number, written)
}

/// A stop from an item of the transit service's stop list. The
/// coordinates come from the caller, who reads them from the item's fields
/// `gpslati` and `gpslong`. A missing name or identifier is empty, a
/// missing order is 0.
pub fn stop_from_item<C>(item: &Value, gps_lat: C, gps_long: C) -> (stop: RawStop<C>)
    ensures
        stop.gps_lat == gps_lat,
        stop.gps_long == gps_long,
{
    let node_id = match value_text(value_member(item, "nodeid")) {
        Some(s) => s,
        None => String::new(),
    };
    let node_nm = match value_text(value_member(item, "nodenm")) {
        Some(s) => s,
        None => String::new(),
    };
    let node_ord = match value_integer(value_member(item, "nodeord")) {
        Some(n) => n,
        None => 0,
    };
    let direction = value_member(item, "updowncd");
    RawStop {
        node_id,
        node_nm,
        node_ord,
        node_no: parse_flexible_string(value_member(item, "nodeno")),
        gps_lat,
        gps_long,
        up_down_cd: direction_code(value_integer(direction), value_text(direction)),
    }
}

/// The keys of a list, in order.
pub open spec fn keys_of<V>(entries: Seq<Keyed<V>>) -> Seq<Seq<char>> {
    Seq::new(entries.len(), |i: int| entries[i].key@)
}

/// The list after `value` has been put under `key`: it takes the place of
/// the value of the first entry with that key, or joins the list at its
/// end under a new entry.
pub open spec fn put_under<V>(entries: Seq<Keyed<V>>, key: String, value: V) -> Seq<Keyed<V>> {
    let at = position_in(keys_of(entries), key@);
    if at < entries.len() {
        entries.update(at, Keyed { key: entries[at].key, value })
    } else {
        entries.push(Keyed { key, value })
    }
}

/// The list after the first `upto` of `items` have been put into it, each
/// under its own key, in order.
pub open spec fn put_all<V>(entries: Seq<Keyed<V>>, items: Seq<Keyed<V>>, upto: int) -> Seq<
    Keyed<V>,
>
    decreases upto,
{
    if upto <= 0 {
        entries
    } else {
        put_under(put_all(entries, items, upto - 1), items[upto - 1].key, items[upto - 1].value)
    }
}

/// Position of the first entry with the key `key`, or the length of the
/// list where it has none.
pub fn find_key<V>(entries: &Vec<Keyed<V>>, key: &str) -> (at: usize)
    ensures
        at == position_in(keys_of(entries@), key@),
        at <= entries@.len(),
{
    let ghost keys = keys_of(entries@);
    let mut i: usize = 0;
    while i < entries.len()
        invariant
            0 <= i <= entries@.len(),
            keys == keys_of(entries@),
            forall|j: int| 0 <= j < i ==> keys[j] != key@,
        decreases entries.len() - i,
    {
        assert(keys[i as int] == entries@[i as int].key@);
        if same_text(entries[i].key.as_str(), key) {
            proof {
                lemma_position_is(keys, key@, i as int);
            }
            return i;
        }
        i += 1;
    }
    proof {
        lemma_position_is(keys, key@, i as int);
    }
    i
}

/// Puts a value under a key: in place of the value that the key has, or
/// under a new entry at the end of the list.
pub fn put<V>(entries: &mut Vec<Keyed<V>>, key: String, value: V)
    ensures
        final(entries)@ == put_under(old(entries)@, key, value),
{
    let at = find_key(entries, key.as_str());
    if at < entries.len() {
        entries[at].value = value;
        assert(entries@ =~= put_under(old(entries)@, key, value));
    } else {
        entries.push(Keyed { key, value });
    }
}

/// The route identifiers by route number, as the contracts see them.
pub open spec fn groups_view(groups: Seq<Keyed<Vec<String>>>) -> Seq<(Seq<char>, Seq<Seq<char>>)> {
    Seq::new(groups.len(), |i: int| (groups[i].key@, texts(groups[i].value@)))
}

/// The groups after a route has joined the group of its number: the last
/// of its group, or the first of a new group at the end.
pub open spec fn with_member(
    groups: Seq<(Seq<char>, Seq<Seq<char>>)>,
    route_no: Seq<char>,
    route_id: Seq<char>,
) -> Seq<(Seq<char>, Seq<Seq<char>>)> {
    let numbers = Seq::new(groups.len(), |i: int| groups[i].0);
    let at = position_in(numbers, route_no);
    if at < groups.len() {
        groups.update(at, (groups[at].0, groups[at].1.push(route_id)))
    } else {
        groups.push((route_no, seq![route_id]))
    }
}

/// What the fetched routes add up to for the files that map routes and
/// stations.
pub struct RouteMaps {
    /// The identifiers of the routes of each route number, in the order of
    /// their arrival.
    pub route_numbers: Vec<Keyed<Vec<String>>>,
    /// The details of each route, by route identifier.
    pub route_details: Vec<Keyed<Value>>,
    /// What is known of each stop, by stop identifier; what arrives later
    /// takes the place of what came before.
    pub stations: Vec<Keyed<Value>>,
}

impl RouteMaps {
    /// Maps without a route.
    pub fn new() -> (m: Self)
        ensures
            m.route_numbers@.len() == 0,
            m.route_details@.len() == 0,
            m.stations@.len() == 0,
    {
        RouteMaps { route_numbers: Vec::new(), route_details: Vec::new(), stations: Vec::new() }
    }

    /// Takes in what fetching one route has yielded.
    pub fn add(&mut self, data: RouteProcessData)
        ensures
            final(self).route_details@ == put_under(
                old(self).route_details@,
                data.route_id,
                data.details,
            ),
            groups_view(final(self).route_numbers@) == with_member(
                groups_view(old(self).route_numbers@),
                data.route_no@,
                data.route_id@,
            ),
            final(self).stations@ == put_all(
                old(self).stations@,
                data.stops_map@,
                data.stops_map@.len() as int,
            ),
    {
        let RouteProcessData { route_id, route_no, details, stops_map } = data;
        let ghost groups_before = groups_view(self.route_numbers@);
        let ghost numbers = Seq::new(groups_before.len(), |i: int| groups_before[i].0);
        assert(numbers =~= keys_of(self.route_numbers@));
        let at = find_key(&self.route_numbers, route_no.as_str());
        if at < self.route_numbers.len() {
            let ghost before = self.route_numbers@;
            self.route_numbers[at].value.push(route_id.clone());
            assert(groups_view(self.route_numbers@) =~= with_member(
                groups_before,
                route_no@,
                route_id@,
            )) by {
                assert(texts(self.route_numbers@[at as int].value@) =~= texts(
                    before[at as int].value@,
                ).push(route_id@));
            }
        } else {
            let mut ids: Vec<String> = Vec::new();
            ids.push(route_id.clone());
            assert(texts(ids@) =~= seq![route_id@]);
            self.route_numbers.push(Keyed { key: route_no, value: ids });
            assert(groups_view(self.route_numbers@) =~= with_member(
                groups_before,
                route_no@,
                route_id@,
            ));
        }
        put(&mut self.route_details, route_id, details);
        let ghost stations_before = self.stations@;
        let ghost items = stops_map@;
        let total = stops_map.len();
        let mut rest = stops_map;
        let mut taken: usize = 0;
        while rest.len() > 0
            invariant
                0 <= taken <= items.len(),
                items.len() == total,
                rest@ == items.skip(taken as int),
                self.stations@ == put_all(stations_before, items, taken as int),
                self.route_details@ == put_under(old(self).route_details@, data.route_id, data.details),
                groups_view(self.route_numbers@) == with_member(
                    groups_view(old(self).route_numbers@),
                    data.route_no@,
                    data.route_id@,
                ),
            decreases rest.len(),
        {
            let item = rest.remove(0);
            assert(item == items[taken as int]);
            assert(rest@ =~= items.skip(taken + 1));
            let Keyed { key, value } = item;
            put(&mut self.stations, key, value);
            taken += 1;
        }
    }
}

} // verus!
