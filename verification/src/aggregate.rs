use vstd::prelude::*;
use vstd::pervasive::VecAdditionalExecFns;

verus! {

/// One bus stop as fetched from the listing endpoint. Coordinates are
/// carried as microdegrees (degrees times one million), the integer carrier
/// for the upstream decimal coordinate; the aggregation never reads them.
#[derive(Clone)]
pub struct StopRecord {
    pub bus_stop_code: String,
    pub road_name: String,
    pub description: String,
    pub latitude_micro: i64,
    pub longitude_micro: i64,
}

#[verifier::ext_equal]
pub ghost struct StopView {
    pub road_name: Seq<char>,
    pub description: Seq<char>,
    pub latitude_micro: i64,
    pub longitude_micro: i64,
}

impl View for StopRecord {
    type V = StopView;

    open spec fn view(&self) -> StopView {
        StopView {
            road_name: self.road_name@,
            description: self.description@,
            latitude_micro: self.latitude_micro,
            longitude_micro: self.longitude_micro,
        }
    }
}

/// One route/service record as fetched from the route listing endpoint.
#[derive(Clone)]
pub struct RouteRecord {
    pub service_no: String,
    pub operator: String,
    pub direction: u32,
    pub stop_sequence: u32,
    pub bus_stop_code: String,
    pub wd_first_bus: String,
    pub wd_last_bus: String,
    pub sat_first_bus: String,
    pub sat_last_bus: String,
    pub sun_first_bus: String,
    pub sun_last_bus: String,
}

/// What the join keeps of a route record for one (stop, service) pair:
/// operator, the stop's ordinal on the route, and the scheduled first/last
/// bus per day-type, carried through as opaque display text.
pub struct RouteDetail {
    pub operator: String,
    pub stop_sequence: u32,
    pub wd_first_bus: String,
    pub wd_last_bus: String,
    pub sat_first_bus: String,
    pub sat_last_bus: String,
    pub sun_first_bus: String,
    pub sun_last_bus: String,
}

#[verifier::ext_equal]
pub ghost struct DetailView {
    pub operator: Seq<char>,
    pub stop_sequence: u32,
    pub wd_first_bus: Seq<char>,
    pub wd_last_bus: Seq<char>,
    pub sat_first_bus: Seq<char>,
    pub sat_last_bus: Seq<char>,
    pub sun_first_bus: Seq<char>,
    pub sun_last_bus: Seq<char>,
}

impl View for RouteDetail {
    type V = DetailView;

    open spec fn view(&self) -> DetailView {
        DetailView {
            operator: self.operator@,
            stop_sequence: self.stop_sequence,
            wd_first_bus: self.wd_first_bus@,
            wd_last_bus: self.wd_last_bus@,
            sat_first_bus: self.sat_first_bus@,
            sat_last_bus: self.sat_last_bus@,
            sun_first_bus: self.sun_first_bus@,
            sun_last_bus: self.sun_last_bus@,
        }
    }
}

/// The detail a route record contributes to its (stop, service) pair.
pub open spec fn detail_view(r: RouteRecord) -> DetailView {
    DetailView {
        operator: r.operator@,
        stop_sequence: r.stop_sequence,
        wd_first_bus: r.wd_first_bus@,
        wd_last_bus: r.wd_last_bus@,
        sat_first_bus: r.sat_first_bus@,
        sat_last_bus: r.sat_last_bus@,
        sun_first_bus: r.sun_first_bus@,
        sun_last_bus: r.sun_last_bus@,
    }
}

/// One service attached to a stop, keyed by service number.
pub struct ServiceEntry {
    pub service_no: String,
    pub detail: RouteDetail,
}

/// One stop together with the services that call at it.
pub struct StopAggregate {
    pub stop: StopRecord,
    pub services: Vec<ServiceEntry>,
}

#[verifier::ext_equal]
pub ghost struct AggView {
    pub stop: StopView,
    pub services: Map<Seq<char>, DetailView>,
}

/// The service entries as the map they stand for: service number to detail,
/// later entries overwriting earlier ones.
pub open spec fn services_map(s: Seq<ServiceEntry>) -> Map<Seq<char>, DetailView>
    decreases s.len(),
{
    if s.len() == 0 {
        Map::empty()
    } else {
        services_map(s.drop_last()).insert(s.last().service_no@, s.last().detail@)
    }
}

impl View for StopAggregate {
    type V = AggView;

    open spec fn view(&self) -> AggView {
        AggView { stop: self.stop@, services: services_map(self.services@) }
    }
}

impl StopAggregate {
    /// Service numbers are unique within one stop's service list.
    pub open spec fn svc_unique(self) -> bool {
        forall|i: int, j: int|
            0 <= i < j < self.services@.len() ==> self.services@[i].service_no@
                != self.services@[j].service_no@
    }

    /// Looks a service up by its number.
    pub fn lookup_service(&self, service_no: &String) -> (r: Option<&RouteDetail>)
        requires
            self.svc_unique(),
        ensures
            match r {
                Option::Some(d) => self@.services.contains_key(service_no@) && d@
                    == self@.services[service_no@],
                Option::None => !self@.services.contains_key(service_no@),
            },
    {
        let n = self.services.len();
        let mut i: usize = 0;
        while i < n
            invariant
                self.svc_unique(),
                n == self.services@.len(),
                i <= n,
                forall|j: int| 0 <= j < i ==> self.services@[j].service_no@ != service_no@,
            decreases n - i,
        {
            if self.services[i].service_no == *service_no {
                proof {
                    lemma_services_index(self.services@, i as int);
                }
                return Some(&self.services[i].detail);
            }
            i = i + 1;
        }
        proof {
            lemma_services_contains(self.services@, service_no@);
        }
        None
    }
}

/// Which keys the service map holds: exactly the service numbers of the
/// entries.
pub proof fn lemma_services_contains(s: Seq<ServiceEntry>, k: Seq<char>)
    ensures
        services_map(s).contains_key(k) <==> exists|i: int|
            0 <= i < s.len() && s[i].service_no@ == k,
    decreases s.len(),
{
    if s.len() > 0 {
        lemma_services_contains(s.drop_last(), k);
        if services_map(s).contains_key(k) && s.last().service_no@ != k {
            let i = choose|i: int| 0 <= i < s.drop_last().len() && s.drop_last()[i].service_no@ == k;
            assert(s[i].service_no@ == k);
        }
        if exists|i: int| 0 <= i < s.len() && s[i].service_no@ == k {
            let i = choose|i: int| 0 <= i < s.len() && s[i].service_no@ == k;
            if i < s.len() - 1 {
                assert(s.drop_last()[i].service_no@ == k);
            }
        }
    }
}

/// With unique service numbers, the map holds each entry's detail at its
/// service number.
pub proof fn lemma_services_index(s: Seq<ServiceEntry>, i: int)
    requires
        0 <= i < s.len(),
        forall|p: int, q: int|
            0 <= p < q < s.len() ==> s[p].service_no@ != s[q].service_no@,
    ensures
        services_map(s).contains_key(s[i].service_no@),
        services_map(s)[s[i].service_no@] == s[i].detail@,
    decreases s.len(),
{
    if i < s.len() - 1 {
        assert forall|p: int, q: int|
            0 <= p < q < s.drop_last().len() implies s.drop_last()[p].service_no@
            != s.drop_last()[q].service_no@ by {
            assert(s[p].service_no@ != s[q].service_no@);
        }
        lemma_services_index(s.drop_last(), i);
        assert(s[i].service_no@ != s.last().service_no@);
    }
}

/// Replacing the entry at `i` by one with the same service number is, at the
/// map level, an overwrite at that key.
pub proof fn lemma_services_update(s: Seq<ServiceEntry>, i: int, e: ServiceEntry)
    requires
        0 <= i < s.len(),
        e.service_no@ == s[i].service_no@,
        forall|p: int, q: int|
            0 <= p < q < s.len() ==> s[p].service_no@ != s[q].service_no@,
    ensures
        services_map(s.update(i, e)) == services_map(s).insert(e.service_no@, e.detail@),
    decreases s.len(),
{
    let su = s.update(i, e);
    if i == s.len() - 1 {
        assert(su.drop_last() =~= s.drop_last());
        assert(su.last() == e);
        assert(services_map(su) =~= services_map(s).insert(e.service_no@, e.detail@));
    } else {
        assert(su.last() == s.last());
        assert(su.drop_last() =~= s.drop_last().update(i, e));
        assert forall|p: int, q: int|
            0 <= p < q < s.drop_last().len() implies s.drop_last()[p].service_no@
            != s.drop_last()[q].service_no@ by {
            assert(s[p].service_no@ != s[q].service_no@);
        }
        lemma_services_update(s.drop_last(), i, e);
        assert(s[i].service_no@ != s.last().service_no@);
        assert(services_map(su) =~= services_map(s).insert(e.service_no@, e.detail@));
    }
}

/// The aggregate over all stops, keyed by stop code.
pub struct StopTable {
    entries: Vec<StopAggregate>,
}

/// The stop entries as the map they stand for: stop code to aggregate,
/// later entries overwriting earlier ones.
pub open spec fn table_map(s: Seq<StopAggregate>) -> Map<Seq<char>, AggView>
    decreases s.len(),
{
    if s.len() == 0 {
        Map::empty()
    } else {
        table_map(s.drop_last()).insert(s.last().stop.bus_stop_code@, s.last()@)
    }
}

impl View for StopTable {
    type V = Map<Seq<char>, AggView>;

    closed spec fn view(&self) -> Map<Seq<char>, AggView> {
        table_map(self.entries@)
    }
}

/// Which keys the table holds: exactly the stop codes of the entries.
pub proof fn lemma_table_contains(s: Seq<StopAggregate>, k: Seq<char>)
    ensures
        table_map(s).contains_key(k) <==> exists|i: int|
            0 <= i < s.len() && s[i].stop.bus_stop_code@ == k,
    decreases s.len(),
{
    if s.len() > 0 {
        lemma_table_contains(s.drop_last(), k);
        if table_map(s).contains_key(k) && s.last().stop.bus_stop_code@ != k {
            let i = choose|i: int|
                0 <= i < s.drop_last().len() && s.drop_last()[i].stop.bus_stop_code@ == k;
            assert(s[i].stop.bus_stop_code@ == k);
        }
        if exists|i: int| 0 <= i < s.len() && s[i].stop.bus_stop_code@ == k {
            let i = choose|i: int| 0 <= i < s.len() && s[i].stop.bus_stop_code@ == k;
            if i < s.len() - 1 {
                assert(s.drop_last()[i].stop.bus_stop_code@ == k);
            }
        }
    }
}

/// With unique stop codes, the table holds each entry at its code.
pub proof fn lemma_table_index(s: Seq<StopAggregate>, i: int)
    requires
        0 <= i < s.len(),
        forall|p: int, q: int|
            0 <= p < q < s.len() ==> s[p].stop.bus_stop_code@ != s[q].stop.bus_stop_code@,
    ensures
        table_map(s).contains_key(s[i].stop.bus_stop_code@),
        table_map(s)[s[i].stop.bus_stop_code@] == s[i]@,
    decreases s.len(),
{
    if i < s.len() - 1 {
        assert forall|p: int, q: int|
            0 <= p < q < s.drop_last().len() implies s.drop_last()[p].stop.bus_stop_code@
            != s.drop_last()[q].stop.bus_stop_code@ by {
            assert(s[p].stop.bus_stop_code@ != s[q].stop.bus_stop_code@);
        }
        lemma_table_index(s.drop_last(), i);
        assert(s[i].stop.bus_stop_code@ != s.last().stop.bus_stop_code@);
    }
}

/// Replacing the entry at `i` by one with the same stop code is, at the map
/// level, an overwrite at that key.
pub proof fn lemma_table_update(s: Seq<StopAggregate>, i: int, e: StopAggregate)
    requires
        0 <= i < s.len(),
        e.stop.bus_stop_code@ == s[i].stop.bus_stop_code@,
        forall|p: int, q: int|
            0 <= p < q < s.len() ==> s[p].stop.bus_stop_code@ != s[q].stop.bus_stop_code@,
    ensures
        table_map(s.update(i, e)) == table_map(s).insert(e.stop.bus_stop_code@, e@),
    decreases s.len(),
{
    let su = s.update(i, e);
    if i == s.len() - 1 {
        assert(su.drop_last() =~= s.drop_last());
        assert(su.last() == e);
        assert(table_map(su) =~= table_map(s).insert(e.stop.bus_stop_code@, e@));
    } else {
        assert(su.last() == s.last());
        assert(su.drop_last() =~= s.drop_last().update(i, e));
        assert forall|p: int, q: int|
            0 <= p < q < s.drop_last().len() implies s.drop_last()[p].stop.bus_stop_code@
            != s.drop_last()[q].stop.bus_stop_code@ by {
            assert(s[p].stop.bus_stop_code@ != s[q].stop.bus_stop_code@);
        }
        lemma_table_update(s.drop_last(), i, e);
        assert(s[i].stop.bus_stop_code@ != s.last().stop.bus_stop_code@);
        assert(table_map(su) =~= table_map(s).insert(e.stop.bus_stop_code@, e@));
    }
}

/// With unique stop codes, the table has exactly one key per entry.
pub proof fn lemma_table_len(s: Seq<StopAggregate>)
    requires
        forall|p: int, q: int|
            0 <= p < q < s.len() ==> s[p].stop.bus_stop_code@ != s[q].stop.bus_stop_code@,
    ensures
        table_map(s).dom().finite(),
        table_map(s).dom().len() == s.len(),
    decreases s.len(),
{
    if s.len() > 0 {
        assert forall|p: int, q: int|
            0 <= p < q < s.drop_last().len() implies s.drop_last()[p].stop.bus_stop_code@
            != s.drop_last()[q].stop.bus_stop_code@ by {
            assert(s[p].stop.bus_stop_code@ != s[q].stop.bus_stop_code@);
        }
        lemma_table_len(s.drop_last());
        lemma_table_contains(s.drop_last(), s.last().stop.bus_stop_code@);
        assert(forall|i: int|
            0 <= i < s.drop_last().len() ==> s.drop_last()[i].stop.bus_stop_code@ != s.last().stop.bus_stop_code@);
        assert(!table_map(s.drop_last()).contains_key(s.last().stop.bus_stop_code@));
        vstd::map::axiom_map_insert_domain(
            table_map(s.drop_last()),
            s.last().stop.bus_stop_code@,
            s.last()@,
        );
        vstd::set::axiom_set_insert_len(
            table_map(s.drop_last()).dom(),
            s.last().stop.bus_stop_code@,
        );
    }
}

/// Inserting or overwriting a route's detail at its stop, if the stop is
/// known; an orphan route (no such stop) changes nothing.
pub open spec fn insert_route_spec(
    m: Map<Seq<char>, AggView>,
    code: Seq<char>,
    svc: Seq<char>,
    d: DetailView,
) -> Map<Seq<char>, AggView> {
    if m.contains_key(code) {
        m.insert(code, AggView { stop: m[code].stop, services: m[code].services.insert(svc, d) })
    } else {
        m
    }
}

/// The whole join: every route record folded into the table in order, later
/// records overwriting earlier ones per (stop, service) pair.
pub open spec fn join_spec(m: Map<Seq<char>, AggView>, rs: Seq<RouteRecord>) -> Map<
    Seq<char>,
    AggView,
>
    decreases rs.len(),
{
    if rs.len() == 0 {
        m
    } else {
        join_spec(
            insert_route_spec(m, rs[0].bus_stop_code@, rs[0].service_no@, detail_view(rs[0])),
            rs.drop_first(),
        )
    }
}

impl StopTable {
    /// Stop codes are unique, and each stop's service numbers are unique.
    pub closed spec fn wf(self) -> bool {
        &&& forall|p: int, q: int|
            0 <= p < q < self.entries@.len() ==> self.entries@[p].stop.bus_stop_code@
                != self.entries@[q].stop.bus_stop_code@
        &&& forall|i: int| 0 <= i < self.entries@.len() ==> (#[trigger] self.entries@[i]).svc_unique()
    }

    pub fn new() -> (r: StopTable)
        ensures
            r.wf(),
            r@ == Map::<Seq<char>, AggView>::empty(),
    {
        StopTable { entries: Vec::new() }
    }

    /// How many stops the table holds.
    pub fn stop_count(&self) -> (r: usize)
        requires
            self.wf(),
        ensures
            r == self@.dom().len(),
    {
        proof {
            lemma_table_len(self.entries@);
        }
        self.entries.len()
    }

    fn find_stop(&self, code: &String) -> (r: Option<usize>)
        ensures
            match r {
                Option::Some(i) => i < self.entries@.len() && self.entries@[i as int].stop.bus_stop_code@
                    == code@,
                Option::None => forall|j: int|
                    0 <= j < self.entries@.len() ==> self.entries@[j].stop.bus_stop_code@ != code@,
            },
    {
        let n = self.entries.len();
        let mut i: usize = 0;
        while i < n
            invariant
                n == self.entries@.len(),
                i <= n,
                forall|j: int| 0 <= j < i ==> self.entries@[j].stop.bus_stop_code@ != code@,
            decreases n - i,
        {
            if self.entries[i].stop.bus_stop_code == *code {
                return Some(i);
            }
            i = i + 1;
        }
        None
    }

    /// Looks a stop up by its code.
    pub fn lookup_stop(&self, code: &String) -> (r: Option<&StopAggregate>)
        requires
            self.wf(),
        ensures
            match r {
                Option::Some(a) => self@.contains_key(code@) && a@ == self@[code@]
                    && a.stop.bus_stop_code@ == code@ && a.svc_unique(),
                Option::None => !self@.contains_key(code@),
            },
    {
        match self.find_stop(code) {
            Some(i) => {
                proof {
                    lemma_table_index(self.entries@, i as int);
                }
                Some(&self.entries[i])
            },
            None => {
                proof {
                    lemma_table_contains(self.entries@, code@);
                }
                None
            },
        }
    }

    /// Records one fetched stop: a fresh aggregate with an empty service
    /// map, overwriting any earlier record with the same code.
    pub fn insert_stop(&mut self, s: StopRecord)
        requires
            old(self).wf(),
        ensures
            final(self).wf(),
            final(self)@ == old(self)@.insert(
                s.bus_stop_code@,
                AggView { stop: s@, services: Map::empty() },
            ),
    {
        let idx = self.find_stop(&s.bus_stop_code);
        let ghost code = s.bus_stop_code@;
        let agg = StopAggregate { stop: s, services: Vec::new() };
        proof {
            assert(agg@.services =~= Map::<Seq<char>, DetailView>::empty());
        }
        match idx {
            Some(i) => {
                proof {
                    lemma_table_update(self.entries@, i as int, agg);
                }
                self.entries.set(i, agg);
            },
            None => {
                let ghost pre = self.entries@;
                self.entries.push(agg);
                proof {
                    assert(self.entries@.drop_last() =~= pre);
                    assert(self.entries@.last() == agg);
                }
            },
        }
    }

    /// Folds one route record into the table: attaches (or overwrites) its
    /// detail under its service number at its stop; a record whose stop code
    /// is unknown is dropped silently, and no error is raised.
    pub fn insert_route(&mut self, r: RouteRecord)
        requires
            old(self).wf(),
        ensures
            final(self).wf(),
            final(self)@ == insert_route_spec(
                old(self)@,
                r.bus_stop_code@,
                r.service_no@,
                detail_view(r),
            ),
    {
        let idx = self.find_stop(&r.bus_stop_code);
        match idx {
            None => {
                proof {
                    lemma_table_contains(self.entries@, r.bus_stop_code@);
                }
            },
            Some(i) => {
                proof {
                    lemma_table_index(self.entries@, i as int);
                }
                let ghost pre = self.entries@;
                let mut agg = self.entries.remove(i);
                let RouteRecord {
                    service_no,
                    operator,
                    direction: _,
                    stop_sequence,
                    bus_stop_code: _,
                    wd_first_bus,
                    wd_last_bus,
                    sat_first_bus,
                    sat_last_bus,
                    sun_first_bus,
                    sun_last_bus,
                } = r;
                let jdx = find_service(&agg.services, &service_no);
                let entry = ServiceEntry {
                    service_no,
                    detail: RouteDetail {
                        operator,
                        stop_sequence,
                        wd_first_bus,
                        wd_last_bus,
                        sat_first_bus,
                        sat_last_bus,
                        sun_first_bus,
                        sun_last_bus,
                    },
                };
                let ghost svcpre = agg.services@;
                match jdx {
                    Some(j) => {
                        proof {
                            lemma_services_update(agg.services@, j as int, entry);
                        }
                        agg.services.set(j, entry);
                    },
                    None => {
                        agg.services.push(entry);
                        proof {
                            assert(agg.services@.drop_last() =~= svcpre);
                            assert(agg.services@.last() == entry);
                        }
                    },
                }
                proof {
                    assert(agg@.services =~= services_map(svcpre).insert(
                        entry.service_no@,
                        entry.detail@,
                    ));
                    lemma_table_update(pre, i as int, agg);
                }
                self.entries.insert(i, agg);
                proof {
                    assert(self.entries@ =~= pre.update(i as int, agg));
                }
            },
        }
    }

    /// Builds the table from all fetched stop records, in order: one entry
    /// per stop code, later records overwriting earlier ones, all service
    /// maps empty.
    pub fn from_stops(stops: Vec<StopRecord>) -> (r: StopTable)
        ensures
            r.wf(),
            r@ == stops_table_spec(stops@),
    {
        let ghost orig = stops@;
        let mut stops = stops;
        let mut r = StopTable::new();
        let ghost i: int = 0;
        while stops.len() > 0
            invariant
                r.wf(),
                0 <= i <= orig.len(),
                stops@ =~= orig.skip(i),
                r@ == stops_table_spec(orig.take(i)),
            decreases stops@.len(),
        {
            let s = stops.remove(0);
            proof {
                assert(orig.skip(i)[0] == orig[i]);
            }
            r.insert_stop(s);
            proof {
                i = i + 1;
                assert(orig.take(i).drop_last() =~= orig.take(i - 1));
                assert(orig.take(i).last() == orig[i - 1]);
                assert(stops@ =~= orig.skip(i));
            }
        }
        proof {
            assert(orig.take(i) =~= orig);
        }
        r
    }

    /// Joins every route record into the table, in upstream order: the
    /// RouteFetcher's join step.
    pub fn join_routes(&mut self, routes: Vec<RouteRecord>)
        requires
            old(self).wf(),
        ensures
            final(self).wf(),
            final(self)@ == join_spec(old(self)@, routes@),
    {
        let ghost orig = routes@;
        let mut routes = routes;
        while routes.len() > 0
            invariant
                self.wf(),
                join_spec(self@, routes@) == join_spec(old(self)@, orig),
            decreases routes@.len(),
        {
            let ghost pre_routes = routes@;
            let ghost pre_map = self@;
            let r = routes.remove(0);
            proof {
                assert(pre_routes[0] == r);
                assert(pre_routes.drop_first() =~= routes@);
            }
            self.insert_route(r);
            proof {
                assert(join_spec(pre_map, pre_routes) == join_spec(self@, routes@));
            }
        }
    }
}

/// The whole aggregation pipeline on fetched data: stops first, then every
/// route joined on, exactly as the two paged fetches hand their items over.
pub fn build_aggregate(stops: Vec<StopRecord>, routes: Vec<RouteRecord>) -> (r: StopTable)
    ensures
        r.wf(),
        r@ == join_spec(stops_table_spec(stops@), routes@),
{
    let mut r = StopTable::from_stops(stops);
    r.join_routes(routes);
    r
}

/// Builds the stop table a fetched stop listing stands for.
pub open spec fn stops_table_spec(s: Seq<StopRecord>) -> Map<Seq<char>, AggView>
    decreases s.len(),
{
    if s.len() == 0 {
        Map::empty()
    } else {
        stops_table_spec(s.drop_last()).insert(
            s.last().bus_stop_code@,
            AggView { stop: s.last()@, services: Map::empty() },
        )
    }
}

fn find_service(entries: &Vec<ServiceEntry>, service_no: &String) -> (r: Option<usize>)
    ensures
        match r {
            Option::Some(j) => j < entries@.len() && entries@[j as int].service_no@ == service_no@,
            Option::None => forall|j: int|
                0 <= j < entries@.len() ==> entries@[j].service_no@ != service_no@,
        },
{
    let n = entries.len();
    let mut i: usize = 0;
    while i < n
        invariant
            n == entries@.len(),
            i <= n,
            forall|j: int| 0 <= j < i ==> entries@[j].service_no@ != service_no@,
        decreases n - i,
    {
        if entries[i].service_no == *service_no {
            return Some(i);
        }
        i = i + 1;
    }
    None
}

} // verus!
