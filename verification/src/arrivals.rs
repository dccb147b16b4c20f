use vstd::prelude::*;

verus! {

/// The real-time arrival response for one stop, as decoded from the wire.
pub struct BusArrivalResponse {
    pub bus_stop_code: String,
    pub services: Vec<Service>,
}

/// One bus service at the queried stop, with up to three upcoming buses.
/// An absent slot was absent upstream.
pub struct Service {
    pub service_no: String,
    pub operator: String,
    pub next_bus: Option<NextBus>,
    pub next_bus2: Option<NextBus>,
    pub next_bus3: Option<NextBus>,
}

/// The details of a single upcoming bus as reported upstream.
pub struct NextBus {
    pub origin_code: String,
    pub destination_code: String,
    /// An RFC 3339 timestamp; a slot whose timestamp fails to parse is
    /// skipped, not fatal to the call.
    pub estimated_arrival: String,
    pub monitored: u8,
    pub latitude: String,
    pub longitude: String,
    pub visit_number: String,
    pub load: String,
    pub feature: String,
    pub bus_type: String,
}

/// The whole seconds since the Unix epoch denoted by an RFC 3339 timestamp,
/// or nothing if the text is not one. The value depends on the text alone.
pub uninterp spec fn rfc3339_epoch_seconds(s: Seq<char>) -> Option<i64>;

/// Relies on chrono's `DateTime::parse_from_rfc3339` and
/// `DateTime::timestamp`: parsing an RFC 3339 timestamp and taking its whole
/// seconds since the Unix epoch is a function of the text alone.
#[verifier::external_body]
fn parse_rfc3339_epoch_seconds(s: &str) -> (r: Option<i64>)
    ensures
        r == rfc3339_epoch_seconds(s@),
{
    match chrono::DateTime::parse_from_rfc3339(s) {
        Ok(dt) => Some(dt.timestamp()),
        Err(_) => None,
    }
}

/// Relies on chrono's `Utc::now` and `DateTime::timestamp` for the whole
/// seconds since the Unix epoch of the current instant; nothing is promised
/// of the value.
#[verifier::external_body]
fn now_epoch_seconds() -> (r: i64) {
    chrono::Utc::now().timestamp()
}

/// Whole minutes from `now` until `arrival` (both in seconds since the Unix
/// epoch): the floor of the remaining seconds over 60, zero if the arrival
/// is now or in the past, saturated at `u32::MAX` for arrivals too far out
/// to count in a 32-bit minute field.
pub open spec fn minutes_between(arrival: i64, now: i64) -> u32 {
    if arrival <= now {
        0u32
    } else {
        let m = (arrival - now) / 60;
        if m > u32::MAX {
            u32::MAX
        } else {
            m as u32
        }
    }
}

/// Computes `minutes_between` executably.
pub fn minutes_until_arrival(arrival: i64, now: i64) -> (r: u32)
    ensures
        r == minutes_between(arrival, now),
{
    if arrival <= now {
        0
    } else {
        let diff: i128 = (arrival as i128) - (now as i128);
        let du: u128 = diff as u128;
        assert(du == arrival - now);
        let m: u128 = du / 60;
        if m > (u32::MAX as u128) {
            u32::MAX
        } else {
            m as u32
        }
    }
}

/// Arrival-time monotonicity at a fixed "now": a chronologically earlier
/// estimate never yields more minutes than a later one, and any estimate at
/// or before "now" yields zero minutes.
pub proof fn lemma_minutes_monotone(a: i64, b: i64, now: i64)
    requires
        a <= b,
    ensures
        minutes_between(a, now) <= minutes_between(b, now),
        a <= now ==> minutes_between(a, now) == 0,
{
    if now < a {
        vstd::arithmetic::div_mod::lemma_div_is_ordered((a - now) as int, (b - now) as int, 60);
    }
}

/// One normalized arrival estimate handed to the presentation layer.
pub struct ArrivalEstimate {
    pub minutes_until_arrival: u32,
    pub vehicle_type: String,
    pub wheelchair_accessible: bool,
    pub load_level: String,
}

/// What a computed estimate says about the upstream slot it came from:
/// minutes against `now` from the slot's parsed timestamp `t`, the vehicle
/// type carried through, wheelchair access meaning the upstream feature code
/// `WAB`, and the load level carried through.
pub open spec fn estimate_matches(e: ArrivalEstimate, nb: NextBus, now: i64, t: i64) -> bool {
    &&& e.minutes_until_arrival == minutes_between(t, now)
    &&& e.vehicle_type@ == nb.bus_type@
    &&& e.wheelchair_accessible == (nb.feature@ == "WAB"@)
    &&& e.load_level@ == nb.load@
}

/// The per-slot policy: an absent upstream slot stays absent, a slot whose
/// timestamp does not parse is skipped (absent from the result), and any
/// other slot becomes exactly the estimate at its parsed timestamp.
pub open spec fn slot_matches(r: Option<ArrivalEstimate>, slot: Option<NextBus>, now: i64) -> bool {
    match slot {
        Option::None => r is None,
        Option::Some(nb) => match rfc3339_epoch_seconds(nb.estimated_arrival@) {
            Option::None => r is None,
            Option::Some(t) => (r matches Some(e) && estimate_matches(e, nb, now, t)),
        },
    }
}

/// 1 if the slot is present upstream but its timestamp does not parse.
pub open spec fn slot_skipped(slot: Option<NextBus>) -> int {
    match slot {
        Option::None => 0,
        Option::Some(nb) => if rfc3339_epoch_seconds(nb.estimated_arrival@) is None {
            1
        } else {
            0
        },
    }
}

/// Computes the estimate for one upstream slot against `now`.
pub fn estimate_slot(slot: &Option<NextBus>, now: i64) -> (r: Option<ArrivalEstimate>)
    ensures
        slot_matches(r, *slot, now),
{
    match slot {
        None => None,
        Some(nb) => {
            match parse_rfc3339_epoch_seconds(nb.estimated_arrival.as_str()) {
                None => None,
                Some(t) => {
                    let wab = String::from_str("WAB");
                    Some(
                        ArrivalEstimate {
                            minutes_until_arrival: minutes_until_arrival(t, now),
                            vehicle_type: nb.bus_type.clone(),
                            wheelchair_accessible: nb.feature == wab,
                            load_level: nb.load.clone(),
                        },
                    )
                },
            }
        },
    }
}

/// The arrival entry for one service: up to three estimates labeled next,
/// next2, next3, plus how many present slots were skipped for an
/// unparseable timestamp.
pub struct ServiceArrivals {
    pub service_no: String,
    pub next: Option<ArrivalEstimate>,
    pub next2: Option<ArrivalEstimate>,
    pub next3: Option<ArrivalEstimate>,
    pub skipped_slots: u32,
}

pub open spec fn service_matches(r: ServiceArrivals, s: Service, now: i64) -> bool {
    &&& r.service_no@ == s.service_no@
    &&& slot_matches(r.next, s.next_bus, now)
    &&& slot_matches(r.next2, s.next_bus2, now)
    &&& slot_matches(r.next3, s.next_bus3, now)
    &&& r.skipped_slots == slot_skipped(s.next_bus) + slot_skipped(s.next_bus2) + slot_skipped(
        s.next_bus3,
    )
}

/// Computes the arrival entry for one service against `now`.
pub fn service_arrivals(s: &Service, now: i64) -> (r: ServiceArrivals)
    ensures
        service_matches(r, *s, now),
{
    let next = estimate_slot(&s.next_bus, now);
    let next2 = estimate_slot(&s.next_bus2, now);
    let next3 = estimate_slot(&s.next_bus3, now);
    let mut skipped: u32 = 0;
    if s.next_bus.is_some() && next.is_none() {
        skipped = skipped + 1;
    }
    if s.next_bus2.is_some() && next2.is_none() {
        skipped = skipped + 1;
    }
    if s.next_bus3.is_some() && next3.is_none() {
        skipped = skipped + 1;
    }
    ServiceArrivals {
        service_no: s.service_no.clone(),
        next,
        next2,
        next3,
        skipped_slots: skipped,
    }
}

/// The whole snapshot for one stop: one entry per upstream service, in
/// upstream order. Recomputed on every call, never persisted.
pub struct ArrivalSnapshot {
    pub entries: Vec<ServiceArrivals>,
}

impl ArrivalSnapshot {
    /// Looks the entry for a service up by its number, as the keyed mapping
    /// the snapshot stands for: with duplicate service numbers (which a
    /// well-formed response does not have) the last entry wins.
    pub fn lookup(&self, service_no: &String) -> (r: Option<&ServiceArrivals>)
        ensures
            match r {
                Option::Some(e) => exists|i: int|
                    {
                        &&& 0 <= i < self.entries@.len()
                        &&& #[trigger] self.entries@[i].service_no@ == service_no@
                        &&& self.entries@[i] == *e
                        &&& forall|j: int|
                            i < j < self.entries@.len() ==> #[trigger] self.entries@[j].service_no@
                                != service_no@
                    },
                Option::None => forall|j: int|
                    0 <= j < self.entries@.len() ==> #[trigger] self.entries@[j].service_no@
                        != service_no@,
            },
    {
        let mut i: usize = self.entries.len();
        while i > 0
            invariant
                i <= self.entries@.len(),
                forall|j: int|
                    i <= j < self.entries@.len() ==> #[trigger] self.entries@[j].service_no@
                        != service_no@,
            decreases i,
        {
            i = i - 1;
            if self.entries[i].service_no == *service_no {
                return Some(&self.entries[i]);
            }
        }
        None
    }
}

pub open spec fn snapshot_matches(r: ArrivalSnapshot, resp: BusArrivalResponse, now: i64) -> bool {
    &&& r.entries@.len() == resp.services@.len()
    &&& forall|i: int|
        0 <= i < resp.services@.len() ==> service_matches(
            #[trigger] r.entries@[i],
            resp.services@[i],
            now,
        )
}

/// Computes the arrival snapshot for a decoded response against a fixed
/// "now" (seconds since the Unix epoch).
pub fn arrival_snapshot(resp: &BusArrivalResponse, now: i64) -> (r: ArrivalSnapshot)
    ensures
        snapshot_matches(r, *resp, now),
{
    let mut entries: Vec<ServiceArrivals> = Vec::new();
    let n = resp.services.len();
    let mut i: usize = 0;
    while i < n
        invariant
            n == resp.services@.len(),
            i <= n,
            entries@.len() == i,
            forall|j: int|
                0 <= j < i ==> service_matches(#[trigger] entries@[j], resp.services@[j], now),
        decreases n - i,
    {
        let e = service_arrivals(&resp.services[i], now);
        entries.push(e);
        i = i + 1;
    }
    ArrivalSnapshot { entries }
}

/// Computes the snapshot against the current clock, as the whole arrival
/// fetch does: whatever instant the clock read, the result is exactly the
/// snapshot at that instant.
pub fn arrival_snapshot_now(resp: &BusArrivalResponse) -> (r: ArrivalSnapshot)
    ensures
        exists|now: i64| #[trigger] snapshot_matches(r, *resp, now),
{
    let now = now_epoch_seconds();
    arrival_snapshot(resp, now)
}

/// Missing-slot law: a slot that is absent upstream is absent from the
/// snapshot entry for that service — never present with a null or zero
/// value.
pub proof fn lemma_missing_slot_absent(r: ServiceArrivals, s: Service, now: i64)
    requires
        service_matches(r, s, now),
    ensures
        s.next_bus is None ==> r.next is None,
        s.next_bus2 is None ==> r.next2 is None,
        s.next_bus3 is None ==> r.next3 is None,
{
}

} // verus!
