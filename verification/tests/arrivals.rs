use transit_fetch::arrivals::{
    arrival_snapshot, arrival_snapshot_now, estimate_slot, minutes_until_arrival,
    BusArrivalResponse, NextBus, Service,
};

fn bus(estimated_arrival: &str, feature: &str, load: &str, bus_type: &str) -> NextBus {
    NextBus {
        origin_code: "1511".to_string(),
        destination_code: "9999".to_string(),
        estimated_arrival: estimated_arrival.to_string(),
        monitored: 1,
        latitude: "1.3".to_string(),
        longitude: "103.8".to_string(),
        visit_number: "1".to_string(),
        load: load.to_string(),
        feature: feature.to_string(),
        bus_type: bus_type.to_string(),
    }
}

fn epoch_of(ts: &str) -> i64 {
    chrono::DateTime::parse_from_rfc3339(ts).unwrap().timestamp()
}

#[test]
fn minutes_floor_and_clamp_at_zero() {
    let now = 1_700_000_000i64;
    assert_eq!(minutes_until_arrival(now, now), 0);
    assert_eq!(minutes_until_arrival(now - 1, now), 0);
    assert_eq!(minutes_until_arrival(now - 86_400, now), 0);
    assert_eq!(minutes_until_arrival(now + 59, now), 0);
    assert_eq!(minutes_until_arrival(now + 60, now), 1);
    assert_eq!(minutes_until_arrival(now + 61, now), 1);
    assert_eq!(minutes_until_arrival(now + 3_600, now), 60);
}

#[test]
fn earlier_arrival_never_reports_more_minutes() {
    let now = 1_700_000_000i64;
    let mut last = 0u32;
    for offset in [-120i64, 0, 30, 60, 61, 599, 600, 7200] {
        let m = minutes_until_arrival(now + offset, now);
        assert!(m >= last);
        last = m;
    }
}

#[test]
fn arrival_exactly_now_is_zero_minutes() {
    let ts = "2024-06-01T12:00:00+08:00";
    let now = epoch_of(ts);
    let slot = Some(bus(ts, "WAB", "SEA", "DD"));
    let est = estimate_slot(&slot, now).unwrap();
    assert_eq!(est.minutes_until_arrival, 0);
}

#[test]
fn estimate_carries_type_access_and_load() {
    // Ten minutes ahead of "now", offset-aware: 12:10 +08:00 vs 12:00 +08:00.
    let now = epoch_of("2024-06-01T12:00:00+08:00");
    let slot = Some(bus("2024-06-01T12:10:00+08:00", "WAB", "SDA", "SD"));
    let est = estimate_slot(&slot, now).unwrap();
    assert_eq!(est.minutes_until_arrival, 10);
    assert_eq!(est.vehicle_type, "SD");
    assert!(est.wheelchair_accessible);
    assert_eq!(est.load_level, "SDA");

    let slot = Some(bus("2024-06-01T12:10:00+08:00", "", "LSD", "BD"));
    let est = estimate_slot(&slot, now).unwrap();
    assert!(!est.wheelchair_accessible);
}

#[test]
fn offsets_are_compared_timezone_aware() {
    // 12:00 +08:00 is 04:00 UTC; an estimate of 04:05 UTC is five minutes out.
    let now = epoch_of("2024-06-01T12:00:00+08:00");
    let slot = Some(bus("2024-06-01T04:05:00+00:00", "WAB", "SEA", "DD"));
    let est = estimate_slot(&slot, now).unwrap();
    assert_eq!(est.minutes_until_arrival, 5);
}

#[test]
fn unparseable_timestamp_skips_the_slot_only() {
    let now = epoch_of("2024-06-01T12:00:00+08:00");
    let svc = Service {
        service_no: "965".to_string(),
        operator: "SBST".to_string(),
        next_bus: Some(bus("2024-06-01T12:03:00+08:00", "WAB", "SEA", "DD")),
        next_bus2: Some(bus("not-a-timestamp", "WAB", "SEA", "DD")),
        next_bus3: Some(bus("2024-06-01T12:20:00+08:00", "WAB", "SEA", "DD")),
    };
    let resp = BusArrivalResponse { bus_stop_code: "1511".to_string(), services: vec![svc] };
    let snap = arrival_snapshot(&resp, now);
    assert_eq!(snap.entries.len(), 1);
    let e = &snap.entries[0];
    assert_eq!(e.service_no, "965");
    assert_eq!(e.next.as_ref().unwrap().minutes_until_arrival, 3);
    assert!(e.next2.is_none());
    assert_eq!(e.next3.as_ref().unwrap().minutes_until_arrival, 20);
    assert_eq!(e.skipped_slots, 1);
}

#[test]
fn absent_slots_stay_absent() {
    let now = epoch_of("2024-06-01T12:00:00+08:00");
    let svc = Service {
        service_no: "21".to_string(),
        operator: "SBST".to_string(),
        next_bus: Some(bus("2024-06-01T12:03:00+08:00", "WAB", "SEA", "DD")),
        next_bus2: None,
        next_bus3: None,
    };
    let resp = BusArrivalResponse { bus_stop_code: "1511".to_string(), services: vec![svc] };
    let snap = arrival_snapshot(&resp, now);
    let e = &snap.entries[0];
    assert!(e.next.is_some());
    // Absent upstream means absent here: no zero-filled placeholder.
    assert!(e.next2.is_none());
    assert!(e.next3.is_none());
    assert_eq!(e.skipped_slots, 0);
}

#[test]
fn snapshot_has_one_entry_per_service() {
    let now = epoch_of("2024-06-01T12:00:00+08:00");
    let mk = |no: &str| Service {
        service_no: no.to_string(),
        operator: "SMRT".to_string(),
        next_bus: None,
        next_bus2: None,
        next_bus3: None,
    };
    let resp = BusArrivalResponse {
        bus_stop_code: "1511".to_string(),
        services: vec![mk("965"), mk("21"), mk("170")],
    };
    let snap = arrival_snapshot(&resp, now);
    assert_eq!(snap.entries.len(), 3);
    assert_eq!(snap.entries[0].service_no, "965");
    assert_eq!(snap.entries[1].service_no, "21");
    assert_eq!(snap.entries[2].service_no, "170");
}

#[test]
fn snapshot_against_the_clock_counts_real_minutes() {
    let now = chrono::Utc::now().timestamp();
    let ahead = chrono::DateTime::from_timestamp(now + 600, 0).unwrap().to_rfc3339();
    let svc = Service {
        service_no: "965".to_string(),
        operator: "SBST".to_string(),
        next_bus: Some(bus(&ahead, "WAB", "SEA", "DD")),
        next_bus2: None,
        next_bus3: None,
    };
    let resp = BusArrivalResponse { bus_stop_code: "1511".to_string(), services: vec![svc] };
    let snap = arrival_snapshot_now(&resp);
    let m = snap.entries[0].next.as_ref().unwrap().minutes_until_arrival;
    // The clock may tick between the two readings.
    assert!(m == 10 || m == 9, "got {} minutes", m);
}

#[test]
fn snapshot_lookup_is_keyed_by_service_number() {
    let now = epoch_of("2024-06-01T12:00:00+08:00");
    let mk = |no: &str| Service {
        service_no: no.to_string(),
        operator: "SMRT".to_string(),
        next_bus: Some(bus("2024-06-01T12:04:00+08:00", "WAB", "SEA", "DD")),
        next_bus2: None,
        next_bus3: None,
    };
    let resp = BusArrivalResponse {
        bus_stop_code: "1511".to_string(),
        services: vec![mk("965"), mk("21")],
    };
    let snap = arrival_snapshot(&resp, now);
    let e = snap.lookup(&"21".to_string()).unwrap();
    assert_eq!(e.service_no, "21");
    assert_eq!(e.next.as_ref().unwrap().minutes_until_arrival, 4);
    assert!(snap.lookup(&"170".to_string()).is_none());
}
