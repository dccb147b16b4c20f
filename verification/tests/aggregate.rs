use transit_fetch::aggregate::{build_aggregate, RouteRecord, StopRecord, StopTable};

fn stop(code: &str, road: &str) -> StopRecord {
    StopRecord {
        bus_stop_code: code.to_string(),
        road_name: road.to_string(),
        description: format!("stop {}", code),
        latitude_micro: 1_352_083,
        longitude_micro: 103_819_836,
    }
}

fn route(service: &str, code: &str, seq: u32) -> RouteRecord {
    RouteRecord {
        service_no: service.to_string(),
        operator: "SBST".to_string(),
        direction: 1,
        stop_sequence: seq,
        bus_stop_code: code.to_string(),
        wd_first_bus: "0500".to_string(),
        wd_last_bus: "2330".to_string(),
        sat_first_bus: "0510".to_string(),
        sat_last_bus: "2340".to_string(),
        sun_first_bus: "0520".to_string(),
        sun_last_bus: "2350".to_string(),
    }
}

fn many_stops(n: u32) -> Vec<StopRecord> {
    let mut v = Vec::new();
    for i in 0..n {
        v.push(stop(&format!("{:05}", i), "Some Road"));
    }
    v
}

#[test]
fn aggregate_counts_every_unique_stop() {
    // A full page of 500 stops and a short page of 120 give 620 entries.
    let mut stops = many_stops(500);
    stops.extend((500..620).map(|i| stop(&format!("{:05}", i), "Other Road")));
    let table = StopTable::from_stops(stops);
    assert_eq!(table.stop_count(), 620);
}

#[test]
fn duplicate_stop_codes_overwrite() {
    let stops = vec![stop("1511", "Old Road"), stop("1511", "New Road")];
    let table = StopTable::from_stops(stops);
    assert_eq!(table.stop_count(), 1);
    let agg = table.lookup_stop(&"1511".to_string()).unwrap();
    assert_eq!(agg.stop.road_name, "New Road");
}

#[test]
fn route_record_lands_at_its_stop_with_its_sequence() {
    let table = build_aggregate(vec![stop("1511", "A Road")], vec![route("965", "1511", 3)]);
    let agg = table.lookup_stop(&"1511".to_string()).unwrap();
    let detail = agg.lookup_service(&"965".to_string()).unwrap();
    assert_eq!(detail.stop_sequence, 3);
    assert_eq!(detail.operator, "SBST");
    assert_eq!(detail.wd_first_bus, "0500");
}

#[test]
fn orphan_route_is_dropped_without_error() {
    let table = build_aggregate(
        vec![stop("1511", "A Road")],
        vec![route("965", "1511", 3), route("21", "9999", 5)],
    );
    // The unknown stop was not added...
    assert_eq!(table.stop_count(), 1);
    assert!(table.lookup_stop(&"9999".to_string()).is_none());
    // ...and the orphan's service appears nowhere.
    let agg = table.lookup_stop(&"1511".to_string()).unwrap();
    assert!(agg.lookup_service(&"21".to_string()).is_none());
    assert!(agg.lookup_service(&"965".to_string()).is_some());
}

#[test]
fn joining_twice_equals_joining_once() {
    let stops = vec![stop("1511", "A Road"), stop("1513", "B Road")];
    let routes = vec![
        route("965", "1511", 3),
        route("965", "1513", 4),
        route("21", "1511", 9),
        // A duplicate (stop, service) pair: the later write wins.
        route("965", "1511", 7),
    ];
    let once = build_aggregate(stops.clone(), routes.clone());
    let mut twice = build_aggregate(stops, routes.clone());
    twice.join_routes(routes);

    for code in ["1511", "1513"] {
        let a = once.lookup_stop(&code.to_string()).unwrap();
        let b = twice.lookup_stop(&code.to_string()).unwrap();
        assert_eq!(a.stop.road_name, b.stop.road_name);
        for svc in ["965", "21"] {
            let da = a.lookup_service(&svc.to_string()).map(|d| d.stop_sequence);
            let db = b.lookup_service(&svc.to_string()).map(|d| d.stop_sequence);
            assert_eq!(da, db);
        }
    }
    assert_eq!(once.stop_count(), twice.stop_count());
    // And the last write per (stop, service) pair is the one kept.
    let d = once
        .lookup_stop(&"1511".to_string())
        .unwrap()
        .lookup_service(&"965".to_string())
        .unwrap();
    assert_eq!(d.stop_sequence, 7);
}

#[test]
fn stop_service_maps_start_empty() {
    let table = StopTable::from_stops(vec![stop("1511", "A Road")]);
    let agg = table.lookup_stop(&"1511".to_string()).unwrap();
    assert!(agg.lookup_service(&"965".to_string()).is_none());
    assert_eq!(agg.services.len(), 0);
}

#[test]
fn full_stop_page_then_short_page_gives_620_entries_in_2_requests() {
    let first: Vec<StopRecord> = (0..500).map(|i| stop(&format!("{:05}", i), "Some Road")).collect();
    let second: Vec<StopRecord> =
        (500..620).map(|i| stop(&format!("{:05}", i), "Other Road")).collect();
    let (items, requests) = transit_fetch::pagination::collect_pages(vec![first, second]);
    assert_eq!(requests, 2);
    assert_eq!(items.len(), 620);
    let table = StopTable::from_stops(items);
    assert_eq!(table.stop_count(), 620);
}
