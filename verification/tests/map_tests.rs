use pmj::map::{GameMap, Location};

#[test]
fn location_names_and_labels() {
    assert_eq!(Location::RostovOnDon.name(), "Rostov-On-Don");
    assert_eq!(Location::GroznyAkhmatBase.name(), "Grozny");
    assert_eq!(Location::BugaevkaBorderPoint.name(), "Bugaevka B.P.");
    assert_eq!(Location::OkaRiver.name(), "Oka River");
    assert_eq!(Location::Moscow.short(), "MOS");
    assert_eq!(Location::OkaRiver.short(), "OKA");
    assert_eq!(Location::Tambov.short(), "TAM");
}

#[test]
fn all_locations_south_to_north() {
    let all = Location::all();
    assert_eq!(all.len(), 13);
    assert_eq!(all[0], Location::GroznyAkhmatBase);
    assert_eq!(all[1], Location::RostovOnDon);
    assert_eq!(all[9], Location::Kaluga);
    assert_eq!(all[12], Location::Moscow);
    for i in 0..13 {
        for j in 0..13 {
            if i != j {
                assert_ne!(all[i], all[j]);
            }
        }
    }
}

#[test]
fn m4_route_locations() {
    let on: Vec<Location> = Location::all().iter().copied().filter(|l| l.on_m4()).collect();
    assert_eq!(on.len(), 7);
    assert!(Location::RostovOnDon.on_m4());
    assert!(Location::Tula.on_m4());
    assert!(!Location::Kaluga.on_m4());
    assert!(!Location::Rublevo.on_m4());
}

#[test]
fn map_positions() {
    assert_eq!(Location::Moscow.map_pos(), (39, 0));
    assert_eq!(Location::Rublevo.map_pos(), (19, 3));
    assert_eq!(Location::GroznyAkhmatBase.map_pos(), (52, 43));
    assert_eq!(Location::RostovOnDon.map_pos(), (25, 42));
    assert_eq!(Location::OkaRiver.map_pos(), (43, 7));
    assert_eq!(Location::Tula.map_pos(), (33, 14));
}

#[test]
fn index_round_trip() {
    for i in 0..13usize {
        assert_eq!(Location::from_index(i).index(), i);
    }
    assert_eq!(Location::RostovOnDon.index(), 0);
    assert_eq!(Location::Moscow.index(), 12);
}

#[test]
fn rostov_neighbours() {
    let m = GameMap::new();
    let n = m.neighbors(Location::RostovOnDon);
    assert_eq!(n.len(), 2);
    assert_eq!(n[0].0, Location::GroznyAkhmatBase);
    assert!(n[0].1.river && !n[0].1.m4);
    assert_eq!(n[1].0, Location::BugaevkaBorderPoint);
    assert!(n[1].1.river && n[1].1.m4);
}

#[test]
fn kaluga_neighbours_in_insertion_order() {
    let m = GameMap::new();
    let n: Vec<Location> = m.neighbors(Location::Kaluga).iter().map(|p| p.0).collect();
    assert_eq!(
        n,
        vec![Location::Orel, Location::Tula, Location::OkaRiver, Location::Moscow, Location::Rublevo]
    );
}

#[test]
fn edges_are_symmetric() {
    let m = GameMap::new();
    for &a in Location::all() {
        for &b in Location::all() {
            let ab = m.edge(a, b);
            let ba = m.edge(b, a);
            assert_eq!(ab.is_some(), ba.is_some());
            if let (Some(x), Some(y)) = (ab, ba) {
                assert_eq!(x.river, y.river);
                assert_eq!(x.m4, y.m4);
            }
            assert_eq!(m.connected(a, b), m.connected(b, a));
        }
    }
}

#[test]
fn connections() {
    let m = GameMap::new();
    assert!(m.connected(Location::RostovOnDon, Location::BugaevkaBorderPoint));
    assert!(m.connected(Location::Rublevo, Location::Moscow));
    assert!(!m.connected(Location::RostovOnDon, Location::Moscow));
    assert!(!m.connected(Location::Moscow, Location::Moscow));
    let e = m.edge(Location::Tula, Location::OkaRiver).unwrap();
    assert!(e.river && e.m4);
    assert!(m.edge(Location::Orel, Location::Tambov).is_none());
}

#[test]
fn all_edges_lists_each_connection_once() {
    let m = GameMap::new();
    let edges = m.all_edges();
    assert_eq!(edges.len(), 22);
    for (k, &(a, b, p)) in edges.iter().enumerate() {
        let e = m.edge(a, b).unwrap();
        assert_eq!(e.river, p.river);
        assert_eq!(e.m4, p.m4);
        for &(c, d, _) in edges.iter().skip(k + 1) {
            assert!(!((a == c && b == d) || (a == d && b == c)));
        }
    }
}

#[test]
fn line_of_communication() {
    let m = GameMap::new();
    assert!(m.can_trace_loc(&[Location::Moscow], &[]));
    assert!(m.can_trace_loc(&[Location::Moscow, Location::RostovOnDon], &[Location::Kaluga]));
    assert!(!m.can_trace_loc(&[Location::Moscow], &[Location::Tula]));
    assert!(!m.can_trace_loc(&[Location::Tula], &[]));
    assert!(!m.can_trace_loc(&[Location::Moscow], &[Location::RostovOnDon]));
}

#[test]
fn route_and_hops_to_moscow() {
    let m = GameMap::new();
    assert_eq!(
        m.route(Location::RostovOnDon, Location::Moscow),
        vec![
            Location::RostovOnDon,
            Location::BugaevkaBorderPoint,
            Location::Voronezh,
            Location::Orel,
            Location::Kaluga,
            Location::Moscow
        ]
    );
    assert_eq!(m.hop_distance(Location::RostovOnDon, Location::Moscow), 5);
    assert_eq!(m.hop_distance(Location::Moscow, Location::Moscow), 0);
    assert_eq!(m.hop_distance(Location::Orel, Location::Moscow), 2);
    assert_eq!(m.route(Location::Moscow, Location::Moscow), vec![Location::Moscow]);
    assert_eq!(m.route(Location::Tula, Location::Moscow), vec![Location::Tula, Location::Kaluga, Location::Moscow]);
}

#[test]
fn hop_distance_is_symmetric_and_routes_are_that_long() {
    let m = GameMap::new();
    for &a in Location::all() {
        for &b in Location::all() {
            let d = m.hop_distance(a, b);
            assert_eq!(d, m.hop_distance(b, a));
            let r = m.route(a, b);
            assert_eq!(r.len(), d + 1);
            assert_eq!(r[0], a);
            assert_eq!(*r.last().unwrap(), b);
            for w in r.windows(2) {
                assert!(m.connected(w[0], w[1]));
            }
        }
    }
}

#[test]
fn m4_neighbours_are_seven_rows_apart() {
    let g = GameMap::new();
    for a in Location::all() {
        for b in Location::all() {
            if let Some(p) = g.edge(*a, *b) {
                if p.m4 {
                    let (_, ay) = a.map_pos();
                    let (_, by) = b.map_pos();
                    assert!((ay as i32 - by as i32).abs() >= 7);
                }
            }
        }
    }
}
