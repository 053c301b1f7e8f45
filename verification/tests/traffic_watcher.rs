use rita::identity::{Identity, MeshIp, WgKey};
use rita::table::Table;
use rita::traffic_watcher::{
    bill, client_table, counters_logging, generate_helper_maps, get_babel_info, local_fee_or_default, settle,
    traffic_update, update_usage_history, watch, BabelInfo, LocalFee, Prefix, Route,
    TrafficWatcher, UpdateUsage, Watch,
    UsageType, WatchError, WgUsage,
};

fn key(n: u128) -> WgKey {
    WgKey { hi: 7, lo: n }
}

fn ip(n: u128) -> MeshIp {
    MeshIp::V6((0xfd00u128 << 112) | n)
}

fn id(n: u128) -> Identity {
    Identity {
        mesh_ip: ip(n),
        eth_address: clarity::Address::default(),
        wg_public_key: key(n),
    }
}

fn usage(upload: u64, download: u64) -> WgUsage {
    WgUsage { upload, download }
}

fn usages(entries: &[(u128, u64, u64)]) -> Table<WgKey, WgUsage> {
    let mut table = Table::new();
    for &(n, upload, download) in entries {
        table.insert(key(n), usage(upload, download));
    }
    table
}

fn ids(entries: &[u128]) -> Table<WgKey, Identity> {
    let mut table = Table::new();
    for &n in entries {
        table.insert(key(n), id(n));
    }
    table
}

fn prices(entries: &[(u128, u32)]) -> Table<WgKey, u32> {
    let mut table = Table::new();
    for &(n, price) in entries {
        table.insert(key(n), price);
    }
    table
}

fn host_route(n: u128, price: u32) -> Route {
    Route {
        prefix: Prefix::V6 {
            addr: (0xfd00u128 << 112) | n,
            len: 128,
        },
        price,
        installed: true,
    }
}

#[test]
fn billing_arithmetic() {
    let mut history = usages(&[(1, 100, 200)]);
    let debts = bill(
        &mut history,
        &ids(&[1]),
        &prices(&[(1, 5)]),
        &usages(&[(1, 150, 250)]),
        10,
    );
    assert_eq!(debts.get(&key(1)), Some(&-1250));
    assert_eq!(history.get(&key(1)), Some(&usage(150, 250)));
}

#[test]
fn counter_reset() {
    let mut history = usages(&[(1, 0, 500)]);
    let identities = ids(&[1]);
    let destinations = prices(&[(1, 5)]);
    let debts = bill(
        &mut history,
        &identities,
        &destinations,
        &usages(&[(1, 0, 100)]),
        10,
    );
    assert_eq!(debts.get(&key(1)), Some(&0));
    assert_eq!(history.get(&key(1)), Some(&usage(0, 0)));
    let debts = bill(
        &mut history,
        &identities,
        &destinations,
        &usages(&[(1, 0, 30)]),
        10,
    );
    assert_eq!(debts.get(&key(1)), Some(&-300));
    assert_eq!(history.get(&key(1)), Some(&usage(0, 30)));
}

#[test]
fn upload_reset_leaves_download_alone() {
    let mut history = usages(&[(1, 900, 200)]);
    let debts = bill(
        &mut history,
        &ids(&[1]),
        &prices(&[(1, 5)]),
        &usages(&[(1, 40, 260)]),
        10,
    );
    assert_eq!(debts.get(&key(1)), Some(&-600));
    assert_eq!(history.get(&key(1)), Some(&usage(0, 260)));
}

#[test]
fn asymmetric_billing() {
    let mut history = usages(&[(1, 100, 200)]);
    let identities = ids(&[1]);
    let nowhere = prices(&[]);
    let debts = bill(
        &mut history,
        &identities,
        &nowhere,
        &usages(&[(1, 5000, 250)]),
        10,
    );
    assert_eq!(debts.get(&key(1)), Some(&-500));
    assert_eq!(history.get(&key(1)), Some(&usage(100, 250)));
    let debts = bill(
        &mut history,
        &identities,
        &nowhere,
        &usages(&[(1, 9000, 251)]),
        10,
    );
    assert_eq!(debts.get(&key(1)), Some(&-10));
    assert_eq!(history.get(&key(1)), Some(&usage(100, 251)));
}

#[test]
fn first_sight_baseline() {
    let mut history = usages(&[]);
    let debts = bill(
        &mut history,
        &ids(&[1]),
        &prices(&[(1, 5)]),
        &usages(&[(1, 150, 250), (2, 7, 8)]),
        10,
    );
    assert_eq!(debts.len(), 1);
    assert_eq!(debts.get(&key(1)), Some(&0));
    assert_eq!(history.len(), 2);
    assert_eq!(history.get(&key(1)), Some(&usage(150, 250)));
    assert_eq!(history.get(&key(2)), Some(&usage(7, 8)));
}

#[test]
fn unknown_tunnel_is_not_billed() {
    let mut history = usages(&[(2, 10, 10), (3, 1, 1)]);
    let debts = bill(
        &mut history,
        &ids(&[1]),
        &prices(&[(2, 5)]),
        &usages(&[(2, 50, 60)]),
        10,
    );
    assert_eq!(debts.len(), 1);
    assert_eq!(debts.get(&key(1)), Some(&0));
    assert_eq!(debts.get(&key(2)), None);
    // nothing billed, so the history waits
    assert_eq!(history.get(&key(2)), Some(&usage(10, 10)));
    assert_eq!(history.get(&key(3)), Some(&usage(1, 1)));
}

#[test]
fn peers_are_billed_apart() {
    let mut history = usages(&[(1, 100, 200), (2, 0, 0)]);
    let debts = bill(
        &mut history,
        &ids(&[1, 2, 3]),
        &prices(&[(1, 5), (2, 1)]),
        &usages(&[(2, 1000, 2000), (1, 150, 250)]),
        10,
    );
    assert_eq!(debts.get(&key(1)), Some(&-1250));
    assert_eq!(debts.get(&key(2)), Some(&-31000));
    assert_eq!(debts.get(&key(3)), Some(&0));
}

#[test]
fn largest_debt_fits() {
    let mut history = usages(&[(1, 0, 0)]);
    let debts = bill(
        &mut history,
        &ids(&[1]),
        &prices(&[(1, u32::MAX)]),
        &usages(&[(1, u64::MAX, u64::MAX)]),
        u32::MAX,
    );
    let price = i128::from(u32::MAX);
    let bytes = i128::from(u64::MAX);
    assert_eq!(debts.get(&key(1)), Some(&-(price * bytes + 2 * price * bytes)));
    assert_eq!(history.get(&key(1)), Some(&usage(u64::MAX, u64::MAX)));
}

#[test]
fn settle_one_direction() {
    assert_eq!(settle(200, 250, true), (250, 50));
    assert_eq!(settle(200, 250, false), (200, 0));
    assert_eq!(settle(200, 200, true), (200, 0));
    assert_eq!(settle(500, 100, true), (0, 0));
    assert_eq!(settle(500, 100, false), (0, 0));
    assert_eq!(settle(0, 30, true), (30, 30));
}

#[test]
fn update_usage_history_takes_counters_in() {
    let mut history = usages(&[(1, 100, 200), (2, 100, 200), (3, 5, 5)]);
    update_usage_history(
        &usages(&[(1, 150, 250), (2, 50, 20), (4, 9, 8)]),
        &mut history,
    );
    assert_eq!(history.len(), 4);
    assert_eq!(history.get(&key(1)), Some(&usage(100, 200)));
    assert_eq!(history.get(&key(2)), Some(&usage(0, 0)));
    assert_eq!(history.get(&key(3)), Some(&usage(5, 5)));
    assert_eq!(history.get(&key(4)), Some(&usage(9, 8)));
}

#[test]
fn local_fee_falls_back_to_configured() {
    assert_eq!(
        local_fee_or_default(Some(12), 40),
        LocalFee {
            fee: 12,
            push: false
        }
    );
    assert_eq!(
        local_fee_or_default(Some(0), 40),
        LocalFee {
            fee: 0,
            push: false
        }
    );
    assert_eq!(
        local_fee_or_default(None, 40),
        LocalFee {
            fee: 40,
            push: true
        }
    );
}

#[test]
fn helper_maps_hold_clients_and_self() {
    let mut renamed = id(1);
    renamed.mesh_ip = ip(11);
    let (identities, id_from_ip) = generate_helper_maps(&id(9), ip(9), &vec![id(1), id(2), renamed]);
    // this node first, then the clients
    assert_eq!(identities.len(), 3);
    assert_eq!(identities.key_at(0), key(9));
    assert_eq!(identities.key_at(1), key(1));
    assert_eq!(identities.key_at(2), key(2));
    assert_eq!(identities.get(&key(9)).unwrap().mesh_ip, ip(9));
    // the later client of one key stands
    assert_eq!(identities.get(&key(1)).unwrap().mesh_ip, ip(11));
    assert_eq!(id_from_ip.len(), 4);
    assert_eq!(id_from_ip.get(&ip(9)).unwrap().wg_public_key, key(9));
    assert_eq!(id_from_ip.get(&ip(1)).unwrap().wg_public_key, key(1));
    assert_eq!(id_from_ip.get(&ip(11)).unwrap().wg_public_key, key(1));
    assert_eq!(id_from_ip.get(&ip(2)).unwrap().wg_public_key, key(2));
}

#[test]
fn destinations_are_capped_host_routes_of_known_identities() {
    let (_, id_from_ip) = generate_helper_maps(&id(9), ip(9), &vec![id(1), id(2), id(3), id(4)]);
    let mut routes = vec![
        host_route(1, 50),
        host_route(2, 500),
        host_route(7, 5),
        Route {
            installed: false,
            ..host_route(3, 5)
        },
        Route {
            prefix: Prefix::V6 {
                addr: (0xfd00u128 << 112) | 4,
                len: 64,
            },
            price: 5,
            installed: true,
        },
        Route {
            prefix: Prefix::V4 {
                addr: 0x0a00_0001,
                len: 32,
            },
            price: 5,
            installed: true,
        },
    ];
    let destinations = get_babel_info(&routes, id(9), &id_from_ip, 33, 100);
    assert_eq!(destinations.len(), 3);
    assert_eq!(destinations.get(&key(9)), Some(&33));
    assert_eq!(destinations.get(&key(1)), Some(&50));
    assert_eq!(destinations.get(&key(2)), Some(&100));
    assert_eq!(destinations.get(&key(3)), None);
    assert_eq!(destinations.get(&key(4)), None);
    assert_eq!(destinations.get(&key(7)), None);
    // a later route to the same destination stands
    routes.push(host_route(1, 60));
    routes.push(host_route(9, 1));
    let destinations = get_babel_info(&routes, id(9), &id_from_ip, 33, 100);
    assert_eq!(destinations.get(&key(1)), Some(&60));
    assert_eq!(destinations.get(&key(9)), Some(&1));
}

#[test]
fn counters_are_summed_for_the_usage_tracker() {
    let update = counters_logging(&usages(&[(1, 150, 250), (2, 1, 2), (3, 0, 0)]), 10);
    assert_eq!(
        update,
        UpdateUsage {
            kind: UsageType::Exit,
            up: 151,
            down: 252,
            price: 10
        }
    );
    let update = counters_logging(&usages(&[(1, u64::MAX, 1), (2, u64::MAX, u64::MAX)]), 0);
    assert_eq!(update.up, 2 * u128::from(u64::MAX));
    assert_eq!(update.down, u128::from(u64::MAX) + 1);
    assert_eq!(counters_logging(&usages(&[]), 3).up, 0);
}

#[test]
fn only_debts_that_are_not_zero_are_handed_on() {
    let mut debts: Table<WgKey, i128> = Table::new();
    debts.insert(key(1), 0);
    debts.insert(key(3), -7);
    debts.insert(key(2), -1250);
    let traffic = traffic_update(&ids(&[1, 2, 3, 4]), &debts);
    assert_eq!(traffic.len(), 2);
    assert_eq!(traffic[0].from.wg_public_key, key(2));
    assert_eq!(traffic[0].amount, -1250);
    assert_eq!(traffic[1].from.wg_public_key, key(3));
    assert_eq!(traffic[1].amount, -7);
}

#[test]
fn watch_bills_a_tick() {
    let mut history = usages(&[(1, 100, 200), (2, 100, 200)]);
    let billing = watch(
        &mut history,
        Some(id(9)),
        ip(9),
        &vec![id(1), id(2), id(3)],
        Some(BabelInfo {
            local_fee: 10,
            routes: vec![host_route(1, 5), host_route(3, 8)],
        }),
        1000,
        Some(usages(&[(1, 150, 250), (2, 150, 250), (3, 1, 1), (5, 4, 4)])),
    )
    .unwrap();
    assert_eq!(
        billing.usage,
        UpdateUsage {
            kind: UsageType::Exit,
            up: 305,
            down: 505,
            price: 10
        }
    );
    assert_eq!(billing.traffic.len(), 2);
    assert_eq!(billing.traffic[0].from.wg_public_key, key(1));
    assert_eq!(billing.traffic[0].amount, -1250);
    assert_eq!(billing.traffic[1].from.wg_public_key, key(2));
    assert_eq!(billing.traffic[1].amount, -500);
    assert_eq!(history.get(&key(1)), Some(&usage(150, 250)));
    assert_eq!(history.get(&key(2)), Some(&usage(100, 250)));
    assert_eq!(history.get(&key(3)), Some(&usage(1, 1)));
    assert_eq!(history.get(&key(5)), Some(&usage(4, 4)));
}

#[test]
fn watch_caps_the_price_of_a_route() {
    let mut history = usages(&[(1, 0, 0)]);
    let billing = watch(
        &mut history,
        Some(id(9)),
        ip(9),
        &vec![id(1)],
        Some(BabelInfo {
            local_fee: 1,
            routes: vec![host_route(1, 5000)],
        }),
        9,
        Some(usages(&[(1, 10, 0)])),
    )
    .unwrap();
    assert_eq!(billing.traffic.len(), 1);
    assert_eq!(billing.traffic[0].amount, -100);
}

#[test]
fn watch_fails_as_a_whole() {
    let info = || {
        Some(BabelInfo {
            local_fee: 10,
            routes: vec![host_route(1, 5)],
        })
    };
    let mut history = usages(&[(1, 100, 200)]);
    let r = watch(
        &mut history,
        None,
        ip(9),
        &vec![id(1)],
        info(),
        1000,
        Some(usages(&[(1, 150, 250)])),
    );
    assert_eq!(r.err(), Some(WatchError::IdentityNotReady));
    let r = watch(&mut history, None, ip(9), &vec![id(1)], None, 1000, None);
    assert_eq!(r.err(), Some(WatchError::IdentityNotReady));
    let r = watch(
        &mut history,
        Some(id(9)),
        ip(9),
        &vec![id(1)],
        None,
        1000,
        Some(usages(&[(1, 150, 250)])),
    );
    assert_eq!(r.err(), Some(WatchError::RoutingSession));
    let r = watch(
        &mut history,
        Some(id(9)),
        ip(9),
        &vec![id(1)],
        info(),
        1000,
        None,
    );
    assert_eq!(r.err(), Some(WatchError::CounterRead));
    assert_eq!(history.len(), 1);
    assert_eq!(history.get(&key(1)), Some(&usage(100, 200)));
}

#[test]
fn watcher_keeps_history_between_ticks() {
    let mut watcher = TrafficWatcher::default();
    assert_eq!(watcher.last_seen(&key(1)), None);
    let clients = Watch(vec![id(1)]);
    let info = || {
        Some(BabelInfo {
            local_fee: 10,
            routes: vec![host_route(1, 5)],
        })
    };
    let first = watcher
        .on_billing_tick(
            &clients,
            Some(id(9)),
            ip(9),
            info(),
            1000,
            Some(usages(&[(1, 100, 200)])),
        )
        .unwrap();
    assert!(first.traffic.is_empty());
    assert_eq!(watcher.last_seen(&key(1)), Some(usage(100, 200)));
    let second = watcher
        .on_billing_tick(
            &clients,
            Some(id(9)),
            ip(9),
            info(),
            1000,
            Some(usages(&[(1, 150, 250)])),
        )
        .unwrap();
    assert_eq!(second.traffic.len(), 1);
    assert_eq!(second.traffic[0].amount, -1250);
    assert_eq!(watcher.last_seen(&key(1)), Some(usage(150, 250)));
    let failed = watcher
        .on_billing_tick(&clients, Some(id(9)), ip(9), info(), 1000, None);
    assert_eq!(failed.err(), Some(WatchError::CounterRead));
    assert_eq!(watcher.last_seen(&key(1)), Some(usage(150, 250)));
    let third = TrafficWatcher::new()
        .on_billing_tick(&clients, None, ip(9), None, 0, None);
    assert_eq!(third.err(), Some(WatchError::IdentityNotReady));
}

#[test]
fn helper_maps_without_clients_hold_this_node() {
    let (identities, id_from_ip) = generate_helper_maps(&id(9), ip(9), &Vec::new());
    assert_eq!(identities.len(), 1);
    assert_eq!(identities.get(&key(9)).unwrap().wg_public_key, key(9));
    assert_eq!(id_from_ip.len(), 1);
    assert_eq!(id_from_ip.get(&ip(9)).unwrap().wg_public_key, key(9));
}

#[test]
fn a_client_with_this_nodes_key_stands_for_it() {
    let mut twin = id(9);
    twin.mesh_ip = ip(42);
    let (identities, id_from_ip) = generate_helper_maps(&id(9), ip(9), &vec![id(1), twin]);
    assert_eq!(identities.len(), 2);
    assert_eq!(identities.key_at(0), key(9));
    assert_eq!(identities.get(&key(9)).unwrap().mesh_ip, ip(42));
    assert_eq!(id_from_ip.get(&ip(9)).unwrap().mesh_ip, ip(9));
    assert_eq!(id_from_ip.get(&ip(42)).unwrap().wg_public_key, key(9));
}

#[test]
fn client_table_holds_the_clients_alone() {
    let mut renamed = id(1);
    renamed.mesh_ip = ip(11);
    let clients = client_table(&vec![id(1), id(2), renamed]);
    assert_eq!(clients.len(), 2);
    assert_eq!(clients.key_at(0), key(1));
    assert_eq!(clients.key_at(1), key(2));
    assert_eq!(clients.get(&key(1)).unwrap().mesh_ip, ip(11));
    assert_eq!(client_table(&Vec::new()).len(), 0);
}

#[test]
fn this_node_is_billed_but_its_debt_is_not_handed_on() {
    let mut history = usages(&[(9, 0, 0), (1, 0, 0)]);
    let billing = watch(
        &mut history,
        Some(id(9)),
        ip(9),
        &vec![id(1)],
        Some(BabelInfo {
            local_fee: 10,
            routes: vec![host_route(1, 5)],
        }),
        1000,
        Some(usages(&[(9, 70, 80), (1, 1, 1)])),
    )
    .unwrap();
    // the history of this node's own tunnel moves on like any other
    assert_eq!(history.get(&key(9)), Some(&usage(70, 80)));
    assert_eq!(billing.traffic.len(), 1);
    assert_eq!(billing.traffic[0].from.wg_public_key, key(1));
    assert_eq!(billing.traffic[0].amount, -25);
    // with no clients nothing is handed on at all
    let billing = watch(
        &mut history,
        Some(id(9)),
        ip(9),
        &Vec::new(),
        Some(BabelInfo {
            local_fee: 10,
            routes: Vec::new(),
        }),
        1000,
        Some(usages(&[(9, 170, 180)])),
    )
    .unwrap();
    assert!(billing.traffic.is_empty());
    assert_eq!(history.get(&key(9)), Some(&usage(170, 180)));
}
