//! Traffic watcher turns the byte counters of the per-client tunnels into
//! bills. On every tick it holds the counters against what it saw last,
//! prices the difference with this node's own price and the price of the
//! route to the client, and hands the resulting debts on.

use crate::identity::{Identity, MeshIp, WgKey};
use crate::table::{has_key, lemma_has_key_take, place_of, put, Table};
use vstd::prelude::*;

verus! {

/// The bytes that went through one tunnel since it came up.
#[derive(Debug, Clone, Copy, PartialEq, Eq, Structural)]
pub struct WgUsage {
    pub upload: u64,
    pub download: u64,
}

/// The destination of a route: an address and the length of its prefix.
#[derive(Debug, Clone, Copy, PartialEq, Eq, Structural)]
#[allow(inconsistent_fields)]
pub enum Prefix {
    V4 { addr: u32, len: u8 },
    V6 { addr: u128, len: u8 },
}

/// One route of the routing table, as far as billing reads it.
#[derive(Debug, Clone, Copy, PartialEq, Eq, Structural)]
pub struct Route {
    pub prefix: Prefix,
    pub price: u32,
    pub installed: bool,
}

/// The price that this node asks, and whether the routing service has still
/// to be told of it.
#[derive(Debug, Clone, Copy, PartialEq, Eq, Structural)]
pub struct LocalFee {
    pub fee: u32,
    pub push: bool,
}

/// Takes the price that the routing service announces. Where it announces
/// none, the configured price is used and is to be pushed to the service.
pub fn local_fee_or_default(announced: Option<u32>, configured_fee: u32) -> (r: LocalFee)
    ensures
        r == (match announced {
            Some(fee) => LocalFee { fee, push: false },
            None => LocalFee { fee: configured_fee, push: true },
        }),
{
    match announced {
        Some(fee) => LocalFee { fee, push: false },
        None => LocalFee { fee: configured_fee, push: true },
    }
}

/// This node and the clients by tunnel key; of two with one key the later
/// one stands, and a client before this node.
pub open spec fn identities_by_key(our_id: Identity, clients: Seq<Identity>) -> Map<
    WgKey,
    Identity,
>
    decreases clients.len(),
{
    if clients.len() == 0 {
        Map::<WgKey, Identity>::empty().insert(our_id.wg_public_key, our_id)
    } else {
        identities_by_key(our_id, clients.drop_last()).insert(
            clients.last().wg_public_key,
            clients.last(),
        )
    }
}

/// This node and the clients in the order in which their tunnel keys first
/// come, this node's key first, each key with the last identity that has it.
pub open spec fn identity_entries(our_id: Identity, clients: Seq<Identity>) -> Seq<
    (WgKey, Identity),
>
    decreases clients.len(),
{
    if clients.len() == 0 {
        seq![(our_id.wg_public_key, our_id)]
    } else {
        put(
            identity_entries(our_id, clients.drop_last()),
            clients.last().wg_public_key,
            clients.last(),
        )
    }
}

/// The clients in the order in which their tunnel keys first come, each key
/// with the last client that has it.
pub open spec fn client_entries(clients: Seq<Identity>) -> Seq<(WgKey, Identity)>
    decreases clients.len(),
{
    if clients.len() == 0 {
        Seq::empty()
    } else {
        put(client_entries(clients.drop_last()), clients.last().wg_public_key, clients.last())
    }
}

/// This node and the clients by mesh address; of two with one address the
/// later one stands, and a client before this node.
pub open spec fn identities_by_ip(
    our_ip: MeshIp,
    our_id: Identity,
    clients: Seq<Identity>,
) -> Map<MeshIp, Identity>
    decreases clients.len(),
{
    if clients.len() == 0 {
        Map::<MeshIp, Identity>::empty().insert(our_ip, our_id)
    } else {
        identities_by_ip(our_ip, our_id, clients.drop_last()).insert(
            clients.last().mesh_ip,
            clients.last(),
        )
    }
}

/// Builds the two tables that identities are looked up in, by tunnel key
/// and by mesh address. Both hold this node and the clients.
pub fn generate_helper_maps(our_id: &Identity, our_ip: MeshIp, clients: &Vec<Identity>) -> (r: (
    Table<WgKey, Identity>,
    Table<MeshIp, Identity>,
))
    ensures
        r.0.wf(),
        r.1.wf(),
        r.0@ == identities_by_key(*our_id, clients@),
        r.0.entries() == identity_entries(*our_id, clients@),
        r.1@ == identities_by_ip(our_ip, *our_id, clients@),
{
    let mut identities: Table<WgKey, Identity> = Table::new();
    let mut id_from_ip: Table<MeshIp, Identity> = Table::new();
    identities.insert(our_id.wg_public_key, *our_id);
    id_from_ip.insert(our_ip, *our_id);
    assert(identities.entries() == seq![(our_id.wg_public_key, *our_id)]);
    let mut i: usize = 0;
    while i < clients.len()
        invariant
            i <= clients.len(),
            identities.wf(),
            id_from_ip.wf(),
            identities@ == identities_by_key(*our_id, clients@.take(i as int)),
            identities.entries() == identity_entries(*our_id, clients@.take(i as int)),
            id_from_ip@ == identities_by_ip(our_ip, *our_id, clients@.take(i as int)),
        decreases clients.len() - i,
    {
        let ident = clients[i];
        assert(clients@.take(i + 1).drop_last() == clients@.take(i as int));
        identities.insert(ident.wg_public_key, ident);
        id_from_ip.insert(ident.mesh_ip, ident);
        i += 1;
    }
    assert(clients@.take(clients@.len() as int) == clients@);
    (identities, id_from_ip)
}

/// Builds the table of the clients alone, by tunnel key: the identities
/// whose debts are handed on.
pub fn client_table(clients: &Vec<Identity>) -> (table: Table<WgKey, Identity>)
    ensures
        table.wf(),
        table.entries() == client_entries(clients@),
{
    let mut table: Table<WgKey, Identity> = Table::new();
    let mut i: usize = 0;
    while i < clients.len()
        invariant
            i <= clients.len(),
            table.wf(),
            table.entries() == client_entries(clients@.take(i as int)),
        decreases clients.len() - i,
    {
        let ident = clients[i];
        assert(clients@.take(i + 1).drop_last() == clients@.take(i as int));
        table.insert(ident.wg_public_key, ident);
        i += 1;
    }
    assert(clients@.take(clients@.len() as int) == clients@);
    table
}

/// The lesser of a route's price and the highest price that is paid.
pub open spec fn capped(price: u32, max_fee: u32) -> u32 {
    if price > max_fee {
        max_fee
    } else {
        price
    }
}

/// The key that a route leads to: an installed route to one IPv6 host whose
/// address is that of a known identity leads to that identity's key.
pub open spec fn route_destination(route: Route, id_from_ip: Map<MeshIp, Identity>) -> Option<
    WgKey,
> {
    match route.prefix {
        Prefix::V6 { addr, len } => if len == 128 && route.installed && id_from_ip.contains_key(
            MeshIp::V6(addr),
        ) {
            Some(id_from_ip[MeshIp::V6(addr)].wg_public_key)
        } else {
            None
        },
        Prefix::V4 { .. } => None,
    }
}

/// The prices by destination: this node's own key at its own price, then
/// every route that leads to a known identity at its capped price, a later
/// route before an earlier one.
pub open spec fn destination_prices(
    routes: Seq<Route>,
    our_key: WgKey,
    id_from_ip: Map<MeshIp, Identity>,
    local_fee: u32,
    max_fee: u32,
) -> Map<WgKey, u32>
    decreases routes.len(),
{
    if routes.len() == 0 {
        Map::<WgKey, u32>::empty().insert(our_key, local_fee)
    } else {
        let before = destination_prices(
            routes.drop_last(),
            our_key,
            id_from_ip,
            local_fee,
            max_fee,
        );
        match route_destination(routes.last(), id_from_ip) {
            Some(key) => before.insert(key, capped(routes.last().price, max_fee)),
            None => before,
        }
    }
}

/// Reads the prices of the known destinations off the routing table.
pub fn get_babel_info(
    routes: &Vec<Route>,
    our_id: Identity,
    id_from_ip: &Table<MeshIp, Identity>,
    local_fee: u32,
    max_fee: u32,
) -> (destinations: Table<WgKey, u32>)
    requires
        id_from_ip.wf(),
    ensures
        destinations.wf(),
        destinations@ == destination_prices(
            routes@,
            our_id.wg_public_key,
            id_from_ip@,
            local_fee,
            max_fee,
        ),
{
    // insert ourselves as a destination
    let mut destinations: Table<WgKey, u32> = Table::new();
    destinations.insert(our_id.wg_public_key, local_fee);
    let mut i: usize = 0;
    while i < routes.len()
        invariant
            i <= routes.len(),
            id_from_ip.wf(),
            destinations.wf(),
            destinations@ == destination_prices(
                routes@.take(i as int),
                our_id.wg_public_key,
                id_from_ip@,
                local_fee,
                max_fee,
            ),
        decreases routes.len() - i,
    {
        let route = routes[i];
        assert(routes@.take(i + 1).drop_last() == routes@.take(i as int));
        // Only ip6
        if let Prefix::V6 { addr, len } = route.prefix {
            // Only host addresses and installed routes
            if len == 128 && route.installed {
                match id_from_ip.get(&MeshIp::V6(addr)) {
                    Some(id) => {
                        let price = if route.price > max_fee {
                            max_fee
                        } else {
                            route.price
                        };
                        destinations.insert(id.wg_public_key, price);
                    },
                    None => {},
                }
            }
        }
        i += 1;
    }
    assert(routes@.take(routes@.len() as int) == routes@);
    destinations
}

/// What one direction of a tunnel comes to: the history afterwards and the
/// bytes to bill. A counter below its history means that the tunnel came up
/// anew: the history goes back to zero and nothing is billed. Else a
/// direction that can be billed is billed for the difference and its history
/// moves up to the counter, and one that cannot stays where it is.
pub open spec fn settled(prev: u64, now: u64, billable: bool) -> (u64, u64) {
    if now < prev {
        (0, 0)
    } else if billable {
        (now, (now - prev) as u64)
    } else {
        (prev, 0)
    }
}

/// Settles one direction of a tunnel.
pub fn settle(prev: u64, now: u64, billable: bool) -> (r: (u64, u64))
    ensures
        r == settled(prev, now, billable),
{
    if now < prev {
        // tunnel has been reset somehow, reset usage
        (0, 0)
    } else if billable {
        (now, now - prev)
    } else {
        (prev, 0)
    }
}

/// The history of one tunnel after a tick. `known` says whether its key is
/// that of a known identity, `priced` whether a price to it is known. A
/// tunnel without a counter keeps its history, and one seen for the first
/// time starts at its counters. Download is billable for a known identity,
/// upload for a known identity with a price.
pub open spec fn usage_after(
    known: bool,
    priced: bool,
    prev: Option<WgUsage>,
    now: Option<WgUsage>,
) -> Option<WgUsage> {
    match now {
        None => prev,
        Some(n) => match prev {
            None => Some(n),
            Some(p) => Some(
                WgUsage {
                    upload: settled(p.upload, n.upload, known && priced).0,
                    download: settled(p.download, n.download, known).0,
                },
            ),
        },
    }
}

/// The debt of one known identity for a tick: the price of this node for
/// every byte downloaded, and, where a price to the identity is known, that
/// price and this node's for every byte uploaded; as a negative amount.
/// A tunnel without a counter, or seen for the first time, owes nothing.
pub open spec fn debt_for(
    our_price: u32,
    dest: Option<u32>,
    prev: Option<WgUsage>,
    now: Option<WgUsage>,
) -> int {
    match (prev, now) {
        (Some(p), Some(n)) => -(our_price * settled(p.download, n.download, true).1 + match dest {
            Some(d) => d * settled(p.upload, n.upload, true).1 + our_price * settled(
                p.upload,
                n.upload,
                true,
            ).1,
            None => 0,
        }),
        _ => 0,
    }
}

/// The usage history after a tick, tunnel by tunnel.
pub open spec fn history_after(
    history: Map<WgKey, WgUsage>,
    known: Set<WgKey>,
    priced: Set<WgKey>,
    counters: Map<WgKey, WgUsage>,
) -> Map<WgKey, WgUsage> {
    Map::new(
        |k: WgKey| history.contains_key(k) || counters.contains_key(k),
        |k: WgKey|
            usage_after(
                known.contains(k),
                priced.contains(k),
                history.get(k),
                counters.get(k),
            )->Some_0,
    )
}

/// The debts of a tick: one for every known identity.
pub open spec fn debts_of(
    history: Map<WgKey, WgUsage>,
    known: Set<WgKey>,
    destinations: Map<WgKey, u32>,
    counters: Map<WgKey, WgUsage>,
    our_price: u32,
) -> Map<WgKey, i128> {
    Map::new(
        |k: WgKey| known.contains(k),
        |k: WgKey| debt_for(our_price, destinations.get(k), history.get(k), counters.get(k)) as i128,
    )
}

/// A debt fits the accumulator.
pub proof fn lemma_debt_bounds(
    our_price: u32,
    dest: Option<u32>,
    prev: Option<WgUsage>,
    now: Option<WgUsage>,
)
    ensures
        -0x4_0000_0000_0000_0000_0000_0000 < debt_for(our_price, dest, prev, now) <= 0,
{
    if prev is Some && now is Some {
        let p = prev->Some_0;
        let n = now->Some_0;
        let down = settled(p.download, n.download, true).1;
        let up = settled(p.upload, n.upload, true).1;
        lemma_charge_bounds(our_price as int, down as int);
        lemma_charge_bounds(our_price as int, up as int);
        if dest is Some {
            lemma_charge_bounds(dest->Some_0 as int, up as int);
        }
    }
}

/// A price of thirty-two bits times a count of bytes stays below ninety-six
/// bits.
proof fn lemma_charge_bounds(price: int, bytes: int)
    requires
        0 <= price <= 0xffff_ffff,
        0 <= bytes <= 0xffff_ffff_ffff_ffff,
    ensures
        0 <= price * bytes <= 0xffff_ffff * 0xffff_ffff_ffff_ffff,
{
    assert(0 <= price * bytes <= 0xffff_ffff * 0xffff_ffff_ffff_ffff) by (nonlinear_arith)
        requires
            0 <= price <= 0xffff_ffff,
            0 <= bytes <= 0xffff_ffff_ffff_ffff,
    ;
}

/// Two prices for the same bytes are the sum of the prices for them.
proof fn lemma_both_prices(dest: int, our_price: int, bytes: int)
    ensures
        (dest + our_price) * bytes == dest * bytes + our_price * bytes,
{
    assert((dest + our_price) * bytes == dest * bytes + our_price * bytes) by (nonlinear_arith);
}

/// Bills one tick: holds the counters against the history, moves the history
/// on and gives the debt of every known identity.
pub fn bill(
    usage_history: &mut Table<WgKey, WgUsage>,
    identities: &Table<WgKey, Identity>,
    destinations: &Table<WgKey, u32>,
    counters: &Table<WgKey, WgUsage>,
    our_price: u32,
) -> (debts: Table<WgKey, i128>)
    requires
        old(usage_history).wf(),
        identities.wf(),
        destinations.wf(),
        counters.wf(),
    ensures
        final(usage_history).wf(),
        final(usage_history)@ == history_after(
            old(usage_history)@,
            identities@.dom(),
            destinations@.dom(),
            counters@,
        ),
        debts.wf(),
        debts@ == debts_of(
            old(usage_history)@,
            identities@.dom(),
            destinations@,
            counters@,
            our_price,
        ),
{
    let ghost before = usage_history@;
    let mut debts: Table<WgKey, i128> = Table::new();
    // Setup the debts table
    let mut i: usize = 0;
    while i < identities.len()
        invariant
            i <= identities.entries().len(),
            identities.wf(),
            debts.wf(),
            forall|k: WgKey|
                debts@.contains_key(k) <==> has_key(identities.entries().take(i as int), k),
            forall|k: WgKey| debts@.contains_key(k) ==> debts@[k] == 0,
        decreases identities.entries().len() - i,
    {
        let key = identities.key_at(i);
        proof {
            lemma_has_key_take(identities.entries(), i as int);
        }
        debts.insert(key, 0i128);
        i += 1;
    }
    assert(identities.entries().take(identities.entries().len() as int) == identities.entries());
    assert(debts@.dom() =~= identities@.dom());

    let mut j: usize = 0;
    while j < counters.len()
        invariant
            j <= counters.entries().len(),
            counters.wf(),
            identities.wf(),
            destinations.wf(),
            usage_history.wf(),
            debts.wf(),
            debts@.dom() == identities@.dom(),
            forall|k: WgKey|
                has_key(counters.entries().take(j as int), k) ==> #[trigger] usage_history@.get(k)
                    == usage_after(
                    identities@.contains_key(k),
                    destinations@.contains_key(k),
                    before.get(k),
                    counters@.get(k),
                ),
            forall|k: WgKey|
                has_key(counters.entries().take(j as int), k) && identities@.contains_key(k)
                    ==> #[trigger] debts@[k] == debt_for(
                    our_price,
                    destinations@.get(k),
                    before.get(k),
                    counters@.get(k),
                ),
            forall|k: WgKey|
                !has_key(counters.entries().take(j as int), k) ==> #[trigger] usage_history@.get(k)
                    == before.get(k),
            forall|k: WgKey|
                !has_key(counters.entries().take(j as int), k) && identities@.contains_key(k)
                    ==> #[trigger] debts@[k] == 0,
        decreases counters.entries().len() - j,
    {
        let wg_key = counters.key_at(j);
        let bytes = *counters.value_at(j);
        let ghost earlier = usage_history@;
        proof {
            lemma_has_key_take(counters.entries(), j as int);
            assert(!has_key(counters.entries().take(j as int), wg_key));
            assert(usage_history@.get(wg_key) == before.get(wg_key));
            lemma_debt_bounds(
                our_price,
                destinations@.get(wg_key),
                before.get(wg_key),
                counters@.get(wg_key),
            );
        }
        let known = identities.contains_key(&wg_key);
        let dest = match destinations.get(&wg_key) {
            Some(d) => Some(*d),
            None => None,
        };
        let seen = match usage_history.get(&wg_key) {
            Some(h) => Some(*h),
            None => None,
        };
        match seen {
            Some(history) => {
                let (download, used_down) = settle(history.download, bytes.download, known);
                let (upload, used_up) = settle(history.upload, bytes.upload, known && dest.is_some());
                // update history so that we know what was used from previous cycles
                usage_history.insert(wg_key, WgUsage { upload, download });
                if known {
                    proof {
                        lemma_charge_bounds(our_price as int, used_down as int);
                    }
                    let mut value: i128 = (our_price as i128) * (used_down as i128);
                    match dest {
                        Some(d) => {
                            proof {
                                lemma_charge_bounds(d as int, used_up as int);
                                lemma_charge_bounds(our_price as int, used_up as int);
                                lemma_both_prices(d as int, our_price as int, used_up as int);
                            }
                            value = value + ((d as i128) + (our_price as i128)) * (used_up as i128);
                        },
                        None => {},
                    }
                    debts.insert(wg_key, 0i128 - value);
                }
            },
            None => {
                // first sight of this tunnel: start its counters off here
                usage_history.insert(wg_key, bytes);
            },
        }
        proof {
            assert forall|k: WgKey|
                has_key(counters.entries().take(j + 1), k) implies #[trigger] usage_history@.get(k)
                == usage_after(
                identities@.contains_key(k),
                destinations@.contains_key(k),
                before.get(k),
                counters@.get(k),
            ) by {
                let was = earlier.get(k);
            }
            assert forall|k: WgKey|
                !has_key(counters.entries().take(j + 1), k) implies #[trigger] usage_history@.get(k)
                == before.get(k) by {
                let was = earlier.get(k);
            }
        }
        j += 1;
    }
    proof {
        assert(counters.entries().take(counters.entries().len() as int) == counters.entries());
        let after = history_after(before, identities@.dom(), destinations@.dom(), counters@);
        assert forall|k: WgKey| usage_history@.contains_key(k) == after.contains_key(k) by {
            let got = usage_history@.get(k);
        }
        assert forall|k: WgKey| usage_history@.contains_key(k) implies usage_history@[k]
            == after[k] by {
            let got = usage_history@.get(k);
        }
        assert(usage_history@ =~= after);
        let owed = debts_of(before, identities@.dom(), destinations@, counters@, our_price);
        assert forall|k: WgKey| debts@.contains_key(k) implies debts@[k] == owed[k] by {
            lemma_debt_bounds(our_price, destinations@.get(k), before.get(k), counters@.get(k));
            let d = debts@[k];
            if !has_key(counters.entries(), k) {
                assert(!counters@.contains_key(k));
            }
        }
        assert(debts@ =~= owed);
    }
    debts
}

/// Takes the counters into the history without billing anything: a tunnel
/// seen for the first time starts at its counters, and a direction whose
/// counter fell below its history goes back to zero.
pub fn update_usage_history(
    counters: &Table<WgKey, WgUsage>,
    usage_history: &mut Table<WgKey, WgUsage>,
)
    requires
        counters.wf(),
        old(usage_history).wf(),
    ensures
        final(usage_history).wf(),
        final(usage_history)@ == history_after(
            old(usage_history)@,
            Set::<WgKey>::empty(),
            Set::<WgKey>::empty(),
            counters@,
        ),
{
    let nobody: Table<WgKey, Identity> = Table::new();
    let nowhere: Table<WgKey, u32> = Table::new();
    assert(nobody@.dom() =~= Set::<WgKey>::empty());
    assert(nowhere@.dom() =~= Set::<WgKey>::empty());
    bill(usage_history, &nobody, &nowhere, counters, 0);
}

/// What kind of traffic a usage update is about.
#[derive(Debug, Clone, Copy, PartialEq, Eq, Structural)]
pub enum UsageType {
    Client,
    Relay,
    Exit,
}

/// The usage of one round, for the usage tracker.
#[derive(Debug, Clone, Copy, PartialEq, Eq, Structural)]
pub struct UpdateUsage {
    pub kind: UsageType,
    pub up: u128,
    pub down: u128,
    pub price: u32,
}

/// The sum of the upload counters of `entries`.
pub open spec fn total_upload(entries: Seq<(WgKey, WgUsage)>) -> nat
    decreases entries.len(),
{
    if entries.len() == 0 {
        0
    } else {
        total_upload(entries.drop_last()) + entries.last().1.upload as nat
    }
}

/// The sum of the download counters of `entries`.
pub open spec fn total_download(entries: Seq<(WgKey, WgUsage)>) -> nat
    decreases entries.len(),
{
    if entries.len() == 0 {
        0
    } else {
        total_download(entries.drop_last()) + entries.last().1.download as nat
    }
}

/// Sums the counters of a round into the update for the usage tracker.
pub fn counters_logging(counters: &Table<WgKey, WgUsage>, exit_fee: u32) -> (update: UpdateUsage)
    requires
        counters.wf(),
    ensures
        update.kind == UsageType::Exit,
        update.up == total_upload(counters.entries()),
        update.down == total_download(counters.entries()),
        update.price == exit_fee,
{
    let mut total_in: u128 = 0;
    let mut total_out: u128 = 0;
    let mut i: usize = 0;
    while i < counters.len()
        invariant
            i <= counters.entries().len(),
            counters.wf(),
            total_in == total_download(counters.entries().take(i as int)),
            total_out == total_upload(counters.entries().take(i as int)),
            total_in <= i * 0xffff_ffff_ffff_ffff,
            total_out <= i * 0xffff_ffff_ffff_ffff,
        decreases counters.entries().len() - i,
    {
        let entry = *counters.value_at(i);
        assert(counters.entries().take(i + 1).drop_last() == counters.entries().take(i as int));
        assert((i + 1) * 0xffff_ffff_ffff_ffff <= 0xffff_ffff_ffff_ffff * 0xffff_ffff_ffff_ffff)
            by (nonlinear_arith)
            requires
                i + 1 <= 0xffff_ffff_ffff_ffff,
        ;
        total_in = total_in + entry.download as u128;
        total_out = total_out + entry.upload as u128;
        i += 1;
    }
    assert(counters.entries().take(counters.entries().len() as int) == counters.entries());
    // update the usage tracker with the details of this round's usage
    UpdateUsage { kind: UsageType::Exit, up: total_out, down: total_in, price: exit_fee }
}

/// One debt to hand to the debt keeper.
#[derive(Debug, Clone, Copy)]
pub struct Traffic {
    pub from: Identity,
    pub amount: i128,
}

/// The debts to hand on: in the order of the identities, one for every
/// identity whose debt is not zero.
pub open spec fn traffic_of(
    identities: Seq<(WgKey, Identity)>,
    debts: Map<WgKey, i128>,
) -> Seq<Traffic>
    decreases identities.len(),
{
    if identities.len() == 0 {
        Seq::empty()
    } else {
        let before = traffic_of(identities.drop_last(), debts);
        let (key, from) = identities.last();
        if debts.contains_key(key) && debts[key] != 0 {
            before.push(Traffic { from, amount: debts[key] })
        } else {
            before
        }
    }
}

/// Collects the debts that are not zero.
pub fn traffic_update(identities: &Table<WgKey, Identity>, debts: &Table<WgKey, i128>) -> (traffic:
    Vec<Traffic>)
    requires
        identities.wf(),
        debts.wf(),
    ensures
        traffic@ == traffic_of(identities.entries(), debts@),
{
    let mut traffic_vec: Vec<Traffic> = Vec::new();
    let mut i: usize = 0;
    while i < identities.len()
        invariant
            i <= identities.entries().len(),
            identities.wf(),
            debts.wf(),
            traffic_vec@ == traffic_of(identities.entries().take(i as int), debts@),
        decreases identities.entries().len() - i,
    {
        let key = identities.key_at(i);
        let from = *identities.value_at(i);
        assert(identities.entries().take(i + 1).drop_last() == identities.entries().take(i as int));
        match debts.get(&key) {
            Some(amount) => {
                if *amount != 0 {
                    traffic_vec.push(Traffic { from, amount: *amount });
                }
            },
            None => {},
        }
        i += 1;
    }
    assert(identities.entries().take(identities.entries().len() as int) == identities.entries());
    traffic_vec
}

/// What the routing service gave: the price that this node asks and the
/// routes.
#[derive(Debug, Clone)]
pub struct BabelInfo {
    pub local_fee: u32,
    pub routes: Vec<Route>,
}

/// What one tick hands on: the usage of the round and the debts.
#[derive(Debug, Clone)]
pub struct Billing {
    pub usage: UpdateUsage,
    pub traffic: Vec<Traffic>,
}

/// Why a tick billed nothing.
#[derive(Debug, Clone, Copy, PartialEq, Eq, Structural)]
pub enum WatchError {
    /// This node does not know its own identity yet.
    IdentityNotReady,
    /// The routing service could not be asked.
    RoutingSession,
    /// The counters of the tunnels could not be read.
    CounterRead,
}

/// The error of a tick, by what is missing: the identity before the routes,
/// the routes before the counters.
pub open spec fn watch_error(identity: bool, routes: bool, counters: bool) -> Option<WatchError> {
    if !identity {
        Some(WatchError::IdentityNotReady)
    } else if !routes {
        Some(WatchError::RoutingSession)
    } else if !counters {
        Some(WatchError::CounterRead)
    } else {
        None
    }
}

/// This traffic watcher watches how much traffic we send to and receive
/// from each client. One tick bills all of it or nothing: without this
/// node's identity, the routes or the counters the history stays as it was.
///
/// The known identities are this node and the clients. Each of them has a
/// debt for the tick, this node too; the debts handed on are those of the
/// clients, where they are not zero.
pub fn watch(
    usage_history: &mut Table<WgKey, WgUsage>,
    our_id: Option<Identity>,
    our_ip: MeshIp,
    clients: &Vec<Identity>,
    babel: Option<BabelInfo>,
    max_fee: u32,
    counters: Option<Table<WgKey, WgUsage>>,
) -> (r: Result<Billing, WatchError>)
    requires
        old(usage_history).wf(),
        counters is Some ==> counters->Some_0.wf(),
    ensures
        final(usage_history).wf(),
        match r {
            Err(e) => {
                &&& watch_error(our_id is Some, babel is Some, counters is Some) == Some(e)
                &&& final(usage_history)@ == old(usage_history)@
                &&& final(usage_history).entries() == old(usage_history).entries()
            },
            Ok(billing) => {
                let local_fee = babel->Some_0.local_fee;
                let known = identities_by_key(our_id->Some_0, clients@).dom();
                let destinations = destination_prices(
                    babel->Some_0.routes@,
                    our_id->Some_0.wg_public_key,
                    identities_by_ip(our_ip, our_id->Some_0, clients@),
                    local_fee,
                    max_fee,
                );
                let now = counters->Some_0;
                &&& watch_error(our_id is Some, babel is Some, counters is Some) is None
                &&& final(usage_history)@ == history_after(
                    old(usage_history)@,
                    known,
                    destinations.dom(),
                    now@,
                )
                &&& billing.traffic@ == traffic_of(
                    client_entries(clients@),
                    debts_of(old(usage_history)@, known, destinations, now@, local_fee),
                )
                &&& billing.usage == (UpdateUsage {
                    kind: UsageType::Exit,
                    up: total_upload(now.entries()) as u128,
                    down: total_download(now.entries()) as u128,
                    price: local_fee,
                })
            },
        },
{
    let our_id = match our_id {
        Some(id) => id,
        None => {
            return Err(WatchError::IdentityNotReady);
        },
    };
    let babel = match babel {
        Some(info) => info,
        None => {
            return Err(WatchError::RoutingSession);
        },
    };
    let counters = match counters {
        Some(res) => res,
        None => {
            return Err(WatchError::CounterRead);
        },
    };
    let our_price = babel.local_fee;
    let (identities, id_from_ip) = generate_helper_maps(&our_id, our_ip, clients);
    let destinations = get_babel_info(&babel.routes, our_id, &id_from_ip, our_price, max_fee);
    let usage = counters_logging(&counters, our_price);
    let debts = bill(usage_history, &identities, &destinations, &counters, our_price);
    // this node has a debt like every known identity, but only those of the
    // clients are handed on
    let traffic = traffic_update(&client_table(clients), &debts);
    Ok(Billing { usage, traffic })
}

/// Whether one of `routes` leads to the tunnel key `key`.
pub open spec fn is_routed_key(
    routes: Seq<Route>,
    id_from_ip: Map<MeshIp, Identity>,
    key: WgKey,
) -> bool {
    exists|i: int|
        0 <= i < routes.len() && route_destination(#[trigger] routes[i], id_from_ip) == Some(key)
}

/// A price is known for this node's own key and for the keys that routes
/// lead to, and for no other.
pub proof fn lemma_priced_keys(
    routes: Seq<Route>,
    our_key: WgKey,
    id_from_ip: Map<MeshIp, Identity>,
    local_fee: u32,
    max_fee: u32,
    key: WgKey,
)
    ensures
        destination_prices(routes, our_key, id_from_ip, local_fee, max_fee).contains_key(key)
            <==> key == our_key || is_routed_key(routes, id_from_ip, key),
    decreases routes.len(),
{
    if routes.len() > 0 {
        let before = routes.drop_last();
        lemma_priced_keys(before, our_key, id_from_ip, local_fee, max_fee, key);
        if is_routed_key(before, id_from_ip, key) {
            let i = choose|i: int|
                0 <= i < before.len() && route_destination(#[trigger] before[i], id_from_ip)
                    == Some(key);
            assert(routes[i] == before[i]);
        }
        if is_routed_key(routes, id_from_ip, key) {
            let i = choose|i: int|
                0 <= i < routes.len() && route_destination(#[trigger] routes[i], id_from_ip)
                    == Some(key);
            if i < before.len() {
                assert(before[i] == routes[i]);
            }
        }
        assert(routes[routes.len() - 1] == routes.last());
    }
}

/// Capped price: the price to a destination is the price of the last route
/// that leads to it, or the highest price that is paid where the route asks
/// for more.
pub proof fn lemma_last_route_stands(
    routes: Seq<Route>,
    our_key: WgKey,
    id_from_ip: Map<MeshIp, Identity>,
    local_fee: u32,
    max_fee: u32,
    i: int,
)
    requires
        0 <= i < routes.len(),
        route_destination(routes[i], id_from_ip) is Some,
        forall|j: int|
            i < j < routes.len() ==> route_destination(#[trigger] routes[j], id_from_ip)
                != route_destination(routes[i], id_from_ip),
    ensures
        destination_prices(routes, our_key, id_from_ip, local_fee, max_fee).contains_key(
            route_destination(routes[i], id_from_ip)->Some_0,
        ),
        destination_prices(routes, our_key, id_from_ip, local_fee, max_fee)[route_destination(
            routes[i],
            id_from_ip,
        )->Some_0] == capped(routes[i].price, max_fee),
        capped(routes[i].price, max_fee) <= max_fee,
        capped(routes[i].price, max_fee) <= routes[i].price,
    decreases routes.len(),
{
    let before = routes.drop_last();
    if i < before.len() {
        assert(before[i] == routes[i]);
        assert forall|j: int| i < j < before.len() implies route_destination(
            #[trigger] before[j],
            id_from_ip,
        ) != route_destination(before[i], id_from_ip) by {
            assert(routes[j] == before[j]);
        }
        lemma_last_route_stands(before, our_key, id_from_ip, local_fee, max_fee, i);
        assert(route_destination(routes[routes.len() - 1], id_from_ip) != route_destination(
            routes[i],
            id_from_ip,
        ));
    }
}

/// This node's own key stands at this node's own price, unless a route
/// leads to it.
pub proof fn lemma_own_price_stands(
    routes: Seq<Route>,
    our_key: WgKey,
    id_from_ip: Map<MeshIp, Identity>,
    local_fee: u32,
    max_fee: u32,
)
    requires
        !is_routed_key(routes, id_from_ip, our_key),
    ensures
        destination_prices(routes, our_key, id_from_ip, local_fee, max_fee).contains_key(our_key),
        destination_prices(routes, our_key, id_from_ip, local_fee, max_fee)[our_key] == local_fee,
    decreases routes.len(),
{
    if routes.len() > 0 {
        let before = routes.drop_last();
        if is_routed_key(before, id_from_ip, our_key) {
            let i = choose|i: int|
                0 <= i < before.len() && route_destination(#[trigger] before[i], id_from_ip)
                    == Some(our_key);
            assert(routes[i] == before[i]);
        }
        lemma_own_price_stands(before, our_key, id_from_ip, local_fee, max_fee);
        assert(route_destination(routes[routes.len() - 1], id_from_ip) != Some(our_key));
    }
}

/// Whether one of `clients` has the tunnel key `key`.
pub open spec fn is_client_key(clients: Seq<Identity>, key: WgKey) -> bool {
    exists|i: int| 0 <= i < clients.len() && (#[trigger] clients[i]).wg_public_key == key
}

/// The table by tunnel key holds this node's key and the keys of the
/// clients, and no other.
pub proof fn lemma_known_keys(our_id: Identity, clients: Seq<Identity>, key: WgKey)
    ensures
        identities_by_key(our_id, clients).contains_key(key) <==> key == our_id.wg_public_key
            || is_client_key(clients, key),
    decreases clients.len(),
{
    if clients.len() > 0 {
        let before = clients.drop_last();
        lemma_known_keys(our_id, before, key);
        if is_client_key(before, key) {
            let i = choose|i: int|
                0 <= i < before.len() && (#[trigger] before[i]).wg_public_key == key;
            assert(clients[i].wg_public_key == key);
        }
        if is_client_key(clients, key) {
            let i = choose|i: int|
                0 <= i < clients.len() && (#[trigger] clients[i]).wg_public_key == key;
            if i < before.len() {
                assert(before[i].wg_public_key == key);
            }
        }
        assert(clients[clients.len() - 1].wg_public_key == clients.last().wg_public_key);
    }
}

/// Under a client's key stands the last client that has it.
pub proof fn lemma_last_client_stands(our_id: Identity, clients: Seq<Identity>, i: int)
    requires
        0 <= i < clients.len(),
        forall|j: int|
            i < j < clients.len() ==> (#[trigger] clients[j]).wg_public_key
                != clients[i].wg_public_key,
    ensures
        identities_by_key(our_id, clients).contains_key(clients[i].wg_public_key),
        identities_by_key(our_id, clients)[clients[i].wg_public_key] == clients[i],
    decreases clients.len(),
{
    let before = clients.drop_last();
    if i < before.len() {
        assert(before[i] == clients[i]);
        assert forall|j: int| i < j < before.len() implies (#[trigger] before[j]).wg_public_key
            != before[i].wg_public_key by {
            assert(clients[j] == before[j]);
        }
        lemma_last_client_stands(our_id, before, i);
        assert(clients[clients.len() - 1].wg_public_key != clients[i].wg_public_key);
    }
}

/// Under this node's key stands this node, unless a client has that key.
pub proof fn lemma_this_node_stands(our_id: Identity, clients: Seq<Identity>)
    requires
        !is_client_key(clients, our_id.wg_public_key),
    ensures
        identities_by_key(our_id, clients).contains_key(our_id.wg_public_key),
        identities_by_key(our_id, clients)[our_id.wg_public_key] == our_id,
    decreases clients.len(),
{
    if clients.len() > 0 {
        let before = clients.drop_last();
        if is_client_key(before, our_id.wg_public_key) {
            let i = choose|i: int|
                0 <= i < before.len() && (#[trigger] before[i]).wg_public_key
                    == our_id.wg_public_key;
            assert(clients[i].wg_public_key == our_id.wg_public_key);
        }
        lemma_this_node_stands(our_id, before);
        assert(clients[clients.len() - 1].wg_public_key != our_id.wg_public_key);
    }
}

/// Every entry of the clients' table is one of the clients, under its own
/// key, and no key stands twice.
pub proof fn lemma_client_entries(clients: Seq<Identity>)
    ensures
        crate::table::keys_distinct(client_entries(clients)),
        forall|j: int|
            0 <= j < client_entries(clients).len() ==> exists|i: int|
                0 <= i < clients.len() && (#[trigger] client_entries(clients)[j]) == (
                    (#[trigger] clients[i]).wg_public_key,
                    clients[i],
                ),
    decreases clients.len(),
{
    if clients.len() > 0 {
        let before = clients.drop_last();
        let last = clients.last();
        lemma_client_entries(before);
        let old_entries = client_entries(before);
        let entries = client_entries(clients);
        assert(clients[clients.len() - 1] == last);
        if has_key(old_entries, last.wg_public_key) {
            let at = place_of(old_entries, last.wg_public_key);
            crate::table::lemma_map_of_update(old_entries, at, last);
        } else {
            crate::table::lemma_map_of_push(old_entries, last.wg_public_key, last);
        }
        assert forall|j: int| 0 <= j < entries.len() implies exists|i: int|
            0 <= i < clients.len() && (#[trigger] entries[j]) == (
                (#[trigger] clients[i]).wg_public_key,
                clients[i],
            ) by {
            if entries[j] == (last.wg_public_key, last) {
                assert(entries[j] == (clients[clients.len() - 1].wg_public_key, clients[clients.len() - 1]));
            } else {
                assert(entries[j] == old_entries[j]);
                let i = choose|i: int|
                    0 <= i < before.len() && (#[trigger] old_entries[j]) == (
                        (#[trigger] before[i]).wg_public_key,
                        before[i],
                    );
                assert(clients[i] == before[i]);
            }
        }
    }
}

/// Every debt that is handed on is the debt, not zero, of one of the
/// entries, in their order.
pub proof fn lemma_traffic_of(entries: Seq<(WgKey, Identity)>, debts: Map<WgKey, i128>)
    ensures
        traffic_of(entries, debts).len() <= entries.len(),
        forall|t: int|
            0 <= t < traffic_of(entries, debts).len() ==> exists|j: int|
                0 <= j < entries.len() && (#[trigger] traffic_of(entries, debts)[t]).from == (
                #[trigger] entries[j]).1 && debts.contains_key(entries[j].0) && traffic_of(
                    entries,
                    debts,
                )[t].amount == debts[entries[j].0] && debts[entries[j].0] != 0,
    decreases entries.len(),
{
    if entries.len() > 0 {
        let before = entries.drop_last();
        lemma_traffic_of(before, debts);
        let traffic = traffic_of(entries, debts);
        let earlier = traffic_of(before, debts);
        assert forall|t: int| 0 <= t < traffic.len() implies exists|j: int|
            0 <= j < entries.len() && (#[trigger] traffic[t]).from == (#[trigger] entries[j]).1
                && debts.contains_key(entries[j].0) && traffic[t].amount == debts[entries[j].0]
                && debts[entries[j].0] != 0 by {
            if t < earlier.len() {
                assert(traffic[t] == earlier[t]);
                let j = choose|j: int|
                    0 <= j < before.len() && (#[trigger] earlier[t]).from == (
                    #[trigger] before[j]).1 && debts.contains_key(before[j].0) && earlier[t].amount
                        == debts[before[j].0] && debts[before[j].0] != 0;
                assert(entries[j] == before[j]);
            } else {
                assert(traffic[t].from == entries[entries.len() - 1].1);
            }
        }
    }
}

/// Only the debts of clients are handed on: every item of a tick's traffic
/// comes from one of the clients and holds that client's debt, which is not
/// zero. This node has a debt of its own only as an accumulator.
pub proof fn lemma_traffic_is_of_clients(clients: Seq<Identity>, debts: Map<WgKey, i128>)
    ensures
        forall|t: int|
            0 <= t < traffic_of(client_entries(clients), debts).len() ==> exists|i: int|
                0 <= i < clients.len() && (#[trigger] traffic_of(
                    client_entries(clients),
                    debts,
                )[t]).from == (#[trigger] clients[i]) && traffic_of(
                    client_entries(clients),
                    debts,
                )[t].amount == debts[clients[i].wg_public_key] && debts[clients[i].wg_public_key]
                    != 0,
{
    let entries = client_entries(clients);
    let traffic = traffic_of(entries, debts);
    lemma_client_entries(clients);
    lemma_traffic_of(entries, debts);
    assert forall|t: int| 0 <= t < traffic.len() implies exists|i: int|
        0 <= i < clients.len() && (#[trigger] traffic[t]).from == (#[trigger] clients[i])
            && traffic[t].amount == debts[clients[i].wg_public_key]
            && debts[clients[i].wg_public_key] != 0 by {
        let j = choose|j: int|
            0 <= j < entries.len() && (#[trigger] traffic[t]).from == (#[trigger] entries[j]).1
                && debts.contains_key(entries[j].0) && traffic[t].amount == debts[entries[j].0]
                && debts[entries[j].0] != 0;
        let i = choose|i: int|
            0 <= i < clients.len() && (#[trigger] entries[j]) == (
                (#[trigger] clients[i]).wg_public_key,
                clients[i],
            );
        assert(traffic[t].from == clients[i]);
    }
}

/// First sight: a tunnel whose counters are seen for the first time gets
/// them as its history and owes nothing for the tick.
pub proof fn lemma_first_sight_is_baseline(
    our_price: u32,
    dest: Option<u32>,
    known: bool,
    now: WgUsage,
)
    ensures
        usage_after(known, dest is Some, None, Some(now)) == Some(now),
        debt_for(our_price, dest, None, Some(now)) == 0,
{
}

/// Asymmetric billing: a known identity without a price to it pays this
/// node's price for every byte downloaded, and nothing for upload, whatever
/// the upload counters are; its upload history moves only to fall back to
/// zero.
pub proof fn lemma_unpriced_pays_download_only(our_price: u32, prev: WgUsage, now: WgUsage)
    ensures
        debt_for(our_price, None, Some(prev), Some(now)) == -(our_price * settled(
            prev.download,
            now.download,
            true,
        ).1),
        now.download >= prev.download ==> debt_for(our_price, None, Some(prev), Some(now)) == -(
        our_price * (now.download - prev.download)),
        forall|up_before: u64, up_now: u64|
            debt_for(
                our_price,
                None,
                Some(WgUsage { upload: up_before, download: prev.download }),
                Some(WgUsage { upload: up_now, download: now.download }),
            ) == debt_for(our_price, None, Some(prev), Some(now)),
        usage_after(true, false, Some(prev), Some(now))->Some_0.upload == (if now.upload
            < prev.upload {
            0
        } else {
            prev.upload
        }),
{
}

/// Counter reset: a download counter below its history sets that history
/// to zero and bills no download for the tick; the tick after bills the
/// whole of its counter.
pub proof fn lemma_download_reset(
    our_price: u32,
    dest: Option<u32>,
    prev: WgUsage,
    now: WgUsage,
    next: WgUsage,
)
    requires
        now.download < prev.download,
    ensures
        usage_after(true, dest is Some, Some(prev), Some(now))->Some_0.download == 0,
        debt_for(our_price, dest, Some(prev), Some(now)) == -(match dest {
            Some(d) => (d + our_price) * settled(prev.upload, now.upload, true).1,
            None => 0,
        }),
        debt_for(our_price, dest, Some(prev), Some(now)) == debt_for(
            our_price,
            dest,
            Some(WgUsage { upload: prev.upload, download: 0 }),
            Some(WgUsage { upload: now.upload, download: 0 }),
        ),
        debt_for(
            our_price,
            None,
            usage_after(true, false, Some(prev), Some(now)),
            Some(next),
        ) == -(our_price * next.download),
{
    let billed_down = settled(prev.download, now.download, true).1;
    let billed_up = settled(prev.upload, now.upload, true).1;
    assert(settled(prev.download, now.download, true) == (0u64, 0u64));
    assert(billed_down == 0);
    assert(our_price * billed_down == 0) by (nonlinear_arith)
        requires
            billed_down == 0,
    ;
    assert(settled(0, 0, true) == (0u64, 0u64));
    assert(our_price * settled(0, 0, true).1 == 0) by (nonlinear_arith)
        requires
            settled(0, 0, true).1 == 0,
    ;
    match dest {
        Some(d) => {
            lemma_both_prices(d as int, our_price as int, billed_up as int);
            assert(debt_for(our_price, dest, Some(prev), Some(now)) == -(d * billed_up + our_price
                * billed_up));
        },
        None => {
            assert(debt_for(our_price, dest, Some(prev), Some(now)) == 0);
        },
    }
    let after = usage_after(true, false, Some(prev), Some(now));
    assert(after == Some(WgUsage { upload: settled(prev.upload, now.upload, false).0, download: 0 }));
    assert(settled(0, next.download, true) == (next.download, next.download));
}

/// Counter reset, for upload: an upload counter below its history sets that
/// history to zero and bills no upload for the tick.
pub proof fn lemma_upload_reset(our_price: u32, dest: Option<u32>, prev: WgUsage, now: WgUsage)
    requires
        now.upload < prev.upload,
    ensures
        usage_after(true, dest is Some, Some(prev), Some(now))->Some_0.upload == 0,
        debt_for(our_price, dest, Some(prev), Some(now)) == -(our_price * settled(
            prev.download,
            now.download,
            true,
        ).1),
{
}

/// A tunnel whose counters only grew, with a price to its identity, owes
/// this node's price for the bytes downloaded and both prices for the bytes
/// uploaded, and its history ends at its counters.
pub proof fn lemma_priced_debt(our_price: u32, dest: u32, prev: WgUsage, now: WgUsage)
    requires
        now.download >= prev.download,
        now.upload >= prev.upload,
    ensures
        debt_for(our_price, Some(dest), Some(prev), Some(now)) == -(our_price * (now.download
            - prev.download) + (dest + our_price) * (now.upload - prev.upload)),
        usage_after(true, true, Some(prev), Some(now)) == Some(now),
{
    lemma_both_prices(dest as int, our_price as int, now.upload - prev.upload);
}

/// The debt of one identity and the history of one tunnel depend on nothing
/// but that tunnel's own history and counters and the price to it: ticks
/// that agree on these for a key agree on its debt and on its history
/// afterwards, whatever they hold for other keys.
pub proof fn lemma_debt_is_per_peer(
    key: WgKey,
    our_price: u32,
    history_a: Map<WgKey, WgUsage>,
    known_a: Set<WgKey>,
    destinations_a: Map<WgKey, u32>,
    counters_a: Map<WgKey, WgUsage>,
    history_b: Map<WgKey, WgUsage>,
    known_b: Set<WgKey>,
    destinations_b: Map<WgKey, u32>,
    counters_b: Map<WgKey, WgUsage>,
)
    requires
        known_a.contains(key) == known_b.contains(key),
        history_a.get(key) == history_b.get(key),
        destinations_a.get(key) == destinations_b.get(key),
        counters_a.get(key) == counters_b.get(key),
    ensures
        debts_of(history_a, known_a, destinations_a, counters_a, our_price).get(key) == debts_of(
            history_b,
            known_b,
            destinations_b,
            counters_b,
            our_price,
        ).get(key),
        history_after(history_a, known_a, destinations_a.dom(), counters_a).get(key)
            == history_after(history_b, known_b, destinations_b.dom(), counters_b).get(key),
{
}

/// A debt is never a credit, and an identity without a counter owes nothing.
pub proof fn lemma_debts_not_positive(
    key: WgKey,
    our_price: u32,
    history: Map<WgKey, WgUsage>,
    known: Set<WgKey>,
    destinations: Map<WgKey, u32>,
    counters: Map<WgKey, WgUsage>,
)
    requires
        known.contains(key),
    ensures
        debts_of(history, known, destinations, counters, our_price)[key] <= 0,
        !counters.contains_key(key) ==> debts_of(history, known, destinations, counters, our_price)[key]
            == 0,
{
    lemma_debt_bounds(our_price, destinations.get(key), history.get(key), counters.get(key));
}

/// The request to bill one tick; it names the known clients.
#[derive(Debug, Clone)]
pub struct Watch(pub Vec<Identity>);

/// The traffic watcher: it owns what was last seen of every tunnel.
#[derive(Debug)]
pub struct TrafficWatcher {
    last_seen_bytes: Table<WgKey, WgUsage>,
}

impl TrafficWatcher {
    /// What was last seen of every tunnel.
    pub closed spec fn history(&self) -> Map<WgKey, WgUsage> {
        self.last_seen_bytes@
    }

    /// The history is a table in good order.
    pub closed spec fn wf(&self) -> bool {
        self.last_seen_bytes.wf()
    }

    /// A watcher that has seen no tunnel yet.
    pub fn new() -> (watcher: TrafficWatcher)
        ensures
            watcher.wf(),
            watcher.history() == Map::<WgKey, WgUsage>::empty(),
    {
        TrafficWatcher { last_seen_bytes: Table::new() }
    }

    /// What was last seen of the tunnel with key `key`.
    pub fn last_seen(&self, key: &WgKey) -> (r: Option<WgUsage>)
        requires
            self.wf(),
        ensures
            r == self.history().get(*key),
    {
        match self.last_seen_bytes.get(key) {
            Some(usage) => Some(*usage),
            None => None,
        }
    }

    /// Bills one tick for the clients that `msg` names; see [`watch`].
    pub fn on_billing_tick(
        &mut self,
        msg: &Watch,
        our_id: Option<Identity>,
        our_ip: MeshIp,
        babel: Option<BabelInfo>,
        max_fee: u32,
        counters: Option<Table<WgKey, WgUsage>>,
    ) -> (r: Result<Billing, WatchError>)
        requires
            old(self).wf(),
            counters is Some ==> counters->Some_0.wf(),
        ensures
            final(self).wf(),
            match r {
                Err(e) => {
                    &&& watch_error(our_id is Some, babel is Some, counters is Some) == Some(e)
                    &&& final(self).history() == old(self).history()
                },
                Ok(billing) => {
                    let local_fee = babel->Some_0.local_fee;
                    let known = identities_by_key(our_id->Some_0, msg.0@).dom();
                    let destinations = destination_prices(
                        babel->Some_0.routes@,
                        our_id->Some_0.wg_public_key,
                        identities_by_ip(our_ip, our_id->Some_0, msg.0@),
                        local_fee,
                        max_fee,
                    );
                    let now = counters->Some_0;
                    &&& watch_error(our_id is Some, babel is Some, counters is Some) is None
                    &&& final(self).history() == history_after(
                        old(self).history(),
                        known,
                        destinations.dom(),
                        now@,
                    )
                    &&& billing.traffic@ == traffic_of(
                        client_entries(msg.0@),
                        debts_of(old(self).history(), known, destinations, now@, local_fee),
                    )
                    &&& billing.usage == (UpdateUsage {
                        kind: UsageType::Exit,
                        up: total_upload(now.entries()) as u128,
                        down: total_download(now.entries()) as u128,
                        price: local_fee,
                    })
                },
            },
    {
        watch(&mut self.last_seen_bytes, our_id, our_ip, &msg.0, babel, max_fee, counters)
    }
}

impl Default for TrafficWatcher {
    fn default() -> (watcher: TrafficWatcher)
        ensures
            watcher.wf(),
            watcher.history() == Map::<WgKey, WgUsage>::empty(),
    {
        TrafficWatcher::new()
    }
}

} // verus!
