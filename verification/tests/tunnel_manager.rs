use rita::identity::{Identity, MeshIp, WgKey};
use rita::peer_listener::SocketAddress;
use rita::tunnel_manager::{get_neighbors, neighbor_socket, Error, HELLO_PORT};

#[test]
fn it_works() {
    assert_eq!(2 + 2, 4);
}

fn identity(n: u128) -> Identity {
    Identity {
        mesh_ip: MeshIp::V6(n),
        eth_address: clarity::Address::default(),
        wg_public_key: WgKey { hi: 0, lo: n },
    }
}

#[test]
fn neighbors_are_asked_on_the_hello_port() {
    assert_eq!(HELLO_PORT, 4876);
    assert_eq!(
        neighbor_socket(MeshIp::V6(0xfe80 << 112 | 5), 3),
        Ok(SocketAddress {
            ip: 0xfe80 << 112 | 5,
            port: 4876,
            flowinfo: 0,
            scope_id: 3
        })
    );
}

#[test]
fn ipv4_neighbors_are_not_supported() {
    assert_eq!(
        neighbor_socket(MeshIp::V4(0x0a00_0001), 3),
        Err(Error::TunnelManagerError(
            "IPv4 neighbours are not supported".to_string()
        ))
    );
}

#[test]
fn neighbors_are_those_that_answered() {
    let answers = vec![
        Err(Error::IOError),
        Ok(identity(1)),
        Err(Error::HTTPParseError),
        Ok(identity(2)),
        Ok(identity(1)),
    ];
    let neighbors = get_neighbors(&answers);
    let keys: Vec<u128> = neighbors.iter().map(|n| n.wg_public_key.lo).collect();
    assert_eq!(keys, vec![1, 2, 1]);
    assert!(get_neighbors(&Vec::new()).is_empty());
    assert!(get_neighbors(&vec![Err(Error::KernelInterfaceError)]).is_empty());
}
