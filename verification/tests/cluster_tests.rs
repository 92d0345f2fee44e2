use backend::cluster::{ClusterConfig, ConfigError, NodeConfig, PeerConfig};

const SAMPLE: &str = r#"
    [node]
    id = 1
    worker_id = 1
    listen_addr = "127.0.0.1:7001"

    [[peers]]
    id = 2
    addr = "127.0.0.1:7002"

    [[peers]]
    id = 3
    addr = "127.0.0.1:7003"
"#;

/// Reads the TOML text into the configuration's shape (the job of the
/// program's loader), then hands it to the library's checks.
fn from_toml_str(s: &str) -> Result<ClusterConfig, ConfigError> {
    ClusterConfig::from_parsed(read(s))
}

fn read(s: &str) -> Result<ClusterConfig, String> {
    let t: toml::Table = toml::from_str(s).map_err(|e| e.to_string())?;
    let node = t.get("node").and_then(|v| v.as_table()).ok_or("missing field `node`")?;
    let int = |tab: &toml::Table, k: &str| tab.get(k).and_then(|v| v.as_integer()).ok_or(format!("missing field `{k}`"));
    let string = |tab: &toml::Table, k: &str| {
        tab.get(k).and_then(|v| v.as_str()).map(|x| x.to_string()).ok_or(format!("missing field `{k}`"))
    };
    let worker = int(node, "worker_id")?;
    let node = NodeConfig {
        id: u64::try_from(int(node, "id")?).map_err(|e| e.to_string())?,
        worker_id: u16::try_from(worker).map_err(|e| e.to_string())?,
        listen_addr: string(node, "listen_addr")?,
    };
    let mut peers = Vec::new();
    if let Some(list) = t.get("peers").and_then(|v| v.as_array()) {
        for p in list {
            let p = p.as_table().ok_or("peer is not a table")?;
            peers.push(PeerConfig {
                id: u64::try_from(int(p, "id")?).map_err(|e| e.to_string())?,
                addr: string(p, "addr")?,
            });
        }
    }
    Ok(ClusterConfig { node, peers })
}

#[test]
fn parses_and_selects_dial_targets() {
    let cfg = from_toml_str(SAMPLE).unwrap();
    assert_eq!(cfg.node.id, 1);
    assert_eq!(cfg.node.worker_id, 1);
    assert_eq!(cfg.peers.len(), 2);
    assert_eq!(cfg.peers_to_dial().len(), 2);
}

#[test]
fn rejects_self_in_peers() {
    let bad = r#"
        [node]
        id = 1
        worker_id = 1
        listen_addr = "x"
        [[peers]]
        id = 1
        addr = "y"
    "#;
    assert!(from_toml_str(bad).is_err());
}

#[test]
fn rejects_out_of_range_worker_id() {
    let bad = r#"
        [node]
        id = 1
        worker_id = 2000
        listen_addr = "x"
    "#;
    assert!(from_toml_str(bad).is_err());
}

fn cfg(id: u64, worker_id: u16, peers: &[u64]) -> ClusterConfig {
    ClusterConfig {
        node: NodeConfig { id, worker_id, listen_addr: "a".into() },
        peers: peers.iter().map(|&p| PeerConfig { id: p, addr: format!("h{p}") }).collect(),
    }
}

#[test]
fn validation_messages() {
    assert_eq!(
        cfg(1, 1024, &[]).validate(),
        Err(ConfigError::Invalid("worker_id 1024 out of range (0..=1023)".into()))
    );
    assert_eq!(
        cfg(1, 0, &[2, 1]).validate(),
        Err(ConfigError::Invalid("peer list must not contain self".into()))
    );
    assert_eq!(cfg(1, 0, &[2, 3, 2]).validate(), Err(ConfigError::Invalid("duplicate peer id 2".into())));
    assert_eq!(cfg(1, 1023, &[2, 3]).validate(), Ok(()));
    assert_eq!(
        ClusterConfig::from_parsed(Err("bad toml".into())),
        Err(ConfigError::Parse("bad toml".into()))
    );
}

#[test]
fn dial_targets_are_the_higher_ids() {
    let c = cfg(5, 0, &[9, 2, 7, 5]);
    let ids: Vec<u64> = c.peers_to_dial().iter().map(|p| p.id).collect();
    assert_eq!(ids, vec![9, 7]);
    // Of two nodes, exactly one dials the other.
    let a = cfg(2, 0, &[4]);
    let b = cfg(4, 0, &[2]);
    assert_eq!(a.peers_to_dial().len() + b.peers_to_dial().len(), 1);
}
