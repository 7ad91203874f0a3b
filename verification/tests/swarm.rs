use silo::infer_mime_type;
use silo::swarm::{NodeCapabilities, PeerDiscovery, SwarmNode, SwarmNodeManager};
use silo::vault::VaultSync;

#[test]
fn discovery_starts_and_finds_nothing() {
    let mut discovery = PeerDiscovery::new().unwrap();
    assert_eq!(discovery.start_discovery(), Ok(()));
}

#[test]
fn a_node_manager_knows_its_id_and_no_peers() {
    let mut manager = SwarmNodeManager::new().unwrap();
    let id = manager.local_peer_id().clone();
    assert!(!id.is_empty());
    assert_eq!(manager.start(), Ok(()));
    assert!(manager.discover_peers().unwrap().is_empty());
    assert_eq!(manager.get_node_capabilities("node-2"), None);
    assert_eq!(manager.get_node_capabilities(&id), None);
    assert_eq!(manager.local_peer_id(), &id);
    let other = SwarmNodeManager::new().unwrap();
    assert_ne!(other.local_peer_id(), &id);
    for id in [id.as_str(), other.local_peer_id().as_str()] {
        let chars: Vec<char> = id.chars().collect();
        assert_eq!(chars.len(), 36);
        for (i, c) in chars.iter().enumerate() {
            if i == 8 || i == 13 || i == 18 || i == 23 {
                assert_eq!(*c, '-');
            } else {
                assert!(matches!(*c, '0'..='9' | 'a'..='f'), "{:?} at {}", c, i);
            }
        }
    }
}

#[test]
fn a_node_holds_what_it_offers() {
    let node = SwarmNode {
        peer_id: "p".to_string(),
        address: "192.168.1.2:4001".to_string(),
        capabilities: NodeCapabilities { gpu_memory_gb: Some(8), cpu_cores: 4, available: true },
    };
    let copy = node.clone();
    assert_eq!(copy.capabilities, node.capabilities);
    assert_eq!(copy.peer_id, "p");
}

#[test]
fn vault_sync_starts_and_sends_nothing() {
    let mut sync = VaultSync::new().unwrap();
    assert_eq!(sync.start(), Ok(()));
    assert_eq!(sync.sync_to_peers(), Ok(()));
}

#[test]
fn mime_types_go_by_the_extension() {
    assert_eq!(infer_mime_type("notes.txt"), "text/plain");
    assert_eq!(infer_mime_type("README.md"), "text/plain");
    assert_eq!(infer_mime_type("a.markdown"), "text/plain");
    assert_eq!(infer_mime_type("data.json"), "application/json");
    assert_eq!(infer_mime_type("c.yaml"), "text/yaml");
    assert_eq!(infer_mime_type("c.yml"), "text/yaml");
    assert_eq!(infer_mime_type("s.py"), "text/x-python");
    assert_eq!(infer_mime_type("m.rs"), "text/x-rust");
    for p in ["a.js", "a.ts", "a.jsx", "a.tsx"] {
        assert_eq!(infer_mime_type(p), "text/javascript");
    }
    assert_eq!(infer_mime_type("i.html"), "text/html");
    assert_eq!(infer_mime_type("i.htm"), "text/html");
    assert_eq!(infer_mime_type("s.css"), "text/css");
    assert_eq!(infer_mime_type("p.pdf"), "application/pdf");
}

#[test]
fn mime_types_take_the_last_extension_in_any_case() {
    assert_eq!(infer_mime_type("/home/u/Report.PDF"), "application/pdf");
    assert_eq!(infer_mime_type("archive.json.txt"), "text/plain");
    assert_eq!(infer_mime_type("archive.tar.gz"), "application/octet-stream");
}

#[test]
fn mime_type_of_a_path_without_a_known_extension() {
    assert_eq!(infer_mime_type(""), "application/octet-stream");
    assert_eq!(infer_mime_type("Makefile"), "application/octet-stream");
    assert_eq!(infer_mime_type("txt"), "text/plain");
    assert_eq!(infer_mime_type("dir.d/file"), "application/octet-stream");
    assert_eq!(infer_mime_type("trailing."), "application/octet-stream");
}
