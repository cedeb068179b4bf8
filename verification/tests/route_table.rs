use tinyserver::routes::{download, index, register_routes, ResourceDescriptor, RouteTable};

#[test]
fn registered_paths_resolve_to_their_descriptors() {
    let routes = register_routes();
    let d = routes.resolve(b"/").expect("/ is registered");
    assert_eq!(d.name, b"hello.html".to_vec());
    assert_eq!(d.kind, b"text/html".to_vec());
    let d = routes.resolve(b"/download").expect("/download is registered");
    assert_eq!(d.name, b"test.mp3".to_vec());
    assert_eq!(d.kind, b"audio/mpeg".to_vec());
}

#[test]
fn unregistered_paths_do_not_resolve() {
    let routes = register_routes();
    assert!(routes.resolve(b"/missing").is_none());
    assert!(routes.resolve(b"").is_none());
    // Exact match only: a query string is part of the path.
    assert!(routes.resolve(b"/?q=1").is_none());
    assert!(routes.resolve(b"/downloads").is_none());
}

#[test]
fn register_and_resolve_round_trip() {
    let mut table = RouteTable::new();
    table.register(b"/a".to_vec(), ResourceDescriptor::new(b"a.html".to_vec(), b"text/html".to_vec()));
    table.register(b"/b".to_vec(), ResourceDescriptor::new(b"b.bin".to_vec(), b"application/octet-stream".to_vec()));
    let d = table.resolve(b"/a").unwrap();
    assert_eq!(d.name, b"a.html".to_vec());
    let d = table.resolve(b"/b").unwrap();
    assert_eq!(d.kind, b"application/octet-stream".to_vec());
    assert!(table.resolve(b"/c").is_none());
}

#[test]
fn handlers_yield_fixed_descriptors() {
    let d = index();
    assert_eq!(d.name, b"hello.html".to_vec());
    assert_eq!(d.kind, b"text/html".to_vec());
    let d = download();
    assert_eq!(d.name, b"test.mp3".to_vec());
    assert_eq!(d.kind, b"audio/mpeg".to_vec());
}
