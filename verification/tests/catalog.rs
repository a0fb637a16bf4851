use soulbound_market::catalog::{Catalog, SimpleNonFungibleToken};

fn item(token_id: &str, name: &str, price: u128, creator: &str) -> SimpleNonFungibleToken {
    SimpleNonFungibleToken {
        token_id: token_id.to_string(),
        name: name.to_string(),
        description: format!("about {}", name),
        extra: None,
        price,
        creator: creator.to_string(),
    }
}

#[test]
fn empty_catalog_finds_nothing() {
    let catalog = Catalog::new();
    assert_eq!(catalog.get("song-1"), None);
    assert_eq!(catalog.get(""), None);
}

#[test]
fn put_then_get() {
    let mut catalog = Catalog::new();
    catalog.put(item("song-1", "One", 100, "alice"));
    catalog.put(item("song-2", "Two", 200, "bob"));
    assert_eq!(catalog.get("song-1"), Some(item("song-1", "One", 100, "alice")));
    assert_eq!(catalog.get("song-2"), Some(item("song-2", "Two", 200, "bob")));
    assert_eq!(catalog.get("song-3"), None);
}

#[test]
fn put_overwrites_by_id() {
    let mut catalog = Catalog::new();
    catalog.put(item("song-1", "One", 100, "alice"));
    catalog.put(item("song-2", "Two", 200, "bob"));
    catalog.put(item("song-1", "Uno", 7, "carol"));
    assert_eq!(catalog.get("song-1"), Some(item("song-1", "Uno", 7, "carol")));
    assert_eq!(catalog.get("song-2"), Some(item("song-2", "Two", 200, "bob")));
}

#[test]
fn clone_keeps_every_field() {
    let mut first = item("song-1", "One", 100, "alice");
    first.extra = Some("{}".to_string());
    assert_eq!(first.clone(), first);
}
