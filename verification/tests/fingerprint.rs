use docsore::adapter::Document;
use docsore::fingerprint::fingerprint;
use docsore::layout::native_order;
use docsore::records::{Game, Person, Pet};

#[test]
fn fingerprint_is_the_hash_in_native_order() {
    assert_eq!(
        fingerprint(b"to be or not to be"),
        1988685042348123509u64.to_ne_bytes().to_vec()
    );
    assert_eq!(fingerprint(b"Ana"), seahash::hash(b"Ana").to_ne_bytes().to_vec());
}

#[test]
fn fingerprint_differs_from_its_input() {
    assert_ne!(fingerprint(b"12345678"), b"12345678".to_vec());
    assert_ne!(fingerprint(b"Ana"), fingerprint(b"Ben"));
    assert_eq!(fingerprint(b"").len(), 8);
}

#[test]
fn native_order_is_one_of_the_two_byte_orders() {
    let bytes = native_order(0x0102030405060708);
    let little = vec![8u8, 7, 6, 5, 4, 3, 2, 1];
    let big = vec![1u8, 2, 3, 4, 5, 6, 7, 8];
    assert!(bytes == little || bytes == big);
    assert_eq!(bytes, 0x0102030405060708u64.to_ne_bytes().to_vec());
}

#[test]
fn distinct_counters_have_distinct_identifiers() {
    let ids: Vec<Vec<u8>> = (0u64..300).map(native_order).collect();
    for i in 0..ids.len() {
        for j in 0..i {
            assert_ne!(ids[i], ids[j]);
        }
    }
}

#[test]
fn person_is_found_by_name_and_identifier() {
    let ana = Person::new("p1", "Ana");
    assert_eq!(Person::collection(), "persons");
    assert_eq!(ana.id(), b"p1".to_vec());
    assert_eq!(ana.indexes(), vec![b"Ana".to_vec(), b"p1".to_vec()]);
}

#[test]
fn pet_is_kept_under_its_name() {
    let rex = Pet::new("Rex", true);
    assert_eq!(Pet::collection(), "pets");
    assert_eq!(rex.id(), b"Rex".to_vec());
    assert_eq!(rex.indexes(), vec![seahash::hash(b"Rex").to_ne_bytes().to_vec()]);
    assert!(rex.voice());
    assert_eq!(rex.pet_name(), "Rex");
}

#[test]
fn game_is_found_by_the_hash_of_its_name() {
    let chess = Game::new("Chess", "g1");
    assert_eq!(Game::collection(), "games");
    assert_eq!(chess.id(), b"g1".to_vec());
    assert_eq!(chess.indexes(), vec![seahash::hash(b"Chess").to_ne_bytes().to_vec()]);
    assert_eq!(chess.name(), "Chess");
    assert_eq!(chess.id_str(), "g1");
}
