use docsore::adapter::{Document, Filter};
use docsore::collection::{found, records, Collection, Put};
use docsore::engine::{Lookup, Replacement, Write};
use docsore::error::StoreError;
use docsore::fingerprint::fingerprint;
use docsore::ledger::Relation;
use docsore::records::{Game, Person};

fn open() -> sled::Db {
    sled::Config::new().temporary(true).open().unwrap()
}

fn read(db: &sled::Db, lookup: &Lookup) -> Option<Vec<u8>> {
    let tree = db.open_tree(&lookup.partition).unwrap();
    tree.get(&lookup.key).unwrap().map(|value| value.to_vec())
}

fn write(db: &sled::Db, write: &Write) {
    let tree = db.open_tree(&write.partition).unwrap();
    tree.insert(write.key.clone(), write.value.clone()).unwrap();
}

fn remove(db: &sled::Db, lookup: &Lookup) {
    let tree = db.open_tree(&lookup.partition).unwrap();
    tree.remove(&lookup.key).unwrap();
}

fn scan(db: &sled::Db, partition: &[u8]) -> Vec<(Vec<u8>, Vec<u8>)> {
    let tree = db.open_tree(partition).unwrap();
    tree.iter().map(|entry| entry.unwrap()).map(|(k, v)| (k.to_vec(), v.to_vec())).collect()
}

fn replace(db: &sled::Db, replacement: &Replacement) {
    let tree = db.open_tree(&replacement.partition).unwrap();
    let mut batch = sled::Batch::default();
    for entry in tree.iter() {
        batch.remove(entry.unwrap().0);
    }
    for (key, value) in &replacement.entries {
        batch.insert(key.clone(), value.clone());
    }
    tree.apply_batch(batch).unwrap();
}

fn body(person: &Person) -> Vec<u8> {
    bincode::serialize(&(person.id_str(), person.name())).unwrap()
}

fn person(bytes: &[u8]) -> Person {
    let (id, name): (String, String) = bincode::deserialize(bytes).unwrap();
    Person::new(&id, &name)
}

fn save(db: &sled::Db, person: &Person) {
    write(db, &person.save(body(person)));
}

fn search(db: &sled::Db, collection: &Collection, fingerprint: Vec<u8>) -> Result<Vec<u8>, StoreError> {
    let owner = read(db, &collection.search(fingerprint));
    let lookup = collection.located(owner)?;
    found(read(db, &lookup))
}

fn attach(db: &sled::Db, source: &Person, name: &str, targets: &Vec<Relation>) {
    let attachment = source.make_relation(name, targets);
    let stored = read(db, &attachment.ledger);
    let merged = attachment.merge(stored.as_deref()).unwrap();
    write(db, &merged);
}

fn resolve(db: &sled::Db, source: &Person, name: &str) -> Result<Vec<Person>, StoreError> {
    let stored = read(db, &source.relation());
    let mut resolution = Person::resolve(stored.as_deref(), name)?;
    while let Some(lookup) = resolution.next() {
        resolution.supply(read(db, &lookup));
    }
    Ok(resolution.finish().iter().map(|bytes| person(bytes)).collect())
}

fn rebuild(db: &sled::Db) {
    let entries = records(scan(db, Person::collection().as_bytes()));
    let decoded: Vec<(Vec<u8>, Person)> =
        entries.into_iter().map(|(key, bytes)| (key, person(&bytes))).collect();
    replace(db, &Person::reindex(&decoded));
}

#[test]
fn put_then_get_round_trips() {
    let db = open();
    let persons = Collection::new("persons");
    let ana = Person::new("p1", "Ana");
    let put = persons.put(body(&ana), Some(ana.id()));
    let stored = match put {
        Put::Ready(stored) => stored,
        Put::AwaitingId(_) => panic!("an identifier was supplied"),
    };
    assert_eq!(stored.partition, b"persons".to_vec());
    assert_eq!(stored.key, b"p1".to_vec());
    write(&db, &stored);
    let bytes = found(read(&db, &persons.get(stored.key.clone()))).unwrap();
    assert_eq!(person(&bytes), ana);
}

#[test]
fn put_without_identifier_waits_for_one() {
    let db = open();
    let persons = Collection::new("persons");
    let mut keys: Vec<Vec<u8>> = Vec::new();
    for name in ["Ana", "Ben", "Cid"] {
        let pending = match persons.put(name.as_bytes().to_vec(), None) {
            Put::AwaitingId(pending) => pending,
            Put::Ready(_) => panic!("no identifier was supplied"),
        };
        let counter = db.generate_id().unwrap();
        let stored = pending.identified(counter);
        assert_eq!(stored.partition, b"persons".to_vec());
        assert_eq!(stored.key, counter.to_ne_bytes().to_vec());
        assert_eq!(stored.value, name.as_bytes().to_vec());
        write(&db, &stored);
        keys.push(stored.key);
    }
    assert_ne!(keys[0], keys[1]);
    assert_ne!(keys[1], keys[2]);
    assert_ne!(keys[0], keys[2]);
    assert_eq!(found(read(&db, &persons.get(keys[1].clone()))), Ok(b"Ben".to_vec()));
}

#[test]
fn get_of_an_absent_document_is_not_found() {
    let db = open();
    let persons = Collection::new("persons");
    assert_eq!(found(read(&db, &persons.get(b"nobody".to_vec()))), Err(StoreError::NotFound));
    assert_eq!(found(None), Err(StoreError::NotFound));
    assert_eq!(found(Some(vec![1, 2, 3])), Ok(vec![1, 2, 3]));
}

#[test]
fn save_overwrites_under_the_same_identifier() {
    let db = open();
    save(&db, &Person::new("p1", "Ana"));
    save(&db, &Person::new("p1", "Anna"));
    let persons = Collection::new("persons");
    let bytes = found(read(&db, &persons.get(b"p1".to_vec()))).unwrap();
    assert_eq!(person(&bytes), Person::new("p1", "Anna"));
    assert_eq!(scan(&db, b"persons").len(), 1);
}

#[test]
fn index_then_search_finds_the_document() {
    let db = open();
    let persons = Collection::new("persons");
    let ana = Person::new("p1", "Ana");
    save(&db, &ana);
    for upsert in persons.index(&ana.id(), &vec![fingerprint(b"Ana")]) {
        assert_eq!(upsert.partition, b"persons\x00\x02".to_vec());
        assert_eq!(upsert.value, b"p1".to_vec());
        write(&db, &upsert);
    }
    let bytes = search(&db, &persons, fingerprint(b"Ana")).unwrap();
    assert_eq!(person(&bytes), ana);
    assert_eq!(search(&db, &persons, fingerprint(b"Ben")), Err(StoreError::NotFound));
}

#[test]
fn persons_scenario() {
    let db = open();
    let persons = Collection::new("persons");
    let ana = Person::new("p1", "Ana");
    save(&db, &ana);
    for upsert in persons.index(&ana.id(), &vec![fingerprint(b"Ana")]) {
        write(&db, &upsert);
    }
    assert_eq!(person(&search(&db, &persons, fingerprint(b"Ana")).unwrap()), ana);
    let ben = Person::new("p2", "Ben");
    save(&db, &ben);
    attach(&db, &ana, "friends", &vec![Relation::from(&ben)]);
    assert_eq!(resolve(&db, &ana, "friends"), Ok(vec![ben]));
}

#[test]
fn find_starts_in_the_index() {
    let lookup = Person::find(Filter::Index(b"Ana".to_vec()));
    assert_eq!(lookup.partition, b"persons\x00\x02".to_vec());
    assert_eq!(lookup.key, b"Ana".to_vec());
    let lookup = Game::find(Filter::Index(fingerprint(b"Chess")));
    assert_eq!(lookup.partition, b"games\x00\x02".to_vec());
    assert_eq!(lookup.key, fingerprint(b"Chess"));
}

#[test]
fn indexing_is_idempotent() {
    let db = open();
    let ana = Person::new("p1", "Ana");
    for upsert in ana.index() {
        write(&db, &upsert);
    }
    let once = scan(&db, b"persons\x00\x02");
    for upsert in ana.index() {
        write(&db, &upsert);
    }
    assert_eq!(scan(&db, b"persons\x00\x02"), once);
    assert_eq!(once, vec![
        (b"Ana".to_vec(), b"p1".to_vec()),
        (b"p1".to_vec(), b"p1".to_vec()),
    ]);
}

#[test]
fn indexing_overwrites_the_owner_and_keeps_stale_entries() {
    let db = open();
    let persons = Collection::new("persons");
    let ana = Person::new("p1", "Ana");
    save(&db, &ana);
    for upsert in ana.index() {
        write(&db, &upsert);
    }
    let renamed = Person::new("p1", "Anna");
    save(&db, &renamed);
    for upsert in renamed.index() {
        write(&db, &upsert);
    }
    assert_eq!(person(&search(&db, &persons, b"Anna".to_vec()).unwrap()), renamed);
    assert_eq!(person(&search(&db, &persons, b"Ana".to_vec()).unwrap()), renamed);
    let namesake = Person::new("p2", "Anna");
    save(&db, &namesake);
    for upsert in namesake.index() {
        write(&db, &upsert);
    }
    assert_eq!(person(&search(&db, &persons, b"Anna".to_vec()).unwrap()), namesake);
}

#[test]
fn rebuild_resolves_every_present_fingerprint() {
    let db = open();
    let persons = Collection::new("persons");
    let people = [Person::new("p1", "Ana"), Person::new("p2", "Ben"), Person::new("p3", "Cid")];
    for one in &people {
        save(&db, one);
    }
    attach(&db, &people[0], "friends", &vec![Relation::from(&people[1])]);
    rebuild(&db);
    for one in &people {
        for produced in one.indexes() {
            assert_eq!(read(&db, &persons.search(produced)), Some(one.id()));
        }
    }
    assert_eq!(scan(&db, b"persons\x00\x02").len(), 6);
}

#[test]
fn rebuild_removes_stale_entries() {
    let db = open();
    let persons = Collection::new("persons");
    let ana = Person::new("p1", "Ana");
    save(&db, &ana);
    for upsert in ana.index() {
        write(&db, &upsert);
    }
    save(&db, &Person::new("p1", "Anna"));
    let ben = Person::new("p2", "Ben");
    save(&db, &ben);
    for upsert in ben.index() {
        write(&db, &upsert);
    }
    remove(&db, &persons.get(ben.id()));
    assert_eq!(search(&db, &persons, b"Ben".to_vec()), Err(StoreError::NotFound));
    assert_eq!(read(&db, &persons.search(b"Ben".to_vec())), Some(b"p2".to_vec()));
    rebuild(&db);
    assert_eq!(read(&db, &persons.search(b"Ana".to_vec())), None);
    assert_eq!(read(&db, &persons.search(b"Ben".to_vec())), None);
    assert_eq!(read(&db, &persons.search(b"p2".to_vec())), None);
    assert_eq!(read(&db, &persons.search(b"Anna".to_vec())), Some(b"p1".to_vec()));
    assert_eq!(search(&db, &persons, b"Ana".to_vec()), Err(StoreError::NotFound));
}

#[test]
fn rebuild_lets_the_last_record_own_a_shared_fingerprint() {
    let persons = Collection::new("persons");
    let replacement = persons.rebuild(&vec![
        (b"p1".to_vec(), vec![b"Ana".to_vec(), b"p1".to_vec()]),
        (b"p2".to_vec(), vec![b"Ana".to_vec()]),
        (b"p3".to_vec(), vec![]),
    ]);
    assert_eq!(replacement.partition, b"persons\x00\x02".to_vec());
    assert_eq!(replacement.entries, vec![
        (b"Ana".to_vec(), b"p1".to_vec()),
        (b"p1".to_vec(), b"p1".to_vec()),
        (b"Ana".to_vec(), b"p2".to_vec()),
    ]);
    let db = open();
    write(&db, &Write { partition: persons.indexes(), key: b"old".to_vec(), value: b"p0".to_vec() });
    replace(&db, &replacement);
    assert_eq!(scan(&db, &persons.indexes()), vec![
        (b"Ana".to_vec(), b"p2".to_vec()),
        (b"p1".to_vec(), b"p1".to_vec()),
    ]);
}

#[test]
fn ledgers_are_no_records() {
    let entries = vec![
        (b"p1".to_vec(), b"one".to_vec()),
        (vec![b'p', b'1', 0, 1], b"ledger".to_vec()),
        (b"p2".to_vec(), b"two".to_vec()),
        (vec![0, 1], b"ledger".to_vec()),
    ];
    assert_eq!(records(entries), vec![
        (b"p1".to_vec(), b"one".to_vec()),
        (b"p2".to_vec(), b"two".to_vec()),
    ]);
}

#[test]
fn relations_are_appended_and_kept_in_order() {
    let db = open();
    let ana = Person::new("p1", "Ana");
    let ben = Person::new("p2", "Ben");
    let cid = Person::new("p3", "Cid");
    for one in [&ana, &ben, &cid] {
        save(&db, one);
    }
    attach(&db, &ana, "friends", &vec![Relation::from(&ben)]);
    attach(&db, &ana, "friends", &vec![Relation::from(&cid)]);
    assert_eq!(resolve(&db, &ana, "friends"), Ok(vec![ben, cid]));
}

#[test]
fn relations_are_filtered_by_name_and_collection() {
    let db = open();
    let ana = Person::new("p1", "Ana");
    let ben = Person::new("p2", "Ben");
    let chess = Game::new("Chess", "g1");
    save(&db, &ana);
    save(&db, &ben);
    write(&db, &chess.save(b"chess".to_vec()));
    attach(&db, &ana, "friends", &vec![Relation::from(&ben)]);
    attach(&db, &ana, "plays", &vec![Relation::from(&chess)]);
    assert_eq!(resolve(&db, &ana, "friends"), Ok(vec![ben]));
    assert_eq!(resolve(&db, &ana, "plays"), Ok(vec![]));
    let stored = read(&db, &ana.relation());
    let mut games = Game::resolve(stored.as_deref(), "plays").unwrap();
    while let Some(lookup) = games.next() {
        games.supply(read(&db, &lookup));
    }
    assert_eq!(games.finish(), vec![b"chess".to_vec()]);
}

#[test]
fn removed_target_is_tolerated() {
    let db = open();
    let persons = Collection::new("persons");
    let ana = Person::new("p1", "Ana");
    let ben = Person::new("p2", "Ben");
    let cid = Person::new("p3", "Cid");
    for one in [&ana, &ben, &cid] {
        save(&db, one);
    }
    attach(&db, &ana, "friends", &vec![Relation::from(&ben), Relation::from(&cid)]);
    remove(&db, &persons.get(ben.id()));
    assert_eq!(resolve(&db, &ana, "friends"), Ok(vec![cid]));
}

#[test]
fn document_without_ledger_has_no_relations_to_resolve() {
    let db = open();
    let ana = Person::new("p1", "Ana");
    save(&db, &ana);
    assert_eq!(resolve(&db, &ana, "friends"), Err(StoreError::NotFound));
}

#[test]
fn error_messages() {
    assert_eq!(StoreError::NotFound.message(), "not found");
    assert_eq!(StoreError::StorageUnavailable.message(), "storage unavailable");
    assert_eq!(StoreError::SerializationError.message(), "value could not be serialized");
    assert_eq!(
        StoreError::DeserializationError.message(),
        "stored bytes could not be deserialized"
    );
}
