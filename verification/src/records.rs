//! Three record types that take part in the store.

use vstd::prelude::*;
use vstd::utf8::encode_utf8;
use crate::adapter::Document;
use crate::fingerprint::HashIndex;
use crate::fingerprint::fingerprint;
use crate::fingerprint::is_fingerprint_of;

verus! {

/// A person, kept in `persons`. A person is found by name and by
/// identifier, each under the plain bytes of the text.
#[derive(Clone, Debug, PartialEq, Eq)]
pub struct Person {
    id: String,
    name: String,
}

/// A pet, kept in `pets` under its name and found by the hash of its name.
#[derive(Clone, Debug, PartialEq, Eq)]
pub struct Pet {
    pet_name: String,
    voice: bool,
}

/// A game, kept in `games` and found by the hash of its name.
#[derive(Clone, Debug, PartialEq, Eq)]
pub struct Game {
    name: String,
    id: String,
}

impl Person {
    /// The text of the identifier.
    pub closed spec fn id_text(&self) -> Seq<char> {
        self.id@
    }

    /// The text of the name.
    pub closed spec fn name_text(&self) -> Seq<char> {
        self.name@
    }

    /// The person `name` with the identifier `id`.
    pub fn new(id: &str, name: &str) -> (person: Person)
        ensures
            person.id_text() == id@,
            person.name_text() == name@,
    {
        Person { id: id.to_owned(), name: name.to_owned() }
    }

    /// The identifier, as text.
    pub fn id_str(&self) -> (id: &str)
        ensures
            id@ == self.id_text(),
    {
        self.id.as_str()
    }

    /// The name.
    pub fn name(&self) -> (name: &str)
        ensures
            name@ == self.name_text(),
    {
        self.name.as_str()
    }
}

impl Document for Person {
    open spec fn collection_name() -> Seq<char> {
        "persons"@
    }

    open spec fn identifier(&self) -> Seq<u8> {
        encode_utf8(self.id_text())
    }

    open spec fn produces(&self, fingerprints: Seq<Seq<u8>>) -> bool {
        fingerprints == seq![encode_utf8(self.name_text()), encode_utf8(self.id_text())]
    }

    fn collection() -> (name: &'static str) {
        "persons"
    }

    fn indexes(&self) -> (fingerprints: Vec<HashIndex>) {
        let mut fingerprints: Vec<HashIndex> = Vec::new();
        let by_name = self.name.as_str().as_bytes_vec();
        let by_id = self.id.as_str().as_bytes_vec();
        assert(by_name.deep_view() =~= by_name@);
        assert(by_id.deep_view() =~= by_id@);
        fingerprints.push(by_name);
        fingerprints.push(by_id);
        assert(fingerprints.deep_view() =~= seq![
            encode_utf8(self.name_text()),
            encode_utf8(self.id_text()),
        ]);
        fingerprints
    }

    fn id(&self) -> (id: Vec<u8>) {
        self.id.as_str().as_bytes_vec()
    }
}

impl Pet {
    /// The text of the name.
    pub closed spec fn name_text(&self) -> Seq<char> {
        self.pet_name@
    }

    /// Whether the pet has a voice.
    pub closed spec fn has_voice(&self) -> bool {
        self.voice
    }

    /// The pet called `pet_name`.
    pub fn new(pet_name: &str, voice: bool) -> (pet: Pet)
        ensures
            pet.name_text() == pet_name@,
            pet.has_voice() == voice,
    {
        Pet { pet_name: pet_name.to_owned(), voice }
    }

    /// The name.
    pub fn pet_name(&self) -> (name: &str)
        ensures
            name@ == self.name_text(),
    {
        self.pet_name.as_str()
    }

    /// Whether the pet has a voice.
    pub fn voice(&self) -> (voice: bool)
        ensures
            voice == self.has_voice(),
    {
        self.voice
    }
}

impl Document for Pet {
    open spec fn collection_name() -> Seq<char> {
        "pets"@
    }

    open spec fn identifier(&self) -> Seq<u8> {
        encode_utf8(self.name_text())
    }

    open spec fn produces(&self, fingerprints: Seq<Seq<u8>>) -> bool {
        fingerprints.len() == 1 && is_fingerprint_of(fingerprints[0], encode_utf8(self.name_text()))
    }

    fn collection() -> (name: &'static str) {
        "pets"
    }

    fn indexes(&self) -> (fingerprints: Vec<HashIndex>) {
        let mut fingerprints: Vec<HashIndex> = Vec::new();
        let by_name = fingerprint(self.pet_name.as_str().as_bytes());
        assert(by_name.deep_view() =~= by_name@);
        fingerprints.push(by_name);
        assert(fingerprints.deep_view()[0] == by_name@);
        fingerprints
    }

    fn id(&self) -> (id: Vec<u8>) {
        self.pet_name.as_str().as_bytes_vec()
    }
}

impl Game {
    /// The text of the identifier.
    pub closed spec fn id_text(&self) -> Seq<char> {
        self.id@
    }

    /// The text of the name.
    pub closed spec fn name_text(&self) -> Seq<char> {
        self.name@
    }

    /// The game `name` with the identifier `id`.
    pub fn new(name: &str, id: &str) -> (game: Game)
        ensures
            game.name_text() == name@,
            game.id_text() == id@,
    {
        Game { name: name.to_owned(), id: id.to_owned() }
    }

    /// The identifier, as text.
    pub fn id_str(&self) -> (id: &str)
        ensures
            id@ == self.id_text(),
    {
        self.id.as_str()
    }

    /// The name.
    pub fn name(&self) -> (name: &str)
        ensures
            name@ == self.name_text(),
    {
        self.name.as_str()
    }
}

impl Document for Game {
    open spec fn collection_name() -> Seq<char> {
        "games"@
    }

    open spec fn identifier(&self) -> Seq<u8> {
        encode_utf8(self.id_text())
    }

    open spec fn produces(&self, fingerprints: Seq<Seq<u8>>) -> bool {
        fingerprints.len() == 1 && is_fingerprint_of(fingerprints[0], encode_utf8(self.name_text()))
    }

    fn collection() -> (name: &'static str) {
        "games"
    }

    fn indexes(&self) -> (fingerprints: Vec<HashIndex>) {
        let mut fingerprints: Vec<HashIndex> = Vec::new();
        let by_name = fingerprint(self.name.as_str().as_bytes());
        assert(by_name.deep_view() =~= by_name@);
        fingerprints.push(by_name);
        assert(fingerprints.deep_view()[0] == by_name@);
        fingerprints
    }

    fn id(&self) -> (id: Vec<u8>) {
        self.id.as_str().as_bytes_vec()
    }
}

} // verus!
