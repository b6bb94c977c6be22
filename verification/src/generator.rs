//! The capability generator: from a short declaration on a record type to
//! the glue that lets the type take part in the store.
//!
//! A declaration names the type, says what shape it has, lists its fields
//! and carries two options: the collection (by default the type's own
//! name) and a comma-separated list of the fields to index (by default
//! none). Generation fails when the type is not a record with named
//! fields, or when a field the glue would read is not there.

use vstd::prelude::*;
use vstd::string::StringExecFns;
use crate::views::lemma_deep_view_push;

verus! {

/// The shape of the type a declaration is attached to.
#[derive(Clone, Copy, Debug, PartialEq, Eq, Structural)]
pub enum Shape {
    /// A struct with named fields: the one shape that is supported.
    NamedStruct,
    /// A struct with positional fields.
    TupleStruct,
    /// A struct without fields.
    UnitStruct,
    /// An enum.
    Enum,
    /// A union.
    Union,
}

/// Why no capability could be generated.
#[derive(Clone, Debug, PartialEq, Eq)]
pub enum GenerationError {
    /// The declaration is attached to something other than a struct with
    /// named fields.
    UnsupportedShape,
    /// The type has no field of this name.
    MissingField(String),
}

impl GenerationError {
    /// A short description for build output.
    pub fn message(&self) -> (text: String)
        ensures
            text@ == match *self {
                GenerationError::UnsupportedShape => "only a struct with named fields is supported"@,
                GenerationError::MissingField(name) => "the type has no field "@ + name@,
            },
    {
        match self {
            GenerationError::UnsupportedShape => {
                "only a struct with named fields is supported".to_owned()
            },
            GenerationError::MissingField(name) => {
                "the type has no field ".to_owned().concat(name.as_str())
            },
        }
    }
}

/// Whether `c` is white space, as Unicode defines it.
pub open spec fn is_space(c: char) -> bool {
    let code = c as u32;
    ||| 0x09 <= code <= 0x0D
    ||| code == 0x20
    ||| code == 0x85
    ||| code == 0xA0
    ||| code == 0x1680
    ||| 0x2000 <= code <= 0x200A
    ||| code == 0x2028
    ||| code == 0x2029
    ||| code == 0x202F
    ||| code == 0x205F
    ||| code == 0x3000
}

/// `s` without the white space at its two ends.
pub open spec fn trimmed(s: Seq<char>) -> Seq<char>
    decreases s.len(),
{
    if s.len() > 0 && is_space(s.first()) {
        trimmed(s.drop_first())
    } else if s.len() > 0 && is_space(s.last()) {
        trimmed(s.drop_last())
    } else {
        s
    }
}

/// The pieces between the commas of `s`, in order. There is always one
/// more piece than there are commas, so the empty text has one empty
/// piece.
pub open spec fn pieces(s: Seq<char>) -> Seq<Seq<char>>
    decreases s.len(),
{
    if s.len() == 0 {
        seq![Seq::<char>::empty()]
    } else {
        let before = pieces(s.drop_last());
        if s.last() == ',' {
            before.push(Seq::<char>::empty())
        } else {
            before.drop_last().push(before.last().push(s.last()))
        }
    }
}

/// The names in a comma-separated list: its pieces, each trimmed.
/// Duplicates stay, and so does the order.
pub open spec fn names_in(list: Seq<char>) -> Seq<Seq<char>> {
    Seq::new(pieces(list).len(), |i: int| trimmed(pieces(list)[i]))
}

/// `parts` with a comma between each two neighbours.
pub open spec fn joined(parts: Seq<Seq<char>>) -> Seq<char>
    decreases parts.len(),
{
    if parts.len() == 0 {
        Seq::empty()
    } else if parts.len() == 1 {
        parts[0]
    } else {
        joined(parts.drop_last()) + seq![','] + parts.last()
    }
}

/// The pieces of a text are what stands between its commas: there is at
/// least one, none holds a comma, and with the commas put back between
/// them they are the text again.
pub proof fn lemma_pieces_rejoin(s: Seq<char>)
    ensures
        pieces(s).len() >= 1,
        joined(pieces(s)) == s,
        forall|i: int| 0 <= i < pieces(s).len() ==> !(#[trigger] pieces(s)[i]).contains(','),
    decreases s.len(),
{
    if s.len() == 0 {
        assert(joined(pieces(s)) =~= s);
    } else {
        let before = pieces(s.drop_last());
        let c = s.last();
        lemma_pieces_rejoin(s.drop_last());
        assert(s =~= s.drop_last().push(c));
        if c == ',' {
            let now = before.push(Seq::<char>::empty());
            assert(now.drop_last() =~= before);
            assert(joined(now) =~= joined(before) + seq![',']);
            assert(joined(now) =~= s);
        } else {
            let grown = before.last().push(c);
            let now = before.drop_last().push(grown);
            assert(now.drop_last() =~= before.drop_last());
            if before.len() == 1 {
                assert(joined(now) =~= joined(before).push(c));
            } else {
                assert(joined(now) =~= joined(before).push(c));
            }
            assert forall|i: int| 0 <= i < now.len() implies !(#[trigger] now[i]).contains(',') by {
                if i == now.len() - 1 {
                    if grown.contains(',') {
                        let k = choose|k: int| 0 <= k < grown.len() && grown[k] == ',';
                        assert(before.last()[k] == ',');
                        assert(before.last().contains(','));
                    }
                } else {
                    assert(now[i] == before[i]);
                }
            }
        }
    }
}

/// What trimming leaves neither starts nor ends in white space.
pub proof fn lemma_trimmed_has_bare_ends(s: Seq<char>)
    ensures
        trimmed(s).len() > 0 ==> !is_space(trimmed(s).first()) && !is_space(trimmed(s).last()),
    decreases s.len(),
{
    if s.len() > 0 && is_space(s.first()) {
        lemma_trimmed_has_bare_ends(s.drop_first());
    } else if s.len() > 0 && is_space(s.last()) {
        lemma_trimmed_has_bare_ends(s.drop_last());
    }
}

fn is_space_char(c: char) -> (yes: bool)
    ensures
        yes == is_space(c),
{
    let code: u32 = c as u32;
    (0x09 <= code && code <= 0x0D) || code == 0x20 || code == 0x85 || code == 0xA0 || code == 0x1680
        || (0x2000 <= code && code <= 0x200A) || code == 0x2028 || code == 0x2029 || code == 0x202F
        || code == 0x205F || code == 0x3000
}

/// The characters `from..to` of `list`, trimmed.
fn trimmed_span(list: &str, from: usize, to: usize) -> (out: String)
    requires
        from <= to <= list@.len(),
    ensures
        out@ == trimmed(list@.subrange(from as int, to as int)),
{
    let mut a: usize = from;
    let mut b: usize = to;
    let mut scanning = true;
    while scanning && a < b
        invariant
            from <= a <= b <= to <= list@.len(),
            !scanning ==> a < b && !is_space(list@[a as int]),
            trimmed(list@.subrange(from as int, to as int)) == trimmed(
                list@.subrange(a as int, b as int),
            ),
        decreases (b - a) + (if scanning { 1int } else { 0int }),
    {
        if is_space_char(list.get_char(a)) {
            assert(list@.subrange(a as int, b as int).drop_first() =~= list@.subrange(
                a as int + 1,
                b as int,
            ));
            a += 1;
        } else {
            scanning = false;
        }
    }
    scanning = true;
    while scanning && a < b
        invariant
            from <= a <= b <= to <= list@.len(),
            a < b ==> !is_space(list@[a as int]),
            !scanning ==> a < b && !is_space(list@[b as int - 1]),
            trimmed(list@.subrange(from as int, to as int)) == trimmed(
                list@.subrange(a as int, b as int),
            ),
        decreases (b - a) + (if scanning { 1int } else { 0int }),
    {
        if is_space_char(list.get_char(b - 1)) {
            assert(list@.subrange(a as int, b as int).drop_last() =~= list@.subrange(
                a as int,
                b as int - 1,
            ));
            b -= 1;
        } else {
            scanning = false;
        }
    }
    list.substring_char(a, b).to_owned()
}

/// Splits a comma-separated list into its trimmed names.
pub fn names_in_list(list: &str) -> (names: Vec<String>)
    ensures
        names.deep_view() == names_in(list@),
{
    let n = list.unicode_len();
    let mut names: Vec<String> = Vec::new();
    let mut start: usize = 0;
    let mut i: usize = 0;
    assert(list@.take(0) =~= Seq::<char>::empty());
    while i < n
        invariant
            n == list@.len(),
            start <= i <= n,
            pieces(list@.take(i as int)).len() == names.len() + 1,
            pieces(list@.take(i as int)).last() == list@.subrange(start as int, i as int),
            forall|k: int|
                0 <= k < names.len() ==> (#[trigger] names[k])@ == trimmed(
                    pieces(list@.take(i as int))[k],
                ),
        decreases n - i,
    {
        let c = list.get_char(i);
        proof {
            let now = list@.take(i as int + 1);
            assert(now.drop_last() =~= list@.take(i as int));
            assert(now.last() == list@[i as int]);
        }
        if c == ',' {
            let name = trimmed_span(list, start, i);
            names.push(name);
            start = i + 1;
            assert(list@.subrange(start as int, i as int + 1) =~= Seq::<char>::empty());
        } else {
            assert(list@.subrange(start as int, i as int).push(c) =~= list@.subrange(
                start as int,
                i as int + 1,
            ));
        }
        i += 1;
    }
    assert(list@.take(n as int) =~= list@);
    let name = trimmed_span(list, start, n);
    names.push(name);
    assert(names.deep_view() =~= names_in(list@)) by {
        assert(names.deep_view().len() == names_in(list@).len());
        assert forall|k: int| 0 <= k < names.len() implies names.deep_view()[k] == names_in(
            list@,
        )[k] by {
            assert(names.deep_view()[k] == names[k]@);
        }
    }
    names
}

/// What is declared on a type: its name, its shape, its fields and the two
/// options of the declaration.
#[derive(Clone, Debug)]
pub struct Declaration {
    /// The name of the type.
    pub ident: String,
    /// The shape of the type.
    pub shape: Shape,
    /// The names of the type's fields, in declaration order.
    pub fields: Vec<String>,
    /// The collection, where the declaration sets one.
    pub collection: Option<String>,
    /// The comma-separated list of fields to index, where there is one.
    pub index: Option<String>,
}

/// The field every generated identifier is read from.
pub open spec fn id_field() -> Seq<char> {
    "id"@
}

/// The first of `names` that is not among `fields`.
pub open spec fn first_absent(names: Seq<Seq<char>>, fields: Seq<Seq<char>>) -> Option<Seq<char>>
    decreases names.len(),
{
    if names.len() == 0 {
        None
    } else if !fields.contains(names.first()) {
        Some(names.first())
    } else {
        first_absent(names.drop_first(), fields)
    }
}

impl Declaration {
    /// The names of the type's fields.
    pub open spec fn field_names(&self) -> Seq<Seq<char>> {
        self.fields.deep_view()
    }

    /// The collection the type belongs to: the declared one, else the
    /// type's own name.
    pub open spec fn collection_name(&self) -> Seq<char> {
        match self.collection {
            Some(name) => name@,
            None => self.ident@,
        }
    }

    /// The fields to index, in declared order.
    pub open spec fn index_names(&self) -> Seq<Seq<char>> {
        match self.index {
            Some(list) => names_in(list@),
            None => Seq::empty(),
        }
    }

    /// The first field the glue would read and the type does not have:
    /// the identifier field is looked for first, then the indexed fields
    /// in declared order.
    pub open spec fn first_missing(&self) -> Option<Seq<char>> {
        first_absent(seq![id_field()] + self.index_names(), self.field_names())
    }

    /// Whether a capability can be generated from this declaration.
    pub open spec fn derivable(&self) -> bool {
        self.shape == Shape::NamedStruct && self.first_missing() is None
    }
}

/// The generated glue of one type: where its documents live and which of
/// its fields give the identifier and the fingerprints.
#[derive(Clone, Debug)]
pub struct Capability {
    collection: String,
    index: Vec<String>,
}

impl Capability {
    /// The collection of the type.
    pub closed spec fn collection_name(&self) -> Seq<char> {
        self.collection@
    }

    /// The indexed fields, in declared order.
    pub closed spec fn index_names(&self) -> Seq<Seq<char>> {
        self.index.deep_view()
    }

    /// The collection of the type.
    pub fn collection(&self) -> (name: &str)
        ensures
            name@ == self.collection_name(),
    {
        self.collection.as_str()
    }

    /// The indexed fields, in declared order.
    pub fn index_fields(&self) -> (names: &Vec<String>)
        ensures
            names.deep_view() == self.index_names(),
    {
        &self.index
    }
}

/// Whether `name` is one of `fields`.
fn has_field(fields: &Vec<String>, name: &String) -> (yes: bool)
    ensures
        yes == fields.deep_view().contains(name@),
{
    let mut i: usize = 0;
    while i < fields.len()
        invariant
            i <= fields.len(),
            forall|k: int| 0 <= k < i ==> fields.deep_view()[k] != name@,
        decreases fields.len() - i,
    {
        if fields[i] == *name {
            assert(fields.deep_view()[i as int] == name@);
            return true;
        }
        i += 1;
    }
    false
}

/// Generates the capability that `input` declares.
///
/// Fails with `UnsupportedShape` when the type is not a struct with named
/// fields, and otherwise with `MissingField` and the first field that the
/// glue would read and the type lacks.
pub fn derive(input: &Declaration) -> (result: Result<Capability, GenerationError>)
    ensures
        match result {
            Ok(capability) => {
                &&& input.derivable()
                &&& capability.collection_name() == input.collection_name()
                &&& capability.index_names() == input.index_names()
            },
            Err(GenerationError::UnsupportedShape) => input.shape != Shape::NamedStruct,
            Err(GenerationError::MissingField(name)) => {
                &&& input.shape == Shape::NamedStruct
                &&& input.first_missing() == Some(name@)
            },
        },
{
    match input.shape {
        Shape::NamedStruct => {},
        _ => {
            return Err(GenerationError::UnsupportedShape);
        },
    }
    let collection = match &input.collection {
        Some(name) => name.clone(),
        None => input.ident.clone(),
    };
    let index = match &input.index {
        Some(list) => names_in_list(list.as_str()),
        None => Vec::new(),
    };
    assert(index.deep_view() =~= input.index_names());
    let id = "id".to_owned();
    let ghost required = seq![id_field()] + input.index_names();
    if !has_field(&input.fields, &id) {
        return Err(GenerationError::MissingField(id));
    }
    assert(required.first() == id@);
    assert(required.drop_first() =~= input.index_names());
    assert(input.index_names().skip(0) =~= input.index_names());
    let mut i: usize = 0;
    while i < index.len()
        invariant
            i <= index.len(),
            input.shape == Shape::NamedStruct,
            index.deep_view() == input.index_names(),
            input.first_missing() == first_absent(
                input.index_names().skip(i as int),
                input.field_names(),
            ),
        decreases index.len() - i,
    {
        let ghost rest = input.index_names().skip(i as int);
        assert(rest.first() == index.deep_view()[i as int]);
        assert(rest.drop_first() =~= input.index_names().skip(i as int + 1));
        if !has_field(&input.fields, &index[i]) {
            let name = index[i].clone();
            assert(name@ == rest.first());
            return Err(GenerationError::MissingField(name));
        }
        i += 1;
    }
    Ok(Capability { collection, index })
}

/// A record as the generated glue sees it: its fields by name, each with
/// the bytes of its text.
#[derive(Clone, Debug)]
pub struct Record {
    /// The fields, in declaration order.
    pub fields: Vec<(String, Vec<u8>)>,
}

/// The bytes of the first of `fields` that is called `name`.
pub open spec fn field_bytes(fields: Seq<(Seq<char>, Seq<u8>)>, name: Seq<char>) -> Option<
    Seq<u8>,
>
    decreases fields.len(),
{
    if fields.len() == 0 {
        None
    } else if fields.first().0 == name {
        Some(fields.first().1)
    } else {
        field_bytes(fields.drop_first(), name)
    }
}

/// The bytes of each of `names`, in the order of `names`; nothing where
/// one of them is not a field.
pub open spec fn fields_bytes(fields: Seq<(Seq<char>, Seq<u8>)>, names: Seq<Seq<char>>) -> Option<
    Seq<Seq<u8>>,
>
    decreases names.len(),
{
    if names.len() == 0 {
        Some(Seq::empty())
    } else {
        match (fields_bytes(fields, names.drop_last()), field_bytes(fields, names.last())) {
            (Some(head), Some(last)) => Some(head.push(last)),
            _ => None,
        }
    }
}

impl Record {
    /// The bytes of the field `name`.
    pub fn field(&self, name: &String) -> (bytes: Option<Vec<u8>>)
        ensures
            match bytes {
                Some(bytes) => field_bytes(self.fields.deep_view(), name@) == Some(bytes@),
                None => field_bytes(self.fields.deep_view(), name@) is None,
            },
    {
        let ghost all = self.fields.deep_view();
        let mut i: usize = 0;
        assert(all.skip(0) =~= all);
        while i < self.fields.len()
            invariant
                i <= self.fields.len(),
                all == self.fields.deep_view(),
                field_bytes(all, name@) == field_bytes(all.skip(i as int), name@),
            decreases self.fields.len() - i,
        {
            let ghost rest = all.skip(i as int);
            assert(rest.first() == all[i as int]);
            assert(rest.drop_first() =~= all.skip(i as int + 1));
            if self.fields[i].0 == *name {
                let bytes = self.fields[i].1.clone();
                assert(bytes@ =~= all[i as int].1);
                return Some(bytes);
            }
            i += 1;
        }
        None
    }
}

impl Capability {
    /// The identifier of `record`: the bytes of its `id` field. There is
    /// none exactly when the record has no such field.
    pub fn id(&self, record: &Record) -> (id: Option<Vec<u8>>)
        ensures
            match id {
                Some(id) => field_bytes(record.fields.deep_view(), id_field()) == Some(id@),
                None => field_bytes(record.fields.deep_view(), id_field()) is None,
            },
    {
        let name = "id".to_owned();
        record.field(&name)
    }

    /// The fingerprints of `record`: the bytes of each indexed field, in
    /// declared order, one for every name however often it is repeated.
    /// There are none exactly when the record lacks one of the fields.
    pub fn indexes(&self, record: &Record) -> (fingerprints: Option<Vec<Vec<u8>>>)
        ensures
            match fingerprints {
                Some(fingerprints) => fields_bytes(record.fields.deep_view(), self.index_names())
                    == Some(fingerprints.deep_view()),
                None => fields_bytes(record.fields.deep_view(), self.index_names()) is None,
            },
    {
        let ghost names = self.index.deep_view();
        let ghost fields = record.fields.deep_view();
        let mut out: Vec<Vec<u8>> = Vec::new();
        let mut i: usize = 0;
        assert(names.take(0) =~= Seq::<Seq<char>>::empty());
        assert(out.deep_view() =~= Seq::<Seq<u8>>::empty());
        while i < self.index.len()
            invariant
                i <= self.index.len(),
                names == self.index.deep_view(),
                fields == record.fields.deep_view(),
                fields_bytes(fields, names.take(i as int)) == Some(out.deep_view()),
            decreases self.index.len() - i,
        {
            let ghost now = names.take(i as int + 1);
            assert(now.drop_last() =~= names.take(i as int));
            assert(now.last() == self.index[i as int]@);
            let ghost before = out;
            match record.field(&self.index[i]) {
                Some(bytes) => {
                    assert(bytes.deep_view() =~= bytes@);
                    out.push(bytes);
                    proof {
                        lemma_deep_view_push(before, out, bytes);
                    }
                },
                None => {
                    proof {
                        lemma_fields_bytes_prefix(fields, names, i as int + 1);
                    }
                    return None;
                },
            }
            i += 1;
        }
        assert(names.take(i as int) =~= names);
        Some(out)
    }
}

/// Where a prefix of `names` has a missing field, so has all of `names`.
proof fn lemma_fields_bytes_prefix(
    fields: Seq<(Seq<char>, Seq<u8>)>,
    names: Seq<Seq<char>>,
    n: int,
)
    requires
        0 <= n <= names.len(),
        fields_bytes(fields, names.take(n)) is None,
    ensures
        fields_bytes(fields, names) is None,
    decreases names.len() - n,
{
    if n == names.len() {
        assert(names.take(n) =~= names);
    } else {
        let next = names.take(n + 1);
        assert(next.drop_last() =~= names.take(n));
        lemma_fields_bytes_prefix(fields, names, n + 1);
    }
}

} // verus!
