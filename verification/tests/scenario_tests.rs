use kind::{Id, IdClass, IdEnum2, IdError, Ided, Identifiable};

#[derive(Debug)]
pub struct Customer {
    pub name: String,
}

impl Identifiable for Customer {
    fn spec_class() -> IdClass {
        IdClass::new("Cust")
    }

    fn class() -> IdClass {
        IdClass::new("Cust")
    }
}

#[derive(Debug)]
pub struct Contract {}

impl Identifiable for Contract {
    fn spec_class() -> IdClass {
        IdClass::new("Cont")
    }

    fn class() -> IdClass {
        IdClass::new("Cont")
    }
}

#[derive(Debug)]
pub struct Dog {}

impl Identifiable for Dog {
    fn spec_class() -> IdClass {
        IdClass::new("Dog")
    }

    fn class() -> IdClass {
        IdClass::new("Dog")
    }
}

#[derive(Debug)]
pub struct Cat {}

impl Identifiable for Cat {
    fn spec_class() -> IdClass {
        IdClass::new("Cat")
    }

    fn class() -> IdClass {
        IdClass::new("Cat")
    }
}

type PetId = IdEnum2<Dog, Cat>;

#[test]
fn round_trip_generated() {
    // a freshly generated id survives the public round trip
    let id: Id<Customer> = Id::random_v4();
    let public = id.public_id();
    let back: Id<Customer> = Id::from_public_id(&public).unwrap();
    assert_eq!(id, back);
    assert_eq!(id.db_id(), back.db_id());
}

#[test]
fn round_trip_fixed() {
    // generate-like scenario on a fixed value: public form in, database form out
    let id: Id<Customer> =
        Id::from_public_id("Cust_371c35ec-34d9-4315-ab31-7ea8889a419a").unwrap();
    assert_eq!(id.db_id(), "371c35ec-34d9-4315-ab31-7ea8889a419a");
    assert_eq!(id.public_id(), "Cust_371c35ec-34d9-4315-ab31-7ea8889a419a");
    let from_db: Id<Customer> = Id::from_db_id("371c35ec-34d9-4315-ab31-7ea8889a419a").unwrap();
    assert_eq!(id, from_db);
}

#[test]
fn wrong_class_is_rejected() {
    // an id of one class never parses as another class
    let cust: Id<Customer> = Id::random_v4();
    let public = cust.public_id();
    let as_contract: Result<Id<Contract>, IdError> = Id::from_public_id(&public);
    assert_eq!(as_contract.unwrap_err(), IdError::WrongClass);
}

#[test]
fn case_insensitive_parse() {
    let a: Id<Customer> =
        Id::from_public_id("cust_371c35ec-34d9-4315-ab31-7ea8889a419a").unwrap();
    let b: Id<Customer> =
        Id::from_public_id("CUST_371C35EC-34D9-4315-AB31-7EA8889A419A").unwrap();
    let c: Id<Customer> =
        Id::from_public_id("Cust_371c35ec-34d9-4315-ab31-7ea8889a419a").unwrap();
    assert_eq!(a, b);
    assert_eq!(b, c);
    // whatever the case of the input, the canonical output is lower-case hex
    assert_eq!(b.db_id(), "371c35ec-34d9-4315-ab31-7ea8889a419a");
}

#[test]
fn malformed_inputs() {
    // missing separator: the prefix matches but no underscore follows
    let r: Result<Id<Customer>, IdError> =
        Id::from_public_id("Cust371c35ec-34d9-4315-ab31-7ea8889a419a");
    assert_eq!(r.unwrap_err(), IdError::InvalidFormat);

    // malformed hex value after a correct prefix and separator
    let r: Result<Id<Customer>, IdError> = Id::from_public_id("Cust_not-a-uuid");
    assert_eq!(r.unwrap_err(), IdError::InvalidFormat);

    // wrong prefix entirely
    let r: Result<Id<Customer>, IdError> =
        Id::from_public_id("Nope_371c35ec-34d9-4315-ab31-7ea8889a419a");
    assert_eq!(r.unwrap_err(), IdError::WrongClass);

    // text shorter than the prefix
    let r: Result<Id<Customer>, IdError> = Id::from_public_id("C");
    assert_eq!(r.unwrap_err(), IdError::WrongClass);

    // empty text
    let r: Result<Id<Customer>, IdError> = Id::from_public_id("");
    assert_eq!(r.unwrap_err(), IdError::WrongClass);

    // database form: bad length, bad hyphen placement, bad digit
    assert_eq!(
        Id::<Customer>::from_db_id("371c35ec").unwrap_err(),
        IdError::InvalidFormat
    );
    assert_eq!(
        Id::<Customer>::from_db_id("371c35ec+34d9-4315-ab31-7ea8889a419a").unwrap_err(),
        IdError::InvalidFormat
    );
    assert_eq!(
        Id::<Customer>::from_db_id("371c35ec-34d9-4315-ab31-7ea8889a419g").unwrap_err(),
        IdError::InvalidFormat
    );
    assert_eq!(
        Id::<Customer>::from_db_id("").unwrap_err(),
        IdError::InvalidFormat
    );
}

#[test]
fn strip_prefix_behaviour() {
    let class = IdClass::new("Cust");
    assert_eq!(class.prefix(), "Cust");
    assert_eq!(
        class.strip_prefix("Cust_371c35ec").unwrap(),
        "371c35ec"
    );
    assert_eq!(
        class.strip_prefix("cUsT_371c35ec").unwrap(),
        "371c35ec"
    );
    assert_eq!(
        class.strip_prefix("Cust371c35ec").unwrap_err(),
        IdError::InvalidFormat
    );
    assert_eq!(class.strip_prefix("Cust").unwrap_err(), IdError::InvalidFormat);
    assert_eq!(class.strip_prefix("Cus").unwrap_err(), IdError::WrongClass);
    assert_eq!(
        class.strip_prefix("Злой_371c35ec").unwrap_err(),
        IdError::WrongClass
    );
}

#[test]
fn db_formatting_exact() {
    // exact rendering of known values
    let zero: Id<Customer> = Id::unchecked(0);
    assert_eq!(zero.db_id(), "00000000-0000-0000-0000-000000000000");
    assert_eq!(zero.public_id(), "Cust_00000000-0000-0000-0000-000000000000");

    let max: Id<Customer> = Id::unchecked(u128::MAX);
    assert_eq!(max.db_id(), "ffffffff-ffff-ffff-ffff-ffffffffffff");

    let known: Id<Customer> = Id::unchecked(0x371c35ec34d94315ab317ea8889a419au128);
    assert_eq!(known.db_id(), "371c35ec-34d9-4315-ab31-7ea8889a419a");
    assert_eq!(known.uuid(), 0x371c35ec34d94315ab317ea8889a419au128);
    assert_eq!(known.class().prefix(), "Cust");
}

#[test]
fn random_v4_layout() {
    // the version and variant digits of a generated id are fixed; were the
    // generator handing back something else, these positions would drift
    for _ in 0..20 {
        let id: Id<Customer> = Id::random_v4();
        let db = id.db_id();
        let bytes = db.as_bytes();
        assert_eq!(bytes[14] as char, '4');
        let variant = bytes[19] as char;
        assert!(variant == '8' || variant == '9' || variant == 'a' || variant == 'b');
    }
    // two generated ids are (overwhelmingly) distinct
    let a: Id<Customer> = Id::random_v4();
    let b: Id<Customer> = Id::random_v4();
    assert_ne!(a, b);
}

#[test]
fn ordering_matches_strings() {
    let small: Id<Customer> = Id::unchecked(0x0123456789abcdef0123456789abcdefu128);
    let big: Id<Customer> = Id::unchecked(0xfedcba9876543210fedcba9876543210u128);
    assert!(small < big);
    assert!(small.public_id() < big.public_id());
    assert!(small.db_id() < big.db_id());
}

#[test]
fn ided_equality_by_id_only() {
    let id_a: Id<Customer> = Id::random_v4();
    let id_b: Id<Customer> = Id::random_v4();

    // equal ids, different payloads: the same
    let x = Ided::new(id_a, Customer { name: "John".to_string() });
    let y = Ided::new(id_a, Customer { name: "Jane".to_string() });
    assert_eq!(x, y);

    // different ids, equal payloads: not the same
    let z = Ided::new(id_b, Customer { name: "John".to_string() });
    assert_ne!(x, z);
}

#[test]
fn ided_accessors() {
    let id: Id<Customer> = Id::random_v4();
    let mut v = Ided::new(id, Customer { name: "John".to_string() });
    assert_eq!(v.id(), id);
    assert_eq!(v.entity().name, "John");
    v.entity_mut().name = "Jane".to_string();
    assert_eq!(v.entity().name, "Jane");
    let (id2, customer) = v.dismantle();
    assert_eq!(id2, id);
    assert_eq!(customer.name, "Jane");
    let w = Ided::new(id, Customer { name: "Joe".to_string() });
    assert_eq!(w.take_entity().name, "Joe");
}

#[test]
fn ided_ordering_by_entity() {
    // ordering follows the payload, not the id
    let id_a: Id<Customer> = Id::unchecked(1);
    let id_b: Id<Customer> = Id::unchecked(2);
    let x = Ided::new(id_b, "alpha".to_string());
    let y = Ided::new(id_a, "beta".to_string());
    assert!(x.partial_cmp(&y) == Some(std::cmp::Ordering::Less));
}

#[test]
fn pet_enum_parses_in_declaration_order() {
    let s = "Dog_453d6f99-ce09-4dd7-bde9-73c1d2dbc1d0";
    let a: PetId = s.parse().unwrap();
    assert!(matches!(a, IdEnum2::First(_)));
    assert_eq!(a.public_id(), s);

    let s = "Cat_453d6f99-ce09-4dd7-bde9-73c1d2dbc1d0";
    let b: PetId = s.parse().unwrap();
    assert!(matches!(b, IdEnum2::Second(_)));
    assert_eq!(b.public_id(), s);
}

#[test]
fn pet_enum_rejections() {
    // a well-formed value of a third class: every declared class reports
    // the wrong class
    let r = PetId::from_public_id("Cow_453d6f99-ce09-4dd7-bde9-73c1d2dbc1d0");
    assert_eq!(r.unwrap_err(), IdError::WrongClass);

    // a recognized but malformed value fails loudly, and is not tried
    // against the next class
    let r = PetId::from_public_id("Dog_not-a-uuid");
    assert_eq!(r.unwrap_err(), IdError::InvalidFormat);
}

#[test]
fn error_messages() {
    assert_eq!(IdError::WrongClass.message(), "wrong object class");
    assert_eq!(IdError::InvalidFormat.message(), "invalid format for id");
    assert_eq!(IdError::EmptyDbId.message(), "empty db id");
}
