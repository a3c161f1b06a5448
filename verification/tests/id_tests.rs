use kind::{Id, IdClass, Ided, Identifiable};

#[derive(Debug)]
pub struct Customer {
    pub name: String,
}

impl Identifiable for Customer {
    fn spec_class() -> IdClass {
        IdClass::new("Cust")
    }

    fn class() -> IdClass {
        IdClass::new("Cust")
    }
}

#[derive(Debug)]
pub struct Contract {}

impl Identifiable for Contract {
    fn spec_class() -> IdClass {
        IdClass::new("Cont")
    }

    fn class() -> IdClass {
        IdClass::new("Cont")
    }
}

#[derive(Debug)]
pub struct E {}

impl Identifiable for E {
    fn spec_class() -> IdClass {
        IdClass::new("Ex")
    }

    fn class() -> IdClass {
        IdClass::new("Ex")
    }
}

#[test]
fn test_id_ided() {
    // It's costless: the kind is handled by the type system
    // and doesn't clutter the compiled binary
    assert_eq!(
        std::mem::size_of::<Id<Customer>>(),
        std::mem::size_of::<uuid::Uuid>(),
    );

    // You can parse the id from eg JSON, or just a string
    let id: Id<Customer> = "Cust_371c35ec-34d9-4315-ab31-7ea8889a419a".parse().unwrap();

    // The type is checked, so this id can't be misused as a contract id
    assert!("Cust_371c35ec-34d9-4315-ab31-7ea8889a419a"
        .parse::<Id<Contract>>()
        .is_err());

    // The public id is parsed and checked in a case insensitive way
    assert_eq!(
        id,
        "cust_371c35ec-34d9-4315-ab31-7ea8889a419a".parse().unwrap()
    );
    assert_eq!(
        id,
        "CUST_371C35EC-34D9-4315-AB31-7EA8889A419A".parse().unwrap()
    );

    // You can build an identified object from just
    // Here's a new customer:
    let new_customer = Customer {
        name: "John".to_string(),
    };
    // Give it an id, by wrapping it in an Ided
    let customer = Ided::new(id, new_customer);

    assert_eq!(customer.entity().name, "John");
    assert_eq!(
        customer.id().public_id(),
        "Cust_371c35ec-34d9-4315-ab31-7ea8889a419a"
    );
}

#[test]
fn id_sorting() {
    let mut ids = Vec::<Id<E>>::new();
    for _ in 0..10 {
        ids.push(Id::random_v4());
    }
    let mut ids_by_string = ids.clone();

    ids.sort_by(|a, b| a.partial_cmp(b).unwrap());
    ids_by_string.sort_by_key(|id| id.public_id());

    // check that the Id order is the same than the
    // one of their stringified representations
    for (a, b) in ids.iter().zip(ids_by_string.iter()) {
        assert_eq!(a, b);
    }

    // check that we can use a slice of ids as a sort key
    // (this should be true as soon as ids are ordered, but I
    // prefer to be sure...)

    let a = vec![ids[1]];
    let b = vec![ids[1], ids[7]];
    let c = vec![ids[3]];
    let d = vec![ids[3], ids[2]];
    let e = vec![ids[3], ids[2], ids[5]];
    let f = vec![ids[3], ids[6]];
    let g = vec![ids[3], ids[6], ids[8]];

    let paths_1 = vec![
        a.clone(),
        b.clone(),
        c.clone(),
        d.clone(),
        e.clone(),
        f.clone(),
        g.clone(),
    ];
    let mut paths_2 = vec![d, g, c, f, b, e, a];
    paths_2.sort_by(|x, y| x.partial_cmp(y).unwrap());
    for (path_1, path_2) in paths_1.iter().zip(paths_2.iter()) {
        for (a, b) in path_1.iter().zip(path_2.iter()) {
            assert_eq!(a, b);
        }
    }
}
