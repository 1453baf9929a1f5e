use pessoas::date::{parse_date, BirthDate};
use pessoas::person::{InvalidField, PersonRequest};
use pessoas::store::{CreateError, PersonStore};

fn request(name: &str, nick: &str, birth_date: &str, stack: Option<Vec<&str>>) -> PersonRequest {
    PersonRequest {
        name: name.to_string(),
        nick: nick.to_string(),
        birth_date: birth_date.to_string(),
        stack: stack.map(|v| v.into_iter().map(|s| s.to_string()).collect()),
    }
}

#[test]
fn create_then_get_returns_same_record() {
    let mut store = PersonStore::new();
    let created = store
        .create(request("Jefferson", "Jeff", "1984-06-06", Some(vec!["Rust"])))
        .expect("valid request");
    let found = store.get(created.id).expect("record is stored");
    assert_eq!(found.id, created.id);
    assert_eq!(found.name, "Jefferson");
    assert_eq!(found.nick, "Jeff");
    assert_eq!(found.birth_date, BirthDate { year: 1984, month: 6, day: 6 });
    assert_eq!(found.birth_date.to_text(), "1984-06-06");
    assert_eq!(found.stack, Some(vec!["Rust".to_string()]));
    assert_eq!(store.count(), 1);
}

#[test]
fn duplicate_nick_is_a_conflict() {
    let mut store = PersonStore::new();
    store.create(request("Jefferson", "Jeff", "1984-06-06", None)).unwrap();
    let second = store.create(request("Jeferson Two", "Jeff", "1990-01-01", Some(vec![])));
    assert!(matches!(second, Err(CreateError::Conflict)));
    assert_eq!(store.count(), 1);
}

#[test]
fn malformed_date_is_rejected() {
    let mut store = PersonStore::new();
    let r = store.create(request("Jefferson", "Jeff", "06-06-1984", None));
    assert!(matches!(r, Err(CreateError::Invalid(InvalidField::BirthDate))));
    assert_eq!(store.count(), 0);
}

#[test]
fn unknown_id_is_not_found() {
    let mut store = PersonStore::new();
    let created = store.create(request("Ana", "ana", "2000-01-31", None)).unwrap();
    assert!(store.get(created.id.wrapping_add(1)).is_none());
    assert!(store.get(0).is_none());
    assert!(PersonStore::new().get(created.id).is_none());
}

#[test]
fn ids_are_distinct_and_count_grows() {
    let mut store = PersonStore::new();
    let mut ids = Vec::new();
    for i in 0..20 {
        let p = store.create(request("Someone", &format!("nick{}", i), "1999-12-31", None)).unwrap();
        ids.push(p.id);
        assert_eq!(store.count(), i + 1);
    }
    for i in 0..ids.len() {
        for j in (i + 1)..ids.len() {
            assert_ne!(ids[i], ids[j]);
        }
    }
}

#[test]
fn generated_ids_are_version_seven() {
    let mut store = PersonStore::new();
    let p = store.create(request("Ana", "ana", "2000-01-31", None)).unwrap();
    assert_eq!((p.id >> 76) & 0xf, 7);
}

#[test]
fn taken_id_is_a_collision() {
    let mut store = PersonStore::new();
    let first = store.create_with_id(request("Ana", "ana", "2000-01-31", None), 42).unwrap();
    assert_eq!(first.id, 42);
    let r = store.create_with_id(request("Bia", "bia", "2001-02-28", None), 42);
    assert!(matches!(r, Err(CreateError::IdCollision)));
    assert_eq!(store.count(), 1);
    assert_eq!(store.get(42).unwrap().nick, "ana");
}

#[test]
fn nick_in_use_sees_stored_records() {
    let mut store = PersonStore::new();
    store.create(request("Ana", "ana", "2000-01-31", None)).unwrap();
    assert!(store.nick_in_use(&"ana".to_string()));
    assert!(!store.nick_in_use(&"Ana".to_string()));
}

#[test]
fn each_field_rule_is_enforced() {
    let mut store = PersonStore::new();
    let long_name = "x".repeat(101);
    let cases = vec![
        (request("", "a", "2000-01-01", None), InvalidField::Name),
        (request(&long_name, "a", "2000-01-01", None), InvalidField::Name),
        (request("A", "", "2000-01-01", None), InvalidField::Nick),
        (request("A", &long_name, "2000-01-01", None), InvalidField::Nick),
        (request("A", "a", "2000-13-01", None), InvalidField::BirthDate),
        (request("A", "a", "", None), InvalidField::BirthDate),
        (request("A", "a", "2000-01-01", Some(vec!["Rust", ""])), InvalidField::Stack),
        (request("A", "a", "2000-01-01", Some(vec![&"y".repeat(33)])), InvalidField::Stack),
    ];
    for (req, field) in cases {
        match store.create(req) {
            Err(CreateError::Invalid(f)) => assert_eq!(f, field),
            other => panic!("expected {:?}, got {:?}", field, other),
        }
    }
    assert_eq!(store.count(), 0);
}

#[test]
fn stack_entry_count_is_bounded() {
    let mut store = PersonStore::new();
    let many: Vec<String> = (0..101).map(|i| format!("t{}", i)).collect();
    let r = store.create(request("A", "a", "2000-01-01", Some(many.iter().map(|s| s.as_str()).collect())));
    assert!(matches!(r, Err(CreateError::Invalid(InvalidField::Stack))));
    let r = store.create(request("A", "a", "2000-01-01", Some(many[..100].iter().map(|s| s.as_str()).collect())));
    assert_eq!(r.unwrap().stack.unwrap().len(), 100);
    assert_eq!(store.count(), 1);
}

#[test]
fn longest_allowed_fields_are_accepted() {
    let mut store = PersonStore::new();
    let hundred = "é".repeat(100);
    let token = "t".repeat(32);
    let p = store
        .create(request(&hundred, &hundred, "0000-01-01", Some(vec![&token])))
        .unwrap();
    assert_eq!(p.name.chars().count(), 100);
    assert_eq!(p.birth_date.to_text(), "0000-01-01");
}

#[test]
fn dates_are_read_strictly() {
    assert_eq!(parse_date("1984-06-06"), Some(BirthDate { year: 1984, month: 6, day: 6 }));
    assert_eq!(parse_date("2024-02-29"), Some(BirthDate { year: 2024, month: 2, day: 29 }));
    assert_eq!(parse_date("2000-02-29"), Some(BirthDate { year: 2000, month: 2, day: 29 }));
    assert_eq!(parse_date("1900-02-29"), None);
    assert_eq!(parse_date("2023-02-29"), None);
    assert_eq!(parse_date("2023-04-31"), None);
    assert_eq!(parse_date("2023-00-10"), None);
    assert_eq!(parse_date("2023-01-00"), None);
    assert_eq!(parse_date("06-06-1984"), None);
    assert_eq!(parse_date("1984/06/06"), None);
    assert_eq!(parse_date("+984-06-06"), None);
    assert_eq!(parse_date("1984-6-6"), None);
    assert_eq!(parse_date("1984-06-066"), None);
}

#[test]
fn date_text_round_trips() {
    for text in ["1984-06-06", "0001-01-01", "9999-12-31", "2024-02-29", "0305-10-09"] {
        let d = parse_date(text).unwrap();
        assert_eq!(d.to_text(), text);
        assert_eq!(parse_date(&d.to_text()), Some(d));
    }
}

#[test]
fn date_constructor_checks_the_calendar() {
    assert_eq!(BirthDate::new(2024, 2, 29), Some(BirthDate { year: 2024, month: 2, day: 29 }));
    assert_eq!(BirthDate::new(2023, 2, 29), None);
    assert_eq!(BirthDate::new(2023, 13, 1), None);
    assert_eq!(BirthDate::new(10000, 1, 1), None);
    assert_eq!(BirthDate { year: 7, month: 3, day: 4 }.to_text(), "0007-03-04");
}

#[test]
fn copy_keeps_every_field() {
    let mut store = PersonStore::new();
    let p = store.create(request("Ana", "ana", "2000-01-31", Some(vec!["Go", "C"]))).unwrap();
    let c = p.copy();
    assert_eq!(c.id, p.id);
    assert_eq!(c.name, p.name);
    assert_eq!(c.nick, p.nick);
    assert_eq!(c.birth_date, p.birth_date);
    assert_eq!(c.stack, Some(vec!["Go".to_string(), "C".to_string()]));
}
