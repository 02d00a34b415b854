use kanidm_spn::entry::{Entry, UUID_DOMAIN_INFO};
use kanidm_spn::error::{ConsistencyError, ErrorKind};
use kanidm_spn::server::{Filter, Modify, Server};
use kanidm_spn::spn::Spn;

const UUID_ADMIN: u128 = 0;

fn person(name: &str) -> Entry {
    let mut e = Entry::create_candidate();
    e.set_values("class", vec!["account".to_string()]).unwrap();
    e.set_values("name", vec![name.to_string()]).unwrap();
    e.set_values("description", vec![name.to_string()]).unwrap();
    e.set_values("displayname", vec![name.to_string()]).unwrap();
    e
}

fn find_by_name(server: &Server, name: &str) -> Entry {
    for i in 0..server.len() {
        let e = server.entry_at(i);
        if e.get_single("name").as_deref() == Some(name) {
            return e.duplicate();
        }
    }
    panic!("no entry named {}", name);
}

#[test]
fn test_spn_generate_create() {
    let mut server = Server::new("example.com");
    let create = vec![person("testperson")];
    assert_eq!(server.create(create), Ok(()));
    assert!(server.verify().is_empty());
    let e = find_by_name(&server, "testperson");
    assert_eq!(e.get_single("spn").as_deref(), Some("testperson@example.com"));
}

#[test]
fn test_spn_generate_modify() {
    let mut server = Server::new("example.com");
    server.create(vec![person("testperson")]).unwrap();
    let r = server.modify(
        &Filter::eq("name", "testperson"),
        &vec![Modify::Purge("spn".to_string())],
    );
    assert_eq!(r, Ok(()));
    assert!(server.verify().is_empty());
    let e = find_by_name(&server, "testperson");
    assert_eq!(e.get_single("spn").as_deref(), Some("testperson@example.com"));
}

#[test]
fn test_spn_validate_create() {
    let mut server = Server::new("example.com");
    let mut e = person("testperson");
    e.set_values("spn", vec!["testperson@invalid_domain.com".to_string()]).unwrap();
    assert_eq!(server.create(vec![e]), Ok(()));
    assert!(server.verify().is_empty());
    let e = find_by_name(&server, "testperson");
    assert_eq!(e.get_values("spn"), vec!["testperson@example.com".to_string()]);
}

#[test]
fn test_spn_validate_modify() {
    let mut server = Server::new("example.com");
    server.create(vec![person("testperson")]).unwrap();
    let r = server.modify(
        &Filter::eq("name", "testperson"),
        &vec![
            Modify::Purge("spn".to_string()),
            Modify::Present("spn".to_string(), "invalid@spn".to_string()),
        ],
    );
    assert_eq!(r, Ok(()));
    assert!(server.verify().is_empty());
    let e = find_by_name(&server, "testperson");
    assert_eq!(e.get_values("spn"), vec!["testperson@example.com".to_string()]);
}

#[test]
fn test_spn_regen_domain_rename() {
    let mut server = Server::new("example.com");
    let mut admin = Entry::new_with_uuid(UUID_ADMIN);
    admin.set_values("class", vec!["account".to_string()]).unwrap();
    admin.set_values("name", vec!["admin".to_string()]).unwrap();
    server.create(vec![admin]).expect("must not fail");

    let ex1 = "admin@example.com";
    let ex2 = "admin@new.example.com";
    let e_pre = server.search_uuid(UUID_ADMIN).expect("must not fail");
    let e_pre_spn = e_pre.get_single("spn").expect("must not fail");
    assert!(e_pre_spn == ex1);

    server.domain_rename("new.example.com").expect("should not fail!");

    let e_post = server.search_uuid(UUID_ADMIN).expect("must not fail");
    let e_post_spn = e_post.get_single("spn").expect("must not fail");
    println!("{:?}", e_post_spn);
    println!("{:?}", ex2);
    assert!(e_post_spn == ex2);
}

#[test]
fn generate_spn_joins_name_and_domain() {
    let e = person("bob");
    assert_eq!(e.generate_spn("example.com").as_deref(), Some("bob@example.com"));
}

#[test]
fn generate_spn_needs_one_name() {
    let mut e = Entry::create_candidate();
    assert_eq!(e.generate_spn("example.com"), None);
    e.set_values("name", vec!["a".to_string(), "b".to_string()]).unwrap();
    assert_eq!(e.generate_spn("example.com"), None);
}

#[test]
fn create_of_nameless_account_aborts() {
    let mut server = Server::new("example.com");
    let mut e = Entry::create_candidate();
    e.set_values("class", vec!["group".to_string()]).unwrap();
    let r = server.create(vec![person("ok"), e]);
    assert_eq!(r, Err(ErrorKind::InvalidEntryState));
    assert_eq!(server.len(), 1);
}

#[test]
fn modify_that_drops_the_name_aborts() {
    let mut server = Server::new("example.com");
    server.create(vec![person("bob")]).unwrap();
    let r = server.modify(&Filter::eq("name", "bob"), &vec![Modify::Purge("name".to_string())]);
    assert_eq!(r, Err(ErrorKind::InvalidEntryState));
    let e = find_by_name(&server, "bob");
    assert_eq!(e.get_single("spn").as_deref(), Some("bob@example.com"));
}

#[test]
fn domain_entry_without_domain_name_is_a_schema_violation() {
    let mut server = Server::new("example.com");
    let r = server.modify(
        &Filter::Uuid(UUID_DOMAIN_INFO),
        &vec![Modify::Purge("domain_name".to_string())],
    );
    assert_eq!(r, Err(ErrorKind::SchemaViolation));
    assert_eq!(server.get_domain_name(), "example.com");
}

#[test]
fn reused_identifier_is_a_storage_failure() {
    let mut server = Server::new("example.com");
    let mut e = Entry::new_with_uuid(7);
    e.set_values("name", vec!["x".to_string()]).unwrap();
    assert_eq!(server.create(vec![e]), Ok(()));
    let again = Entry::new_with_uuid(7);
    assert_eq!(server.create(vec![again]), Err(ErrorKind::StorageFailure));
    let first = Entry::create_candidate();
    let second = Entry::create_candidate();
    assert_eq!(
        server.create_with_uuids(vec![first, second], &vec![9, 9]),
        Err(ErrorKind::StorageFailure)
    );
    assert_eq!(server.len(), 2);
}

#[test]
fn create_assigns_identifiers_and_ids() {
    let mut server = Server::new("example.com");
    server
        .create_with_uuids(vec![person("a"), person("b")], &vec![100, 200])
        .unwrap();
    let a = find_by_name(&server, "a");
    let b = find_by_name(&server, "b");
    assert_eq!(a.get_uuid(), Some(100));
    assert_eq!(b.get_uuid(), Some(200));
    assert_eq!(a.get_id(), 2);
    assert_eq!(b.get_id(), 3);
    assert!(a.is_sealed());
    assert!(!a.is_new());
    server.create(vec![person("c")]).unwrap();
    assert!(find_by_name(&server, "c").get_uuid().is_some());
}

#[test]
fn sealed_entry_refuses_changes() {
    let mut e = Entry::new_with_uuid(3);
    assert_eq!(e.seal(), Ok(()));
    assert_eq!(
        e.set_values("name", vec!["x".to_string()]),
        Err(ErrorKind::SealedEntryMutation)
    );
    assert_eq!(e.purge("name"), Err(ErrorKind::SealedEntryMutation));
    assert_eq!(e.add_value("name", "x"), Err(ErrorKind::SealedEntryMutation));
    let mut c = e.clone_for_modify();
    assert!(!c.is_sealed());
    assert_eq!(c.add_value("name", "x"), Ok(()));
    assert!(c.attribute_present("name", "x"));
}

#[test]
fn entry_without_identifier_cannot_be_sealed() {
    let mut e = Entry::create_candidate();
    assert_eq!(e.seal(), Err(ErrorKind::SchemaViolation));
}

#[test]
fn verify_reports_one_forged_spn() {
    let mut server = Server::new("example.com");
    server.create(vec![person("alice"), person("bob")]).unwrap();
    let mut idx = 0;
    for i in 0..server.len() {
        if server.entry_at(i).get_single("name").as_deref() == Some("bob") {
            idx = i;
        }
    }
    let bob_id = server.entry_at(idx).get_id();
    server.backend_write(idx, "spn", vec!["bob@elsewhere.org".to_string()]);
    let before = server.len();
    assert_eq!(server.verify(), vec![ConsistencyError::InvalidSpn(bob_id)]);
    assert_eq!(server.verify_strict(), Err(ConsistencyError::InvalidSpn(bob_id)));
    assert_eq!(server.len(), before);
    let bob = find_by_name(&server, "bob");
    assert_eq!(bob.get_single("spn").as_deref(), Some("bob@elsewhere.org"));
}

#[test]
fn end_to_end_rename_twice() {
    let mut server = Server::new("example.com");
    server.create(vec![person("bob")]).unwrap();
    let mut group = Entry::create_candidate();
    group.set_values("class", vec!["group".to_string()]).unwrap();
    group.set_values("name", vec!["staff".to_string()]).unwrap();
    server.create(vec![group]).unwrap();
    assert_eq!(find_by_name(&server, "bob").get_single("spn").as_deref(), Some("bob@example.com"));

    server.domain_rename("corp.example.com").unwrap();
    assert_eq!(server.get_domain_name(), "corp.example.com");
    assert_eq!(
        find_by_name(&server, "bob").get_single("spn").as_deref(),
        Some("bob@corp.example.com")
    );
    assert_eq!(
        find_by_name(&server, "staff").get_single("spn").as_deref(),
        Some("staff@corp.example.com")
    );
    let before: Vec<Vec<String>> = (0..server.len())
        .map(|i| server.entry_at(i).get_values("spn"))
        .collect();
    server.domain_rename("corp.example.com").unwrap();
    let after: Vec<Vec<String>> = (0..server.len())
        .map(|i| server.entry_at(i).get_values("spn"))
        .collect();
    assert_eq!(before, after);
    assert!(server.verify().is_empty());
    assert_eq!(server.verify_strict(), Ok(()));
}

#[test]
fn entries_outside_accounts_and_groups_keep_their_spn() {
    let mut server = Server::new("example.com");
    let mut e = Entry::create_candidate();
    e.set_values("class", vec!["object".to_string()]).unwrap();
    e.set_values("spn", vec!["free@text".to_string()]).unwrap();
    server.create(vec![e]).unwrap();
    server.domain_rename("other.org").unwrap();
    let e = server.entry_at(1);
    assert_eq!(e.get_single("spn").as_deref(), Some("free@text"));
    assert!(server.verify().is_empty());
}

#[test]
fn pre_create_transform_sets_spn_in_place() {
    let server = Server::new("example.com");
    let mut cand = vec![person("carol")];
    assert_eq!(Spn::pre_create_transform(&server, &mut cand), Ok(()));
    assert_eq!(cand[0].get_single("spn").as_deref(), Some("carol@example.com"));
    assert_eq!(Spn::id(), "plugin_spn");
}

#[test]
fn add_value_is_set_like() {
    let mut e = Entry::create_candidate();
    e.add_value("mail", "a@x").unwrap();
    e.add_value("mail", "a@x").unwrap();
    e.add_value("mail", "b@x").unwrap();
    assert_eq!(e.get_values("mail"), vec!["a@x".to_string(), "b@x".to_string()]);
    assert_eq!(e.get_single("mail"), None);
    e.purge("mail").unwrap();
    assert!(e.get_values("mail").is_empty());
}

#[test]
fn attribute_names_ignore_case() {
    let mut e = Entry::create_candidate();
    e.set_values("Class", vec!["account".to_string()]).unwrap();
    e.set_values("NAME", vec!["bob".to_string()]).unwrap();
    assert_eq!(e.get_single("name").as_deref(), Some("bob"));
    assert!(e.attribute_present("class", "account"));
    e.set_values("name", vec!["carol".to_string()]).unwrap();
    assert_eq!(e.get_values("Name"), vec!["carol".to_string()]);
    assert_eq!(e.generate_spn("example.com").as_deref(), Some("carol@example.com"));
    assert!(!e.attribute_present("class", "Account"));
}
