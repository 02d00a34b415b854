use kanidm_spn::config::{Configuration, ServerRole, TlsError};
use std::str::FromStr;

#[test]
fn configuration_defaults() {
    let c = Configuration::new();
    assert_eq!(c.address, "127.0.0.1:8080");
    assert_eq!(c.maximum_request, 262_144);
    assert_eq!(c.origin, "https://idm.example.com");
    assert_eq!(c.role, ServerRole::WriteReplica);
    assert!(c.tls_config.is_none());
    assert!(c.secure_cookies);
    assert_eq!(ServerRole::default(), ServerRole::WriteReplica);
}

#[test]
fn role_parsing() {
    assert_eq!(ServerRole::parse("write_replica"), Ok(ServerRole::WriteReplica));
    assert_eq!(ServerRole::parse("write_replica_no_ui"), Ok(ServerRole::WriteReplicaNoUI));
    assert_eq!(ServerRole::from_str("read_only_replica"), Ok(ServerRole::ReadOnlyReplica));
    assert!(ServerRole::parse("primary").is_err());
}

#[test]
fn tls_needs_chain_and_key() {
    let mut c = Configuration::new();
    assert_eq!(c.update_tls(&Some("chain.pem".to_string()), &None), Err(TlsError::Incomplete));
    assert!(c.tls_config.is_none());
    assert_eq!(c.update_tls(&None, &None), Ok(()));
    assert!(c.tls_config.is_none());
    c.update_tls(&Some("chain.pem".to_string()), &Some("key.pem".to_string())).unwrap();
    let t = c.tls_config.as_ref().unwrap();
    assert_eq!(t.chain, "chain.pem");
    assert_eq!(t.key, "key.pem");
}

#[test]
fn configuration_updates() {
    let mut c = Configuration::new();
    c.update_db_fs_type(&Some("ZFS".to_string()));
    assert_eq!(c.db_fs_type.as_deref(), Some("zfs"));
    c.update_bind(&Some("0.0.0.0:443".to_string()));
    assert_eq!(c.address, "0.0.0.0:443");
    c.update_bind(&None);
    assert_eq!(c.address, "127.0.0.1:8080");
    c.update_ldapbind(&Some("0.0.0.0:636".to_string()));
    assert_eq!(c.ldapaddress.as_deref(), Some("0.0.0.0:636"));
    c.update_db_path("/var/lib/db");
    assert_eq!(c.db_path, "/var/lib/db");
    c.update_db_arc_size(Some(4096));
    assert_eq!(c.db_arc_size, Some(4096));
    c.update_log_level(Some(0x1f));
    assert_eq!(c.log_level, Some(0x1f));
    c.update_origin("https://idm.corp.example.com");
    assert_eq!(c.origin, "https://idm.corp.example.com");
    c.update_role(ServerRole::ReadOnlyReplica);
    assert_eq!(c.role, ServerRole::ReadOnlyReplica);
}

#[test]
fn configuration_summary() {
    let mut c = Configuration::new();
    c.threads = 4;
    assert_eq!(
        c.describe(),
        "address: 127.0.0.1:8080, ldap address: disabled, thread count: 4, dbpath: , arcsize: AUTO, max request size: 262144b, secure cookies: true, with TLS: false, with log_level: default, integration mode: false"
    );
    c.update_log_level(Some(31));
    c.update_db_arc_size(Some(2048));
    assert!(c.describe().contains("with log_level: 1f, "));
    assert!(c.describe().contains("arcsize: 2048, "));
}
