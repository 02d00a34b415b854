use vstd::prelude::*;

verus! {

/// What the result of `str::to_lowercase` is for these characters.
pub uninterp spec fn lower_of(s: Seq<char>) -> Seq<char>;

/// Relies on str::to_lowercase: the result depends on the characters alone.
#[verifier::external_body]
fn lowercase(s: &str) -> (r: String)
    ensures
        r@ == lower_of(s@),
{
    s.to_lowercase()
}

/// Relies on num_cpus::get: the number of CPUs this process may use, as
/// the machine reports it.
#[verifier::external_body]
fn cpu_count() -> (r: usize) {
    num_cpus::get()
}

/// Relies on rand's StdRng seeded from the operating system, and Rng::fill:
/// 32 random bytes.
#[verifier::external_body]
fn random_cookie_key() -> (r: [u8; 32]) {
    let mut key = [0u8; 32];
    let mut rng = <rand::rngs::StdRng as rand::SeedableRng>::from_entropy();
    rand::Rng::fill(&mut rng, &mut key);
    key
}

/// What `usize::to_string` gives for `n`.
pub uninterp spec fn decimal_of(n: usize) -> Seq<char>;

/// What `format!("{:x}", n)` gives for `n`.
pub uninterp spec fn hex_of(n: u32) -> Seq<char>;

/// Relies on usize's Display: the decimal digits of `n`.
#[verifier::external_body]
fn decimal(n: usize) -> (r: String)
    ensures
        r@ == decimal_of(n),
{
    n.to_string()
}

/// Relies on u32's LowerHex: the lower-case hexadecimal digits of `n`.
#[verifier::external_body]
fn hex(n: u32) -> (r: String)
    ensures
        r@ == hex_of(n),
{
    format!("{:x}", n)
}

pub open spec fn bool_text(b: bool) -> Seq<char> {
    if b {
        "true"@
    } else {
        "false"@
    }
}

fn bool_str(b: bool) -> (r: &'static str)
    ensures
        r@ == bool_text(b),
{
    if b {
        "true"
    } else {
        "false"
    }
}

pub open spec fn field_text(label: Seq<char>, value: Seq<char>) -> Seq<char> {
    label + value + ", "@
}

fn field(label: &str, value: &str) -> (r: String)
    ensures
        r@ == field_text(label@, value@),
{
    let mut s = label.to_owned();
    s.append(value);
    s.append(", ");
    s
}

pub struct IntegrationTestConfig {
    pub admin_user: String,
    pub admin_password: String,
}

pub struct TlsConfiguration {
    pub chain: String,
    pub key: String,
}

/// The part a server plays in replication.
#[derive(Debug, Clone, Copy, PartialEq, Eq, Structural)]
pub enum ServerRole {
    WriteReplica,
    WriteReplicaNoUI,
    ReadOnlyReplica,
}

impl Default for ServerRole {
    fn default() -> (r: Self)
        ensures
            r == ServerRole::WriteReplica,
    {
        ServerRole::WriteReplica
    }
}

pub const ROLE_HELP: &'static str = "Must be one of write_replica, write_replica_no_ui, read_only_replica";

impl ServerRole {
    /// The role that `s` names: `write_replica`, `write_replica_no_ui` or
    /// `read_only_replica`.
    pub fn parse(s: &str) -> (r: Result<ServerRole, &'static str>)
        ensures
            s@ == "write_replica"@ ==> r == Ok::<ServerRole, &'static str>(ServerRole::WriteReplica),
            s@ == "write_replica_no_ui"@ ==> r == Ok::<ServerRole, &'static str>(
                ServerRole::WriteReplicaNoUI,
            ),
            s@ == "read_only_replica"@ ==> r == Ok::<ServerRole, &'static str>(
                ServerRole::ReadOnlyReplica,
            ),
            s@ != "write_replica"@ && s@ != "write_replica_no_ui"@ && s@ != "read_only_replica"@
                ==> r is Err,
    {
        let t = s.to_owned();
        proof {
            reveal_strlit("write_replica");
            reveal_strlit("write_replica_no_ui");
            reveal_strlit("read_only_replica");
            assert("write_replica"@.len() != "write_replica_no_ui"@.len());
            assert("write_replica"@.len() != "read_only_replica"@.len());
            assert("write_replica_no_ui"@.len() != "read_only_replica"@.len());
        }
        if t == "write_replica".to_owned() {
            Ok(ServerRole::WriteReplica)
        } else if t == "write_replica_no_ui".to_owned() {
            Ok(ServerRole::WriteReplicaNoUI)
        } else if t == "read_only_replica".to_owned() {
            Ok(ServerRole::ReadOnlyReplica)
        } else {
            Err(ROLE_HELP)
        }
    }
}

impl std::str::FromStr for ServerRole {
    type Err = &'static str;

    fn from_str(s: &str) -> Result<Self, Self::Err> {
        ServerRole::parse(s)
    }
}

/// Why a TLS setting was refused.
#[derive(Debug, Clone, Copy, PartialEq, Eq, Structural)]
pub enum TlsError {
    /// A certificate chain without a key, or a key without a chain.
    Incomplete,
}

pub struct Configuration {
    pub address: String,
    pub ldapaddress: Option<String>,
    pub threads: usize,
    pub db_path: String,
    pub db_fs_type: Option<String>,
    pub db_arc_size: Option<usize>,
    pub maximum_request: usize,
    pub secure_cookies: bool,
    pub tls_config: Option<TlsConfiguration>,
    pub cookie_key: [u8; 32],
    pub integration_test_config: Option<Box<IntegrationTestConfig>>,
    pub log_level: Option<u32>,
    pub origin: String,
    pub role: ServerRole,
}

pub open spec fn opt_str_view(o: Option<String>) -> Option<Seq<char>> {
    match o {
        Some(s) => Some(s@),
        None => None,
    }
}

fn copy_opt(o: &Option<String>) -> (r: Option<String>)
    ensures
        opt_str_view(r) == opt_str_view(*o),
{
    match o {
        Some(s) => Some(s.clone()),
        None => None,
    }
}

impl Configuration {
    /// The defaults: bound to 127.0.0.1:8080, no LDAP, one worker thread per
    /// CPU, 256 KiB requests, secure cookies with a random key, write replica.
    pub fn new() -> (r: Self)
        ensures
            r.address@ == "127.0.0.1:8080"@,
            r.ldapaddress is None,
            r.db_path@ == Seq::<char>::empty(),
            r.db_fs_type is None,
            r.db_arc_size is None,
            r.maximum_request == 262_144,
            r.secure_cookies,
            r.tls_config is None,
            r.integration_test_config is None,
            r.log_level is None,
            r.origin@ == "https://idm.example.com"@,
            r.role == ServerRole::WriteReplica,
    {
        Configuration {
            address: "127.0.0.1:8080".to_owned(),
            ldapaddress: None,
            threads: cpu_count(),
            db_path: String::new(),
            db_fs_type: None,
            db_arc_size: None,
            maximum_request: 262_144,
            secure_cookies: true,
            tls_config: None,
            cookie_key: random_cookie_key(),
            integration_test_config: None,
            log_level: None,
            origin: "https://idm.example.com".to_owned(),
            role: ServerRole::WriteReplica,
        }
    }

    /// A one-line summary of the settings, secrets left out.
    pub fn describe(&self) -> (r: String)
        ensures
            r@ == field_text("address: "@, self.address@) + match self.ldapaddress {
                Some(la) => field_text("ldap address: "@, la@),
                None => "ldap address: disabled, "@,
            } + field_text("thread count: "@, decimal_of(self.threads)) + field_text(
                "dbpath: "@,
                self.db_path@,
            ) + match self.db_arc_size {
                Some(v) => field_text("arcsize: "@, decimal_of(v)),
                None => "arcsize: AUTO, "@,
            } + field_text("max request size: "@, decimal_of(self.maximum_request) + "b"@)
                + field_text("secure cookies: "@, bool_text(self.secure_cookies)) + field_text(
                "with TLS: "@,
                bool_text(self.tls_config is Some),
            ) + match self.log_level {
                Some(u) => field_text("with log_level: "@, hex_of(u)),
                None => "with log_level: default, "@,
            } + "integration mode: "@ + bool_text(self.integration_test_config is Some),
    {
        let mut s = String::new();
        s.append(field("address: ", self.address.as_str()).as_str());
        let ldap = match &self.ldapaddress {
            Some(la) => field("ldap address: ", la.as_str()),
            None => "ldap address: disabled, ".to_owned(),
        };
        s.append(ldap.as_str());
        s.append(field("thread count: ", decimal(self.threads).as_str()).as_str());
        s.append(field("dbpath: ", self.db_path.as_str()).as_str());
        let arc = match self.db_arc_size {
            Some(v) => field("arcsize: ", decimal(v).as_str()),
            None => "arcsize: AUTO, ".to_owned(),
        };
        s.append(arc.as_str());
        let mut size = decimal(self.maximum_request);
        size.append("b");
        s.append(field("max request size: ", size.as_str()).as_str());
        s.append(field("secure cookies: ", bool_str(self.secure_cookies)).as_str());
        s.append(field("with TLS: ", bool_str(self.tls_config.is_some())).as_str());
        let log = match self.log_level {
            Some(u) => field("with log_level: ", hex(u).as_str()),
            None => "with log_level: default, ".to_owned(),
        };
        s.append(log.as_str());
        s.append("integration mode: ");
        s.append(bool_str(self.integration_test_config.is_some()));
        s
    }

    pub fn update_log_level(&mut self, log_level: Option<u32>)
        ensures
            final(self).log_level == log_level,
            final(self).address == old(self).address,
            final(self).role == old(self).role,
    {
        self.log_level = log_level;
    }

    pub fn update_db_path(&mut self, p: &str)
        ensures
            final(self).db_path@ == p@,
            final(self).log_level == old(self).log_level,
    {
        self.db_path = p.to_owned();
    }

    pub fn update_db_arc_size(&mut self, v: Option<usize>)
        ensures
            final(self).db_arc_size == v,
            final(self).log_level == old(self).log_level,
    {
        self.db_arc_size = v;
    }

    /// The filesystem type, lower-cased.
    pub fn update_db_fs_type(&mut self, p: &Option<String>)
        ensures
            opt_str_view(final(self).db_fs_type) == match p {
                Some(s) => Some(lower_of(s@)),
                None => None,
            },
            final(self).log_level == old(self).log_level,
    {
        self.db_fs_type = match p {
            Some(v) => Some(lowercase(v.as_str())),
            None => None,
        };
    }

    /// The address to bind, 127.0.0.1:8080 where none is given.
    pub fn update_bind(&mut self, b: &Option<String>)
        ensures
            final(self).address@ == match b {
                Some(s) => s@,
                None => "127.0.0.1:8080"@,
            },
            final(self).log_level == old(self).log_level,
    {
        self.address = match b {
            Some(s) => s.clone(),
            None => "127.0.0.1:8080".to_owned(),
        };
    }

    pub fn update_ldapbind(&mut self, l: &Option<String>)
        ensures
            opt_str_view(final(self).ldapaddress) == opt_str_view(*l),
            final(self).address == old(self).address,
    {
        self.ldapaddress = copy_opt(l);
    }

    pub fn update_origin(&mut self, o: &str)
        ensures
            final(self).origin@ == o@,
            final(self).address == old(self).address,
    {
        self.origin = o.to_owned();
    }

    pub fn update_role(&mut self, r: ServerRole)
        ensures
            final(self).role == r,
            final(self).address == old(self).address,
    {
        self.role = r;
    }

    /// Sets TLS from a certificate chain and a key; neither leaves it as it
    /// was; one without the other is refused and changes nothing.
    pub fn update_tls(&mut self, chain: &Option<String>, key: &Option<String>) -> (r: Result<
        (),
        TlsError,
    >)
        ensures
            chain is None && key is None ==> r is Ok && final(self).tls_config == old(
                self,
            ).tls_config,
            chain is Some && key is Some ==> r is Ok && (final(self).tls_config matches Some(t)
                && t.chain@ == chain.unwrap()@ && t.key@ == key.unwrap()@),
            chain is Some != key is Some ==> r == Err::<(), TlsError>(TlsError::Incomplete)
                && final(self).tls_config == old(self).tls_config,
            final(self).address == old(self).address,
    {
        match (chain, key) {
            (None, None) => Ok(()),
            (Some(chainp), Some(keyp)) => {
                self.tls_config = Some(TlsConfiguration { chain: chainp.clone(), key: keyp.clone() });
                Ok(())
            },
            _ => Err(TlsError::Incomplete),
        }
    }
}

} // verus!
