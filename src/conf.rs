use vstd::prelude::*;

verus! {

/// Connection parameters for the secret store.
#[derive(Debug)]
pub struct Vault {
    server_url: String,
    auth_role: String,
    auth_login_mount: String,
    kv_mount: String,
    id_token: String,
    ssl_certs: String,
    path: String,
}

/// One export rule: the secret field `key` is exported under `export_to`.
#[derive(Debug)]
pub struct Var {
    key: String,
    export_to: String,
}

/// A validated configuration: the connection and the ordered export rules.
#[derive(Debug)]
pub struct Config {
    vault: Vault,
    vars: Vec<Var>,
}

impl Vault {
    /// Builds the connection parameters from their seven fields.
    pub fn new(
        server_url: String,
        auth_role: String,
        auth_login_mount: String,
        kv_mount: String,
        id_token: String,
        ssl_certs: String,
        path: String,
    ) -> (r: Vault)
        ensures
            r.spec_server_url() == server_url@,
            r.spec_auth_role() == auth_role@,
            r.spec_auth_login_mount() == auth_login_mount@,
            r.spec_kv_mount() == kv_mount@,
            r.spec_id_token() == id_token@,
            r.spec_ssl_certs() == ssl_certs@,
            r.spec_path() == path@,
    {
        Vault { server_url, auth_role, auth_login_mount, kv_mount, id_token, ssl_certs, path }
    }

    pub closed spec fn spec_server_url(&self) -> Seq<char> {
        self.server_url@
    }

    pub closed spec fn spec_auth_role(&self) -> Seq<char> {
        self.auth_role@
    }

    pub closed spec fn spec_auth_login_mount(&self) -> Seq<char> {
        self.auth_login_mount@
    }

    pub closed spec fn spec_kv_mount(&self) -> Seq<char> {
        self.kv_mount@
    }

    pub closed spec fn spec_id_token(&self) -> Seq<char> {
        self.id_token@
    }

    pub closed spec fn spec_ssl_certs(&self) -> Seq<char> {
        self.ssl_certs@
    }

    pub closed spec fn spec_path(&self) -> Seq<char> {
        self.path@
    }

    pub fn get_server_url(&self) -> (r: &str)
        ensures
            r@ == self.spec_server_url(),
    {
        self.server_url.as_str()
    }

    pub fn get_auth_role(&self) -> (r: &str)
        ensures
            r@ == self.spec_auth_role(),
    {
        self.auth_role.as_str()
    }

    pub fn get_auth_login_mount(&self) -> (r: &str)
        ensures
            r@ == self.spec_auth_login_mount(),
    {
        self.auth_login_mount.as_str()
    }

    pub fn get_kv_mount(&self) -> (r: &str)
        ensures
            r@ == self.spec_kv_mount(),
    {
        self.kv_mount.as_str()
    }

    pub fn get_id_token(&self) -> (r: &str)
        ensures
            r@ == self.spec_id_token(),
    {
        self.id_token.as_str()
    }

    pub fn get_ssl_certs(&self) -> (r: &str)
        ensures
            r@ == self.spec_ssl_certs(),
    {
        self.ssl_certs.as_str()
    }

    pub fn get_path(&self) -> (r: &str)
        ensures
            r@ == self.spec_path(),
    {
        self.path.as_str()
    }
}

impl Var {
    /// An export rule names a non-empty secret field and a non-empty variable.
    pub open spec fn wf(&self) -> bool {
        self.spec_key().len() > 0 && self.spec_export_to().len() > 0
    }

    pub closed spec fn spec_key(&self) -> Seq<char> {
        self.key@
    }

    pub closed spec fn spec_export_to(&self) -> Seq<char> {
        self.export_to@
    }

    /// Builds a rule; `None` when either name is empty.
    pub fn new(key: String, export_to: String) -> (r: Option<Var>)
        ensures
            r is Some <==> (key@.len() > 0 && export_to@.len() > 0),
            r matches Some(v) ==> v.wf() && v.spec_key() == key@ && v.spec_export_to()
                == export_to@,
    {
        if key.as_str().is_empty() || export_to.as_str().is_empty() {
            None
        } else {
            Some(Var { key, export_to })
        }
    }

    pub fn get_key(&self) -> (r: &str)
        ensures
            r@ == self.spec_key(),
            self.wf() ==> r@.len() > 0,
    {
        self.key.as_str()
    }

    pub fn get_export_to(&self) -> (r: &str)
        ensures
            r@ == self.spec_export_to(),
            self.wf() ==> r@.len() > 0,
    {
        self.export_to.as_str()
    }
}

impl Config {
    /// Builds a configuration from a connection and its ordered rules.
    pub fn new(vault: Vault, vars: Vec<Var>) -> (r: Config)
        ensures
            r.spec_vault() == vault,
            r.spec_vars() == vars@,
    {
        Config { vault, vars }
    }

    pub closed spec fn spec_vault(&self) -> Vault {
        self.vault
    }

    pub closed spec fn spec_vars(&self) -> Seq<Var> {
        self.vars@
    }

    pub fn get_vars(&self) -> (r: &Vec<Var>)
        ensures
            r@ == self.spec_vars(),
    {
        &self.vars
    }

    pub fn get_vault(&self) -> (r: &Vault)
        ensures
            *r == self.spec_vault(),
    {
        &self.vault
    }
}

} // verus!
