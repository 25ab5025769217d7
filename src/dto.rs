use vstd::prelude::*;

verus! {

/// How the server is set up: where snapshots lie, where the registrar listens, on
/// which port this server listens and under which address it is known.
pub struct WebServiceConfig {
    pub basedir: String,
    pub metadata_url: String,
    pub port: usize,
    pub cache_server_url: String,
}

} // verus!
