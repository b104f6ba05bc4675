use vstd::prelude::*;

verus! {

/// Settings of the storage engine.
///
/// Durations are milliseconds.
pub struct EngineConfig {
    /// The URL the server is reached at; generated links start with it.
    pub base_url: String,
    /// Key required of uploaders; empty when uploads need no key.
    pub upload_key: String,
    /// Secret that signs deletion links; deletion is disabled without it.
    pub deletion_secret: Option<String>,
    /// Settings of the on-disk store.
    pub disk: DiskConfig,
    /// Settings of the in-memory cache.
    pub cache: CacheConfig,
    /// Largest upload accepted, if there is a limit.
    pub max_upload_len: Option<u64>,
    /// Longest lifetime a temporary upload may ask for.
    pub max_temp_lifetime: u64,
    /// Largest upload whose image metadata is stripped.
    pub max_strip_len: u64,
    /// Text of the index page.
    pub motd: String,
}

/// Settings of the on-disk store.
pub struct DiskConfig {
    /// Directory that holds one file per upload.
    pub save_path: String,
}

/// Settings of the in-memory cache.
///
/// Durations are milliseconds.
#[derive(Clone, Copy)]
pub struct CacheConfig {
    /// Largest upload that is kept in the cache.
    pub max_length: u64,
    /// How long an entry lasts when it is not used.
    pub upload_lifetime: u64,
    /// How often expired entries are swept out.
    pub scan_freq: u64,
    /// Total payload bytes the cache aims to hold at most.
    pub mem_capacity: usize,
}

/// Settings of the HTTP listener.
pub struct HttpConfig {
    /// Address and port to listen on.
    pub listen_on: String,
}

/// The index page text used when the configuration gives none.
pub fn default_motd() -> (r: String)
    ensures
        r@ == "breeze file server (v%version%) - currently hosting %uplcount% files"@,
{
    String::from_str("breeze file server (v%version%) - currently hosting %uplcount% files")
}

} // verus!
