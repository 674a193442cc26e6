//! The configuration the collaborators hand this core: the remote base
//! URLs, the snapshot cache's capacity, and where the two asset stores
//! live. Plain data; loading it, building HTTP clients and reading the
//! archive file from disk are the host program's work.

use vstd::prelude::*;

verus! {

/// The host's configuration, with the defaults the service ships.
#[derive(Debug)]
pub struct Config {
    pub siesta_mode: bool,
    pub chronplete: bool,
    pub http_client_gzip: bool,
    pub chronicler_base_url: String,
    pub upnuts_base_url: String,
    pub content_security_policy: String,
    pub static_dir: String,
    pub static_zip_path: Option<String>,
    pub site_cache: bool,
    pub stream_cache_size: Option<usize>,
    pub matomo_base_url: Option<String>,
    pub matomo_site_id: Option<i64>,
}

impl Config {
    /// An equal copy for background work; unlike the derived clone, what
    /// it returns is pinned down. The loaded archive and the snapshot
    /// cache live outside this struct and are never duplicated with it.
    pub fn private_clone(&self) -> (c: Config)
        ensures
            c == *self,
    {
        Config {
            siesta_mode: self.siesta_mode,
            chronplete: self.chronplete,
            http_client_gzip: self.http_client_gzip,
            chronicler_base_url: self.chronicler_base_url.clone(),
            upnuts_base_url: self.upnuts_base_url.clone(),
            content_security_policy: self.content_security_policy.clone(),
            static_dir: self.static_dir.clone(),
            static_zip_path: match &self.static_zip_path {
                Some(s) => Some(s.clone()),
                None => None,
            },
            site_cache: self.site_cache,
            stream_cache_size: self.stream_cache_size,
            matomo_base_url: match &self.matomo_base_url {
                Some(s) => Some(s.clone()),
                None => None,
            },
            matomo_site_id: self.matomo_site_id,
        }
    }
}

impl Default for Config {
    /// The stock configuration: siesta mode on, the public remote API,
    /// a local static directory, no archive, no cache, no analytics.
    fn default() -> (c: Config)
        ensures
            c.siesta_mode == true,
            c.chronplete == false,
            c.http_client_gzip == false,
            c.chronicler_base_url@ == "https://api.sibr.dev/chronicler/"@,
            c.upnuts_base_url@ == "https://api.sibr.dev/upnuts/"@,
            c.static_dir@ == "static"@,
            c.static_zip_path is None,
            c.site_cache == true,
            c.stream_cache_size is None,
            c.matomo_base_url is None,
            c.matomo_site_id is None,
    {
        Config {
            siesta_mode: true,
            chronplete: false,
            http_client_gzip: false,
            chronicler_base_url: "https://api.sibr.dev/chronicler/".to_owned(),
            upnuts_base_url: "https://api.sibr.dev/upnuts/".to_owned(),
            content_security_policy: "upgrade-insecure-requests; default-src 'self'; script-src 'self' https://platform.twitter.com 'unsafe-inline' 'nonce-{nonce}'; style-src 'self' 'unsafe-inline'; img-src 'self' {matomo_base_url} https://d35iw2jmbg6ut8.cloudfront.net data:; connect-src 'self' {matomo_base_url}; object-src 'none'; frame-src https://platform.twitter.com https://www.youtube.com 'self'; base-uri 'none';".to_owned(),
            static_dir: "static".to_owned(),
            static_zip_path: None,
            site_cache: true,
            stream_cache_size: None,
            matomo_base_url: None,
            matomo_site_id: None,
        }
    }
}

} // verus!
