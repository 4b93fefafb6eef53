//! Statuses for Mastodon.

use vstd::prelude::*;
use crate::outside::{sha256_hex, sha256_hex_of};
use crate::social::{Lang, StatusContent};

verus! {

/// The visibility of a status that everyone may read.
pub const PUBLIC: &'static str = "public";

/// A status as it is posted.
pub struct Toot {
    pub status: String,
    pub visibility: &'static str,
    pub language: String,
}

impl Toot {
    /// A public status with the given text, in the given language.
    pub fn new(status: &StatusContent, language: &Lang) -> (r: Toot)
        ensures
            r.status@ == status@,
            r.visibility@ == PUBLIC@,
            r.language@ == language@,
    {
        Toot { status: status.0.clone(), visibility: PUBLIC, language: language.0.clone() }
    }

    /// The key under which the server takes the status once only: the
    /// SHA-256 digest of its text.
    pub fn idempotency_key(&self) -> (r: String)
        ensures
            r@ == sha256_hex_of(self.status@),
    {
        sha256_hex(self.status.as_str())
    }
}

/// Where statuses are posted on a server.
pub fn statuses_url(server: &str) -> (r: String)
    ensures
        r@ == "https://"@ + server@ + "/api/v1/statuses"@,
{
    let mut url = "https://".to_owned();
    url.append(server);
    url.append("/api/v1/statuses");
    url
}

/// Where a status is bookmarked on a server.
pub fn bookmark_url(server: &str, id: &str) -> (r: String)
    ensures
        r@ == "https://"@ + server@ + "/api/v1/statuses/"@ + id@ + "/bookmark"@,
{
    let mut url = "https://".to_owned();
    url.append(server);
    url.append("/api/v1/statuses/");
    url.append(id);
    url.append("/bookmark");
    url
}

} // verus!
