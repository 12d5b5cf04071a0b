//! Handles on the outside services the application talks to: sign-in,
//! tokens, storage, geolocation and page updates.
use vstd::prelude::*;

verus! {

/// The profile that Google's sign-in hands back.
pub struct GoogleUser {
    pub sub: String,
    pub email: String,
    pub email_verified: bool,
    pub name: String,
    pub picture: String,
    pub given_name: Option<String>,
    pub family_name: Option<String>,
    pub locale: Option<String>,
}

/// Sign-in through Google.
#[derive(Default)]
pub struct GoogleOAuth {}

impl GoogleOAuth {
    pub fn new() -> (r: GoogleOAuth) {
        GoogleOAuth {}
    }
}

/// Signs and checks session tokens.
pub struct JwtService {}

/// What a session token states: whose it is, and until when it holds.
pub struct UserClaims {
    pub sub: String,
    pub exp: usize,
}

/// The storage of durable records.
pub struct Database {}

/// Where an address is, as far as the location lookup knows.
#[derive(Debug, Default)]
pub struct CountryDetails {
    pub name: Option<String>,
    pub code: Option<String>,
    pub region: Option<String>,
}

/// Headers that steer a partial page update.
pub struct HTMX {}

} // verus!
