//! What every rendered page knows: the application and who is looking.
use crate::user::User;
use vstd::prelude::*;

verus! {

/// The application's name, version and public address.
#[derive(Clone, Default)]
pub struct AppInfo {
    pub name: String,
    pub version: String,
    pub website_url: String,
}

/// The context shared by every page.
pub struct SharedContext {
    pub app_info: AppInfo,
    pub user: Option<User>,
}

impl SharedContext {
    /// A context with a copy of `app_info` and the viewer `user`.
    pub fn new(app_info: &AppInfo, user: Option<User>) -> (r: SharedContext)
        ensures
            r.app_info == *app_info,
            r.user == user,
    {
        SharedContext {
            app_info: AppInfo {
                name: app_info.name.clone(),
                version: app_info.version.clone(),
                website_url: app_info.website_url.clone(),
            },
            user,
        }
    }
}

} // verus!
