//! The shape of `/etc/mycel.toml`.
use vstd::prelude::*;

verus! {

/// The whole of `/etc/mycel.toml`.
pub struct MycelConfig {
    pub system: System,
    pub boot: Boot,
    pub packages: Packages,
    pub overlays: Option<Overlays>,
    pub desktop: Desktop,
    pub services: Services,
    pub users: Vec<User>,
}

/// `[system]`.
pub struct System {
    pub hostname: String,
    pub timezone: String,
    pub locale: String,
    pub kernel: String,
    pub immutable: bool,
}

/// `[boot]`: the menu timeout and extra kernel command-line words.
pub struct Boot {
    pub timeout: u32,
    pub cmdline: Vec<String>,
}

/// `[packages]`: what to install, and what to keep across rollbacks.
pub struct Packages {
    pub install: Vec<String>,
    pub lock: Vec<String>,
}

/// `[overlays]`: where recipes come from (`github:OWNER/REPO`).
pub struct Overlays {
    pub sources: Vec<String>,
}

/// `[desktop]`.
pub struct Desktop {
    pub environment: String,
}

/// `[services]`: the services to keep up.
pub struct Services {
    pub enable: Vec<String>,
}

/// One `[[users]]` entry.
pub struct User {
    pub name: String,
    pub shell: String,
    pub groups: Vec<String>,
    pub password_hash: String,
}

/// The overlay sources, none when `[overlays]` is absent.
pub fn overlay_sources(c: &MycelConfig) -> (r: Vec<String>)
    ensures
        r@ == (match c.overlays {
            Some(o) => o.sources@,
            None => Seq::<String>::empty(),
        }),
{
    match &c.overlays {
        Some(o) => o.sources.clone(),
        None => Vec::new(),
    }
}

} // verus!
