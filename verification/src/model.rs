//! The managed configuration: servers ("sites") and their settings.
use vstd::prelude::*;
use vstd::string::StringExecFns;

verus! {

/// One server block of the managed configuration.
#[derive(Clone, Debug, PartialEq, Eq)]
pub struct Site {
    pub address: String,
    pub upstream: String,
    pub rate_limit_enabled: bool,
    pub rate_limit_zone: String,
    pub rate_limit_events: u32,
    pub rate_limit_window: String,
    pub encode_zstd: bool,
    pub encode_gzip: bool,
    pub tls_internal: bool,
}

/// The mathematical value of a [`Site`]: its text fields as character sequences.
pub struct SiteView {
    pub address: Seq<char>,
    pub upstream: Seq<char>,
    pub rate_limit_enabled: bool,
    pub rate_limit_zone: Seq<char>,
    pub rate_limit_events: u32,
    pub rate_limit_window: Seq<char>,
    pub encode_zstd: bool,
    pub encode_gzip: bool,
    pub tls_internal: bool,
}

impl View for Site {
    type V = SiteView;

    open spec fn view(&self) -> SiteView {
        SiteView {
            address: self.address@,
            upstream: self.upstream@,
            rate_limit_enabled: self.rate_limit_enabled,
            rate_limit_zone: self.rate_limit_zone@,
            rate_limit_events: self.rate_limit_events,
            rate_limit_window: self.rate_limit_window@,
            encode_zstd: self.encode_zstd,
            encode_gzip: self.encode_gzip,
            tls_internal: self.tls_internal,
        }
    }
}

/// The settings a new server starts with.
pub open spec fn default_site() -> SiteView {
    SiteView {
        address: "example.com"@,
        upstream: "127.0.0.1:3000"@,
        rate_limit_enabled: false,
        rate_limit_zone: "dynamic"@,
        rate_limit_events: 100,
        rate_limit_window: "1m"@,
        encode_zstd: true,
        encode_gzip: true,
        tls_internal: false,
    }
}

/// The list entry of a server: `address -> upstream`.
pub open spec fn site_title(s: SiteView) -> Seq<char> {
    s.address + " -> "@ + s.upstream
}

impl Default for Site {
    fn default() -> (s: Self)
        ensures
            s@ == default_site(),
    {
        Site {
            address: String::from_str("example.com"),
            upstream: String::from_str("127.0.0.1:3000"),
            rate_limit_enabled: false,
            rate_limit_zone: String::from_str("dynamic"),
            rate_limit_events: 100,
            rate_limit_window: String::from_str("1m"),
            encode_zstd: true,
            encode_gzip: true,
            tls_internal: false,
        }
    }
}

impl Site {
    /// `address -> upstream`, as the server list shows it.
    pub fn title(&self) -> (t: String)
        ensures
            t@ == site_title(self@),
    {
        let mut t = self.address.clone();
        t.append(" -> ");
        t.append(self.upstream.as_str());
        t
    }
}

/// The managed configuration: the servers, in file order.
#[derive(Clone, Debug, PartialEq, Eq)]
pub struct CaddyConfig {
    pub sites: Vec<Site>,
}

/// The views of a sequence of sites.
pub open spec fn sites_view(v: Seq<Site>) -> Seq<SiteView> {
    Seq::new(v.len(), |i: int| v[i]@)
}

impl View for CaddyConfig {
    type V = Seq<SiteView>;

    open spec fn view(&self) -> Seq<SiteView> {
        sites_view(self.sites@)
    }
}

impl Default for CaddyConfig {
    fn default() -> (c: Self)
        ensures
            c@ == Seq::<SiteView>::empty(),
    {
        let c = CaddyConfig { sites: Vec::new() };
        assert(c@ =~= Seq::<SiteView>::empty());
        c
    }
}

impl CaddyConfig {
    /// A configuration holding one server with the default settings.
    pub fn with_example_site() -> (c: Self)
        ensures
            c@ == seq![default_site()],
    {
        let mut sites: Vec<Site> = Vec::new();
        sites.push(Site::default());
        let c = CaddyConfig { sites };
        assert(c@ =~= seq![default_site()]);
        c
    }
}

} // verus!
