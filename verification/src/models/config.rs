//! The machine-global configuration (`~/.myspace/config.toml`).
use vstd::prelude::*;
use vstd::hash_map::StringHashMap;
use crate::text::{self, chars_of};
use crate::utils::paths::{self, join_path};

verus! {

/// The host filled in when neither the target nor the config names one.
pub fn default_host() -> (r: String)
    ensures
        r@ == "github.com"@,
{
    String::from_str("github.com")
}

/// Per-host settings.
pub struct HostConfig {
    /// Explicit SSH private key for this host (the IdentityFile+IdentitiesOnly
    /// equivalent). libgit2 does not read ~/.ssh/config, so agent key order
    /// decides identity by default — set this when multiple keys for the same
    /// host live in the agent. Supports a leading `~/`.
    pub ssh_key: Option<String>,
}

pub struct GlobalConfig {
    /// Host filled in when a target omits it. GitHub-shaped hosts only
    /// (host/org/repo, SSH transport) — includes GitHub Enterprise.
    pub default_host: String,
    /// Org filled in when a target is a bare repo name.
    pub default_org: String,
    /// Aliases map a dot-less shorthand to a bare hostname,
    /// e.g. bb = "bitbucket.org". Identity only — never a transport string.
    pub aliases: StringHashMap<String>,
    /// Per-host settings, keyed by hostname.
    pub hosts: StringHashMap<HostConfig>,
}

/// `path` with a leading `~/` replaced by the home directory, when there is
/// one; otherwise `path` unchanged.
pub open spec fn spec_expand_tilde(path: Seq<char>, home: Option<Seq<char>>) -> Seq<char> {
    if text::spec_starts_with(path, seq!['~', '/']) && home is Some {
        paths::spec_join(home->0, path.skip(2))
    } else {
        path
    }
}

/// The configured SSH identity for `host`, tilde-expanded against `home`.
pub open spec fn spec_ssh_key_for(
    config: GlobalConfig,
    host: Seq<char>,
    home: Option<Seq<char>>,
) -> Option<Seq<char>> {
    if config.hosts@.contains_key(host) && config.hosts@[host].ssh_key is Some {
        Some(spec_expand_tilde(config.hosts@[host].ssh_key->0@, home))
    } else {
        None
    }
}

/// Expands a leading `~/` against the given home directory.
/// Tilde expansion replaces a leading `~/` by the home directory, when one
/// is known, joining the rest onto it; any other path is left as it is.
pub proof fn lemma_expand_tilde(rest: Seq<char>, path: Seq<char>, home: Option<Seq<char>>)
    ensures
        home is Some ==> spec_expand_tilde(seq!['~', '/'] + rest, home) == paths::spec_join(
            home->0,
            rest,
        ),
        home is None ==> spec_expand_tilde(path, home) == path,
        !(path.len() >= 2 && path[0] == '~' && path[1] == '/') ==> spec_expand_tilde(path, home)
            == path,
{
    assert((seq!['~', '/'] + rest).take(2) =~= seq!['~', '/']);
    assert((seq!['~', '/'] + rest).skip(2) =~= rest);
    if text::spec_starts_with(path, seq!['~', '/']) {
        assert(path.take(2)[0] == path[0] && path.take(2)[1] == path[1]);
    }
}

pub fn expand_tilde(path: &str, home: Option<String>) -> (r: String)
    ensures
        r@ == spec_expand_tilde(path@, text::opt_view(home)),
{
    let v = chars_of(path);
    if v.len() >= 2 && v[0] == '~' && v[1] == '/' {
        assert(v@.take(2) =~= seq!['~', '/']);
        match home {
            Some(h) => {
                let rest = text::string_of(&v, 2, v.len());
                assert(rest@ =~= path@.skip(2));
                return join_path(h.as_str(), rest.as_str());
            },
            None => {},
        }
    } else {
        assert(!text::spec_starts_with(path@, seq!['~', '/'])) by {
            if text::spec_starts_with(path@, seq!['~', '/']) {
                assert(path@.take(2)[0] == path@[0]);
                assert(path@.take(2)[1] == path@[1]);
            }
        }
    }
    text::string_from(&v)
}

impl HostConfig {
    pub fn new(ssh_key: Option<String>) -> (r: Self)
        ensures
            r.ssh_key == ssh_key,
    {
        HostConfig { ssh_key }
    }
}

impl GlobalConfig {
    /// A configuration with the given defaults and no aliases or host
    /// settings.
    pub fn new(default_host: String, default_org: String) -> (r: Self)
        ensures
            r.default_host == default_host,
            r.default_org == default_org,
            r.aliases@ == Map::<Seq<char>, String>::empty(),
            r.hosts@ == Map::<Seq<char>, HostConfig>::empty(),
    {
        GlobalConfig {
            default_host,
            default_org,
            aliases: StringHashMap::new(),
            hosts: StringHashMap::new(),
        }
    }

    /// Maps the dot-less shorthand `alias` to `host`.
    pub fn add_alias(&mut self, alias: String, host: String)
        ensures
            final(self).aliases@ == old(self).aliases@.insert(alias@, host),
            final(self).hosts@ == old(self).hosts@,
            final(self).default_host == old(self).default_host,
            final(self).default_org == old(self).default_org,
    {
        self.aliases.insert(alias, host);
    }

    /// Records the settings of one host.
    pub fn set_host(&mut self, host: String, settings: HostConfig)
        ensures
            final(self).hosts@ == old(self).hosts@.insert(host@, settings),
            final(self).aliases@ == old(self).aliases@,
            final(self).default_host == old(self).default_host,
            final(self).default_org == old(self).default_org,
    {
        self.hosts.insert(host, settings);
    }

    /// The configured SSH identity for a host, tilde-expanded against the
    /// given home directory.
    pub fn ssh_key_for_home(&self, host: &str, home: Option<String>) -> (r: Option<String>)
        ensures
            text::opt_view(r) == spec_ssh_key_for(*self, host@, text::opt_view(home)),
    {
        match self.hosts.get(host) {
            Some(settings) => match &settings.ssh_key {
                Some(raw) => Some(expand_tilde(raw.as_str(), home)),
                None => None,
            },
            None => None,
        }
    }

    /// The configured SSH identity for a host, tilde-expanded, if any. The
    /// home directory comes from the environment; whatever it is, the result
    /// is the configured key expanded against it.
    pub fn ssh_key_for(&self, host: &str) -> (r: Option<String>)
        ensures
            exists|home: Option<Seq<char>>| text::opt_view(r) == spec_ssh_key_for(*self, host@, home),
    {
        let home = paths::home_dir();
        let r = self.ssh_key_for_home(host, home);
        assert(text::opt_view(r) == spec_ssh_key_for(*self, host@, text::opt_view(home)));
        r
    }
}

} // verus!
