use vstd::prelude::*;
use vstd::string::*;

use crate::error::ConfigError;
use crate::kong::{consumers_folder, contains_name, fetched_values, first_error, names_contain, KongConfig};
use crate::version::{semver_newer, Version, VersionScheme};

verus! {

/// The value stored under `k`: the first entry with that key, as in a map.
pub open spec fn lookup<V>(m: Seq<(String, V)>, k: Seq<char>) -> Option<V>
    decreases m.len(),
{
    if m.len() == 0 {
        None
    } else if m[0].0@ == k {
        Some(m[0].1)
    } else {
        lookup(m.drop_first(), k)
    }
}

pub open spec fn has_key<V>(m: Seq<(String, V)>, k: Seq<char>) -> bool {
    lookup(m, k) is Some
}

pub open spec fn ends_with_slash(s: Seq<char>) -> bool {
    s.len() > 0 && s.last() == '/'
}

/// Where the entry stored under `k` stands.
pub fn find_entry<V>(m: &Vec<(String, V)>, k: &String) -> (r: Option<usize>)
    ensures
        match r {
            Some(i) => i < m@.len() && m@[i as int].0@ == k@ && lookup(m@, k@) == Some(
                m@[i as int].1,
            ) && forall|j: int| 0 <= j < i ==> (#[trigger] m@[j]).0@ != k@,
            None => lookup(m@, k@) is None,
        },
{
    let n = m.len();
    let mut i: usize = 0;
    proof {
        assert(m@.subrange(0, n as int) =~= m@);
    }
    while i < n
        invariant
            n == m@.len(),
            i <= n,
            lookup(m@, k@) == lookup(m@.subrange(i as int, n as int), k@),
            forall|j: int| 0 <= j < i ==> (#[trigger] m@[j]).0@ != k@,
        decreases n - i,
    {
        proof {
            assert(m@.subrange(i as int, n as int).drop_first() =~= m@.subrange(
                i as int + 1,
                n as int,
            ));
        }
        if m[i].0 == *k {
            return Some(i);
        }
        i = i + 1;
    }
    None
}

/// No key stands twice.
pub open spec fn unique_keys<V>(m: Seq<(String, V)>) -> bool {
    forall|a: int, b: int|
        #![trigger m[a], m[b]]
        0 <= a < b < m.len() ==> m[a].0@ != m[b].0@
}

/// Where a key stands for the second time, if one does.
fn find_duplicate<V>(m: &Vec<(String, V)>) -> (r: Option<usize>)
    ensures
        r is None <==> unique_keys(m@),
        r matches Some(i) ==> i < m@.len(),
{
    let n = m.len();
    let mut i: usize = 0;
    while i < n
        invariant
            n == m@.len(),
            i <= n,
            forall|a: int, b: int|
                #![trigger m@[a], m@[b]]
                0 <= a < b < i ==> m@[a].0@ != m@[b].0@,
        decreases n - i,
    {
        match find_entry(m, &m[i].0) {
            Some(j) => {
                if j != i {
                    proof {
                        if j > i {
                            assert(m@[i as int].0@ != m@[i as int].0@);
                        }
                        assert(m@[j as int].0@ == m@[i as int].0@);
                    }
                    return Some(i);
                }
                proof {
                    assert forall|a: int, b: int|
                        #![trigger m@[a], m@[b]]
                        0 <= a < b < i + 1 implies m@[a].0@ != m@[b].0@ by {
                        if b == i {
                            assert(m@[a].0@ != m@[i as int].0@);
                        }
                    }
                }
            },
            None => {
                proof {
                    lemma_lookup_found(m@, m@[i as int].0@, i as int);
                }
            },
        }
        i = i + 1;
    }
    None
}

/// A key that stands in the entries has a value stored under it.
proof fn lemma_lookup_found<V>(m: Seq<(String, V)>, k: Seq<char>, i: int)
    requires
        0 <= i < m.len(),
        m[i].0@ == k,
    ensures
        lookup(m, k) is Some,
    decreases i,
{
    if i > 0 && m[0].0@ != k {
        lemma_lookup_found(m.drop_first(), k, i - 1);
    }
}

fn has_trailing_slash(s: &String) -> (r: bool)
    ensures
        r == ends_with_slash(s@),
{
    let n = s.as_str().unicode_len();
    n > 0 && s.as_str().get_char(n - 1) == '/'
}

fn is_blank(s: &String) -> (r: bool)
    ensures
        r == (s@.len() == 0),
{
    s.as_str().unicode_len() == 0
}

/// Defaults for every manifest.
pub struct ManifestDefaults {
    /// Image prefix.
    pub image_prefix: String,
    /// Chart to defer to.
    pub chart: String,
    /// Default number of replicas.
    pub replica_count: u32,
}

impl Default for ManifestDefaults {
    fn default() -> (r: ManifestDefaults)
        ensures
            r.chart@ == "base"@,
            r.replica_count == 1,
            r.image_prefix@.len() == 0,
    {
        ManifestDefaults {
            chart: String::from_str("base"),
            replica_count: 1,
            image_prefix: String::new(),
        }
    }
}

/// A Kubernetes cluster.
pub struct Cluster {
    pub name: String,
    /// Url of the api server.
    pub api: String,
    /// The regions this cluster serves, perhaps not alone.
    pub regions: Vec<String>,
}

/// Where the secrets of a region are kept.
pub struct VaultConfig {
    /// Url of the store, up to and including the port.
    pub url: String,
    /// Root folder under `secret/`.
    pub folder: String,
}

pub struct KafkaConfig {
    /// Broker urls, as `hostname:port`.
    pub brokers: Vec<String>,
}

pub struct Location {
    pub name: String,
}

/// An owner of a team.
pub struct Contact {
    pub name: String,
    pub github: Option<String>,
}

pub struct Team {
    pub name: String,
    pub owners: Vec<Contact>,
}

/// One deployable environment: a namespace in a cluster, with its settings.
pub struct Region {
    pub name: String,
    pub namespace: String,
    /// Environment (e.g. `dev` or `staging`).
    pub environment: String,
    pub versioning_scheme: VersionScheme,
    /// Base urls that can be templated into environment variables.
    pub base_urls: Vec<(String, String)>,
    /// Environment variables to inject.
    pub env: Vec<(String, String)>,
    pub kong: KongConfig,
    pub ip_whitelist: Vec<String>,
    pub kafka: KafkaConfig,
    pub vault: VaultConfig,
    /// Locations the region serves.
    pub locations: Vec<String>,
}

/// How far a configuration has been narrowed and filled.
#[derive(Debug, Clone, Copy, PartialEq, Eq, Structural)]
pub enum ConfigType {
    /// As read: every region.
    File,
    /// One region left.
    Base,
    /// One region, with its secrets filled.
    Completed,
}

impl Default for ConfigType {
    fn default() -> (r: ConfigType)
        ensures
            r == ConfigType::File,
    {
        ConfigType::File
    }
}

/// The configuration of every region, and of what they share.
pub struct Config {
    pub defaults: ManifestDefaults,
    /// Clusters, by name.
    pub clusters: Vec<(String, Cluster)>,
    /// Other names of regions, e.g. `prod-uk-green` for `prod-uk`.
    pub context_aliases: Vec<(String, String)>,
    /// Regions, by name. Reached only through resolution, so that nobody picks one
    /// whose secrets are in an unexpected state.
    regions: Vec<(String, Region)>,
    pub locations: Vec<(String, Location)>,
    pub teams: Vec<Team>,
    /// The oldest tool version that can read this configuration.
    pub version: Version,
    kind: ConfigType,
}

/// The errors of the cluster checks.
pub open spec fn is_cluster_error(e: ConfigError) -> bool {
    e matches ConfigError::ClusterNameMismatch(_) || e matches ConfigError::UndefinedClusterRegion(_, _)
}

/// The errors of the alias checks.
pub open spec fn is_alias_error(e: ConfigError) -> bool {
    e matches ConfigError::AliasToUndefinedRegion(_, _) || e matches ConfigError::SelfAlias(_)
}

/// The errors of the region checks.
pub open spec fn is_region_error(e: ConfigError) -> bool {
    ||| e matches ConfigError::RegionNameMismatch(_)
    ||| e matches ConfigError::MissingNamespace(_)
    ||| e matches ConfigError::MissingEnvironment(_)
    ||| e matches ConfigError::MissingVaultUrl(_)
    ||| e matches ConfigError::BaseUrlTrailingSlash(_)
}

/// Whether the cluster serves the region.
pub open spec fn serves(c: Cluster, region: Seq<char>) -> bool {
    names_contain(c.regions@, region)
}

/// The clusters that serve the region, in order.
pub open spec fn serving(cs: Seq<(String, Cluster)>, region: Seq<char>) -> Seq<(String, Cluster)>
    decreases cs.len(),
{
    if cs.len() == 0 {
        cs
    } else if serves(cs.last().1, region) {
        serving(cs.drop_last(), region).push(cs.last())
    } else {
        serving(cs.drop_last(), region)
    }
}

/// The aliases that point to the region, in order.
pub open spec fn pointing(aliases: Seq<(String, String)>, region: Seq<char>) -> Seq<(String, String)>
    decreases aliases.len(),
{
    if aliases.len() == 0 {
        aliases
    } else if aliases.last().1@ == region {
        pointing(aliases.drop_last(), region).push(aliases.last())
    } else {
        pointing(aliases.drop_last(), region)
    }
}

/// Extending the clusters keeps the first that serves.
pub proof fn lemma_serving_first(cs: Seq<(String, Cluster)>, region: Seq<char>)
    requires
        cs.len() > 0,
    ensures
        serving(cs.drop_last(), region).len() > 0 ==> serving(cs, region)[0] == serving(
            cs.drop_last(),
            region,
        )[0],
        serving(cs, region).len() == serving(cs.drop_last(), region).len() + if serves(
            cs.last().1,
            region,
        ) {
            1int
        } else {
            0int
        },
        serving(cs.drop_last(), region).len() == 0 && serves(cs.last().1, region) ==> serving(
            cs,
            region,
        )[0] == cs.last(),
{
}

/// The clusters that serve the region, in order.
fn keep_serving(cs: Vec<(String, Cluster)>, region: &String) -> (r: Vec<(String, Cluster)>)
    ensures
        r@ == serving(cs@, region@),
{
    let ghost all = cs@;
    let ghost n = all.len() as int;
    let mut rest = cs;
    let mut kept: Vec<(String, Cluster)> = Vec::new();
    proof {
        assert(all.subrange(0, 0) =~= Seq::<(String, Cluster)>::empty());
        assert(rest@ =~= all.subrange(0, n));
    }
    while rest.len() > 0
        invariant
            n == all.len(),
            0 <= n - rest@.len(),
            rest@ == all.subrange(n - rest@.len(), n),
            kept@ == serving(all.subrange(0, n - rest@.len()), region@),
        decreases rest@.len(),
    {
        let ghost k = n - rest@.len();
        let e = rest.remove(0);
        proof {
            assert(all.subrange(0, k + 1).drop_last() =~= all.subrange(0, k));
            assert(rest@ =~= all.subrange(k + 1, n));
        }
        if contains_name(&e.1.regions, region) {
            kept.push(e);
        }
    }
    proof {
        assert(all.subrange(0, n) =~= all);
    }
    kept
}

/// The aliases that point to the region, in order.
fn keep_pointing(aliases: Vec<(String, String)>, region: &String) -> (r: Vec<(String, String)>)
    ensures
        r@ == pointing(aliases@, region@),
{
    let ghost all = aliases@;
    let ghost n = all.len() as int;
    let mut rest = aliases;
    let mut kept: Vec<(String, String)> = Vec::new();
    proof {
        assert(all.subrange(0, 0) =~= Seq::<(String, String)>::empty());
        assert(rest@ =~= all.subrange(0, n));
    }
    while rest.len() > 0
        invariant
            n == all.len(),
            0 <= n - rest@.len(),
            rest@ == all.subrange(n - rest@.len(), n),
            kept@ == pointing(all.subrange(0, n - rest@.len()), region@),
        decreases rest@.len(),
    {
        let ghost k = n - rest@.len();
        let e = rest.remove(0);
        proof {
            assert(all.subrange(0, k + 1).drop_last() =~= all.subrange(0, k));
            assert(rest@ =~= all.subrange(k + 1, n));
        }
        if e.1 == *region {
            kept.push(e);
        }
    }
    proof {
        assert(all.subrange(0, n) =~= all);
    }
    kept
}

/// `new` is `old` with the placeholders of its gateway settings filled from `values`,
/// and nothing else changed.
pub open spec fn region_filled(old: Region, new: Region, values: Seq<Seq<char>>) -> bool {
    &&& old.kong.filled_by(&new.kong, values)
    &&& new.name == old.name
    &&& new.namespace == old.namespace
    &&& new.environment == old.environment
    &&& new.versioning_scheme == old.versioning_scheme
    &&& new.base_urls == old.base_urls
    &&& new.env == old.env
    &&& new.ip_whitelist == old.ip_whitelist
    &&& new.kafka == old.kafka
    &&& new.vault == old.vault
    &&& new.locations == old.locations
}

impl Region {
    /// The store paths to read for this region's placeholders, in order.
    pub fn secret_paths(&self) -> (r: Vec<String>)
        ensures
            r@.map_values(|s: String| s@) == self.kong.secret_paths(self.name@),
            r@.len() == self.kong.secret_count(),
    {
        let r = self.kong.secret_paths_of(self.name.as_str());
        proof {
            self.kong.lemma_secret_count(self.name@);
            assert(r@.map_values(|s: String| s@).len() == r@.len());
        }
        r
    }

    /// The folder of the store whose listing `verify_secrets_exist` needs.
    pub fn secrets_folder(&self) -> (r: String)
        ensures
            r@ == consumers_folder(self.name@),
    {
        self.name.clone().concat("/kong/consumers")
    }

    /// Fills the placeholders from what the store gave for each of `secret_paths`,
    /// in order, or changes nothing and hands back the first failure.
    pub fn secrets(&mut self, fetched: Vec<Result<String, ConfigError>>) -> (r: Result<
        (),
        ConfigError,
    >)
        requires
            fetched@.len() == old(self).kong.secret_count(),
        ensures
            match first_error(fetched@) {
                Some(e) => r == Err::<(), ConfigError>(e) && *final(self) == *old(self),
                None => r is Ok && region_filled(*old(self), *final(self), fetched_values(fetched@)),
            },
    {
        self.kong.secrets(fetched)
    }

    /// Checks that the listing of `secrets_folder` holds every secret that a
    /// placeholder stands for.
    pub fn verify_secrets_exist(&self, found: &Vec<String>) -> (r: Result<(), ConfigError>)
        ensures
            r is Ok <==> forall|k: int|
                0 <= k < self.kong.secret_names().len() ==> #[trigger] names_contain(
                    found@,
                    self.kong.secret_names()[k],
                ),
            r matches Err(e) ==> e matches ConfigError::MissingSecret(m)
                && self.kong.secret_names().contains(m@) && !names_contain(found@, m@),
    {
        self.kong.verify_secrets_exist(found)
    }
}

/// Whether the region is well formed under key `key`.
pub open spec fn region_valid(key: Seq<char>, r: Region) -> bool {
    &&& key == r.name@
    &&& r.namespace@.len() > 0
    &&& r.environment@.len() > 0
    &&& r.vault.url@.len() > 0
    &&& forall|j: int|
        0 <= j < r.base_urls@.len() ==> !ends_with_slash(#[trigger] r.base_urls@[j].1@)
}

impl Config {
    pub closed spec fn region_entries(&self) -> Seq<(String, Region)> {
        self.regions@
    }

    pub closed spec fn kind(&self) -> ConfigType {
        self.kind
    }

    pub closed spec fn cluster_entries(&self) -> Seq<(String, Cluster)> {
        self.clusters@
    }

    pub closed spec fn alias_entries(&self) -> Seq<(String, String)> {
        self.context_aliases@
    }

    pub closed spec fn team_list(&self) -> Seq<Team> {
        self.teams@
    }

    pub closed spec fn declared_version(&self) -> Seq<char> {
        self.version@
    }

    pub closed spec fn image_prefix(&self) -> Seq<char> {
        self.defaults.image_prefix@
    }

    pub closed spec fn manifest_defaults(&self) -> ManifestDefaults {
        self.defaults
    }

    pub closed spec fn location_entries(&self) -> Seq<(String, Location)> {
        self.locations@
    }

    /// Each mapping holds every key once.
    pub open spec fn keys_unique(&self) -> bool {
        &&& unique_keys(self.cluster_entries())
        &&& unique_keys(self.alias_entries())
        &&& unique_keys(self.region_entries())
        &&& unique_keys(self.location_entries())
    }

    pub open spec fn clusters_named_by_key(&self) -> bool {
        forall|i: int|
            0 <= i < self.cluster_entries().len() ==> #[trigger] self.cluster_entries()[i].0@
                == self.cluster_entries()[i].1.name@
    }

    /// Only a configuration with every region can tell whether a cluster's
    /// regions exist.
    pub open spec fn cluster_regions_defined(&self) -> bool {
        self.kind() == ConfigType::File ==> forall|i: int, j: int|
            0 <= i < self.cluster_entries().len() && 0 <= j < self.cluster_entries()[i].1.regions@.len()
                ==> has_key(self.region_entries(), #[trigger] self.cluster_entries()[i].1.regions@[j]@)
    }

    /// The alias at `i` names a region, and is not itself one.
    pub open spec fn alias_valid(&self, i: int) -> bool {
        &&& has_key(self.region_entries(), self.alias_entries()[i].1@)
        &&& !has_key(self.region_entries(), self.alias_entries()[i].0@)
    }

    pub open spec fn aliases_valid(&self) -> bool {
        forall|i: int| 0 <= i < self.alias_entries().len() ==> #[trigger] self.alias_valid(i)
    }

    pub open spec fn regions_valid(&self) -> bool {
        forall|i: int|
            0 <= i < self.region_entries().len() ==> region_valid(
                #[trigger] self.region_entries()[i].0@,
                self.region_entries()[i].1,
            )
    }

    pub open spec fn owners_identified(&self) -> bool {
        forall|t: int, o: int|
            0 <= t < self.team_list().len() && 0 <= o < self.team_list()[t].owners@.len()
                ==> #[trigger] self.team_list()[t].owners@[o].github is Some
    }

    /// Everything but the version and the owners holds.
    pub open spec fn structure_valid(&self) -> bool {
        &&& !ends_with_slash(self.image_prefix())
        &&& self.keys_unique()
        &&& self.clusters_named_by_key()
        &&& self.cluster_regions_defined()
        &&& self.aliases_valid()
        &&& self.regions_valid()
    }

    /// What `verify` accepts, for a tool of version `current`.
    pub open spec fn valid(&self, current: &Version) -> bool {
        &&& self.structure_valid()
        &&& !semver_newer(self.declared_version(), current@)
        &&& self.owners_identified()
    }

    /// A configuration with every region, as read.
    pub fn from_parts(
        defaults: ManifestDefaults,
        clusters: Vec<(String, Cluster)>,
        context_aliases: Vec<(String, String)>,
        regions: Vec<(String, Region)>,
        locations: Vec<(String, Location)>,
        teams: Vec<Team>,
        version: Version,
    ) -> (r: Config)
        ensures
            r.kind() == ConfigType::File,
            r.region_entries() == regions@,
            r.cluster_entries() == clusters@,
            r.alias_entries() == context_aliases@,
            r.team_list() == teams@,
            r.declared_version() == version@,
            r.image_prefix() == defaults.image_prefix@,
            r.manifest_defaults() == defaults,
            r.location_entries() == locations@,
    {
        Config {
            defaults,
            clusters,
            context_aliases,
            regions,
            locations,
            teams,
            version,
            kind: ConfigType::File,
        }
    }

    fn check_keys(&self) -> (r: Result<(), ConfigError>)
        ensures
            r is Ok <==> self.keys_unique(),
            r matches Err(e) ==> e matches ConfigError::DuplicateKey(_),
    {
        match find_duplicate(&self.clusters) {
            Some(i) => return Err(ConfigError::DuplicateKey(self.clusters[i].0.clone())),
            None => {},
        }
        match find_duplicate(&self.context_aliases) {
            Some(i) => return Err(ConfigError::DuplicateKey(self.context_aliases[i].0.clone())),
            None => {},
        }
        match find_duplicate(&self.regions) {
            Some(i) => return Err(ConfigError::DuplicateKey(self.regions[i].0.clone())),
            None => {},
        }
        match find_duplicate(&self.locations) {
            Some(i) => return Err(ConfigError::DuplicateKey(self.locations[i].0.clone())),
            None => {},
        }
        Ok(())
    }

    fn check_clusters(&self) -> (r: Result<(), ConfigError>)
        ensures
            r is Ok <==> self.clusters_named_by_key() && self.cluster_regions_defined(),
            r matches Err(e) ==> is_cluster_error(e),
    {
        let n = self.clusters.len();
        let mut i: usize = 0;
        while i < n
            invariant
                n == self.cluster_entries().len(),
                i <= n,
                forall|k: int| 0 <= k < i ==> #[trigger] self.cluster_entries()[k].0@
                    == self.cluster_entries()[k].1.name@,
                self.kind() == ConfigType::File ==> forall|k: int, j: int|
                    0 <= k < i && 0 <= j < self.cluster_entries()[k].1.regions@.len() ==> has_key(
                        self.region_entries(),
                        #[trigger] self.cluster_entries()[k].1.regions@[j]@,
                    ),
            decreases n - i,
        {
            let cname = &self.clusters[i].0;
            let c = &self.clusters[i].1;
            if *cname != c.name {
                return Err(ConfigError::ClusterNameMismatch(cname.clone()));
            }
            if self.kind == ConfigType::File {
                let m = c.regions.len();
                let mut j: usize = 0;
                while j < m
                    invariant
                        m == c.regions@.len(),
                        j <= m,
                        i < n,
                        n == self.cluster_entries().len(),
                        self.kind == ConfigType::File,
                        *c == self.cluster_entries()[i as int].1,
                        forall|jj: int|
                            0 <= jj < j ==> has_key(self.region_entries(), #[trigger] c.regions@[jj]@),
                    decreases m - j,
                {
                    if find_entry(&self.regions, &c.regions[j]).is_none() {
                        proof {
                            let cs = self.cluster_entries();
                            assert(!has_key(
                                self.region_entries(),
                                cs[i as int].1.regions@[j as int]@,
                            ));
                        }
                        return Err(
                            ConfigError::UndefinedClusterRegion(cname.clone(), c.regions[j].clone()),
                        );
                    }
                    j = j + 1;
                }
            }
            i = i + 1;
        }
        Ok(())
    }

    fn check_aliases(&self) -> (r: Result<(), ConfigError>)
        ensures
            r is Ok <==> self.aliases_valid(),
            r matches Err(e) ==> is_alias_error(e),
    {
        let n = self.context_aliases.len();
        let mut i: usize = 0;
        while i < n
            invariant
                n == self.alias_entries().len(),
                i <= n,
                forall|k: int| 0 <= k < i ==> #[trigger] self.alias_valid(k),
            decreases n - i,
        {
            let k = &self.context_aliases[i].0;
            let v = &self.context_aliases[i].1;
            if find_entry(&self.regions, v).is_none() {
                proof {
                    assert(!self.alias_valid(i as int));
                }
                return Err(ConfigError::AliasToUndefinedRegion(k.clone(), v.clone()));
            }
            if find_entry(&self.regions, k).is_some() {
                proof {
                    assert(!self.alias_valid(i as int));
                }
                return Err(ConfigError::SelfAlias(k.clone()));
            }
            i = i + 1;
        }
        Ok(())
    }

    fn check_regions(&self) -> (r: Result<(), ConfigError>)
        ensures
            r is Ok <==> self.regions_valid(),
            r matches Err(e) ==> is_region_error(e),
    {
        let n = self.regions.len();
        let mut i: usize = 0;
        while i < n
            invariant
                n == self.region_entries().len(),
                self.regions@ == self.region_entries(),
                i <= n,
                forall|k: int|
                    0 <= k < i ==> region_valid(
                        #[trigger] self.region_entries()[k].0@,
                        self.region_entries()[k].1,
                    ),
            decreases n - i,
        {
            let key = &self.regions[i].0;
            let data = &self.regions[i].1;
            if *key != data.name {
                return Err(ConfigError::RegionNameMismatch(key.clone()));
            }
            if is_blank(&data.namespace) {
                return Err(ConfigError::MissingNamespace(key.clone()));
            }
            if is_blank(&data.environment) {
                return Err(ConfigError::MissingEnvironment(key.clone()));
            }
            if is_blank(&data.vault.url) {
                return Err(ConfigError::MissingVaultUrl(key.clone()));
            }
            let m = data.base_urls.len();
            let mut j: usize = 0;
            while j < m
                invariant
                    m == data.base_urls@.len(),
                    j <= m,
                    i < n,
                    n == self.region_entries().len(),
                    *data == self.region_entries()[i as int].1,
                    *key == self.region_entries()[i as int].0,
                    forall|jj: int|
                        0 <= jj < j ==> !ends_with_slash(#[trigger] data.base_urls@[jj].1@),
                decreases m - j,
            {
                if has_trailing_slash(&data.base_urls[j].1) {
                    proof {
                        assert(!region_valid(
                            self.region_entries()[i as int].0@,
                            self.region_entries()[i as int].1,
                        ));
                    }
                    return Err(ConfigError::BaseUrlTrailingSlash(key.clone()));
                }
                j = j + 1;
            }
            let _ = data.kong.verify();
            i = i + 1;
        }
        Ok(())
    }

    fn check_owners(&self) -> (r: Result<(), ConfigError>)
        ensures
            r is Ok <==> self.owners_identified(),
            r matches Err(e) ==> e matches ConfigError::OwnerWithoutGithub(_),
    {
        let n = self.teams.len();
        let mut t: usize = 0;
        while t < n
            invariant
                n == self.team_list().len(),
                t <= n,
                forall|tt: int, o: int|
                    0 <= tt < t && 0 <= o < self.team_list()[tt].owners@.len()
                        ==> #[trigger] self.team_list()[tt].owners@[o].github is Some,
            decreases n - t,
        {
            let team = &self.teams[t];
            let m = team.owners.len();
            let mut o: usize = 0;
            while o < m
                invariant
                    m == team.owners@.len(),
                    o <= m,
                    t < n,
                    n == self.team_list().len(),
                    *team == self.team_list()[t as int],
                    forall|oo: int| 0 <= oo < o ==> (#[trigger] team.owners@[oo]).github is Some,
                decreases m - o,
            {
                if team.owners[o].github.is_none() {
                    proof {
                        assert(!(self.team_list()[t as int].owners@[o as int].github is Some));
                    }
                    return Err(ConfigError::OwnerWithoutGithub(team.name.clone()));
                }
                o = o + 1;
            }
            t = t + 1;
        }
        Ok(())
    }

    /// Refuses a configuration that asks for a newer tool than `current`.
    pub fn verify_version(ver: &Version, current: &Version) -> (r: Result<(), ConfigError>)
        ensures
            r is Ok <==> !semver_newer(ver@, current@),
            r matches Err(e) ==> e matches ConfigError::OutdatedTool(d, c) && d@ == ver@ && c@
                == current@,
    {
        if ver.is_newer_than(current) {
            Err(
                ConfigError::OutdatedTool(
                    String::from_str(ver.as_str()),
                    String::from_str(current.as_str()),
                ),
            )
        } else {
            Ok(())
        }
    }

    /// Checks the whole configuration for a tool of version `current`, and stops at
    /// the first problem found.
    pub fn verify(&self, current: &Version) -> (r: Result<(), ConfigError>)
        ensures
            r is Ok <==> self.valid(current),
            ends_with_slash(self.image_prefix()) ==> r matches Err(
                ConfigError::ImagePrefixTrailingSlash,
            ),
            !ends_with_slash(self.image_prefix()) && !self.keys_unique() ==> r matches Err(
                ConfigError::DuplicateKey(_),
            ),
            !ends_with_slash(self.image_prefix()) && self.keys_unique() && !(
            self.clusters_named_by_key() && self.cluster_regions_defined()) ==> (r matches Err(e)
                && is_cluster_error(e)),
            !ends_with_slash(self.image_prefix()) && self.keys_unique()
                && self.clusters_named_by_key() && self.cluster_regions_defined()
                && !self.aliases_valid() ==> (r matches Err(e) && is_alias_error(e)),
            !ends_with_slash(self.image_prefix()) && self.keys_unique()
                && self.clusters_named_by_key() && self.cluster_regions_defined()
                && self.aliases_valid() && !self.regions_valid() ==> (r matches Err(e)
                && is_region_error(e)),
            self.structure_valid() && semver_newer(self.declared_version(), current@) ==> (r matches Err(
                ConfigError::OutdatedTool(d, c),
            ) && d@ == self.declared_version() && c@ == current@),
            self.structure_valid() && !semver_newer(self.declared_version(), current@)
                && !self.owners_identified() ==> r matches Err(
                ConfigError::OwnerWithoutGithub(_),
            ),
    {
        if has_trailing_slash(&self.defaults.image_prefix) {
            return Err(ConfigError::ImagePrefixTrailingSlash);
        }
        match self.check_keys() {
            Err(e) => return Err(e),
            Ok(()) => {},
        }
        match self.check_clusters() {
            Err(e) => return Err(e),
            Ok(()) => {},
        }
        match self.check_aliases() {
            Err(e) => return Err(e),
            Ok(()) => {},
        }
        match self.check_regions() {
            Err(e) => return Err(e),
            Ok(()) => {},
        }
        match Config::verify_version(&self.version, current) {
            Err(e) => return Err(e),
            Ok(()) => {},
        }
        self.check_owners()
    }

    /// The region that a context names: the region of that name, else the target
    /// of the alias of that name.
    pub open spec fn resolved(&self, ctx: Seq<char>) -> Option<Seq<char>> {
        if has_key(self.region_entries(), ctx) {
            Some(ctx)
        } else {
            match lookup(self.alias_entries(), ctx) {
                Some(v) => Some(v@),
                None => None,
            }
        }
    }

    /// Whether a context leads to a region and to a single cluster: the cluster of
    /// that name, or the only one that serves the region.
    pub open spec fn cluster_resolvable(&self, ctx: Seq<char>) -> bool {
        match self.region_for(ctx) {
            None => false,
            Some(reg) => has_key(self.cluster_entries(), ctx) || serving(
                self.cluster_entries(),
                reg.name@,
            ).len() == 1,
        }
    }

    /// The region data that a context leads to.
    pub open spec fn region_for(&self, ctx: Seq<char>) -> Option<Region> {
        match self.resolved(ctx) {
            Some(k) => lookup(self.region_entries(), k),
            None => None,
        }
    }

    /// The name of the region that `context` names, directly or through an alias.
    pub fn resolve_context(&self, context: &str) -> (r: Option<String>)
        ensures
            match r {
                Some(s) => self.resolved(context@) == Some(s@),
                None => self.resolved(context@) is None,
            },
    {
        let ctx = String::from_str(context);
        if find_entry(&self.regions, &ctx).is_some() {
            Some(ctx)
        } else {
            match find_entry(&self.context_aliases, &ctx) {
                Some(i) => Some(self.context_aliases[i].1.clone()),
                None => None,
            }
        }
    }

    /// The region that `ctx` leads to, or an error that names the context.
    pub fn get_region(&self, ctx: &str) -> (r: Result<&Region, ConfigError>)
        ensures
            match self.region_for(ctx@) {
                Some(reg) => r matches Ok(x) && *x == reg,
                None => r matches Err(ConfigError::UnknownContext(c)) && c@ == ctx@,
            },
    {
        match self.resolve_context(ctx) {
            Some(key) => match find_entry(&self.regions, &key) {
                Some(i) => Ok(&self.regions[i].1),
                None => Err(ConfigError::UnknownContext(String::from_str(ctx))),
            },
            None => Err(ConfigError::UnknownContext(String::from_str(ctx))),
        }
    }

    /// Works out the cluster and the region that a kube context stands for: the
    /// cluster of that name if there is one, else the one cluster that serves the
    /// region. A region served by no cluster or by several is refused.
    pub fn resolve_cluster(&self, ctx: &str) -> (r: Result<(&Cluster, &Region), ConfigError>)
        ensures
            r is Ok <==> self.cluster_resolvable(ctx@),
            match self.region_for(ctx@) {
                None => r matches Err(ConfigError::UnknownContext(c)) && c@ == ctx@,
                Some(reg) => match lookup(self.cluster_entries(), ctx@) {
                    Some(c) => r matches Ok((x, y)) && *x == c && *y == reg,
                    None => if serving(self.cluster_entries(), reg.name@).len() == 1 {
                        r matches Ok((x, y)) && *x == serving(self.cluster_entries(), reg.name@)[0].1
                            && *y == reg
                    } else {
                        r matches Err(ConfigError::AmbiguousContext(c)) && c@ == ctx@
                    },
                },
            },
    {
        let reg = match self.get_region(ctx) {
            Ok(reg) => reg,
            Err(e) => return Err(e),
        };
        let name = String::from_str(ctx);
        match find_entry(&self.clusters, &name) {
            Some(i) => return Ok((&self.clusters[i].1, reg)),
            None => {},
        }
        let ghost cs = self.cluster_entries();
        let n = self.clusters.len();
        let mut count: usize = 0;
        let mut first: usize = 0;
        let mut i: usize = 0;
        while i < n
            invariant
                n == cs.len(),
                cs == self.clusters@,
                i <= n,
                count == serving(cs.subrange(0, i as int), reg.name@).len(),
                count <= i,
                count > 0 ==> first < n && cs[first as int] == serving(
                    cs.subrange(0, i as int),
                    reg.name@,
                )[0],
            decreases n - i,
        {
            proof {
                assert(cs.subrange(0, i as int + 1).drop_last() =~= cs.subrange(0, i as int));
                lemma_serving_first(cs.subrange(0, i as int + 1), reg.name@);
            }
            if contains_name(&self.clusters[i].1.regions, &reg.name) {
                if count == 0 {
                    first = i;
                }
                count = count + 1;
            }
            i = i + 1;
        }
        proof {
            assert(cs.subrange(0, n as int) =~= cs);
        }
        if count != 1 {
            return Err(ConfigError::AmbiguousContext(name));
        }
        Ok((&self.clusters[first].1, reg))
    }

    /// The names of the regions that the configuration holds.
    pub fn list_regions(&self) -> (r: Vec<String>)
        ensures
            r@.map_values(|s: String| s@) == self.region_entries().map_values(
                |e: (String, Region)| e.0@,
            ),
    {
        let mut r: Vec<String> = Vec::new();
        let n = self.regions.len();
        let mut i: usize = 0;
        while i < n
            invariant
                n == self.regions@.len(),
                i <= n,
                r@.map_values(|s: String| s@) =~= self.regions@.subrange(0, i as int).map_values(
                    |e: (String, Region)| e.0@,
                ),
            decreases n - i,
        {
            r.push(self.regions[i].0.clone());
            proof {
                assert(self.regions@.subrange(0, i as int + 1) =~= self.regions@.subrange(
                    0,
                    i as int,
                ).push(self.regions@[i as int]));
                assert(self.regions@.subrange(0, i as int + 1).map_values(
                    |e: (String, Region)| e.0@,
                ) =~= self.regions@.subrange(0, i as int).map_values(
                    |e: (String, Region)| e.0@,
                ).push(self.regions@[i as int].0@));
            }
            i = i + 1;
        }
        proof {
            assert(self.regions@.subrange(0, n as int) =~= self.regions@);
        }
        r
    }

    /// Whether the secrets have been filled in.
    pub fn has_secrets(&self) -> (r: bool)
        ensures
            r == (self.kind() == ConfigType::Completed),
    {
        self.kind == ConfigType::Completed
    }

    /// Whether the configuration still holds every region.
    pub fn has_all_regions(&self) -> (r: bool)
        ensures
            r == (self.kind() == ConfigType::File),
    {
        self.kind == ConfigType::File
    }

    /// Keeps only `region`, the clusters that serve it and the aliases that point
    /// to it.
    pub fn remove_redundant_regions(&mut self, region: &str)
        requires
            old(self).kind() == ConfigType::File,
            has_key(old(self).region_entries(), region@),
        ensures
            final(self).kind() == ConfigType::Base,
            final(self).cluster_entries() == serving(old(self).cluster_entries(), region@),
            final(self).alias_entries() == pointing(old(self).alias_entries(), region@),
            final(self).region_entries().len() == 1,
            final(self).region_entries()[0].0@ == region@,
            lookup(old(self).region_entries(), region@) == Some(final(self).region_entries()[0].1),
            final(self).team_list() == old(self).team_list(),
            final(self).declared_version() == old(self).declared_version(),
            final(self).image_prefix() == old(self).image_prefix(),
            final(self).manifest_defaults() == old(self).manifest_defaults(),
            final(self).location_entries() == old(self).location_entries(),
    {
        let r = String::from_str(region);
        let mut clusters: Vec<(String, Cluster)> = Vec::new();
        std::mem::swap(&mut self.clusters, &mut clusters);
        self.clusters = keep_serving(clusters, &r);
        let mut aliases: Vec<(String, String)> = Vec::new();
        std::mem::swap(&mut self.context_aliases, &mut aliases);
        self.context_aliases = keep_pointing(aliases, &r);
        let mut regions: Vec<(String, Region)> = Vec::new();
        std::mem::swap(&mut self.regions, &mut regions);
        match find_entry(&regions, &r) {
            Some(i) => {
                let e = regions.remove(i);
                self.regions.push(e);
            },
            None => {},
        }
        self.kind = ConfigType::Base;
    }

    /// Fills the secrets of the one region left, from what the store gave for each
    /// of its `secret_paths`, in order. Where the store failed on any of them, nothing
    /// changes and the first failure comes back.
    pub fn complete(&mut self, region: &str, fetched: Vec<Result<String, ConfigError>>) -> (r:
        Result<(), ConfigError>)
        requires
            old(self).kind() == ConfigType::Base,
            old(self).region_entries().len() == 1,
            old(self).region_entries()[0].0@ == region@,
            fetched@.len() == old(self).region_entries()[0].1.kong.secret_count(),
        ensures
            match first_error(fetched@) {
                Some(e) => r == Err::<(), ConfigError>(e) && final(self).region_entries()
                    == old(self).region_entries() && final(self).kind() == ConfigType::Base,
                None => {
                    &&& r is Ok
                    &&& final(self).kind() == ConfigType::Completed
                    &&& final(self).region_entries().len() == 1
                    &&& final(self).region_entries()[0].0 == old(self).region_entries()[0].0
                    &&& region_filled(
                        old(self).region_entries()[0].1,
                        final(self).region_entries()[0].1,
                        fetched_values(fetched@),
                    )
                },
            },
            final(self).cluster_entries() == old(self).cluster_entries(),
            final(self).alias_entries() == old(self).alias_entries(),
            final(self).team_list() == old(self).team_list(),
            final(self).declared_version() == old(self).declared_version(),
            final(self).manifest_defaults() == old(self).manifest_defaults(),
            final(self).location_entries() == old(self).location_entries(),
    {
        let (key, mut reg) = self.regions.remove(0);
        let res = reg.secrets(fetched);
        self.regions.push((key, reg));
        proof {
            assert(self.regions@ =~= seq![(key, reg)]);
        }
        match res {
            Ok(()) => {
                self.kind = ConfigType::Completed;
                Ok(())
            },
            Err(e) => {
                proof {
                    assert(self.regions@ =~= old(self).regions@);
                }
                Err(e)
            },
        }
    }

    /// Narrows a configuration with every region down to the region that `context`
    /// names; also hands back that region's name.
    pub fn new(conf: Config, context: &str) -> (r: Result<(Config, String), ConfigError>)
        requires
            conf.kind() == ConfigType::File,
        ensures
            match conf.region_for(context@) {
                None => r matches Err(ConfigError::UnknownContext(c)) && c@ == context@,
                Some(reg) => r matches Ok((c, k)) && {
                    &&& conf.resolved(context@) == Some(k@)
                    &&& c.kind() == ConfigType::Base
                    &&& c.region_entries().len() == 1
                    &&& c.region_entries()[0].0@ == k@
                    &&& c.region_entries()[0].1 == reg
                    &&& c.cluster_entries() == serving(conf.cluster_entries(), k@)
                    &&& c.alias_entries() == pointing(conf.alias_entries(), k@)
                },
            },
    {
        let mut conf = conf;
        let region = match conf.resolve_context(context) {
            Some(r) => r,
            None => return Err(ConfigError::UnknownContext(String::from_str(context))),
        };
        if find_entry(&conf.regions, &region).is_none() {
            return Err(ConfigError::UnknownContext(String::from_str(context)));
        }
        conf.remove_redundant_regions(region.as_str());
        Ok((conf, region))
    }
}

/// A configuration that passes validation names every cluster and every region by
/// its key.
pub proof fn lemma_valid_names_match_keys(c: &Config, current: &Version)
    requires
        c.valid(current),
    ensures
        forall|i: int|
            0 <= i < c.cluster_entries().len() ==> #[trigger] c.cluster_entries()[i].0@
                == c.cluster_entries()[i].1.name@,
        forall|i: int|
            0 <= i < c.region_entries().len() ==> #[trigger] c.region_entries()[i].0@
                == c.region_entries()[i].1.name@,
{
    assert forall|i: int| 0 <= i < c.region_entries().len() implies #[trigger] c.region_entries()[i].0@
        == c.region_entries()[i].1.name@ by {
        assert(region_valid(c.region_entries()[i].0@, c.region_entries()[i].1));
    }
}

/// Resolution depends on the configuration and the context alone: two answers
/// for the same context agree.
pub proof fn lemma_resolution_deterministic(
    c: &Config,
    ctx: Seq<char>,
    a: Option<Seq<char>>,
    b: Option<Seq<char>>,
)
    requires
        a == c.resolved(ctx),
        b == c.resolved(ctx),
    ensures
        a == b,
{
}

/// In a configuration that passes validation, whatever a context resolves to is a
/// region that exists: an alias never leads nowhere.
pub proof fn lemma_resolved_region_exists(c: &Config, current: &Version, ctx: Seq<char>)
    requires
        c.valid(current),
        c.resolved(ctx) is Some,
    ensures
        has_key(c.region_entries(), c.resolved(ctx)->Some_0),
        c.region_for(ctx) is Some,
{
    if !has_key(c.region_entries(), ctx) {
        lemma_lookup_index(c.alias_entries(), ctx);
        let i = choose|i: int|
            0 <= i < c.alias_entries().len() && c.alias_entries()[i].0@ == ctx && lookup(
                c.alias_entries(),
                ctx,
            ) == Some(c.alias_entries()[i].1);
        assert(c.alias_valid(i));
    }
}

/// An alias that is itself the name of a region fails validation.
pub proof fn lemma_self_alias_invalid(c: &Config, current: &Version, i: int)
    requires
        0 <= i < c.alias_entries().len(),
        has_key(c.region_entries(), c.alias_entries()[i].0@),
    ensures
        !c.valid(current),
{
    assert(!c.alias_valid(i));
}

/// A configuration that asks for a newer tool than the running one fails
/// validation, whatever else it holds.
pub proof fn lemma_newer_version_invalid(c: &Config, current: &Version)
    requires
        semver_newer(c.declared_version(), current@),
    ensures
        !c.valid(current),
{
}

/// Every cluster kept by scoping serves the region, and every cluster that serves
/// it is kept.
pub proof fn lemma_serving_exact(cs: Seq<(String, Cluster)>, region: Seq<char>)
    ensures
        forall|i: int|
            0 <= i < serving(cs, region).len() ==> serves(#[trigger] serving(cs, region)[i].1, region),
        forall|i: int|
            0 <= i < cs.len() && serves(#[trigger] cs[i].1, region) ==> serving(cs, region).contains(
                cs[i],
            ),
    decreases cs.len(),
{
    if cs.len() > 0 {
        lemma_serving_exact(cs.drop_last(), region);
        let rest = cs.drop_last();
        assert forall|i: int|
            0 <= i < cs.len() && serves(#[trigger] cs[i].1, region) implies serving(cs, region).contains(
            cs[i],
        ) by {
            if i < cs.len() - 1 {
                assert(rest[i] == cs[i]);
                let j = choose|j: int| 0 <= j < serving(rest, region).len() && serving(rest, region)[j] == rest[i];
                if serves(cs.last().1, region) {
                    assert(serving(cs, region)[j] == cs[i]);
                }
            } else {
                assert(serving(cs, region)[serving(cs, region).len() - 1] == cs[i]);
            }
        }
    }
}

/// Every alias kept by scoping points to the region, and every alias that points
/// to it is kept.
pub proof fn lemma_pointing_exact(aliases: Seq<(String, String)>, region: Seq<char>)
    ensures
        forall|i: int|
            0 <= i < pointing(aliases, region).len() ==> (#[trigger] pointing(aliases, region)[i]).1@
                == region,
        forall|i: int|
            0 <= i < aliases.len() && (#[trigger] aliases[i]).1@ == region ==> pointing(
                aliases,
                region,
            ).contains(aliases[i]),
    decreases aliases.len(),
{
    if aliases.len() > 0 {
        lemma_pointing_exact(aliases.drop_last(), region);
        let rest = aliases.drop_last();
        assert forall|i: int|
            0 <= i < aliases.len() && (#[trigger] aliases[i]).1@ == region implies pointing(
            aliases,
            region,
        ).contains(aliases[i]) by {
            if i < aliases.len() - 1 {
                assert(rest[i] == aliases[i]);
                let j = choose|j: int| 0 <= j < pointing(rest, region).len() && pointing(rest, region)[j] == rest[i];
                if aliases.last().1@ == region {
                    assert(pointing(aliases, region)[j] == aliases[i]);
                }
            } else {
                assert(pointing(aliases, region)[pointing(aliases, region).len() - 1] == aliases[i]);
            }
        }
    }
}

proof fn lemma_lookup_index<V>(m: Seq<(String, V)>, k: Seq<char>)
    requires
        lookup(m, k) is Some,
    ensures
        exists|i: int| 0 <= i < m.len() && m[i].0@ == k && lookup(m, k) == Some(m[i].1),
    decreases m.len(),
{
    if m[0].0@ != k {
        lemma_lookup_index(m.drop_first(), k);
        let i = choose|i: int|
            0 <= i < m.drop_first().len() && m.drop_first()[i].0@ == k && lookup(m.drop_first(), k)
                == Some(m.drop_first()[i].1);
        assert(m[i + 1] == m.drop_first()[i]);
    }
}

/// A region that two clusters serve cannot be resolved from a context that names no
/// cluster: the context is ambiguous.
pub proof fn lemma_shared_region_ambiguous(c: &Config, ctx: Seq<char>, i: int, j: int)
    requires
        c.region_for(ctx) is Some,
        !has_key(c.cluster_entries(), ctx),
        0 <= i < j < c.cluster_entries().len(),
        serves(c.cluster_entries()[i].1, c.region_for(ctx)->Some_0.name@),
        serves(c.cluster_entries()[j].1, c.region_for(ctx)->Some_0.name@),
    ensures
        !c.cluster_resolvable(ctx),
{
    lemma_two_serving(c.cluster_entries(), c.region_for(ctx)->Some_0.name@, i, j);
}

proof fn lemma_two_serving(cs: Seq<(String, Cluster)>, region: Seq<char>, i: int, j: int)
    requires
        0 <= i < j < cs.len(),
        serves(cs[i].1, region),
        serves(cs[j].1, region),
    ensures
        serving(cs, region).len() >= 2,
    decreases cs.len(),
{
    let rest = cs.drop_last();
    if j == cs.len() - 1 {
        lemma_serving_exact(rest, region);
        assert(rest[i] == cs[i]);
        assert(serving(rest, region).contains(rest[i]));
    } else {
        assert(rest[i] == cs[i] && rest[j] == cs[j]);
        lemma_two_serving(rest, region, i, j);
    }
}

/// In a configuration that passes validation, narrowing to region `k` (as
/// `remove_redundant_regions` leaves it) keeps every context that led to `k`
/// leading to `k`, and every other context leads nowhere.
pub proof fn lemma_scoping_keeps_resolution(
    before: &Config,
    after: &Config,
    current: &Version,
    k: Seq<char>,
    ctx: Seq<char>,
)
    requires
        before.valid(current),
        has_key(before.region_entries(), k),
        after.region_entries().len() == 1,
        after.region_entries()[0].0@ == k,
        after.alias_entries() == pointing(before.alias_entries(), k),
    ensures
        after.resolved(ctx) == if before.resolved(ctx) == Some(k) {
            Some(k)
        } else {
            None
        },
{
    let olds = before.alias_entries();
    let news = after.alias_entries();
    assert(after.region_entries().drop_first().len() == 0);
    if ctx == k {
        assert(has_key(after.region_entries(), k));
    } else {
        let m = after.region_entries();
        assert(lookup(m.drop_first(), ctx) is None);
        assert(lookup(m, ctx) == lookup(m.drop_first(), ctx));
        lemma_pointing_exact(olds, k);
        lemma_pointing_within(olds, k);
        if lookup(news, ctx) is Some {
            lemma_lookup_index(news, ctx);
            let i = choose|i: int|
                0 <= i < news.len() && news[i].0@ == ctx && lookup(news, ctx) == Some(news[i].1);
            assert(news[i].1@ == k);
            let p = choose|p: int| 0 <= p < olds.len() && olds[p] == news[i];
            assert(before.alias_valid(p));
            lemma_unique_lookup(olds, ctx, p);
        } else if before.resolved(ctx) == Some(k) {
            if !has_key(before.region_entries(), ctx) {
                lemma_lookup_index(olds, ctx);
                let p = choose|p: int|
                    0 <= p < olds.len() && olds[p].0@ == ctx && lookup(olds, ctx) == Some(olds[p].1);
                assert(olds[p].1@ == k);
                assert(news.contains(olds[p]));
                let i = choose|i: int| 0 <= i < news.len() && news[i] == olds[p];
                lemma_lookup_found(news, ctx, i);
            }
        }
    }
}

/// Every alias kept by scoping was there before.
proof fn lemma_pointing_within(aliases: Seq<(String, String)>, region: Seq<char>)
    ensures
        forall|i: int|
            0 <= i < pointing(aliases, region).len() ==> aliases.contains(
                #[trigger] pointing(aliases, region)[i],
            ),
    decreases aliases.len(),
{
    if aliases.len() > 0 {
        let rest = aliases.drop_last();
        lemma_pointing_within(rest, region);
        assert forall|i: int|
            0 <= i < pointing(aliases, region).len() implies aliases.contains(
            #[trigger] pointing(aliases, region)[i],
        ) by {
            if i < pointing(rest, region).len() {
                assert(pointing(aliases, region)[i] == pointing(rest, region)[i]);
                let j = choose|j: int| 0 <= j < rest.len() && rest[j] == pointing(rest, region)[i];
                assert(aliases[j] == rest[j]);
            } else {
                assert(pointing(aliases, region)[i] == aliases[aliases.len() - 1]);
            }
        }
    }
}

/// With unique keys, the value stored under a key is the one at the key's place.
proof fn lemma_unique_lookup<V>(m: Seq<(String, V)>, k: Seq<char>, i: int)
    requires
        unique_keys(m),
        0 <= i < m.len(),
        m[i].0@ == k,
    ensures
        lookup(m, k) == Some(m[i].1),
    decreases i,
{
    if i > 0 {
        assert(m[0].0@ != m[i].0@);
        let rest = m.drop_first();
        assert(rest[i - 1] == m[i]);
        assert forall|a: int, b: int|
            #![trigger rest[a], rest[b]]
            0 <= a < b < rest.len() implies rest[a].0@ != rest[b].0@ by {
            assert(rest[a] == m[a + 1] && rest[b] == m[b + 1]);
        }
        lemma_unique_lookup(rest, k, i - 1);
    }
}

} // verus!
