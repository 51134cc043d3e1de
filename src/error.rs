use vstd::prelude::*;

verus! {

/// Everything that can go wrong while checking or resolving a configuration.
///
/// Each variant carries the names that locate the problem.
#[derive(Debug)]
pub enum ConfigError {
    /// The image prefix of the defaults ends with a slash.
    ImagePrefixTrailingSlash,
    /// A cluster whose `name` differs from its key.
    ClusterNameMismatch(String),
    /// A cluster (first) that serves a region (second) that is not defined.
    UndefinedClusterRegion(String, String),
    /// An alias (first) that points to a region (second) that is not defined.
    AliasToUndefinedRegion(String, String),
    /// An alias that is itself the name of a region.
    SelfAlias(String),
    /// A region whose `name` differs from its key.
    RegionNameMismatch(String),
    /// A region without a namespace.
    MissingNamespace(String),
    /// A region without an environment.
    MissingEnvironment(String),
    /// A region without a vault url.
    MissingVaultUrl(String),
    /// A region with a base url that ends with a slash.
    BaseUrlTrailingSlash(String),
    /// A team with an owner that has no github id.
    OwnerWithoutGithub(String),
    /// The configuration declares a version (first) newer than the running tool's
    /// (second): the tool must be upgraded.
    OutdatedTool(String, String),
    /// A key that stands twice in one of the configuration's mappings.
    DuplicateKey(String),
    /// A context that names neither a region nor an alias.
    UnknownContext(String),
    /// A context whose region is not served by exactly one cluster.
    AmbiguousContext(String),
    /// A tag that is neither a git sha nor a semver version.
    IllegalTag(String),
    /// A tag that is not a semver version, where one is required.
    NotSemver(String),
    /// A secret that the store does not hold.
    MissingSecret(String),
    /// The secret store failed for another reason.
    SecretBackend(String),
}

} // verus!
