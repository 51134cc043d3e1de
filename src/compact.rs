//! The compact form of a configuration: one set of defaults per region.

use vstd::prelude::*;
use vstd::string::*;

use crate::config::{ends_with_slash, ManifestDefaults};
use crate::kong::KongConfig;

verus! {

/// What a compact configuration can get wrong.
#[derive(Debug)]
pub enum CompactError {
    /// The image prefix is empty or ends with a slash.
    BadImagePrefix,
    /// A region name that is not two parts joined by a single `-`.
    BadRegionName(String),
    /// A region whose default namespace is empty.
    EmptyNamespace(String),
    /// A region whose default floating tag is empty.
    EmptyVersion(String),
}

pub struct RegionDefaults {
    /// Kubernetes namespace.
    pub namespace: String,
    /// Docker image floating tag.
    pub version: String,
}

pub struct Region {
    pub defaults: RegionDefaults,
    /// Environment variables to inject.
    pub env: Vec<(String, String)>,
    pub kong: Option<KongConfig>,
}

pub struct Team {
    pub name: String,
}

pub struct Config {
    pub defaults: ManifestDefaults,
    /// Regions, by name.
    pub regions: Vec<(String, Region)>,
    pub teams: Vec<Team>,
}

/// How many times `c` occurs in `s`.
pub open spec fn occurrences(s: Seq<char>, c: char) -> nat
    decreases s.len(),
{
    if s.len() == 0 {
        0
    } else {
        occurrences(s.drop_last(), c) + if s.last() == c {
            1nat
        } else {
            0nat
        }
    }
}

/// A region name splits on `-` into exactly two parts.
pub open spec fn two_part_name(s: Seq<char>) -> bool {
    occurrences(s, '-') == 1
}

pub open spec fn region_ok(key: Seq<char>, r: Region) -> bool {
    &&& two_part_name(key)
    &&& r.defaults.namespace@.len() > 0
    &&& r.defaults.version@.len() > 0
}

fn has_two_parts(s: &String) -> (r: bool)
    ensures
        r == two_part_name(s@),
{
    let n = s.as_str().unicode_len();
    let mut count: usize = 0;
    let mut i: usize = 0;
    while i < n
        invariant
            n == s@.len(),
            i <= n,
            count == occurrences(s@.subrange(0, i as int), '-'),
            count <= i,
        decreases n - i,
    {
        proof {
            assert(s@.subrange(0, i as int + 1).drop_last() =~= s@.subrange(0, i as int));
        }
        if s.as_str().get_char(i) == '-' {
            count = count + 1;
        }
        i = i + 1;
    }
    proof {
        assert(s@.subrange(0, n as int) =~= s@);
    }
    count == 1
}

impl Config {
    /// What `verify` accepts: a non-empty image prefix without a trailing slash,
    /// and regions with two-part names and non-empty defaults.
    pub open spec fn valid(&self) -> bool {
        &&& self.defaults.image_prefix@.len() > 0
        &&& !ends_with_slash(self.defaults.image_prefix@)
        &&& forall|i: int|
            0 <= i < self.regions@.len() ==> region_ok(
                #[trigger] self.regions@[i].0@,
                self.regions@[i].1,
            )
    }

    /// Checks the configuration and stops at the first problem found.
    pub fn verify(&self) -> (r: Result<(), CompactError>)
        ensures
            r is Ok <==> self.valid(),
    {
        let p = &self.defaults.image_prefix;
        let plen = p.as_str().unicode_len();
        if plen == 0 || p.as_str().get_char(plen - 1) == '/' {
            return Err(CompactError::BadImagePrefix);
        }
        let n = self.regions.len();
        let mut i: usize = 0;
        while i < n
            invariant
                n == self.regions@.len(),
                i <= n,
                forall|k: int|
                    0 <= k < i ==> region_ok(#[trigger] self.regions@[k].0@, self.regions@[k].1),
            decreases n - i,
        {
            let key = &self.regions[i].0;
            let d = &self.regions[i].1.defaults;
            if !has_two_parts(key) {
                return Err(CompactError::BadRegionName(key.clone()));
            }
            if d.namespace.as_str().unicode_len() == 0 {
                return Err(CompactError::EmptyNamespace(key.clone()));
            }
            if d.version.as_str().unicode_len() == 0 {
                return Err(CompactError::EmptyVersion(key.clone()));
            }
            i = i + 1;
        }
        Ok(())
    }
}

} // verus!
