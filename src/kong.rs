use vstd::prelude::*;

use crate::error::ConfigError;

verus! {

/// Whether `s` is among the names.
pub open spec fn names_contain(names: Seq<String>, s: Seq<char>) -> bool {
    exists|j: int| 0 <= j < names.len() && #[trigger] names[j]@ == s
}

pub fn contains_name(names: &Vec<String>, s: &String) -> (r: bool)
    ensures
        r == names_contain(names@, s@),
{
    let mut j: usize = 0;
    while j < names.len()
        invariant
            j <= names@.len(),
            forall|k: int| 0 <= k < j ==> names@[k]@ != s@,
        decreases names@.len() - j,
    {
        if names[j] == *s {
            return true;
        }
        j = j + 1;
    }
    false
}

/// The first failure among what the store gave, if any.
pub open spec fn first_error(f: Seq<Result<String, ConfigError>>) -> Option<ConfigError>
    decreases f.len(),
{
    if f.len() == 0 {
        None
    } else if f[0] is Err {
        Some(f[0]->Err_0)
    } else {
        first_error(f.drop_first())
    }
}

/// The values that the store gave.
pub open spec fn fetched_values(f: Seq<Result<String, ConfigError>>) -> Seq<Seq<char>> {
    f.map_values(
        |x: Result<String, ConfigError>|
            match x {
                Ok(s) => s@,
                Err(_) => Seq::empty(),
            },
    )
}

/// The values, where the store gave each of them; else the first failure.
fn collect_values(fetched: Vec<Result<String, ConfigError>>) -> (r: Result<Vec<String>, ConfigError>)
    ensures
        match first_error(fetched@) {
            Some(e) => r == Err::<Vec<String>, ConfigError>(e),
            None => r matches Ok(v) && v@.map_values(|s: String| s@) == fetched_values(fetched@),
        },
{
    let ghost all = fetched@;
    let mut rest = fetched;
    let ghost n = all.len() as int;
    let mut values: Vec<String> = Vec::new();
    while rest.len() > 0
        invariant
            n == all.len(),
            all == fetched@,
            0 <= n - rest@.len(),
            rest@ == all.subrange(n - rest@.len(), n),
            first_error(all) == first_error(rest@),
            values@.len() == n - rest@.len(),
            forall|k: int| 0 <= k < values@.len() ==> all[k] == Ok::<String, ConfigError>(#[trigger] values@[k]),
        decreases rest@.len(),
    {
        let ghost k = n - rest@.len();
        proof {
            assert(rest@.drop_first() =~= all.subrange(k + 1, n));
        }
        let ghost before = rest@;
        let x = rest.remove(0);
        proof {
            assert(before[0] == x);
            assert(rest@ =~= before.drop_first());
        }
        match x {
            Ok(v) => values.push(v),
            Err(e) => {
                proof {
                    assert(first_error(before) == Some(e));
                }
                return Err(e);
            },
        }
    }
    proof {
        assert(values@.map_values(|s: String| s@) =~= fetched_values(all));
    }
    Ok(values)
}

/// The placeholder that marks a credential to be read from the secret store.
pub open spec fn is_pending(s: Seq<char>) -> bool {
    s == "IN_VAULT"@
}

/// Settings of the gateway for one region.
pub struct KongConfig {
    /// Base url (e.g. `uk.dev.example.com`).
    pub base_url: String,
    /// Url of the administration api.
    pub config_url: String,
    /// Lifetime of a token, in seconds.
    pub kong_token_expiration: u32,
    pub oauth_provision_key: String,
    /// TCP logging options.
    pub tcp_log: KongTcpLogConfig,
    pub anonymous_consumers: Option<KongAnonymousConsumers>,
    /// Credentials, by consumer name.
    pub consumers: Vec<(String, KongOauthConsumer)>,
    pub internal_ips_whitelist: Vec<String>,
}

pub struct KongAnonymousConsumers {
    pub anonymous: Vec<(String, String)>,
}

pub struct KongOauthConsumer {
    pub oauth_client_id: String,
    pub oauth_client_secret: String,
    pub username: String,
}

pub struct KongTcpLogConfig {
    pub enabled: bool,
    pub host: String,
    pub port: String,
}

/// How many of the consumer's two credentials are placeholders.
pub open spec fn consumer_pending(c: KongOauthConsumer) -> nat {
    (if is_pending(c.oauth_client_id@) { 1nat } else { 0nat }) + (if is_pending(
        c.oauth_client_secret@,
    ) {
        1nat
    } else {
        0nat
    })
}

/// How many placeholders the first `n` consumers hold.
pub open spec fn pending_before(cs: Seq<(String, KongOauthConsumer)>, n: int) -> nat
    decreases n,
{
    if n <= 0 {
        0
    } else {
        pending_before(cs, n - 1) + consumer_pending(cs[n - 1].1)
    }
}

/// The names under the consumers folder of the store that the consumer's placeholders
/// stand for.
pub open spec fn consumer_secret_names(name: Seq<char>, c: KongOauthConsumer) -> Seq<Seq<char>> {
    (if is_pending(c.oauth_client_id@) {
        seq![name + "_oauth_client_id"@]
    } else {
        Seq::empty()
    }) + (if is_pending(c.oauth_client_secret@) {
        seq![name + "_oauth_client_secret"@]
    } else {
        Seq::empty()
    })
}

/// The secret names of the first `n` consumers, in order.
pub open spec fn secret_names_before(cs: Seq<(String, KongOauthConsumer)>, n: int) -> Seq<
    Seq<char>,
>
    decreases n,
{
    if n <= 0 {
        Seq::empty()
    } else {
        secret_names_before(cs, n - 1) + consumer_secret_names(cs[n - 1].0@, cs[n - 1].1)
    }
}

/// The folder of the store that holds the consumers' credentials of a region.
pub open spec fn consumers_folder(region: Seq<char>) -> Seq<char> {
    region + "/kong/consumers"@
}

/// Where the store keeps the provision key of a region.
pub open spec fn provision_key_path(region: Seq<char>) -> Seq<char> {
    region + "/kong/oauth_provision_key"@
}

/// The path in the store of a consumer secret of a region.
pub open spec fn consumer_secret_path(region: Seq<char>, secret: Seq<char>) -> Seq<char> {
    consumers_folder(region) + "/"@ + secret
}

pub proof fn lemma_pending_before_monotone(cs: Seq<(String, KongOauthConsumer)>, i: int, j: int)
    requires
        i <= j,
    ensures
        pending_before(cs, i) <= pending_before(cs, j),
    decreases j - i,
{
    if i < j {
        lemma_pending_before_monotone(cs, i, j - 1);
    }
}

pub proof fn lemma_secret_names_len(cs: Seq<(String, KongOauthConsumer)>, n: int)
    ensures
        secret_names_before(cs, n).len() == pending_before(cs, n),
    decreases n,
{
    if n > 0 {
        lemma_secret_names_len(cs, n - 1);
    }
}

impl KongConfig {
    /// The secret names that the consumers' placeholders stand for, in order.
    pub open spec fn secret_names(&self) -> Seq<Seq<char>> {
        secret_names_before(self.consumers@, self.consumers@.len() as int)
    }

    /// How many placeholders the settings hold.
    pub open spec fn secret_count(&self) -> nat {
        pending_before(self.consumers@, self.consumers@.len() as int) + if is_pending(
            self.oauth_provision_key@,
        ) {
            1nat
        } else {
            0nat
        }
    }

    pub proof fn lemma_secret_count(&self, region: Seq<char>)
        ensures
            self.secret_paths(region).len() == self.secret_count(),
            self.secret_names().len() == pending_before(
                self.consumers@,
                self.consumers@.len() as int,
            ),
    {
        lemma_secret_names_len(self.consumers@, self.consumers@.len() as int);
    }

    /// The store paths to read, in order: the consumers' credentials, then the
    /// provision key, each only where it is a placeholder.
    pub open spec fn secret_paths(&self, region: Seq<char>) -> Seq<Seq<char>> {
        self.secret_names().map_values(|s: Seq<char>| consumer_secret_path(region, s)) + (
        if is_pending(self.oauth_provision_key@) {
            seq![provision_key_path(region)]
        } else {
            Seq::empty()
        })
    }

    /// The placeholders that filling gives, and in which order they take their values.
    pub open spec fn filled_by(&self, new: &KongConfig, values: Seq<Seq<char>>) -> bool {
        let cs = self.consumers@;
        let n = cs.len() as int;
        &&& new.consumers@.len() == cs.len()
        &&& forall|i: int|
            #![trigger new.consumers@[i]]
            0 <= i < n ==> {
                let c = cs[i].1;
                let d = new.consumers@[i].1;
                let at = pending_before(cs, i) as int;
                &&& new.consumers@[i].0@ == cs[i].0@
                &&& d.username@ == c.username@
                &&& d.oauth_client_id@ == if is_pending(c.oauth_client_id@) {
                    values[at]
                } else {
                    c.oauth_client_id@
                }
                &&& d.oauth_client_secret@ == if is_pending(c.oauth_client_secret@) {
                    values[at + if is_pending(c.oauth_client_id@) {
                        1int
                    } else {
                        0int
                    }]
                } else {
                    c.oauth_client_secret@
                }
            }
        &&& new.oauth_provision_key@ == if is_pending(self.oauth_provision_key@) {
            values[pending_before(cs, n) as int]
        } else {
            self.oauth_provision_key@
        }
        &&& new.base_url == self.base_url
        &&& new.config_url == self.config_url
        &&& new.kong_token_expiration == self.kong_token_expiration
        &&& new.tcp_log == self.tcp_log
        &&& new.anonymous_consumers == self.anonymous_consumers
        &&& new.internal_ips_whitelist == self.internal_ips_whitelist
    }

    /// The checks on the gateway settings; there are none yet.
    pub fn verify(&self) -> (r: Result<(), ConfigError>)
        ensures
            r is Ok,
    {
        Ok(())
    }

    /// The secret names, under the consumers folder, that the placeholders stand for.
    pub fn expected_secrets(&self) -> (r: Vec<String>)
        ensures
            r@.map_values(|s: String| s@) == self.secret_names(),
    {
        let mut r: Vec<String> = Vec::new();
        let n = self.consumers.len();
        let mut i: usize = 0;
        while i < n
            invariant
                n == self.consumers@.len(),
                i <= n,
                r@.map_values(|s: String| s@) == secret_names_before(self.consumers@, i as int),
            decreases n - i,
        {
            let name = &self.consumers[i].0;
            let c = &self.consumers[i].1;
            let sentinel = String::from_str("IN_VAULT");
            let ghost before = r@.map_values(|s: String| s@);
            if c.oauth_client_id == sentinel {
                r.push(name.clone().concat("_oauth_client_id"));
            }
            let ghost mid = r@.map_values(|s: String| s@);
            if c.oauth_client_secret == sentinel {
                r.push(name.clone().concat("_oauth_client_secret"));
            }
            proof {
                let cs = self.consumers@;
                assert(mid =~= before + if is_pending(c.oauth_client_id@) {
                    seq![name@ + "_oauth_client_id"@]
                } else {
                    Seq::<Seq<char>>::empty()
                });
                assert(r@.map_values(|s: String| s@) =~= before + consumer_secret_names(
                    cs[i as int].0@,
                    cs[i as int].1,
                ));
            }
            i = i + 1;
        }
        r
    }

    /// The store paths to read for the placeholders of `region`'s settings.
    pub fn secret_paths_of(&self, region: &str) -> (r: Vec<String>)
        ensures
            r@.map_values(|s: String| s@) == self.secret_paths(region@),
    {
        let names = self.expected_secrets();
        let mut r: Vec<String> = Vec::new();
        let mut i: usize = 0;
        while i < names.len()
            invariant
                i <= names@.len(),
                names@.map_values(|s: String| s@) == self.secret_names(),
                r@.map_values(|s: String| s@) =~= self.secret_names().subrange(
                    0,
                    i as int,
                ).map_values(|s: Seq<char>| consumer_secret_path(region@, s)),
            decreases names@.len() - i,
        {
            let p = String::from_str(region).concat("/kong/consumers").concat("/").concat(
                names[i].as_str(),
            );
            proof {
                assert(names@.map_values(|s: String| s@)[i as int] == names@[i as int]@);
            }
            r.push(p);
            proof {
                let sn = self.secret_names();
                let k = i as int;
                assert(sn[k] == names@[k]@);
                assert(sn.subrange(0, k + 1) =~= sn.subrange(0, k).push(sn[k]));
                assert(sn.subrange(0, k + 1).map_values(
                    |s: Seq<char>| consumer_secret_path(region@, s),
                ) =~= sn.subrange(0, k).map_values(
                    |s: Seq<char>| consumer_secret_path(region@, s),
                ).push(consumer_secret_path(region@, sn[k])));
            }
            i = i + 1;
        }
        proof {
            assert(self.secret_names().subrange(0, i as int) =~= self.secret_names());
        }
        let sentinel = String::from_str("IN_VAULT");
        if self.oauth_provision_key == sentinel {
            r.push(String::from_str(region).concat("/kong/oauth_provision_key"));
        }
        assert(r@.map_values(|s: String| s@) =~= self.secret_paths(region@));
        r
    }

    /// Puts the values in place of the placeholders, in the order of `secret_paths`.
    pub fn fill_secrets(&mut self, values: &Vec<String>)
        requires
            values@.len() == old(self).secret_count(),
        ensures
            old(self).filled_by(&*final(self), values@.map_values(|s: String| s@)),
    {
        let ghost vs = values@.map_values(|s: String| s@);
        let ghost cs = self.consumers@;
        let n = self.consumers.len();
        proof {
            lemma_secret_names_len(cs, n as int);
        }
        let sentinel = String::from_str("IN_VAULT");
        let vlen = values.len();
        let mut pos: usize = 0;
        let mut i: usize = 0;
        while i < n
            invariant
                n == cs.len(),
                i <= n,
                vlen == values@.len(),
                pos == pending_before(cs, i as int),
                values@.len() == pending_before(cs, n as int) + if is_pending(
                    old(self).oauth_provision_key@,
                ) {
                    1int
                } else {
                    0int
                },
                sentinel@ == "IN_VAULT"@,
                vs == values@.map_values(|s: String| s@),
                self.consumers@.len() == n,
                self.oauth_provision_key == old(self).oauth_provision_key,
                self.base_url == old(self).base_url,
                self.config_url == old(self).config_url,
                self.kong_token_expiration == old(self).kong_token_expiration,
                self.tcp_log == old(self).tcp_log,
                self.anonymous_consumers == old(self).anonymous_consumers,
                self.internal_ips_whitelist == old(self).internal_ips_whitelist,
                cs == old(self).consumers@,
                forall|j: int| i <= j < n ==> self.consumers@[j] == cs[j],
                forall|j: int|
                    #![trigger self.consumers@[j]]
                    0 <= j < i ==> {
                        let c = cs[j].1;
                        let d = self.consumers@[j].1;
                        let at = pending_before(cs, j) as int;
                        &&& self.consumers@[j].0@ == cs[j].0@
                        &&& d.username@ == c.username@
                        &&& d.oauth_client_id@ == if is_pending(c.oauth_client_id@) {
                            vs[at]
                        } else {
                            c.oauth_client_id@
                        }
                        &&& d.oauth_client_secret@ == if is_pending(c.oauth_client_secret@) {
                            vs[at + if is_pending(c.oauth_client_id@) {
                                1int
                            } else {
                                0int
                            }]
                        } else {
                            c.oauth_client_secret@
                        }
                    },
            decreases n - i,
        {
            proof {
                lemma_pending_before_monotone(cs, i as int + 1, n as int);
                assert(pending_before(cs, i as int + 1) == pending_before(cs, i as int)
                    + consumer_pending(cs[i as int].1));
            }
            let name = self.consumers[i].0.clone();
            let c = &self.consumers[i].1;
            let id = if c.oauth_client_id == sentinel {
                let v = values[pos].clone();
                pos = pos + 1;
                v
            } else {
                c.oauth_client_id.clone()
            };
            let secret = if c.oauth_client_secret == sentinel {
                let v = values[pos].clone();
                pos = pos + 1;
                v
            } else {
                c.oauth_client_secret.clone()
            };
            let username = c.username.clone();
            self.consumers.set(
                i,
                (name, KongOauthConsumer { oauth_client_id: id, oauth_client_secret: secret, username }),
            );
            i = i + 1;
        }
        if self.oauth_provision_key == sentinel {
            self.oauth_provision_key = values[pos].clone();
        }
    }

    /// Fills the placeholders from what the store gave for each path of
    /// `secret_paths`, in order, or leaves them all as they are and hands back the
    /// first failure.
    pub fn secrets(&mut self, fetched: Vec<Result<String, ConfigError>>) -> (r: Result<
        (),
        ConfigError,
    >)
        requires
            fetched@.len() == old(self).secret_count(),
        ensures
            match first_error(fetched@) {
                Some(e) => r == Err::<(), ConfigError>(e) && *final(self) == *old(self),
                None => r is Ok && old(self).filled_by(&*final(self), fetched_values(fetched@)),
            },
    {
        let values = collect_values(fetched);
        match values {
            Err(e) => Err(e),
            Ok(vs) => {
                proof {
                    assert(vs@.map_values(|s: String| s@).len() == vs@.len());
                    assert(fetched_values(fetched@).len() == fetched@.len());
                }
                self.fill_secrets(&vs);
                Ok(())
            },
        }
    }

    /// Checks that the store's listing of the consumers folder holds every secret
    /// name that a placeholder stands for.
    pub fn verify_secrets_exist(&self, found: &Vec<String>) -> (r: Result<(), ConfigError>)
        ensures
            r is Ok <==> forall|k: int|
                0 <= k < self.secret_names().len() ==> #[trigger] names_contain(
                    found@,
                    self.secret_names()[k],
                ),
            r matches Err(e) ==> e matches ConfigError::MissingSecret(m) && self.secret_names().contains(m@)
                && !names_contain(found@, m@),
    {
        let expected = self.expected_secrets();
        let mut i: usize = 0;
        while i < expected.len()
            invariant
                i <= expected@.len(),
                expected@.map_values(|s: String| s@) == self.secret_names(),
                forall|k: int| 0 <= k < i ==> #[trigger] names_contain(found@, self.secret_names()[k]),
            decreases expected@.len() - i,
        {
            proof {
                assert(expected@.map_values(|s: String| s@)[i as int] == expected@[i as int]@);
            }
            if !contains_name(found, &expected[i]) {
                return Err(ConfigError::MissingSecret(expected[i].clone()));
            }
            i = i + 1;
        }
        Ok(())
    }
}

} // verus!
