//! Proxy selection: an ordered pool of upstream proxy endpoints, selection
//! of a uniformly random live endpoint per attempt, and permanent removal of
//! an endpoint proven dead.

use vstd::prelude::*;
use vstd::string::*;

use crate::config::Config;
use crate::utils::str_eq;

verus! {

/// Index of the first pool member equal to `x`, or -1 if there is none.
pub open spec fn first_pool_index(s: Seq<Seq<char>>, x: Seq<char>) -> int
    decreases s.len(),
{
    if s.len() == 0 {
        -1
    } else if s[0] == x {
        0
    } else {
        let r = first_pool_index(s.drop_first(), x);
        if r == -1 {
            -1
        } else {
            r + 1
        }
    }
}

/// The pool after removing the first occurrence of `x`, if any.
pub open spec fn remove_first(s: Seq<Seq<char>>, x: Seq<char>) -> Seq<Seq<char>> {
    let i = first_pool_index(s, x);
    if i == -1 {
        s
    } else {
        s.remove(i)
    }
}

/// How many pool members equal `x`.
pub open spec fn count_matches(s: Seq<Seq<char>>, x: Seq<char>) -> nat
    decreases s.len(),
{
    if s.len() == 0 {
        0
    } else {
        count_matches(s.drop_first(), x) + if s[0] == x {
            1nat
        } else {
            0nat
        }
    }
}

pub proof fn lemma_first_pool_index(s: Seq<Seq<char>>, x: Seq<char>)
    ensures
        first_pool_index(s, x) == -1 ==> forall|j: int| 0 <= j < s.len() ==> s[j] != x,
        first_pool_index(s, x) != -1 ==> {
            let i = first_pool_index(s, x);
            &&& 0 <= i < s.len()
            &&& s[i] == x
            &&& forall|j: int| 0 <= j < i ==> s[j] != x
        },
    decreases s.len(),
{
    if s.len() > 0 && s[0] != x {
        let t = s.drop_first();
        lemma_first_pool_index(t, x);
        if first_pool_index(t, x) == -1 {
            assert forall|j: int| 0 <= j < s.len() implies s[j] != x by {
                if j > 0 {
                    assert(t[j - 1] != x);
                }
            }
        } else {
            let i = first_pool_index(t, x);
            assert(s[i + 1] == t[i]);
            assert forall|j: int| 0 <= j < i + 1 implies s[j] != x by {
                if j > 0 {
                    assert(t[j - 1] != x);
                }
            }
        }
    }
}

pub proof fn lemma_first_pool_index_unique(s: Seq<Seq<char>>, x: Seq<char>, i: int)
    requires
        0 <= i < s.len(),
        s[i] == x,
        forall|j: int| 0 <= j < i ==> s[j] != x,
    ensures
        first_pool_index(s, x) == i,
    decreases s.len(),
{
    if i > 0 {
        let t = s.drop_first();
        assert(t[i - 1] == s[i]);
        assert forall|j: int| 0 <= j < i - 1 implies t[j] != x by {
            assert(t[j] == s[j + 1]);
        }
        lemma_first_pool_index_unique(t, x, i - 1);
    }
}

pub proof fn lemma_first_pool_index_none(s: Seq<Seq<char>>, x: Seq<char>)
    requires
        forall|j: int| 0 <= j < s.len() ==> s[j] != x,
    ensures
        first_pool_index(s, x) == -1,
    decreases s.len(),
{
    if s.len() > 0 {
        let t = s.drop_first();
        assert forall|j: int| 0 <= j < t.len() implies t[j] != x by {
            assert(t[j] == s[j + 1]);
        }
        lemma_first_pool_index_none(t, x);
    }
}

/// No member equals `x` exactly when the count of `x` is zero.
pub proof fn lemma_count_zero(s: Seq<Seq<char>>, x: Seq<char>)
    ensures
        count_matches(s, x) == 0 <==> forall|j: int| 0 <= j < s.len() ==> s[j] != x,
    decreases s.len(),
{
    if s.len() > 0 {
        let t = s.drop_first();
        lemma_count_zero(t, x);
        if count_matches(s, x) == 0 {
            assert forall|j: int| 0 <= j < s.len() implies s[j] != x by {
                if j > 0 {
                    assert(t[j - 1] != x);
                }
            }
        } else {
            if forall|j: int| 0 <= j < s.len() ==> s[j] != x {
                assert forall|j: int| 0 <= j < t.len() implies t[j] != x by {
                    assert(t[j] == s[j + 1]);
                }
            }
        }
    }
}

/// Removing the first occurrence of `x` lowers the count of `x` by one.
pub proof fn lemma_remove_first_count(s: Seq<Seq<char>>, x: Seq<char>)
    requires
        count_matches(s, x) > 0,
    ensures
        count_matches(remove_first(s, x), x) == count_matches(s, x) - 1,
    decreases s.len(),
{
    lemma_count_zero(s, x);
    lemma_first_pool_index(s, x);
    let i = first_pool_index(s, x);
    if i == 0 {
        assert(s.remove(0) =~= s.drop_first());
    } else {
        let t = s.drop_first();
        assert(t[i - 1] == s[i]);
        assert forall|j: int| 0 <= j < i - 1 implies t[j] != x by {
            assert(t[j] == s[j + 1]);
        }
        lemma_first_pool_index_unique(t, x, i - 1);
        assert(count_matches(t, x) == count_matches(s, x));
        lemma_remove_first_count(t, x);
        assert(s.remove(i).drop_first() =~= t.remove(i - 1));
        assert(s.remove(i)[0] == s[0]);
    }
}

/// A pool member after the removal of an endpoint that occurred at most
/// once can never be that endpoint: selection, whose result is always a
/// pool member, never returns a removed endpoint.
pub proof fn lemma_removed_not_selected(s: Seq<Seq<char>>, x: Seq<char>, y: Seq<char>)
    requires
        count_matches(s, x) <= 1,
        remove_first(s, x).contains(y),
    ensures
        y != x,
{
    if count_matches(s, x) == 0 {
        lemma_count_zero(s, x);
        lemma_first_pool_index_none(s, x);
        assert(remove_first(s, x) == s);
        if y == x {
            let j = choose|j: int| 0 <= j < s.len() && s[j] == y;
            assert(s[j] != x);
        }
    } else {
        lemma_remove_first_count(s, x);
        lemma_count_zero(remove_first(s, x), x);
        if y == x {
            let j = choose|j: int|
                0 <= j < remove_first(s, x).len() && remove_first(s, x)[j] == y;
            assert(remove_first(s, x)[j] != x);
        }
    }
}

/// An endpoint selector over an ordered pool of proxy endpoints. A selected
/// endpoint is always a current member of the pool, and removal drops
/// exactly the first matching member.
pub trait ProxyHandler: Send + Sync + Sized {
    /// The current pool, each endpoint as its character sequence.
    spec fn pool(&self) -> Seq<Seq<char>>;

    /// Select a live endpoint, or none if the pool is empty. Repeated calls
    /// may return the same endpoint; which member comes back is not
    /// specified (the provided implementation draws uniformly at random).
    fn get_proxy(&self) -> (r: Option<String>)
        ensures
            r is Some <==> self.pool().len() > 0,
            r matches Some(p) ==> self.pool().contains(p@),
    ;

    /// Permanently remove the first pool member equal to `proxy`.
    fn remove(&mut self, proxy: &str)
        ensures
            final(self).pool() == remove_first(old(self).pool(), proxy@),
    ;
}

/// The endpoint string for one upstream IP: scheme, session credentials,
/// then the shared proxy host and port.
pub open spec fn proxy_url_spec(
    user: Seq<char>,
    ip: Seq<char>,
    pass: Seq<char>,
    host: Seq<char>,
    port: Seq<char>,
) -> Seq<char> {
    "http://"@ + user + "-ip-"@ + ip + ":"@ + pass + "@"@ + host + ":"@ + port
}

/// A pool of upstream proxy endpoints selected uniformly at random.
#[derive(Clone)]
pub struct BrightDataRandomProxyHandler {
    proxies: Vec<String>,
}

/// Relies on `rand::Rng::gen_range` over `0..n`: returns a value of the
/// range, which is nonempty because `n > 0`.
#[verifier::external_body]
fn random_index(n: usize) -> (r: usize)
    requires
        n > 0,
    ensures
        r < n,
{
    rand::Rng::gen_range(&mut rand::thread_rng(), 0..n)
}

impl BrightDataRandomProxyHandler {
    /// Format one endpoint per raw IP from the shared credential
    /// configuration.
    pub fn new(ips: Vec<String>, config: &Config) -> (r: BrightDataRandomProxyHandler)
        ensures
            r.pool().len() == ips@.len(),
            forall|i: int|
                0 <= i < ips@.len() ==> r.pool()[i] == proxy_url_spec(
                    config.proxy_username@,
                    ips@[i]@,
                    config.proxy_password@,
                    config.proxy_host@,
                    config.proxy_port@,
                ),
    {
        let mut proxies: Vec<String> = Vec::new();
        let n = ips.len();
        let mut j: usize = 0;
        while j < n
            invariant
                0 <= j <= n,
                n == ips@.len(),
                proxies@.len() == j,
                forall|i: int|
                    0 <= i < j ==> (#[trigger] proxies@[i])@ == proxy_url_spec(
                        config.proxy_username@,
                        ips@[i]@,
                        config.proxy_password@,
                        config.proxy_host@,
                        config.proxy_port@,
                    ),
            decreases n - j,
        {
            let mut url = String::new();
            url.append("http://");
            url.append(config.proxy_username.as_str());
            url.append("-ip-");
            url.append(ips[j].as_str());
            url.append(":");
            url.append(config.proxy_password.as_str());
            url.append("@");
            url.append(config.proxy_host.as_str());
            url.append(":");
            url.append(config.proxy_port.as_str());
            proof {
                assert(url@ =~= proxy_url_spec(
                    config.proxy_username@,
                    ips@[j as int]@,
                    config.proxy_password@,
                    config.proxy_host@,
                    config.proxy_port@,
                ));
            }
            proxies.push(url);
            j = j + 1;
        }
        BrightDataRandomProxyHandler { proxies }
    }
}

impl ProxyHandler for BrightDataRandomProxyHandler {
    closed spec fn pool(&self) -> Seq<Seq<char>> {
        Seq::new(self.proxies@.len(), |i: int| self.proxies@[i]@)
    }

    fn get_proxy(&self) -> (r: Option<String>) {
        if self.proxies.len() == 0 {
            None
        } else {
            let i = random_index(self.proxies.len());
            let p = self.proxies[i].clone();
            proof {
                assert(self.pool()[i as int] == p@);
            }
            Some(p)
        }
    }

    fn remove(&mut self, proxy: &str) {
        let ghost s = self.pool();
        let n = self.proxies.len();
        let mut j: usize = 0;
        while j < n
            invariant
                0 <= j <= n,
                n == self.proxies@.len(),
                s == self.pool(),
                s == old(self).pool(),
                forall|t: int| 0 <= t < j ==> s[t] != proxy@,
            decreases n - j,
        {
            if str_eq(self.proxies[j].as_str(), proxy) {
                proof {
                    lemma_first_pool_index_unique(s, proxy@, j as int);
                }
                self.proxies.remove(j);
                proof {
                    assert(self.pool() =~~= s.remove(j as int));
                }
                return ;
            }
            j = j + 1;
        }
        proof {
            lemma_first_pool_index_none(s, proxy@);
        }
    }
}

} // verus!
