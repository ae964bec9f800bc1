use vstd::prelude::*;

verus! {

/// Why the proxy cannot start with a configuration.
#[derive(Debug, Clone, Copy, PartialEq, Eq, Structural)]
pub enum ConfigError {
    /// No upstream was configured.
    NoUpstreams,
}

/// The addresses of `configured` whose probe, at the same position of
/// `healthy`, succeeded, in configured order.
pub open spec fn healthy_subset(configured: Seq<String>, healthy: Seq<bool>) -> Seq<String>
    decreases configured.len(),
{
    if configured.len() == 0 || healthy.len() == 0 {
        Seq::empty()
    } else {
        let rest = healthy_subset(configured.drop_last(), healthy.drop_last());
        if healthy.last() {
            rest.push(configured.last())
        } else {
            rest
        }
    }
}

/// Every address of `part` is one of `whole`.
pub open spec fn addresses_within(part: Seq<String>, whole: Seq<String>) -> bool {
    forall|i: int| 0 <= i < part.len() ==> whole.contains(#[trigger] part[i])
}

/// After a sweep the active upstreams are exactly the configured ones whose
/// probe succeeded in that sweep, whatever was active before it, and none
/// of them lies outside the configured set.
pub proof fn lemma_sweep_converges(configured: Seq<String>, healthy: Seq<bool>)
    requires
        healthy.len() == configured.len(),
    ensures
        forall|a: String|
            healthy_subset(configured, healthy).contains(a) <==> exists|i: int|
                0 <= i < configured.len() && configured[i] == a && healthy[i],
        addresses_within(healthy_subset(configured, healthy), configured),
    decreases configured.len(),
{
    if configured.len() > 0 {
        let c0 = configured.drop_last();
        let h0 = healthy.drop_last();
        let n = configured.len() - 1;
        lemma_sweep_converges(c0, h0);
        let rest = healthy_subset(c0, h0);
        let full = healthy_subset(configured, healthy);
        assert(full == if healthy.last() {
            rest.push(configured.last())
        } else {
            rest
        });
        assert forall|a: String|
            full.contains(a) <==> exists|i: int|
                0 <= i < configured.len() && configured[i] == a && healthy[i] by {
            if full.contains(a) {
                let k = choose|k: int| 0 <= k < full.len() && full[k] == a;
                if k < rest.len() {
                    assert(rest[k] == a);
                    assert(rest.contains(a));
                    let i = choose|i: int| 0 <= i < c0.len() && c0[i] == a && h0[i];
                    assert(configured[i] == a && healthy[i]);
                } else {
                    assert(healthy[n] && configured[n] == a);
                }
            }
            if exists|i: int| 0 <= i < configured.len() && configured[i] == a && healthy[i] {
                let i = choose|i: int| 0 <= i < configured.len() && configured[i] == a && healthy[i];
                if i < n {
                    assert(c0[i] == a && h0[i]);
                    assert(rest.contains(a));
                    let k = choose|k: int| 0 <= k < rest.len() && rest[k] == a;
                    assert(full[k] == a);
                } else {
                    assert(full[rest.len() as int] == a);
                }
            }
        }
        assert forall|i: int| 0 <= i < full.len() implies configured.contains(#[trigger] full[i]) by {
            if i < rest.len() {
                assert(full[i] == rest[i]);
                assert(c0.contains(rest[i]));
                let j = choose|j: int| 0 <= j < c0.len() && c0[j] == rest[i];
                assert(configured[j] == rest[i]);
            } else {
                assert(full[i] == configured[n]);
            }
        }
    }
}

/// The configured upstreams, the probe settings, and the upstreams that the
/// latest health-check sweep found reachable.
pub struct ProxyState {
    active_health_check_interval: u64,
    active_health_check_path: String,
    upstream_addresses: Vec<String>,
    active_upstream_addresses: Vec<String>,
}

impl ProxyState {
    pub closed spec fn configured(&self) -> Seq<String> {
        self.upstream_addresses@
    }

    pub closed spec fn active(&self) -> Seq<String> {
        self.active_upstream_addresses@
    }

    pub closed spec fn interval(&self) -> u64 {
        self.active_health_check_interval
    }

    pub closed spec fn path(&self) -> Seq<char> {
        self.active_health_check_path@
    }

    /// At least one upstream is configured, and only configured upstreams are
    /// ever active.
    pub open spec fn wf(&self) -> bool {
        &&& self.configured().len() > 0
        &&& addresses_within(self.active(), self.configured())
    }

    /// A state for the configured upstreams, none of them active before the
    /// first sweep; refused when no upstream is configured.
    pub fn new(upstream_addresses: Vec<String>, interval: u64, path: String) -> (r: Result<
        ProxyState,
        ConfigError,
    >)
        ensures
            upstream_addresses@.len() == 0 <==> r == Err::<ProxyState, ConfigError>(
                ConfigError::NoUpstreams,
            ),
            r matches Ok(s) ==> {
                &&& s.wf()
                &&& s.configured() == upstream_addresses@
                &&& s.active() == Seq::<String>::empty()
                &&& s.interval() == interval
                &&& s.path() == path@
            },
    {
        if upstream_addresses.len() == 0 {
            return Err(ConfigError::NoUpstreams);
        }
        Ok(
            ProxyState {
                active_health_check_interval: interval,
                active_health_check_path: path,
                upstream_addresses,
                active_upstream_addresses: Vec::new(),
            },
        )
    }

    pub fn upstream_addresses(&self) -> (r: &Vec<String>)
        ensures
            r@ == self.configured(),
    {
        &self.upstream_addresses
    }

    pub fn health_check_interval(&self) -> (r: u64)
        ensures
            r == self.interval(),
    {
        self.active_health_check_interval
    }

    pub fn health_check_path(&self) -> (r: &String)
        ensures
            r@ == self.path(),
    {
        &self.active_health_check_path
    }

    /// A copy of the upstreams currently believed reachable, in configured order.
    pub fn snapshot(&self) -> (r: Vec<String>)
        ensures
            r@ == self.active(),
    {
        let mut r: Vec<String> = Vec::new();
        let mut i: usize = 0;
        while i < self.active_upstream_addresses.len()
            invariant
                i <= self.active().len(),
                r@ =~= self.active().take(i as int),
            decreases self.active().len() - i,
        {
            let a = self.active_upstream_addresses[i].clone();
            r.push(a);
            proof {
                assert(self.active().take(i + 1) =~= self.active().take(i as int).push(
                    self.active()[i as int],
                ));
            }
            i = i + 1;
        }
        assert(self.active().take(i as int) =~= self.active());
        r
    }

    /// Replaces the active upstreams, all at once, by those whose probe in this
    /// sweep succeeded; `healthy[i]` is the outcome for the `i`-th configured one.
    pub fn apply_health_checks(&mut self, healthy: &Vec<bool>)
        requires
            old(self).wf(),
            healthy@.len() == old(self).configured().len(),
        ensures
            final(self).wf(),
            final(self).active() == healthy_subset(old(self).configured(), healthy@),
            final(self).configured() == old(self).configured(),
            final(self).interval() == old(self).interval(),
            final(self).path() == old(self).path(),
    {
        let mut fresh: Vec<String> = Vec::new();
        let mut i: usize = 0;
        while i < self.upstream_addresses.len()
            invariant
                i <= self.configured().len(),
                healthy@.len() == self.configured().len(),
                fresh@ == healthy_subset(self.configured().take(i as int), healthy@.take(i as int)),
                addresses_within(fresh@, self.configured()),
            decreases self.configured().len() - i,
        {
            proof {
                let c = self.configured();
                assert(c.take(i + 1).drop_last() =~= c.take(i as int));
                assert(healthy@.take(i + 1).drop_last() =~= healthy@.take(i as int));
            }
            if healthy[i] {
                let a = self.upstream_addresses[i].clone();
                fresh.push(a);
                proof {
                    assert(self.configured().contains(self.configured()[i as int]));
                }
            }
            i = i + 1;
        }
        proof {
            assert(self.configured().take(i as int) =~= self.configured());
            assert(healthy@.take(i as int) =~= healthy@);
        }
        self.active_upstream_addresses = fresh;
    }
}

} // verus!
