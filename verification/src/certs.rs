//! The certificate store: a map from domain to TLS material lifecycle
//! state, read concurrently by the proxy and refreshed by a background
//! renewal loop.

use vstd::prelude::*;

use crate::bytes::bytes_eq_slice;

verus! {

/// Seconds in the renewal window: certificates are renewed when fewer than
/// fifteen days remain.
pub const RENEWAL_WINDOW_SECONDS: i64 = 1296000;

/// The lifecycle state of one domain's TLS material. Only paths and the
/// expiry are kept in memory; PEMs are read from disk on demand.
#[derive(Clone, Debug, PartialEq)]
pub enum TlsState {
    /// Acquisition has been ordered and has not finished.
    Pending,
    /// Certificate, key and chain are on disk at the given paths.
    Ready { cert_path: Vec<u8>, key_path: Vec<u8>, not_after: i64 },
    /// The last acquisition failed; a retry follows after a backoff.
    Failed,
}

/// The mathematical shape of a TLS state.
pub enum TlsStateSpec {
    Pending,
    Ready { cert_path: Seq<u8>, key_path: Seq<u8>, not_after: i64 },
    Failed,
}

impl View for TlsState {
    type V = TlsStateSpec;

    open spec fn view(&self) -> TlsStateSpec {
        match self {
            TlsState::Pending => TlsStateSpec::Pending,
            TlsState::Ready { cert_path, key_path, not_after } => TlsStateSpec::Ready {
                cert_path: cert_path@,
                key_path: key_path@,
                not_after: *not_after,
            },
            TlsState::Failed => TlsStateSpec::Failed,
        }
    }
}

/// One domain with its TLS state.
#[derive(Clone, Debug)]
pub struct CertEntry {
    pub domain: Vec<u8>,
    pub state: TlsState,
}

impl View for CertEntry {
    type V = (Seq<u8>, TlsStateSpec);

    open spec fn view(&self) -> (Seq<u8>, TlsStateSpec) {
        (self.domain@, self.state@)
    }
}

/// Fewer than fifteen days remain before `not_after`.
pub open spec fn expiring_soon_spec(not_after: i64, now: i64) -> bool {
    not_after - now < RENEWAL_WINDOW_SECONDS
}

/// Whether a certificate expiring at `not_after` (seconds) is inside the
/// renewal window at time `now` (seconds).
pub fn is_expiring_soon(not_after: i64, now: i64) -> (r: bool)
    ensures
        r <==> expiring_soon_spec(not_after, now),
{
    (not_after as i128) - (now as i128) < (RENEWAL_WINDOW_SECONDS as i128)
}

/// Thread-safe (behind the world-model lock) map of domain to TLS state.
#[derive(Clone, Debug)]
pub struct CertificateStore {
    pub entries: Vec<CertEntry>,
}

impl CertificateStore {
    /// The store as a sequence of (domain, state) pairs.
    pub open spec fn entries_view(&self) -> Seq<(Seq<u8>, TlsStateSpec)> {
        self.entries@.map_values(|e: CertEntry| e@)
    }

    /// Each domain appears at most once.
    pub open spec fn wf(&self) -> bool {
        forall|i: int, j: int|
            0 <= i < j < self.entries_view().len() ==> self.entries_view()[i].0
                != self.entries_view()[j].0
    }

    /// The domain is present in the store.
    pub open spec fn has_domain_spec(&self, domain: Seq<u8>) -> bool {
        exists|i: int|
            0 <= i < self.entries_view().len() && self.entries_view()[i].0 == domain
    }

    pub fn new() -> (r: CertificateStore)
        ensures
            r.entries_view() =~= Seq::<(Seq<u8>, TlsStateSpec)>::empty(),
            r.wf(),
    {
        CertificateStore { entries: Vec::new() }
    }

    /// Whether the store already tracks `domain`.
    pub fn has_domain(&self, domain: &[u8]) -> (r: bool)
        ensures
            r <==> self.has_domain_spec(domain@),
    {
        let mut i: usize = 0;
        while i < self.entries.len()
            invariant
                i <= self.entries@.len(),
                forall|j: int| 0 <= j < i ==> self.entries_view()[j].0 != domain@,
        decreases self.entries.len() - i,
        {
            if bytes_eq_slice(self.entries[i].domain.as_slice(), domain) {
                assert(self.entries_view()[i as int].0 == domain@);
                return true;
            }
            i += 1;
        }
        false
    }

    /// Idempotently inserts `domain` as pending: a domain already tracked
    /// leaves the store unchanged; a new one is appended as pending, to be
    /// picked up by the acquisition loop.
    pub fn insert_domain(&mut self, domain: Vec<u8>)
        requires
            old(self).wf(),
        ensures
            final(self).wf(),
            old(self).has_domain_spec(domain@) ==> final(self).entries_view() == old(
                self,
            ).entries_view(),
            !old(self).has_domain_spec(domain@) ==> final(self).entries_view() =~= old(
                self,
            ).entries_view().push((domain@, TlsStateSpec::Pending)),
            final(self).has_domain_spec(domain@),
    {
        if self.has_domain(domain.as_slice()) {
            return;
        }
        let ghost prev = self.entries_view();
        self.entries.push(CertEntry { domain, state: TlsState::Pending });
        proof {
            assert(self.entries_view() =~= prev.push(self.entries_view().last()));
            assert(self.entries_view()[self.entries_view().len() - 1].0 == domain@);
        }
    }

    /// The state stored for `domain`, if any.
    pub fn get_state(&self, domain: &[u8]) -> (r: Option<&TlsState>)
        requires
            self.wf(),
        ensures
            match r {
                Some(s) => exists|i: int|
                    0 <= i < self.entries_view().len() && self.entries_view()[i] == (
                        domain@,
                        s@,
                    ),
                None => !self.has_domain_spec(domain@),
            },
    {
        let mut i: usize = 0;
        while i < self.entries.len()
            invariant
                i <= self.entries@.len(),
                forall|j: int| 0 <= j < i ==> self.entries_view()[j].0 != domain@,
        decreases self.entries.len() - i,
        {
            if bytes_eq_slice(self.entries[i].domain.as_slice(), domain) {
                assert(self.entries_view()[i as int] == (domain@, self.entries@[i as int].state@));
                return Some(&self.entries[i].state);
            }
            i += 1;
        }
        None
    }

    /// The certificate to serve for a TLS connection with this server
    /// name: the ready entry for the domain, if one exists; the caller
    /// falls back to the default wildcard certificate otherwise.
    pub fn get_for_sni(&self, server_name: &[u8]) -> (r: Option<&TlsState>)
        requires
            self.wf(),
        ensures
            match r {
                Some(s) => s@ is Ready && exists|i: int|
                    0 <= i < self.entries_view().len() && self.entries_view()[i] == (
                        server_name@,
                        s@,
                    ),
                None => forall|i: int|
                    0 <= i < self.entries_view().len() && self.entries_view()[i].0
                        == server_name@ ==> !(self.entries_view()[i].1 is Ready),
            },
    {
        match self.get_state(server_name) {
            Some(s) => match s {
                TlsState::Ready { .. } => {
                    proof {
                        assert forall|i: int|
                            0 <= i < self.entries_view().len() && self.entries_view()[i].0
                                == server_name@ implies self.entries_view()[i].1 == s@ by {
                            let witness = choose|k: int|
                                0 <= k < self.entries_view().len() && self.entries_view()[k] == (
                                    server_name@,
                                    s@,
                                );
                            if i != witness {
                                assert(self.entries_view()[i].0 != self.entries_view()[
                                    witness].0);
                            }
                        }
                    }
                    Some(s)
                },
                _ => {
                    proof {
                        assert forall|i: int|
                            0 <= i < self.entries_view().len() && self.entries_view()[i].0
                                == server_name@ implies !(self.entries_view()[i].1 is Ready) by {
                            let witness = choose|k: int|
                                0 <= k < self.entries_view().len() && self.entries_view()[k] == (
                                    server_name@,
                                    s@,
                                );
                            if i != witness {
                                assert(self.entries_view()[i].0 != self.entries_view()[
                                    witness].0);
                            }
                        }
                    }
                    None
                },
            },
            None => None,
        }
    }

    /// Records the outcome of an acquisition or renewal for `domain`:
    /// the entry's state is replaced, every other entry is untouched, and
    /// an unknown domain leaves the store unchanged.
    pub fn set_state(&mut self, domain: &[u8], state: TlsState)
        requires
            old(self).wf(),
        ensures
            final(self).wf(),
            final(self).entries_view().len() == old(self).entries_view().len(),
            forall|i: int|
                0 <= i < old(self).entries_view().len() && old(self).entries_view()[i].0
                    != domain@ ==> final(self).entries_view()[i] == old(self).entries_view()[i],
            forall|i: int|
                0 <= i < old(self).entries_view().len() && old(self).entries_view()[i].0
                    == domain@ ==> final(self).entries_view()[i] == (domain@, state@),
    {
        let ghost prev = self.entries_view();
        let mut i: usize = 0;
        while i < self.entries.len()
            invariant
                i <= self.entries@.len(),
                self.entries@.len() == prev.len(),
                forall|j: int| i <= j < prev.len() ==> self.entries_view()[j] == prev[j],
                self.entries_view() == prev,
                old(self).entries_view() == prev,
                old(self).wf(),
                forall|j: int| 0 <= j < i ==> prev[j].0 != domain@,
        decreases self.entries.len() - i,
        {
            proof {
                assert(self.entries_view()[i as int] == self.entries@[i as int]@);
            }
            if bytes_eq_slice(self.entries[i].domain.as_slice(), domain) {
                let d = crate::bytes::to_vec(domain);
                self.entries.set(i, CertEntry { domain: d, state });
                proof {
                    assert(self.entries_view() =~= prev.update(i as int, (domain@, state@)));
                    assert forall|j: int|
                        0 <= j < prev.len() && j != i implies prev[j].0 != domain@ by {
                        assert(prev[j].0 != prev[i as int].0);
                    }
                }
                return;
            }
            i += 1;
        }
    }

    /// The domains whose ready certificates fall inside the renewal window
    /// at time `now`: exactly those the renewal loop must reorder.
    pub fn renewal_due(&self, now: i64) -> (r: Vec<Vec<u8>>)
        ensures
            r@.map_values(|d: Vec<u8>| d@) =~= self.entries_view().filter(
                |e: (Seq<u8>, TlsStateSpec)|
                    e.1 matches TlsStateSpec::Ready { not_after, .. } && expiring_soon_spec(
                        not_after,
                        now,
                    ),
            ).map_values(|e: (Seq<u8>, TlsStateSpec)| e.0),
    {
        let mut out: Vec<Vec<u8>> = Vec::new();
        let mut i: usize = 0;
        proof {
            assert(self.entries_view().subrange(0, 0) =~= Seq::<(Seq<u8>, TlsStateSpec)>::empty());
        }
        while i < self.entries.len()
            invariant
                i <= self.entries@.len(),
                out@.map_values(|d: Vec<u8>| d@) =~= self.entries_view().subrange(
                    0,
                    i as int,
                ).filter(
                    |e: (Seq<u8>, TlsStateSpec)|
                        e.1 matches TlsStateSpec::Ready { not_after, .. } && expiring_soon_spec(
                            not_after,
                            now,
                        ),
                ).map_values(|e: (Seq<u8>, TlsStateSpec)| e.0),
        decreases self.entries.len() - i,
        {
            proof {
                assert(self.entries_view()[i as int] == self.entries@[i as int]@);
            }
            let ghost prevout = out@.map_values(|d: Vec<u8>| d@);
            let due = match &self.entries[i].state {
                TlsState::Ready { not_after, .. } => is_expiring_soon(*not_after, now),
                _ => false,
            };
            if due {
                out.push(crate::bytes::to_vec(self.entries[i].domain.as_slice()));
                proof {
                    assert(out@.map_values(|d: Vec<u8>| d@) =~= prevout.push(
                        self.entries_view()[i as int].0,
                    ));
                }
            }
            proof {
                let f = |e: (Seq<u8>, TlsStateSpec)|
                    e.1 matches TlsStateSpec::Ready { not_after, .. } && expiring_soon_spec(
                        not_after,
                        now,
                    );
                let pre = self.entries_view().subrange(0, i as int);
                let cur = self.entries_view()[i as int];
                assert(self.entries_view().subrange(0, i + 1) =~= pre.push(cur));
                reveal(Seq::filter);
                assert(pre.push(cur).drop_last() =~= pre);
                assert(pre.push(cur).last() == cur);
                assert(pre.push(cur).filter(f) == if f(cur) {
                    pre.filter(f).push(cur)
                } else {
                    pre.filter(f)
                });
            }
            i += 1;
        }
        proof {
            assert(self.entries_view().subrange(0, self.entries_view().len() as int)
                =~= self.entries_view());
        }
        out
    }
}

} // verus!
