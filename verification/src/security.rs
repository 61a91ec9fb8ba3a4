//! Device trust: the set of paired device identities, and the self-signed
//! identity material of this node.
//!
//! Trust is established at the application layer: the transport verifies
//! no certificates, and a transfer to an untrusted peer is refused before
//! it starts. The surrounding application persists the trust store and
//! generates the certificate; the decisions live here.

use crate::text::str_eq;
use vstd::prelude::*;

verus! {

/// The set of device ids that appear in `s`.
pub open spec fn id_set(s: Seq<String>) -> Set<Seq<char>> {
    Set::new(|k: Seq<char>| exists|i: int| 0 <= i < s.len() && #[trigger] s[i]@ == k)
}

/// The persisted shape of the trust store: the paired device ids.
pub struct TrustStore {
    pub trusted_devices: Vec<String>,
}

/// The trust decisions over the paired device ids.
pub struct SecurityService {
    pub trusted_devices: Vec<String>,
}

impl SecurityService {
    /// A service trusting exactly the ids loaded from the store.
    pub fn new(store: TrustStore) -> (r: SecurityService)
        ensures
            r@ == id_set(store.trusted_devices@),
    {
        SecurityService { trusted_devices: store.trusted_devices }
    }

    /// The set of trusted device ids.
    pub closed spec fn view(&self) -> Set<Seq<char>> {
        id_set(self.trusted_devices@)
    }

    /// Whether `device_id` has been paired.
    pub fn is_trusted(&self, device_id: &str) -> (r: bool)
        ensures
            r == self@.contains(device_id@),
    {
        let n = self.trusted_devices.len();
        let mut i: usize = 0;
        while i < n
            invariant
                n == self.trusted_devices@.len(),
                0 <= i <= n,
                forall|j: int| 0 <= j < i ==> #[trigger] self.trusted_devices@[j]@ != device_id@,
            decreases n - i,
        {
            if str_eq(self.trusted_devices[i].as_str(), device_id) {
                return true;
            }
            i += 1;
        }
        false
    }

    /// Pairs `device_id`. The caller persists the updated store.
    pub fn add_trusted(&mut self, device_id: String)
        ensures
            final(self)@ == old(self)@.insert(device_id@),
    {
        if !self.is_trusted(device_id.as_str()) {
            let ghost old_list = self.trusted_devices@;
            self.trusted_devices.push(device_id);
            proof {
                let new_list = self.trusted_devices@;
                assert forall|k: Seq<char>| id_set(new_list).contains(k) implies id_set(
                    old_list,
                ).insert(device_id@).contains(k) by {
                    let w = choose|w: int| 0 <= w < new_list.len() && #[trigger] new_list[w]@ == k;
                    if w < old_list.len() {
                        assert(old_list[w]@ == k);
                    }
                }
                assert forall|k: Seq<char>| id_set(old_list).insert(device_id@).contains(
                    k,
                ) implies id_set(new_list).contains(k) by {
                    if k == device_id@ {
                        assert(new_list[old_list.len() as int]@ == k);
                    } else {
                        let w = choose|w: int|
                            0 <= w < old_list.len() && #[trigger] old_list[w]@ == k;
                        assert(new_list[w]@ == k);
                    }
                }
                assert(id_set(new_list) =~= id_set(old_list).insert(device_id@));
            }
        } else {
            proof {
                assert(id_set(self.trusted_devices@) =~= id_set(self.trusted_devices@).insert(
                    device_id@,
                ));
            }
        }
    }

    /// Unpairs `device_id`. The caller persists the updated store.
    pub fn remove_trusted(&mut self, device_id: &str)
        ensures
            final(self)@ == old(self)@.remove(device_id@),
    {
        let ghost old_list = self.trusted_devices@;
        let mut kept: Vec<String> = Vec::new();
        let n = self.trusted_devices.len();
        let mut i: usize = 0;
        while i < n
            invariant
                n == old_list.len(),
                self.trusted_devices@ == old_list,
                0 <= i <= n,
                id_set(kept@) == id_set(old_list.take(i as int)).remove(device_id@),
            decreases n - i,
        {
            let ghost kept_before = kept@;
            let keep = !str_eq(self.trusted_devices[i].as_str(), device_id);
            if keep {
                let entry = self.trusted_devices[i].clone();
                kept.push(entry);
            }
            proof {
                let taken = old_list.take(i + 1);
                let prior = old_list.take(i as int);
                assert(taken.drop_last() =~= prior);
                assert forall|k: Seq<char>| id_set(taken).remove(device_id@).contains(k) implies
                    id_set(kept@).contains(k) by {
                    let w = choose|w: int| 0 <= w < taken.len() && #[trigger] taken[w]@ == k;
                    if w < i {
                        assert(prior[w]@ == k);
                        assert(id_set(prior).remove(device_id@).contains(k));
                        assert(id_set(kept_before).contains(k));
                        let v = choose|v: int|
                            0 <= v < kept_before.len() && #[trigger] kept_before[v]@ == k;
                        assert(kept@[v]@ == k);
                    } else {
                        assert(taken[w]@ == old_list[i as int]@);
                        assert(keep);
                        assert(kept@[kept_before.len() as int]@ == k);
                    }
                }
                assert forall|k: Seq<char>| id_set(kept@).contains(k) implies id_set(
                    taken,
                ).remove(device_id@).contains(k) by {
                    let w = choose|w: int| 0 <= w < kept@.len() && #[trigger] kept@[w]@ == k;
                    if w < kept_before.len() {
                        assert(kept_before[w]@ == k);
                        assert(id_set(kept_before).contains(k));
                        assert(id_set(prior).remove(device_id@).contains(k));
                        let v = choose|v: int| 0 <= v < prior.len() && #[trigger] prior[v]@ == k;
                        assert(taken[v]@ == k);
                    } else {
                        assert(keep);
                        assert(kept@[w]@ == old_list[i as int]@);
                        assert(taken[i as int]@ == k);
                        assert(k != device_id@);
                    }
                }
                assert(id_set(kept@) =~= id_set(taken).remove(device_id@));
            }
            i += 1;
        }
        proof {
            assert(old_list.take(n as int) =~= old_list);
        }
        self.trusted_devices = kept;
        proof {
            assert(id_set(self.trusted_devices@) == id_set(old_list).remove(device_id@));
        }
    }
}

/// The node's self-signed identity material, in DER form. Generation and
/// the TLS configurations built from it belong to the surrounding
/// application; the core only carries the bytes.
pub struct CertificateManager {
    pub cert_der: Vec<u8>,
    pub key_der: Vec<u8>,
}

impl CertificateManager {
    /// Wraps generated identity material.
    pub fn new(cert_der: Vec<u8>, key_der: Vec<u8>) -> (r: CertificateManager)
        ensures
            r.cert_der@ == cert_der@,
            r.key_der@ == key_der@,
    {
        CertificateManager { cert_der, key_der }
    }
}

} // verus!
