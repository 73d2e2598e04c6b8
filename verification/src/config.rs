//! Node and client configuration: the replica set's addresses, the fault
//! bound, and the shared key material, with the validation the engine's
//! quorum arithmetic depends on.
//!
//! Loading these from configuration files is I/O and lives outside the
//! library; the library holds the data and the rules.

use vstd::prelude::*;
use vstd::string::StringExecFns;

use crate::crypto::SECRET_KEY_SIZE;
use crate::median;
use crate::msg::Replica;

verus! {

/// The signature scheme of the deployment; with no PKI every pair of
/// replicas shares a symmetric secret key.
#[derive(Clone, Copy, Debug, PartialEq, Eq, Structural)]
pub enum Algorithm {
    NOPKI,
}

/// Why a configuration was rejected.
#[derive(Clone, Copy, Debug, PartialEq, Eq, Structural)]
pub enum ParseError {
    /// Expected and actual address map size.
    InvalidMapLen(usize, usize),
    /// A key map whose size does not cover exactly the replica set.
    InvalidMapEntry(Replica),
    /// A shared key of the wrong length.
    InvalidPkSize(usize),
    /// A fault bound the replica count cannot tolerate.
    IncorrectFaults(usize, usize),
}

pub fn is_valid_replica(r: Replica, num_nodes: usize) -> (b: bool)
    ensures
        b == (r < num_nodes),
{
    r < num_nodes
}

/// The expected address map size, with the count wrapping as the machine
/// arithmetic does.
pub open spec fn wrap_inc(n: usize) -> usize {
    if n == usize::MAX {
        0
    } else {
        (n + 1) as usize
    }
}

/// The index of the first shared key of the wrong length, from `i` on;
/// negative when every key from `i` on has the right length.
pub open spec fn first_bad_key(sk: Seq<Vec<u8>>, i: int) -> int
    decreases sk.len() - i,
{
    if i < 0 || i >= sk.len() {
        -1
    } else if sk[i]@.len() != SECRET_KEY_SIZE {
        i
    } else {
        first_bad_key(sk, i + 1)
    }
}

/// A node's configuration: one network address per replica plus the
/// synchronizer's (the last entry), the protocol parameters, and one
/// shared secret key per replica (the entry at the node's own id is the
/// key it authenticates its own messages with).
#[derive(Clone, Debug)]
pub struct Node {
    /// Node network config
    pub net_map: Vec<String>,
    /// Protocol details
    pub delta: u64,
    pub id: Replica,
    pub num_nodes: usize,
    pub num_faults: usize,
    pub block_size: usize,
    pub client_port: u16,
    pub client_addr: String,
    pub payload: usize,
    pub prot_payload: String,
    /// Crypto primitives
    pub crypto_alg: Algorithm,
    pub pk_map: Vec<Vec<u8>>,
    pub secret_key_bytes: Vec<u8>,
    /// For authenticated channels
    pub sk_map: Vec<Vec<u8>>,
    /// Certificate details
    pub my_cert: Vec<u8>,
    pub my_cert_key: Vec<u8>,
    pub root_cert: Vec<u8>,
}

impl Node {
    /// What a valid node configuration satisfies: an address for every
    /// replica and the synchronizer, a replica count above three times the
    /// fault bound (the quorum thresholds assume it), and a full map of
    /// fixed-size shared keys.
    pub open spec fn spec_valid(&self) -> bool {
        &&& self.net_map@.len() == self.num_nodes + 1
        &&& self.num_nodes > 3 * self.num_faults
        &&& self.sk_map@.len() == self.num_nodes
        &&& forall|i: int|
            0 <= i < self.sk_map@.len() ==> (#[trigger] self.sk_map@[i])@.len()
                == SECRET_KEY_SIZE
    }

    /// The decision `validate` makes, check by check.
    pub open spec fn spec_validate(&self) -> Result<(), ParseError> {
        if self.net_map@.len() != self.num_nodes + 1 {
            Err(ParseError::InvalidMapLen(wrap_inc(self.num_nodes), self.net_map@.len() as usize))
        } else if 3 * self.num_faults >= self.num_nodes {
            Err(ParseError::IncorrectFaults(self.num_faults, self.num_nodes))
        } else if self.sk_map@.len() != self.num_nodes {
            Err(ParseError::InvalidMapEntry(self.sk_map@.len() as usize))
        } else if first_bad_key(self.sk_map@, 0) >= 0 {
            Err(
                ParseError::InvalidPkSize(
                    self.sk_map@[first_bad_key(self.sk_map@, 0)]@.len() as usize,
                ),
            )
        } else {
            Ok(())
        }
    }

    /// Checks the configuration; accepts exactly the valid ones, and names
    /// the first defect otherwise.
    pub fn validate(&self) -> (r: Result<(), ParseError>)
        ensures
            r == self.spec_validate(),
            r is Ok ==> self.spec_valid(),
    {
        if self.num_nodes == usize::MAX || self.net_map.len() != self.num_nodes + 1 {
            return Err(
                ParseError::InvalidMapLen(self.num_nodes.wrapping_add(1), self.net_map.len()),
            );
        }
        if self.num_faults > usize::MAX / 3 || 3 * self.num_faults >= self.num_nodes {
            proof {
                if self.num_faults > usize::MAX / 3 {
                    vstd::arithmetic::div_mod::lemma_fundamental_div_mod(usize::MAX as int, 3);
                }
            }
            return Err(ParseError::IncorrectFaults(self.num_faults, self.num_nodes));
        }
        match self.crypto_alg {
            Algorithm::NOPKI => {
                // With no PKI the shared secret keys are the key material:
                // every replica must have one, of the right size.
                if self.sk_map.len() != self.num_nodes {
                    return Err(ParseError::InvalidMapEntry(self.sk_map.len()));
                }
                let mut i: usize = 0;
                while i < self.sk_map.len()
                    invariant
                        i <= self.sk_map@.len(),
                        self.net_map@.len() == self.num_nodes + 1,
                        3 * self.num_faults < self.num_nodes,
                        self.sk_map@.len() == self.num_nodes,
                        first_bad_key(self.sk_map@, 0) == first_bad_key(self.sk_map@, i as int),
                        forall|j: int|
                            0 <= j < i ==> (#[trigger] self.sk_map@[j])@.len()
                                == SECRET_KEY_SIZE,
                    decreases self.sk_map@.len() - i,
                {
                    if self.sk_map[i].len() != SECRET_KEY_SIZE {
                        let bad = self.sk_map[i].len();
                        proof {
                            assert(first_bad_key(self.sk_map@, i as int) == i);
                        }
                        return Err(ParseError::InvalidPkSize(bad));
                    }
                    i = i + 1;
                }
            },
        }
        Ok(())
    }

    /// A blank configuration, to be filled in field by field.
    pub fn new() -> (r: Node)
        ensures
            r.net_map@.len() == 0,
            r.delta == 50,
            r.id == 0,
            r.num_nodes == 0,
            r.num_faults == 0,
            r.block_size == 0,
            r.client_port == 0,
            r.client_addr@ == "0.0.0.0:5000"@,
            r.payload == 0,
            r.prot_payload@ == Seq::<char>::empty(),
            r.crypto_alg == Algorithm::NOPKI,
            r.pk_map@.len() == 0,
            r.secret_key_bytes@.len() == 0,
            r.sk_map@.len() == 0,
            r.my_cert@.len() == 0,
            r.my_cert_key@.len() == 0,
            r.root_cert@.len() == 0,
    {
        Node {
            net_map: Vec::new(),
            delta: 50,
            id: 0,
            num_nodes: 0,
            num_faults: 0,
            block_size: 0,
            client_port: 0,
            client_addr: String::from_str("0.0.0.0:5000"),
            payload: 0,
            prot_payload: String::new(),
            crypto_alg: Algorithm::NOPKI,
            pk_map: Vec::new(),
            secret_key_bytes: Vec::new(),
            sk_map: Vec::new(),
            my_cert: Vec::new(),
            my_cert_key: Vec::new(),
            root_cert: Vec::new(),
        }
    }

    /// Replaces the address map with freshly distributed addresses: this
    /// node's own entry keeps only its port (the node listens on every
    /// interface), the entry one past the replicas is the synchronizer's
    /// and also becomes the client address, and every other entry is
    /// taken as given. An own or synchronizer address without a readable
    /// port is rejected before anything changes.
    pub fn update_config(&mut self, ips: Vec<String>) -> (r: Result<(), ParseError>)
        requires
            old(self).net_map@.len() == old(self).num_nodes + 1,
            ips@.len() <= old(self).num_nodes + 1,
            (old(self).id as int) < old(self).num_nodes as int,
        ensures
            r is Err <==> ((old(self).id as int) < ips@.len() && port_of(
                ips@[old(self).id as int]@,
            ) is None) || ((old(self).num_nodes as int) < ips@.len() && port_of(
                ips@[old(self).num_nodes as int]@,
            ) is None),
            r is Err ==> *final(self) == *old(self),
            r is Ok ==> {
                &&& final(self).net_map@.len() == old(self).net_map@.len()
                &&& forall|i: int|
                    0 <= i < ips@.len() && i != old(self).id as int ==> (
                    #[trigger] final(self).net_map@[i])@ == ips@[i]@
                &&& ((old(self).id as int) < ips@.len() ==> final(self).net_map@[old(
                    self,
                ).id as int]@ == "0.0.0.0:"@ + crate::median::dec_digits(
                    port_of(ips@[old(self).id as int]@)->0 as nat,
                ))
                &&& forall|i: int|
                    ips@.len() <= i < old(self).net_map@.len() ==> final(self).net_map@[i]
                        == old(self).net_map@[i]
                &&& (if (old(self).num_nodes as int) < ips@.len() {
                    final(self).client_addr@ == ips@[old(self).num_nodes as int]@
                } else {
                    final(self).client_addr == old(self).client_addr
                })
                &&& final(self).id == old(self).id
                &&& final(self).num_nodes == old(self).num_nodes
                &&& final(self).num_faults == old(self).num_faults
                &&& final(self).sk_map == old(self).sk_map
                &&& final(self).client_port == old(self).client_port
                &&& final(self).delta == old(self).delta
                &&& final(self).block_size == old(self).block_size
                &&& final(self).payload == old(self).payload
                &&& final(self).prot_payload == old(self).prot_payload
                &&& final(self).crypto_alg == old(self).crypto_alg
            },
    {
        // reject before touching anything: the entries the loop parses
        // must carry a port
        if self.id < ips.len() {
            if parse_port(ips[self.id].as_str()).is_none() {
                return Err(ParseError::InvalidMapEntry(self.id));
            }
        }
        if self.num_nodes < ips.len() {
            if parse_port(ips[self.num_nodes].as_str()).is_none() {
                return Err(ParseError::InvalidMapEntry(self.num_nodes));
            }
        }
        let n = ips.len();
        let mut idx: usize = 0;
        while idx < n
            invariant
                idx <= n == ips@.len(),
                n <= self.net_map@.len(),
                self.net_map@.len() == old(self).net_map@.len(),
                (self.id as int) < self.num_nodes as int,
                self.id == old(self).id,
                self.num_nodes == old(self).num_nodes,
                self.num_faults == old(self).num_faults,
                self.sk_map == old(self).sk_map,
                self.client_port == old(self).client_port,
                self.delta == old(self).delta,
                self.block_size == old(self).block_size,
                self.payload == old(self).payload,
                self.prot_payload == old(self).prot_payload,
                self.crypto_alg == old(self).crypto_alg,
                (self.id as int) < n ==> port_of(ips@[self.id as int]@) is Some,
                forall|i: int|
                    0 <= i < idx && i != self.id as int ==> (#[trigger] self.net_map@[i])@
                        == ips@[i]@,
                (self.id as int) < idx ==> self.net_map@[self.id as int]@ == "0.0.0.0:"@
                    + crate::median::dec_digits(port_of(ips@[self.id as int]@)->0 as nat),
                forall|i: int|
                    idx <= i < self.net_map@.len() ==> self.net_map@[i] == old(
                        self,
                    ).net_map@[i],
                (if (self.num_nodes as int) < idx {
                    self.client_addr@ == ips@[self.num_nodes as int]@
                } else {
                    self.client_addr == old(self).client_addr
                }),
            decreases n - idx,
        {
            if idx == self.num_nodes {
                // Syncer address
                self.client_addr = ips[idx].clone();
            }
            if idx == self.id {
                let port = match parse_port(ips[idx].as_str()) {
                    Some(p) => p,
                    None => {
                        return Err(ParseError::InvalidMapEntry(idx));
                    },
                };
                let mut a = String::from_str("0.0.0.0:");
                median::push_dec_u64(&mut a, port as u64);
                let slot = &mut self.net_map[idx];
                *slot = a;
            } else {
                let ip = ips[idx].clone();
                let slot = &mut self.net_map[idx];
                *slot = ip;
            }
            idx = idx + 1;
        }
        Ok(())
    }

    /// This node's own address in the address map.
    pub fn my_ip(&self) -> (r: String)
        requires
            self.id < self.net_map@.len(),
        ensures
            r@ == self.net_map@[self.id as int]@,
    {
        self.net_map[self.id].clone()
    }

    /// The address at which the node listens for the synchronizer.
    pub fn client_ip(&self) -> (r: String)
        ensures
            r@ == "0.0.0.0:"@ + median::dec_digits(self.client_port as nat),
    {
        let mut s = String::from_str("0.0.0.0:");
        median::push_dec_u64(&mut s, self.client_port as u64);
        s
    }
}

// ---------------------------------------------------------------------------
// Ports inside "host:port" address strings
// ---------------------------------------------------------------------------

/// The index of the last `:` in the string, or a negative value when it
/// has none.
pub open spec fn rfind_colon(s: Seq<char>) -> int
    decreases s.len(),
{
    if s.len() == 0 {
        -1
    } else if s.last() == ':' {
        s.len() - 1
    } else {
        rfind_colon(s.drop_last())
    }
}

pub open spec fn is_digit(c: char) -> bool {
    '0' <= c && c <= '9'
}

pub open spec fn all_digits(s: Seq<char>) -> bool {
    forall|i: int| 0 <= i < s.len() ==> is_digit(#[trigger] s[i])
}

/// The number a decimal digit string stands for.
pub open spec fn digits_val(s: Seq<char>) -> int
    decreases s.len(),
{
    if s.len() == 0 {
        0
    } else {
        digits_val(s.drop_last()) * 10 + (s.last() as u32 - 48)
    }
}

/// The port of a "host:port" string: what follows the last `:`, when
/// that is one or more decimal digits naming a 16-bit value.
pub open spec fn port_of(s: Seq<char>) -> Option<u16> {
    let i = rfind_colon(s);
    if i < 0 {
        None
    } else {
        let ds = s.skip(i + 1);
        if ds.len() > 0 && all_digits(ds) && digits_val(ds) <= 65535 {
            Some(digits_val(ds) as u16)
        } else {
            None
        }
    }
}

proof fn lemma_rfind_found(s: Seq<char>, i: int)
    requires
        0 <= i < s.len(),
        s[i] == ':',
        forall|j: int| i < j < s.len() ==> s[j] != ':',
    ensures
        rfind_colon(s) == i,
    decreases s.len(),
{
    if i < s.len() - 1 {
        assert(s.last() != ':');
        assert(s.drop_last()[i] == s[i]);
        lemma_rfind_found(s.drop_last(), i);
    }
}

proof fn lemma_rfind_none(s: Seq<char>)
    requires
        forall|j: int| 0 <= j < s.len() ==> s[j] != ':',
    ensures
        rfind_colon(s) == -1,
    decreases s.len(),
{
    if s.len() > 0 {
        lemma_rfind_none(s.drop_last());
    }
}

proof fn lemma_digits_val_nonneg(s: Seq<char>)
    requires
        all_digits(s),
    ensures
        digits_val(s) >= 0,
    decreases s.len(),
{
    if s.len() > 0 {
        assert(all_digits(s.drop_last())) by {
            assert(forall|i: int|
                0 <= i < s.len() - 1 ==> #[trigger] s.drop_last()[i] == s[i]);
        }
        lemma_digits_val_nonneg(s.drop_last());
        assert(is_digit(s.last()));
    }
}

/// A digit string's prefixes never name a larger number than the whole.
proof fn lemma_digits_val_prefix(s: Seq<char>, i: int)
    requires
        all_digits(s),
        0 <= i <= s.len(),
    ensures
        digits_val(s.take(i)) <= digits_val(s),
    decreases s.len() - i,
{
    assert(all_digits(s.take(i))) by {
        assert(forall|j: int| 0 <= j < i ==> #[trigger] s.take(i)[j] == s[j]);
    }
    if i < s.len() {
        lemma_digits_val_prefix(s, i + 1);
        lemma_digits_val_nonneg(s.take(i));
        assert(s.take(i + 1).drop_last() =~= s.take(i));
        assert(is_digit(s.take(i + 1).last()));
        assert(digits_val(s.take(i + 1)) >= digits_val(s.take(i)));
    } else {
        assert(s.take(i) =~= s);
    }
}

/// Reads the port after the last `:` of an address string; `None`
/// exactly when the string has no parseable 16-bit port there.
pub fn parse_port(s: &str) -> (r: Option<u16>)
    ensures
        r == port_of(s@),
{
    let n = s.unicode_len();
    // find the last ':'
    let mut k: usize = n;
    let mut found = false;
    while !found && k > 0
        invariant
            k <= n == s@.len(),
            forall|j: int| k <= j < s@.len() ==> s@[j] != ':',
            found ==> 0 < k && s@[k - 1] == ':',
        decreases (if found {
            0int
        } else {
            k as int + 1
        }),
    {
        if s.get_char(k - 1) == ':' {
            found = true;
        } else {
            k = k - 1;
        }
    }
    if !found {
        proof {
            lemma_rfind_none(s@);
        }
        return None;
    }
    proof {
        lemma_rfind_found(s@, k - 1);
    }
    // the digits after it
    if k == n {
        proof {
            assert(s@.skip(k as int).len() == 0);
        }
        return None;
    }
    let mut val: u32 = 0;
    let mut i: usize = k;
    while i < n
        invariant
            k <= i <= n == s@.len(),
            0 < k,
            rfind_colon(s@) == k - 1,
            all_digits(s@.skip(k as int).take(i - k)),
            val == digits_val(s@.skip(k as int).take(i - k)),
            val <= 65535,
        decreases n - i,
    {
        let c = s.get_char(i);
        if !(c >= '0' && c <= '9') {
            proof {
                assert(s@.skip(k as int)[i - k] == s@[i as int]);
                assert(!all_digits(s@.skip(k as int)));
            }
            return None;
        }
        let d = (c as u32) - 48;
        let v2 = val * 10 + d;
        proof {
            let ds = s@.skip(k as int);
            assert(ds.take(i - k + 1).drop_last() =~= ds.take(i - k));
            assert(ds.take(i - k + 1).last() == s@[i as int]);
            assert(all_digits(ds.take(i - k + 1))) by {
                assert(forall|j: int|
                    0 <= j < i - k + 1 ==> #[trigger] ds.take(i - k + 1)[j] == ds[j]);
                assert(forall|j: int|
                    0 <= j < i - k ==> #[trigger] ds.take(i - k)[j] == ds[j]);
            }
        }
        if v2 > 65535 {
            proof {
                let ds = s@.skip(k as int);
                if all_digits(ds) {
                    lemma_digits_val_prefix(ds, i - k + 1);
                }
            }
            return None;
        }
        val = v2;
        i = i + 1;
    }
    proof {
        assert(s@.skip(k as int).take((n - k) as int) =~= s@.skip(k as int));
    }
    Some(val as u16)
}

/// The synchronizer-side configuration: the replicas' client-facing
/// addresses and the experiment's parameters.
#[derive(Clone, Debug)]
pub struct Client {
    pub net_map: Vec<String>,
    pub crypto_alg: Algorithm,
    pub server_pk: Vec<Vec<u8>>,
    pub num_nodes: usize,
    pub num_faults: usize,
    pub block_size: usize,
    pub payload: usize,
    pub root_cert: Vec<u8>,
}

impl Client {
    /// What a valid client configuration satisfies.
    pub open spec fn spec_valid(&self) -> bool {
        &&& self.net_map@.len() == self.num_nodes
        &&& self.num_nodes > 3 * self.num_faults
    }

    pub open spec fn spec_validate(&self) -> Result<(), ParseError> {
        if self.net_map@.len() != self.num_nodes {
            Err(ParseError::InvalidMapLen(self.num_nodes, self.net_map@.len() as usize))
        } else if 3 * self.num_faults >= self.num_nodes {
            Err(ParseError::IncorrectFaults(self.num_faults, self.num_nodes))
        } else {
            Ok(())
        }
    }

    /// Checks the configuration; accepts exactly the valid ones.
    pub fn validate(&self) -> (r: Result<(), ParseError>)
        ensures
            r == self.spec_validate(),
            r is Ok ==> self.spec_valid(),
    {
        if self.net_map.len() != self.num_nodes {
            return Err(ParseError::InvalidMapLen(self.num_nodes, self.net_map.len()));
        }
        if self.num_faults > usize::MAX / 3 || 3 * self.num_faults >= self.num_nodes {
            proof {
                if self.num_faults > usize::MAX / 3 {
                    vstd::arithmetic::div_mod::lemma_fundamental_div_mod(usize::MAX as int, 3);
                }
            }
            return Err(ParseError::IncorrectFaults(self.num_faults, self.num_nodes));
        }
        match self.crypto_alg {
            Algorithm::NOPKI => {},
        }
        Ok(())
    }

    /// A blank configuration.
    pub fn new() -> (r: Client)
        ensures
            r.net_map@.len() == 0,
            r.crypto_alg == Algorithm::NOPKI,
            r.server_pk@.len() == 0,
            r.num_nodes == 0,
            r.num_faults == 0,
            r.block_size == 0,
            r.payload == 0,
            r.root_cert@.len() == 0,
    {
        Client {
            net_map: Vec::new(),
            crypto_alg: Algorithm::NOPKI,
            server_pk: Vec::new(),
            num_nodes: 0,
            num_faults: 0,
            block_size: 0,
            payload: 0,
            root_cert: Vec::new(),
        }
    }

    /// Replaces the address map entry by entry with the given addresses,
    /// appending where the map is shorter.
    pub fn update_config(&mut self, ips: Vec<String>)
        ensures
            final(self).net_map@.len() == if ips@.len() > old(self).net_map@.len() {
                ips@.len()
            } else {
                old(self).net_map@.len()
            },
            forall|i: int|
                0 <= i < ips@.len() ==> final(self).net_map@[i] == ips@[i],
            forall|i: int|
                ips@.len() <= i < old(self).net_map@.len() ==> final(self).net_map@[i] == old(
                    self,
                ).net_map@[i],
            final(self).num_nodes == old(self).num_nodes,
            final(self).num_faults == old(self).num_faults,
            final(self).block_size == old(self).block_size,
            final(self).payload == old(self).payload,
            final(self).crypto_alg == old(self).crypto_alg,
            final(self).server_pk == old(self).server_pk,
            final(self).root_cert == old(self).root_cert,
    {
        let mut idx: usize = 0;
        let n = ips.len();
        while idx < n
            invariant
                idx <= n == ips@.len(),
                self.net_map@.len() == if idx as int > old(self).net_map@.len() as int {
                    idx as int
                } else {
                    old(self).net_map@.len() as int
                },
                forall|i: int| 0 <= i < idx ==> self.net_map@[i] == ips@[i],
                forall|i: int|
                    idx <= i < old(self).net_map@.len() ==> self.net_map@[i] == old(
                        self,
                    ).net_map@[i],
                self.num_nodes == old(self).num_nodes,
                self.num_faults == old(self).num_faults,
                self.block_size == old(self).block_size,
                self.payload == old(self).payload,
                self.crypto_alg == old(self).crypto_alg,
                self.server_pk == old(self).server_pk,
                self.root_cert == old(self).root_cert,
            decreases n - idx,
        {
            let ip = ips[idx].clone();
            if idx < self.net_map.len() {
                let slot = &mut self.net_map[idx];
                *slot = ip;
            } else {
                self.net_map.push(ip);
            }
            idx = idx + 1;
        }
    }
}

} // verus!
