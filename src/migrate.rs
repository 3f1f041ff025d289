//! Transcoding of one node's earlier configuration into the upgraded layout.
use vstd::prelude::*;
use vstd::string::StrSliceExecFns;
use crate::cert::{string_views, CertAndKey};
use crate::current;
use crate::current::{Config, DEFAULT_BLOCK_LIMIT, DEFAULT_PACKAGE_LIMIT};
use crate::legacy;

verus! {

/// The parsed contents of a node's configuration files; `key_id` and
/// `key_file` hold the text of the files of those names.
pub struct NodeFiles {
    pub controller: legacy::ControllerConfig,
    pub consensus: legacy::ConsensusConfig,
    pub network: legacy::NetworkConfig,
    pub node_address: String,
    pub init_sys_config: legacy::InitSysConfig,
    pub genesis: legacy::Genesis,
    pub key_id: String,
    pub key_file: String,
}

/// A node's configuration in the earlier layout.
pub struct NodeConfigMigrate {
    pub controller_port: u16,
    pub consensus_port: u16,
    pub executor_port: u16,
    pub network_port: u16,
    pub kms_port: u16,
    pub storage_port: u16,
    pub node_addr: String,
    pub block_delay_number: u64,
    pub genesis_block: legacy::Genesis,
    pub system_config: legacy::InitSysConfig,
    pub kms_password: String,
    pub key_id: u64,
    pub network_config: legacy::NetworkConfig,
}

/// Why a node's earlier configuration could not be read.
#[derive(Clone, Debug)]
pub enum MigrateError {
    /// The `key_id` file does not hold a decimal `u64`.
    InvalidKeyId,
    /// A node directory's name does not end in a decimal node number.
    InvalidNodeDir(String),
}

pub open spec fn is_digit(c: char) -> bool {
    '0' <= c && c <= '9'
}

/// The value of a sequence of decimal digits.
pub open spec fn digits_value(s: Seq<char>) -> nat
    decreases s.len(),
{
    if s.len() == 0 {
        0
    } else {
        digits_value(s.drop_last()) * 10 + (s.last() as int - '0' as int) as nat
    }
}

/// The digits of an unsigned decimal: what follows an optional leading `+`.
pub open spec fn unsigned_digits(s: Seq<char>) -> Seq<char> {
    if s.len() > 0 && s[0] == '+' {
        s.drop_first()
    } else {
        s
    }
}

/// The `u64` that `s` writes in decimal: an optional `+` and at least one
/// digit, with a value that fits.
pub open spec fn decimal_u64(s: Seq<char>) -> Option<u64> {
    let d = unsigned_digits(s);
    if d.len() > 0 && (forall|i: int| 0 <= i < d.len() ==> is_digit(#[trigger] d[i]))
        && digits_value(d) <= u64::MAX {
        Some(digits_value(d) as u64)
    } else {
        None
    }
}

proof fn lemma_digits_value_grows(s: Seq<char>, k: int)
    requires
        0 <= k <= s.len(),
        forall|i: int| 0 <= i < s.len() ==> is_digit(#[trigger] s[i]),
    ensures
        digits_value(s.subrange(0, k)) <= digits_value(s),
    decreases s.len(),
{
    if k < s.len() {
        let t = s.drop_last();
        assert(forall|i: int| 0 <= i < t.len() ==> t[i] == s[i]);
        lemma_digits_value_grows(t, k);
        assert(t.subrange(0, k) =~= s.subrange(0, k));
    } else {
        assert(s.subrange(0, k) =~= s);
    }
}

/// Reads a decimal `u64` as `str::parse` does: an optional `+`, then one
/// digit or more.
pub fn parse_decimal_u64(s: &str) -> (r: Option<u64>)
    ensures
        r == decimal_u64(s@),
{
    let n = s.unicode_len();
    let mut start: usize = 0;
    if n > 0 && s.get_char(0) == '+' {
        start = 1;
    }
    let ghost d = unsigned_digits(s@);
    assert(d =~= s@.subrange(start as int, n as int));
    if start >= n {
        return None;
    }
    let mut acc: u64 = 0;
    let mut i: usize = start;
    while i < n
        invariant
            start <= i <= n,
            n == s@.len(),
            d == s@.subrange(start as int, n as int),
            d == unsigned_digits(s@),
            acc as nat == digits_value(d.subrange(0, i - start)),
            forall|k: int| 0 <= k < i - start ==> is_digit(#[trigger] d[k]),
        decreases n - i,
    {
        let c = s.get_char(i);
        assert(d[i - start] == c);
        assert(d.subrange(0, i - start + 1).drop_last() =~= d.subrange(0, i - start));
        if !('0' <= c && c <= '9') {
            assert(!is_digit(d[i - start]));
            return None;
        }
        let v = (c as u32 - '0' as u32) as u64;
        assert(digits_value(d.subrange(0, i - start + 1)) == acc * 10 + v);
        if acc > (u64::MAX - v) / 10 {
            proof {
                assert(acc * 10 + v > u64::MAX) by (nonlinear_arith)
                    requires
                        acc > (u64::MAX - v) / 10,
                        v <= 9,
                ;
                assert(forall|k: int| 0 <= k < i - start + 1 ==> is_digit(#[trigger] d[k]));
                if forall|k: int| 0 <= k < d.len() ==> is_digit(#[trigger] d[k]) {
                    lemma_digits_value_grows(d, i - start + 1);
                }
            }
            return None;
        }
        assert(acc * 10 + v <= u64::MAX) by (nonlinear_arith)
            requires
                acc <= (u64::MAX - v) / 10,
                v <= 9,
        ;
        acc = acc * 10 + v;
        i += 1;
    }
    assert(d.subrange(0, n - start) =~= d);
    Some(acc)
}

/// `name` is the chain's name followed by at least one more character.
pub open spec fn is_node_dir(name: Seq<char>, chain: Seq<char>) -> bool {
    chain.len() < name.len() && name.subrange(0, chain.len() as int) == chain
}

/// The node number that follows the chain's name.
pub open spec fn node_number(name: Seq<char>, chain: Seq<char>) -> Option<u64> {
    decimal_u64(name.subrange(chain.len() as int, name.len() as int))
}

/// The node directories among `names`, in their order.
pub open spec fn node_dirs(names: Seq<Seq<char>>, chain: Seq<char>) -> Seq<Seq<char>> {
    names.filter(|n: Seq<char>| is_node_dir(n, chain))
}

fn is_node_dir_name(name: &String, chain: &String) -> (r: bool)
    ensures
        r == is_node_dir(name@, chain@),
{
    let n = name.as_str().unicode_len();
    let c = chain.as_str().unicode_len();
    if c >= n {
        return false;
    }
    let mut i: usize = 0;
    while i < c
        invariant
            c < n,
            n == name@.len(),
            c == chain@.len(),
            i <= c,
            forall|k: int| 0 <= k < i ==> name@[k] == chain@[k],
        decreases c - i,
    {
        if name.as_str().get_char(i) != chain.as_str().get_char(i) {
            assert(name@.subrange(0, c as int)[i as int] != chain@[i as int]);
            return false;
        }
        i += 1;
    }
    assert(name@.subrange(0, c as int) =~= chain@);
    true
}

/// The node directories among `names` (the chain's name followed by a
/// node number), ordered by node number. Fails on a node directory whose
/// name does not end in a decimal node number.
pub fn order_node_dirs(names: &Vec<String>, chain_name: &String) -> (r: Result<
    Vec<String>,
    MigrateError,
>)
    ensures
        (r is Ok) <==> forall|i: int|
            0 <= i < node_dirs(string_views(names@), chain_name@).len() ==> (#[trigger] node_number(
                node_dirs(string_views(names@), chain_name@)[i],
                chain_name@,
            )) is Some,
        r matches Err(e) ==> e matches MigrateError::InvalidNodeDir(n) && node_dirs(
            string_views(names@),
            chain_name@,
        ).contains(n@) && node_number(n@, chain_name@) is None,
        r matches Ok(v) ==> {
            &&& string_views(v@).to_multiset() == node_dirs(
                string_views(names@),
                chain_name@,
            ).to_multiset()
            &&& forall|i: int|
                0 <= i < v@.len() ==> (#[trigger] node_number(v@[i]@, chain_name@)) is Some
            &&& forall|i: int, j: int|
                0 <= i < j < v@.len() ==> node_number(v@[i]@, chain_name@)->Some_0 <= node_number(
                    v@[j]@,
                    chain_name@,
                )->Some_0
        },
{
    broadcast use vstd::seq_lib::group_to_multiset_ensures;

    let ghost chain = chain_name@;
    let ghost views = string_views(names@);
    let ghost is_dir = |n: Seq<char>| is_node_dir(n, chain);
    let mut sorted: Vec<String> = Vec::new();
    let mut ids: Vec<u64> = Vec::new();
    let mut i: usize = 0;
    while i < names.len()
        invariant
            i <= names@.len(),
            chain == chain_name@,
            views == string_views(names@),
            is_dir == (|n: Seq<char>| is_node_dir(n, chain)),
            ids@.len() == sorted@.len(),
            forall|m: int|
                0 <= m < sorted@.len() ==> (#[trigger] node_number(sorted@[m]@, chain)) == Some(
                    ids@[m],
                ),
            forall|a: int, b: int| 0 <= a < b < ids@.len() ==> ids@[a] <= ids@[b],
            string_views(sorted@).to_multiset() == views.subrange(0, i as int).filter(
                is_dir,
            ).to_multiset(),
            forall|m: int|
                0 <= m < views.subrange(0, i as int).filter(is_dir).len() ==> (#[trigger] node_number(
                    views.subrange(0, i as int).filter(is_dir)[m],
                    chain,
                )) is Some,
        decreases names@.len() - i,
    {
        let ghost prefix = views.subrange(0, i as int);
        assert(views.subrange(0, i + 1) =~= prefix.push(names@[i as int]@));
        proof {
            prefix.lemma_filter_push(names@[i as int]@, is_dir);
        }
        let name = &names[i];
        if is_node_dir_name(name, chain_name) {
            let n = name.as_str().unicode_len();
            let c = chain_name.as_str().unicode_len();
            let id = match parse_decimal_u64(name.as_str().substring_char(c, n)) {
                Some(id) => id,
                None => {
                    proof {
                        let f = views.filter(is_dir);
                        assert(views =~= views.subrange(0, i + 1) + views.subrange(
                            i + 1,
                            views.len() as int,
                        ));
                        views.subrange(0, i + 1).lemma_filter_monotone(views, is_dir);
                        let pf = prefix.push(name@).filter(is_dir);
                        assert(pf[pf.len() - 1] == name@);
                        views.filter_lemma(is_dir);
                        prefix.push(name@).filter_lemma(is_dir);
                        assert(views.contains(name@)) by {
                            assert(views[i as int] == name@);
                        }
                        assert(f.contains(name@)) by {
                            views.lemma_filter_contains_rev(is_dir, name@);
                        }
                    }
                    return Err(MigrateError::InvalidNodeDir(name.clone()));
                },
            };
            let mut k: usize = 0;
            while k < ids.len() && ids[k] <= id
                invariant
                    k <= ids@.len(),
                    forall|m: int| 0 <= m < k ==> ids@[m] <= id,
                decreases ids@.len() - k,
            {
                k += 1;
            }
            let ghost before = sorted@;
            let ghost before_ids = ids@;
            ids.insert(k, id);
            sorted.insert(k, name.clone());
            proof {
                assert(string_views(sorted@) =~= string_views(before).insert(k as int, name@));
                vstd::seq_lib::to_multiset_insert(string_views(before), k as int, name@);
                vstd::seq_lib::to_multiset_build(prefix.filter(is_dir), name@);
                assert forall|a: int, b: int| 0 <= a < b < ids@.len() implies ids@[a] <= ids@[b] by {
                    if k < before_ids.len() {
                        assert(id < before_ids[k as int]);
                    }
                    if a < k && b > k {
                        assert(before_ids[a] <= id);
                    }
                    if a == k && b > k {
                        assert(before_ids[b - 1] >= before_ids[k as int]);
                    }
                }
                assert forall|m: int| 0 <= m < sorted@.len() implies (#[trigger] node_number(
                    sorted@[m]@,
                    chain,
                )) == Some(ids@[m]) by {
                    if m < k {
                        assert(sorted@[m] == before[m]);
                    } else if m > k {
                        assert(sorted@[m] == before[m - 1]);
                    }
                }
                let pf = prefix.push(name@).filter(is_dir);
                assert forall|m: int| 0 <= m < pf.len() implies (#[trigger] node_number(
                    pf[m],
                    chain,
                )) is Some by {
                    if m < pf.len() - 1 {
                        assert(pf[m] == prefix.filter(is_dir)[m]);
                    }
                }
            }
        } else {
            proof {
                assert(prefix.push(names@[i as int]@).filter(is_dir) == prefix.filter(is_dir));
            }
        }
        i += 1;
    }
    assert(views.subrange(0, i as int) =~= views);
    Ok(sorted)
}

/// `m` assembles the contents of `files`, with `key_id` as its key id.
pub open spec fn assembled(files: NodeFiles, key_id: u64, m: NodeConfigMigrate) -> bool {
    &&& m.controller_port == files.consensus.controller_port
    &&& m.consensus_port == files.controller.consensus_port
    &&& m.executor_port == files.controller.executor_port
    &&& m.network_port == files.controller.network_port
    &&& m.kms_port == files.controller.kms_port
    &&& m.storage_port == files.controller.storage_port
    &&& m.node_addr == files.node_address
    &&& m.block_delay_number == files.controller.block_delay_number
    &&& m.genesis_block == files.genesis
    &&& m.system_config == files.init_sys_config
    &&& m.kms_password == files.key_file
    &&& m.key_id == key_id
    &&& m.network_config == files.network
}

/// `c` is the upgraded form of `m`: its fields carried over, the new limits
/// at their defaults, the TLS material and every peer's domain unset.
pub open spec fn upgraded(m: NodeConfigMigrate, c: Config) -> bool {
    &&& c.genesis_block.prevhash == m.genesis_block.prevhash
    &&& c.genesis_block.timestamp == m.genesis_block.timestamp
    &&& c.system_config.admin == m.system_config.admin
    &&& c.system_config.block_interval == m.system_config.block_interval
    &&& c.system_config.block_limit == DEFAULT_BLOCK_LIMIT
    &&& c.system_config.chain_id == m.system_config.chain_id
    &&& c.system_config.validators@ == m.system_config.validators@
    &&& c.system_config.version == m.system_config.version
    &&& c.controller.consensus_port == m.consensus_port
    &&& c.controller.controller_port == m.controller_port
    &&& c.controller.executor_port == m.executor_port
    &&& c.controller.network_port == m.network_port
    &&& c.controller.kms_port == m.kms_port
    &&& c.controller.storage_port == m.storage_port
    &&& c.controller.key_id == m.key_id
    &&& c.controller.node_address == m.node_addr
    &&& c.controller.package_limit == DEFAULT_PACKAGE_LIMIT
    &&& c.consensus.controller_port == m.controller_port
    &&& c.consensus.network_port == m.network_port
    &&& c.consensus.node_addr == m.node_addr
    &&& c.consensus.grpc_listen_port == m.consensus_port
    &&& c.kms.kms_port == m.kms_port
    &&& c.storage.kms_port == m.kms_port
    &&& c.storage.storage_port == m.storage_port
    &&& c.executor.executor_port == m.executor_port
    &&& c.network.ca_cert is None
    &&& c.network.cert is None
    &&& c.network.grpc_port == m.network_port
    &&& c.network.listen_port == m.network_config.port
    &&& c.network.peers@.len() == m.network_config.peers@.len()
    &&& forall|j: int|
        0 <= j < c.network.peers@.len() ==> {
            &&& (#[trigger] c.network.peers@[j]).domain is None
            &&& c.network.peers@[j].host == m.network_config.peers@[j].ip
            &&& c.network.peers@[j].port == m.network_config.peers@[j].port
        }
    &&& c.network_host is None
    &&& c.network_port is None
}

fn clone_strings(v: &Vec<String>) -> (r: Vec<String>)
    ensures
        r@ == v@,
{
    let mut out: Vec<String> = Vec::new();
    let mut i: usize = 0;
    while i < v.len()
        invariant
            i <= v@.len(),
            out@ == v@.subrange(0, i as int),
        decreases v@.len() - i,
    {
        out.push(v[i].clone());
        assert(out@ =~= v@.subrange(0, i + 1));
        i += 1;
    }
    assert(out@ =~= v@);
    out
}

/// Same system configuration, field by field.
pub open spec fn same_system_config(a: current::SystemConfig, b: current::SystemConfig) -> bool {
    &&& a.admin == b.admin
    &&& a.block_interval == b.block_interval
    &&& a.block_limit == b.block_limit
    &&& a.chain_id == b.chain_id
    &&& a.version == b.version
    &&& a.validators@ == b.validators@
}

/// The first node as a peer entry: its own endpoint, bound to its own
/// logical address.
pub open spec fn itself(first: Config) -> current::NetworkTlsPeerConfig {
    current::NetworkTlsPeerConfig {
        domain: Some(first.controller.node_address),
        host: first.network_host->Some_0,
        port: first.network_port->Some_0,
    }
}

/// `m` is the chain metadata of `nodes`, sampled from the first node, with
/// the authority `ca` and the administrator's key id `key_id`.
pub open spec fn metadata(nodes: Seq<Config>, ca: CertAndKey, key_id: u64, m: current::MetaConfig) -> bool {
    let first = nodes[0];
    let peers = seq![itself(first)] + first.network.peers@;
    &&& m.network.peers@ == peers
    &&& m.genesis_block == first.genesis_block
    &&& same_system_config(m.system_config, first.system_config)
    &&& m.admin_config.admin_address == first.system_config.admin
    &&& m.admin_config.key_id == key_id
    &&& m.current_config.addresses@.len() == nodes.len()
    &&& forall|i: int|
        0 <= i < nodes.len() ==> (#[trigger] m.current_config.addresses@[i])
            == nodes[i].controller.node_address
    &&& m.current_config.ca_cert_pem == ca.cert
    &&& m.current_config.ca_key_pem == ca.key
    &&& m.current_config.count == nodes.len()
    &&& m.current_config.ips@.len() == peers.len()
    &&& m.current_config.p2p_ports@.len() == peers.len()
    &&& forall|j: int|
        0 <= j < peers.len() ==> (#[trigger] m.current_config.ips@[j]) == peers[j].host
            && m.current_config.p2p_ports@[j] == peers[j].port
    &&& m.current_config.rpc_ports@.len() == nodes.len()
    &&& forall|i: int|
        0 <= i < nodes.len() ==> (#[trigger] m.current_config.rpc_ports@[i])
            == nodes[i].controller.controller_port
    &&& !m.current_config.use_num
    &&& m.current_config.tls_peers.peers@ == peers
}

fn copy_peer(p: &current::NetworkTlsPeerConfig) -> (r: current::NetworkTlsPeerConfig)
    ensures
        r == *p,
{
    let domain = match &p.domain {
        Some(d) => Some(d.clone()),
        None => None,
    };
    current::NetworkTlsPeerConfig { domain, host: p.host.clone(), port: p.port }
}

fn copy_peers(v: &Vec<current::NetworkTlsPeerConfig>) -> (r: Vec<current::NetworkTlsPeerConfig>)
    ensures
        r@ == v@,
{
    let mut out: Vec<current::NetworkTlsPeerConfig> = Vec::new();
    let mut i: usize = 0;
    while i < v.len()
        invariant
            i <= v@.len(),
            out@ == v@.subrange(0, i as int),
        decreases v@.len() - i,
    {
        out.push(copy_peer(&v[i]));
        assert(out@ =~= v@.subrange(0, i + 1));
        i += 1;
    }
    assert(out@ =~= v@);
    out
}

/// The chain metadata of the upgraded layout: the first node's view of the
/// network (itself first, then its peers), its genesis block and system
/// configuration, the authority's PEM pair, and every node's address and
/// controller port. The administrator's key id is read from `admin_key_id`
/// as a decimal `u64`.
pub fn build_meta_config(node_configs: &Vec<Config>, ca: CertAndKey, admin_key_id: &String) -> (r:
    Result<current::MetaConfig, MigrateError>)
    requires
        node_configs@.len() > 0,
        node_configs@[0].network_host is Some,
        node_configs@[0].network_port is Some,
    ensures
        (r is Ok) <==> decimal_u64(admin_key_id@) is Some,
        r matches Ok(m) ==> metadata(node_configs@, ca, decimal_u64(admin_key_id@)->Some_0, m),
        r matches Err(e) ==> e == MigrateError::InvalidKeyId,
{
    let key_id = match parse_decimal_u64(admin_key_id.as_str()) {
        Some(k) => k,
        None => {
            return Err(MigrateError::InvalidKeyId);
        },
    };
    let first = &node_configs[0];
    let ghost wanted = seq![itself(*first)] + first.network.peers@;
    let host = match &first.network_host {
        Some(h) => h.clone(),
        None => String::new(),
    };
    let port = match first.network_port {
        Some(p) => p,
        None => 0,
    };
    let mut peers: Vec<current::NetworkTlsPeerConfig> = Vec::new();
    peers.push(
        current::NetworkTlsPeerConfig {
            domain: Some(first.controller.node_address.clone()),
            host,
            port,
        },
    );
    let mut j: usize = 0;
    while j < first.network.peers.len()
        invariant
            j <= first.network.peers@.len(),
            wanted == seq![itself(*first)] + first.network.peers@,
            peers@ == wanted.subrange(0, j + 1),
        decreases first.network.peers@.len() - j,
    {
        peers.push(copy_peer(&first.network.peers[j]));
        assert(peers@ =~= wanted.subrange(0, j + 2));
        j += 1;
    }
    assert(peers@ =~= wanted);
    let mut ips: Vec<String> = Vec::new();
    let mut p2p_ports: Vec<u16> = Vec::new();
    let mut k: usize = 0;
    while k < peers.len()
        invariant
            k <= peers@.len(),
            peers@ == wanted,
            ips@.len() == k,
            p2p_ports@.len() == k,
            forall|m: int|
                0 <= m < k ==> (#[trigger] ips@[m]) == peers@[m].host && p2p_ports@[m]
                    == peers@[m].port,
        decreases peers@.len() - k,
    {
        ips.push(peers[k].host.clone());
        p2p_ports.push(peers[k].port);
        assert(ips@[k as int] == peers@[k as int].host);
        k += 1;
    }
    let mut addresses: Vec<String> = Vec::new();
    let mut rpc_ports: Vec<u16> = Vec::new();
    let mut i: usize = 0;
    while i < node_configs.len()
        invariant
            i <= node_configs@.len(),
            addresses@.len() == i,
            rpc_ports@.len() == i,
            forall|m: int|
                0 <= m < i ==> (#[trigger] addresses@[m]) == node_configs@[m].controller.node_address,
            forall|m: int|
                0 <= m < i ==> (#[trigger] rpc_ports@[m]) == node_configs@[m].controller.controller_port,
        decreases node_configs@.len() - i,
    {
        addresses.push(node_configs[i].controller.node_address.clone());
        rpc_ports.push(node_configs[i].controller.controller_port);
        i += 1;
    }
    assert(peers@ == wanted);
    let system_config = current::SystemConfig {
        admin: first.system_config.admin.clone(),
        block_interval: first.system_config.block_interval,
        block_limit: first.system_config.block_limit,
        chain_id: first.system_config.chain_id.clone(),
        version: first.system_config.version,
        validators: clone_strings(&first.system_config.validators),
    };
    let genesis_block = current::GenesisBlock {
        prevhash: first.genesis_block.prevhash.clone(),
        timestamp: first.genesis_block.timestamp,
    };
    let tls_peers = current::MetaNetworkConfig { peers: copy_peers(&peers) };
    let current_config = current::MetaCurrentConfig {
        addresses,
        ca_cert_pem: ca.cert,
        ca_key_pem: ca.key,
        count: node_configs.len() as u64,
        ips,
        p2p_ports,
        rpc_ports,
        use_num: false,
        tls_peers,
    };
    let admin_config = current::MetaAdminConfig {
        admin_address: first.system_config.admin.clone(),
        key_id,
    };
    let meta = current::MetaConfig {
        network: current::MetaNetworkConfig { peers },
        genesis_block,
        system_config,
        admin_config,
        current_config,
    };
    Ok(meta)
}

impl NodeConfigMigrate {
    /// The node's upgraded configuration, from the contents of its files.
    pub fn from_old(files: NodeFiles) -> (r: Result<Config, MigrateError>)
        ensures
            (r is Ok) <==> decimal_u64(files.key_id@) is Some,
            r matches Ok(c) ==> exists|m: NodeConfigMigrate|
                assembled(files, decimal_u64(files.key_id@)->Some_0, m) && upgraded(m, c),
            r matches Err(e) ==> e == MigrateError::InvalidKeyId,
    {
        let ghost f = files;
        let old_config = Self::extract_from(files)?;
        let c = old_config.generate_new();
        assert(assembled(f, decimal_u64(f.key_id@)->Some_0, old_config) && upgraded(old_config, c));
        Ok(c)
    }

    /// Assembles the node's earlier configuration from the contents of its
    /// files; the key id is read as a decimal `u64`.
    pub fn extract_from(files: NodeFiles) -> (r: Result<Self, MigrateError>)
        ensures
            (r is Ok) <==> decimal_u64(files.key_id@) is Some,
            r matches Ok(m) ==> assembled(files, decimal_u64(files.key_id@)->Some_0, m),
            r matches Err(e) ==> e == MigrateError::InvalidKeyId,
    {
        let key_id = match parse_decimal_u64(files.key_id.as_str()) {
            Some(k) => k,
            None => {
                return Err(MigrateError::InvalidKeyId);
            },
        };
        let NodeFiles {
            controller,
            consensus,
            network,
            node_address,
            init_sys_config,
            genesis,
            key_id: _,
            key_file,
        } = files;
        Ok(NodeConfigMigrate {
            controller_port: consensus.controller_port,
            consensus_port: controller.consensus_port,
            executor_port: controller.executor_port,
            network_port: controller.network_port,
            kms_port: controller.kms_port,
            storage_port: controller.storage_port,
            node_addr: node_address,
            block_delay_number: controller.block_delay_number,
            genesis_block: genesis,
            system_config: init_sys_config,
            kms_password: key_file,
            key_id,
            network_config: network,
        })
    }

    /// The node's configuration in the upgraded layout.
    pub fn generate_new(&self) -> (c: Config)
        ensures
            upgraded(*self, c),
    {
        let genesis_block = current::GenesisBlock {
            prevhash: self.genesis_block.prevhash.clone(),
            timestamp: self.genesis_block.timestamp,
        };
        let system_config = current::SystemConfig {
            admin: self.system_config.admin.clone(),
            block_interval: self.system_config.block_interval,
            block_limit: DEFAULT_BLOCK_LIMIT,
            chain_id: self.system_config.chain_id.clone(),
            validators: clone_strings(&self.system_config.validators),
            version: self.system_config.version,
        };
        let controller = current::ControllerConfig {
            consensus_port: self.consensus_port,
            controller_port: self.controller_port,
            executor_port: self.executor_port,
            network_port: self.network_port,
            kms_port: self.kms_port,
            storage_port: self.storage_port,
            key_id: self.key_id,
            node_address: self.node_addr.clone(),
            package_limit: DEFAULT_PACKAGE_LIMIT,
        };
        let consensus = current::ConsensusRaftConfig {
            controller_port: self.controller_port,
            network_port: self.network_port,
            node_addr: self.node_addr.clone(),
            grpc_listen_port: self.consensus_port,
        };
        let kms = current::KmsSmConfig { kms_port: self.kms_port };
        let storage = current::StorageRocksDbConfig {
            kms_port: self.kms_port,
            storage_port: self.storage_port,
        };
        let executor = current::ExecutorEvmConfig { executor_port: self.executor_port };
        let old_peers = &self.network_config.peers;
        let mut peers: Vec<current::NetworkTlsPeerConfig> = Vec::new();
        let mut j: usize = 0;
        while j < old_peers.len()
            invariant
                j <= old_peers@.len(),
                peers@.len() == j,
                forall|k: int|
                    0 <= k < j ==> {
                        &&& (#[trigger] peers@[k]).domain is None
                        &&& peers@[k].host == old_peers@[k].ip
                        &&& peers@[k].port == old_peers@[k].port
                    },
            decreases old_peers@.len() - j,
        {
            peers.push(
                current::NetworkTlsPeerConfig {
                    domain: None,
                    host: old_peers[j].ip.clone(),
                    port: old_peers[j].port,
                },
            );
            j += 1;
        }
        let network = current::NetworkTlsConfig {
            ca_cert: None,
            cert: None,
            grpc_port: self.network_port,
            listen_port: self.network_config.port,
            peers,
        };
        Config {
            controller,
            consensus,
            network,
            kms,
            storage,
            executor,
            genesis_block,
            system_config,
            network_host: None,
            network_port: None,
        }
    }
}

} // verus!
