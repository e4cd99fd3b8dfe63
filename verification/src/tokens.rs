//! The static per-network token registry: a keyed lookup table from a
//! network name to the tokens known on it.

use vstd::prelude::*;
use vstd::string::StringExecFns;

verus! {

/// A token known on some network: its contract address (textual,
/// `0x`-prefixed) and its ticker symbol.
#[derive(Clone, Debug)]
pub struct TokenInfo {
    pub token_address: String,
    pub symbol: String,
}

/// Is some entry keyed by `name`?
pub open spec fn has_network(networks: Seq<(String, Vec<TokenInfo>)>, name: Seq<char>) -> bool {
    exists|i: int| 0 <= i < networks.len() && networks[i].0@ == name
}

/// The position of the first entry keyed by `name`.
pub open spec fn network_index(networks: Seq<(String, Vec<TokenInfo>)>, name: Seq<char>) -> int
    decreases networks.len(),
{
    if networks.len() == 0 {
        0
    } else if networks[0].0@ == name {
        0
    } else {
        1 + network_index(networks.drop_first(), name)
    }
}

/// No two entries share a network name.
pub open spec fn networks_unique(networks: Seq<(String, Vec<TokenInfo>)>) -> bool {
    forall|i: int, j: int| 0 <= i < j < networks.len() ==> networks[i].0@ != networks[j].0@
}

/// The token registry, an insertion-ordered table with unique network
/// names.
pub struct NetworkManager {
    pub networks: Vec<(String, Vec<TokenInfo>)>,
}

/// If the first entry keyed by `name` stands at position `i`, then
/// `network_index` names exactly that position.
proof fn lemma_network_index_first_match(
    networks: Seq<(String, Vec<TokenInfo>)>,
    name: Seq<char>,
    i: int,
)
    requires
        0 <= i < networks.len(),
        forall|j: int| 0 <= j < i ==> networks[j].0@ != name,
        networks[i].0@ == name,
    ensures
        has_network(networks, name),
        network_index(networks, name) == i,
    decreases i,
{
    if i > 0 {
        let rest = networks.drop_first();
        assert forall|j: int| 0 <= j < i - 1 implies rest[j].0@ != name by {
            assert(rest[j] == networks[j + 1]);
        }
        assert(rest[i - 1] == networks[i]);
        lemma_network_index_first_match(rest, name, i - 1);
    }
}

impl NetworkManager {
    /// The registry invariant: network names are unique keys.
    pub open spec fn wf(self) -> bool {
        networks_unique(self.networks@)
    }

    /// The default registry: the Goerli test network with its wrapped
    /// ether token.
    pub fn new() -> (r: NetworkManager)
        ensures
            r.networks@.len() == 1,
            r.networks@[0].0@ == "Goerli"@,
            r.networks@[0].1@.len() == 1,
            r.networks@[0].1@[0].token_address@ == "0xdD69DB25F6D620A7baD3023c5d32761D353D3De9"@,
            r.networks@[0].1@[0].symbol@ == "WETH"@,
            r.wf(),
    {
        let mut tokens: Vec<TokenInfo> = Vec::new();
        tokens.push(
            TokenInfo {
                token_address: String::from_str("0xdD69DB25F6D620A7baD3023c5d32761D353D3De9"),
                symbol: String::from_str("WETH"),
            },
        );
        let mut networks: Vec<(String, Vec<TokenInfo>)> = Vec::new();
        networks.push((String::from_str("Goerli"), tokens));
        NetworkManager { networks }
    }

    /// Insert or replace the token list of a network: a known name has its
    /// entry replaced in place, a new name is appended.
    #[verifier::loop_isolation(false)]
    pub fn add_network(&mut self, network: String, token_info: Vec<TokenInfo>)
        ensures
            !has_network(old(self).networks@, network@) ==> final(self).networks@ == old(
                self,
            ).networks@.push((network, token_info)),
            has_network(old(self).networks@, network@) ==> final(self).networks@ == old(
                self,
            ).networks@.update(
                network_index(old(self).networks@, network@),
                (network, token_info),
            ),
            old(self).wf() ==> final(self).wf(),
    {
        let entry = (network, token_info);
        let mut i: usize = 0;
        while i < self.networks.len()
            invariant
                i <= self.networks@.len(),
                self.networks@ == old(self).networks@,
                forall|j: int| 0 <= j < i ==> self.networks@[j].0@ != entry.0@,
            decreases self.networks@.len() - i,
        {
            if self.networks[i].0 == entry.0 {
                proof {
                    lemma_network_index_first_match(self.networks@, entry.0@, i as int);
                    if old(self).wf() {
                        assert forall|a: int, b: int|
                            0 <= a < b < self.networks@.update(i as int, entry).len() implies (
                        self.networks@.update(i as int, entry)[a]).0@ != (self.networks@.update(
                            i as int,
                            entry,
                        )[b]).0@ by {
                            assert(self.networks@[i as int].0@ == entry.0@);
                        }
                    }
                }
                self.networks[i] = entry;
                return ;
            }
            i += 1;
        }
        proof {
            if has_network(self.networks@, entry.0@) {
                let k = choose|k: int|
                    0 <= k < self.networks@.len() && self.networks@[k].0@ == entry.0@;
                assert(self.networks@[k].0@ != entry.0@);
            }
            if old(self).wf() {
                assert forall|a: int, b: int|
                    0 <= a < b < self.networks@.push(entry).len() implies (self.networks@.push(
                    entry,
                )[a]).0@ != (self.networks@.push(entry)[b]).0@ by {
                    if b == self.networks@.len() {
                        assert(self.networks@[a].0@ != entry.0@);
                    }
                }
            }
        }
        self.networks.push(entry);
    }
}

} // verus!
