//! The wireless source: lists currently visible networks from a cache that a
//! background refresh fills, ranked by signal strength, and decides how a
//! selected network is connected to.

use vstd::prelude::*;

use crate::entry::Entry;
use crate::entry::EntryAction;
use crate::matcher::fuzzy_match;
use crate::matcher::fuzzy_score;

verus! {

/// One visible wireless network, as the network-management collaborator
/// reports it: name, signal strength (0-100), and its security.
pub struct WifiNetwork {
    pub ssid: String,
    pub strength: u8,
    pub secured: bool,
    pub is_psk: bool,
}

/// How a selected network is connected to: directly for open networks, with a
/// pre-shared key for WPA-PSK ones.
#[derive(Clone, Copy, PartialEq, Eq, Structural, Debug)]
pub enum WifiSecurityChoice {
    Open,
    WpaPsk,
}

/// The connection mode for a network: open networks connect directly,
/// PSK-secured ones need a key, and anything else is not connectable here.
pub fn connect_choice(secured: bool, psk_supported: bool) -> (r: Option<WifiSecurityChoice>)
    ensures
        !secured ==> r == Some(WifiSecurityChoice::Open),
        secured && psk_supported ==> r == Some(WifiSecurityChoice::WpaPsk),
        secured && !psk_supported ==> r is None,
{
    if !secured {
        Some(WifiSecurityChoice::Open)
    } else if psk_supported {
        Some(WifiSecurityChoice::WpaPsk)
    } else {
        None
    }
}

/// The entry shown for a network: named by its ssid, executing connects.
pub open spec fn is_wifi_entry(e: Entry, net: WifiNetwork) -> bool {
    &&& e.id@ == net.ssid@
    &&& e.text@ == net.ssid@
    &&& e.searchable@ == net.ssid@
    &&& e.description is None
    &&& e.icon is None
    &&& e.action matches EntryAction::ConnectWifi { ssid, secured, psk_supported } && ssid@
        == net.ssid@ && secured == net.secured && psk_supported == net.is_psk
}

/// The networks that match the query, each with its match score, in cache
/// order.
pub open spec fn spec_wifi_filtered(nets: Seq<WifiNetwork>, q: Seq<char>) -> Seq<(WifiNetwork, u32)>
    decreases nets.len(),
{
    if nets.len() == 0 {
        Seq::empty()
    } else {
        let rest = spec_wifi_filtered(nets.drop_last(), q);
        match fuzzy_score(q, nets.last().ssid@) {
            Some(s) => rest.push((nets.last(), s)),
            None => rest,
        }
    }
}

/// The wireless source. Its cache is pre-populated by a background refresh;
/// listing never blocks on a scan.
pub struct WifiFinder {
    networks: Vec<WifiNetwork>,
}

impl WifiFinder {
    /// The cached networks.
    pub closed spec fn spec_networks(&self) -> Seq<WifiNetwork> {
        self.networks@
    }

    /// A source with an empty cache, as at startup before the first refresh.
    pub fn new() -> (r: Self)
        ensures
            r.spec_networks() == Seq::<WifiNetwork>::empty(),
    {
        WifiFinder { networks: Vec::new() }
    }

    /// Replace the cache with the networks of a fresh background scan.
    pub fn set_networks(&mut self, nets: Vec<WifiNetwork>)
        ensures
            final(self).spec_networks() == nets@,
    {
        self.networks = nets;
    }

    /// The default contribution: every cached network, scored by its signal
    /// strength.
    pub fn default_entries(&self) -> (r: Option<Vec<(Entry, u32)>>)
        ensures
            r matches Some(list) && list@.len() == self.spec_networks().len() && (forall|i: int|
                0 <= i < list@.len() ==> is_wifi_entry(
                    #[trigger] list@[i].0,
                    self.spec_networks()[i],
                ) && list@[i].1 == self.spec_networks()[i].strength as u32),
    {
        let mut list: Vec<(Entry, u32)> = Vec::new();
        let mut i: usize = 0;
        while i < self.networks.len()
            invariant
                i <= self.networks@.len(),
                list@.len() == i,
                forall|j: int|
                    0 <= j < i ==> is_wifi_entry(#[trigger] list@[j].0, self.networks@[j])
                        && list@[j].1 == self.networks@[j].strength as u32,
            decreases self.networks@.len() - i,
        {
            let net = &self.networks[i];
            let score = net.strength as u32;
            list.push((wifi_entry(net), score));
            i += 1;
        }
        Some(list)
    }

    /// The networks whose name matches the query, scored by match quality.
    pub fn filtered_entries(&self, query: &str) -> (r: Option<Vec<(Entry, u32)>>)
        ensures
            r matches Some(list) && list@.len() == spec_wifi_filtered(
                self.spec_networks(),
                query@,
            ).len() && (forall|i: int|
                0 <= i < list@.len() ==> is_wifi_entry(
                    #[trigger] list@[i].0,
                    spec_wifi_filtered(self.spec_networks(), query@)[i].0,
                ) && list@[i].1 == spec_wifi_filtered(self.spec_networks(), query@)[i].1),
    {
        let ghost q = query@;
        let mut list: Vec<(Entry, u32)> = Vec::new();
        let mut i: usize = 0;
        while i < self.networks.len()
            invariant
                i <= self.networks@.len(),
                q == query@,
                list@.len() == spec_wifi_filtered(self.networks@.take(i as int), q).len(),
                forall|j: int|
                    0 <= j < list@.len() ==> is_wifi_entry(
                        #[trigger] list@[j].0,
                        spec_wifi_filtered(self.networks@.take(i as int), q)[j].0,
                    ) && list@[j].1 == spec_wifi_filtered(self.networks@.take(i as int), q)[j].1,
            decreases self.networks@.len() - i,
        {
            let ghost prefix = self.networks@.take(i as int);
            let net = &self.networks[i];
            assert(self.networks@.take(i + 1).drop_last() =~= prefix);
            assert(self.networks@.take(i + 1).last() == self.networks@[i as int]);
            match fuzzy_match(query, net.ssid.as_str()) {
                Some(score) => {
                    list.push((wifi_entry(net), score));
                },
                None => {},
            }
            i += 1;
        }
        assert(self.networks@.take(self.networks@.len() as int) =~= self.networks@);
        Some(list)
    }
}

/// Build the entry for a network.
fn wifi_entry(net: &WifiNetwork) -> (e: Entry)
    ensures
        is_wifi_entry(e, *net),
{
    Entry {
        id: net.ssid.clone(),
        text: net.ssid.clone(),
        description: None,
        icon: None,
        searchable: net.ssid.clone(),
        action: EntryAction::ConnectWifi {
            ssid: net.ssid.clone(),
            secured: net.secured,
            psk_supported: net.is_psk,
        },
    }
}

} // verus!
