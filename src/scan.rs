//! Replies to a scan request: one RPC result per network, first of each SSID
//! only, in the order scanned, then one empty result that closes the list.

use vstd::prelude::*;

use crate::improv_wifi::{encode_frame, FramePayload, ImprovWifiPacket, RPCResultStruct};
use crate::text::{decimal_text, int_text};

verus! {

/// One network as the radio's scan reports it.
pub struct ScannedNetwork {
    pub ssid: String,
    pub signal_strength: i8,
    pub auth_required: bool,
}

/// SSIDs of the networks, in order.
pub open spec fn ssids_of(networks: Seq<ScannedNetwork>) -> Seq<Seq<char>> {
    networks.map_values(|n: ScannedNetwork| n.ssid@)
}

/// Positions of the entries that are the first with their value, in order.
pub open spec fn first_occurrences(ssids: Seq<Seq<char>>) -> Seq<int>
    decreases ssids.len(),
{
    if ssids.len() == 0 {
        seq![]
    } else if ssids.drop_last().contains(ssids.last()) {
        first_occurrences(ssids.drop_last())
    } else {
        first_occurrences(ssids.drop_last()).push(ssids.len() - 1)
    }
}

proof fn lemma_first_occurrences_in_range(ssids: Seq<Seq<char>>)
    ensures
        forall|t: int|
            0 <= t < first_occurrences(ssids).len() ==> 0 <= #[trigger] first_occurrences(ssids)[t]
                < ssids.len(),
    decreases ssids.len(),
{
    if ssids.len() > 0 {
        let prev = first_occurrences(ssids.drop_last());
        lemma_first_occurrences_in_range(ssids.drop_last());
        assert forall|t: int|
            0 <= t < first_occurrences(ssids).len() implies 0 <= #[trigger] first_occurrences(
            ssids,
        )[t] < ssids.len() by {
            if t < prev.len() {
                assert(first_occurrences(ssids)[t] == prev[t]);
            }
        }
    }
}

proof fn lemma_first_occurrences_prefix(ssids: Seq<Seq<char>>)
    requires
        ssids.len() > 0,
    ensures
        forall|a: int|
            0 <= a < first_occurrences(ssids.drop_last()).len() ==> #[trigger] first_occurrences(
                ssids,
            )[a] == first_occurrences(ssids.drop_last())[a],
        !ssids.drop_last().contains(ssids.last()) ==> first_occurrences(ssids).len()
            == first_occurrences(ssids.drop_last()).len() + 1 && first_occurrences(ssids).last()
            == ssids.len() - 1,
        ssids.drop_last().contains(ssids.last()) ==> first_occurrences(ssids)
            == first_occurrences(ssids.drop_last()),
{
}

proof fn lemma_first_occurrences_increasing(ssids: Seq<Seq<char>>)
    ensures
        forall|a: int, b: int|
            0 <= a < b < first_occurrences(ssids).len() ==> #[trigger] first_occurrences(ssids)[a]
                < #[trigger] first_occurrences(ssids)[b],
    decreases ssids.len(),
{
    if ssids.len() > 0 {
        let prev = first_occurrences(ssids.drop_last());
        let k = first_occurrences(ssids);
        lemma_first_occurrences_increasing(ssids.drop_last());
        lemma_first_occurrences_in_range(ssids.drop_last());
        lemma_first_occurrences_prefix(ssids);
        assert forall|a: int, b: int| 0 <= a < b < k.len() implies #[trigger] k[a] < #[trigger] k[b] by {
            assert(k[a] == prev[a]);
            if b < prev.len() {
                assert(k[b] == prev[b]);
            }
        }
    }
}

proof fn lemma_first_occurrences_first(ssids: Seq<Seq<char>>)
    ensures
        forall|a: int, j: int|
            0 <= a < first_occurrences(ssids).len() && 0 <= j < first_occurrences(ssids)[a]
                ==> #[trigger] ssids[j] != ssids[#[trigger] first_occurrences(ssids)[a]],
    decreases ssids.len(),
{
    if ssids.len() > 0 {
        let init = ssids.drop_last();
        let prev = first_occurrences(init);
        let k = first_occurrences(ssids);
        lemma_first_occurrences_first(init);
        lemma_first_occurrences_in_range(init);
        lemma_first_occurrences_prefix(ssids);
        assert forall|a: int, j: int| 0 <= a < k.len() && 0 <= j < k[a] implies #[trigger] ssids[j]
            != ssids[#[trigger] k[a]] by {
            if a < prev.len() {
                assert(k[a] == prev[a]);
                assert(ssids[j] == init[j] && ssids[k[a]] == init[k[a]]);
            } else {
                assert(ssids[j] == init[j]);
            }
        }
    }
}

proof fn lemma_first_occurrences_cover(ssids: Seq<Seq<char>>)
    ensures
        forall|j: int|
            0 <= j < ssids.len() ==> exists|a: int|
                0 <= a < first_occurrences(ssids).len() && ssids[#[trigger] first_occurrences(
                    ssids,
                )[a]] == #[trigger] ssids[j],
    decreases ssids.len(),
{
    if ssids.len() > 0 {
        let init = ssids.drop_last();
        let prev = first_occurrences(init);
        let k = first_occurrences(ssids);
        lemma_first_occurrences_cover(init);
        lemma_first_occurrences_in_range(init);
        lemma_first_occurrences_prefix(ssids);
        assert forall|j: int| 0 <= j < ssids.len() implies exists|a: int|
            0 <= a < k.len() && ssids[#[trigger] k[a]] == #[trigger] ssids[j] by {
            let i = if j < init.len() {
                j
            } else if init.contains(ssids.last()) {
                choose|i: int| 0 <= i < init.len() && init[i] == ssids.last()
            } else {
                -1
            };
            if i >= 0 {
                assert(init[i] == ssids[j]);
                let a = choose|a: int| 0 <= a < prev.len() && init[#[trigger] prev[a]] == #[trigger] init[i];
                assert(k[a] == prev[a]);
                assert(ssids[k[a]] == init[prev[a]]);
            } else {
                assert(k[k.len() - 1] == ssids.len() - 1);
            }
        }
    }
}

/// Reporting keeps one entry per value: the kept positions increase, each
/// is the first position with its value, and every value scanned is kept
/// at some position.
pub proof fn lemma_first_occurrences_unique(ssids: Seq<Seq<char>>)
    ensures
        forall|a: int, b: int|
            0 <= a < b < first_occurrences(ssids).len() ==> #[trigger] first_occurrences(ssids)[a]
                < #[trigger] first_occurrences(ssids)[b],
        forall|a: int, j: int|
            0 <= a < first_occurrences(ssids).len() && 0 <= j < first_occurrences(ssids)[a]
                ==> #[trigger] ssids[j] != ssids[#[trigger] first_occurrences(ssids)[a]],
        forall|j: int|
            0 <= j < ssids.len() ==> exists|a: int|
                0 <= a < first_occurrences(ssids).len() && ssids[#[trigger] first_occurrences(
                    ssids,
                )[a]] == #[trigger] ssids[j],
{
    lemma_first_occurrences_in_range(ssids);
    lemma_first_occurrences_increasing(ssids);
    lemma_first_occurrences_first(ssids);
    lemma_first_occurrences_cover(ssids);
    let k = first_occurrences(ssids);
    assert forall|j: int| 0 <= j < ssids.len() implies exists|a: int|
        0 <= a < k.len() && ssids[#[trigger] k[a]] == #[trigger] ssids[j] by {
        assert(ssids[j] == ssids[j]);
    }
}

/// The reply that describes one network.
pub open spec fn network_reply(n: ScannedNetwork) -> FramePayload {
    FramePayload::Result(
        0x04,
        seq![n.ssid@, decimal_text(n.signal_strength as int), if n.auth_required {
            "YES"@
        } else {
            "NO"@
        }],
    )
}

/// The empty reply that closes the list.
pub open spec fn end_of_networks() -> FramePayload {
    FramePayload::Result(0x04, seq![])
}

/// The encoded frames that answer a scan: one per kept network, then the
/// closing one.
pub open spec fn scan_reply_frames(networks: Seq<ScannedNetwork>) -> Seq<Seq<u8>> {
    first_occurrences(ssids_of(networks)).map_values(|i: int| encode_frame(network_reply(networks[i])))
        .push(encode_frame(end_of_networks()))
}

/// The SSIDs met so far.
#[verifier::external_body]
pub struct SsidSet {
    set: hashbrown::HashSet<String>,
}

/// What an `SsidSet` holds.
pub uninterp spec fn ssid_set_contents(s: SsidSet) -> Set<Seq<char>>;

impl SsidSet {
    /// Relies on `hashbrown::HashSet::new`: the set starts empty.
    #[verifier::external_body]
    fn new() -> (r: Self)
        ensures
            ssid_set_contents(r) == Set::<Seq<char>>::empty(),
    {
        SsidSet { set: hashbrown::HashSet::new() }
    }

    /// Relies on `hashbrown::HashSet::insert`: `true` exactly when no equal
    /// string was there; the string is there afterwards.
    #[verifier::external_body]
    fn insert(&mut self, ssid: String) -> (r: bool)
        ensures
            r == !ssid_set_contents(*old(self)).contains(ssid@),
            ssid_set_contents(*final(self)) == ssid_set_contents(*old(self)).insert(ssid@),
    {
        self.set.insert(ssid)
    }
}

/// Positions of the networks to report: the first of each SSID, in the
/// order scanned.
pub fn unique_network_positions(networks: &[ScannedNetwork]) -> (r: Vec<usize>)
    ensures
        r@.map_values(|i: usize| i as int) == first_occurrences(ssids_of(networks@)),
{
    let mut seen = SsidSet::new();
    let mut kept: Vec<usize> = Vec::new();
    let mut i: usize = 0;
    while i < networks.len()
        invariant
            i <= networks@.len(),
            kept@.map_values(|i: usize| i as int) == first_occurrences(
                ssids_of(networks@.take(i as int)),
            ),
            ssid_set_contents(seen) == ssids_of(networks@.take(i as int)).to_set(),
        decreases networks@.len() - i,
    {
        let ghost prefix = ssids_of(networks@.take(i as int));
        let ghost next = ssids_of(networks@.take(i + 1));
        assert(next.drop_last() =~= prefix);
        assert(next.last() == networks@[i as int].ssid@);
        let fresh = seen.insert(networks[i].ssid.clone());
        proof {
            assert(prefix.to_set().contains(next.last()) <==> prefix.contains(next.last()));
            assert(next.to_set() =~= prefix.to_set().insert(next.last())) by {
                assert(next =~= prefix.push(next.last()));
                prefix.lemma_push_to_set_commute(next.last());
            }
        }
        if fresh {
            let ghost before = kept@.map_values(|i: usize| i as int);
            kept.push(i);
            assert(kept@.map_values(|i: usize| i as int) =~= before.push(i as int));
        }
        i = i + 1;
    }
    assert(networks@.take(i as int) =~= networks@);
    kept
}

/// The frames that answer a scan request, encoded, in the order to send.
pub fn scan_reply(networks: &[ScannedNetwork]) -> (r: Vec<Vec<u8>>)
    ensures
        r@.map_values(|f: Vec<u8>| f@) == scan_reply_frames(networks@),
{
    let kept = unique_network_positions(networks);
    let ghost order = first_occurrences(ssids_of(networks@));
    proof {
        lemma_first_occurrences_in_range(ssids_of(networks@));
        assert forall|t: int| 0 <= t < kept@.len() implies 0 <= #[trigger] kept@[t]
            < networks@.len() by {
            assert(kept@.map_values(|i: usize| i as int)[t] == kept@[t] as int);
        }
    }
    let mut frames: Vec<Vec<u8>> = Vec::new();
    let mut j: usize = 0;
    while j < kept.len()
        invariant
            j <= kept@.len(),
            kept@.map_values(|i: usize| i as int) == order,
            order == first_occurrences(ssids_of(networks@)),
            forall|t: int| 0 <= t < kept@.len() ==> 0 <= #[trigger] kept@[t] < networks@.len(),
            frames@.map_values(|f: Vec<u8>| f@) == order.take(j as int).map_values(
                |i: int| encode_frame(network_reply(networks@[i])),
            ),
        decreases kept@.len() - j,
    {
        let n = &networks[kept[j]];
        let rssi = int_text(n.signal_strength as i32);
        let packet = ImprovWifiPacket::new_rpc_result(
            RPCResultStruct::new_response_to_request_scanned_wifi_networks(
                n.ssid.as_str(),
                rssi.as_str(),
                n.auth_required,
            ),
        );
        let bytes: Vec<u8> = match packet.to_bytes() {
            Ok(b) => b,
            Err(_) => Vec::new(),
        };
        let ghost before = frames@;
        assert(order[j as int] == kept@[j as int] as int);
        assert(bytes@ == encode_frame(network_reply(networks@[order[j as int]])));
        frames.push(bytes);
        proof {
            let g = |i: int| encode_frame(network_reply(networks@[i]));
            let h = |f: Vec<u8>| f@;
            assert(order.take(j + 1) =~= order.take(j as int).push(order[j as int]));
            assert(order.take(j + 1).map_values(g) =~= order.take(j as int).map_values(g).push(
                g(order[j as int]),
            ));
            assert(frames@ =~= before.push(bytes));
            assert(frames@.map_values(h) =~= before.map_values(h).push(h(bytes)));
        }
        j = j + 1;
    }
    let end = ImprovWifiPacket::new_rpc_result(
        RPCResultStruct::new_response_to_request_scanned_wifi_networks_end(),
    );
    let end_bytes = match end.to_bytes() {
        Ok(b) => b,
        Err(_) => Vec::new(),
    };
    frames.push(end_bytes);
    assert(order.take(j as int) =~= order);
    assert(frames@.map_values(|f: Vec<u8>| f@) =~= scan_reply_frames(networks@));
    frames
}

} // verus!
