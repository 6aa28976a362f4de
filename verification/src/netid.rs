use sha2::Digest;
use vstd::prelude::*;
use vstd::utf8::encode_utf8;

verus! {

/// The SHA-256 digest of a byte sequence, as the hashing crate computes it.
pub uninterp spec fn sha256_of(data: Seq<u8>) -> Seq<u8>;

/// Relies on sha2::Sha256 through its Digest interface: the digest depends on
/// the input bytes alone and is 32 bytes long.
#[verifier::external_body]
fn sha256(data: &[u8]) -> (r: Vec<u8>)
    ensures
        r@ == sha256_of(data@),
        r@.len() == 32,
{
    let mut hasher = sha2::Sha256::new();
    hasher.update(data);
    hasher.finalize().to_vec()
}

/// The address segments assigned to a device: the locally-assigned prefix,
/// then the first sixty-four bits of the digest as the interface identifier.
pub open spec fn ipv6_segments_of(digest: Seq<u8>) -> Seq<u16>
    recommends
        digest.len() >= 8,
{
    seq![
        0xfd00u16,
        0u16,
        0u16,
        0u16,
        (digest[0] * 256 + digest[1]) as u16,
        (digest[2] * 256 + digest[3]) as u16,
        (digest[4] * 256 + digest[5]) as u16,
        (digest[6] * 256 + digest[7]) as u16,
    ]
}

/// The eight address segments of the virtual-network address derived from a
/// device identity: the identity is hashed, and the hash's first bytes fill
/// the interface half of a locally-assigned address.
pub fn device_ipv6_segments(device_id: &String) -> (segments: Vec<u16>)
    ensures
        segments@ == ipv6_segments_of(sha256_of(encode_utf8(device_id@))),
        segments@.len() == 8,
{
    let digest = sha256(device_id.as_str().as_bytes());
    let mut segments: Vec<u16> = Vec::new();
    segments.push(0xfd00);
    segments.push(0);
    segments.push(0);
    segments.push(0);
    segments.push((digest[0] as u16) * 256 + (digest[1] as u16));
    segments.push((digest[2] as u16) * 256 + (digest[3] as u16));
    segments.push((digest[4] as u16) * 256 + (digest[5] as u16));
    segments.push((digest[6] as u16) * 256 + (digest[7] as u16));
    proof {
        assert(segments@ =~= ipv6_segments_of(sha256_of(encode_utf8(device_id@))));
    }
    segments
}

/// What the registration path reads of one virtual-network peer: the first
/// address the peer is allowed, and its public key.
pub struct PeerInfo {
    pub first_allowed_ip: String,
    pub public_key: String,
}

/// True when peer `i` is the last whose first allowed address is `ip`.
pub open spec fn is_last_peer_match(peers: Seq<PeerInfo>, ip: Seq<char>, i: int) -> bool {
    &&& 0 <= i < peers.len()
    &&& peers[i].first_allowed_ip@ == ip
    &&& forall|j: int| #![trigger peers[j]] i < j < peers.len() ==> peers[j].first_allowed_ip@
        != ip
}

/// True when some peer's first allowed address is `ip`.
pub open spec fn has_peer_match(peers: Seq<PeerInfo>, ip: Seq<char>) -> bool {
    exists|i: int| #![trigger peers[i]] 0 <= i < peers.len() && peers[i].first_allowed_ip@ == ip
}

/// The public key of the registered peer that already holds the device's
/// address, so that the stale peer can be replaced: the last matching peer
/// counts, and an empty address matches nothing.
pub fn find_matching_peer(peers: &Vec<PeerInfo>, ip: &String) -> (r: Option<String>)
    ensures
        ip@.len() == 0 ==> r is None,
        ip@.len() > 0 ==> match r {
            Some(k) => exists|i: int|
                #![trigger peers@[i]]
                is_last_peer_match(peers@, ip@, i) && k@ == peers@[i].public_key@,
            None => !has_peer_match(peers@, ip@),
        },
{
    if ip.as_str().is_empty() {
        return None;
    }
    let n = peers.len();
    let mut best: Option<usize> = None;
    let mut i: usize = 0;
    while i < n
        invariant
            n == peers@.len(),
            0 <= i <= n,
            match best {
                Some(b) => b < i && peers@[b as int].first_allowed_ip@ == ip@ && forall|j: int|
                    #![trigger peers@[j]]
                    b < j < i ==> peers@[j].first_allowed_ip@ != ip@,
                None => forall|j: int| #![trigger peers@[j]] 0 <= j < i
                    ==> peers@[j].first_allowed_ip@ != ip@,
            },
        decreases n - i,
    {
        if peers[i].first_allowed_ip == *ip {
            best = Some(i);
        }
        i += 1;
    }
    match best {
        Some(b) => {
            proof {
                assert(is_last_peer_match(peers@, ip@, b as int));
            }
            Some(peers[b].public_key.clone())
        },
        None => None,
    }
}

} // verus!
