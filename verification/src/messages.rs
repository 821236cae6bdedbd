//! The messages that nodes exchange, and what they ask for.

use vstd::prelude::*;
use vstd::std_specs::cmp::PartialEqSpec;

use crate::address::SocketAddrV4;
use crate::id::{bytes_eq, Id};

verus! {

/// The version that this node announces: "RS" version 06.
pub const VERSION: [u8; 4] = [82, 83, 0, 6];

/// The last version that does not know signed peers: "RS" version 05.
pub const LEGACY_VERSION: [u8; 4] = [82, 83, 0, 5];

/// For each client that knows signed peers, the first version that does.
pub const VERSIONS_SUPPORTING_SIGNED_PEERS: [[u8; 4]; 1] = [VERSION];

/// A peer that announced itself on an info hash with a signature.
#[derive(Clone, Copy, Debug)]
pub struct SignedAnnounce {
    pub key: [u8; 32],
    pub timestamp: u64,
    pub signature: [u8; 64],
}

impl SignedAnnounce {
    /// The public key of the peer.
    pub fn key(&self) -> (key: &[u8; 32])
        ensures
            *key == self.key,
    {
        &self.key
    }
}

impl PartialEq for SignedAnnounce {
    fn eq(&self, other: &SignedAnnounce) -> (same: bool) {
        self.timestamp == other.timestamp && bytes_eq(&self.key, &other.key) && bytes_eq(
            &self.signature,
            &other.signature,
        )
    }
}

impl Eq for SignedAnnounce {

}

impl vstd::std_specs::cmp::PartialEqSpecImpl for SignedAnnounce {
    open spec fn obeys_eq_spec() -> bool {
        true
    }

    open spec fn eq_spec(&self, other: &SignedAnnounce) -> bool {
        *self == *other
    }
}

/// The bytes of an optional byte string.
pub open spec fn optional_bytes(bytes: Option<Vec<u8>>) -> Option<Seq<u8>> {
    match bytes {
        Some(b) => Some(b@),
        None => None,
    }
}

/// A copy of an optional byte string.
fn copy_optional_bytes(bytes: &Option<Vec<u8>>) -> (copy: Option<Vec<u8>>)
    ensures
        optional_bytes(copy) == optional_bytes(*bytes),
        match (*bytes, copy) {
            (Some(b), Some(c)) => b@ == c@,
            (None, None) => true,
            _ => false,
        },
{
    match bytes {
        Some(b) => Some(b.clone()),
        None => None,
    }
}

/// Asks for the nodes closest to a target.
#[derive(Clone, Copy, Debug, PartialEq, Eq)]
pub struct FindNodeRequestArguments {
    pub target: Id,
}

/// Asks for the peers of an info hash.
#[derive(Clone, Copy, Debug, PartialEq, Eq)]
pub struct GetPeersRequestArguments {
    pub info_hash: Id,
}

/// Asks for a stored value.
#[derive(Debug, PartialEq, Eq)]
pub struct GetValueRequestArguments {
    pub target: Id,
    pub seq: Option<i64>,
    pub salt: Option<Vec<u8>>,
}

/// What a request for a stored value says.
#[verifier::ext_equal]
pub struct GetValueRequest {
    pub target: Id,
    pub seq: Option<i64>,
    pub salt: Option<Seq<u8>>,
}

impl View for GetValueRequestArguments {
    type V = GetValueRequest;

    open spec fn view(&self) -> GetValueRequest {
        GetValueRequest {
            target: self.target,
            seq: self.seq,
            salt: optional_bytes(self.salt),
        }
    }
}

impl Clone for GetValueRequestArguments {
    fn clone(&self) -> (copy: Self)
        ensures
            copy@ == self@,
            copy.target == self.target,
            copy.seq == self.seq,
            match (self.salt, copy.salt) {
                (Some(a), Some(b)) => a@ == b@,
                (None, None) => true,
                _ => false,
            },
    {
        GetValueRequestArguments {
            target: self.target,
            seq: self.seq,
            salt: copy_optional_bytes(&self.salt),
        }
    }
}

/// Announces a peer on an info hash.
#[derive(Clone, Copy, Debug, PartialEq, Eq)]
pub struct AnnouncePeerRequestArguments {
    pub info_hash: Id,
    pub port: u16,
    pub implied_port: Option<bool>,
}

/// Announces a signed peer on an info hash.
#[derive(Clone, Copy, Debug, PartialEq, Eq)]
pub struct AnnounceSignedPeerRequestArguments {
    pub info_hash: Id,
    pub k: [u8; 32],
    pub t: u64,
    pub sig: [u8; 64],
}

/// Stores an immutable value.
#[derive(Debug, PartialEq, Eq)]
pub struct PutImmutableRequestArguments {
    pub target: Id,
    pub v: Vec<u8>,
}

/// What a request to store an immutable value says.
#[verifier::ext_equal]
pub struct PutImmutableRequest {
    pub target: Id,
    pub v: Seq<u8>,
}

impl View for PutImmutableRequestArguments {
    type V = PutImmutableRequest;

    open spec fn view(&self) -> PutImmutableRequest {
        PutImmutableRequest { target: self.target, v: self.v@ }
    }
}

impl Clone for PutImmutableRequestArguments {
    fn clone(&self) -> (copy: Self)
        ensures
            copy@ == self@,
            copy.target == self.target,
            copy.v@ == self.v@,
    {
        PutImmutableRequestArguments { target: self.target, v: self.v.clone() }
    }
}

/// Stores a mutable item.
#[derive(Debug, PartialEq, Eq)]
pub struct PutMutableRequestArguments {
    pub target: Id,
    pub v: Vec<u8>,
    pub k: [u8; 32],
    pub seq: i64,
    pub sig: [u8; 64],
    pub salt: Option<Vec<u8>>,
    pub cas: Option<i64>,
}

/// What a request to store a mutable item says.
#[verifier::ext_equal]
pub struct PutMutableRequest {
    pub target: Id,
    pub v: Seq<u8>,
    pub k: [u8; 32],
    pub seq: i64,
    pub sig: [u8; 64],
    pub salt: Option<Seq<u8>>,
    pub cas: Option<i64>,
}

impl View for PutMutableRequestArguments {
    type V = PutMutableRequest;

    open spec fn view(&self) -> PutMutableRequest {
        PutMutableRequest {
            target: self.target,
            v: self.v@,
            k: self.k,
            seq: self.seq,
            sig: self.sig,
            salt: optional_bytes(self.salt),
            cas: self.cas,
        }
    }
}

impl Clone for PutMutableRequestArguments {
    fn clone(&self) -> (copy: Self)
        ensures
            copy@ == self@,
            copy.target == self.target,
            copy.v@ == self.v@,
            copy.k == self.k,
            copy.seq == self.seq,
            copy.sig == self.sig,
            match (self.salt, copy.salt) {
                (Some(a), Some(b)) => a@ == b@,
                (None, None) => true,
                _ => false,
            },
            copy.cas == self.cas,
    {
        PutMutableRequestArguments {
            target: self.target,
            v: self.v.clone(),
            k: self.k,
            seq: self.seq,
            sig: self.sig,
            salt: copy_optional_bytes(&self.salt),
            cas: self.cas,
        }
    }
}

/// What a put request stores.
#[derive(Debug, PartialEq, Eq)]
pub enum PutRequestSpecific {
    AnnouncePeer(AnnouncePeerRequestArguments),
    AnnounceSignedPeer(AnnounceSignedPeerRequestArguments),
    PutImmutable(PutImmutableRequestArguments),
    PutMutable(PutMutableRequestArguments),
}

/// What a put request says of what it stores.
#[verifier::ext_equal]
pub enum StoredByPut {
    AnnouncePeer(AnnouncePeerRequestArguments),
    AnnounceSignedPeer(AnnounceSignedPeerRequestArguments),
    PutImmutable(PutImmutableRequest),
    PutMutable(PutMutableRequest),
}

impl View for PutRequestSpecific {
    type V = StoredByPut;

    open spec fn view(&self) -> StoredByPut {
        match self {
            PutRequestSpecific::AnnouncePeer(a) => StoredByPut::AnnouncePeer(*a),
            PutRequestSpecific::AnnounceSignedPeer(a) => StoredByPut::AnnounceSignedPeer(*a),
            PutRequestSpecific::PutImmutable(a) => StoredByPut::PutImmutable(a@),
            PutRequestSpecific::PutMutable(a) => StoredByPut::PutMutable(a@),
        }
    }
}

impl Clone for PutRequestSpecific {
    fn clone(&self) -> (copy: Self)
        ensures
            copy@ == self@,
            match (*self, copy) {
                (PutRequestSpecific::AnnouncePeer(a), PutRequestSpecific::AnnouncePeer(b)) => a
                    == b,
                (
                    PutRequestSpecific::AnnounceSignedPeer(a),
                    PutRequestSpecific::AnnounceSignedPeer(b),
                ) => a == b,
                (PutRequestSpecific::PutImmutable(a), PutRequestSpecific::PutImmutable(b)) => {
                    a.target == b.target && a.v@ == b.v@
                },
                (PutRequestSpecific::PutMutable(a), PutRequestSpecific::PutMutable(b)) => {
                    &&& a.target == b.target
                    &&& a.v@ == b.v@
                    &&& a.k == b.k
                    &&& a.seq == b.seq
                    &&& a.sig == b.sig
                    &&& a.cas == b.cas
                },
                _ => false,
            },
    {
        match self {
            PutRequestSpecific::AnnouncePeer(a) => PutRequestSpecific::AnnouncePeer(*a),
            PutRequestSpecific::AnnounceSignedPeer(a) => PutRequestSpecific::AnnounceSignedPeer(*a),
            PutRequestSpecific::PutImmutable(a) => PutRequestSpecific::PutImmutable(a.clone()),
            PutRequestSpecific::PutMutable(a) => PutRequestSpecific::PutMutable(a.clone()),
        }
    }
}

/// A put request with the token that the storing node handed out.
#[derive(Debug, PartialEq, Eq)]
pub struct PutRequest {
    pub token: Vec<u8>,
    pub put_request_type: PutRequestSpecific,
}

/// What a put request says.
#[verifier::ext_equal]
pub struct PutWithToken {
    pub token: Seq<u8>,
    pub stores: StoredByPut,
}

impl View for PutRequest {
    type V = PutWithToken;

    open spec fn view(&self) -> PutWithToken {
        PutWithToken { token: self.token@, stores: self.put_request_type@ }
    }
}

impl Clone for PutRequest {
    fn clone(&self) -> (copy: Self)
        ensures
            copy@ == self@,
            copy.token@ == self.token@,
            copy.put_request_type@ == self.put_request_type@,
    {
        PutRequest {
            token: self.token.clone(),
            put_request_type: self.put_request_type.clone(),
        }
    }
}

/// What a request asks for.
#[derive(Debug, PartialEq, Eq)]
pub enum RequestTypeSpecific {
    Ping,
    FindNode(FindNodeRequestArguments),
    GetPeers(GetPeersRequestArguments),
    GetSignedPeers(GetPeersRequestArguments),
    GetValue(GetValueRequestArguments),
    Put(PutRequest),
}

/// The kinds of requests that queries are told apart by.
#[derive(Clone, Copy, Debug, PartialEq, Eq, Structural)]
pub enum RequestKind {
    FindNode,
    GetSignedPeers,
    Other,
}

impl RequestTypeSpecific {
    /// The kind of the request.
    pub open spec fn kind(self) -> RequestKind {
        self@.kind()
    }
}

/// What a request says of what it asks for.
#[verifier::ext_equal]
pub enum AskedFor {
    Ping,
    FindNode(FindNodeRequestArguments),
    GetPeers(GetPeersRequestArguments),
    GetSignedPeers(GetPeersRequestArguments),
    GetValue(GetValueRequest),
    Put(PutWithToken),
}

impl AskedFor {
    /// The kind of the request.
    pub open spec fn kind(self) -> RequestKind {
        match self {
            AskedFor::FindNode(_) => RequestKind::FindNode,
            AskedFor::GetSignedPeers(_) => RequestKind::GetSignedPeers,
            _ => RequestKind::Other,
        }
    }
}

impl View for RequestTypeSpecific {
    type V = AskedFor;

    open spec fn view(&self) -> AskedFor {
        match self {
            RequestTypeSpecific::Ping => AskedFor::Ping,
            RequestTypeSpecific::FindNode(a) => AskedFor::FindNode(*a),
            RequestTypeSpecific::GetPeers(a) => AskedFor::GetPeers(*a),
            RequestTypeSpecific::GetSignedPeers(a) => AskedFor::GetSignedPeers(*a),
            RequestTypeSpecific::GetValue(a) => AskedFor::GetValue(a@),
            RequestTypeSpecific::Put(a) => AskedFor::Put(a@),
        }
    }
}

impl Clone for RequestTypeSpecific {
    fn clone(&self) -> (copy: Self)
        ensures
            copy@ == self@,
            match (*self, copy) {
                (RequestTypeSpecific::Ping, RequestTypeSpecific::Ping) => true,
                (RequestTypeSpecific::FindNode(a), RequestTypeSpecific::FindNode(b)) => a == b,
                (RequestTypeSpecific::GetPeers(a), RequestTypeSpecific::GetPeers(b)) => a == b,
                (
                    RequestTypeSpecific::GetSignedPeers(a),
                    RequestTypeSpecific::GetSignedPeers(b),
                ) => a == b,
                (RequestTypeSpecific::GetValue(a), RequestTypeSpecific::GetValue(b)) => a.target
                    == b.target && a.seq == b.seq,
                (RequestTypeSpecific::Put(a), RequestTypeSpecific::Put(b)) => a.token@ == b.token@,
                _ => false,
            },
    {
        match self {
            RequestTypeSpecific::Ping => RequestTypeSpecific::Ping,
            RequestTypeSpecific::FindNode(arguments) => RequestTypeSpecific::FindNode(*arguments),
            RequestTypeSpecific::GetPeers(arguments) => RequestTypeSpecific::GetPeers(*arguments),
            RequestTypeSpecific::GetSignedPeers(arguments) => RequestTypeSpecific::GetSignedPeers(
                *arguments,
            ),
            RequestTypeSpecific::GetValue(arguments) => RequestTypeSpecific::GetValue(
                arguments.clone(),
            ),
            RequestTypeSpecific::Put(request) => RequestTypeSpecific::Put(request.clone()),
        }
    }
}

/// A request and who sends it.
#[derive(Clone, Debug, PartialEq, Eq)]
pub struct RequestSpecific {
    pub requester_id: Id,
    pub request_type: RequestTypeSpecific,
}

/// The answer to a ping.
#[derive(Clone, Copy, Debug, PartialEq, Eq)]
pub struct PingResponseArguments {
    pub responder_id: Id,
}

/// The answer to a request for the nodes closest to a target.
#[derive(Clone, Debug, PartialEq, Eq)]
pub struct FindNodeResponseArguments {
    pub responder_id: Id,
    pub nodes: Vec<(Id, SocketAddrV4)>,
}

/// The answer to a request for something stored, with the token for a later put.
#[derive(Clone, Debug, PartialEq, Eq)]
pub struct GetResponseArguments {
    pub responder_id: Id,
    pub token: Vec<u8>,
    pub nodes: Option<Vec<(Id, SocketAddrV4)>>,
    pub found: Option<Response>,
}

/// What a response carries.
#[derive(Clone, Debug, PartialEq, Eq)]
pub enum ResponseSpecific {
    Ping(PingResponseArguments),
    FindNode(FindNodeResponseArguments),
    Get(GetResponseArguments),
}

/// What an error message carries.
#[derive(Clone, Debug, PartialEq, Eq)]
pub struct ErrorSpecific {
    pub code: i32,
    pub description: String,
}

/// The three kinds of messages.
#[derive(Clone, Debug, PartialEq, Eq)]
pub enum MessageType {
    Request(RequestSpecific),
    Response(ResponseSpecific),
    Error(ErrorSpecific),
}

/// A message as it goes over the wire.
#[derive(Clone, Debug, PartialEq, Eq)]
pub struct Message {
    pub transaction_id: u32,
    pub version: Option<[u8; 4]>,
    pub requester_ip: Option<SocketAddrV4>,
    pub message_type: MessageType,
    pub read_only: bool,
}

/// A mutable item with its signature.
#[derive(Clone, Debug, PartialEq, Eq)]
pub struct MutableItem {
    pub target: Id,
    pub key: [u8; 32],
    pub seq: i64,
    pub value: Vec<u8>,
    pub signature: [u8; 64],
    pub salt: Option<Vec<u8>>,
}

/// What a lookup found.
#[derive(Clone, Debug, PartialEq, Eq)]
pub enum Response {
    Peers(Vec<SocketAddrV4>),
    SignedPeers(Vec<SignedAnnounce>),
    Immutable(Vec<u8>),
    Mutable(MutableItem),
}

impl MutableItem {
    /// The item is the one that `request` stores.
    pub open spec fn stored_by(self, request: PutMutableRequestArguments) -> bool {
        &&& self.target == request.target
        &&& self.key == request.k
        &&& self.seq == request.seq
        &&& self.value@ == request.v@
        &&& self.signature == request.sig
        &&& optional_bytes(self.salt) == optional_bytes(request.salt)
    }

    /// The item that a put request stores.
    pub fn from_put_request(request: &PutMutableRequestArguments) -> (item: Self)
        ensures
            item.stored_by(*request),
            item.target == request.target,
            item.key == request.k,
            item.seq == request.seq,
            item.value@ == request.v@,
            item.signature == request.sig,
            match (request.salt, item.salt) {
                (Some(a), Some(b)) => a@ == b@,
                (None, None) => true,
                _ => false,
            },
    {
        MutableItem {
            target: request.target,
            key: request.k,
            seq: request.seq,
            value: request.v.clone(),
            signature: request.sig,
            salt: copy_optional_bytes(&request.salt),
        }
    }
}

/// The request concerns signed peers.
pub open spec fn concerns_signed_peers(request_type: RequestTypeSpecific) -> bool {
    match request_type {
        RequestTypeSpecific::GetSignedPeers(_) => true,
        RequestTypeSpecific::Put(put) => put.put_request_type is AnnounceSignedPeer,
        _ => false,
    }
}

/// Whether a node of the given version answers the request: one of the legacy version knows no
/// signed peers.
pub fn supports_request(version: &[u8; 4], request_specific: &RequestSpecific) -> (supported: bool)
    ensures
        supported == (concerns_signed_peers(request_specific.request_type) ==> *version
            != LEGACY_VERSION),
        match request_specific.request_type {
            RequestTypeSpecific::GetSignedPeers(_) => supported == (*version != LEGACY_VERSION),
            RequestTypeSpecific::Put(put) => match put.put_request_type {
                PutRequestSpecific::AnnounceSignedPeer(_) => supported == (*version
                    != LEGACY_VERSION),
                _ => supported,
            },
            _ => supported,
        },
{
    match &request_specific.request_type {
        RequestTypeSpecific::GetSignedPeers(_) => !bytes_eq(version, &LEGACY_VERSION),
        RequestTypeSpecific::Put(put) => match &put.put_request_type {
            PutRequestSpecific::AnnounceSignedPeer(_) => !bytes_eq(version, &LEGACY_VERSION),
            _ => true,
        },
        _ => true,
    }
}

/// `version` is of the same client as `first` and not older: the client is named by the first two
/// bytes, its release by the last two.
pub open spec fn same_client_not_older(version: [u8; 4], first: [u8; 4]) -> bool {
    &&& version[0] == first[0]
    &&& version[1] == first[1]
    &&& version[2] as int * 256 + version[3] as int >= first[2] as int * 256 + first[3] as int
}

/// A node that announces `version` knows signed peers.
pub open spec fn knows_signed_peers(version: [u8; 4]) -> bool {
    exists|i: int|
        0 <= i < VERSIONS_SUPPORTING_SIGNED_PEERS@.len() && same_client_not_older(
            version,
            #[trigger] VERSIONS_SUPPORTING_SIGNED_PEERS@[i],
        )
}

/// Whether a node that announces `version` knows signed peers; one that announces none does not.
pub fn supports_signed_peers(version: Option<[u8; 4]>) -> (supported: bool)
    ensures
        supported == (version matches Some(v) && knows_signed_peers(v)),
        supported == (version matches Some(v) && v[0] == VERSION[0] && v[1] == VERSION[1] && (v[2]
            > VERSION[2] || (v[2] == VERSION[2] && v[3] >= VERSION[3]))),
{
    match version {
        Some(v) => {
            let versions = VERSIONS_SUPPORTING_SIGNED_PEERS;
            let mut i: usize = 0;
            while i < versions.len()
                invariant
                    version == Some(v),
                    i <= versions@.len(),
                    versions == VERSIONS_SUPPORTING_SIGNED_PEERS,
                    forall|j: int|
                        0 <= j < i ==> !same_client_not_older(v, #[trigger] versions@[j]),
                decreases versions@.len() - i,
            {
                let first = versions[i];
                if v[0] == first[0] && v[1] == first[1] && (v[2] > first[2] || (
                v[2] == first[2] && v[3] >= first[3])) {
                    assert(same_client_not_older(v, VERSIONS_SUPPORTING_SIGNED_PEERS@[i as int]));
                    return true;
                }
                i = i + 1;
            }
            false
        },
        None => false,
    }
}

/// Two announcements are equal exactly if the key, the timestamp and the signature are.
pub proof fn law_announcements_are_equal_by_all_fields(a: SignedAnnounce, b: SignedAnnounce)
    ensures
        a.eq_spec(&b) <==> a.timestamp == b.timestamp && (forall|i: int|
            0 <= i < 32 ==> a.key[i] == b.key[i]) && (forall|i: int|
            0 <= i < 64 ==> a.signature[i] == b.signature[i]),
{
    if forall|i: int| 0 <= i < 32 ==> a.key[i] == b.key[i] {
        assert(a.key =~= b.key);
    }
    if forall|i: int| 0 <= i < 64 ==> a.signature[i] == b.signature[i] {
        assert(a.signature =~= b.signature);
    }
}

/// What requests for a value say is the same exactly if the targets, the sequence numbers and the
/// bytes of the salts are.
pub proof fn law_value_requests_say_target_seq_and_salt(
    a: GetValueRequestArguments,
    b: GetValueRequestArguments,
)
    ensures
        a@ == b@ <==> a.target == b.target && a.seq == b.seq && match (a.salt, b.salt) {
            (Some(x), Some(y)) => x@ == y@,
            (None, None) => true,
            _ => false,
        },
{
}

/// What puts of mutable items say is the same exactly if all their fields are.
pub proof fn law_mutable_puts_say_all_their_fields(
    a: PutMutableRequestArguments,
    b: PutMutableRequestArguments,
)
    ensures
        a@ == b@ <==> a.target == b.target && a.v@ == b.v@ && a.k == b.k && a.seq == b.seq && a.sig
            == b.sig && a.cas == b.cas && match (a.salt, b.salt) {
            (Some(x), Some(y)) => x@ == y@,
            (None, None) => true,
            _ => false,
        },
{
}

/// What two requests say is the same only if they ask for the same kind of thing, and for the same
/// thing of that kind.
pub proof fn law_requests_say_what_they_ask_for(a: RequestTypeSpecific, b: RequestTypeSpecific)
    ensures
        a@ == b@ <==> match (a, b) {
            (RequestTypeSpecific::Ping, RequestTypeSpecific::Ping) => true,
            (RequestTypeSpecific::FindNode(x), RequestTypeSpecific::FindNode(y)) => x == y,
            (RequestTypeSpecific::GetPeers(x), RequestTypeSpecific::GetPeers(y)) => x == y,
            (
                RequestTypeSpecific::GetSignedPeers(x),
                RequestTypeSpecific::GetSignedPeers(y),
            ) => x == y,
            (RequestTypeSpecific::GetValue(x), RequestTypeSpecific::GetValue(y)) => x@ == y@,
            (RequestTypeSpecific::Put(x), RequestTypeSpecific::Put(y)) => x.token@ == y.token@
                && match (x.put_request_type, y.put_request_type) {
                (PutRequestSpecific::AnnouncePeer(p), PutRequestSpecific::AnnouncePeer(q)) => p
                    == q,
                (
                    PutRequestSpecific::AnnounceSignedPeer(p),
                    PutRequestSpecific::AnnounceSignedPeer(q),
                ) => p == q,
                (PutRequestSpecific::PutImmutable(p), PutRequestSpecific::PutImmutable(q)) => {
                    p.target == q.target && p.v@ == q.v@
                },
                (PutRequestSpecific::PutMutable(p), PutRequestSpecific::PutMutable(q)) => p@ == q@,
                _ => false,
            },
            _ => false,
        },
{
}

/// Only lookups of nodes and of signed peers are told apart from the others.
pub proof fn law_kinds_tell_nodes_and_signed_peers_apart(request: RequestTypeSpecific)
    ensures
        request.kind() == RequestKind::FindNode <==> request is FindNode,
        request.kind() == RequestKind::GetSignedPeers <==> request is GetSignedPeers,
{
}

/// A node that knows signed peers goes on knowing them in every later release of the same client,
/// and no release of another client is taken to know them.
pub proof fn law_later_releases_know_signed_peers_too(earlier: [u8; 4], later: [u8; 4])
    ensures
        knows_signed_peers(VERSION),
        !knows_signed_peers(LEGACY_VERSION),
        knows_signed_peers(earlier) && later[0] == earlier[0] && later[1] == earlier[1] && (later[2]
            > earlier[2] || (later[2] == earlier[2] && later[3] >= earlier[3]))
            ==> knows_signed_peers(later),
        knows_signed_peers(later) ==> later[0] == VERSION[0] && later[1] == VERSION[1],
{
    assert(VERSIONS_SUPPORTING_SIGNED_PEERS@[0] == VERSION);
    assert(same_client_not_older(VERSION, VERSIONS_SUPPORTING_SIGNED_PEERS@[0]));
    if knows_signed_peers(earlier) && later[0] == earlier[0] && later[1] == earlier[1] && (later[2]
        > earlier[2] || (later[2] == earlier[2] && later[3] >= earlier[3])) {
        assert(same_client_not_older(later, VERSIONS_SUPPORTING_SIGNED_PEERS@[0]));
    }
}

} // verus!
