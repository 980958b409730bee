//! Replication layer of the network protocol: the replication packet and
//! the packet types of client-server synchronization.
use crate::bits::{
    lemma_bits_bytes_padded, pad_len, zero_bits,
    bits_of_bytes, bits_of_uint, lemma_bits_of_uint_len, lemma_two_pow_values, lemma_uint_roundtrip,
    spec_read_uint, BitReader, BitWriter, DecodeError, Decoded,
};
use crate::nullable::Nullable;
use crate::packet::{
    frame_stream, lemma_frame_layout, lemma_frame_roundtrip, spec_checksum_valid, spec_decode_frame, written_frame, FrameBody,
    PacketFrame, PacketFrameView, MAGIC_NUMBER,
};
use crate::math::Vector3DBits;
use crate::rpc::{lemma_rpc_decode_encode, spec_decode_rpc, spec_encode_rpc, RawRpcPacket, RawRpcPacketView};
use crate::state_groups::{spec_encode_state_groups, spec_state_groups, StateGroupEntryView, StateGroups};
use crate::wire::{
    bytes_at, decoded_as, read_bytes, decode_seq, encode_seq, lemma_decode_seq_encoded, lemma_split_at, spec_decode_seq,
    spec_encode_seq, views, BitAligned, BitBool, BitCodec, VarBytes, VarString, Varint,
};
use vstd::prelude::*;

verus! {

/// Packet identifier byte marking the packet type.
#[derive(Clone, Copy, Debug, PartialEq, Eq, Hash, Structural)]
pub enum PacketId {
    Unknown,
    Flush,
    Rpc,
    ReplicationCreate,
    ReplicationDestroy,
    ServerData,
    ServerStateSync,
    ClientReady,
    ClientUpdate,
    ReplicationReady,
    ReplicationStreamBegin,
    JoinResult,
    WorldData,
    ClientConnected,
    ClientAcks,
    ReplicationIslandDone,
    ReplicationRequest,
    World,
    PlayerData,
}

impl PacketId {
    /// The identifier written on the wire.
    pub open spec fn spec_id(self) -> nat {
        match self {
            PacketId::Unknown => 0,
            PacketId::Flush => 2,
            PacketId::Rpc => 3,
            PacketId::ReplicationCreate => 4,
            PacketId::ReplicationDestroy => 5,
            PacketId::ServerData => 6,
            PacketId::ServerStateSync => 7,
            PacketId::ClientReady => 8,
            PacketId::ClientUpdate => 9,
            PacketId::ReplicationReady => 10,
            PacketId::ReplicationStreamBegin => 11,
            PacketId::JoinResult => 12,
            PacketId::WorldData => 13,
            PacketId::ClientConnected => 14,
            PacketId::ClientAcks => 17,
            PacketId::ReplicationIslandDone => 18,
            PacketId::ReplicationRequest => 19,
            PacketId::World => 20,
            PacketId::PlayerData => 21,
        }
    }

    /// The variant an identifier names.
    pub open spec fn spec_from_id(id: nat) -> Option<PacketId> {
        if id == 0 {
            Some(PacketId::Unknown)
        } else if id == 2 {
            Some(PacketId::Flush)
        } else if id == 3 {
            Some(PacketId::Rpc)
        } else if id == 4 {
            Some(PacketId::ReplicationCreate)
        } else if id == 5 {
            Some(PacketId::ReplicationDestroy)
        } else if id == 6 {
            Some(PacketId::ServerData)
        } else if id == 7 {
            Some(PacketId::ServerStateSync)
        } else if id == 8 {
            Some(PacketId::ClientReady)
        } else if id == 9 {
            Some(PacketId::ClientUpdate)
        } else if id == 10 {
            Some(PacketId::ReplicationReady)
        } else if id == 11 {
            Some(PacketId::ReplicationStreamBegin)
        } else if id == 12 {
            Some(PacketId::JoinResult)
        } else if id == 13 {
            Some(PacketId::WorldData)
        } else if id == 14 {
            Some(PacketId::ClientConnected)
        } else if id == 17 {
            Some(PacketId::ClientAcks)
        } else if id == 18 {
            Some(PacketId::ReplicationIslandDone)
        } else if id == 19 {
            Some(PacketId::ReplicationRequest)
        } else if id == 20 {
            Some(PacketId::World)
        } else if id == 21 {
            Some(PacketId::PlayerData)
        } else {
            None
        }
    }

    /// The identifier written on the wire.
    pub fn id(&self) -> (r: u64)
        ensures
            r == self.spec_id(),
    {
        match self {
            PacketId::Unknown => 0,
            PacketId::Flush => 2,
            PacketId::Rpc => 3,
            PacketId::ReplicationCreate => 4,
            PacketId::ReplicationDestroy => 5,
            PacketId::ServerData => 6,
            PacketId::ServerStateSync => 7,
            PacketId::ClientReady => 8,
            PacketId::ClientUpdate => 9,
            PacketId::ReplicationReady => 10,
            PacketId::ReplicationStreamBegin => 11,
            PacketId::JoinResult => 12,
            PacketId::WorldData => 13,
            PacketId::ClientConnected => 14,
            PacketId::ClientAcks => 17,
            PacketId::ReplicationIslandDone => 18,
            PacketId::ReplicationRequest => 19,
            PacketId::World => 20,
            PacketId::PlayerData => 21,
        }
    }

    /// The variant an identifier names.
    pub fn from_id(id: u64) -> (r: Option<PacketId>)
        ensures
            r == PacketId::spec_from_id(id as nat),
    {
        if id == 0 {
            Some(PacketId::Unknown)
        } else if id == 2 {
            Some(PacketId::Flush)
        } else if id == 3 {
            Some(PacketId::Rpc)
        } else if id == 4 {
            Some(PacketId::ReplicationCreate)
        } else if id == 5 {
            Some(PacketId::ReplicationDestroy)
        } else if id == 6 {
            Some(PacketId::ServerData)
        } else if id == 7 {
            Some(PacketId::ServerStateSync)
        } else if id == 8 {
            Some(PacketId::ClientReady)
        } else if id == 9 {
            Some(PacketId::ClientUpdate)
        } else if id == 10 {
            Some(PacketId::ReplicationReady)
        } else if id == 11 {
            Some(PacketId::ReplicationStreamBegin)
        } else if id == 12 {
            Some(PacketId::JoinResult)
        } else if id == 13 {
            Some(PacketId::WorldData)
        } else if id == 14 {
            Some(PacketId::ClientConnected)
        } else if id == 17 {
            Some(PacketId::ClientAcks)
        } else if id == 18 {
            Some(PacketId::ReplicationIslandDone)
        } else if id == 19 {
            Some(PacketId::ReplicationRequest)
        } else if id == 20 {
            Some(PacketId::World)
        } else if id == 21 {
            Some(PacketId::PlayerData)
        } else {
            None
        }
    }
}

impl View for PacketId {
    type V = PacketId;

    open spec fn view(&self) -> PacketId {
        *self
    }
}

impl BitCodec for PacketId {
    /// 8 bits holding the identifier; an identifier of no variant is an error.
    open spec fn spec_decode(s: Seq<bool>, pos: int) -> Decoded<PacketId> {
        match spec_read_uint(s, pos, 8) {
            Decoded::Value(u, end) => match PacketId::spec_from_id(u as nat) {
                Some(v) => Decoded::Value(v, end),
                None => Decoded::Failed(DecodeError::UnknownId),
            },
            Decoded::Failed(e) => Decoded::Failed(e),
            Decoded::OutOfDomain => Decoded::OutOfDomain,
        }
    }

    open spec fn spec_encode(v: PacketId) -> Seq<bool> {
        bits_of_uint(v.spec_id(), 8)
    }

    open spec fn spec_encodable(v: PacketId) -> bool {
        true
    }

    proof fn lemma_decode_encode(v: PacketId, s: Seq<bool>, pos: int) {
        lemma_two_pow_values();
        lemma_bits_of_uint_len(v.spec_id(), 8);
        lemma_uint_roundtrip(v.spec_id(), 8);
    }

    #[verifier::rlimit(60)]
    #[verifier::spinoff_prover]
    fn decode(r: &mut BitReader) -> (res: Result<PacketId, DecodeError>) {
        match r.read_uint(8) {
            Ok(u) => match PacketId::from_id(u) {
                Some(v) => Ok(v),
                None => Err(DecodeError::UnknownId),
            },
            Err(e) => Err(e),
        }
    }

    #[verifier::rlimit(60)]
    #[verifier::spinoff_prover]
    fn encode(&self, w: &mut BitWriter) {
        w.write_uint(self.id(), 8);
    }
}

/// Game mode indicator (one bit).
#[derive(Clone, Copy, Debug, PartialEq, Eq, Hash, Structural, Default)]
pub enum GameMode {
    #[default]
    Creative,
    Survival,
}

impl GameMode {
    /// The identifier written on the wire.
    pub open spec fn spec_id(self) -> nat {
        match self {
            GameMode::Creative => 0,
            GameMode::Survival => 1,
        }
    }

    /// The variant an identifier names.
    pub open spec fn spec_from_id(id: nat) -> Option<GameMode> {
        if id == 0 {
            Some(GameMode::Creative)
        } else if id == 1 {
            Some(GameMode::Survival)
        } else {
            None
        }
    }

    /// The identifier written on the wire.
    pub fn id(&self) -> (r: u64)
        ensures
            r == self.spec_id(),
    {
        match self {
            GameMode::Creative => 0,
            GameMode::Survival => 1,
        }
    }

    /// The variant an identifier names.
    pub fn from_id(id: u64) -> (r: Option<GameMode>)
        ensures
            r == GameMode::spec_from_id(id as nat),
    {
        if id == 0 {
            Some(GameMode::Creative)
        } else if id == 1 {
            Some(GameMode::Survival)
        } else {
            None
        }
    }
}

impl View for GameMode {
    type V = GameMode;

    open spec fn view(&self) -> GameMode {
        *self
    }
}

impl BitCodec for GameMode {
    /// 1 bits holding the identifier; an identifier of no variant is an error.
    open spec fn spec_decode(s: Seq<bool>, pos: int) -> Decoded<GameMode> {
        match spec_read_uint(s, pos, 1) {
            Decoded::Value(u, end) => match GameMode::spec_from_id(u as nat) {
                Some(v) => Decoded::Value(v, end),
                None => Decoded::Failed(DecodeError::UnknownId),
            },
            Decoded::Failed(e) => Decoded::Failed(e),
            Decoded::OutOfDomain => Decoded::OutOfDomain,
        }
    }

    open spec fn spec_encode(v: GameMode) -> Seq<bool> {
        bits_of_uint(v.spec_id(), 1)
    }

    open spec fn spec_encodable(v: GameMode) -> bool {
        true
    }

    proof fn lemma_decode_encode(v: GameMode, s: Seq<bool>, pos: int) {
        lemma_two_pow_values();
        lemma_bits_of_uint_len(v.spec_id(), 1);
        lemma_uint_roundtrip(v.spec_id(), 1);
    }

    #[verifier::rlimit(60)]
    #[verifier::spinoff_prover]
    fn decode(r: &mut BitReader) -> (res: Result<GameMode, DecodeError>) {
        match r.read_uint(1) {
            Ok(u) => match GameMode::from_id(u) {
                Some(v) => Ok(v),
                None => Err(DecodeError::UnknownId),
            },
            Err(e) => Err(e),
        }
    }

    #[verifier::rlimit(60)]
    #[verifier::spinoff_prover]
    fn encode(&self, w: &mut BitWriter) {
        w.write_uint(self.id(), 1);
    }
}

/// Context kind for client state (two bits).
#[derive(Clone, Copy, Debug, PartialEq, Eq, Hash, Structural, Default)]
pub enum ContextKind {
    #[default]
    NoContext,
    Terminal,
    Inventory,
    Production,
}

impl ContextKind {
    /// The identifier written on the wire.
    pub open spec fn spec_id(self) -> nat {
        match self {
            ContextKind::NoContext => 0,
            ContextKind::Terminal => 1,
            ContextKind::Inventory => 2,
            ContextKind::Production => 3,
        }
    }

    /// The variant an identifier names.
    pub open spec fn spec_from_id(id: nat) -> Option<ContextKind> {
        if id == 0 {
            Some(ContextKind::NoContext)
        } else if id == 1 {
            Some(ContextKind::Terminal)
        } else if id == 2 {
            Some(ContextKind::Inventory)
        } else if id == 3 {
            Some(ContextKind::Production)
        } else {
            None
        }
    }

    /// The identifier written on the wire.
    pub fn id(&self) -> (r: u64)
        ensures
            r == self.spec_id(),
    {
        match self {
            ContextKind::NoContext => 0,
            ContextKind::Terminal => 1,
            ContextKind::Inventory => 2,
            ContextKind::Production => 3,
        }
    }

    /// The variant an identifier names.
    pub fn from_id(id: u64) -> (r: Option<ContextKind>)
        ensures
            r == ContextKind::spec_from_id(id as nat),
    {
        if id == 0 {
            Some(ContextKind::NoContext)
        } else if id == 1 {
            Some(ContextKind::Terminal)
        } else if id == 2 {
            Some(ContextKind::Inventory)
        } else if id == 3 {
            Some(ContextKind::Production)
        } else {
            None
        }
    }
}

impl View for ContextKind {
    type V = ContextKind;

    open spec fn view(&self) -> ContextKind {
        *self
    }
}

impl BitCodec for ContextKind {
    /// 2 bits holding the identifier; an identifier of no variant is an error.
    open spec fn spec_decode(s: Seq<bool>, pos: int) -> Decoded<ContextKind> {
        match spec_read_uint(s, pos, 2) {
            Decoded::Value(u, end) => match ContextKind::spec_from_id(u as nat) {
                Some(v) => Decoded::Value(v, end),
                None => Decoded::Failed(DecodeError::UnknownId),
            },
            Decoded::Failed(e) => Decoded::Failed(e),
            Decoded::OutOfDomain => Decoded::OutOfDomain,
        }
    }

    open spec fn spec_encode(v: ContextKind) -> Seq<bool> {
        bits_of_uint(v.spec_id(), 2)
    }

    open spec fn spec_encodable(v: ContextKind) -> bool {
        true
    }

    proof fn lemma_decode_encode(v: ContextKind, s: Seq<bool>, pos: int) {
        lemma_two_pow_values();
        lemma_bits_of_uint_len(v.spec_id(), 2);
        lemma_uint_roundtrip(v.spec_id(), 2);
    }

    #[verifier::rlimit(60)]
    #[verifier::spinoff_prover]
    fn decode(r: &mut BitReader) -> (res: Result<ContextKind, DecodeError>) {
        match r.read_uint(2) {
            Ok(u) => match ContextKind::from_id(u) {
                Some(v) => Ok(v),
                None => Err(DecodeError::UnknownId),
            },
            Err(e) => Err(e),
        }
    }

    #[verifier::rlimit(60)]
    #[verifier::spinoff_prover]
    fn encode(&self, w: &mut BitWriter) {
        w.write_uint(self.id(), 2);
    }
}

/// Join result codes (five bits).
#[derive(Clone, Copy, Debug, PartialEq, Eq, Hash, Structural, Default)]
pub enum JoinResult {
    #[default]
    Success,
    AlreadyJoined,
    TicketInvalid,
    SteamServersOffline,
    NotInGroup,
    GroupIdInvalid,
    ServerFull,
    BannedByAdmins,
    KickedRecently,
    TicketCanceled,
    TicketAlreadyUsed,
    LoggedInElseWhere,
    NoLicenseOrExpired,
    UserNotConnected,
    VacBanned,
    VacCheckTimedOut,
    PasswordRequired,
    WrongPassword,
    ExperimentalMode,
    ProfilingNotAllowed,
    FamilySharing,
    NotFound,
    IncorrectTime,
}

impl JoinResult {
    /// The identifier written on the wire.
    pub open spec fn spec_id(self) -> nat {
        match self {
            JoinResult::Success => 0,
            JoinResult::AlreadyJoined => 1,
            JoinResult::TicketInvalid => 2,
            JoinResult::SteamServersOffline => 3,
            JoinResult::NotInGroup => 4,
            JoinResult::GroupIdInvalid => 5,
            JoinResult::ServerFull => 6,
            JoinResult::BannedByAdmins => 7,
            JoinResult::KickedRecently => 8,
            JoinResult::TicketCanceled => 9,
            JoinResult::TicketAlreadyUsed => 10,
            JoinResult::LoggedInElseWhere => 11,
            JoinResult::NoLicenseOrExpired => 12,
            JoinResult::UserNotConnected => 13,
            JoinResult::VacBanned => 14,
            JoinResult::VacCheckTimedOut => 15,
            JoinResult::PasswordRequired => 16,
            JoinResult::WrongPassword => 17,
            JoinResult::ExperimentalMode => 18,
            JoinResult::ProfilingNotAllowed => 19,
            JoinResult::FamilySharing => 20,
            JoinResult::NotFound => 21,
            JoinResult::IncorrectTime => 22,
        }
    }

    /// The variant an identifier names.
    pub open spec fn spec_from_id(id: nat) -> Option<JoinResult> {
        if id == 0 {
            Some(JoinResult::Success)
        } else if id == 1 {
            Some(JoinResult::AlreadyJoined)
        } else if id == 2 {
            Some(JoinResult::TicketInvalid)
        } else if id == 3 {
            Some(JoinResult::SteamServersOffline)
        } else if id == 4 {
            Some(JoinResult::NotInGroup)
        } else if id == 5 {
            Some(JoinResult::GroupIdInvalid)
        } else if id == 6 {
            Some(JoinResult::ServerFull)
        } else if id == 7 {
            Some(JoinResult::BannedByAdmins)
        } else if id == 8 {
            Some(JoinResult::KickedRecently)
        } else if id == 9 {
            Some(JoinResult::TicketCanceled)
        } else if id == 10 {
            Some(JoinResult::TicketAlreadyUsed)
        } else if id == 11 {
            Some(JoinResult::LoggedInElseWhere)
        } else if id == 12 {
            Some(JoinResult::NoLicenseOrExpired)
        } else if id == 13 {
            Some(JoinResult::UserNotConnected)
        } else if id == 14 {
            Some(JoinResult::VacBanned)
        } else if id == 15 {
            Some(JoinResult::VacCheckTimedOut)
        } else if id == 16 {
            Some(JoinResult::PasswordRequired)
        } else if id == 17 {
            Some(JoinResult::WrongPassword)
        } else if id == 18 {
            Some(JoinResult::ExperimentalMode)
        } else if id == 19 {
            Some(JoinResult::ProfilingNotAllowed)
        } else if id == 20 {
            Some(JoinResult::FamilySharing)
        } else if id == 21 {
            Some(JoinResult::NotFound)
        } else if id == 22 {
            Some(JoinResult::IncorrectTime)
        } else {
            None
        }
    }

    /// The identifier written on the wire.
    pub fn id(&self) -> (r: u64)
        ensures
            r == self.spec_id(),
    {
        match self {
            JoinResult::Success => 0,
            JoinResult::AlreadyJoined => 1,
            JoinResult::TicketInvalid => 2,
            JoinResult::SteamServersOffline => 3,
            JoinResult::NotInGroup => 4,
            JoinResult::GroupIdInvalid => 5,
            JoinResult::ServerFull => 6,
            JoinResult::BannedByAdmins => 7,
            JoinResult::KickedRecently => 8,
            JoinResult::TicketCanceled => 9,
            JoinResult::TicketAlreadyUsed => 10,
            JoinResult::LoggedInElseWhere => 11,
            JoinResult::NoLicenseOrExpired => 12,
            JoinResult::UserNotConnected => 13,
            JoinResult::VacBanned => 14,
            JoinResult::VacCheckTimedOut => 15,
            JoinResult::PasswordRequired => 16,
            JoinResult::WrongPassword => 17,
            JoinResult::ExperimentalMode => 18,
            JoinResult::ProfilingNotAllowed => 19,
            JoinResult::FamilySharing => 20,
            JoinResult::NotFound => 21,
            JoinResult::IncorrectTime => 22,
        }
    }

    /// The variant an identifier names.
    pub fn from_id(id: u64) -> (r: Option<JoinResult>)
        ensures
            r == JoinResult::spec_from_id(id as nat),
    {
        if id == 0 {
            Some(JoinResult::Success)
        } else if id == 1 {
            Some(JoinResult::AlreadyJoined)
        } else if id == 2 {
            Some(JoinResult::TicketInvalid)
        } else if id == 3 {
            Some(JoinResult::SteamServersOffline)
        } else if id == 4 {
            Some(JoinResult::NotInGroup)
        } else if id == 5 {
            Some(JoinResult::GroupIdInvalid)
        } else if id == 6 {
            Some(JoinResult::ServerFull)
        } else if id == 7 {
            Some(JoinResult::BannedByAdmins)
        } else if id == 8 {
            Some(JoinResult::KickedRecently)
        } else if id == 9 {
            Some(JoinResult::TicketCanceled)
        } else if id == 10 {
            Some(JoinResult::TicketAlreadyUsed)
        } else if id == 11 {
            Some(JoinResult::LoggedInElseWhere)
        } else if id == 12 {
            Some(JoinResult::NoLicenseOrExpired)
        } else if id == 13 {
            Some(JoinResult::UserNotConnected)
        } else if id == 14 {
            Some(JoinResult::VacBanned)
        } else if id == 15 {
            Some(JoinResult::VacCheckTimedOut)
        } else if id == 16 {
            Some(JoinResult::PasswordRequired)
        } else if id == 17 {
            Some(JoinResult::WrongPassword)
        } else if id == 18 {
            Some(JoinResult::ExperimentalMode)
        } else if id == 19 {
            Some(JoinResult::ProfilingNotAllowed)
        } else if id == 20 {
            Some(JoinResult::FamilySharing)
        } else if id == 21 {
            Some(JoinResult::NotFound)
        } else if id == 22 {
            Some(JoinResult::IncorrectTime)
        } else {
            None
        }
    }
}

impl View for JoinResult {
    type V = JoinResult;

    open spec fn view(&self) -> JoinResult {
        *self
    }
}

impl BitCodec for JoinResult {
    /// 5 bits holding the identifier; an identifier of no variant is an error.
    open spec fn spec_decode(s: Seq<bool>, pos: int) -> Decoded<JoinResult> {
        match spec_read_uint(s, pos, 5) {
            Decoded::Value(u, end) => match JoinResult::spec_from_id(u as nat) {
                Some(v) => Decoded::Value(v, end),
                None => Decoded::Failed(DecodeError::UnknownId),
            },
            Decoded::Failed(e) => Decoded::Failed(e),
            Decoded::OutOfDomain => Decoded::OutOfDomain,
        }
    }

    open spec fn spec_encode(v: JoinResult) -> Seq<bool> {
        bits_of_uint(v.spec_id(), 5)
    }

    open spec fn spec_encodable(v: JoinResult) -> bool {
        true
    }

    proof fn lemma_decode_encode(v: JoinResult, s: Seq<bool>, pos: int) {
        lemma_two_pow_values();
        lemma_bits_of_uint_len(v.spec_id(), 5);
        lemma_uint_roundtrip(v.spec_id(), 5);
    }

    #[verifier::rlimit(60)]
    #[verifier::spinoff_prover]
    fn decode(r: &mut BitReader) -> (res: Result<JoinResult, DecodeError>) {
        match r.read_uint(5) {
            Ok(u) => match JoinResult::from_id(u) {
                Some(v) => Ok(v),
                None => Err(DecodeError::UnknownId),
            },
            Err(e) => Err(e),
        }
    }

    #[verifier::rlimit(60)]
    #[verifier::spinoff_prover]
    fn encode(&self, w: &mut BitWriter) {
        w.write_uint(self.id(), 5);
    }
}

/// Replication destroy packet.
#[derive(Clone, Copy, Debug, PartialEq, Eq)]
pub struct ReplicationDestroyPacket {
    /// Network ID of the destroyed replicable.
    pub network_id: Varint<u32>,
}

impl View for ReplicationDestroyPacket {
    type V = ReplicationDestroyPacket;

    open spec fn view(&self) -> ReplicationDestroyPacket {
        *self
    }
}

impl BitCodec for ReplicationDestroyPacket {
    open spec fn spec_decode(s: Seq<bool>, pos: int) -> Decoded<ReplicationDestroyPacket> {
        Varint::<u32>::spec_decode(s, pos).map(|network_id: Varint<u32>| ReplicationDestroyPacket { network_id })
    }

    open spec fn spec_encode(v: ReplicationDestroyPacket) -> Seq<bool> {
        Varint::<u32>::spec_encode(v.network_id)
    }

    open spec fn spec_encodable(v: ReplicationDestroyPacket) -> bool {
        &&& Varint::<u32>::spec_encodable(v.network_id)
    }

    proof fn lemma_decode_encode(v: ReplicationDestroyPacket, s: Seq<bool>, pos: int) {
        let e0 = Varint::<u32>::spec_encode(v.network_id);
        Varint::<u32>::lemma_decode_encode(v.network_id, s, pos);
    }

    #[verifier::rlimit(60)]
    #[verifier::spinoff_prover]
    fn decode(r: &mut BitReader) -> (res: Result<ReplicationDestroyPacket, DecodeError>) {
        let network_id = match Varint::<u32>::decode(r) {
            Ok(v) => v,
            Err(e) => {
                return Err(e);
            },
        };
        Ok(ReplicationDestroyPacket { network_id })
    }

    #[verifier::rlimit(60)]
    #[verifier::spinoff_prover]
    fn encode(&self, w: &mut BitWriter) {
        self.network_id.encode(w);
    }
}

/// Replication ready packet.
#[derive(Clone, Copy, Debug, PartialEq, Eq)]
pub struct ReplicationReadyPacket {
    pub network_id: Varint<u32>,
    pub loaded: BitBool,
    /// Always 51385.
    pub terminator: BitAligned<u16>,
}

impl View for ReplicationReadyPacket {
    type V = ReplicationReadyPacket;

    open spec fn view(&self) -> ReplicationReadyPacket {
        *self
    }
}

impl BitCodec for ReplicationReadyPacket {
    open spec fn spec_decode(s: Seq<bool>, pos: int) -> Decoded<ReplicationReadyPacket> {
        Varint::<u32>::spec_decode(s, pos).and_then(
            |network_id: Varint<u32>, p1: int|
                BitBool::spec_decode(s, p1).and_then(
                    |loaded: BitBool, p2: int|
                        BitAligned::<u16>::spec_decode(s, p2).map(
                            |terminator: BitAligned<u16>|
                                ReplicationReadyPacket {
                                    network_id,
                                    loaded,
                                    terminator,
                                },
                        )
                ),
        )
    }

    open spec fn spec_encode(v: ReplicationReadyPacket) -> Seq<bool> {
        Varint::<u32>::spec_encode(v.network_id)
            + BitBool::spec_encode(v.loaded)
            + BitAligned::<u16>::spec_encode(v.terminator)
    }

    open spec fn spec_encodable(v: ReplicationReadyPacket) -> bool {
        &&& Varint::<u32>::spec_encodable(v.network_id)
        &&& BitBool::spec_encodable(v.loaded)
        &&& BitAligned::<u16>::spec_encodable(v.terminator)
    }

    proof fn lemma_decode_encode(v: ReplicationReadyPacket, s: Seq<bool>, pos: int) {
        let e0 = Varint::<u32>::spec_encode(v.network_id);
        let e1 = BitBool::spec_encode(v.loaded);
        let e2 = BitAligned::<u16>::spec_encode(v.terminator);
        lemma_split_at(s, pos, e0 + e1, e2);
        lemma_split_at(s, pos, e0, e1);
        Varint::<u32>::lemma_decode_encode(v.network_id, s, pos);
        BitBool::lemma_decode_encode(v.loaded, s, pos + (e0).len());
        BitAligned::<u16>::lemma_decode_encode(v.terminator, s, pos + (e0 + e1).len());
    }

    #[verifier::rlimit(60)]
    #[verifier::spinoff_prover]
    fn decode(r: &mut BitReader) -> (res: Result<ReplicationReadyPacket, DecodeError>) {
        let network_id = match Varint::<u32>::decode(r) {
            Ok(v) => v,
            Err(e) => {
                return Err(e);
            },
        };
        let loaded = match BitBool::decode(r) {
            Ok(v) => v,
            Err(e) => {
                return Err(e);
            },
        };
        let terminator = match BitAligned::<u16>::decode(r) {
            Ok(v) => v,
            Err(e) => {
                return Err(e);
            },
        };
        Ok(ReplicationReadyPacket { network_id, loaded, terminator })
    }

    #[verifier::rlimit(60)]
    #[verifier::spinoff_prover]
    fn encode(&self, w: &mut BitWriter) {
        self.network_id.encode(w);
        self.loaded.encode(w);
        assert(w.bits@ =~= old(w).bits@ + (Varint::<u32>::spec_encode(self@.network_id) + BitBool::spec_encode(self@.loaded)));
        self.terminator.encode(w);
        assert(w.bits@ =~= old(w).bits@ + (Varint::<u32>::spec_encode(self@.network_id) + BitBool::spec_encode(self@.loaded) + BitAligned::<u16>::spec_encode(self@.terminator)));
    }
}

/// Client ready notification packet.
#[derive(Clone, Copy, Debug, PartialEq, Eq)]
pub struct ClientReadyPacket {
    pub force_playout_delay_buffer: BitBool,
    pub use_playout_delay_buffer_for_character: BitBool,
    pub use_playout_delay_buffer_for_jetpack: BitBool,
    pub use_playout_delay_buffer_for_grids: BitBool,
}

impl View for ClientReadyPacket {
    type V = ClientReadyPacket;

    open spec fn view(&self) -> ClientReadyPacket {
        *self
    }
}

impl BitCodec for ClientReadyPacket {
    open spec fn spec_decode(s: Seq<bool>, pos: int) -> Decoded<ClientReadyPacket> {
        BitBool::spec_decode(s, pos).and_then(
            |force_playout_delay_buffer: BitBool, p1: int|
                BitBool::spec_decode(s, p1).and_then(
                    |use_playout_delay_buffer_for_character: BitBool, p2: int|
                        BitBool::spec_decode(s, p2).and_then(
                            |use_playout_delay_buffer_for_jetpack: BitBool, p3: int|
                                BitBool::spec_decode(s, p3).map(
                                    |use_playout_delay_buffer_for_grids: BitBool|
                                        ClientReadyPacket {
                                            force_playout_delay_buffer,
                                            use_playout_delay_buffer_for_character,
                                            use_playout_delay_buffer_for_jetpack,
                                            use_playout_delay_buffer_for_grids,
                                        },
                                )
                        ),
                ),
        )
    }

    open spec fn spec_encode(v: ClientReadyPacket) -> Seq<bool> {
        BitBool::spec_encode(v.force_playout_delay_buffer)
            + BitBool::spec_encode(v.use_playout_delay_buffer_for_character)
            + BitBool::spec_encode(v.use_playout_delay_buffer_for_jetpack)
            + BitBool::spec_encode(v.use_playout_delay_buffer_for_grids)
    }

    open spec fn spec_encodable(v: ClientReadyPacket) -> bool {
        &&& BitBool::spec_encodable(v.force_playout_delay_buffer)
        &&& BitBool::spec_encodable(v.use_playout_delay_buffer_for_character)
        &&& BitBool::spec_encodable(v.use_playout_delay_buffer_for_jetpack)
        &&& BitBool::spec_encodable(v.use_playout_delay_buffer_for_grids)
    }

    proof fn lemma_decode_encode(v: ClientReadyPacket, s: Seq<bool>, pos: int) {
        let e0 = BitBool::spec_encode(v.force_playout_delay_buffer);
        let e1 = BitBool::spec_encode(v.use_playout_delay_buffer_for_character);
        let e2 = BitBool::spec_encode(v.use_playout_delay_buffer_for_jetpack);
        let e3 = BitBool::spec_encode(v.use_playout_delay_buffer_for_grids);
        lemma_split_at(s, pos, e0 + e1 + e2, e3);
        lemma_split_at(s, pos, e0 + e1, e2);
        lemma_split_at(s, pos, e0, e1);
        BitBool::lemma_decode_encode(v.force_playout_delay_buffer, s, pos);
        BitBool::lemma_decode_encode(v.use_playout_delay_buffer_for_character, s, pos + (e0).len());
        BitBool::lemma_decode_encode(v.use_playout_delay_buffer_for_jetpack, s, pos + (e0 + e1).len());
        BitBool::lemma_decode_encode(v.use_playout_delay_buffer_for_grids, s, pos + (e0 + e1 + e2).len());
    }

    #[verifier::rlimit(60)]
    #[verifier::spinoff_prover]
    fn decode(r: &mut BitReader) -> (res: Result<ClientReadyPacket, DecodeError>) {
        let force_playout_delay_buffer = match BitBool::decode(r) {
            Ok(v) => v,
            Err(e) => {
                return Err(e);
            },
        };
        let use_playout_delay_buffer_for_character = match BitBool::decode(r) {
            Ok(v) => v,
            Err(e) => {
                return Err(e);
            },
        };
        let use_playout_delay_buffer_for_jetpack = match BitBool::decode(r) {
            Ok(v) => v,
            Err(e) => {
                return Err(e);
            },
        };
        let use_playout_delay_buffer_for_grids = match BitBool::decode(r) {
            Ok(v) => v,
            Err(e) => {
                return Err(e);
            },
        };
        Ok(
            ClientReadyPacket {
                force_playout_delay_buffer,
                use_playout_delay_buffer_for_character,
                use_playout_delay_buffer_for_jetpack,
                use_playout_delay_buffer_for_grids,
            },
        )
    }

    #[verifier::rlimit(60)]
    #[verifier::spinoff_prover]
    fn encode(&self, w: &mut BitWriter) {
        self.force_playout_delay_buffer.encode(w);
        self.use_playout_delay_buffer_for_character.encode(w);
        assert(w.bits@ =~= old(w).bits@ + (BitBool::spec_encode(self@.force_playout_delay_buffer) + BitBool::spec_encode(self@.use_playout_delay_buffer_for_character)));
        self.use_playout_delay_buffer_for_jetpack.encode(w);
        assert(w.bits@ =~= old(w).bits@ + (BitBool::spec_encode(self@.force_playout_delay_buffer) + BitBool::spec_encode(self@.use_playout_delay_buffer_for_character) + BitBool::spec_encode(self@.use_playout_delay_buffer_for_jetpack)));
        self.use_playout_delay_buffer_for_grids.encode(w);
        assert(w.bits@ =~= old(w).bits@ + (BitBool::spec_encode(self@.force_playout_delay_buffer) + BitBool::spec_encode(self@.use_playout_delay_buffer_for_character) + BitBool::spec_encode(self@.use_playout_delay_buffer_for_jetpack) + BitBool::spec_encode(self@.use_playout_delay_buffer_for_grids)));
    }
}

/// Statistics state for server monitoring. Single-precision fields hold
/// the IEEE-754 bit patterns of their values.
#[derive(Clone, Copy, Debug, PartialEq, Eq, Default)]
pub struct StatisticsState {
    pub duplicates: BitAligned<u8>,
    pub out_of_order: BitAligned<u8>,
    pub drops: BitAligned<u8>,
    pub tampered: BitAligned<u8>,
    pub outgoing_data: BitAligned<i32>,
    pub incoming_data: BitAligned<i32>,
    /// Bit pattern of an `f32`.
    pub timeout_remaining: BitAligned<u32>,
    pub pending_packet_count: BitAligned<u8>,
    /// Bit pattern of an `f32`.
    pub gc_memory: BitAligned<u32>,
    /// Bit pattern of an `f32`.
    pub process_memory: BitAligned<u32>,
    pub playout_delay_buffer_size: BitAligned<u8>,
}

impl View for StatisticsState {
    type V = StatisticsState;

    open spec fn view(&self) -> StatisticsState {
        *self
    }
}

impl BitCodec for StatisticsState {
    open spec fn spec_decode(s: Seq<bool>, pos: int) -> Decoded<StatisticsState> {
        BitAligned::<u8>::spec_decode(s, pos).and_then(
            |duplicates: BitAligned<u8>, p1: int|
                BitAligned::<u8>::spec_decode(s, p1).and_then(
                    |out_of_order: BitAligned<u8>, p2: int|
                        BitAligned::<u8>::spec_decode(s, p2).and_then(
                            |drops: BitAligned<u8>, p3: int|
                                BitAligned::<u8>::spec_decode(s, p3).and_then(
                                    |tampered: BitAligned<u8>, p4: int|
                                        BitAligned::<i32>::spec_decode(s, p4).and_then(
                                            |outgoing_data: BitAligned<i32>, p5: int|
                                                BitAligned::<i32>::spec_decode(s, p5).and_then(
                                                    |incoming_data: BitAligned<i32>, p6: int|
                                                        BitAligned::<u32>::spec_decode(s, p6).and_then(
                                                            |timeout_remaining: BitAligned<u32>, p7: int|
                                                                BitAligned::<u8>::spec_decode(s, p7).and_then(
                                                                    |pending_packet_count: BitAligned<u8>, p8: int|
                                                                        BitAligned::<u32>::spec_decode(s, p8).and_then(
                                                                            |gc_memory: BitAligned<u32>, p9: int|
                                                                                BitAligned::<u32>::spec_decode(s, p9).and_then(
                                                                                    |process_memory: BitAligned<u32>, p10: int|
                                                                                        BitAligned::<u8>::spec_decode(s, p10).map(
                                                                                            |playout_delay_buffer_size: BitAligned<u8>|
                                                                                                StatisticsState {
                                                                                                    duplicates,
                                                                                                    out_of_order,
                                                                                                    drops,
                                                                                                    tampered,
                                                                                                    outgoing_data,
                                                                                                    incoming_data,
                                                                                                    timeout_remaining,
                                                                                                    pending_packet_count,
                                                                                                    gc_memory,
                                                                                                    process_memory,
                                                                                                    playout_delay_buffer_size,
                                                                                                },
                                                                                        )
                                                                                ),
                                                                        ),
                                                                ),
                                                        ),
                                                ),
                                        ),
                                ),
                        ),
                ),
        )
    }

    open spec fn spec_encode(v: StatisticsState) -> Seq<bool> {
        BitAligned::<u8>::spec_encode(v.duplicates)
            + BitAligned::<u8>::spec_encode(v.out_of_order)
            + BitAligned::<u8>::spec_encode(v.drops)
            + BitAligned::<u8>::spec_encode(v.tampered)
            + BitAligned::<i32>::spec_encode(v.outgoing_data)
            + BitAligned::<i32>::spec_encode(v.incoming_data)
            + BitAligned::<u32>::spec_encode(v.timeout_remaining)
            + BitAligned::<u8>::spec_encode(v.pending_packet_count)
            + BitAligned::<u32>::spec_encode(v.gc_memory)
            + BitAligned::<u32>::spec_encode(v.process_memory)
            + BitAligned::<u8>::spec_encode(v.playout_delay_buffer_size)
    }

    open spec fn spec_encodable(v: StatisticsState) -> bool {
        &&& BitAligned::<u8>::spec_encodable(v.duplicates)
        &&& BitAligned::<u8>::spec_encodable(v.out_of_order)
        &&& BitAligned::<u8>::spec_encodable(v.drops)
        &&& BitAligned::<u8>::spec_encodable(v.tampered)
        &&& BitAligned::<i32>::spec_encodable(v.outgoing_data)
        &&& BitAligned::<i32>::spec_encodable(v.incoming_data)
        &&& BitAligned::<u32>::spec_encodable(v.timeout_remaining)
        &&& BitAligned::<u8>::spec_encodable(v.pending_packet_count)
        &&& BitAligned::<u32>::spec_encodable(v.gc_memory)
        &&& BitAligned::<u32>::spec_encodable(v.process_memory)
        &&& BitAligned::<u8>::spec_encodable(v.playout_delay_buffer_size)
    }

    #[verifier::rlimit(60)]
    #[verifier::spinoff_prover]
    proof fn lemma_decode_encode(v: StatisticsState, s: Seq<bool>, pos: int) {
        let e0 = BitAligned::<u8>::spec_encode(v.duplicates);
        let e1 = BitAligned::<u8>::spec_encode(v.out_of_order);
        let e2 = BitAligned::<u8>::spec_encode(v.drops);
        let e3 = BitAligned::<u8>::spec_encode(v.tampered);
        let e4 = BitAligned::<i32>::spec_encode(v.outgoing_data);
        let e5 = BitAligned::<i32>::spec_encode(v.incoming_data);
        let e6 = BitAligned::<u32>::spec_encode(v.timeout_remaining);
        let e7 = BitAligned::<u8>::spec_encode(v.pending_packet_count);
        let e8 = BitAligned::<u32>::spec_encode(v.gc_memory);
        let e9 = BitAligned::<u32>::spec_encode(v.process_memory);
        let e10 = BitAligned::<u8>::spec_encode(v.playout_delay_buffer_size);
        lemma_split_at(s, pos, e0 + e1 + e2 + e3 + e4 + e5 + e6 + e7 + e8 + e9, e10);
        lemma_split_at(s, pos, e0 + e1 + e2 + e3 + e4 + e5 + e6 + e7 + e8, e9);
        lemma_split_at(s, pos, e0 + e1 + e2 + e3 + e4 + e5 + e6 + e7, e8);
        lemma_split_at(s, pos, e0 + e1 + e2 + e3 + e4 + e5 + e6, e7);
        lemma_split_at(s, pos, e0 + e1 + e2 + e3 + e4 + e5, e6);
        lemma_split_at(s, pos, e0 + e1 + e2 + e3 + e4, e5);
        lemma_split_at(s, pos, e0 + e1 + e2 + e3, e4);
        lemma_split_at(s, pos, e0 + e1 + e2, e3);
        lemma_split_at(s, pos, e0 + e1, e2);
        lemma_split_at(s, pos, e0, e1);
        BitAligned::<u8>::lemma_decode_encode(v.duplicates, s, pos);
        BitAligned::<u8>::lemma_decode_encode(v.out_of_order, s, pos + (e0).len());
        BitAligned::<u8>::lemma_decode_encode(v.drops, s, pos + (e0 + e1).len());
        BitAligned::<u8>::lemma_decode_encode(v.tampered, s, pos + (e0 + e1 + e2).len());
        BitAligned::<i32>::lemma_decode_encode(v.outgoing_data, s, pos + (e0 + e1 + e2 + e3).len());
        BitAligned::<i32>::lemma_decode_encode(v.incoming_data, s, pos + (e0 + e1 + e2 + e3 + e4).len());
        BitAligned::<u32>::lemma_decode_encode(v.timeout_remaining, s, pos + (e0 + e1 + e2 + e3 + e4 + e5).len());
        BitAligned::<u8>::lemma_decode_encode(v.pending_packet_count, s, pos + (e0 + e1 + e2 + e3 + e4 + e5 + e6).len());
        BitAligned::<u32>::lemma_decode_encode(v.gc_memory, s, pos + (e0 + e1 + e2 + e3 + e4 + e5 + e6 + e7).len());
        BitAligned::<u32>::lemma_decode_encode(v.process_memory, s, pos + (e0 + e1 + e2 + e3 + e4 + e5 + e6 + e7 + e8).len());
        BitAligned::<u8>::lemma_decode_encode(v.playout_delay_buffer_size, s, pos + (e0 + e1 + e2 + e3 + e4 + e5 + e6 + e7 + e8 + e9).len());
    }

    #[verifier::rlimit(60)]
    #[verifier::spinoff_prover]
    fn decode(r: &mut BitReader) -> (res: Result<StatisticsState, DecodeError>) {
        let duplicates = match BitAligned::<u8>::decode(r) {
            Ok(v) => v,
            Err(e) => {
                return Err(e);
            },
        };
        let out_of_order = match BitAligned::<u8>::decode(r) {
            Ok(v) => v,
            Err(e) => {
                return Err(e);
            },
        };
        let drops = match BitAligned::<u8>::decode(r) {
            Ok(v) => v,
            Err(e) => {
                return Err(e);
            },
        };
        let tampered = match BitAligned::<u8>::decode(r) {
            Ok(v) => v,
            Err(e) => {
                return Err(e);
            },
        };
        let outgoing_data = match BitAligned::<i32>::decode(r) {
            Ok(v) => v,
            Err(e) => {
                return Err(e);
            },
        };
        let incoming_data = match BitAligned::<i32>::decode(r) {
            Ok(v) => v,
            Err(e) => {
                return Err(e);
            },
        };
        let timeout_remaining = match BitAligned::<u32>::decode(r) {
            Ok(v) => v,
            Err(e) => {
                return Err(e);
            },
        };
        let pending_packet_count = match BitAligned::<u8>::decode(r) {
            Ok(v) => v,
            Err(e) => {
                return Err(e);
            },
        };
        let gc_memory = match BitAligned::<u32>::decode(r) {
            Ok(v) => v,
            Err(e) => {
                return Err(e);
            },
        };
        let process_memory = match BitAligned::<u32>::decode(r) {
            Ok(v) => v,
            Err(e) => {
                return Err(e);
            },
        };
        let playout_delay_buffer_size = match BitAligned::<u8>::decode(r) {
            Ok(v) => v,
            Err(e) => {
                return Err(e);
            },
        };
        Ok(
            StatisticsState {
                duplicates,
                out_of_order,
                drops,
                tampered,
                outgoing_data,
                incoming_data,
                timeout_remaining,
                pending_packet_count,
                gc_memory,
                process_memory,
                playout_delay_buffer_size,
            },
        )
    }

    #[verifier::rlimit(60)]
    #[verifier::spinoff_prover]
    fn encode(&self, w: &mut BitWriter) {
        self.duplicates.encode(w);
        self.out_of_order.encode(w);
        assert(w.bits@ =~= old(w).bits@ + (BitAligned::<u8>::spec_encode(self@.duplicates) + BitAligned::<u8>::spec_encode(self@.out_of_order)));
        self.drops.encode(w);
        assert(w.bits@ =~= old(w).bits@ + (BitAligned::<u8>::spec_encode(self@.duplicates) + BitAligned::<u8>::spec_encode(self@.out_of_order) + BitAligned::<u8>::spec_encode(self@.drops)));
        self.tampered.encode(w);
        assert(w.bits@ =~= old(w).bits@ + (BitAligned::<u8>::spec_encode(self@.duplicates) + BitAligned::<u8>::spec_encode(self@.out_of_order) + BitAligned::<u8>::spec_encode(self@.drops) + BitAligned::<u8>::spec_encode(self@.tampered)));
        self.outgoing_data.encode(w);
        assert(w.bits@ =~= old(w).bits@ + (BitAligned::<u8>::spec_encode(self@.duplicates) + BitAligned::<u8>::spec_encode(self@.out_of_order) + BitAligned::<u8>::spec_encode(self@.drops) + BitAligned::<u8>::spec_encode(self@.tampered) + BitAligned::<i32>::spec_encode(self@.outgoing_data)));
        self.incoming_data.encode(w);
        assert(w.bits@ =~= old(w).bits@ + (BitAligned::<u8>::spec_encode(self@.duplicates) + BitAligned::<u8>::spec_encode(self@.out_of_order) + BitAligned::<u8>::spec_encode(self@.drops) + BitAligned::<u8>::spec_encode(self@.tampered) + BitAligned::<i32>::spec_encode(self@.outgoing_data) + BitAligned::<i32>::spec_encode(self@.incoming_data)));
        self.timeout_remaining.encode(w);
        assert(w.bits@ =~= old(w).bits@ + (BitAligned::<u8>::spec_encode(self@.duplicates) + BitAligned::<u8>::spec_encode(self@.out_of_order) + BitAligned::<u8>::spec_encode(self@.drops) + BitAligned::<u8>::spec_encode(self@.tampered) + BitAligned::<i32>::spec_encode(self@.outgoing_data) + BitAligned::<i32>::spec_encode(self@.incoming_data) + BitAligned::<u32>::spec_encode(self@.timeout_remaining)));
        self.pending_packet_count.encode(w);
        assert(w.bits@ =~= old(w).bits@ + (BitAligned::<u8>::spec_encode(self@.duplicates) + BitAligned::<u8>::spec_encode(self@.out_of_order) + BitAligned::<u8>::spec_encode(self@.drops) + BitAligned::<u8>::spec_encode(self@.tampered) + BitAligned::<i32>::spec_encode(self@.outgoing_data) + BitAligned::<i32>::spec_encode(self@.incoming_data) + BitAligned::<u32>::spec_encode(self@.timeout_remaining) + BitAligned::<u8>::spec_encode(self@.pending_packet_count)));
        self.gc_memory.encode(w);
        assert(w.bits@ =~= old(w).bits@ + (BitAligned::<u8>::spec_encode(self@.duplicates) + BitAligned::<u8>::spec_encode(self@.out_of_order) + BitAligned::<u8>::spec_encode(self@.drops) + BitAligned::<u8>::spec_encode(self@.tampered) + BitAligned::<i32>::spec_encode(self@.outgoing_data) + BitAligned::<i32>::spec_encode(self@.incoming_data) + BitAligned::<u32>::spec_encode(self@.timeout_remaining) + BitAligned::<u8>::spec_encode(self@.pending_packet_count) + BitAligned::<u32>::spec_encode(self@.gc_memory)));
        self.process_memory.encode(w);
        assert(w.bits@ =~= old(w).bits@ + (BitAligned::<u8>::spec_encode(self@.duplicates) + BitAligned::<u8>::spec_encode(self@.out_of_order) + BitAligned::<u8>::spec_encode(self@.drops) + BitAligned::<u8>::spec_encode(self@.tampered) + BitAligned::<i32>::spec_encode(self@.outgoing_data) + BitAligned::<i32>::spec_encode(self@.incoming_data) + BitAligned::<u32>::spec_encode(self@.timeout_remaining) + BitAligned::<u8>::spec_encode(self@.pending_packet_count) + BitAligned::<u32>::spec_encode(self@.gc_memory) + BitAligned::<u32>::spec_encode(self@.process_memory)));
        self.playout_delay_buffer_size.encode(w);
        assert(w.bits@ =~= old(w).bits@ + (BitAligned::<u8>::spec_encode(self@.duplicates) + BitAligned::<u8>::spec_encode(self@.out_of_order) + BitAligned::<u8>::spec_encode(self@.drops) + BitAligned::<u8>::spec_encode(self@.tampered) + BitAligned::<i32>::spec_encode(self@.outgoing_data) + BitAligned::<i32>::spec_encode(self@.incoming_data) + BitAligned::<u32>::spec_encode(self@.timeout_remaining) + BitAligned::<u8>::spec_encode(self@.pending_packet_count) + BitAligned::<u32>::spec_encode(self@.gc_memory) + BitAligned::<u32>::spec_encode(self@.process_memory) + BitAligned::<u8>::spec_encode(self@.playout_delay_buffer_size)));
    }
}

/// World data packet containing server and world metadata. Multiplier
/// fields hold the IEEE-754 bit patterns of `f32` values.
#[derive(Clone, Debug, PartialEq)]
pub struct WorldDataPacket {
    pub app_version: BitAligned<i32>,
    /// Bit pattern of an `f32`.
    pub assembler_multiplier: BitAligned<u32>,
    /// Bit pattern of an `f32`.
    pub blocks_inventory_multiplier: BitAligned<u32>,
    pub data_hash: Nullable<VarString>,
    pub game_mode: GameMode,
    /// Bit pattern of an `f32`.
    pub grinder_multiplier: BitAligned<u32>,
    pub host_name: Nullable<VarString>,
    /// Bit pattern of an `f32`.
    pub inventory_multiplier: BitAligned<u32>,
    pub members_limit: BitAligned<i32>,
    /// Bit pattern of an `f32`.
    pub refinery_multiplier: BitAligned<u32>,
    pub server_analytics_id: Nullable<VarString>,
    pub server_password_salt: Nullable<VarString>,
    /// Bit pattern of an `f32`.
    pub welder_multiplier: BitAligned<u32>,
    pub world_name: Nullable<VarString>,
    pub world_size: BitAligned<u64>,
}

/// The view of a [`WorldDataPacket`]: each field by its view.
pub struct WorldDataPacketView {
    pub app_version: BitAligned<i32>,
    pub assembler_multiplier: BitAligned<u32>,
    pub blocks_inventory_multiplier: BitAligned<u32>,
    pub data_hash: Option<Seq<char>>,
    pub game_mode: GameMode,
    pub grinder_multiplier: BitAligned<u32>,
    pub host_name: Option<Seq<char>>,
    pub inventory_multiplier: BitAligned<u32>,
    pub members_limit: BitAligned<i32>,
    pub refinery_multiplier: BitAligned<u32>,
    pub server_analytics_id: Option<Seq<char>>,
    pub server_password_salt: Option<Seq<char>>,
    pub welder_multiplier: BitAligned<u32>,
    pub world_name: Option<Seq<char>>,
    pub world_size: BitAligned<u64>,
}

impl View for WorldDataPacket {
    type V = WorldDataPacketView;

    open spec fn view(&self) -> WorldDataPacketView {
        WorldDataPacketView { app_version: self.app_version@, assembler_multiplier: self.assembler_multiplier@, blocks_inventory_multiplier: self.blocks_inventory_multiplier@, data_hash: self.data_hash@, game_mode: self.game_mode@, grinder_multiplier: self.grinder_multiplier@, host_name: self.host_name@, inventory_multiplier: self.inventory_multiplier@, members_limit: self.members_limit@, refinery_multiplier: self.refinery_multiplier@, server_analytics_id: self.server_analytics_id@, server_password_salt: self.server_password_salt@, welder_multiplier: self.welder_multiplier@, world_name: self.world_name@, world_size: self.world_size@ }
    }
}

/// The fields of a world-data packet, encoded one after another at `pos`,
/// each stand right after the ones before it.
#[verifier::rlimit(60)]
#[verifier::spinoff_prover]
proof fn lemma_world_data_fields(s: Seq<bool>, pos: int, e0: Seq<bool>, e1: Seq<bool>, e2: Seq<bool>, e3: Seq<bool>, e4: Seq<bool>, e5: Seq<bool>, e6: Seq<bool>, e7: Seq<bool>, e8: Seq<bool>, e9: Seq<bool>, e10: Seq<bool>, e11: Seq<bool>, e12: Seq<bool>, e13: Seq<bool>, e14: Seq<bool>)
    requires
        0 <= pos,
        pos + (e0 + e1 + e2 + e3 + e4 + e5 + e6 + e7 + e8 + e9 + e10 + e11 + e12 + e13 + e14).len() <= s.len(),
        s.subrange(pos, pos + (e0 + e1 + e2 + e3 + e4 + e5 + e6 + e7 + e8 + e9 + e10 + e11 + e12 + e13 + e14).len()) == e0 + e1 + e2 + e3 + e4 + e5 + e6 + e7 + e8 + e9 + e10 + e11 + e12 + e13 + e14,
    ensures
        s.subrange(pos, pos + e0.len()) == e0,
        s.subrange(pos + e0.len(), pos + e0.len() + e1.len()) == e1,
        s.subrange(pos + e0.len() + e1.len(), pos + e0.len() + e1.len() + e2.len()) == e2,
        s.subrange(pos + e0.len() + e1.len() + e2.len(), pos + e0.len() + e1.len() + e2.len() + e3.len()) == e3,
        s.subrange(pos + e0.len() + e1.len() + e2.len() + e3.len(), pos + e0.len() + e1.len() + e2.len() + e3.len() + e4.len()) == e4,
        s.subrange(pos + e0.len() + e1.len() + e2.len() + e3.len() + e4.len(), pos + e0.len() + e1.len() + e2.len() + e3.len() + e4.len() + e5.len()) == e5,
        s.subrange(pos + e0.len() + e1.len() + e2.len() + e3.len() + e4.len() + e5.len(), pos + e0.len() + e1.len() + e2.len() + e3.len() + e4.len() + e5.len() + e6.len()) == e6,
        s.subrange(pos + e0.len() + e1.len() + e2.len() + e3.len() + e4.len() + e5.len() + e6.len(), pos + e0.len() + e1.len() + e2.len() + e3.len() + e4.len() + e5.len() + e6.len() + e7.len()) == e7,
        s.subrange(pos + e0.len() + e1.len() + e2.len() + e3.len() + e4.len() + e5.len() + e6.len() + e7.len(), pos + e0.len() + e1.len() + e2.len() + e3.len() + e4.len() + e5.len() + e6.len() + e7.len() + e8.len()) == e8,
        s.subrange(pos + e0.len() + e1.len() + e2.len() + e3.len() + e4.len() + e5.len() + e6.len() + e7.len() + e8.len(), pos + e0.len() + e1.len() + e2.len() + e3.len() + e4.len() + e5.len() + e6.len() + e7.len() + e8.len() + e9.len()) == e9,
        s.subrange(pos + e0.len() + e1.len() + e2.len() + e3.len() + e4.len() + e5.len() + e6.len() + e7.len() + e8.len() + e9.len(), pos + e0.len() + e1.len() + e2.len() + e3.len() + e4.len() + e5.len() + e6.len() + e7.len() + e8.len() + e9.len() + e10.len()) == e10,
        s.subrange(pos + e0.len() + e1.len() + e2.len() + e3.len() + e4.len() + e5.len() + e6.len() + e7.len() + e8.len() + e9.len() + e10.len(), pos + e0.len() + e1.len() + e2.len() + e3.len() + e4.len() + e5.len() + e6.len() + e7.len() + e8.len() + e9.len() + e10.len() + e11.len()) == e11,
        s.subrange(pos + e0.len() + e1.len() + e2.len() + e3.len() + e4.len() + e5.len() + e6.len() + e7.len() + e8.len() + e9.len() + e10.len() + e11.len(), pos + e0.len() + e1.len() + e2.len() + e3.len() + e4.len() + e5.len() + e6.len() + e7.len() + e8.len() + e9.len() + e10.len() + e11.len() + e12.len()) == e12,
        s.subrange(pos + e0.len() + e1.len() + e2.len() + e3.len() + e4.len() + e5.len() + e6.len() + e7.len() + e8.len() + e9.len() + e10.len() + e11.len() + e12.len(), pos + e0.len() + e1.len() + e2.len() + e3.len() + e4.len() + e5.len() + e6.len() + e7.len() + e8.len() + e9.len() + e10.len() + e11.len() + e12.len() + e13.len()) == e13,
        s.subrange(pos + e0.len() + e1.len() + e2.len() + e3.len() + e4.len() + e5.len() + e6.len() + e7.len() + e8.len() + e9.len() + e10.len() + e11.len() + e12.len() + e13.len(), pos + e0.len() + e1.len() + e2.len() + e3.len() + e4.len() + e5.len() + e6.len() + e7.len() + e8.len() + e9.len() + e10.len() + e11.len() + e12.len() + e13.len() + e14.len()) == e14,
        pos + e0.len() + e1.len() + e2.len() + e3.len() + e4.len() + e5.len() + e6.len() + e7.len() + e8.len() + e9.len() + e10.len() + e11.len() + e12.len() + e13.len() + e14.len() <= s.len(),
{
    lemma_split_at(s, pos, e0 + e1 + e2 + e3 + e4 + e5 + e6 + e7 + e8 + e9 + e10 + e11 + e12 + e13, e14);
    lemma_split_at(s, pos, e0 + e1 + e2 + e3 + e4 + e5 + e6 + e7 + e8 + e9 + e10 + e11 + e12, e13);
    lemma_split_at(s, pos, e0 + e1 + e2 + e3 + e4 + e5 + e6 + e7 + e8 + e9 + e10 + e11, e12);
    lemma_split_at(s, pos, e0 + e1 + e2 + e3 + e4 + e5 + e6 + e7 + e8 + e9 + e10, e11);
    lemma_split_at(s, pos, e0 + e1 + e2 + e3 + e4 + e5 + e6 + e7 + e8 + e9, e10);
    lemma_split_at(s, pos, e0 + e1 + e2 + e3 + e4 + e5 + e6 + e7 + e8, e9);
    lemma_split_at(s, pos, e0 + e1 + e2 + e3 + e4 + e5 + e6 + e7, e8);
    lemma_split_at(s, pos, e0 + e1 + e2 + e3 + e4 + e5 + e6, e7);
    lemma_split_at(s, pos, e0 + e1 + e2 + e3 + e4 + e5, e6);
    lemma_split_at(s, pos, e0 + e1 + e2 + e3 + e4, e5);
    lemma_split_at(s, pos, e0 + e1 + e2 + e3, e4);
    lemma_split_at(s, pos, e0 + e1 + e2, e3);
    lemma_split_at(s, pos, e0 + e1, e2);
    lemma_split_at(s, pos, e0, e1);
}

impl BitCodec for WorldDataPacket {
    open spec fn spec_decode(s: Seq<bool>, pos: int) -> Decoded<WorldDataPacketView> {
        BitAligned::<i32>::spec_decode(s, pos).and_then(
            |app_version: BitAligned<i32>, p1: int|
                BitAligned::<u32>::spec_decode(s, p1).and_then(
                    |assembler_multiplier: BitAligned<u32>, p2: int|
                        BitAligned::<u32>::spec_decode(s, p2).and_then(
                            |blocks_inventory_multiplier: BitAligned<u32>, p3: int|
                                Nullable::<VarString>::spec_decode(s, p3).and_then(
                                    |data_hash: Option<Seq<char>>, p4: int|
                                        GameMode::spec_decode(s, p4).and_then(
                                            |game_mode: GameMode, p5: int|
                                                BitAligned::<u32>::spec_decode(s, p5).and_then(
                                                    |grinder_multiplier: BitAligned<u32>, p6: int|
                                                        Nullable::<VarString>::spec_decode(s, p6).and_then(
                                                            |host_name: Option<Seq<char>>, p7: int|
                                                                BitAligned::<u32>::spec_decode(s, p7).and_then(
                                                                    |inventory_multiplier: BitAligned<u32>, p8: int|
                                                                        BitAligned::<i32>::spec_decode(s, p8).and_then(
                                                                            |members_limit: BitAligned<i32>, p9: int|
                                                                                BitAligned::<u32>::spec_decode(s, p9).and_then(
                                                                                    |refinery_multiplier: BitAligned<u32>, p10: int|
                                                                                        Nullable::<VarString>::spec_decode(s, p10).and_then(
                                                                                            |server_analytics_id: Option<Seq<char>>, p11: int|
                                                                                                Nullable::<VarString>::spec_decode(s, p11).and_then(
                                                                                                    |server_password_salt: Option<Seq<char>>, p12: int|
                                                                                                        BitAligned::<u32>::spec_decode(s, p12).and_then(
                                                                                                            |welder_multiplier: BitAligned<u32>, p13: int|
                                                                                                                Nullable::<VarString>::spec_decode(s, p13).and_then(
                                                                                                                    |world_name: Option<Seq<char>>, p14: int|
                                                                                                                        BitAligned::<u64>::spec_decode(s, p14).map(
                                                                                                                            |world_size: BitAligned<u64>|
                                                                                                                                WorldDataPacketView {
                                                                                                                                    app_version,
                                                                                                                                    assembler_multiplier,
                                                                                                                                    blocks_inventory_multiplier,
                                                                                                                                    data_hash,
                                                                                                                                    game_mode,
                                                                                                                                    grinder_multiplier,
                                                                                                                                    host_name,
                                                                                                                                    inventory_multiplier,
                                                                                                                                    members_limit,
                                                                                                                                    refinery_multiplier,
                                                                                                                                    server_analytics_id,
                                                                                                                                    server_password_salt,
                                                                                                                                    welder_multiplier,
                                                                                                                                    world_name,
                                                                                                                                    world_size,
                                                                                                                                },
                                                                                                                        )
                                                                                                                ),
                                                                                                        ),
                                                                                                ),
                                                                                        ),
                                                                                ),
                                                                        ),
                                                                ),
                                                        ),
                                                ),
                                        ),
                                ),
                        ),
                ),
        )
    }

    open spec fn spec_encode(v: WorldDataPacketView) -> Seq<bool> {
        BitAligned::<i32>::spec_encode(v.app_version)
            + BitAligned::<u32>::spec_encode(v.assembler_multiplier)
            + BitAligned::<u32>::spec_encode(v.blocks_inventory_multiplier)
            + Nullable::<VarString>::spec_encode(v.data_hash)
            + GameMode::spec_encode(v.game_mode)
            + BitAligned::<u32>::spec_encode(v.grinder_multiplier)
            + Nullable::<VarString>::spec_encode(v.host_name)
            + BitAligned::<u32>::spec_encode(v.inventory_multiplier)
            + BitAligned::<i32>::spec_encode(v.members_limit)
            + BitAligned::<u32>::spec_encode(v.refinery_multiplier)
            + Nullable::<VarString>::spec_encode(v.server_analytics_id)
            + Nullable::<VarString>::spec_encode(v.server_password_salt)
            + BitAligned::<u32>::spec_encode(v.welder_multiplier)
            + Nullable::<VarString>::spec_encode(v.world_name)
            + BitAligned::<u64>::spec_encode(v.world_size)
    }

    open spec fn spec_encodable(v: WorldDataPacketView) -> bool {
        &&& BitAligned::<i32>::spec_encodable(v.app_version)
        &&& BitAligned::<u32>::spec_encodable(v.assembler_multiplier)
        &&& BitAligned::<u32>::spec_encodable(v.blocks_inventory_multiplier)
        &&& Nullable::<VarString>::spec_encodable(v.data_hash)
        &&& GameMode::spec_encodable(v.game_mode)
        &&& BitAligned::<u32>::spec_encodable(v.grinder_multiplier)
        &&& Nullable::<VarString>::spec_encodable(v.host_name)
        &&& BitAligned::<u32>::spec_encodable(v.inventory_multiplier)
        &&& BitAligned::<i32>::spec_encodable(v.members_limit)
        &&& BitAligned::<u32>::spec_encodable(v.refinery_multiplier)
        &&& Nullable::<VarString>::spec_encodable(v.server_analytics_id)
        &&& Nullable::<VarString>::spec_encodable(v.server_password_salt)
        &&& BitAligned::<u32>::spec_encodable(v.welder_multiplier)
        &&& Nullable::<VarString>::spec_encodable(v.world_name)
        &&& BitAligned::<u64>::spec_encodable(v.world_size)
    }

    #[verifier::rlimit(100)]
    #[verifier::spinoff_prover]
    proof fn lemma_decode_encode(v: WorldDataPacketView, s: Seq<bool>, pos: int) {
        let e0 = BitAligned::<i32>::spec_encode(v.app_version);
        let e1 = BitAligned::<u32>::spec_encode(v.assembler_multiplier);
        let e2 = BitAligned::<u32>::spec_encode(v.blocks_inventory_multiplier);
        let e3 = Nullable::<VarString>::spec_encode(v.data_hash);
        let e4 = GameMode::spec_encode(v.game_mode);
        let e5 = BitAligned::<u32>::spec_encode(v.grinder_multiplier);
        let e6 = Nullable::<VarString>::spec_encode(v.host_name);
        let e7 = BitAligned::<u32>::spec_encode(v.inventory_multiplier);
        let e8 = BitAligned::<i32>::spec_encode(v.members_limit);
        let e9 = BitAligned::<u32>::spec_encode(v.refinery_multiplier);
        let e10 = Nullable::<VarString>::spec_encode(v.server_analytics_id);
        let e11 = Nullable::<VarString>::spec_encode(v.server_password_salt);
        let e12 = BitAligned::<u32>::spec_encode(v.welder_multiplier);
        let e13 = Nullable::<VarString>::spec_encode(v.world_name);
        let e14 = BitAligned::<u64>::spec_encode(v.world_size);
        lemma_world_data_fields(s, pos, e0, e1, e2, e3, e4, e5, e6, e7, e8, e9, e10, e11, e12, e13, e14);
        BitAligned::<i32>::lemma_decode_encode(v.app_version, s, pos);
        BitAligned::<u32>::lemma_decode_encode(v.assembler_multiplier, s, pos + e0.len());
        BitAligned::<u32>::lemma_decode_encode(v.blocks_inventory_multiplier, s, pos + e0.len() + e1.len());
        Nullable::<VarString>::lemma_decode_encode(v.data_hash, s, pos + e0.len() + e1.len() + e2.len());
        GameMode::lemma_decode_encode(v.game_mode, s, pos + e0.len() + e1.len() + e2.len() + e3.len());
        BitAligned::<u32>::lemma_decode_encode(v.grinder_multiplier, s, pos + e0.len() + e1.len() + e2.len() + e3.len() + e4.len());
        Nullable::<VarString>::lemma_decode_encode(v.host_name, s, pos + e0.len() + e1.len() + e2.len() + e3.len() + e4.len() + e5.len());
        BitAligned::<u32>::lemma_decode_encode(v.inventory_multiplier, s, pos + e0.len() + e1.len() + e2.len() + e3.len() + e4.len() + e5.len() + e6.len());
        BitAligned::<i32>::lemma_decode_encode(v.members_limit, s, pos + e0.len() + e1.len() + e2.len() + e3.len() + e4.len() + e5.len() + e6.len() + e7.len());
        BitAligned::<u32>::lemma_decode_encode(v.refinery_multiplier, s, pos + e0.len() + e1.len() + e2.len() + e3.len() + e4.len() + e5.len() + e6.len() + e7.len() + e8.len());
        Nullable::<VarString>::lemma_decode_encode(v.server_analytics_id, s, pos + e0.len() + e1.len() + e2.len() + e3.len() + e4.len() + e5.len() + e6.len() + e7.len() + e8.len() + e9.len());
        Nullable::<VarString>::lemma_decode_encode(v.server_password_salt, s, pos + e0.len() + e1.len() + e2.len() + e3.len() + e4.len() + e5.len() + e6.len() + e7.len() + e8.len() + e9.len() + e10.len());
        BitAligned::<u32>::lemma_decode_encode(v.welder_multiplier, s, pos + e0.len() + e1.len() + e2.len() + e3.len() + e4.len() + e5.len() + e6.len() + e7.len() + e8.len() + e9.len() + e10.len() + e11.len());
        Nullable::<VarString>::lemma_decode_encode(v.world_name, s, pos + e0.len() + e1.len() + e2.len() + e3.len() + e4.len() + e5.len() + e6.len() + e7.len() + e8.len() + e9.len() + e10.len() + e11.len() + e12.len());
        BitAligned::<u64>::lemma_decode_encode(v.world_size, s, pos + e0.len() + e1.len() + e2.len() + e3.len() + e4.len() + e5.len() + e6.len() + e7.len() + e8.len() + e9.len() + e10.len() + e11.len() + e12.len() + e13.len());
    }

    #[verifier::rlimit(60)]
    #[verifier::spinoff_prover]
    fn decode(r: &mut BitReader) -> (res: Result<WorldDataPacket, DecodeError>) {
        let app_version = match BitAligned::<i32>::decode(r) {
            Ok(v) => v,
            Err(e) => {
                return Err(e);
            },
        };
        let assembler_multiplier = match BitAligned::<u32>::decode(r) {
            Ok(v) => v,
            Err(e) => {
                return Err(e);
            },
        };
        let blocks_inventory_multiplier = match BitAligned::<u32>::decode(r) {
            Ok(v) => v,
            Err(e) => {
                return Err(e);
            },
        };
        let data_hash = match Nullable::<VarString>::decode(r) {
            Ok(v) => v,
            Err(e) => {
                return Err(e);
            },
        };
        let game_mode = match GameMode::decode(r) {
            Ok(v) => v,
            Err(e) => {
                return Err(e);
            },
        };
        let grinder_multiplier = match BitAligned::<u32>::decode(r) {
            Ok(v) => v,
            Err(e) => {
                return Err(e);
            },
        };
        let host_name = match Nullable::<VarString>::decode(r) {
            Ok(v) => v,
            Err(e) => {
                return Err(e);
            },
        };
        let inventory_multiplier = match BitAligned::<u32>::decode(r) {
            Ok(v) => v,
            Err(e) => {
                return Err(e);
            },
        };
        let members_limit = match BitAligned::<i32>::decode(r) {
            Ok(v) => v,
            Err(e) => {
                return Err(e);
            },
        };
        let refinery_multiplier = match BitAligned::<u32>::decode(r) {
            Ok(v) => v,
            Err(e) => {
                return Err(e);
            },
        };
        let server_analytics_id = match Nullable::<VarString>::decode(r) {
            Ok(v) => v,
            Err(e) => {
                return Err(e);
            },
        };
        let server_password_salt = match Nullable::<VarString>::decode(r) {
            Ok(v) => v,
            Err(e) => {
                return Err(e);
            },
        };
        let welder_multiplier = match BitAligned::<u32>::decode(r) {
            Ok(v) => v,
            Err(e) => {
                return Err(e);
            },
        };
        let world_name = match Nullable::<VarString>::decode(r) {
            Ok(v) => v,
            Err(e) => {
                return Err(e);
            },
        };
        let world_size = match BitAligned::<u64>::decode(r) {
            Ok(v) => v,
            Err(e) => {
                return Err(e);
            },
        };
        Ok(
            WorldDataPacket {
                app_version,
                assembler_multiplier,
                blocks_inventory_multiplier,
                data_hash,
                game_mode,
                grinder_multiplier,
                host_name,
                inventory_multiplier,
                members_limit,
                refinery_multiplier,
                server_analytics_id,
                server_password_salt,
                welder_multiplier,
                world_name,
                world_size,
            },
        )
    }

    #[verifier::rlimit(60)]
    #[verifier::spinoff_prover]
    fn encode(&self, w: &mut BitWriter) {
        self.app_version.encode(w);
        self.assembler_multiplier.encode(w);
        assert(w.bits@ =~= old(w).bits@ + (BitAligned::<i32>::spec_encode(self@.app_version) + BitAligned::<u32>::spec_encode(self@.assembler_multiplier)));
        self.blocks_inventory_multiplier.encode(w);
        assert(w.bits@ =~= old(w).bits@ + (BitAligned::<i32>::spec_encode(self@.app_version) + BitAligned::<u32>::spec_encode(self@.assembler_multiplier) + BitAligned::<u32>::spec_encode(self@.blocks_inventory_multiplier)));
        self.data_hash.encode(w);
        assert(w.bits@ =~= old(w).bits@ + (BitAligned::<i32>::spec_encode(self@.app_version) + BitAligned::<u32>::spec_encode(self@.assembler_multiplier) + BitAligned::<u32>::spec_encode(self@.blocks_inventory_multiplier) + Nullable::<VarString>::spec_encode(self@.data_hash)));
        self.game_mode.encode(w);
        assert(w.bits@ =~= old(w).bits@ + (BitAligned::<i32>::spec_encode(self@.app_version) + BitAligned::<u32>::spec_encode(self@.assembler_multiplier) + BitAligned::<u32>::spec_encode(self@.blocks_inventory_multiplier) + Nullable::<VarString>::spec_encode(self@.data_hash) + GameMode::spec_encode(self@.game_mode)));
        self.grinder_multiplier.encode(w);
        assert(w.bits@ =~= old(w).bits@ + (BitAligned::<i32>::spec_encode(self@.app_version) + BitAligned::<u32>::spec_encode(self@.assembler_multiplier) + BitAligned::<u32>::spec_encode(self@.blocks_inventory_multiplier) + Nullable::<VarString>::spec_encode(self@.data_hash) + GameMode::spec_encode(self@.game_mode) + BitAligned::<u32>::spec_encode(self@.grinder_multiplier)));
        self.host_name.encode(w);
        assert(w.bits@ =~= old(w).bits@ + (BitAligned::<i32>::spec_encode(self@.app_version) + BitAligned::<u32>::spec_encode(self@.assembler_multiplier) + BitAligned::<u32>::spec_encode(self@.blocks_inventory_multiplier) + Nullable::<VarString>::spec_encode(self@.data_hash) + GameMode::spec_encode(self@.game_mode) + BitAligned::<u32>::spec_encode(self@.grinder_multiplier) + Nullable::<VarString>::spec_encode(self@.host_name)));
        self.inventory_multiplier.encode(w);
        assert(w.bits@ =~= old(w).bits@ + (BitAligned::<i32>::spec_encode(self@.app_version) + BitAligned::<u32>::spec_encode(self@.assembler_multiplier) + BitAligned::<u32>::spec_encode(self@.blocks_inventory_multiplier) + Nullable::<VarString>::spec_encode(self@.data_hash) + GameMode::spec_encode(self@.game_mode) + BitAligned::<u32>::spec_encode(self@.grinder_multiplier) + Nullable::<VarString>::spec_encode(self@.host_name) + BitAligned::<u32>::spec_encode(self@.inventory_multiplier)));
        self.members_limit.encode(w);
        assert(w.bits@ =~= old(w).bits@ + (BitAligned::<i32>::spec_encode(self@.app_version) + BitAligned::<u32>::spec_encode(self@.assembler_multiplier) + BitAligned::<u32>::spec_encode(self@.blocks_inventory_multiplier) + Nullable::<VarString>::spec_encode(self@.data_hash) + GameMode::spec_encode(self@.game_mode) + BitAligned::<u32>::spec_encode(self@.grinder_multiplier) + Nullable::<VarString>::spec_encode(self@.host_name) + BitAligned::<u32>::spec_encode(self@.inventory_multiplier) + BitAligned::<i32>::spec_encode(self@.members_limit)));
        self.refinery_multiplier.encode(w);
        assert(w.bits@ =~= old(w).bits@ + (BitAligned::<i32>::spec_encode(self@.app_version) + BitAligned::<u32>::spec_encode(self@.assembler_multiplier) + BitAligned::<u32>::spec_encode(self@.blocks_inventory_multiplier) + Nullable::<VarString>::spec_encode(self@.data_hash) + GameMode::spec_encode(self@.game_mode) + BitAligned::<u32>::spec_encode(self@.grinder_multiplier) + Nullable::<VarString>::spec_encode(self@.host_name) + BitAligned::<u32>::spec_encode(self@.inventory_multiplier) + BitAligned::<i32>::spec_encode(self@.members_limit) + BitAligned::<u32>::spec_encode(self@.refinery_multiplier)));
        self.server_analytics_id.encode(w);
        assert(w.bits@ =~= old(w).bits@ + (BitAligned::<i32>::spec_encode(self@.app_version) + BitAligned::<u32>::spec_encode(self@.assembler_multiplier) + BitAligned::<u32>::spec_encode(self@.blocks_inventory_multiplier) + Nullable::<VarString>::spec_encode(self@.data_hash) + GameMode::spec_encode(self@.game_mode) + BitAligned::<u32>::spec_encode(self@.grinder_multiplier) + Nullable::<VarString>::spec_encode(self@.host_name) + BitAligned::<u32>::spec_encode(self@.inventory_multiplier) + BitAligned::<i32>::spec_encode(self@.members_limit) + BitAligned::<u32>::spec_encode(self@.refinery_multiplier) + Nullable::<VarString>::spec_encode(self@.server_analytics_id)));
        self.server_password_salt.encode(w);
        assert(w.bits@ =~= old(w).bits@ + (BitAligned::<i32>::spec_encode(self@.app_version) + BitAligned::<u32>::spec_encode(self@.assembler_multiplier) + BitAligned::<u32>::spec_encode(self@.blocks_inventory_multiplier) + Nullable::<VarString>::spec_encode(self@.data_hash) + GameMode::spec_encode(self@.game_mode) + BitAligned::<u32>::spec_encode(self@.grinder_multiplier) + Nullable::<VarString>::spec_encode(self@.host_name) + BitAligned::<u32>::spec_encode(self@.inventory_multiplier) + BitAligned::<i32>::spec_encode(self@.members_limit) + BitAligned::<u32>::spec_encode(self@.refinery_multiplier) + Nullable::<VarString>::spec_encode(self@.server_analytics_id) + Nullable::<VarString>::spec_encode(self@.server_password_salt)));
        self.welder_multiplier.encode(w);
        assert(w.bits@ =~= old(w).bits@ + (BitAligned::<i32>::spec_encode(self@.app_version) + BitAligned::<u32>::spec_encode(self@.assembler_multiplier) + BitAligned::<u32>::spec_encode(self@.blocks_inventory_multiplier) + Nullable::<VarString>::spec_encode(self@.data_hash) + GameMode::spec_encode(self@.game_mode) + BitAligned::<u32>::spec_encode(self@.grinder_multiplier) + Nullable::<VarString>::spec_encode(self@.host_name) + BitAligned::<u32>::spec_encode(self@.inventory_multiplier) + BitAligned::<i32>::spec_encode(self@.members_limit) + BitAligned::<u32>::spec_encode(self@.refinery_multiplier) + Nullable::<VarString>::spec_encode(self@.server_analytics_id) + Nullable::<VarString>::spec_encode(self@.server_password_salt) + BitAligned::<u32>::spec_encode(self@.welder_multiplier)));
        self.world_name.encode(w);
        assert(w.bits@ =~= old(w).bits@ + (BitAligned::<i32>::spec_encode(self@.app_version) + BitAligned::<u32>::spec_encode(self@.assembler_multiplier) + BitAligned::<u32>::spec_encode(self@.blocks_inventory_multiplier) + Nullable::<VarString>::spec_encode(self@.data_hash) + GameMode::spec_encode(self@.game_mode) + BitAligned::<u32>::spec_encode(self@.grinder_multiplier) + Nullable::<VarString>::spec_encode(self@.host_name) + BitAligned::<u32>::spec_encode(self@.inventory_multiplier) + BitAligned::<i32>::spec_encode(self@.members_limit) + BitAligned::<u32>::spec_encode(self@.refinery_multiplier) + Nullable::<VarString>::spec_encode(self@.server_analytics_id) + Nullable::<VarString>::spec_encode(self@.server_password_salt) + BitAligned::<u32>::spec_encode(self@.welder_multiplier) + Nullable::<VarString>::spec_encode(self@.world_name)));
        self.world_size.encode(w);
        assert(w.bits@ =~= old(w).bits@ + (BitAligned::<i32>::spec_encode(self@.app_version) + BitAligned::<u32>::spec_encode(self@.assembler_multiplier) + BitAligned::<u32>::spec_encode(self@.blocks_inventory_multiplier) + Nullable::<VarString>::spec_encode(self@.data_hash) + GameMode::spec_encode(self@.game_mode) + BitAligned::<u32>::spec_encode(self@.grinder_multiplier) + Nullable::<VarString>::spec_encode(self@.host_name) + BitAligned::<u32>::spec_encode(self@.inventory_multiplier) + BitAligned::<i32>::spec_encode(self@.members_limit) + BitAligned::<u32>::spec_encode(self@.refinery_multiplier) + Nullable::<VarString>::spec_encode(self@.server_analytics_id) + Nullable::<VarString>::spec_encode(self@.server_password_salt) + BitAligned::<u32>::spec_encode(self@.welder_multiplier) + Nullable::<VarString>::spec_encode(self@.world_name) + BitAligned::<u64>::spec_encode(self@.world_size)));
    }
}

/// Client connected packet for the connection handshake.
#[derive(Clone, Debug, PartialEq)]
pub struct ClientConnectedPacket {
    pub client_id: BitAligned<u64>,
    pub experimental_mode: BitBool,
    pub is_admin: BitBool,
    pub is_profiling: BitBool,
    pub join: BitBool,
    pub name: Nullable<VarString>,
    pub service_name: Nullable<VarString>,
    pub token: Nullable<VarBytes>,
}

/// The view of a [`ClientConnectedPacket`]: each field by its view.
pub struct ClientConnectedPacketView {
    pub client_id: BitAligned<u64>,
    pub experimental_mode: BitBool,
    pub is_admin: BitBool,
    pub is_profiling: BitBool,
    pub join: BitBool,
    pub name: Option<Seq<char>>,
    pub service_name: Option<Seq<char>>,
    pub token: Option<Seq<u8>>,
}

impl View for ClientConnectedPacket {
    type V = ClientConnectedPacketView;

    open spec fn view(&self) -> ClientConnectedPacketView {
        ClientConnectedPacketView { client_id: self.client_id@, experimental_mode: self.experimental_mode@, is_admin: self.is_admin@, is_profiling: self.is_profiling@, join: self.join@, name: self.name@, service_name: self.service_name@, token: self.token@ }
    }
}

impl BitCodec for ClientConnectedPacket {
    open spec fn spec_decode(s: Seq<bool>, pos: int) -> Decoded<ClientConnectedPacketView> {
        BitAligned::<u64>::spec_decode(s, pos).and_then(
            |client_id: BitAligned<u64>, p1: int|
                BitBool::spec_decode(s, p1).and_then(
                    |experimental_mode: BitBool, p2: int|
                        BitBool::spec_decode(s, p2).and_then(
                            |is_admin: BitBool, p3: int|
                                BitBool::spec_decode(s, p3).and_then(
                                    |is_profiling: BitBool, p4: int|
                                        BitBool::spec_decode(s, p4).and_then(
                                            |join: BitBool, p5: int|
                                                Nullable::<VarString>::spec_decode(s, p5).and_then(
                                                    |name: Option<Seq<char>>, p6: int|
                                                        Nullable::<VarString>::spec_decode(s, p6).and_then(
                                                            |service_name: Option<Seq<char>>, p7: int|
                                                                Nullable::<VarBytes>::spec_decode(s, p7).map(
                                                                    |token: Option<Seq<u8>>|
                                                                        ClientConnectedPacketView {
                                                                            client_id,
                                                                            experimental_mode,
                                                                            is_admin,
                                                                            is_profiling,
                                                                            join,
                                                                            name,
                                                                            service_name,
                                                                            token,
                                                                        },
                                                                )
                                                        ),
                                                ),
                                        ),
                                ),
                        ),
                ),
        )
    }

    open spec fn spec_encode(v: ClientConnectedPacketView) -> Seq<bool> {
        BitAligned::<u64>::spec_encode(v.client_id)
            + BitBool::spec_encode(v.experimental_mode)
            + BitBool::spec_encode(v.is_admin)
            + BitBool::spec_encode(v.is_profiling)
            + BitBool::spec_encode(v.join)
            + Nullable::<VarString>::spec_encode(v.name)
            + Nullable::<VarString>::spec_encode(v.service_name)
            + Nullable::<VarBytes>::spec_encode(v.token)
    }

    open spec fn spec_encodable(v: ClientConnectedPacketView) -> bool {
        &&& BitAligned::<u64>::spec_encodable(v.client_id)
        &&& BitBool::spec_encodable(v.experimental_mode)
        &&& BitBool::spec_encodable(v.is_admin)
        &&& BitBool::spec_encodable(v.is_profiling)
        &&& BitBool::spec_encodable(v.join)
        &&& Nullable::<VarString>::spec_encodable(v.name)
        &&& Nullable::<VarString>::spec_encodable(v.service_name)
        &&& Nullable::<VarBytes>::spec_encodable(v.token)
    }

    #[verifier::rlimit(60)]
    #[verifier::spinoff_prover]
    proof fn lemma_decode_encode(v: ClientConnectedPacketView, s: Seq<bool>, pos: int) {
        let e0 = BitAligned::<u64>::spec_encode(v.client_id);
        let e1 = BitBool::spec_encode(v.experimental_mode);
        let e2 = BitBool::spec_encode(v.is_admin);
        let e3 = BitBool::spec_encode(v.is_profiling);
        let e4 = BitBool::spec_encode(v.join);
        let e5 = Nullable::<VarString>::spec_encode(v.name);
        let e6 = Nullable::<VarString>::spec_encode(v.service_name);
        let e7 = Nullable::<VarBytes>::spec_encode(v.token);
        lemma_split_at(s, pos, e0 + e1 + e2 + e3 + e4 + e5 + e6, e7);
        lemma_split_at(s, pos, e0 + e1 + e2 + e3 + e4 + e5, e6);
        lemma_split_at(s, pos, e0 + e1 + e2 + e3 + e4, e5);
        lemma_split_at(s, pos, e0 + e1 + e2 + e3, e4);
        lemma_split_at(s, pos, e0 + e1 + e2, e3);
        lemma_split_at(s, pos, e0 + e1, e2);
        lemma_split_at(s, pos, e0, e1);
        BitAligned::<u64>::lemma_decode_encode(v.client_id, s, pos);
        BitBool::lemma_decode_encode(v.experimental_mode, s, pos + (e0).len());
        BitBool::lemma_decode_encode(v.is_admin, s, pos + (e0 + e1).len());
        BitBool::lemma_decode_encode(v.is_profiling, s, pos + (e0 + e1 + e2).len());
        BitBool::lemma_decode_encode(v.join, s, pos + (e0 + e1 + e2 + e3).len());
        Nullable::<VarString>::lemma_decode_encode(v.name, s, pos + (e0 + e1 + e2 + e3 + e4).len());
        Nullable::<VarString>::lemma_decode_encode(v.service_name, s, pos + (e0 + e1 + e2 + e3 + e4 + e5).len());
        Nullable::<VarBytes>::lemma_decode_encode(v.token, s, pos + (e0 + e1 + e2 + e3 + e4 + e5 + e6).len());
    }

    #[verifier::rlimit(60)]
    #[verifier::spinoff_prover]
    fn decode(r: &mut BitReader) -> (res: Result<ClientConnectedPacket, DecodeError>) {
        let client_id = match BitAligned::<u64>::decode(r) {
            Ok(v) => v,
            Err(e) => {
                return Err(e);
            },
        };
        let experimental_mode = match BitBool::decode(r) {
            Ok(v) => v,
            Err(e) => {
                return Err(e);
            },
        };
        let is_admin = match BitBool::decode(r) {
            Ok(v) => v,
            Err(e) => {
                return Err(e);
            },
        };
        let is_profiling = match BitBool::decode(r) {
            Ok(v) => v,
            Err(e) => {
                return Err(e);
            },
        };
        let join = match BitBool::decode(r) {
            Ok(v) => v,
            Err(e) => {
                return Err(e);
            },
        };
        let name = match Nullable::<VarString>::decode(r) {
            Ok(v) => v,
            Err(e) => {
                return Err(e);
            },
        };
        let service_name = match Nullable::<VarString>::decode(r) {
            Ok(v) => v,
            Err(e) => {
                return Err(e);
            },
        };
        let token = match Nullable::<VarBytes>::decode(r) {
            Ok(v) => v,
            Err(e) => {
                return Err(e);
            },
        };
        Ok(
            ClientConnectedPacket {
                client_id,
                experimental_mode,
                is_admin,
                is_profiling,
                join,
                name,
                service_name,
                token,
            },
        )
    }

    #[verifier::rlimit(60)]
    #[verifier::spinoff_prover]
    fn encode(&self, w: &mut BitWriter) {
        self.client_id.encode(w);
        self.experimental_mode.encode(w);
        assert(w.bits@ =~= old(w).bits@ + (BitAligned::<u64>::spec_encode(self@.client_id) + BitBool::spec_encode(self@.experimental_mode)));
        self.is_admin.encode(w);
        assert(w.bits@ =~= old(w).bits@ + (BitAligned::<u64>::spec_encode(self@.client_id) + BitBool::spec_encode(self@.experimental_mode) + BitBool::spec_encode(self@.is_admin)));
        self.is_profiling.encode(w);
        assert(w.bits@ =~= old(w).bits@ + (BitAligned::<u64>::spec_encode(self@.client_id) + BitBool::spec_encode(self@.experimental_mode) + BitBool::spec_encode(self@.is_admin) + BitBool::spec_encode(self@.is_profiling)));
        self.join.encode(w);
        assert(w.bits@ =~= old(w).bits@ + (BitAligned::<u64>::spec_encode(self@.client_id) + BitBool::spec_encode(self@.experimental_mode) + BitBool::spec_encode(self@.is_admin) + BitBool::spec_encode(self@.is_profiling) + BitBool::spec_encode(self@.join)));
        self.name.encode(w);
        assert(w.bits@ =~= old(w).bits@ + (BitAligned::<u64>::spec_encode(self@.client_id) + BitBool::spec_encode(self@.experimental_mode) + BitBool::spec_encode(self@.is_admin) + BitBool::spec_encode(self@.is_profiling) + BitBool::spec_encode(self@.join) + Nullable::<VarString>::spec_encode(self@.name)));
        self.service_name.encode(w);
        assert(w.bits@ =~= old(w).bits@ + (BitAligned::<u64>::spec_encode(self@.client_id) + BitBool::spec_encode(self@.experimental_mode) + BitBool::spec_encode(self@.is_admin) + BitBool::spec_encode(self@.is_profiling) + BitBool::spec_encode(self@.join) + Nullable::<VarString>::spec_encode(self@.name) + Nullable::<VarString>::spec_encode(self@.service_name)));
        self.token.encode(w);
        assert(w.bits@ =~= old(w).bits@ + (BitAligned::<u64>::spec_encode(self@.client_id) + BitBool::spec_encode(self@.experimental_mode) + BitBool::spec_encode(self@.is_admin) + BitBool::spec_encode(self@.is_profiling) + BitBool::spec_encode(self@.join) + Nullable::<VarString>::spec_encode(self@.name) + Nullable::<VarString>::spec_encode(self@.service_name) + Nullable::<VarBytes>::spec_encode(self@.token)));
    }
}

/// Join result packet.
#[derive(Clone, Copy, Debug, PartialEq, Eq)]
pub struct JoinResultPacket {
    pub admin_id: BitAligned<u64>,
    pub join_result: JoinResult,
    pub server_experimental_mode: BitBool,
}

impl View for JoinResultPacket {
    type V = JoinResultPacket;

    open spec fn view(&self) -> JoinResultPacket {
        *self
    }
}

impl BitCodec for JoinResultPacket {
    open spec fn spec_decode(s: Seq<bool>, pos: int) -> Decoded<JoinResultPacket> {
        BitAligned::<u64>::spec_decode(s, pos).and_then(
            |admin_id: BitAligned<u64>, p1: int|
                JoinResult::spec_decode(s, p1).and_then(
                    |join_result: JoinResult, p2: int|
                        BitBool::spec_decode(s, p2).map(
                            |server_experimental_mode: BitBool|
                                JoinResultPacket {
                                    admin_id,
                                    join_result,
                                    server_experimental_mode,
                                },
                        )
                ),
        )
    }

    open spec fn spec_encode(v: JoinResultPacket) -> Seq<bool> {
        BitAligned::<u64>::spec_encode(v.admin_id)
            + JoinResult::spec_encode(v.join_result)
            + BitBool::spec_encode(v.server_experimental_mode)
    }

    open spec fn spec_encodable(v: JoinResultPacket) -> bool {
        &&& BitAligned::<u64>::spec_encodable(v.admin_id)
        &&& JoinResult::spec_encodable(v.join_result)
        &&& BitBool::spec_encodable(v.server_experimental_mode)
    }

    proof fn lemma_decode_encode(v: JoinResultPacket, s: Seq<bool>, pos: int) {
        let e0 = BitAligned::<u64>::spec_encode(v.admin_id);
        let e1 = JoinResult::spec_encode(v.join_result);
        let e2 = BitBool::spec_encode(v.server_experimental_mode);
        lemma_split_at(s, pos, e0 + e1, e2);
        lemma_split_at(s, pos, e0, e1);
        BitAligned::<u64>::lemma_decode_encode(v.admin_id, s, pos);
        JoinResult::lemma_decode_encode(v.join_result, s, pos + (e0).len());
        BitBool::lemma_decode_encode(v.server_experimental_mode, s, pos + (e0 + e1).len());
    }

    #[verifier::rlimit(60)]
    #[verifier::spinoff_prover]
    fn decode(r: &mut BitReader) -> (res: Result<JoinResultPacket, DecodeError>) {
        let admin_id = match BitAligned::<u64>::decode(r) {
            Ok(v) => v,
            Err(e) => {
                return Err(e);
            },
        };
        let join_result = match JoinResult::decode(r) {
            Ok(v) => v,
            Err(e) => {
                return Err(e);
            },
        };
        let server_experimental_mode = match BitBool::decode(r) {
            Ok(v) => v,
            Err(e) => {
                return Err(e);
            },
        };
        Ok(JoinResultPacket { admin_id, join_result, server_experimental_mode })
    }

    #[verifier::rlimit(60)]
    #[verifier::spinoff_prover]
    fn encode(&self, w: &mut BitWriter) {
        self.admin_id.encode(w);
        self.join_result.encode(w);
        assert(w.bits@ =~= old(w).bits@ + (BitAligned::<u64>::spec_encode(self@.admin_id) + JoinResult::spec_encode(self@.join_result)));
        self.server_experimental_mode.encode(w);
        assert(w.bits@ =~= old(w).bits@ + (BitAligned::<u64>::spec_encode(self@.admin_id) + JoinResult::spec_encode(self@.join_result) + BitBool::spec_encode(self@.server_experimental_mode)));
    }
}

/// Replication stream begin packet.
#[derive(Clone, Debug, PartialEq)]
pub struct ReplicationStreamBeginPacket {
    pub type_id: Varint<u32>,
    pub network_id: Varint<u32>,
    pub parent_id: Varint<u32>,
    pub state_group_count: u8,
    /// As many network IDs as `state_group_count` says.
    pub state_group_ids: Vec<Varint<u32>>,
}

/// The view of a [`ReplicationStreamBeginPacket`]: each field by its view.
pub struct ReplicationStreamBeginPacketView {
    pub type_id: Varint<u32>,
    pub network_id: Varint<u32>,
    pub parent_id: Varint<u32>,
    pub state_group_count: u8,
    pub state_group_ids: Seq<Varint<u32>>,
}

impl View for ReplicationStreamBeginPacket {
    type V = ReplicationStreamBeginPacketView;

    open spec fn view(&self) -> ReplicationStreamBeginPacketView {
        ReplicationStreamBeginPacketView { type_id: self.type_id@, network_id: self.network_id@, parent_id: self.parent_id@, state_group_count: self.state_group_count@, state_group_ids: views(self.state_group_ids) }
    }
}

impl BitCodec for ReplicationStreamBeginPacket {
    open spec fn spec_decode(s: Seq<bool>, pos: int) -> Decoded<ReplicationStreamBeginPacketView> {
        Varint::<u32>::spec_decode(s, pos).and_then(
            |type_id: Varint<u32>, p1: int|
                Varint::<u32>::spec_decode(s, p1).and_then(
                    |network_id: Varint<u32>, p2: int|
                        Varint::<u32>::spec_decode(s, p2).and_then(
                            |parent_id: Varint<u32>, p3: int|
                                u8::spec_decode(s, p3).and_then(
                                    |state_group_count: u8, p4: int|
                                        spec_decode_seq::<Varint<u32>>(s, p4, state_group_count as nat).map(
                                            |state_group_ids: Seq<Varint<u32>>|
                                                ReplicationStreamBeginPacketView {
                                                    type_id,
                                                    network_id,
                                                    parent_id,
                                                    state_group_count,
                                                    state_group_ids,
                                                },
                                        )
                                ),
                        ),
                ),
        )
    }

    open spec fn spec_encode(v: ReplicationStreamBeginPacketView) -> Seq<bool> {
        Varint::<u32>::spec_encode(v.type_id)
            + Varint::<u32>::spec_encode(v.network_id)
            + Varint::<u32>::spec_encode(v.parent_id)
            + u8::spec_encode(v.state_group_count)
            + spec_encode_seq::<Varint<u32>>(v.state_group_ids)
    }

    open spec fn spec_encodable(v: ReplicationStreamBeginPacketView) -> bool {
        &&& Varint::<u32>::spec_encodable(v.type_id)
        &&& Varint::<u32>::spec_encodable(v.network_id)
        &&& Varint::<u32>::spec_encodable(v.parent_id)
        &&& u8::spec_encodable(v.state_group_count)
        &&& v.state_group_ids.len() == v.state_group_count as nat && (forall|i: int| 0 <= i < v.state_group_ids.len() ==> Varint::<u32>::spec_encodable(#[trigger] v.state_group_ids[i]))
    }

    proof fn lemma_decode_encode(v: ReplicationStreamBeginPacketView, s: Seq<bool>, pos: int) {
        let e0 = Varint::<u32>::spec_encode(v.type_id);
        let e1 = Varint::<u32>::spec_encode(v.network_id);
        let e2 = Varint::<u32>::spec_encode(v.parent_id);
        let e3 = u8::spec_encode(v.state_group_count);
        let e4 = spec_encode_seq::<Varint<u32>>(v.state_group_ids);
        lemma_split_at(s, pos, e0 + e1 + e2 + e3, e4);
        lemma_split_at(s, pos, e0 + e1 + e2, e3);
        lemma_split_at(s, pos, e0 + e1, e2);
        lemma_split_at(s, pos, e0, e1);
        Varint::<u32>::lemma_decode_encode(v.type_id, s, pos);
        Varint::<u32>::lemma_decode_encode(v.network_id, s, pos + (e0).len());
        Varint::<u32>::lemma_decode_encode(v.parent_id, s, pos + (e0 + e1).len());
        u8::lemma_decode_encode(v.state_group_count, s, pos + (e0 + e1 + e2).len());
        lemma_decode_seq_encoded::<Varint<u32>>(v.state_group_ids, s, pos + (e0 + e1 + e2 + e3).len());
    }

    #[verifier::rlimit(60)]
    #[verifier::spinoff_prover]
    fn decode(r: &mut BitReader) -> (res: Result<ReplicationStreamBeginPacket, DecodeError>) {
        let type_id = match Varint::<u32>::decode(r) {
            Ok(v) => v,
            Err(e) => {
                return Err(e);
            },
        };
        let network_id = match Varint::<u32>::decode(r) {
            Ok(v) => v,
            Err(e) => {
                return Err(e);
            },
        };
        let parent_id = match Varint::<u32>::decode(r) {
            Ok(v) => v,
            Err(e) => {
                return Err(e);
            },
        };
        let state_group_count = match u8::decode(r) {
            Ok(v) => v,
            Err(e) => {
                return Err(e);
            },
        };
        let state_group_ids = match decode_seq::<Varint<u32>>(r, state_group_count as usize) {
            Ok(v) => v,
            Err(e) => {
                return Err(e);
            },
        };
        Ok(
            ReplicationStreamBeginPacket {
                type_id,
                network_id,
                parent_id,
                state_group_count,
                state_group_ids,
            },
        )
    }

    #[verifier::rlimit(60)]
    #[verifier::spinoff_prover]
    fn encode(&self, w: &mut BitWriter) {
        self.type_id.encode(w);
        self.network_id.encode(w);
        assert(w.bits@ =~= old(w).bits@ + (Varint::<u32>::spec_encode(self@.type_id) + Varint::<u32>::spec_encode(self@.network_id)));
        self.parent_id.encode(w);
        assert(w.bits@ =~= old(w).bits@ + (Varint::<u32>::spec_encode(self@.type_id) + Varint::<u32>::spec_encode(self@.network_id) + Varint::<u32>::spec_encode(self@.parent_id)));
        self.state_group_count.encode(w);
        assert(w.bits@ =~= old(w).bits@ + (Varint::<u32>::spec_encode(self@.type_id) + Varint::<u32>::spec_encode(self@.network_id) + Varint::<u32>::spec_encode(self@.parent_id) + u8::spec_encode(self@.state_group_count)));
        encode_seq(&self.state_group_ids, w);
        assert(w.bits@ =~= old(w).bits@ + (Varint::<u32>::spec_encode(self@.type_id) + Varint::<u32>::spec_encode(self@.network_id) + Varint::<u32>::spec_encode(self@.parent_id) + u8::spec_encode(self@.state_group_count) + spec_encode_seq::<Varint<u32>>(self@.state_group_ids)));
    }
}

/// Replication request packet. The optional fields are read when their
/// flags are set, and written whenever they are present.
#[derive(Clone, Copy, Debug, PartialEq, Eq)]
pub struct ReplicationRequestPacket {
    pub entity_id: BitAligned<i64>,
    pub add: BitBool,
    pub has_medical_room: BitBool,
    pub has_interacted_entity: BitBool,
    /// Present when `add` is set.
    pub layer: Option<BitAligned<u8>>,
    /// Present when `has_medical_room` is set.
    pub medical_room_id: Option<BitAligned<i64>>,
    /// Present when `has_interacted_entity` is set.
    pub interacted_entity_id: Option<BitAligned<i64>>,
}

impl View for ReplicationRequestPacket {
    type V = ReplicationRequestPacket;

    open spec fn view(&self) -> ReplicationRequestPacket {
        *self
    }
}

impl BitCodec for ReplicationRequestPacket {
    open spec fn spec_decode(s: Seq<bool>, pos: int) -> Decoded<ReplicationRequestPacket> {
        BitAligned::<i64>::spec_decode(s, pos).and_then(
            |entity_id: BitAligned<i64>, p1: int|
                BitBool::spec_decode(s, p1).and_then(
                    |add: BitBool, p2: int|
                        BitBool::spec_decode(s, p2).and_then(
                            |has_medical_room: BitBool, p3: int|
                                BitBool::spec_decode(s, p3).and_then(
                                    |has_interacted_entity: BitBool, p4: int|
                                        (if add.0 { BitAligned::<u8>::spec_decode(s, p4).map(|x: BitAligned<u8>| Some(x)) } else { Decoded::Value(None, p4) }).and_then(
                                            |layer: Option<BitAligned<u8>>, p5: int|
                                                (if has_medical_room.0 { BitAligned::<i64>::spec_decode(s, p5).map(|x: BitAligned<i64>| Some(x)) } else { Decoded::Value(None, p5) }).and_then(
                                                    |medical_room_id: Option<BitAligned<i64>>, p6: int|
                                                        (if has_interacted_entity.0 { BitAligned::<i64>::spec_decode(s, p6).map(|x: BitAligned<i64>| Some(x)) } else { Decoded::Value(None, p6) }).map(
                                                            |interacted_entity_id: Option<BitAligned<i64>>|
                                                                ReplicationRequestPacket {
                                                                    entity_id,
                                                                    add,
                                                                    has_medical_room,
                                                                    has_interacted_entity,
                                                                    layer,
                                                                    medical_room_id,
                                                                    interacted_entity_id,
                                                                },
                                                        )
                                                ),
                                        ),
                                ),
                        ),
                ),
        )
    }

    open spec fn spec_encode(v: ReplicationRequestPacket) -> Seq<bool> {
        BitAligned::<i64>::spec_encode(v.entity_id)
            + BitBool::spec_encode(v.add)
            + BitBool::spec_encode(v.has_medical_room)
            + BitBool::spec_encode(v.has_interacted_entity)
            + (match v.layer { Some(x) => BitAligned::<u8>::spec_encode(x), None => Seq::empty() })
            + (match v.medical_room_id { Some(x) => BitAligned::<i64>::spec_encode(x), None => Seq::empty() })
            + (match v.interacted_entity_id { Some(x) => BitAligned::<i64>::spec_encode(x), None => Seq::empty() })
    }

    open spec fn spec_encodable(v: ReplicationRequestPacket) -> bool {
        &&& BitAligned::<i64>::spec_encodable(v.entity_id)
        &&& BitBool::spec_encodable(v.add)
        &&& BitBool::spec_encodable(v.has_medical_room)
        &&& BitBool::spec_encodable(v.has_interacted_entity)
        &&& (v.layer is Some) == (v.add.0) && (v.layer matches Some(x) ==> BitAligned::<u8>::spec_encodable(x))
        &&& (v.medical_room_id is Some) == (v.has_medical_room.0) && (v.medical_room_id matches Some(x) ==> BitAligned::<i64>::spec_encodable(x))
        &&& (v.interacted_entity_id is Some) == (v.has_interacted_entity.0) && (v.interacted_entity_id matches Some(x) ==> BitAligned::<i64>::spec_encodable(x))
    }

    #[verifier::rlimit(60)]
    #[verifier::spinoff_prover]
    proof fn lemma_decode_encode(v: ReplicationRequestPacket, s: Seq<bool>, pos: int) {
        let e0 = BitAligned::<i64>::spec_encode(v.entity_id);
        let e1 = BitBool::spec_encode(v.add);
        let e2 = BitBool::spec_encode(v.has_medical_room);
        let e3 = BitBool::spec_encode(v.has_interacted_entity);
        let e4 = (match v.layer { Some(x) => BitAligned::<u8>::spec_encode(x), None => Seq::empty() });
        let e5 = (match v.medical_room_id { Some(x) => BitAligned::<i64>::spec_encode(x), None => Seq::empty() });
        let e6 = (match v.interacted_entity_id { Some(x) => BitAligned::<i64>::spec_encode(x), None => Seq::empty() });
        lemma_split_at(s, pos, e0 + e1 + e2 + e3 + e4 + e5, e6);
        lemma_split_at(s, pos, e0 + e1 + e2 + e3 + e4, e5);
        lemma_split_at(s, pos, e0 + e1 + e2 + e3, e4);
        lemma_split_at(s, pos, e0 + e1 + e2, e3);
        lemma_split_at(s, pos, e0 + e1, e2);
        lemma_split_at(s, pos, e0, e1);
        BitAligned::<i64>::lemma_decode_encode(v.entity_id, s, pos);
        BitBool::lemma_decode_encode(v.add, s, pos + (e0).len());
        BitBool::lemma_decode_encode(v.has_medical_room, s, pos + (e0 + e1).len());
        BitBool::lemma_decode_encode(v.has_interacted_entity, s, pos + (e0 + e1 + e2).len());
        if let Some(x) = v.layer {
            BitAligned::<u8>::lemma_decode_encode(x, s, pos + (e0 + e1 + e2 + e3).len());
        }
        if let Some(x) = v.medical_room_id {
            BitAligned::<i64>::lemma_decode_encode(x, s, pos + (e0 + e1 + e2 + e3 + e4).len());
        }
        if let Some(x) = v.interacted_entity_id {
            BitAligned::<i64>::lemma_decode_encode(x, s, pos + (e0 + e1 + e2 + e3 + e4 + e5).len());
        }
    }

    #[verifier::rlimit(60)]
    #[verifier::spinoff_prover]
    fn decode(r: &mut BitReader) -> (res: Result<ReplicationRequestPacket, DecodeError>) {
        let entity_id = match BitAligned::<i64>::decode(r) {
            Ok(v) => v,
            Err(e) => {
                return Err(e);
            },
        };
        let add = match BitBool::decode(r) {
            Ok(v) => v,
            Err(e) => {
                return Err(e);
            },
        };
        let has_medical_room = match BitBool::decode(r) {
            Ok(v) => v,
            Err(e) => {
                return Err(e);
            },
        };
        let has_interacted_entity = match BitBool::decode(r) {
            Ok(v) => v,
            Err(e) => {
                return Err(e);
            },
        };
        let layer = if add.0 {
            match BitAligned::<u8>::decode(r) {
                Ok(v) => Some(v),
                Err(e) => {
                    return Err(e);
                },
            }
        } else {
            None
        };
        let medical_room_id = if has_medical_room.0 {
            match BitAligned::<i64>::decode(r) {
                Ok(v) => Some(v),
                Err(e) => {
                    return Err(e);
                },
            }
        } else {
            None
        };
        let interacted_entity_id = if has_interacted_entity.0 {
            match BitAligned::<i64>::decode(r) {
                Ok(v) => Some(v),
                Err(e) => {
                    return Err(e);
                },
            }
        } else {
            None
        };
        Ok(
            ReplicationRequestPacket {
                entity_id,
                add,
                has_medical_room,
                has_interacted_entity,
                layer,
                medical_room_id,
                interacted_entity_id,
            },
        )
    }

    #[verifier::rlimit(60)]
    #[verifier::spinoff_prover]
    fn encode(&self, w: &mut BitWriter) {
        self.entity_id.encode(w);
        self.add.encode(w);
        assert(w.bits@ =~= old(w).bits@ + (BitAligned::<i64>::spec_encode(self@.entity_id) + BitBool::spec_encode(self@.add)));
        self.has_medical_room.encode(w);
        assert(w.bits@ =~= old(w).bits@ + (BitAligned::<i64>::spec_encode(self@.entity_id) + BitBool::spec_encode(self@.add) + BitBool::spec_encode(self@.has_medical_room)));
        self.has_interacted_entity.encode(w);
        assert(w.bits@ =~= old(w).bits@ + (BitAligned::<i64>::spec_encode(self@.entity_id) + BitBool::spec_encode(self@.add) + BitBool::spec_encode(self@.has_medical_room) + BitBool::spec_encode(self@.has_interacted_entity)));
        match &self.layer {
            Some(x) => x.encode(w),
            None => {},
        }
        assert(w.bits@ =~= old(w).bits@ + (BitAligned::<i64>::spec_encode(self@.entity_id) + BitBool::spec_encode(self@.add) + BitBool::spec_encode(self@.has_medical_room) + BitBool::spec_encode(self@.has_interacted_entity) + (match self@.layer { Some(x) => BitAligned::<u8>::spec_encode(x), None => Seq::empty() })));
        match &self.medical_room_id {
            Some(x) => x.encode(w),
            None => {},
        }
        assert(w.bits@ =~= old(w).bits@ + (BitAligned::<i64>::spec_encode(self@.entity_id) + BitBool::spec_encode(self@.add) + BitBool::spec_encode(self@.has_medical_room) + BitBool::spec_encode(self@.has_interacted_entity) + (match self@.layer { Some(x) => BitAligned::<u8>::spec_encode(x), None => Seq::empty() }) + (match self@.medical_room_id { Some(x) => BitAligned::<i64>::spec_encode(x), None => Seq::empty() })));
        match &self.interacted_entity_id {
            Some(x) => x.encode(w),
            None => {},
        }
        assert(w.bits@ =~= old(w).bits@ + (BitAligned::<i64>::spec_encode(self@.entity_id) + BitBool::spec_encode(self@.add) + BitBool::spec_encode(self@.has_medical_room) + BitBool::spec_encode(self@.has_interacted_entity) + (match self@.layer { Some(x) => BitAligned::<u8>::spec_encode(x), None => Seq::empty() }) + (match self@.medical_room_id { Some(x) => BitAligned::<i64>::spec_encode(x), None => Seq::empty() }) + (match self@.interacted_entity_id { Some(x) => BitAligned::<i64>::spec_encode(x), None => Seq::empty() })));
    }
}

/// Client state sent with client update packets. Each conditional field is
/// read only when its condition holds, and takes its default otherwise;
/// the writer writes every field. A state round-trips only when all the
/// conditions hold, which they never do together.
#[derive(Clone, Copy, Debug, PartialEq, Eq)]
pub struct ClientState {
    pub has_controlled_entity: BitBool,
    /// Read when no entity is controlled; else false.
    pub has_spectator_camera_position: BitBool,
    /// Read when the spectator camera position flag is set; else zero.
    pub position: Vector3DBits,
    /// Read when an entity is controlled; else 0.
    pub controlled_entity_id: BitAligned<i64>,
    /// Read when an entity is controlled; else false.
    pub has_control: BitBool,
    pub magic: BitAligned<i16>,
    /// Read when an entity is controlled; else no context.
    pub context_by_page: ContextKind,
    /// Read when an entity is controlled and a context is open; else 0.
    pub interacted_entity_id: BitAligned<i64>,
}

impl View for ClientState {
    type V = ClientState;

    open spec fn view(&self) -> ClientState {
        *self
    }
}

impl BitCodec for ClientState {
    open spec fn spec_decode(s: Seq<bool>, pos: int) -> Decoded<ClientState> {
        BitBool::spec_decode(s, pos).and_then(
            |has_controlled_entity: BitBool, p1: int|
                (if !has_controlled_entity.0 { BitBool::spec_decode(s, p1) } else { Decoded::Value(BitBool(false), p1) }).and_then(
                    |has_spectator_camera_position: BitBool, p2: int|
                        (if has_spectator_camera_position.0 { Vector3DBits::spec_decode(s, p2) } else { Decoded::Value(Vector3DBits { x: BitAligned(0u64), y: BitAligned(0u64), z: BitAligned(0u64) }, p2) }).and_then(
                            |position: Vector3DBits, p3: int|
                                (if has_controlled_entity.0 { BitAligned::<i64>::spec_decode(s, p3) } else { Decoded::Value(BitAligned(0i64), p3) }).and_then(
                                    |controlled_entity_id: BitAligned<i64>, p4: int|
                                        (if has_controlled_entity.0 { BitBool::spec_decode(s, p4) } else { Decoded::Value(BitBool(false), p4) }).and_then(
                                            |has_control: BitBool, p5: int|
                                                BitAligned::<i16>::spec_decode(s, p5).and_then(
                                                    |magic: BitAligned<i16>, p6: int|
                                                        (if has_controlled_entity.0 { ContextKind::spec_decode(s, p6) } else { Decoded::Value(ContextKind::NoContext, p6) }).and_then(
                                                            |context_by_page: ContextKind, p7: int|
                                                                (if (has_controlled_entity.0 && context_by_page != ContextKind::NoContext) { BitAligned::<i64>::spec_decode(s, p7) } else { Decoded::Value(BitAligned(0i64), p7) }).map(
                                                                    |interacted_entity_id: BitAligned<i64>|
                                                                        ClientState {
                                                                            has_controlled_entity,
                                                                            has_spectator_camera_position,
                                                                            position,
                                                                            controlled_entity_id,
                                                                            has_control,
                                                                            magic,
                                                                            context_by_page,
                                                                            interacted_entity_id,
                                                                        },
                                                                )
                                                        ),
                                                ),
                                        ),
                                ),
                        ),
                ),
        )
    }

    open spec fn spec_encode(v: ClientState) -> Seq<bool> {
        BitBool::spec_encode(v.has_controlled_entity)
            + BitBool::spec_encode(v.has_spectator_camera_position)
            + Vector3DBits::spec_encode(v.position)
            + BitAligned::<i64>::spec_encode(v.controlled_entity_id)
            + BitBool::spec_encode(v.has_control)
            + BitAligned::<i16>::spec_encode(v.magic)
            + ContextKind::spec_encode(v.context_by_page)
            + BitAligned::<i64>::spec_encode(v.interacted_entity_id)
    }

    /// No client state reads back as it is written: the writer writes every
    /// field, while the reader skips the spectator flag and position when an
    /// entity is controlled, and the entity fields when none is.
    open spec fn spec_encodable(v: ClientState) -> bool {
        false
    }

    proof fn lemma_decode_encode(v: ClientState, s: Seq<bool>, pos: int) {
    }

    #[verifier::rlimit(60)]
    #[verifier::spinoff_prover]
    fn decode(r: &mut BitReader) -> (res: Result<ClientState, DecodeError>) {
        let has_controlled_entity = match BitBool::decode(r) {
            Ok(v) => v,
            Err(e) => {
                return Err(e);
            },
        };
        let has_spectator_camera_position = if !has_controlled_entity.0 {
            match BitBool::decode(r) {
                Ok(v) => v,
                Err(e) => {
                    return Err(e);
                },
            }
        } else {
            BitBool(false)
        };
        let position = if has_spectator_camera_position.0 {
            match Vector3DBits::decode(r) {
                Ok(v) => v,
                Err(e) => {
                    return Err(e);
                },
            }
        } else {
            Vector3DBits { x: BitAligned(0u64), y: BitAligned(0u64), z: BitAligned(0u64) }
        };
        let controlled_entity_id = if has_controlled_entity.0 {
            match BitAligned::<i64>::decode(r) {
                Ok(v) => v,
                Err(e) => {
                    return Err(e);
                },
            }
        } else {
            BitAligned(0i64)
        };
        let has_control = if has_controlled_entity.0 {
            match BitBool::decode(r) {
                Ok(v) => v,
                Err(e) => {
                    return Err(e);
                },
            }
        } else {
            BitBool(false)
        };
        let magic = match BitAligned::<i16>::decode(r) {
            Ok(v) => v,
            Err(e) => {
                return Err(e);
            },
        };
        let context_by_page = if has_controlled_entity.0 {
            match ContextKind::decode(r) {
                Ok(v) => v,
                Err(e) => {
                    return Err(e);
                },
            }
        } else {
            ContextKind::NoContext
        };
        let interacted_entity_id = if has_controlled_entity.0 && context_by_page != ContextKind::NoContext {
            match BitAligned::<i64>::decode(r) {
                Ok(v) => v,
                Err(e) => {
                    return Err(e);
                },
            }
        } else {
            BitAligned(0i64)
        };
        Ok(
            ClientState {
                has_controlled_entity,
                has_spectator_camera_position,
                position,
                controlled_entity_id,
                has_control,
                magic,
                context_by_page,
                interacted_entity_id,
            },
        )
    }

    #[verifier::rlimit(60)]
    #[verifier::spinoff_prover]
    fn encode(&self, w: &mut BitWriter) {
        self.has_controlled_entity.encode(w);
        self.has_spectator_camera_position.encode(w);
        assert(w.bits@ =~= old(w).bits@ + (BitBool::spec_encode(self@.has_controlled_entity) + BitBool::spec_encode(self@.has_spectator_camera_position)));
        self.position.encode(w);
        assert(w.bits@ =~= old(w).bits@ + (BitBool::spec_encode(self@.has_controlled_entity) + BitBool::spec_encode(self@.has_spectator_camera_position) + Vector3DBits::spec_encode(self@.position)));
        self.controlled_entity_id.encode(w);
        assert(w.bits@ =~= old(w).bits@ + (BitBool::spec_encode(self@.has_controlled_entity) + BitBool::spec_encode(self@.has_spectator_camera_position) + Vector3DBits::spec_encode(self@.position) + BitAligned::<i64>::spec_encode(self@.controlled_entity_id)));
        self.has_control.encode(w);
        assert(w.bits@ =~= old(w).bits@ + (BitBool::spec_encode(self@.has_controlled_entity) + BitBool::spec_encode(self@.has_spectator_camera_position) + Vector3DBits::spec_encode(self@.position) + BitAligned::<i64>::spec_encode(self@.controlled_entity_id) + BitBool::spec_encode(self@.has_control)));
        self.magic.encode(w);
        assert(w.bits@ =~= old(w).bits@ + (BitBool::spec_encode(self@.has_controlled_entity) + BitBool::spec_encode(self@.has_spectator_camera_position) + Vector3DBits::spec_encode(self@.position) + BitAligned::<i64>::spec_encode(self@.controlled_entity_id) + BitBool::spec_encode(self@.has_control) + BitAligned::<i16>::spec_encode(self@.magic)));
        self.context_by_page.encode(w);
        assert(w.bits@ =~= old(w).bits@ + (BitBool::spec_encode(self@.has_controlled_entity) + BitBool::spec_encode(self@.has_spectator_camera_position) + Vector3DBits::spec_encode(self@.position) + BitAligned::<i64>::spec_encode(self@.controlled_entity_id) + BitBool::spec_encode(self@.has_control) + BitAligned::<i16>::spec_encode(self@.magic) + ContextKind::spec_encode(self@.context_by_page)));
        self.interacted_entity_id.encode(w);
        assert(w.bits@ =~= old(w).bits@ + (BitBool::spec_encode(self@.has_controlled_entity) + BitBool::spec_encode(self@.has_spectator_camera_position) + Vector3DBits::spec_encode(self@.position) + BitAligned::<i64>::spec_encode(self@.controlled_entity_id) + BitBool::spec_encode(self@.has_control) + BitAligned::<i16>::spec_encode(self@.magic) + ContextKind::spec_encode(self@.context_by_page) + BitAligned::<i64>::spec_encode(self@.interacted_entity_id)));
    }
}

/// Client update packet with timestamps and state.
#[derive(Clone, Copy, Debug, PartialEq, Eq)]
pub struct ClientUpdatePacket {
    pub packet_id: BitAligned<u8>,
    /// Bit pattern of an `f64`.
    pub server_timestamp: BitAligned<u64>,
    /// Bit pattern of an `f64`.
    pub client_timestamp: BitAligned<u64>,
    pub client_state: ClientState,
}

impl View for ClientUpdatePacket {
    type V = ClientUpdatePacket;

    open spec fn view(&self) -> ClientUpdatePacket {
        *self
    }
}

impl BitCodec for ClientUpdatePacket {
    open spec fn spec_decode(s: Seq<bool>, pos: int) -> Decoded<ClientUpdatePacket> {
        BitAligned::<u8>::spec_decode(s, pos).and_then(
            |packet_id: BitAligned<u8>, p1: int|
                BitAligned::<u64>::spec_decode(s, p1).and_then(
                    |server_timestamp: BitAligned<u64>, p2: int|
                        BitAligned::<u64>::spec_decode(s, p2).and_then(
                            |client_timestamp: BitAligned<u64>, p3: int|
                                ClientState::spec_decode(s, p3).map(
                                    |client_state: ClientState|
                                        ClientUpdatePacket {
                                            packet_id,
                                            server_timestamp,
                                            client_timestamp,
                                            client_state,
                                        },
                                )
                        ),
                ),
        )
    }

    open spec fn spec_encode(v: ClientUpdatePacket) -> Seq<bool> {
        BitAligned::<u8>::spec_encode(v.packet_id)
            + BitAligned::<u64>::spec_encode(v.server_timestamp)
            + BitAligned::<u64>::spec_encode(v.client_timestamp)
            + ClientState::spec_encode(v.client_state)
    }

    open spec fn spec_encodable(v: ClientUpdatePacket) -> bool {
        &&& BitAligned::<u8>::spec_encodable(v.packet_id)
        &&& BitAligned::<u64>::spec_encodable(v.server_timestamp)
        &&& BitAligned::<u64>::spec_encodable(v.client_timestamp)
        &&& ClientState::spec_encodable(v.client_state)
    }

    proof fn lemma_decode_encode(v: ClientUpdatePacket, s: Seq<bool>, pos: int) {
        let e0 = BitAligned::<u8>::spec_encode(v.packet_id);
        let e1 = BitAligned::<u64>::spec_encode(v.server_timestamp);
        let e2 = BitAligned::<u64>::spec_encode(v.client_timestamp);
        let e3 = ClientState::spec_encode(v.client_state);
        lemma_split_at(s, pos, e0 + e1 + e2, e3);
        lemma_split_at(s, pos, e0 + e1, e2);
        lemma_split_at(s, pos, e0, e1);
        BitAligned::<u8>::lemma_decode_encode(v.packet_id, s, pos);
        BitAligned::<u64>::lemma_decode_encode(v.server_timestamp, s, pos + (e0).len());
        BitAligned::<u64>::lemma_decode_encode(v.client_timestamp, s, pos + (e0 + e1).len());
        ClientState::lemma_decode_encode(v.client_state, s, pos + (e0 + e1 + e2).len());
    }

    #[verifier::rlimit(60)]
    #[verifier::spinoff_prover]
    fn decode(r: &mut BitReader) -> (res: Result<ClientUpdatePacket, DecodeError>) {
        let packet_id = match BitAligned::<u8>::decode(r) {
            Ok(v) => v,
            Err(e) => {
                return Err(e);
            },
        };
        let server_timestamp = match BitAligned::<u64>::decode(r) {
            Ok(v) => v,
            Err(e) => {
                return Err(e);
            },
        };
        let client_timestamp = match BitAligned::<u64>::decode(r) {
            Ok(v) => v,
            Err(e) => {
                return Err(e);
            },
        };
        let client_state = match ClientState::decode(r) {
            Ok(v) => v,
            Err(e) => {
                return Err(e);
            },
        };
        Ok(ClientUpdatePacket { packet_id, server_timestamp, client_timestamp, client_state })
    }

    #[verifier::rlimit(60)]
    #[verifier::spinoff_prover]
    fn encode(&self, w: &mut BitWriter) {
        self.packet_id.encode(w);
        self.server_timestamp.encode(w);
        assert(w.bits@ =~= old(w).bits@ + (BitAligned::<u8>::spec_encode(self@.packet_id) + BitAligned::<u64>::spec_encode(self@.server_timestamp)));
        self.client_timestamp.encode(w);
        assert(w.bits@ =~= old(w).bits@ + (BitAligned::<u8>::spec_encode(self@.packet_id) + BitAligned::<u64>::spec_encode(self@.server_timestamp) + BitAligned::<u64>::spec_encode(self@.client_timestamp)));
        self.client_state.encode(w);
        assert(w.bits@ =~= old(w).bits@ + (BitAligned::<u8>::spec_encode(self@.packet_id) + BitAligned::<u64>::spec_encode(self@.server_timestamp) + BitAligned::<u64>::spec_encode(self@.client_timestamp) + ClientState::spec_encode(self@.client_state)));
    }
}

/// Server data packet containing the event hash table.
#[derive(Clone, Debug, PartialEq)]
pub struct ServerDataPacket {
    pub count: Varint<u32>,
    /// As many hashes as `count` says.
    pub hash_table: Vec<i32>,
}

/// The view of a [`ServerDataPacket`]: each field by its view.
pub struct ServerDataPacketView {
    pub count: Varint<u32>,
    pub hash_table: Seq<i32>,
}

impl View for ServerDataPacket {
    type V = ServerDataPacketView;

    open spec fn view(&self) -> ServerDataPacketView {
        ServerDataPacketView { count: self.count@, hash_table: views(self.hash_table) }
    }
}

impl BitCodec for ServerDataPacket {
    open spec fn spec_decode(s: Seq<bool>, pos: int) -> Decoded<ServerDataPacketView> {
        Varint::<u32>::spec_decode(s, pos).and_then(
            |count: Varint<u32>, p1: int|
                spec_decode_seq::<i32>(s, p1, count.0 as nat).map(
                    |hash_table: Seq<i32>|
                        ServerDataPacketView {
                            count,
                            hash_table,
                        },
                )
        )
    }

    open spec fn spec_encode(v: ServerDataPacketView) -> Seq<bool> {
        Varint::<u32>::spec_encode(v.count) + spec_encode_seq::<i32>(v.hash_table)
    }

    open spec fn spec_encodable(v: ServerDataPacketView) -> bool {
        &&& Varint::<u32>::spec_encodable(v.count)
        &&& v.hash_table.len() == v.count.0 as nat && (forall|i: int| 0 <= i < v.hash_table.len() ==> i32::spec_encodable(#[trigger] v.hash_table[i]))
    }

    proof fn lemma_decode_encode(v: ServerDataPacketView, s: Seq<bool>, pos: int) {
        let e0 = Varint::<u32>::spec_encode(v.count);
        let e1 = spec_encode_seq::<i32>(v.hash_table);
        lemma_split_at(s, pos, e0, e1);
        Varint::<u32>::lemma_decode_encode(v.count, s, pos);
        lemma_decode_seq_encoded::<i32>(v.hash_table, s, pos + (e0).len());
    }

    #[verifier::rlimit(60)]
    #[verifier::spinoff_prover]
    fn decode(r: &mut BitReader) -> (res: Result<ServerDataPacket, DecodeError>) {
        let count = match Varint::<u32>::decode(r) {
            Ok(v) => v,
            Err(e) => {
                return Err(e);
            },
        };
        let hash_table = match decode_seq::<i32>(r, count.0 as usize) {
            Ok(v) => v,
            Err(e) => {
                return Err(e);
            },
        };
        Ok(ServerDataPacket { count, hash_table })
    }

    #[verifier::rlimit(60)]
    #[verifier::spinoff_prover]
    fn encode(&self, w: &mut BitWriter) {
        self.count.encode(w);
        encode_seq(&self.hash_table, w);
        assert(w.bits@ =~= old(w).bits@ + (Varint::<u32>::spec_encode(self@.count) + spec_encode_seq::<i32>(self@.hash_table)));
    }
}

/// Client acknowledgment packet.
#[derive(Clone, Debug, PartialEq)]
pub struct ClientAckPacket {
    pub last_state_sync_packet_id: BitAligned<u8>,
    pub received_streaming_packet: BitBool,
    pub last_streaming_packet_id: BitAligned<u8>,
    pub ack_packet_count: BitAligned<u8>,
    /// As many IDs as `ack_packet_count` says.
    pub ack_packets: Vec<BitAligned<u8>>,
}

/// The view of a [`ClientAckPacket`]: each field by its view.
pub struct ClientAckPacketView {
    pub last_state_sync_packet_id: BitAligned<u8>,
    pub received_streaming_packet: BitBool,
    pub last_streaming_packet_id: BitAligned<u8>,
    pub ack_packet_count: BitAligned<u8>,
    pub ack_packets: Seq<BitAligned<u8>>,
}

impl View for ClientAckPacket {
    type V = ClientAckPacketView;

    open spec fn view(&self) -> ClientAckPacketView {
        ClientAckPacketView { last_state_sync_packet_id: self.last_state_sync_packet_id@, received_streaming_packet: self.received_streaming_packet@, last_streaming_packet_id: self.last_streaming_packet_id@, ack_packet_count: self.ack_packet_count@, ack_packets: views(self.ack_packets) }
    }
}

impl BitCodec for ClientAckPacket {
    open spec fn spec_decode(s: Seq<bool>, pos: int) -> Decoded<ClientAckPacketView> {
        BitAligned::<u8>::spec_decode(s, pos).and_then(
            |last_state_sync_packet_id: BitAligned<u8>, p1: int|
                BitBool::spec_decode(s, p1).and_then(
                    |received_streaming_packet: BitBool, p2: int|
                        BitAligned::<u8>::spec_decode(s, p2).and_then(
                            |last_streaming_packet_id: BitAligned<u8>, p3: int|
                                BitAligned::<u8>::spec_decode(s, p3).and_then(
                                    |ack_packet_count: BitAligned<u8>, p4: int|
                                        spec_decode_seq::<BitAligned<u8>>(s, p4, ack_packet_count.0 as nat).map(
                                            |ack_packets: Seq<BitAligned<u8>>|
                                                ClientAckPacketView {
                                                    last_state_sync_packet_id,
                                                    received_streaming_packet,
                                                    last_streaming_packet_id,
                                                    ack_packet_count,
                                                    ack_packets,
                                                },
                                        )
                                ),
                        ),
                ),
        )
    }

    open spec fn spec_encode(v: ClientAckPacketView) -> Seq<bool> {
        BitAligned::<u8>::spec_encode(v.last_state_sync_packet_id)
            + BitBool::spec_encode(v.received_streaming_packet)
            + BitAligned::<u8>::spec_encode(v.last_streaming_packet_id)
            + BitAligned::<u8>::spec_encode(v.ack_packet_count)
            + spec_encode_seq::<BitAligned<u8>>(v.ack_packets)
    }

    open spec fn spec_encodable(v: ClientAckPacketView) -> bool {
        &&& BitAligned::<u8>::spec_encodable(v.last_state_sync_packet_id)
        &&& BitBool::spec_encodable(v.received_streaming_packet)
        &&& BitAligned::<u8>::spec_encodable(v.last_streaming_packet_id)
        &&& BitAligned::<u8>::spec_encodable(v.ack_packet_count)
        &&& v.ack_packets.len() == v.ack_packet_count.0 as nat && (forall|i: int| 0 <= i < v.ack_packets.len() ==> BitAligned::<u8>::spec_encodable(#[trigger] v.ack_packets[i]))
    }

    proof fn lemma_decode_encode(v: ClientAckPacketView, s: Seq<bool>, pos: int) {
        let e0 = BitAligned::<u8>::spec_encode(v.last_state_sync_packet_id);
        let e1 = BitBool::spec_encode(v.received_streaming_packet);
        let e2 = BitAligned::<u8>::spec_encode(v.last_streaming_packet_id);
        let e3 = BitAligned::<u8>::spec_encode(v.ack_packet_count);
        let e4 = spec_encode_seq::<BitAligned<u8>>(v.ack_packets);
        lemma_split_at(s, pos, e0 + e1 + e2 + e3, e4);
        lemma_split_at(s, pos, e0 + e1 + e2, e3);
        lemma_split_at(s, pos, e0 + e1, e2);
        lemma_split_at(s, pos, e0, e1);
        BitAligned::<u8>::lemma_decode_encode(v.last_state_sync_packet_id, s, pos);
        BitBool::lemma_decode_encode(v.received_streaming_packet, s, pos + (e0).len());
        BitAligned::<u8>::lemma_decode_encode(v.last_streaming_packet_id, s, pos + (e0 + e1).len());
        BitAligned::<u8>::lemma_decode_encode(v.ack_packet_count, s, pos + (e0 + e1 + e2).len());
        lemma_decode_seq_encoded::<BitAligned<u8>>(v.ack_packets, s, pos + (e0 + e1 + e2 + e3).len());
    }

    #[verifier::rlimit(60)]
    #[verifier::spinoff_prover]
    fn decode(r: &mut BitReader) -> (res: Result<ClientAckPacket, DecodeError>) {
        let last_state_sync_packet_id = match BitAligned::<u8>::decode(r) {
            Ok(v) => v,
            Err(e) => {
                return Err(e);
            },
        };
        let received_streaming_packet = match BitBool::decode(r) {
            Ok(v) => v,
            Err(e) => {
                return Err(e);
            },
        };
        let last_streaming_packet_id = match BitAligned::<u8>::decode(r) {
            Ok(v) => v,
            Err(e) => {
                return Err(e);
            },
        };
        let ack_packet_count = match BitAligned::<u8>::decode(r) {
            Ok(v) => v,
            Err(e) => {
                return Err(e);
            },
        };
        let ack_packets = match decode_seq::<BitAligned<u8>>(r, ack_packet_count.0 as usize) {
            Ok(v) => v,
            Err(e) => {
                return Err(e);
            },
        };
        Ok(
            ClientAckPacket {
                last_state_sync_packet_id,
                received_streaming_packet,
                last_streaming_packet_id,
                ack_packet_count,
                ack_packets,
            },
        )
    }

    #[verifier::rlimit(60)]
    #[verifier::spinoff_prover]
    fn encode(&self, w: &mut BitWriter) {
        self.last_state_sync_packet_id.encode(w);
        self.received_streaming_packet.encode(w);
        assert(w.bits@ =~= old(w).bits@ + (BitAligned::<u8>::spec_encode(self@.last_state_sync_packet_id) + BitBool::spec_encode(self@.received_streaming_packet)));
        self.last_streaming_packet_id.encode(w);
        assert(w.bits@ =~= old(w).bits@ + (BitAligned::<u8>::spec_encode(self@.last_state_sync_packet_id) + BitBool::spec_encode(self@.received_streaming_packet) + BitAligned::<u8>::spec_encode(self@.last_streaming_packet_id)));
        self.ack_packet_count.encode(w);
        assert(w.bits@ =~= old(w).bits@ + (BitAligned::<u8>::spec_encode(self@.last_state_sync_packet_id) + BitBool::spec_encode(self@.received_streaming_packet) + BitAligned::<u8>::spec_encode(self@.last_streaming_packet_id) + BitAligned::<u8>::spec_encode(self@.ack_packet_count)));
        encode_seq(&self.ack_packets, w);
        assert(w.bits@ =~= old(w).bits@ + (BitAligned::<u8>::spec_encode(self@.last_state_sync_packet_id) + BitBool::spec_encode(self@.received_streaming_packet) + BitAligned::<u8>::spec_encode(self@.last_streaming_packet_id) + BitAligned::<u8>::spec_encode(self@.ack_packet_count) + spec_encode_seq::<BitAligned<u8>>(self@.ack_packets)));
    }
}

/// The rest of the stream as whole bytes: every remaining bit is read,
/// eight at a time.
pub open spec fn spec_read_rest_bytes(s: Seq<bool>, pos: int) -> Decoded<Seq<u8>> {
    let n = s.len() - pos;
    if n % 8 == 0 {
        Decoded::Value(bytes_at(s, pos, (n / 8) as nat), s.len() as int)
    } else {
        Decoded::Failed(DecodeError::Incomplete)
    }
}

/// Read the rest of the stream as whole bytes.
pub fn read_rest_bytes(r: &mut BitReader) -> (res: Result<Vec<u8>, DecodeError>)
    requires
        old(r).wf(),
    ensures
        final(r).bits@ == old(r).bits@,
        final(r).pos <= final(r).bits@.len(),
        match spec_read_rest_bytes(old(r).bits@, old(r).pos as int) {
            Decoded::Value(v, end) => res matches Ok(b) && b@ == v && final(r).pos == end,
            Decoded::Failed(e) => res == Err::<Vec<u8>, DecodeError>(e) && e != DecodeError::OutOfRange,
            Decoded::OutOfDomain => false,
        },
{
    let n = r.remaining();
    if n % 8 != 0 {
        return Err(DecodeError::Incomplete);
    }
    read_bytes(r, n / 8)
}

/// Replication create packet header, sent when a replicable object enters
/// the client's scope, followed by the object's own data.
#[derive(Clone, Debug, PartialEq)]
pub struct ReplicationCreatePacket {
    pub type_id: Varint<u32>,
    pub network_id: Varint<u32>,
    pub parent_id: Varint<u32>,
    pub state_group_count: u8,
    /// As many network IDs as `state_group_count` says.
    pub state_group_ids: Vec<Varint<u32>>,
    /// The object's data, unparsed: the rest of the stream.
    pub data: Vec<u8>,
}

/// The view of a [`ReplicationCreatePacket`].
pub struct ReplicationCreatePacketView {
    pub type_id: Varint<u32>,
    pub network_id: Varint<u32>,
    pub parent_id: Varint<u32>,
    pub state_group_count: u8,
    pub state_group_ids: Seq<Varint<u32>>,
    pub data: Seq<u8>,
}

impl View for ReplicationCreatePacket {
    type V = ReplicationCreatePacketView;

    open spec fn view(&self) -> ReplicationCreatePacketView {
        ReplicationCreatePacketView {
            type_id: self.type_id,
            network_id: self.network_id,
            parent_id: self.parent_id,
            state_group_count: self.state_group_count,
            state_group_ids: views(self.state_group_ids),
            data: self.data@,
        }
    }
}

/// Decoding a replication create packet: the fields it shares with a
/// stream begin packet, then the rest of the stream.
pub open spec fn spec_decode_create(s: Seq<bool>, pos: int) -> Decoded<ReplicationCreatePacketView> {
    ReplicationStreamBeginPacket::spec_decode(s, pos).and_then(
        |h: ReplicationStreamBeginPacketView, p: int|
            spec_read_rest_bytes(s, p).map(
                |data: Seq<u8>|
                    ReplicationCreatePacketView {
                        type_id: h.type_id,
                        network_id: h.network_id,
                        parent_id: h.parent_id,
                        state_group_count: h.state_group_count,
                        state_group_ids: h.state_group_ids,
                        data,
                    },
            ),
    )
}

/// The encoding of a replication create packet.
pub open spec fn spec_encode_create(v: ReplicationCreatePacketView) -> Seq<bool> {
    ReplicationStreamBeginPacket::spec_encode(
        ReplicationStreamBeginPacketView {
            type_id: v.type_id,
            network_id: v.network_id,
            parent_id: v.parent_id,
            state_group_count: v.state_group_count,
            state_group_ids: v.state_group_ids,
        },
    ) + bits_of_bytes(v.data)
}

impl ReplicationCreatePacket {
    pub fn decode(r: &mut BitReader) -> (res: Result<ReplicationCreatePacket, DecodeError>)
        requires
            old(r).wf(),
        ensures
            decoded_as(*old(r), *final(r), res, spec_decode_create(old(r).bits@, old(r).pos as int)),
    {
        let h = match ReplicationStreamBeginPacket::decode(r) {
            Ok(h) => h,
            Err(e) => {
                return Err(e);
            },
        };
        let data = match read_rest_bytes(r) {
            Ok(d) => d,
            Err(e) => {
                return Err(e);
            },
        };
        Ok(
            ReplicationCreatePacket {
                type_id: h.type_id,
                network_id: h.network_id,
                parent_id: h.parent_id,
                state_group_count: h.state_group_count,
                state_group_ids: h.state_group_ids,
                data,
            },
        )
    }

    pub fn encode(&self, w: &mut BitWriter)
        ensures
            final(w).bits@ == old(w).bits@ + spec_encode_create(self@),
    {
        self.type_id.encode(w);
        self.network_id.encode(w);
        self.parent_id.encode(w);
        self.state_group_count.encode(w);
        encode_seq(&self.state_group_ids, w);
        w.write_bytes(self.data.as_slice());
        assert(w.bits@ =~= old(w).bits@ + spec_encode_create(self@));
    }
}

/// Server state sync packet. Double- and single-precision fields hold the
/// IEEE-754 bit patterns of their values.
#[derive(Clone, Debug, PartialEq)]
pub struct ServerStatePacket {
    pub is_streaming: BitBool,
    pub packet_id: BitAligned<u8>,
    pub statistics: Nullable<StatisticsState>,
    /// Bit pattern of an `f64`.
    pub server_timestamp: BitAligned<u64>,
    /// Bit pattern of an `f64`.
    pub last_client_timestamp: BitAligned<u64>,
    /// Bit pattern of an `f64`.
    pub last_client_realtime: BitAligned<u64>,
    /// Bit pattern of an `f32`.
    pub server_simulation_ratio: BitAligned<u32>,
    /// Bit pattern of an `f32`.
    pub server_cpu_load: BitAligned<u32>,
    /// Bit pattern of an `f32`.
    pub server_thread_load: BitAligned<u32>,
    /// The state groups: the rest of the stream.
    pub state_groups: StateGroups,
}

/// The view of a [`ServerStatePacket`].
pub struct ServerStatePacketView {
    pub is_streaming: BitBool,
    pub packet_id: BitAligned<u8>,
    pub statistics: Option<StatisticsState>,
    pub server_timestamp: BitAligned<u64>,
    pub last_client_timestamp: BitAligned<u64>,
    pub last_client_realtime: BitAligned<u64>,
    pub server_simulation_ratio: BitAligned<u32>,
    pub server_cpu_load: BitAligned<u32>,
    pub server_thread_load: BitAligned<u32>,
    pub state_groups: Seq<StateGroupEntryView>,
}

impl View for ServerStatePacket {
    type V = ServerStatePacketView;

    open spec fn view(&self) -> ServerStatePacketView {
        ServerStatePacketView {
            is_streaming: self.is_streaming,
            packet_id: self.packet_id,
            statistics: self.statistics@,
            server_timestamp: self.server_timestamp,
            last_client_timestamp: self.last_client_timestamp,
            last_client_realtime: self.last_client_realtime,
            server_simulation_ratio: self.server_simulation_ratio,
            server_cpu_load: self.server_cpu_load,
            server_thread_load: self.server_thread_load,
            state_groups: self.state_groups@,
        }
    }
}

/// Decoding a server state sync packet: its fixed fields, then the state
/// groups in the rest of the stream.
pub open spec fn spec_decode_server_state(s: Seq<bool>, pos: int) -> Decoded<ServerStatePacketView> {
    BitBool::spec_decode(s, pos).and_then(
        |is_streaming: BitBool, p1: int|
            BitAligned::<u8>::spec_decode(s, p1).and_then(
                |packet_id: BitAligned<u8>, p2: int|
                    Nullable::<StatisticsState>::spec_decode(s, p2).and_then(
                        |statistics: Option<StatisticsState>, p3: int|
                            BitAligned::<u64>::spec_decode(s, p3).and_then(
                                |server_timestamp: BitAligned<u64>, p4: int|
                                    BitAligned::<u64>::spec_decode(s, p4).and_then(
                                        |last_client_timestamp: BitAligned<u64>, p5: int|
                                            BitAligned::<u64>::spec_decode(s, p5).and_then(
                                                |last_client_realtime: BitAligned<u64>, p6: int|
                                                    BitAligned::<u32>::spec_decode(s, p6).and_then(
                                                        |server_simulation_ratio: BitAligned<u32>, p7: int|
                                                            BitAligned::<u32>::spec_decode(
                                                                s,
                                                                p7,
                                                            ).and_then(
                                                                |server_cpu_load: BitAligned<u32>, p8: int|
                                                                    BitAligned::<u32>::spec_decode(
                                                                        s,
                                                                        p8,
                                                                    ).and_then(
                                                                        |server_thread_load: BitAligned<u32>, p9: int|
                                                                            spec_state_groups(
                                                                                s,
                                                                                p9,
                                                                                is_streaming.0,
                                                                            ).map(
                                                                                |state_groups: Seq<StateGroupEntryView>|
                                                                                    ServerStatePacketView {
                                                                                        is_streaming,
                                                                                        packet_id,
                                                                                        statistics,
                                                                                        server_timestamp,
                                                                                        last_client_timestamp,
                                                                                        last_client_realtime,
                                                                                        server_simulation_ratio,
                                                                                        server_cpu_load,
                                                                                        server_thread_load,
                                                                                        state_groups,
                                                                                    },
                                                                            ),
                                                                    ),
                                                            ),
                                                    ),
                                            ),
                                    ),
                            ),
                    ),
            ),
    )
}

/// The bits the writer emits for a server state sync packet.
pub open spec fn spec_encode_server_state(v: ServerStatePacketView) -> Seq<bool> {
    BitBool::spec_encode(v.is_streaming) + BitAligned::<u8>::spec_encode(v.packet_id)
        + Nullable::<StatisticsState>::spec_encode(v.statistics) + BitAligned::<u64>::spec_encode(
        v.server_timestamp,
    ) + BitAligned::<u64>::spec_encode(v.last_client_timestamp) + BitAligned::<u64>::spec_encode(
        v.last_client_realtime,
    ) + BitAligned::<u32>::spec_encode(v.server_simulation_ratio) + BitAligned::<u32>::spec_encode(
        v.server_cpu_load,
    ) + BitAligned::<u32>::spec_encode(v.server_thread_load) + spec_encode_state_groups(
        v.state_groups,
        v.is_streaming.0,
        false,
    )
}

impl ServerStatePacket {
    pub fn decode(r: &mut BitReader) -> (res: Result<ServerStatePacket, DecodeError>)
        requires
            old(r).wf(),
        ensures
            decoded_as(*old(r), *final(r), res, spec_decode_server_state(old(r).bits@, old(r).pos as int)),
    {
        let is_streaming = match BitBool::decode(r) {
            Ok(v) => v,
            Err(e) => {
                return Err(e);
            },
        };
        let packet_id = match BitAligned::<u8>::decode(r) {
            Ok(v) => v,
            Err(e) => {
                return Err(e);
            },
        };
        let statistics = match Nullable::<StatisticsState>::decode(r) {
            Ok(v) => v,
            Err(e) => {
                return Err(e);
            },
        };
        let server_timestamp = match BitAligned::<u64>::decode(r) {
            Ok(v) => v,
            Err(e) => {
                return Err(e);
            },
        };
        let last_client_timestamp = match BitAligned::<u64>::decode(r) {
            Ok(v) => v,
            Err(e) => {
                return Err(e);
            },
        };
        let last_client_realtime = match BitAligned::<u64>::decode(r) {
            Ok(v) => v,
            Err(e) => {
                return Err(e);
            },
        };
        let server_simulation_ratio = match BitAligned::<u32>::decode(r) {
            Ok(v) => v,
            Err(e) => {
                return Err(e);
            },
        };
        let server_cpu_load = match BitAligned::<u32>::decode(r) {
            Ok(v) => v,
            Err(e) => {
                return Err(e);
            },
        };
        let server_thread_load = match BitAligned::<u32>::decode(r) {
            Ok(v) => v,
            Err(e) => {
                return Err(e);
            },
        };
        let state_groups = match StateGroups::decode(r, is_streaming.0) {
            Ok(v) => v,
            Err(e) => {
                return Err(e);
            },
        };
        Ok(
            ServerStatePacket {
                is_streaming,
                packet_id,
                statistics,
                server_timestamp,
                last_client_timestamp,
                last_client_realtime,
                server_simulation_ratio,
                server_cpu_load,
                server_thread_load,
                state_groups,
            },
        )
    }

    pub fn encode(&self, w: &mut BitWriter)
        ensures
            final(w).bits@ == old(w).bits@ + spec_encode_server_state(self@),
    {
        self.is_streaming.encode(w);
        assert(w.bits@.len() > 0);
        self.packet_id.encode(w);
        self.statistics.encode(w);
        self.server_timestamp.encode(w);
        self.last_client_timestamp.encode(w);
        self.last_client_realtime.encode(w);
        self.server_simulation_ratio.encode(w);
        self.server_cpu_load.encode(w);
        self.server_thread_load.encode(w);
        assert(w.bits@.len() > 0);
        self.state_groups.encode(w, self.is_streaming.0);
        assert(w.bits@ =~= old(w).bits@ + spec_encode_server_state(self@));
    }
}

/// A packet body kept unparsed: the rest of the stream. World saves,
/// player data and island lists travel this way.
#[derive(Clone, Debug, PartialEq)]
pub struct UnparsedBody {
    pub bits: Vec<bool>,
}

impl View for UnparsedBody {
    type V = Seq<bool>;

    open spec fn view(&self) -> Seq<bool> {
        self.bits@
    }
}

/// The rest of the stream.
pub open spec fn spec_read_rest_bits(s: Seq<bool>, pos: int) -> Decoded<Seq<bool>> {
    Decoded::Value(s.subrange(pos, s.len() as int), s.len() as int)
}

impl UnparsedBody {
    pub fn decode(r: &mut BitReader) -> (res: Result<UnparsedBody, DecodeError>)
        requires
            old(r).wf(),
        ensures
            decoded_as(*old(r), *final(r), res, spec_read_rest_bits(old(r).bits@, old(r).pos as int)),
    {
        let mut bits: Vec<bool> = Vec::new();
        while r.pos < r.bits.len()
            invariant
                r.wf(),
                r.bits@ == old(r).bits@,
                old(r).pos <= r.pos,
                bits@ =~= r.bits@.subrange(old(r).pos as int, r.pos as int),
            decreases r.bits.len() - r.pos,
        {
            bits.push(r.bits[r.pos]);
            r.pos = r.pos + 1;
        }
        Ok(UnparsedBody { bits })
    }

    pub fn encode(&self, w: &mut BitWriter)
        ensures
            final(w).bits@ == old(w).bits@ + self@,
    {
        w.write_bit_seq(&self.bits);
    }
}

/// Packet payload, by packet ID.
#[derive(Clone, Debug, PartialEq)]
pub enum Packet {
    Flush,
    Rpc(RawRpcPacket),
    ReplicationCreate(ReplicationCreatePacket),
    ReplicationDestroy(ReplicationDestroyPacket),
    ServerData(ServerDataPacket),
    ServerStateSync(ServerStatePacket),
    ClientReady(ClientReadyPacket),
    ClientUpdate(ClientUpdatePacket),
    ReplicationReady(ReplicationReadyPacket),
    ReplicationStreamBegin(ReplicationStreamBeginPacket),
    JoinResult(JoinResultPacket),
    WorldData(WorldDataPacket),
    ClientConnected(ClientConnectedPacket),
    ClientAcks(ClientAckPacket),
    ReplicationIslandDone(UnparsedBody),
    ReplicationRequest(ReplicationRequestPacket),
    World(UnparsedBody),
    PlayerData(UnparsedBody),
    Unknown,
}

/// The view of a [`Packet`].
pub enum PacketView {
    Flush,
    Rpc(RawRpcPacketView),
    ReplicationCreate(ReplicationCreatePacketView),
    ReplicationDestroy(ReplicationDestroyPacket),
    ServerData(ServerDataPacketView),
    ServerStateSync(ServerStatePacketView),
    ClientReady(ClientReadyPacket),
    ClientUpdate(ClientUpdatePacket),
    ReplicationReady(ReplicationReadyPacket),
    ReplicationStreamBegin(ReplicationStreamBeginPacketView),
    JoinResult(JoinResultPacket),
    WorldData(WorldDataPacketView),
    ClientConnected(ClientConnectedPacketView),
    ClientAcks(ClientAckPacketView),
    ReplicationIslandDone(Seq<bool>),
    ReplicationRequest(ReplicationRequestPacket),
    World(Seq<bool>),
    PlayerData(Seq<bool>),
    Unknown,
}

impl View for Packet {
    type V = PacketView;

    open spec fn view(&self) -> PacketView {
        match self {
            Packet::Flush => PacketView::Flush,
            Packet::Rpc(x) => PacketView::Rpc(x@),
            Packet::ReplicationCreate(x) => PacketView::ReplicationCreate(x@),
            Packet::ReplicationDestroy(x) => PacketView::ReplicationDestroy(x@),
            Packet::ServerData(x) => PacketView::ServerData(x@),
            Packet::ServerStateSync(x) => PacketView::ServerStateSync(x@),
            Packet::ClientReady(x) => PacketView::ClientReady(x@),
            Packet::ClientUpdate(x) => PacketView::ClientUpdate(x@),
            Packet::ReplicationReady(x) => PacketView::ReplicationReady(x@),
            Packet::ReplicationStreamBegin(x) => PacketView::ReplicationStreamBegin(x@),
            Packet::JoinResult(x) => PacketView::JoinResult(x@),
            Packet::WorldData(x) => PacketView::WorldData(x@),
            Packet::ClientConnected(x) => PacketView::ClientConnected(x@),
            Packet::ClientAcks(x) => PacketView::ClientAcks(x@),
            Packet::ReplicationIslandDone(x) => PacketView::ReplicationIslandDone(x@),
            Packet::ReplicationRequest(x) => PacketView::ReplicationRequest(x@),
            Packet::World(x) => PacketView::World(x@),
            Packet::PlayerData(x) => PacketView::PlayerData(x@),
            Packet::Unknown => PacketView::Unknown,
        }
    }
}

/// Decoding the payload of the packet type `id`.
pub open spec fn spec_decode_packet(s: Seq<bool>, pos: int, id: PacketId) -> Decoded<PacketView> {
    match id {
        PacketId::Flush => Decoded::Value(PacketView::Flush, pos),
        PacketId::Rpc => spec_decode_rpc(s, pos).map(|x: RawRpcPacketView| PacketView::Rpc(x)),
        PacketId::ReplicationCreate => spec_decode_create(s, pos).map(|x: ReplicationCreatePacketView| PacketView::ReplicationCreate(x)),
        PacketId::ReplicationDestroy => ReplicationDestroyPacket::spec_decode(s, pos).map(|x: ReplicationDestroyPacket| PacketView::ReplicationDestroy(x)),
        PacketId::ServerData => ServerDataPacket::spec_decode(s, pos).map(|x: ServerDataPacketView| PacketView::ServerData(x)),
        PacketId::ServerStateSync => spec_decode_server_state(s, pos).map(|x: ServerStatePacketView| PacketView::ServerStateSync(x)),
        PacketId::ClientReady => ClientReadyPacket::spec_decode(s, pos).map(|x: ClientReadyPacket| PacketView::ClientReady(x)),
        PacketId::ClientUpdate => ClientUpdatePacket::spec_decode(s, pos).map(|x: ClientUpdatePacket| PacketView::ClientUpdate(x)),
        PacketId::ReplicationReady => ReplicationReadyPacket::spec_decode(s, pos).map(|x: ReplicationReadyPacket| PacketView::ReplicationReady(x)),
        PacketId::ReplicationStreamBegin => ReplicationStreamBeginPacket::spec_decode(s, pos).map(|x: ReplicationStreamBeginPacketView| PacketView::ReplicationStreamBegin(x)),
        PacketId::JoinResult => JoinResultPacket::spec_decode(s, pos).map(|x: JoinResultPacket| PacketView::JoinResult(x)),
        PacketId::WorldData => WorldDataPacket::spec_decode(s, pos).map(|x: WorldDataPacketView| PacketView::WorldData(x)),
        PacketId::ClientConnected => ClientConnectedPacket::spec_decode(s, pos).map(|x: ClientConnectedPacketView| PacketView::ClientConnected(x)),
        PacketId::ClientAcks => ClientAckPacket::spec_decode(s, pos).map(|x: ClientAckPacketView| PacketView::ClientAcks(x)),
        PacketId::ReplicationIslandDone => spec_read_rest_bits(s, pos).map(|x: Seq<bool>| PacketView::ReplicationIslandDone(x)),
        PacketId::ReplicationRequest => ReplicationRequestPacket::spec_decode(s, pos).map(|x: ReplicationRequestPacket| PacketView::ReplicationRequest(x)),
        PacketId::World => spec_read_rest_bits(s, pos).map(|x: Seq<bool>| PacketView::World(x)),
        PacketId::PlayerData => spec_read_rest_bits(s, pos).map(|x: Seq<bool>| PacketView::PlayerData(x)),
        PacketId::Unknown => Decoded::Value(PacketView::Unknown, pos),
    }
}

/// The bits the writer emits for a payload; the packet ID is written by
/// the enclosing packet.
pub open spec fn spec_encode_packet(v: PacketView) -> Seq<bool> {
    match v {
        PacketView::Flush => Seq::empty(),
        PacketView::Rpc(x) => spec_encode_rpc(x),
        PacketView::ReplicationCreate(x) => spec_encode_create(x),
        PacketView::ReplicationDestroy(x) => ReplicationDestroyPacket::spec_encode(x),
        PacketView::ServerData(x) => ServerDataPacket::spec_encode(x),
        PacketView::ServerStateSync(x) => spec_encode_server_state(x),
        PacketView::ClientReady(x) => ClientReadyPacket::spec_encode(x),
        PacketView::ClientUpdate(x) => ClientUpdatePacket::spec_encode(x),
        PacketView::ReplicationReady(x) => ReplicationReadyPacket::spec_encode(x),
        PacketView::ReplicationStreamBegin(x) => ReplicationStreamBeginPacket::spec_encode(x),
        PacketView::JoinResult(x) => JoinResultPacket::spec_encode(x),
        PacketView::WorldData(x) => WorldDataPacket::spec_encode(x),
        PacketView::ClientConnected(x) => ClientConnectedPacket::spec_encode(x),
        PacketView::ClientAcks(x) => ClientAckPacket::spec_encode(x),
        PacketView::ReplicationIslandDone(x) => x,
        PacketView::ReplicationRequest(x) => ReplicationRequestPacket::spec_encode(x),
        PacketView::World(x) => x,
        PacketView::PlayerData(x) => x,
        PacketView::Unknown => Seq::empty(),
    }
}

impl Packet {
    /// Decode the payload of the packet type `id`.
    #[verifier::rlimit(80)]
    #[verifier::spinoff_prover]
    pub fn decode(r: &mut BitReader, id: PacketId) -> (res: Result<Packet, DecodeError>)
        requires
            old(r).wf(),
        ensures
            decoded_as(*old(r), *final(r), res, spec_decode_packet(old(r).bits@, old(r).pos as int, id)),
    {
        match id {
            PacketId::Flush => Ok(Packet::Flush),
            PacketId::Rpc => match RawRpcPacket::decode(r) {
                Ok(x) => Ok(Packet::Rpc(x)),
                Err(e) => Err(e),
            },
            PacketId::ReplicationCreate => match ReplicationCreatePacket::decode(r) {
                Ok(x) => Ok(Packet::ReplicationCreate(x)),
                Err(e) => Err(e),
            },
            PacketId::ReplicationDestroy => match ReplicationDestroyPacket::decode(r) {
                Ok(x) => Ok(Packet::ReplicationDestroy(x)),
                Err(e) => Err(e),
            },
            PacketId::ServerData => match ServerDataPacket::decode(r) {
                Ok(x) => Ok(Packet::ServerData(x)),
                Err(e) => Err(e),
            },
            PacketId::ServerStateSync => match ServerStatePacket::decode(r) {
                Ok(x) => Ok(Packet::ServerStateSync(x)),
                Err(e) => Err(e),
            },
            PacketId::ClientReady => match ClientReadyPacket::decode(r) {
                Ok(x) => Ok(Packet::ClientReady(x)),
                Err(e) => Err(e),
            },
            PacketId::ClientUpdate => match ClientUpdatePacket::decode(r) {
                Ok(x) => Ok(Packet::ClientUpdate(x)),
                Err(e) => Err(e),
            },
            PacketId::ReplicationReady => match ReplicationReadyPacket::decode(r) {
                Ok(x) => Ok(Packet::ReplicationReady(x)),
                Err(e) => Err(e),
            },
            PacketId::ReplicationStreamBegin => match ReplicationStreamBeginPacket::decode(r) {
                Ok(x) => Ok(Packet::ReplicationStreamBegin(x)),
                Err(e) => Err(e),
            },
            PacketId::JoinResult => match JoinResultPacket::decode(r) {
                Ok(x) => Ok(Packet::JoinResult(x)),
                Err(e) => Err(e),
            },
            PacketId::WorldData => match WorldDataPacket::decode(r) {
                Ok(x) => Ok(Packet::WorldData(x)),
                Err(e) => Err(e),
            },
            PacketId::ClientConnected => match ClientConnectedPacket::decode(r) {
                Ok(x) => Ok(Packet::ClientConnected(x)),
                Err(e) => Err(e),
            },
            PacketId::ClientAcks => match ClientAckPacket::decode(r) {
                Ok(x) => Ok(Packet::ClientAcks(x)),
                Err(e) => Err(e),
            },
            PacketId::ReplicationIslandDone => match UnparsedBody::decode(r) {
                Ok(x) => Ok(Packet::ReplicationIslandDone(x)),
                Err(e) => Err(e),
            },
            PacketId::ReplicationRequest => match ReplicationRequestPacket::decode(r) {
                Ok(x) => Ok(Packet::ReplicationRequest(x)),
                Err(e) => Err(e),
            },
            PacketId::World => match UnparsedBody::decode(r) {
                Ok(x) => Ok(Packet::World(x)),
                Err(e) => Err(e),
            },
            PacketId::PlayerData => match UnparsedBody::decode(r) {
                Ok(x) => Ok(Packet::PlayerData(x)),
                Err(e) => Err(e),
            },
            PacketId::Unknown => Ok(Packet::Unknown),
        }
    }

    /// Append the bits the writer emits for this payload.
    pub fn encode(&self, w: &mut BitWriter)
        ensures
            final(w).bits@ == old(w).bits@ + spec_encode_packet(self@),
    {
        match self {
            Packet::Flush => {
                assert(old(w).bits@ + Seq::<bool>::empty() =~= old(w).bits@);
            },
            Packet::Rpc(x) => x.encode(w),
            Packet::ReplicationCreate(x) => x.encode(w),
            Packet::ReplicationDestroy(x) => x.encode(w),
            Packet::ServerData(x) => x.encode(w),
            Packet::ServerStateSync(x) => x.encode(w),
            Packet::ClientReady(x) => x.encode(w),
            Packet::ClientUpdate(x) => x.encode(w),
            Packet::ReplicationReady(x) => x.encode(w),
            Packet::ReplicationStreamBegin(x) => x.encode(w),
            Packet::JoinResult(x) => x.encode(w),
            Packet::WorldData(x) => x.encode(w),
            Packet::ClientConnected(x) => x.encode(w),
            Packet::ClientAcks(x) => x.encode(w),
            Packet::ReplicationIslandDone(x) => x.encode(w),
            Packet::ReplicationRequest(x) => x.encode(w),
            Packet::World(x) => x.encode(w),
            Packet::PlayerData(x) => x.encode(w),
            Packet::Unknown => {
                assert(old(w).bits@ + Seq::<bool>::empty() =~= old(w).bits@);
            },
        }
    }
}

/// Top-level replication packet: packet ID, sequence index, payload.
#[derive(Clone, Debug, PartialEq)]
pub struct ReplicationPacket {
    /// Packet type identifier.
    pub packet_id: PacketId,
    /// Sequence index for ordering.
    pub index: u8,
    /// Packet payload (its type follows `packet_id`).
    pub data: Packet,
    /// Sender endpoint: not on the wire, 0 after decoding.
    pub sender: u64,
}

/// The view of a [`ReplicationPacket`].
pub struct ReplicationPacketView {
    pub packet_id: PacketId,
    pub index: u8,
    pub data: PacketView,
    pub sender: u64,
}

impl View for ReplicationPacket {
    type V = ReplicationPacketView;

    open spec fn view(&self) -> ReplicationPacketView {
        ReplicationPacketView {
            packet_id: self.packet_id,
            index: self.index,
            data: self.data@,
            sender: self.sender,
        }
    }
}

/// Decoding a replication packet: ID byte, index byte, then the payload
/// of that type.
pub open spec fn spec_decode_replication(s: Seq<bool>, pos: int) -> Decoded<ReplicationPacketView> {
    PacketId::spec_decode(s, pos).and_then(
        |packet_id: PacketId, p1: int|
            u8::spec_decode(s, p1).and_then(
                |index: u8, p2: int|
                    spec_decode_packet(s, p2, packet_id).map(
                        |data: PacketView| ReplicationPacketView { packet_id, index, data, sender: 0 },
                    ),
            ),
    )
}

/// The bits the writer emits for a replication packet.
pub open spec fn spec_encode_replication(v: ReplicationPacketView) -> Seq<bool> {
    PacketId::spec_encode(v.packet_id) + u8::spec_encode(v.index) + spec_encode_packet(v.data)
}

impl ReplicationPacket {
    pub fn decode(r: &mut BitReader) -> (res: Result<ReplicationPacket, DecodeError>)
        requires
            old(r).wf(),
        ensures
            decoded_as(*old(r), *final(r), res, spec_decode_replication(old(r).bits@, old(r).pos as int)),
    {
        let packet_id = match PacketId::decode(r) {
            Ok(v) => v,
            Err(e) => {
                return Err(e);
            },
        };
        let index = match u8::decode(r) {
            Ok(v) => v,
            Err(e) => {
                return Err(e);
            },
        };
        let data = match Packet::decode(r, packet_id) {
            Ok(v) => v,
            Err(e) => {
                return Err(e);
            },
        };
        Ok(ReplicationPacket { packet_id, index, data, sender: 0 })
    }

    pub fn encode(&self, w: &mut BitWriter)
        ensures
            final(w).bits@ == old(w).bits@ + spec_encode_replication(self@),
    {
        self.packet_id.encode(w);
        self.index.encode(w);
        self.data.encode(w);
        assert(w.bits@ =~= old(w).bits@ + spec_encode_replication(self@));
    }
}

impl FrameBody for ReplicationPacket {
    open spec fn spec_decode_body(s: Seq<bool>, pos: int) -> Decoded<ReplicationPacketView> {
        spec_decode_replication(s, pos)
    }

    open spec fn spec_encode_body(v: ReplicationPacketView) -> Seq<bool> {
        spec_encode_replication(v)
    }

    fn decode_body(r: &mut BitReader) -> (res: Result<ReplicationPacket, DecodeError>) {
        ReplicationPacket::decode(r)
    }

    fn encode_body(&self, w: &mut BitWriter) {
        self.encode(w)
    }
}

/// A replication packet goes out in an unprotected frame.
impl From<ReplicationPacket> for PacketFrame<ReplicationPacket> {
    fn from(data: ReplicationPacket) -> (f: PacketFrame<ReplicationPacket>) {
        PacketFrame::unprotected(data)
    }
}

impl vstd::std_specs::convert::FromSpecImpl<ReplicationPacket> for PacketFrame<ReplicationPacket> {
    open spec fn obeys_from_spec() -> bool {
        true
    }

    open spec fn from_spec(data: ReplicationPacket) -> PacketFrame<ReplicationPacket> {
        PacketFrame {
            magic_number: crate::packet::MAGIC_NUMBER,
            message_type: crate::packet::MessageType::Unprotected,
            checksum: 0,
            packet_index: 1,
            packet_count: 0,
            inner: data,
        }
    }
}

/// The packet ID that announces a payload.
pub open spec fn spec_packet_id_of(v: PacketView) -> PacketId {
    match v {
        PacketView::Flush => PacketId::Flush,
        PacketView::Rpc(_) => PacketId::Rpc,
        PacketView::ReplicationCreate(_) => PacketId::ReplicationCreate,
        PacketView::ReplicationDestroy(_) => PacketId::ReplicationDestroy,
        PacketView::ServerData(_) => PacketId::ServerData,
        PacketView::ServerStateSync(_) => PacketId::ServerStateSync,
        PacketView::ClientReady(_) => PacketId::ClientReady,
        PacketView::ClientUpdate(_) => PacketId::ClientUpdate,
        PacketView::ReplicationReady(_) => PacketId::ReplicationReady,
        PacketView::ReplicationStreamBegin(_) => PacketId::ReplicationStreamBegin,
        PacketView::JoinResult(_) => PacketId::JoinResult,
        PacketView::WorldData(_) => PacketId::WorldData,
        PacketView::ClientConnected(_) => PacketId::ClientConnected,
        PacketView::ClientAcks(_) => PacketId::ClientAcks,
        PacketView::ReplicationIslandDone(_) => PacketId::ReplicationIslandDone,
        PacketView::ReplicationRequest(_) => PacketId::ReplicationRequest,
        PacketView::World(_) => PacketId::World,
        PacketView::PlayerData(_) => PacketId::PlayerData,
        PacketView::Unknown => PacketId::Unknown,
    }
}

/// Payloads of a fixed layout whose encoding reads back: every kind but
/// the RPC, create, state sync and raw-rest kinds, whose layouts run to the
/// end of the stream.
pub open spec fn fixed_layout_encodable(v: PacketView) -> bool {
    match v {
        PacketView::Flush => true,
        PacketView::ReplicationDestroy(x) => ReplicationDestroyPacket::spec_encodable(x),
        PacketView::ServerData(x) => ServerDataPacket::spec_encodable(x),
        PacketView::ClientReady(x) => ClientReadyPacket::spec_encodable(x),
        PacketView::ClientUpdate(x) => ClientUpdatePacket::spec_encodable(x),
        PacketView::ReplicationReady(x) => ReplicationReadyPacket::spec_encodable(x),
        PacketView::ReplicationStreamBegin(x) => ReplicationStreamBeginPacket::spec_encodable(x),
        PacketView::JoinResult(x) => JoinResultPacket::spec_encodable(x),
        PacketView::WorldData(x) => WorldDataPacket::spec_encodable(x),
        PacketView::ClientConnected(x) => ClientConnectedPacket::spec_encodable(x),
        PacketView::ClientAcks(x) => ClientAckPacket::spec_encodable(x),
        PacketView::ReplicationRequest(x) => ReplicationRequestPacket::spec_encodable(x),
        PacketView::Unknown => true,
        _ => false,
    }
}

/// A payload of a fixed layout reads back from its encoding, under the
/// packet ID that announces it, wherever it stands in a stream.
#[verifier::rlimit(50)]
#[verifier::spinoff_prover]
pub proof fn lemma_packet_decode_encode(v: PacketView, s: Seq<bool>, pos: int)
    requires
        fixed_layout_encodable(v),
        0 <= pos,
        pos + spec_encode_packet(v).len() <= s.len(),
        s.subrange(pos, pos + spec_encode_packet(v).len()) == spec_encode_packet(v),
    ensures
        spec_decode_packet(s, pos, spec_packet_id_of(v)) == Decoded::Value(v, pos + spec_encode_packet(v).len()),
{
    match v {
        PacketView::ReplicationDestroy(x) => ReplicationDestroyPacket::lemma_decode_encode(x, s, pos),
        PacketView::ServerData(x) => ServerDataPacket::lemma_decode_encode(x, s, pos),
        PacketView::ClientReady(x) => ClientReadyPacket::lemma_decode_encode(x, s, pos),
        PacketView::ClientUpdate(x) => ClientUpdatePacket::lemma_decode_encode(x, s, pos),
        PacketView::ReplicationReady(x) => ReplicationReadyPacket::lemma_decode_encode(x, s, pos),
        PacketView::ReplicationStreamBegin(x) => ReplicationStreamBeginPacket::lemma_decode_encode(x, s, pos),
        PacketView::JoinResult(x) => JoinResultPacket::lemma_decode_encode(x, s, pos),
        PacketView::WorldData(x) => WorldDataPacket::lemma_decode_encode(x, s, pos),
        PacketView::ClientConnected(x) => ClientConnectedPacket::lemma_decode_encode(x, s, pos),
        PacketView::ClientAcks(x) => ClientAckPacket::lemma_decode_encode(x, s, pos),
        PacketView::ReplicationRequest(x) => ReplicationRequestPacket::lemma_decode_encode(x, s, pos),
        _ => {},
    }
}

/// A replication packet whose ID announces its fixed-layout payload reads
/// back from its encoding (with sender 0, which the wire does not carry).
#[verifier::rlimit(50)]
#[verifier::spinoff_prover]
pub proof fn lemma_replication_decode_encode(v: ReplicationPacketView, s: Seq<bool>, pos: int)
    requires
        v.packet_id == spec_packet_id_of(v.data),
        v.sender == 0,
        fixed_layout_encodable(v.data),
        0 <= pos,
        pos + spec_encode_replication(v).len() <= s.len(),
        s.subrange(pos, pos + spec_encode_replication(v).len()) == spec_encode_replication(v),
    ensures
        spec_decode_replication(s, pos) == Decoded::Value(v, pos + spec_encode_replication(v).len()),
{
    let e0 = PacketId::spec_encode(v.packet_id);
    let e1 = u8::spec_encode(v.index);
    let e2 = spec_encode_packet(v.data);
    lemma_split_at(s, pos, e0 + e1, e2);
    lemma_split_at(s, pos, e0, e1);
    PacketId::lemma_decode_encode(v.packet_id, s, pos);
    u8::lemma_decode_encode(v.index, s, pos + e0.len());
    lemma_packet_decode_encode(v.data, s, pos + e0.len() + e1.len());
}

/// A replication packet with a fixed-layout payload, framed and written by
/// `to_bytes`, reads back as written, with a valid checksum.
#[verifier::rlimit(50)]
#[verifier::spinoff_prover]
pub proof fn lemma_replication_frame_roundtrip(f: PacketFrameView<ReplicationPacketView>)
    requires
        f.magic_number == MAGIC_NUMBER,
        f.inner.packet_id == spec_packet_id_of(f.inner.data),
        f.inner.sender == 0,
        fixed_layout_encodable(f.inner.data),
    ensures
        spec_decode_frame::<ReplicationPacket>(frame_stream::<ReplicationPacket>(f), 0) matches Decoded::Value(
            g,
            _,
        ) && g == written_frame::<ReplicationPacket>(f),
        spec_checksum_valid::<ReplicationPacket>(written_frame::<ReplicationPacket>(f)),
{
    lemma_frame_layout::<ReplicationPacket>(f);
    lemma_replication_decode_encode(f.inner, frame_stream::<ReplicationPacket>(f), 64);
}

/// A replication packet carrying an RPC reads back from its encoding when
/// fewer than 8 zero padding bits follow it to the end of the stream.
#[verifier::rlimit(50)]
#[verifier::spinoff_prover]
pub proof fn lemma_replication_rpc_decode_encode(v: ReplicationPacketView, s: Seq<bool>, pos: int, k: nat)
    requires
        v.packet_id == PacketId::Rpc,
        v.data is Rpc,
        v.sender == 0,
        k < 8,
        0 <= pos,
        s.len() == pos + spec_encode_replication(v).len() + k,
        s.subrange(pos, pos + spec_encode_replication(v).len()) == spec_encode_replication(v),
        forall|i: int| s.len() - k <= i < s.len() ==> !s[i],
    ensures
        spec_decode_replication(s, pos) == Decoded::Value(v, s.len() as int),
{
    let rpc = v.data->Rpc_0;
    let e0 = PacketId::spec_encode(v.packet_id);
    let e1 = u8::spec_encode(v.index);
    let e2 = spec_encode_rpc(rpc);
    lemma_split_at(s, pos, e0 + e1, e2);
    lemma_split_at(s, pos, e0, e1);
    PacketId::lemma_decode_encode(v.packet_id, s, pos);
    u8::lemma_decode_encode(v.index, s, pos + e0.len());
    lemma_rpc_decode_encode(rpc, s, pos + e0.len() + e1.len(), k);
}

/// A replication packet carrying an RPC, framed and written by `to_bytes`,
/// reads back as written, with a valid checksum: the RPC body runs to its
/// terminator, which the reader finds before the final padding bits.
#[verifier::rlimit(50)]
#[verifier::spinoff_prover]
pub proof fn lemma_rpc_frame_roundtrip(f: PacketFrameView<ReplicationPacketView>)
    requires
        f.magic_number == MAGIC_NUMBER,
        f.inner.packet_id == PacketId::Rpc,
        f.inner.data is Rpc,
        f.inner.sender == 0,
    ensures
        spec_decode_frame::<ReplicationPacket>(frame_stream::<ReplicationPacket>(f), 0) matches Decoded::Value(
            g,
            _,
        ) && g == written_frame::<ReplicationPacket>(f),
        spec_checksum_valid::<ReplicationPacket>(written_frame::<ReplicationPacket>(f)),
{
    let s = frame_stream::<ReplicationPacket>(f);
    let e = crate::packet::spec_encode_frame::<ReplicationPacket>(f);
    lemma_frame_layout::<ReplicationPacket>(f);
    lemma_bits_bytes_padded(e);
    let k = pad_len(e.len());
    assert forall|i: int| s.len() - k <= i < s.len() implies !s[i] by {
        assert(s[i] == (e + zero_bits(k))[i]);
    }
    lemma_replication_rpc_decode_encode(f.inner, s, 64, k);
    lemma_frame_roundtrip::<ReplicationPacket>(f);
}


/// The wire identifier of each replication packet is the game's `MyPacketId`
/// value: 4 creates a replica, 5 destroys one, 7 is a server state sync,
/// and so on.
///
/// An identifier names exactly the variant whose identifier it is, and
/// nothing else.
pub proof fn lemma_packet_id_table()
    ensures
        PacketId::Unknown.spec_id() == 0,
        PacketId::Flush.spec_id() == 2,
        PacketId::Rpc.spec_id() == 3,
        PacketId::ReplicationCreate.spec_id() == 4,
        PacketId::ReplicationDestroy.spec_id() == 5,
        PacketId::ServerData.spec_id() == 6,
        PacketId::ServerStateSync.spec_id() == 7,
        PacketId::ClientReady.spec_id() == 8,
        PacketId::ClientUpdate.spec_id() == 9,
        PacketId::ReplicationReady.spec_id() == 10,
        PacketId::ReplicationStreamBegin.spec_id() == 11,
        PacketId::JoinResult.spec_id() == 12,
        PacketId::WorldData.spec_id() == 13,
        PacketId::ClientConnected.spec_id() == 14,
        PacketId::ClientAcks.spec_id() == 17,
        PacketId::ReplicationIslandDone.spec_id() == 18,
        PacketId::ReplicationRequest.spec_id() == 19,
        PacketId::World.spec_id() == 20,
        PacketId::PlayerData.spec_id() == 21,
        forall|id: nat, v: PacketId| #![trigger PacketId::spec_from_id(id), v.spec_id()] PacketId::spec_from_id(id) == Some(v) <==> v.spec_id() == id,
        forall|id: nat| #[trigger] PacketId::spec_from_id(id) is None <==> (forall|v: PacketId| v.spec_id() != id),
{
    assert forall|id: nat, v: PacketId| #![trigger PacketId::spec_from_id(id), v.spec_id()] PacketId::spec_from_id(id) == Some(v) <==> v.spec_id() == id by {
        match v {
            PacketId::Unknown => {},
            PacketId::Flush => {},
            PacketId::Rpc => {},
            PacketId::ReplicationCreate => {},
            PacketId::ReplicationDestroy => {},
            PacketId::ServerData => {},
            PacketId::ServerStateSync => {},
            PacketId::ClientReady => {},
            PacketId::ClientUpdate => {},
            PacketId::ReplicationReady => {},
            PacketId::ReplicationStreamBegin => {},
            PacketId::JoinResult => {},
            PacketId::WorldData => {},
            PacketId::ClientConnected => {},
            PacketId::ClientAcks => {},
            PacketId::ReplicationIslandDone => {},
            PacketId::ReplicationRequest => {},
            PacketId::World => {},
            PacketId::PlayerData => {},
        }
    }
    assert forall|id: nat| #[trigger] PacketId::spec_from_id(id) is None <==> (forall|v: PacketId| v.spec_id() != id) by {
        if PacketId::spec_from_id(id) is None {
            assert forall|v: PacketId| v.spec_id() != id by {
                match v {
                    PacketId::Unknown => {},
                    PacketId::Flush => {},
                    PacketId::Rpc => {},
                    PacketId::ReplicationCreate => {},
                    PacketId::ReplicationDestroy => {},
                    PacketId::ServerData => {},
                    PacketId::ServerStateSync => {},
                    PacketId::ClientReady => {},
                    PacketId::ClientUpdate => {},
                    PacketId::ReplicationReady => {},
                    PacketId::ReplicationStreamBegin => {},
                    PacketId::JoinResult => {},
                    PacketId::WorldData => {},
                    PacketId::ClientConnected => {},
                    PacketId::ClientAcks => {},
                    PacketId::ReplicationIslandDone => {},
                    PacketId::ReplicationRequest => {},
                    PacketId::World => {},
                    PacketId::PlayerData => {},
                }
            }
        } else {
            let v = PacketId::spec_from_id(id).unwrap();
            assert(v.spec_id() == id);
        }
    }
}

/// The wire identifier of each join result is its `JoinResult` value, in
/// declaration order from `Success` = 0.
///
/// An identifier names exactly the variant whose identifier it is, and
/// nothing else.
pub proof fn lemma_join_result_table()
    ensures
        JoinResult::Success.spec_id() == 0,
        JoinResult::AlreadyJoined.spec_id() == 1,
        JoinResult::TicketInvalid.spec_id() == 2,
        JoinResult::SteamServersOffline.spec_id() == 3,
        JoinResult::NotInGroup.spec_id() == 4,
        JoinResult::GroupIdInvalid.spec_id() == 5,
        JoinResult::ServerFull.spec_id() == 6,
        JoinResult::BannedByAdmins.spec_id() == 7,
        JoinResult::KickedRecently.spec_id() == 8,
        JoinResult::TicketCanceled.spec_id() == 9,
        JoinResult::TicketAlreadyUsed.spec_id() == 10,
        JoinResult::LoggedInElseWhere.spec_id() == 11,
        JoinResult::NoLicenseOrExpired.spec_id() == 12,
        JoinResult::UserNotConnected.spec_id() == 13,
        JoinResult::VacBanned.spec_id() == 14,
        JoinResult::VacCheckTimedOut.spec_id() == 15,
        JoinResult::PasswordRequired.spec_id() == 16,
        JoinResult::WrongPassword.spec_id() == 17,
        JoinResult::ExperimentalMode.spec_id() == 18,
        JoinResult::ProfilingNotAllowed.spec_id() == 19,
        JoinResult::FamilySharing.spec_id() == 20,
        JoinResult::NotFound.spec_id() == 21,
        JoinResult::IncorrectTime.spec_id() == 22,
        forall|id: nat, v: JoinResult| #![trigger JoinResult::spec_from_id(id), v.spec_id()] JoinResult::spec_from_id(id) == Some(v) <==> v.spec_id() == id,
        forall|id: nat| #[trigger] JoinResult::spec_from_id(id) is None <==> (forall|v: JoinResult| v.spec_id() != id),
{
    assert forall|id: nat, v: JoinResult| #![trigger JoinResult::spec_from_id(id), v.spec_id()] JoinResult::spec_from_id(id) == Some(v) <==> v.spec_id() == id by {
        match v {
            JoinResult::Success => {},
            JoinResult::AlreadyJoined => {},
            JoinResult::TicketInvalid => {},
            JoinResult::SteamServersOffline => {},
            JoinResult::NotInGroup => {},
            JoinResult::GroupIdInvalid => {},
            JoinResult::ServerFull => {},
            JoinResult::BannedByAdmins => {},
            JoinResult::KickedRecently => {},
            JoinResult::TicketCanceled => {},
            JoinResult::TicketAlreadyUsed => {},
            JoinResult::LoggedInElseWhere => {},
            JoinResult::NoLicenseOrExpired => {},
            JoinResult::UserNotConnected => {},
            JoinResult::VacBanned => {},
            JoinResult::VacCheckTimedOut => {},
            JoinResult::PasswordRequired => {},
            JoinResult::WrongPassword => {},
            JoinResult::ExperimentalMode => {},
            JoinResult::ProfilingNotAllowed => {},
            JoinResult::FamilySharing => {},
            JoinResult::NotFound => {},
            JoinResult::IncorrectTime => {},
        }
    }
    assert forall|id: nat| #[trigger] JoinResult::spec_from_id(id) is None <==> (forall|v: JoinResult| v.spec_id() != id) by {
        if JoinResult::spec_from_id(id) is None {
            assert forall|v: JoinResult| v.spec_id() != id by {
                match v {
                    JoinResult::Success => {},
                    JoinResult::AlreadyJoined => {},
                    JoinResult::TicketInvalid => {},
                    JoinResult::SteamServersOffline => {},
                    JoinResult::NotInGroup => {},
                    JoinResult::GroupIdInvalid => {},
                    JoinResult::ServerFull => {},
                    JoinResult::BannedByAdmins => {},
                    JoinResult::KickedRecently => {},
                    JoinResult::TicketCanceled => {},
                    JoinResult::TicketAlreadyUsed => {},
                    JoinResult::LoggedInElseWhere => {},
                    JoinResult::NoLicenseOrExpired => {},
                    JoinResult::UserNotConnected => {},
                    JoinResult::VacBanned => {},
                    JoinResult::VacCheckTimedOut => {},
                    JoinResult::PasswordRequired => {},
                    JoinResult::WrongPassword => {},
                    JoinResult::ExperimentalMode => {},
                    JoinResult::ProfilingNotAllowed => {},
                    JoinResult::FamilySharing => {},
                    JoinResult::NotFound => {},
                    JoinResult::IncorrectTime => {},
                }
            }
        } else {
            let v = JoinResult::spec_from_id(id).unwrap();
            assert(v.spec_id() == id);
        }
    }
}

/// The wire identifier of each game mode: `Creative` = 0, `Survival` = 1.
///
/// An identifier names exactly the variant whose identifier it is, and
/// nothing else.
pub proof fn lemma_game_mode_table()
    ensures
        GameMode::Creative.spec_id() == 0,
        GameMode::Survival.spec_id() == 1,
        forall|id: nat, v: GameMode| #![trigger GameMode::spec_from_id(id), v.spec_id()] GameMode::spec_from_id(id) == Some(v) <==> v.spec_id() == id,
        forall|id: nat| #[trigger] GameMode::spec_from_id(id) is None <==> (forall|v: GameMode| v.spec_id() != id),
{
    assert forall|id: nat, v: GameMode| #![trigger GameMode::spec_from_id(id), v.spec_id()] GameMode::spec_from_id(id) == Some(v) <==> v.spec_id() == id by {
        match v {
            GameMode::Creative => {},
            GameMode::Survival => {},
        }
    }
    assert forall|id: nat| #[trigger] GameMode::spec_from_id(id) is None <==> (forall|v: GameMode| v.spec_id() != id) by {
        if GameMode::spec_from_id(id) is None {
            assert forall|v: GameMode| v.spec_id() != id by {
                match v {
                    GameMode::Creative => {},
                    GameMode::Survival => {},
                }
            }
        } else {
            let v = GameMode::spec_from_id(id).unwrap();
            assert(v.spec_id() == id);
        }
    }
}

/// The wire identifier of each context kind: none open = 0, terminal = 1,
/// inventory = 2, production = 3.
///
/// An identifier names exactly the variant whose identifier it is, and
/// nothing else.
pub proof fn lemma_context_kind_table()
    ensures
        ContextKind::NoContext.spec_id() == 0,
        ContextKind::Terminal.spec_id() == 1,
        ContextKind::Inventory.spec_id() == 2,
        ContextKind::Production.spec_id() == 3,
        forall|id: nat, v: ContextKind| #![trigger ContextKind::spec_from_id(id), v.spec_id()] ContextKind::spec_from_id(id) == Some(v) <==> v.spec_id() == id,
        forall|id: nat| #[trigger] ContextKind::spec_from_id(id) is None <==> (forall|v: ContextKind| v.spec_id() != id),
{
    assert forall|id: nat, v: ContextKind| #![trigger ContextKind::spec_from_id(id), v.spec_id()] ContextKind::spec_from_id(id) == Some(v) <==> v.spec_id() == id by {
        match v {
            ContextKind::NoContext => {},
            ContextKind::Terminal => {},
            ContextKind::Inventory => {},
            ContextKind::Production => {},
        }
    }
    assert forall|id: nat| #[trigger] ContextKind::spec_from_id(id) is None <==> (forall|v: ContextKind| v.spec_id() != id) by {
        if ContextKind::spec_from_id(id) is None {
            assert forall|v: ContextKind| v.spec_id() != id by {
                match v {
                    ContextKind::NoContext => {},
                    ContextKind::Terminal => {},
                    ContextKind::Inventory => {},
                    ContextKind::Production => {},
                }
            }
        } else {
            let v = ContextKind::spec_from_id(id).unwrap();
            assert(v.spec_id() == id);
        }
    }
}


/// A replication packet's identifier travels as one byte: a stream whose
/// first byte is `b` reads as the packet whose identifier is `b` (so byte 5
/// is a destroyed replica), and a packet's identifier is written as the
/// single byte of its number.
pub proof fn lemma_packet_id_byte(b: u8, rest: Seq<bool>)
    ensures
        forall|p: PacketId|
            PacketId::spec_decode(crate::bits::bits_of_bytes(seq![b]) + rest, 0) == Decoded::Value(p, 8)
                <==> #[trigger] p.spec_id() == b,
        PacketId::spec_from_id(b as nat) is None ==> PacketId::spec_decode(
            crate::bits::bits_of_bytes(seq![b]) + rest,
            0,
        ) == Decoded::<PacketId>::Failed(DecodeError::UnknownId),
        forall|p: PacketId| #[trigger] PacketId::spec_encode(p) == crate::bits::bits_of_bytes(seq![p.spec_id() as u8]),
{
    let s = crate::bits::bits_of_bytes(seq![b]) + rest;
    crate::bits::lemma_bits_of_one_byte(b);
    lemma_two_pow_values();
    lemma_bits_of_uint_len(b as nat, 8);
    assert(s.subrange(0, 8) =~= bits_of_uint(b as nat, 8));
    lemma_uint_roundtrip(b as nat, 8);
    assert(crate::bits::uint_at(s, 0, 8) == b as nat);
    lemma_packet_id_table();
    assert forall|p: PacketId| #[trigger] PacketId::spec_encode(p) == crate::bits::bits_of_bytes(seq![p.spec_id() as u8]) by {
        crate::bits::lemma_bits_of_one_byte(p.spec_id() as u8);
        assert(p.spec_id() < 256);
    }
}

} // verus!
