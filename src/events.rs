use vstd::prelude::*;

use crate::entity::{DirectionChange, Vec2Bits, Yaw};
use crate::ids::Id;
use crate::stats::Stat;

verus! {

/// An intention sent by a client.
#[derive(Clone, Copy, Debug, PartialEq, Eq, Structural)]
pub enum UserEvent {
    SetShooting { shooting: bool },
    Yaw { yaw: Yaw },
    LevelUpgrade { stat: Stat },
    DirectionChange { direction: DirectionChange },
}

/// What a client session hands to its hub.
#[derive(Clone, Copy, Debug, PartialEq, Eq, Structural)]
pub enum UserMessage {
    Event { event: UserEvent, user: Id },
    GoingAway(Id),
}

/// Little-endian bytes of a 32-bit integer.
pub open spec fn u32_bytes(v: u32) -> Seq<u8> {
    seq![v as u8, (v >> 8u32) as u8, (v >> 16u32) as u8, (v >> 24u32) as u8]
}

/// The 32-bit integer held in four little-endian bytes at `at`.
pub open spec fn u32_at(b: Seq<u8>, at: int) -> u32 {
    (b[at] as u32) | ((b[at + 1] as u32) << 8u32) | ((b[at + 2] as u32) << 16u32) | ((
    b[at + 3] as u32) << 24u32)
}

/// Little-endian bytes of a 64-bit integer.
pub open spec fn u64_bytes(v: u64) -> Seq<u8> {
    seq![
        v as u8,
        (v >> 8u64) as u8,
        (v >> 16u64) as u8,
        (v >> 24u64) as u8,
        (v >> 32u64) as u8,
        (v >> 40u64) as u8,
        (v >> 48u64) as u8,
        (v >> 56u64) as u8,
    ]
}

/// The 64-bit integer held in eight little-endian bytes at `at`.
pub open spec fn u64_at(b: Seq<u8>, at: int) -> u64 {
    (b[at] as u64) | ((b[at + 1] as u64) << 8u64) | ((b[at + 2] as u64) << 16u64) | ((
    b[at + 3] as u64) << 24u64) | ((b[at + 4] as u64) << 32u64) | ((b[at + 5] as u64)
        << 40u64) | ((b[at + 6] as u64) << 48u64) | ((b[at + 7] as u64) << 56u64)
}

/// A variant tag: four little-endian bytes.
pub open spec fn tag_bytes(tag: int) -> Seq<u8> {
    u32_bytes(tag as u32)
}

pub open spec fn bool_byte(v: bool) -> u8 {
    if v { 1 } else { 0 }
}

pub open spec fn byte_bool(b: u8) -> Option<bool> {
    if b == 0 {
        Some(false)
    } else if b == 1 {
        Some(true)
    } else {
        None
    }
}

/// Two's complement little-endian bytes of a 16-bit integer.
pub open spec fn i16_bytes(v: i16) -> Seq<u8> {
    let u: int = if v < 0 { v + 65536 } else { v as int };
    seq![(u % 256) as u8, (u / 256) as u8]
}

/// The 16-bit integer held in two little-endian bytes at `at`.
pub open spec fn i16_at(b: Seq<u8>, at: int) -> i16 {
    let u = b[at] as int + 256 * b[at + 1] as int;
    (if u >= 32768 { u - 65536 } else { u }) as i16
}

impl UserEvent {
    /// Tag, as four little-endian bytes, then the fields in order: a bool as
    /// one byte, a yaw as two, a stat as its four-byte tag, a direction as
    /// four bools.
    pub open spec fn spec_encode(self) -> Seq<u8> {
        match self {
            UserEvent::SetShooting { shooting } => tag_bytes(0) + seq![bool_byte(shooting)],
            UserEvent::Yaw { yaw } => tag_bytes(1) + i16_bytes(yaw.0),
            UserEvent::LevelUpgrade { stat } => tag_bytes(2) + tag_bytes(stat.spec_index()),
            UserEvent::DirectionChange { direction } => tag_bytes(3) + seq![
                bool_byte(direction.up),
                bool_byte(direction.left),
                bool_byte(direction.down),
                bool_byte(direction.right),
            ],
        }
    }

    /// The event that the front of `b` holds, if it holds one; bytes after
    /// it are not read.
    pub open spec fn parse(b: Seq<u8>) -> Option<UserEvent> {
        if b.len() < 4 {
            None
        } else {
            let tag = u32_at(b, 0) as int;
            if tag == 0 && b.len() >= 5 {
                match byte_bool(b[4]) {
                    Some(shooting) => Some(UserEvent::SetShooting { shooting }),
                    None => None,
                }
            } else if tag == 1 && b.len() >= 6 {
                Some(UserEvent::Yaw { yaw: Yaw(i16_at(b, 4)) })
            } else if tag == 2 && b.len() >= 8 && (u32_at(b, 4) as int) < 8 {
                Some(UserEvent::LevelUpgrade { stat: stat_at(u32_at(b, 4) as int) })
            } else if tag == 3 && b.len() >= 8 {
                match (byte_bool(b[4]), byte_bool(b[5]), byte_bool(b[6]), byte_bool(b[7])) {
                    (Some(up), Some(left), Some(down), Some(right)) => Some(
                        UserEvent::DirectionChange {
                            direction: DirectionChange { up, left, down, right },
                        },
                    ),
                    _ => None,
                }
            } else {
                None
            }
        }
    }

    pub fn encode(&self) -> (r: Vec<u8>)
        ensures
            r@ == self.spec_encode(),
    {
        let mut r: Vec<u8> = Vec::new();
        match self {
            UserEvent::SetShooting { shooting } => {
                push_tag(&mut r, 0);
                r.push(encode_bool(*shooting));
            },
            UserEvent::Yaw { yaw } => {
                push_tag(&mut r, 1);
                push_i16(&mut r, yaw.0);
            },
            UserEvent::LevelUpgrade { stat } => {
                push_tag(&mut r, 2);
                push_tag(&mut r, stat.index() as u32);
            },
            UserEvent::DirectionChange { direction } => {
                push_tag(&mut r, 3);
                r.push(encode_bool(direction.up));
                r.push(encode_bool(direction.left));
                r.push(encode_bool(direction.down));
                r.push(encode_bool(direction.right));
            },
        }
        assert(r@ =~= self.spec_encode());
        r
    }

    pub fn decode(b: &[u8]) -> (r: Option<UserEvent>)
        ensures
            r == UserEvent::parse(b@),
    {
        if b.len() < 4 {
            return None;
        }
        let tag = read_u32(b, 0);
        if tag == 0 && b.len() >= 5 {
            match decode_bool(b[4]) {
                Some(shooting) => Some(UserEvent::SetShooting { shooting }),
                None => None,
            }
        } else if tag == 1 && b.len() >= 6 {
            Some(UserEvent::Yaw { yaw: Yaw(read_i16(b, 4)) })
        } else if tag == 2 && b.len() >= 8 {
            match Stat::from_index(read_u32(b, 4)) {
                Some(stat) => Some(UserEvent::LevelUpgrade { stat }),
                None => None,
            }
        } else if tag == 3 && b.len() >= 8 {
            match (decode_bool(b[4]), decode_bool(b[5]), decode_bool(b[6]), decode_bool(b[7])) {
                (Some(up), Some(left), Some(down), Some(right)) => Some(
                    UserEvent::DirectionChange { direction: DirectionChange { up, left, down, right } },
                ),
                _ => None,
            }
        } else {
            None
        }
    }
}

/// The stat whose position is `i`.
pub open spec fn stat_at(i: int) -> Stat {
    if i == 0 {
        Stat::HealthRegen
    } else if i == 1 {
        Stat::MaxHealth
    } else if i == 2 {
        Stat::BodyDamage
    } else if i == 3 {
        Stat::BulletSpeed
    } else if i == 4 {
        Stat::BulletPenetration
    } else if i == 5 {
        Stat::BulletDamage
    } else if i == 6 {
        Stat::Reload
    } else {
        Stat::MovementSpeed
    }
}

fn push_tag(r: &mut Vec<u8>, tag: u32)
    ensures
        final(r)@ == old(r)@ + tag_bytes(tag as int),
{
    push_u32(r, tag);
}

fn push_i16(r: &mut Vec<u8>, v: i16)
    ensures
        final(r)@ == old(r)@ + i16_bytes(v),
{
    let u: u16 = if v < 0 { (v as i32 + 65536) as u16 } else { v as u16 };
    r.push((u % 256) as u8);
    r.push((u / 256) as u8);
    assert(final(r)@ =~= old(r)@ + i16_bytes(v));
}

fn encode_bool(v: bool) -> (r: u8)
    ensures
        r == bool_byte(v),
{
    if v { 1 } else { 0 }
}

fn decode_bool(b: u8) -> (r: Option<bool>)
    ensures
        r == byte_bool(b),
{
    if b == 0 {
        Some(false)
    } else if b == 1 {
        Some(true)
    } else {
        None
    }
}

fn read_u32(b: &[u8], at: usize) -> (r: u32)
    requires
        at + 4 <= b@.len(),
    ensures
        r == u32_at(b@, at as int),
{
    (b[at] as u32) | ((b[at + 1] as u32) << 8u32) | ((b[at + 2] as u32) << 16u32) | ((b[at
        + 3] as u32) << 24u32)
}

fn read_u64(b: &[u8], at: usize) -> (r: u64)
    requires
        at + 8 <= b@.len(),
    ensures
        r == u64_at(b@, at as int),
{
    (b[at] as u64) | ((b[at + 1] as u64) << 8u64) | ((b[at + 2] as u64) << 16u64) | ((b[at
        + 3] as u64) << 24u64) | ((b[at + 4] as u64) << 32u64) | ((b[at + 5] as u64) << 40u64)
        | ((b[at + 6] as u64) << 48u64) | ((b[at + 7] as u64) << 56u64)
}

fn push_u32(r: &mut Vec<u8>, v: u32)
    ensures
        final(r)@ == old(r)@ + u32_bytes(v),
{
    r.push(v as u8);
    r.push((v >> 8u32) as u8);
    r.push((v >> 16u32) as u8);
    r.push((v >> 24u32) as u8);
    assert(final(r)@ =~= old(r)@ + u32_bytes(v));
}

fn push_u64(r: &mut Vec<u8>, v: u64)
    ensures
        final(r)@ == old(r)@ + u64_bytes(v),
{
    r.push(v as u8);
    r.push((v >> 8u64) as u8);
    r.push((v >> 16u64) as u8);
    r.push((v >> 24u64) as u8);
    r.push((v >> 32u64) as u8);
    r.push((v >> 40u64) as u8);
    r.push((v >> 48u64) as u8);
    r.push((v >> 56u64) as u8);
    assert(final(r)@ =~= old(r)@ + u64_bytes(v));
}

proof fn lemma_u32_round_trip(b: Seq<u8>, at: int, v: u32)
    requires
        0 <= at,
        at + 4 <= b.len(),
        b.subrange(at, at + 4) == u32_bytes(v),
    ensures
        u32_at(b, at) == v,
{
    assert(b[at] == b.subrange(at, at + 4)[0]);
    assert(b[at + 1] == b.subrange(at, at + 4)[1]);
    assert(b[at + 2] == b.subrange(at, at + 4)[2]);
    assert(b[at + 3] == b.subrange(at, at + 4)[3]);
    let (b0, b1, b2, b3) = (b[at], b[at + 1], b[at + 2], b[at + 3]);
    assert(b0 == v as u8 && b1 == (v >> 8u32) as u8 && b2 == (v >> 16u32) as u8 && b3 == (v
        >> 24u32) as u8 ==> (b0 as u32) | ((b1 as u32) << 8u32) | ((b2 as u32) << 16u32) | ((
    b3 as u32) << 24u32) == v) by (bit_vector);
}

proof fn lemma_u64_round_trip(b: Seq<u8>, at: int, v: u64)
    requires
        0 <= at,
        at + 8 <= b.len(),
        b.subrange(at, at + 8) == u64_bytes(v),
    ensures
        u64_at(b, at) == v,
{
    let s = b.subrange(at, at + 8);
    assert(b[at] == s[0] && b[at + 1] == s[1] && b[at + 2] == s[2] && b[at + 3] == s[3]);
    assert(b[at + 4] == s[4] && b[at + 5] == s[5] && b[at + 6] == s[6] && b[at + 7] == s[7]);
    let (b0, b1, b2, b3) = (b[at], b[at + 1], b[at + 2], b[at + 3]);
    let (b4, b5, b6, b7) = (b[at + 4], b[at + 5], b[at + 6], b[at + 7]);
    assert(b0 == v as u8 && b1 == (v >> 8u64) as u8 && b2 == (v >> 16u64) as u8 && b3 == (v
        >> 24u64) as u8 && b4 == (v >> 32u64) as u8 && b5 == (v >> 40u64) as u8 && b6 == (v
        >> 48u64) as u8 && b7 == (v >> 56u64) as u8 ==> (b0 as u64) | ((b1 as u64) << 8u64)
        | ((b2 as u64) << 16u64) | ((b3 as u64) << 24u64) | ((b4 as u64) << 32u64) | ((
    b5 as u64) << 40u64) | ((b6 as u64) << 48u64) | ((b7 as u64) << 56u64) == v)
        by (bit_vector);
}

fn read_i16(b: &[u8], at: usize) -> (r: i16)
    requires
        at + 2 <= b@.len(),
    ensures
        r == i16_at(b@, at as int),
{
    let u: u32 = b[at] as u32 + 256 * b[at + 1] as u32;
    if u >= 32768 {
        (u as i32 - 65536) as i16
    } else {
        u as i16
    }
}

/// Decoding what `encode` wrote gives the event back.
pub proof fn lemma_user_event_round_trip(e: UserEvent)
    ensures
        UserEvent::parse(e.spec_encode()) == Some(e),
{
    let b = e.spec_encode();
    match e {
        UserEvent::SetShooting { shooting } => {
            assert(b.subrange(0, 4) =~= u32_bytes(0));
            lemma_u32_round_trip(b, 0, 0);
        },
        UserEvent::Yaw { yaw } => {
            assert(b.subrange(0, 4) =~= u32_bytes(1));
            lemma_u32_round_trip(b, 0, 1);
            let v = yaw.0;
            let u: int = if v < 0 { v + 65536 } else { v as int };
            assert(b[4] as int + 256 * b[5] as int == u);
        },
        UserEvent::LevelUpgrade { stat } => {
            assert(b.subrange(0, 4) =~= u32_bytes(2));
            lemma_u32_round_trip(b, 0, 2);
            assert(b.subrange(4, 8) =~= u32_bytes(stat.spec_index() as u32));
            lemma_u32_round_trip(b, 4, stat.spec_index() as u32);
        },
        UserEvent::DirectionChange { direction } => {
            assert(b.subrange(0, 4) =~= u32_bytes(3));
            lemma_u32_round_trip(b, 0, 3);
        },
    }
}

/// A change of the world that every client of a hub is told of.
#[derive(Clone, Copy, Debug, PartialEq, Eq, Structural)]
pub enum ServerEvent {
    EntityDelete { id: Id },
    EntityCreate { id: Id, tank: i32, position: Vec2Bits },
    Position { user: Id, coordinates: Vec2Bits, yaw: Yaw, velocity: Vec2Bits },
}

pub open spec fn vec2_bytes(v: Vec2Bits) -> Seq<u8> {
    u64_bytes(v.x) + u64_bytes(v.y)
}

pub open spec fn vec2_at(b: Seq<u8>, at: int) -> Vec2Bits {
    Vec2Bits { x: u64_at(b, at), y: u64_at(b, at + 8) }
}

impl ServerEvent {
    /// Length of the event's encoding.
    pub open spec fn encoded_len(self) -> int {
        match self {
            ServerEvent::EntityDelete { .. } => 8,
            ServerEvent::EntityCreate { .. } => 28,
            ServerEvent::Position { .. } => 42,
        }
    }

    /// Tag, as four little-endian bytes, then the fields in order: an id
    /// or tank id as four bytes, a yaw as two, each `f64` of a vector as the
    /// eight little-endian bytes of its bit pattern.
    pub open spec fn spec_encode(self) -> Seq<u8> {
        match self {
            ServerEvent::EntityDelete { id } => tag_bytes(0) + u32_bytes(id),
            ServerEvent::EntityCreate { id, tank, position } => tag_bytes(1) + u32_bytes(id)
                + u32_bytes(tank as u32) + vec2_bytes(position),
            ServerEvent::Position { user, coordinates, yaw, velocity } => tag_bytes(2)
                + u32_bytes(user) + vec2_bytes(coordinates) + i16_bytes(yaw.0) + vec2_bytes(
                velocity,
            ),
        }
    }

    /// The event that the front of `b` holds, if it holds one; bytes after
    /// it are not read.
    pub open spec fn parse(b: Seq<u8>) -> Option<ServerEvent> {
        if b.len() < 4 {
            None
        } else {
            let tag = u32_at(b, 0);
            if tag == 0 && b.len() >= 8 {
                Some(ServerEvent::EntityDelete { id: u32_at(b, 4) })
            } else if tag == 1 && b.len() >= 28 {
                Some(
                    ServerEvent::EntityCreate {
                        id: u32_at(b, 4),
                        tank: u32_at(b, 8) as i32,
                        position: vec2_at(b, 12),
                    },
                )
            } else if tag == 2 && b.len() >= 42 {
                Some(
                    ServerEvent::Position {
                        user: u32_at(b, 4),
                        coordinates: vec2_at(b, 8),
                        yaw: Yaw(i16_at(b, 24)),
                        velocity: vec2_at(b, 26),
                    },
                )
            } else {
                None
            }
        }
    }

    /// Appends the encoding of this event to `r`.
    pub fn encode_into(&self, r: &mut Vec<u8>)
        ensures
            final(r)@ == old(r)@ + self.spec_encode(),
    {
        match self {
            ServerEvent::EntityDelete { id } => {
                push_tag(r, 0);
                push_u32(r, *id);
            },
            ServerEvent::EntityCreate { id, tank, position } => {
                push_tag(r, 1);
                push_u32(r, *id);
                push_u32(r, *tank as u32);
                push_u64(r, position.x);
                push_u64(r, position.y);
            },
            ServerEvent::Position { user, coordinates, yaw, velocity } => {
                push_tag(r, 2);
                push_u32(r, *user);
                push_u64(r, coordinates.x);
                push_u64(r, coordinates.y);
                push_i16(r, yaw.0);
                push_u64(r, velocity.x);
                push_u64(r, velocity.y);
            },
        }
        assert(final(r)@ =~= old(r)@ + self.spec_encode());
    }

    pub fn encode(&self) -> (r: Vec<u8>)
        ensures
            r@ == self.spec_encode(),
    {
        let mut r: Vec<u8> = Vec::new();
        self.encode_into(&mut r);
        assert(r@ =~= self.spec_encode());
        r
    }

    pub fn decode(b: &[u8]) -> (r: Option<ServerEvent>)
        ensures
            r == ServerEvent::parse(b@),
    {
        if b.len() < 4 {
            return None;
        }
        let tag = read_u32(b, 0);
        if tag == 0 && b.len() >= 8 {
            Some(ServerEvent::EntityDelete { id: read_u32(b, 4) })
        } else if tag == 1 && b.len() >= 28 {
            Some(
                ServerEvent::EntityCreate {
                    id: read_u32(b, 4),
                    tank: read_u32(b, 8) as i32,
                    position: Vec2Bits { x: read_u64(b, 12), y: read_u64(b, 20) },
                },
            )
        } else if tag == 2 && b.len() >= 42 {
            Some(
                ServerEvent::Position {
                    user: read_u32(b, 4),
                    coordinates: Vec2Bits { x: read_u64(b, 8), y: read_u64(b, 16) },
                    yaw: Yaw(read_i16(b, 24)),
                    velocity: Vec2Bits { x: read_u64(b, 26), y: read_u64(b, 34) },
                },
            )
        } else {
            None
        }
    }
}

/// The encodings of `events`, one after another.
pub open spec fn concat_encodings(events: Seq<ServerEvent>) -> Seq<u8>
    decreases events.len(),
{
    if events.len() == 0 {
        Seq::empty()
    } else {
        concat_encodings(events.drop_last()) + events.last().spec_encode()
    }
}

/// A batch: the number of events as eight little-endian bytes, then each
/// event's encoding in order.
pub open spec fn spec_encode_batch(events: Seq<ServerEvent>) -> Seq<u8> {
    u64_bytes(events.len() as u64) + concat_encodings(events)
}

/// Encodes the events of one tick as one batch.
pub fn encode_batch(events: &Vec<ServerEvent>) -> (r: Vec<u8>)
    ensures
        r@ == spec_encode_batch(events@),
{
    let mut r: Vec<u8> = Vec::new();
    push_u64(&mut r, events.len() as u64);
    let mut i: usize = 0;
    while i < events.len()
        invariant
            i <= events@.len(),
            r@ == u64_bytes(events@.len() as u64) + concat_encodings(events@.subrange(0, i as int)),
        decreases events.len() - i,
    {
        assert(events@.subrange(0, i + 1).drop_last() =~= events@.subrange(0, i as int));
        events[i].encode_into(&mut r);
        assert(r@ =~= u64_bytes(events@.len() as u64) + concat_encodings(
            events@.subrange(0, i + 1),
        ));
        i = i + 1;
    }
    assert(events@.subrange(0, events@.len() as int) =~= events@);
    r
}

proof fn lemma_create_round_trip(id: Id, tank: i32, position: Vec2Bits, rest: Seq<u8>)
    ensures
        ServerEvent::parse((ServerEvent::EntityCreate { id, tank, position }).spec_encode() + rest)
            == Some(ServerEvent::EntityCreate { id, tank, position }),
        (ServerEvent::EntityCreate { id, tank, position }).spec_encode().len() == 28,
{
    let b = (ServerEvent::EntityCreate { id, tank, position }).spec_encode() + rest;
    assert(b.subrange(0, 4) =~= u32_bytes(1));
    lemma_u32_round_trip(b, 0, 1);
    assert(b.subrange(4, 8) =~= u32_bytes(id));
    lemma_u32_round_trip(b, 4, id);
    assert(b.subrange(8, 12) =~= u32_bytes(tank as u32));
    lemma_u32_round_trip(b, 8, tank as u32);
    assert(b.subrange(12, 20) =~= u64_bytes(position.x));
    lemma_u64_round_trip(b, 12, position.x);
    assert(b.subrange(20, 28) =~= u64_bytes(position.y));
    lemma_u64_round_trip(b, 20, position.y);
    assert((tank as u32) as i32 == tank) by (bit_vector);
}

proof fn lemma_position_round_trip(
    user: Id,
    coordinates: Vec2Bits,
    yaw: Yaw,
    velocity: Vec2Bits,
    rest: Seq<u8>,
)
    ensures
        ServerEvent::parse(
            (ServerEvent::Position { user, coordinates, yaw, velocity }).spec_encode() + rest,
        ) == Some(ServerEvent::Position { user, coordinates, yaw, velocity }),
        (ServerEvent::Position { user, coordinates, yaw, velocity }).spec_encode().len() == 42,
{
    let b = (ServerEvent::Position { user, coordinates, yaw, velocity }).spec_encode() + rest;
    assert(b.subrange(0, 4) =~= u32_bytes(2));
    lemma_u32_round_trip(b, 0, 2);
    assert(b.subrange(4, 8) =~= u32_bytes(user));
    lemma_u32_round_trip(b, 4, user);
    assert(b.subrange(8, 16) =~= u64_bytes(coordinates.x));
    lemma_u64_round_trip(b, 8, coordinates.x);
    assert(b.subrange(16, 24) =~= u64_bytes(coordinates.y));
    lemma_u64_round_trip(b, 16, coordinates.y);
    let v = yaw.0;
    let u: int = if v < 0 { v + 65536 } else { v as int };
    assert(b[24] as int + 256 * b[25] as int == u);
    assert(b.subrange(26, 34) =~= u64_bytes(velocity.x));
    lemma_u64_round_trip(b, 26, velocity.x);
    assert(b.subrange(34, 42) =~= u64_bytes(velocity.y));
    lemma_u64_round_trip(b, 34, velocity.y);
}

proof fn lemma_delete_round_trip(id: Id, rest: Seq<u8>)
    ensures
        ServerEvent::parse((ServerEvent::EntityDelete { id }).spec_encode() + rest) == Some(
            ServerEvent::EntityDelete { id },
        ),
        (ServerEvent::EntityDelete { id }).spec_encode().len() == 8,
{
    let b = (ServerEvent::EntityDelete { id }).spec_encode() + rest;
    assert(b.subrange(0, 4) =~= u32_bytes(0));
    lemma_u32_round_trip(b, 0, 0);
    assert(b.subrange(4, 8) =~= u32_bytes(id));
    lemma_u32_round_trip(b, 4, id);
}

/// An event's encoding parses back to it, whatever bytes follow it.
proof fn lemma_server_event_prefix(e: ServerEvent, rest: Seq<u8>)
    ensures
        ServerEvent::parse(e.spec_encode() + rest) == Some(e),
        e.spec_encode().len() == e.encoded_len(),
{
    match e {
        ServerEvent::EntityDelete { id } => {
            lemma_delete_round_trip(id, rest);
        },
        ServerEvent::EntityCreate { id, tank, position } => {
            lemma_create_round_trip(id, tank, position, rest);
        },
        ServerEvent::Position { user, coordinates, yaw, velocity } => {
            lemma_position_round_trip(user, coordinates, yaw, velocity, rest);
        },
    }
}

/// Decoding what `encode` wrote gives the event back.
pub proof fn lemma_server_event_round_trip(e: ServerEvent)
    ensures
        ServerEvent::parse(e.spec_encode()) == Some(e),
{
    lemma_server_event_prefix(e, Seq::empty());
    assert(e.spec_encode() + Seq::<u8>::empty() =~= e.spec_encode());
}

/// The first `count` events that `b` holds one after another, if it holds
/// that many.
pub open spec fn parse_events(b: Seq<u8>, count: nat) -> Option<Seq<ServerEvent>>
    decreases count,
{
    if count == 0 {
        Some(Seq::empty())
    } else {
        match ServerEvent::parse(b) {
            Some(e) => match parse_events(b.skip(e.encoded_len()), (count - 1) as nat) {
                Some(rest) => Some(seq![e] + rest),
                None => None,
            },
            None => None,
        }
    }
}

/// The events of a batch: a count as eight little-endian bytes, then that
/// many events.
pub open spec fn parse_batch(b: Seq<u8>) -> Option<Seq<ServerEvent>> {
    if b.len() < 8 {
        None
    } else {
        parse_events(b.skip(8), u64_at(b, 0) as nat)
    }
}

proof fn lemma_concat_front(events: Seq<ServerEvent>)
    requires
        events.len() > 0,
    ensures
        concat_encodings(events) == events[0].spec_encode() + concat_encodings(events.drop_first()),
    decreases events.len(),
{
    if events.len() == 1 {
        assert(events.drop_last() =~= Seq::<ServerEvent>::empty());
        assert(events.drop_first() =~= Seq::<ServerEvent>::empty());
        assert(concat_encodings(events.drop_last()) == Seq::<u8>::empty());
        assert(concat_encodings(events.drop_first()) == Seq::<u8>::empty());
        assert(events.last() == events[0]);
        assert(concat_encodings(events) =~= events[0].spec_encode() + Seq::<u8>::empty());
    } else {
        lemma_concat_front(events.drop_last());
        assert(events.drop_last().drop_first() =~= events.drop_first().drop_last());
        assert(events.drop_last()[0] == events[0]);
        assert(events.drop_first().last() == events.last());
        assert(concat_encodings(events) =~= events[0].spec_encode() + concat_encodings(
            events.drop_first(),
        ));
    }
}

proof fn lemma_parse_events(events: Seq<ServerEvent>, rest: Seq<u8>)
    ensures
        parse_events(concat_encodings(events) + rest, events.len()) == Some(events),
    decreases events.len(),
{
    if events.len() > 0 {
        let e = events[0];
        let tail = events.drop_first();
        lemma_concat_front(events);
        let b = concat_encodings(events) + rest;
        let after = concat_encodings(tail) + rest;
        assert(b =~= e.spec_encode() + after);
        lemma_server_event_prefix(e, after);
        assert(b.skip(e.encoded_len()) =~= after);
        lemma_parse_events(tail, rest);
        assert(seq![e] + tail =~= events);
    }
}

/// Parsing a batch that `encode_batch` wrote gives back its events, in
/// order.
pub proof fn lemma_batch_round_trip(events: Seq<ServerEvent>)
    requires
        events.len() <= u64::MAX,
    ensures
        parse_batch(spec_encode_batch(events)) == Some(events),
{
    let b = spec_encode_batch(events);
    assert(b.subrange(0, 8) =~= u64_bytes(events.len() as u64));
    lemma_u64_round_trip(b, 0, events.len() as u64);
    lemma_parse_events(events, Seq::empty());
    assert(b.skip(8) =~= concat_encodings(events) + Seq::<u8>::empty());
}

} // verus!
