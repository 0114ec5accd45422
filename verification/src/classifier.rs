//! The per-packet decision: pass, or drop and wake.
//!
//! A frame is Ethernet II (14 bytes) followed by IPv4 (at least 20 bytes).
//! Only the EtherType and the destination address are looked at.

use crate::model::{PacketLog, ACTION_OBSERVED, ACTION_WAKE};
use crate::table::ServiceAvailability;
use vstd::prelude::*;

verus! {

/// Action code: an internal check failed.
pub const XDP_ABORTED: u32 = 0;

/// Action code: discard the packet.
pub const XDP_DROP: u32 = 1;

/// Action code: hand the packet on to the network stack.
pub const XDP_PASS: u32 = 2;

/// Length of an Ethernet II header.
pub const ETH_HDR_LEN: usize = 14;

/// Length of an IPv4 header without options.
pub const IPV4_HDR_LEN: usize = 20;

/// Offset of the EtherType within the Ethernet header.
pub const ETHER_TYPE_OFFSET: usize = 12;

/// Offset of the destination address within the IPv4 header.
pub const IPV4_DST_OFFSET: usize = 16;

/// EtherType of IPv4.
pub const ETHER_TYPE_IPV4: u16 = 0x0800;

/// What the classifier decided for one frame.
#[derive(Clone, Copy, Debug, PartialEq, Eq, Structural)]
pub struct Verdict {
    /// One of the `XDP_` action codes.
    pub action: u32,
    /// The event to put on this CPU's ring, if any.
    pub event: Option<PacketLog>,
}

/// The 16-bit number that two bytes spell in network byte order.
pub open spec fn be16(b: Seq<u8>, at: int) -> int {
    b[at] * 256 + b[at + 1]
}

/// The 32-bit number that four bytes spell in network byte order.
pub open spec fn be32(b: Seq<u8>, at: int) -> int {
    b[at] * 16777216 + b[at + 1] * 65536 + b[at + 2] * 256 + b[at + 3]
}

/// The IPv4 destination of a frame, in host byte order: present iff the
/// frame holds a whole Ethernet header whose EtherType is IPv4 and a whole
/// IPv4 header behind it.
pub open spec fn frame_destination(frame: Seq<u8>) -> Option<u32> {
    if frame.len() >= ETH_HDR_LEN + IPV4_HDR_LEN && be16(frame, ETHER_TYPE_OFFSET as int)
        == ETHER_TYPE_IPV4 {
        Some(be32(frame, ETH_HDR_LEN + IPV4_DST_OFFSET) as u32)
    } else {
        None
    }
}

/// The decision for a destination, given the flag that the table holds
/// for it: an unmanaged destination passes without an event, a managed
/// one with flag zero is dropped with a wake event, and any other
/// managed one passes with a liveness event.
pub open spec fn verdict_of(destination: Option<u32>, flag: Option<u32>) -> Verdict {
    match (destination, flag) {
        (Some(ip), Some(f)) => {
            if f == 0 {
                Verdict {
                    action: XDP_DROP,
                    event: Some(PacketLog { ipv4_address: ip, action: ACTION_WAKE }),
                }
            } else {
                Verdict {
                    action: XDP_PASS,
                    event: Some(PacketLog { ipv4_address: ip, action: ACTION_OBSERVED }),
                }
            }
        },
        _ => Verdict { action: XDP_PASS, event: None },
    }
}

/// The flag that a table holds for an address.
pub open spec fn flag_in(table: Map<u32, u32>, ip: u32) -> Option<u32> {
    if table.contains_key(ip) {
        Some(table[ip])
    } else {
        None
    }
}

/// The decision for a destination address, given the table.
pub open spec fn decide(destination: Option<u32>, table: Map<u32, u32>) -> Verdict {
    match destination {
        Some(ip) => verdict_of(destination, flag_in(table, ip)),
        None => Verdict { action: XDP_PASS, event: None },
    }
}

/// The decision for a frame, given the table.
pub open spec fn classify(frame: Seq<u8>, table: Map<u32, u32>) -> Verdict {
    decide(frame_destination(frame), table)
}

/// Reads two bytes at `offset` as a big-endian number if the frame holds
/// them both.
pub fn read_be16(frame: &[u8], offset: usize) -> (r: Result<u16, ()>)
    ensures
        r is Ok <==> offset + 2 <= frame@.len(),
        r matches Ok(v) ==> v == be16(frame@, offset as int),
{
    if frame.len() < 2 || offset > frame.len() - 2 {
        return Err(());
    }
    let hi: u16 = frame[offset] as u16;
    let lo: u16 = frame[offset + 1] as u16;
    Ok(hi * 256 + lo)
}

/// Reads four bytes at `offset` as a big-endian number if the frame holds
/// them all.
pub fn read_be32(frame: &[u8], offset: usize) -> (r: Result<u32, ()>)
    ensures
        r is Ok <==> offset + 4 <= frame@.len(),
        r matches Ok(v) ==> v == be32(frame@, offset as int),
{
    if frame.len() < 4 || offset > frame.len() - 4 {
        return Err(());
    }
    let b0: u32 = frame[offset] as u32;
    let b1: u32 = frame[offset + 1] as u32;
    let b2: u32 = frame[offset + 2] as u32;
    let b3: u32 = frame[offset + 3] as u32;
    Ok(b0 * 16777216 + b1 * 65536 + b2 * 256 + b3)
}

/// The IPv4 destination of a frame, if it has one that can be read. A
/// frame too short for its headers, or one that is not IPv4, has none.
/// `Err` would stand for a failed internal bounds check; it never comes.
pub fn destination(frame: &[u8]) -> (r: Result<Option<u32>, ()>)
    ensures
        r == Ok::<Option<u32>, ()>(frame_destination(frame@)),
{
    if frame.len() < ETH_HDR_LEN {
        return Ok(None);
    }
    let ether_type = read_be16(frame, ETHER_TYPE_OFFSET)?;
    if ether_type != ETHER_TYPE_IPV4 {
        return Ok(None);
    }
    if frame.len() < ETH_HDR_LEN + IPV4_HDR_LEN {
        return Ok(None);
    }
    let dst = read_be32(frame, ETH_HDR_LEN + IPV4_DST_OFFSET)?;
    Ok(Some(dst))
}

/// The decision for a destination, given the flag that the table holds
/// for it.
pub fn verdict_for(destination: Option<u32>, flag: Option<u32>) -> (v: Verdict)
    ensures
        v == verdict_of(destination, flag),
{
    match (destination, flag) {
        (Some(dst), Some(value)) => {
            if value == 0 {
                Verdict {
                    action: XDP_DROP,
                    event: Some(PacketLog { ipv4_address: dst, action: ACTION_WAKE }),
                }
            } else {
                Verdict {
                    action: XDP_PASS,
                    event: Some(PacketLog { ipv4_address: dst, action: ACTION_OBSERVED }),
                }
            }
        },
        _ => Verdict { action: XDP_PASS, event: None },
    }
}

/// The availability flag of `address` if it is managed.
pub fn is_scalable_dst(table: &ServiceAvailability, address: u32) -> (flag: Option<u32>)
    requires
        table.wf(),
    ensures
        flag == flag_in(table@, address),
{
    table.get(address)
}

/// Classifies one frame. A frame too short for its headers, or one that
/// is not IPv4, passes. `Err` would stand for a failed internal bounds
/// check; it never comes.
pub fn try_xdp_scale_to_zero_fw(frame: &[u8], table: &ServiceAvailability) -> (r: Result<
    Verdict,
    (),
>)
    requires
        table.wf(),
    ensures
        r == Ok::<Verdict, ()>(classify(frame@, table@)),
{
    match destination(frame)? {
        Some(dst) => Ok(verdict_for(Some(dst), is_scalable_dst(table, dst))),
        None => Ok(Verdict { action: XDP_PASS, event: None }),
    }
}

/// The classifier's entry point: the action for one frame and the event
/// to emit with it.
///
/// A destination that is not managed, and any frame without a readable
/// IPv4 destination, passes without an event. A managed destination whose
/// flag is zero is dropped with one wake event; any other managed
/// destination passes with one liveness event. The abort action is never
/// returned.
pub fn xdp_scale_to_zero_fw(frame: &[u8], table: &ServiceAvailability) -> (v: Verdict)
    requires
        table.wf(),
    ensures
        v == classify(frame@, table@),
        v.action == XDP_PASS || v.action == XDP_DROP,
        frame_destination(frame@) matches Some(ip) ==> {
            &&& !table@.contains_key(ip) ==> v.action == XDP_PASS && v.event is None
            &&& table@.contains_key(ip) && table@[ip] != 0 ==> v.action == XDP_PASS && v.event
                == Some(PacketLog { ipv4_address: ip, action: ACTION_OBSERVED })
            &&& table@.contains_key(ip) && table@[ip] == 0 ==> v.action == XDP_DROP && v.event
                == Some(PacketLog { ipv4_address: ip, action: ACTION_WAKE })
        },
        frame_destination(frame@) is None ==> v.action == XDP_PASS && v.event is None,
{
    match try_xdp_scale_to_zero_fw(frame, table) {
        Ok(ret) => ret,
        Err(_) => Verdict { action: XDP_ABORTED, event: None },
    }
}

} // verus!
