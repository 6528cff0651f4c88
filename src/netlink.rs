use vstd::prelude::*;

verus! {

/// Address family of netlink sockets.
pub const AF_NETLINK: u8 = 16;

/// Socket option level of netlink.
pub const SOL_NETLINK: i32 = 270;

pub const NETLINK_ADD_MEMBERSHIP: i32 = 1;

pub const NETLINK_DROP_MEMBERSHIP: i32 = 2;

pub const NETLINK_PKTINFO: i32 = 3;

pub const NETLINK_BROADCAST_ERROR: i32 = 4;

pub const NETLINK_NO_ENOBUFS: i32 = 5;

pub const NETLINK_RX_RING: i32 = 6;

pub const NETLINK_TX_RING: i32 = 7;

pub const NETLINK_LISTEN_ALL_NSID: i32 = 8;

pub const NETLINK_LIST_MEMBERSHIPS: i32 = 9;

pub const NETLINK_CAP_ACK: i32 = 10;

/// A netlink socket address.
#[allow(non_camel_case_types)]
#[derive(Debug, Clone, Copy)]
pub struct sockaddr_nl {
    pub nl_family: u16,
    pub nl_pad: u16,
    pub nl_pid: u32,
    pub nl_groups: u32,
}

impl sockaddr_nl {
    /// The netlink address of the socket numbered `pid`, in the multicast
    /// groups `groups`.
    pub fn new(pid: u32, groups: u32) -> (r: sockaddr_nl)
        ensures
            r.nl_family == AF_NETLINK as u16,
            r.nl_pad == 0,
            r.nl_pid == pid,
            r.nl_groups == groups,
    {
        sockaddr_nl { nl_family: AF_NETLINK as u16, nl_pad: 0, nl_pid: pid, nl_groups: groups }
    }
}

/// File status flags with the bits of `mask` set (`on`) or cleared.
pub fn with_flag(flags: i32, mask: i32, on: bool) -> (r: i32)
    ensures
        on ==> r == flags | mask,
        !on ==> r == flags & !mask,
{
    if on {
        flags | mask
    } else {
        flags & !mask
    }
}

/// Whether file status flags leave every bit of `mask` cleared.
pub fn flag_clear(flags: i32, mask: i32) -> (r: bool)
    ensures
        r == (flags & mask == 0),
{
    flags & mask == 0
}

} // verus!
