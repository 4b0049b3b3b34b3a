//! The master context: owner of the slave and group tables, the telegram
//! multiplexer, the error log and the distributed-clock reference, and home
//! of every operation the master performs on the segment.
//!
//! The engine never touches the physical interface itself: it builds each
//! outgoing frame and hands it to a `FrameLink`, and parses whatever frames
//! the link gives back. Nothing is assumed of the link; every contract
//! states what holds of the context whatever came back.

use vstd::prelude::*;
use vstd::string::StrSliceExecFns;
use vstd::string::StringExecFns;
use crate::error::ERing;
use crate::error::ErrorGenerator;
use crate::error::ErrorKind;
use crate::error::ErrorRecord;
use crate::error::EtherCatError;
use crate::error::InitError;
use crate::esi::ESIBuf;
use crate::esi::ESIMap;
use crate::esi::EC_MAXEEPSLOT;
use crate::idx::IdxStack;
use crate::idx::IDX_POOL_SIZE;
use crate::slave::Group;
use crate::slave::Slave;
use crate::slave::MAX_GROUPS;
use crate::slave::MAX_SLAVES;
use crate::state::EtherCatState;
use crate::state::ADO_AL_CONTROL;
use crate::state::ADO_AL_STATUS;
use crate::wire::Datagram;
use crate::wire::decode_frame;
use crate::wire::encode_frame;
use crate::wire::MAX_DATA_LEN;

verus! {

/// Register offset of the device type word, read to count devices.
pub const ADO_TYPE: u16 = 0x0000;
/// Register offset of the configured station address.
pub const ADO_STATION_ADDR: u16 = 0x0010;
/// Register offset of the identity summary block.
pub const ADO_IDENTITY: u16 = 0x0E00;
/// Register offset of the distributed-clock receive-time latch.
pub const ADO_DC_RECV_TIME: u16 = 0x0900;
/// Register offset of the distributed-clock system time.
pub const ADO_DC_SYSTIME: u16 = 0x0910;
/// Register offset of the distributed-clock system-time offset.
pub const ADO_DC_OFFSET: u16 = 0x0920;
/// Register offset of the write side of the mailbox.
pub const ADO_MBX_OUT: u16 = 0x1000;
/// Register offset of the read side of the mailbox.
pub const ADO_MBX_IN: u16 = 0x1100;

/// Length of the identity summary block a device reports.
pub const IDENTITY_LEN: usize = 20;

/// First configured station address handed out during enumeration.
pub const NODE_ADDR_BASE: u16 = 0x1001;

/// How long one bounded wait on the link is, in microseconds; a longer
/// timeout is spent as several waits.
pub const POLL_SLICE_US: u32 = 1000;

/// Default bounded wait for one configuration exchange, microseconds.
pub const TIMEOUT_SAFE_US: u32 = 20000;

/// Slot `i` of the EEPROM cache holds the identity summary the slave's
/// table entry was read from: the little-endian encodings of its
/// manufacturer, product and revision identities and its I/O bit counts.
pub open spec fn esi_summary_cached(buf: Seq<u8>, i: int, s: Slave) -> bool {
    &&& buf.subrange(20 * i, 20 * i + 4) == crate::wire::u32_le(s.man)
    &&& buf.subrange(20 * i + 4, 20 * i + 8) == crate::wire::u32_le(s.id)
    &&& buf.subrange(20 * i + 8, 20 * i + 12) == crate::wire::u32_le(s.rev)
    &&& buf.subrange(20 * i + 12, 20 * i + 14) == crate::wire::u16_le(s.obits)
    &&& buf.subrange(20 * i + 14, 20 * i + 16) == crate::wire::u16_le(s.ibits)
}

/// The physical interface, seen from the engine: a sink and source of raw
/// EtherCAT frames with a bounded wait. Implementations move bytes and
/// promise nothing; the engine validates everything that comes back.
pub trait FrameLink {
    /// Hand one frame to the interface.
    fn send_frame(&mut self, frame: &Vec<u8>);

    /// Wait up to `timeout_us` microseconds for one received frame.
    fn receive_frame(&mut self, timeout_us: u32) -> Option<Vec<u8>>;
}

/// One cyclic datagram awaiting its echo: its telegram identifier and the
/// buffer region it serves.
pub struct Outstanding {
    /// The telegram identifier in use.
    pub idx: u8,
    /// The group the datagram serves.
    pub group: u8,
    /// Whether this is the distributed-clock time datagram rather than a
    /// process-data one.
    pub is_dc: bool,
    /// Start of the group's region in the I/O buffer.
    pub io_start: usize,
    /// Output bytes of the region.
    pub obytes: usize,
    /// Input bytes of the region.
    pub ibytes: usize,
}

/// Two in-flight datagrams' buffer regions do not overlap: one ends before
/// the other begins.
pub open spec fn outstanding_regions_disjoint(a: Outstanding, b: Outstanding) -> bool {
    ||| a.io_start + a.obytes + a.ibytes <= b.io_start
    ||| b.io_start + b.obytes + b.ibytes <= a.io_start
}

/// Whether byte `j` of the I/O buffer lies in the input region of some
/// outstanding process-data datagram: the only bytes a receive may write.
pub open spec fn in_outstanding_inputs(entries: Seq<Outstanding>, j: int) -> bool {
    exists|k: int|
        0 <= k < entries.len() && !(#[trigger] entries[k]).is_dc && entries[k].io_start
            + entries[k].obytes <= j < entries[k].io_start + entries[k].obytes
            + entries[k].ibytes
}

/// The master context: exclusive owner of the port link, the slave and
/// group tables, the EEPROM scratch cache, the telegram multiplexer, the
/// error log and the distributed-clock reference time.
pub struct Context<L: FrameLink> {
    /// The physical interface.
    pub link: L,
    /// Name of the bound network interface.
    pub iface: String,
    /// The slave table, in response (topological) order.
    pub slaves: Vec<Slave>,
    /// The group table.
    pub groups: Vec<Group>,
    /// Capacity of the slave table.
    pub max_slaves: usize,
    /// The telegram identifier pool.
    pub idx_stack: IdxStack,
    /// The error/event ring.
    pub elist: ERing,
    /// The EEPROM scratch cache.
    pub esibuf: ESIBuf,
    /// Validity of the EEPROM cache slots.
    pub esimap: ESIMap,
    /// The reference clock's value as of the latest exchange, nanoseconds.
    pub dc_time_ns: i64,
    /// Whether any slave supports the distributed clock; set by clock
    /// configuration.
    pub dc_capable: bool,
    /// Configured address of the reference-clock slave, when `dc_capable`.
    pub dc_ref_addr: u16,
    /// The state staged for a broadcast state write.
    pub broadcast_state: EtherCatState,
    /// One past the highest mapped I/O buffer offset.
    pub io_span: usize,
    /// Cyclic datagrams sent and not yet received.
    pub outstanding: Vec<Outstanding>,
}

impl<L: FrameLink> Context<L> {
    /// The context invariant: table capacities hold, configured addresses
    /// are consecutive from `NODE_ADDR_BASE` (hence unique), groups are
    /// within range and their mapped layouts are the prefix-sum layout
    /// inside the mapped span, and every outstanding datagram holds a
    /// distinct identifier marked in use.
    pub open spec fn wf(&self) -> bool {
        &&& self.idx_stack.wf()
        &&& self.elist.wf()
        &&& self.esibuf.wf()
        &&& self.esimap.wf()
        &&& 1 <= self.max_slaves <= MAX_SLAVES
        &&& self.slaves@.len() <= self.max_slaves
        &&& 1 <= self.groups@.len() <= MAX_GROUPS
        &&& forall|i: int|
            0 <= i < self.slaves@.len() ==> (#[trigger] self.slaves@[i]).configadr
                == NODE_ADDR_BASE + i
        &&& forall|i: int|
            0 <= i < self.slaves@.len() ==> (#[trigger] self.slaves@[i]).group
                < self.groups@.len()
        &&& forall|g: int|
            0 <= g < self.groups@.len() ==> {
                &&& (#[trigger] self.groups@[g]).outputs_wkc <= self.slaves@.len()
                &&& self.groups@[g].inputs_wkc <= self.slaves@.len()
                &&& (self.groups@[g].mapped ==> crate::slave::group_layout(
                    self.slaves@,
                    self.groups@[g],
                    g as u8,
                ) && self.groups@[g].io_start + self.groups@[g].obytes + self.groups@[g].ibytes
                    <= self.io_span && self.groups@[g].obytes + self.groups@[g].ibytes
                    <= MAX_DATA_LEN)
            }
        &&& forall|g1: int, g2: int|
            0 <= g1 < g2 < self.groups@.len() && (#[trigger] self.groups@[g1]).mapped && (
            #[trigger] self.groups@[g2]).mapped ==> crate::slave::group_regions_disjoint(
                self.groups@[g1],
                self.groups@[g2],
            )
        &&& forall|k1: int, k2: int|
            0 <= k1 < k2 < self.outstanding@.len() && !(#[trigger] self.outstanding@[k1]).is_dc
                && !(#[trigger] self.outstanding@[k2]).is_dc ==> outstanding_regions_disjoint(
                self.outstanding@[k1],
                self.outstanding@[k2],
            )
        &&& forall|i: int|
            0 <= i < self.slaves@.len() && (#[trigger] self.slaves@[i]).mapped
                ==> self.slaves@[i].fits(self.io_span as int)
        &&& forall|i: int|
            0 <= i < self.slaves@.len() && (#[trigger] self.slaves@[i]).mapped
                ==> self.groups@[self.slaves@[i].group as int].mapped
        &&& forall|k: int|
            0 <= k < self.outstanding@.len() ==> {
                &&& (#[trigger] self.outstanding@[k]).idx < IDX_POOL_SIZE
                &&& self.idx_stack@[self.outstanding@[k].idx as int]
                &&& (!self.outstanding@[k].is_dc ==> self.outstanding@[k].io_start
                    + self.outstanding@[k].obytes + self.outstanding@[k].ibytes <= self.io_span)
            }
        &&& forall|k1: int, k2: int|
            0 <= k1 < k2 < self.outstanding@.len() ==> (#[trigger] self.outstanding@[k1]).idx != (
            #[trigger] self.outstanding@[k2]).idx
        &&& forall|i: int|
            0 <= i < IDX_POOL_SIZE && self.idx_stack@[i] ==> exists|k: int|
                0 <= k < self.outstanding@.len() && (#[trigger] self.outstanding@[k]).idx == i
    }

    /// The pending error records, oldest first.
    pub open spec fn log(&self) -> Seq<ErrorRecord> {
        self.elist@
    }

    /// Build a context owning all master state, bound to the named
    /// interface through `link`. Fails exactly when the interface name is
    /// empty; opening the interface itself is the link's business and
    /// precedes this call.
    pub fn new(iface_name: &str, link: L, max_slaves: usize, max_groups: usize) -> (r: Result<
        Context<L>,
        InitError,
    >)
        requires
            1 <= max_slaves <= MAX_SLAVES,
            1 <= max_groups <= MAX_GROUPS,
        ensures
            r is Ok <==> iface_name@.len() > 0,
            r matches Err(e) ==> e is BadName,
            r matches Ok(c) ==> {
                &&& c.wf()
                &&& c.iface@ == iface_name@
                &&& c.slaves@.len() == 0
                &&& c.groups@.len() == max_groups
                &&& c.max_slaves == max_slaves
                &&& c.log().len() == 0
                &&& c.outstanding@.len() == 0
                &&& c.io_span == 0
                &&& !c.dc_capable
                &&& c.dc_time_ns == 0
                &&& forall|g: int| 0 <= g < max_groups ==> !(#[trigger] c.groups@[g]).mapped
            },
    {
        if iface_name.unicode_len() == 0 {
            return Err(InitError::BadName);
        }
        let mut groups: Vec<Group> = Vec::new();
        let mut g: usize = 0;
        while g < max_groups
            invariant
                g <= max_groups,
                groups@.len() == g,
                forall|j: int|
                    0 <= j < g ==> {
                        &&& (#[trigger] groups@[j]).outputs_wkc == 0
                        &&& groups@[j].inputs_wkc == 0
                        &&& !groups@[j].mapped
                    },
            decreases max_groups - g,
        {
            groups.push(Group::default());
            g = g + 1;
        }
        Ok(
            Context {
                link,
                iface: String::from_str(iface_name),
                slaves: Vec::new(),
                groups,
                max_slaves,
                idx_stack: IdxStack::new(),
                elist: ERing::new(),
                esibuf: ESIBuf::new(),
                esimap: ESIMap::new(),
                dc_time_ns: 0,
                dc_capable: false,
                dc_ref_addr: 0,
                broadcast_state: EtherCatState::NoValidState,
                io_span: 0,
                outstanding: Vec::new(),
            },
        )
    }

    /// Borrow the slave table.
    pub fn slaves(&self) -> (r: &Vec<Slave>)
        ensures
            r == &self.slaves,
    {
        &self.slaves
    }

    /// Borrow the group table.
    pub fn groups(&self) -> (r: &Vec<Group>)
        ensures
            r == &self.groups,
    {
        &self.groups
    }

    /// The reference clock's value as observed on the most recent cyclic
    /// exchange, nanoseconds.
    pub fn dc_time(&self) -> (r: i64)
        ensures
            r == self.dc_time_ns,
    {
        self.dc_time_ns
    }
}

impl<L: FrameLink> ErrorGenerator for Context<L> {
    /// The pending error records are the error ring's contents.
    open spec fn pending(&self) -> Seq<ErrorRecord> {
        self.elist@
    }

    fn iserror(&mut self) -> (r: bool) {
        self.elist.has_error()
    }

    fn next(&mut self) -> (r: Option<String>) {
        match self.elist.pop() {
            Some(rec) => Some(rec.text()),
            None => None,
        }
    }
}

/// A zeroed payload of `n` bytes.
fn zeros(n: usize) -> (r: Vec<u8>)
    ensures
        r@.len() == n,
        forall|j: int| 0 <= j < n ==> r@[j] == 0,
{
    let mut r: Vec<u8> = Vec::new();
    let mut k: usize = 0;
    while k < n
        invariant
            k <= n,
            r@.len() == k,
            forall|j: int| 0 <= j < k ==> r@[j] == 0,
        decreases n - k,
    {
        r.push(0);
        k = k + 1;
    }
    r
}

impl<L: FrameLink> Context<L> {
    /// Discover and configure the segment: broadcast a read that every
    /// device increments, assign each responder the next configured
    /// address in chain order, read its identity summary into the slave
    /// table and the ESI cache, and put every device in group 0. Fails
    /// with `NoFrame` when nothing responded, `OtherFrame` when only
    /// foreign traffic arrived, and `Error` when a device reported
    /// malformed configuration or the segment outgrew the table; any
    /// failure leaves the table empty and a record in the log.
    ///
    /// `usetable` selects configuration from the EEPROM's category table;
    /// the identity summary this engine reads is the same either way.
    pub fn config_init(&mut self, usetable: bool) -> (r: Result<usize, EtherCatError>)
        requires
            old(self).wf(),
            old(self).outstanding@.len() == 0,
        ensures
            final(self).wf(),
            final(self).outstanding@.len() == 0,
            final(self).max_slaves == old(self).max_slaves,
            final(self).groups@.len() == old(self).groups@.len(),
            final(self).iface == old(self).iface,
            final(self).io_span == 0,
            forall|g: int|
                0 <= g < final(self).groups@.len() ==> !(#[trigger] final(self).groups@[g]).mapped
                    && final(self).groups@[g].outputs_wkc == 0
                    && final(self).groups@[g].inputs_wkc == 0,
            r matches Ok(n) ==> {
                &&& 1 <= n <= final(self).max_slaves
                &&& final(self).slaves@.len() == n
                &&& forall|i: int|
                    0 <= i < n ==> {
                        &&& (#[trigger] final(self).slaves@[i]).configadr == NODE_ADDR_BASE + i
                        &&& final(self).slaves@[i].group == 0
                        &&& !final(self).slaves@[i].mapped
                        &&& final(self).slaves@[i].state is Init
                    }
                &&& forall|j: int|
                    0 <= j < EC_MAXEEPSLOT ==> (#[trigger] final(self).esimap@[j] <==> j < n)
                &&& forall|i: int|
                    0 <= i < n ==> esi_summary_cached(
                        final(self).esibuf@,
                        i,
                        #[trigger] final(self).slaves@[i],
                    )
                &&& final(self).elist@ == old(self).elist@
            },
            r is Err ==> final(self).slaves@.len() == 0 && final(self).log().len() > 0,
    {
        let _usetable = usetable;
        self.slaves = Vec::new();
        self.io_span = 0;
        self.dc_capable = false;
        self.dc_ref_addr = 0;
        self.dc_time_ns = 0;
        self.broadcast_state = EtherCatState::NoValidState;
        self.esimap.clear();
        assert(forall|i: int| 0 <= i < IDX_POOL_SIZE ==> !self.idx_stack@[i]);
        let ngroups = self.groups.len();
        let mut g: usize = 0;
        while g < ngroups
            invariant
                g <= ngroups,
                self.groups@.len() == ngroups,
                ngroups == old(self).groups@.len(),
                1 <= ngroups <= MAX_GROUPS,
                self.idx_stack.wf(),
                self.elist@ == old(self).elist@,
                self.elist.wf(),
                self.esibuf.wf(),
                self.esimap.wf(),
                forall|i: int| 0 <= i < IDX_POOL_SIZE ==> !self.idx_stack@[i],
                self.max_slaves == old(self).max_slaves,
                1 <= self.max_slaves <= MAX_SLAVES,
                self.iface == old(self).iface,
                self.slaves@.len() == 0,
                self.outstanding@ == old(self).outstanding@,
                self.outstanding@.len() == 0,
                self.io_span == 0,
                forall|j: int| 0 <= j < EC_MAXEEPSLOT ==> !(#[trigger] self.esimap@[j]),
                forall|j: int|
                    0 <= j < g ==> !(#[trigger] self.groups@[j]).mapped
                        && self.groups@[j].outputs_wkc == 0 && self.groups@[j].inputs_wkc == 0,
            decreases ngroups - g,
        {
            self.groups.set(g, Group::default());
            g = g + 1;
        }

        let probe = zeros(2);
        let count: usize = match exchange(
            &mut self.link,
            &mut self.idx_stack,
            &mut self.elist,
            crate::wire::CMD_BRD,
            0,
            ADO_TYPE,
            &probe,
            TIMEOUT_SAFE_US,
        ) {
            Err(e) => {
                return Err(e);
            },
            Ok(d) => {
                if d.wkc == 0 {
                    self.elist.push(
                        ErrorKind::FrameTimeout,
                        String::from_str("no device responded to enumeration"),
                    );
                    return Err(EtherCatError::NoFrame);
                }
                if d.wkc as usize > self.max_slaves {
                    self.elist.push(
                        ErrorKind::ConfigFault,
                        String::from_str("more devices than the slave table holds"),
                    );
                    return Err(EtherCatError::Error);
                }
                d.wkc as usize
            },
        };

        let mut i: usize = 0;
        while i < count
            invariant
                i <= count,
                1 <= count <= self.max_slaves,
                self.max_slaves == old(self).max_slaves,
                self.max_slaves <= MAX_SLAVES,
                self.iface == old(self).iface,
                self.idx_stack.wf(),
                self.elist@ == old(self).elist@,
                self.elist.wf(),
                self.esibuf.wf(),
                self.esimap.wf(),
                self.groups@.len() == ngroups,
                ngroups == old(self).groups@.len(),
                1 <= ngroups <= MAX_GROUPS,
                self.io_span == 0,
                self.outstanding@.len() == 0,
                forall|i: int| 0 <= i < IDX_POOL_SIZE ==> !self.idx_stack@[i],
                forall|j: int|
                    0 <= j < ngroups ==> !(#[trigger] self.groups@[j]).mapped
                        && self.groups@[j].outputs_wkc == 0 && self.groups@[j].inputs_wkc == 0,
                self.slaves@.len() == i,
                forall|j: int|
                    0 <= j < i ==> {
                        &&& (#[trigger] self.slaves@[j]).configadr == NODE_ADDR_BASE + j
                        &&& self.slaves@[j].group == 0
                        &&& !self.slaves@[j].mapped
                        &&& self.slaves@[j].state is Init
                    },
                forall|j: int| 0 <= j < EC_MAXEEPSLOT ==> (#[trigger] self.esimap@[j] <==> j < i),
                forall|j: int|
                    0 <= j < i ==> esi_summary_cached(self.esibuf@, j, #[trigger] self.slaves@[j]),
            decreases count - i,
        {
            let adp: u16 = if i == 0 {
                0
            } else {
                (0x10000usize - i) as u16
            };
            let mut addr_bytes: Vec<u8> = Vec::new();
            crate::wire::push_u16_le(&mut addr_bytes, NODE_ADDR_BASE + i as u16);
            match exchange(
                &mut self.link,
                &mut self.idx_stack,
                &mut self.elist,
                crate::wire::CMD_APWR,
                adp,
                ADO_STATION_ADDR,
                &addr_bytes,
                TIMEOUT_SAFE_US,
            ) {
                Err(e) => {
                    self.slaves = Vec::new();
                    return Err(e);
                },
                Ok(d) => {
                    if d.wkc == 0 {
                        self.elist.push(
                            ErrorKind::ConfigFault,
                            String::from_str("address assignment not acknowledged"),
                        );
                        self.slaves = Vec::new();
                        return Err(EtherCatError::Error);
                    }
                },
            }

            let probe_id = zeros(IDENTITY_LEN);
            let ident = match exchange(
                &mut self.link,
                &mut self.idx_stack,
                &mut self.elist,
                crate::wire::CMD_FPRD,
                NODE_ADDR_BASE + i as u16,
                ADO_IDENTITY,
                &probe_id,
                TIMEOUT_SAFE_US,
            ) {
                Err(e) => {
                    self.slaves = Vec::new();
                    return Err(e);
                },
                Ok(d) => {
                    if d.wkc != 1 {
                        self.elist.push(
                            ErrorKind::ConfigFault,
                            String::from_str("identity read not acknowledged"),
                        );
                        self.slaves = Vec::new();
                        return Err(EtherCatError::Error);
                    }
                    d
                },
            };

            let ghost pre_esibuf = self.esibuf@;
            self.esibuf.copy_in(i * IDENTITY_LEN, &ident.data);
            self.esimap.set(i, true);
            proof {
                assert forall|j: int|
                    0 <= j < i implies esi_summary_cached(
                    self.esibuf@,
                    j,
                    #[trigger] self.slaves@[j],
                ) by {
                    assert(self.esibuf@.subrange(20 * j, 20 * j + 4) =~= pre_esibuf.subrange(
                        20 * j,
                        20 * j + 4,
                    ));
                    assert(self.esibuf@.subrange(20 * j + 4, 20 * j + 8) =~= pre_esibuf.subrange(
                        20 * j + 4,
                        20 * j + 8,
                    ));
                    assert(self.esibuf@.subrange(20 * j + 8, 20 * j + 12) =~= pre_esibuf.subrange(
                        20 * j + 8,
                        20 * j + 12,
                    ));
                    assert(self.esibuf@.subrange(20 * j + 12, 20 * j + 14) =~= pre_esibuf.subrange(
                        20 * j + 12,
                        20 * j + 14,
                    ));
                    assert(self.esibuf@.subrange(20 * j + 14, 20 * j + 16) =~= pre_esibuf.subrange(
                        20 * j + 14,
                        20 * j + 16,
                    ));
                }
            }

            let mut s = Slave::default();
            s.configadr = NODE_ADDR_BASE + i as u16;
            s.man = crate::wire::read_u32_le(&ident.data, 0);
            s.id = crate::wire::read_u32_le(&ident.data, 4);
            s.rev = crate::wire::read_u32_le(&ident.data, 8);
            s.obits = crate::wire::read_u16_le(&ident.data, 12);
            s.ibits = crate::wire::read_u16_le(&ident.data, 14);
            s.hasdc = ident.data[16] != 0;
            s.parentport = ident.data[17];
            s.state = EtherCatState::Init;
            self.slaves.push(s);
            proof {
                let at = (i * IDENTITY_LEN) as int;
                assert(self.esibuf@.subrange(at, at + IDENTITY_LEN as int) == ident.data@);
                assert(self.esibuf@.subrange(20 * i as int, 20 * i + 4) =~= ident.data@.subrange(
                    0,
                    4,
                ));
                assert(self.esibuf@.subrange(20 * i + 4, 20 * i + 8) =~= ident.data@.subrange(
                    4,
                    8,
                ));
                assert(self.esibuf@.subrange(20 * i + 8, 20 * i + 12) =~= ident.data@.subrange(
                    8,
                    12,
                ));
                assert(self.esibuf@.subrange(20 * i + 12, 20 * i + 14) =~= ident.data@.subrange(
                    12,
                    14,
                ));
                assert(self.esibuf@.subrange(20 * i + 14, 20 * i + 16) =~= ident.data@.subrange(
                    14,
                    16,
                ));
                assert(esi_summary_cached(self.esibuf@, i as int, self.slaves@[i as int]));
            }
            i = i + 1;
        }
        Ok(count)
    }
}

impl<L: FrameLink> Context<L> {
    /// Lay the group's process data out in the caller's I/O buffer: walk
    /// its slaves in configured-address order, pack every slave's outputs
    /// first and then every slave's inputs, each padded to whole bytes,
    /// record each slave's offsets, and derive the group's working-counter
    /// contributions. Returns the group's total mapped byte count. Fails,
    /// leaving every table untouched and a record in the log, exactly when
    /// the layout does not fit one cyclic datagram or the remaining buffer.
    pub fn config_map_group(&mut self, io_map: &Vec<u8>, group: u8) -> (r: Result<
        usize,
        EtherCatError,
    >)
        requires
            old(self).wf(),
            (group as int) < old(self).groups@.len(),
            !old(self).groups@[group as int].mapped,
        ensures
            final(self).wf(),
            final(self).outstanding@ == old(self).outstanding@,
            final(self).groups@.len() == old(self).groups@.len(),
            final(self).slaves@.len() == old(self).slaves@.len(),
            final(self).max_slaves == old(self).max_slaves,
            final(self).idx_stack@ == old(self).idx_stack@,
            r matches Ok(total) ==> {
                &&& final(self).groups@[group as int].mapped
                &&& final(self).groups@[group as int].io_start == old(self).io_span
                &&& total == final(self).groups@[group as int].obytes
                    + final(self).groups@[group as int].ibytes
                &&& final(self).io_span == old(self).io_span + total
                &&& final(self).io_span <= io_map@.len()
                &&& final(self).groups@[group as int].outputs_wkc == crate::slave::out_count(
                    final(self).slaves@,
                    group,
                    final(self).slaves@.len() as int,
                )
                &&& final(self).groups@[group as int].inputs_wkc == crate::slave::in_count(
                    final(self).slaves@,
                    group,
                    final(self).slaves@.len() as int,
                )
                &&& crate::slave::group_layout(
                    final(self).slaves@,
                    final(self).groups@[group as int],
                    group,
                )
                &&& final(self).elist@ == old(self).elist@
                &&& total == crate::slave::out_sum(
                    old(self).slaves@,
                    group,
                    old(self).slaves@.len() as int,
                ) + crate::slave::in_sum(old(self).slaves@, group, old(self).slaves@.len() as int)
                &&& forall|j: int|
                    0 <= j < old(self).slaves@.len() ==> crate::slave::same_except_mapping(
                        #[trigger] old(self).slaves@[j],
                        final(self).slaves@[j],
                    )
                &&& forall|j: int|
                    0 <= j < old(self).slaves@.len() && (#[trigger] old(
                        self,
                    ).slaves@[j]).group != group ==> final(self).slaves@[j] == old(self).slaves@[j]
                &&& forall|g2: int|
                    0 <= g2 < old(self).groups@.len() && g2 != group ==> final(self).groups@[g2]
                        == old(self).groups@[g2]
            },
            r is Err <==> crate::slave::out_sum(
                old(self).slaves@,
                group,
                old(self).slaves@.len() as int,
            ) + crate::slave::in_sum(old(self).slaves@, group, old(self).slaves@.len() as int)
                > MAX_DATA_LEN || old(self).io_span + crate::slave::out_sum(
                old(self).slaves@,
                group,
                old(self).slaves@.len() as int,
            ) + crate::slave::in_sum(old(self).slaves@, group, old(self).slaves@.len() as int)
                > io_map@.len(),
            r is Err ==> {
                &&& final(self).slaves@ == old(self).slaves@
                &&& final(self).groups@ == old(self).groups@
                &&& final(self).io_span == old(self).io_span
                &&& final(self).log().len() > 0
            },
    {
        let g = group as usize;
        let n = self.slaves.len();
        let mut total_out: usize = 0;
        let mut total_in: usize = 0;
        let mut owkc: usize = 0;
        let mut iwkc: usize = 0;
        let mut i: usize = 0;
        while i < n
            invariant
                old(self).wf(),
                self == old(self),
                i <= n,
                n == self.slaves@.len(),
                n <= MAX_SLAVES,
                total_out == crate::slave::out_sum(self.slaves@, group, i as int),
                total_in == crate::slave::in_sum(self.slaves@, group, i as int),
                owkc == crate::slave::out_count(self.slaves@, group, i as int),
                iwkc == crate::slave::in_count(self.slaves@, group, i as int),
                total_out <= i * 8192,
                total_in <= i * 8192,
                owkc <= i,
                iwkc <= i,
            decreases n - i,
        {
            if self.slaves[i].group == group {
                let ob = (self.slaves[i].obits as usize + 7) / 8;
                let ib = (self.slaves[i].ibits as usize + 7) / 8;
                total_out = total_out + ob;
                total_in = total_in + ib;
                if self.slaves[i].obits > 0 {
                    owkc = owkc + 1;
                }
                if self.slaves[i].ibits > 0 {
                    iwkc = iwkc + 1;
                }
            }
            i = i + 1;
        }

        let base = self.io_span;
        let iolen = io_map.len();
        if total_out > MAX_DATA_LEN || total_in > MAX_DATA_LEN - total_out {
            self.elist.push(
                ErrorKind::MappingOverflow,
                String::from_str("group does not fit one cyclic datagram"),
            );
            proof {
                lemma_wf_slaves_tweak(old(self), self);
            }
            return Err(EtherCatError::Error);
        }
        if total_out > iolen || total_in > iolen - total_out || base > iolen - total_out
            - total_in {
            self.elist.push(
                ErrorKind::MappingOverflow,
                String::from_str("process data exceeds the I/O buffer"),
            );
            proof {
                lemma_wf_unchanged_tables(old(self), self);
            }
            return Err(EtherCatError::Error);
        }

        let mut ocur: usize = base;
        let mut icur: usize = base + total_out;
        let mut i: usize = 0;
        while i < n
            invariant
                old(self).wf(),
                i <= n,
                n == self.slaves@.len(),
                n == old(self).slaves@.len(),
                n <= MAX_SLAVES,
                (group as int) < old(self).groups@.len(),
                self.groups@ == old(self).groups@,
                self.elist@ == old(self).elist@,
                self.elist.wf(),
                self.idx_stack@ == old(self).idx_stack@,
                self.idx_stack.wf(),
                self.esibuf == old(self).esibuf,
                self.esimap == old(self).esimap,
                self.outstanding@ == old(self).outstanding@,
                self.io_span == old(self).io_span,
                self.iface == old(self).iface,
                self.max_slaves == old(self).max_slaves,
                base == old(self).io_span,
                total_out == crate::slave::out_sum(self.slaves@, group, n as int),
                total_in == crate::slave::in_sum(self.slaves@, group, n as int),
                owkc == crate::slave::out_count(self.slaves@, group, n as int),
                iwkc == crate::slave::in_count(self.slaves@, group, n as int),
                owkc <= n,
                iwkc <= n,
                iolen == io_map@.len(),
                base + total_out + total_in <= iolen,
                forall|j: int|
                    0 <= j < n ==> crate::slave::same_except_mapping(
                        #[trigger] old(self).slaves@[j],
                        self.slaves@[j],
                    ),
                forall|j: int|
                    0 <= j < n && (#[trigger] old(self).slaves@[j]).group != group
                        ==> self.slaves@[j] == old(self).slaves@[j],
                forall|j: int| i <= j < n ==> #[trigger] self.slaves@[j] == old(self).slaves@[j],
                forall|j: int|
                    0 <= j < i && (#[trigger] self.slaves@[j]).group == group ==> {
                        &&& self.slaves@[j].mapped
                        &&& self.slaves@[j].obytes == crate::slave::byte_size(
                            self.slaves@[j].obits,
                        )
                        &&& self.slaves@[j].ibytes == crate::slave::byte_size(
                            self.slaves@[j].ibits,
                        )
                        &&& self.slaves@[j].ostart == base + crate::slave::out_sum(
                            self.slaves@,
                            group,
                            j,
                        )
                        &&& self.slaves@[j].istart == base + total_out + crate::slave::in_sum(
                            self.slaves@,
                            group,
                            j,
                        )
                    },
                ocur == base + crate::slave::out_sum(self.slaves@, group, i as int),
                icur == base + total_out + crate::slave::in_sum(self.slaves@, group, i as int),
            decreases n - i,
        {
            let ghost pre = self.slaves@;
            if self.slaves[i].group == group {
                let ob = (self.slaves[i].obits as usize + 7) / 8;
                let ib = (self.slaves[i].ibits as usize + 7) / 8;
                proof {
                    crate::slave::lemma_sums_monotonic(self.slaves@, group, i as int + 1, n as int);
                    assert(ob == crate::slave::byte_size(self.slaves@[i as int].obits));
                    assert(ib == crate::slave::byte_size(self.slaves@[i as int].ibits));
                    assert(crate::slave::out_sum(self.slaves@, group, i as int + 1)
                        == crate::slave::out_sum(self.slaves@, group, i as int) + ob);
                    assert(crate::slave::in_sum(self.slaves@, group, i as int + 1)
                        == crate::slave::in_sum(self.slaves@, group, i as int) + ib);
                    assert(ocur + ob <= base + total_out);
                    assert(icur + ib <= base + total_out + total_in);
                }
                self.slaves[i].ostart = ocur;
                self.slaves[i].obytes = ob;
                self.slaves[i].istart = icur;
                self.slaves[i].ibytes = ib;
                self.slaves[i].mapped = true;
                proof {
                    crate::slave::lemma_sums_congruence(pre, self.slaves@, group, n as int);
                    assert forall|j: int| 0 <= j <= n implies crate::slave::out_sum(
                        self.slaves@,
                        group,
                        j,
                    ) == crate::slave::out_sum(pre, group, j) && crate::slave::in_sum(
                        self.slaves@,
                        group,
                        j,
                    ) == crate::slave::in_sum(pre, group, j) by {
                        crate::slave::lemma_sums_congruence(pre, self.slaves@, group, j);
                    }
                }
                ocur = ocur + ob;
                icur = icur + ib;
            }
            i = i + 1;
        }

        let grp = Group {
            outputs_wkc: owkc as u16,
            inputs_wkc: iwkc as u16,
            obytes: total_out,
            ibytes: total_in,
            io_start: base,
            mapped: true,
        };
        self.groups.set(g, grp);
        self.io_span = base + total_out + total_in;

        proof {
            let ns = self.slaves@;
            let os = old(self).slaves@;
            crate::slave::lemma_sums_congruence(os, ns, group, n as int);
            assert(crate::slave::group_layout(ns, grp, group));
            assert forall|g2: int| 0 <= g2 < self.groups@.len() implies {
                &&& (#[trigger] self.groups@[g2]).outputs_wkc <= self.slaves@.len()
                &&& self.groups@[g2].inputs_wkc <= self.slaves@.len()
                &&& (self.groups@[g2].mapped ==> crate::slave::group_layout(
                    ns,
                    self.groups@[g2],
                    g2 as u8,
                ) && self.groups@[g2].io_start + self.groups@[g2].obytes
                    + self.groups@[g2].ibytes <= self.io_span && self.groups@[g2].obytes
                    + self.groups@[g2].ibytes <= MAX_DATA_LEN)
            } by {
                if g2 == group as int {
                    assert(self.groups@[g2] == grp);
                } else {
                    assert(self.groups@[g2] == old(self).groups@[g2]);
                    if self.groups@[g2].mapped {
                        crate::slave::lemma_layout_preserved(os, ns, self.groups@[g2], g2 as u8);
                    }
                }
            }
            assert forall|j: int|
                0 <= j < ns.len() && (#[trigger] ns[j]).mapped implies ns[j].fits(
                self.io_span as int,
            ) by {
                if os[j].mapped && os[j].group != group {
                    assert(ns[j] == os[j]);
                    assert(os[j].fits(old(self).io_span as int));
                } else {
                    assert(ns[j].group == group);
                    crate::slave::lemma_sums_monotonic(ns, group, j + 1, n as int);
                }
            }
            assert forall|j: int| 0 <= j < ns.len() implies (#[trigger] ns[j]).configadr
                == NODE_ADDR_BASE + j && ns[j].group < self.groups@.len() by {
                assert(crate::slave::same_except_mapping(os[j], ns[j]));
            }
            assert forall|j: int|
                0 <= j < ns.len() && (#[trigger] ns[j]).mapped implies self.groups@[ns[j].group
                as int].mapped by {
                assert(crate::slave::same_except_mapping(os[j], ns[j]));
                if ns[j].group != group {
                    assert(ns[j] == os[j]);
                    assert(old(self).groups@[os[j].group as int].mapped);
                }
            }
            assert forall|k: int| 0 <= k < self.outstanding@.len() implies {
                &&& (#[trigger] self.outstanding@[k]).idx < IDX_POOL_SIZE
                &&& self.idx_stack@[self.outstanding@[k].idx as int]
                &&& (!self.outstanding@[k].is_dc ==> self.outstanding@[k].io_start
                    + self.outstanding@[k].obytes + self.outstanding@[k].ibytes <= self.io_span)
            } by {
                assert(self.outstanding@[k] == old(self).outstanding@[k]);
            }
            assert forall|q: int|
                0 <= q < IDX_POOL_SIZE && self.idx_stack@[q] implies exists|k: int|
                0 <= k < self.outstanding@.len() && (#[trigger] self.outstanding@[k]).idx
                    == q by {
                assert(old(self).idx_stack@[q]);
                let k0 = choose|k: int|
                    0 <= k < old(self).outstanding@.len() && (#[trigger] old(
                        self,
                    ).outstanding@[k]).idx == q;
                assert(self.outstanding@[k0].idx == q);
            }
        }
        Ok(total_out + total_in)
    }
}

impl<L: FrameLink> Context<L> {
    /// Configure the distributed clock: elect the first DC-capable slave
    /// in chain order as the reference, latch the receive times with one
    /// broadcast, measure each DC slave's propagation delay against the
    /// reference, and program each one's system-time offset. Returns
    /// `false` — not an error — when no slave supports DC, in which case
    /// nothing changes. On failure a record is in the log; only delays of
    /// slaves already visited were written.
    pub fn config_dc(&mut self) -> (r: Result<bool, EtherCatError>)
        requires
            old(self).wf(),
        ensures
            final(self).wf(),
            final(self).outstanding@ == old(self).outstanding@,
            final(self).slaves@.len() == old(self).slaves@.len(),
            final(self).groups@ == old(self).groups@,
            final(self).io_span == old(self).io_span,
            final(self).max_slaves == old(self).max_slaves,
            final(self).idx_stack@ == old(self).idx_stack@,
            forall|j: int|
                0 <= j < old(self).slaves@.len() ==> crate::slave::same_except_pdelay(
                    #[trigger] old(self).slaves@[j],
                    final(self).slaves@[j],
                ),
            forall|j: int|
                0 <= j < old(self).slaves@.len() && !(#[trigger] old(self).slaves@[j]).hasdc
                    ==> final(self).slaves@[j] == old(self).slaves@[j],
            r matches Ok(b) ==> {
                &&& b == exists|i: int|
                    0 <= i < old(self).slaves@.len() && (#[trigger] old(self).slaves@[i]).hasdc
                &&& final(self).dc_capable == b
                &&& final(self).elist@ == old(self).elist@
                &&& (b ==> exists|i: int|
                    0 <= i < old(self).slaves@.len() && (#[trigger] old(self).slaves@[i]).hasdc
                        && (forall|j: int| 0 <= j < i ==> !old(self).slaves@[j].hasdc)
                        && final(self).dc_ref_addr == old(self).slaves@[i].configadr
                        && final(self).slaves@[i].pdelay == 0)
                &&& (b ==> forall|j: int|
                    0 <= j < old(self).slaves@.len() && (#[trigger] old(self).slaves@[j]).hasdc
                        ==> final(self).slaves@[j].pdelay >= 0)
                &&& (!b ==> final(self).slaves@ == old(self).slaves@)
            },
            (forall|i: int|
                0 <= i < old(self).slaves@.len() ==> !(#[trigger] old(self).slaves@[i]).hasdc)
                ==> r == Ok::<bool, EtherCatError>(false) && final(self).slaves@ == old(
                self,
            ).slaves@ && final(self).elist@ == old(self).elist@,
            r is Err ==> final(self).log().len() > 0,
    {
        let n = self.slaves.len();
        let mut refi: usize = n;
        let mut i: usize = 0;
        while i < n
            invariant
                self == old(self),
                i <= n,
                refi <= n,
                n == self.slaves@.len(),
                refi == n ==> forall|j: int| 0 <= j < i ==> !(#[trigger] self.slaves@[j]).hasdc,
                refi < n ==> self.slaves@[refi as int].hasdc && (forall|j: int|
                    0 <= j < refi ==> !(#[trigger] self.slaves@[j]).hasdc),
            decreases n - i,
        {
            if refi == n && self.slaves[i].hasdc {
                refi = i;
            }
            i = i + 1;
        }
        if refi == n {
            self.dc_capable = false;
            return Ok(false);
        }

        let latch = zeros(4);
        match exchange(
            &mut self.link,
            &mut self.idx_stack,
            &mut self.elist,
            crate::wire::CMD_BWR,
            0,
            ADO_DC_RECV_TIME,
            &latch,
            TIMEOUT_SAFE_US,
        ) {
            Err(e) => {
                proof {
                    lemma_wf_slaves_tweak(old(self), self);
                }
                return Err(e);
            },
            Ok(_) => {},
        }

        let ref_addr = self.slaves[refi].configadr;
        let probe = zeros(4);
        let ref_time: u32 = match exchange(
            &mut self.link,
            &mut self.idx_stack,
            &mut self.elist,
            crate::wire::CMD_FPRD,
            ref_addr,
            ADO_DC_RECV_TIME,
            &probe,
            TIMEOUT_SAFE_US,
        ) {
            Err(e) => {
                proof {
                    lemma_wf_slaves_tweak(old(self), self);
                }
                return Err(e);
            },
            Ok(d) => {
                if d.wkc != 1 {
                    self.elist.push(
                        ErrorKind::ConfigFault,
                        String::from_str("reference clock read not acknowledged"),
                    );
                    proof {
                        lemma_wf_slaves_tweak(old(self), self);
                    }
                    return Err(EtherCatError::Error);
                }
                crate::wire::read_u32_le(&d.data, 0)
            },
        };

        self.dc_capable = true;
        self.dc_ref_addr = ref_addr;
        self.slaves[refi].pdelay = 0;

        let mut k: usize = 0;
        while k < n
            invariant
                old(self).wf(),
                k <= n,
                n == self.slaves@.len(),
                n == old(self).slaves@.len(),
                refi < n,
                self.groups@ == old(self).groups@,
                self.elist@ == old(self).elist@,
                self.elist.wf(),
                self.idx_stack@ == old(self).idx_stack@,
                self.idx_stack.wf(),
                self.esibuf == old(self).esibuf,
                self.esimap == old(self).esimap,
                self.outstanding@ == old(self).outstanding@,
                self.io_span == old(self).io_span,
                self.iface == old(self).iface,
                self.max_slaves == old(self).max_slaves,
                self.dc_capable,
                self.dc_ref_addr == old(self).slaves@[refi as int].configadr,
                old(self).slaves@[refi as int].hasdc,
                self.slaves@[refi as int].pdelay == 0,
                forall|j: int|
                    0 <= j < k && (#[trigger] old(self).slaves@[j]).hasdc
                        ==> self.slaves@[j].pdelay >= 0,
                forall|j: int| 0 <= j < refi ==> !(#[trigger] old(self).slaves@[j]).hasdc,
                forall|j: int|
                    0 <= j < n ==> crate::slave::same_except_pdelay(
                        #[trigger] old(self).slaves@[j],
                        self.slaves@[j],
                    ),
                forall|j: int|
                    0 <= j < n && !(#[trigger] old(self).slaves@[j]).hasdc ==> self.slaves@[j]
                        == old(self).slaves@[j],
            decreases n - k,
        {
            if self.slaves[k].hasdc && k != refi {
                let addr = self.slaves[k].configadr;
                let probe_k = zeros(4);
                let t: u32 = match exchange(
                    &mut self.link,
                    &mut self.idx_stack,
                    &mut self.elist,
                    crate::wire::CMD_FPRD,
                    addr,
                    ADO_DC_RECV_TIME,
                    &probe_k,
                    TIMEOUT_SAFE_US,
                ) {
                    Err(e) => {
                        proof {
                            lemma_wf_slaves_tweak(old(self), self);
                        }
                        return Err(e);
                    },
                    Ok(d) => {
                        if d.wkc != 1 {
                            self.elist.push(
                                ErrorKind::ConfigFault,
                                String::from_str("delay measurement not acknowledged"),
                            );
                            proof {
                                lemma_wf_slaves_tweak(old(self), self);
                            }
                            return Err(EtherCatError::Error);
                        }
                        crate::wire::read_u32_le(&d.data, 0)
                    },
                };
                let delay: u32 = if t >= ref_time {
                    t - ref_time
                } else {
                    0
                };
                let mut off_bytes: Vec<u8> = Vec::new();
                crate::wire::push_u32_le(&mut off_bytes, delay);
                match exchange(
                    &mut self.link,
                    &mut self.idx_stack,
                    &mut self.elist,
                    crate::wire::CMD_FPWR,
                    addr,
                    ADO_DC_OFFSET,
                    &off_bytes,
                    TIMEOUT_SAFE_US,
                ) {
                    Err(e) => {
                        proof {
                            lemma_wf_slaves_tweak(old(self), self);
                        }
                        return Err(e);
                    },
                    Ok(d) => {
                        if d.wkc != 1 {
                            self.elist.push(
                                ErrorKind::ConfigFault,
                                String::from_str("clock offset write not acknowledged"),
                            );
                            proof {
                                lemma_wf_slaves_tweak(old(self), self);
                            }
                            return Err(EtherCatError::Error);
                        }
                    },
                }
                self.slaves[k].pdelay = if delay > 0x7FFFFFFF {
                    0x7FFFFFFF
                } else {
                    delay as i32
                };
            }
            k = k + 1;
        }
        proof {
            lemma_wf_slaves_tweak(old(self), self);
        }
        Ok(true)
    }
}

impl<L: FrameLink> Context<L> {
    /// Stage a state on one slave (1-based index) or, with `slave == 0`,
    /// for a broadcast write; nothing goes on the wire until `write_state`.
    /// Staging `Op` demands that process data has been mapped, because
    /// devices validate their expected working counter on entering `Op`.
    pub fn set_state(&mut self, state: EtherCatState, slave: u16)
        requires
            old(self).wf(),
            slave as int <= old(self).slaves@.len(),
            state is Op ==> exists|g: int|
                0 <= g < old(self).groups@.len() && (#[trigger] old(self).groups@[g]).mapped,
        ensures
            final(self).wf(),
            final(self).groups@ == old(self).groups@,
            final(self).outstanding@ == old(self).outstanding@,
            final(self).elist@ == old(self).elist@,
            final(self).idx_stack@ == old(self).idx_stack@,
            final(self).io_span == old(self).io_span,
            slave == 0 ==> final(self).broadcast_state == state && final(self).slaves@ == old(
                self,
            ).slaves@,
            slave > 0 ==> final(self).broadcast_state == old(self).broadcast_state
                && final(self).slaves@ == old(self).slaves@.update(
                slave as int - 1,
                (Slave { state, ..old(self).slaves@[slave as int - 1] }),
            ),
    {
        if slave == 0 {
            self.broadcast_state = state;
        } else {
            let i = (slave - 1) as usize;
            self.slaves[i].state = state;
            assert(self.slaves@ =~= old(self).slaves@.update(
                slave as int - 1,
                (Slave { state, ..old(self).slaves@[slave as int - 1] }),
            ));
            proof {
                lemma_wf_slaves_tweak(old(self), self);
            }
        }
    }

    /// Transmit the staged state to one slave (1-based index) or, with
    /// `slave == 0`, to every slave at once, and return the working
    /// counter of acknowledging devices. Fails when no device
    /// acknowledged; the tables are never touched.
    pub fn write_state(&mut self, slave: u16) -> (r: Result<u16, EtherCatError>)
        requires
            old(self).wf(),
            slave as int <= old(self).slaves@.len(),
        ensures
            final(self).wf(),
            final(self).slaves@ == old(self).slaves@,
            final(self).groups@ == old(self).groups@,
            final(self).outstanding@ == old(self).outstanding@,
            final(self).idx_stack@ == old(self).idx_stack@,
            final(self).io_span == old(self).io_span,
            final(self).broadcast_state == old(self).broadcast_state,
            r matches Ok(w) ==> w >= 1,
            r is Err ==> final(self).log().len() > 0,
    {
        let mut data: Vec<u8> = Vec::new();
        let cmd: u8;
        let adp: u16;
        if slave == 0 {
            crate::wire::push_u16_le(&mut data, self.broadcast_state.code());
            cmd = crate::wire::CMD_BWR;
            adp = 0;
        } else {
            let i = (slave - 1) as usize;
            crate::wire::push_u16_le(&mut data, self.slaves[i].state.code());
            cmd = crate::wire::CMD_FPWR;
            adp = self.slaves[i].configadr;
        }
        match exchange(
            &mut self.link,
            &mut self.idx_stack,
            &mut self.elist,
            cmd,
            adp,
            ADO_AL_CONTROL,
            &data,
            TIMEOUT_SAFE_US,
        ) {
            Err(e) => {
                proof {
                    lemma_wf_slaves_tweak(old(self), self);
                }
                Err(e)
            },
            Ok(d) => {
                if d.wkc == 0 {
                    self.elist.push(
                        ErrorKind::ConfigFault,
                        String::from_str("state write not acknowledged"),
                    );
                    proof {
                        lemma_wf_slaves_tweak(old(self), self);
                    }
                    Err(EtherCatError::Error)
                } else {
                    proof {
                        lemma_wf_slaves_tweak(old(self), self);
                    }
                    Ok(d.wkc)
                }
            },
        }
    }

    /// Poll one slave's actual state (1-based index; `slave == 0`
    /// broadcasts and observes the OR across devices) until it matches
    /// `expected` with no acknowledge/error flag, or the timeout elapses,
    /// and return the state observed last — not necessarily `expected`. A
    /// status word carrying the flag decodes to its masked state. For an
    /// addressed slave the returned state, and the flag beside it, are
    /// also recorded in the table; no other field and no other slave
    /// changes. The monotonicity this poll enjoys once the segment has
    /// durably reached a state is `crate::state::lemma_poll_monotonic`.
    pub fn check_state(&mut self, slave: u16, expected: EtherCatState, timeout_us: u32) -> (r:
        EtherCatState)
        requires
            old(self).wf(),
            slave as int <= old(self).slaves@.len(),
        ensures
            final(self).wf(),
            final(self).slaves@.len() == old(self).slaves@.len(),
            final(self).groups@ == old(self).groups@,
            final(self).outstanding@ == old(self).outstanding@,
            final(self).idx_stack@ == old(self).idx_stack@,
            final(self).io_span == old(self).io_span,
            slave == 0 ==> final(self).slaves@ == old(self).slaves@,
            slave > 0 ==> {
                &&& r == final(self).slaves@[slave as int - 1].state
                &&& final(self).slaves@ == old(self).slaves@.update(
                    slave as int - 1,
                    (Slave {
                        state: r,
                        al_flag: final(self).slaves@[slave as int - 1].al_flag,
                        ..old(self).slaves@[slave as int - 1]
                    }),
                )
            },
    {
        let polls = timeout_us / POLL_SLICE_US + 1;
        let cmd: u8;
        let adp: u16;
        let mut last: EtherCatState;
        if slave == 0 {
            cmd = crate::wire::CMD_BRD;
            adp = 0;
            last = EtherCatState::NoValidState;
        } else {
            cmd = crate::wire::CMD_FPRD;
            adp = self.slaves[(slave - 1) as usize].configadr;
            last = self.slaves[(slave - 1) as usize].state;
        }
        let mut t: u32 = 0;
        while t < polls
            invariant
                old(self).wf(),
                t <= polls,
                self.slaves@.len() == old(self).slaves@.len(),
                self.groups@ == old(self).groups@,
                self.outstanding@ == old(self).outstanding@,
                self.elist.wf(),
                self.idx_stack@ == old(self).idx_stack@,
                self.idx_stack.wf(),
                self.esibuf == old(self).esibuf,
                self.esimap == old(self).esimap,
                self.io_span == old(self).io_span,
                self.max_slaves == old(self).max_slaves,
                slave as int <= old(self).slaves@.len(),
                slave == 0 ==> self.slaves@ == old(self).slaves@,
                slave > 0 ==> last == self.slaves@[slave as int - 1].state && self.slaves@ == old(
                    self,
                ).slaves@.update(
                    slave as int - 1,
                    (Slave {
                        state: last,
                        al_flag: self.slaves@[slave as int - 1].al_flag,
                        ..old(self).slaves@[slave as int - 1]
                    }),
                ),
            decreases polls - t,
        {
            let probe = zeros(2);
            match exchange(
                &mut self.link,
                &mut self.idx_stack,
                &mut self.elist,
                cmd,
                adp,
                ADO_AL_STATUS,
                &probe,
                POLL_SLICE_US,
            ) {
                Err(_) => {},
                Ok(d) => {
                    if d.wkc > 0 {
                        let word = crate::wire::read_u16_le(&d.data, 0);
                        match crate::state::decode_status(word) {
                            Some(sf) => {
                                let (st, flagged) = sf;
                                last = st;
                                if slave > 0 {
                                    let i = (slave - 1) as usize;
                                    self.slaves[i].state = st;
                                    self.slaves[i].al_flag = flagged;
                                    assert(self.slaves@ =~= old(self).slaves@.update(
                                        slave as int - 1,
                                        (Slave {
                                            state: last,
                                            al_flag: flagged,
                                            ..old(self).slaves@[slave as int - 1]
                                        }),
                                    ));
                                }
                                let matched = st.code() == expected.code() && !flagged;
                                if matched {
                                    proof {
                                        lemma_wf_slaves_tweak(old(self), self);
                                    }
                                    return last;
                                }
                            },
                            None => {},
                        }
                    }
                },
            }
            t = t + 1;
        }
        proof {
            lemma_wf_slaves_tweak(old(self), self);
        }
        last
    }

    /// Query every slave's actual state, record each answer in the table,
    /// and return the lowest state across all slaves in the operational
    /// order — the way to see that not every device reached a target. An
    /// empty table reports no valid state.
    pub fn read_state(&mut self) -> (r: EtherCatState)
        requires
            old(self).wf(),
        ensures
            final(self).wf(),
            final(self).slaves@.len() == old(self).slaves@.len(),
            final(self).groups@ == old(self).groups@,
            final(self).outstanding@ == old(self).outstanding@,
            final(self).idx_stack@ == old(self).idx_stack@,
            final(self).io_span == old(self).io_span,
            forall|j: int|
                0 <= j < old(self).slaves@.len() ==> final(self).slaves@[j] == (Slave {
                    state: final(self).slaves@[j].state,
                    al_flag: final(self).slaves@[j].al_flag,
                    ..old(self).slaves@[j]
                }),
            old(self).slaves@.len() == 0 ==> r is NoValidState,
            old(self).slaves@.len() > 0 ==> r == crate::slave::lowest_state_prefix(
                final(self).slaves@,
                final(self).slaves@.len() as int,
            ),
    {
        let n = self.slaves.len();
        if n == 0 {
            return EtherCatState::NoValidState;
        }
        let mut i: usize = 0;
        while i < n
            invariant
                old(self).wf(),
                i <= n,
                n == self.slaves@.len(),
                n == old(self).slaves@.len(),
                self.groups@ == old(self).groups@,
                self.outstanding@ == old(self).outstanding@,
                self.elist.wf(),
                self.idx_stack@ == old(self).idx_stack@,
                self.idx_stack.wf(),
                self.esibuf == old(self).esibuf,
                self.esimap == old(self).esimap,
                self.io_span == old(self).io_span,
                self.max_slaves == old(self).max_slaves,
                forall|j: int|
                    0 <= j < n ==> #[trigger] self.slaves@[j] == (Slave {
                        state: self.slaves@[j].state,
                        al_flag: self.slaves@[j].al_flag,
                        ..old(self).slaves@[j]
                    }),
            decreases n - i,
        {
            let probe = zeros(2);
            let adp = self.slaves[i].configadr;
            match exchange(
                &mut self.link,
                &mut self.idx_stack,
                &mut self.elist,
                crate::wire::CMD_FPRD,
                adp,
                ADO_AL_STATUS,
                &probe,
                POLL_SLICE_US,
            ) {
                Err(_) => {},
                Ok(d) => {
                    if d.wkc > 0 {
                        let word = crate::wire::read_u16_le(&d.data, 0);
                        match crate::state::decode_status(word) {
                            Some(sf) => {
                                self.slaves[i].state = sf.0;
                                self.slaves[i].al_flag = sf.1;
                            },
                            None => {},
                        }
                    }
                },
            }
            i = i + 1;
        }
        proof {
            lemma_wf_slaves_tweak(old(self), self);
        }
        let mut lowest = EtherCatState::Op;
        let mut i: usize = 0;
        while i < n
            invariant
                i <= n,
                n == self.slaves@.len(),
                lowest == crate::slave::lowest_state_prefix(self.slaves@, i as int),
            decreases n - i,
        {
            let st = self.slaves[i].state;
            if st.rank() < lowest.rank() {
                lowest = st;
            }
            i = i + 1;
        }
        lowest
    }
}

impl<L: FrameLink> Context<L> {
    /// Assemble and transmit one logical-read-write datagram per mapped
    /// group, carrying the group's region of the caller's I/O buffer, and
    /// — when the distributed clock is configured — one read of the
    /// reference clock; each datagram takes one telegram identifier, held
    /// until `receive_processdata` matches its echo. Exactly one send must
    /// precede each receive: the identifiers of a skipped receive would
    /// leak, so an outstanding cycle is a precondition violation. Fails
    /// only when the identifier pool is exhausted, with a record in the
    /// log.
    pub fn send_processdata(&mut self, io_map: &Vec<u8>) -> (r: Result<(), EtherCatError>)
        requires
            old(self).wf(),
            old(self).outstanding@.len() == 0,
            old(self).io_span <= io_map@.len(),
        ensures
            final(self).wf(),
            final(self).slaves@ == old(self).slaves@,
            final(self).groups@ == old(self).groups@,
            final(self).io_span == old(self).io_span,
            final(self).dc_time_ns == old(self).dc_time_ns,
            r matches Ok(_) ==> final(self).elist@ == old(self).elist@ && cycle_in_flight(
                final(self).outstanding@,
                final(self).groups@,
                old(self).dc_capable,
            ),
            r is Ok <==> mapped_count(old(self).groups@, old(self).groups@.len() as int) + (
            if old(self).dc_capable {
                1int
            } else {
                0int
            }) <= IDX_POOL_SIZE,
            r is Err ==> final(self).log().len() > 0,
    {
        let ngroups = self.groups.len();
        proof {
            lemma_all_free_means_count_zero(old(self).idx_stack@, old(self).outstanding@);
        }
        let mut g: usize = 0;
        while g < ngroups
            invariant
                old(self).wf(),
                g <= ngroups,
                ngroups == self.groups@.len(),
                self.groups@ == old(self).groups@,
                self.slaves@ == old(self).slaves@,
                self.io_span == old(self).io_span,
                self.io_span <= io_map@.len(),
                self.max_slaves == old(self).max_slaves,
                self.dc_capable == old(self).dc_capable,
                self.dc_ref_addr == old(self).dc_ref_addr,
                self.dc_time_ns == old(self).dc_time_ns,
                self.esibuf == old(self).esibuf,
                self.esimap == old(self).esimap,
                self.elist@ == old(self).elist@,
                self.elist.wf(),
                self.idx_stack.wf(),
                self.outstanding@.len() == mapped_count(self.groups@, g as int),
                crate::idx::count_true(self.idx_stack@, IDX_POOL_SIZE as int)
                    == self.outstanding@.len(),
                forall|k: int|
                    0 <= k < self.outstanding@.len() ==> {
                        &&& (#[trigger] self.outstanding@[k]).idx < IDX_POOL_SIZE
                        &&& self.idx_stack@[self.outstanding@[k].idx as int]
                        &&& !self.outstanding@[k].is_dc
                        &&& (self.outstanding@[k].group as int) < ngroups
                        &&& (self.outstanding@[k].group as int) < g
                        &&& self.groups@[self.outstanding@[k].group as int].mapped
                        &&& self.outstanding@[k].io_start == self.groups@[self.outstanding@[k].group as int].io_start
                        &&& self.outstanding@[k].obytes == self.groups@[self.outstanding@[k].group as int].obytes
                        &&& self.outstanding@[k].ibytes == self.groups@[self.outstanding@[k].group as int].ibytes
                    },
                forall|k1: int, k2: int|
                    0 <= k1 < k2 < self.outstanding@.len() ==> (#[trigger] self.outstanding@[k1]).idx
                        != (#[trigger] self.outstanding@[k2]).idx,
                forall|k1: int, k2: int|
                    0 <= k1 < k2 < self.outstanding@.len() && !(
                    #[trigger] self.outstanding@[k1]).is_dc && !(
                    #[trigger] self.outstanding@[k2]).is_dc ==> outstanding_regions_disjoint(
                        self.outstanding@[k1],
                        self.outstanding@[k2],
                    ),
                forall|i: int|
                    0 <= i < IDX_POOL_SIZE && self.idx_stack@[i] ==> exists|k: int|
                        0 <= k < self.outstanding@.len() && (#[trigger] self.outstanding@[k]).idx
                            == i,
                forall|g2: int|
                    0 <= g2 < g ==> ((#[trigger] self.groups@[g2]).mapped <==> exists|k: int|
                        0 <= k < self.outstanding@.len() && !(#[trigger] self.outstanding@[k]).is_dc
                            && self.outstanding@[k].group == g2),
            decreases ngroups - g,
        {
            if self.groups[g].mapped {
                let ghost pre_out = self.outstanding@;
                let ghost pre_pool = self.idx_stack@;
                let id = match self.idx_stack.acquire() {
                    Ok(i) => i,
                    Err(_) => {
                        self.elist.push(
                            ErrorKind::IndexExhausted,
                            String::from_str("cyclic exchange"),
                        );
                        proof {
                            assert forall|j: int|
                                0 <= j < self.slaves@.len() implies crate::slave::same_shape(
                                #[trigger] old(self).slaves@[j],
                                self.slaves@[j],
                            ) && crate::slave::same_mapping(old(self).slaves@[j], self.slaves@[j])
                                && old(self).slaves@[j].configadr == self.slaves@[j].configadr by {
                                assert(self.slaves@[j] == old(self).slaves@[j]);
                            }
                            lemma_wf_core(old(self), self);
                            crate::idx::lemma_count_true_bounds(
                                self.idx_stack@,
                                IDX_POOL_SIZE as int,
                            );
                            assert(mapped_count(self.groups@, g as int) == IDX_POOL_SIZE);
                            assert(mapped_count(self.groups@, g as int + 1) == IDX_POOL_SIZE + 1);
                            lemma_mapped_count_monotonic(
                                self.groups@,
                                g as int + 1,
                                ngroups as int,
                            );
                        }
                        return Err(EtherCatError::Error);
                    },
                };
                let io_start = self.groups[g].io_start;
                let obytes = self.groups[g].obytes;
                let ibytes = self.groups[g].ibytes;
                let data = crate::slave::copy_region(io_map, io_start, obytes + ibytes);
                let adp = (io_start % 0x10000) as u16;
                let ado = ((io_start / 0x10000) % 0x10000) as u16;
                let frame = encode_frame(crate::wire::CMD_LRW, id, adp, ado, &data);
                self.link.send_frame(&frame);
                self.outstanding.push(
                    Outstanding { idx: id, group: g as u8, is_dc: false, io_start, obytes, ibytes },
                );
                proof {
                    crate::idx::lemma_count_true_update(pre_pool, id as int, IDX_POOL_SIZE as int);
                    assert forall|q: int| 0 <= q < IDX_POOL_SIZE && self.idx_stack@[q] implies
                        exists|k: int|
                        0 <= k < self.outstanding@.len() && (#[trigger] self.outstanding@[k]).idx
                            == q by {
                        if q == id as int {
                            assert(self.outstanding@[self.outstanding@.len() - 1].idx == q);
                        } else {
                            assert(pre_pool[q]);
                            let k0 = choose|k: int|
                                0 <= k < pre_out.len() && (#[trigger] pre_out[k]).idx == q;
                            assert(self.outstanding@[k0].idx == q);
                        }
                    }
                    let last = self.outstanding@.len() - 1;
                    assert(!self.outstanding@[last].is_dc && self.outstanding@[last].group
                        == g as u8);
                    assert forall|k1: int, k2: int|
                        0 <= k1 < k2 < self.outstanding@.len() && !(
                        #[trigger] self.outstanding@[k1]).is_dc && !(
                        #[trigger] self.outstanding@[k2]).is_dc implies
                        outstanding_regions_disjoint(
                        self.outstanding@[k1],
                        self.outstanding@[k2],
                    ) by {
                        if k2 == last {
                            assert(self.outstanding@[k1] == pre_out[k1]);
                            let g1 = self.outstanding@[k1].group as int;
                            assert(self.groups@[g1].mapped && (g1 as int) < g as int);
                            assert(crate::slave::group_regions_disjoint(
                                self.groups@[g1],
                                self.groups@[g as int],
                            ));
                        } else {
                            assert(self.outstanding@[k1] == pre_out[k1]
                                && self.outstanding@[k2] == pre_out[k2]);
                        }
                    }
                    assert forall|g2: int|
                        0 <= g2 < g + 1 implies ((#[trigger] self.groups@[g2]).mapped <==> exists|
                        k: int,
                    |
                        0 <= k < self.outstanding@.len() && !(#[trigger] self.outstanding@[k]).is_dc
                            && self.outstanding@[k].group == g2) by {
                        if g2 == g as int {
                        } else {
                            if self.groups@[g2].mapped {
                                let k0 = choose|k: int|
                                    0 <= k < pre_out.len() && !(#[trigger] pre_out[k]).is_dc
                                        && pre_out[k].group == g2;
                                assert(self.outstanding@[k0].group == g2
                                    && !self.outstanding@[k0].is_dc);
                            }
                        }
                    }
                }
            }
            g = g + 1;
        }
        if self.dc_capable {
            let ghost pre_out = self.outstanding@;
            let ghost pre_pool = self.idx_stack@;
            let id = match self.idx_stack.acquire() {
                Ok(i) => i,
                Err(_) => {
                    self.elist.push(
                        ErrorKind::IndexExhausted,
                        String::from_str("clock readout"),
                    );
                    proof {
                        assert forall|j: int|
                            0 <= j < self.slaves@.len() implies crate::slave::same_shape(
                            #[trigger] old(self).slaves@[j],
                            self.slaves@[j],
                        ) && crate::slave::same_mapping(old(self).slaves@[j], self.slaves@[j])
                            && old(self).slaves@[j].configadr == self.slaves@[j].configadr by {
                            assert(self.slaves@[j] == old(self).slaves@[j]);
                        }
                        lemma_wf_core(old(self), self);
                        crate::idx::lemma_count_true_bounds(self.idx_stack@, IDX_POOL_SIZE as int);
                        assert(mapped_count(self.groups@, ngroups as int) == IDX_POOL_SIZE);
                    }
                    return Err(EtherCatError::Error);
                },
            };
            let probe = zeros(8);
            let frame = encode_frame(
                crate::wire::CMD_FRMW,
                id,
                self.dc_ref_addr,
                ADO_DC_SYSTIME,
                &probe,
            );
            self.link.send_frame(&frame);
            self.outstanding.push(
                Outstanding { idx: id, group: 0, is_dc: true, io_start: 0, obytes: 0, ibytes: 0 },
            );
            proof {
                crate::idx::lemma_count_true_update(pre_pool, id as int, IDX_POOL_SIZE as int);
                assert forall|q: int| 0 <= q < IDX_POOL_SIZE && self.idx_stack@[q] implies exists|
                    k: int,
                |
                    0 <= k < self.outstanding@.len() && (#[trigger] self.outstanding@[k]).idx
                        == q by {
                    if q == id as int {
                        assert(self.outstanding@[self.outstanding@.len() - 1].idx == q);
                    } else {
                        assert(pre_pool[q]);
                        let k0 = choose|k: int|
                            0 <= k < pre_out.len() && (#[trigger] pre_out[k]).idx == q;
                        assert(self.outstanding@[k0].idx == q);
                    }
                }
                let last = self.outstanding@.len() - 1;
                assert(self.outstanding@[last].is_dc);
                assert forall|g2: int| 0 <= g2 < self.groups@.len() implies ((
                #[trigger] self.groups@[g2]).mapped <==> exists|k: int|
                    0 <= k < self.outstanding@.len() && !(#[trigger] self.outstanding@[k]).is_dc
                        && self.outstanding@[k].group == g2) by {
                    if self.groups@[g2].mapped {
                        let k0 = choose|k: int|
                            0 <= k < pre_out.len() && !(#[trigger] pre_out[k]).is_dc
                                && pre_out[k].group == g2;
                        assert(!self.outstanding@[k0].is_dc && self.outstanding@[k0].group == g2);
                    } else {
                        assert forall|k: int|
                            0 <= k < self.outstanding@.len() && !(
                            #[trigger] self.outstanding@[k]).is_dc implies self.outstanding@[k].group
                            != g2 by {
                            assert(k < pre_out.len());
                            assert(pre_out[k] == self.outstanding@[k]);
                        }
                    }
                }
                assert(cycle_in_flight(self.outstanding@, self.groups@, old(self).dc_capable));
            }
        } else {
            proof {
                assert(cycle_in_flight(self.outstanding@, self.groups@, old(self).dc_capable));
            }
        }
        proof {
            assert forall|j: int| 0 <= j < self.slaves@.len() implies crate::slave::same_shape(
                #[trigger] old(self).slaves@[j],
                self.slaves@[j],
            ) && crate::slave::same_mapping(old(self).slaves@[j], self.slaves@[j]) && old(
                self,
            ).slaves@[j].configadr == self.slaves@[j].configadr by {
                assert(self.slaves@[j] == old(self).slaves@[j]);
            }
            lemma_wf_core(old(self), self);
            crate::idx::lemma_count_true_bounds(self.idx_stack@, IDX_POOL_SIZE as int);
        }
        Ok(())
    }

    /// Wait, bounded by the timeout, for the echoes of the cyclic
    /// datagrams in flight; copy each group's received inputs — and only
    /// those bytes — back into its input region of the I/O buffer, refresh
    /// the distributed-clock time when its datagram came back, release
    /// every identifier, and return the summed working counter, saturated
    /// at its type's maximum. A missing echo logs a record and contributes
    /// nothing. With no send in flight — no cycle was started — the result
    /// is 0 and the buffer is untouched.
    pub fn receive_processdata(&mut self, io_map: &mut Vec<u8>, timeout_us: u32) -> (r: u16)
        requires
            old(self).wf(),
            old(self).io_span <= old(io_map)@.len(),
        ensures
            final(self).wf(),
            final(self).outstanding@.len() == 0,
            final(self).slaves@ == old(self).slaves@,
            final(self).groups@ == old(self).groups@,
            final(self).io_span == old(self).io_span,
            final(io_map)@.len() == old(io_map)@.len(),
            forall|j: int|
                0 <= j < old(io_map)@.len() && !in_outstanding_inputs(old(self).outstanding@, j)
                    ==> final(io_map)@[j] == old(io_map)@[j],
            exists|applied: Seq<Option<(Seq<u8>, u16)>>|
                cycle_received(
                    old(io_map)@,
                    final(io_map)@,
                    old(self).outstanding@,
                    applied,
                    r,
                ),
            old(self).outstanding@.len() == 0 ==> r == 0 && final(io_map)@ == old(io_map)@
                && final(self).elist@ == old(self).elist@ && final(self).dc_time_ns == old(
                self,
            ).dc_time_ns,
    {
        let mut wkc_sum: u16 = 0;
        let iolen = io_map.len();
        let ghost mut applied: Seq<Option<(Seq<u8>, u16)>> = Seq::new(
            old(self).outstanding@.len(),
            |k: int| Option::<(Seq<u8>, u16)>::None,
        );
        proof {
            lemma_wkc_total_all_none(applied, applied.len() as int);
        }
        loop
            invariant
                old(self).wf(),
                self.slaves@ == old(self).slaves@,
                self.groups@ == old(self).groups@,
                self.io_span == old(self).io_span,
                self.max_slaves == old(self).max_slaves,
                self.esibuf == old(self).esibuf,
                self.esimap == old(self).esimap,
                self.elist.wf(),
                self.idx_stack.wf(),
                iolen == io_map@.len(),
                io_map@.len() == old(io_map)@.len(),
                self.io_span <= iolen,
                self.outstanding@.len() <= old(self).outstanding@.len(),
                self.outstanding@ == old(self).outstanding@.take(self.outstanding@.len() as int),
                applied.len() == old(self).outstanding@.len(),
                wkc_sum == wkc_saturated(wkc_total(applied, applied.len() as int)),
                forall|k: int|
                    0 <= k < self.outstanding@.len() ==> applied[k] is None,
                forall|k: int|
                    0 <= k < self.outstanding@.len() && !(#[trigger] old(
                        self,
                    ).outstanding@[k]).is_dc ==> entry_inputs(io_map@, old(self).outstanding@[k])
                        == entry_inputs(old(io_map)@, old(self).outstanding@[k]),
                forall|k: int|
                    self.outstanding@.len() <= k < applied.len() && !(#[trigger] old(
                        self,
                    ).outstanding@[k]).is_dc ==> echo_applied(
                        old(io_map)@,
                        io_map@,
                        old(self).outstanding@[k],
                        applied[k],
                    ),
                forall|k: int|
                    self.outstanding@.len() <= k < applied.len() && (#[trigger] old(
                        self,
                    ).outstanding@[k]).is_dc ==> applied[k] is None,
                forall|k: int|
                    0 <= k < self.outstanding@.len() ==> {
                        &&& (#[trigger] self.outstanding@[k]).idx < IDX_POOL_SIZE
                        &&& self.idx_stack@[self.outstanding@[k].idx as int]
                        &&& (!self.outstanding@[k].is_dc ==> self.outstanding@[k].io_start
                            + self.outstanding@[k].obytes + self.outstanding@[k].ibytes
                            <= self.io_span)
                    },
                forall|k1: int, k2: int|
                    0 <= k1 < k2 < self.outstanding@.len() ==> (#[trigger] self.outstanding@[k1]).idx
                        != (#[trigger] self.outstanding@[k2]).idx,
                forall|k1: int, k2: int|
                    0 <= k1 < k2 < self.outstanding@.len() && !(
                    #[trigger] self.outstanding@[k1]).is_dc && !(
                    #[trigger] self.outstanding@[k2]).is_dc ==> outstanding_regions_disjoint(
                        self.outstanding@[k1],
                        self.outstanding@[k2],
                    ),
                forall|i: int|
                    0 <= i < IDX_POOL_SIZE && self.idx_stack@[i] ==> exists|k: int|
                        0 <= k < self.outstanding@.len() && (#[trigger] self.outstanding@[k]).idx
                            == i,
                forall|j: int|
                    0 <= j < old(io_map)@.len() && !in_outstanding_inputs(
                        old(self).outstanding@,
                        j,
                    ) ==> io_map@[j] == old(io_map)@[j],
                old(self).outstanding@.len() == 0 ==> wkc_sum == 0 && io_map@ == old(io_map)@
                    && self.elist@ == old(self).elist@ && self.dc_time_ns == old(self).dc_time_ns,
            ensures
                self.outstanding@.len() == 0,
            decreases self.outstanding@.len(),
        {
            let ghost pre_out = self.outstanding@;
            let ent = match self.outstanding.pop() {
                None => {
                    break ;
                },
                Some(e) => e,
            };
            let ghost m = self.outstanding@.len() as int;
            proof {
                assert(ent == pre_out[pre_out.len() - 1]);
                assert(self.outstanding@ =~= old(self).outstanding@.take(m));
                assert(ent == old(self).outstanding@[m]);
                assert(in_outstanding_inputs_entry(old(self).outstanding@, ent));
            }
            let want_cmd: u8 = if ent.is_dc {
                crate::wire::CMD_FRMW
            } else {
                crate::wire::CMD_LRW
            };
            let want_len: usize = if ent.is_dc {
                8
            } else {
                ent.obytes + ent.ibytes
            };
            let (got, _foreign) = wait_echo(&mut self.link, ent.idx, want_cmd, want_len, timeout_us);
            self.idx_stack.release(ent.idx);
            match got {
                None => {
                    self.elist.push(
                        ErrorKind::FrameTimeout,
                        String::from_str("cyclic echo missing"),
                    );
                },
                Some(d) => {
                    if ent.is_dc {
                        let t = crate::wire::read_u64_le(&d.data, 0);
                        self.dc_time_ns = #[verifier::truncate] (t as i64);
                    } else {
                        let ghost pre_io = io_map@;
                        proof {
                            let k0 = choose|k: int|
                                0 <= k < old(self).outstanding@.len() && old(
                                    self,
                                ).outstanding@[k] == ent;
                            assert(!(#[trigger] old(self).outstanding@[k0]).is_dc);
                        }
                        let w = apply_echo(io_map, &ent, &d);
                        proof {
                            lemma_wkc_total_nonneg(applied, applied.len() as int);
                            lemma_wkc_total_update(applied, m, (d.data@, d.wkc), applied.len() as int);
                            applied = applied.update(m, Option::Some((d.data@, d.wkc)));
                            assert forall|j: int|
                                0 <= j < old(io_map)@.len() && !(ent.io_start + ent.obytes <= j
                                    < ent.io_start + ent.obytes + ent.ibytes) implies io_map@[j]
                                == pre_io[j] by {}
                            assert forall|k: int|
                                0 <= k < applied.len() && k != m && !(#[trigger] old(
                                    self,
                                ).outstanding@[k]).is_dc implies entry_inputs(
                                io_map@,
                                old(self).outstanding@[k],
                            ) == entry_inputs(pre_io, old(self).outstanding@[k]) by {
                                let e2 = old(self).outstanding@[k];
                                if k < m {
                                    assert(self.outstanding@[k] == e2);
                                    assert(outstanding_regions_disjoint(e2, ent));
                                } else {
                                    assert(outstanding_regions_disjoint(
                                        old(self).outstanding@[m],
                                        old(self).outstanding@[k],
                                    ));
                                }
                                assert(entry_inputs(io_map@, e2) =~= entry_inputs(pre_io, e2));
                            }
                        }
                        wkc_sum = wkc_accumulate(wkc_sum, w);
                    }
                },
            }
            proof {
                assert forall|q: int| 0 <= q < IDX_POOL_SIZE && self.idx_stack@[q] implies exists|
                    k: int,
                |
                    0 <= k < self.outstanding@.len() && (#[trigger] self.outstanding@[k]).idx
                        == q by {
                    let k0 = choose|k: int|
                        0 <= k < pre_out.len() && (#[trigger] pre_out[k]).idx == q;
                    assert(q != ent.idx);
                    assert(k0 < self.outstanding@.len());
                    assert(self.outstanding@[k0].idx == q);
                }
            }
        }
        proof {
            assert forall|j: int| 0 <= j < self.slaves@.len() implies crate::slave::same_shape(
                #[trigger] old(self).slaves@[j],
                self.slaves@[j],
            ) && crate::slave::same_mapping(old(self).slaves@[j], self.slaves@[j]) && old(
                self,
            ).slaves@[j].configadr == self.slaves@[j].configadr by {
                assert(self.slaves@[j] == old(self).slaves@[j]);
            }
            lemma_wf_core(old(self), self);
            assert(cycle_received(
                old(io_map)@,
                io_map@,
                old(self).outstanding@,
                applied,
                wkc_sum,
            ));
        }
        wkc_sum
    }
}

/// How many of the first `i` groups have process data mapped: each costs
/// one telegram identifier per cycle.
pub open spec fn mapped_count(groups: Seq<Group>, i: int) -> int
    decreases i,
{
    if i <= 0 {
        0
    } else {
        mapped_count(groups, i - 1) + if groups[i - 1].mapped {
            1int
        } else {
            0int
        }
    }
}

/// The mapped-group count is never negative.
pub proof fn lemma_mapped_count_nonneg(groups: Seq<Group>, i: int)
    ensures
        mapped_count(groups, i) >= 0,
    decreases i,
{
    if i > 0 {
        lemma_mapped_count_nonneg(groups, i - 1);
    }
}

/// The mapped-group count grows monotonically and never exceeds the prefix
/// length.
pub proof fn lemma_mapped_count_monotonic(groups: Seq<Group>, i: int, j: int)
    requires
        0 <= i <= j,
    ensures
        mapped_count(groups, i) <= mapped_count(groups, j),
        mapped_count(groups, j) - mapped_count(groups, i) <= j - i,
        mapped_count(groups, i) >= 0,
    decreases j - i,
{
    lemma_mapped_count_nonneg(groups, i);
    if i < j {
        lemma_mapped_count_monotonic(groups, i, j - 1);
    }
}

/// What a finished `send_processdata` leaves in flight: exactly one
/// process-data datagram per mapped group, each carrying its group's
/// region, and a distributed-clock read exactly when the clock is
/// configured.
pub open spec fn cycle_in_flight(
    entries: Seq<Outstanding>,
    groups: Seq<Group>,
    dc_capable: bool,
) -> bool {
    &&& forall|g: int|
        0 <= g < groups.len() ==> ((#[trigger] groups[g]).mapped <==> exists|k: int|
            0 <= k < entries.len() && !(#[trigger] entries[k]).is_dc && entries[k].group == g)
    &&& forall|k: int|
        0 <= k < entries.len() && !(#[trigger] entries[k]).is_dc ==> {
            &&& (entries[k].group as int) < groups.len()
            &&& entries[k].io_start == groups[entries[k].group as int].io_start
            &&& entries[k].obytes == groups[entries[k].group as int].obytes
            &&& entries[k].ibytes == groups[entries[k].group as int].ibytes
        }
    &&& (dc_capable <==> exists|k: int|
        0 <= k < entries.len() && (#[trigger] entries[k]).is_dc)
}

/// Whether `ent` stands somewhere in `entries`: its input region is then
/// one of the regions a receive may write.
pub open spec fn in_outstanding_inputs_entry(entries: Seq<Outstanding>, ent: Outstanding) -> bool {
    exists|k: int| 0 <= k < entries.len() && entries[k] == ent
}

/// The bytes of an in-flight datagram's input region in the I/O buffer.
pub open spec fn entry_inputs(io: Seq<u8>, ent: Outstanding) -> Seq<u8> {
    io.subrange(ent.io_start + ent.obytes, ent.io_start + ent.obytes + ent.ibytes)
}

/// What one in-flight process-data datagram contributed to a finished
/// receive: `None` when its echo never arrived — its input region is then
/// untouched — or else the echo's payload and working counter, with the
/// payload's input slice standing in the entry's input region.
pub open spec fn echo_applied(
    old_io: Seq<u8>,
    new_io: Seq<u8>,
    ent: Outstanding,
    a: Option<(Seq<u8>, u16)>,
) -> bool {
    match a {
        Option::None => entry_inputs(new_io, ent) == entry_inputs(old_io, ent),
        Option::Some(p) => p.0.len() == ent.obytes + ent.ibytes && entry_inputs(new_io, ent)
            == p.0.subrange(ent.obytes as int, ent.obytes + ent.ibytes),
    }
}

/// The summed working counters of the applied echoes among the first `i`.
pub open spec fn wkc_total(applied: Seq<Option<(Seq<u8>, u16)>>, i: int) -> int
    decreases i,
{
    if i <= 0 {
        0
    } else {
        wkc_total(applied, i - 1) + match applied[i - 1] {
            Option::Some(p) => p.1 as int,
            Option::None => 0int,
        }
    }
}

/// A working-counter sum, saturated at the counter type's maximum.
pub open spec fn wkc_saturated(total: int) -> u16 {
    if total > 0xFFFF {
        0xFFFF
    } else if total < 0 {
        0
    } else {
        total as u16
    }
}

/// What a finished receive did, echo by echo: every process-data datagram
/// in flight either timed out, leaving its input region untouched, or had
/// its echo's input bytes copied into exactly its input region; the clock
/// datagram writes no buffer byte; and the returned counter is the
/// saturated sum of the applied echoes' working counters.
pub open spec fn cycle_received(
    old_io: Seq<u8>,
    new_io: Seq<u8>,
    entries: Seq<Outstanding>,
    applied: Seq<Option<(Seq<u8>, u16)>>,
    r: u16,
) -> bool {
    &&& applied.len() == entries.len()
    &&& r == wkc_saturated(wkc_total(applied, applied.len() as int))
    &&& forall|k: int|
        0 <= k < entries.len() && !(#[trigger] entries[k]).is_dc ==> echo_applied(
            old_io,
            new_io,
            entries[k],
            applied[k],
        )
    &&& forall|k: int|
        0 <= k < entries.len() && (#[trigger] entries[k]).is_dc ==> applied[k] is None
}

/// With no echo applied, the working-counter total is zero.
proof fn lemma_wkc_total_all_none(applied: Seq<Option<(Seq<u8>, u16)>>, i: int)
    requires
        forall|k: int| 0 <= k < i ==> applied[k] is None,
    ensures
        wkc_total(applied, i) == 0,
    decreases i,
{
    if i > 0 {
        lemma_wkc_total_all_none(applied, i - 1);
    }
}

/// The applied working-counter total is never negative.
proof fn lemma_wkc_total_nonneg(applied: Seq<Option<(Seq<u8>, u16)>>, i: int)
    ensures
        wkc_total(applied, i) >= 0,
    decreases i,
{
    if i > 0 {
        lemma_wkc_total_nonneg(applied, i - 1);
    }
}

/// Applying one more echo raises the total of a prefix containing it by
/// exactly that echo's working counter.
proof fn lemma_wkc_total_update(
    applied: Seq<Option<(Seq<u8>, u16)>>,
    k: int,
    p: (Seq<u8>, u16),
    i: int,
)
    requires
        0 <= k < applied.len(),
        applied[k] is None,
        0 <= i <= applied.len(),
    ensures
        wkc_total(applied.update(k, Option::Some(p)), i) == wkc_total(applied, i) + if k < i {
            p.1 as int
        } else {
            0int
        },
    decreases i,
{
    if i > 0 {
        lemma_wkc_total_update(applied, k, p, i - 1);
    }
}

/// Apply one matched cyclic echo: copy the echo payload's input slice into
/// the in-flight entry's input region of the I/O buffer — no other byte
/// changes — and hand back the echo's working counter.
pub fn apply_echo(io_map: &mut Vec<u8>, ent: &Outstanding, d: &Datagram) -> (w: u16)
    requires
        !ent.is_dc,
        d.data@.len() == ent.obytes + ent.ibytes,
        ent.io_start + ent.obytes + ent.ibytes <= old(io_map)@.len(),
    ensures
        final(io_map)@.len() == old(io_map)@.len(),
        entry_inputs(final(io_map)@, *ent) == d.data@.subrange(
            ent.obytes as int,
            ent.obytes + ent.ibytes,
        ),
        forall|j: int|
            0 <= j < old(io_map)@.len() && !(ent.io_start + ent.obytes <= j < ent.io_start
                + ent.obytes + ent.ibytes) ==> final(io_map)@[j] == old(io_map)@[j],
        w == d.wkc,
{
    let iolen = io_map.len();
    let mut b: usize = 0;
    while b < ent.ibytes
        invariant
            b <= ent.ibytes,
            d.data@.len() == ent.obytes + ent.ibytes,
            ent.io_start + ent.obytes + ent.ibytes <= iolen,
            iolen == io_map@.len(),
            io_map@.len() == old(io_map)@.len(),
            forall|j: int|
                ent.io_start + ent.obytes <= j < ent.io_start + ent.obytes + b ==> io_map@[j]
                    == d.data@[j - ent.io_start],
            forall|j: int|
                0 <= j < old(io_map)@.len() && !(ent.io_start + ent.obytes <= j < ent.io_start
                    + ent.obytes + ent.ibytes) ==> io_map@[j] == old(io_map)@[j],
        decreases ent.ibytes - b,
    {
        io_map.set(ent.io_start + ent.obytes + b, d.data[ent.obytes + b]);
        b = b + 1;
    }
    assert(entry_inputs(io_map@, *ent) =~= d.data@.subrange(
        ent.obytes as int,
        ent.obytes + ent.ibytes,
    ));
    d.wkc
}

/// Add one working counter to a running sum, saturating at the type's
/// maximum.
pub fn wkc_accumulate(sum: u16, w: u16) -> (r: u16)
    ensures
        r == wkc_saturated(sum + w),
{
    let s2: u32 = sum as u32 + w as u32;
    if s2 > 0xFFFF {
        0xFFFF
    } else {
        s2 as u16
    }
}

/// The context invariant does not read any slave's propagation delay or
/// state word: a pass that only rewrites those — or touches nothing of the
/// tables at all — keeps the invariant, whatever it did to the identifier
/// pool, provided the pool still matches the datagrams in flight.
pub proof fn lemma_wf_core<L: FrameLink>(a: &Context<L>, b: &Context<L>)
    requires
        a.wf(),
        b.slaves@.len() == a.slaves@.len(),
        forall|j: int|
            0 <= j < a.slaves@.len() ==> crate::slave::same_shape(
                #[trigger] a.slaves@[j],
                b.slaves@[j],
            ) && crate::slave::same_mapping(a.slaves@[j], b.slaves@[j]) && a.slaves@[j].configadr
                == b.slaves@[j].configadr,
        b.groups@ == a.groups@,
        b.max_slaves == a.max_slaves,
        b.io_span == a.io_span,
        b.idx_stack.wf(),
        b.elist.wf(),
        b.esibuf.wf(),
        b.esimap.wf(),
        forall|k: int|
            0 <= k < b.outstanding@.len() ==> {
                &&& (#[trigger] b.outstanding@[k]).idx < IDX_POOL_SIZE
                &&& b.idx_stack@[b.outstanding@[k].idx as int]
                &&& (!b.outstanding@[k].is_dc ==> b.outstanding@[k].io_start
                    + b.outstanding@[k].obytes + b.outstanding@[k].ibytes <= b.io_span)
            },
        forall|k1: int, k2: int|
            0 <= k1 < k2 < b.outstanding@.len() ==> (#[trigger] b.outstanding@[k1]).idx != (
            #[trigger] b.outstanding@[k2]).idx,
        forall|q: int|
            0 <= q < IDX_POOL_SIZE && b.idx_stack@[q] ==> exists|k: int|
                0 <= k < b.outstanding@.len() && (#[trigger] b.outstanding@[k]).idx == q,
        forall|k1: int, k2: int|
            0 <= k1 < k2 < b.outstanding@.len() && !(#[trigger] b.outstanding@[k1]).is_dc && !(
            #[trigger] b.outstanding@[k2]).is_dc ==> outstanding_regions_disjoint(
                b.outstanding@[k1],
                b.outstanding@[k2],
            ),
    ensures
        b.wf(),
{
    assert forall|g1: int, g2: int|
        0 <= g1 < g2 < b.groups@.len() && (#[trigger] b.groups@[g1]).mapped && (
        #[trigger] b.groups@[g2]).mapped implies crate::slave::group_regions_disjoint(
        b.groups@[g1],
        b.groups@[g2],
    ) by {
        assert(b.groups@[g1] == a.groups@[g1] && b.groups@[g2] == a.groups@[g2]);
    }
    assert forall|g2: int| 0 <= g2 < b.groups@.len() implies {
        &&& (#[trigger] b.groups@[g2]).outputs_wkc <= b.slaves@.len()
        &&& b.groups@[g2].inputs_wkc <= b.slaves@.len()
        &&& (b.groups@[g2].mapped ==> crate::slave::group_layout(b.slaves@, b.groups@[g2], g2 as u8)
            && b.groups@[g2].io_start + b.groups@[g2].obytes + b.groups@[g2].ibytes <= b.io_span
            && b.groups@[g2].obytes + b.groups@[g2].ibytes <= MAX_DATA_LEN)
    } by {
        assert(a.groups@[g2] == b.groups@[g2]);
        if b.groups@[g2].mapped {
            crate::slave::lemma_layout_preserved(a.slaves@, b.slaves@, b.groups@[g2], g2 as u8);
        }
    }
    assert forall|j: int| 0 <= j < b.slaves@.len() && (#[trigger] b.slaves@[j]).mapped implies
        b.slaves@[j].fits(b.io_span as int) && b.groups@[b.slaves@[j].group as int].mapped by {
        assert(crate::slave::same_mapping(a.slaves@[j], b.slaves@[j]) && crate::slave::same_shape(
            a.slaves@[j],
            b.slaves@[j],
        ));
        assert(a.slaves@[j].mapped);
        assert(a.slaves@[j].fits(a.io_span as int));
    }
    assert forall|j: int| 0 <= j < b.slaves@.len() implies (#[trigger] b.slaves@[j]).configadr
        == NODE_ADDR_BASE + j && b.slaves@[j].group < b.groups@.len() by {
        assert(crate::slave::same_shape(a.slaves@[j], b.slaves@[j]) && a.slaves@[j].configadr
            == b.slaves@[j].configadr);
    }
}

/// The special case of `lemma_wf_core` where the identifier pool and the
/// datagrams in flight are exactly as before.
pub proof fn lemma_wf_slaves_tweak<L: FrameLink>(a: &Context<L>, b: &Context<L>)
    requires
        a.wf(),
        b.slaves@.len() == a.slaves@.len(),
        forall|j: int|
            0 <= j < a.slaves@.len() ==> crate::slave::same_shape(
                #[trigger] a.slaves@[j],
                b.slaves@[j],
            ) && crate::slave::same_mapping(a.slaves@[j], b.slaves@[j]) && a.slaves@[j].configadr
                == b.slaves@[j].configadr,
        b.groups@ == a.groups@,
        b.max_slaves == a.max_slaves,
        b.io_span == a.io_span,
        b.outstanding@ == a.outstanding@,
        b.idx_stack@ == a.idx_stack@,
        b.idx_stack.wf(),
        b.elist.wf(),
        b.esibuf.wf(),
        b.esimap.wf(),
    ensures
        b.wf(),
{
    assert forall|q: int| 0 <= q < IDX_POOL_SIZE && b.idx_stack@[q] implies exists|k: int|
        0 <= k < b.outstanding@.len() && (#[trigger] b.outstanding@[k]).idx == q by {
        assert(a.idx_stack@[q]);
        let k0 = choose|k: int|
            0 <= k < a.outstanding@.len() && (#[trigger] a.outstanding@[k]).idx == q;
        assert(b.outstanding@[k0].idx == q);
    }
    assert forall|k1: int, k2: int|
        0 <= k1 < k2 < b.outstanding@.len() && !(#[trigger] b.outstanding@[k1]).is_dc && !(
        #[trigger] b.outstanding@[k2]).is_dc implies outstanding_regions_disjoint(
        b.outstanding@[k1],
        b.outstanding@[k2],
    ) by {
        assert(b.outstanding@[k1] == a.outstanding@[k1] && b.outstanding@[k2]
            == a.outstanding@[k2]);
    }
    lemma_wf_core(a, b);
}

/// The multiplexer law: a well-formed context never has two datagrams in
/// flight under one telegram identifier, and every identifier in flight is
/// marked in use in the pool.
pub proof fn lemma_one_request_per_identifier<L: FrameLink>(ctx: &Context<L>)
    requires
        ctx.wf(),
    ensures
        forall|k1: int, k2: int|
            0 <= k1 < k2 < ctx.outstanding@.len() ==> (#[trigger] ctx.outstanding@[k1]).idx != (
            #[trigger] ctx.outstanding@[k2]).idx,
        forall|k: int|
            0 <= k < ctx.outstanding@.len() ==> ctx.idx_stack@[(
            #[trigger] ctx.outstanding@[k]).idx as int],
{
}

/// With no datagram in flight, a well-formed pool is entirely free and its
/// in-use count is zero.
proof fn lemma_all_free_means_count_zero(pool: Seq<bool>, outstanding: Seq<Outstanding>)
    requires
        outstanding.len() == 0,
        forall|q: int|
            0 <= q < IDX_POOL_SIZE && pool[q] ==> exists|k: int|
                0 <= k < outstanding.len() && (#[trigger] outstanding[k]).idx == q,
    ensures
        crate::idx::count_true(pool, IDX_POOL_SIZE as int) == 0,
        forall|q: int| 0 <= q < IDX_POOL_SIZE ==> !pool[q],
{
    crate::idx::lemma_count_true_bounds(pool, IDX_POOL_SIZE as int);
}

/// The expected working counter law: for every mapped group of a
/// well-formed context, the value `expected_wkc` derives — twice the
/// output contributions plus the input contributions — counts exactly the
/// group's slaves with outputs twice and its slaves with inputs once.
pub proof fn lemma_group_expected_wkc<L: FrameLink>(ctx: &Context<L>, g: int)
    requires
        ctx.wf(),
        0 <= g < ctx.groups@.len(),
        ctx.groups@[g].mapped,
    ensures
        2 * ctx.groups@[g].outputs_wkc + ctx.groups@[g].inputs_wkc == 2 * crate::slave::out_count(
            ctx.slaves@,
            g as u8,
            ctx.slaves@.len() as int,
        ) + crate::slave::in_count(ctx.slaves@, g as u8, ctx.slaves@.len() as int),
{
}

/// The context invariant survives an operation that only talked on the
/// link and logged records, leaving every table and the identifier pool as
/// they were.
pub proof fn lemma_wf_unchanged_tables<L: FrameLink>(a: &Context<L>, b: &Context<L>)
    requires
        a.wf(),
        b.slaves@ == a.slaves@,
        b.groups@ == a.groups@,
        b.max_slaves == a.max_slaves,
        b.io_span == a.io_span,
        b.outstanding@ == a.outstanding@,
        b.idx_stack@ == a.idx_stack@,
        b.idx_stack.wf(),
        b.elist.wf(),
        b.esibuf.wf(),
        b.esimap.wf(),
    ensures
        b.wf(),
{
    assert forall|j: int| 0 <= j < a.slaves@.len() implies crate::slave::same_shape(
        #[trigger] a.slaves@[j],
        b.slaves@[j],
    ) && crate::slave::same_mapping(a.slaves@[j], b.slaves@[j]) && a.slaves@[j].configadr
        == b.slaves@[j].configadr by {
        assert(b.slaves@[j] == a.slaves@[j]);
    }
    lemma_wf_slaves_tweak(a, b);
}

impl<L: FrameLink> Context<L> {
    /// Write one value to a slave's object dictionary: a blocking
    /// request/response exchange over the mailbox, bounded by the timeout.
    /// The value is framed little endian on the wire whatever the host
    /// byte order. Any failure — no echo, a missing acknowledgement, an
    /// abort, a malformed or mismatched response — leaves a record in the
    /// log and returns the error; no table changes either way.
    pub fn write_sdo(
        &mut self,
        slave: u16,
        index: u16,
        subindex: u8,
        value: u64,
        size: u8,
        timeout_us: u32,
    ) -> (r: Result<(), EtherCatError>)
        requires
            old(self).wf(),
            1 <= slave as int <= old(self).slaves@.len(),
            crate::mailbox::sdo_value_ok(value, size),
        ensures
            final(self).wf(),
            final(self).slaves@ == old(self).slaves@,
            final(self).groups@ == old(self).groups@,
            final(self).outstanding@ == old(self).outstanding@,
            final(self).idx_stack@ == old(self).idx_stack@,
            final(self).io_span == old(self).io_span,
            r is Ok ==> final(self).elist@ == old(self).elist@,
            r is Err ==> final(self).log().len() > 0,
    {
        let addr = self.slaves[(slave - 1) as usize].configadr;
        let req = crate::mailbox::build_download_request(index, subindex, value, size);
        match exchange(
            &mut self.link,
            &mut self.idx_stack,
            &mut self.elist,
            crate::wire::CMD_FPWR,
            addr,
            ADO_MBX_OUT,
            &req,
            timeout_us,
        ) {
            Err(e) => {
                proof {
                    lemma_wf_unchanged_tables(old(self), self);
                }
                return Err(e);
            },
            Ok(d) => {
                if d.wkc != 1 {
                    self.elist.push(
                        ErrorKind::SdoFailure,
                        String::from_str("mailbox write not acknowledged"),
                    );
                    proof {
                        lemma_wf_unchanged_tables(old(self), self);
                    }
                    return Err(EtherCatError::Error);
                }
            },
        }
        let probe = zeros(16);
        match exchange(
            &mut self.link,
            &mut self.idx_stack,
            &mut self.elist,
            crate::wire::CMD_FPRD,
            addr,
            ADO_MBX_IN,
            &probe,
            timeout_us,
        ) {
            Err(e) => {
                proof {
                    lemma_wf_unchanged_tables(old(self), self);
                }
                Err(e)
            },
            Ok(d) => {
                proof {
                    lemma_wf_unchanged_tables(old(self), self);
                }
                match crate::mailbox::parse_download_response(&d.data) {
                    Some(f) => {
                        if f.0 == index && f.1 == subindex {
                            Ok(())
                        } else {
                            self.elist.push(
                                ErrorKind::SdoFailure,
                                String::from_str("response names another object"),
                            );
                            proof {
                                lemma_wf_unchanged_tables(old(self), self);
                            }
                            Err(EtherCatError::Error)
                        }
                    },
                    None => {
                        if crate::mailbox::is_abort(&d.data) {
                            self.elist.push(
                                ErrorKind::SdoFailure,
                                String::from_str("transfer aborted by the slave"),
                            );
                        } else {
                            self.elist.push(
                                ErrorKind::SdoFailure,
                                String::from_str("malformed mailbox response"),
                            );
                        }
                        proof {
                            lemma_wf_unchanged_tables(old(self), self);
                        }
                        Err(EtherCatError::Error)
                    },
                }
            },
        }
    }

    /// Read one value of the given width from a slave's object dictionary:
    /// a blocking request/response exchange over the mailbox, bounded by
    /// the timeout. The value comes back converted from its little-endian
    /// wire form and always fits the requested width; failure surfaces
    /// only as an error with a record in the log, never a partial value.
    pub fn read_sdo(
        &mut self,
        slave: u16,
        index: u16,
        subindex: u8,
        size: u8,
        timeout_us: u32,
    ) -> (r: Result<u64, EtherCatError>)
        requires
            old(self).wf(),
            1 <= slave as int <= old(self).slaves@.len(),
            size == 1 || size == 2 || size == 4 || size == 8,
        ensures
            final(self).wf(),
            final(self).slaves@ == old(self).slaves@,
            final(self).groups@ == old(self).groups@,
            final(self).outstanding@ == old(self).outstanding@,
            final(self).idx_stack@ == old(self).idx_stack@,
            final(self).io_span == old(self).io_span,
            r matches Ok(v) ==> crate::mailbox::sdo_value_ok(v, size),
            r is Ok ==> final(self).elist@ == old(self).elist@,
            r is Err ==> final(self).log().len() > 0,
    {
        let addr = self.slaves[(slave - 1) as usize].configadr;
        let req = crate::mailbox::build_upload_request(index, subindex);
        match exchange(
            &mut self.link,
            &mut self.idx_stack,
            &mut self.elist,
            crate::wire::CMD_FPWR,
            addr,
            ADO_MBX_OUT,
            &req,
            timeout_us,
        ) {
            Err(e) => {
                proof {
                    lemma_wf_unchanged_tables(old(self), self);
                }
                return Err(e);
            },
            Ok(d) => {
                if d.wkc != 1 {
                    self.elist.push(
                        ErrorKind::SdoFailure,
                        String::from_str("mailbox write not acknowledged"),
                    );
                    proof {
                        lemma_wf_unchanged_tables(old(self), self);
                    }
                    return Err(EtherCatError::Error);
                }
            },
        }
        let probe = zeros(16 + size as usize);
        match exchange(
            &mut self.link,
            &mut self.idx_stack,
            &mut self.elist,
            crate::wire::CMD_FPRD,
            addr,
            ADO_MBX_IN,
            &probe,
            timeout_us,
        ) {
            Err(e) => {
                proof {
                    lemma_wf_unchanged_tables(old(self), self);
                }
                Err(e)
            },
            Ok(d) => {
                proof {
                    lemma_wf_unchanged_tables(old(self), self);
                }
                match crate::mailbox::parse_upload_response(&d.data) {
                    Some(f) => {
                        if f.0 == index && f.1 == subindex && f.3 == size {
                            Ok(f.2)
                        } else {
                            self.elist.push(
                                ErrorKind::SdoFailure,
                                String::from_str("response names another object"),
                            );
                            proof {
                                lemma_wf_unchanged_tables(old(self), self);
                            }
                            Err(EtherCatError::Error)
                        }
                    },
                    None => {
                        if crate::mailbox::is_abort(&d.data) {
                            self.elist.push(
                                ErrorKind::SdoFailure,
                                String::from_str("transfer aborted by the slave"),
                            );
                        } else {
                            self.elist.push(
                                ErrorKind::SdoFailure,
                                String::from_str("malformed mailbox response"),
                            );
                        }
                        proof {
                            lemma_wf_unchanged_tables(old(self), self);
                        }
                        Err(EtherCatError::Error)
                    },
                }
            },
        }
    }
}

/// Wait on the link for the echo of datagram `idx`/`cmd` with a payload of
/// `want_len` bytes, up to roughly `timeout_us` microseconds. Returns the
/// matched datagram, and whether any frame that was not the awaited echo
/// arrived meanwhile.
fn wait_echo<L: FrameLink>(
    link: &mut L,
    idx: u8,
    cmd: u8,
    want_len: usize,
    timeout_us: u32,
) -> (r: (Option<Datagram>, bool))
    ensures
        r.0 matches Some(d) ==> d.idx == idx && d.cmd == cmd && d.data@.len() == want_len,
{
    let tries: u32 = timeout_us / POLL_SLICE_US + 1;
    let mut t: u32 = 0;
    let mut foreign = false;
    while t < tries
        invariant
            t <= tries,
        decreases tries - t,
    {
        match link.receive_frame(POLL_SLICE_US) {
            None => {
                return (None, foreign);
            },
            Some(f) => {
                match decode_frame(&f) {
                    Some(d) => {
                        if d.idx == idx && d.cmd == cmd && d.data.len() == want_len {
                            return (Some(d), foreign);
                        } else {
                            foreign = true;
                        }
                    },
                    None => {
                        foreign = true;
                    },
                }
            },
        }
        t = t + 1;
    }
    (None, foreign)
}

/// One complete request/echo exchange: take an identifier, frame and send
/// the datagram, wait for its validated echo, and hand the identifier
/// back. On failure a record is logged and the three-valued error says
/// whether nothing, only foreign traffic, or a protocol violation was
/// seen. The identifier pool always comes back exactly as it was.
fn exchange<L: FrameLink>(
    link: &mut L,
    idx_stack: &mut IdxStack,
    elist: &mut ERing,
    cmd: u8,
    adp: u16,
    ado: u16,
    data: &Vec<u8>,
    timeout_us: u32,
) -> (r: Result<Datagram, EtherCatError>)
    requires
        old(idx_stack).wf(),
        old(elist).wf(),
        data@.len() <= MAX_DATA_LEN,
    ensures
        final(idx_stack).wf(),
        final(idx_stack)@ == old(idx_stack)@,
        final(elist).wf(),
        r matches Ok(d) ==> d.cmd == cmd && d.data@.len() == data@.len() && final(elist)@ == old(
            elist,
        )@,
        r is Err ==> final(elist)@.len() > 0,
{
    let id = match idx_stack.acquire() {
        Ok(i) => i,
        Err(_) => {
            elist.push(ErrorKind::IndexExhausted, String::from_str("telegram identifier pool"));
            return Err(EtherCatError::Error);
        },
    };
    let frame = encode_frame(cmd, id, adp, ado, data);
    link.send_frame(&frame);
    let (got, foreign) = wait_echo(link, id, cmd, data.len(), timeout_us);
    idx_stack.release(id);
    assert(idx_stack@ =~= old(idx_stack)@);
    match got {
        Some(d) => Ok(d),
        None => {
            if foreign {
                elist.push(ErrorKind::UnexpectedEcho, String::from_str("no matching echo"));
                Err(EtherCatError::OtherFrame)
            } else {
                elist.push(ErrorKind::FrameTimeout, String::from_str("no echo received"));
                Err(EtherCatError::NoFrame)
            }
        },
    }
}

} // verus!
