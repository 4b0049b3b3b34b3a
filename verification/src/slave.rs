//! Slave and group tables: device identity, I/O shape, and the byte-exact
//! layout of cyclic process data inside the caller's I/O buffer.
//!
//! Mapping lays each group's slaves out in configured-address order,
//! outputs of every slave first, then inputs, each slave's bits padded to
//! whole bytes. The prefix-sum functions here define that layout; the
//! master's mapping call establishes it and the disjointness law below
//! follows from it.

use vstd::prelude::*;
use crate::state::EtherCatState;

verus! {

/// Hard capacity of a context's slave table.
pub const MAX_SLAVES: usize = 200;

/// Most groups a context can hold: one per telegram identifier, since each
/// cyclic exchange keeps one identifier per group in flight.
pub const MAX_GROUPS: usize = 8;

/// Whole bytes needed for a bit count.
pub open spec fn byte_size(bits: u16) -> int {
    (bits + 7) / 8
}

/// One field device on the segment.
pub struct Slave {
    /// Device name; empty until something outside the engine supplies it
    /// (EEPROM text interpretation is not the engine's business).
    pub name: String,
    /// Configured station address, unique within a context.
    pub configadr: u16,
    /// Manufacturer identity from the device's EEPROM summary.
    pub man: u32,
    /// Product identity from the device's EEPROM summary.
    pub id: u32,
    /// Revision from the device's EEPROM summary.
    pub rev: u32,
    /// Output size in bits.
    pub obits: u16,
    /// Input size in bits.
    pub ibits: u16,
    /// Output size in whole bytes, set by mapping.
    pub obytes: usize,
    /// Input size in whole bytes, set by mapping.
    pub ibytes: usize,
    /// Offset of this slave's outputs in the I/O buffer, set by mapping.
    pub ostart: usize,
    /// Offset of this slave's inputs in the I/O buffer, set by mapping.
    pub istart: usize,
    /// Last known device state; also the staged state a `write_state`
    /// transmits.
    pub state: EtherCatState,
    /// Whether the device's last reported status word carried the
    /// acknowledge/error flag.
    pub al_flag: bool,
    /// Propagation delay relative to the reference clock, nanoseconds.
    pub pdelay: i32,
    /// Whether the device supports the distributed clock.
    pub hasdc: bool,
    /// Port of the upstream device this one hangs off.
    pub parentport: u8,
    /// The group this slave belongs to.
    pub group: u8,
    /// Whether mapping has assigned this slave's offsets.
    pub mapped: bool,
}

impl Slave {
    /// Device name.
    pub fn name(&self) -> (r: &str)
        ensures
            r@ == self.name@,
    {
        self.name.as_str()
    }

    /// Output size in bits.
    pub fn output_size(&self) -> (r: u16)
        ensures
            r == self.obits,
    {
        self.obits
    }

    /// Input size in bits.
    pub fn input_size(&self) -> (r: u16)
        ensures
            r == self.ibits,
    {
        self.ibits
    }

    /// Last known device state.
    pub fn state(&self) -> (r: EtherCatState)
        ensures
            r == self.state,
    {
        self.state
    }

    /// Whether the device's last reported status word carried the
    /// acknowledge/error flag.
    pub fn ack_error(&self) -> (r: bool)
        ensures
            r == self.al_flag,
    {
        self.al_flag
    }

    /// Propagation delay relative to the reference clock, nanoseconds.
    pub fn prop_delay(&self) -> (r: i32)
        ensures
            r == self.pdelay,
    {
        self.pdelay
    }

    /// Whether the device supports the distributed clock.
    pub fn has_dc(&self) -> (r: bool)
        ensures
            r == self.hasdc,
    {
        self.hasdc
    }

    /// Manufacturer identity.
    pub fn eep_manufacturer(&self) -> (r: u32)
        ensures
            r == self.man,
    {
        self.man
    }

    /// Product identity.
    pub fn eep_id(&self) -> (r: u32)
        ensures
            r == self.id,
    {
        self.id
    }

    /// Revision.
    pub fn eep_revision(&self) -> (r: u32)
        ensures
            r == self.rev,
    {
        self.rev
    }

    /// Port of the upstream device this one hangs off.
    pub fn parent_port(&self) -> (r: u8)
        ensures
            r == self.parentport,
    {
        self.parentport
    }

    /// Configured station address.
    pub fn configured_addr(&self) -> (r: u16)
        ensures
            r == self.configadr,
    {
        self.configadr
    }

    /// This slave's mapped regions lie inside a buffer of `len` bytes.
    pub open spec fn fits(&self, len: int) -> bool {
        &&& self.ostart + self.obytes <= len
        &&& self.istart + self.ibytes <= len
    }

    /// The current output bytes of this slave, copied out of the caller's
    /// I/O buffer.
    pub fn outputs(&self, io: &Vec<u8>) -> (r: Vec<u8>)
        requires
            self.fits(io@.len() as int),
        ensures
            r@ == io@.subrange(self.ostart as int, self.ostart + self.obytes),
    {
        copy_region(io, self.ostart, self.obytes)
    }

    /// The latest input bytes of this slave, copied out of the caller's
    /// I/O buffer.
    pub fn inputs(&self, io: &Vec<u8>) -> (r: Vec<u8>)
        requires
            self.fits(io@.len() as int),
        ensures
            r@ == io@.subrange(self.istart as int, self.istart + self.ibytes),
    {
        copy_region(io, self.istart, self.ibytes)
    }

    /// Write this slave's output bytes into the caller's I/O buffer; no
    /// byte outside the slave's output region changes.
    pub fn set_outputs(&self, io: &mut Vec<u8>, data: &Vec<u8>)
        requires
            self.fits(old(io)@.len() as int),
            data@.len() == self.obytes,
        ensures
            final(io)@.len() == old(io)@.len(),
            final(io)@.subrange(self.ostart as int, self.ostart + self.obytes) == data@,
            forall|j: int|
                0 <= j < old(io)@.len() && !(self.ostart <= j < self.ostart + self.obytes)
                    ==> final(io)@[j] == old(io)@[j],
    {
        let iolen = io.len();
        let mut k: usize = 0;
        while k < data.len()
            invariant
                k <= data@.len(),
                data@.len() == self.obytes,
                self.ostart + self.obytes <= iolen,
                iolen == io@.len(),
                io@.len() == old(io)@.len(),
                forall|j: int|
                    self.ostart <= j < self.ostart + k ==> io@[j] == data@[j - self.ostart],
                forall|j: int|
                    0 <= j < old(io)@.len() && !(self.ostart <= j < self.ostart + self.obytes)
                        ==> io@[j] == old(io)@[j],
            decreases data@.len() - k,
        {
            io.set(self.ostart + k, data[k]);
            k = k + 1;
        }
        assert(final(io)@.subrange(self.ostart as int, self.ostart + self.obytes) =~= data@);
    }
}

impl Default for Slave {
    /// A blank table entry: empty identity, no I/O, no valid state.
    fn default() -> (r: Slave)
        ensures
            r.name@ == Seq::<char>::empty(),
            r.configadr == 0,
            r.man == 0 && r.id == 0 && r.rev == 0,
            r.obits == 0 && r.ibits == 0,
            r.obytes == 0 && r.ibytes == 0 && r.ostart == 0 && r.istart == 0,
            r.state is NoValidState,
            !r.al_flag,
            r.pdelay == 0,
            !r.hasdc,
            r.parentport == 0,
            r.group == 0,
            !r.mapped,
    {
        Slave {
            name: String::new(),
            configadr: 0,
            man: 0,
            id: 0,
            rev: 0,
            obits: 0,
            ibits: 0,
            obytes: 0,
            ibytes: 0,
            ostart: 0,
            istart: 0,
            state: EtherCatState::NoValidState,
            al_flag: false,
            pdelay: 0,
            hasdc: false,
            parentport: 0,
            group: 0,
            mapped: false,
        }
    }
}

/// Copy `len` bytes starting at `start` out of a buffer.
pub(crate) fn copy_region(io: &Vec<u8>, start: usize, len: usize) -> (r: Vec<u8>)
    requires
        start + len <= io@.len(),
    ensures
        r@ == io@.subrange(start as int, start + len),
{
    let iolen = io.len();
    let mut r: Vec<u8> = Vec::new();
    let mut k: usize = 0;
    while k < len
        invariant
            k <= len,
            start + len <= iolen,
            iolen == io@.len(),
            r@ == io@.subrange(start as int, start + k as int),
        decreases len - k,
    {
        r.push(io[start + k]);
        assert(r@ =~= io@.subrange(start as int, start + k as int + 1));
        k = k + 1;
    }
    r
}

/// A partition of slaves sharing one region of the I/O buffer.
pub struct Group {
    /// How many of the group's slaves contribute outputs.
    pub outputs_wkc: u16,
    /// How many of the group's slaves contribute inputs.
    pub inputs_wkc: u16,
    /// Total mapped output bytes of the group.
    pub obytes: usize,
    /// Total mapped input bytes of the group.
    pub ibytes: usize,
    /// Offset of the group's region in the I/O buffer.
    pub io_start: usize,
    /// Whether process data has been mapped for this group.
    pub mapped: bool,
}

impl Group {
    /// The working-counter contributions can never exceed the slave table,
    /// so the derived expected working counter fits its type.
    pub open spec fn wf(&self) -> bool {
        &&& self.outputs_wkc <= MAX_SLAVES
        &&& self.inputs_wkc <= MAX_SLAVES
    }

    /// How many of the group's slaves contribute outputs.
    pub fn outputs_wkc(&self) -> (r: u16)
        ensures
            r == self.outputs_wkc,
    {
        self.outputs_wkc
    }

    /// How many of the group's slaves contribute inputs.
    pub fn inputs_wkc(&self) -> (r: u16)
        ensures
            r == self.inputs_wkc,
    {
        self.inputs_wkc
    }

    /// The working counter a flawless cycle returns: each slave counts
    /// twice for its outputs and once for its inputs.
    pub fn expected_wkc(&self) -> (r: u16)
        requires
            self.wf(),
        ensures
            r == 2 * self.outputs_wkc + self.inputs_wkc,
    {
        self.outputs_wkc * 2 + self.inputs_wkc
    }
}

impl Default for Group {
    /// An unmapped group with no contributions.
    fn default() -> (r: Group)
        ensures
            r.outputs_wkc == 0,
            r.inputs_wkc == 0,
            r.obytes == 0,
            r.ibytes == 0,
            r.io_start == 0,
            !r.mapped,
            r.wf(),
    {
        Group { outputs_wkc: 0, inputs_wkc: 0, obytes: 0, ibytes: 0, io_start: 0, mapped: false }
    }
}

/// Of two states, the one lower in the operational order; ties keep the
/// first.
pub open spec fn lower_state(a: EtherCatState, b: EtherCatState) -> EtherCatState {
    if b.rank_spec() < a.rank_spec() {
        b
    } else {
        a
    }
}

/// The lowest recorded state among the first `i` table entries, starting
/// from `Op` (the top of the ascent) on an empty prefix.
pub open spec fn lowest_state_prefix(slaves: Seq<Slave>, i: int) -> EtherCatState
    decreases i,
{
    if i <= 0 {
        EtherCatState::Op
    } else {
        lower_state(lowest_state_prefix(slaves, i - 1), slaves[i - 1].state)
    }
}

/// Two groups' I/O-buffer regions do not overlap: one ends before the
/// other begins.
pub open spec fn group_regions_disjoint(a: Group, b: Group) -> bool {
    ||| a.io_start + a.obytes + a.ibytes <= b.io_start
    ||| b.io_start + b.obytes + b.ibytes <= a.io_start
}

/// Output bytes of the slaves of group `g` among the first `i` entries.
pub open spec fn out_sum(slaves: Seq<Slave>, g: u8, i: int) -> int
    decreases i,
{
    if i <= 0 {
        0
    } else {
        out_sum(slaves, g, i - 1) + if slaves[i - 1].group == g {
            byte_size(slaves[i - 1].obits)
        } else {
            0
        }
    }
}

/// Input bytes of the slaves of group `g` among the first `i` entries.
pub open spec fn in_sum(slaves: Seq<Slave>, g: u8, i: int) -> int
    decreases i,
{
    if i <= 0 {
        0
    } else {
        in_sum(slaves, g, i - 1) + if slaves[i - 1].group == g {
            byte_size(slaves[i - 1].ibits)
        } else {
            0
        }
    }
}

/// Slaves of group `g` with outputs among the first `i` entries.
pub open spec fn out_count(slaves: Seq<Slave>, g: u8, i: int) -> int
    decreases i,
{
    if i <= 0 {
        0
    } else {
        out_count(slaves, g, i - 1) + if slaves[i - 1].group == g && slaves[i - 1].obits > 0 {
            1int
        } else {
            0int
        }
    }
}

/// Slaves of group `g` with inputs among the first `i` entries.
pub open spec fn in_count(slaves: Seq<Slave>, g: u8, i: int) -> int
    decreases i,
{
    if i <= 0 {
        0
    } else {
        in_count(slaves, g, i - 1) + if slaves[i - 1].group == g && slaves[i - 1].ibits > 0 {
            1int
        } else {
            0int
        }
    }
}

/// The prefix sums and counts are never negative.
pub proof fn lemma_sums_nonneg(slaves: Seq<Slave>, g: u8, i: int)
    ensures
        out_sum(slaves, g, i) >= 0,
        in_sum(slaves, g, i) >= 0,
        out_count(slaves, g, i) >= 0,
        in_count(slaves, g, i) >= 0,
    decreases i,
{
    if i > 0 {
        lemma_sums_nonneg(slaves, g, i - 1);
    }
}

/// The prefix sums grow monotonically and the counts stay below the prefix
/// length.
pub proof fn lemma_sums_monotonic(slaves: Seq<Slave>, g: u8, i: int, j: int)
    requires
        0 <= i <= j,
    ensures
        out_sum(slaves, g, i) <= out_sum(slaves, g, j),
        in_sum(slaves, g, i) <= in_sum(slaves, g, j),
        out_count(slaves, g, i) <= out_count(slaves, g, j),
        in_count(slaves, g, i) <= in_count(slaves, g, j),
        out_count(slaves, g, j) - out_count(slaves, g, i) <= j - i,
        in_count(slaves, g, j) - in_count(slaves, g, i) <= j - i,
        out_sum(slaves, g, i) >= 0,
        in_sum(slaves, g, i) >= 0,
        out_count(slaves, g, i) >= 0,
        in_count(slaves, g, i) >= 0,
    decreases j - i,
{
    lemma_sums_nonneg(slaves, g, i);
    if i < j {
        lemma_sums_monotonic(slaves, g, i, j - 1);
    }
}

/// The layout a finished mapping of group `gi` guarantees: each of the
/// group's slaves sits at its prefix-sum offset, outputs packed first,
/// inputs after all outputs, and the group totals and working-counter
/// contributions are the whole-table sums.
pub open spec fn group_layout(slaves: Seq<Slave>, g: Group, gi: u8) -> bool {
    &&& g.obytes == out_sum(slaves, gi, slaves.len() as int)
    &&& g.ibytes == in_sum(slaves, gi, slaves.len() as int)
    &&& g.outputs_wkc == out_count(slaves, gi, slaves.len() as int)
    &&& g.inputs_wkc == in_count(slaves, gi, slaves.len() as int)
    &&& forall|i: int|
        0 <= i < slaves.len() && (#[trigger] slaves[i]).group == gi ==> {
            &&& slaves[i].mapped
            &&& slaves[i].obytes == byte_size(slaves[i].obits)
            &&& slaves[i].ibytes == byte_size(slaves[i].ibits)
            &&& slaves[i].ostart == g.io_start + out_sum(slaves, gi, i)
            &&& slaves[i].istart == g.io_start + g.obytes + in_sum(slaves, gi, i)
        }
}

/// Two table entries share the shape the layout sums depend on: group
/// membership and bit counts.
pub open spec fn same_shape(a: Slave, b: Slave) -> bool {
    &&& a.obits == b.obits
    &&& a.ibits == b.ibits
    &&& a.group == b.group
}

/// Two table entries agree on the fields mapping assigns.
pub open spec fn same_mapping(a: Slave, b: Slave) -> bool {
    &&& a.obytes == b.obytes
    &&& a.ibytes == b.ibytes
    &&& a.ostart == b.ostart
    &&& a.istart == b.istart
    &&& a.mapped == b.mapped
}

/// Two table entries agree on everything but the fields mapping assigns.
pub open spec fn same_except_mapping(a: Slave, b: Slave) -> bool {
    &&& a.name == b.name
    &&& a.configadr == b.configadr
    &&& a.man == b.man
    &&& a.id == b.id
    &&& a.rev == b.rev
    &&& a.state == b.state
    &&& a.al_flag == b.al_flag
    &&& a.pdelay == b.pdelay
    &&& a.hasdc == b.hasdc
    &&& a.parentport == b.parentport
    &&& same_shape(a, b)
}

/// Two table entries agree on everything but the propagation delay.
pub open spec fn same_except_pdelay(a: Slave, b: Slave) -> bool {
    &&& a.name == b.name
    &&& a.configadr == b.configadr
    &&& a.man == b.man
    &&& a.id == b.id
    &&& a.rev == b.rev
    &&& a.state == b.state
    &&& a.al_flag == b.al_flag
    &&& a.hasdc == b.hasdc
    &&& a.parentport == b.parentport
    &&& same_shape(a, b)
    &&& same_mapping(a, b)
}

/// The prefix sums and counts depend only on the entries' shape, which
/// neither mapping nor clock configuration changes.
pub proof fn lemma_sums_congruence(s1: Seq<Slave>, s2: Seq<Slave>, g: u8, i: int)
    requires
        s1.len() == s2.len(),
        i <= s1.len(),
        forall|j: int| 0 <= j < s1.len() ==> same_shape(#[trigger] s1[j], s2[j]),
    ensures
        out_sum(s1, g, i) == out_sum(s2, g, i),
        in_sum(s1, g, i) == in_sum(s2, g, i),
        out_count(s1, g, i) == out_count(s2, g, i),
        in_count(s1, g, i) == in_count(s2, g, i),
    decreases i,
{
    if i > 0 {
        lemma_sums_congruence(s1, s2, g, i - 1);
    }
}

/// A finished layout of a group survives any pass that keeps every entry's
/// shape and does not touch the mapping fields of that group's slaves.
pub proof fn lemma_layout_preserved(s1: Seq<Slave>, s2: Seq<Slave>, grp: Group, gi: u8)
    requires
        s1.len() == s2.len(),
        forall|j: int| 0 <= j < s1.len() ==> same_shape(#[trigger] s1[j], s2[j]),
        forall|j: int|
            0 <= j < s1.len() && (#[trigger] s1[j]).group == gi ==> same_mapping(s1[j], s2[j]),
        group_layout(s1, grp, gi),
    ensures
        group_layout(s2, grp, gi),
{
    lemma_sums_congruence(s1, s2, gi, s1.len() as int);
    assert forall|i: int| 0 <= i < s2.len() && (#[trigger] s2[i]).group == gi implies {
        &&& s2[i].mapped
        &&& s2[i].obytes == byte_size(s2[i].obits)
        &&& s2[i].ibytes == byte_size(s2[i].ibits)
        &&& s2[i].ostart == grp.io_start + out_sum(s2, gi, i)
        &&& s2[i].istart == grp.io_start + grp.obytes + in_sum(s2, gi, i)
    } by {
        assert(s1[i].group == gi);
        assert(same_shape(s1[i], s2[i]) && same_mapping(s1[i], s2[i]));
        lemma_sums_congruence(s1, s2, gi, i);
    }
}

/// I/O offsets never overlap across slaves within a group: of two mapped
/// slaves of the same group, the earlier one's output region ends before
/// the later one's begins, likewise for inputs, and every output region
/// ends before any input region begins.
pub proof fn lemma_io_offsets_disjoint(slaves: Seq<Slave>, g: Group, gi: u8, i: int, j: int)
    requires
        group_layout(slaves, g, gi),
        0 <= i < j < slaves.len(),
        slaves[i].group == gi,
        slaves[j].group == gi,
    ensures
        slaves[i].ostart + slaves[i].obytes <= slaves[j].ostart,
        slaves[i].istart + slaves[i].ibytes <= slaves[j].istart,
        slaves[i].ostart + slaves[i].obytes <= g.io_start + g.obytes,
        slaves[j].istart >= g.io_start + g.obytes,
{
    lemma_sums_monotonic(slaves, gi, i + 1, j);
    lemma_sums_monotonic(slaves, gi, j + 1, slaves.len() as int);
    lemma_sums_monotonic(slaves, gi, 0, i);
}

} // verus!
