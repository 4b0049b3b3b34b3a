//! The EEPROM (ESI) scratch cache: a byte buffer holding each enumerated
//! slave's identity summary, and a map of which slots are valid. The engine
//! only locates and fills the cache; interpreting EEPROM content beyond
//! that is outside its scope.

use vstd::prelude::*;

verus! {

/// Size of the EEPROM cache buffer in bytes.
pub const EC_MAXEEPBUF: usize = 4096;

/// Number of cache-slot validity flags.
pub const EC_MAXEEPSLOT: usize = 2048;

/// The EEPROM cache buffer.
pub struct ESIBuf {
    data: Vec<u8>,
}

impl View for ESIBuf {
    type V = Seq<u8>;

    closed spec fn view(&self) -> Seq<u8> {
        self.data@
    }
}

impl ESIBuf {
    /// The cache always spans the full buffer.
    pub open spec fn wf(&self) -> bool {
        self@.len() == EC_MAXEEPBUF
    }

    /// A zeroed cache.
    pub fn new() -> (r: ESIBuf)
        ensures
            r.wf(),
            forall|j: int| 0 <= j < EC_MAXEEPBUF ==> r@[j] == 0,
    {
        let mut data: Vec<u8> = Vec::new();
        let mut i: usize = 0;
        while i < EC_MAXEEPBUF
            invariant
                i <= EC_MAXEEPBUF,
                data@.len() == i,
                forall|j: int| 0 <= j < i ==> data@[j] == 0,
            decreases EC_MAXEEPBUF - i,
        {
            data.push(0);
            i = i + 1;
        }
        ESIBuf { data }
    }

    /// Copy a summary into the cache at `at`; nothing outside the copied
    /// region changes.
    pub fn copy_in(&mut self, at: usize, src: &Vec<u8>)
        requires
            old(self).wf(),
            at + src@.len() <= EC_MAXEEPBUF,
        ensures
            final(self).wf(),
            final(self)@.subrange(at as int, at + src@.len()) == src@,
            forall|j: int|
                0 <= j < EC_MAXEEPBUF && !(at <= j < at + src@.len()) ==> final(self)@[j] == old(
                    self,
                )@[j],
    {
        let mut k: usize = 0;
        while k < src.len()
            invariant
                k <= src@.len(),
                at + src@.len() <= EC_MAXEEPBUF,
                self@.len() == EC_MAXEEPBUF,
                forall|j: int| at <= j < at + k ==> self@[j] == src@[j - at],
                forall|j: int|
                    0 <= j < EC_MAXEEPBUF && !(at <= j < at + src@.len()) ==> self@[j] == old(
                        self,
                    )@[j],
            decreases src@.len() - k,
        {
            self.data.set(at + k, src[k]);
            k = k + 1;
        }
        assert(final(self)@.subrange(at as int, at + src@.len()) =~= src@);
    }

    /// Read the cache region of `len` bytes at `at`.
    pub fn read(&self, at: usize, len: usize) -> (r: Vec<u8>)
        requires
            self.wf(),
            at + len <= EC_MAXEEPBUF,
        ensures
            r@ == self@.subrange(at as int, at + len),
    {
        let mut r: Vec<u8> = Vec::new();
        let mut k: usize = 0;
        while k < len
            invariant
                k <= len,
                at + len <= EC_MAXEEPBUF,
                self@.len() == EC_MAXEEPBUF,
                r@ == self@.subrange(at as int, at + k as int),
            decreases len - k,
        {
            r.push(self.data[at + k]);
            assert(r@ =~= self@.subrange(at as int, at + k + 1));
            k = k + 1;
        }
        r
    }
}

impl Default for ESIBuf {
    /// A zeroed cache.
    fn default() -> (r: ESIBuf)
        ensures
            r.wf(),
    {
        ESIBuf::new()
    }
}

/// Validity flags for the EEPROM cache: one per cache slot.
pub struct ESIMap {
    valid: Vec<bool>,
}

impl View for ESIMap {
    type V = Seq<bool>;

    closed spec fn view(&self) -> Seq<bool> {
        self.valid@
    }
}

impl ESIMap {
    /// The map always spans every slot.
    pub open spec fn wf(&self) -> bool {
        self@.len() == EC_MAXEEPSLOT
    }

    /// A map with every slot invalid.
    pub fn new() -> (r: ESIMap)
        ensures
            r.wf(),
            forall|j: int| 0 <= j < EC_MAXEEPSLOT ==> !r@[j],
    {
        let mut valid: Vec<bool> = Vec::new();
        let mut i: usize = 0;
        while i < EC_MAXEEPSLOT
            invariant
                i <= EC_MAXEEPSLOT,
                valid@.len() == i,
                forall|j: int| 0 <= j < i ==> !valid@[j],
            decreases EC_MAXEEPSLOT - i,
        {
            valid.push(false);
            i = i + 1;
        }
        ESIMap { valid }
    }

    /// Mark one slot valid or invalid.
    pub fn set(&mut self, slot: usize, value: bool)
        requires
            old(self).wf(),
            slot < EC_MAXEEPSLOT,
        ensures
            final(self).wf(),
            final(self)@ == old(self)@.update(slot as int, value),
    {
        self.valid.set(slot, value);
    }

    /// Mark every slot invalid.
    pub fn clear(&mut self)
        requires
            old(self).wf(),
        ensures
            final(self).wf(),
            forall|j: int| 0 <= j < EC_MAXEEPSLOT ==> !final(self)@[j],
    {
        let mut i: usize = 0;
        while i < EC_MAXEEPSLOT
            invariant
                i <= EC_MAXEEPSLOT,
                self@.len() == EC_MAXEEPSLOT,
                forall|j: int| 0 <= j < i ==> !self@[j],
            decreases EC_MAXEEPSLOT - i,
        {
            self.valid.set(i, false);
            i = i + 1;
        }
    }

    /// Whether a slot holds a valid summary.
    pub fn get(&self, slot: usize) -> (r: bool)
        requires
            self.wf(),
            slot < EC_MAXEEPSLOT,
        ensures
            r == self@[slot as int],
    {
        self.valid[slot]
    }
}

impl Default for ESIMap {
    /// A map with every slot invalid.
    fn default() -> (r: ESIMap)
        ensures
            r.wf(),
    {
        ESIMap::new()
    }
}

} // verus!
