//! Per-output calibration: gamma and brightness folded into one 256-entry table, applied per
//! device at the output edge.
//!
//! The table is computed once at startup from the declared gamma and brightness; on the hot
//! path what is left is one indexed read per channel. A device absent from the map is not
//! corrected at all.

use std::collections::HashMap;

use vstd::prelude::*;

verus! {

broadcast use vstd::std_specs::hash::group_hash_axioms;

/// A device's identifier.
pub type DeviceId = u16;

/// A 256-entry correction table for one output, gamma and brightness already combined.
#[derive(Clone, Copy, Debug)]
pub struct CalibrationLut {
    lut: [u8; 256],
}

impl View for CalibrationLut {
    type V = Seq<u8>;

    closed spec fn view(&self) -> Seq<u8> {
        self.lut@
    }
}

impl CalibrationLut {
    /// A table with the given entries: entry `i` is the corrected value of channel value `i`.
    pub fn from_table(lut: [u8; 256]) -> (t: Self)
        ensures
            t@ == lut@,
    {
        CalibrationLut { lut }
    }

    /// The identity table: applying it changes no byte.
    pub fn identity() -> (t: Self)
        ensures
            t@.len() == 256,
            forall|i: int| 0 <= i < 256 ==> t@[i] == i,
    {
        let mut lut = [0u8; 256];
        let mut i: usize = 0;
        while i < 256
            invariant
                i <= 256,
                lut@.len() == 256,
                forall|j: int| 0 <= j < i ==> lut@[j] == j,
            decreases 256 - i,
        {
            lut[i] = i as u8;
            i = i + 1;
        }
        CalibrationLut { lut }
    }

    /// Corrects a block of channels in place: each byte `b` becomes entry `b` of the table.
    pub fn apply_in_place(&self, channels: &mut [u8])
        ensures
            final(channels)@.len() == old(channels)@.len(),
            forall|i: int|
                0 <= i < old(channels)@.len() ==> final(channels)@[i] == self@[old(
                    channels,
                )@[i] as int],
    {
        let ghost before = channels@;
        let mut i: usize = 0;
        while i < channels.len()
            invariant
                i <= channels@.len(),
                channels@.len() == before.len(),
                self.lut@.len() == 256,
                forall|j: int| 0 <= j < i ==> channels@[j] == self@[before[j] as int],
                forall|j: int| i <= j < channels@.len() ==> channels@[j] == before[j],
            decreases channels@.len() - i,
        {
            let b = channels[i];
            channels[i] = self.lut[b as usize];
            i = i + 1;
        }
    }

    /// The corrected value of one channel.
    pub fn map(&self, channel: u8) -> (v: u8)
        ensures
            v == self@[channel as int],
    {
        self.lut[channel as usize]
    }
}

/// Law: the identity table changes nothing, whatever block it is applied to.
pub proof fn lemma_identity_changes_nothing(t: CalibrationLut, before: Seq<u8>, after: Seq<u8>)
    requires
        forall|i: int| 0 <= i < 256 ==> t@[i] == i,
        after.len() == before.len(),
        forall|i: int| 0 <= i < before.len() ==> after[i] == t@[before[i] as int],
    ensures
        after == before,
{
    assert(after =~= before);
}

/// Per-device calibration. A device absent from the map is not corrected.
#[derive(Clone, Debug)]
pub struct Calibration {
    per_device: HashMap<DeviceId, CalibrationLut>,
}

impl View for Calibration {
    type V = Map<DeviceId, CalibrationLut>;

    closed spec fn view(&self) -> Map<DeviceId, CalibrationLut> {
        self.per_device@
    }
}

impl Calibration {
    /// No device calibrated.
    pub fn new() -> (c: Self)
        ensures
            c@ == Map::<DeviceId, CalibrationLut>::empty(),
    {
        Calibration { per_device: HashMap::new() }
    }

    /// Registers a table for a device, replacing any earlier one.
    pub fn set_lut(&mut self, device: DeviceId, lut: CalibrationLut)
        ensures
            final(self)@ == old(self)@.insert(device, lut),
    {
        self.per_device.insert(device, lut);
    }

    /// The table of this device, if it has one.
    pub fn lut(&self, device: DeviceId) -> (r: Option<&CalibrationLut>)
        ensures
            match r {
                Some(l) => self@.contains_key(device) && *l == self@[device],
                None => !self@.contains_key(device),
            },
    {
        self.per_device.get(&device)
    }

    /// `true` when no device is calibrated.
    pub fn is_empty(&self) -> (b: bool)
        ensures
            b == (self@.len() == 0),
    {
        self.per_device.len() == 0
    }

    /// How many devices are calibrated.
    pub fn len(&self) -> (n: usize)
        ensures
            n == self@.len(),
    {
        self.per_device.len()
    }
}

} // verus!
