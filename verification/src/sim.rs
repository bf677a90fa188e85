//! A virtual device: it accepts physical universes and mirrors them for inspection, so the
//! whole stack above the HAL runs with no hardware. It also carries the management plane of
//! a device (connect, configure, reboot, firmware), with the one safety rule that matters
//! there: a live device is never flashed.

use vstd::prelude::*;

use crate::profile::UNIVERSE_SIZE;
use crate::text::push_str;

verus! {

/// One universe of channel data, as a device receives it.
#[derive(Clone, Debug, PartialEq, Eq)]
pub struct UniverseData {
    pub universe: u16,
    pub data: Vec<u8>,
}

impl View for UniverseData {
    type V = (u16, Seq<u8>);

    open spec fn view(&self) -> (u16, Seq<u8>) {
        (self.universe, self.data@)
    }
}

/// Management settings a device can be given.
#[derive(Clone, Debug, PartialEq, Eq)]
pub struct DeviceConfig {
    pub name: Option<String>,
    pub priority: Option<u8>,
}

impl Default for DeviceConfig {
    fn default() -> (c: Self)
        ensures
            c.name is None,
            c.priority is None,
    {
        DeviceConfig { name: None, priority: None }
    }
}

/// What a device reports about itself.
#[derive(Clone, Copy, Debug, PartialEq, Eq, Structural)]
pub struct DeviceStatus {
    pub connected: bool,
    pub frames_sent: u64,
    pub last_send_ms: u64,
}

/// Why a management request was refused.
#[derive(Clone, Copy, Debug, PartialEq, Eq, Structural)]
pub enum DeviceError {
    /// The device is live: firmware is only written to a disconnected device.
    Live,
    /// The firmware image holds no byte.
    EmptyImage,
}

/// The text a refusal is reported with.
pub open spec fn error_text(e: DeviceError) -> Seq<char> {
    match e {
        DeviceError::Live => "refusing firmware update: device is live; disconnect it first"@,
        DeviceError::EmptyImage => "empty firmware image"@,
    }
}

impl DeviceError {
    /// The text this refusal is reported with.
    pub fn message(&self) -> (s: String)
        ensures
            s@ == error_text(*self),
    {
        let mut s = String::new();
        match self {
            DeviceError::Live => push_str(
                &mut s,
                "refusing firmware update: device is live; disconnect it first",
            ),
            DeviceError::EmptyImage => push_str(&mut s, "empty firmware image"),
        }
        s
    }
}

/// Slot `j` is the first of the mirror that holds universe `u`.
pub open spec fn is_first_slot(m: Seq<(u16, Seq<u8>)>, u: u16, j: int) -> bool {
    &&& 0 <= j < m.len()
    &&& m[j].0 == u
    &&& forall|k: int| 0 <= k < j ==> m[k].0 != u
}

/// The first slot of the mirror that holds universe `u`, if any.
pub open spec fn first_slot(m: Seq<(u16, Seq<u8>)>, u: u16) -> Option<int> {
    if exists|j: int| is_first_slot(m, u, j) {
        Some(choose|j: int| is_first_slot(m, u, j))
    } else {
        None
    }
}

/// One received universe lands in the first slot that holds its number; a universe the
/// device does not own changes nothing.
pub open spec fn deliver(m: Seq<(u16, Seq<u8>)>, incoming: (u16, Seq<u8>)) -> Seq<(u16, Seq<u8>)> {
    Seq::new(
        m.len(),
        |j: int| if is_first_slot(m, incoming.0, j) { incoming } else { m[j] },
    )
}

/// A whole frame of universes, received in order.
pub open spec fn deliver_all(m: Seq<(u16, Seq<u8>)>, incoming: Seq<(u16, Seq<u8>)>) -> Seq<
    (u16, Seq<u8>),
>
    decreases incoming.len(),
{
    if incoming.len() == 0 {
        m
    } else {
        deliver(deliver_all(m, incoming.drop_last()), incoming.last())
    }
}

/// What channel `ch` of universe `u` reads in the mirror.
pub open spec fn channel_spec(m: Seq<(u16, Seq<u8>)>, u: u16, ch: int) -> Option<u8> {
    match first_slot(m, u) {
        Some(j) => if 0 <= ch < m[j].1.len() {
            Some(m[j].1[ch])
        } else {
            None
        },
        None => None,
    }
}

/// Every universe of `incoming` that the mirror owns carries a full universe of data.
pub open spec fn fits_mirror(m: Seq<(u16, Seq<u8>)>, incoming: Seq<(u16, Seq<u8>)>) -> bool {
    forall|i: int, j: int|
        0 <= i < incoming.len() && 0 <= j < m.len() && m[j].0 == incoming[i].0
            ==> incoming[i].1.len() == UNIVERSE_SIZE
}

/// The abstract state of a simulator.
pub struct SimView {
    pub id: u16,
    pub connected: bool,
    pub frames_sent: u64,
    pub config: DeviceConfig,
    pub firmware_updates: u64,
    pub mirror: Seq<(u16, Seq<u8>)>,
}

/// A fresh simulator owning `universes`, each mirrored as a zeroed universe.
pub open spec fn fresh(id: u16, universes: Seq<u16>) -> SimView {
    SimView {
        id,
        connected: true,
        frames_sent: 0,
        config: DeviceConfig { name: None, priority: None },
        firmware_updates: 0,
        mirror: Seq::new(
            universes.len(),
            |i: int| (universes[i], Seq::new(UNIVERSE_SIZE as nat, |c: int| 0u8)),
        ),
    }
}

/// A frame received: counted, and its universes copied into the mirror.
pub open spec fn received(v: SimView, incoming: Seq<(u16, Seq<u8>)>) -> SimView {
    SimView {
        frames_sent: (v.frames_sent + 1) as u64,
        mirror: deliver_all(v.mirror, incoming),
        ..v
    }
}

/// A firmware request: refused on a live device, then on an empty image; otherwise counted.
pub open spec fn flashed(v: SimView, image_len: nat) -> (Result<(), DeviceError>, SimView) {
    if v.connected {
        (Err(DeviceError::Live), v)
    } else if image_len == 0 {
        (Err(DeviceError::EmptyImage), v)
    } else {
        (Ok(()), SimView { firmware_updates: (v.firmware_updates + 1) as u64, ..v })
    }
}

/// A virtual device that mirrors the universes it owns.
pub struct SimulatorDevice {
    id: u16,
    connected: bool,
    frames_sent: u64,
    config: DeviceConfig,
    firmware_updates: u64,
    mirror: Vec<UniverseData>,
}

fn zeroed_universe() -> (v: Vec<u8>)
    ensures
        v@ == Seq::new(UNIVERSE_SIZE as nat, |c: int| 0u8),
{
    let mut v: Vec<u8> = Vec::new();
    let mut i: usize = 0;
    while i < UNIVERSE_SIZE
        invariant
            i <= UNIVERSE_SIZE,
            v@ == Seq::new(i as nat, |c: int| 0u8),
        decreases UNIVERSE_SIZE - i,
    {
        v.push(0u8);
        i = i + 1;
        proof {
            assert(v@ =~= Seq::new(i as nat, |c: int| 0u8));
        }
    }
    v
}

fn copy_bytes(src: &Vec<u8>) -> (v: Vec<u8>)
    ensures
        v@ == src@,
{
    let mut v: Vec<u8> = Vec::new();
    let mut i: usize = 0;
    while i < src.len()
        invariant
            i <= src.len(),
            v@ == src@.take(i as int),
        decreases src.len() - i,
    {
        v.push(src[i]);
        i = i + 1;
        proof {
            assert(v@ =~= src@.take(i as int));
        }
    }
    proof {
        assert(src@.take(src@.len() as int) =~= src@);
    }
    v
}

fn copy_config(c: &DeviceConfig) -> (r: DeviceConfig)
    ensures
        r == *c,
{
    let name = match &c.name {
        Some(n) => Some(n.clone()),
        None => None,
    };
    DeviceConfig { name, priority: c.priority }
}

proof fn lemma_first_slot_is_unique(m: Seq<(u16, Seq<u8>)>, u: u16, j: int)
    requires
        is_first_slot(m, u, j),
    ensures
        first_slot(m, u) == Some(j),
{
    let c = choose|k: int| is_first_slot(m, u, k);
    assert(is_first_slot(m, u, c));
    if c < j {
        assert(m[c].0 != u);
    } else if j < c {
        assert(m[j].0 != u);
    }
}

proof fn lemma_no_first_slot(m: Seq<(u16, Seq<u8>)>, u: u16)
    requires
        forall|k: int| 0 <= k < m.len() ==> m[k].0 != u,
    ensures
        first_slot(m, u) is None,
        forall|j: int| !is_first_slot(m, u, j),
{
}

impl SimulatorDevice {
    #[verifier::type_invariant]
    spec fn inv(self) -> bool {
        forall|j: int| 0 <= j < self.mirror@.len() ==> self.mirror@[j].data@.len() == UNIVERSE_SIZE
    }

    /// The abstract state.
    pub closed spec fn view(&self) -> SimView {
        SimView {
            id: self.id,
            connected: self.connected,
            frames_sent: self.frames_sent,
            config: self.config,
            firmware_updates: self.firmware_updates,
            mirror: self.mirror@.map_values(|u: UniverseData| u@),
        }
    }

    /// A connected simulator that owns exactly `universes`, each mirrored as a zeroed
    /// universe.
    pub fn new(id: u16, universes: &[u16]) -> (s: Self)
        ensures
            s.view() == fresh(id, universes@),
    {
        let mut mirror: Vec<UniverseData> = Vec::new();
        let mut i: usize = 0;
        while i < universes.len()
            invariant
                i <= universes.len(),
                mirror@.len() == i,
                forall|j: int|
                    0 <= j < i ==> #[trigger] mirror@[j]@ == (
                        universes@[j],
                        Seq::new(UNIVERSE_SIZE as nat, |c: int| 0u8),
                    ),
            decreases universes.len() - i,
        {
            let data = zeroed_universe();
            mirror.push(UniverseData { universe: universes[i], data });
            i = i + 1;
        }
        assert forall|j: int| 0 <= j < mirror@.len() implies #[trigger] mirror@[j].data@.len()
            == UNIVERSE_SIZE by {
            assert(mirror@[j]@ == (universes@[j], Seq::new(UNIVERSE_SIZE as nat, |c: int| 0u8)));
        }
        let s = SimulatorDevice {
            id,
            connected: true,
            frames_sent: 0,
            config: DeviceConfig { name: None, priority: None },
            firmware_updates: 0,
            mirror,
        };
        proof {
            assert(s.view().mirror =~= fresh(id, universes@).mirror);
        }
        s
    }

    /// The device's id.
    pub fn id(&self) -> (r: u16)
        ensures
            r == self.view().id,
    {
        self.id
    }

    /// Frames received since creation or the last reboot.
    pub fn frames_sent(&self) -> (r: u64)
        ensures
            r == self.view().frames_sent,
    {
        self.frames_sent
    }

    /// Firmware images accepted so far.
    pub fn firmware_updates(&self) -> (r: u64)
        ensures
            r == self.view().firmware_updates,
    {
        self.firmware_updates
    }

    /// A copy of the stored configuration.
    pub fn config(&self) -> (r: DeviceConfig)
        ensures
            r == self.view().config,
    {
        copy_config(&self.config)
    }

    /// What channel `ch` of `universe` last received, or `None` when the device does not
    /// own that universe or the channel is out of range.
    pub fn channel(&self, universe: u16, ch: usize) -> (r: Option<u8>)
        ensures
            r == channel_spec(self.view().mirror, universe, ch as int),
    {
        let ghost m = self.view().mirror;
        let mut j: usize = 0;
        while j < self.mirror.len()
            invariant
                j <= self.mirror@.len(),
                m == self.mirror@.map_values(|u: UniverseData| u@),
                forall|k: int| 0 <= k < j ==> m[k].0 != universe,
            decreases self.mirror@.len() - j,
        {
            if self.mirror[j].universe == universe {
                proof {
                    lemma_first_slot_is_unique(m, universe, j as int);
                }
                let data = &self.mirror[j].data;
                if ch < data.len() {
                    return Some(data[ch]);
                } else {
                    return None;
                }
            }
            j = j + 1;
        }
        proof {
            lemma_no_first_slot(m, universe);
        }
        None
    }

    /// Receives one frame of universes: the frame is counted, and each universe the device
    /// owns is copied into its mirror; the others are ignored.
    pub fn send_physical(&mut self, universes: &[UniverseData])
        requires
            old(self).view().frames_sent < u64::MAX,
            fits_mirror(old(self).view().mirror, universes@.map_values(|u: UniverseData| u@)),
        ensures
            final(self).view() == received(
                old(self).view(),
                universes@.map_values(|u: UniverseData| u@),
            ),
    {
        proof {
            use_type_invariant(&*self);
        }
        let ghost m0 = self.view().mirror;
        let ghost inc = universes@.map_values(|u: UniverseData| u@);
        self.frames_sent = self.frames_sent + 1;
        let mut mirror: Vec<UniverseData> = Vec::new();
        std::mem::swap(&mut mirror, &mut self.mirror);
        let mut i: usize = 0;
        while i < universes.len()
            invariant
                i <= universes@.len(),
                inc == universes@.map_values(|u: UniverseData| u@),
                fits_mirror(m0, inc),
                m0.len() == mirror@.len(),
                forall|j: int| 0 <= j < m0.len() ==> #[trigger] m0[j].0 == mirror@[j].universe,
                forall|j: int|
                    0 <= j < mirror@.len() ==> #[trigger] mirror@[j].data@.len()
                        == UNIVERSE_SIZE,
                mirror@.map_values(|u: UniverseData| u@) == deliver_all(
                    m0,
                    inc.take(i as int),
                ),
            decreases universes@.len() - i,
        {
            let u = universes[i].universe;
            let ghost before = mirror@.map_values(|x: UniverseData| x@);
            proof {
                assert(inc.take(i + 1).drop_last() =~= inc.take(i as int));
                assert(inc.take(i + 1).last() == inc[i as int]);
            }
            let mut j: usize = 0;
            let mut found = false;
            while j < mirror.len() && !found
                invariant
                    j <= mirror@.len(),
                    before == mirror@.map_values(|x: UniverseData| x@),
                    forall|k: int| 0 <= k < j ==> before[k].0 != u,
                    found ==> j < mirror@.len() && before[j as int].0 == u,
                decreases mirror@.len() - j + (if found { 0int } else { 1int }),
            {
                if mirror[j].universe == u {
                    found = true;
                } else {
                    j = j + 1;
                }
            }
            if found {
                proof {
                    assert(is_first_slot(before, u, j as int));
                    assert(fits_mirror(m0, inc));
                    assert(m0[j as int].0 == inc[i as int].0);
                }
                let data = copy_bytes(&universes[i].data);
                mirror.set(j, UniverseData { universe: u, data });
                proof {
                    assert(mirror@.map_values(|x: UniverseData| x@) =~= deliver(
                        before,
                        inc[i as int],
                    ));
                }
            } else {
                proof {
                    assert forall|k: int| !is_first_slot(before, u, k) by {}
                    assert(mirror@.map_values(|x: UniverseData| x@) =~= deliver(
                        before,
                        inc[i as int],
                    ));
                }
            }
            i = i + 1;
        }
        self.mirror = mirror;
        proof {
            assert(inc.take(universes@.len() as int) =~= inc);
            assert(self.view().mirror =~= deliver_all(m0, inc));
        }
    }

    /// What the device reports: connected or not, and the frames received.
    pub fn status(&self) -> (r: DeviceStatus)
        ensures
            r == (DeviceStatus {
                connected: self.view().connected,
                frames_sent: self.view().frames_sent,
                last_send_ms: 0,
            }),
    {
        DeviceStatus { connected: self.connected, frames_sent: self.frames_sent, last_send_ms: 0 }
    }

    /// Connects the device. Always succeeds.
    pub fn connect(&mut self) -> (r: Result<(), DeviceError>)
        ensures
            r is Ok,
            final(self).view() == (SimView { connected: true, ..old(self).view() }),
    {
        proof {
            use_type_invariant(&*self);
        }
        self.connected = true;
        Ok(())
    }

    /// Disconnects the device.
    pub fn disconnect(&mut self)
        ensures
            final(self).view() == (SimView { connected: false, ..old(self).view() }),
    {
        proof {
            use_type_invariant(&*self);
        }
        self.connected = false;
    }

    /// Stores a configuration. Always succeeds.
    pub fn configure(&mut self, cfg: &DeviceConfig) -> (r: Result<(), DeviceError>)
        ensures
            r is Ok,
            final(self).view() == (SimView { config: *cfg, ..old(self).view() }),
    {
        proof {
            use_type_invariant(&*self);
        }
        self.config = copy_config(cfg);
        Ok(())
    }

    /// Reboots the device: its frame counter starts again from zero. Always succeeds.
    pub fn reboot(&mut self) -> (r: Result<(), DeviceError>)
        ensures
            r is Ok,
            final(self).view() == (SimView { frames_sent: 0, ..old(self).view() }),
    {
        proof {
            use_type_invariant(&*self);
        }
        self.frames_sent = 0;
        Ok(())
    }

    /// Writes a firmware image: refused while the device is live, refused for an empty
    /// image, and otherwise counted.
    pub fn update_firmware(&mut self, image: &[u8]) -> (r: Result<(), DeviceError>)
        requires
            old(self).view().firmware_updates < u64::MAX,
        ensures
            (r, final(self).view()) == flashed(old(self).view(), image@.len()),
    {
        proof {
            use_type_invariant(&*self);
        }
        if self.connected {
            return Err(DeviceError::Live);
        }
        if image.len() == 0 {
            return Err(DeviceError::EmptyImage);
        }
        self.firmware_updates = self.firmware_updates + 1;
        Ok(())
    }
}

/// Law: a live device is never flashed: whatever the image, the request is refused and
/// nothing changes.
pub proof fn lemma_live_device_is_never_flashed(v: SimView, image_len: nat)
    requires
        v.connected,
    ensures
        flashed(v, image_len) == (Err::<(), DeviceError>(DeviceError::Live), v),
{
}

/// Law: once disconnected, a non-empty image is accepted and counted exactly once.
pub proof fn lemma_disconnected_device_takes_a_non_empty_image(v: SimView, image_len: nat)
    requires
        image_len > 0,
        v.firmware_updates < u64::MAX,
    ensures
        ({
            let d = SimView { connected: false, ..v };
            &&& flashed(d, image_len).0 is Ok
            &&& flashed(d, image_len).1.firmware_updates == v.firmware_updates + 1
        }),
{
}

/// Law: receiving frames never changes which universes a device owns, nor their size.
pub proof fn lemma_delivery_keeps_the_owned_universes(
    m: Seq<(u16, Seq<u8>)>,
    incoming: Seq<(u16, Seq<u8>)>,
)
    requires
        fits_mirror(m, incoming),
        forall|j: int| 0 <= j < m.len() ==> #[trigger] m[j].1.len() == UNIVERSE_SIZE,
    ensures
        deliver_all(m, incoming).len() == m.len(),
        forall|j: int| 0 <= j < m.len() ==> #[trigger] deliver_all(m, incoming)[j].0 == m[j].0,
        forall|j: int|
            0 <= j < m.len() ==> #[trigger] deliver_all(m, incoming)[j].1.len() == UNIVERSE_SIZE,
    decreases incoming.len(),
{
    if incoming.len() > 0 {
        let rest = incoming.drop_last();
        assert(fits_mirror(m, rest)) by {
            assert forall|i: int, j: int|
                0 <= i < rest.len() && 0 <= j < m.len() && m[j].0 == rest[i].0 implies rest[i].1.len()
                == UNIVERSE_SIZE by {
                assert(rest[i] == incoming[i]);
            }
        }
        lemma_delivery_keeps_the_owned_universes(m, rest);
        let last = incoming.last();
        let before = deliver_all(m, rest);
        assert(incoming[incoming.len() - 1] == last);
        assert forall|j: int| 0 <= j < m.len() implies #[trigger] deliver_all(m, incoming)[j].1.len()
            == UNIVERSE_SIZE by {
            assert(deliver_all(m, incoming) == deliver(before, last));
            assert(before[j].0 == m[j].0);
            assert(before[j].1.len() == UNIVERSE_SIZE);
            if is_first_slot(before, last.0, j) {
                assert(m[j].0 == incoming[incoming.len() - 1].0);
                assert(fits_mirror(m, incoming));
                assert(incoming[incoming.len() - 1].1.len() == UNIVERSE_SIZE);
            }
        }
    }
}

/// Law: each device takes only the universes it owns: a frame of universes it does not
/// own leaves its mirror as it was.
pub proof fn lemma_foreign_universes_change_nothing(
    m: Seq<(u16, Seq<u8>)>,
    incoming: Seq<(u16, Seq<u8>)>,
)
    requires
        forall|i: int, j: int| 0 <= i < incoming.len() && 0 <= j < m.len() ==> m[j].0 != incoming[i].0,
    ensures
        deliver_all(m, incoming) == m,
    decreases incoming.len(),
{
    if incoming.len() > 0 {
        let rest = incoming.drop_last();
        assert forall|i: int, j: int| 0 <= i < rest.len() && 0 <= j < m.len() implies m[j].0
            != rest[i].0 by {
            assert(rest[i] == incoming[i]);
        }
        lemma_foreign_universes_change_nothing(m, rest);
        let last = incoming.last();
        assert(incoming[incoming.len() - 1] == last);
        assert forall|j: int| !is_first_slot(m, last.0, j) by {
            if 0 <= j < m.len() {
                assert(m[j].0 != incoming[incoming.len() - 1].0);
            }
        }
        assert(deliver(m, last) =~= m);
    }
}

/// Law: a channel reads what the last frame sent to its universe carried.
pub proof fn lemma_channel_reads_the_last_delivery(
    m: Seq<(u16, Seq<u8>)>,
    incoming: Seq<(u16, Seq<u8>)>,
    ch: int,
)
    requires
        incoming.len() > 0,
        exists|j: int| 0 <= j < m.len() && m[j].0 == incoming.last().0,
        0 <= ch < incoming.last().1.len(),
    ensures
        channel_spec(deliver_all(m, incoming), incoming.last().0, ch) == Some(
            incoming.last().1[ch],
        ),
{
    let u = incoming.last().0;
    let before = deliver_all(m, incoming.drop_last());
    lemma_universes_survive(m, incoming.drop_last());
    let w = choose|j: int| 0 <= j < m.len() && m[j].0 == u;
    lemma_first_of(before, u, w);
    let f = choose|j: int| is_first_slot(before, u, j);
    assert(is_first_slot(before, u, f));
    let after = deliver(before, incoming.last());
    assert(after[f] == incoming.last());
    assert(is_first_slot(after, u, f));
    lemma_first_slot_is_unique(after, u, f);
}

proof fn lemma_universes_survive(m: Seq<(u16, Seq<u8>)>, incoming: Seq<(u16, Seq<u8>)>)
    ensures
        deliver_all(m, incoming).len() == m.len(),
        forall|j: int| 0 <= j < m.len() ==> #[trigger] deliver_all(m, incoming)[j].0 == m[j].0,
    decreases incoming.len(),
{
    if incoming.len() > 0 {
        lemma_universes_survive(m, incoming.drop_last());
        let before = deliver_all(m, incoming.drop_last());
        assert forall|j: int| 0 <= j < m.len() implies #[trigger] deliver_all(m, incoming)[j].0
            == m[j].0 by {
            assert(before[j].0 == m[j].0);
        }
    }
}

proof fn lemma_first_of(m: Seq<(u16, Seq<u8>)>, u: u16, w: int)
    requires
        0 <= w < m.len(),
        m[w].0 == u,
    ensures
        exists|j: int| is_first_slot(m, u, j),
    decreases w,
{
    if forall|k: int| 0 <= k < w ==> m[k].0 != u {
        assert(is_first_slot(m, u, w));
    } else {
        let k = choose|k: int| 0 <= k < w && m[k].0 == u;
        lemma_first_of(m, u, k);
    }
}

} // verus!
