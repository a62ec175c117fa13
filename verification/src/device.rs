//! The bus dispatcher: it owns the peripherals, builds the base-address map
//! once at construction, and routes every MMIO access to the peripheral
//! registered at its base address.

use vstd::prelude::*;

use crate::errors::EmuError;
use crate::flash::FlashController;
use crate::peripherals::{MemoryMapping, Peripheral, Sram, SCS};

verus! {

/// The CPU models a device can be built for.
#[derive(Clone, Copy, Debug, PartialEq, Eq, Structural)]
pub enum CpuModel {
    M0Plus,
}

/// The closed set of peripheral kinds of this build.
pub enum PeripheralKind {
    Scs(SCS),
    Sram(Sram),
    Flash(FlashController),
}

impl Peripheral for PeripheralKind {
    open spec fn inv(&self) -> bool {
        match self {
            PeripheralKind::Scs(p) => p.inv(),
            PeripheralKind::Sram(p) => p.inv(),
            PeripheralKind::Flash(p) => p.inv(),
        }
    }

    open spec fn name_spec(&self) -> &'static str {
        match self {
            PeripheralKind::Scs(p) => p.name_spec(),
            PeripheralKind::Sram(p) => p.name_spec(),
            PeripheralKind::Flash(p) => p.name_spec(),
        }
    }

    open spec fn mappings_spec(&self) -> Seq<MemoryMapping> {
        match self {
            PeripheralKind::Scs(p) => p.mappings_spec(),
            PeripheralKind::Sram(p) => p.mappings_spec(),
            PeripheralKind::Flash(p) => p.mappings_spec(),
        }
    }

    open spec fn read_spec(&self, base: u32, offset: u32, size: u32) -> Result<u32, EmuError> {
        match self {
            PeripheralKind::Scs(p) => p.read_spec(base, offset, size),
            PeripheralKind::Sram(p) => p.read_spec(base, offset, size),
            PeripheralKind::Flash(p) => p.read_spec(base, offset, size),
        }
    }

    open spec fn write_outcome_spec(&self, base: u32, offset: u32, size: u32, value: u32) -> Result<
        (),
        EmuError,
    > {
        match self {
            PeripheralKind::Scs(p) => p.write_outcome_spec(base, offset, size, value),
            PeripheralKind::Sram(p) => p.write_outcome_spec(base, offset, size, value),
            PeripheralKind::Flash(p) => p.write_outcome_spec(base, offset, size, value),
        }
    }

    open spec fn write_state_rel(
        self,
        post: PeripheralKind,
        base: u32,
        offset: u32,
        size: u32,
        value: u32,
    ) -> bool {
        match (self, post) {
            (PeripheralKind::Scs(p), PeripheralKind::Scs(q)) => p.write_state_rel(
                q,
                base,
                offset,
                size,
                value,
            ),
            (PeripheralKind::Sram(p), PeripheralKind::Sram(q)) => p.write_state_rel(
                q,
                base,
                offset,
                size,
                value,
            ),
            (PeripheralKind::Flash(p), PeripheralKind::Flash(q)) => p.write_state_rel(
                q,
                base,
                offset,
                size,
                value,
            ),
            _ => false,
        }
    }

    fn name(&self) -> (r: &'static str) {
        match self {
            PeripheralKind::Scs(p) => p.name(),
            PeripheralKind::Sram(p) => p.name(),
            PeripheralKind::Flash(p) => p.name(),
        }
    }

    fn mappings(&self) -> (r: Vec<MemoryMapping>) {
        match self {
            PeripheralKind::Scs(p) => p.mappings(),
            PeripheralKind::Sram(p) => p.mappings(),
            PeripheralKind::Flash(p) => p.mappings(),
        }
    }

    fn mmio_read(&self, base: u32, offset: u32, size: u32) -> (r: Result<u32, EmuError>) {
        match self {
            PeripheralKind::Scs(p) => p.mmio_read(base, offset, size),
            PeripheralKind::Sram(p) => p.mmio_read(base, offset, size),
            PeripheralKind::Flash(p) => p.mmio_read(base, offset, size),
        }
    }

    fn mmio_write(&mut self, base: u32, offset: u32, size: u32, value: u32) -> (r: Result<
        (),
        EmuError,
    >) {
        match self {
            PeripheralKind::Scs(p) => p.mmio_write(base, offset, size, value),
            PeripheralKind::Sram(p) => p.mmio_write(base, offset, size, value),
            PeripheralKind::Flash(p) => p.mmio_write(base, offset, size, value),
        }
    }
}

/// The peripheral kinds declare `base` as the base of an MMIO region.
pub open spec fn declares_mmio(p: PeripheralKind, base: u32) -> bool {
    exists|k: int|
        0 <= k < p.mappings_spec().len() && ((#[trigger] p.mappings_spec()[k]) matches
            MemoryMapping::Mmio { base: b, .. } && b == base)
}

/// Some entry of the base map holds `base`.
pub open spec fn map_has_base(m: Seq<(u32, usize)>, base: u32) -> bool {
    exists|i: int| 0 <= i < m.len() && (#[trigger] m[i]).0 == base
}

/// The index of the map entry holding `base` (unique in a well-formed map).
pub open spec fn map_entry(m: Seq<(u32, usize)>, base: u32) -> int {
    choose|i: int| 0 <= i < m.len() && (#[trigger] m[i]).0 == base
}

/// The bus: the peripherals, the base-address map built once at device
/// construction, and the CPU model the device was built for.
pub struct Device {
    pub peripherals: Vec<PeripheralKind>,
    pub mmio_map: Vec<(u32, usize)>,
    pub cpu_model: CpuModel,
}

impl Device {
    /// The peripheral index `base` dispatches to, if any.
    pub open spec fn lookup(self, base: u32) -> Option<int> {
        if map_has_base(self.mmio_map@, base) {
            Some(self.mmio_map@[map_entry(self.mmio_map@, base)].1 as int)
        } else {
            None
        }
    }

    /// Map bases are distinct, every map entry points to a peripheral that
    /// declares that base as an MMIO region, and every peripheral is
    /// internally well formed.
    pub open spec fn wf(self) -> bool {
        &&& forall|i: int, j: int|
            0 <= i < self.mmio_map@.len() && 0 <= j < self.mmio_map@.len() && i != j
                ==> (#[trigger] self.mmio_map@[i]).0 != (#[trigger] self.mmio_map@[j]).0
        &&& forall|i: int|
            0 <= i < self.mmio_map@.len() ==> (#[trigger] self.mmio_map@[i]).1
                < self.peripherals@.len() && declares_mmio(
                self.peripherals@[self.mmio_map@[i].1 as int],
                self.mmio_map@[i].0,
            )
        &&& forall|i: int| 0 <= i < self.peripherals@.len() ==> (#[trigger] self.peripherals@[i]).inv()
    }

    /// Record `base -> idx`, overwriting an earlier registration of `base`.
    fn insert_base(m: &mut Vec<(u32, usize)>, base: u32, idx: usize)
        requires
            forall|i: int, j: int|
                0 <= i < old(m)@.len() && 0 <= j < old(m)@.len() && i != j
                    ==> (#[trigger] old(m)@[i]).0 != (#[trigger] old(m)@[j]).0,
        ensures
            forall|i: int, j: int|
                0 <= i < final(m)@.len() && 0 <= j < final(m)@.len() && i != j
                    ==> (#[trigger] final(m)@[i]).0 != (#[trigger] final(m)@[j]).0,
            forall|b: u32| map_has_base(final(m)@, b) <==> (map_has_base(old(m)@, b) || b == base),
            forall|i: int|
                0 <= i < final(m)@.len() ==> ((#[trigger] final(m)@[i]) == (base, idx) || (
                final(m)@[i].0 != base && map_has_base(old(m)@, final(m)@[i].0)
                    && old(m)@[map_entry(old(m)@, final(m)@[i].0)] == final(m)@[i])),
            map_has_base(final(m)@, base) && final(m)@[map_entry(final(m)@, base)] == (base, idx),
    {
        let n = m.len();
        let mut i: usize = 0;
        while i < n
            invariant
                n == m@.len(),
                0 <= i <= n,
                m@ == old(m)@,
                forall|k: int, j: int|
                    0 <= k < m@.len() && 0 <= j < m@.len() && k != j ==> (#[trigger] m@[k]).0
                        != (#[trigger] m@[j]).0,
                forall|j: int| 0 <= j < i ==> (#[trigger] m@[j]).0 != base,
            decreases n - i,
        {
            if m[i].0 == base {
                m.set(i, (base, idx));
                proof {
                    lemma_insert_at(old(m)@, m@, base, idx, i as int);
                }
                return ;
            }
            i = i + 1;
        }
        m.push((base, idx));
        proof {
            lemma_insert_push(old(m)@, m@, base, idx);
        }
    }

    /// Build a device: the caller's peripherals plus the built-in register
    /// block the CPU model mandates, then the base-address map, which is
    /// immutable from here on.
    pub fn new(model: CpuModel, peripherals: Vec<PeripheralKind>) -> (r: Device)
        requires
            forall|i: int|
                0 <= i < peripherals@.len() ==> (#[trigger] peripherals@[i]).inv(),
        ensures
            r.wf(),
            r.cpu_model == model,
            r.peripherals@.len() == peripherals@.len() + 1,
            forall|i: int|
                0 <= i < peripherals@.len() ==> r.peripherals@[i] == #[trigger] peripherals@[i],
            r.peripherals@[peripherals@.len() as int] matches PeripheralKind::Scs(_),
            forall|idx: int, base: u32|
                0 <= idx < r.peripherals@.len() && #[trigger] declares_mmio(
                    r.peripherals@[idx],
                    base,
                ) ==> map_has_base(r.mmio_map@, base),
    {
        let ghost orig = peripherals@;
        let mut peripherals = peripherals;
        match model {
            CpuModel::M0Plus => {
                peripherals.push(PeripheralKind::Scs(SCS::new()));
            },
        }
        let mut dev = Device { peripherals, mmio_map: Vec::new(), cpu_model: model };
        let n = dev.peripherals.len();
        let mut idx: usize = 0;
        while idx < n
            invariant
                n == dev.peripherals@.len(),
                0 <= idx <= n,
                dev.cpu_model == model,
                dev.peripherals@.len() == orig.len() + 1,
                forall|i: int| 0 <= i < orig.len() ==> dev.peripherals@[i] == #[trigger] orig[i],
                dev.peripherals@[orig.len() as int] matches PeripheralKind::Scs(_),
                forall|i: int| 0 <= i < n ==> (#[trigger] dev.peripherals@[i]).inv(),
                forall|i: int, j: int|
                    0 <= i < dev.mmio_map@.len() && 0 <= j < dev.mmio_map@.len() && i != j
                        ==> (#[trigger] dev.mmio_map@[i]).0 != (#[trigger] dev.mmio_map@[j]).0,
                forall|i: int|
                    0 <= i < dev.mmio_map@.len() ==> (#[trigger] dev.mmio_map@[i]).1 < n
                        && declares_mmio(
                        dev.peripherals@[dev.mmio_map@[i].1 as int],
                        dev.mmio_map@[i].0,
                    ),
                forall|j: int, base: u32|
                    0 <= j < idx && #[trigger] declares_mmio(dev.peripherals@[j], base)
                        ==> map_has_base(dev.mmio_map@, base),
            decreases n - idx,
        {
            let maps = dev.peripherals[idx].mappings();
            let mn = maps.len();
            let mut k: usize = 0;
            while k < mn
                invariant
                    mn == maps@.len(),
                    0 <= k <= mn,
                    idx < n,
                    n == dev.peripherals@.len(),
                    dev.cpu_model == model,
                    dev.peripherals@.len() == orig.len() + 1,
                    forall|i: int| 0 <= i < orig.len() ==> dev.peripherals@[i] == #[trigger] orig[i],
                    dev.peripherals@[orig.len() as int] matches PeripheralKind::Scs(_),

                    maps@ == dev.peripherals@[idx as int].mappings_spec(),
                    forall|i: int| 0 <= i < n ==> (#[trigger] dev.peripherals@[i]).inv(),
                    forall|i: int, j: int|
                        0 <= i < dev.mmio_map@.len() && 0 <= j < dev.mmio_map@.len() && i != j
                            ==> (#[trigger] dev.mmio_map@[i]).0 != (#[trigger] dev.mmio_map@[j]).0,
                    forall|i: int|
                        0 <= i < dev.mmio_map@.len() ==> (#[trigger] dev.mmio_map@[i]).1 < n
                            && declares_mmio(
                            dev.peripherals@[dev.mmio_map@[i].1 as int],
                            dev.mmio_map@[i].0,
                        ),
                    forall|j: int, base: u32|
                        0 <= j < idx && #[trigger] declares_mmio(dev.peripherals@[j], base)
                            ==> map_has_base(dev.mmio_map@, base),
                    forall|t: int|
                        0 <= t < k ==> ((#[trigger] maps@[t]) matches MemoryMapping::Mmio {
                            base,
                            ..
                        } ==> map_has_base(dev.mmio_map@, base)),
                decreases mn - k,
            {
                match maps[k] {
                    MemoryMapping::Mmio { base, .. } => {
                        proof {
                            assert(declares_mmio(dev.peripherals@[idx as int], base));
                        }
                        Self::insert_base(&mut dev.mmio_map, base, idx);
                    },
                    MemoryMapping::Direct { .. } => {},
                }
                k = k + 1;
            }
            proof {
                assert forall|base: u32| declares_mmio(
                    dev.peripherals@[idx as int],
                    base,
                ) implies map_has_base(dev.mmio_map@, base) by {
                    let t = choose|t: int|
                        0 <= t < maps@.len() && ((#[trigger] maps@[t]) matches MemoryMapping::Mmio {
                            base: b,
                            ..
                        } && b == base);
                    assert(0 <= t < maps@.len());
                }
            }
            idx = idx + 1;
        }
        dev
    }

    /// Route an MMIO read: resolve the peripheral registered at `base`, or
    /// fail without touching anything.
    pub fn mmio_read(&self, base: u32, offset: u32, size: u32) -> (r: Result<u32, EmuError>)
        requires
            self.wf(),
        ensures
            r == (match self.lookup(base) {
                Some(idx) => self.peripherals@[idx].read_spec(base, offset, size),
                None => Err::<u32, EmuError>(EmuError::NoPeripheralAtAddress { base }),
            }),
    {
        match self.find_base(base) {
            Some(idx) => self.peripherals[idx].mmio_read(base, offset, size),
            None => Err(EmuError::NoPeripheralAtAddress { base }),
        }
    }

    /// Route an MMIO write: resolve the peripheral registered at `base` and
    /// hand the access to it; with no peripheral there, fail and leave every
    /// peripheral unchanged.
    pub fn mmio_write(&mut self, base: u32, offset: u32, size: u32, value: u32) -> (r: Result<
        (),
        EmuError,
    >)
        requires
            old(self).wf(),
        ensures
            final(self).wf(),
            final(self).mmio_map@ == old(self).mmio_map@,
            final(self).cpu_model == old(self).cpu_model,
            final(self).peripherals@.len() == old(self).peripherals@.len(),
            match old(self).lookup(base) {
                Some(idx) => {
                    &&& r == old(self).peripherals@[idx].write_outcome_spec(
                        base,
                        offset,
                        size,
                        value,
                    )
                    &&& old(self).peripherals@[idx].write_state_rel(
                        final(self).peripherals@[idx],
                        base,
                        offset,
                        size,
                        value,
                    )
                    &&& forall|j: int|
                        0 <= j < old(self).peripherals@.len() && j != idx
                            ==> final(self).peripherals@[j] == #[trigger] old(self).peripherals@[j]
                },
                None => {
                    &&& r == Err::<(), EmuError>(EmuError::NoPeripheralAtAddress { base })
                    &&& final(self).peripherals@ == old(self).peripherals@
                },
            },
    {
        match self.find_base(base) {
            Some(idx) => {
                let p = &mut self.peripherals[idx];
                p.mmio_write(base, offset, size, value)
            },
            None => Err(EmuError::NoPeripheralAtAddress { base }),
        }
    }

    /// Load every loadable segment of a 32-bit little-endian ELF image into
    /// backing memory, in program-header order.
    pub fn load_elf(&mut self, elfdata: &[u8]) -> (r: Result<(), EmuError>)
        requires
            old(self).wf(),
        ensures
            final(self).wf(),
            final(self).mmio_map@ == old(self).mmio_map@,
            final(self).cpu_model == old(self).cpu_model,
            final(self).peripherals@.len() == old(self).peripherals@.len(),
            forall|j: int|
                0 <= j < old(self).peripherals@.len() ==> (#[trigger] old(self).peripherals@[j]).same_frame(
                    final(self).peripherals@[j],
                ),
            match crate::elfload::elf_segments_spec(elfdata@) {
                None => r == Err::<(), EmuError>(EmuError::MalformedElf) && device_datas(
                    final(self).peripherals@,
                ) == device_datas(old(self).peripherals@),
                Some(segs) => (match apply_segs(
                    old(self).peripherals@,
                    device_datas(old(self).peripherals@),
                    segs,
                ) {
                    Some(d) => r == Ok::<(), EmuError>(()) && device_datas(
                        final(self).peripherals@,
                    ) == d,
                    None => r == Err::<(), EmuError>(EmuError::UnmappedMemoryAccess),
                }),
            },
    {
        let segs = match crate::elfload::elf_segments(elfdata) {
            Ok(v) => v,
            Err(e) => {
                return Err(e);
            },
        };
        self.load_parsed(segs)
    }

    /// Load every segment assembled from an Intel HEX text into backing
    /// memory, in record order.
    pub fn load_ihex(&mut self, ihexdata: &[u8]) -> (r: Result<(), EmuError>)
        requires
            old(self).wf(),
        ensures
            final(self).wf(),
            final(self).mmio_map@ == old(self).mmio_map@,
            final(self).cpu_model == old(self).cpu_model,
            final(self).peripherals@.len() == old(self).peripherals@.len(),
            forall|j: int|
                0 <= j < old(self).peripherals@.len() ==> (#[trigger] old(self).peripherals@[j]).same_frame(
                    final(self).peripherals@[j],
                ),
            !crate::semihost::is_utf8(ihexdata@) ==> r == Err::<(), EmuError>(
                EmuError::InvalidUtf8,
            ) && device_datas(final(self).peripherals@) == device_datas(old(self).peripherals@),
            crate::semihost::is_utf8(ihexdata@) ==> (match crate::intelhex::segments_spec(
                ihexdata@,
            ) {
                Err(e) => r == Err::<(), EmuError>(e) && device_datas(final(self).peripherals@)
                    == device_datas(old(self).peripherals@),
                Ok(segs) => (match apply_segs(
                    old(self).peripherals@,
                    device_datas(old(self).peripherals@),
                    segs,
                ) {
                    Some(d) => r == Ok::<(), EmuError>(()) && device_datas(
                        final(self).peripherals@,
                    ) == d,
                    None => r == Err::<(), EmuError>(EmuError::UnmappedMemoryAccess),
                }),
            }),
    {
        let segs = match crate::intelhex::segments(ihexdata) {
            Ok(v) => v,
            Err(e) => {
                return Err(e);
            },
        };
        self.load_parsed(segs)
    }

    /// Load a parsed segment list, in order.
    fn load_parsed(&mut self, segs: Vec<crate::intelhex::Segment>) -> (r: Result<(), EmuError>)
        requires
            old(self).wf(),
            forall|i: int| 0 <= i < segs@.len() ==> (#[trigger] segs@[i]).address <= u32::MAX,
        ensures
            final(self).wf(),
            final(self).mmio_map@ == old(self).mmio_map@,
            final(self).cpu_model == old(self).cpu_model,
            final(self).peripherals@.len() == old(self).peripherals@.len(),
            forall|j: int|
                0 <= j < old(self).peripherals@.len() ==> (#[trigger] old(self).peripherals@[j]).same_frame(
                    final(self).peripherals@[j],
                ),
            match apply_segs(
                old(self).peripherals@,
                device_datas(old(self).peripherals@),
                crate::intelhex::segs_view(segs@),
            ) {
                Some(d) => r == Ok::<(), EmuError>(()) && device_datas(final(self).peripherals@)
                    == d,
                None => r == Err::<(), EmuError>(EmuError::UnmappedMemoryAccess),
            },
    {
        let ghost ps0 = self.peripherals@;
        let ghost datas0 = device_datas(self.peripherals@);
        let ghost segsv = crate::intelhex::segs_view(segs@);
        let n = segs.len();
        let mut k: usize = 0;
        proof {
            assert(segsv.skip(0) =~= segsv);
        }
        while k < n
            invariant
                n == segs@.len(),
                0 <= k <= n,
                old(self).wf(),
                ps0 == old(self).peripherals@,
                datas0 == device_datas(old(self).peripherals@),
                segsv == crate::intelhex::segs_view(segs@),
                forall|i: int| 0 <= i < n ==> (#[trigger] segs@[i]).address <= u32::MAX,
                self.wf(),
                self.mmio_map@ == old(self).mmio_map@,
                self.cpu_model == old(self).cpu_model,
                self.peripherals@.len() == ps0.len(),
                forall|j: int|
                    0 <= j < ps0.len() ==> (#[trigger] ps0[j]).same_frame(self.peripherals@[j])
                        && ps0[j].direct_base() == self.peripherals@[j].direct_base()
                        && ps0[j].direct_data().len() == self.peripherals@[j].direct_data().len(),
                apply_segs(ps0, device_datas(self.peripherals@), segsv.skip(k as int))
                    == apply_segs(ps0, datas0, segsv),
            decreases n - k,
        {
            let ghost mid = self.peripherals@;
            let ghost middatas = device_datas(self.peripherals@);
            let address: u32 = segs[k].address as u32;
            let outcome = self.load_segment(address, segs[k].data.as_slice());
            proof {
                lemma_find_direct_congr(mid, ps0, 0, address as int, segs@[k as int].data@.len() as int);
            }
            match outcome {
                Ok(_) => {
                    proof {
                        assert(self.peripherals@.len() == mid.len());
                        assert(find_direct(mid, 0, address as int,
                            segs@[k as int].data@.len() as int).is_some());
                        assert(find_direct(ps0, 0, address as int,
                            segs@[k as int].data@.len() as int).is_some());
                        lemma_find_direct_bounds(ps0, 0, address as int,
                            segs@[k as int].data@.len() as int);
                        let idx = find_direct(ps0, 0, address as int,
                            segs@[k as int].data@.len() as int).unwrap();
                        assert(0 <= idx < mid.len());
                        let target = middatas.update(
                            idx,
                            overlay(
                                middatas[idx],
                                address - ps0[idx].direct_base().unwrap(),
                                segs@[k as int].data@,
                            ),
                        );
                        assert(device_datas(self.peripherals@).len() == target.len());
                        assert forall|j: int|
                            0 <= j < target.len() implies #[trigger] device_datas(
                            self.peripherals@,
                        )[j] == target[j] by {
                            assert(device_datas(self.peripherals@)[j]
                                == self.peripherals@[j].direct_data());
                            assert(middatas[j] == mid[j].direct_data());
                            assert(ps0[idx].direct_base() == mid[idx].direct_base());
                        }
                        assert(device_datas(self.peripherals@) =~= target);
                        assert(segsv.skip(k as int)[0] == (address as int, segs@[k as int].data@));
                        assert(segsv.skip(k as int).drop_first() =~= segsv.skip(k + 1));
                        assert(apply_segs(ps0, device_datas(self.peripherals@), segsv.skip(k + 1))
                            == apply_segs(ps0, middatas, segsv.skip(k as int)));
                        assert forall|j: int| 0 <= j < ps0.len() implies (#[trigger] ps0[j]).same_frame(
                            self.peripherals@[j],
                        ) && ps0[j].direct_base() == self.peripherals@[j].direct_base()
                            && ps0[j].direct_data().len()
                            == self.peripherals@[j].direct_data().len() by {}
                    }
                },
                Err(e) => {
                    proof {
                        assert(segsv.skip(k as int)[0] == (address as int, segs@[k as int].data@));
                        assert(apply_segs(ps0, middatas, segsv.skip(k as int)).is_none());
                    }
                    return Err(e);
                },
            }
            k = k + 1;
        }
        proof {
            assert(segsv.skip(n as int) =~= Seq::<(int, Seq<u8>)>::empty());
        }
        Ok(())
    }

    /// Find the peripheral index registered at `base`.
    fn find_base(&self, base: u32) -> (r: Option<usize>)
        requires
            self.wf(),
        ensures
            match r {
                Some(idx) => self.lookup(base) == Some(idx as int) && idx
                    < self.peripherals@.len(),
                None => self.lookup(base).is_none(),
            },
    {
        let n = self.mmio_map.len();
        let mut i: usize = 0;
        while i < n
            invariant
                n == self.mmio_map@.len(),
                0 <= i <= n,
                self.wf(),
                forall|j: int| 0 <= j < i ==> (#[trigger] self.mmio_map@[j]).0 != base,
            decreases n - i,
        {
            let entry = self.mmio_map[i];
            if entry.0 == base {
                proof {
                    assert(map_has_base(self.mmio_map@, base));
                    let k = map_entry(self.mmio_map@, base);
                    assert(self.mmio_map@[k].0 == base);
                    assert(k == i);
                }
                return Some(entry.1);
            }
            i = i + 1;
        }
        proof {
            assert forall|j: int| 0 <= j < self.mmio_map@.len() implies (#[trigger] self.mmio_map@[j]).0
                != base by {}
        }
        None
    }
}

/// `d` with `w` written at byte offset `off`.
pub open spec fn overlay(d: Seq<u8>, off: int, w: Seq<u8>) -> Seq<u8> {
    Seq::new(
        d.len(),
        |i: int|
            if off <= i < off + w.len() {
                w[i - off]
            } else {
                d[i]
            },
    )
}

impl PeripheralKind {
    /// The base of the direct-mapped region this peripheral backs, if any.
    pub open spec fn direct_base(self) -> Option<u32> {
        match self {
            PeripheralKind::Scs(_) => None,
            PeripheralKind::Sram(p) => Some(p.base),
            PeripheralKind::Flash(p) => Some(p.flash_base),
        }
    }

    /// The bytes of the direct-mapped region this peripheral backs.
    pub open spec fn direct_data(self) -> Seq<u8> {
        match self {
            PeripheralKind::Scs(_) => Seq::<u8>::empty(),
            PeripheralKind::Sram(p) => p.data@,
            PeripheralKind::Flash(p) => p.data@,
        }
    }

    /// `len` bytes at guest address `addr` lie inside this peripheral's
    /// direct region.
    pub open spec fn direct_contains(self, addr: int, len: int) -> bool {
        match self.direct_base() {
            Some(b) => b <= addr && addr + len <= b + self.direct_data().len(),
            None => false,
        }
    }

    /// Everything but the direct region's bytes is unchanged.
    pub open spec fn same_frame(self, post: Self) -> bool {
        match (self, post) {
            (PeripheralKind::Scs(p), PeripheralKind::Scs(q)) => p == q,
            (PeripheralKind::Sram(p), PeripheralKind::Sram(q)) => p.region_name == q.region_name
                && p.base == q.base,
            (PeripheralKind::Flash(p), PeripheralKind::Flash(q)) => p.region_name == q.region_name
                && p.flash_base == q.flash_base && p.ctrl_base == q.ctrl_base && p.page_size
                == q.page_size && p.bank == q.bank,
            _ => false,
        }
    }

    /// Write `data` into this peripheral's direct region at guest address
    /// `address`, reporting whether the range lies inside it.
    fn write_direct(&mut self, address: u32, data: &[u8]) -> (r: bool)
        requires
            old(self).inv(),
        ensures
            final(self).inv(),
            old(self).same_frame(*final(self)),
            r == old(self).direct_contains(address as int, data@.len() as int),
            final(self).direct_data() == (if r {
                overlay(
                    old(self).direct_data(),
                    address - old(self).direct_base().unwrap(),
                    data@,
                )
            } else {
                old(self).direct_data()
            }),
    {
        match self {
            PeripheralKind::Scs(_) => false,
            PeripheralKind::Sram(p) => {
                let dlen: usize = p.data.len();
                if address >= p.base && data.len() as u64 <= dlen as u64 && address as u64
                    - p.base as u64 <= dlen as u64 - data.len() as u64 {
                    let off: usize = (address - p.base) as usize;
                    copy_into(&mut p.data, off, data);
                    true
                } else {
                    false
                }
            },
            PeripheralKind::Flash(p) => {
                let dlen: usize = p.data.len();
                if address >= p.flash_base && data.len() as u64 <= dlen as u64 && address as u64
                    - p.flash_base as u64 <= dlen as u64 - data.len() as u64 {
                    let off: usize = (address - p.flash_base) as usize;
                    copy_into(&mut p.data, off, data);
                    true
                } else {
                    false
                }
            },
        }
    }
}

/// Copy `data` over `dst` at `off`; everything else keeps its value.
fn copy_into(dst: &mut Vec<u8>, off: usize, data: &[u8])
    requires
        off + data@.len() <= old(dst)@.len(),
    ensures
        final(dst)@ == overlay(old(dst)@, off as int, data@),
{
    let n = data.len();
    let dl: usize = dst.len();
    let mut i: usize = 0;
    while i < n
        invariant
            n == data@.len(),
            0 <= i <= n,
            off + n <= dl,
            dl == dst@.len(),
            dst@.len() == old(dst)@.len(),
            forall|j: int| 0 <= j < i ==> dst@[off + j] == data@[j],
            forall|j: int|
                0 <= j < dst@.len() && !(off <= j < off + i) ==> dst@[j] == old(dst)@[j],
        decreases n - i,
    {
        dst.set(off + i, data[i]);
        i = i + 1;
    }
    proof {
        assert(dst@ =~= overlay(old(dst)@, off as int, data@));
    }
}

/// The direct-region bytes of every peripheral, in order.
pub open spec fn device_datas(ps: Seq<PeripheralKind>) -> Seq<Seq<u8>> {
    Seq::new(ps.len(), |i: int| ps[i].direct_data())
}

/// The first peripheral whose direct region holds `len` bytes at `addr`.
pub open spec fn find_direct(ps: Seq<PeripheralKind>, i: int, addr: int, len: int) -> Option<int>
    decreases ps.len() - i,
{
    if i < 0 || i >= ps.len() {
        None
    } else if ps[i].direct_contains(addr, len) {
        Some(i)
    } else {
        find_direct(ps, i + 1, addr, len)
    }
}

impl Device {
    /// Write one loader segment into the backing memory of the peripheral
    /// whose direct region holds it, before execution starts; a segment no
    /// region holds is an unmapped access.
    pub fn load_segment(&mut self, address: u32, data: &[u8]) -> (r: Result<(), EmuError>)
        requires
            old(self).wf(),
        ensures
            final(self).wf(),
            final(self).mmio_map@ == old(self).mmio_map@,
            final(self).cpu_model == old(self).cpu_model,
            final(self).peripherals@.len() == old(self).peripherals@.len(),
            forall|j: int|
                0 <= j < old(self).peripherals@.len() ==> (#[trigger] old(self).peripherals@[j]).same_frame(
                    final(self).peripherals@[j],
                ),
            match find_direct(old(self).peripherals@, 0, address as int, data@.len() as int) {
                Some(idx) => {
                    &&& r == Ok::<(), EmuError>(())
                    &&& final(self).peripherals@[idx].direct_data() == overlay(
                        old(self).peripherals@[idx].direct_data(),
                        address - old(self).peripherals@[idx].direct_base().unwrap(),
                        data@,
                    )
                    &&& forall|j: int|
                        0 <= j < old(self).peripherals@.len() && j != idx ==> (#[trigger] final(self).peripherals@[j]).direct_data() == old(self).peripherals@[j].direct_data()
                },
                None => {
                    &&& r == Err::<(), EmuError>(EmuError::UnmappedMemoryAccess)
                    &&& forall|j: int|
                        0 <= j < old(self).peripherals@.len() ==> (#[trigger] final(self).peripherals@[j]).direct_data() == old(self).peripherals@[j].direct_data()
                },
            },
    {
        let n = self.peripherals.len();
        let mut i: usize = 0;
        while i < n
            invariant
                n == self.peripherals@.len(),
                0 <= i <= n,
                old(self).wf(),
                self.mmio_map@ == old(self).mmio_map@,
                self.cpu_model == old(self).cpu_model,
                self.peripherals@.len() == old(self).peripherals@.len(),
                forall|j: int|
                    0 <= j < n ==> (#[trigger] old(self).peripherals@[j]).same_frame(
                        self.peripherals@[j],
                    ) && old(self).peripherals@[j].direct_data()
                        == self.peripherals@[j].direct_data() && self.peripherals@[j].inv(),
                forall|j: int|
                    0 <= j < i ==> !(#[trigger] old(self).peripherals@[j]).direct_contains(
                        address as int,
                        data@.len() as int,
                    ),
                find_direct(old(self).peripherals@, i as int, address as int, data@.len() as int)
                    == find_direct(old(self).peripherals@, 0, address as int, data@.len() as int),
            decreases n - i,
        {
            let p = &mut self.peripherals[i];
            let hit = p.write_direct(address, data);
            if hit {
                proof {
                    assert forall|j: int| 0 <= j < n implies (#[trigger] self.peripherals@[j]).mappings_spec()
                        == old(self).peripherals@[j].mappings_spec()
                        && self.peripherals@[j].inv() by {
                        lemma_same_frame_keeps_mappings(
                            old(self).peripherals@[j],
                            self.peripherals@[j],
                        );
                    }
                    assert(find_direct(old(self).peripherals@, i as int, address as int,
                        data@.len() as int) == Some(i as int));
                }
                return Ok(());
            }
            i = i + 1;
        }
        proof {
            assert forall|j: int| 0 <= j < n implies (#[trigger] self.peripherals@[j]).mappings_spec()
                == old(self).peripherals@[j].mappings_spec() && self.peripherals@[j].inv() by {
                lemma_same_frame_keeps_mappings(old(self).peripherals@[j], self.peripherals@[j]);
            }
        }
        Err(EmuError::UnmappedMemoryAccess)
    }
}

/// A peripheral whose frame is unchanged and whose direct data kept its
/// length declares the same regions and stays well formed.
proof fn lemma_same_frame_keeps_mappings(pre: PeripheralKind, post: PeripheralKind)
    requires
        pre.inv(),
        pre.same_frame(post),
        post.direct_data().len() == pre.direct_data().len(),
    ensures
        post.mappings_spec() == pre.mappings_spec(),
        post.inv(),
{
    match (pre, post) {
        (PeripheralKind::Scs(p), PeripheralKind::Scs(q)) => {},
        (PeripheralKind::Sram(p), PeripheralKind::Sram(q)) => {
            assert(q.mappings_spec() =~= p.mappings_spec());
        },
        (PeripheralKind::Flash(p), PeripheralKind::Flash(q)) => {
            assert(q.mappings_spec() =~= p.mappings_spec());
        },
        _ => {},
    }
}


/// Apply one loader segment to the per-peripheral memory bytes, given the
/// peripherals' (immutable) region geometry.
pub open spec fn apply_seg(
    ps0: Seq<PeripheralKind>,
    datas: Seq<Seq<u8>>,
    addr: int,
    bytes: Seq<u8>,
) -> Option<Seq<Seq<u8>>> {
    match find_direct(ps0, 0, addr, bytes.len() as int) {
        Some(i) => Some(
            datas.update(i, overlay(datas[i], addr - ps0[i].direct_base().unwrap(), bytes)),
        ),
        None => None,
    }
}

/// Apply a list of loader segments in order; `None` as soon as one lies in
/// no direct region.
pub open spec fn apply_segs(
    ps0: Seq<PeripheralKind>,
    datas: Seq<Seq<u8>>,
    segs: Seq<(int, Seq<u8>)>,
) -> Option<Seq<Seq<u8>>>
    decreases segs.len(),
{
    if segs.len() == 0 {
        Some(datas)
    } else {
        match apply_seg(ps0, datas, segs[0].0, segs[0].1) {
            Some(d2) => apply_segs(ps0, d2, segs.drop_first()),
            None => None,
        }
    }
}

/// A found direct region index lies in range and contains the segment.
proof fn lemma_find_direct_bounds(ps: Seq<PeripheralKind>, i: int, addr: int, len: int)
    ensures
        find_direct(ps, i, addr, len) matches Some(j) ==> i <= j < ps.len()
            && ps[j].direct_contains(addr, len),
    decreases ps.len() - i,
{
    if 0 <= i < ps.len() && !ps[i].direct_contains(addr, len) {
        lemma_find_direct_bounds(ps, i + 1, addr, len);
    }
}

/// Containment tests see only region geometry, which loading preserves.
proof fn lemma_find_direct_congr(
    ps1: Seq<PeripheralKind>,
    ps2: Seq<PeripheralKind>,
    i: int,
    addr: int,
    len: int,
)
    requires
        ps1.len() == ps2.len(),
        forall|j: int|
            0 <= j < ps1.len() ==> (#[trigger] ps1[j]).direct_base() == ps2[j].direct_base()
                && ps1[j].direct_data().len() == ps2[j].direct_data().len(),
    ensures
        find_direct(ps1, i, addr, len) == find_direct(ps2, i, addr, len),
    decreases ps1.len() - i,
{
    if 0 <= i < ps1.len() {
        lemma_find_direct_congr(ps1, ps2, i + 1, addr, len);
    }
}


/// Overwriting the entry holding `base` keeps all other entries and their
/// distinctness.
proof fn lemma_insert_at(pre: Seq<(u32, usize)>, post: Seq<(u32, usize)>, base: u32, idx: usize, i: int)
    requires
        0 <= i < pre.len(),
        pre[i].0 == base,
        forall|k: int| 0 <= k < i ==> (#[trigger] pre[k]).0 != base,
        forall|k: int, j: int|
            0 <= k < pre.len() && 0 <= j < pre.len() && k != j ==> (#[trigger] pre[k]).0
                != (#[trigger] pre[j]).0,
        post == pre.update(i, (base, idx)),
    ensures
        forall|k: int, j: int|
            0 <= k < post.len() && 0 <= j < post.len() && k != j ==> (#[trigger] post[k]).0
                != (#[trigger] post[j]).0,
        forall|b: u32| map_has_base(post, b) <==> (map_has_base(pre, b) || b == base),
        forall|k: int|
            0 <= k < post.len() ==> (#[trigger] post[k]) == (base, idx) || (post[k].0 != base
                && map_has_base(pre, post[k].0) && pre[map_entry(pre, post[k].0)] == post[k]),
        map_has_base(post, base) && post[map_entry(post, base)] == (base, idx),
{
    assert forall|b: u32| map_has_base(post, b) implies (map_has_base(pre, b) || b == base) by {
        let k = choose|k: int| 0 <= k < post.len() && (#[trigger] post[k]).0 == b;
        if k != i {
            assert(pre[k].0 == b);
        }
    }
    assert forall|b: u32| map_has_base(pre, b) implies map_has_base(post, b) by {
        let k = choose|k: int| 0 <= k < pre.len() && (#[trigger] pre[k]).0 == b;
        if k == i {
            assert(post[i].0 == base);
        } else {
            assert(post[k].0 == b);
        }
    }
    assert(post[i].0 == base);
    assert forall|k: int|
        0 <= k < post.len() && post[k] != (base, idx) implies (post[k].0 != base && map_has_base(
        pre,
        post[k].0,
    ) && pre[map_entry(pre, post[k].0)] == post[k]) by {
        assert(k != i);
        assert(post[k] == pre[k]);
        assert(map_has_base(pre, post[k].0));
        let m = map_entry(pre, post[k].0);
        assert(pre[m].0 == post[k].0);
        assert(m == k);
    }
    let m = map_entry(post, base);
    assert(post[m].0 == base);
    assert(m == i);
}

/// Appending a fresh base keeps all old entries and their distinctness.
proof fn lemma_insert_push(pre: Seq<(u32, usize)>, post: Seq<(u32, usize)>, base: u32, idx: usize)
    requires
        forall|k: int| 0 <= k < pre.len() ==> (#[trigger] pre[k]).0 != base,
        forall|k: int, j: int|
            0 <= k < pre.len() && 0 <= j < pre.len() && k != j ==> (#[trigger] pre[k]).0
                != (#[trigger] pre[j]).0,
        post == pre.push((base, idx)),
    ensures
        forall|k: int, j: int|
            0 <= k < post.len() && 0 <= j < post.len() && k != j ==> (#[trigger] post[k]).0
                != (#[trigger] post[j]).0,
        forall|b: u32| map_has_base(post, b) <==> (map_has_base(pre, b) || b == base),
        forall|k: int|
            0 <= k < post.len() ==> (#[trigger] post[k]) == (base, idx) || (post[k].0 != base
                && map_has_base(pre, post[k].0) && pre[map_entry(pre, post[k].0)] == post[k]),
        map_has_base(post, base) && post[map_entry(post, base)] == (base, idx),
{
    let n = pre.len() as int;
    assert(post[n] == (base, idx));
    assert forall|b: u32| map_has_base(post, b) implies (map_has_base(pre, b) || b == base) by {
        let k = choose|k: int| 0 <= k < post.len() && (#[trigger] post[k]).0 == b;
        if k != n {
            assert(pre[k].0 == b);
        }
    }
    assert forall|b: u32| map_has_base(pre, b) implies map_has_base(post, b) by {
        let k = choose|k: int| 0 <= k < pre.len() && (#[trigger] pre[k]).0 == b;
        assert(post[k].0 == b);
    }
    assert forall|k: int|
        0 <= k < post.len() && post[k] != (base, idx) implies (post[k].0 != base && map_has_base(
        pre,
        post[k].0,
    ) && pre[map_entry(pre, post[k].0)] == post[k]) by {
        assert(k != n);
        assert(post[k] == pre[k]);
        assert(map_has_base(pre, post[k].0));
        let m = map_entry(pre, post[k].0);
        assert(pre[m].0 == post[k].0);
        assert(m == k);
    }
    let m = map_entry(post, base);
    assert(post[m].0 == base);
    assert(m == n);
}

} // verus!
