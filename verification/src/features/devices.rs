//! Connected USB devices.
use vstd::prelude::*;
use crate::sorting::{lemma_insert_at, law_sort_by, sort_by, sorted_by};
use crate::selection::{next_index, next_index_exec, prev_index, prev_index_exec, clamp_index, clamp_index_exec};

verus! {

#[derive(Debug, Clone)]
pub struct UsbDeviceInfo {
    pub bus: u8,
    pub address: u8,
    pub vendor_id: u16,
    pub product_id: u16,
    pub manufacturer: String,
    pub product: String,
}

#[derive(Debug)]
pub struct DevicesState {
    pub devices: Vec<UsbDeviceInfo>,
    pub selected: usize,
}

/// Devices are listed by bus, then by address on the bus.
pub open spec fn device_key(d: UsbDeviceInfo) -> int {
    d.bus as int * 256 + d.address as int
}

/// The order in which devices are listed: by bus, then by address.
pub open spec fn device_le() -> spec_fn(UsbDeviceInfo, UsbDeviceInfo) -> bool {
    |a: UsbDeviceInfo, b: UsbDeviceInfo| device_key(a) <= device_key(b)
}

/// Of two devices in listing order, the first is on a lower bus, or on the
/// same bus at an address no higher.
pub open spec fn bus_address_ordered(s: Seq<UsbDeviceInfo>) -> bool {
    forall|i: int, j: int|
        0 <= i < j < s.len() ==> (#[trigger] s[i]).bus < (#[trigger] s[j]).bus || (s[i].bus
            == s[j].bus && s[i].address <= s[j].address)
}

/// The listing order is sorted by bus and address and holds the same
/// devices: `refresh_with` neither drops nor duplicates a device, and a
/// device on a lower bus comes before every device on a higher bus, whatever
/// their addresses.
pub proof fn law_device_sort(s: Seq<UsbDeviceInfo>)
    ensures
        sorted_by(sort_by(s, device_le()), device_le()),
        bus_address_ordered(sort_by(s, device_le())),
        sort_by(s, device_le()).to_multiset() == s.to_multiset(),
        sort_by(s, device_le()).len() == s.len(),
{
    law_sort_by(s, device_le());
    let out = sort_by(s, device_le());
    assert forall|i: int, j: int| 0 <= i < j < out.len() implies (#[trigger] out[i]).bus < (
    #[trigger] out[j]).bus || (out[i].bus == out[j].bus && out[i].address <= out[j].address) by {
        assert(device_le()(out[i], out[j]));
        let (a, b) = (out[i], out[j]);
        assert(a.bus < b.bus || (a.bus == b.bus && a.address <= b.address)) by (nonlinear_arith)
            requires
                a.bus as int * 256 + a.address as int <= b.bus as int * 256 + b.address as int,
                0 <= a.address < 256,
                0 <= b.address < 256,
        ;
    }
}

fn sort_devices(found: Vec<UsbDeviceInfo>) -> (out: Vec<UsbDeviceInfo>)
    ensures
        out@ == sort_by(found@, device_le()),
{
    let mut input = found;
    let ghost orig = input@;
    let mut out: Vec<UsbDeviceInfo> = Vec::new();
    let ghost mut taken: int = 0;
    assert(orig.take(0) =~= Seq::<UsbDeviceInfo>::empty());
    while input.len() > 0
        invariant
            0 <= taken <= orig.len(),
            input@ == orig.skip(taken),
            out@ == sort_by(orig.take(taken), device_le()),
        decreases input.len(),
    {
        let x = input.remove(0);
        let mut j = out.len();
        while j > 0 && out[j - 1].bus as u32 * 256 + out[j - 1].address as u32 > x.bus as u32 * 256
            + x.address as u32
            invariant
                j <= out.len(),
                forall|k: int| j <= k < out@.len() ==> !device_le()(#[trigger] out@[k], x),
            decreases j,
        {
            j = j - 1;
        }
        proof {
            lemma_insert_at(out@, x, device_le(), j as int);
            assert(orig.take(taken + 1).drop_last() =~= orig.take(taken));
            assert(orig.take(taken + 1).last() == x);
            assert(input@ =~= orig.skip(taken + 1));
            taken = taken + 1;
        }
        out.insert(j, x);
    }
    assert(orig.take(taken) =~= orig);
    out
}

impl DevicesState {
    /// An empty device list; the list is filled by `refresh_with`.
    pub fn new() -> (s: Self)
        ensures
            s.devices@.len() == 0,
            s.selected == 0,
    {
        DevicesState { devices: Vec::new(), selected: 0 }
    }

    pub fn select_next(&mut self)
        ensures
            final(self).selected == next_index(old(self).selected as int, old(self).devices@.len() as int),
            final(self).devices == old(self).devices,
    {
        self.selected = next_index_exec(self.selected, self.devices.len());
    }

    pub fn select_prev(&mut self)
        ensures
            final(self).selected == prev_index(old(self).selected as int),
            final(self).devices == old(self).devices,
    {
        self.selected = prev_index_exec(self.selected);
    }

    /// Takes the result of enumerating the USB bus: `None` when the bus could
    /// not be opened (the list is emptied), otherwise the devices found, which
    /// are listed by bus and address with the cursor kept on the list.
    pub fn refresh_with(&mut self, found: Option<Vec<UsbDeviceInfo>>)
        ensures
            match found {
                None => final(self).devices@.len() == 0 && final(self).selected == 0,
                Some(list) => final(self).devices@ == sort_by(list@, device_le()) && final(self).selected
                    == clamp_index(old(self).selected as int, list@.len() as int)
                    && bus_address_ordered(final(self).devices@)
                    && final(self).devices@.to_multiset() == list@.to_multiset(),
            },
    {
        match found {
            None => {
                self.devices = Vec::new();
                self.selected = 0;
            },
            Some(list) => {
                proof {
                    law_device_sort(list@);
                }
                self.devices = sort_devices(list);
                self.selected = clamp_index_exec(self.selected, self.devices.len());
            },
        }
    }
}

impl Default for DevicesState {
    fn default() -> (s: Self)
        ensures
            s.devices@.len() == 0,
            s.selected == 0,
    {
        DevicesState::new()
    }
}

} // verus!
