use vstd::prelude::*;
use crate::error::{Error, ErrorKind};
use arrayvec::{ArrayVec, CapacityError};
use bit_field::BitField;
use crate::text::{decimal, hex2, hex4, push_bytes, push_decimal, push_hex2, push_hex4};
use vstd::string::StringSliceAdditionalSpecFns;

verus! {

/// The vendor id an empty slot of the configuration space reads as.
pub const INVALID_VENDER_ID: u16 = 0xffff;

/// The capacity of a device list.
pub const MAX_DEVICES: usize = 32;

/// The 32-bit value written to the configuration address port: enable
/// bit 31, bus in bits 16..24, device in bits 11..16, function in bits 8..11
/// and register offset in bits 0..8.
pub open spec fn config_address_value(bus: u8, device: u8, function: u8, reg_addr: u8) -> u32 {
    0x8000_0000u32 | ((bus as u32) << 16u32) | ((device as u32) << 11u32) | ((function as u32) << 8u32)
        | (reg_addr as u32)
}

/// The bus, device, function and register of a configuration address
/// can be read back from its value, and its enable bit is set: distinct
/// addresses have distinct values.
pub proof fn lemma_config_address_fields(bus: u8, device: u8, function: u8, reg_addr: u8)
    requires
        device < 32,
        function < 8,
    ensures
        (config_address_value(bus, device, function, reg_addr) >> 16u32) & 0xff == bus as u32,
        (config_address_value(bus, device, function, reg_addr) >> 11u32) & 0x1f == device as u32,
        (config_address_value(bus, device, function, reg_addr) >> 8u32) & 0x7 == function as u32,
        config_address_value(bus, device, function, reg_addr) & 0xff == reg_addr as u32,
        config_address_value(bus, device, function, reg_addr) >> 31u32 == 1,
{
    let (b, d, f, g) = (bus as u32, device as u32, function as u32, reg_addr as u32);
    let v = config_address_value(bus, device, function, reg_addr);
    assert({
        &&& (v >> 16u32) & 0xff == b
        &&& (v >> 11u32) & 0x1f == d
        &&& (v >> 8u32) & 0x7 == f
        &&& v & 0xff == g
        &&& v >> 31u32 == 1
    }) by (bit_vector)
        requires
            b < 256,
            d < 32,
            f < 8,
            g < 256,
            v == 0x8000_0000u32 | (b << 16u32) | (d << 11u32) | (f << 8u32) | g,
    ;
}

/// An address in the PCI configuration space.
#[derive(Debug, Clone, Copy, PartialEq, Eq, Structural)]
pub struct ConfigAddr(pub u32);

/// Bits `start..end` of a `u32`.
pub open spec fn field_mask(start: u32, end: u32) -> u32 {
    (!(0xffff_ffffu32 << ((end - start) as u32))) << start
}

/// Writes `field` into bits `start..end` of `value` with
/// `bit_field::BitField::set_bits` (which panics when the range leaves the
/// word or the field has bits above its width, hence the `requires`).
/// Claimed: the bits of the range are replaced by the field, the others
/// are kept.
#[verifier::external_body]
fn set_bits_u32(value: &mut u32, start: usize, end: usize, field: u32)
    requires
        start < end,
        end - start < 32,
        end <= 32,
        field >> ((end - start) as u32) == 0,
    ensures
        *final(value) == (*old(value) & !field_mask(start as u32, end as u32)) | (field << (start as u32)),
{
    value.set_bits(start..end, field);
}

/// Sets or clears bit `bit` of `value` with `bit_field::BitField::set_bit`
/// (which panics outside the word, hence the `requires`). Claimed: that bit
/// becomes `set`, the others are kept.
#[verifier::external_body]
fn set_bit_u32(value: &mut u32, bit: usize, set: bool)
    requires
        bit < 32,
    ensures
        *final(value) == if set {
            *old(value) | (1u32 << (bit as u32))
        } else {
            *old(value) & !(1u32 << (bit as u32))
        },
{
    value.set_bit(bit, set);
}

impl ConfigAddr {
    /// The address of register `reg_addr` of function `function` of device
    /// `device` on bus `bus`.
    pub fn new(bus: u8, device: u8, function: u8, reg_addr: u8) -> (r: Self)
        requires
            reg_addr % 4 == 0,
            device < 32,
            function < 8,
        ensures
            r.0 == config_address_value(bus, device, function, reg_addr),
    {
        let ghost (b, d, f, g) = (bus as u32, device as u32, function as u32, reg_addr as u32);
        assert(g >> 8u32 == 0 && f >> 3u32 == 0 && d >> 5u32 == 0 && b >> 8u32 == 0) by (bit_vector)
            requires
                b < 256,
                d < 32,
                f < 8,
                g < 256,
        ;
        let mut value = 0u32;
        set_bits_u32(&mut value, 0, 8, reg_addr as u32);
        set_bits_u32(&mut value, 8, 11, function as u32);
        set_bits_u32(&mut value, 11, 16, device as u32);
        set_bits_u32(&mut value, 16, 24, bus as u32);
        set_bit_u32(&mut value, 31, true);
        assert(value == config_address_value(bus, device, function, reg_addr)) by (bit_vector)
            requires
                b < 256,
                d < 32,
                f < 8,
                g < 256,
                value == ((((((((0u32 & !field_mask(0, 8)) | (g << 0u32)) & !field_mask(8, 11)) | (f << 8u32))
                    & !field_mask(11, 16)) | (d << 11u32)) & !field_mask(16, 24)) | (b << 16u32)) | (1u32
                    << 31u32),
                config_address_value(bus, device, function, reg_addr) == 0x8000_0000u32 | (b << 16u32) | (d
                    << 11u32) | (f << 8u32) | g,
        ;
        Self(value)
    }
}

/// The class code of a PCI function.
#[derive(Debug, Clone, Copy, PartialEq, Eq, Structural)]
pub struct ClassCode {
    pub base: u8,
    pub sub: u8,
    pub interface: u8,
}

impl ClassCode {
    pub fn test3(&self, base: u8, sub: u8, interface: u8) -> (r: bool)
        ensures
            r == (self.interface == interface && self.sub == sub && self.base == base),
    {
        self.interface == interface && self.test2(base, sub)
    }

    pub fn test2(&self, base: u8, sub: u8) -> (r: bool)
        ensures
            r == (self.sub == sub && self.base == base),
    {
        self.sub == sub && self.test1(base)
    }

    pub fn test1(&self, base: u8) -> (r: bool)
        ensures
            r == (self.base == base),
    {
        self.base == base
    }
}

/// A PCI function found on a bus.
#[derive(Debug, Clone, Copy, PartialEq, Eq, Structural)]
pub struct Device {
    pub bus: u8,
    pub device: u8,
    pub function: u8,
    pub vender_id: u16,
    pub class_code: ClassCode,
    pub header_type: u8,
}

impl Device {
    /// The device and function numbers fit the configuration address.
    pub open spec fn addressable(&self) -> bool {
        self.device < 32 && self.function < 8
    }

    /// The configuration address of register `reg_addr` of this function.
    pub fn addr(&self, reg_addr: u8) -> (r: ConfigAddr)
        requires
            self.addressable(),
            reg_addr % 4 == 0,
        ensures
            r.0 == config_address_value(self.bus, self.device, self.function, reg_addr),
    {
        ConfigAddr::new(self.bus, self.device, self.function, reg_addr)
    }
}

proof fn lemma_masked_fits(x: u32)
    by (bit_vector)
    ensures
        x & 0xff < 256,
        x & 0xffff < 65536,
        (x >> 8u32) & 0xff < 256,
        (x >> 16u32) & 0xff < 256,
        (x >> 24u32) & 0xff < 256,
{
}

/// The vendor id in the value of configuration register 0x00.
pub fn read_vender_id(reg: u32) -> (r: u16)
    ensures
        r as u32 == reg & 0xffff,
{
    proof {
        lemma_masked_fits(reg);
    }
    (reg & 0xffff) as u16
}

/// The header type in the value of configuration register 0x0c.
pub fn read_header_type(reg: u32) -> (r: u8)
    ensures
        r as u32 == (reg >> 16u32) & 0xff,
{
    proof {
        lemma_masked_fits(reg);
    }
    ((reg >> 16) & 0xff) as u8
}

/// The class code in the value of its configuration register.
pub fn read_class_code(reg: u32) -> (r: ClassCode)
    ensures
        r.base as u32 == (reg >> 24u32) & 0xff,
        r.sub as u32 == (reg >> 16u32) & 0xff,
        r.interface as u32 == (reg >> 8u32) & 0xff,
{
    proof {
        lemma_masked_fits(reg);
    }
    ClassCode {
        base: ((reg >> 24) & 0xff) as u8,
        sub: ((reg >> 16) & 0xff) as u8,
        interface: ((reg >> 8) & 0xff) as u8,
    }
}

/// A device whose header type has bit 7 clear has a single function.
pub fn is_single_function_device(header_type: u8) -> (r: bool)
    ensures
        r == (header_type & 0x80 == 0),
{
    (header_type & 0x80) == 0
}

/// The configuration register of base address register `bar_index`.
pub fn calc_bar_addr(bar_index: u8) -> (r: u8)
    requires
        0x10 + 4 * bar_index <= u8::MAX,
    ensures
        r == 0x10 + 4 * bar_index,
{
    0x10 + 4 * bar_index
}

/// The configuration address of register `reg` of function `f` of device
/// `d` on bus `b`.
pub open spec fn addr_of(b: u8, d: u8, f: u8, reg: u8) -> ConfigAddr {
    ConfigAddr(config_address_value(b, d, f, reg))
}

#[verifier::external_type_specification]
#[verifier::external_body]
#[verifier::reject_recursive_types(T)]
pub struct ExArrayVec<T, const CAP: usize>(ArrayVec<T, CAP>);

#[verifier::external_type_specification]
#[verifier::external_body]
#[verifier::reject_recursive_types(T)]
pub struct ExCapacityError<T>(CapacityError<T>);

/// The devices an `ArrayVec` of capacity 32 holds, in order.
pub uninterp spec fn devices_of(v: ArrayVec<Device, 32>) -> Seq<Device>;

/// An empty list, from `arrayvec::ArrayVec::new`.
#[verifier::external_body]
fn new_devices() -> (r: ArrayVec<Device, 32>)
    ensures
        devices_of(r) == Seq::<Device>::empty(),
{
    ArrayVec::new()
}

/// `arrayvec::ArrayVec::try_push`: with fewer than 32 devices held, the
/// device is appended; with 32, it comes back in the error and the list is
/// left as it was. The list never holds more than 32.
#[verifier::external_body]
fn try_push_device(v: &mut ArrayVec<Device, 32>, d: Device) -> (r: Result<(), CapacityError<Device>>)
    ensures
        devices_of(*old(v)).len() < 32 ==> r is Ok && devices_of(*final(v)) == devices_of(*old(v)).push(d),
        devices_of(*old(v)).len() >= 32 ==> r is Err && devices_of(*final(v)) == devices_of(*old(v)),
        devices_of(*final(v)).len() <= 32,
{
    v.try_push(d)
}

/// What a scan asks of its driver next.
#[derive(Debug, Clone, Copy)]
pub enum ScanStep {
    /// Read this configuration register and hand its value to `step`.
    Read(ConfigAddr),
    /// The scan is over, with this outcome.
    Done(Result<(), Error>),
}

/// Where a scan resumes once a nested scan returns.
#[derive(Debug, Clone, Copy, PartialEq, Eq, Structural)]
pub enum ScanFrame {
    /// The whole scan, after bus 0 of a single-function host bridge.
    AllSingle,
    /// The whole scan, after root bus `bus`.
    AllLoop { bus: u8 },
    /// A bus scan, after device `device`.
    BusLoop { bus: u8, device: u8 },
    /// A device scan, after function 0.
    DevFirst { bus: u8, device: u8 },
    /// A device scan, after function `function`.
    DevLoop { bus: u8, device: u8, function: u8 },
    /// A function scan, after the bus behind a PCI-PCI bridge.
    FnBridge,
}

/// What the value handed to `step` is.
#[derive(Debug, Clone, Copy, PartialEq, Eq, Structural)]
pub enum ScanWait {
    /// Register 0x0c of 0:0.0.
    RootHeader,
    /// Register 0x00 of 0:0.`bus`.
    RootVendor { bus: u8 },
    /// Register 0x00 of function 0 of a device.
    BusVendor { bus: u8, device: u8 },
    /// Register 0x00 of a function being recorded.
    FnVendor { bus: u8, device: u8, function: u8 },
    /// Register 0x18 of a function being recorded, for its class code.
    FnClass { bus: u8, device: u8, function: u8, vender_id: u16 },
    /// Register 0x0c of a function being recorded.
    FnHeader { bus: u8, device: u8, function: u8, vender_id: u16, class_code: ClassCode },
    /// Register 0x18 of a PCI-PCI bridge, for its bus numbers.
    FnBusNumber { bus: u8, device: u8, function: u8 },
    /// Register 0x0c of function 0 of a device, for its header type.
    DevHeader { bus: u8, device: u8 },
    /// Register 0x00 of another function of a multi-function device.
    DevFnVendor { bus: u8, device: u8, function: u8 },
    /// Nothing: the scan is over.
    Finished,
}

/// What a scan holds: the devices found, the pending returns and what the
/// next value is.
pub struct ScanModel {
    pub devices: Seq<Device>,
    pub stack: Seq<ScanFrame>,
    pub wait: ScanWait,
}

/// The model with `wait` replaced.
pub open spec fn waiting(m: ScanModel, w: ScanWait) -> ScanModel {
    ScanModel { devices: m.devices, stack: m.stack, wait: w }
}

/// The model with a frame pushed.
pub open spec fn pushed(m: ScanModel, f: ScanFrame) -> ScanModel {
    ScanModel { devices: m.devices, stack: m.stack.push(f), wait: m.wait }
}

/// Root bus `bus` onwards of a multi-function host bridge: read the vendor
/// of 0:0.`bus` while `bus < 8`; past the last, the scan is over.
pub open spec fn after_root_bus(m: ScanModel, bus: int) -> (ScanModel, ScanStep) {
    if bus < 8 {
        (waiting(m, ScanWait::RootVendor { bus: bus as u8 }), ScanStep::Read(addr_of(0, 0, bus as u8, 0x00)))
    } else {
        (waiting(m, ScanWait::Finished), ScanStep::Done(Ok(())))
    }
}

/// The scan of a function starts with its vendor id.
pub open spec fn function_start(m: ScanModel, b: u8, d: u8, f: u8) -> (ScanModel, ScanStep) {
    (
        waiting(m, ScanWait::FnVendor { bus: b, device: d, function: f }),
        ScanStep::Read(addr_of(b, d, f, 0x00)),
    )
}

/// A nested scan returns `r` to the frame on top of the stack.
pub open spec fn after_return(m: ScanModel, r: Result<(), Error>) -> (ScanModel, ScanStep)
    decreases m.stack.len(), 0int,
{
    if m.stack.len() == 0 {
        (waiting(m, ScanWait::Finished), ScanStep::Done(r))
    } else {
        let m1 = ScanModel { devices: m.devices, stack: m.stack.drop_last(), wait: m.wait };
        match m.stack.last() {
            ScanFrame::AllSingle => (waiting(m1, ScanWait::Finished), ScanStep::Done(r)),
            ScanFrame::AllLoop { bus } => if r is Err {
                (waiting(m1, ScanWait::Finished), ScanStep::Done(r))
            } else {
                after_root_bus(m1, bus + 1)
            },
            ScanFrame::BusLoop { bus, device } => if r is Err {
                after_return(m1, r)
            } else {
                after_bus_device(m1, bus, device + 1)
            },
            ScanFrame::DevFirst { bus, device } => if r is Err {
                after_return(m1, r)
            } else {
                (
                    waiting(m1, ScanWait::DevHeader { bus, device }),
                    ScanStep::Read(addr_of(bus, device, 0, 0x0c)),
                )
            },
            ScanFrame::DevLoop { bus, device, function } => if r is Err {
                after_return(m1, r)
            } else {
                after_function(m1, bus, device, function + 1)
            },
            ScanFrame::FnBridge => after_return(m1, Ok(())),
        }
    }
}

/// Device `device` onwards of bus `bus`: read the vendor of its function 0
/// while `device < 32`; past the last, the bus scan returns success.
pub open spec fn after_bus_device(m: ScanModel, bus: u8, device: int) -> (ScanModel, ScanStep)
    decreases m.stack.len(), 1int,
{
    if device < 32 {
        (
            waiting(m, ScanWait::BusVendor { bus, device: device as u8 }),
            ScanStep::Read(addr_of(bus, device as u8, 0, 0x00)),
        )
    } else {
        after_return(m, Ok(()))
    }
}

/// Function `function` onwards of a multi-function device: read its vendor
/// while `function < 8`; past the last, the device scan returns success.
pub open spec fn after_function(m: ScanModel, bus: u8, device: u8, function: int) -> (ScanModel, ScanStep)
    decreases m.stack.len(), 1int,
{
    if function < 8 {
        (
            waiting(m, ScanWait::DevFnVendor { bus, device, function: function as u8 }),
            ScanStep::Read(addr_of(bus, device, function as u8, 0x00)),
        )
    } else {
        after_return(m, Ok(()))
    }
}

/// The vendor id in a register value.
pub open spec fn vendor_in(value: u32) -> u16 {
    (value & 0xffff) as u16
}

/// The header type in a register value.
pub open spec fn header_in(value: u32) -> u8 {
    ((value >> 16u32) & 0xff) as u8
}

/// The class code in a register value.
pub open spec fn class_in(value: u32) -> ClassCode {
    ClassCode {
        base: ((value >> 24u32) & 0xff) as u8,
        sub: ((value >> 16u32) & 0xff) as u8,
        interface: ((value >> 8u32) & 0xff) as u8,
    }
}

/// The scan after `value` is handed to it.
pub open spec fn after_value(m: ScanModel, value: u32) -> (ScanModel, ScanStep) {
    match m.wait {
        ScanWait::RootHeader => if header_in(value) & 0x80 == 0 {
            after_bus_device(pushed(m, ScanFrame::AllSingle), 0, 0)
        } else {
            after_root_bus(m, 0)
        },
        ScanWait::RootVendor { bus } => if vendor_in(value) == INVALID_VENDER_ID {
            after_root_bus(m, bus + 1)
        } else {
            after_bus_device(pushed(m, ScanFrame::AllLoop { bus }), bus, 0)
        },
        ScanWait::BusVendor { bus, device } => if vendor_in(value) == INVALID_VENDER_ID {
            after_bus_device(m, bus, device + 1)
        } else {
            function_start(
                pushed(pushed(m, ScanFrame::BusLoop { bus, device }), ScanFrame::DevFirst { bus, device }),
                bus,
                device,
                0,
            )
        },
        ScanWait::FnVendor { bus, device, function } => (
            waiting(m, ScanWait::FnClass { bus, device, function, vender_id: vendor_in(value) }),
            ScanStep::Read(addr_of(bus, device, function, 0x18)),
        ),
        ScanWait::FnClass { bus, device, function, vender_id } => (
            waiting(m, ScanWait::FnHeader { bus, device, function, vender_id, class_code: class_in(value) }),
            ScanStep::Read(addr_of(bus, device, function, 0x0c)),
        ),
        ScanWait::FnHeader { bus, device, function, vender_id, class_code } => {
            let dev = Device { bus, device, function, vender_id, class_code, header_type: header_in(value) };
            if m.devices.len() < 32 {
                let m1 = ScanModel { devices: m.devices.push(dev), stack: m.stack, wait: m.wait };
                if class_code.base == 0x06 && class_code.sub == 0x04 {
                    (
                        waiting(m1, ScanWait::FnBusNumber { bus, device, function }),
                        ScanStep::Read(addr_of(bus, device, function, 0x18)),
                    )
                } else {
                    after_return(m1, Ok(()))
                }
            } else {
                after_return(m, Err(Error { kind: ErrorKind::Full }))
            }
        },
        ScanWait::FnBusNumber { .. } => after_bus_device(
            pushed(m, ScanFrame::FnBridge),
            ((value >> 8u32) & 0xff) as u8,
            0,
        ),
        ScanWait::DevHeader { bus, device } => if header_in(value) & 0x80 == 0 {
            after_return(m, Ok(()))
        } else {
            after_function(m, bus, device, 1)
        },
        ScanWait::DevFnVendor { bus, device, function } => if vendor_in(value) == INVALID_VENDER_ID {
            after_function(m, bus, device, function + 1)
        } else {
            function_start(pushed(m, ScanFrame::DevLoop { bus, device, function }), bus, device, function)
        },
        ScanWait::Finished => (m, ScanStep::Done(Ok(()))),
    }
}

/// The frame's numbers lie in range.
pub open spec fn frame_ok(f: ScanFrame) -> bool {
    match f {
        ScanFrame::AllLoop { bus } => bus < 8,
        ScanFrame::BusLoop { device, .. } => device < 32,
        ScanFrame::DevFirst { device, .. } => device < 32,
        ScanFrame::DevLoop { device, function, .. } => device < 32 && function < 8,
        _ => true,
    }
}

/// The register awaited has numbers in range.
pub open spec fn wait_ok(w: ScanWait) -> bool {
    match w {
        ScanWait::RootVendor { bus } => bus < 8,
        ScanWait::BusVendor { device, .. } => device < 32,
        ScanWait::FnVendor { device, function, .. } => device < 32 && function < 8,
        ScanWait::FnClass { device, function, .. } => device < 32 && function < 8,
        ScanWait::FnHeader { device, function, .. } => device < 32 && function < 8,
        ScanWait::FnBusNumber { device, function, .. } => device < 32 && function < 8,
        ScanWait::DevHeader { device, .. } => device < 32,
        ScanWait::DevFnVendor { device, function, .. } => device < 32 && function < 8,
        _ => true,
    }
}

/// A scan holds at most 32 devices, each with an addressable device and
/// function number, and every number it keeps lies in range.
pub open spec fn scan_wf(m: ScanModel) -> bool {
    &&& m.devices.len() <= 32
    &&& forall|i: int| 0 <= i < m.devices.len() ==> (#[trigger] m.devices[i]).addressable()
    &&& forall|i: int| 0 <= i < m.stack.len() ==> frame_ok(#[trigger] m.stack[i])
    &&& wait_ok(m.wait)
}

/// A scan of the PCI buses, driven one configuration read at a time.
pub struct PciScan {
    devices: ArrayVec<Device, 32>,
    stack: Vec<ScanFrame>,
    wait: ScanWait,
}

impl PciScan {
    /// The devices found, the pending returns and what the next value is.
    pub closed spec fn model(&self) -> ScanModel {
        ScanModel { devices: devices_of(self.devices), stack: self.stack@, wait: self.wait }
    }

    /// Starts a scan of every bus: the first read is the header type of the
    /// host bridge 0:0.0.
    pub fn scan_all_bus() -> (r: (PciScan, ScanStep))
        ensures
            r.0.model().devices == Seq::<Device>::empty(),
            r.0.model().stack == Seq::<ScanFrame>::empty(),
            r.0.model().wait == ScanWait::RootHeader,
            r.1 == ScanStep::Read(addr_of(0, 0, 0, 0x0c)),
            scan_wf(r.0.model()),
    {
        let scan = PciScan { devices: new_devices(), stack: Vec::new(), wait: ScanWait::RootHeader };
        (scan, ScanStep::Read(ConfigAddr::new(0, 0, 0, 0x0c)))
    }

    /// Root bus `bus` onwards.
    fn continue_root(&mut self, bus: u8) -> (step: ScanStep)
        requires
            scan_wf(old(self).model()),
            bus <= 8,
        ensures
            scan_wf(final(self).model()),
            final(self).model().devices == old(self).model().devices,
            (final(self).model(), step) == after_root_bus(old(self).model(), bus as int),
    {
        proof {
            assert(old(self).model().stack == self.stack@);
        }
        if bus < 8 {
            self.wait = ScanWait::RootVendor { bus };
            ScanStep::Read(ConfigAddr::new(0, 0, bus, 0x00))
        } else {
            self.wait = ScanWait::Finished;
            ScanStep::Done(Ok(()))
        }
    }

    /// Starts the scan of bus `bus` at device 0.
    pub fn scan_bus(&mut self, bus: u8) -> (step: ScanStep)
        requires
            scan_wf(old(self).model()),
        ensures
            scan_wf(final(self).model()),
            final(self).model().devices == old(self).model().devices,
            (final(self).model(), step) == after_bus_device(old(self).model(), bus, 0),
    {
        self.continue_bus(bus, 0)
    }

    /// Device `device` onwards of bus `bus`.
    fn continue_bus(&mut self, bus: u8, device: u8) -> (step: ScanStep)
        requires
            scan_wf(old(self).model()),
            device <= 32,
        ensures
            scan_wf(final(self).model()),
            final(self).model().devices == old(self).model().devices,
            (final(self).model(), step) == after_bus_device(old(self).model(), bus, device as int),
        decreases old(self).model().stack.len(), 1int,
    {
        if device < 32 {
            self.wait = ScanWait::BusVendor { bus, device };
            ScanStep::Read(ConfigAddr::new(bus, device, 0, 0x00))
        } else {
            self.finish_call(Ok(()))
        }
    }

    /// Starts the scan of device `device` on bus `bus` with its function 0.
    pub fn scan_device(&mut self, bus: u8, device: u8) -> (step: ScanStep)
        requires
            scan_wf(old(self).model()),
            device < 32,
        ensures
            scan_wf(final(self).model()),
            final(self).model().devices == old(self).model().devices,
            (final(self).model(), step) == function_start(
                pushed(old(self).model(), ScanFrame::DevFirst { bus, device }),
                bus,
                device,
                0,
            ),
    {
        self.stack.push(ScanFrame::DevFirst { bus, device });
        self.scan_function(bus, device, 0)
    }

    /// Function `function` onwards of a multi-function device.
    fn continue_device(&mut self, bus: u8, device: u8, function: u8) -> (step: ScanStep)
        requires
            scan_wf(old(self).model()),
            device < 32,
            function <= 8,
        ensures
            scan_wf(final(self).model()),
            final(self).model().devices == old(self).model().devices,
            (final(self).model(), step) == after_function(old(self).model(), bus, device, function as int),
        decreases old(self).model().stack.len(), 1int,
    {
        if function < 8 {
            self.wait = ScanWait::DevFnVendor { bus, device, function };
            ScanStep::Read(ConfigAddr::new(bus, device, function, 0x00))
        } else {
            self.finish_call(Ok(()))
        }
    }

    /// Starts recording function `function` of device `device` on bus `bus`.
    pub fn scan_function(&mut self, bus: u8, device: u8, function: u8) -> (step: ScanStep)
        requires
            scan_wf(old(self).model()),
            device < 32,
            function < 8,
        ensures
            scan_wf(final(self).model()),
            final(self).model().devices == old(self).model().devices,
            (final(self).model(), step) == function_start(old(self).model(), bus, device, function),
    {
        proof {
            assert(old(self).model().stack == self.stack@);
        }
        self.wait = ScanWait::FnVendor { bus, device, function };
        ScanStep::Read(ConfigAddr::new(bus, device, function, 0x00))
    }

    /// Returns `r` from the nested scan that just ended to the frame that
    /// started it.
    fn finish_call(&mut self, r: Result<(), Error>) -> (step: ScanStep)
        requires
            scan_wf(old(self).model()),
        ensures
            scan_wf(final(self).model()),
            final(self).model().devices == old(self).model().devices,
            (final(self).model(), step) == after_return(old(self).model(), r),
        decreases old(self).model().stack.len(), 0int,
    {
        let ghost m = self.model();
        match self.stack.pop() {
            None => {
                self.wait = ScanWait::Finished;
                ScanStep::Done(r)
            },
            Some(frame) => {
                proof {
                    assert(frame_ok(m.stack[m.stack.len() - 1]));
                    assert(self.model().stack =~= m.stack.drop_last());
                }
                match frame {
                    ScanFrame::AllSingle => {
                        self.wait = ScanWait::Finished;
                        ScanStep::Done(r)
                    },
                    ScanFrame::AllLoop { bus } => {
                        if r.is_err() {
                            self.wait = ScanWait::Finished;
                            ScanStep::Done(r)
                        } else {
                            self.continue_root(bus + 1)
                        }
                    },
                    ScanFrame::BusLoop { bus, device } => {
                        if r.is_err() {
                            self.finish_call(r)
                        } else {
                            self.continue_bus(bus, device + 1)
                        }
                    },
                    ScanFrame::DevFirst { bus, device } => {
                        if r.is_err() {
                            self.finish_call(r)
                        } else {
                            self.wait = ScanWait::DevHeader { bus, device };
                            ScanStep::Read(ConfigAddr::new(bus, device, 0, 0x0c))
                        }
                    },
                    ScanFrame::DevLoop { bus, device, function } => {
                        if r.is_err() {
                            self.finish_call(r)
                        } else {
                            self.continue_device(bus, device, function + 1)
                        }
                    },
                    ScanFrame::FnBridge => self.finish_call(Ok(())),
                }
            },
        }
    }

    /// Takes the value of the register the last step asked for, and gives
    /// the next register to read, or the outcome when the scan is over.
    pub fn step(&mut self, value: u32) -> (step: ScanStep)
        requires
            scan_wf(old(self).model()),
        ensures
            scan_wf(final(self).model()),
            (final(self).model(), step) == after_value(old(self).model(), value),
            old(self).model().devices.is_prefix_of(final(self).model().devices),
    {
        proof {
            assert(old(self).model().stack == self.stack@);
        }
        match self.wait {
            ScanWait::RootHeader => {
                let header_type = read_header_type(value);
                if is_single_function_device(header_type) {
                    self.stack.push(ScanFrame::AllSingle);
                    self.scan_bus(0)
                } else {
                    self.continue_root(0)
                }
            },
            ScanWait::RootVendor { bus } => {
                if read_vender_id(value) == INVALID_VENDER_ID {
                    self.continue_root(bus + 1)
                } else {
                    self.stack.push(ScanFrame::AllLoop { bus });
                    self.scan_bus(bus)
                }
            },
            ScanWait::BusVendor { bus, device } => {
                if read_vender_id(value) == INVALID_VENDER_ID {
                    self.continue_bus(bus, device + 1)
                } else {
                    self.stack.push(ScanFrame::BusLoop { bus, device });
                    self.scan_device(bus, device)
                }
            },
            ScanWait::FnVendor { bus, device, function } => {
                let vender_id = read_vender_id(value);
                self.wait = ScanWait::FnClass { bus, device, function, vender_id };
                ScanStep::Read(ConfigAddr::new(bus, device, function, 0x18))
            },
            ScanWait::FnClass { bus, device, function, vender_id } => {
                let class_code = read_class_code(value);
                self.wait = ScanWait::FnHeader { bus, device, function, vender_id, class_code };
                ScanStep::Read(ConfigAddr::new(bus, device, function, 0x0c))
            },
            ScanWait::FnHeader { bus, device, function, vender_id, class_code } => {
                let header_type = read_header_type(value);
                let dev = Device { bus, device, function, vender_id, class_code, header_type };
                match try_push_device(&mut self.devices, dev) {
                    Err(_) => self.finish_call(Err(Error::new(ErrorKind::Full))),
                    Ok(()) => {
                        proof {
                            assert(self.model().devices == old(self).model().devices.push(dev));
                            assert(forall|i: int|
                                0 <= i < self.model().devices.len() ==> (#[trigger] self.model().devices[i]).addressable()) by {
                                assert(forall|i: int|
                                    0 <= i < old(self).model().devices.len() ==> (#[trigger] old(self).model().devices[i]).addressable());
                            }
                        }
                        if class_code.base == 0x06 && class_code.sub == 0x04 {
                            self.wait = ScanWait::FnBusNumber { bus, device, function };
                            ScanStep::Read(ConfigAddr::new(bus, device, function, 0x18))
                        } else {
                            self.finish_call(Ok(()))
                        }
                    },
                }
            },
            ScanWait::FnBusNumber { .. } => {
                let bus_numbers = value;
                let secondary_bus = ((bus_numbers >> 8) & 0xff) as u8;
                self.stack.push(ScanFrame::FnBridge);
                self.scan_bus(secondary_bus)
            },
            ScanWait::DevHeader { bus, device } => {
                if is_single_function_device(read_header_type(value)) {
                    self.finish_call(Ok(()))
                } else {
                    self.continue_device(bus, device, 1)
                }
            },
            ScanWait::DevFnVendor { bus, device, function } => {
                if read_vender_id(value) == INVALID_VENDER_ID {
                    self.continue_device(bus, device, function + 1)
                } else {
                    self.stack.push(ScanFrame::DevLoop { bus, device, function });
                    self.scan_function(bus, device, function)
                }
            },
            ScanWait::Finished => ScanStep::Done(Ok(())),
        }
    }

    /// The devices found.
    pub fn into_devices(self) -> (r: ArrayVec<Device, 32>)
        ensures
            devices_of(r) == self.model().devices,
    {
        self.devices
    }
}

/// What a base address register read asks of its driver next.
#[derive(Debug, Clone, Copy)]
pub enum BarStep {
    /// Read this configuration register and hand its value to `step`.
    Read(ConfigAddr),
    /// The read is over, with this outcome.
    Done(Result<u64, Error>),
}

/// The address a 64-bit base address register holds: the lower register
/// in bits 0..32, the upper one in bits 32..64.
pub open spec fn bar_value(lower: u32, upper: u32) -> u64 {
    (lower as u64) | ((upper as u64) << 32u64)
}

/// A 64-bit address holds the lower register in bits 0..32 and the upper
/// one in bits 32..64: it reads back both halves and is worth
/// `lower + upper * 2^32`.
pub proof fn lemma_bar_value_halves(lower: u32, upper: u32)
    ensures
        bar_value(lower, upper) >> 32u64 == upper as u64,
        bar_value(lower, upper) & 0xffff_ffffu64 == lower as u64,
        bar_value(lower, upper) == lower as int + upper as int * 0x1_0000_0000,
{
    let lo = lower as u64;
    let up = upper as u64;
    assert((lo | (up << 32u64)) >> 32u64 == up && (lo | (up << 32u64)) & 0xffff_ffffu64 == lo
        && (lo | (up << 32u64)) == lo + up * 0x1_0000_0000u64) by (bit_vector)
        requires
            lo < 0x1_0000_0000u64,
            up < 0x1_0000_0000u64,
    ;
}

/// A read of base address register `bar_index` of a device, in progress.
pub struct BarRead {
    dev: Device,
    bar_index: u8,
    lower: Option<u32>,
}

/// Starts reading base address register `bar_index` of `dev`: fails with
/// `IndexOutofRange` past the sixth register, else asks for the register.
pub fn read_bar(dev: &Device, bar_index: u8) -> (r: (BarRead, BarStep))
    requires
        bar_index < 6 ==> dev.addressable(),
    ensures
        r.0.device() == *dev,
        r.0.index() == bar_index,
        r.0.lower() is None,
        bar_index >= 6 ==> r.1 == BarStep::Done(Err(Error { kind: ErrorKind::IndexOutofRange })),
        bar_index < 6 ==> r.1 == BarStep::Read(addr_of(dev.bus, dev.device, dev.function, (0x10 + 4 * bar_index) as u8)),
{
    let reader = BarRead { dev: *dev, bar_index, lower: None };
    if bar_index >= 6 {
        return (reader, BarStep::Done(Err(Error::new(ErrorKind::IndexOutofRange))));
    }
    let addr = calc_bar_addr(bar_index);
    (reader, BarStep::Read(dev.addr(addr)))
}

impl BarRead {
    pub closed spec fn device(&self) -> Device {
        self.dev
    }

    pub closed spec fn index(&self) -> u8 {
        self.bar_index
    }

    /// The lower register, once it was read for a 64-bit address.
    pub closed spec fn lower(&self) -> Option<u32> {
        self.lower
    }

    /// Takes the value of the register the last step asked for. A lower
    /// register with bit 2 clear is a 32-bit address, the result. With bit 2
    /// set the address has 64 bits: the next register holds the upper half,
    /// unless this is the last register, which fails with `IndexOutofRange`.
    pub fn step(&mut self, value: u32) -> (r: BarStep)
        requires
            old(self).device().addressable(),
            old(self).index() < 6,
        ensures
            final(self).device() == old(self).device(),
            final(self).index() == old(self).index(),
            match old(self).lower() {
                None => if value & 4 == 0 {
                    &&& r == BarStep::Done(Ok(value as u64))
                    &&& final(self).lower() is None
                } else if old(self).index() >= 5 {
                    &&& r == BarStep::Done(Err(Error { kind: ErrorKind::IndexOutofRange }))
                    &&& final(self).lower() is None
                } else {
                    let d = old(self).device();
                    &&& r == BarStep::Read(addr_of(d.bus, d.device, d.function, (0x10 + 4 * old(self).index() + 4) as u8))
                    &&& final(self).lower() == Some(value)
                },
                Some(lo) => r == BarStep::Done(Ok(bar_value(lo, value))),
            },
            old(self).lower() matches Some(lo) ==> r matches BarStep::Done(Ok(v)) && v >> 32u64 == value as u64
                && v & 0xffff_ffffu64 == lo as u64 && v == lo as int + value as int * 0x1_0000_0000,
    {
        match self.lower {
            None => {
                let bar = value;
                if (bar & 4) == 0 {
                    return BarStep::Done(Ok(bar as u64));
                }
                if self.bar_index >= 5 {
                    return BarStep::Done(Err(Error::new(ErrorKind::IndexOutofRange)));
                }
                let addr = calc_bar_addr(self.bar_index);
                self.lower = Some(bar);
                BarStep::Read(self.dev.addr(addr + 4))
            },
            Some(bar) => {
                let bar_upper = value;
                proof {
                    lemma_bar_value_halves(bar, bar_upper);
                }
                BarStep::Done(Ok((bar as u64) | (bar_upper as u64) << 32))
            },
        }
    }
}

/// A class code as text: base, sub and interface as two hexadecimal
/// digits each, separated by dots.
pub open spec fn class_code_text(c: ClassCode) -> Seq<u8> {
    hex2(c.base) + ".".spec_bytes() + hex2(c.sub) + ".".spec_bytes() + hex2(c.interface)
}

impl ClassCode {
    /// The class code as text, such as `0c.03.30`.
    pub fn fmt(&self) -> (r: Vec<u8>)
        ensures
            r@ == class_code_text(*self),
    {
        let mut out: Vec<u8> = Vec::new();
        push_hex2(&mut out, self.base);
        push_bytes(&mut out, ".".as_bytes());
        push_hex2(&mut out, self.sub);
        push_bytes(&mut out, ".".as_bytes());
        push_hex2(&mut out, self.interface);
        out
    }
}

impl Device {
    /// The device as text: `bus.device.function: vend vvvv, class cc.ss.ii,
    /// head hh`, the numbers in decimal, the others in hexadecimal.
    pub fn fmt(&self) -> (r: Vec<u8>)
        ensures
            r@ == decimal(self.bus as nat) + ".".spec_bytes() + decimal(self.device as nat) + ".".spec_bytes()
                + decimal(self.function as nat) + ": vend ".spec_bytes() + hex4(self.vender_id)
                + ", class ".spec_bytes() + class_code_text(self.class_code) + ", head ".spec_bytes() + hex2(
                self.header_type,
            ),
    {
        let mut out: Vec<u8> = Vec::new();
        push_decimal(&mut out, self.bus as u64);
        push_bytes(&mut out, ".".as_bytes());
        push_decimal(&mut out, self.device as u64);
        push_bytes(&mut out, ".".as_bytes());
        push_decimal(&mut out, self.function as u64);
        push_bytes(&mut out, ": vend ".as_bytes());
        push_hex4(&mut out, self.vender_id);
        push_bytes(&mut out, ", class ".as_bytes());
        let class = self.class_code.fmt();
        push_bytes(&mut out, class.as_slice());
        push_bytes(&mut out, ", head ".as_bytes());
        push_hex2(&mut out, self.header_type);
        out
    }
}

} // verus!
