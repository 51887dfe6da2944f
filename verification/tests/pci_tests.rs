use std::collections::HashMap;

use deepcis_os::error::ErrorKind;
use deepcis_os::pci::{
    calc_bar_addr, is_single_function_device, read_bar, read_class_code, read_header_type, read_vender_id,
    BarStep, ClassCode, ConfigAddr, Device, PciScan, ScanStep,
};

#[test]
fn config_addr_layout() {
    assert_eq!(ConfigAddr::new(0, 0, 0, 0).0, 0x8000_0000);
    assert_eq!(ConfigAddr::new(1, 2, 3, 0x0c).0, 0x8000_0000 | (1 << 16) | (2 << 11) | (3 << 8) | 0x0c);
    assert_eq!(ConfigAddr::new(255, 31, 7, 0xfc).0, 0x80ff_fffc);
}

#[test]
fn class_code_tests() {
    let c = ClassCode { base: 0x0c, sub: 0x03, interface: 0x30 };
    assert!(c.test1(0x0c));
    assert!(!c.test1(0x06));
    assert!(c.test2(0x0c, 0x03));
    assert!(!c.test2(0x0c, 0x04));
    assert!(c.test3(0x0c, 0x03, 0x30));
    assert!(!c.test3(0x0c, 0x03, 0x20));
}

#[test]
fn register_decoding() {
    assert_eq!(read_vender_id(0x1234_8086), 0x8086);
    assert_eq!(read_header_type(0x0080_0000), 0x80);
    assert_eq!(read_header_type(0x12ab_3456), 0xab);
    assert_eq!(read_class_code(0x0c03_3000), ClassCode { base: 0x0c, sub: 0x03, interface: 0x30 });
    assert!(is_single_function_device(0x00));
    assert!(is_single_function_device(0x7f));
    assert!(!is_single_function_device(0x80));
    assert_eq!(calc_bar_addr(0), 0x10);
    assert_eq!(calc_bar_addr(5), 0x24);
}

#[test]
fn device_addr() {
    let d = Device {
        bus: 2,
        device: 5,
        function: 1,
        vender_id: 0x8086,
        class_code: ClassCode { base: 1, sub: 2, interface: 3 },
        header_type: 0,
    };
    assert_eq!(d.addr(0x10), ConfigAddr::new(2, 5, 1, 0x10));
}

/// A configuration space: absent registers read as all ones.
struct Space(HashMap<u32, u32>);

impl Space {
    fn new() -> Self {
        Space(HashMap::new())
    }

    fn set(&mut self, b: u8, d: u8, f: u8, reg: u8, v: u32) {
        self.0.insert(ConfigAddr::new(b, d, f, reg).0, v);
    }

    /// A function with a vendor id, a class code and a header type.
    fn function(&mut self, b: u8, d: u8, f: u8, vendor: u16, class: (u8, u8, u8), header: u8) {
        self.set(b, d, f, 0x00, vendor as u32);
        let class_reg = ((class.0 as u32) << 24) | ((class.1 as u32) << 16) | ((class.2 as u32) << 8);
        // the scan reads the class code and the bus numbers from the same register
        let old = *self.0.get(&ConfigAddr::new(b, d, f, 0x18).0).unwrap_or(&0);
        self.set(b, d, f, 0x18, class_reg | (old & 0xffff));
        self.set(b, d, f, 0x0c, (header as u32) << 16);
    }

    fn read(&self, a: ConfigAddr) -> u32 {
        *self.0.get(&a.0).unwrap_or(&0xffff_ffff)
    }

    fn run(&self) -> (Result<(), deepcis_os::error::Error>, Vec<Device>, usize) {
        let (mut scan, mut step) = PciScan::scan_all_bus();
        let mut reads = 0;
        loop {
            match step {
                ScanStep::Read(a) => {
                    reads += 1;
                    assert!(reads < 100_000);
                    step = scan.step(self.read(a));
                },
                ScanStep::Done(r) => {
                    let devices = scan.into_devices().to_vec();
                    return (r, devices, reads);
                },
            }
        }
    }
}

fn bdf(d: &Device) -> (u8, u8, u8) {
    (d.bus, d.device, d.function)
}

#[test]
fn scan_single_function_host_bridge() {
    let mut s = Space::new();
    s.function(0, 0, 0, 0x8086, (0x06, 0x00, 0x00), 0x00);
    s.function(0, 3, 0, 0x1234, (0x03, 0x00, 0x00), 0x00);
    s.function(0, 4, 0, 0x1af4, (0x01, 0x06, 0x01), 0x80);
    s.function(0, 4, 2, 0x1af4, (0x0c, 0x03, 0x30), 0x00);
    let (r, devices, _) = s.run();
    assert!(r.is_ok());
    let found: Vec<_> = devices.iter().map(bdf).collect();
    assert_eq!(found, vec![(0, 0, 0), (0, 3, 0), (0, 4, 0), (0, 4, 2)]);
    assert_eq!(devices[1].vender_id, 0x1234);
    assert_eq!(devices[3].class_code, ClassCode { base: 0x0c, sub: 0x03, interface: 0x30 });
    assert_eq!(devices[2].header_type, 0x80);
}

#[test]
fn scan_follows_pci_bridges() {
    let mut s = Space::new();
    s.function(0, 0, 0, 0x8086, (0x06, 0x00, 0x00), 0x00);
    s.function(0, 1, 0, 0x8086, (0x06, 0x04, 0x00), 0x01);
    // secondary bus 3 in bits 8..16 of register 0x18
    let v = s.read(ConfigAddr::new(0, 1, 0, 0x18));
    s.set(0, 1, 0, 0x18, (v & 0xffff_0000) | (3 << 8));
    s.function(3, 0, 0, 0x10ec, (0x02, 0x00, 0x00), 0x00);
    s.function(0, 2, 0, 0x1234, (0x03, 0x00, 0x00), 0x00);
    let (r, devices, _) = s.run();
    assert!(r.is_ok());
    let found: Vec<_> = devices.iter().map(bdf).collect();
    assert_eq!(found, vec![(0, 0, 0), (0, 1, 0), (3, 0, 0), (0, 2, 0)]);
}

#[test]
fn scan_of_a_multi_function_host_bridge_walks_root_buses() {
    let mut s = Space::new();
    // 0:0.0 is multi-function: buses 0 and 2 have host bridges
    s.function(0, 0, 0, 0x8086, (0x06, 0x00, 0x00), 0x80);
    s.function(0, 0, 2, 0x8086, (0x06, 0x00, 0x00), 0x00);
    s.function(2, 5, 0, 0x1234, (0x03, 0x00, 0x00), 0x00);
    let (r, devices, _) = s.run();
    assert!(r.is_ok());
    let found: Vec<_> = devices.iter().map(bdf).collect();
    assert_eq!(found, vec![(0, 0, 0), (0, 0, 2), (2, 5, 0)]);
}

#[test]
fn scan_fails_when_the_list_is_full() {
    let mut s = Space::new();
    s.function(0, 0, 0, 0x8086, (0x06, 0x00, 0x00), 0x80);
    for d in 0..32u8 {
        for f in 0..8u8 {
            s.function(0, d, f, 0x1000 + d as u16, (0x01, 0x00, 0x00), 0x80);
        }
    }
    s.function(0, 0, 0, 0x8086, (0x06, 0x00, 0x00), 0x80);
    let (r, devices, _) = s.run();
    assert_eq!(r.unwrap_err().kind, ErrorKind::Full);
    assert_eq!(devices.len(), 32);
    assert_eq!(bdf(&devices[31]), (0, 3, 7));
}

#[test]
fn scan_of_an_empty_space_finds_only_what_is_read() {
    let s = Space::new();
    let (r, devices, reads) = s.run();
    // all ones: multi-function host bridge, no root bus answers
    assert!(r.is_ok());
    assert!(devices.is_empty());
    assert_eq!(reads, 1 + 8);
}

fn dev() -> Device {
    Device { bus: 0, device: 2, function: 0, vender_id: 1, class_code: ClassCode { base: 0, sub: 0, interface: 0 }, header_type: 0 }
}

#[test]
fn bar_of_32_bits() {
    let (mut r, step) = read_bar(&dev(), 1);
    match step {
        BarStep::Read(a) => assert_eq!(a, ConfigAddr::new(0, 2, 0, 0x14)),
        BarStep::Done(_) => panic!("a read is needed"),
    }
    match r.step(0xfebf_0000) {
        BarStep::Done(Ok(v)) => assert_eq!(v, 0xfebf_0000),
        _ => panic!("a 32-bit address is complete"),
    }
}

#[test]
fn bar_of_64_bits_reads_the_upper_half() {
    let (mut r, _) = read_bar(&dev(), 0);
    match r.step(0xfe00_000c) {
        BarStep::Read(a) => assert_eq!(a, ConfigAddr::new(0, 2, 0, 0x14)),
        _ => panic!("the upper half is needed"),
    }
    match r.step(0x0000_0001) {
        BarStep::Done(Ok(v)) => assert_eq!(v, 0x0000_0001_fe00_000c),
        _ => panic!("the address is complete"),
    }
}

#[test]
fn bar_index_out_of_range_needs_no_address() {
    let far = Device { device: 40, function: 9, ..dev() };
    match read_bar(&far, 6).1 {
        BarStep::Done(Err(e)) => assert_eq!(e.kind, ErrorKind::IndexOutofRange),
        _ => panic!("index 6 does not exist"),
    }
}

#[test]
fn bar_index_out_of_range() {
    match read_bar(&dev(), 6).1 {
        BarStep::Done(Err(e)) => assert_eq!(e.kind, ErrorKind::IndexOutofRange),
        _ => panic!("index 6 does not exist"),
    }
    let (mut r, _) = read_bar(&dev(), 5);
    match r.step(0x4) {
        BarStep::Done(Err(e)) => assert_eq!(e.kind, ErrorKind::IndexOutofRange),
        _ => panic!("a 64-bit address cannot start in the last register"),
    }
}

#[test]
fn class_code_and_device_as_text() {
    let c = ClassCode { base: 0x0c, sub: 0x03, interface: 0x30 };
    assert_eq!(c.fmt(), b"0c.03.30".to_vec());
    let d = Device { bus: 0, device: 31, function: 3, vender_id: 0x8086, class_code: c, header_type: 0x80 };
    assert_eq!(d.fmt(), b"0.31.3: vend 8086, class 0c.03.30, head 80".to_vec());
}
