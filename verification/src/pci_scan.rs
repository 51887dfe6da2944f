use vstd::prelude::*;
use crate::error::{Error, ErrorKind};
use crate::pci::{
    addr_of, after_bus_device, after_function, after_return, after_root_bus, after_value, class_in,
    function_start, header_in, pushed, vendor_in, waiting, ClassCode, Device, ScanFrame, ScanModel,
    ScanStep, ScanWait, INVALID_VENDER_ID,
};

verus! {

/// The value of the configuration register at address `a` of a
/// configuration space `cfg`.
pub open spec fn reg(cfg: spec_fn(u32) -> u32, b: u8, d: u8, f: u8, r: u8) -> u32 {
    cfg(addr_of(b, d, f, r).0)
}

/// Function `f` of device `d` on bus `b` answers: its vendor id is valid.
pub open spec fn present(cfg: spec_fn(u32) -> u32, b: u8, d: u8, f: u8) -> bool {
    vendor_in(reg(cfg, b, d, f, 0x00)) != INVALID_VENDER_ID
}

/// Function 0 of device `d` on bus `b` says the device has one function.
pub open spec fn single_function(cfg: spec_fn(u32) -> u32, b: u8, d: u8) -> bool {
    header_in(reg(cfg, b, d, 0, 0x0c)) & 0x80 == 0
}

/// The class code a scan reads for a function.
pub open spec fn class_at(cfg: spec_fn(u32) -> u32, b: u8, d: u8, f: u8) -> ClassCode {
    class_in(reg(cfg, b, d, f, 0x18))
}

/// A function is a PCI-PCI bridge.
pub open spec fn bridge_at(cfg: spec_fn(u32) -> u32, b: u8, d: u8, f: u8) -> bool {
    class_at(cfg, b, d, f).base == 0x06 && class_at(cfg, b, d, f).sub == 0x04
}

/// No function of device `d` on bus `b` is a PCI-PCI bridge.
pub open spec fn device_bridge_free(cfg: spec_fn(u32) -> u32, b: u8, d: u8) -> bool {
    forall|f: u8| !#[trigger] bridge_at(cfg, b, d, f)
}

/// No function on bus `b` is a PCI-PCI bridge.
pub open spec fn bus_bridge_free(cfg: spec_fn(u32) -> u32, b: u8) -> bool {
    forall|d: u8| #[trigger] device_bridge_free(cfg, b, d)
}

/// No function on a root bus that the root loop scans, from `bus` on, is a
/// PCI-PCI bridge.
pub open spec fn root_bridge_free(cfg: spec_fn(u32) -> u32, bus: int) -> bool {
    forall|r: u8| bus <= r < 8 && #[trigger] present(cfg, 0, 0, r) ==> bus_bridge_free(cfg, r)
}

/// No function on a bus that a whole scan reaches is a PCI-PCI bridge: bus
/// 0 behind a single-function host bridge, else the root buses that answer.
pub open spec fn scan_bridge_free(cfg: spec_fn(u32) -> u32) -> bool {
    if single_function(cfg, 0, 0) {
        bus_bridge_free(cfg, 0)
    } else {
        root_bridge_free(cfg, 0)
    }
}

/// The device a scan records for a function.
pub open spec fn record(cfg: spec_fn(u32) -> u32, b: u8, d: u8, f: u8) -> Device {
    Device {
        bus: b,
        device: d,
        function: f,
        vender_id: vendor_in(reg(cfg, b, d, f, 0x00)),
        class_code: class_at(cfg, b, d, f),
        header_type: header_in(reg(cfg, b, d, f, 0x0c)),
    }
}

/// The functions `f..8` of a multi-function device that answer, in order.
pub open spec fn functions_from(cfg: spec_fn(u32) -> u32, b: u8, d: u8, f: int) -> Seq<Device>
    decreases 8 - f,
{
    if f >= 8 {
        Seq::empty()
    } else {
        let here = if present(cfg, b, d, f as u8) {
            seq![record(cfg, b, d, f as u8)]
        } else {
            Seq::empty()
        };
        here + functions_from(cfg, b, d, f + 1)
    }
}

/// The functions a device scan records: function 0, then, for a
/// multi-function device, the other functions that answer.
pub open spec fn device_functions(cfg: spec_fn(u32) -> u32, b: u8, d: u8) -> Seq<Device> {
    seq![record(cfg, b, d, 0)] + if single_function(cfg, b, d) {
        Seq::empty()
    } else {
        functions_from(cfg, b, d, 1)
    }
}

/// The functions a bus scan records from device `d` on: those of every
/// device whose function 0 answers, device by device.
pub open spec fn bus_functions(cfg: spec_fn(u32) -> u32, b: u8, d: int) -> Seq<Device>
    decreases 32 - d,
{
    if d >= 32 {
        Seq::empty()
    } else {
        let here = if present(cfg, b, d as u8, 0) {
            device_functions(cfg, b, d as u8)
        } else {
            Seq::empty()
        };
        here + bus_functions(cfg, b, d + 1)
    }
}

/// The functions the root loop records from root bus `bus` on: bus `bus`
/// is scanned when function `bus` of the host bridge 0:0 answers.
pub open spec fn root_functions(cfg: spec_fn(u32) -> u32, bus: int) -> Seq<Device>
    decreases 8 - bus,
{
    if bus >= 8 {
        Seq::empty()
    } else {
        let here = if present(cfg, 0, 0, bus as u8) {
            bus_functions(cfg, bus as u8, 0)
        } else {
            Seq::empty()
        };
        here + root_functions(cfg, bus + 1)
    }
}

/// The functions a whole scan records: bus 0 alone behind a
/// single-function host bridge, else every root bus that answers.
pub open spec fn all_functions(cfg: spec_fn(u32) -> u32) -> Seq<Device> {
    if single_function(cfg, 0, 0) {
        bus_functions(cfg, 0, 0)
    } else {
        root_functions(cfg, 0)
    }
}

/// Recording the devices `added` after `devices` in a list of 32: all of
/// them and success when they fit, else the list filled up and `Full`.
pub open spec fn capped(devices: Seq<Device>, added: Seq<Device>) -> (Seq<Device>, Result<(), Error>) {
    if devices.len() + added.len() <= 32 {
        (devices + added, Ok(()))
    } else {
        ((devices + added).take(32), Err(Error { kind: ErrorKind::Full }))
    }
}

/// The scan after `n` more register values of `cfg` are handed to it, from
/// the model `m` that has asked for `s`; a finished scan stays as it is.
pub open spec fn run(cfg: spec_fn(u32) -> u32, m: ScanModel, s: ScanStep, n: nat) -> (ScanModel, ScanStep)
    decreases n,
{
    if n == 0 {
        (m, s)
    } else {
        match s {
            ScanStep::Read(a) => {
                let (m2, s2) = after_value(m, cfg(a.0));
                run(cfg, m2, s2, (n - 1) as nat)
            },
            ScanStep::Done(_) => (m, s),
        }
    }
}

/// The model with `devices` recorded, the stack of `m` and nothing awaited.
pub open spec fn returned_to(m: ScanModel, devices: Seq<Device>) -> ScanModel {
    ScanModel { devices, stack: m.stack, wait: ScanWait::Finished }
}

/// Handing over values in two runs is handing them over in one.
pub proof fn lemma_run_then_run(cfg: spec_fn(u32) -> u32, m: ScanModel, s: ScanStep, a: nat, b: nat)
    ensures
        run(cfg, run(cfg, m, s, a).0, run(cfg, m, s, a).1, b) == run(cfg, m, s, a + b),
    decreases a,
{
    if a > 0 {
        if let ScanStep::Read(x) = s {
            let (m2, s2) = after_value(m, cfg(x.0));
            lemma_run_then_run(cfg, m2, s2, (a - 1) as nat, b);
            assert((a + b - 1) as nat == (a - 1) as nat + b);
        } else {
            if b > 0 {
                assert(run(cfg, m, s, b) == (m, s));
            }
        }
    }
}

/// What a nested scan returns to depends on the devices and the stack
/// only, not on what the scan was waiting for.
pub proof fn lemma_return_ignores_wait(m: ScanModel, m2: ScanModel, r: Result<(), Error>)
    requires
        m.devices == m2.devices,
        m.stack == m2.stack,
    ensures
        after_return(m, r) == after_return(m2, r),
    decreases m.stack.len(),
{
    if m.stack.len() > 0 {
        let m1 = ScanModel { devices: m.devices, stack: m.stack.drop_last(), wait: m.wait };
        let n1 = ScanModel { devices: m2.devices, stack: m2.stack.drop_last(), wait: m2.wait };
        lemma_return_ignores_wait(m1, n1, r);
        lemma_return_ignores_wait(m1, n1, Ok(()));
        match m.stack.last() {
            ScanFrame::BusLoop { bus, device } => {
                assert(after_bus_device(m1, bus, device + 1) == after_bus_device(n1, bus, device + 1));
            },
            ScanFrame::DevLoop { bus, device, function } => {
                assert(after_function(m1, bus, device, function + 1) == after_function(n1, bus, device, function + 1));
            },
            ScanFrame::AllLoop { bus } => {
                assert(after_root_bus(m1, bus + 1) == after_root_bus(n1, bus + 1));
            },
            _ => {},
        }
    }
}

/// Adding devices in two parts is adding them at once; after a part that
/// did not fit, nothing more is added.
pub proof fn lemma_capped_append(d: Seq<Device>, a: Seq<Device>, b: Seq<Device>)
    requires
        d.len() <= 32,
    ensures
        capped(d, a + b) == (if capped(d, a).1 is Err {
            capped(d, a)
        } else {
            capped(capped(d, a).0, b)
        }),
{
    assert(d + (a + b) =~= (d + a) + b);
    if d.len() + a.len() > 32 {
        assert((d + (a + b)).take(32) =~= (d + a).take(32));
    }
}

/// Recording function `f` of device `d` on bus `b`, which is no bridge:
/// three values later the function returns, its device added when there
/// was room, else with `Full`.
pub proof fn lemma_function_scan(cfg: spec_fn(u32) -> u32, m: ScanModel, b: u8, d: u8, f: u8) -> (n: nat)
    requires
        m.devices.len() <= 32,
        !bridge_at(cfg, b, d, f),
    ensures
        ({
            let start = function_start(m, b, d, f);
            let c = capped(m.devices, seq![record(cfg, b, d, f)]);
            run(cfg, start.0, start.1, n) == after_return(returned_to(m, c.0), c.1)
        }),
{
    let dev = record(cfg, b, d, f);
    let start = function_start(m, b, d, f);
    let s1 = after_value(start.0, reg(cfg, b, d, f, 0x00));
    let s2 = after_value(s1.0, reg(cfg, b, d, f, 0x18));
    let s3 = after_value(s2.0, reg(cfg, b, d, f, 0x0c));
    assert(start.1 == ScanStep::Read(addr_of(b, d, f, 0x00)));
    assert(run(cfg, start.0, start.1, 3) == run(cfg, s1.0, s1.1, 2));
    assert(s1.1 == ScanStep::Read(addr_of(b, d, f, 0x18)));
    assert(run(cfg, s1.0, s1.1, 2) == run(cfg, s2.0, s2.1, 1));
    assert(s2.1 == ScanStep::Read(addr_of(b, d, f, 0x0c)));
    assert(run(cfg, s2.0, s2.1, 1) == run(cfg, s3.0, s3.1, 0));
    if m.devices.len() < 32 {
        let m1 = ScanModel { devices: m.devices.push(dev), stack: m.stack, wait: s2.0.wait };
        assert(s3 == after_return(m1, Ok(())));
        assert(m.devices + seq![dev] =~= m.devices.push(dev));
        lemma_return_ignores_wait(m1, returned_to(m, m.devices.push(dev)), Ok(()));
    } else {
        assert((m.devices + seq![dev]).take(32) =~= m.devices);
        lemma_return_ignores_wait(s2.0, returned_to(m, m.devices), Err(Error { kind: ErrorKind::Full }));
    }
    3
}

/// One value handed to a scan that asked for the register at `a`.
proof fn lemma_run_step(cfg: spec_fn(u32) -> u32, m: ScanModel, a: crate::pci::ConfigAddr, n: nat)
    ensures
        run(cfg, m, ScanStep::Read(a), n + 1) == run(
            cfg,
            after_value(m, cfg(a.0)).0,
            after_value(m, cfg(a.0)).1,
            n,
        ),
{
}

/// The function loop of a multi-function device, from function `f` on:
/// it returns once every function that answers is recorded, or at the
/// first one that does not fit.
pub proof fn lemma_functions_scan(cfg: spec_fn(u32) -> u32, m: ScanModel, b: u8, d: u8, f: int) -> (n: nat)
    requires
        m.devices.len() <= 32,
        device_bridge_free(cfg, b, d),
        0 <= f <= 8,
    ensures
        ({
            let s = after_function(m, b, d, f);
            let c = capped(m.devices, functions_from(cfg, b, d, f));
            run(cfg, s.0, s.1, n) == after_return(returned_to(m, c.0), c.1)
        }),
    decreases 8 - f,
{
    let rest = functions_from(cfg, b, d, f);
    if f >= 8 {
        assert(m.devices + rest =~= m.devices);
        lemma_return_ignores_wait(m, returned_to(m, m.devices), Ok(()));
        0
    } else {
        let fu = f as u8;
        let m0 = waiting(m, ScanWait::DevFnVendor { bus: b, device: d, function: fu });
        let a = addr_of(b, d, fu, 0x00);
        let next = functions_from(cfg, b, d, f + 1);
        assert(after_function(m, b, d, f) == (m0, ScanStep::Read(a)));
        assert(reg(cfg, b, d, fu, 0x00) == cfg(a.0));
        if !present(cfg, b, d, fu) {
            assert(after_value(m0, cfg(a.0)) == after_function(m0, b, d, f + 1));
            assert(rest =~= next);
            let n1 = lemma_functions_scan(cfg, m0, b, d, f + 1);
            lemma_run_step(cfg, m0, a, n1);
            n1 + 1
        } else {
            let dev = record(cfg, b, d, fu);
            assert(rest == seq![dev] + next);
            let mp = pushed(m0, ScanFrame::DevLoop { bus: b, device: d, function: fu });
            assert(!bridge_at(cfg, b, d, fu));
            let n1 = lemma_function_scan(cfg, mp, b, d, fu);
            let c1 = capped(m.devices, seq![dev]);
            lemma_capped_append(m.devices, seq![dev], next);
            let m1 = returned_to(m, c1.0);
            let st = function_start(mp, b, d, fu);
            assert(after_value(m0, cfg(a.0)) == st);
            assert(returned_to(mp, c1.0).stack.drop_last() =~= m.stack);
            assert(returned_to(mp, c1.0).stack.last() == ScanFrame::DevLoop { bus: b, device: d, function: fu });
            if c1.1 is Err {
                lemma_run_step(cfg, m0, a, n1);
                n1 + 1
            } else {
                let n2 = lemma_functions_scan(cfg, m1, b, d, f + 1);
                lemma_run_then_run(cfg, st.0, st.1, n1, n2);
                lemma_run_step(cfg, m0, a, n1 + n2);
                n1 + n2 + 1
            }
        }
    }
}

/// The scan of a device whose function 0 answers: it returns once the
/// device's functions are recorded, or at the first one that does not fit.
pub proof fn lemma_device_scan(cfg: spec_fn(u32) -> u32, m: ScanModel, b: u8, d: u8) -> (n: nat)
    requires
        m.devices.len() <= 32,
        device_bridge_free(cfg, b, d),
    ensures
        ({
            let start = function_start(pushed(m, ScanFrame::DevFirst { bus: b, device: d }), b, d, 0);
            let c = capped(m.devices, device_functions(cfg, b, d));
            run(cfg, start.0, start.1, n) == after_return(returned_to(m, c.0), c.1)
        }),
{
    let mp = pushed(m, ScanFrame::DevFirst { bus: b, device: d });
    let st = function_start(mp, b, d, 0);
    let dev = record(cfg, b, d, 0);
    assert(!bridge_at(cfg, b, d, 0));
    let n1 = lemma_function_scan(cfg, mp, b, d, 0);
    let c1 = capped(m.devices, seq![dev]);
    let more = if single_function(cfg, b, d) {
        Seq::<Device>::empty()
    } else {
        functions_from(cfg, b, d, 1)
    };
    assert(device_functions(cfg, b, d) == seq![dev] + more);
    lemma_capped_append(m.devices, seq![dev], more);
    let m1 = returned_to(m, c1.0);
    assert(returned_to(mp, c1.0).stack.drop_last() =~= m.stack);
    assert(returned_to(mp, c1.0).stack.last() == ScanFrame::DevFirst { bus: b, device: d });
    if c1.1 is Err {
        n1
    } else {
        let mh = waiting(m1, ScanWait::DevHeader { bus: b, device: d });
        let a = addr_of(b, d, 0, 0x0c);
        assert(after_return(returned_to(mp, c1.0), c1.1) == (mh, ScanStep::Read(a)));
        assert(reg(cfg, b, d, 0, 0x0c) == cfg(a.0));
        if single_function(cfg, b, d) {
            assert(after_value(mh, cfg(a.0)) == after_return(mh, Ok(())));
            assert(c1.0 + more =~= c1.0);
            lemma_return_ignores_wait(mh, m1, Ok(()));
            lemma_run_step(cfg, mh, a, 0);
            lemma_run_then_run(cfg, st.0, st.1, n1, 1);
            n1 + 1
        } else {
            assert(after_value(mh, cfg(a.0)) == after_function(mh, b, d, 1));
            let n2 = lemma_functions_scan(cfg, mh, b, d, 1);
            lemma_run_step(cfg, mh, a, n2);
            lemma_run_then_run(cfg, st.0, st.1, n1, n2 + 1);
            n1 + n2 + 1
        }
    }
}

/// The scan of bus `b` from device `d` on: it returns once the functions
/// of every device that answers are recorded, or at the first one that
/// does not fit.
pub proof fn lemma_bus_scan(cfg: spec_fn(u32) -> u32, m: ScanModel, b: u8, d: int) -> (n: nat)
    requires
        m.devices.len() <= 32,
        bus_bridge_free(cfg, b),
        0 <= d <= 32,
    ensures
        ({
            let s = after_bus_device(m, b, d);
            let c = capped(m.devices, bus_functions(cfg, b, d));
            run(cfg, s.0, s.1, n) == after_return(returned_to(m, c.0), c.1)
        }),
    decreases 32 - d,
{
    let rest = bus_functions(cfg, b, d);
    if d >= 32 {
        assert(m.devices + rest =~= m.devices);
        lemma_return_ignores_wait(m, returned_to(m, m.devices), Ok(()));
        0
    } else {
        let du = d as u8;
        let m0 = waiting(m, ScanWait::BusVendor { bus: b, device: du });
        let a = addr_of(b, du, 0, 0x00);
        let next = bus_functions(cfg, b, d + 1);
        assert(after_bus_device(m, b, d) == (m0, ScanStep::Read(a)));
        assert(reg(cfg, b, du, 0, 0x00) == cfg(a.0));
        if !present(cfg, b, du, 0) {
            assert(after_value(m0, cfg(a.0)) == after_bus_device(m0, b, d + 1));
            assert(rest =~= next);
            let n1 = lemma_bus_scan(cfg, m0, b, d + 1);
            lemma_run_step(cfg, m0, a, n1);
            n1 + 1
        } else {
            let here = device_functions(cfg, b, du);
            assert(rest == here + next);
            let mp = pushed(m0, ScanFrame::BusLoop { bus: b, device: du });
            assert(device_bridge_free(cfg, b, du));
            let n1 = lemma_device_scan(cfg, mp, b, du);
            let c1 = capped(m.devices, here);
            lemma_capped_append(m.devices, here, next);
            let m1 = returned_to(m, c1.0);
            let st = function_start(pushed(mp, ScanFrame::DevFirst { bus: b, device: du }), b, du, 0);
            assert(after_value(m0, cfg(a.0)) == st);
            assert(returned_to(mp, c1.0).stack.drop_last() =~= m.stack);
            assert(returned_to(mp, c1.0).stack.last() == ScanFrame::BusLoop { bus: b, device: du });
            if c1.1 is Err {
                lemma_run_step(cfg, m0, a, n1);
                n1 + 1
            } else {
                let n2 = lemma_bus_scan(cfg, m1, b, d + 1);
                lemma_run_then_run(cfg, st.0, st.1, n1, n2);
                lemma_run_step(cfg, m0, a, n1 + n2);
                n1 + n2 + 1
            }
        }
    }
}

/// The root loop of a multi-function host bridge from root bus `bus` on:
/// the scan ends once every root bus that answers is scanned, or at the
/// first device that does not fit.
pub proof fn lemma_root_scan(cfg: spec_fn(u32) -> u32, m: ScanModel, bus: int) -> (n: nat)
    requires
        m.devices.len() <= 32,
        root_bridge_free(cfg, bus),
        0 <= bus <= 8,
    ensures
        ({
            let s = after_root_bus(m, bus);
            let c = capped(m.devices, root_functions(cfg, bus));
            run(cfg, s.0, s.1, n) == (returned_to(m, c.0), ScanStep::Done(c.1))
        }),
    decreases 8 - bus,
{
    let rest = root_functions(cfg, bus);
    if bus >= 8 {
        assert(m.devices + rest =~= m.devices);
        0
    } else {
        let bu = bus as u8;
        let m0 = waiting(m, ScanWait::RootVendor { bus: bu });
        let a = addr_of(0, 0, bu, 0x00);
        let next = root_functions(cfg, bus + 1);
        assert(after_root_bus(m, bus) == (m0, ScanStep::Read(a)));
        assert(reg(cfg, 0, 0, bu, 0x00) == cfg(a.0));
        if !present(cfg, 0, 0, bu) {
            assert(after_value(m0, cfg(a.0)) == after_root_bus(m0, bus + 1));
            assert(rest =~= next);
            let n1 = lemma_root_scan(cfg, m0, bus + 1);
            lemma_run_step(cfg, m0, a, n1);
            n1 + 1
        } else {
            let here = bus_functions(cfg, bu, 0);
            assert(rest == here + next);
            let mp = pushed(m0, ScanFrame::AllLoop { bus: bu });
            assert(bus_bridge_free(cfg, bu));
            let n1 = lemma_bus_scan(cfg, mp, bu, 0);
            let c1 = capped(m.devices, here);
            lemma_capped_append(m.devices, here, next);
            let m1 = returned_to(m, c1.0);
            let st = after_bus_device(mp, bu, 0);
            assert(after_value(m0, cfg(a.0)) == st);
            assert(returned_to(mp, c1.0).stack.drop_last() =~= m.stack);
            assert(returned_to(mp, c1.0).stack.last() == ScanFrame::AllLoop { bus: bu });
            if c1.1 is Err {
                lemma_run_step(cfg, m0, a, n1);
                n1 + 1
            } else {
                let n2 = lemma_root_scan(cfg, m1, bus + 1);
                lemma_run_then_run(cfg, st.0, st.1, n1, n2);
                lemma_run_step(cfg, m0, a, n1 + n2);
                n1 + n2 + 1
            }
        }
    }
}

/// A whole scan, as `PciScan::scan_all_bus` starts it, of a configuration
/// space without PCI-PCI bridges on the buses it reaches: after a number
/// of register values it ends with the devices of every function the scan reaches, in scan
/// order, and success when there are at most 32 of them; with more, with
/// the first 32 and `Full`.
pub proof fn lemma_whole_scan(cfg: spec_fn(u32) -> u32) -> (n: nat)
    requires
        scan_bridge_free(cfg),
    ensures
        ({
            let m0 = ScanModel { devices: Seq::empty(), stack: Seq::empty(), wait: ScanWait::RootHeader };
            let c = capped(Seq::empty(), all_functions(cfg));
            run(cfg, m0, ScanStep::Read(addr_of(0, 0, 0, 0x0c)), n) == (
                ScanModel { devices: c.0, stack: Seq::empty(), wait: ScanWait::Finished },
                ScanStep::Done(c.1),
            )
        }),
{
    let m0 = ScanModel { devices: Seq::empty(), stack: Seq::empty(), wait: ScanWait::RootHeader };
    let a = addr_of(0, 0, 0, 0x0c);
    assert(reg(cfg, 0, 0, 0, 0x0c) == cfg(a.0));
    if single_function(cfg, 0, 0) {
        let mp = pushed(m0, ScanFrame::AllSingle);
        assert(after_value(m0, cfg(a.0)) == after_bus_device(mp, 0, 0));
        let n1 = lemma_bus_scan(cfg, mp, 0, 0);
        let c = capped(Seq::empty(), all_functions(cfg));
        assert(returned_to(mp, c.0).stack.drop_last() =~= Seq::<ScanFrame>::empty());
        assert(returned_to(mp, c.0).stack.last() == ScanFrame::AllSingle);
        lemma_run_step(cfg, m0, a, n1);
        n1 + 1
    } else {
        assert(after_value(m0, cfg(a.0)) == after_root_bus(m0, 0));
        let n1 = lemma_root_scan(cfg, m0, 0);
        lemma_run_step(cfg, m0, a, n1);
        n1 + 1
    }
}

/// The secondary bus number a PCI-PCI bridge reports.
pub open spec fn secondary_bus(cfg: spec_fn(u32) -> u32, b: u8, d: u8, f: u8) -> u8 {
    ((reg(cfg, b, d, f, 0x18) >> 8u32) & 0xff) as u8
}

/// Recording function `f` of device `d` on bus `b`, a PCI-PCI bridge whose
/// secondary bus has no bridge: the bridge is added when there is room,
/// else the function returns `Full`; once added, the secondary bus is
/// scanned, and the function returns success whatever that scan returned,
/// with the devices it found (as many as fit) added.
pub proof fn lemma_bridge_scan(cfg: spec_fn(u32) -> u32, m: ScanModel, b: u8, d: u8, f: u8) -> (n: nat)
    requires
        m.devices.len() <= 32,
        bridge_at(cfg, b, d, f),
        bus_bridge_free(cfg, secondary_bus(cfg, b, d, f)),
    ensures
        ({
            let start = function_start(m, b, d, f);
            let c1 = capped(m.devices, seq![record(cfg, b, d, f)]);
            let c2 = capped(c1.0, bus_functions(cfg, secondary_bus(cfg, b, d, f), 0));
            run(cfg, start.0, start.1, n) == if c1.1 is Err {
                after_return(returned_to(m, c1.0), c1.1)
            } else {
                after_return(returned_to(m, c2.0), Ok(()))
            }
        }),
{
    let dev = record(cfg, b, d, f);
    let start = function_start(m, b, d, f);
    let s1 = after_value(start.0, reg(cfg, b, d, f, 0x00));
    let s2 = after_value(s1.0, reg(cfg, b, d, f, 0x18));
    let s3 = after_value(s2.0, reg(cfg, b, d, f, 0x0c));
    assert(start.1 == ScanStep::Read(addr_of(b, d, f, 0x00)));
    assert(run(cfg, start.0, start.1, 3) == run(cfg, s1.0, s1.1, 2));
    assert(s1.1 == ScanStep::Read(addr_of(b, d, f, 0x18)));
    assert(run(cfg, s1.0, s1.1, 2) == run(cfg, s2.0, s2.1, 1));
    assert(s2.1 == ScanStep::Read(addr_of(b, d, f, 0x0c)));
    assert(run(cfg, s2.0, s2.1, 1) == run(cfg, s3.0, s3.1, 0));
    let c1 = capped(m.devices, seq![dev]);
    if m.devices.len() < 32 {
        assert(m.devices + seq![dev] =~= m.devices.push(dev));
        let m1 = ScanModel { devices: m.devices.push(dev), stack: m.stack, wait: s2.0.wait };
        let mw = waiting(m1, ScanWait::FnBusNumber { bus: b, device: d, function: f });
        let a = addr_of(b, d, f, 0x18);
        assert(s3 == (mw, ScanStep::Read(a)));
        let sec = secondary_bus(cfg, b, d, f);
        let mp = pushed(mw, ScanFrame::FnBridge);
        assert(reg(cfg, b, d, f, 0x18) == cfg(a.0));
        assert(after_value(mw, cfg(a.0)) == after_bus_device(mp, sec, 0));
        let n1 = lemma_bus_scan(cfg, mp, sec, 0);
        let c2 = capped(c1.0, bus_functions(cfg, sec, 0));
        assert(returned_to(mp, c2.0).stack.drop_last() =~= m.stack);
        assert(returned_to(mp, c2.0).stack.last() == ScanFrame::FnBridge);
        lemma_run_step(cfg, mw, a, n1);
        lemma_run_then_run(cfg, start.0, start.1, 3, n1 + 1);
        n1 + 4
    } else {
        assert((m.devices + seq![dev]).take(32) =~= m.devices);
        lemma_return_ignores_wait(s2.0, returned_to(m, m.devices), Err(Error { kind: ErrorKind::Full }));
        3
    }
}

} // verus!
