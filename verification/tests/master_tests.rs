use soem::error::ErrorKind;
use soem::mailbox::build_download_response;
use soem::mailbox::build_upload_response;
use soem::mailbox::parse_download_request;
use soem::mailbox::parse_upload_request;
use soem::wire::decode_frame;
use soem::Context;
use soem::ErrorGenerator;
use soem::ErrorIterator;
use soem::EtherCatError;
use soem::EtherCatState;
use soem::FrameLink;

/// One simulated device on the segment.
struct SimSlave {
    addr: u16,
    man: u32,
    id: u32,
    rev: u32,
    obits: u16,
    ibits: u16,
    hasdc: bool,
    parentport: u8,
    al_status: u16,
    recv_time: u32,
    dc_offset: u32,
    mbx: Vec<u8>,
    dict: Vec<(u16, u8, u64, u8)>,
}

impl SimSlave {
    fn new(obits: u16, ibits: u16, hasdc: bool) -> SimSlave {
        SimSlave {
            addr: 0,
            man: 0x00000123,
            id: 0x00004567,
            rev: 0x00000001,
            obits,
            ibits,
            hasdc,
            parentport: 0,
            al_status: 0x01,
            recv_time: 1000,
            dc_offset: 0,
            mbx: Vec::new(),
            dict: Vec::new(),
        }
    }
}

/// A software segment behind the engine's frame link: every frame the
/// master sends is processed immediately and its echo queued for the next
/// receive.
struct SimLink {
    slaves: Vec<SimSlave>,
    rx: Vec<Vec<u8>>,
    /// When set, frames vanish without an echo.
    drop_all: bool,
    /// Input bytes patched into every cyclic echo, at this offset of the
    /// datagram payload.
    lrw_inputs: Option<(usize, Vec<u8>)>,
    dc_time: u64,
}

impl SimLink {
    fn new(slaves: Vec<SimSlave>) -> SimLink {
        SimLink { slaves, rx: Vec::new(), drop_all: false, lrw_inputs: None, dc_time: 0 }
    }

    fn make_frame(cmd: u8, idx: u8, adp: u16, ado: u16, data: &[u8], wkc: u16) -> Vec<u8> {
        let mut f = Vec::new();
        let flen = (10 + data.len()) as u16 + 0x1000;
        f.push((flen % 256) as u8);
        f.push((flen / 256) as u8);
        f.push(cmd);
        f.push(idx);
        f.push((adp % 256) as u8);
        f.push((adp / 256) as u8);
        f.push((ado % 256) as u8);
        f.push((ado / 256) as u8);
        let dlen = data.len() as u16;
        f.push((dlen % 256) as u8);
        f.push((dlen / 256) as u8);
        f.push(0);
        f.push(0);
        f.extend_from_slice(data);
        f.push((wkc % 256) as u8);
        f.push((wkc / 256) as u8);
        f
    }

    fn identity_block(s: &SimSlave) -> Vec<u8> {
        let mut b = Vec::new();
        b.extend_from_slice(&s.man.to_le_bytes());
        b.extend_from_slice(&s.id.to_le_bytes());
        b.extend_from_slice(&s.rev.to_le_bytes());
        b.extend_from_slice(&s.obits.to_le_bytes());
        b.extend_from_slice(&s.ibits.to_le_bytes());
        b.push(if s.hasdc { 1 } else { 0 });
        b.push(s.parentport);
        b.push(0);
        b.push(0);
        b
    }

    fn expected_wkc(&self) -> u16 {
        let mut w: u16 = 0;
        for s in &self.slaves {
            if s.obits > 0 {
                w += 2;
            }
            if s.ibits > 0 {
                w += 1;
            }
        }
        w
    }

    fn find(&mut self, addr: u16) -> Option<&mut SimSlave> {
        self.slaves.iter_mut().find(|s| s.addr == addr)
    }

    fn handle_mailbox_write(slave: &mut SimSlave, data: &Vec<u8>) {
        if let Some((index, sub, value, size)) = parse_download_request(data) {
            slave.dict.retain(|e| !(e.0 == index && e.1 == sub));
            slave.dict.push((index, sub, value, size));
            slave.mbx = build_download_response(index, sub);
        } else if let Some((index, sub)) = parse_upload_request(data) {
            match slave.dict.iter().find(|e| e.0 == index && e.1 == sub) {
                Some(e) => {
                    slave.mbx = build_upload_response(e.0, e.1, e.2, e.3);
                }
                None => {
                    // an abort: command byte 0x80 in an otherwise plain response
                    let mut b = build_download_response(index, sub);
                    b[8] = 0x80;
                    slave.mbx = b;
                }
            }
        }
    }
}

impl FrameLink for SimLink {
    fn send_frame(&mut self, frame: &Vec<u8>) {
        if self.drop_all {
            return;
        }
        let d = match decode_frame(frame) {
            Some(d) => d,
            None => return,
        };
        let n = self.slaves.len() as u16;
        let (echo_data, wkc): (Vec<u8>, u16) = match d.cmd {
            // broadcast read: device count via the working counter
            7 => {
                if d.ado == 0x0130 {
                    let mut or_status: u16 = 0;
                    for s in &self.slaves {
                        or_status |= s.al_status;
                    }
                    (or_status.to_le_bytes().to_vec(), n)
                } else {
                    (d.data.clone(), n)
                }
            }
            // broadcast write: state requests reach every device
            8 => {
                if d.ado == 0x0120 && d.data.len() >= 2 {
                    let code = u16::from_le_bytes([d.data[0], d.data[1]]);
                    for s in &mut self.slaves {
                        s.al_status = code;
                    }
                }
                (d.data.clone(), n)
            }
            // auto-increment write: station address assignment
            2 => {
                let i = if d.adp == 0 { 0usize } else { 0x10000 - d.adp as usize };
                if i < self.slaves.len() && d.ado == 0x0010 && d.data.len() >= 2 {
                    self.slaves[i].addr = u16::from_le_bytes([d.data[0], d.data[1]]);
                    (d.data.clone(), 1)
                } else {
                    (d.data.clone(), 0)
                }
            }
            // configured-address read
            4 => match self.find(d.adp) {
                None => (d.data.clone(), 0),
                Some(s) => match d.ado {
                    0x0E00 => {
                        let mut b = SimLink::identity_block(s);
                        b.resize(d.data.len(), 0);
                        (b, 1)
                    }
                    0x0130 => (s.al_status.to_le_bytes().to_vec(), 1),
                    0x0900 => (s.recv_time.to_le_bytes().to_vec(), 1),
                    0x1100 => {
                        if s.mbx.len() == d.data.len() {
                            (s.mbx.clone(), 1)
                        } else {
                            (d.data.clone(), 1)
                        }
                    }
                    _ => (d.data.clone(), 1),
                },
            },
            // configured-address write
            5 => match self.find(d.adp) {
                None => (d.data.clone(), 0),
                Some(_) => {
                    let data = d.data.clone();
                    match d.ado {
                        0x0120 => {
                            if data.len() >= 2 {
                                let code = u16::from_le_bytes([data[0], data[1]]);
                                self.find(d.adp).unwrap().al_status = code;
                            }
                        }
                        0x0920 => {
                            if data.len() >= 4 {
                                let off =
                                    u32::from_le_bytes([data[0], data[1], data[2], data[3]]);
                                self.find(d.adp).unwrap().dc_offset = off;
                            }
                        }
                        0x1000 => {
                            let s = self.find(d.adp).unwrap();
                            SimLink::handle_mailbox_write(s, &data);
                        }
                        _ => {}
                    }
                    (data, 1)
                }
            },
            // logical read-write: the cyclic exchange
            12 => {
                let mut data = d.data.clone();
                if let Some((off, bytes)) = &self.lrw_inputs {
                    for (k, b) in bytes.iter().enumerate() {
                        if off + k < data.len() {
                            data[off + k] = *b;
                        }
                    }
                }
                (data, self.expected_wkc())
            }
            // configured-address read-multiple-write: the clock readout
            14 => (self.dc_time.to_le_bytes().to_vec(), 1),
            _ => (d.data.clone(), 0),
        };
        self.rx.push(SimLink::make_frame(d.cmd, d.idx, d.adp, d.ado, &echo_data, wkc));
    }

    fn receive_frame(&mut self, _timeout_us: u32) -> Option<Vec<u8>> {
        if self.rx.is_empty() {
            None
        } else {
            Some(self.rx.remove(0))
        }
    }
}

fn configured_context(slaves: Vec<SimSlave>) -> Context<SimLink> {
    let sim = SimLink::new(slaves);
    let mut ctx = Context::new("eth0", sim, 8, 2).expect("context");
    ctx.config_init(false).expect("enumeration");
    ctx
}

#[test]
fn new_rejects_an_empty_interface_name() {
    let sim = SimLink::new(vec![]);
    assert!(Context::new("", sim, 8, 2).is_err());
}

#[test]
fn scenario_single_slave_discovery_mapping_no_dc() {
    // one device with 2 bytes of outputs, 2 bytes of inputs, no DC support
    let sim = SimLink::new(vec![SimSlave::new(16, 16, false)]);
    let mut ctx = Context::new("eth0", sim, 8, 2).expect("context");
    let count = ctx.config_init(false).expect("one slave responds");
    assert_eq!(count, 1);
    assert_eq!(ctx.slaves().len(), 1);
    assert_eq!(ctx.slaves()[0].configured_addr(), 0x1001);
    assert_eq!(ctx.slaves()[0].output_size(), 16);
    assert_eq!(ctx.slaves()[0].input_size(), 16);
    assert_eq!(ctx.slaves()[0].eep_manufacturer(), 0x00000123);
    assert_eq!(ctx.slaves()[0].eep_id(), 0x00004567);
    assert_eq!(ctx.slaves()[0].eep_revision(), 0x00000001);
    assert!(!ctx.slaves()[0].has_dc());

    let io = vec![0u8; 64];
    let mapped = ctx.config_map_group(&io, 0).expect("mapping fits");
    assert_eq!(mapped, 4);
    assert_eq!(ctx.groups()[0].outputs_wkc(), 1);
    assert_eq!(ctx.groups()[0].inputs_wkc(), 1);
    assert_eq!(ctx.groups()[0].expected_wkc(), 3);

    assert_eq!(ctx.config_dc().expect("clock configuration"), false);
}

#[test]
fn scenario_no_devices_is_no_frame() {
    let sim = SimLink::new(vec![]);
    let mut ctx = Context::new("eth0", sim, 8, 2).expect("context");
    assert_eq!(ctx.config_init(false), Err(EtherCatError::NoFrame));
    assert_eq!(ctx.slaves().len(), 0);
}

#[test]
fn scenario_hundred_cycles_at_expected_wkc() {
    let mut ctx = configured_context(vec![SimSlave::new(16, 16, false)]);
    let io_probe = vec![0u8; 32];
    assert_eq!(ctx.config_map_group(&io_probe, 0).expect("mapping"), 4);

    ctx.set_state(EtherCatState::Op, 0);
    ctx.write_state(0).expect("devices acknowledge");
    assert_eq!(ctx.check_state(0, EtherCatState::Op, 60000), EtherCatState::Op);

    let expected = ctx.groups()[0].expected_wkc();
    assert_eq!(expected, 3);
    ctx.link.lrw_inputs = Some((2, vec![0xAA, 0xBB]));

    let mut io = vec![0u8; 32];
    io[0] = 0x55;
    io[1] = 0x66;
    for _ in 0..100 {
        ctx.send_processdata(&io).expect("send");
        let wkc = ctx.receive_processdata(&mut io, 2000);
        assert_eq!(wkc, expected);
    }
    // inputs landed in the input region; the output region is untouched
    assert_eq!(io[0], 0x55);
    assert_eq!(io[1], 0x66);
    assert_eq!(io[2], 0xAA);
    assert_eq!(io[3], 0xBB);
}

#[test]
fn receive_without_send_yields_zero_and_leaves_the_buffer() {
    let mut ctx = configured_context(vec![SimSlave::new(16, 16, false)]);
    let io_probe = vec![0u8; 32];
    ctx.config_map_group(&io_probe, 0).expect("mapping");
    let mut io = vec![0x12u8; 32];
    let before = io.clone();
    let wkc = ctx.receive_processdata(&mut io, 2000);
    assert_eq!(wkc, 0);
    assert_eq!(io, before);
}

#[test]
fn sdo_write_then_read_returns_the_value() {
    let mut ctx = configured_context(vec![SimSlave::new(16, 16, false)]);
    for (value, size) in [(0x7Bu64, 1u8), (0xBEEF, 2), (0xDEADBEEF, 4), (0x0102030405060708, 8)] {
        ctx.write_sdo(1, 0x6040, 0x00, value, size, 20000).expect("download accepted");
        let back = ctx.read_sdo(1, 0x6040, 0x00, size, 20000).expect("upload answers");
        assert_eq!(back, value);
    }
}

#[test]
fn sdo_read_of_a_missing_object_fails_with_a_record() {
    let mut ctx = configured_context(vec![SimSlave::new(16, 16, false)]);
    assert_eq!(ctx.read_sdo(1, 0x5555, 0x01, 4, 20000), Err(EtherCatError::Error));
    assert!(ctx.iserror());
    let mut it = ErrorIterator::new(&mut ctx);
    let line = it.next().expect("a record was logged");
    assert!(line.starts_with("SDO failure"));
}

#[test]
fn full_drain_leaves_no_error() {
    let sim = SimLink::new(vec![]);
    let mut ctx = Context::new("eth0", sim, 8, 2).expect("context");
    let _ = ctx.config_init(false);
    assert!(ctx.iserror());
    let mut it = ErrorIterator::new(&mut ctx);
    while it.next().is_some() {}
    assert!(!ctx.iserror());
}

#[test]
fn reader_counts_what_is_unread() {
    let sim = SimLink::new(vec![]);
    let mut ctx = Context::new("eth0", sim, 8, 2).expect("context");
    let _ = ctx.config_init(false);
    let mut it = ErrorIterator::new(&mut ctx);
    let n = it.remaining();
    assert!(n >= 1);
    let _ = it.next();
    assert_eq!(it.remaining(), n - 1);
}

#[test]
fn partial_drain_still_leaves_no_error() {
    let sim = SimLink::new(vec![]);
    let mut ctx = Context::new("eth0", sim, 8, 2).expect("context");
    let _ = ctx.config_init(false);
    let _ = ctx.config_init(false);
    assert!(ctx.iserror());
    let mut it = ErrorIterator::new(&mut ctx);
    let _first = it.next();
    drop(it);
    assert!(!ctx.iserror());
}

#[test]
fn fmt_renders_every_pending_record_as_lines() {
    let sim = SimLink::new(vec![]);
    let mut ctx = Context::new("eth0", sim, 8, 2).expect("context");
    let _ = ctx.config_init(false);
    let mut it = ErrorIterator::new(&mut ctx);
    let text = it.fmt();
    assert!(text.contains("frame timeout"));
    assert!(text.ends_with("\n"));
    assert_eq!(it.next(), None);
    assert!(!ctx.iserror());
}

#[test]
fn mapping_overflow_is_logged_and_typed() {
    let mut ctx = configured_context(vec![SimSlave::new(16, 16, false)]);
    let io = vec![0u8; 2];
    assert_eq!(ctx.config_map_group(&io, 0), Err(EtherCatError::Error));
    assert!(ctx.iserror());
    let mut it = ErrorIterator::new(&mut ctx);
    let line = it.next().expect("overflow record");
    assert_eq!(line, format!("{}: process data exceeds the I/O buffer", ErrorKind::MappingOverflow.describe()));
}

#[test]
fn too_many_devices_for_the_table() {
    let mut devs = Vec::new();
    for _ in 0..9 {
        devs.push(SimSlave::new(8, 8, false));
    }
    let sim = SimLink::new(devs);
    let mut ctx = Context::new("eth0", sim, 8, 2).expect("context");
    assert_eq!(ctx.config_init(false), Err(EtherCatError::Error));
    assert_eq!(ctx.slaves().len(), 0);
}

#[test]
fn poll_reports_the_state_reached() {
    let mut ctx = configured_context(vec![SimSlave::new(16, 16, false)]);
    // the device sits in SafeOp; polling for Op reports SafeOp, not less
    ctx.link.slaves[0].al_status = 0x04;
    let st = ctx.check_state(1, EtherCatState::Op, 5000);
    assert_eq!(st, EtherCatState::SafeOp);
    assert_eq!(ctx.slaves()[0].state(), EtherCatState::SafeOp);
    // once the device reaches Op, the poll reports it
    ctx.link.slaves[0].al_status = 0x08;
    let st = ctx.check_state(1, EtherCatState::Op, 5000);
    assert_eq!(st, EtherCatState::Op);
}

#[test]
fn an_error_flagged_state_is_observed_with_its_flag() {
    let mut ctx = configured_context(vec![SimSlave::new(16, 16, false)]);
    // the device sits in SafeOp with the acknowledge/error flag OR-ed on
    ctx.link.slaves[0].al_status = 0x14;
    let st = ctx.check_state(1, EtherCatState::SafeOp, 5000);
    assert_eq!(st, EtherCatState::SafeOp);
    assert!(ctx.slaves()[0].ack_error());
    // once the device reports a clean SafeOp, the flag clears
    ctx.link.slaves[0].al_status = 0x04;
    let st = ctx.check_state(1, EtherCatState::SafeOp, 5000);
    assert_eq!(st, EtherCatState::SafeOp);
    assert!(!ctx.slaves()[0].ack_error());
}

#[test]
fn read_state_reports_the_lowest_state() {
    let mut ctx = configured_context(vec![
        SimSlave::new(16, 0, false),
        SimSlave::new(0, 16, false),
    ]);
    ctx.link.slaves[0].al_status = 0x08; // Op
    ctx.link.slaves[1].al_status = 0x02; // PreOp
    assert_eq!(ctx.read_state(), EtherCatState::PreOp);
    assert_eq!(ctx.slaves()[0].state(), EtherCatState::Op);
    assert_eq!(ctx.slaves()[1].state(), EtherCatState::PreOp);
}

#[test]
fn dc_configuration_elects_the_first_capable_slave() {
    let mut ctx = configured_context(vec![
        SimSlave::new(16, 16, false),
        SimSlave::new(16, 16, true),
        SimSlave::new(16, 16, true),
    ]);
    ctx.link.slaves[1].recv_time = 1000;
    ctx.link.slaves[2].recv_time = 1450;
    assert_eq!(ctx.config_dc().expect("clock configuration"), true);
    // the reference keeps delay zero; the downstream device measures 450
    assert_eq!(ctx.slaves()[1].prop_delay(), 0);
    assert_eq!(ctx.slaves()[2].prop_delay(), 450);
    assert_eq!(ctx.link.slaves[2].dc_offset, 450);
}

#[test]
fn dc_time_follows_the_cyclic_exchange() {
    let mut ctx = configured_context(vec![SimSlave::new(16, 16, true)]);
    let io_probe = vec![0u8; 32];
    ctx.config_map_group(&io_probe, 0).expect("mapping");
    ctx.config_dc().expect("clock configuration");
    ctx.link.dc_time = 123456789;
    let mut io = vec![0u8; 32];
    ctx.send_processdata(&io).expect("send");
    let _ = ctx.receive_processdata(&mut io, 2000);
    assert_eq!(ctx.dc_time(), 123456789);
}

#[test]
fn lost_cycle_logs_a_timeout_and_counts_zero() {
    let mut ctx = configured_context(vec![SimSlave::new(16, 16, false)]);
    let io_probe = vec![0u8; 32];
    ctx.config_map_group(&io_probe, 0).expect("mapping");
    let mut io = vec![0u8; 32];
    ctx.link.drop_all = true;
    ctx.send_processdata(&io).expect("send");
    let wkc = ctx.receive_processdata(&mut io, 2000);
    assert_eq!(wkc, 0);
    assert!(ctx.iserror());
}

#[test]
fn enumeration_fills_the_esi_cache() {
    let ctx = configured_context(vec![SimSlave::new(16, 16, false)]);
    assert!(ctx.esimap.get(0));
    assert!(!ctx.esimap.get(1));
    assert_eq!(ctx.esibuf.read(0, 4), 0x123u32.to_le_bytes().to_vec());
    assert_eq!(ctx.esibuf.read(4, 4), 0x4567u32.to_le_bytes().to_vec());
    assert_eq!(ctx.esibuf.read(12, 2), 16u16.to_le_bytes().to_vec());
}

#[test]
fn enumeration_from_the_eeprom_table_reads_the_same_summary() {
    let sim = SimLink::new(vec![SimSlave::new(16, 16, false)]);
    let mut ctx = Context::new("eth0", sim, 8, 2).expect("context");
    assert_eq!(ctx.config_init(true).expect("enumeration"), 1);
    assert_eq!(ctx.slaves()[0].output_size(), 16);
}

#[test]
fn send_before_mapping_starts_an_empty_cycle() {
    let mut ctx = configured_context(vec![SimSlave::new(16, 16, false)]);
    let mut io = vec![0u8; 8];
    ctx.send_processdata(&io).expect("nothing to send");
    assert_eq!(ctx.receive_processdata(&mut io, 2000), 0);
}

#[test]
fn group_too_large_for_one_datagram_is_refused() {
    // 65535 bits round to 8192 bytes, past the single-datagram limit
    let mut ctx = configured_context(vec![SimSlave::new(65535, 0, false)]);
    let io = vec![0u8; 16384];
    assert_eq!(ctx.config_map_group(&io, 0), Err(EtherCatError::Error));
    assert!(ctx.iserror());
}

#[test]
fn empty_group_maps_to_zero_bytes() {
    // the only slave sits in group 0; group 1 has nothing to map
    let mut ctx = configured_context(vec![SimSlave::new(16, 16, false)]);
    let io = vec![0u8; 64];
    assert_eq!(ctx.config_map_group(&io, 1).expect("empty group maps"), 0);
    assert_eq!(ctx.groups()[1].expected_wkc(), 0);
}

#[test]
fn slave_region_accessors_follow_the_mapping() {
    let mut ctx = configured_context(vec![
        SimSlave::new(16, 8, false),
        SimSlave::new(8, 16, false),
    ]);
    let io_probe = vec![0u8; 32];
    // outputs: slave 0 at 0..2, slave 1 at 2..3; inputs: slave 0 at 3..4, slave 1 at 4..6
    assert_eq!(ctx.config_map_group(&io_probe, 0).expect("mapping"), 6);
    let mut io = vec![0u8; 32];
    for (k, b) in [1u8, 2, 3, 4, 5, 6].iter().enumerate() {
        io[k] = *b;
    }
    assert_eq!(ctx.slaves()[0].outputs(&io), vec![1, 2]);
    assert_eq!(ctx.slaves()[1].outputs(&io), vec![3]);
    assert_eq!(ctx.slaves()[0].inputs(&io), vec![4]);
    assert_eq!(ctx.slaves()[1].inputs(&io), vec![5, 6]);
    ctx.slaves()[1].set_outputs(&mut io, &vec![0x99]);
    assert_eq!(io[2], 0x99);
    assert_eq!(io[1], 2);
    assert_eq!(io[3], 4);
}
