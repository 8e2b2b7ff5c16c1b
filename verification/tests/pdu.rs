//! PDU decoding.

use mbshark2::protocol::pdu::{
    exception_text, function_name, infer_role, parse_pdu, FileSubRequest, PduDetails, Role,
};

fn be(v: &[u16]) -> Vec<u8> {
    v.iter().flat_map(|x| x.to_be_bytes()).collect()
}

#[test]
fn read_holding_registers_request() {
    let pdu = parse_pdu(Role::Unknown, 0x03, &be(&[0x0000, 0x000A]));
    assert_eq!(pdu.role, Role::Request);
    match pdu.details {
        PduDetails::ReadRegsReq { start, count } => {
            assert_eq!(start, 0);
            assert_eq!(count, 10);
        }
        d => panic!("wrong variant {:?}", d),
    }
}

#[test]
fn write_multiple_registers_request_matches_readme() {
    // FC 0x10: start 0x0000, count 2, byte_count 4, values 0x0000 0x0001
    let mut data = be(&[0x0000, 0x0002]);
    data.push(0x04);
    data.extend(be(&[0x0000, 0x0001]));
    let pdu = parse_pdu(Role::Unknown, 0x10, &data);
    assert_eq!(pdu.role, Role::Request);
    match pdu.details {
        PduDetails::WriteMultipleRegsReq { start, count, values } => {
            assert_eq!(start, 0);
            assert_eq!(count, 2);
            assert_eq!(values, vec![0x0000, 0x0001]);
        }
        d => panic!("wrong variant {:?}", d),
    }
}

#[test]
fn write_multiple_registers_response() {
    let pdu = parse_pdu(Role::Unknown, 0x10, &be(&[0x0000, 0x0002]));
    assert_eq!(pdu.role, Role::Response);
    assert!(matches!(
        pdu.details,
        PduDetails::WriteMultipleRegsResp { start: 0, count: 2 }
    ));
}

#[test]
fn exception_response() {
    let pdu = parse_pdu(Role::Unknown, 0x83, &[0x02]);
    assert_eq!(pdu.role, Role::Response);
    assert!(matches!(pdu.details, PduDetails::Exception { code: 2 }));
    assert_eq!(exception_text(2), "Illegal Data Address");
}

#[test]
fn unknown_function_is_raw() {
    // 0x55 has no 0x80 bit (so not an exception) and isn't a known FC.
    let pdu = parse_pdu(Role::Unknown, 0x55, &[0x00]);
    assert!(matches!(pdu.details, PduDetails::Raw { .. }));
}

#[test]
fn bad_length_is_raw() {
    let mut data = be(&[0x0000, 0x0002]);
    data.push(0x06);
    data.extend(be(&[0x0000, 0x0001]));
    let pdu = parse_pdu(Role::Request, 0x10, &data);
    assert!(matches!(pdu.details, PduDetails::Raw { .. }));
}

#[test]
fn write_single_coil_value() {
    let pdu = parse_pdu(Role::Request, 0x05, &be(&[0x00AC, 0xFF00]));
    assert!(matches!(
        pdu.details,
        PduDetails::WriteSingleCoilReq { addr: 0xAC, on: true }
    ));
}

#[test]
fn function_names() {
    assert_eq!(function_name(0x10), "Write Holding Registers");
    assert_eq!(function_name(0x03), "Read Holding Registers");
    assert_eq!(function_name(0x01), "Read Coils");
}

// --- every function code -------------------------------------------------------

fn details(role: Role, fc: u8, data: &[u8]) -> PduDetails {
    parse_pdu(role, fc, data).details
}

fn reason(role: Role, fc: u8, data: &[u8]) -> String {
    match details(role, fc, data) {
        PduDetails::Raw { reason } => reason,
        d => panic!("expected Raw, got {:?}", d),
    }
}

#[test]
fn roles_from_the_layout() {
    assert_eq!(infer_role(0x83, &[]), Role::Response);
    assert_eq!(infer_role(0x01, &[0, 0, 0, 1]), Role::Request);
    assert_eq!(infer_role(0x02, &[1, 0xFF]), Role::Response);
    assert_eq!(infer_role(0x04, &[9, 0xFF]), Role::Unknown);
    assert_eq!(infer_role(0x03, &[]), Role::Unknown);
    // Four bytes of bits may be a request or three bytes of states. Registers
    // do not come in three bytes.
    assert_eq!(infer_role(0x01, &[3, 0, 0, 1]), Role::Unknown);
    assert_eq!(infer_role(0x02, &[3, 0, 0, 1]), Role::Unknown);
    assert_eq!(infer_role(0x03, &[3, 0, 0, 0]), Role::Request);
    assert_eq!(infer_role(0x04, &[3, 0, 0, 0]), Role::Request);
    assert_eq!(infer_role(0x03, &[3, 0, 0]), Role::Unknown);
    for fc in [0x07, 0x0B, 0x0C, 0x11] {
        assert_eq!(infer_role(fc, &[]), Role::Request);
    }
    assert_eq!(infer_role(0x07, &[0x6D]), Role::Response);
    assert_eq!(infer_role(0x0B, &[0, 0, 0, 5]), Role::Response);
    assert_eq!(infer_role(0x0C, &[6, 0, 0, 0, 1, 0, 2]), Role::Response);
    assert_eq!(infer_role(0x11, &[2, 0x42, 0xFF]), Role::Response);
    assert_eq!(infer_role(0x0F, &[0, 0, 0, 9, 2, 0xFF, 1]), Role::Request);
    assert_eq!(infer_role(0x0F, &[0, 0, 0, 1]), Role::Response);
    assert_eq!(infer_role(0x10, &[0, 0, 0, 1, 2, 0, 7]), Role::Request);
    assert_eq!(infer_role(0x10, &[0, 0, 0, 1]), Role::Response);
    assert_eq!(infer_role(0x17, &[0, 1, 0, 2, 0, 3, 0, 1, 2, 0, 7]), Role::Request);
    assert_eq!(infer_role(0x17, &[8, 0, 1, 0, 2, 0, 3, 0, 4]), Role::Response);
    assert_eq!(infer_role(0x18, &[0, 1]), Role::Request);
    assert_eq!(infer_role(0x18, &[0, 4, 0, 1, 0, 9]), Role::Response);
    for fc in [0x05, 0x06, 0x08, 0x14, 0x15, 0x16, 0x2B, 0x55] {
        assert_eq!(infer_role(fc, &[0, 0, 0, 0]), Role::Unknown);
    }
}

#[test]
fn malformed_layouts_show_no_role() {
    let malformed: [(u8, &[u8]); 14] = [
        (0x07, &[1, 2]),
        (0x0B, &[1, 2, 3]),
        (0x0C, &[6, 0, 0, 0, 1, 0]),
        (0x0C, &[5, 0, 0, 0, 1, 0]),
        (0x11, &[1]),
        (0x11, &[0]),
        (0x0F, &[0, 0, 0, 17, 2, 0xFF, 1]),
        (0x0F, &[0, 0, 0, 9, 3, 0xFF, 1]),
        (0x10, &[0, 0, 0, 1, 2]),
        (0x10, &[0, 0, 0, 2, 2, 0, 7]),
        (0x10, &[0, 0]),
        (0x17, &[0; 8]),
        (0x18, &[0, 1, 2]),
        (0x18, &[0, 2, 0, 5]),
    ];
    for (fc, data) in malformed {
        assert_eq!(infer_role(fc, data), Role::Unknown, "fc 0x{:02X}, {:?}", fc, data);
        // In neither role does it decode.
        reason(Role::Request, fc, data);
        reason(Role::Response, fc, data);
    }
    // A read/write of no registers is a request; one whose count is wrong is
    // nothing.
    assert_eq!(infer_role(0x17, &[0; 9]), Role::Request);
    assert_eq!(infer_role(0x17, &[0, 0, 0, 0, 0, 0, 0, 2, 2, 0, 0]), Role::Unknown);
    // Odd bytes of registers are no response.
    assert_eq!(infer_role(0x17, &[3, 0, 0, 1]), Role::Unknown);
}

#[test]
fn read_bits_both_ways() {
    assert_eq!(
        details(Role::Request, 0x01, &be(&[0x0013, 0x0025])),
        PduDetails::ReadCoilsReq { start: 0x13, count: 0x25 }
    );
    assert_eq!(
        details(Role::Response, 0x02, &[0x01, 0b0000_0101]),
        PduDetails::ReadCoilsResp {
            bits: vec![true, false, true, false, false, false, false, false]
        }
    );
    assert_eq!(reason(Role::Request, 0x01, &[0]), "Read Coils request: expected 4 bytes, got 1");
    assert_eq!(reason(Role::Response, 0x02, &[]), "Read Discrete Inputs response: empty");
    assert_eq!(
        reason(Role::Response, 0x01, &[3, 1]),
        "Read Coils response: byte count 3 but 1 data bytes"
    );
}

#[test]
fn read_registers_both_ways() {
    assert_eq!(
        details(Role::Response, 0x03, &[0x04, 0x00, 0x0A, 0x01, 0x02]),
        PduDetails::ReadRegsResp { values: vec![0x000A, 0x0102] }
    );
    assert_eq!(
        reason(Role::Response, 0x04, &[3, 1, 2, 3]),
        "Read Input Registers response: bad byte count 3 for 3 data bytes"
    );
    assert_eq!(reason(Role::Response, 0x03, &[]), "Read Holding Registers response: empty");
    assert_eq!(
        reason(Role::Request, 0x03, &[0; 12]),
        "Read Holding Registers request: expected 4 bytes, got 12"
    );
}

#[test]
fn single_writes_both_ways() {
    assert_eq!(
        details(Role::Response, 0x05, &be(&[7, 0x0000])),
        PduDetails::WriteSingleCoilResp { addr: 7, on: false }
    );
    assert_eq!(
        reason(Role::Request, 0x05, &be(&[7, 0xABCD])),
        "Write Single Coil: invalid value 0xABCD"
    );
    assert_eq!(reason(Role::Request, 0x05, &[]), "Write Single Coil: expected 4 bytes, got 0");
    assert_eq!(
        details(Role::Request, 0x06, &be(&[1, 3])),
        PduDetails::WriteSingleRegReq { addr: 1, value: 3 }
    );
    // Without context the role of 0x06 stays open and reads as a response.
    let pdu = parse_pdu(Role::Unknown, 0x06, &be(&[1, 3]));
    assert_eq!(pdu.role, Role::Unknown);
    assert_eq!(pdu.details, PduDetails::WriteSingleRegResp { addr: 1, value: 3 });
    assert_eq!(reason(Role::Request, 0x06, &[9]), "Write Single Register: expected 4 bytes, got 1");
}

#[test]
fn diagnostics_and_counters() {
    assert_eq!(
        details(Role::Response, 0x07, &[0x6D]),
        PduDetails::ReadExceptionStatusResp { status: 0x6D }
    );
    assert_eq!(reason(Role::Request, 0x07, &[]), "Read Exception Status (request, no data)");
    assert_eq!(
        reason(Role::Request, 0x07, &[1]),
        "Read Exception Status request: expected 0 bytes, got 1"
    );
    assert_eq!(
        reason(Role::Response, 0x07, &[1, 2]),
        "Read Exception Status response: expected 1 byte, got 2"
    );
    assert_eq!(
        details(Role::Unknown, 0x08, &[0x00, 0x0A, 0x12, 0x34]),
        PduDetails::Diagnostic { sub: 0x000A, data: vec![0x12, 0x34] }
    );
    assert_eq!(reason(Role::Unknown, 0x08, &[1]), "Diagnostics: expected ≥2 bytes, got 1");
    assert_eq!(
        details(Role::Response, 0x0B, &be(&[0xFFFF, 0x0108])),
        PduDetails::CommEventCounterResp { status: 0xFFFF, event_count: 0x0108 }
    );
    assert_eq!(reason(Role::Request, 0x0B, &[]), "Get Comm Event Counter (request, no data)");
    assert_eq!(
        reason(Role::Request, 0x0B, &[1]),
        "Get Comm Event Counter request: expected 0 bytes, got 1"
    );
    assert_eq!(
        reason(Role::Response, 0x0B, &[1]),
        "Get Comm Event Counter response: expected 4 bytes, got 1"
    );
    assert_eq!(
        details(Role::Response, 0x0C, &[8, 0, 0, 1, 8, 1, 0x21, 0x20, 0]),
        PduDetails::CommEventLogResp {
            status: 0,
            event_count: 0x0108,
            message_count: 0x0121,
            events: vec![0x20, 0x00],
        }
    );
    assert_eq!(reason(Role::Request, 0x0C, &[]), "Get Comm Event Log (request, no data)");
    assert_eq!(
        reason(Role::Request, 0x0C, &[1]),
        "Get Comm Event Log request: expected 0 bytes, got 1"
    );
    assert_eq!(
        reason(Role::Response, 0x0C, &[6, 0]),
        "Get Comm Event Log response: expected ≥7 bytes, got 2"
    );
    assert_eq!(
        reason(Role::Response, 0x0C, &[9, 0, 0, 0, 0, 0, 0]),
        "Get Comm Event Log: byte count 9 but 6 data bytes"
    );
}

#[test]
fn multiple_writes_both_ways() {
    assert_eq!(
        details(Role::Request, 0x0F, &[0, 0x13, 0, 10, 2, 0xCD, 0x01]),
        PduDetails::WriteMultipleCoilsReq {
            start: 0x13,
            count: 10,
            bits: vec![true, false, true, true, false, false, true, true, true, false],
        }
    );
    assert_eq!(
        details(Role::Response, 0x0F, &be(&[0x13, 10])),
        PduDetails::WriteMultipleCoilsResp { start: 0x13, count: 10 }
    );
    assert_eq!(
        reason(Role::Response, 0x0F, &[1]),
        "Write Multiple Coils response: expected 4 bytes, got 1"
    );
    assert_eq!(
        reason(Role::Request, 0x0F, &[1]),
        "Write Multiple Coils request: expected ≥5 bytes, got 1"
    );
    assert_eq!(
        reason(Role::Request, 0x0F, &[0, 0, 0, 1, 2, 1]),
        "Write Multiple Coils: byte count 2 but 1 bytes"
    );
    // More coils than the bytes hold: a structural mismatch like any other.
    assert_eq!(
        reason(Role::Request, 0x0F, &[0, 0, 0, 9, 1, 1]),
        "Write Multiple Coils: 9 coils do not fit in 1 bytes"
    );
    assert_eq!(
        reason(Role::Response, 0x10, &[1]),
        "Write Holding Registers response: expected 4 bytes, got 1"
    );
    assert_eq!(
        reason(Role::Request, 0x10, &[1]),
        "Write Holding Registers request: expected ≥5 bytes, got 1"
    );
    assert_eq!(
        reason(Role::Request, 0x10, &[0, 0, 0, 2, 2, 0, 1]),
        "Write Holding Registers: inconsistent count 2 / byte count 2 / 2 bytes"
    );
}

#[test]
fn slave_id_and_files() {
    assert_eq!(
        details(Role::Response, 0x11, &[3, 0x21, 0x42, 0xFF]),
        PduDetails::ReportSlaveIdResp { slave_id: vec![0x21, 0x42], run_indicator: 0xFF }
    );
    assert_eq!(reason(Role::Request, 0x11, &[]), "Report Slave ID (request, no data)");
    assert_eq!(
        reason(Role::Request, 0x11, &[1]),
        "Report Slave ID request: expected 0 bytes, got 1"
    );
    assert_eq!(reason(Role::Response, 0x11, &[]), "Report Slave ID response: empty");
    assert_eq!(
        reason(Role::Response, 0x11, &[0]),
        "Report Slave ID: byte count 0 but 0 data bytes"
    );
    assert_eq!(
        details(Role::Request, 0x14, &[9, 6, 0, 4, 0, 1, 0, 2, 0xAA, 0xBB]),
        PduDetails::ReadFileRecordsReq {
            sub_requests: vec![FileSubRequest {
                reference_type: 6,
                file_number: 4,
                record_number: 1,
                record_length: 2,
            }],
        }
    );
    assert_eq!(
        details(Role::Response, 0x14, &[2, 1, 6]),
        PduDetails::ReadFileRecordsResp { byte_count: 2, data: vec![1, 6] }
    );
    assert_eq!(
        details(Role::Request, 0x15, &[1, 6]),
        PduDetails::WriteFileRecords { byte_count: 1, data: vec![6] }
    );
    assert_eq!(reason(Role::Request, 0x14, &[]), "Read File Records: empty");
    assert_eq!(
        reason(Role::Request, 0x15, &[4, 6]),
        "Write File Records: byte count 4 but 1 data bytes"
    );
}

#[test]
fn mask_and_combined_writes() {
    assert_eq!(
        details(Role::Response, 0x16, &be(&[4, 0x00F2, 0x0025])),
        PduDetails::MaskWriteRegReq { addr: 4, and_mask: 0xF2, or_mask: 0x25 }
    );
    assert_eq!(reason(Role::Request, 0x16, &[0]), "Mask Write Register: expected 6 bytes, got 1");
    assert_eq!(
        details(Role::Request, 0x17, &[0, 3, 0, 6, 0, 14, 0, 1, 2, 0, 0xFF]),
        PduDetails::ReadWriteMultipleRegsReq {
            read_start: 3,
            read_count: 6,
            write_start: 14,
            write_count: 1,
            write_values: vec![0xFF],
        }
    );
    assert_eq!(
        details(Role::Response, 0x17, &[2, 0, 0xFE]),
        PduDetails::ReadWriteMultipleRegsResp { read_values: vec![0xFE] }
    );
    assert_eq!(
        reason(Role::Response, 0x17, &[]),
        "Read/Write Multiple Registers response: empty"
    );
    assert_eq!(
        reason(Role::Response, 0x17, &[3, 1]),
        "Read/Write Multiple Registers response: bad byte count 3"
    );
    assert_eq!(
        reason(Role::Request, 0x17, &[1]),
        "Read/Write Multiple Registers request: expected ≥9 bytes, got 1"
    );
    assert_eq!(
        reason(Role::Request, 0x17, &[0, 0, 0, 0, 0, 0, 0, 2, 2, 0, 0]),
        "Read/Write Multiple Registers request: inconsistent write count"
    );
}

#[test]
fn queue_and_transport() {
    assert_eq!(
        details(Role::Response, 0x18, &[0, 6, 0, 2, 0, 0x0A, 0, 0x0B]),
        PduDetails::ReadFifoQueueResp { fifo_count: 2, values: vec![0x0A, 0x0B] }
    );
    assert_eq!(
        details(Role::Response, 0x18, &[0, 2, 0, 0]),
        PduDetails::ReadFifoQueueResp { fifo_count: 0, values: vec![] }
    );
    // A count that is not the number of values is no response.
    assert_eq!(
        reason(Role::Response, 0x18, &[0, 4, 0, 2, 0, 0x0A]),
        "Read FIFO Queue response: queue count 2 but 2 value bytes"
    );
    assert_eq!(
        reason(Role::Response, 0x18, &[0, 2, 0, 5]),
        "Read FIFO Queue response: queue count 5 but 0 value bytes"
    );
    assert_eq!(
        reason(Role::Response, 0x18, &[0, 6, 0, 1, 0, 0x0A, 0, 0x0B]),
        "Read FIFO Queue response: queue count 1 but 4 value bytes"
    );
    assert_eq!(
        reason(Role::Request, 0x18, &[0x04, 0xDE]),
        "Read FIFO Queue (request, addr 0x04DE)"
    );
    assert_eq!(
        reason(Role::Request, 0x18, &[1]),
        "Read FIFO Queue request: expected 2 bytes, got 1"
    );
    assert_eq!(
        reason(Role::Response, 0x18, &[0, 1, 0]),
        "Read FIFO Queue response: expected ≥4 bytes, got 3"
    );
    assert_eq!(
        reason(Role::Response, 0x18, &[0, 9, 0, 0]),
        "Read FIFO Queue response: byte count 9 but 2 bytes"
    );
    assert_eq!(
        details(Role::Unknown, 0x2B, &[0x0E, 0x01]),
        PduDetails::EncapsulatedInterface { mei_type: 0x0E, data: vec![0x01] }
    );
    assert_eq!(reason(Role::Unknown, 0x2B, &[]), "Encapsulated Interface Transport: empty");
}

#[test]
fn exceptions_and_unknown_codes() {
    assert_eq!(
        reason(Role::Unknown, 0x90, &[]),
        "Exception response missing exception code"
    );
    assert_eq!(
        reason(Role::Unknown, 0x90, &[1, 2]),
        "Exception response for Write Holding Registers has extra bytes (expected 1, got 2)"
    );
    assert_eq!(reason(Role::Unknown, 0x5A, &[]), "Unknown Function 0x5A");
    // An exception is a response whatever the hint says.
    assert_eq!(parse_pdu(Role::Request, 0x83, &[1]).role, Role::Response);
}

#[test]
fn every_name() {
    let names = [
        (0x02, "Read Discrete Inputs"),
        (0x04, "Read Input Registers"),
        (0x05, "Write Single Coil"),
        (0x06, "Write Single Register"),
        (0x07, "Read Exception Status"),
        (0x08, "Diagnostics"),
        (0x0B, "Get Comm Event Counter"),
        (0x0C, "Get Comm Event Log"),
        (0x0F, "Write Multiple Coils"),
        (0x11, "Report Slave ID"),
        (0x14, "Read File Records"),
        (0x15, "Write File Records"),
        (0x16, "Mask Write Register"),
        (0x17, "Read/Write Multiple Registers"),
        (0x18, "Read FIFO Queue"),
        (0x2B, "Encapsulated Interface Transport"),
        (0x00, "Unknown Function"),
    ];
    for (fc, name) in names {
        assert_eq!(function_name(fc), name);
    }
    let texts = [
        (1, "Illegal Function"),
        (3, "Illegal Data Value"),
        (4, "Slave Device Failure"),
        (5, "Acknowledge"),
        (6, "Slave Device Busy"),
        (7, "Unknown Exception"),
        (8, "Memory Parity Error"),
        (10, "Gateway Path Unavailable"),
        (11, "Gateway Target No Response"),
    ];
    for (code, text) in texts {
        assert_eq!(exception_text(code), text);
    }
}

#[test]
fn cloned_pdu_is_equal() {
    let pdu = parse_pdu(Role::Unknown, 0x10, &[0, 0, 0, 1, 2, 0, 7]);
    assert_eq!(pdu.clone(), pdu);
}
