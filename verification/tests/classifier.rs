use scale_to_zero::classifier::{
    destination, is_scalable_dst, read_be16, read_be32, try_xdp_scale_to_zero_fw, verdict_for,
    xdp_scale_to_zero_fw, Verdict, ETH_HDR_LEN, IPV4_HDR_LEN, XDP_ABORTED, XDP_DROP, XDP_PASS,
};
use scale_to_zero::model::{PacketLog, ACTION_OBSERVED, ACTION_WAKE};
use scale_to_zero::table::ServiceAvailability;

fn frame_with(ether_type: [u8; 2], dst: [u8; 4], len: usize) -> Vec<u8> {
    let mut frame = vec![0xEEu8; len];
    if len > 13 {
        frame[12] = ether_type[0];
        frame[13] = ether_type[1];
    }
    if len > 33 {
        frame[30] = dst[0];
        frame[31] = dst[1];
        frame[32] = dst[2];
        frame[33] = dst[3];
    }
    frame
}

fn ipv4_frame(dst: [u8; 4]) -> Vec<u8> {
    frame_with([0x08, 0x00], dst, 60)
}

fn table_with(ip: u32, flag: u32) -> ServiceAvailability {
    let mut table = ServiceAvailability::new();
    table.insert(ip, flag).unwrap();
    table
}

#[test]
fn action_codes_are_those_of_the_kernel() {
    assert_eq!(XDP_ABORTED, 0);
    assert_eq!(XDP_DROP, 1);
    assert_eq!(XDP_PASS, 2);
    assert_eq!(ETH_HDR_LEN, 14);
    assert_eq!(IPV4_HDR_LEN, 20);
}

#[test]
fn unmanaged_traffic_passes() {
    let table = ServiceAvailability::new();
    let v = xdp_scale_to_zero_fw(&ipv4_frame([8, 8, 8, 8]), &table);
    assert_eq!(v, Verdict { action: XDP_PASS, event: None });
}

#[test]
fn unmanaged_traffic_passes_beside_managed_addresses() {
    let table = table_with(0x0A000005, 0);
    let v = xdp_scale_to_zero_fw(&ipv4_frame([10, 0, 0, 6]), &table);
    assert_eq!(v, Verdict { action: XDP_PASS, event: None });
}

#[test]
fn scaled_down_service_drops_and_wakes() {
    let table = table_with(0x0A000005, 0);
    let v = xdp_scale_to_zero_fw(&ipv4_frame([10, 0, 0, 5]), &table);
    assert_eq!(v.action, XDP_DROP);
    assert_eq!(v.event, Some(PacketLog { ipv4_address: 0x0A000005, action: 1 }));
    assert_eq!(ACTION_WAKE, 1);
}

#[test]
fn available_service_passes_with_liveness_event() {
    let table = table_with(0x0A000005, 1);
    let v = xdp_scale_to_zero_fw(&ipv4_frame([10, 0, 0, 5]), &table);
    assert_eq!(v.action, XDP_PASS);
    assert_eq!(v.event, Some(PacketLog { ipv4_address: 0x0A000005, action: 0 }));
    assert_eq!(ACTION_OBSERVED, 0);
}

#[test]
fn any_nonzero_flag_counts_as_available() {
    let table = table_with(0xC0A80001, 7);
    let v = xdp_scale_to_zero_fw(&ipv4_frame([192, 168, 0, 1]), &table);
    assert_eq!(
        v,
        Verdict {
            action: XDP_PASS,
            event: Some(PacketLog { ipv4_address: 0xC0A80001, action: 0 })
        }
    );
}

#[test]
fn destination_is_read_in_network_byte_order() {
    let table = table_with(0x01020304, 0);
    let v = xdp_scale_to_zero_fw(&ipv4_frame([1, 2, 3, 4]), &table);
    assert_eq!(v.action, XDP_DROP);
    let v = xdp_scale_to_zero_fw(&ipv4_frame([4, 3, 2, 1]), &table);
    assert_eq!(v, Verdict { action: XDP_PASS, event: None });
}

#[test]
fn highest_address_is_read_whole() {
    let table = table_with(0xFFFFFFFF, 0);
    let v = xdp_scale_to_zero_fw(&ipv4_frame([255, 255, 255, 255]), &table);
    assert_eq!(v.event, Some(PacketLog { ipv4_address: 0xFFFFFFFF, action: 1 }));
}

#[test]
fn frame_without_ethernet_header_passes() {
    let table = table_with(0xEEEEEEEE, 0);
    for len in 0..14 {
        let v = xdp_scale_to_zero_fw(&frame_with([0x08, 0x00], [0xEE; 4], len), &table);
        assert_eq!(v, Verdict { action: XDP_PASS, event: None });
    }
}

#[test]
fn frame_without_whole_ipv4_header_passes() {
    let table = table_with(0xEEEEEEEE, 0);
    for len in 14..34 {
        let v = xdp_scale_to_zero_fw(&frame_with([0x08, 0x00], [0xEE; 4], len), &table);
        assert_eq!(v, Verdict { action: XDP_PASS, event: None });
    }
}

#[test]
fn shortest_whole_frame_is_classified() {
    let table = table_with(0x0A000005, 0);
    let v = xdp_scale_to_zero_fw(&frame_with([0x08, 0x00], [10, 0, 0, 5], 34), &table);
    assert_eq!(v.action, XDP_DROP);
}

#[test]
fn other_ether_types_pass() {
    let table = table_with(0x0A000005, 0);
    for ether_type in [[0x86u8, 0xDD], [0x08, 0x06], [0x00, 0x08], [0x08, 0x01]] {
        let v = xdp_scale_to_zero_fw(&frame_with(ether_type, [10, 0, 0, 5], 60), &table);
        assert_eq!(v, Verdict { action: XDP_PASS, event: None });
    }
}

#[test]
fn classifier_never_aborts() {
    let table = table_with(0x0A000005, 0);
    for len in 0..64 {
        let frame = frame_with([0x08, 0x00], [10, 0, 0, 5], len);
        let r = try_xdp_scale_to_zero_fw(&frame, &table);
        assert!(r.is_ok());
        assert_ne!(xdp_scale_to_zero_fw(&frame, &table).action, XDP_ABORTED);
    }
}

#[test]
fn try_and_entry_point_agree() {
    let table = table_with(0x0A000005, 1);
    let frame = ipv4_frame([10, 0, 0, 5]);
    assert_eq!(try_xdp_scale_to_zero_fw(&frame, &table), Ok(xdp_scale_to_zero_fw(&frame, &table)));
}

#[test]
fn big_endian_reads() {
    let bytes = [0x12u8, 0x34, 0x56, 0x78, 0x9A];
    assert_eq!(read_be16(&bytes, 0), Ok(0x1234));
    assert_eq!(read_be16(&bytes, 3), Ok(0x789A));
    assert_eq!(read_be16(&bytes, 4), Err(()));
    assert_eq!(read_be16(&bytes, usize::MAX), Err(()));
    assert_eq!(read_be32(&bytes, 0), Ok(0x12345678));
    assert_eq!(read_be32(&bytes, 1), Ok(0x3456789A));
    assert_eq!(read_be32(&bytes, 2), Err(()));
    assert_eq!(read_be32(&[], 0), Err(()));
    assert_eq!(read_be32(&[0xFF, 0xFF, 0xFF, 0xFF], 0), Ok(u32::MAX));
}

#[test]
fn lookup_of_a_destination() {
    let table = table_with(0x0A000005, 1);
    assert_eq!(is_scalable_dst(&table, 0x0A000005), Some(1));
    assert_eq!(is_scalable_dst(&table, 0x0A000006), None);
}

#[test]
fn destination_of_a_frame() {
    assert_eq!(destination(&ipv4_frame([10, 0, 0, 5])), Ok(Some(0x0A000005)));
    assert_eq!(destination(&frame_with([0x08, 0x00], [1, 2, 3, 4], 34)), Ok(Some(0x01020304)));
    assert_eq!(destination(&frame_with([0x08, 0x00], [1, 2, 3, 4], 33)), Ok(None));
    assert_eq!(destination(&frame_with([0x86, 0xDD], [1, 2, 3, 4], 60)), Ok(None));
    assert_eq!(destination(&[]), Ok(None));
}

#[test]
fn verdict_for_each_case() {
    let pass = Verdict { action: XDP_PASS, event: None };
    assert_eq!(verdict_for(None, None), pass);
    assert_eq!(verdict_for(None, Some(0)), pass);
    assert_eq!(verdict_for(Some(7), None), pass);
    assert_eq!(
        verdict_for(Some(7), Some(0)),
        Verdict { action: XDP_DROP, event: Some(PacketLog { ipv4_address: 7, action: 1 }) }
    );
    assert_eq!(
        verdict_for(Some(7), Some(1)),
        Verdict { action: XDP_PASS, event: Some(PacketLog { ipv4_address: 7, action: 0 }) }
    );
}
