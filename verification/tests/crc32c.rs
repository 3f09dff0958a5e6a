use minibit::crc32c::crc32c;

/// The checksum computed one bit at a time, without a table.
fn crc32c_bitwise(data: &[u8]) -> u32 {
    let mut crc = 0xFFFF_FFFFu32;
    for &byte in data {
        crc ^= byte as u32;
        for _ in 0..8 {
            if crc & 1 != 0 {
                crc = (crc >> 1) ^ 0x82F6_3B78;
            } else {
                crc >>= 1;
            }
        }
    }
    !crc
}

#[test]
fn test_sw_vs_hw_consistency() {
    let test_data = b"Lorem ipsum dolor sit amet, consectetur adipiscing elit";
    let table_result = crc32c(test_data);
    assert_eq!(table_result, crc32c_bitwise(test_data));
    assert_eq!(crc32c(test_data), table_result);
}
