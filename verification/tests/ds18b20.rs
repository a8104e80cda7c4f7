use centinela::ds18b20::{crc8, parse_scratchpad, SCRATCHPAD_LEN};
use centinela::{Celsius, Resolution, ThermometerError};

const TAIL: [u8; 6] = [0x4B, 0x46, 0x7F, 0xFF, 0x0C, 0x10];

fn scratchpad(lsb: u8, msb: u8, crc: u8) -> [u8; SCRATCHPAD_LEN] {
    let mut bytes = [0u8; SCRATCHPAD_LEN];
    bytes[0] = lsb;
    bytes[1] = msb;
    bytes[2..8].copy_from_slice(&TAIL);
    bytes[8] = crc;

    bytes
}

#[test]
fn the_power_on_scratchpad_reads_85_degrees() {
    let parsed = parse_scratchpad(&scratchpad(0x50, 0x05, 0x1C));

    assert_eq!(parsed, Ok(Celsius::from_sixteenths(1360)));
    assert_eq!(parsed.unwrap().millidegrees(), 85_000);
}

#[test]
fn positive_and_negative_temperatures_decode() {
    assert_eq!(
        parse_scratchpad(&scratchpad(0x91, 0x01, 0x70))
            .unwrap()
            .microdegrees(),
        25_062_500
    );
    assert_eq!(
        parse_scratchpad(&scratchpad(0x6F, 0xFE, 0xE8))
            .unwrap()
            .microdegrees(),
        -25_062_500
    );
    assert_eq!(
        parse_scratchpad(&scratchpad(0x90, 0xFC, 0x4F))
            .unwrap()
            .millidegrees(),
        -55_000
    );
}

#[test]
fn a_corrupted_scratchpad_is_rejected() {
    let mut bytes = scratchpad(0x50, 0x05, 0x1C);
    bytes[1] ^= 0x01;

    assert_eq!(parse_scratchpad(&bytes), Err(ThermometerError::Crc));
}

#[test]
fn a_wrong_checksum_is_rejected() {
    assert_eq!(
        parse_scratchpad(&scratchpad(0x50, 0x05, 0x1D)),
        Err(ThermometerError::Crc)
    );
}

#[test]
fn resolutions_match_the_datasheet_config_register() {
    assert_eq!(Resolution::Bits9.config_byte(), 0x1F);
    assert_eq!(Resolution::Bits10.config_byte(), 0x3F);
    assert_eq!(Resolution::Bits11.config_byte(), 0x5F);
    assert_eq!(Resolution::Bits12.config_byte(), 0x7F);
}

#[test]
fn conversion_time_halves_with_every_dropped_bit() {
    assert_eq!(Resolution::Bits12.conversion_ms(), 750);
    assert_eq!(Resolution::Bits11.conversion_ms(), 375);
    assert_eq!(Resolution::Bits10.conversion_ms(), 188);
    assert_eq!(Resolution::Bits9.conversion_ms(), 94);
}

#[test]
fn the_step_is_the_smallest_distinguishable_change() {
    assert_eq!(Resolution::Bits12.step().millidegrees(), 63);
    assert_eq!(Resolution::Bits11.step().millidegrees(), 125);
    assert_eq!(Resolution::Bits10.step().millidegrees(), 250);
    assert_eq!(Resolution::Bits9.step().millidegrees(), 500);
}

#[test]
fn the_reserved_tail_carries_the_configured_resolution() {
    assert_eq!(TAIL[2], Resolution::Bits12.config_byte());
}

#[test]
fn a_floating_bus_is_rejected() {
    assert_eq!(
        parse_scratchpad(&[0xFF; SCRATCHPAD_LEN]),
        Err(ThermometerError::Crc)
    );
}

#[test]
fn every_change_of_one_byte_is_rejected() {
    let sent = scratchpad(0x91, 0x01, 0x70);

    for at in 0..SCRATCHPAD_LEN {
        for error in 1..=255u8 {
            let mut received = sent;
            received[at] ^= error;

            assert_eq!(
                parse_scratchpad(&received),
                Err(ThermometerError::Crc),
                "byte {at} changed by {error:#04x}"
            );
        }
    }
}

#[test]
fn the_checksum_of_the_data_bytes_is_the_last_byte() {
    assert_eq!(crc8(&scratchpad(0x50, 0x05, 0x1C)[..8]), 0x1C);
    assert_eq!(crc8(&scratchpad(0x90, 0xFC, 0x4F)[..8]), 0x4F);
    assert_eq!(crc8(&scratchpad(0x50, 0x05, 0x1C)), 0);
    assert_eq!(crc8(&[]), 0);
    assert_eq!(crc8(&[0x02, 0x1C, 0xB8, 0x01, 0x00, 0x00, 0x00]), 0xA2);
}

#[test]
fn a_quiet_bus_held_low_reads_as_zero_degrees() {
    assert_eq!(
        parse_scratchpad(&[0x00; SCRATCHPAD_LEN]),
        Ok(Celsius::zero())
    );
}

#[test]
fn resolutions_are_ordered_by_their_bits() {
    assert!(Resolution::Bits9 < Resolution::Bits10);
    assert!(Resolution::Bits10 < Resolution::Bits11);
    assert!(Resolution::Bits11 < Resolution::Bits12);
    assert_eq!(
        Resolution::Bits12.partial_cmp(&Resolution::Bits9),
        Some(Resolution::Bits12.cmp(&Resolution::Bits9))
    );
}
