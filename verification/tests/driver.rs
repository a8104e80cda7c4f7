use centinela::driver::{
    classify, command, discover, family_code, registers, Action, Event, ESP_ERR_NOT_FOUND,
    ESP_ERR_TIMEOUT,
};
use centinela::{Celsius, Ds18b20, Resolution, ThermometerError};

const ADDRESS: u64 = 0x5A00_0005_B1C2_3428;
const POWER_ON: [u8; 9] = [0x50, 0x05, 0x4B, 0x46, 0x7F, 0xFF, 0x0C, 0x10, 0x1C];
const OK: Event = Event::Done(Ok(()));

fn frame(instruction: u8) -> Action {
    Action::WriteCommand([
        0x55, 0x28, 0x34, 0xC2, 0xB1, 0x05, 0x00, 0x00, 0x5A, instruction,
    ])
}

/// Runs the sampling steps up to the point where the scratchpad is read.
fn sample(driver: &mut Ds18b20, first: Action) {
    assert_eq!(first, Action::Reset);
    assert_eq!(driver.resume(OK), frame(0x44));
    assert_eq!(driver.resume(OK), Action::Delay(425));
    assert_eq!(driver.resume(OK), Action::Reset);
    assert_eq!(driver.resume(OK), frame(0xBE));
    assert_eq!(driver.resume(OK), Action::ReadScratchpad);
}

/// A driver that has found, configured and read its device once.
fn primed() -> Ds18b20 {
    let mut driver = Ds18b20::new(Resolution::Bits11);
    assert_eq!(driver.begin(), Action::Search);
    assert_eq!(
        driver.resume(Event::Searched(Ok(Some(ADDRESS)))),
        Action::Reset
    );
    assert_eq!(driver.resume(OK), frame(0x4E));
    assert_eq!(
        driver.resume(OK),
        Action::WriteRegisters([0x4B, 0x46, 0x5F])
    );
    let first = driver.resume(OK);
    sample(&mut driver, first);
    assert_eq!(
        driver.resume(Event::Received(Ok(POWER_ON))),
        Action::Finish(Ok(Celsius::from_sixteenths(1360)))
    );
    driver
}

#[test]
fn an_unknown_device_is_found_configured_and_sampled() {
    primed();
}

#[test]
fn a_remembered_device_is_sampled_at_once() {
    let mut driver = primed();

    let first = driver.begin();
    sample(&mut driver, first);
    assert_eq!(
        driver.resume(Event::Received(Ok(POWER_ON))),
        Action::Finish(Ok(Celsius::from_sixteenths(1360)))
    );
    assert_eq!(driver.begin(), Action::Reset);
}

#[test]
fn a_checksum_failure_keeps_the_device() {
    let mut driver = primed();

    let first = driver.begin();
    sample(&mut driver, first);
    assert_eq!(
        driver.resume(Event::Received(Ok([0xFF; 9]))),
        Action::Finish(Err(ThermometerError::Crc))
    );
    assert_eq!(driver.begin(), Action::Reset);
}

#[test]
fn any_other_failure_forgets_the_device() {
    for (code, error) in [
        (ESP_ERR_TIMEOUT, ThermometerError::Timeout),
        (ESP_ERR_NOT_FOUND, ThermometerError::NotPresent),
        (0x103, ThermometerError::Bus),
    ] {
        let mut driver = primed();

        assert_eq!(driver.begin(), Action::Reset);
        assert_eq!(
            driver.resume(Event::Done(Err(code))),
            Action::Finish(Err(error))
        );
        assert_eq!(driver.begin(), Action::Search);
    }
}

#[test]
fn a_failed_transfer_of_the_scratchpad_forgets_the_device() {
    let mut driver = primed();

    let first = driver.begin();
    sample(&mut driver, first);
    assert_eq!(
        driver.resume(Event::Received(Err(ESP_ERR_TIMEOUT))),
        Action::Finish(Err(ThermometerError::Timeout))
    );
    assert_eq!(driver.begin(), Action::Search);
}

#[test]
fn a_failed_configuration_is_repeated_from_the_search() {
    let mut driver = Ds18b20::new(Resolution::Bits9);

    assert_eq!(driver.begin(), Action::Search);
    driver.resume(Event::Searched(Ok(Some(ADDRESS))));
    assert_eq!(
        driver.resume(Event::Done(Err(0x103))),
        Action::Finish(Err(ThermometerError::Bus))
    );
    assert_eq!(driver.begin(), Action::Search);
}

#[test]
fn an_empty_bus_has_no_sensor() {
    let mut driver = Ds18b20::new(Resolution::Bits12);

    driver.begin();
    assert_eq!(
        driver.resume(Event::Searched(Ok(None))),
        Action::Finish(Err(ThermometerError::NotPresent))
    );
}

#[test]
fn a_device_of_another_family_is_no_sensor() {
    assert_eq!(
        discover(Ok(Some(0x5A00_0005_B1C2_3410))),
        Err(ThermometerError::NotPresent)
    );
    assert_eq!(discover(Ok(Some(ADDRESS))), Ok(ADDRESS));
    assert_eq!(discover(Ok(None)), Err(ThermometerError::NotPresent));
    assert_eq!(
        discover(Err(ESP_ERR_TIMEOUT)),
        Err(ThermometerError::Timeout)
    );
    assert_eq!(family_code(ADDRESS), 0x28);
}

#[test]
fn error_codes_fall_into_three_classes() {
    assert_eq!(classify(0x107), ThermometerError::Timeout);
    assert_eq!(classify(0x105), ThermometerError::NotPresent);
    assert_eq!(classify(-1), ThermometerError::Bus);
    assert_eq!(classify(0x106), ThermometerError::Bus);
}

#[test]
fn commands_carry_the_address_low_byte_first() {
    let mut expected = [0u8; 10];
    expected[0] = 0x55;
    expected[1..9].copy_from_slice(&ADDRESS.to_le_bytes());
    expected[9] = 0x44;

    assert_eq!(command(ADDRESS, 0x44), expected);
    assert_eq!(command(u64::MAX, 0x00)[1..9], [0xFF; 8]);
}

#[test]
fn the_delay_grants_a_margin() {
    for (resolution, delay) in [
        (Resolution::Bits9, 144),
        (Resolution::Bits10, 238),
        (Resolution::Bits11, 425),
        (Resolution::Bits12, 800),
    ] {
        let mut driver = Ds18b20::new(resolution);
        driver.begin();
        driver.resume(Event::Searched(Ok(Some(ADDRESS))));
        for _ in 0..4 {
            driver.resume(OK);
        }
        assert_eq!(driver.resume(OK), Action::Delay(delay));
    }
}

#[test]
fn the_registers_hold_the_alarm_defaults_and_the_resolution() {
    assert_eq!(registers(Resolution::Bits9), [0x4B, 0x46, 0x1F]);
    assert_eq!(registers(Resolution::Bits12), [0x4B, 0x46, 0x7F]);
}

#[test]
fn the_operation_under_way_has_a_name() {
    let mut driver = Ds18b20::new(Resolution::Bits11);
    let mut names = vec![driver.operation()];

    driver.begin();
    names.push(driver.operation());
    driver.resume(Event::Searched(Ok(Some(ADDRESS))));
    for _ in 0..9 {
        names.push(driver.operation());
        if names.len() < 11 {
            driver.resume(OK);
        }
    }

    assert_eq!(
        names,
        [
            None,
            Some("search"),
            Some("write scratchpad"),
            Some("write scratchpad"),
            Some("write scratchpad"),
            Some("convert"),
            Some("convert"),
            Some("convert"),
            Some("read scratchpad"),
            Some("read scratchpad"),
            Some("read scratchpad"),
        ]
    );
}
