use centinela::temperature::{SensorError, CONVERSION_MS};
use centinela::{Celsius, Resolution, TemperatureSensor, Thermometer, ThermometerError};

const DATASHEET_TABLE: [(i16, i32, i32); 10] = [
    (0x07D0u16 as i16, 125_000_000, 125_000),
    (0x0550u16 as i16, 85_000_000, 85_000),
    (0x0191u16 as i16, 25_062_500, 25_063),
    (0x00A2u16 as i16, 10_125_000, 10_125),
    (0x0008u16 as i16, 500_000, 500),
    (0x0000u16 as i16, 0, 0),
    (0xFFF8u16 as i16, -500_000, -500),
    (0xFF5Eu16 as i16, -10_125_000, -10_125),
    (0xFE6Fu16 as i16, -25_062_500, -25_063),
    (0xFC90u16 as i16, -55_000_000, -55_000),
];

#[test]
fn datasheet_values_convert_exactly_in_microdegrees() {
    for (sixteenths, microdegrees, _) in DATASHEET_TABLE {
        assert_eq!(
            Celsius::from_sixteenths(sixteenths).microdegrees(),
            microdegrees,
            "sixteenths {sixteenths}"
        );
    }
}

#[test]
fn millidegrees_rounds_half_away_from_zero() {
    for (sixteenths, _, millidegrees) in DATASHEET_TABLE {
        assert_eq!(
            Celsius::from_sixteenths(sixteenths).millidegrees(),
            millidegrees,
            "sixteenths {sixteenths}"
        );
    }
}

#[test]
fn sixteenths_survive_a_round_trip() {
    for (sixteenths, _, _) in DATASHEET_TABLE {
        assert_eq!(
            Celsius::from_sixteenths(sixteenths).sixteenths(),
            sixteenths
        );
    }
}

#[test]
fn whole_degrees_truncate_towards_zero() {
    assert_eq!(Celsius::from_sixteenths(401).whole_degrees(), 25);
    assert_eq!(Celsius::from_sixteenths(-401).whole_degrees(), -25);
    assert_eq!(Celsius::zero().whole_degrees(), 0);
}

#[test]
fn ordering_follows_the_temperature() {
    let mut readings = [
        Celsius::from_sixteenths(8),
        Celsius::from_sixteenths(-880),
        Celsius::zero(),
    ];
    readings.sort();
    assert_eq!(
        readings,
        [
            Celsius::from_sixteenths(-880),
            Celsius::zero(),
            Celsius::from_sixteenths(8),
        ]
    );
}

#[test]
fn comparison_agrees_with_sorting() {
    let cold = Celsius::from_sixteenths(-880);
    let warm = Celsius::from_sixteenths(8);

    assert!(cold < Celsius::zero());
    assert!(Celsius::zero() < warm);
    assert!(!(warm < cold));
    assert_eq!(cold.partial_cmp(&warm), Some(cold.cmp(&warm)));
    assert_eq!(warm.partial_cmp(&warm), Some(warm.cmp(&warm)));
}

#[test]
fn the_extremes_of_the_word_convert() {
    let lowest = Celsius::from_sixteenths(i16::MIN);
    let highest = Celsius::from_sixteenths(i16::MAX);

    assert_eq!(lowest.microdegrees(), -2_048_000_000);
    assert_eq!(lowest.millidegrees(), -2_048_000);
    assert_eq!(lowest.whole_degrees(), -2048);
    assert_eq!(highest.microdegrees(), 2_047_937_500);
    assert_eq!(highest.millidegrees(), 2_047_938);
    assert_eq!(highest.whole_degrees(), 2047);
}

#[test]
fn half_a_degree_below_zero_keeps_its_sign() {
    assert_eq!(Celsius::from_sixteenths(-8).render(), "-0.500 °C");
}

#[test]
fn temperatures_render_with_three_decimals() {
    assert_eq!(Celsius::zero().render(), "0.000 °C");
    assert_eq!(Celsius::from_sixteenths(276).render(), "17.250 °C");
    assert_eq!(Celsius::from_sixteenths(1).render(), "0.063 °C");
    assert_eq!(Celsius::from_sixteenths(-401).render(), "-25.063 °C");
    assert_eq!(Celsius::from_sixteenths(2000).render(), "125.000 °C");
    assert_eq!(Celsius::from_sixteenths(i16::MIN).render(), "-2048.000 °C");
}

#[test]
fn errors_say_what_happened() {
    assert_eq!(
        SensorError::NotPresent.message(),
        "no sensor present on the bus"
    );
    assert_eq!(
        SensorError::Crc.message(),
        "sensor payload failed its checksum"
    );
    assert_eq!(
        SensorError::Timeout.message(),
        "sensor did not respond in time"
    );
    assert_eq!(SensorError::Bus.message(), "sensor bus failure");
}

#[test]
fn the_longest_conversion_is_that_of_the_finest_resolution() {
    assert_eq!(Resolution::Bits12.conversion_ms(), CONVERSION_MS);
}

struct Bench {
    started: bool,
}

impl TemperatureSensor for Bench {
    fn start_conversion(&mut self) -> Result<(), SensorError> {
        self.started = true;
        Ok(())
    }

    fn read_conversion(&mut self) -> Result<Celsius, SensorError> {
        if self.started {
            Ok(Celsius::from_sixteenths(401))
        } else {
            Err(SensorError::Timeout)
        }
    }
}

impl Thermometer for Bench {
    fn read(&mut self) -> Result<Celsius, ThermometerError> {
        self.start_conversion()?;
        self.read_conversion()
    }
}

#[test]
fn the_ports_can_be_implemented() {
    let mut bench = Bench { started: false };

    assert_eq!(bench.read_conversion(), Err(ThermometerError::Timeout));
    assert_eq!(bench.read(), Ok(Celsius::from_sixteenths(401)));
}
