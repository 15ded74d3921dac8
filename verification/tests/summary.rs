use cpu_power_manager::summary::{average_frequency, temperature_level, TemperatureLevel};

#[test]
fn mean_frequency_rounds_down() {
    assert_eq!(average_frequency(&vec![1800, 1900, 2000, 2100]), Some(1950));
    assert_eq!(average_frequency(&vec![1, 2]), Some(1));
    assert_eq!(average_frequency(&vec![3600]), Some(3600));
    assert_eq!(average_frequency(&Vec::new()), None);
}

#[test]
fn mean_frequency_does_not_overflow() {
    assert_eq!(average_frequency(&vec![u32::MAX; 5]), Some(u32::MAX));
    assert_eq!(average_frequency(&vec![u32::MAX, 0]), Some(u32::MAX / 2));
}

#[test]
fn temperature_levels_change_at_sixty_seventy_five_and_eighty_five_degrees() {
    assert_eq!(temperature_level(-10_000), TemperatureLevel::Normal);
    assert_eq!(temperature_level(59_999), TemperatureLevel::Normal);
    assert_eq!(temperature_level(60_000), TemperatureLevel::Warm);
    assert_eq!(temperature_level(74_999), TemperatureLevel::Warm);
    assert_eq!(temperature_level(75_000), TemperatureLevel::Hot);
    assert_eq!(temperature_level(84_999), TemperatureLevel::Hot);
    assert_eq!(temperature_level(85_000), TemperatureLevel::Critical);
    assert_eq!(temperature_level(i32::MAX), TemperatureLevel::Critical);
}
