use repomons::units::{bytes_to_max_units, bytes_to_rate, ByteUnits, Error};

#[test]
fn to_percent() {
    assert_eq!(repomons::units::to_percent(25, 100).expect("invalid percent"), "25%");
    assert_eq!(repomons::units::to_percent(50, 100).expect("invalid percent"), "50%");
    assert_eq!(repomons::units::to_percent(75, 100).expect("invalid percent"), "75%");
    assert_eq!(repomons::units::to_percent(1, 100).expect("invalid percent"), "1%");
    assert_eq!(repomons::units::to_percent(1, 1000).expect("invalid percent"), "0%");
    assert_eq!(repomons::units::to_percent(10, 1000).expect("invalid percent"), "1%");
}

#[test]
fn bytes_to_string() {
    assert_eq!(repomons::units::bytes_to_string(512).expect(""), "512 B");
    assert_eq!(repomons::units::bytes_to_string(1023).expect(""), "1023 B");
    assert_eq!(repomons::units::bytes_to_string(1024).expect(""), "1.00 KiB");
    assert_eq!(repomons::units::bytes_to_string(1_048_575).expect(""), "1023.99 KiB");
    assert_eq!(repomons::units::bytes_to_string(1_048_576).expect(""), "1.00 MiB");
    assert_eq!(
        repomons::units::bytes_to_string(1_073_741_823).expect(""),
        "1023.99 MiB"
    );
    assert_eq!(repomons::units::bytes_to_string(1_073_741_824).expect(""), "1.00 GiB");
    assert_eq!(
        repomons::units::bytes_to_string(1_099_511_627_775).expect(""),
        "1023.99 GiB"
    );
    assert_eq!(
        repomons::units::bytes_to_string(1_099_511_627_776).expect(""),
        "1.00 TiB"
    );
    assert_eq!(
        repomons::units::bytes_to_string(1_125_899_906_842_623).expect(""),
        "1023.99 TiB"
    );
    assert_eq!(
        repomons::units::bytes_to_string(1_125_899_906_842_624).expect(""),
        "1.00 PiB"
    );
    assert_eq!(
        repomons::units::bytes_to_string(1_152_921_504_606_846_975).expect(""),
        "1023.99 PiB"
    );
    assert_eq!(
        repomons::units::bytes_to_string(1_152_921_504_606_846_976).expect(""),
        "1.00 EiB"
    );
    assert_eq!(
        repomons::units::bytes_to_string(usize::MAX).expect(""),
        "15.01 EiB"
    );
}

#[test]
fn percent_of_zero_total_is_an_error() {
    assert_eq!(repomons::units::to_percent(3, 0), Err(Error::DivideByZero));
    assert_eq!(repomons::units::to_percent(0, 0), Err(Error::DivideByZero));
}

#[test]
fn percent_rounds_down() {
    assert_eq!(repomons::units::to_percent(29, 100).unwrap(), "29%");
    assert_eq!(repomons::units::to_percent(2, 3).unwrap(), "66%");
    assert_eq!(repomons::units::to_percent(7, 7).unwrap(), "100%");
    assert_eq!(repomons::units::to_percent(0, 5).unwrap(), "0%");
}

#[test]
fn byte_units_by_index() {
    assert_eq!(ByteUnits::try_from(0), Ok(ByteUnits::Byte));
    assert_eq!(ByteUnits::try_from(3), Ok(ByteUnits::Gibibyte));
    assert_eq!(ByteUnits::try_from(6), Ok(ByteUnits::Exbibyte));
    assert_eq!(ByteUnits::try_from(7), Err(Error::UnsupportedUnits));
    assert_eq!(ByteUnits::Mebibyte.symbol(), "MiB");
}

#[test]
fn max_units_of_byte_counts() {
    assert_eq!(bytes_to_max_units(0), Ok((ByteUnits::Byte, 0, 0)));
    assert_eq!(bytes_to_max_units(1023), Ok((ByteUnits::Byte, 1023, 0)));
    assert_eq!(bytes_to_max_units(1024), Ok((ByteUnits::Kibibyte, 1, 1)));
    assert_eq!(bytes_to_max_units(3 * 1024 * 1024), Ok((ByteUnits::Mebibyte, 3, 3)));
    assert_eq!(bytes_to_max_units(usize::MAX), Ok((ByteUnits::Exbibyte, 15, 15)));
}

#[test]
fn zero_bytes_string() {
    assert_eq!(repomons::units::bytes_to_string(0).unwrap(), "0 B");
}

#[test]
fn rates_per_second() {
    assert_eq!(bytes_to_rate(512, 2_000_000_000).unwrap(), "256 B/s");
    assert_eq!(bytes_to_rate(3, 2_000_000_000).unwrap(), "1.5 B/s");
    assert_eq!(bytes_to_rate(1000, 3_000_000_000).unwrap(), "333.33 B/s");
    assert_eq!(bytes_to_rate(2048, 1_000_000_000).unwrap(), "2.00 KiB/s");
    assert_eq!(bytes_to_rate(1_572_864, 1_000_000_000).unwrap(), "1.50 MiB/s");
    assert_eq!(bytes_to_rate(0, 1_000_000_000).unwrap(), "0 B/s");
}

#[test]
fn rate_errors() {
    assert_eq!(bytes_to_rate(100, 0), Err(Error::NoTimeElapsed));
    let too_long: u128 = (u32::MAX as u128 + 1) * 1_000_000_000;
    assert_eq!(bytes_to_rate(100, too_long), Err(Error::ElapsedTooLong));
    assert!(bytes_to_rate(100, too_long - 1).is_ok());
}
