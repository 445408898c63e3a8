use rut_lib::{Error, Format, Rut};

#[test]
fn from() {
    let valid_rut = ["17951585-7", "5.665.328-7", "241367738"];
    for rut in valid_rut.iter() {
        assert!(Rut::from(rut).is_ok())
    }
}

#[test]
fn from_number() {
    let valid_rut = [(17951585, '7'), (12621806, '0'), (24136773, '8')];

    for (number, dv) in valid_rut.iter() {
        let rut = Rut::from_number(*number).unwrap();
        assert_eq!(rut.number(), number);
        assert_eq!(rut.dv(), dv);
    }
}

#[test]
fn to_format() {
    let rut_tuple = [
        (
            "17951585-7",
            Rut::from_number(17951585).unwrap(),
            Format::DASH,
        ),
        (
            "5.665.328-7",
            Rut::from_number(5665328).unwrap(),
            Format::DOTS,
        ),
        (
            "241367738",
            Rut::from_number(24136773).unwrap(),
            Format::NONE,
        ),
    ];

    for (input, rut, format) in rut_tuple.iter() {
        assert_eq!(rut.to_format(*format), *input)
    }
}

#[test]
fn randomize() {
    let rut = Rut::randomize();
    assert_eq!(rut.to_string(), rut.to_string())
}

#[test]
fn wrong_dv() {
    assert_eq!(
        Rut::from("17951585-K").unwrap_err().to_string(),
        Error::InvalidDV {
            must_be: '7',
            instead: 'K'
        }
        .to_string()
    )
}

#[test]
fn invalid_format() {
    assert_eq!(
        Rut::from("17.951,585-7").unwrap_err().to_string(),
        Error::InvalidFormat.to_string()
    )
}

#[test]
fn out_of_range() {
    assert_eq!(
        Rut::from_number(999999).unwrap_err().to_string(),
        Error::OutOfRange.to_string()
    );
    assert_eq!(
        Rut::from_number(100000000).unwrap_err().to_string(),
        Error::OutOfRange.to_string()
    );
}

#[test]
fn from_gives_number_and_dv() {
    let rut = Rut::from("17951585-7").unwrap();
    assert_eq!(*rut.number(), 17951585);
    assert_eq!(*rut.dv(), '7');
    let rut = Rut::from("5.665.328-7").unwrap();
    assert_eq!(*rut.number(), 5665328);
    assert_eq!(*rut.dv(), '7');
    let rut = Rut::from("241367738").unwrap();
    assert_eq!(*rut.number(), 24136773);
    assert_eq!(*rut.dv(), '8');
}

#[test]
fn from_takes_every_placing_of_dots_and_dash() {
    let texts = [
        "17951585-7",
        "179515857",
        "17.951.585-7",
        "17.951.5857",
        "17.951585-7",
        "17951.585-7",
        "17.9515857",
        "17951.5857",
    ];
    for text in texts.iter() {
        assert_eq!(Rut::from(text), Rut::from_number(17951585));
    }
}

#[test]
fn from_takes_the_letter_in_either_case() {
    let upper = Rut::from("1.000.005-K").unwrap();
    let lower = Rut::from("1.000.005-k").unwrap();
    assert_eq!(upper, lower);
    assert_eq!(*lower.dv(), 'K');
    assert_eq!(*lower.number(), 1000005);
    assert_eq!(lower.to_string(), "1000005-K");
}

#[test]
fn from_takes_leading_zeros() {
    let rut = Rut::from("01.234.567-4").unwrap();
    assert_eq!(*rut.number(), 1234567);
    assert_eq!(rut.to_format(Format::DOTS), "1.234.567-4");
}

#[test]
fn from_rejects_malformed_texts() {
    let texts = [
        "",
        "7",
        "17.951,585-7",
        "17,951,585-7",
        "17951585--7",
        "17951585-",
        "-17951585-7",
        "17951585-7 ",
        " 17951585-7",
        "17951585-7\n",
        "1795158-",
        "179515-7",
        "123456",
        "1234567",
        "1234567890",
        "179.51.585-7",
        "17..951.585-7",
        "17.951..585-7",
        "17.951.585.7",
        "17.951.585-X",
        "17.951.58K-7",
        "1.7951.585-7",
        "١٧٩٥١٥٨٥-٧",
        "17951585-\u{212A}",
    ];
    for text in texts.iter() {
        assert_eq!(Rut::from(text), Err(Error::InvalidFormat), "{:?}", text);
    }
}

#[test]
fn from_reports_the_mismatch() {
    assert_eq!(
        Rut::from("17951585-K"),
        Err(Error::InvalidDV {
            must_be: '7',
            instead: 'K'
        })
    );
    assert_eq!(
        Rut::from("17.951.585-k"),
        Err(Error::InvalidDV {
            must_be: '7',
            instead: 'K'
        })
    );
    assert_eq!(
        Rut::from("1.000.005-9"),
        Err(Error::InvalidDV {
            must_be: 'K',
            instead: '9'
        })
    );
}

#[test]
fn from_judges_the_number_before_the_dv() {
    assert_eq!(Rut::from("0.999.999-K"), Err(Error::OutOfRange));
    assert_eq!(Rut::from("0.999.999-1"), Err(Error::OutOfRange));
    assert_eq!(Rut::from("00.000.000-0"), Err(Error::OutOfRange));
    assert_eq!(Rut::from("99.999.999-9"), Err(Error::OutOfRange));
    assert_eq!(Rut::from("99.999.998-0"), Rut::from_number(99999998));
    assert_eq!(Rut::from("1.000.000-9"), Rut::from_number(1000000));
}

#[test]
fn from_number_at_the_bounds() {
    assert_eq!(Rut::from_number(0), Err(Error::OutOfRange));
    assert_eq!(Rut::from_number(999_999), Err(Error::OutOfRange));
    let least = Rut::from_number(1_000_000).unwrap();
    assert_eq!(*least.number(), 1_000_000);
    assert_eq!(*least.dv(), '9');
    let greatest = Rut::from_number(99_999_998).unwrap();
    assert_eq!(*greatest.number(), 99_999_998);
    assert_eq!(*greatest.dv(), '0');
    assert_eq!(Rut::from_number(99_999_999), Err(Error::OutOfRange));
    assert_eq!(Rut::from_number(100_000_000), Err(Error::OutOfRange));
    assert_eq!(Rut::from_number(u32::MAX), Err(Error::OutOfRange));
}

#[test]
fn generate_dv_known_values() {
    assert_eq!(Rut::generate_dv(17951585), '7');
    assert_eq!(Rut::generate_dv(12621806), '0');
    assert_eq!(Rut::generate_dv(24136773), '8');
    assert_eq!(Rut::generate_dv(5665328), '7');
    assert_eq!(Rut::generate_dv(1000005), 'K');
    assert_eq!(Rut::generate_dv(20000003), 'K');
    assert_eq!(Rut::generate_dv(1000013), '0');
    assert_eq!(Rut::generate_dv(99999999), '9');
    assert_eq!(Rut::generate_dv(999999), 'K');
    assert_eq!(Rut::generate_dv(0), '0');
    assert_eq!(Rut::generate_dv(u32::MAX), '0');
}

#[test]
fn generate_dv_gives_the_same_twice() {
    for number in [0u32, 7, 999_999, 17951585, 99_999_999, u32::MAX] {
        assert_eq!(Rut::generate_dv(number), Rut::generate_dv(number));
    }
}

#[test]
fn to_format_in_each_format() {
    let rut = Rut::from_number(5665328).unwrap();
    assert_eq!(*rut.dv(), '7');
    assert_eq!(rut.to_format(Format::DOTS), "5.665.328-7");
    assert_eq!(rut.to_format(Format::DASH), "5665328-7");
    assert_eq!(rut.to_format(Format::NONE), "56653287");
    assert_eq!(rut.to_string(), "5665328-7");
}

#[test]
fn to_format_keeps_zeros_inside_groups() {
    let rut = Rut::from_number(1_000_005).unwrap();
    assert_eq!(rut.to_format(Format::DOTS), "1.000.005-K");
    assert_eq!(rut.to_format(Format::DASH), "1000005-K");
    assert_eq!(rut.to_format(Format::NONE), "1000005K");
    let rut = Rut::from_number(20_000_003).unwrap();
    assert_eq!(rut.to_format(Format::DOTS), "20.000.003-K");
    let rut = Rut::from_number(10_203_040).unwrap();
    assert_eq!(rut.to_format(Format::DOTS), format!("10.203.040-{}", rut.dv()));
}

#[test]
fn randomize_gives_valid_ruts() {
    let mut numbers = Vec::new();
    for _ in 0..64 {
        let rut = Rut::randomize();
        assert!(1_000_000 <= *rut.number() && *rut.number() < 99_999_999);
        assert_eq!(*rut.dv(), Rut::generate_dv(*rut.number()));
        assert_eq!(Rut::from_number(*rut.number()), Ok(rut));
        numbers.push(*rut.number());
    }
    assert!(numbers.iter().any(|number| *number != numbers[0]));
}

#[test]
fn error_messages() {
    assert_eq!(Error::InvalidFormat.to_string(), "The input format is invalid");
    assert_eq!(
        Error::InvalidDV {
            must_be: '7',
            instead: 'K'
        }
        .to_string(),
        "Invalid DV, must be 7, instead K."
    );
    assert_eq!(
        Error::OutOfRange.to_string(),
        "The input number must be between 1.000.000 to 99.999.999"
    );
}
