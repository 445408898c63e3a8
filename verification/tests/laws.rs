use rut_lib::{Error, Format, Rut};

const SAMPLES: [u32; 12] = [
    1_000_000, 1_000_005, 1_000_013, 1_234_567, 5_665_328, 9_999_999, 10_000_000, 12_621_806,
    17_951_585, 20_000_003, 24_136_773, 99_999_998,
];

const FORMATS: [Format; 3] = [Format::DOTS, Format::DASH, Format::NONE];

#[test]
fn parsing_a_rendered_rut_gives_it_back() {
    for number in SAMPLES {
        let rut = Rut::from_number(number).unwrap();
        assert_eq!(Rut::from(&rut.to_string()), Ok(rut));
        for format in FORMATS {
            let text = rut.to_format(format);
            let again = Rut::from(&text).unwrap();
            assert_eq!(again, rut);
            assert_eq!(again.number(), rut.number());
            assert_eq!(again.dv(), rut.dv());
        }
    }
}

#[test]
fn rendering_a_parsed_text_gives_the_same_text() {
    for number in SAMPLES {
        let rut = Rut::from_number(number).unwrap();
        for format in FORMATS {
            let text = rut.to_format(format);
            let again = Rut::from(&text).unwrap();
            assert_eq!(again.to_format(format), text);
        }
    }
}

#[test]
fn random_ruts_survive_the_round_trip() {
    for _ in 0..32 {
        let rut = Rut::randomize();
        for format in FORMATS {
            assert_eq!(Rut::from(&rut.to_format(format)), Ok(rut));
        }
    }
}

#[test]
fn from_number_succeeds_exactly_inside_the_interval() {
    for number in [
        0u32,
        1,
        999_999,
        1_000_000,
        1_000_001,
        50_000_000,
        99_999_998,
        99_999_999,
        100_000_000,
        u32::MAX,
    ] {
        let inside = 1_000_000 <= number && number < 99_999_999;
        match Rut::from_number(number) {
            Ok(rut) => {
                assert!(inside);
                assert_eq!(*rut.number(), number);
                assert_eq!(*rut.dv(), Rut::generate_dv(number));
            }
            Err(error) => {
                assert!(!inside);
                assert_eq!(error, Error::OutOfRange);
            }
        }
    }
}

#[test]
fn a_wrong_check_character_is_never_taken() {
    let symbols = ['0', '1', '2', '3', '4', '5', '6', '7', '8', '9', 'K'];
    for number in SAMPLES {
        let right = Rut::generate_dv(number);
        for symbol in symbols {
            let text = format!("{}-{}", number, symbol);
            if symbol == right {
                assert_eq!(Rut::from(&text), Rut::from_number(number));
            } else {
                assert_eq!(
                    Rut::from(&text),
                    Err(Error::InvalidDV {
                        must_be: right,
                        instead: symbol
                    })
                );
            }
        }
    }
}
