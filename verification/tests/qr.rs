use qrcode::render::{svg, unicode};
use qrcode::types::QrError;
use qrcode::QrCode;
use sf::qr::{print_qr, printout, qr_svg, svg_code, Module, Printout, QrFailure, QrSymbol};

fn samples() -> Vec<String> {
    vec![
        "http://192.168.1.5:40001/".to_string(),
        "HELLO WORLD 123".to_string(),
        "扫码在手机和电脑之间传东西".to_string(),
        "x".repeat(300),
        "7".repeat(2000),
        (0..2300).map(|i| (b'!' + (i * i % 89) as u8) as char).collect(),
        (0..900).map(|i| char::from_digit(i * 7 % 10, 10).unwrap()).collect(),
        String::new(),
    ]
}

#[test]
fn a_url_is_printed_as_an_inverted_code() {
    for text in samples() {
        let expected = QrCode::new(text.as_bytes())
            .unwrap()
            .render::<unicode::Dense1x2>()
            .quiet_zone(true)
            .dark_color(unicode::Dense1x2::Light)
            .light_color(unicode::Dense1x2::Dark)
            .build();
        match print_qr(&text) {
            Printout::Code(code) => assert_eq!(code, expected),
            Printout::Complaint(why) => panic!("{}", why),
        }
    }
}

#[test]
fn a_printed_code_has_a_filled_border() {
    match print_qr("http://10.0.0.2:80/") {
        Printout::Code(code) => {
            let lines: Vec<&str> = code.lines().collect();
            assert_eq!(lines.len(), 17);
            assert!(lines.iter().all(|l| l.chars().count() == 33));
            assert!(lines[0].chars().all(|c| c == '█'));
        }
        Printout::Complaint(why) => panic!("{}", why),
    }
}

#[test]
fn a_text_is_drawn_black_on_white() {
    for text in samples() {
        let expected = QrCode::new(text.as_bytes())
            .unwrap()
            .render::<svg::Color>()
            .min_dimensions(240, 240)
            .dark_color(svg::Color("#000000"))
            .light_color(svg::Color("#ffffff"))
            .build();
        assert_eq!(qr_svg(&text), Ok(expected));
    }
}

#[test]
fn a_drawing_is_large_enough() {
    let svg = qr_svg("http://10.0.0.2:80/").unwrap();
    assert!(svg.contains("width=\"264\" height=\"264\""));
    assert!(svg.contains("fill=\"#ffffff\""));
    assert!(svg.contains("<path fill=\"#000000\""));
}

#[test]
fn a_text_that_is_too_long_has_no_code() {
    let long = "x".repeat(2332);
    assert_eq!(qr_svg(&long), Err(QrFailure::DataTooLong));
    assert!(qr_svg(&"x".repeat(2331)).is_ok());
    match print_qr(&long) {
        Printout::Code(_) => panic!("too long"),
        Printout::Complaint(why) => assert_eq!(why, "生成二维码失败: data too long"),
    }
}

#[test]
fn each_failure_has_its_words() {
    assert_eq!(QrFailure::DataTooLong.message(), QrError::DataTooLong.to_string());
    assert_eq!(QrFailure::InvalidVersion.message(), QrError::InvalidVersion.to_string());
    assert_eq!(
        QrFailure::UnsupportedCharacterSet.message(),
        QrError::UnsupportedCharacterSet.to_string()
    );
    assert_eq!(QrFailure::InvalidEciDesignator.message(), QrError::InvalidEciDesignator.to_string());
    assert_eq!(QrFailure::InvalidCharacter.message(), QrError::InvalidCharacter.to_string());
    assert_eq!(QrFailure::DataTooLong.message(), "data too long");
    assert_eq!(QrFailure::InvalidVersion.message(), "invalid version");
    assert_eq!(QrFailure::UnsupportedCharacterSet.message(), "unsupported character set");
    assert_eq!(QrFailure::InvalidEciDesignator.message(), "invalid ECI designator");
    assert_eq!(QrFailure::InvalidCharacter.message(), "invalid character");
    match printout(Err(QrFailure::InvalidCharacter)) {
        Printout::Code(_) => panic!("there is no code"),
        Printout::Complaint(why) => assert_eq!(why, "生成二维码失败: invalid character"),
    }
}

#[test]
fn modules_are_drawn_where_they_are() {
    let mut modules = vec![Module::Light; 21 * 21];
    modules[22] = Module::Dark;
    let symbol = QrSymbol { width: 21, modules };
    let svg = svg_code(&symbol);
    assert!(svg.contains("d=\"M45 45h9v9H45V45\"/>"));
    match printout(Ok(symbol)) {
        Printout::Code(code) => {
            let line: Vec<char> = code.lines().nth(2).unwrap().chars().collect();
            assert_eq!(line[5], '▀');
            assert!(line.iter().enumerate().all(|(i, c)| i == 5 || *c == '█'));
        }
        Printout::Complaint(why) => panic!("{}", why),
    }
}

#[test]
fn a_code_is_printed_two_rows_to_a_line() {
    let mut modules = vec![Module::Light; 21 * 21];
    modules[0] = Module::Dark;
    modules[21 + 1] = Module::Dark;
    modules[20 * 21 + 20] = Module::Dark;
    match printout(Ok(QrSymbol { width: 21, modules })) {
        Printout::Code(code) => {
            let lines: Vec<Vec<char>> = code.lines().map(|l| l.chars().collect()).collect();
            assert_eq!(lines.len(), 15);
            for (i, line) in lines.iter().enumerate() {
                assert_eq!(line.len(), 29);
                for (x, c) in line.iter().enumerate() {
                    let expected = match (i, x) {
                        (2, 4) => '▄',
                        (2, 5) => '▀',
                        (12, 24) => '▄',
                        (14, _) => '▀',
                        _ => '█',
                    };
                    assert_eq!(*c, expected);
                }
            }
            assert!(!code.ends_with('\n'));
        }
        Printout::Complaint(why) => panic!("{}", why),
    }
}
