use qrcode::canvas::{Canvas, MaskPattern};
use qrcode::{Color, EcLevel, Version};
use sf::mask::{best_symbol, penalty};
use sf::qr::{Module, QrSymbol};

fn blank() -> QrSymbol {
    QrSymbol { width: 21, modules: vec![Module::Light; 21 * 21] }
}

fn checkered() -> QrSymbol {
    let modules = (0..21 * 21).map(|i| if i % 2 == 0 { Module::Dark } else { Module::Light }).collect();
    QrSymbol { width: 21, modules }
}

#[test]
fn one_color_is_worst() {
    // Runs of 21 in 42 lines, 400 blocks, and no dark module.
    assert_eq!(penalty(&blank()), 42 * 19 + 400 * 3 + 100);
}

#[test]
fn a_checkerboard_is_balanced() {
    // 221 dark modules of 441.
    assert_eq!(penalty(&checkered()), 0);
}

#[test]
fn a_run_counts_from_five_modules_on() {
    let mut symbol = checkered();
    let before = penalty(&symbol);
    // The first row begins with five dark modules, and 223 of 441 are dark.
    symbol.modules[1] = Module::Dark;
    symbol.modules[3] = Module::Dark;
    assert_eq!(penalty(&symbol), before + 3 + 1);
    // With one more it begins with seven.
    symbol.modules[5] = Module::Dark;
    assert_eq!(penalty(&symbol), before + 5 + 1);
}

#[test]
fn a_finder_counts_forty() {
    let mut symbol = blank();
    for x in [7, 9, 10, 11, 13] {
        symbol.modules[10 * 21 + x] = Module::Dark;
    }
    let rows = 20 * 19 + 5 + 5;
    let columns = 16 * 19 + 5 * (8 + 8);
    let blocks = (18 * 20 + 2 * 12) * 3;
    assert_eq!(penalty(&symbol), rows + columns + blocks + 40 + 98);
    // One quiet side is enough, none is not.
    symbol.modules[10 * 21 + 15] = Module::Dark;
    let one_side = penalty(&symbol);
    symbol.modules[10 * 21 + 5] = Module::Dark;
    let no_side = penalty(&symbol);
    assert!(one_side > no_side + 40);
}

fn patterns() -> Vec<MaskPattern> {
    vec![
        MaskPattern::Checkerboard,
        MaskPattern::HorizontalLines,
        MaskPattern::VerticalLines,
        MaskPattern::DiagonalLines,
        MaskPattern::LargeCheckerboard,
        MaskPattern::Fields,
        MaskPattern::Diamonds,
        MaskPattern::Meadow,
    ]
}

fn colors(symbol: &QrSymbol) -> Vec<Color> {
    symbol
        .modules
        .iter()
        .map(|m| match m {
            Module::Dark => Color::Dark,
            Module::Light => Color::Light,
        })
        .collect()
}

#[test]
fn the_best_mask_is_the_one_that_the_outside_crate_takes() {
    let mut seed: u32 = 12345;
    for version in [1i16, 2, 3, 5, 7, 10, 14, 20] {
        for _ in 0..5 {
            let mut words: Vec<u8> = Vec::new();
            for _ in 0..1000 {
                seed = seed.wrapping_mul(1664525).wrapping_add(1013904223);
                words.push((seed >> 24) as u8);
            }
            let mut canvas = Canvas::new(Version::Normal(version), EcLevel::M);
            canvas.draw_all_functional_patterns();
            canvas.draw_data(&words, &[]);
            let width = version as usize * 4 + 17;
            let mut candidates: Vec<QrSymbol> = Vec::new();
            for pattern in patterns() {
                let mut masked = canvas.clone();
                masked.apply_mask(pattern);
                let modules = masked
                    .into_colors()
                    .into_iter()
                    .map(|c| c.select(Module::Dark, Module::Light))
                    .collect();
                candidates.push(QrSymbol { width, modules });
            }
            let best = best_symbol(candidates);
            assert_eq!(colors(&best), canvas.apply_best_mask().into_colors());
        }
    }
}

#[test]
fn the_first_of_equals_is_taken() {
    let mut other = checkered();
    other.modules.reverse();
    let best = best_symbol(vec![blank(), checkered(), other]);
    assert_eq!(best.modules, checkered().modules);
}

#[test]
fn the_penalty_of_the_largest_code_in_one_color_fits() {
    let symbol = QrSymbol { width: 177, modules: vec![Module::Dark; 177 * 177] };
    assert_eq!(penalty(&symbol), 2 * 177 * 175 + 176 * 176 * 3 + 100);
}
