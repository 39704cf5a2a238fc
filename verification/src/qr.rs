//! QR codes, printed in a terminal or drawn as SVG.
use crate::mask::{best_symbol, first_least, first_least_is_least, penalties, penalty_of};
use crate::text::joined;
use vstd::prelude::*;
#[allow(unused_imports)]
use vstd::string::*;

verus! {

/// One square of a QR code.
#[derive(Clone, Copy, Debug, PartialEq, Eq, Structural)]
pub enum Module {
    Light,
    Dark,
}

/// Why a text has no QR code.
#[derive(Clone, Copy, Debug, PartialEq, Eq, Structural)]
pub enum QrFailure {
    DataTooLong,
    InvalidVersion,
    UnsupportedCharacterSet,
    InvalidEciDesignator,
    InvalidCharacter,
}

impl QrFailure {
    /// The reason in words.
    pub open spec fn words(self) -> Seq<char> {
        match self {
            QrFailure::DataTooLong => "data too long"@,
            QrFailure::InvalidVersion => "invalid version"@,
            QrFailure::UnsupportedCharacterSet => "unsupported character set"@,
            QrFailure::InvalidEciDesignator => "invalid ECI designator"@,
            QrFailure::InvalidCharacter => "invalid character"@,
        }
    }

    /// The reason in words.
    pub fn message(self) -> (r: String)
        ensures
            r@ == self.words(),
    {
        match self {
            QrFailure::DataTooLong => "data too long".to_owned(),
            QrFailure::InvalidVersion => "invalid version".to_owned(),
            QrFailure::UnsupportedCharacterSet => "unsupported character set".to_owned(),
            QrFailure::InvalidEciDesignator => "invalid ECI designator".to_owned(),
            QrFailure::InvalidCharacter => "invalid character".to_owned(),
        }
    }
}

/// A QR code: its modules row by row, `width` of them in each of `width` rows.
pub struct QrSymbol {
    pub width: usize,
    pub modules: Vec<Module>,
}

/// The smallest width of a QR code.
pub const MIN_WIDTH: usize = 21;

/// The largest width of a QR code.
pub const MAX_WIDTH: usize = 177;

/// The light border that a QR code needs around it, in modules.
pub const QUIET_ZONE: u32 = 4;

/// The least width and height of a drawing, in pixels.
pub const MIN_SIDE: u32 = 240;

/// The color of dark modules in a drawing.
pub const DARK_COLOR: &'static str = "#000000";

/// The color of light modules in a drawing.
pub const LIGHT_COLOR: &'static str = "#ffffff";

/// Whether the modules fill a square whose width is one that QR codes have.
pub open spec fn is_symbol(width: usize, modules: Seq<Module>) -> bool {
    MIN_WIDTH <= width <= MAX_WIDTH && modules.len() == width * width
}

impl QrSymbol {
    /// Whether the modules fill a square whose width is one that QR codes have.
    pub open spec fn well_formed(self) -> bool {
        is_symbol(self.width, self.modules@)
    }
}

// ---------------------------------------------------------------------------
// The outside encoder
// ---------------------------------------------------------------------------

/// The version of the smallest code that holds the data at the medium level of error
/// correction, and its data bytes, as `qrcode::bits::encode_auto` gives them; or its reason
/// for giving none.
pub uninterp spec fn encoded_of(data: Seq<u8>) -> Result<(i16, Seq<u8>), QrFailure>;

/// `qrcode::bits::encode_auto` encodes the data, at the medium level of error correction, for
/// the smallest code that holds it. What it gives is a function of the data. The code is a
/// full one, never a micro code, so that its version is between 1 and 40.
#[verifier::external_body]
fn encode_bits(data: &[u8]) -> (r: Result<(i16, Vec<u8>), QrFailure>)
    ensures
        match r {
            Ok((version, bytes)) => encoded_of(data@) == Ok::<(i16, Seq<u8>), QrFailure>(
                (version, bytes@),
            ) && 1 <= version <= 40,
            Err(why) => encoded_of(data@) == Err::<(i16, Seq<u8>), QrFailure>(why),
        },
{
    match qrcode::bits::encode_auto(data, qrcode::EcLevel::M) {
        Ok(bits) => match bits.version() {
            qrcode::Version::Normal(v) => Ok((v, bits.into_bytes())),
            qrcode::Version::Micro(v) => Ok((v, bits.into_bytes())),
        },
        Err(qrcode::types::QrError::DataTooLong) => Err(QrFailure::DataTooLong),
        Err(qrcode::types::QrError::InvalidVersion) => Err(QrFailure::InvalidVersion),
        Err(qrcode::types::QrError::UnsupportedCharacterSet) => Err(QrFailure::UnsupportedCharacterSet),
        Err(qrcode::types::QrError::InvalidEciDesignator) => Err(QrFailure::InvalidEciDesignator),
        Err(qrcode::types::QrError::InvalidCharacter) => Err(QrFailure::InvalidCharacter),
    }
}

/// The data and the error correction codewords that `qrcode::ec::construct_codewords` makes
/// of the data bytes of a code, at the medium level; or its reason for making none.
pub uninterp spec fn codewords_of(version: i16, bytes: Seq<u8>) -> Result<
    (Seq<u8>, Seq<u8>),
    QrFailure,
>;

/// `qrcode::ec::construct_codewords` cuts the data bytes of a code into blocks, computes
/// their error correction codes, and interleaves both. What it makes is a function of
/// version and bytes. It takes as many bytes as the version holds, which is what the encoder
/// gives.
#[verifier::external_body]
fn construct_codewords(version: i16, bytes: &[u8]) -> (r: Result<(Vec<u8>, Vec<u8>), QrFailure>)
    requires
        exists|data: Seq<u8>| #[trigger]
            encoded_of(data) == Ok::<(i16, Seq<u8>), QrFailure>((version, bytes@)),
        1 <= version <= 40,
    ensures
        match r {
            Ok((words, ec)) => codewords_of(version, bytes@) == Ok::<(Seq<u8>, Seq<u8>), QrFailure>(
                (words@, ec@),
            ),
            Err(why) => codewords_of(version, bytes@) == Err::<(Seq<u8>, Seq<u8>), QrFailure>(why),
        },
{
    match qrcode::ec::construct_codewords(bytes, qrcode::Version::Normal(version), qrcode::EcLevel::M) {
        Ok((words, ec)) => Ok((words, ec)),
        Err(qrcode::types::QrError::DataTooLong) => Err(QrFailure::DataTooLong),
        Err(qrcode::types::QrError::InvalidVersion) => Err(QrFailure::InvalidVersion),
        Err(qrcode::types::QrError::UnsupportedCharacterSet) => Err(QrFailure::UnsupportedCharacterSet),
        Err(qrcode::types::QrError::InvalidEciDesignator) => Err(QrFailure::InvalidEciDesignator),
        Err(qrcode::types::QrError::InvalidCharacter) => Err(QrFailure::InvalidCharacter),
    }
}

/// The number of masks under which a code can be drawn.
pub const MASKS: usize = 8;

/// The width of the code of a version.
pub open spec fn width_of(version: i16) -> usize {
    (17 + 4 * version) as usize
}

/// The modules of the code that `qrcode::canvas::Canvas` draws of the codewords at the medium
/// level, under one of the eight masks.
pub uninterp spec fn drawn_modules(
    version: i16,
    words: Seq<u8>,
    ec: Seq<u8>,
    mask: int,
) -> Seq<Module>;

/// `qrcode::canvas::Canvas` draws the fixed patterns of a code, then the codewords, and
/// applies a mask, the eight of them numbered as in the format information. What it draws
/// is a function of version, codewords and mask. The modules fill a square whose width the
/// version gives.
#[verifier::external_body]
fn draw_masked(version: i16, words: &[u8], ec: &[u8], mask: usize) -> (r: Vec<Module>)
    requires
        1 <= version <= 40,
        mask < MASKS,
    ensures
        r@ == drawn_modules(version, words@, ec@, mask as int),
        r@.len() == width_of(version) * width_of(version),
{
    let patterns = [
        qrcode::canvas::MaskPattern::Checkerboard, qrcode::canvas::MaskPattern::HorizontalLines,
        qrcode::canvas::MaskPattern::VerticalLines, qrcode::canvas::MaskPattern::DiagonalLines,
        qrcode::canvas::MaskPattern::LargeCheckerboard, qrcode::canvas::MaskPattern::Fields,
        qrcode::canvas::MaskPattern::Diamonds, qrcode::canvas::MaskPattern::Meadow,
    ];
    let mut canvas = qrcode::canvas::Canvas::new(qrcode::Version::Normal(version), qrcode::EcLevel::M);
    canvas.draw_all_functional_patterns();
    canvas.draw_data(words, ec);
    canvas.apply_mask(patterns[mask]);
    canvas.into_colors().into_iter().map(|c| c.select(Module::Dark, Module::Light)).collect()
}

// ---------------------------------------------------------------------------
// The code of a text
// ---------------------------------------------------------------------------

/// The penalties of a code under each of the masks.
pub open spec fn mask_penalties(version: i16, words: Seq<u8>, ec: Seq<u8>) -> Seq<int> {
    Seq::new(
        MASKS as nat,
        |mask: int| penalty_of(width_of(version), drawn_modules(version, words, ec, mask)),
    )
}

/// The width and the modules of the code of some data: it is drawn under the first of the
/// masks that have the least penalty; or the reason why there is no code.
pub open spec fn symbol_of(data: Seq<u8>) -> Result<(usize, Seq<Module>), QrFailure> {
    match encoded_of(data) {
        Ok((version, bytes)) => match codewords_of(version, bytes) {
            Ok((words, ec)) => Ok(
                (
                    width_of(version),
                    drawn_modules(
                        version,
                        words,
                        ec,
                        first_least(mask_penalties(version, words, ec)),
                    ),
                ),
            ),
            Err(why) => Err(why),
        },
        Err(why) => Err(why),
    }
}

fn draw_best(version: i16, words: &[u8], ec: &[u8]) -> (r: QrSymbol)
    requires
        1 <= version <= 40,
    ensures
        r.width == width_of(version),
        r.modules@ == drawn_modules(
            version,
            words@,
            ec@,
            first_least(mask_penalties(version, words@, ec@)),
        ),
        r.well_formed(),
{
    let width: usize = 17 + 4 * (version as usize);
    let mut candidates: Vec<QrSymbol> = Vec::new();
    for mask in 0..MASKS
        invariant
            1 <= version <= 40,
            width == width_of(version),
            candidates@.len() == mask,
            forall|i: int|
                0 <= i < mask ==> {
                    &&& (#[trigger] candidates@[i]).well_formed()
                    &&& candidates@[i].width == width
                    &&& candidates@[i].modules@ == drawn_modules(version, words@, ec@, i)
                },
    {
        candidates.push(QrSymbol { width, modules: draw_masked(version, words, ec, mask) });
    }
    proof {
        let numbers = mask_penalties(version, words@, ec@);
        assert(penalties(candidates@) =~= numbers);
        first_least_is_least(numbers);
    }
    best_symbol(candidates)
}

/// The code of some data. The outside crate also chooses a mask itself, but adds up the
/// penalties in 16 bits, which do not hold those of every code; so the mask is chosen here.
fn encode_symbol(data: &[u8]) -> (r: Result<QrSymbol, QrFailure>)
    ensures
        match r {
            Ok(symbol) => symbol_of(data@) == Ok::<(usize, Seq<Module>), QrFailure>(
                (symbol.width, symbol.modules@),
            ) && symbol.well_formed(),
            Err(why) => symbol_of(data@) == Err::<(usize, Seq<Module>), QrFailure>(why),
        },
{
    match encode_bits(data) {
        Ok((version, bytes)) => match construct_codewords(version, bytes.as_slice()) {
            Ok((words, ec)) => Ok(draw_best(version, words.as_slice(), ec.as_slice())),
            Err(why) => Err(why),
        },
        Err(why) => Err(why),
    }
}

/// A text is drawn under a mask that has the least penalty of the eight, and every mask
/// before it has a greater one.
pub proof fn code_has_the_least_penalty(
    data: Seq<u8>,
    version: i16,
    bytes: Seq<u8>,
    words: Seq<u8>,
    ec: Seq<u8>,
)
    requires
        encoded_of(data) == Ok::<(i16, Seq<u8>), QrFailure>((version, bytes)),
        codewords_of(version, bytes) == Ok::<(Seq<u8>, Seq<u8>), QrFailure>((words, ec)),
        1 <= version <= 40,
    ensures
        symbol_of(data) matches Ok((width, modules)) && width == 17 + 4 * version && exists|mask: int|
            {
                &&& 0 <= mask < 8
                &&& modules == #[trigger] drawn_modules(version, words, ec, mask)
                &&& forall|other: int|
                    0 <= other < 8 ==> penalty_of(width, modules) <= penalty_of(
                        width,
                        #[trigger] drawn_modules(version, words, ec, other),
                    )
                &&& forall|other: int|
                    0 <= other < mask ==> penalty_of(width, modules) < penalty_of(
                        width,
                        #[trigger] drawn_modules(version, words, ec, other),
                    )
            },
{
    let numbers = mask_penalties(version, words, ec);
    let mask = first_least(numbers);
    let width = width_of(version);
    first_least_is_least(numbers);
    assert forall|other: int| 0 <= other < MASKS implies numbers[other] == penalty_of(
        width,
        #[trigger] drawn_modules(version, words, ec, other),
    ) by {}
    assert(symbol_of(data) == Ok::<(usize, Seq<Module>), QrFailure>(
        (width, drawn_modules(version, words, ec, mask)),
    ));
}

// ---------------------------------------------------------------------------
// The outside drawings
// ---------------------------------------------------------------------------

/// How a terminal pixel is drawn: `Dark` fills its half of the character cell with the
/// foreground color, `Light` leaves the background.
#[derive(Clone, Copy, Debug, PartialEq, Eq, Structural)]
pub enum Ink {
    Dark,
    Light,
}

/// The pixel in column `x` and row `y` of a code with a border around it: that for dark or
/// for light modules, the latter also in the border. Below the last row there is nothing,
/// which looks like `Light`.
pub open spec fn pixel(
    width: int,
    modules: Seq<Module>,
    border: int,
    dark: Ink,
    light: Ink,
    x: int,
    y: int,
) -> Ink {
    if y >= width + 2 * border {
        Ink::Light
    } else if border <= x < width + border && border <= y < width + border && modules[(y - border)
        * width + (x - border)] == Module::Dark {
        dark
    } else {
        light
    }
}

/// The character that shows one pixel above another.
pub open spec fn half_blocks(top: Ink, bottom: Ink) -> char {
    match (top, bottom) {
        (Ink::Dark, Ink::Dark) => '█',
        (Ink::Dark, Ink::Light) => '▀',
        (Ink::Light, Ink::Dark) => '▄',
        (Ink::Light, Ink::Light) => ' ',
    }
}

/// Two rows of pixels as one line of text.
pub open spec fn dense_line(
    width: int,
    modules: Seq<Module>,
    border: int,
    dark: Ink,
    light: Ink,
    i: int,
) -> Seq<char> {
    Seq::new(
        (width + 2 * border) as nat,
        |x: int|
            half_blocks(
                pixel(width, modules, border, dark, light, x, 2 * i),
                pixel(width, modules, border, dark, light, x, 2 * i + 1),
            ),
    )
}

/// A code in half blocks: a line of text for every two rows of pixels, with line feeds
/// between them.
pub open spec fn dense_text(
    width: usize,
    modules: Seq<Module>,
    border: u32,
    dark: Ink,
    light: Ink,
) -> Seq<char> {
    joined(
        Seq::new(
            ((width + 2 * border + 1) / 2) as nat,
            |i: int| dense_line(width as int, modules, border as int, dark, light, i),
        ),
        seq!['\n'],
    )
}

/// `qrcode::render::Renderer::build` with the pixel `unicode::Dense1x2` and a quiet zone:
/// half blocks, two rows of modules in a line, no line feed behind the last. Around the
/// modules the border is drawn in the pixel for light modules.
#[verifier::external_body]
fn render_dense(symbol: &QrSymbol, border: u32, dark: Ink, light: Ink) -> (r: String)
    requires
        symbol.well_formed(),
        border <= 100,
    ensures
        r@ == dense_text(symbol.width, symbol.modules@, border, dark, light),
{
    let pixel = |ink: Ink| match ink {
        Ink::Dark => qrcode::render::unicode::Dense1x2::Dark,
        Ink::Light => qrcode::render::unicode::Dense1x2::Light,
    };
    let colors: Vec<qrcode::Color> = symbol.modules.iter().map(|m| match m {
        Module::Dark => qrcode::Color::Dark,
        Module::Light => qrcode::Color::Light,
    }).collect();
    qrcode::render::Renderer::<qrcode::render::unicode::Dense1x2>::new(&colors, symbol.width, border)
        .quiet_zone(true).dark_color(pixel(dark)).light_color(pixel(light)).build()
}

/// The SVG document that `qrcode::render::Renderer` with the pixel `svg::Color` builds of
/// the modules, with the given border, at least as wide and high as given, and in the given
/// colors for dark and for light modules.
pub uninterp spec fn svg_document(
    width: usize,
    modules: Seq<Module>,
    border: u32,
    least_width: u32,
    least_height: u32,
    dark: Seq<char>,
    light: Seq<char>,
) -> Seq<char>;

/// `qrcode::render::Renderer::build` with the pixel `svg::Color`, after `min_dimensions`:
/// an SVG document with one rectangle for each dark module. What it builds is a function
/// of what the renderer was given.
#[verifier::external_body]
fn render_svg(
    symbol: &QrSymbol,
    border: u32,
    least_width: u32,
    least_height: u32,
    dark: &str,
    light: &str,
) -> (r: String)
    requires
        symbol.well_formed(),
        border <= 100,
        least_width <= 10_000,
        least_height <= 10_000,
    ensures
        r@ == svg_document(
            symbol.width,
            symbol.modules@,
            border,
            least_width,
            least_height,
            dark@,
            light@,
        ),
{
    let colors: Vec<qrcode::Color> = symbol.modules.iter().map(|m| match m {
        Module::Dark => qrcode::Color::Dark,
        Module::Light => qrcode::Color::Light,
    }).collect();
    qrcode::render::Renderer::<qrcode::render::svg::Color>::new(&colors, symbol.width, border)
        .min_dimensions(least_width, least_height)
        .dark_color(qrcode::render::svg::Color(dark))
        .light_color(qrcode::render::svg::Color(light))
        .build()
}

// ---------------------------------------------------------------------------
// In a terminal
// ---------------------------------------------------------------------------

/// What is printed for a code: the code itself on the standard output, or, where there is
/// none, the reason on the standard error output.
pub enum Printout {
    Code(String),
    Complaint(String),
}

/// Draws a code for a terminal. Dark modules leave the background and light modules are
/// filled, since most terminals are dark: the code then shows in its proper colors.
pub fn terminal_code(symbol: &QrSymbol) -> (r: String)
    requires
        symbol.well_formed(),
    ensures
        r@ == dense_text(symbol.width, symbol.modules@, QUIET_ZONE, Ink::Light, Ink::Dark),
{
    render_dense(symbol, QUIET_ZONE, Ink::Light, Ink::Dark)
}

/// What is printed, once it is known what code there is.
pub fn printout(symbol: Result<QrSymbol, QrFailure>) -> (r: Printout)
    requires
        symbol matches Ok(s) ==> s.well_formed(),
    ensures
        match symbol {
            Ok(s) => r matches Printout::Code(text) && text@ == dense_text(
                s.width,
                s.modules@,
                QUIET_ZONE,
                Ink::Light,
                Ink::Dark,
            ),
            Err(why) => r matches Printout::Complaint(text) && text@ == "生成二维码失败: "@
                + why.words(),
        },
{
    match symbol {
        Ok(s) => Printout::Code(terminal_code(&s)),
        Err(why) => {
            let mut text = "生成二维码失败: ".to_owned();
            text.append(why.message().as_str());
            Printout::Complaint(text)
        },
    }
}

/// What is printed to show a URL as a code.
pub fn print_qr(url: &str) -> (r: Printout)
    ensures
        match symbol_of(url.spec_bytes()) {
            Ok((width, modules)) => r matches Printout::Code(text) && text@ == dense_text(
                width,
                modules,
                QUIET_ZONE,
                Ink::Light,
                Ink::Dark,
            ),
            Err(why) => r matches Printout::Complaint(text) && text@ == "生成二维码失败: "@
                + why.words(),
        },
{
    printout(encode_symbol(url.as_bytes()))
}

// ---------------------------------------------------------------------------
// As a drawing
// ---------------------------------------------------------------------------

/// Draws a code as an SVG document: black on white, at least 240 pixels wide and high.
pub fn svg_code(symbol: &QrSymbol) -> (r: String)
    requires
        symbol.well_formed(),
    ensures
        r@ == svg_document(
            symbol.width,
            symbol.modules@,
            QUIET_ZONE,
            MIN_SIDE,
            MIN_SIDE,
            DARK_COLOR@,
            LIGHT_COLOR@,
        ),
{
    render_svg(symbol, QUIET_ZONE, MIN_SIDE, MIN_SIDE, DARK_COLOR, LIGHT_COLOR)
}

/// The SVG document that shows a text as a code, or the reason why it has none.
pub fn qr_svg(text: &str) -> (r: Result<String, QrFailure>)
    ensures
        match symbol_of(text.spec_bytes()) {
            Ok((width, modules)) => r matches Ok(svg) && svg@ == svg_document(
                width,
                modules,
                QUIET_ZONE,
                MIN_SIDE,
                MIN_SIDE,
                DARK_COLOR@,
                LIGHT_COLOR@,
            ),
            Err(why) => r == Err::<String, QrFailure>(why),
        },
{
    match encode_symbol(text.as_bytes()) {
        Ok(symbol) => Ok(svg_code(&symbol)),
        Err(why) => Err(why),
    }
}

// ---------------------------------------------------------------------------
// What is printed
// ---------------------------------------------------------------------------

proof fn lines_of_one_length(parts: Seq<Seq<char>>, sep: char, len: int, i: int, x: int)
    requires
        forall|k: int| 0 <= k < parts.len() ==> (#[trigger] parts[k]).len() == len,
        0 <= i < parts.len(),
        0 <= x < len,
    ensures
        joined(parts, seq![sep]).len() == parts.len() * (len + 1) - 1,
        0 <= i * (len + 1) + x < joined(parts, seq![sep]).len(),
        joined(parts, seq![sep])[i * (len + 1) + x] == parts[i][x],
    decreases parts.len(),
{
    let n = parts.len() as int;
    assert(parts[n - 1].len() == len);
    if n == 1 {
        assert(i * (len + 1) == 0) by (nonlinear_arith)
            requires
                i == 0,
        ;
        assert(parts[0].len() == len);
        assert(n * (len + 1) == len + 1) by (nonlinear_arith)
            requires
                n == 1,
        ;
    } else {
        let front = parts.drop_last();
        assert forall|k: int| 0 <= k < front.len() implies (#[trigger] front[k]).len() == len by {
            assert(front[k] == parts[k]);
        }
        let j = if i < n - 1 {
            i
        } else {
            0
        };
        lines_of_one_length(front, sep, len, j, x);
        assert(n * (len + 1) == (n - 1) * (len + 1) + (len + 1)) by (nonlinear_arith);
        let whole = joined(front, seq![sep]) + seq![sep] + parts.last();
        if i == n - 1 {
            assert(whole[(n - 1) * (len + 1) + x] == parts.last()[x]);
        } else {
            assert(whole[i * (len + 1) + x] == joined(front, seq![sep])[i * (len + 1) + x]);
        }
    }
}

/// Whether the upper half of a character is filled.
pub open spec fn upper_filled(c: char) -> bool {
    c == '█' || c == '▀'
}

/// Whether the lower half of a character is filled.
pub open spec fn lower_filled(c: char) -> bool {
    c == '█' || c == '▄'
}

/// Every module of a code can be read off its printout: four lines of pixels and four
/// columns in, the half of a character that stands for it is blank for a dark module and
/// filled for a light one. Around the code all is filled.
pub proof fn printout_shows_every_module(symbol: &QrSymbol, r: String, x: int, y: int)
    requires
        call_ensures(terminal_code, (symbol,), r),
        symbol.well_formed(),
        -4 <= x < symbol.width + 4,
        -4 <= y < symbol.width + 4,
    ensures
        ({
            let side = symbol.width + 8;
            let row = (y + 4) / 2;
            let at = row * (side + 1) + (x + 4);
            let inside = 0 <= x < symbol.width && 0 <= y < symbol.width;
            let dark = inside && symbol.modules@[y * symbol.width + x] == Module::Dark;
            &&& 0 <= at < r@.len()
            &&& (y + 4) % 2 == 0 ==> upper_filled(r@[at]) == !dark
            &&& (y + 4) % 2 == 1 ==> lower_filled(r@[at]) == !dark
        }),
{
    let w = symbol.width as int;
    let m = symbol.modules@;
    let side = w + 8;
    let row = (y + 4) / 2;
    let lines = Seq::new(
        ((symbol.width + 2 * QUIET_ZONE + 1) / 2) as nat,
        |i: int| dense_line(w, m, QUIET_ZONE as int, Ink::Light, Ink::Dark, i),
    );
    assert forall|k: int| 0 <= k < lines.len() implies (#[trigger] lines[k]).len() == side by {}
    lines_of_one_length(lines, '\n', side, row, x + 4);
    assert(lines[row][x + 4] == half_blocks(
        pixel(w, m, 4, Ink::Light, Ink::Dark, x + 4, 2 * row),
        pixel(w, m, 4, Ink::Light, Ink::Dark, x + 4, 2 * row + 1),
    ));
}

/// A URL is printed as the code that it has, and drawn as that code; where it has none, the
/// reason is given in words.
pub proof fn url_is_shown_as_its_code(
    url: &str,
    r: Printout,
    svg: Result<String, QrFailure>,
    symbol: &QrSymbol,
    printed: String,
    drawn: String,
)
    requires
        call_ensures(print_qr, (url,), r),
        call_ensures(qr_svg, (url,), svg),
        call_ensures(terminal_code, (symbol,), printed),
        call_ensures(svg_code, (symbol,), drawn),
    ensures
        symbol_of(url.spec_bytes()) == Ok::<(usize, Seq<Module>), QrFailure>(
            (symbol.width, symbol.modules@),
        ) ==> (r matches Printout::Code(code) && code@ == printed@) && (svg matches Ok(s) && s@
            == drawn@),
        symbol_of(url.spec_bytes()) matches Err(why) ==> (r matches Printout::Complaint(words)
            && words@ == "生成二维码失败: "@ + why.words()) && svg == Err::<String, QrFailure>(why),
{
}

} // verus!
