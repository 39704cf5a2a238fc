//! The choice of the mask of a QR code.
//!
//! A code can be drawn under eight masks. Each is given a penalty for what makes it hard to
//! scan: long runs of one color, blocks of one color, patterns that look like a finder, and
//! a share of dark modules that is far from one half. The mask with the least penalty is
//! taken.
use crate::qr::{Module, QrSymbol, MAX_WIDTH};
use vstd::prelude::*;

verus! {

// ---------------------------------------------------------------------------
// Lines
// ---------------------------------------------------------------------------

/// The row or the column number `i` of a square of modules.
pub open spec fn line(width: int, modules: Seq<Module>, i: int, horizontal: bool) -> Seq<Module> {
    Seq::new(
        width as nat,
        |k: int|
            if horizontal {
                modules[i * width + k]
            } else {
                modules[k * width + i]
            },
    )
}

proof fn index_in_square(width: int, x: int, y: int)
    requires
        0 <= x < width <= MAX_WIDTH,
        0 <= y < width,
    ensures
        0 <= y * width,
        y * width + x < width * width <= 31_329,
{
    assert(0 <= y * width && y * width + x < width * width <= 31_329) by (nonlinear_arith)
        requires
            0 <= x < width <= 177,
            0 <= y < width,
    ;
}

fn line_of(symbol: &QrSymbol, i: usize, horizontal: bool) -> (r: Vec<Module>)
    requires
        symbol.well_formed(),
        i < symbol.width,
    ensures
        r@ == line(symbol.width as int, symbol.modules@, i as int, horizontal),
{
    let width: usize = symbol.width;
    let mut out: Vec<Module> = Vec::new();
    for k in 0..width
        invariant
            width == symbol.width,
            symbol.well_formed(),
            i < width,
            out@.len() == k,
            forall|j: int|
                0 <= j < k ==> #[trigger] out@[j] == line(
                    width as int,
                    symbol.modules@,
                    i as int,
                    horizontal,
                )[j],
    {
        proof {
            index_in_square(width as int, k as int, i as int);
            index_in_square(width as int, i as int, k as int);
        }
        if horizontal {
            out.push(symbol.modules[i * width + k]);
        } else {
            out.push(symbol.modules[k * width + i]);
        }
    }
    out
}

// ---------------------------------------------------------------------------
// Runs
// ---------------------------------------------------------------------------

/// How many modules of one color a line ends with.
pub open spec fn run_at_end(line: Seq<Module>) -> nat
    decreases line.len(),
{
    if line.len() == 0 {
        0
    } else if line.len() > 1 && line[line.len() - 2] == line.last() {
        run_at_end(line.drop_last()) + 1
    } else {
        1
    }
}

/// The penalty for the runs of one color in a line: three for a run of five modules, and one
/// for each further module of the run.
pub open spec fn runs_penalty(line: Seq<Module>) -> nat
    decreases line.len(),
{
    if line.len() == 0 {
        0
    } else {
        let run = run_at_end(line);
        runs_penalty(line.drop_last()) + if run == 5 {
            3nat
        } else if run > 5 {
            1
        } else {
            0
        }
    }
}

fn score_runs(line: &Vec<Module>) -> (r: u64)
    requires
        line@.len() <= MAX_WIDTH,
    ensures
        r == runs_penalty(line@),
        r <= 3 * line@.len(),
{
    let mut total: u64 = 0;
    let mut run: usize = 0;
    for k in 0..line.len()
        invariant
            line@.len() <= MAX_WIDTH,
            total == runs_penalty(line@.take(k as int)),
            run == run_at_end(line@.take(k as int)),
            run <= k,
            total <= 3 * k,
    {
        proof {
            assert(line@.take(k + 1).drop_last() =~= line@.take(k as int));
        }
        if k > 0 && line[k - 1] == line[k] {
            run = run + 1;
        } else {
            run = 1;
        }
        if run == 5 {
            total = total + 3;
        } else if run > 5 {
            total = total + 1;
        }
    }
    proof {
        assert(line@.take(line@.len() as int) =~= line@);
    }
    total
}

// ---------------------------------------------------------------------------
// Patterns that look like a finder
// ---------------------------------------------------------------------------

/// The modules of a line through the middle of a finder.
pub open spec fn finder() -> Seq<Module> {
    seq![
        Module::Dark,
        Module::Light,
        Module::Dark,
        Module::Dark,
        Module::Dark,
        Module::Light,
        Module::Dark,
    ]
}

/// Whether a line has no dark module from one position up to another, as far as it goes.
pub open spec fn quiet(line: Seq<Module>, from: int, to: int) -> bool {
    forall|k: int| from <= k < to && 0 <= k < line.len() ==> #[trigger] line[k] == Module::Light
}

/// Whether a line has at position `j` what looks like a finder: its modules, with four quiet
/// ones on one side.
pub open spec fn finder_at(line: Seq<Module>, j: int) -> bool {
    &&& 0 <= j
    &&& j + 7 <= line.len()
    &&& line.subrange(j, j + 7) == finder()
    &&& quiet(line, j - 4, j) || quiet(line, j + 7, j + 11)
}

/// The penalty for what looks like a finder at one of the first `n` positions of a line:
/// forty for each.
pub open spec fn finders_penalty(line: Seq<Module>, n: nat) -> nat
    decreases n,
{
    if n == 0 {
        0
    } else {
        finders_penalty(line, (n - 1) as nat) + if finder_at(line, n - 1) {
            40nat
        } else {
            0
        }
    }
}

fn is_quiet(line: &Vec<Module>, from: usize, to: usize) -> (r: bool)
    requires
        from <= to <= line@.len(),
    ensures
        r == quiet(line@, from as int, to as int),
{
    for k in from..to
        invariant
            to <= line@.len(),
            forall|i: int| from <= i < k ==> #[trigger] line@[i] == Module::Light,
    {
        if line[k] != Module::Light {
            return false;
        }
    }
    true
}

fn is_finder_at(line: &Vec<Module>, j: usize) -> (r: bool)
    requires
        line@.len() <= MAX_WIDTH,
        j <= line@.len(),
    ensures
        r == finder_at(line@, j as int),
{
    let n: usize = line.len();
    if n - j < 7 {
        return false;
    }
    let alike = line[j] == Module::Dark && line[j + 1] == Module::Light && line[j + 2] == Module::Dark
        && line[j + 3] == Module::Dark && line[j + 4] == Module::Dark && line[j + 5]
        == Module::Light && line[j + 6] == Module::Dark;
    proof {
        let part = line@.subrange(j as int, j + 7);
        if alike {
            assert(part =~= finder());
        } else {
            assert(part[0] == line@[j as int] && part[1] == line@[j + 1] && part[2] == line@[j + 2]
                && part[3] == line@[j + 3] && part[4] == line@[j + 4] && part[5] == line@[j + 5]
                && part[6] == line@[j + 6]);
            assert(part != finder());
        }
    }
    if !alike {
        return false;
    }
    let from: usize = if j >= 4 {
        j - 4
    } else {
        0
    };
    let to: usize = if n - j >= 11 {
        j + 11
    } else {
        n
    };
    let before = is_quiet(line, from, j);
    let behind = is_quiet(line, j + 7, to);
    proof {
        assert(quiet(line@, j - 4, j as int) == quiet(line@, from as int, j as int));
        assert(quiet(line@, j + 7, j + 11) == quiet(line@, j + 7, to as int));
    }
    before || behind
}

fn score_finders(line: &Vec<Module>) -> (r: u64)
    requires
        line@.len() <= MAX_WIDTH,
    ensures
        r == finders_penalty(line@, line@.len()),
        r <= 40 * line@.len(),
{
    let mut total: u64 = 0;
    for j in 0..line.len()
        invariant
            line@.len() <= MAX_WIDTH,
            total == finders_penalty(line@, j as nat),
            total <= 40 * j,
    {
        if is_finder_at(line, j) {
            total = total + 40;
        }
    }
    total
}

/// The penalty for a row or a column.
pub open spec fn line_penalty(line: Seq<Module>) -> nat {
    runs_penalty(line) + finders_penalty(line, line.len())
}

/// The penalty for the first `n` rows or columns.
pub open spec fn lines_penalty(
    width: int,
    modules: Seq<Module>,
    horizontal: bool,
    n: nat,
) -> nat
    decreases n,
{
    if n == 0 {
        0
    } else {
        lines_penalty(width, modules, horizontal, (n - 1) as nat) + line_penalty(
            line(width, modules, n - 1, horizontal),
        )
    }
}

fn score_lines(symbol: &QrSymbol, horizontal: bool) -> (r: u64)
    requires
        symbol.well_formed(),
    ensures
        r == lines_penalty(
            symbol.width as int,
            symbol.modules@,
            horizontal,
            symbol.width as nat,
        ),
        r <= 2_000_000,
{
    let mut total: u64 = 0;
    for i in 0..symbol.width
        invariant
            symbol.well_formed(),
            total == lines_penalty(symbol.width as int, symbol.modules@, horizontal, i as nat),
            total <= 10_000 * i,
    {
        let part = line_of(symbol, i, horizontal);
        total = total + score_runs(&part) + score_finders(&part);
    }
    total
}

// ---------------------------------------------------------------------------
// Blocks
// ---------------------------------------------------------------------------

/// The penalty for the blocks of one color among the first `n` blocks, of two modules by
/// two, of two neighbouring rows: three for each.
pub open spec fn pair_penalty(upper: Seq<Module>, lower: Seq<Module>, n: nat) -> nat
    decreases n,
{
    if n == 0 {
        0
    } else {
        let x = n - 1;
        pair_penalty(upper, lower, (n - 1) as nat) + if upper[x] == upper[x + 1] && upper[x]
            == lower[x] && upper[x] == lower[x + 1] {
            3nat
        } else {
            0
        }
    }
}

/// The penalty for the blocks of one color in the first `n` pairs of neighbouring rows.
pub open spec fn blocks_penalty(width: int, modules: Seq<Module>, n: nat) -> nat
    decreases n,
{
    if n == 0 {
        0
    } else {
        blocks_penalty(width, modules, (n - 1) as nat) + pair_penalty(
            line(width, modules, n - 1, true),
            line(width, modules, n as int, true),
            (width - 1) as nat,
        )
    }
}

fn score_pair(upper: &Vec<Module>, lower: &Vec<Module>) -> (r: u64)
    requires
        0 < upper@.len() <= MAX_WIDTH,
        upper@.len() == lower@.len(),
    ensures
        r == pair_penalty(upper@, lower@, (upper@.len() - 1) as nat),
        r <= 3 * upper@.len(),
{
    let mut total: u64 = 0;
    for x in 0..upper.len() - 1
        invariant
            0 < upper@.len() <= MAX_WIDTH,
            upper@.len() == lower@.len(),
            total == pair_penalty(upper@, lower@, x as nat),
            total <= 3 * x,
    {
        let color = upper[x];
        if color == upper[x + 1] && color == lower[x] && color == lower[x + 1] {
            total = total + 3;
        }
    }
    total
}

fn score_blocks(symbol: &QrSymbol) -> (r: u64)
    requires
        symbol.well_formed(),
    ensures
        r == blocks_penalty(symbol.width as int, symbol.modules@, (symbol.width - 1) as nat),
        r <= 200_000,
{
    let mut total: u64 = 0;
    for y in 0..symbol.width - 1
        invariant
            symbol.well_formed(),
            total == blocks_penalty(symbol.width as int, symbol.modules@, y as nat),
            total <= 1_000 * y,
    {
        let upper = line_of(symbol, y, true);
        let lower = line_of(symbol, y + 1, true);
        total = total + score_pair(&upper, &lower);
    }
    total
}

// ---------------------------------------------------------------------------
// The share of dark modules
// ---------------------------------------------------------------------------

/// How many modules are dark.
pub open spec fn dark_count(modules: Seq<Module>) -> nat
    decreases modules.len(),
{
    if modules.len() == 0 {
        0
    } else {
        dark_count(modules.drop_last()) + if modules.last() == Module::Dark {
            1nat
        } else {
            0
        }
    }
}

/// The penalty for a share of dark modules that is not one half: two for each percent that
/// it is off, in whole numbers.
pub open spec fn balance_penalty(modules: Seq<Module>) -> int {
    let share = dark_count(modules) * 200 / modules.len();
    if share >= 100 {
        share - 100
    } else {
        100 - share
    }
}

fn score_balance(symbol: &QrSymbol) -> (r: u64)
    requires
        symbol.well_formed(),
    ensures
        r == balance_penalty(symbol.modules@),
        r <= 100,
{
    let n: usize = symbol.modules.len();
    proof {
        let w = symbol.width as int;
        assert(21 * 21 <= w * w <= 177 * 177) by (nonlinear_arith)
            requires
                21 <= w <= 177,
        ;
    }
    let mut dark: u64 = 0;
    for i in 0..n
        invariant
            n == symbol.modules@.len(),
            441 <= n <= 31_329,
            dark == dark_count(symbol.modules@.take(i as int)),
            dark <= i,
    {
        proof {
            assert(symbol.modules@.take(i + 1).drop_last() =~= symbol.modules@.take(i as int));
        }
        if symbol.modules[i] == Module::Dark {
            dark = dark + 1;
        }
    }
    proof {
        assert(symbol.modules@.take(n as int) =~= symbol.modules@);
        assert(0 <= dark * 200 / (n as int) <= 200) by (nonlinear_arith)
            requires
                0 <= dark <= n,
                441 <= n,
        ;
    }
    let share: u64 = dark * 200 / n as u64;
    if share >= 100 {
        share - 100
    } else {
        100 - share
    }
}

// ---------------------------------------------------------------------------
// The whole penalty, and the least one
// ---------------------------------------------------------------------------

/// The penalty of a code.
pub open spec fn penalty_of(width: usize, modules: Seq<Module>) -> int {
    let w = width as int;
    lines_penalty(w, modules, true, width as nat) + lines_penalty(w, modules, false, width as nat)
        + blocks_penalty(w, modules, (w - 1) as nat) + balance_penalty(modules)
}

/// The penalty of a code. It is far from the greatest number that fits, however the modules
/// are colored.
pub fn penalty(symbol: &QrSymbol) -> (r: u64)
    requires
        symbol.well_formed(),
    ensures
        r == penalty_of(symbol.width, symbol.modules@),
{
    score_lines(symbol, true) + score_lines(symbol, false) + score_blocks(symbol) + score_balance(
        symbol,
    )
}

/// The first position of the least number.
pub open spec fn first_least(numbers: Seq<int>) -> int
    decreases numbers.len(),
{
    if numbers.len() <= 1 {
        0
    } else {
        let least = first_least(numbers.drop_last());
        if numbers.last() < numbers[least] {
            numbers.len() - 1
        } else {
            least
        }
    }
}

/// The number at the first position of the least is no greater than any other, and smaller
/// than all before it.
pub proof fn first_least_is_least(numbers: Seq<int>)
    requires
        numbers.len() > 0,
    ensures
        0 <= first_least(numbers) < numbers.len(),
        forall|i: int|
            0 <= i < numbers.len() ==> numbers[first_least(numbers)] <= #[trigger] numbers[i],
        forall|i: int|
            0 <= i < first_least(numbers) ==> numbers[first_least(numbers)] < #[trigger] numbers[i],
    decreases numbers.len(),
{
    if numbers.len() > 1 {
        let front = numbers.drop_last();
        first_least_is_least(front);
        assert forall|i: int| 0 <= i < numbers.len() - 1 implies front[i] == #[trigger] numbers[i] by {}
    }
}

/// The penalties of some codes.
pub open spec fn penalties(candidates: Seq<QrSymbol>) -> Seq<int> {
    candidates.map_values(|s: QrSymbol| penalty_of(s.width, s.modules@))
}

/// The code with the least penalty; the first of those where there are several.
pub fn best_symbol(candidates: Vec<QrSymbol>) -> (r: QrSymbol)
    requires
        candidates@.len() > 0,
        forall|i: int| 0 <= i < candidates@.len() ==> (#[trigger] candidates@[i]).well_formed(),
    ensures
        r == candidates@[first_least(penalties(candidates@))],
{
    let ghost numbers = penalties(candidates@);
    let mut best: usize = 0;
    let mut least: u64 = penalty(&candidates[0]);
    for i in 1..candidates.len()
        invariant
            numbers == penalties(candidates@),
            candidates@.len() > 0,
            forall|j: int| 0 <= j < candidates@.len() ==> (#[trigger] candidates@[j]).well_formed(),
            best < i,
            best == first_least(numbers.take(i as int)),
            least == numbers[best as int],
    {
        let found: u64 = penalty(&candidates[i]);
        proof {
            assert(numbers.take(i + 1).drop_last() =~= numbers.take(i as int));
        }
        if found < least {
            best = i;
            least = found;
        }
    }
    proof {
        assert(numbers.take(numbers.len() as int) =~= numbers);
    }
    let mut rest = candidates;
    rest.swap_remove(best)
}

// ---------------------------------------------------------------------------
// What the penalties count
// ---------------------------------------------------------------------------

proof fn run_of_one_color(color: Module, n: nat)
    ensures
        ({
            let run = Seq::new(n, |i: int| color);
            &&& run_at_end(run) == n
            &&& runs_penalty(run) == if n >= 5 {
                (n - 2) as nat
            } else {
                0
            }
        }),
    decreases n,
{
    let run = Seq::new(n, |i: int| color);
    if n > 0 {
        let shorter = Seq::new((n - 1) as nat, |i: int| color);
        assert(run.drop_last() =~= shorter);
        run_of_one_color(color, (n - 1) as nat);
    }
}

/// A line of one color counts two less than its length, from five modules on.
pub proof fn run_counts_by_its_length(line: Seq<Module>)
    requires
        forall|i: int| 0 <= i < line.len() ==> #[trigger] line[i] == line[0],
    ensures
        runs_penalty(line) == if line.len() >= 5 {
            line.len() - 2
        } else {
            0
        },
{
    run_of_one_color(line[0], line.len());
    assert(line =~= Seq::new(line.len(), |i: int| line[0]));
}

proof fn run_behind_a_change(a: Seq<Module>, b: Seq<Module>)
    requires
        b.len() > 0,
        a.len() > 0 ==> a.last() != b[0],
    ensures
        run_at_end(a + b) == run_at_end(b),
    decreases b.len(),
{
    let all = a + b;
    if b.len() > 1 {
        assert(all.drop_last() =~= a + b.drop_last());
        assert(all[all.len() - 2] == b[b.len() - 2]);
        run_behind_a_change(a, b.drop_last());
    } else if a.len() > 0 {
        assert(all[all.len() - 2] == a.last());
    }
}

/// Where the color changes, what comes before and what comes behind are counted separately.
pub proof fn runs_are_counted_separately(a: Seq<Module>, b: Seq<Module>)
    requires
        a.len() > 0 && b.len() > 0 ==> a.last() != b[0],
    ensures
        runs_penalty(a + b) == runs_penalty(a) + runs_penalty(b),
    decreases b.len(),
{
    if b.len() == 0 {
        assert(a + b =~= a);
    } else {
        assert((a + b).drop_last() =~= a + b.drop_last());
        runs_are_counted_separately(a, b.drop_last());
        run_behind_a_change(a, b);
    }
}

/// A finder is dark and light in turn, one, one, three, one and one modules wide, with
/// nothing dark in the four modules before it, or in the four behind it, as far as the line
/// goes.
pub proof fn finder_is_told_by_its_modules(line: Seq<Module>, j: int)
    requires
        0 <= j,
        j + 7 <= line.len(),
    ensures
        finder_at(line, j) == {
            &&& line[j] is Dark && line[j + 1] is Light && line[j + 2] is Dark && line[j + 3] is Dark
                && line[j + 4] is Dark && line[j + 5] is Light && line[j + 6] is Dark
            &&& (forall|k: int| 0 <= k && j - 4 <= k < j ==> (#[trigger] line[k]) is Light) || (
            forall|k: int| j + 7 <= k < j + 11 && k < line.len() ==> (#[trigger] line[k]) is Light)
        },
{
    let part = line.subrange(j, j + 7);
    assert(part[0] == line[j] && part[1] == line[j + 1] && part[2] == line[j + 2] && part[3]
        == line[j + 3] && part[4] == line[j + 4] && part[5] == line[j + 5] && part[6] == line[j + 6]);
    if line[j] is Dark && line[j + 1] is Light && line[j + 2] is Dark && line[j + 3] is Dark && line[j
        + 4] is Dark && line[j + 5] is Light && line[j + 6] is Dark {
        assert(part =~= finder());
    }
    assert(quiet(line, j - 4, j) == (forall|k: int|
        0 <= k && j - 4 <= k < j ==> (#[trigger] line[k]) is Light));
    assert(quiet(line, j + 7, j + 11) == (forall|k: int|
        j + 7 <= k < j + 11 && k < line.len() ==> (#[trigger] line[k]) is Light));
}

/// Finders count forty for each position at which there is one.
pub proof fn finders_are_counted(line: Seq<Module>, n: nat)
    ensures
        ({
            let found = Set::new(|j: int| 0 <= j < n && finder_at(line, j));
            found.finite() && finders_penalty(line, n) == 40 * found.len()
        }),
    decreases n,
{
    let found = Set::new(|j: int| 0 <= j < n && finder_at(line, j));
    if n == 0 {
        assert(found =~= Set::empty());
    } else {
        let m = (n - 1) as nat;
        let before = Set::new(|j: int| 0 <= j < m && finder_at(line, j));
        finders_are_counted(line, m);
        if finder_at(line, n - 1) {
            assert(found =~= before.insert(n - 1));
        } else {
            assert(found =~= before);
        }
    }
}

/// Blocks count three for each position at which two rows have two modules each of one color.
pub proof fn blocks_are_counted(upper: Seq<Module>, lower: Seq<Module>, n: nat)
    ensures
        ({
            let found = Set::new(
                |x: int|
                    0 <= x < n && upper[x] == upper[x + 1] && lower[x] == lower[x + 1] && upper[x]
                        == lower[x],
            );
            found.finite() && pair_penalty(upper, lower, n) == 3 * found.len()
        }),
    decreases n,
{
    let found = Set::new(
        |x: int|
            0 <= x < n && upper[x] == upper[x + 1] && lower[x] == lower[x + 1] && upper[x]
                == lower[x],
    );
    if n == 0 {
        assert(found =~= Set::empty());
    } else {
        let m = (n - 1) as nat;
        let x = n - 1;
        let before = Set::new(
            |x: int|
                0 <= x < m && upper[x] == upper[x + 1] && lower[x] == lower[x + 1] && upper[x]
                    == lower[x],
        );
        blocks_are_counted(upper, lower, m);
        if upper[x] == upper[x + 1] && lower[x] == lower[x + 1] && upper[x] == lower[x] {
            assert(found =~= before.insert(x));
        } else {
            assert(found =~= before);
        }
    }
}

/// The dark modules are those that are left when the light ones are taken out.
pub proof fn dark_modules_are_counted(modules: Seq<Module>)
    ensures
        dark_count(modules) == modules.filter(|m: Module| m is Dark).len(),
    decreases modules.len(),
{
    reveal(Seq::filter);
    if modules.len() > 0 {
        dark_modules_are_counted(modules.drop_last());
    }
}

/// The sum of some numbers.
pub open spec fn sum(numbers: Seq<int>) -> int
    decreases numbers.len(),
{
    if numbers.len() == 0 {
        0
    } else {
        sum(numbers.drop_last()) + numbers.last()
    }
}

proof fn lines_add_up(width: int, modules: Seq<Module>, horizontal: bool, numbers: Seq<int>)
    requires
        width >= 0,
        forall|i: int|
            0 <= i < numbers.len() ==> #[trigger] numbers[i] == runs_penalty(
                line(width, modules, i, horizontal),
            ) + finders_penalty(line(width, modules, i, horizontal), width as nat),
    ensures
        lines_penalty(width, modules, horizontal, numbers.len()) == sum(numbers),
    decreases numbers.len(),
{
    if numbers.len() > 0 {
        lines_add_up(width, modules, horizontal, numbers.drop_last());
        assert(numbers[numbers.len() - 1] == numbers.last());
    }
}

proof fn blocks_add_up(width: int, modules: Seq<Module>, numbers: Seq<int>)
    requires
        forall|y: int|
            0 <= y < numbers.len() ==> #[trigger] numbers[y] == pair_penalty(
                line(width, modules, y, true),
                line(width, modules, y + 1, true),
                (width - 1) as nat,
            ),
    ensures
        blocks_penalty(width, modules, numbers.len()) == sum(numbers),
    decreases numbers.len(),
{
    if numbers.len() > 0 {
        blocks_add_up(width, modules, numbers.drop_last());
        assert(numbers[numbers.len() - 1] == numbers.last());
    }
}

/// The penalty of a code is the sum of what its rows, its columns and its pairs of rows
/// count, all of them, and of how far twice the percentage of its dark modules is from a
/// hundred.
pub proof fn penalty_adds_up(symbol: &QrSymbol, r: u64)
    requires
        call_ensures(penalty, (symbol,), r),
        symbol.well_formed(),
    ensures
        ({
            let w = symbol.width as int;
            let row = |y: int| Seq::new(w as nat, |x: int| symbol.modules@[y * w + x]);
            let column = |x: int| Seq::new(w as nat, |y: int| symbol.modules@[y * w + x]);
            let counts = |l: Seq<Module>| runs_penalty(l) + finders_penalty(l, w as nat);
            let dark = symbol.modules@.filter(|m: Module| m is Dark).len();
            let share = dark * 200 / symbol.modules@.len();
            r == sum(Seq::new(w as nat, |i: int| counts(row(i)) as int)) + sum(
                Seq::new(w as nat, |i: int| counts(column(i)) as int),
            ) + sum(
                Seq::new(
                    (w - 1) as nat,
                    |y: int| pair_penalty(row(y), row(y + 1), (w - 1) as nat) as int,
                ),
            ) + if share >= 100 {
                share - 100
            } else {
                100 - share
            }
        }),
{
    let w = symbol.width as int;
    let m = symbol.modules@;
    let row = |y: int| Seq::new(w as nat, |x: int| m[y * w + x]);
    let column = |x: int| Seq::new(w as nat, |y: int| m[y * w + x]);
    let counts = |l: Seq<Module>| runs_penalty(l) + finders_penalty(l, w as nat);
    assert forall|i: int| #[trigger] row(i) == line(w, m, i, true) by {
        assert(row(i) =~= line(w, m, i, true));
    }
    assert forall|i: int| #[trigger] column(i) == line(w, m, i, false) by {
        assert(column(i) =~= line(w, m, i, false));
    }
    lines_add_up(w, m, true, Seq::new(w as nat, |i: int| counts(row(i)) as int));
    lines_add_up(w, m, false, Seq::new(w as nat, |i: int| counts(column(i)) as int));
    blocks_add_up(
        w,
        m,
        Seq::new(
            (w - 1) as nat,
            |y: int| pair_penalty(row(y), row(y + 1), (w - 1) as nat) as int,
        ),
    );
    dark_modules_are_counted(m);
}

/// The code that is taken is one of those there are; none of them has a smaller penalty, and
/// none before it has the same.
pub proof fn best_code_has_the_least_penalty(candidates: Vec<QrSymbol>, r: QrSymbol)
    requires
        call_ensures(best_symbol, (candidates,), r),
        candidates@.len() > 0,
    ensures
        exists|k: int|
            {
                &&& 0 <= k < candidates@.len()
                &&& r == #[trigger] candidates@[k]
                &&& forall|i: int|
                    0 <= i < candidates@.len() ==> penalty_of(r.width, r.modules@) <= penalty_of(
                        (#[trigger] candidates@[i]).width,
                        candidates@[i].modules@,
                    )
                &&& forall|i: int|
                    0 <= i < k ==> penalty_of(r.width, r.modules@) < penalty_of(
                        (#[trigger] candidates@[i]).width,
                        candidates@[i].modules@,
                    )
            },
{
    let numbers = penalties(candidates@);
    first_least_is_least(numbers);
    let k = first_least(numbers);
    assert forall|i: int| 0 <= i < candidates@.len() implies numbers[i] == penalty_of(
        (#[trigger] candidates@[i]).width,
        candidates@[i].modules@,
    ) by {}
    assert(r == candidates@[k]);
}

} // verus!
