//! Text as a sequence of characters: the few string operations that the rest of the
//! library is built from, each with an exact description.
use vstd::prelude::*;
#[allow(unused_imports)]
use vstd::string::*;

verus! {

/// `String::push` appends the given character to the end of the string.
pub assume_specification[ String::push ](s: &mut String, c: char)
    ensures
        final(s)@ == old(s)@.push(c),
;

/// The views of a list of owned strings.
pub open spec fn views(list: Seq<String>) -> Seq<Seq<char>> {
    list.map_values(|s: String| s@)
}

/// The views of a list of borrowed strings.
pub open spec fn slice_views(list: Seq<&str>) -> Seq<Seq<char>> {
    list.map_values(|s: &str| s@)
}

/// The view of an optional string.
pub open spec fn option_view(s: Option<String>) -> Option<Seq<char>> {
    match s {
        Some(t) => Some(t@),
        None => None,
    }
}

/// The characters of a string, in order.
pub fn chars_of(s: &str) -> (r: Vec<char>)
    ensures
        r@ == s@,
{
    let mut out: Vec<char> = Vec::new();
    for c in it: s.chars()
        invariant
            it.seq() == s@,
            out@ == s@.take(it.index()),
    {
        out.push(c);
    }
    out
}

/// The string made of the characters at positions `from` up to, not including, `to`.
pub fn text_between(chars: &Vec<char>, from: usize, to: usize) -> (r: String)
    requires
        from <= to <= chars@.len(),
    ensures
        r@ == chars@.subrange(from as int, to as int),
{
    let mut out = String::new();
    for i in from..to
        invariant
            from <= to <= chars@.len(),
            out@ == chars@.subrange(from as int, i as int),
    {
        out.push(chars[i]);
    }
    out
}

/// Whether two strings hold the same characters.
pub fn same_text(a: &str, b: &str) -> (r: bool)
    ensures
        r == (a@ == b@),
{
    a.to_owned().eq(&b.to_owned())
}

// ---------------------------------------------------------------------------
// Prefixes
// ---------------------------------------------------------------------------

/// Whether `s` begins with `prefix`.
pub open spec fn begins_with(s: Seq<char>, prefix: Seq<char>) -> bool {
    prefix.len() <= s.len() && s.take(prefix.len() as int) == prefix
}

/// `s` without `prefix` at its start, or nothing where `s` does not begin with it.
pub open spec fn without_prefix(s: Seq<char>, prefix: Seq<char>) -> Option<Seq<char>> {
    if begins_with(s, prefix) {
        Some(s.skip(prefix.len() as int))
    } else {
        None
    }
}

/// Whether `pattern` stands in `s` at position `at`.
pub open spec fn occurs_at(s: Seq<char>, pattern: Seq<char>, at: int) -> bool {
    0 <= at && at + pattern.len() <= s.len() && s.subrange(at, at + pattern.len()) == pattern
}

fn matches_at(s: &Vec<char>, pattern: &Vec<char>, at: usize) -> (r: bool)
    requires
        at <= s@.len(),
    ensures
        r == occurs_at(s@, pattern@, at as int),
{
    let n: usize = s.len();
    if pattern.len() > n - at {
        return false;
    }
    for i in 0..pattern.len()
        invariant
            at + pattern@.len() <= n == s@.len(),
            forall|j: int| 0 <= j < i ==> s@[at + j] == pattern@[j],
    {
        if s[at + i] != pattern[i] {
            proof {
                assert(s@.subrange(at as int, at + pattern@.len())[i as int] == s@[at + i]);
            }
            return false;
        }
    }
    proof {
        assert(s@.subrange(at as int, at + pattern@.len()) =~= pattern@);
    }
    true
}

/// What is left of `s` after `prefix`, where `s` begins with it.
pub fn strip_prefix(s: &str, prefix: &str) -> (r: Option<String>)
    ensures
        match r {
            Some(rest) => without_prefix(s@, prefix@) == Some(rest@),
            None => without_prefix(s@, prefix@) is None,
        },
{
    let chars = chars_of(s);
    let pattern = chars_of(prefix);
    proof {
        if prefix@.len() <= s@.len() {
            assert(s@.subrange(0, prefix@.len() as int) =~= s@.take(prefix@.len() as int));
        }
    }
    if matches_at(&chars, &pattern, 0) {
        let rest = text_between(&chars, pattern.len(), chars.len());
        proof {
            assert(rest@ =~= s@.skip(prefix@.len() as int));
        }
        Some(rest)
    } else {
        None
    }
}

// ---------------------------------------------------------------------------
// Joining
// ---------------------------------------------------------------------------

/// The parts one after the other, with `sep` between any two neighbours.
pub open spec fn joined(parts: Seq<Seq<char>>, sep: Seq<char>) -> Seq<char>
    decreases parts.len(),
{
    if parts.len() == 0 {
        Seq::empty()
    } else if parts.len() == 1 {
        parts[0]
    } else {
        joined(parts.drop_last(), sep) + sep + parts.last()
    }
}

/// Joins the strings with `sep` between any two neighbours.
pub fn join(parts: &[String], sep: &str) -> (r: String)
    ensures
        r@ == joined(views(parts@), sep@),
{
    let mut out = String::new();
    let ghost all = views(parts@);
    for i in 0..parts.len()
        invariant
            all == views(parts@),
            out@ == joined(all.take(i as int), sep@),
    {
        if i > 0 {
            out.append(sep);
        }
        out.append(parts[i].as_str());
        proof {
            assert(all.take(i + 1).drop_last() =~= all.take(i as int));
        }
    }
    proof {
        assert(all.take(parts@.len() as int) =~= all);
    }
    out
}

// ---------------------------------------------------------------------------
// Replacing
// ---------------------------------------------------------------------------

/// `s` with every occurrence of `pattern` replaced by `with`: occurrences are taken
/// from left to right and do not overlap.
pub open spec fn replaced(s: Seq<char>, pattern: Seq<char>, with: Seq<char>) -> Seq<char>
    decreases s.len(),
{
    if pattern.len() == 0 || s.len() == 0 {
        s
    } else if begins_with(s, pattern) {
        with + replaced(s.skip(pattern.len() as int), pattern, with)
    } else {
        seq![s[0]] + replaced(s.skip(1), pattern, with)
    }
}

/// Replaces every occurrence of a pattern that is not empty.
pub fn replace_all(s: &str, pattern: &str, with: &str) -> (r: String)
    requires
        pattern@.len() > 0,
    ensures
        r@ == replaced(s@, pattern@, with@),
{
    let chars = chars_of(s);
    let wanted = chars_of(pattern);
    let mut out = String::new();
    let mut i: usize = 0;
    proof {
        assert(s@.skip(0) =~= s@);
    }
    while i < chars.len()
        invariant
            chars@ == s@,
            wanted@ == pattern@,
            pattern@.len() > 0,
            i <= s@.len(),
            replaced(s@, pattern@, with@) == out@ + replaced(s@.skip(i as int), pattern@, with@),
        decreases s@.len() - i,
    {
        let ghost rest = s@.skip(i as int);
        let ghost before = out@;
        proof {
            if i + pattern@.len() <= s@.len() {
                assert(rest.take(pattern@.len() as int) =~= s@.subrange(
                    i as int,
                    i + pattern@.len(),
                ));
            }
        }
        if matches_at(&chars, &wanted, i) {
            out.append(with);
            proof {
                assert(rest.skip(pattern@.len() as int) =~= s@.skip(i + pattern@.len()));
                assert(out@ + replaced(s@.skip(i + pattern@.len()), pattern@, with@) =~= before
                    + replaced(rest, pattern@, with@));
            }
            i = i + wanted.len();
        } else {
            out.push(chars[i]);
            proof {
                assert(rest.skip(1) =~= s@.skip(i + 1));
                assert(out@ + replaced(s@.skip(i + 1), pattern@, with@) =~= before + replaced(
                    rest,
                    pattern@,
                    with@,
                ));
            }
            i = i + 1;
        }
    }
    proof {
        assert(s@.skip(i as int) =~= Seq::<char>::empty());
        assert(out@ + Seq::<char>::empty() =~= out@);
    }
    out
}

/// A text in which the pattern does not occur is left as it is.
pub proof fn replaced_without_occurrence(s: Seq<char>, pattern: Seq<char>, with: Seq<char>)
    requires
        forall|at: int| !occurs_at(s, pattern, at),
    ensures
        replaced(s, pattern, with) == s,
    decreases s.len(),
{
    if pattern.len() != 0 && s.len() != 0 {
        if begins_with(s, pattern) {
            assert(s.subrange(0, pattern.len() as int) =~= s.take(pattern.len() as int));
            assert(occurs_at(s, pattern, 0));
        }
        let rest = s.skip(1);
        assert forall|at: int| !occurs_at(rest, pattern, at) by {
            if occurs_at(rest, pattern, at) {
                assert(s.subrange(at + 1, at + 1 + pattern.len()) =~= rest.subrange(
                    at,
                    at + pattern.len(),
                ));
                assert(occurs_at(s, pattern, at + 1));
            }
        }
        replaced_without_occurrence(rest, pattern, with);
        assert(seq![s[0]] + rest =~= s);
    }
}

// ---------------------------------------------------------------------------
// Decimal numbers
// ---------------------------------------------------------------------------

/// The decimal digit that stands for `d`.
pub open spec fn digit(d: nat) -> char
    recommends
        d < 10,
{
    ('0' as nat + d) as char
}

/// The number in decimal notation, without leading zeros.
pub open spec fn decimal(n: nat) -> Seq<char>
    decreases n,
{
    if n < 10 {
        seq![digit(n)]
    } else {
        decimal(n / 10).push(digit(n % 10))
    }
}

fn digit_char(d: u64) -> (c: char)
    requires
        d < 10,
    ensures
        c == digit(d as nat),
{
    ('0' as u8 + d as u8) as char
}

/// Writes a number in decimal notation.
pub fn decimal_text(n: u64) -> (r: String)
    ensures
        r@ == decimal(n as nat),
    decreases n,
{
    if n < 10 {
        let mut out = String::new();
        out.push(digit_char(n));
        proof {
            assert(out@ =~= seq![digit(n as nat)]);
        }
        out
    } else {
        let mut out = decimal_text(n / 10);
        out.push(digit_char(n % 10));
        out
    }
}

/// Every character of a decimal notation is a digit, and there is at least one.
pub proof fn decimal_is_digits(n: nat)
    ensures
        decimal(n).len() > 0,
        forall|i: int| 0 <= i < decimal(n).len() ==> '0' <= #[trigger] decimal(n)[i] <= '9',
    decreases n,
{
    if n >= 10 {
        decimal_is_digits(n / 10);
    }
}

/// Two numbers with the same decimal notation are the same number.
pub proof fn decimal_is_injective(m: nat, n: nat)
    requires
        decimal(m) == decimal(n),
    ensures
        m == n,
    decreases m + n,
{
    decimal_is_digits(m / 10);
    decimal_is_digits(n / 10);
    assert(decimal(m).last() == digit(m % 10));
    assert(decimal(n).last() == digit(n % 10));
    assert(digit(m % 10) as nat == '0' as nat + m % 10);
    assert(digit(n % 10) as nat == '0' as nat + n % 10);
    if m < 10 || n < 10 {
        assert(decimal(m).len() == 1 || decimal(n).len() == 1);
    } else {
        assert(decimal(m).drop_last() =~= decimal(m / 10));
        assert(decimal(n).drop_last() =~= decimal(n / 10));
        decimal_is_injective(m / 10, n / 10);
    }
}

// ---------------------------------------------------------------------------
// Blank text
// ---------------------------------------------------------------------------

/// Whether a character has the Unicode property `White_Space`.
pub open spec fn white_space(c: char) -> bool {
    ||| '\u{9}' <= c <= '\u{d}'
    ||| c == ' '
    ||| c == '\u{85}'
    ||| c == '\u{a0}'
    ||| c == '\u{1680}'
    ||| '\u{2000}' <= c <= '\u{200a}'
    ||| c == '\u{2028}'
    ||| c == '\u{2029}'
    ||| c == '\u{202f}'
    ||| c == '\u{205f}'
    ||| c == '\u{3000}'
}

/// Whether a text holds nothing but white space.
pub open spec fn blank(s: Seq<char>) -> bool {
    forall|i: int| 0 <= i < s.len() ==> white_space(#[trigger] s[i])
}

fn is_white_space(c: char) -> (r: bool)
    ensures
        r == white_space(c),
{
    ('\u{9}' <= c && c <= '\u{d}') || c == ' ' || c == '\u{85}' || c == '\u{a0}' || c == '\u{1680}'
        || ('\u{2000}' <= c && c <= '\u{200a}') || c == '\u{2028}' || c == '\u{2029}'
        || c == '\u{202f}' || c == '\u{205f}' || c == '\u{3000}'
}

/// Whether a text is empty or white space throughout.
pub fn is_blank(s: &str) -> (r: bool)
    ensures
        r == blank(s@),
{
    let chars = chars_of(s);
    for i in 0..chars.len()
        invariant
            chars@ == s@,
            forall|j: int| 0 <= j < i ==> white_space(#[trigger] s@[j]),
    {
        if !is_white_space(chars[i]) {
            return false;
        }
    }
    true
}

// ---------------------------------------------------------------------------
// What the operations guarantee
// ---------------------------------------------------------------------------

/// The views of a list are those of its elements, one for one.
pub proof fn views_are_of_the_elements(list: Seq<String>, borrowed: Seq<&str>)
    ensures
        views(list).len() == list.len(),
        forall|i: int| 0 <= i < list.len() ==> #[trigger] views(list)[i] == list[i]@,
        slice_views(borrowed).len() == borrowed.len(),
        forall|i: int| 0 <= i < borrowed.len() ==> #[trigger] slice_views(borrowed)[i] == borrowed[i]@,
{
}

/// The view of an optional string is there exactly if the string is, and is its view.
pub proof fn option_view_is_of_the_string(s: Option<String>)
    ensures
        option_view(s) is Some <==> s is Some,
        s matches Some(t) ==> option_view(s) == Some(t@),
{
}

/// A text begins with those texts, and only those, to which something can be added to make
/// it.
pub proof fn beginning_leaves_a_rest(s: Seq<char>, prefix: Seq<char>, rest: Seq<char>)
    ensures
        begins_with(prefix + rest, prefix),
        begins_with(s, prefix) <==> exists|r: Seq<char>| s == #[trigger] (prefix + r),
        without_prefix(prefix + rest, prefix) == Some(rest),
        without_prefix(s, prefix) is Some <==> begins_with(s, prefix),
{
    assert((prefix + rest).take(prefix.len() as int) =~= prefix);
    assert((prefix + rest).skip(prefix.len() as int) =~= rest);
    if begins_with(s, prefix) {
        assert(s =~= prefix + s.skip(prefix.len() as int));
    }
    if exists|r: Seq<char>| s == #[trigger] (prefix + r) {
        let r = choose|r: Seq<char>| s == #[trigger] (prefix + r);
        assert((prefix + r).take(prefix.len() as int) =~= prefix);
    }
}

/// What is stripped and what is left make up the text; where nothing can be stripped, the
/// text is not the prefix with anything behind it.
pub proof fn stripping_takes_the_prefix_off(
    s: &str,
    prefix: &str,
    r: Option<String>,
    rest: Seq<char>,
)
    requires
        call_ensures(strip_prefix, (s, prefix), r),
    ensures
        r matches Some(left) ==> s@ == prefix@ + left@,
        s@ == prefix@ + rest ==> (r matches Some(left) && left@ == rest),
{
    beginning_leaves_a_rest(s@, prefix@, rest);
    if r is Some {
        assert(s@ =~= prefix@ + s@.skip(prefix@.len() as int));
    }
}

/// A pattern stands where, and only where, each of its characters does.
pub proof fn pattern_stands_where_its_characters_do(s: Seq<char>, pattern: Seq<char>, at: int)
    ensures
        occurs_at(s, pattern, at) <==> {
            &&& 0 <= at
            &&& at + pattern.len() <= s.len()
            &&& forall|i: int| 0 <= i < pattern.len() ==> #[trigger] pattern[i] == s[at + i]
        },
{
    if 0 <= at && at + pattern.len() <= s.len() {
        let part = s.subrange(at, at + pattern.len());
        if forall|i: int| 0 <= i < pattern.len() ==> #[trigger] pattern[i] == s[at + i] {
            assert(part =~= pattern);
        }
        if part == pattern {
            assert forall|i: int| 0 <= i < pattern.len() implies #[trigger] pattern[i] == s[at + i] by {
                assert(part[i] == s[at + i]);
            }
        }
    }
}

/// Nothing joined is nothing, one text joined is that text, and with one more text behind at
/// least one other, the separator and that text come to what there was.
pub proof fn joining_adds_one_text_at_a_time(
    parts: &[String],
    more: &[String],
    sep: &str,
    r: String,
    longer: String,
)
    requires
        call_ensures(join, (parts, sep), r),
        call_ensures(join, (more, sep), longer),
        more@.len() == parts@.len() + 1,
        forall|i: int| 0 <= i < parts@.len() ==> (#[trigger] more@[i])@ == parts@[i]@,
    ensures
        parts@.len() == 0 ==> r@.len() == 0 && longer@ == more@[0]@,
        parts@.len() > 0 ==> longer@ == r@ + sep@ + more@.last()@,
{
    let a = views(parts@);
    let b = views(more@);
    assert(b.drop_last() =~= a);
    assert(b.last() == more@.last()@);
}

/// Behind the first place at which the pattern stands, the rest is dealt with in the same
/// way; before it nothing is changed.
pub proof fn first_occurrence_is_replaced(
    before: Seq<char>,
    pattern: Seq<char>,
    behind: Seq<char>,
    with: Seq<char>,
)
    requires
        pattern.len() > 0,
        forall|at: int|
            0 <= at < before.len() ==> !#[trigger] occurs_at(before + pattern + behind, pattern, at),
    ensures
        replaced(before + pattern + behind, pattern, with) == before + with + replaced(
            behind,
            pattern,
            with,
        ),
    decreases before.len(),
{
    let s = before + pattern + behind;
    if before.len() == 0 {
        assert(s.take(pattern.len() as int) =~= pattern);
        assert(s.skip(pattern.len() as int) =~= behind);
        assert(before + with + replaced(behind, pattern, with) =~= with + replaced(
            behind,
            pattern,
            with,
        ));
    } else {
        let tail = before.skip(1);
        let t = tail + pattern + behind;
        assert(s.skip(1) =~= t);
        if begins_with(s, pattern) {
            assert(s.subrange(0, pattern.len() as int) =~= s.take(pattern.len() as int));
            assert(occurs_at(s, pattern, 0));
        }
        assert forall|at: int| 0 <= at < tail.len() implies !#[trigger] occurs_at(t, pattern, at) by {
            if occurs_at(t, pattern, at) {
                assert(s.subrange(at + 1, at + 1 + pattern.len()) =~= t.subrange(
                    at,
                    at + pattern.len(),
                ));
                assert(occurs_at(s, pattern, at + 1));
            }
        }
        first_occurrence_is_replaced(tail, pattern, behind, with);
        assert(seq![before[0]] + (tail + with + replaced(behind, pattern, with)) =~= before + with
            + replaced(behind, pattern, with));
    }
}

/// The number that decimal digits stand for.
pub open spec fn decimal_value(s: Seq<char>) -> int
    decreases s.len(),
{
    if s.len() == 0 {
        0
    } else {
        decimal_value(s.drop_last()) * 10 + (s.last() as int - '0' as int)
    }
}

/// A number that is written in decimal notation reads back as the number; there is no zero
/// before another digit.
pub proof fn decimal_reads_back(n: nat)
    ensures
        decimal_value(decimal(n)) == n,
        decimal(n).len() > 1 ==> decimal(n)[0] != '0',
    decreases n,
{
    decimal_is_digits(n);
    assert(digit(n % 10) as int == '0' as int + n % 10);
    assert(decimal_value(Seq::<char>::empty()) == 0);
    if n < 10 {
        assert(decimal(n).drop_last() =~= Seq::<char>::empty());
        assert(decimal(n).last() == digit(n % 10));
    } else {
        assert(decimal(n).last() == digit(n % 10));
        decimal_reads_back(n / 10);
        decimal_is_digits(n / 10);
        assert(decimal(n).drop_last() =~= decimal(n / 10));
        assert(decimal(n)[0] == decimal(n / 10)[0]);
        if n / 10 < 10 {
            assert(digit(n / 10) as int == '0' as int + n / 10);
            assert(decimal(n / 10)[0] == digit(n / 10));
        } else {
            decimal_is_digits(n / 10 / 10);
        }
    }
}

/// The text of a number is made of digits, begins with no zero that another digit follows,
/// and reads back as the number.
pub proof fn number_text_reads_back(n: u64, r: String)
    requires
        call_ensures(decimal_text, (n,), r),
    ensures
        r@.len() > 0,
        forall|i: int| 0 <= i < r@.len() ==> '0' <= #[trigger] r@[i] <= '9',
        r@.len() > 1 ==> r@[0] != '0',
        decimal_value(r@) == n,
{
    decimal_is_digits(n as nat);
    decimal_reads_back(n as nat);
}

/// The code points that are white space, by their numbers.
pub open spec fn white_space_code(n: int) -> bool {
    ||| 9 <= n <= 13
    ||| n == 32
    ||| n == 133
    ||| n == 160
    ||| n == 5760
    ||| 8192 <= n <= 8202
    ||| n == 8232
    ||| n == 8233
    ||| n == 8239
    ||| n == 8287
    ||| n == 12288
}

/// A text is blank exactly if the number of each of its characters is one of white space: a
/// single other character anywhere makes it count.
pub proof fn blank_is_white_space_throughout(s: &str, r: bool)
    requires
        call_ensures(is_blank, (s,), r),
    ensures
        r == (forall|i: int| 0 <= i < s@.len() ==> white_space_code((#[trigger] s@[i]) as int)),
        r == blank(s@),
{
    assert forall|c: char| #[trigger] white_space(c) == white_space_code(c as int) by {}
}

} // verus!
