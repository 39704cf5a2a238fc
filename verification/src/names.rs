//! File names: the last component of a path, and a free name for a file that arrives.
//!
//! The components of a path are separated by `/`. What Windows knows besides, a backslash
//! and drives, is dealt with where `windows` says that the program runs there.
use crate::text::{
    begins_with, chars_of, decimal, decimal_is_digits, decimal_is_injective, decimal_text,
    occurs_at, text_between,
};
use vstd::prelude::*;
#[allow(unused_imports)]
use vstd::string::*;

verus! {

/// The last position at which `c` stands in `s`, or -1 where it does not.
pub open spec fn last_index_of(s: Seq<char>, c: char) -> int
    decreases s.len(),
{
    if s.len() == 0 {
        -1
    } else if s.last() == c {
        s.len() - 1
    } else {
        last_index_of(s.drop_last(), c)
    }
}

/// The last position is in range, holds the character, and no later one does.
pub proof fn last_index_of_is_last(s: Seq<char>, c: char)
    ensures
        -1 <= last_index_of(s, c) < s.len(),
        last_index_of(s, c) >= 0 ==> s[last_index_of(s, c)] == c,
        forall|i: int| last_index_of(s, c) < i < s.len() ==> #[trigger] s[i] != c,
    decreases s.len(),
{
    if s.len() > 0 && s.last() != c {
        last_index_of_is_last(s.drop_last(), c);
        assert forall|i: int| last_index_of(s, c) < i < s.len() implies #[trigger] s[i] != c by {
            if i < s.len() - 1 {
                assert(s.drop_last()[i] == s[i]);
            }
        }
    }
}

/// The last component of a path. Empty components and `.` are passed over; a path that
/// ends in `..`, or that has no component, has no last component.
pub open spec fn file_name_of(path: Seq<char>) -> Option<Seq<char>>
    decreases path.len(),
{
    let slash = last_index_of(path, '/');
    let tail = path.skip(slash + 1);
    if tail.len() == 0 || tail == seq!['.'] {
        if 0 <= slash < path.len() {
            file_name_of(path.take(slash))
        } else {
            None
        }
    } else if tail == seq!['.', '.'] {
        None
    } else {
        Some(tail)
    }
}

/// Whether a character separates names in a path: `/`, and on Windows also the backslash
/// and the colon.
pub open spec fn is_delimiter(windows: bool, c: char) -> bool {
    c == '/' || windows && (c == '\\' || c == ':')
}

/// Whether `s` names an entry of the directory it is used in: it is not empty, holds nothing
/// that separates names, and is neither `.` nor `..`.
pub open spec fn is_entry_name(windows: bool, s: Seq<char>) -> bool {
    &&& s.len() > 0
    &&& forall|i: int| 0 <= i < s.len() ==> !is_delimiter(windows, #[trigger] s[i])
    &&& s != seq!['.']
    &&& s != seq!['.', '.']
}

/// The last component of a path is never empty, holds no `/`, is neither `.` nor `..`, and is
/// a part of the path.
pub proof fn file_name_is_entry_name(path: Seq<char>)
    ensures
        file_name_of(path) matches Some(name) ==> is_entry_name(false, name) && exists|at: int|
            #[trigger] occurs_at(path, name, at),
    decreases path.len(),
{
    let slash = last_index_of(path, '/');
    let tail = path.skip(slash + 1);
    last_index_of_is_last(path, '/');
    if tail.len() == 0 || tail == seq!['.'] {
        if slash >= 0 {
            let shorter = path.take(slash);
            file_name_is_entry_name(shorter);
            if let Some(name) = file_name_of(shorter) {
                let at = choose|at: int| #[trigger] occurs_at(shorter, name, at);
                assert(path.subrange(at, at + name.len()) =~= shorter.subrange(
                    at,
                    at + name.len(),
                ));
                assert(occurs_at(path, name, at));
            }
        }
    } else if tail != seq!['.', '.'] {
        assert forall|i: int| 0 <= i < tail.len() implies #[trigger] tail[i] != '/' by {
            assert(path[i + slash + 1] != '/');
        }
        assert(path.subrange(slash + 1, slash + 1 + tail.len()) =~= tail);
        assert(occurs_at(path, tail, slash + 1));
    }
}

/// An entry name is its own last component.
pub proof fn entry_name_is_its_own_file_name(name: Seq<char>)
    requires
        is_entry_name(false, name),
    ensures
        file_name_of(name) == Some(name),
{
    last_index_of_is_last(name, '/');
    assert(name.skip(0) =~= name);
}

fn find_last(chars: &Vec<char>, end: usize, c: char) -> (r: Option<usize>)
    requires
        end <= chars@.len(),
    ensures
        match r {
            Some(i) => last_index_of(chars@.take(end as int), c) == i && i < end,
            None => last_index_of(chars@.take(end as int), c) == -1,
        },
{
    let mut i: usize = end;
    while i > 0
        invariant
            i <= end <= chars@.len(),
            last_index_of(chars@.take(end as int), c) == last_index_of(chars@.take(i as int), c),
        decreases i,
    {
        proof {
            assert(chars@.take(i as int).drop_last() =~= chars@.take(i - 1));
        }
        if chars[i - 1] == c {
            return Some(i - 1);
        }
        i = i - 1;
    }
    None
}

/// The last component of a path.
pub fn file_name(path: &str) -> (r: Option<String>)
    ensures
        match r {
            Some(name) => file_name_of(path@) == Some(name@),
            None => file_name_of(path@) is None,
        },
{
    let chars = chars_of(path);
    let mut end: usize = chars.len();
    proof {
        assert(path@.take(path@.len() as int) =~= path@);
    }
    loop
        invariant
            chars@ == path@,
            end <= path@.len(),
            file_name_of(path@) == file_name_of(path@.take(end as int)),
        decreases end,
    {
        let slash = find_last(&chars, end, '/');
        let start: usize = match slash {
            Some(i) => i + 1,
            None => 0,
        };
        let ghost part = path@.take(end as int);
        let ghost tail = part.skip(start as int);
        proof {
            last_index_of_is_last(part, '/');
            assert(tail =~= path@.subrange(start as int, end as int));
            assert(seq!['.', '.'].len() == 2);
        }
        let size: usize = end - start;
        if size == 0 || (size == 1 && chars[start] == '.') {
            proof {
                if size == 1 {
                    assert(tail =~= seq!['.']);
                }
            }
            match slash {
                Some(i) => {
                    proof {
                        assert(part.take(i as int) =~= path@.take(i as int));
                    }
                    end = i;
                },
                None => {
                    return None;
                },
            }
        } else if size == 2 && chars[start] == '.' && chars[start + 1] == '.' {
            proof {
                assert(tail =~= seq!['.', '.']);
            }
            return None;
        } else {
            proof {
                if size == 1 {
                    assert(tail[0] != '.');
                }
                if size == 2 {
                    assert(tail[0] != '.' || tail[1] != '.');
                }
            }
            return Some(text_between(&chars, start, end));
        }
    }
}

// ---------------------------------------------------------------------------
// Paths on Windows
// ---------------------------------------------------------------------------

/// Whether a path begins with the letter of a drive and a colon.
pub open spec fn has_drive(path: Seq<char>) -> bool {
    &&& path.len() >= 2
    &&& ('a' <= path[0] <= 'z' || 'A' <= path[0] <= 'Z')
    &&& path[1] == ':'
}

/// A text with one character replaced by another throughout.
pub open spec fn with_char(s: Seq<char>, c: char, by: char) -> Seq<char> {
    s.map_values(
        |x: char|
            if x == c {
                by
            } else {
                x
            },
    )
}

/// A path without a drive before it, and with its backslashes read as slashes.
pub open spec fn slash_path(path: Seq<char>) -> Seq<char> {
    with_char(
        if has_drive(path) {
            path.skip(2)
        } else {
            path
        },
        '\\',
        '/',
    )
}

fn replace_char(chars: &Vec<char>, from: usize, c: char, by: char) -> (r: String)
    requires
        from <= chars@.len(),
    ensures
        r@ == with_char(chars@.skip(from as int), c, by),
{
    let ghost whole = with_char(chars@.skip(from as int), c, by);
    let mut out = String::new();
    for i in from..chars.len()
        invariant
            from <= chars@.len(),
            whole == with_char(chars@.skip(from as int), c, by),
            out@ == whole.take(i - from),
    {
        if chars[i] == c {
            out.push(by);
        } else {
            out.push(chars[i]);
        }
        proof {
            assert(out@ =~= whole.take(i + 1 - from));
        }
    }
    proof {
        assert(whole.take(chars@.len() - from) =~= whole);
    }
    out
}

fn slash_text(path: &str) -> (r: String)
    ensures
        r@ == slash_path(path@),
{
    let chars = chars_of(path);
    let drive = chars.len() >= 2 && (('a' <= chars[0] && chars[0] <= 'z') || ('A' <= chars[0]
        && chars[0] <= 'Z')) && chars[1] == ':';
    proof {
        assert(path@.skip(0) =~= path@);
    }
    if drive {
        replace_char(&chars, 2, '\\', '/')
    } else {
        replace_char(&chars, 0, '\\', '/')
    }
}

// ---------------------------------------------------------------------------
// Stem and extension
// ---------------------------------------------------------------------------

/// Whether the last dot of a file name sets off an extension: there is one, it is not the
/// first character, and the name is not `..`.
pub open spec fn has_extension(name: Seq<char>) -> bool {
    last_index_of(name, '.') > 0 && name != seq!['.', '.']
}

/// The part of a file name before its extension.
pub open spec fn stem_of(name: Seq<char>) -> Seq<char> {
    if has_extension(name) {
        name.take(last_index_of(name, '.'))
    } else {
        name
    }
}

/// The extension of a file name, without its dot.
pub open spec fn extension_of(name: Seq<char>) -> Option<Seq<char>> {
    if has_extension(name) {
        Some(name.skip(last_index_of(name, '.') + 1))
    } else {
        None
    }
}

/// Splits a file name into its stem and its extension.
pub fn split_name(name: &str) -> (r: (String, Option<String>))
    ensures
        r.0@ == stem_of(name@),
        match r.1 {
            Some(e) => extension_of(name@) == Some(e@),
            None => extension_of(name@) is None,
        },
{
    let chars = chars_of(name);
    let n: usize = chars.len();
    proof {
        assert(name@.take(n as int) =~= name@);
        last_index_of_is_last(name@, '.');
        assert(name@.skip(0) =~= name@);
    }
    match find_last(&chars, n, '.') {
        Some(dot) => {
            let parent = n == 2 && chars[0] == '.' && chars[1] == '.';
            proof {
                assert(parent == (name@ =~= seq!['.', '.']));
            }
            if dot == 0 || parent {
                (name.to_owned(), None)
            } else {
                let stem = text_between(&chars, 0, dot);
                let ext = text_between(&chars, dot + 1, n);
                proof {
                    assert(stem@ =~= name@.take(dot as int));
                    assert(ext@ =~= name@.skip(dot + 1));
                }
                (stem, Some(ext))
            }
        },
        None => (name.to_owned(), None),
    }
}

/// Stem, dot and extension make up the name again.
pub proof fn stem_and_extension_make_the_name(name: Seq<char>)
    ensures
        match extension_of(name) {
            Some(e) => name == stem_of(name) + seq!['.'] + e,
            None => name == stem_of(name),
        },
{
    last_index_of_is_last(name, '.');
    if has_extension(name) {
        assert(name =~= stem_of(name) + seq!['.'] + name.skip(last_index_of(name, '.') + 1));
    }
}

// ---------------------------------------------------------------------------
// A free name
// ---------------------------------------------------------------------------

/// The names tried for one file before the number of the process is brought in.
pub const CANDIDATES: u64 = 10_000;

/// The name under which an arriving file is stored if nothing has it yet: the last
/// component of the name that came with it, or `file`. On Windows a backslash ends a
/// component as well, a drive is left out, and a colon becomes `_`.
pub open spec fn stored_name(windows: bool, filename: Seq<char>) -> Seq<char> {
    let found = file_name_of(
        if windows {
            slash_path(filename)
        } else {
            filename
        },
    );
    match found {
        Some(name) => if windows {
            with_char(name, ':', '_')
        } else {
            name
        },
        None => "file"@,
    }
}

/// A name with a number in round brackets before its extension.
pub open spec fn numbered(name: Seq<char>, i: nat) -> Seq<char> {
    let front = stem_of(name) + " ("@ + decimal(i) + ")"@;
    match extension_of(name) {
        Some(e) => front + "."@ + e,
        None => front,
    }
}

/// A name that sets the running process apart from others: the stem and the process's
/// number.
pub open spec fn process_name(name: Seq<char>, process_id: nat) -> Seq<char> {
    stem_of(name) + "-"@ + decimal(process_id)
}

/// A text with a number in round brackets behind it, or without one for zero.
pub open spec fn bracketed(front: Seq<char>, k: nat) -> Seq<char> {
    if k == 0 {
        front
    } else {
        front + " ("@ + decimal(k) + ")"@
    }
}

/// The names that are tried in turn: the name itself, then the numbered ones, then those of
/// the running process.
pub open spec fn candidate(name: Seq<char>, process_id: nat, k: nat) -> Seq<char> {
    if k == 0 {
        name
    } else if k < CANDIDATES {
        numbered(name, k)
    } else {
        bracketed(process_name(name, process_id), (k - CANDIDATES) as nat)
    }
}

/// How many names are tried before the search gives up.
pub open spec fn tries() -> nat {
    CANDIDATES as nat + u64::MAX as nat
}

/// Whether `is_taken` can give `answer` for the given name.
pub open spec fn answered<F: Fn(&str) -> bool>(is_taken: F, name: Seq<char>, answer: bool) -> bool {
    exists|n: &str| n@ == name && #[trigger] is_taken.ensures((n,), answer)
}

/// Whether `chosen` is what a search for a free name ends with, by the answers that
/// `is_taken` gave: the first name tried that was free, or, where all were taken, the plain
/// name of the process.
pub open spec fn search_ends_with<F: Fn(&str) -> bool>(
    is_taken: F,
    name: Seq<char>,
    process_id: nat,
    chosen: Seq<char>,
) -> bool {
    ||| exists|k: nat|
        {
            &&& k < tries()
            &&& chosen == #[trigger] candidate(name, process_id, k)
            &&& answered(is_taken, chosen, false)
            &&& forall|j: nat|
                j < k ==> answered(is_taken, #[trigger] candidate(name, process_id, j), true)
        }
    ||| {
        &&& chosen == process_name(name, process_id)
        &&& forall|j: nat|
            j < tries() ==> answered(is_taken, #[trigger] candidate(name, process_id, j), true)
    }
}

fn safe_name(filename: &str, windows: bool) -> (r: String)
    ensures
        r@ == stored_name(windows, filename@),
{
    if windows {
        match file_name(slash_text(filename).as_str()) {
            Some(name) => {
                proof {
                    assert(name@.skip(0) =~= name@);
                }
                replace_char(&chars_of(name.as_str()), 0, ':', '_')
            },
            None => "file".to_owned(),
        }
    } else {
        match file_name(filename) {
            Some(name) => name,
            None => "file".to_owned(),
        }
    }
}

fn numbered_text(stem: &str, ext: &Option<String>, i: u64, Ghost(name): Ghost<Seq<char>>) -> (r:
    String)
    requires
        stem@ == stem_of(name),
        match *ext {
            Some(e) => extension_of(name) == Some(e@),
            None => extension_of(name) is None,
        },
    ensures
        r@ == numbered(name, i as nat),
{
    let mut out = stem.to_owned();
    out.append(" (");
    out.append(decimal_text(i).as_str());
    out.append(")");
    match ext {
        Some(e) => {
            out.append(".");
            out.append(e.as_str());
        },
        None => {},
    }
    out
}

fn bracketed_text(front: &str, k: u64) -> (r: String)
    ensures
        r@ == bracketed(front@, k as nat),
{
    let mut out = front.to_owned();
    if k > 0 {
        out.append(" (");
        out.append(decimal_text(k).as_str());
        out.append(")");
    }
    out
}

/// A name for an arriving file that does not clash with what is there: asks `is_taken`
/// about one name after the other and takes the first that is free.
pub fn unique_path<F: Fn(&str) -> bool>(
    filename: &str,
    is_taken: F,
    process_id: u32,
    windows: bool,
) -> (r: String)
    requires
        forall|n: &str| #[trigger] is_taken.requires((n,)),
    ensures
        search_ends_with(is_taken, stored_name(windows, filename@), process_id as nat, r@),
{
    let safe = safe_name(filename, windows);
    let ghost name = stored_name(windows, filename@);
    let ghost id = process_id as nat;
    if !is_taken(safe.as_str()) {
        proof {
            assert(candidate(name, id, 0) == name);
            assert(answered(is_taken, name, false));
        }
        return safe;
    }
    proof {
        assert(answered(is_taken, candidate(name, id, 0), true));
    }
    let (stem, ext) = split_name(safe.as_str());
    let mut i: u64 = 1;
    while i < CANDIDATES
        invariant
            1 <= i <= CANDIDATES,
            stem@ == stem_of(name),
            match ext {
                Some(e) => extension_of(name) == Some(e@),
                None => extension_of(name) is None,
            },
            forall|n: &str| #[trigger] is_taken.requires((n,)),
            forall|j: nat| j < i ==> answered(is_taken, #[trigger] candidate(name, id, j), true),
            name == stored_name(windows, filename@),
            id == process_id,
        decreases CANDIDATES - i,
    {
        let tried = numbered_text(stem.as_str(), &ext, i, Ghost(name));
        proof {
            assert(tried@ == candidate(name, id, i as nat));
        }
        if !is_taken(tried.as_str()) {
            proof {
                assert(answered(is_taken, tried@, false));
            }
            return tried;
        }
        proof {
            assert(answered(is_taken, candidate(name, id, i as nat), true));
        }
        i = i + 1;
    }
    let mut plain = stem;
    plain.append("-");
    plain.append(decimal_text(process_id as u64).as_str());
    let mut k: u64 = 0;
    while k < u64::MAX
        invariant
            plain@ == process_name(name, id),
            forall|n: &str| #[trigger] is_taken.requires((n,)),
            forall|j: nat|
                j < CANDIDATES + k ==> answered(
                    is_taken,
                    #[trigger] candidate(name, id, j),
                    true,
                ),
            name == stored_name(windows, filename@),
            id == process_id,
        decreases u64::MAX - k,
    {
        let tried = bracketed_text(plain.as_str(), k);
        proof {
            assert(tried@ == candidate(name, id, (CANDIDATES + k) as nat));
        }
        if !is_taken(tried.as_str()) {
            proof {
                assert(answered(is_taken, tried@, false));
            }
            return tried;
        }
        proof {
            assert(answered(is_taken, candidate(name, id, (CANDIDATES + k) as nat), true));
        }
        k = k + 1;
    }
    plain
}

// ---------------------------------------------------------------------------
// What the search guarantees
// ---------------------------------------------------------------------------

/// Whether `is_taken` tells, for every name, whether it is among the names taken.
pub open spec fn faithful<F: Fn(&str) -> bool>(is_taken: F, taken: Set<Seq<char>>) -> bool {
    forall|n: &str, answer: bool| #[trigger]
        is_taken.ensures((n,), answer) ==> answer == taken.contains(n@)
}

/// As long as one of the names tried is free, the search ends with a free one, and every
/// name before it is taken.
pub proof fn search_finds_the_first_free_name<F: Fn(&str) -> bool>(
    is_taken: F,
    name: Seq<char>,
    process_id: nat,
    chosen: Seq<char>,
    taken: Set<Seq<char>>,
    free: nat,
)
    requires
        search_ends_with(is_taken, name, process_id, chosen),
        faithful(is_taken, taken),
        free < tries(),
        !taken.contains(candidate(name, process_id, free)),
    ensures
        !taken.contains(chosen),
        exists|k: nat|
            k <= free && chosen == #[trigger] candidate(name, process_id, k) && forall|j: nat|
                j < k ==> taken.contains(#[trigger] candidate(name, process_id, j)),
{
    if forall|j: nat|
        j < tries() ==> answered(is_taken, #[trigger] candidate(name, process_id, j), true) {
        assert(answered(is_taken, candidate(name, process_id, free), true));
        assert(false);
    }
    let k = choose|k: nat|
        {
            &&& k < tries()
            &&& chosen == #[trigger] candidate(name, process_id, k)
            &&& answered(is_taken, chosen, false)
            &&& forall|j: nat|
                j < k ==> answered(is_taken, #[trigger] candidate(name, process_id, j), true)
        };
    assert forall|j: nat| j < k implies taken.contains(
        #[trigger] candidate(name, process_id, j),
    ) by {
        assert(answered(is_taken, candidate(name, process_id, j), true));
    }
    assert(chosen == candidate(name, process_id, k));
}

/// A received file never takes a name that something has: the chosen name is free, whatever
/// finite number of names is taken, as long as that is fewer than are tried.
pub proof fn chosen_name_is_free<F: Fn(&str) -> bool>(
    is_taken: F,
    name: Seq<char>,
    process_id: nat,
    chosen: Seq<char>,
    taken: Set<Seq<char>>,
)
    requires
        search_ends_with(is_taken, name, process_id, chosen),
        faithful(is_taken, taken),
        taken.finite(),
        taken.len() < tries(),
    ensures
        !taken.contains(chosen),
{
    if forall|j: nat| j < tries() ==> taken.contains(#[trigger] candidate(name, process_id, j)) {
        candidates_fill(name, process_id, tries(), taken);
    } else {
        let free = choose|j: nat|
            j < tries() && !taken.contains(#[trigger] candidate(name, process_id, j));
        search_finds_the_first_free_name(is_taken, name, process_id, chosen, taken, free);
    }
}

/// The plain name of the process is the answer where every numbered name is taken and it is
/// free.
pub proof fn process_name_is_next<F: Fn(&str) -> bool>(
    is_taken: F,
    name: Seq<char>,
    process_id: nat,
    chosen: Seq<char>,
    taken: Set<Seq<char>>,
)
    requires
        search_ends_with(is_taken, name, process_id, chosen),
        faithful(is_taken, taken),
        forall|j: nat| j < CANDIDATES ==> taken.contains(#[trigger] candidate(name, process_id, j)),
        !taken.contains(process_name(name, process_id)),
    ensures
        chosen == process_name(name, process_id),
{
    let first = CANDIDATES as nat;
    assert(candidate(name, process_id, first) == process_name(name, process_id));
    search_finds_the_first_free_name(is_taken, name, process_id, chosen, taken, first);
}

proof fn candidates_fill(name: Seq<char>, process_id: nat, n: nat, taken: Set<Seq<char>>)
    requires
        taken.finite(),
        forall|j: nat| j < n ==> taken.contains(#[trigger] candidate(name, process_id, j)),
    ensures
        taken.len() >= n,
    decreases n,
{
    if n > 0 {
        let last = (n - 1) as nat;
        let rest = taken.remove(candidate(name, process_id, last));
        assert(taken.contains(candidate(name, process_id, last)));
        assert forall|j: nat| j < last implies rest.contains(
            #[trigger] candidate(name, process_id, j),
        ) by {
            candidates_are_distinct(name, process_id, j, last);
        }
        candidates_fill(name, process_id, last, rest);
    }
}

/// No two of the names tried are the same, so the search makes progress with each.
pub proof fn candidates_are_distinct(name: Seq<char>, process_id: nat, i: nat, j: nat)
    requires
        i != j,
    ensures
        candidate(name, process_id, i) != candidate(name, process_id, j),
{
    reveal_strlit(" (");
    reveal_strlit(")");
    reveal_strlit(".");
    reveal_strlit("-");
    stem_and_extension_make_the_name(name);
    let a = candidate(name, process_id, i);
    let b = candidate(name, process_id, j);
    if a == b {
        mark_behind_the_stem(name, process_id, i);
        mark_behind_the_stem(name, process_id, j);
        if i == 0 || j == 0 {
        } else if i < CANDIDATES {
            let f = stem_of(name) + " ("@ + decimal(i) + ")"@;
            let g = stem_of(name) + " ("@ + decimal(j) + ")"@;
            assert(a.take(f.len() as int) =~= f);
            assert(b.take(g.len() as int) =~= g);
            bracketed_is_injective(stem_of(name), i, j, a);
        } else {
            let m = (i - CANDIDATES) as nat;
            let n = (j - CANDIDATES) as nat;
            if m == 0 || n == 0 {
                decimal_is_digits(m);
                decimal_is_digits(n);
            } else {
                assert(a.take(a.len() as int) =~= a);
                bracketed_is_injective(process_name(name, process_id), m, n, a);
            }
        }
    }
}

/// What stands right behind the stem tells the three kinds of names apart: a dot or nothing,
/// a blank, or a hyphen.
proof fn mark_behind_the_stem(name: Seq<char>, process_id: nat, k: nat)
    ensures
        ({
            let c = candidate(name, process_id, k);
            let at = stem_of(name).len() as int;
            if k == 0 {
                c.len() == at || c[at] == '.'
            } else if k < CANDIDATES {
                c.len() > at && c[at] == ' '
            } else {
                c.len() > at && c[at] == '-'
            }
        }),
{
    reveal_strlit(" (");
    reveal_strlit(")");
    reveal_strlit(".");
    reveal_strlit("-");
    stem_and_extension_make_the_name(name);
}

/// Two names that go on behind the same text with a number in round brackets have the same
/// number.
proof fn bracketed_is_injective(front: Seq<char>, i: nat, j: nat, whole: Seq<char>)
    requires
        begins_with(whole, front + " ("@ + decimal(i) + ")"@),
        begins_with(whole, front + " ("@ + decimal(j) + ")"@),
    ensures
        i == j,
{
    reveal_strlit(" (");
    reveal_strlit(")");
    decimal_is_digits(i);
    decimal_is_digits(j);
    let a = front + " ("@ + decimal(i) + ")"@;
    let b = front + " ("@ + decimal(j) + ")"@;
    let from = front.len() + 2;
    let m = from + decimal(i).len();
    let n = from + decimal(j).len();
    assert forall|p: int| 0 <= p < a.len() implies #[trigger] whole[p] == a[p] by {
        assert(whole.take(a.len() as int)[p] == whole[p]);
    }
    assert forall|p: int| 0 <= p < b.len() implies #[trigger] whole[p] == b[p] by {
        assert(whole.take(b.len() as int)[p] == whole[p]);
    }
    assert(whole[m as int] == ')' && whole[n as int] == ')');
    if m < n {
        assert(whole[m as int] == decimal(j)[m - from]);
    } else if n < m {
        assert(whole[n as int] == decimal(i)[n - from]);
    }
    assert(decimal(i) =~= whole.subrange(from as int, m as int));
    assert(decimal(j) =~= whole.subrange(from as int, n as int));
    decimal_is_injective(i, j);
}

/// Every name that a search can end with is an entry of the directory it is used in,
/// whatever name came with the file: it leads to no other directory, and on Windows to no
/// drive.
pub proof fn chosen_name_stays_in_the_directory<F: Fn(&str) -> bool>(
    is_taken: F,
    windows: bool,
    filename: Seq<char>,
    process_id: nat,
    chosen: Seq<char>,
)
    requires
        search_ends_with(is_taken, stored_name(windows, filename), process_id, chosen),
    ensures
        is_entry_name(windows, chosen),
{
    let name = stored_name(windows, filename);
    stored_name_is_entry_name(windows, filename);
    if chosen == process_name(name, process_id) {
        process_name_is_entry_name(windows, name, process_id, 0);
    } else {
        let k = choose|k: nat| k < tries() && chosen == #[trigger] candidate(name, process_id, k);
        if k >= CANDIDATES {
            process_name_is_entry_name(windows, name, process_id, (k - CANDIDATES) as nat);
        } else if k != 0 {
            numbered_is_entry_name(windows, name, k);
        }
    }
}

/// A name that is an entry name already is kept, if nothing has it.
pub proof fn entry_name_is_kept(windows: bool, name: Seq<char>)
    requires
        is_entry_name(windows, name),
    ensures
        stored_name(windows, name) == name,
{
    assert forall|i: int| 0 <= i < name.len() implies #[trigger] name[i] != '/' by {
        assert(!is_delimiter(windows, name[i]));
    }
    entry_name_is_its_own_file_name(name);
    if windows {
        assert(slash_path(name) =~= name);
        assert(with_char(name, ':', '_') =~= name);
    }
}

proof fn stored_name_is_entry_name(windows: bool, filename: Seq<char>)
    ensures
        is_entry_name(windows, stored_name(windows, filename)),
{
    reveal_strlit("file");
    assert("file"@.len() == 4 && seq!['.'].len() == 1 && seq!['.', '.'].len() == 2);
    if windows {
        let path = slash_path(filename);
        file_name_is_entry_name(path);
        if let Some(found) = file_name_of(path) {
            let at = choose|at: int| #[trigger] occurs_at(path, found, at);
            let name = with_char(found, ':', '_');
            assert forall|i: int| 0 <= i < name.len() implies !is_delimiter(
                windows,
                #[trigger] name[i],
            ) by {
                assert(found[i] == path.subrange(at, at + found.len())[i]);
                assert(path[at + i] != '\\');
                assert(!is_delimiter(false, found[i]));
            }
            if name == seq!['.'] {
                assert(name[0] == '.');
                assert(found =~= seq!['.']);
            }
            if name == seq!['.', '.'] {
                assert(name[0] == '.' && name[1] == '.');
                assert(found =~= seq!['.', '.']);
            }
        }
    } else {
        file_name_is_entry_name(filename);
    }
}

proof fn stem_has_no_delimiter(windows: bool, name: Seq<char>)
    requires
        is_entry_name(windows, name),
    ensures
        forall|i: int|
            0 <= i < stem_of(name).len() ==> !is_delimiter(windows, #[trigger] stem_of(name)[i]),
        extension_of(name) matches Some(e) ==> forall|i: int|
            0 <= i < e.len() ==> !is_delimiter(windows, #[trigger] e[i]),
        stem_of(name).len() > 0,
{
    last_index_of_is_last(name, '.');
    if has_extension(name) {
        let dot = last_index_of(name, '.');
        assert forall|i: int| 0 <= i < stem_of(name).len() implies !is_delimiter(
            windows,
            #[trigger] stem_of(name)[i],
        ) by {
            assert(!is_delimiter(windows, name[i]));
        }
        let e = name.skip(dot + 1);
        assert forall|i: int| 0 <= i < e.len() implies !is_delimiter(windows, #[trigger] e[i]) by {
            assert(!is_delimiter(windows, name[i + dot + 1]));
        }
    }
}

proof fn numbered_is_entry_name(windows: bool, name: Seq<char>, k: nat)
    requires
        is_entry_name(windows, name),
    ensures
        is_entry_name(windows, numbered(name, k)),
{
    reveal_strlit(" (");
    reveal_strlit(")");
    reveal_strlit(".");
    stem_has_no_delimiter(windows, name);
    decimal_is_digits(k);
    let n = numbered(name, k);
    let stem = stem_of(name);
    let d = decimal(k);
    let e = match extension_of(name) {
        Some(e) => e,
        None => Seq::empty(),
    };
    assert(n.len() > 2 && seq!['.'].len() == 1 && seq!['.', '.'].len() == 2);
    assert forall|i: int| 0 <= i < n.len() implies !is_delimiter(windows, #[trigger] n[i]) by {
        if i < stem.len() {
            assert(n[i] == stem[i]);
        } else if i < stem.len() + 2 {
            assert(n[i] == " ("@[i - stem.len()]);
        } else if i < stem.len() + 2 + d.len() {
            assert(n[i] == d[i - stem.len() - 2]);
        } else if i < stem.len() + 3 + d.len() {
            assert(n[i] == ')');
        } else if i == stem.len() + 3 + d.len() {
            assert(n[i] == '.');
        } else {
            assert(n[i] == e[i - stem.len() - d.len() - 4]);
        }
    }
}

proof fn process_name_is_entry_name(windows: bool, name: Seq<char>, process_id: nat, k: nat)
    requires
        is_entry_name(windows, name),
    ensures
        is_entry_name(windows, bracketed(process_name(name, process_id), k)),
{
    reveal_strlit("-");
    reveal_strlit(" (");
    reveal_strlit(")");
    stem_has_no_delimiter(windows, name);
    decimal_is_digits(process_id);
    decimal_is_digits(k);
    let n = bracketed(process_name(name, process_id), k);
    let stem = stem_of(name);
    let d = decimal(process_id);
    let e = decimal(k);
    let plain = stem.len() + 1 + d.len();
    assert(n.len() > 2 && seq!['.'].len() == 1 && seq!['.', '.'].len() == 2);
    assert forall|i: int| 0 <= i < n.len() implies !is_delimiter(windows, #[trigger] n[i]) by {
        if i < stem.len() {
            assert(n[i] == stem[i]);
        } else if i == stem.len() {
            assert(n[i] == '-');
        } else if i < plain {
            assert(n[i] == d[i - stem.len() - 1]);
        } else if i < plain + 2 {
            assert(n[i] == " ("@[i - plain]);
        } else if i < plain + 2 + e.len() {
            assert(n[i] == e[i - plain - 2]);
        } else {
            assert(n[i] == ')');
        }
    }
}

// ---------------------------------------------------------------------------
// What names are made of
// ---------------------------------------------------------------------------

proof fn last_index_is(s: Seq<char>, c: char, at: int)
    requires
        0 <= at < s.len(),
        s[at] == c,
        forall|i: int| at < i < s.len() ==> #[trigger] s[i] != c,
    ensures
        last_index_of(s, c) == at,
{
    last_index_of_is_last(s, c);
}

/// What stands behind the last slash of a path decides on its last component: nothing or `.`
/// leave it to what stands before the slash, `..` means that there is none, and anything
/// else is it.
pub proof fn last_segment_decides(front: Seq<char>, tail: Seq<char>)
    requires
        forall|i: int| 0 <= i < tail.len() ==> #[trigger] tail[i] != '/',
    ensures
        ({
            let passed_over = tail.len() == 0 || tail == seq!['.'];
            let whole = file_name_of(front + seq!['/'] + tail);
            &&& passed_over ==> file_name_of(tail) is None && whole == file_name_of(front)
            &&& tail == seq!['.', '.'] ==> file_name_of(tail) is None && whole is None
            &&& !passed_over && tail != seq!['.', '.'] ==> file_name_of(tail) == Some(tail) && whole
                == Some(tail)
        }),
{
    let path = front + seq!['/'] + tail;
    let at = front.len() as int;
    assert forall|i: int| at < i < path.len() implies #[trigger] path[i] != '/' by {
        assert(path[i] == tail[i - at - 1]);
    }
    last_index_is(path, '/', at);
    assert(path.skip(at + 1) =~= tail);
    assert(path.take(at) =~= front);
    last_index_of_is_last(tail, '/');
    assert(tail.skip(0) =~= tail);
    assert(seq!['.'].len() == 1 && seq!['.', '.'].len() == 2);
}

/// The last component of a directory with a name behind it, or of the name alone, is the
/// name, whatever the directory; a trailing slash changes nothing.
pub proof fn file_name_is_the_name_in_its_directory(
    path: &str,
    r: Option<String>,
    dir: Seq<char>,
    name: Seq<char>,
)
    requires
        call_ensures(file_name, (path,), r),
        name.len() > 0,
        forall|i: int| 0 <= i < name.len() ==> #[trigger] name[i] != '/',
        name != seq!['.'],
        name != seq!['.', '.'],
        path@ == name || path@ == dir + seq!['/'] + name || path@ == dir + seq!['/'] + name + seq![
            '/',
        ],
    ensures
        r matches Some(found) && found@ == name,
{
    last_segment_decides(dir, name);
    last_segment_decides(dir + seq!['/'] + name, Seq::empty());
    assert(dir + seq!['/'] + name + seq!['/'] + Seq::<char>::empty() =~= dir + seq!['/'] + name
        + seq!['/']);
}

/// Where a dot stands inside a name, what is behind the last one is the extension and what
/// is before it the stem.
pub proof fn last_dot_sets_off_the_extension(stem: Seq<char>, extension: Seq<char>)
    requires
        stem.len() > 0,
        forall|i: int| 0 <= i < extension.len() ==> #[trigger] extension[i] != '.',
        stem + seq!['.'] + extension != seq!['.', '.'],
    ensures
        stem_of(stem + seq!['.'] + extension) == stem,
        extension_of(stem + seq!['.'] + extension) == Some(extension),
{
    let name = stem + seq!['.'] + extension;
    let at = stem.len() as int;
    assert forall|i: int| at < i < name.len() implies #[trigger] name[i] != '.' by {
        assert(name[i] == extension[i - at - 1]);
    }
    last_index_is(name, '.', at);
    assert(name.take(at) =~= stem);
    assert(name.skip(at + 1) =~= extension);
}

/// A name without a dot but perhaps at its very beginning is all stem, and so is `..`.
pub proof fn name_without_inner_dot_is_all_stem(name: Seq<char>)
    requires
        name == seq!['.', '.'] || forall|i: int| 1 <= i < name.len() ==> #[trigger] name[i] != '.',
    ensures
        stem_of(name) == name,
        extension_of(name) is None,
{
    last_index_of_is_last(name, '.');
}

/// A name is split at its last dot, or not at all: the parts are those that make it up.
pub proof fn name_is_split_at_its_last_dot(
    name: &str,
    r: (String, Option<String>),
    stem: Seq<char>,
    extension: Seq<char>,
)
    requires
        call_ensures(split_name, (name,), r),
    ensures
        (forall|i: int| 1 <= i < name@.len() ==> #[trigger] name@[i] != '.') ==> r.0@ == name@
            && r.1 is None,
        ({
            &&& stem.len() > 0
            &&& forall|i: int| 0 <= i < extension.len() ==> #[trigger] extension[i] != '.'
            &&& name@ == stem + seq!['.'] + extension
            &&& name@ != seq!['.', '.']
        }) ==> r.0@ == stem && (r.1 matches Some(e) && e@ == extension),
{
    if forall|i: int| 1 <= i < name@.len() ==> #[trigger] name@[i] != '.' {
        name_without_inner_dot_is_all_stem(name@);
    }
    if stem.len() > 0 && (forall|i: int| 0 <= i < extension.len() ==> #[trigger] extension[i] != '.')
        && name@ == stem + seq!['.'] + extension && name@ != seq!['.', '.'] {
        last_dot_sets_off_the_extension(stem, extension);
    }
}

/// A numbered name is the name with the number, in round brackets, put in behind the stem:
/// nothing of the name is lost, and its extension is the same.
pub proof fn numbered_name_keeps_the_extension(name: Seq<char>, i: nat)
    ensures
        ({
            let stem = stem_of(name);
            let marked = stem + seq![' ', '('] + decimal(i) + seq![')'];
            &&& name.take(stem.len() as int) == stem
            &&& numbered(name, i) == marked + name.skip(stem.len() as int)
            &&& extension_of(name) is Some ==> {
                &&& extension_of(numbered(name, i)) == extension_of(name)
                &&& stem_of(numbered(name, i)) == marked
            }
        }),
{
    reveal_strlit(" (");
    reveal_strlit(")");
    reveal_strlit(".");
    stem_and_extension_make_the_name(name);
    last_index_of_is_last(name, '.');
    let stem = stem_of(name);
    let marked = stem + seq![' ', '('] + decimal(i) + seq![')'];
    assert(name.take(stem.len() as int) =~= stem);
    assert(numbered(name, i) =~= marked + name.skip(stem.len() as int));
    if let Some(e) = extension_of(name) {
        assert forall|k: int| 0 <= k < e.len() implies #[trigger] e[k] != '.' by {
            assert(e[k] == name[k + last_index_of(name, '.') + 1]);
        }
        assert(numbered(name, i) =~= marked + seq!['.'] + e);
        assert(seq!['.', '.'].len() == 2);
        last_dot_sets_off_the_extension(marked, e);
    }
}

/// Replacing a character touches nothing else: the text keeps its length, and every other
/// character its place.
pub proof fn other_characters_keep_their_place(s: Seq<char>, c: char, by: char)
    ensures
        with_char(s, c, by).len() == s.len(),
        forall|i: int|
            0 <= i < s.len() ==> {
                &&& s[i] != c ==> #[trigger] with_char(s, c, by)[i] == s[i]
                &&& s[i] == c ==> with_char(s, c, by)[i] == by
            },
{
}

/// On Windows a colon in a received name becomes `_` where it does not set off a drive, and
/// nothing else of the name is changed.
pub proof fn colons_of_a_received_name_are_replaced(name: Seq<char>)
    requires
        name.len() > 0,
        forall|k: int| 0 <= k < name.len() ==> #[trigger] name[k] != '/' && name[k] != '\\',
        name != seq!['.'],
        name != seq!['.', '.'],
        name.len() < 2 || name[1] != ':',
    ensures
        stored_name(true, name).len() == name.len(),
        forall|k: int|
            0 <= k < name.len() ==> #[trigger] stored_name(true, name)[k] == if name[k] == ':' {
                '_'
            } else {
                name[k]
            },
{
    assert(slash_path(name) =~= name);
    entry_name_is_its_own_file_name(name);
}

/// A received file is stored under the last component of the name that came with it, with or
/// without a directory before that; under `file` where there is none.
pub proof fn stored_name_is_the_last_component(
    windows: bool,
    letter: char,
    dir: Seq<char>,
    name: Seq<char>,
)
    requires
        name.len() > 0,
        forall|k: int|
            0 <= k < name.len() ==> #[trigger] name[k] != '/' && (windows ==> name[k] != '\\'
                && name[k] != ':'),
        name != seq!['.'],
        name != seq!['.', '.'],
    ensures
        stored_name(windows, name) == name,
        stored_name(windows, dir + seq!['/'] + name) == name,
        windows ==> stored_name(windows, dir + seq!['\\'] + name) == name,
        windows && ('a' <= letter <= 'z' || 'A' <= letter <= 'Z') ==> stored_name(
            windows,
            seq![letter, ':'] + name,
        ) == name,
        stored_name(windows, dir + seq!['/', '.', '.']) == seq!['f', 'i', 'l', 'e'],
        stored_name(windows, Seq::empty()) == seq!['f', 'i', 'l', 'e'],
{
    assert(is_entry_name(windows, name));
    reveal_strlit("file");
    assert("file"@ =~= seq!['f', 'i', 'l', 'e']);
    entry_name_is_kept(windows, name);
    assert forall|i: int| 0 <= i < name.len() implies #[trigger] name[i] != '/' by {
        assert(!is_delimiter(windows, name[i]));
    }
    let up = seq!['.', '.'];
    assert(up.len() == 2);
    assert(Seq::<char>::empty().len() == 0);
    last_segment_decides(dir, name);
    last_segment_decides(dir, up);
    last_segment_decides(dir, Seq::empty());
    assert(dir + seq!['/', '.', '.'] =~= dir + seq!['/'] + up);
    if windows {
        assert(with_char(name, ':', '_') =~= name);
        assert(slash_path(Seq::empty()) =~= Seq::<char>::empty());
        let paths = seq![
            dir + seq!['/'] + name,
            dir + seq!['\\'] + name,
            dir + seq!['/'] + up,
        ];
        let front = with_char(dir, '\\', '/');
        let front_without_drive = with_char(dir.skip(2), '\\', '/');
        last_segment_decides(front, name);
        last_segment_decides(front, up);
        last_segment_decides(front_without_drive, name);
        last_segment_decides(front_without_drive, up);
        assert forall|k: int| 0 <= k < 3 implies ({
            let path = #[trigger] paths[k];
            let tail = if k == 2 {
                up
            } else {
                name
            };
            slash_path(path) == front + seq!['/'] + tail || dir.len() >= 2 && slash_path(path)
                == front_without_drive + seq!['/'] + tail
        }) by {
            let path = paths[k];
            let tail = if k == 2 {
                up
            } else {
                name
            };
            if has_drive(path) {
                if dir.len() >= 2 {
                    assert(path.skip(2) =~= dir.skip(2) + seq![path[dir.len() as int]] + tail);
                    assert(slash_path(path) =~= front_without_drive + seq!['/'] + tail);
                } else if dir.len() == 1 {
                    assert(path[1] == '/' || path[1] == '\\');
                }
            } else {
                assert(slash_path(path) =~= front + seq!['/'] + tail);
            }
        }
        assert(paths[0] == dir + seq!['/'] + name && paths[1] == dir + seq!['\\'] + name
            && paths[2] == dir + seq!['/'] + up);
        let on_drive = seq![letter, ':'] + name;
        assert(on_drive.skip(2) =~= name);
        if 'a' <= letter <= 'z' || 'A' <= letter <= 'Z' {
            assert(slash_path(on_drive) =~= name);
        }
        entry_name_is_its_own_file_name(name);
    }
}

/// A name that came with a file is kept where it is free. Where it is taken, the least number
/// is put in behind its stem that makes a free name; where none below ten thousand does, the
/// process number behind the stem makes the name.
pub proof fn received_file_takes_the_first_free_name<F: Fn(&str) -> bool>(
    filename: &str,
    is_taken: F,
    process_id: u32,
    windows: bool,
    r: String,
    name: Seq<char>,
    taken: Set<Seq<char>>,
    i: nat,
)
    requires
        call_ensures(unique_path::<F>, (filename, is_taken, process_id, windows), r),
        forall|n: &str, answer: bool| #[trigger]
            is_taken.ensures((n,), answer) ==> answer == taken.contains(n@),
        filename@ == name,
        name.len() > 0,
        forall|k: int|
            0 <= k < name.len() ==> #[trigger] name[k] != '/' && (windows ==> name[k] != '\\'
                && name[k] != ':'),
        name != seq!['.'],
        name != seq!['.', '.'],
    ensures
        !taken.contains(name) ==> r@ == name,
        ({
            let stem = stem_of(name);
            let rest = name.skip(stem.len() as int);
            let marked = |k: nat| stem + seq![' ', '('] + decimal(k) + seq![')'] + rest;
            &&& taken.contains(name) && 1 <= i < 10_000 && !taken.contains(marked(i)) && (forall|
                k: nat,
            |
                1 <= k < i ==> taken.contains(#[trigger] marked(k))) ==> r@ == marked(i)
            &&& taken.contains(name) && (forall|k: nat|
                1 <= k < 10_000 ==> taken.contains(#[trigger] marked(k))) && !taken.contains(
                stem + seq!['-'] + decimal(process_id as nat),
            ) ==> r@ == stem + seq!['-'] + decimal(process_id as nat)
        }),
        taken.finite() && taken.len() < u64::MAX ==> !taken.contains(r@),
{
    assert(is_entry_name(windows, name));
    let id = process_id as nat;
    let stem = stem_of(name);
    let rest = name.skip(stem.len() as int);
    let marked = |k: nat| stem + seq![' ', '('] + decimal(k) + seq![')'] + rest;
    entry_name_is_kept(windows, name);
    assert(candidate(name, id, 0) == name);
    assert forall|k: nat| 1 <= k < 10_000 implies #[trigger] marked(k) == candidate(name, id, k) by {
        numbered_name_keeps_the_extension(name, k);
    }
    if !taken.contains(name) {
        search_finds_the_first_free_name(is_taken, name, id, r@, taken, 0);
    } else {
        if 1 <= i < 10_000 && !taken.contains(marked(i)) && (forall|k: nat|
            1 <= k < i ==> taken.contains(#[trigger] marked(k))) {
            search_finds_the_first_free_name(is_taken, name, id, r@, taken, i);
            let k = choose|k: nat| k <= i && r@ == #[trigger] candidate(name, id, k);
            if 1 <= k < i {
                assert(taken.contains(marked(k)));
            }
        }
        if forall|k: nat| 1 <= k < 10_000 ==> taken.contains(#[trigger] marked(k)) {
            reveal_strlit("-");
            assert("-"@ =~= seq!['-']);
            assert(process_name(name, id) == stem + seq!['-'] + decimal(id));
            if !taken.contains(process_name(name, id)) {
                assert forall|j: nat| j < CANDIDATES implies taken.contains(
                    #[trigger] candidate(name, id, j),
                ) by {
                    if j > 0 {
                        assert(taken.contains(marked(j)));
                    }
                }
                process_name_is_next(is_taken, name, id, r@, taken);
            }
        }
    }
    if taken.finite() && taken.len() < u64::MAX {
        chosen_name_is_free(is_taken, name, id, r@, taken);
    }
}

/// Where nothing is taken, a file that came with a directory before its name is stored under
/// the name alone.
pub proof fn directory_of_a_received_name_is_dropped<F: Fn(&str) -> bool>(
    filename: &str,
    is_taken: F,
    process_id: u32,
    windows: bool,
    r: String,
    dir: Seq<char>,
    name: Seq<char>,
)
    requires
        call_ensures(unique_path::<F>, (filename, is_taken, process_id, windows), r),
        forall|n: &str, answer: bool| #[trigger] is_taken.ensures((n,), answer) ==> !answer,
        name.len() > 0,
        forall|k: int|
            0 <= k < name.len() ==> #[trigger] name[k] != '/' && (windows ==> name[k] != '\\'
                && name[k] != ':'),
        name != seq!['.'],
        name != seq!['.', '.'],
        filename@ == dir + seq!['/'] + name || windows && filename@ == dir + seq!['\\'] + name,
    ensures
        r@ == name,
{
    assert(is_entry_name(windows, name));
    stored_name_is_the_last_component(windows, 'C', dir, name);
    let taken = Set::<Seq<char>>::empty();
    search_finds_the_first_free_name(is_taken, name, process_id as nat, r@, taken, 0);
}

/// Whatever name came with a file and whatever is taken, the chosen name holds no slash, on
/// Windows neither a backslash nor a colon, and is not empty, `.` or `..`.
pub proof fn received_name_leads_nowhere_else<F: Fn(&str) -> bool>(
    filename: &str,
    is_taken: F,
    process_id: u32,
    windows: bool,
    r: String,
)
    requires
        call_ensures(unique_path::<F>, (filename, is_taken, process_id, windows), r),
    ensures
        r@.len() > 0,
        forall|k: int|
            0 <= k < r@.len() ==> #[trigger] r@[k] != '/' && (windows ==> r@[k] != '\\' && r@[k]
                != ':'),
        r@ != seq!['.'],
        r@ != seq!['.', '.'],
{
    chosen_name_stays_in_the_directory(is_taken, windows, filename@, process_id as nat, r@);
    assert forall|k: int| 0 <= k < r@.len() implies #[trigger] r@[k] != '/' && (windows ==> r@[k]
        != '\\' && r@[k] != ':') by {
        assert(!is_delimiter(windows, r@[k]));
    }
}

/// Where nothing is taken, a file is stored under what is found as the last component of the
/// name that came with it, whatever that name, and under `file` where none is found. On
/// Windows it is looked for with slashes in place of backslashes, and without a drive; colons
/// in it become `_`.
pub proof fn received_name_is_its_last_component<F: Fn(&str) -> bool>(
    filename: &str,
    is_taken: F,
    process_id: u32,
    windows: bool,
    r: String,
    path: &str,
    found: Option<String>,
)
    requires
        call_ensures(unique_path::<F>, (filename, is_taken, process_id, windows), r),
        call_ensures(file_name, (path,), found),
        forall|n: &str, answer: bool| #[trigger] is_taken.ensures((n,), answer) ==> !answer,
        !windows ==> path@ == filename@,
        windows ==> {
            let drive = filename@.len() >= 2 && filename@[1] == ':' && ('a' <= filename@[0] <= 'z'
                || 'A' <= filename@[0] <= 'Z');
            let from = if drive {
                2int
            } else {
                0
            };
            &&& path@.len() == filename@.len() - from
            &&& forall|i: int|
                0 <= i < path@.len() ==> #[trigger] path@[i] == if filename@[i + from] == '\\' {
                    '/'
                } else {
                    filename@[i + from]
                }
        },
    ensures
        found is None ==> r@ == seq!['f', 'i', 'l', 'e'],
        found matches Some(name) ==> {
            &&& r@.len() == name@.len()
            &&& forall|i: int|
                0 <= i < name@.len() ==> #[trigger] r@[i] == if windows && name@[i] == ':' {
                    '_'
                } else {
                    name@[i]
                }
        },
{
    reveal_strlit("file");
    assert("file"@ =~= seq!['f', 'i', 'l', 'e']);
    if windows {
        assert(path@ =~= slash_path(filename@));
    }
    let taken = Set::<Seq<char>>::empty();
    let name = stored_name(windows, filename@);
    assert(candidate(name, process_id as nat, 0) == name);
    search_finds_the_first_free_name(is_taken, name, process_id as nat, r@, taken, 0);
}

} // verus!
