//! Escaping of text that is put into an HTML page.
use crate::text::{begins_with, chars_of, occurs_at, replace_all, replaced};
use vstd::prelude::*;
#[allow(unused_imports)]
use vstd::string::*;

verus! {

/// What stands for one character in an escaped text.
pub open spec fn entity(c: char) -> Seq<char> {
    if c == '&' {
        seq!['&', 'a', 'm', 'p', ';']
    } else if c == '<' {
        seq!['&', 'l', 't', ';']
    } else if c == '>' {
        seq!['&', 'g', 't', ';']
    } else if c == '"' {
        seq!['&', 'q', 'u', 'o', 't', ';']
    } else {
        seq![c]
    }
}

/// A text with each of `&`, `<`, `>` and `"` written as an entity.
pub open spec fn escaped(s: Seq<char>) -> Seq<char>
    decreases s.len(),
{
    if s.len() == 0 {
        Seq::empty()
    } else {
        entity(s[0]) + escaped(s.skip(1))
    }
}

/// Escapes a text, so that it cannot open or close a tag or a double-quoted attribute.
pub fn html_escape(s: &str) -> (r: String)
    ensures
        r@ == escaped(s@),
{
    let chars = chars_of(s);
    let mut out = String::new();
    proof {
        reveal_strlit("&amp;");
        reveal_strlit("&lt;");
        reveal_strlit("&gt;");
        reveal_strlit("&quot;");
        assert(s@.skip(0) =~= s@);
    }
    for i in 0..chars.len()
        invariant
            chars@ == s@,
            "&amp;"@ =~= entity('&'),
            "&lt;"@ =~= entity('<'),
            "&gt;"@ =~= entity('>'),
            "&quot;"@ =~= entity('"'),
            escaped(s@) == out@ + escaped(s@.skip(i as int)),
    {
        let c = chars[i];
        let ghost before = out@;
        if c == '&' {
            out.append("&amp;");
        } else if c == '<' {
            out.append("&lt;");
        } else if c == '>' {
            out.append("&gt;");
        } else if c == '"' {
            out.append("&quot;");
        } else {
            out.push(c);
        }
        proof {
            assert(out@ =~= before + entity(c));
            assert(s@.skip(i as int).skip(1) =~= s@.skip(i + 1));
            assert(before + (entity(c) + escaped(s@.skip(i + 1))) =~= out@ + escaped(
                s@.skip(i + 1),
            ));
        }
    }
    proof {
        assert(s@.skip(s@.len() as int) =~= Seq::<char>::empty());
        assert(out@ + Seq::<char>::empty() =~= out@);
    }
    out
}

/// What stands for one character in a text between quotes of either kind.
pub open spec fn quoted_entity(c: char) -> Seq<char> {
    if c == '\'' {
        seq!['&', '#', '3', '9', ';']
    } else {
        entity(c)
    }
}

/// A text as it stands between quotes of either kind: escaped, and with each apostrophe
/// written as an entity too.
pub open spec fn quoted(s: Seq<char>) -> Seq<char>
    decreases s.len(),
{
    if s.len() == 0 {
        Seq::empty()
    } else {
        quoted_entity(s[0]) + quoted(s.skip(1))
    }
}

proof fn quoting_replaces_the_apostrophe(s: Seq<char>)
    ensures
        quoted(s) == replaced(escaped(s), seq!['\''], quoted_entity('\'')),
    decreases s.len(),
{
    let apostrophe = seq!['\''];
    let with = quoted_entity('\'');
    if s.len() > 0 {
        let head = entity(s[0]);
        let rest = escaped(s.skip(1));
        quoting_replaces_the_apostrophe(s.skip(1));
        if s[0] == '\'' {
            assert(escaped(s).take(1) =~= apostrophe);
            assert(escaped(s).skip(1) =~= rest);
        } else {
            replaced_behind_plain(head, rest, apostrophe, with);
        }
    }
}

proof fn replaced_behind_plain(
    head: Seq<char>,
    rest: Seq<char>,
    pattern: Seq<char>,
    with: Seq<char>,
)
    requires
        pattern.len() == 1,
        forall|i: int| 0 <= i < head.len() ==> #[trigger] head[i] != pattern[0],
    ensures
        replaced(head + rest, pattern, with) == head + replaced(rest, pattern, with),
    decreases head.len(),
{
    let all = head + rest;
    if head.len() == 0 {
        assert(all =~= rest);
        assert(head + replaced(rest, pattern, with) =~= replaced(rest, pattern, with));
    } else {
        assert(all.take(1)[0] == head[0]);
        assert(all.skip(1) =~= head.skip(1) + rest);
        replaced_behind_plain(head.skip(1), rest, pattern, with);
        assert(seq![head[0]] + (head.skip(1) + replaced(rest, pattern, with)) =~= head + replaced(
            rest,
            pattern,
            with,
        ));
    }
}

/// Escapes a text, so that it cannot end an attribute, whichever quotes that stands in.
pub fn quote_escape(s: &str) -> (r: String)
    ensures
        r@ == quoted(s@),
{
    proof {
        reveal_strlit("'");
        reveal_strlit("&#39;");
        assert("'"@ =~= seq!['\'']);
        assert("&#39;"@ =~= quoted_entity('\''));
        quoting_replaces_the_apostrophe(s@);
    }
    replace_all(html_escape(s).as_str(), "'", "&#39;")
}

// ---------------------------------------------------------------------------
// What escaping guarantees
// ---------------------------------------------------------------------------

/// The position after the entity, or after the plain character, that `s` begins with.
pub open spec fn entity_len(s: Seq<char>) -> int {
    if begins_with(s, entity('&')) {
        5
    } else if begins_with(s, entity('<')) {
        4
    } else if begins_with(s, entity('>')) {
        4
    } else if begins_with(s, entity('"')) {
        6
    } else if begins_with(s, quoted_entity('\'')) {
        5
    } else {
        1
    }
}

/// The character that the entity, or the plain character, at the start of `s` stands for.
pub open spec fn entity_char(s: Seq<char>) -> char {
    if begins_with(s, entity('&')) {
        '&'
    } else if begins_with(s, entity('<')) {
        '<'
    } else if begins_with(s, entity('>')) {
        '>'
    } else if begins_with(s, entity('"')) {
        '"'
    } else if begins_with(s, quoted_entity('\'')) {
        '\''
    } else {
        s[0]
    }
}

/// The text that a reader of HTML sees: each of the entities read back as the character it
/// stands for.
pub open spec fn unescaped(s: Seq<char>) -> Seq<char>
    decreases s.len(),
{
    if s.len() == 0 {
        Seq::empty()
    } else {
        seq![entity_char(s)] + unescaped(s.skip(entity_len(s)))
    }
}

/// A text with one character replaced throughout by a text.
pub open spec fn substituted(s: Seq<char>, c: char, with: Seq<char>) -> Seq<char>
    decreases s.len(),
{
    if s.len() == 0 {
        Seq::empty()
    } else {
        (if s[0] == c {
            with
        } else {
            seq![s[0]]
        }) + substituted(s.skip(1), c, with)
    }
}

proof fn entity_reads_back(c: char, rest: Seq<char>)
    ensures
        entity_char(quoted_entity(c) + rest) == c,
        entity_len(quoted_entity(c) + rest) == quoted_entity(c).len(),
        entity_char(entity(c) + rest) == c,
        entity_len(entity(c) + rest) == entity(c).len(),
{
    entity_at_the_start(c, quoted_entity(c), rest);
    entity_at_the_start(c, entity(c), rest);
}

proof fn entity_at_the_start(c: char, head: Seq<char>, rest: Seq<char>)
    requires
        head == entity(c) || head == quoted_entity(c),
    ensures
        entity_char(head + rest) == c,
        entity_len(head + rest) == head.len(),
{
    let s = head + rest;
    let a = s.take(5);
    let l = s.take(4);
    let q = s.take(6);
    if s.len() >= 4 {
        assert(l[0] == s[0] && l[1] == s[1] && l[2] == s[2] && l[3] == s[3]);
        assert(entity('<')[1] == 'l');
        assert(entity('>')[1] == 'g');
        assert(entity('<')[0] == '&' && entity('>')[0] == '&');
    }
    if s.len() >= 5 {
        assert(a[0] == s[0] && a[1] == s[1]);
        assert(entity('&')[1] == 'a' && entity('&')[0] == '&');
        assert(quoted_entity('\'')[1] == '#' && quoted_entity('\'')[0] == '&');
    }
    if s.len() >= 6 {
        assert(q[0] == s[0] && q[1] == s[1]);
        assert(entity('"')[1] == 'q' && entity('"')[0] == '&');
    }
    if c == '&' {
        assert(a =~= entity('&'));
    } else if c == '<' {
        assert(l =~= entity('<'));
    } else if c == '>' {
        assert(l =~= entity('>'));
    } else if c == '"' {
        assert(q =~= entity('"'));
    } else if head.len() > 1 {
        assert(a =~= quoted_entity('\''));
    }
}

/// Reading an escaped text back gives the text that was escaped, whatever it holds.
pub proof fn escaping_loses_nothing(s: Seq<char>)
    ensures
        unescaped(escaped(s)) == s,
    decreases s.len(),
{
    if s.len() > 0 {
        let rest = escaped(s.skip(1));
        entity_reads_back(s[0], rest);
        assert((entity(s[0]) + rest).skip(entity(s[0]).len() as int) =~= rest);
        escaping_loses_nothing(s.skip(1));
        assert(seq![s[0]] + s.skip(1) =~= s);
    }
}

/// Reading a text between quotes back gives the text that was put there, whatever it holds.
pub proof fn quoting_loses_nothing(s: Seq<char>)
    ensures
        unescaped(quoted(s)) == s,
    decreases s.len(),
{
    if s.len() > 0 {
        let head = quoted_entity(s[0]);
        let rest = quoted(s.skip(1));
        entity_reads_back(s[0], rest);
        assert((head + rest).skip(head.len() as int) =~= rest);
        quoting_loses_nothing(s.skip(1));
        assert(seq![s[0]] + s.skip(1) =~= s);
    }
}

/// A text between quotes holds neither kind of quote, no `<` and no `>`: it cannot end the
/// attribute it stands in.
pub proof fn quoted_text_ends_no_attribute(s: Seq<char>)
    ensures
        forall|i: int|
            0 <= i < quoted(s).len() ==> #[trigger] quoted(s)[i] != '\'' && quoted(s)[i] != '"'
                && quoted(s)[i] != '<' && quoted(s)[i] != '>',
    decreases s.len(),
{
    if s.len() > 0 {
        quoted_text_ends_no_attribute(s.skip(1));
        let head = quoted_entity(s[0]);
        let rest = quoted(s.skip(1));
        assert forall|i: int| 0 <= i < quoted(s).len() implies #[trigger] quoted(s)[i] != '\''
            && quoted(s)[i] != '"' && quoted(s)[i] != '<' && quoted(s)[i] != '>' by {
            if i < head.len() {
                assert(quoted(s)[i] == head[i]);
            } else {
                assert(quoted(s)[i] == rest[i - head.len()]);
            }
        }
    }
}

/// A text without an apostrophe is quoted as it is escaped.
pub proof fn quoting_is_escaping_without_apostrophes(s: Seq<char>)
    requires
        forall|i: int| 0 <= i < s.len() ==> #[trigger] s[i] != '\'',
    ensures
        quoted(s) == escaped(s),
    decreases s.len(),
{
    if s.len() > 0 {
        quoting_is_escaping_without_apostrophes(s.skip(1));
    }
}

/// An escaped text holds no `<`, no `>` and no `"`: put between two tags or into a
/// double-quoted attribute, it cannot end either.
pub proof fn escaped_text_holds_no_markup(s: Seq<char>)
    ensures
        forall|i: int|
            0 <= i < escaped(s).len() ==> #[trigger] escaped(s)[i] != '<' && escaped(s)[i] != '>'
                && escaped(s)[i] != '"',
    decreases s.len(),
{
    if s.len() > 0 {
        escaped_text_holds_no_markup(s.skip(1));
        let rest = escaped(s.skip(1));
        let head = entity(s[0]);
        assert forall|i: int| 0 <= i < escaped(s).len() implies #[trigger] escaped(s)[i] != '<'
            && escaped(s)[i] != '>' && escaped(s)[i] != '"' by {
            if i < head.len() {
                assert(escaped(s)[i] == head[i]);
            } else {
                assert(escaped(s)[i] == rest[i - head.len()]);
            }
        }
    }
}

/// Every `&` of an escaped text begins one of the four entities.
pub proof fn escaped_ampersands_begin_entities(s: Seq<char>, i: int)
    requires
        0 <= i < escaped(s).len(),
        escaped(s)[i] == '&',
    ensures
        ({
            let tail = escaped(s).skip(i);
            ||| begins_with(tail, entity('&'))
            ||| begins_with(tail, entity('<'))
            ||| begins_with(tail, entity('>'))
            ||| begins_with(tail, entity('"'))
        }),
    decreases s.len(),
{
    let head = entity(s[0]);
    let rest = escaped(s.skip(1));
    if i < head.len() {
        assert(head[i] == '&');
        assert(i == 0);
        assert(escaped(s).skip(0) =~= escaped(s));
        assert(escaped(s).take(head.len() as int) =~= head);
    } else {
        assert(rest[i - head.len()] == '&');
        escaped_ampersands_begin_entities(s.skip(1), i - head.len());
        assert(escaped(s).skip(i) =~= rest.skip(i - head.len()));
    }
}

proof fn escaped_beginning(s: Seq<char>, word: Seq<char>)
    requires
        begins_with(escaped(s), word),
        forall|i: int| 0 <= i < word.len() ==> #[trigger] word[i] != '&',
    ensures
        begins_with(s, word),
    decreases word.len(),
{
    if word.len() > 0 {
        let all = escaped(s);
        let tail = word.skip(1);
        assert(all.take(word.len() as int)[0] == all[0]);
        assert(entity(s[0])[0] == all[0]);
        assert(all.skip(1) =~= escaped(s.skip(1)));
        assert(all.skip(1).take(tail.len() as int) =~= all.take(word.len() as int).skip(1));
        assert forall|i: int| 0 <= i < tail.len() implies #[trigger] tail[i] != '&' by {
            assert(tail[i] == word[i + 1]);
        }
        escaped_beginning(s.skip(1), tail);
        assert forall|i: int| 0 <= i < word.len() implies s[i] == #[trigger] word[i] by {
            if i > 0 {
                assert(s.skip(1).take(tail.len() as int)[i - 1] == tail[i - 1]);
            }
        }
        assert(s.take(word.len() as int) =~= word);
    } else {
        assert(s.take(0) =~= word);
    }
}

/// A word that has nothing in common with the entities stands in an escaped text only if it
/// stands in the text: its first character is in none of them, and it holds no ampersand.
pub proof fn word_comes_from_the_text(s: Seq<char>, word: Seq<char>, at: int)
    requires
        occurs_at(escaped(s), word, at),
        word.len() > 0,
        forall|i: int| 0 <= i < word.len() ==> #[trigger] word[i] != '&',
        forall|c: char, i: int|
            0 <= i < entity(c).len() && entity(c).len() > 1 ==> #[trigger] entity(c)[i] != word[0],
    ensures
        exists|k: int| #[trigger] occurs_at(s, word, k),
    decreases s.len(),
{
    let all = escaped(s);
    assert(all.subrange(at, at + word.len())[0] == all[at]);
    let head = entity(s[0]);
    let rest = escaped(s.skip(1));
    if at < head.len() {
        assert(head[at] == word[0]);
        assert(at == 0);
        assert(all.take(word.len() as int) =~= all.subrange(0, word.len() as int));
        escaped_beginning(s, word);
        assert(s.subrange(0, word.len() as int) =~= s.take(word.len() as int));
        assert(occurs_at(s, word, 0));
    } else {
        let from = at - head.len();
        assert(rest.subrange(from, from + word.len()) =~= all.subrange(at, at + word.len()));
        word_comes_from_the_text(s.skip(1), word, from);
        let k = choose|k: int| #[trigger] occurs_at(s.skip(1), word, k);
        assert(s.subrange(k + 1, k + 1 + word.len()) =~= s.skip(1).subrange(k, k + word.len()));
        assert(occurs_at(s, word, k + 1));
    }
}

/// A text without any of the four characters is left as it is.
pub proof fn plain_text_is_unchanged(s: Seq<char>)
    requires
        forall|i: int|
            0 <= i < s.len() ==> #[trigger] s[i] != '&' && s[i] != '<' && s[i] != '>' && s[i]
                != '"',
    ensures
        escaped(s) == s,
    decreases s.len(),
{
    if s.len() > 0 {
        plain_text_is_unchanged(s.skip(1));
        assert(seq![s[0]] + s.skip(1) =~= s);
    }
}

/// Escaping a text in two parts escapes the whole.
pub proof fn escaping_distributes(a: Seq<char>, b: Seq<char>)
    ensures
        escaped(a + b) == escaped(a) + escaped(b),
    decreases a.len(),
{
    if a.len() == 0 {
        assert(a + b =~= b);
        assert(escaped(a) + escaped(b) =~= escaped(b));
    } else {
        assert((a + b).skip(1) =~= a.skip(1) + b);
        escaping_distributes(a.skip(1), b);
        assert(entity(a[0]) + (escaped(a.skip(1)) + escaped(b)) =~= escaped(a) + escaped(b));
    }
}

proof fn substitution_distributes(a: Seq<char>, b: Seq<char>, c: char, with: Seq<char>)
    ensures
        substituted(a + b, c, with) == substituted(a, c, with) + substituted(b, c, with),
    decreases a.len(),
{
    if a.len() == 0 {
        assert(a + b =~= b);
        assert(substituted(a, c, with) + substituted(b, c, with) =~= substituted(b, c, with));
    } else {
        assert((a + b).skip(1) =~= a.skip(1) + b);
        substitution_distributes(a.skip(1), b, c, with);
        let head = if a[0] == c {
            with
        } else {
            seq![a[0]]
        };
        assert(head + (substituted(a.skip(1), c, with) + substituted(b, c, with)) =~= substituted(
            a,
            c,
            with,
        ) + substituted(b, c, with));
    }
}

proof fn substitution_of_absent(s: Seq<char>, c: char, with: Seq<char>)
    requires
        forall|i: int| 0 <= i < s.len() ==> #[trigger] s[i] != c,
    ensures
        substituted(s, c, with) == s,
    decreases s.len(),
{
    if s.len() > 0 {
        substitution_of_absent(s.skip(1), c, with);
        assert(seq![s[0]] + s.skip(1) =~= s);
    }
}

/// The four substitutions, the ampersand's first.
pub open spec fn substituted_in_turn(s: Seq<char>) -> Seq<char> {
    let a = substituted(s, '&', entity('&'));
    let b = substituted(a, '<', entity('<'));
    let c = substituted(b, '>', entity('>'));
    substituted(c, '"', entity('"'))
}

proof fn substitution_of_one(c: char)
    ensures
        substituted_in_turn(seq![c]) == entity(c),
{
    let s = seq![c];
    let a = substituted(s, '&', entity('&'));
    assert(s.skip(1) =~= Seq::<char>::empty());
    assert forall|x: char, with: Seq<char>| #[trigger]
        substituted(s, x, with) =~= if c == x {
            with
        } else {
            s
        } by {
        assert(substituted(s.skip(1), x, with) =~= Seq::<char>::empty());
    }
    if c == '&' {
        substitution_of_absent(a, '<', entity('<'));
        substitution_of_absent(a, '>', entity('>'));
        substitution_of_absent(a, '"', entity('"'));
    } else if c == '<' {
        substitution_of_absent(entity('<'), '>', entity('>'));
        substitution_of_absent(entity('<'), '"', entity('"'));
    } else if c == '>' {
        substitution_of_absent(entity('>'), '"', entity('"'));
    }
}

/// Escaping is the same as replacing `&`, then `<`, then `>`, then `"`, each throughout
/// the text: since the ampersand goes first, no entity is escaped again.
pub proof fn escaping_is_substitution_in_turn(s: Seq<char>)
    ensures
        escaped(s) == substituted_in_turn(s),
    decreases s.len(),
{
    if s.len() > 0 {
        let h = seq![s[0]];
        let t = s.skip(1);
        assert(s =~= h + t);
        escaping_is_substitution_in_turn(t);
        substitution_of_one(s[0]);
        let ha = substituted(h, '&', entity('&'));
        let ta = substituted(t, '&', entity('&'));
        substitution_distributes(h, t, '&', entity('&'));
        let hb = substituted(ha, '<', entity('<'));
        let tb = substituted(ta, '<', entity('<'));
        substitution_distributes(ha, ta, '<', entity('<'));
        let hc = substituted(hb, '>', entity('>'));
        let tc = substituted(tb, '>', entity('>'));
        substitution_distributes(hb, tb, '>', entity('>'));
        substitution_distributes(hc, tc, '"', entity('"'));
    }
}

/// Quoting a text in two parts quotes the whole.
pub proof fn quoting_distributes(a: Seq<char>, b: Seq<char>)
    ensures
        quoted(a + b) == quoted(a) + quoted(b),
    decreases a.len(),
{
    if a.len() == 0 {
        assert(a + b =~= b);
        assert(quoted(a) + quoted(b) =~= quoted(b));
    } else {
        assert((a + b).skip(1) =~= a.skip(1) + b);
        quoting_distributes(a.skip(1), b);
        assert(quoted_entity(a[0]) + (quoted(a.skip(1)) + quoted(b)) =~= quoted(a) + quoted(b));
    }
}

/// A single character is escaped as the entity of HTML that stands for it, if it is one of
/// the four, and otherwise stands for itself.
pub proof fn characters_have_their_entities(c: char)
    ensures
        escaped(seq![c]) == if c == '&' {
            "&amp;"@
        } else if c == '<' {
            "&lt;"@
        } else if c == '>' {
            "&gt;"@
        } else if c == '"' {
            "&quot;"@
        } else {
            seq![c]
        },
        quoted(seq![c]) == if c == '\'' {
            "&#39;"@
        } else {
            escaped(seq![c])
        },
{
    reveal_strlit("&amp;");
    reveal_strlit("&lt;");
    reveal_strlit("&gt;");
    reveal_strlit("&quot;");
    reveal_strlit("&#39;");
    let s = seq![c];
    assert(s.skip(1) =~= Seq::<char>::empty());
    assert(escaped(s.skip(1)) =~= Seq::<char>::empty());
    assert(quoted(s.skip(1)) =~= Seq::<char>::empty());
    assert(escaped(s) =~= entity(c));
    assert(quoted(s) =~= quoted_entity(c));
}

/// Escaping deals with each part of a text by itself, whatever stands before or behind it:
/// the escaped whole is the escaped parts, one behind the other.
pub proof fn every_part_is_escaped(
    front: &str,
    back: &str,
    whole: &str,
    f: String,
    b: String,
    w: String,
)
    requires
        call_ensures(html_escape, (front,), f) && call_ensures(html_escape, (back,), b)
            && call_ensures(html_escape, (whole,), w) || call_ensures(quote_escape, (front,), f)
            && call_ensures(quote_escape, (back,), b) && call_ensures(quote_escape, (whole,), w),
        whole@ == front@ + back@,
    ensures
        w@ == f@ + b@,
{
    escaping_distributes(front@, back@);
    quoting_distributes(front@, back@);
}

/// What is escaped reads back as the text, and holds nothing that ends a tag or an
/// attribute.
pub proof fn escaped_text_reads_back(s: &str, r: String, q: String)
    requires
        call_ensures(html_escape, (s,), r),
        call_ensures(quote_escape, (s,), q),
    ensures
        unescaped(r@) == s@,
        unescaped(q@) == s@,
        forall|i: int|
            0 <= i < r@.len() ==> #[trigger] r@[i] != '<' && r@[i] != '>' && r@[i] != '"',
        forall|i: int|
            0 <= i < q@.len() ==> #[trigger] q@[i] != '<' && q@[i] != '>' && q@[i] != '"' && q@[i]
                != '\'',
{
    escaping_loses_nothing(s@);
    quoting_loses_nothing(s@);
    escaped_text_holds_no_markup(s@);
    quoted_text_ends_no_attribute(s@);
}

} // verus!
