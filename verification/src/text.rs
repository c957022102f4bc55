//! Plain text as sequences of characters: splitting, line breaking, trimming,
//! joining and decimal numbers.
use vstd::prelude::*;
use vstd::string::*;

verus! {

broadcast use vstd::string::group_string_axioms;

// ---------------------------------------------------------------------------
// What the operations mean
// ---------------------------------------------------------------------------

/// `s` begins with `prefix`.
pub open spec fn has_prefix(s: Seq<char>, prefix: Seq<char>) -> bool {
    prefix.len() <= s.len() && s.take(prefix.len() as int) == prefix
}

/// `s` ends with `suffix`.
pub open spec fn has_suffix(s: Seq<char>, suffix: Seq<char>) -> bool {
    suffix.len() <= s.len() && s.skip(s.len() - suffix.len()) == suffix
}

/// `needle` occurs in `s` at character offset `at`.
pub open spec fn occurs_at(s: Seq<char>, needle: Seq<char>, at: int) -> bool {
    0 <= at && at + needle.len() <= s.len() && s.subrange(at, at + needle.len()) == needle
}

/// `needle` occurs somewhere in `s`.
pub open spec fn has_part(s: Seq<char>, needle: Seq<char>) -> bool {
    exists|at: int| occurs_at(s, needle, at)
}

/// The maximal runs of characters between separators. There is always one piece
/// more than there are separators, so pieces may be empty.
pub open spec fn split(s: Seq<char>, sep: char) -> Seq<Seq<char>>
    decreases s.len(),
{
    if s.len() == 0 {
        seq![Seq::<char>::empty()]
    } else {
        let head = split(s.drop_last(), sep);
        if s.last() == sep {
            head.push(Seq::<char>::empty())
        } else {
            head.drop_last().push(head.last().push(s.last()))
        }
    }
}

/// The pieces of `s` that are not empty, in order.
pub open spec fn split_nonempty(s: Seq<char>, sep: char) -> Seq<Seq<char>> {
    split(s, sep).filter(|p: Seq<char>| p.len() > 0)
}

/// The pieces put together again with `sep` between neighbours.
pub open spec fn join(parts: Seq<Seq<char>>, sep: Seq<char>) -> Seq<char>
    decreases parts.len(),
{
    if parts.len() == 0 {
        Seq::empty()
    } else if parts.len() == 1 {
        parts[0]
    } else {
        join(parts.drop_last(), sep) + sep + parts.last()
    }
}

/// A line that a line feed ended, without the carriage return before it.
pub open spec fn without_cr(line: Seq<char>) -> Seq<char> {
    if line.len() > 0 && line.last() == '\r' {
        line.drop_last()
    } else {
        line
    }
}

/// The lines of a text. A line ends at a line feed, which may follow a carriage
/// return; the last line needs no ending, and an ending at the very end of the
/// text opens no further line.
pub open spec fn lines(s: Seq<char>) -> Seq<Seq<char>> {
    let pieces = split(s, '\n');
    let ended = pieces.drop_last().map_values(|p: Seq<char>| without_cr(p));
    if pieces.last().len() == 0 {
        ended
    } else {
        ended.push(pieces.last())
    }
}

/// The characters with the Unicode property `White_Space`.
pub open spec fn is_white_space(c: char) -> bool {
    ||| '\u{9}' <= c <= '\u{d}'
    ||| c == ' '
    ||| c == '\u{85}'
    ||| c == '\u{a0}'
    ||| c == '\u{1680}'
    ||| '\u{2000}' <= c <= '\u{200a}'
    ||| c == '\u{2028}'
    ||| c == '\u{2029}'
    ||| c == '\u{202f}'
    ||| c == '\u{205f}'
    ||| c == '\u{3000}'
}

/// `s` without leading white space.
pub open spec fn trim_start(s: Seq<char>) -> Seq<char>
    decreases s.len(),
{
    if s.len() > 0 && is_white_space(s[0]) {
        trim_start(s.drop_first())
    } else {
        s
    }
}

/// `s` without trailing white space.
pub open spec fn trim_end(s: Seq<char>) -> Seq<char>
    decreases s.len(),
{
    if s.len() > 0 && is_white_space(s.last()) {
        trim_end(s.drop_last())
    } else {
        s
    }
}

/// `s` without white space at either end.
pub open spec fn trim(s: Seq<char>) -> Seq<char> {
    trim_end(trim_start(s))
}

/// The character for a decimal digit.
pub open spec fn digit_char(d: nat) -> char {
    (('0' as u32) + d) as char
}

/// A number in decimal notation without leading zeros.
pub open spec fn decimal(n: nat) -> Seq<char>
    decreases n,
{
    if n < 10 {
        seq![digit_char(n)]
    } else {
        decimal(n / 10).push(digit_char(n % 10))
    }
}

/// A signed number in decimal notation.
pub open spec fn signed_decimal(n: int) -> Seq<char> {
    if n < 0 {
        seq!['-'] + decimal((-n) as nat)
    } else {
        decimal(n as nat)
    }
}

pub open spec fn is_digit(c: char) -> bool {
    '0' <= c <= '9'
}

/// The number that a run of decimal digits writes.
pub open spec fn digits_value(s: Seq<char>) -> nat
    decreases s.len(),
{
    if s.len() == 0 {
        0
    } else {
        digits_value(s.drop_last()) * 10 + ((s.last() as u32) - ('0' as u32)) as nat
    }
}

/// The digits of an unsigned number: what follows one optional plus sign.
pub open spec fn number_digits(s: Seq<char>) -> Seq<char> {
    if s.len() > 0 && s[0] == '+' {
        s.drop_first()
    } else {
        s
    }
}

/// The unsigned number that `s` writes: one optional plus sign, then at least one
/// digit and nothing else.
pub open spec fn number(s: Seq<char>) -> Option<nat> {
    let digits = number_digits(s);
    if digits.len() > 0 && (forall|i: int| 0 <= i < digits.len() ==> is_digit(#[trigger] digits[i])) {
        Some(digits_value(digits))
    } else {
        None
    }
}

/// The unsigned number that `s` writes, if it is at most `max`.
pub open spec fn number_up_to(s: Seq<char>, max: nat) -> Option<nat> {
    match number(s) {
        Some(v) => if v <= max { Some(v) } else { None },
        None => None,
    }
}

/// The truth value that `s` names.
pub open spec fn truth_value(s: Seq<char>) -> Option<bool> {
    if s == "true"@ {
        Some(true)
    } else if s == "false"@ {
        Some(false)
    } else {
        None
    }
}

// ---------------------------------------------------------------------------
// The operations
// ---------------------------------------------------------------------------

/// `String::push` of the standard library appends one character.
pub assume_specification[ String::push ](s: &mut String, c: char)
    ensures
        final(s)@ == old(s)@.push(c),
;

/// The characters of a text.
pub fn chars_of(s: &str) -> (r: Vec<char>)
    ensures
        r@ == s@,
{
    let mut out: Vec<char> = Vec::new();
    for c in it: s.chars()
        invariant
            it.seq() == s@,
            out@ == s@.take(it.index() as int),
    {
        out.push(c);
        assert(s@.take(it.index() as int + 1) =~= s@.take(it.index() as int).push(c));
    }
    assert(s@.take(s@.len() as int) =~= s@);
    out
}

/// The texts of a list of strings.
pub open spec fn texts(v: Seq<String>) -> Seq<Seq<char>> {
    v.map_values(|s: String| s@)
}

/// The text of an optional string.
pub open spec fn text_of(s: Option<String>) -> Option<Seq<char>> {
    match s {
        Some(s) => Some(s@),
        None => None,
    }
}

/// The texts of a list of pairs of strings.
pub open spec fn pairs(v: Seq<(String, String)>) -> Seq<(Seq<char>, Seq<char>)> {
    v.map_values(|p: (String, String)| (p.0@, p.1@))
}

/// The characters `from..to` as a string.
pub fn string_range(cs: &Vec<char>, from: usize, to: usize) -> (r: String)
    requires
        from <= to <= cs@.len(),
    ensures
        r@ == cs@.subrange(from as int, to as int),
{
    let mut out: String = String::new();
    let mut i: usize = from;
    while i < to
        invariant
            from <= i <= to <= cs@.len(),
            out@ == cs@.subrange(from as int, i as int),
        decreases to - i,
    {
        out.push(cs[i]);
        assert(cs@.subrange(from as int, i + 1) =~= cs@.subrange(from as int, i as int).push(cs@[i as int]));
        i = i + 1;
    }
    out
}

/// Whether two texts hold the same characters.
pub fn same_text(a: &str, b: &str) -> (r: bool)
    ensures
        r == (a@ == b@),
{
    a.to_owned() == b.to_owned()
}

/// Whether `needle` stands in `cs` at `at`.
fn matches_at(cs: &Vec<char>, needle: &Vec<char>, at: usize) -> (r: bool)
    requires
        at + needle@.len() <= cs@.len(),
    ensures
        r == occurs_at(cs@, needle@, at as int),
{
    let size: usize = cs.len();
    let mut i: usize = 0;
    while i < needle.len()
        invariant
            0 <= i <= needle@.len(),
            at + needle@.len() <= cs@.len(),
            size == cs@.len(),
            forall|j: int| 0 <= j < i ==> cs@[at + j] == #[trigger] needle@[j],
        decreases needle@.len() - i,
    {
        if cs[at + i] != needle[i] {
            assert(cs@.subrange(at as int, at + needle@.len())[i as int] == cs@[at + i]);
            return false;
        }
        i = i + 1;
    }
    assert(cs@.subrange(at as int, at + needle@.len()) =~= needle@);
    true
}

/// Whether a text begins with `prefix`.
pub fn starts_with(s: &str, prefix: &str) -> (r: bool)
    ensures
        r == has_prefix(s@, prefix@),
{
    let cs = chars_of(s);
    let ps = chars_of(prefix);
    if ps.len() > cs.len() {
        return false;
    }
    assert(cs@.subrange(0, ps@.len() as int) =~= s@.take(prefix@.len() as int));
    matches_at(&cs, &ps, 0)
}

/// Whether a text ends with `suffix`.
pub fn ends_with(s: &str, suffix: &str) -> (r: bool)
    ensures
        r == has_suffix(s@, suffix@),
{
    let cs = chars_of(s);
    let ps = chars_of(suffix);
    if ps.len() > cs.len() {
        return false;
    }
    let at: usize = cs.len() - ps.len();
    assert(cs@.subrange(at as int, at + ps@.len()) =~= s@.skip(s@.len() - suffix@.len()));
    matches_at(&cs, &ps, at)
}

/// The first place at which `needle` occurs, as a character offset.
pub fn find(s: &str, needle: &str) -> (r: Option<usize>)
    ensures
        match r {
            Some(at) => occurs_at(s@, needle@, at as int) && (forall|j: int|
                0 <= j < at ==> !#[trigger] occurs_at(s@, needle@, j)),
            None => !has_part(s@, needle@),
        },
{
    let cs = chars_of(s);
    let ns = chars_of(needle);
    if ns.len() > cs.len() {
        return None;
    }
    let last: usize = cs.len() - ns.len();
    let mut at: usize = 0;
    while at <= last
        invariant
            cs@ == s@,
            ns@ == needle@,
            last == cs@.len() - ns@.len(),
            at <= last + 1,
            forall|j: int| 0 <= j < at ==> !#[trigger] occurs_at(s@, needle@, j),
        decreases last + 1 - at,
    {
        if matches_at(&cs, &ns, at) {
            return Some(at);
        }
        if at == last {
            return None;
        }
        at = at + 1;
    }
    None
}

/// Whether `needle` occurs in a text.
pub fn contains(s: &str, needle: &str) -> (r: bool)
    ensures
        r == has_part(s@, needle@),
{
    find(s, needle).is_some()
}

/// What follows the first `n` characters.
pub fn after(s: &str, n: usize) -> (r: String)
    requires
        n <= s@.len(),
    ensures
        r@ == s@.skip(n as int),
{
    let cs = chars_of(s);
    let r = string_range(&cs, n, cs.len());
    assert(cs@.subrange(n as int, cs@.len() as int) =~= s@.skip(n as int));
    r
}

/// The first `n` characters.
pub fn before(s: &str, n: usize) -> (r: String)
    requires
        n <= s@.len(),
    ensures
        r@ == s@.take(n as int),
{
    let cs = chars_of(s);
    let r = string_range(&cs, 0, n);
    assert(cs@.subrange(0, n as int) =~= s@.take(n as int));
    r
}

/// The pieces between separators.
pub fn split_text(s: &str, sep: char) -> (r: Vec<String>)
    ensures
        texts(r@) == split(s@, sep),
{
    let cs = chars_of(s);
    let mut out: Vec<String> = Vec::new();
    let mut piece: String = String::new();
    let mut i: usize = 0;
    assert(cs@.take(0) =~= Seq::<char>::empty());
    assert(texts(out@).push(piece@) =~= split(cs@.take(0), sep));
    while i < cs.len()
        invariant
            0 <= i <= cs@.len(),
            cs@ == s@,
            texts(out@).push(piece@) == split(cs@.take(i as int), sep),
        decreases cs@.len() - i,
    {
        let c = cs[i];
        let ghost head = texts(out@).push(piece@);
        assert(cs@.take(i + 1).drop_last() =~= cs@.take(i as int));
        assert(head.drop_last() =~= texts(out@));
        if c == sep {
            out.push(piece);
            piece = String::new();
            assert(texts(out@) =~= head);
        } else {
            piece.push(c);
        }
        i = i + 1;
    }
    assert(cs@.take(cs@.len() as int) =~= s@);
    let ghost done = texts(out@).push(piece@);
    out.push(piece);
    assert(texts(out@) =~= done);
    out
}

/// The pieces between separators that are not empty.
pub fn split_nonempty_text(s: &str, sep: char) -> (r: Vec<String>)
    ensures
        texts(r@) == split_nonempty(s@, sep),
{
    let pieces = split_text(s, sep);
    let mut out: Vec<String> = Vec::new();
    let mut i: usize = 0;
    let ghost all = split(s@, sep);
    let ghost keep = |p: Seq<char>| p.len() > 0;
    assert(all.take(0) =~= Seq::<Seq<char>>::empty());
    reveal(Seq::filter);
    assert(texts(out@) =~= all.take(0).filter(keep));
    while i < pieces.len()
        invariant
            0 <= i <= pieces@.len(),
            texts(pieces@) == all,
            keep == (|p: Seq<char>| p.len() > 0),
            texts(out@) == all.take(i as int).filter(keep),
        decreases pieces@.len() - i,
    {
        let ghost before = texts(out@);
        assert(all.take(i + 1).drop_last() =~= all.take(i as int));
        assert(all[i as int] == pieces@[i as int]@);
        reveal(Seq::filter);
        if !pieces[i].as_str().is_empty() {
            out.push(pieces[i].clone());
            assert(texts(out@) =~= before.push(pieces@[i as int]@));
        }
        i = i + 1;
    }
    assert(all.take(all.len() as int) =~= all);
    out
}

/// The lines of a text.
pub fn lines_of(s: &str) -> (r: Vec<String>)
    ensures
        texts(r@) == lines(s@),
{
    let pieces = split_text(s, '\n');
    proof {
        lemma_split_pieces(s@, '\n');
    }
    let ghost all = split(s@, '\n');
    let mut out: Vec<String> = Vec::new();
    let mut i: usize = 0;
    let last: usize = pieces.len() - 1;
    assert(texts(out@) =~= all.take(0).map_values(|p: Seq<char>| without_cr(p)));
    while i < last
        invariant
            0 <= i <= last,
            last == pieces@.len() - 1,
            texts(pieces@) == all,
            texts(out@) == all.take(i as int).map_values(|p: Seq<char>| without_cr(p)),
        decreases last - i,
    {
        let ghost before = texts(out@);
        assert(all[i as int] == pieces@[i as int]@);
        let line = strip_cr(pieces[i].as_str());
        out.push(line);
        assert(texts(out@) =~= before.push(without_cr(all[i as int])));
        assert(all.take(i + 1).map_values(|p: Seq<char>| without_cr(p)) =~= before.push(
            without_cr(all[i as int]),
        ));
        i = i + 1;
    }
    assert(all.take(last as int) =~= all.drop_last());
    assert(all.last() == pieces@[last as int]@);
    let ghost ended = texts(out@);
    if !pieces[last].as_str().is_empty() {
        out.push(pieces[last].clone());
        assert(texts(out@) =~= ended.push(all.last()));
    }
    out
}

/// A line without one carriage return at its end.
fn strip_cr(line: &str) -> (r: String)
    ensures
        r@ == without_cr(line@),
{
    let cs = chars_of(line);
    if cs.len() > 0 && cs[cs.len() - 1] == '\r' {
        let r = string_range(&cs, 0, cs.len() - 1);
        assert(cs@.subrange(0, cs@.len() - 1) =~= line@.drop_last());
        r
    } else {
        line.to_owned()
    }
}

/// The texts put together with `sep` between neighbours.
pub fn join_texts(parts: &Vec<String>, sep: &str) -> (r: String)
    ensures
        r@ == join(texts(parts@), sep@),
{
    let ghost all = texts(parts@);
    let mut out: String = String::new();
    let mut i: usize = 0;
    assert(all.take(0) =~= Seq::<Seq<char>>::empty());
    while i < parts.len()
        invariant
            0 <= i <= parts@.len(),
            all == texts(parts@),
            out@ == join(all.take(i as int), sep@),
        decreases parts@.len() - i,
    {
        assert(all.take(i + 1).drop_last() =~= all.take(i as int));
        if i > 0 {
            out.append(sep);
            out.append(parts[i].as_str());
        } else {
            out.append(parts[i].as_str());
            assert(out@ =~= all[0]);
        }
        i = i + 1;
    }
    assert(all.take(all.len() as int) =~= all);
    out
}

/// Two texts, one after the other.
pub fn cat2(a: &str, b: &str) -> (r: String)
    ensures
        r@ == a@ + b@,
{
    let mut r: String = String::new();
    r.append(a);
    r.append(b);
    assert(Seq::<char>::empty() + a@ =~= a@);
    r
}

/// Three texts, one after the other.
pub fn cat3(a: &str, b: &str, c: &str) -> (r: String)
    ensures
        r@ == a@ + b@ + c@,
{
    let mut r: String = String::new();
    r.append(a);
    r.append(b);
    r.append(c);
    assert(Seq::<char>::empty() + a@ =~= a@);
    r
}

/// Four texts, one after the other.
pub fn cat4(a: &str, b: &str, c: &str, d: &str) -> (r: String)
    ensures
        r@ == a@ + b@ + c@ + d@,
{
    let mut r: String = String::new();
    r.append(a);
    r.append(b);
    r.append(c);
    r.append(d);
    assert(Seq::<char>::empty() + a@ =~= a@);
    r
}

/// Five texts, one after the other.
pub fn cat5(a: &str, b: &str, c: &str, d: &str, e: &str) -> (r: String)
    ensures
        r@ == a@ + b@ + c@ + d@ + e@,
{
    let mut r: String = String::new();
    r.append(a);
    r.append(b);
    r.append(c);
    r.append(d);
    r.append(e);
    assert(Seq::<char>::empty() + a@ =~= a@);
    r
}

/// Six texts, one after the other.
pub fn cat6(a: &str, b: &str, c: &str, d: &str, e: &str, f: &str) -> (r: String)
    ensures
        r@ == a@ + b@ + c@ + d@ + e@ + f@,
{
    let mut r: String = String::new();
    r.append(a);
    r.append(b);
    r.append(c);
    r.append(d);
    r.append(e);
    r.append(f);
    assert(Seq::<char>::empty() + a@ =~= a@);
    r
}

/// Whether a character is white space.
pub fn white_space(c: char) -> (r: bool)
    ensures
        r == is_white_space(c),
{
    ('\u{9}' <= c && c <= '\u{d}') || c == ' ' || c == '\u{85}' || c == '\u{a0}' || c == '\u{1680}' || (
    '\u{2000}' <= c && c <= '\u{200a}') || c == '\u{2028}' || c == '\u{2029}' || c == '\u{202f}' || c
        == '\u{205f}' || c == '\u{3000}'
}

/// A text without white space at either end.
pub fn trim_text(s: &str) -> (r: String)
    ensures
        r@ == trim(s@),
{
    let cs = chars_of(s);
    let mut from: usize = 0;
    assert(s@.skip(0) =~= s@);
    while from < cs.len() && white_space(cs[from])
        invariant
            cs@ == s@,
            0 <= from <= cs@.len(),
            trim_start(s@.skip(from as int)) == trim_start(s@),
        decreases cs@.len() - from,
    {
        assert(s@.skip(from as int).drop_first() =~= s@.skip(from + 1));
        from = from + 1;
    }
    assert(trim_start(s@) == s@.skip(from as int));
    let mut to: usize = cs.len();
    assert(s@.subrange(from as int, to as int) =~= s@.skip(from as int));
    while from < to && white_space(cs[to - 1])
        invariant
            cs@ == s@,
            0 <= from <= to <= cs@.len(),
            trim_end(s@.subrange(from as int, to as int)) == trim(s@),
        decreases to,
    {
        assert(s@.subrange(from as int, to as int).drop_last() =~= s@.subrange(from as int, to - 1));
        to = to - 1;
    }
    string_range(&cs, from, to)
}

/// Whether a text holds the character `c`.
pub fn contains_char(s: &str, c: char) -> (r: bool)
    ensures
        r == s@.contains(c),
{
    let cs = chars_of(s);
    let mut i: usize = 0;
    while i < cs.len()
        invariant
            cs@ == s@,
            0 <= i <= cs@.len(),
            forall|j: int| 0 <= j < i ==> cs@[j] != c,
        decreases cs@.len() - i,
    {
        if cs[i] == c {
            assert(s@[i as int] == c);
            return true;
        }
        i = i + 1;
    }
    false
}

/// The character for a decimal digit.
fn digit(d: u64) -> (c: char)
    requires
        d < 10,
    ensures
        c == digit_char(d as nat),
{
    if d == 0 {
        '0'
    } else if d == 1 {
        '1'
    } else if d == 2 {
        '2'
    } else if d == 3 {
        '3'
    } else if d == 4 {
        '4'
    } else if d == 5 {
        '5'
    } else if d == 6 {
        '6'
    } else if d == 7 {
        '7'
    } else if d == 8 {
        '8'
    } else {
        '9'
    }
}

/// A number in decimal notation.
pub fn decimal_text(n: u64) -> (r: String)
    ensures
        r@ == decimal(n as nat),
    decreases n,
{
    if n < 10 {
        let mut r: String = String::new();
        r.push(digit(n));
        assert(r@ =~= seq![digit_char(n as nat)]);
        r
    } else {
        let mut r = decimal_text(n / 10);
        r.push(digit(n % 10));
        r
    }
}

/// A signed number in decimal notation.
pub fn signed_decimal_text(n: i64) -> (r: String)
    ensures
        r@ == signed_decimal(n as int),
{
    if n < 0 {
        let size: u64 = if n == i64::MIN {
            0x8000_0000_0000_0000
        } else {
            (-n) as u64
        };
        let digits = decimal_text(size);
        let mut r: String = String::new();
        r.push('-');
        r.append(digits.as_str());
        assert(r@ =~= seq!['-'] + digits@);
        r
    } else {
        decimal_text(n as u64)
    }
}

/// The unsigned number that a text writes, if it is at most `max`.
pub fn parse_number(s: &str, max: u64) -> (r: Option<u64>)
    ensures
        match r {
            Some(v) => number_up_to(s@, max as nat) == Some(v as nat),
            None => number_up_to(s@, max as nat) is None,
        },
{
    let cs = chars_of(s);
    let from: usize = if cs.len() > 0 && cs[0] == '+' {
        1
    } else {
        0
    };
    let ghost digits = number_digits(s@);
    assert(digits =~= cs@.skip(from as int));
    if from == cs.len() {
        return None;
    }
    let mut value: u64 = 0;
    let mut big: bool = false;
    let mut i: usize = from;
    assert(digits.take(0) =~= Seq::<char>::empty());
    while i < cs.len()
        invariant
            from <= i <= cs@.len(),
            digits == cs@.skip(from as int),
            digits == number_digits(s@),
            forall|j: int| 0 <= j < i - from ==> is_digit(#[trigger] digits[j]),
            big ==> digits_value(digits.take(i - from)) > max,
            !big ==> digits_value(digits.take(i - from)) == value && value <= max,
        decreases cs@.len() - i,
    {
        let c = cs[i];
        assert(digits[i - from] == c);
        if !('0' <= c && c <= '9') {
            assert(!is_digit(digits[i - from]));
            return None;
        }
        assert(digits.take(i - from + 1).drop_last() =~= digits.take(i - from));
        assert(digits.take(i - from + 1).last() == c);
        let d: u64 = (c as u32 - '0' as u32) as u64;
        assert(digits_value(digits.take(i - from + 1)) == digits_value(digits.take(i - from)) * 10 + d);
        if !big {
            if value as u128 * 10 + d as u128 > max as u128 {
                big = true;
            } else {
                value = value * 10 + d;
            }
        }
        i = i + 1;
    }
    assert(digits.take(digits.len() as int) =~= digits);
    if big {
        None
    } else {
        Some(value)
    }
}

/// The truth value that a text names.
pub fn parse_truth(s: &str) -> (r: Option<bool>)
    ensures
        r == truth_value(s@),
{
    if same_text(s, "true") {
        Some(true)
    } else if same_text(s, "false") {
        Some(false)
    } else {
        None
    }
}

// ---------------------------------------------------------------------------
// Laws
// ---------------------------------------------------------------------------

/// Splitting gives at least one piece, and no piece holds the separator.
pub proof fn lemma_split_pieces(s: Seq<char>, sep: char)
    ensures
        split(s, sep).len() >= 1,
        forall|i: int, j: int|
            0 <= i < split(s, sep).len() && 0 <= j < split(s, sep)[i].len()
                ==> #[trigger] split(s, sep)[i][j] != sep,
    decreases s.len(),
{
    if s.len() > 0 {
        lemma_split_pieces(s.drop_last(), sep);
    }
}

/// Joining the pieces with the separator gives the text back.
pub proof fn lemma_join_split(s: Seq<char>, sep: char)
    ensures
        join(split(s, sep), seq![sep]) == s,
    decreases s.len(),
{
    if s.len() > 0 {
        let head = split(s.drop_last(), sep);
        lemma_join_split(s.drop_last(), sep);
        lemma_split_pieces(s.drop_last(), sep);
        if s.last() == sep {
            assert(split(s, sep).drop_last() =~= head);
            assert(join(split(s, sep), seq![sep]) =~= s);
        } else {
            assert(split(s, sep).drop_last() =~= head.drop_last());
            assert(split(s, sep).last() =~= head.last().push(s.last()));
            assert(join(split(s, sep), seq![sep]) =~= join(head, seq![sep]).push(s.last()));
            assert(join(split(s, sep), seq![sep]) =~= s);
        }
    }
}

/// A text without the separator is its only piece.
pub proof fn lemma_split_single(s: Seq<char>, sep: char)
    requires
        !s.contains(sep),
    ensures
        split(s, sep) == seq![s],
    decreases s.len(),
{
    if s.len() > 0 {
        assert(s[s.len() - 1] == s.last());
        assert forall|i: int| 0 <= i < s.drop_last().len() implies s.drop_last()[i] != sep by {
            assert(s[i] != sep);
        }
        lemma_split_single(s.drop_last(), sep);
        assert(s.drop_last().push(s.last()) =~= s);
        assert(split(s, sep) =~= seq![s]);
    } else {
        assert(s =~= Seq::<char>::empty());
    }
}

/// A separator and a text without one add that text as one more piece.
pub proof fn lemma_split_extend(a: Seq<char>, b: Seq<char>, sep: char)
    requires
        !b.contains(sep),
    ensures
        split(a + seq![sep] + b, sep) == split(a, sep).push(b),
    decreases b.len(),
{
    let s = a + seq![sep] + b;
    if b.len() == 0 {
        assert(b =~= Seq::<char>::empty());
        assert(s.drop_last() =~= a);
    } else {
        let shorter = b.drop_last();
        assert(b[b.len() - 1] == b.last());
        assert forall|i: int| 0 <= i < shorter.len() implies shorter[i] != sep by {
            assert(b[i] != sep);
        }
        lemma_split_extend(a, shorter, sep);
        assert(s.drop_last() =~= a + seq![sep] + shorter);
        let head = split(a, sep).push(shorter);
        assert(head.drop_last() =~= split(a, sep));
        assert(shorter.push(b.last()) =~= b);
    }
}

/// Splitting undoes joining where no part holds the separator.
pub proof fn lemma_split_join(parts: Seq<Seq<char>>, sep: char)
    requires
        parts.len() > 0,
        forall|i: int| 0 <= i < parts.len() ==> !(#[trigger] parts[i]).contains(sep),
    ensures
        split(join(parts, seq![sep]), sep) == parts,
    decreases parts.len(),
{
    if parts.len() == 1 {
        lemma_split_single(parts[0], sep);
        assert(seq![parts[0]] =~= parts);
    } else {
        let front = parts.drop_last();
        assert forall|i: int| 0 <= i < front.len() implies !(#[trigger] front[i]).contains(sep) by {
            assert(front[i] == parts[i]);
        }
        lemma_split_join(front, sep);
        assert(parts[parts.len() - 1] == parts.last());
        lemma_split_extend(join(front, seq![sep]), parts.last(), sep);
        assert(front.push(parts.last()) =~= parts);
    }
}

/// Where every element passes the test, nothing is left out.
pub proof fn lemma_filter_all<A>(s: Seq<A>, test: spec_fn(A) -> bool)
    requires
        forall|i: int| 0 <= i < s.len() ==> test(#[trigger] s[i]),
    ensures
        s.filter(test) == s,
    decreases s.len(),
{
    reveal(Seq::filter);
    if s.len() > 0 {
        assert forall|i: int| 0 <= i < s.drop_last().len() implies test(#[trigger] s.drop_last()[i]) by {
            assert(s.drop_last()[i] == s[i]);
        }
        lemma_filter_all(s.drop_last(), test);
        assert(test(s[s.len() - 1]));
        assert(s.drop_last().push(s.last()) =~= s);
    } else {
        assert(s.filter(test) =~= s);
    }
}

/// What passes the test is left, and nothing else.
pub proof fn lemma_filter_contains<A>(s: Seq<A>, test: spec_fn(A) -> bool, x: A)
    ensures
        s.filter(test).contains(x) <==> s.contains(x) && test(x),
    decreases s.len(),
{
    reveal(Seq::filter);
    if s.len() > 0 {
        let front = s.drop_last();
        lemma_filter_contains(front, test, x);
        assert(s.contains(x) <==> front.contains(x) || x == s.last()) by {
            if s.contains(x) {
                let i = s.index_of(x);
                if i < front.len() {
                    assert(front[i] == x);
                }
            }
            if front.contains(x) {
                assert(s[front.index_of(x)] == x);
            }
            assert(s[s.len() - 1] == s.last());
        }
        if test(s.last()) {
            let kept = front.filter(test);
            assert(kept.push(s.last()).contains(x) <==> kept.contains(x) || x == s.last()) by {
                if kept.contains(x) {
                    assert(kept.push(s.last())[kept.index_of(x)] == x);
                }
                assert(kept.push(s.last())[kept.len() as int] == s.last());
            }
        }
    }
}

/// A separator parts what stands before it from what stands behind it.
pub proof fn lemma_split_concat(a: Seq<char>, b: Seq<char>, sep: char)
    ensures
        split(a + seq![sep] + b, sep) == split(a, sep) + split(b, sep),
    decreases b.len(),
{
    let s = a + seq![sep] + b;
    if b.len() == 0 {
        assert(s.drop_last() =~= a);
        assert(split(s, sep) =~= split(a, sep) + split(b, sep));
    } else {
        let shorter = b.drop_last();
        lemma_split_concat(a, shorter, sep);
        lemma_split_pieces(shorter, sep);
        assert(s.drop_last() =~= a + seq![sep] + shorter);
        assert(s.last() == b.last());
        assert(split(s, sep) =~= split(a, sep) + split(b, sep));
    }
}

/// Joining two lists is joining each of them, with one more separator in between.
pub proof fn lemma_join_concat(a: Seq<Seq<char>>, b: Seq<Seq<char>>, sep: Seq<char>)
    requires
        a.len() > 0,
        b.len() > 0,
    ensures
        join(a + b, sep) == join(a, sep) + sep + join(b, sep),
    decreases b.len(),
{
    let all = a + b;
    assert(all.last() == b.last());
    if b.len() == 1 {
        assert(all.drop_last() =~= a);
    } else {
        assert(all.drop_last() =~= a + b.drop_last());
        lemma_join_concat(a, b.drop_last(), sep);
        assert(join(all, sep) =~= join(a, sep) + sep + join(b, sep));
    }
}

/// The lines of two texts with a line feed between them are the lines of the one and then
/// those of the other, where the first ends in an open line.
pub proof fn lemma_lines_concat(a: Seq<char>, b: Seq<char>)
    requires
        a.len() > 0,
        a.last() != '\n',
        a.last() != '\r',
        b.len() > 0,
    ensures
        lines(a + seq!['\n'] + b) == lines(a) + lines(b),
        lines(a).len() > 0,
        lines(b).len() > 0,
{
    let (p, q) = (split(a, '\n'), split(b, '\n'));
    lemma_split_concat(a, b, '\n');
    lemma_split_pieces(a, '\n');
    lemma_split_pieces(b, '\n');
    lemma_split_pieces(a.drop_last(), '\n');
    lemma_split_pieces(b.drop_last(), '\n');
    assert(p.last().last() == a.last());
    assert(without_cr(p.last()) == p.last());
    assert((p + q).last() == q.last());
    assert(lines(a + seq!['\n'] + b) =~= lines(a) + lines(b));
}

/// A number reads back from its own decimal notation.
pub proof fn law_decimal_reads_back(n: nat)
    ensures
        number(decimal(n)) == Some(n),
{
    lemma_decimal_digits(n);
    let d = decimal(n);
    assert(is_digit(d[0]));
    assert(number_digits(d) == d);
}

pub proof fn lemma_decimal_digits(n: nat)
    ensures
        decimal(n).len() > 0,
        forall|i: int| 0 <= i < decimal(n).len() ==> is_digit(#[trigger] decimal(n)[i]),
        digits_value(decimal(n)) == n,
    decreases n,
{
    if n < 10 {
        assert(decimal(n).drop_last() =~= Seq::<char>::empty());
        assert(digits_value(decimal(n).drop_last()) == 0);
        assert(digit_char(n) as u32 - '0' as u32 == n);
    } else {
        lemma_decimal_digits(n / 10);
        assert(decimal(n).drop_last() =~= decimal(n / 10));
        assert(digit_char(n % 10) as u32 - '0' as u32 == n % 10);
    }
}

// ---------------------------------------------------------------------------
// Laws
// ---------------------------------------------------------------------------

/// A text begins with another where it agrees with it character by character from the
/// start, ends with it where it agrees up to the end, and holds it where it is what stands
/// before, the other, and what stands behind.
pub proof fn law_parts_agree(s: Seq<char>, t: Seq<char>)
    ensures
        has_prefix(s, t) <==> t.len() <= s.len() && forall|i: int|
            0 <= i < t.len() ==> s[i] == #[trigger] t[i],
        has_suffix(s, t) <==> t.len() <= s.len() && forall|i: int|
            0 <= i < t.len() ==> s[s.len() - t.len() + i] == #[trigger] t[i],
        has_part(s, t) <==> exists|before: Seq<char>, behind: Seq<char>|
            s == #[trigger] (before + t + behind),
{
    if t.len() <= s.len() && forall|i: int| 0 <= i < t.len() ==> s[i] == #[trigger] t[i] {
        assert(s.take(t.len() as int) =~= t);
    }
    if has_prefix(s, t) {
        assert forall|i: int| 0 <= i < t.len() implies s[i] == #[trigger] t[i] by {
            assert(s.take(t.len() as int)[i] == t[i]);
        }
    }
    let from = s.len() - t.len();
    if t.len() <= s.len() && forall|i: int| 0 <= i < t.len() ==> s[s.len() - t.len() + i]
        == #[trigger] t[i] {
        assert(s.skip(from) =~= t);
    }
    if has_suffix(s, t) {
        assert forall|i: int| 0 <= i < t.len() implies s[s.len() - t.len() + i] == #[trigger] t[i] by {
            assert(s.skip(from)[i] == t[i]);
        }
    }
    if has_part(s, t) {
        let at = choose|at: int| occurs_at(s, t, at);
        let (before, behind) = (s.take(at), s.skip(at + t.len()));
        assert(s =~= before + t + behind) by {
            assert forall|i: int| at <= i < at + t.len() implies s[i] == t[i - at] by {
                assert(s.subrange(at, at + t.len())[i - at] == t[i - at]);
            }
        }
    }
    if exists|before: Seq<char>, behind: Seq<char>| s == #[trigger] (before + t + behind) {
        let (before, behind) = choose|before: Seq<char>, behind: Seq<char>|
            s == #[trigger] (before + t + behind);
        assert(s.subrange(before.len() as int, (before.len() + t.len()) as int) =~= t);
        assert(occurs_at(s, t, before.len() as int));
    }
}

/// A text is cut exactly at the separators: the pieces hold none, and put together again
/// they are the text.
pub proof fn law_pieces_make_the_text(s: Seq<char>, sep: char)
    ensures
        split(s, sep).len() == 1 + s.filter(|c: char| c == sep).len(),
        forall|i: int| 0 <= i < split(s, sep).len() ==> !(#[trigger] split(s, sep)[i]).contains(sep),
        join(split(s, sep), seq![sep]) == s,
    decreases s.len(),
{
    lemma_split_pieces(s, sep);
    lemma_join_split(s, sep);
    reveal(Seq::filter);
    if s.len() > 0 {
        law_pieces_make_the_text(s.drop_last(), sep);
    }
}

/// Joined texts stand one behind the other, with the separator between neighbours only.
pub proof fn law_joined_texts_follow(a: Seq<Seq<char>>, b: Seq<Seq<char>>, one: Seq<char>, sep: Seq<char>)
    requires
        a.len() > 0,
        b.len() > 0,
    ensures
        join(Seq::<Seq<char>>::empty(), sep).len() == 0,
        join(seq![one], sep) == one,
        join(a + b, sep) == join(a, sep) + sep + join(b, sep),
{
    lemma_join_concat(a, b, sep);
}

proof fn lemma_ended_lines(ls: Seq<Seq<char>>, end: Seq<char>, text: Seq<char>)
    requires
        end == seq!['\n'] || end == seq!['\r', '\n'],
        ls.len() > 0,
        forall|i: int| 0 <= i < ls.len() ==> !(#[trigger] ls[i]).contains('\n') && without_cr(ls[i])
            == ls[i],
        text == join(ls, end) + end,
    ensures
        lines(text) == ls,
    decreases ls.len(),
{
    let cr = end.drop_last();
    let last = ls.last();
    let line = last + cr;
    assert forall|i: int| 0 <= i < line.len() implies line[i] != '\n' by {
        if i < last.len() {
            assert(last[i] != '\n');
        }
    }
    assert(without_cr(line) == last) by {
        if cr.len() > 0 {
            assert(line.drop_last() =~= last);
        } else {
            assert(line =~= last);
        }
    }
    if ls.len() == 1 {
        assert(text =~= line + seq!['\n'] + Seq::<char>::empty());
        lemma_split_single(line, '\n');
        lemma_split_extend(line, Seq::<char>::empty(), '\n');
        assert(lines(text) =~= ls);
    } else {
        let front = ls.drop_last();
        let head = join(front, end) + end;
        lemma_ended_lines(front, end, head);
        let body = join(front, end) + cr;
        assert(head =~= body + seq!['\n'] + Seq::<char>::empty());
        lemma_split_extend(body, Seq::<char>::empty(), '\n');
        lemma_split_extend(body, line, '\n');
        lemma_split_extend(body + seq!['\n'] + line, Seq::<char>::empty(), '\n');
        assert(text =~= body + seq!['\n'] + line + seq!['\n'] + Seq::<char>::empty());
        let p = split(body, '\n');
        assert(split(head, '\n').drop_last() =~= p);
        assert(p.map_values(|q: Seq<char>| without_cr(q)) =~= front);
        assert(split(text, '\n').drop_last() =~= p.push(line));
        assert(lines(text) =~= ls) by {
            assert(p.push(line).map_values(|q: Seq<char>| without_cr(q)) =~= front.push(last));
            assert(front.push(last) =~= ls);
        }
    }
}

/// A text is read in the lines that it was written in, whether a line feed ends each line or
/// a carriage return and a line feed; the last line needs no end where it is not empty.
pub proof fn law_lines_are_read_as_written(ls: Seq<Seq<char>>)
    requires
        ls.len() > 0,
        forall|i: int| 0 <= i < ls.len() ==> !(#[trigger] ls[i]).contains('\n') && !(ls[i].len() > 0
            && ls[i].last() == '\r'),
    ensures
        lines(join(ls, seq!['\n']) + seq!['\n']) == ls,
        lines(join(ls, seq!['\r', '\n']) + seq!['\r', '\n']) == ls,
        ls.last().len() > 0 ==> lines(join(ls, seq!['\n'])) == ls,
{
    lemma_ended_lines(ls, seq!['\n'], join(ls, seq!['\n']) + seq!['\n']);
    lemma_ended_lines(ls, seq!['\r', '\n'], join(ls, seq!['\r', '\n']) + seq!['\r', '\n']);
    lemma_split_join(ls, '\n');
    if ls.last().len() > 0 {
        assert(lines(join(ls, seq!['\n'])) =~= ls);
    }
}

/// White space is what separates words: blanks, tabs and line ends are, and no character that
/// prints in plain text is.
pub proof fn law_white_space_does_not_print(c: char)
    ensures
        c == ' ' || c == '\t' || c == '\n' || c == '\r' ==> is_white_space(c),
        '!' <= c <= '~' ==> !is_white_space(c),
{
}

/// Trimming takes away white space at both ends, all of it and nothing else.
pub proof fn law_trimming_takes_white_space(s: Seq<char>)
    ensures
        trim(s).len() > 0 ==> !is_white_space(trim(s)[0]) && !is_white_space(trim(s).last()),
        exists|a: Seq<char>, b: Seq<char>|
            {
                &&& s == #[trigger] (a + trim(s) + b)
                &&& forall|i: int| 0 <= i < a.len() ==> is_white_space(#[trigger] a[i])
                &&& forall|i: int| 0 <= i < b.len() ==> is_white_space(#[trigger] b[i])
            },
        s.len() > 0 && !is_white_space(s[0]) && !is_white_space(s.last()) ==> trim(s) == s,
{
    lemma_trim_start(s);
    let t = trim_start(s);
    lemma_trim_end(t);
    let a = s.take(s.len() - t.len());
    let b = t.skip(trim(s).len() as int);
    assert(t =~= trim(s) + b);
    assert(s =~= a + t);
    assert(s =~= a + trim(s) + b);
    assert forall|i: int| 0 <= i < a.len() implies is_white_space(#[trigger] a[i]) by {
        assert(a[i] == s[i]);
    }
    assert forall|i: int| 0 <= i < b.len() implies is_white_space(#[trigger] b[i]) by {
        assert(b[i] == t[trim(s).len() + i]);
    }
    if trim(s).len() > 0 {
        assert(trim(s)[0] == t[0]);
    }
}

proof fn lemma_trim_start(s: Seq<char>)
    ensures
        trim_start(s).len() <= s.len(),
        trim_start(s) == s.skip(s.len() - trim_start(s).len()),
        forall|i: int| 0 <= i < s.len() - trim_start(s).len() ==> is_white_space(#[trigger] s[i]),
        trim_start(s).len() > 0 ==> !is_white_space(trim_start(s)[0]),
    decreases s.len(),
{
    if s.len() > 0 && is_white_space(s[0]) {
        let rest = s.drop_first();
        lemma_trim_start(rest);
        assert(trim_start(s) =~= s.skip(s.len() - trim_start(s).len()));
        assert forall|i: int| 0 <= i < s.len() - trim_start(s).len() implies is_white_space(
            #[trigger] s[i],
        ) by {
            if i > 0 {
                assert(rest[i - 1] == s[i]);
            }
        }
    } else {
        assert(s.skip(0) =~= s);
    }
}

proof fn lemma_trim_end(s: Seq<char>)
    ensures
        trim_end(s).len() <= s.len(),
        trim_end(s) == s.take(trim_end(s).len() as int),
        forall|i: int| trim_end(s).len() <= i < s.len() ==> is_white_space(#[trigger] s[i]),
        trim_end(s).len() > 0 ==> !is_white_space(trim_end(s).last()),
    decreases s.len(),
{
    if s.len() > 0 && is_white_space(s.last()) {
        let rest = s.drop_last();
        lemma_trim_end(rest);
        assert(trim_end(s) =~= s.take(trim_end(s).len() as int));
        assert forall|i: int| trim_end(s).len() <= i < s.len() implies is_white_space(
            #[trigger] s[i],
        ) by {
            if i < rest.len() {
                assert(rest[i] == s[i]);
            }
        }
    } else {
        assert(s.take(s.len() as int) =~= s);
    }
}

/// Decimal notation puts the ones last and what is left in front of them; a number of one
/// digit is that digit.
pub proof fn law_decimal_puts_ones_last(n: nat, digit: nat)
    requires
        digit < 10,
    ensures
        decimal(digit) == seq![("0123456789"@)[digit as int]],
        n > 0 ==> decimal(n * 10 + digit) == decimal(n) + seq![("0123456789"@)[digit as int]],
{
    reveal_strlit("0123456789");
    assert((n * 10 + digit) / 10 == n && (n * 10 + digit) % 10 == digit);
    assert(digit_char(digit) == ("0123456789"@)[digit as int]);
    if n > 0 {
        assert(decimal(n * 10 + digit) =~= decimal(n) + seq![("0123456789"@)[digit as int]]);
    }
}

/// Negative numbers have a minus sign before the digits, others none.
pub proof fn law_sign_stands_first(n: nat)
    requires
        n > 0,
    ensures
        signed_decimal(-(n as int)) == seq!['-'] + decimal(n),
        signed_decimal(n as int) == decimal(n),
        signed_decimal(0) == seq!['0'],
{
    assert(decimal(0) =~= seq!['0']);
}

/// A number is read digit by digit; one plus sign may stand before it, and whatever holds
/// anything else than digits is no number.
pub proof fn law_numbers_are_read_digit_by_digit(s: Seq<char>, c: char, max: nat)
    ensures
        number(Seq::<char>::empty()) is None,
        number(seq!['+']) is None,
        '0' <= c <= '9' ==> number(seq![c]) == Some((c as u32 - '0' as u32) as nat),
        '0' <= c <= '9' && number(s) is Some ==> number(s.push(c)) == Some(
            number(s)->0 * 10 + (c as u32 - '0' as u32) as nat,
        ),
        !('0' <= c <= '9') && s.len() > 0 ==> number(s.push(c)) is None,
        s.len() > 0 && s[0] != '+' ==> number(seq!['+'] + s) == number(s),
        number_up_to(s, max) == (if number(s) is Some && number(s)->0 <= max {
            number(s)
        } else {
            None
        }),
{
    let t = s.push(c);
    assert(number_digits(seq!['+']) =~= Seq::<char>::empty());
    let one = seq![c];
    if '0' <= c <= '9' {
        assert(number_digits(one) == one);
        assert(one.drop_last() =~= Seq::<char>::empty());
        assert(digits_value(one.drop_last()) == 0);
        if number(s) is Some {
            let d = number_digits(s);
            assert(number_digits(t) =~= d.push(c));
            assert(d.push(c).drop_last() =~= d);
            assert forall|i: int| 0 <= i < d.push(c).len() implies is_digit(#[trigger] d.push(c)[i]) by {
                if i < d.len() {
                    assert(is_digit(d[i]));
                }
            }
        }
    } else if s.len() > 0 {
        let d = number_digits(t);
        assert(d.len() > 0 && d[d.len() - 1] == c);
        assert(!is_digit(d[d.len() - 1]));
    }
    if s.len() > 0 && s[0] != '+' {
        assert(number_digits(seq!['+'] + s) =~= s);
    }
}

/// White space are exactly the twenty-five characters of Unicode that have that property.
pub proof fn law_white_space_is_that_of_unicode(c: char)
    ensures
        is_white_space(c) <==> {
            let n = c as u32;
            ||| n == 0x9 || n == 0xa || n == 0xb || n == 0xc || n == 0xd || n == 0x20
            ||| n == 0x85 || n == 0xa0 || n == 0x1680
            ||| n == 0x2000 || n == 0x2001 || n == 0x2002 || n == 0x2003 || n == 0x2004 || n == 0x2005
            ||| n == 0x2006 || n == 0x2007 || n == 0x2008 || n == 0x2009 || n == 0x200a
            ||| n == 0x2028 || n == 0x2029 || n == 0x202f || n == 0x205f || n == 0x3000
        },
{
}

} // verus!
