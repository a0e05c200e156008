//! Text primitives: trimming, splitting, joining and decimal numbers.
//!
//! Every function is specified on the sequence of characters that a string
//! holds.

use vstd::prelude::*;
use vstd::string::*;

verus! {

/// Unicode's `White_Space` property.
pub open spec fn is_space(c: char) -> bool {
    ||| 0x09 <= c as u32 <= 0x0d
    ||| c as u32 == 0x20
    ||| c as u32 == 0x85
    ||| c as u32 == 0xa0
    ||| c as u32 == 0x1680
    ||| 0x2000 <= c as u32 <= 0x200a
    ||| c as u32 == 0x2028
    ||| c as u32 == 0x2029
    ||| c as u32 == 0x202f
    ||| c as u32 == 0x205f
    ||| c as u32 == 0x3000
}

/// `s` without its leading white space.
pub open spec fn trim_start(s: Seq<char>) -> Seq<char>
    decreases s.len(),
{
    if s.len() > 0 && is_space(s[0]) {
        trim_start(s.drop_first())
    } else {
        s
    }
}

/// `s` without its trailing white space.
pub open spec fn trim_end(s: Seq<char>) -> Seq<char>
    decreases s.len(),
{
    if s.len() > 0 && is_space(s.last()) {
        trim_end(s.drop_last())
    } else {
        s
    }
}

/// `s` without white space at either end.
pub open spec fn trim(s: Seq<char>) -> Seq<char> {
    trim_end(trim_start(s))
}

/// `str::trim` removes leading and trailing characters that have the Unicode
/// property `White_Space`, and nothing else.
pub assume_specification[ str::trim ](s: &str) -> (t: &str)
    ensures
        t@ == trim(s@),
;

/// `str::trim_start` removes leading characters that have the Unicode
/// property `White_Space`, and nothing else.
pub assume_specification[ str::trim_start ](s: &str) -> (t: &str)
    ensures
        t@ == trim_start(s@),
;

/// `String::push` appends one character.
pub assume_specification[ String::push ](s: &mut String, c: char)
    ensures
        final(s)@ == old(s)@.push(c),
;

/// What the `{:?}` format of a string slice writes: the string in double
/// quotes, with the escapes that Rust source uses.
pub uninterp spec fn debug_text(s: Seq<char>) -> Seq<char>;

/// `<str as Debug>::fmt`, through `format!`. The text is a function of the
/// string alone; which characters it escapes is not stated.
#[verifier::external_body]
pub(crate) fn debug_quoted(s: &str) -> (text: String)
    ensures
        text@ == debug_text(s@),
{
    format!("{s:?}")
}

/// `s` without the copies of `c` at its start.
pub open spec fn trim_start_char(s: Seq<char>, c: char) -> Seq<char>
    decreases s.len(),
{
    if s.len() > 0 && s[0] == c {
        trim_start_char(s.drop_first(), c)
    } else {
        s
    }
}

/// `s` without the copies of `c` at its end.
pub open spec fn trim_end_char(s: Seq<char>, c: char) -> Seq<char>
    decreases s.len(),
{
    if s.len() > 0 && s.last() == c {
        trim_end_char(s.drop_last(), c)
    } else {
        s
    }
}

/// The characters of `s`, in order.
pub fn chars(s: &str) -> (v: Vec<char>)
    ensures
        v@ == s@,
{
    let mut v: Vec<char> = Vec::new();
    for c in it: s.chars()
        invariant
            it.seq() == s@,
            v@ == it.seq().take(it.index()),
    {
        v.push(c);
    }
    v
}

/// The string of the characters `v[from..to]`.
fn string_of(v: &Vec<char>, from: usize, to: usize) -> (s: String)
    requires
        from <= to <= v.len(),
    ensures
        s@ == v@.subrange(from as int, to as int),
{
    let mut s = String::new();
    let mut i: usize = from;
    while i < to
        invariant
            from <= i <= to <= v.len(),
            s@ == v@.subrange(from as int, i as int),
        decreases to - i,
    {
        s.push(v[i]);
        i += 1;
    }
    s
}

/// Whether the first character of `s` is `c`.
pub fn starts_with(s: &str, c: char) -> (r: bool)
    ensures
        r == (s@.len() > 0 && s@[0] == c),
{
    let mut it = s.chars();
    match it.next() {
        Some(first) => first == c,
        None => false,
    }
}

/// `s` without the copies of `c` at its start.
pub fn without_leading(s: &str, c: char) -> (t: String)
    ensures
        t@ == trim_start_char(s@, c),
{
    let v = chars(s);
    let mut i: usize = 0;
    assert(v@.skip(0) == s@);
    while i < v.len() && v[i] == c
        invariant
            i <= v.len(),
            trim_start_char(s@, c) == trim_start_char(v@.skip(i as int), c),
        decreases v.len() - i,
    {
        assert(v@.skip(i as int).drop_first() == v@.skip(i + 1));
        i += 1;
    }
    assert(v@.skip(i as int) == v@.subrange(i as int, v@.len() as int));
    string_of(&v, i, v.len())
}

/// `s` without the copies of `c` at its end.
pub fn without_trailing(s: &str, c: char) -> (t: String)
    ensures
        t@ == trim_end_char(s@, c),
{
    let v = chars(s);
    let mut n: usize = v.len();
    assert(v@.take(n as int) == s@);
    while n > 0 && v[n - 1] == c
        invariant
            n <= v.len(),
            trim_end_char(s@, c) == trim_end_char(v@.take(n as int), c),
        decreases n,
    {
        assert(v@.take(n as int).drop_last() == v@.take(n - 1));
        n -= 1;
    }
    string_of(&v, 0, n)
}

// ---- splitting -----------------------------------------------------------

/// The pieces of `s` between the occurrences of `sep`. There is one more
/// piece than there are separators.
pub open spec fn split(s: Seq<char>, sep: char) -> Seq<Seq<char>>
    decreases s.len(),
{
    if s.len() == 0 {
        seq![Seq::<char>::empty()]
    } else {
        let before = split(s.drop_last(), sep);
        if s.last() == sep {
            before.push(Seq::<char>::empty())
        } else {
            before.drop_last().push(before.last().push(s.last()))
        }
    }
}

/// What a piece contributes to a list: itself without white space at either
/// end, or nothing if it is blank.
pub open spec fn field(piece: Seq<char>) -> Option<Seq<char>> {
    if trim(piece).len() > 0 {
        Some(trim(piece))
    } else {
        None
    }
}

/// The pieces that are not blank, each without white space at either end.
pub open spec fn nonblank(pieces: Seq<Seq<char>>) -> Seq<Seq<char>> {
    pieces.filter_map(|piece: Seq<char>| field(piece))
}

/// The items of the list `s` whose items are separated by `sep`: trimmed, and
/// without the blank ones.
pub open spec fn fields(s: Seq<char>, sep: char) -> Seq<Seq<char>> {
    nonblank(split(s, sep))
}

/// The characters of each string of `v`.
pub open spec fn views(v: Seq<String>) -> Seq<Seq<char>> {
    v.map_values(|s: String| s@)
}

proof fn lemma_nonblank_push(pieces: Seq<Seq<char>>, piece: Seq<char>)
    ensures
        nonblank(pieces.push(piece)) == (match field(piece) {
            Some(f) => nonblank(pieces).push(f),
            None => nonblank(pieces),
        }),
{
    assert(pieces.push(piece).drop_last() == pieces);
}

proof fn lemma_views_push(v: Seq<String>, s: String)
    ensures
        views(v.push(s)) == views(v).push(s@),
{
}

/// Appends to `out` what `piece` contributes to a list.
fn push_field(out: &mut Vec<String>, piece: &str)
    ensures
        views(final(out)@) == (match field(piece@) {
            Some(f) => views(old(out)@).push(f),
            None => views(old(out)@),
        }),
{
    let trimmed = piece.trim();
    if !trimmed.is_empty() {
        let owned = trimmed.to_string();
        proof {
            lemma_views_push(out@, owned);
        }
        out.push(owned);
    }
}

/// The items of the list `s` whose items are separated by `sep`: trimmed, and
/// without the blank ones.
pub fn split_fields(s: &str, sep: char) -> (out: Vec<String>)
    ensures
        views(out@) == fields(s@, sep),
{
    let mut out: Vec<String> = Vec::new();
    let mut piece = String::new();
    for c in it: s.chars()
        invariant
            it.seq() == s@,
            split(s@.take(it.index()), sep).len() > 0,
            piece@ == split(s@.take(it.index()), sep).last(),
            views(out@) == nonblank(split(s@.take(it.index()), sep).drop_last()),
    {
        let ghost done = split(s@.take(it.index()), sep);
        assert(s@.take(it.index() + 1).drop_last() == s@.take(it.index()));
        if c == sep {
            proof {
                lemma_nonblank_push(done.drop_last(), piece@);
            }
            assert(done.drop_last().push(piece@) == done);
            assert(done.push(Seq::<char>::empty()).drop_last() == done);
            push_field(&mut out, &piece);
            piece = String::new();
        } else {
            let ghost grown = done.last().push(c);
            assert(done.drop_last().push(grown).drop_last() == done.drop_last());
            piece.push(c);
        }
    }
    proof {
        let done = split(s@, sep);
        assert(s@.take(s@.len() as int) == s@);
        lemma_nonblank_push(done.drop_last(), piece@);
        assert(done.drop_last().push(piece@) == done);
    }
    push_field(&mut out, &piece);
    out
}

/// The piece of `s` behind the last occurrence of `sep`.
pub fn last_piece(s: &str, sep: char) -> (piece: String)
    ensures
        piece@ == split(s@, sep).last(),
{
    let mut piece = String::new();
    assert(s@.take(0) == Seq::<char>::empty());
    for c in it: s.chars()
        invariant
            it.seq() == s@,
            piece@ == split(s@.take(it.index()), sep).last(),
    {
        assert(s@.take(it.index() + 1).drop_last() == s@.take(it.index()));
        if c == sep {
            piece = String::new();
            assert(piece@ == Seq::<char>::empty());
        } else {
            piece.push(c);
        }
    }
    assert(s@.take(s@.len() as int) == s@);
    piece
}

// ---- how the pieces of a concatenation are found --------------------------

pub proof fn lemma_filter_map_len<A, B>(s: Seq<A>, f: spec_fn(A) -> Option<B>)
    ensures
        s.filter_map(f).len() <= s.len(),
    decreases s.len(),
{
    if s.len() > 0 {
        lemma_filter_map_len(s.drop_last(), f);
    }
}

pub proof fn lemma_filter_map_add<A, B>(a: Seq<A>, b: Seq<A>, f: spec_fn(A) -> Option<B>)
    ensures
        (a + b).filter_map(f) == a.filter_map(f) + b.filter_map(f),
    decreases b.len(),
{
    if b.len() == 0 {
        assert(a + b =~= a);
        assert(a.filter_map(f) + b.filter_map(f) =~= a.filter_map(f));
    } else {
        lemma_filter_map_add(a, b.drop_last(), f);
        assert((a + b).drop_last() =~= a + b.drop_last());
        assert((a + b).filter_map(f) =~= a.filter_map(f) + b.filter_map(f));
    }
}

pub proof fn lemma_split_len(s: Seq<char>, sep: char)
    ensures
        split(s, sep).len() > 0,
    decreases s.len(),
{
    if s.len() > 0 {
        lemma_split_len(s.drop_last(), sep);
    }
}

/// Of two texts, the last piece of the first and the first piece of the second
/// become one.
pub proof fn lemma_split_add(a: Seq<char>, b: Seq<char>, sep: char)
    ensures
        split(a + b, sep) == split(a, sep).drop_last() + split(b, sep).update(
            0,
            split(a, sep).last() + split(b, sep)[0],
        ),
    decreases b.len(),
{
    lemma_split_len(a, sep);
    lemma_split_len(b, sep);
    let pieces = split(a, sep);
    if b.len() == 0 {
        assert(a + b =~= a);
        assert(pieces.last() + Seq::<char>::empty() =~= pieces.last());
        assert(split(a, sep) =~= pieces.drop_last() + split(b, sep).update(
            0,
            pieces.last() + split(b, sep)[0],
        ));
    } else {
        let rest = b.drop_last();
        lemma_split_len(rest, sep);
        lemma_split_add(a, rest, sep);
        assert((a + b).drop_last() =~= a + rest);
        assert((a + b).last() == b.last());
        let before = split(rest, sep);
        assert(pieces.last() + before[0].push(b.last()) =~= (pieces.last() + before[0]).push(
            b.last(),
        ));
        assert(split(a + b, sep) =~= pieces.drop_last() + split(b, sep).update(
            0,
            pieces.last() + split(b, sep)[0],
        ));
    }
}

proof fn lemma_trim_end_keeps_start(s: Seq<char>)
    requires
        s.len() > 0,
        !is_space(s[0]),
    ensures
        trim_end(s).len() > 0,
    decreases s.len(),
{
    if is_space(s.last()) {
        lemma_trim_end_keeps_start(s.drop_last());
    }
}

proof fn lemma_trim_start_stops(s: Seq<char>)
    ensures
        trim_start(s).len() > 0 ==> !is_space(trim_start(s)[0]),
    decreases s.len(),
{
    if s.len() > 0 && is_space(s[0]) {
        lemma_trim_start_stops(s.drop_first());
    }
}

/// White space before a text is trimmed with it.
proof fn lemma_trim_behind_blank(blank: Seq<char>, s: Seq<char>)
    requires
        trim(blank).len() == 0,
    ensures
        trim(blank + s) == trim(s),
{
    lemma_trim_start_stops(blank);
    if trim_start(blank).len() > 0 {
        lemma_trim_end_keeps_start(trim_start(blank));
    }
    lemma_trim_start_add(blank, s);
}

/// Text without a separator is one piece.
pub proof fn lemma_split_without(s: Seq<char>, sep: char)
    requires
        forall|i: int| 0 <= i < s.len() ==> s[i] != sep,
    ensures
        split(s, sep) == seq![s],
    decreases s.len(),
{
    if s.len() == 0 {
        assert(s =~= Seq::empty());
    } else {
        lemma_split_without(s.drop_last(), sep);
        let before = split(s.drop_last(), sep);
        assert(before.last() == s.drop_last());
        assert(before.last().push(s.last()) =~= s);
        assert(before.drop_last() =~= Seq::empty());
        assert(Seq::<Seq<char>>::empty().push(s) =~= seq![s]);
    }
}

/// The items of a list whose last piece is blank and those of the text behind
/// it are the items of both together.
pub proof fn lemma_fields_add(a: Seq<char>, b: Seq<char>, sep: char)
    requires
        trim(split(a, sep).last()).len() == 0,
    ensures
        fields(a + b, sep) == fields(a, sep) + fields(b, sep),
        trim(split(a + b, sep).last()) == trim(split(b, sep).last()),
{
    let f = |piece: Seq<char>| field(piece);
    let blank = split(a, sep).last();
    let pieces = split(b, sep);
    let joined = blank + pieces[0];
    lemma_split_len(a, sep);
    lemma_split_len(b, sep);
    lemma_split_add(a, b, sep);
    lemma_trim_behind_blank(blank, pieces[0]);
    let before = split(a, sep).drop_last();
    let behind = pieces.drop_first();
    assert(split(a, sep) =~= before.push(blank));
    lemma_nonblank_push(before, blank);
    assert(pieces =~= Seq::empty().push(pieces[0]) + behind);
    assert(pieces.update(0, joined) =~= Seq::empty().push(joined) + behind);
    lemma_nonblank_push(Seq::empty(), pieces[0]);
    lemma_nonblank_push(Seq::empty(), joined);
    lemma_filter_map_add(Seq::empty().push(pieces[0]), behind, f);
    lemma_filter_map_add(Seq::empty().push(joined), behind, f);
    lemma_filter_map_add(before, pieces.update(0, joined), f);
}

/// A separator behind a list adds no item.
pub proof fn lemma_fields_push_separator(s: Seq<char>, sep: char)
    ensures
        fields(s.push(sep), sep) == fields(s, sep),
{
    let empty = Seq::<char>::empty();
    assert(trim(empty) == empty);
    assert(s.push(sep).drop_last() =~= s);
    lemma_nonblank_push(split(s, sep), empty);
}

/// A line without white space at either end is the one item of the list that
/// holds it and its line end.
pub proof fn lemma_fields_of_line(s: Seq<char>, sep: char)
    requires
        forall|i: int| 0 <= i < s.len() ==> s[i] != sep,
        s.len() > 0,
        !is_space(s[0]),
        !is_space(s.last()),
    ensures
        fields(s.push(sep), sep) == seq![s],
{
    let empty = Seq::<char>::empty();
    lemma_split_without(s, sep);
    assert(s.push(sep).drop_last() =~= s);
    assert(trim(empty) == empty);
    assert(trim(s) == s);
    lemma_nonblank_push(seq![s], empty);
    lemma_nonblank_push(Seq::empty(), s);
    assert(Seq::<Seq<char>>::empty().push(s) =~= seq![s]);
    assert(nonblank(Seq::<Seq<char>>::empty()) =~= Seq::empty());
}

/// The white space before a text is that of its first part, and where that
/// part is blank, also that of the second.
pub proof fn lemma_trim_start_add(a: Seq<char>, b: Seq<char>)
    ensures
        trim_start(a).len() > 0 ==> trim_start(a + b) == trim_start(a) + b,
        trim_start(a).len() == 0 ==> trim_start(a + b) == trim_start(b),
    decreases a.len(),
{
    if a.len() == 0 {
        assert(a + b =~= b);
    } else if is_space(a[0]) {
        lemma_trim_start_add(a.drop_first(), b);
        assert((a + b).drop_first() =~= a.drop_first() + b);
    } else {
        assert((a + b)[0] == a[0]);
    }
}

/// An empty list has no items.
pub proof fn lemma_fields_of_nothing(sep: char)
    ensures
        fields(Seq::empty(), sep) == Seq::<Seq<char>>::empty(),
{
    let empty = Seq::<char>::empty();
    assert(trim(empty) == empty);
    lemma_nonblank_push(Seq::empty(), empty);
    assert(split(empty, sep) =~= Seq::<Seq<char>>::empty().push(empty));
    assert(nonblank(Seq::<Seq<char>>::empty()) =~= Seq::empty());
}

// ---- joining -------------------------------------------------------------

/// The parts in order, with `sep` between each two.
pub open spec fn join(parts: Seq<Seq<char>>, sep: Seq<char>) -> Seq<char>
    decreases parts.len(),
{
    if parts.len() == 0 {
        Seq::empty()
    } else if parts.len() == 1 {
        parts[0]
    } else {
        join(parts.drop_last(), sep) + sep + parts.last()
    }
}

/// The parts in order, with `sep` between each two.
pub fn join_strings(parts: &Vec<String>, sep: &str) -> (out: String)
    ensures
        out@ == join(views(parts@), sep@),
{
    let mut out = String::new();
    let mut i: usize = 0;
    while i < parts.len()
        invariant
            i <= parts.len(),
            out@ == join(views(parts@).take(i as int), sep@),
        decreases parts.len() - i,
    {
        assert(views(parts@).take(i + 1).drop_last() == views(parts@).take(i as int));
        if i > 0 {
            out.append(sep);
        }
        out.append(parts[i].as_str());
        i += 1;
    }
    assert(views(parts@).take(i as int) == views(parts@));
    out
}

// ---- decimal numbers -----------------------------------------------------

/// Whether `c` is one of `0` to `9`.
pub open spec fn is_digit(c: char) -> bool {
    '0' as u32 <= c as u32 <= '9' as u32
}

/// The number that a sequence of decimal digits writes.
pub open spec fn digits_value(s: Seq<char>) -> nat
    decreases s.len(),
{
    if s.len() == 0 {
        0
    } else {
        digits_value(s.drop_last()) * 10 + (s.last() as u32 - '0' as u32) as nat
    }
}

/// `s` without one leading plus sign, if it has one.
pub open spec fn without_plus(s: Seq<char>) -> Seq<char> {
    if s.len() > 0 && s[0] == '+' {
        s.drop_first()
    } else {
        s
    }
}

/// The number that `s` writes: an optional plus sign, then at least one
/// decimal digit and nothing else, up to what 64 bits hold.
pub open spec fn number(s: Seq<char>) -> Option<u64> {
    let digits = without_plus(s);
    if digits.len() > 0 && (forall|i: int| 0 <= i < digits.len() ==> is_digit(digits[i]))
        && digits_value(digits) <= u64::MAX {
        Some(digits_value(digits) as u64)
    } else {
        None
    }
}

/// More digits never write a smaller number.
proof fn lemma_digits_value_grows(s: Seq<char>, n: int)
    requires
        0 <= n <= s.len(),
        forall|i: int| 0 <= i < s.len() ==> is_digit(s[i]),
    ensures
        digits_value(s.take(n)) <= digits_value(s),
    decreases s.len() - n,
{
    if n == s.len() {
        assert(s.take(n) == s);
    } else {
        lemma_digits_value_grows(s, n + 1);
        assert(s.take(n + 1).drop_last() == s.take(n));
    }
}

/// Reads an unsigned decimal number.
pub fn parse_number(s: &str) -> (r: Option<u64>)
    ensures
        r == number(s@),
{
    let v = chars(s);
    let start: usize = if v.len() > 0 && v[0] == '+' {
        1
    } else {
        0
    };
    let ghost digits = without_plus(s@);
    assert(digits == v@.skip(start as int));
    if v.len() == start {
        return None;
    }
    let mut n: u64 = 0;
    let mut i: usize = start;
    while i < v.len()
        invariant
            start <= i <= v.len(),
            start < v.len(),
            digits == v@.skip(start as int),
            digits == without_plus(s@),
            forall|k: int| 0 <= k < i - start ==> is_digit(digits[k]),
            n == digits_value(digits.take(i - start)),
        decreases v.len() - i,
    {
        let c = v[i];
        assert(digits[i - start] == c);
        let code: u32 = c as u32;
        if code < '0' as u32 || code > '9' as u32 {
            assert(!is_digit(digits[i - start]));
            return None;
        }
        let d: u64 = (code - '0' as u32) as u64;
        assert(digits.take(i - start + 1).drop_last() == digits.take(i - start));
        assert(digits_value(digits.take(i - start + 1)) == n * 10 + d);
        let grown = if n <= (u64::MAX - d) / 10 { Some(n * 10 + d) } else { None };
        match grown {
            Some(m) => {
                n = m;
            },
            None => {
                proof {
                    if forall|k: int| 0 <= k < digits.len() ==> is_digit(digits[k]) {
                        lemma_digits_value_grows(digits, i - start + 1);
                    }
                }
                return None;
            },
        }
        i += 1;
    }
    assert(digits.take(i - start) == digits);
    Some(n)
}

/// The decimal digits of `n`, without leading zeros.
pub open spec fn decimal(n: nat) -> Seq<char>
    decreases n,
{
    if n < 10 {
        seq![('0' as u32 + n) as char]
    } else {
        decimal(n / 10).push(('0' as u32 + n % 10) as char)
    }
}

/// Appends the decimal digits of `n`.
pub fn push_decimal(out: &mut String, n: u64)
    ensures
        final(out)@ == old(out)@ + decimal(n as nat),
    decreases n,
{
    if n >= 10 {
        push_decimal(out, n / 10);
    }
    let d: u8 = (n % 10) as u8;
    out.push((48u8 + d) as char);
}

/// `part` occurs somewhere in `whole`.
pub open spec fn contains_text(whole: Seq<char>, part: Seq<char>) -> bool {
    exists|before: Seq<char>, after: Seq<char>| #[trigger] (before + part + after) == whole
}

/// Every part occurs in the text that joins them.
pub proof fn law_join_contains_every_part(parts: Seq<Seq<char>>, sep: Seq<char>, i: int)
    requires
        0 <= i < parts.len(),
    ensures
        contains_text(join(parts, sep), parts[i]),
    decreases parts.len(),
{
    let part = parts[i];
    let whole = join(parts, sep);
    if parts.len() == 1 {
        assert(Seq::<char>::empty() + part + Seq::<char>::empty() =~= whole);
    } else if i == parts.len() - 1 {
        let before = join(parts.drop_last(), sep) + sep;
        assert(before + part + Seq::<char>::empty() =~= whole);
    } else {
        let rest = join(parts.drop_last(), sep);
        law_join_contains_every_part(parts.drop_last(), sep, i);
        let (before, after) = choose|before: Seq<char>, after: Seq<char>| #[trigger]
            (before + part + after) == rest;
        assert(before + part + (after + sep + parts.last()) =~= whole);
    }
}

proof fn lemma_digits_value_push(s: Seq<char>, c: char)
    ensures
        digits_value(s.push(c)) == digits_value(s) * 10 + (c as u32 - '0' as u32) as nat,
{
    assert(s.push(c).drop_last() =~= s);
}

proof fn lemma_decimal(n: nat)
    ensures
        decimal(n).len() > 0,
        forall|i: int| 0 <= i < decimal(n).len() ==> is_digit(#[trigger] decimal(n)[i]),
        digits_value(decimal(n)) == n,
    decreases n,
{
    let last = ('0' as u32 + n % 10) as char;
    assert(last as u32 == '0' as u32 + n % 10);
    if n < 10 {
        lemma_digits_value_push(Seq::empty(), last);
        assert(decimal(n) =~= Seq::<char>::empty().push(last));
    } else {
        lemma_decimal(n / 10);
        lemma_digits_value_push(decimal(n / 10), last);
    }
}

/// A number that is printed is read back as itself.
pub proof fn law_printed_number_is_read_back(n: u64)
    ensures
        number(decimal(n as nat)) == Some(n),
{
    lemma_decimal(n as nat);
    assert(is_digit(decimal(n as nat)[0]));
    assert(without_plus(decimal(n as nat)) == decimal(n as nat));
}

// ---- what the primitives promise ------------------------------------------

/// The characters of a list of strings are those of each, in its place.
pub proof fn law_views_are_the_strings(v: Seq<String>)
    ensures
        views(v).len() == v.len(),
        forall|i: int| 0 <= i < v.len() ==> #[trigger] views(v)[i] == v[i]@,
{
}

/// Trimming takes white space from the two ends, all of it, and nothing else:
/// what is left is a part of the text with white space before and behind it
/// and none at its own ends.
pub proof fn law_trim_takes_white_space_from_the_ends(s: Seq<char>)
    ensures
        exists|from: int, to: int|
            0 <= from <= to <= s.len() && trim(s) == #[trigger] s.subrange(from, to) && (forall|
                i: int,
            |
                0 <= i < from ==> is_space(#[trigger] s[i])) && (forall|i: int|
                to <= i < s.len() ==> is_space(#[trigger] s[i])) && (from < to ==> !is_space(s[from])
                && !is_space(s[to - 1])),
{
    let from = lemma_trim_start_cut(s);
    let rest = s.skip(from);
    let kept = lemma_trim_end_cut(rest);
    let to = from + kept;
    assert(trim(s) =~= s.subrange(from, to));
    assert forall|i: int| to <= i < s.len() implies is_space(#[trigger] s[i]) by {
        assert(rest[i - from] == s[i]);
    }
    if from < to {
        assert(rest[0] == s[from]);
        assert(rest[kept - 1] == s[to - 1]);
    }
}

proof fn lemma_trim_start_cut(s: Seq<char>) -> (n: int)
    ensures
        0 <= n <= s.len(),
        trim_start(s) == s.skip(n),
        forall|i: int| 0 <= i < n ==> is_space(#[trigger] s[i]),
        n < s.len() ==> !is_space(s[n]),
    decreases s.len(),
{
    if s.len() > 0 && is_space(s[0]) {
        let rest = s.drop_first();
        let n = lemma_trim_start_cut(rest);
        assert(rest.skip(n) =~= s.skip(n + 1));
        assert forall|i: int| 0 <= i < n + 1 implies is_space(#[trigger] s[i]) by {
            if i > 0 {
                assert(rest[i - 1] == s[i]);
            }
        }
        if n < rest.len() {
            assert(rest[n] == s[n + 1]);
        }
        n + 1
    } else {
        assert(s.skip(0) =~= s);
        0
    }
}

proof fn lemma_trim_end_cut(s: Seq<char>) -> (n: int)
    ensures
        0 <= n <= s.len(),
        trim_end(s) == s.take(n),
        forall|i: int| n <= i < s.len() ==> is_space(#[trigger] s[i]),
        n > 0 ==> !is_space(s[n - 1]),
    decreases s.len(),
{
    if s.len() > 0 && is_space(s.last()) {
        let rest = s.drop_last();
        let n = lemma_trim_end_cut(rest);
        assert(rest.take(n) =~= s.take(n));
        assert forall|i: int| n <= i < s.len() implies is_space(#[trigger] s[i]) by {
            if i < rest.len() {
                assert(rest[i] == s[i]);
            }
        }
        n
    } else {
        assert(s.take(s.len() as int) =~= s);
        s.len() as int
    }
}

/// White space around a text without white space at its ends is trimmed, and
/// the text is left.
pub proof fn law_trimmed_text_is_left(before: Seq<char>, s: Seq<char>, behind: Seq<char>)
    requires
        forall|i: int| 0 <= i < before.len() ==> is_space(#[trigger] before[i]),
        forall|i: int| 0 <= i < behind.len() ==> is_space(#[trigger] behind[i]),
        s.len() > 0 && !is_space(s[0]) && !is_space(s.last()),
    ensures
        trim(before + s + behind) == s,
    decreases before.len() + behind.len(),
{
    let whole = before + s + behind;
    if before.len() > 0 {
        let rest = before.drop_first();
        assert forall|i: int| 0 <= i < rest.len() implies is_space(#[trigger] rest[i]) by {
            assert(rest[i] == before[i + 1]);
        }
        law_trimmed_text_is_left(rest, s, behind);
        assert(whole[0] == before[0]);
        assert(whole.drop_first() =~= rest + s + behind);
    } else if behind.len() > 0 {
        let rest = behind.drop_last();
        assert forall|i: int| 0 <= i < rest.len() implies is_space(#[trigger] rest[i]) by {
            assert(rest[i] == behind[i]);
        }
        law_trimmed_text_is_left(before, s, rest);
        assert(whole[0] == s[0]);
        assert(whole.last() == behind.last());
        assert(is_space(behind[behind.len() - 1]));
        assert(whole.drop_last() =~= before + s + rest);
        assert((before + s + rest)[0] == s[0]);
    } else {
        assert(whole =~= s);
    }
}

proof fn lemma_leading_copies(s: Seq<char>, c: char) -> (n: int)
    ensures
        0 <= n <= s.len(),
        trim_start_char(s, c) == s.skip(n),
        forall|i: int| 0 <= i < n ==> #[trigger] s[i] == c,
        n < s.len() ==> s[n] != c,
    decreases s.len(),
{
    if s.len() > 0 && s[0] == c {
        let rest = s.drop_first();
        let n = lemma_leading_copies(rest, c);
        assert(rest.skip(n) =~= s.skip(n + 1));
        assert forall|i: int| 0 <= i < n + 1 implies #[trigger] s[i] == c by {
            if i > 0 {
                assert(rest[i - 1] == s[i]);
            }
        }
        if n < rest.len() {
            assert(rest[n] == s[n + 1]);
        }
        n + 1
    } else {
        assert(s.skip(0) =~= s);
        0
    }
}

proof fn lemma_trailing_copies(s: Seq<char>, c: char) -> (n: int)
    ensures
        0 <= n <= s.len(),
        trim_end_char(s, c) == s.take(n),
        forall|i: int| n <= i < s.len() ==> #[trigger] s[i] == c,
        n > 0 ==> s[n - 1] != c,
    decreases s.len(),
{
    if s.len() > 0 && s.last() == c {
        let rest = s.drop_last();
        let n = lemma_trailing_copies(rest, c);
        assert(rest.take(n) =~= s.take(n));
        assert forall|i: int| n <= i < s.len() implies #[trigger] s[i] == c by {
            if i < rest.len() {
                assert(rest[i] == s[i]);
            }
        }
        n
    } else {
        assert(s.take(s.len() as int) =~= s);
        s.len() as int
    }
}

/// Taking a character from one end takes every copy of it there and nothing
/// else.
pub proof fn law_copies_are_taken_from_one_end(s: Seq<char>, c: char)
    ensures
        exists|n: int|
            0 <= n <= s.len() && trim_start_char(s, c) == #[trigger] s.skip(n) && (forall|i: int|
                0 <= i < n ==> #[trigger] s[i] == c) && (n < s.len() ==> s[n] != c),
        exists|n: int|
            0 <= n <= s.len() && trim_end_char(s, c) == #[trigger] s.take(n) && (forall|i: int|
                n <= i < s.len() ==> #[trigger] s[i] == c) && (n > 0 ==> s[n - 1] != c),
{
    let from = lemma_leading_copies(s, c);
    let to = lemma_trailing_copies(s, c);
    assert(trim_start_char(s, c) == s.skip(from));
    assert(trim_end_char(s, c) == s.take(to));
}

/// The parts are joined in order: one part is itself, and each further one
/// comes behind a separator.
pub proof fn law_join_grows_by_separator_and_part(
    parts: Seq<Seq<char>>,
    part: Seq<char>,
    sep: Seq<char>,
)
    ensures
        join(seq![part], sep) == part,
        parts.len() > 0 ==> join(parts.push(part), sep) == join(parts, sep) + sep + part,
        join(Seq::empty(), sep) == Seq::<char>::empty(),
{
    assert(parts.push(part).drop_last() =~= parts);
}

/// Splitting loses nothing: the pieces hold no separator, and joined by it
/// they give the text back.
pub proof fn law_pieces_join_to_the_text(s: Seq<char>, sep: char)
    ensures
        split(s, sep).len() > 0,
        join(split(s, sep), seq![sep]) == s,
        forall|i: int|
            0 <= i < split(s, sep).len() ==> !(#[trigger] split(s, sep)[i]).contains(sep),
    decreases s.len(),
{
    if s.len() == 0 {
        assert(s =~= Seq::empty());
    } else {
        let rest = s.drop_last();
        let before = split(rest, sep);
        law_pieces_join_to_the_text(rest, sep);
        let first = before.drop_last();
        assert(before =~= first.push(before.last()));
        assert(s =~= rest.push(s.last()));
        if s.last() == sep {
            law_join_grows_by_separator_and_part(before, Seq::empty(), seq![sep]);
            assert(join(before, seq![sep]) + seq![sep] + Seq::<char>::empty() =~= s);
        } else {
            let grown = before.last().push(s.last());
            law_join_grows_by_separator_and_part(first, grown, seq![sep]);
            law_join_grows_by_separator_and_part(first, before.last(), seq![sep]);
            if first.len() == 0 {
                assert(first.push(grown) =~= seq![grown]);
                assert(before =~= seq![before.last()]);
            } else {
                assert(join(first, seq![sep]) + seq![sep] + grown =~= (join(first, seq![sep])
                    + seq![sep] + before.last()).push(s.last()));
            }
            assert forall|i: int| 0 <= i < split(s, sep).len() implies !(#[trigger] split(
                s,
                sep,
            )[i]).contains(sep) by {
                if i < first.len() {
                    assert(split(s, sep)[i] == before[i]);
                } else {
                    assert(!before[before.len() - 1].contains(sep));
                    if grown.contains(sep) {
                        let k = choose|k: int| 0 <= k < grown.len() && grown[k] == sep;
                        assert(before.last()[k] == sep);
                    }
                }
            }
        }
    }
}

/// The items of a list are found piece by piece: each separator ends an item,
/// and an item is the trimmed text between two separators, unless that is
/// blank.
pub proof fn law_items_are_the_trimmed_pieces(a: Seq<char>, piece: Seq<char>, sep: char)
    requires
        !piece.contains(sep),
    ensures
        fields(a + seq![sep] + piece, sep) == (if trim(piece).len() > 0 {
            fields(a, sep).push(trim(piece))
        } else {
            fields(a, sep)
        }),
        fields(piece, sep) == (if trim(piece).len() > 0 {
            seq![trim(piece)]
        } else {
            Seq::empty()
        }),
{
    let empty = Seq::<char>::empty();
    assert(trim(empty) == empty);
    assert forall|i: int| 0 <= i < piece.len() implies piece[i] != sep by {
        assert(piece.contains(piece[i]));
    }
    lemma_split_without(piece, sep);
    lemma_nonblank_push(Seq::empty(), piece);
    assert(Seq::<Seq<char>>::empty().push(piece) =~= seq![piece]);
    assert(nonblank(Seq::<Seq<char>>::empty()) =~= Seq::empty());
    assert(Seq::<Seq<char>>::empty().push(trim(piece)) =~= seq![trim(piece)]);
    let ended = a.push(sep);
    assert(a + seq![sep] =~= ended);
    assert(ended.drop_last() =~= a);
    lemma_fields_push_separator(a, sep);
    lemma_fields_add(ended, piece, sep);
    assert(fields(a, sep) + seq![trim(piece)] =~= fields(a, sep).push(trim(piece)));
    assert(fields(a, sep) + Seq::<Seq<char>>::empty() =~= fields(a, sep));
}

/// The decimal digits of a number, digit by digit: a number below ten is its
/// one digit, and a further digit multiplies by ten.
pub proof fn law_decimal_digit_by_digit(n: nat, d: nat)
    requires
        d < 10,
    ensures
        decimal(d) == seq![(0x30 + d) as char],
        n > 0 ==> decimal(10 * n + d) == decimal(n).push((0x30 + d) as char),
        forall|i: int| 0 <= i < decimal(n).len() ==> is_digit(#[trigger] decimal(n)[i]),
        n > 0 ==> decimal(n)[0] != '0',
        decimal(n).len() > 0,
    decreases n,
{
    lemma_decimal(n);
    if n > 0 {
        assert((10 * n + d) / 10 == n);
        assert((10 * n + d) % 10 == d);
        if n >= 10 {
            law_decimal_digit_by_digit(n / 10, d);
            assert(decimal(n)[0] == decimal(n / 10)[0]);
        }
    }
}

proof fn lemma_leading_zero(s: Seq<char>)
    ensures
        digits_value(seq!['0'] + s) == digits_value(s),
    decreases s.len(),
{
    let whole = seq!['0'] + s;
    if s.len() == 0 {
        assert(whole.drop_last() =~= Seq::empty());
        assert(whole.last() == '0');
        assert(digits_value(Seq::<char>::empty()) == 0);
    } else {
        lemma_leading_zero(s.drop_last());
        assert(whole.drop_last() =~= seq!['0'] + s.drop_last());
    }
}

/// Which texts are numbers: the digits of a number that 64 bits hold are that
/// number, a larger one is none, and leading zeros and one plus sign do not
/// matter.
pub proof fn law_numbers_are_read_as_written(n: nat, digits: Seq<char>)
    requires
        digits.len() > 0,
        forall|i: int| 0 <= i < digits.len() ==> is_digit(#[trigger] digits[i]),
    ensures
        n <= u64::MAX ==> number(decimal(n)) == Some(n as u64),
        n > u64::MAX ==> number(decimal(n)) is None,
        number(seq!['0'] + digits) == number(digits),
        number(seq!['+'] + digits) == number(digits),
{
    lemma_decimal(n);
    assert(is_digit(decimal(n)[0]));
    assert(without_plus(decimal(n)) == decimal(n));
    assert(is_digit(digits[0]));
    assert(without_plus(digits) == digits);
    let zero = seq!['0'] + digits;
    assert(without_plus(zero) == zero);
    lemma_leading_zero(digits);
    assert forall|i: int| 0 <= i < zero.len() implies is_digit(zero[i]) by {
        if i > 0 {
            assert(zero[i] == digits[i - 1]);
        }
    }
    let plus = seq!['+'] + digits;
    assert(plus.drop_first() =~= digits);
}

/// A text that holds anything but digits behind an optional plus sign is no
/// number, and neither is one without a digit.
pub proof fn law_other_texts_are_no_numbers(s: Seq<char>, i: int)
    requires
        0 <= i < s.len(),
        !is_digit(s[i]),
        i > 0 || s[0] != '+',
    ensures
        number(s) is None,
        number(Seq::empty()) is None,
        number(seq!['+']) is None,
{
    assert(seq!['+'].drop_first() =~= Seq::<char>::empty());
    let digits = without_plus(s);
    if s[0] == '+' {
        assert(digits[i - 1] == s[i]);
    } else {
        assert(digits[i] == s[i]);
    }
}

/// The digits are the ten characters from `0` to `9`.
pub proof fn law_digits_are_zero_to_nine(c: char)
    ensures
        is_digit(c) <==> 0x30 <= c as u32 <= 0x39,
{
}

}
