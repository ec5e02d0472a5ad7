//! Text as the protocol uses it: splitting, lines, decimal numbers.
use vstd::prelude::*;

verus! {

/// `String::push` of the standard library appends one character to the text.
pub assume_specification[ String::push ](s: &mut String, c: char)
    ensures
        final(s)@ == old(s)@.push(c),
;

/// The texts that a sequence of strings holds.
pub open spec fn texts(v: Seq<String>) -> Seq<Seq<char>> {
    v.map_values(|s: String| s@)
}

/// The text that an optional string holds.
pub open spec fn opt_text(s: Option<String>) -> Option<Seq<char>> {
    match s {
        Some(t) => Some(t@),
        None => None,
    }
}

/// The text that an optional borrowed string holds.
pub open spec fn opt_str(s: Option<&str>) -> Option<Seq<char>> {
    match s {
        Some(t) => Some(t@),
        None => None,
    }
}

/// The pieces of `s` between the separators: one more than there are separators, some of them
/// perhaps empty.
pub open spec fn split_seq(s: Seq<char>, sep: char) -> Seq<Seq<char>>
    decreases s.len(),
{
    if s.len() == 0 {
        seq![Seq::empty()]
    } else {
        let before = split_seq(s.drop_last(), sep);
        if s.last() == sep {
            before.push(Seq::empty())
        } else {
            before.drop_last().push(before.last().push(s.last()))
        }
    }
}

/// As `split_seq`, but with at most `limit` pieces: the last one holds the rest, separators
/// included.
pub open spec fn splitn_seq(s: Seq<char>, sep: char, limit: nat) -> Seq<Seq<char>>
    decreases s.len(),
{
    if s.len() == 0 {
        seq![Seq::empty()]
    } else {
        let before = splitn_seq(s.drop_last(), sep, limit);
        if s.last() == sep && before.len() < limit {
            before.push(Seq::empty())
        } else {
            before.drop_last().push(before.last().push(s.last()))
        }
    }
}

/// The pieces put together again, with `sep` between them.
pub open spec fn join_seq(parts: Seq<Seq<char>>, sep: Seq<char>) -> Seq<char>
    decreases parts.len(),
{
    if parts.len() == 0 {
        Seq::empty()
    } else if parts.len() == 1 {
        parts[0]
    } else {
        join_seq(parts.drop_last(), sep) + sep + parts.last()
    }
}

/// A line without the carriage return that belongs to its line ending.
pub open spec fn strip_cr(line: Seq<char>) -> Seq<char> {
    if line.len() > 0 && line.last() == '\r' {
        line.drop_last()
    } else {
        line
    }
}

/// The lines of a text. A line ends with a line feed, or a carriage return and a line feed; the
/// ending of the last line may be missing.
pub open spec fn lines_seq(s: Seq<char>) -> Seq<Seq<char>> {
    let parts = split_seq(s, '\n');
    let ended = parts.drop_last().map_values(|line: Seq<char>| strip_cr(line));
    if parts.last().len() == 0 {
        ended
    } else {
        ended.push(parts.last())
    }
}

pub proof fn lemma_split_nonempty(s: Seq<char>, sep: char)
    ensures
        1 <= split_seq(s, sep).len() <= s.len() + 1,
    decreases s.len(),
{
    if s.len() > 0 {
        lemma_split_nonempty(s.drop_last(), sep);
    }
}

pub proof fn lemma_splitn_nonempty(s: Seq<char>, sep: char, limit: nat)
    ensures
        1 <= splitn_seq(s, sep, limit).len() <= s.len() + 1,
        limit >= 1 ==> splitn_seq(s, sep, limit).len() <= limit,
    decreases s.len(),
{
    if s.len() > 0 {
        lemma_splitn_nonempty(s.drop_last(), sep, limit);
    }
}

/// The characters of a text, in order.
pub fn chars_of(s: &str) -> (r: Vec<char>)
    ensures
        r@ == s@,
{
    let mut v: Vec<char> = Vec::new();
    for c in it: s.chars()
        invariant
            v@ == it.seq().take(it.index() as int),
            it.seq() == s@,
    {
        v.push(c);
    }
    v
}

/// The text of the characters `from..to`.
pub fn string_of(v: &Vec<char>, from: usize, to: usize) -> (r: String)
    requires
        from <= to <= v@.len(),
    ensures
        r@ == v@.subrange(from as int, to as int),
{
    let mut s = String::new();
    for i in from..to
        invariant
            to <= v@.len(),
            s@ == v@.subrange(from as int, i as int),
    {
        s.push(v[i]);
        assert(v@.subrange(from as int, i + 1) =~= v@.subrange(from as int, i as int).push(v@[i as int]));
    }
    s
}

/// Whether two texts are the same.
pub fn same_text(a: &str, b: &str) -> (r: bool)
    ensures
        r == (a@ == b@),
{
    a.to_owned() == b.to_owned()
}

/// Whether `s` begins with `prefix`.
pub fn starts_with(s: &str, prefix: &str) -> (r: bool)
    ensures
        r == prefix@.is_prefix_of(s@),
{
    let a = chars_of(s);
    let b = chars_of(prefix);
    if b.len() > a.len() {
        return false;
    }
    for i in 0..b.len()
        invariant
            b@.len() <= a@.len(),
            b@ == prefix@,
            a@ == s@,
            forall|j: int| 0 <= j < i ==> a@[j] == b@[j],
    {
        if a[i] != b[i] {
            assert(s@.subrange(0, prefix@.len() as int)[i as int] != prefix@[i as int]);
            return false;
        }
    }
    assert(s@.subrange(0, prefix@.len() as int) =~= prefix@);
    true
}

/// The pieces of `s` between the separators.
pub fn split(s: &str, sep: char) -> (r: Vec<String>)
    ensures
        texts(r@) == split_seq(s@, sep),
{
    let mut parts: Vec<String> = Vec::new();
    let mut current = String::new();
    for c in it: s.chars()
        invariant
            it.seq() == s@,
            texts(parts@).push(current@) == split_seq(it.seq().take(it.index() as int), sep),
    {
        let ghost before = texts(parts@).push(current@);
        let ghost i = it.index() as int;
        assert(s@.take(i + 1).drop_last() =~= s@.take(i));
        if c == sep {
            let ghost done = parts@;
            parts.push(current);
            assert(texts(parts@) =~= texts(done).push(current@));
            current = String::new();
        } else {
            current.push(c);
            assert(before.drop_last() =~= texts(parts@));
        }
    }
    assert(s@.take(s@.len() as int) =~= s@);
    let ghost done = parts@;
    parts.push(current);
    assert(texts(parts@) =~= texts(done).push(current@));
    parts
}

/// The pieces of `s`, at most `limit` of them.
pub fn splitn(s: &str, sep: char, limit: usize) -> (r: Vec<String>)
    requires
        limit >= 1,
    ensures
        texts(r@) == splitn_seq(s@, sep, limit as nat),
{
    let mut parts: Vec<String> = Vec::new();
    let mut current = String::new();
    for c in it: s.chars()
        invariant
            limit >= 1,
            it.seq() == s@,
            texts(parts@).push(current@) == splitn_seq(it.seq().take(it.index() as int), sep, limit as nat),
            parts@.len() < limit,
    {
        let ghost before = texts(parts@).push(current@);
        let ghost i = it.index() as int;
        assert(s@.take(i + 1).drop_last() =~= s@.take(i));
        if c == sep && parts.len() < limit - 1 {
            let ghost done = parts@;
            parts.push(current);
            assert(texts(parts@) =~= texts(done).push(current@));
            current = String::new();
        } else {
            current.push(c);
            assert(before.drop_last() =~= texts(parts@));
        }
    }
    assert(s@.take(s@.len() as int) =~= s@);
    let ghost done = parts@;
    parts.push(current);
    assert(texts(parts@) =~= texts(done).push(current@));
    parts
}

/// The lines of a text.
pub fn lines(s: &str) -> (r: Vec<String>)
    ensures
        texts(r@) == lines_seq(s@),
{
    let mut parts = split(s, '\n');
    let ghost all = split_seq(s@, '\n');
    proof {
        lemma_split_nonempty(s@, '\n');
        assert(texts(parts@).len() == parts@.len());
    }
    let mut out: Vec<String> = Vec::new();
    let n = parts.len();
    for i in 0..n - 1
        invariant
            n == parts@.len(),
            n >= 1,
            texts(parts@) == all,
            texts(out@) == all.take(i as int).map_values(|line: Seq<char>| strip_cr(line)),
    {
        let chars = chars_of(parts[i].as_str());
        assert(parts@[i as int]@ == texts(parts@)[i as int]);
        let ghost done = out@;
        let line = if chars.len() > 0 && chars[chars.len() - 1] == '\r' {
            assert(chars@.subrange(0, chars@.len() - 1) =~= chars@.drop_last());
            string_of(&chars, 0, chars.len() - 1)
        } else {
            assert(chars@.subrange(0, chars@.len() as int) =~= chars@);
            string_of(&chars, 0, chars.len())
        };
        assert(line@ == strip_cr(all[i as int]));
        out.push(line);
        assert(texts(out@) =~= texts(done).push(line@));
        assert(all.take(i + 1) =~= all.take(i as int).push(all[i as int]));
        assert(all.take(i + 1).map_values(|line: Seq<char>| strip_cr(line)) =~= all.take(
            i as int,
        ).map_values(|line: Seq<char>| strip_cr(line)).push(strip_cr(all[i as int])));
    }
    assert(all.take(n - 1) =~= all.drop_last());
    let ghost ended = texts(out@);
    assert(parts@[n - 1]@ == texts(parts@)[n - 1]);
    let last = parts.remove(n - 1);
    if !last.as_str().is_empty() {
        let ghost done = out@;
        out.push(last);
        assert(texts(out@) =~= texts(done).push(last@));
    }
    out
}

/// The pieces put together, with `sep` between them.
pub fn join(parts: &Vec<String>, sep: &str) -> (r: String)
    ensures
        r@ == join_seq(texts(parts@), sep@),
{
    let mut out = String::new();
    let ghost all = texts(parts@);
    for i in 0..parts.len()
        invariant
            all == texts(parts@),
            out@ == join_seq(all.take(i as int), sep@),
    {
        if i > 0 {
            out.append(sep);
        }
        assert(parts@[i as int]@ == all[i as int]);
        out.append(parts[i].as_str());
        assert(all.take(i + 1).drop_last() =~= all.take(i as int));
        if i == 0 {
            assert(all.take(0) =~= Seq::empty());
            assert(out@ =~= all[0]);
        }
    }
    assert(all.take(parts@.len() as int) =~= all);
    out
}

/// The value of a decimal digit.
pub open spec fn digit_value(c: char) -> Option<nat> {
    if '0' <= c <= '9' {
        Some((c as int - '0' as int) as nat)
    } else {
        None
    }
}

/// The number that a row of decimal digits stands for, `None` if something else is among them.
pub open spec fn digits_value(s: Seq<char>) -> Option<nat>
    decreases s.len(),
{
    if s.len() == 0 {
        Some(0)
    } else {
        match (digits_value(s.drop_last()), digit_value(s.last())) {
            (Some(high), Some(low)) => Some(high * 10 + low),
            _ => None,
        }
    }
}

/// The number that a text stands for: an optional plus sign and at least one digit, no larger than
/// `max`.
pub open spec fn parse_unsigned(s: Seq<char>, max: nat) -> Option<nat> {
    let digits = if s.len() > 1 && s[0] == '+' {
        s.drop_first()
    } else {
        s
    };
    match digits_value(digits) {
        Some(v) if digits.len() > 0 && v <= max => Some(v),
        _ => None,
    }
}

/// The number that a text stands for: an optional sign and at least one digit, between `min` and
/// `max`.
pub open spec fn parse_signed(s: Seq<char>, min: int, max: int) -> Option<int> {
    let signed = s.len() > 1 && (s[0] == '+' || s[0] == '-');
    let digits = if signed {
        s.drop_first()
    } else {
        s
    };
    match digits_value(digits) {
        Some(v) if digits.len() > 0 => {
            let value = if signed && s[0] == '-' {
                -(v as int)
            } else {
                v as int
            };
            if min <= value <= max {
                Some(value)
            } else {
                None
            }
        },
        _ => None,
    }
}

/// The decimal digits of a number, without leading zeros.
pub open spec fn decimal(n: nat) -> Seq<char>
    decreases n,
{
    if n < 10 {
        seq![digit_char(n)]
    } else {
        decimal(n / 10).push(digit_char(n % 10))
    }
}

/// The character of a digit below ten.
pub open spec fn digit_char(d: nat) -> char {
    ('0' as int + d) as char
}

/// As `decimal`, with a minus sign before a negative number.
pub open spec fn decimal_int(n: int) -> Seq<char> {
    if n < 0 {
        seq!['-'] + decimal((-n) as nat)
    } else {
        decimal(n as nat)
    }
}

proof fn lemma_digits_prefix(s: Seq<char>, i: int)
    requires
        0 <= i <= s.len(),
    ensures
        digits_value(s) matches Some(v) ==> (digits_value(s.take(i)) matches Some(u) && u <= v),
    decreases s.len(),
{
    if i < s.len() {
        assert(s.drop_last().take(i) =~= s.take(i));
        lemma_digits_prefix(s.drop_last(), i);
    } else {
        assert(s.take(i) =~= s);
    }
}

/// The digits of a number stand for that number.
pub proof fn lemma_digits_of_decimal(n: nat)
    ensures
        digits_value(decimal(n)) == Some(n),
        decimal(n).len() >= 1,
        forall|i: int| 0 <= i < decimal(n).len() ==> '0' <= #[trigger] decimal(n)[i] <= '9',
    decreases n,
{
    if n < 10 {
        assert(decimal(n).drop_last() =~= Seq::empty());
        assert(digits_value(Seq::<char>::empty()) == Some(0nat));
    } else {
        lemma_digits_of_decimal(n / 10);
        assert(decimal(n).drop_last() =~= decimal(n / 10));
    }
}

/// Reading a number back from its digits gives that number.
pub proof fn lemma_parse_decimal(n: nat, max: nat)
    requires
        n <= max,
    ensures
        parse_unsigned(decimal(n), max) == Some(n),
{
    lemma_digits_of_decimal(n);
}

/// Reading an integer back from its text gives that integer.
pub proof fn lemma_parse_decimal_int(n: int, min: int, max: int)
    requires
        min <= n <= max,
    ensures
        parse_signed(decimal_int(n), min, max) == Some(n),
{
    if n < 0 {
        lemma_digits_of_decimal((-n) as nat);
        assert(decimal_int(n).drop_first() =~= decimal((-n) as nat));
    } else {
        lemma_digits_of_decimal(n as nat);
    }
}

/// The number that the digits `from..` stand for, if it is no larger than `max`.
fn digits_to_u64(chars: &Vec<char>, from: usize, max: u64) -> (r: Option<u64>)
    requires
        from <= chars@.len(),
    ensures
        match r {
            Some(v) => digits_value(chars@.skip(from as int)) == Some(v as nat) && v <= max,
            None => digits_value(chars@.skip(from as int)) is None || digits_value(
                chars@.skip(from as int),
            ).unwrap() > max,
        },
{
    let mut value: u64 = 0;
    let ghost digits = chars@.skip(from as int);
    for i in from..chars.len()
        invariant
            from <= chars@.len(),
            digits == chars@.skip(from as int),
            digits_value(digits.take(i - from)) == Some(value as nat),
            value <= max,
    {
        let c = chars[i];
        let ghost k = i - from;
        assert(digits.take(k + 1).drop_last() =~= digits.take(k));
        assert(digits.take(k + 1).last() == c);
        proof {
            lemma_digits_prefix(digits, k + 1);
        }
        if c < '0' || '9' < c {
            return None;
        }
        let d: u64 = (c as u32 - 48) as u64;
        let next: u128 = value as u128 * 10 + d as u128;
        if next > max as u128 {
            return None;
        }
        value = next as u64;
    }
    assert(digits.take(digits.len() as int) =~= digits);
    Some(value)
}

/// Reads an unsigned number no larger than `max`.
pub fn parse_u64(s: &str, max: u64) -> (r: Option<u64>)
    ensures
        match r {
            Some(v) => parse_unsigned(s@, max as nat) == Some(v as nat) && v <= max,
            None => parse_unsigned(s@, max as nat) is None,
        },
{
    let chars = chars_of(s);
    assert(chars@.skip(0) =~= chars@);
    assert(chars@.len() > 0 ==> chars@.skip(1) =~= chars@.drop_first());
    let from: usize = if chars.len() > 1 && chars[0] == '+' { 1 } else { 0 };
    if chars.len() == 0 {
        return None;
    }
    digits_to_u64(&chars, from, max)
}

/// Reads a number between `min` and `max`.
pub fn parse_i64(s: &str, min: i64, max: i64) -> (r: Option<i64>)
    ensures
        match r {
            Some(v) => parse_signed(s@, min as int, max as int) == Some(v as int) && min <= v <= max,
            None => parse_signed(s@, min as int, max as int) is None,
        },
{
    let chars = chars_of(s);
    assert(chars@.skip(0) =~= chars@);
    assert(chars@.len() > 0 ==> chars@.skip(1) =~= chars@.drop_first());
    if chars.len() == 0 {
        return None;
    }
    let signed = chars.len() > 1 && (chars[0] == '+' || chars[0] == '-');
    let from: usize = if signed { 1 } else { 0 };
    match digits_to_u64(&chars, from, u64::MAX) {
        Some(v) => {
            let value: i128 = if signed && chars[0] == '-' { -(v as i128) } else { v as i128 };
            if min as i128 <= value && value <= max as i128 {
                Some(value as i64)
            } else {
                None
            }
        },
        None => None,
    }
}

/// Appends the decimal digits of a number.
pub fn push_u64(out: &mut String, n: u64)
    ensures
        final(out)@ == old(out)@ + decimal(n as nat),
    decreases n,
{
    if n >= 10 {
        push_u64(out, n / 10);
    }
    let d: u8 = (n % 10) as u8;
    let c: char = (48u8 + d) as char;
    out.push(c);
    assert(c == digit_char((n % 10) as nat));
    assert(out@ =~= old(out)@ + decimal(n as nat));
}

/// Appends an integer.
pub fn push_i64(out: &mut String, n: i64)
    ensures
        final(out)@ == old(out)@ + decimal_int(n as int),
{
    if n < 0 {
        let ghost before = out@;
        out.push('-');
        let m: u64 = (-(n as i128)) as u64;
        push_u64(out, m);
        assert(out@ =~= before + (seq!['-'] + decimal(m as nat)));
    } else {
        push_u64(out, n as u64);
    }
}

/// The decimal digits of a number.
pub fn u64_text(n: u64) -> (r: String)
    ensures
        r@ == decimal(n as nat),
{
    let mut out = String::new();
    push_u64(&mut out, n);
    assert(out@ =~= decimal(n as nat));
    out
}

/// The text of an integer.
pub fn i64_text(n: i64) -> (r: String)
    ensures
        r@ == decimal_int(n as int),
{
    let mut out = String::new();
    push_i64(&mut out, n);
    assert(out@ =~= decimal_int(n as int));
    out
}

/// A text filled up with spaces at its end.
pub open spec fn padded(s: Seq<char>, width: nat) -> Seq<char> {
    if s.len() >= width {
        s
    } else {
        s + Seq::new((width - s.len()) as nat, |i: int| ' ')
    }
}

/// Appends a text, filled up with spaces at its end.
pub fn push_padded(out: &mut String, s: &str, width: usize)
    ensures
        final(out)@ == old(out)@ + padded(s@, width as nat),
{
    let ghost before = out@;
    let chars = chars_of(s);
    out.append(s);
    let start: usize = chars.len();
    if start >= width {
        return;
    }
    let mut n: usize = start;
    while n < width
        invariant
            start <= n <= width,
            start == s@.len(),
            out@ == before + s@ + Seq::new((n - start) as nat, |i: int| ' '),
        decreases width - n,
    {
        out.push(' ');
        n = n + 1;
        assert(out@ =~= before + s@ + Seq::new((n - start) as nat, |i: int| ' '));
    }
    assert(out@ =~= before + padded(s@, width as nat));
}

/// An ASCII capital letter as its small letter, any other character as it is.
pub open spec fn ascii_lower(c: char) -> char {
    if 'A' <= c <= 'Z' {
        (c as int + 32) as char
    } else {
        c
    }
}

/// A text with its ASCII capital letters made small.
pub open spec fn ascii_lower_seq(s: Seq<char>) -> Seq<char> {
    s.map_values(|c: char| ascii_lower(c))
}

fn lower_char(c: char) -> (r: char)
    ensures
        r == ascii_lower(c),
{
    if 'A' <= c && c <= 'Z' {
        (c as u8 + 32) as char
    } else {
        c
    }
}

/// Whether two texts are the same but for the case of ASCII letters.
pub fn eq_ignore_ascii_case(a: &str, b: &str) -> (r: bool)
    ensures
        r == (ascii_lower_seq(a@) == ascii_lower_seq(b@)),
{
    let x = chars_of(a);
    let y = chars_of(b);
    if x.len() != y.len() {
        assert(ascii_lower_seq(a@).len() != ascii_lower_seq(b@).len());
        return false;
    }
    for i in 0..x.len()
        invariant
            x@ == a@,
            y@ == b@,
            x@.len() == y@.len(),
            forall|j: int| 0 <= j < i ==> ascii_lower(#[trigger] x@[j]) == ascii_lower(y@[j]),
    {
        if lower_char(x[i]) != lower_char(y[i]) {
            assert(ascii_lower_seq(a@)[i as int] != ascii_lower_seq(b@)[i as int]);
            return false;
        }
    }
    assert(ascii_lower_seq(a@) =~= ascii_lower_seq(b@));
    true
}

/// No piece of a split holds the separator.
pub proof fn split_pieces_hold_no_separator(s: Seq<char>, sep: char)
    ensures
        forall|i: int| 0 <= i < split_seq(s, sep).len() ==> !(#[trigger] split_seq(s, sep)[i]).contains(sep),
    decreases s.len(),
{
    lemma_split_nonempty(s, sep);
    if s.len() > 0 {
        let before = split_seq(s.drop_last(), sep);
        split_pieces_hold_no_separator(s.drop_last(), sep);
        lemma_split_nonempty(s.drop_last(), sep);
        assert forall|i: int| 0 <= i < split_seq(s, sep).len() implies !(#[trigger] split_seq(
            s,
            sep,
        )[i]).contains(sep) by {
            if s.last() != sep && i == before.len() - 1 {
                let piece = split_seq(s, sep)[i];
                assert(!before.last().contains(sep));
                if piece.contains(sep) {
                    let k = piece.index_of(sep);
                    assert(before.last()[k] == sep);
                }
            } else if i < before.len() {
                assert(split_seq(s, sep)[i] == before[i]);
            }
        }
    }
}

/// Putting the pieces of a split together again gives the text that was split.
pub proof fn join_of_split(s: Seq<char>, sep: char)
    ensures
        join_seq(split_seq(s, sep), seq![sep]) == s,
    decreases s.len(),
{
    lemma_split_nonempty(s, sep);
    if s.len() == 0 {
        assert(join_seq(split_seq(s, sep), seq![sep]) =~= s);
    } else {
        let before = split_seq(s.drop_last(), sep);
        let all = split_seq(s, sep);
        join_of_split(s.drop_last(), sep);
        lemma_split_nonempty(s.drop_last(), sep);
        assert(s =~= s.drop_last().push(s.last()));
        if s.last() == sep {
            assert(all.drop_last() =~= before);
            assert(join_seq(all, seq![sep]) =~= s.drop_last() + seq![sep] + Seq::empty());
            assert(join_seq(all, seq![sep]) =~= s);
        } else {
            assert(all.drop_last() =~= before.drop_last());
            if before.len() == 1 {
                assert(all =~= seq![before[0].push(s.last())]);
                assert(join_seq(all, seq![sep]) =~= s);
            } else {
                assert(join_seq(all, seq![sep]) =~= join_seq(before.drop_last(), seq![sep])
                    + seq![sep] + before.last().push(s.last()));
                assert(join_seq(all, seq![sep]) =~= s);
            }
        }
    }
}

proof fn lemma_split_append(s: Seq<char>, piece: Seq<char>, sep: char)
    requires
        !piece.contains(sep),
    ensures
        split_seq(s + piece, sep) == split_seq(s, sep).drop_last().push(split_seq(s, sep).last() + piece),
    decreases piece.len(),
{
    lemma_split_nonempty(s, sep);
    if piece.len() == 0 {
        assert(s + piece =~= s);
        assert(split_seq(s, sep).last() + piece =~= split_seq(s, sep).last());
        assert(split_seq(s, sep) =~= split_seq(s, sep).drop_last().push(split_seq(s, sep).last()));
    } else {
        let short = piece.drop_last();
        assert forall|i: int| 0 <= i < short.len() implies short[i] != sep by {
            assert(piece[i] != sep) by {
                if piece[i] == sep {
                    assert(piece.contains(sep));
                }
            }
        }
        lemma_split_append(s, short, sep);
        assert((s + piece).drop_last() =~= s + short);
        assert((s + piece).last() == piece.last());
        assert(piece.last() != sep) by {
            if piece.last() == sep {
                assert(piece.contains(sep));
            }
        }
        let before = split_seq(s + short, sep);
        assert(before.last() == split_seq(s, sep).last() + short);
        assert((split_seq(s, sep).last() + short).push(piece.last()) =~= split_seq(s, sep).last() + piece);
        assert(before.drop_last() =~= split_seq(s, sep).drop_last());
    }
}

/// Splitting what was put together from pieces without the separator gives those pieces.
pub proof fn split_of_join(parts: Seq<Seq<char>>, sep: char)
    requires
        parts.len() >= 1,
        forall|i: int| 0 <= i < parts.len() ==> !(#[trigger] parts[i]).contains(sep),
    ensures
        split_seq(join_seq(parts, seq![sep]), sep) == parts,
    decreases parts.len(),
{
    if parts.len() == 1 {
        lemma_split_append(Seq::empty(), parts[0], sep);
        assert(Seq::<char>::empty() + parts[0] =~= parts[0]);
        assert(split_seq(Seq::<char>::empty(), sep) =~= seq![Seq::<char>::empty()]);
        assert(split_seq(parts[0], sep) =~= parts);
    } else {
        let head = parts.drop_last();
        assert forall|i: int| 0 <= i < head.len() implies !(#[trigger] head[i]).contains(sep) by {
            assert(head[i] == parts[i]);
        }
        split_of_join(head, sep);
        let joined = join_seq(head, seq![sep]) + seq![sep];
        assert(joined.drop_last() =~= join_seq(head, seq![sep]));
        assert(split_seq(joined, sep) == head.push(Seq::empty()));
        assert(!parts[parts.len() - 1].contains(sep));
        lemma_split_append(joined, parts.last(), sep);
        assert(Seq::<char>::empty() + parts.last() =~= parts.last());
        assert(head.push(Seq::<char>::empty()).drop_last() =~= head);
        assert(parts =~= head.push(parts.last()));
    }
}

/// Putting the pieces of a split together again gives the text that was split, however many pieces
/// were allowed.
pub proof fn join_of_splitn(s: Seq<char>, sep: char, limit: nat)
    ensures
        join_seq(splitn_seq(s, sep, limit), seq![sep]) == s,
    decreases s.len(),
{
    lemma_splitn_nonempty(s, sep, limit);
    if s.len() == 0 {
        assert(join_seq(splitn_seq(s, sep, limit), seq![sep]) =~= s);
    } else {
        let before = splitn_seq(s.drop_last(), sep, limit);
        let all = splitn_seq(s, sep, limit);
        join_of_splitn(s.drop_last(), sep, limit);
        lemma_splitn_nonempty(s.drop_last(), sep, limit);
        assert(s =~= s.drop_last().push(s.last()));
        if s.last() == sep && before.len() < limit {
            assert(all.drop_last() =~= before);
            assert(join_seq(all, seq![sep]) =~= s.drop_last() + seq![sep] + Seq::empty());
            assert(join_seq(all, seq![sep]) =~= s);
        } else {
            assert(all.drop_last() =~= before.drop_last());
            if before.len() == 1 {
                assert(all =~= seq![before[0].push(s.last())]);
                assert(join_seq(all, seq![sep]) =~= s);
            } else {
                assert(join_seq(all, seq![sep]) =~= join_seq(before.drop_last(), seq![sep]) + seq![sep]
                    + before.last().push(s.last()));
                assert(join_seq(all, seq![sep]) =~= s);
            }
        }
    }
}

proof fn lemma_splitn_append(s: Seq<char>, piece: Seq<char>, sep: char, limit: nat)
    requires
        !piece.contains(sep) || splitn_seq(s, sep, limit).len() >= limit,
    ensures
        splitn_seq(s + piece, sep, limit) == splitn_seq(s, sep, limit).drop_last().push(
            splitn_seq(s, sep, limit).last() + piece,
        ),
    decreases piece.len(),
{
    lemma_splitn_nonempty(s, sep, limit);
    if piece.len() == 0 {
        assert(s + piece =~= s);
        assert(splitn_seq(s, sep, limit).last() + piece =~= splitn_seq(s, sep, limit).last());
        assert(splitn_seq(s, sep, limit) =~= splitn_seq(s, sep, limit).drop_last().push(
            splitn_seq(s, sep, limit).last(),
        ));
    } else {
        let short = piece.drop_last();
        if !piece.contains(sep) {
            assert forall|i: int| 0 <= i < short.len() implies short[i] != sep by {
                if piece[i] == sep {
                    assert(piece.contains(sep));
                }
            }
            assert(piece.last() != sep) by {
                if piece.last() == sep {
                    assert(piece.contains(sep));
                }
            }
        }
        lemma_splitn_append(s, short, sep, limit);
        assert((s + piece).drop_last() =~= s + short);
        assert((s + piece).last() == piece.last());
        let before = splitn_seq(s + short, sep, limit);
        assert(before.last() == splitn_seq(s, sep, limit).last() + short);
        assert((splitn_seq(s, sep, limit).last() + short).push(piece.last()) =~= splitn_seq(
            s,
            sep,
            limit,
        ).last() + piece);
        assert(before.drop_last() =~= splitn_seq(s, sep, limit).drop_last());
    }
}

/// Splitting what was put together from as many pieces as are allowed gives those pieces. Only the last
/// one may hold the separator.
pub proof fn splitn_of_join(parts: Seq<Seq<char>>, sep: char)
    requires
        parts.len() >= 1,
        forall|i: int| 0 <= i < parts.len() - 1 ==> !(#[trigger] parts[i]).contains(sep),
    ensures
        splitn_seq(join_seq(parts, seq![sep]), sep, parts.len()) == parts,
{
    lemma_splitn_of_join(parts, sep, parts.len());
}

proof fn lemma_splitn_of_join(parts: Seq<Seq<char>>, sep: char, limit: nat)
    requires
        1 <= parts.len() <= limit,
        forall|i: int| 0 <= i < parts.len() - 1 ==> !(#[trigger] parts[i]).contains(sep),
        parts.len() < limit ==> !parts.last().contains(sep),
    ensures
        splitn_seq(join_seq(parts, seq![sep]), sep, limit) == parts,
    decreases parts.len(),
{
    if parts.len() == 1 {
        assert(splitn_seq(Seq::<char>::empty(), sep, limit) =~= seq![Seq::<char>::empty()]);
        lemma_splitn_append(Seq::empty(), parts[0], sep, limit);
        assert(Seq::<char>::empty() + parts[0] =~= parts[0]);
        assert(splitn_seq(parts[0], sep, limit) =~= parts);
    } else {
        let head = parts.drop_last();
        assert forall|i: int| 0 <= i < head.len() implies !(#[trigger] head[i]).contains(sep) by {
            assert(head[i] == parts[i]);
        }
        lemma_splitn_of_join(head, sep, limit);
        let joined = join_seq(head, seq![sep]) + seq![sep];
        assert(joined.drop_last() =~= join_seq(head, seq![sep]));
        assert(splitn_seq(joined, sep, limit) == head.push(Seq::empty()));
        lemma_splitn_append(joined, parts.last(), sep, limit);
        assert(Seq::<char>::empty() + parts.last() =~= parts.last());
        assert(head.push(Seq::<char>::empty()).drop_last() =~= head);
        assert(parts =~= head.push(parts.last()));
    }
}

/// Whether a text can be a line among others: it holds no line feed, and no carriage return ends it.
pub open spec fn is_line(s: Seq<char>) -> bool {
    !s.contains('\n') && (s.len() > 0 ==> s.last() != '\r')
}

/// Lines that were put together with line feeds are read as those lines, whether the last one is ended
/// by a line feed or not. Without one the last line must not be empty.
pub proof fn lines_read_back(parts: Seq<Seq<char>>)
    requires
        parts.len() >= 1,
        forall|i: int| 0 <= i < parts.len() ==> is_line(#[trigger] parts[i]),
    ensures
        parts.last().len() > 0 ==> lines_seq(join_seq(parts, seq!['\n'])) == parts,
        lines_seq(join_seq(parts, seq!['\n']) + seq!['\n']) == parts,
{
    split_of_join(parts, '\n');
    let s = join_seq(parts, seq!['\n']);
    let head = parts.drop_last();
    assert forall|i: int| 0 <= i < parts.len() implies strip_cr(#[trigger] parts[i]) == parts[i] by {
        assert(is_line(parts[i]));
    }
    assert(head.map_values(|line: Seq<char>| strip_cr(line)) =~= head) by {
        assert forall|i: int| 0 <= i < head.len() implies strip_cr(head[i]) == head[i] by {
            assert(head[i] == parts[i]);
        }
    }
    assert(head.push(parts.last()) =~= parts);
    let ended = s + seq!['\n'];
    assert(ended.drop_last() =~= s);
    let pieces = split_seq(ended, '\n');
    assert(pieces == parts.push(Seq::empty()));
    assert(pieces.drop_last() =~= parts);
    assert(pieces.last().len() == 0);
    assert(parts.map_values(|line: Seq<char>| strip_cr(line)) =~= parts);
}

/// A text that stands for a number holds nothing but digits, behind a plus sign at most, and the number
/// is within its bound.
pub proof fn number_texts_hold_digits(s: Seq<char>, max: nat)
    ensures
        parse_unsigned(s, max) matches Some(v) ==> v <= max && s.len() > 0 && (forall|i: int|
            0 <= i < s.len() ==> '0' <= #[trigger] s[i] <= '9' || (i == 0 && s[0] == '+' && s.len()
                > 1)),
{
    let digits = if s.len() > 1 && s[0] == '+' {
        s.drop_first()
    } else {
        s
    };
    lemma_only_digits(digits);
    if parse_unsigned(s, max) is Some {
        assert forall|i: int| 0 <= i < s.len() implies '0' <= #[trigger] s[i] <= '9' || (i == 0 && s[0]
            == '+' && s.len() > 1) by {
            if s.len() > 1 && s[0] == '+' {
                if i > 0 {
                    assert(digits[i - 1] == s[i]);
                }
            } else {
                assert(digits[i] == s[i]);
            }
        }
    }
}

proof fn lemma_only_digits(s: Seq<char>)
    ensures
        digits_value(s) is Some ==> forall|i: int| 0 <= i < s.len() ==> '0' <= #[trigger] s[i] <= '9',
    decreases s.len(),
{
    if s.len() > 0 {
        lemma_only_digits(s.drop_last());
        if digits_value(s) is Some {
            assert forall|i: int| 0 <= i < s.len() implies '0' <= #[trigger] s[i] <= '9' by {
                if i < s.len() - 1 {
                    assert(s.drop_last()[i] == s[i]);
                }
            }
        }
    }
}

/// A number is written in one way only, and without zeros before it; a bound that it exceeds makes its
/// text unreadable.
pub proof fn numbers_are_written_once(n: nat, m: nat, max: nat)
    ensures
        decimal(n) == decimal(m) ==> n == m,
        n > 0 ==> decimal(n)[0] != '0',
        n > max ==> parse_unsigned(decimal(n), max) is None,
        n <= max ==> parse_unsigned(seq!['+'] + decimal(n), max) == Some(n),
    decreases n,
{
    lemma_digits_of_decimal(n);
    lemma_digits_of_decimal(m);
    assert((seq!['+'] + decimal(n)).drop_first() =~= decimal(n));
    if n >= 10 {
        numbers_are_written_once(n / 10, m, max);
        lemma_digits_of_decimal(n / 10);
        assert(decimal(n)[0] == decimal(n / 10)[0]);
    }
}

/// Different integers have different texts.
pub proof fn integers_are_written_once(n: int, m: int)
    ensures
        decimal_int(n) == decimal_int(m) ==> n == m,
{
    let low = if n < m { n } else { m };
    let high = if n < m { m } else { n };
    lemma_parse_decimal_int(n, low, high);
    lemma_parse_decimal_int(m, low, high);
}

/// Making letters small changes capital letters only, and leaves none; a text that has none is left as
/// it is, and doing it twice changes nothing more.
pub proof fn small_letters(s: Seq<char>, i: int)
    requires
        0 <= i < s.len(),
    ensures
        ascii_lower_seq(s).len() == s.len(),
        !('A' <= ascii_lower_seq(s)[i] <= 'Z'),
        'A' <= s[i] <= 'Z' ==> 'a' <= ascii_lower_seq(s)[i] <= 'z' && ascii_lower_seq(s)[i] as int
            - 'a' as int == s[i] as int - 'A' as int,
        !('A' <= s[i] <= 'Z') ==> ascii_lower_seq(s)[i] == s[i],
        ascii_lower_seq(ascii_lower_seq(s)) == ascii_lower_seq(s),
{
    assert(ascii_lower_seq(ascii_lower_seq(s)) =~= ascii_lower_seq(s));
}

/// A text that is filled up begins with itself, goes on with spaces only, and is as long as it must be,
/// or as it was.
pub proof fn padding_is_spaces(s: Seq<char>, width: nat)
    ensures
        s.is_prefix_of(padded(s, width)),
        padded(s, width).len() == if s.len() < width {
            width
        } else {
            s.len()
        },
        forall|i: int| s.len() <= i < padded(s, width).len() ==> #[trigger] padded(s, width)[i] == ' ',
{
    assert(padded(s, width).subrange(0, s.len() as int) =~= s);
}

/// Splitting what was put together from fewer pieces than are allowed gives those pieces, if none holds
/// the separator.
pub proof fn lemma_splitn_of_short_join(parts: Seq<Seq<char>>, sep: char, limit: nat)
    requires
        1 <= parts.len() <= limit,
        forall|i: int| 0 <= i < parts.len() ==> !(#[trigger] parts[i]).contains(sep),
    ensures
        splitn_seq(join_seq(parts, seq![sep]), sep, limit) == parts,
{
    assert(!parts[parts.len() - 1].contains(sep));
    lemma_splitn_of_join(parts, sep, limit);
}

/// What is put together from at least two pieces begins with the first one and the separator.
pub proof fn join_begins_with_first(parts: Seq<Seq<char>>, sep: char)
    requires
        parts.len() >= 2,
    ensures
        parts[0].push(sep).is_prefix_of(join_seq(parts, seq![sep])),
    decreases parts.len(),
{
    let head = parts.drop_last();
    let s = join_seq(parts, seq![sep]);
    let start = parts[0].push(sep);
    if parts.len() == 2 {
        assert(join_seq(head, seq![sep]) == parts[0]);
    } else {
        join_begins_with_first(head, sep);
        let h = join_seq(head, seq![sep]);
        assert(h.subrange(0, start.len() as int) == start);
        assert forall|i: int| 0 <= i < start.len() implies s[i] == start[i] by {
            assert(h.subrange(0, start.len() as int)[i] == h[i]);
        }
    }
    assert(s.subrange(0, start.len() as int) =~= start);
}

/// Two pieces without the separator are found again when what was put together from them is split.
pub proof fn split_of_pair(a: Seq<char>, b: Seq<char>, sep: char)
    requires
        !a.contains(sep),
        !b.contains(sep),
    ensures
        split_seq(a + seq![sep] + b, sep) == seq![a, b],
{
    let parts = seq![a, b];
    assert forall|i: int| 0 <= i < parts.len() implies !(#[trigger] parts[i]).contains(sep) by {}
    split_of_join(parts, sep);
    reveal_with_fuel(join_seq, 3);
    assert(parts.drop_last() =~= seq![a]);
    assert(join_seq(parts, seq![sep]) =~= a + seq![sep] + b);
}

/// No number holds a character that is neither a digit nor a minus sign.
pub proof fn numbers_hold_digits(n: int, c: char)
    requires
        !('0' <= c <= '9'),
        c != '-',
    ensures
        !decimal_int(n).contains(c),
        n >= 0 ==> !decimal(n as nat).contains(c) && !decimal(n as nat).contains('-'),
{
    let m = if n < 0 { (-n) as nat } else { n as nat };
    lemma_digits_of_decimal(m);
    let s = decimal_int(n);
    if s.contains(c) {
        let k = s.index_of(c);
        if n < 0 {
            assert(k > 0 ==> s[k] == decimal(m)[k - 1]);
        }
    }
    if n >= 0 && decimal(m).contains('-') {
        let k = decimal(m).index_of('-');
        assert('0' <= decimal(m)[k] <= '9');
    }
}

/// Texts that are the same around their middle parts differ where those do.
pub proof fn middle_is_told(before: Seq<char>, a: Seq<char>, b: Seq<char>, after: Seq<char>)
    ensures
        before + a + after == before + b + after ==> a == b,
{
    let s = before + a + after;
    if s == before + b + after {
        let n = before.len() as int;
        assert(s.len() == n + b.len() + after.len());
        assert(a =~= s.subrange(n, n + a.len()));
        assert(b =~= s.subrange(n, n + b.len()));
    }
}

/// Putting two rows of pieces together gives what each gives, with the separator between them.
pub proof fn join_of_both(a: Seq<Seq<char>>, b: Seq<Seq<char>>, sep: Seq<char>)
    requires
        a.len() >= 1,
        b.len() >= 1,
    ensures
        join_seq(a + b, sep) == join_seq(a, sep) + sep + join_seq(b, sep),
    decreases b.len(),
{
    let all = a + b;
    if b.len() == 1 {
        assert(all.drop_last() =~= a);
        assert(join_seq(all, sep) =~= join_seq(a, sep) + sep + b[0]);
    } else {
        join_of_both(a, b.drop_last(), sep);
        assert(all.drop_last() =~= a + b.drop_last());
        assert(join_seq(all, sep) =~= join_seq(a, sep) + sep + join_seq(b, sep));
    }
}

} // verus!
