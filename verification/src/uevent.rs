//! The `uevent` attribute of a HID device: lines of `KEY=VALUE`, of which
//! three describe the device.

use vstd::prelude::*;
use vstd::string::*;

verus! {

/// What the `uevent` attribute says of a HID device. The two texts are
/// borrowed from the attribute.
#[derive(Debug)]
pub struct HidUevent<'r> {
    pub bus: u16,
    pub vendor: u32,
    pub product: u32,
    pub name: &'r str,
    pub serial_number: &'r str,
}

/// A `HidUevent` with its texts as sequences of characters.
pub struct HidUeventView {
    pub bus: u16,
    pub vendor: u32,
    pub product: u32,
    pub name: Seq<char>,
    pub serial_number: Seq<char>,
}

impl<'r> View for HidUevent<'r> {
    type V = HidUeventView;

    open spec fn view(&self) -> HidUeventView {
        HidUeventView {
            bus: self.bus,
            vendor: self.vendor,
            product: self.product,
            name: self.name@,
            serial_number: self.serial_number@,
        }
    }
}

/// Why a `uevent` attribute could not be read.
#[derive(Debug, Clone, Copy, PartialEq, Eq, Structural)]
pub enum UeventError {
    /// A line holds no `=`.
    MissingSeparator,
    /// The value of a `HID_ID` line is not made of a bus, a vendor and a
    /// product number in hexadecimal, with `:` between them.
    InvalidId,
    /// No line has the key `HID_ID`.
    MissingId,
    /// No line has the key `HID_NAME`.
    MissingName,
    /// No line has the key `HID_UNIQ`.
    MissingSerialNumber,
}

/// The position of the first `c` in `s`, or the length of `s` where it
/// holds none.
pub open spec fn find_char(s: Seq<char>, c: char) -> nat
    decreases s.len(),
{
    if s.len() == 0 || s[0] == c {
        0
    } else {
        1 + find_char(s.drop_first(), c)
    }
}

/// A line without the carriage return at its end, if it has one there.
pub open spec fn strip_cr(line: Seq<char>) -> Seq<char> {
    if line.len() > 0 && line.last() == '\r' {
        line.drop_last()
    } else {
        line
    }
}

/// The lines of a text. A line ends at a line feed, which is not part of
/// it, nor is a carriage return just before the line feed. What follows
/// the last line feed is a line as it stands, unless it is empty.
pub open spec fn lines_of(s: Seq<char>) -> Seq<Seq<char>>
    decreases s.len(),
{
    if s.len() == 0 {
        Seq::empty()
    } else {
        let n = find_char(s, '\n') as int;
        if n >= s.len() {
            seq![s]
        } else {
            seq![strip_cr(s.take(n))] + lines_of(s.skip(n + 1))
        }
    }
}

/// The parts of `s` between the occurrences of `sep`: one more than there
/// are occurrences.
pub open spec fn split(s: Seq<char>, sep: char) -> Seq<Seq<char>>
    decreases s.len(),
{
    let n = find_char(s, sep) as int;
    if n >= s.len() {
        seq![s]
    } else {
        seq![s.take(n)] + split(s.skip(n + 1), sep)
    }
}

/// Whether a line holds a `=`.
pub open spec fn has_separator(line: Seq<char>) -> bool {
    find_char(line, '=') < line.len()
}

/// What stands before the first `=` of a line.
pub open spec fn key_of(line: Seq<char>) -> Seq<char> {
    line.take(find_char(line, '=') as int)
}

/// What stands after the first `=` of a line.
pub open spec fn value_of(line: Seq<char>) -> Seq<char> {
    line.skip(find_char(line, '=') as int + 1)
}

/// The number that a hexadecimal digit stands for, in either case.
pub open spec fn hex_digit(c: char) -> Option<nat> {
    if '0' <= c <= '9' {
        Some((c as u32 - '0' as u32) as nat)
    } else if 'a' <= c <= 'f' {
        Some((c as u32 - 'a' as u32 + 10) as nat)
    } else if 'A' <= c <= 'F' {
        Some((c as u32 - 'A' as u32 + 10) as nat)
    } else {
        None
    }
}

/// Whether every character is a hexadecimal digit.
pub open spec fn all_hex(digits: Seq<char>) -> bool {
    forall|i: int| 0 <= i < digits.len() ==> (#[trigger] hex_digit(digits[i])) is Some
}

/// The number that a run of hexadecimal digits stands for, the first digit
/// weighing most.
pub open spec fn hex_value(digits: Seq<char>) -> nat
    decreases digits.len(),
{
    if digits.len() == 0 {
        0
    } else {
        hex_value(digits.drop_last()) * 16 + hex_digit(digits.last()).unwrap_or(0)
    }
}

/// The number that a text stands for in hexadecimal, if it is one and is
/// at most `max`: hexadecimal digits, at least one, with at most one `+`
/// in front of them.
pub open spec fn parse_hex(s: Seq<char>, max: nat) -> Option<nat> {
    let digits = if s.len() > 0 && s[0] == '+' {
        s.drop_first()
    } else {
        s
    };
    if digits.len() > 0 && all_hex(digits) && hex_value(digits) <= max {
        Some(hex_value(digits))
    } else {
        None
    }
}

/// The bus, vendor and product numbers in the value of a `HID_ID` line:
/// the first three of its parts between colons. Parts after them are not
/// looked at.
pub open spec fn parse_id(value: Seq<char>) -> Option<(u16, u32, u32)> {
    let parts = split(value, ':');
    if parts.len() < 3 {
        None
    } else {
        match (
            parse_hex(parts[0], 0xffff),
            parse_hex(parts[1], 0xffff_ffff),
            parse_hex(parts[2], 0xffff_ffff),
        ) {
            (Some(bus), Some(vendor), Some(product)) => Some(
                (bus as u16, vendor as u32, product as u32),
            ),
            _ => None,
        }
    }
}

/// The key of the line that holds the bus, vendor and product numbers.
pub open spec fn key_id() -> Seq<char> {
    "HID_ID"@
}

/// The key of the line that holds the name of the device.
pub open spec fn key_name() -> Seq<char> {
    "HID_NAME"@
}

/// The key of the line that holds the serial number of the device.
pub open spec fn key_uniq() -> Seq<char> {
    "HID_UNIQ"@
}

/// What is wrong with a line, if anything is: it holds no `=`, or its key
/// is `HID_ID` and its value does not hold the three numbers.
pub open spec fn line_error(line: Seq<char>) -> Option<UeventError> {
    if !has_separator(line) {
        Some(UeventError::MissingSeparator)
    } else if key_of(line) == key_id() && parse_id(value_of(line)) is None {
        Some(UeventError::InvalidId)
    } else {
        None
    }
}

/// What is wrong with the first line that anything is wrong with.
pub open spec fn first_error(lines: Seq<Seq<char>>) -> Option<UeventError>
    decreases lines.len(),
{
    if lines.len() == 0 {
        None
    } else if line_error(lines[0]) is Some {
        line_error(lines[0])
    } else {
        first_error(lines.drop_first())
    }
}

/// The value of the last line with the given key.
pub open spec fn last_value(lines: Seq<Seq<char>>, key: Seq<char>) -> Option<Seq<char>>
    decreases lines.len(),
{
    if lines.len() == 0 {
        None
    } else if has_separator(lines.last()) && key_of(lines.last()) == key {
        Some(value_of(lines.last()))
    } else {
        last_value(lines.drop_last(), key)
    }
}

/// What a `uevent` attribute says of the device. Every line must hold a
/// `=`, and every `HID_ID` line the three numbers: the first line that does
/// not decides the error. Of several lines with one key the last counts.
/// Lines with other keys are passed over. Then the three keys must all
/// have occurred; where several are missing, the error names `HID_ID`
/// before `HID_NAME` before `HID_UNIQ`.
pub open spec fn spec_from_raw(raw: Seq<char>) -> Result<HidUeventView, UeventError> {
    let lines = lines_of(raw);
    if first_error(lines) is Some {
        Err(first_error(lines).unwrap())
    } else if last_value(lines, key_id()) is None {
        Err(UeventError::MissingId)
    } else if last_value(lines, key_name()) is None {
        Err(UeventError::MissingName)
    } else if last_value(lines, key_uniq()) is None {
        Err(UeventError::MissingSerialNumber)
    } else {
        let id = parse_id(last_value(lines, key_id()).unwrap()).unwrap();
        Ok(
            HidUeventView {
                bus: id.0,
                vendor: id.1,
                product: id.2,
                name: last_value(lines, key_name()).unwrap(),
                serial_number: last_value(lines, key_uniq()).unwrap(),
            },
        )
    }
}

/// What `result` is with the texts of the event as sequences of
/// characters.
pub open spec fn result_view(result: Result<HidUevent, UeventError>) -> Result<
    HidUeventView,
    UeventError,
> {
    match result {
        Ok(event) => Ok(event@),
        Err(e) => Err(e),
    }
}

/// `find_char` gives the first occurrence: no `c` stands before it, and
/// one stands at it unless it is the length of `s`.
pub proof fn lemma_find_char_is_first(s: Seq<char>, c: char)
    ensures
        0 <= find_char(s, c) <= s.len(),
        forall|j: int| 0 <= j < find_char(s, c) ==> s[j] != c,
        find_char(s, c) < s.len() ==> s[find_char(s, c) as int] == c,
    decreases s.len(),
{
    if s.len() == 0 || s[0] == c {
    } else {
        lemma_find_char_is_first(s.drop_first(), c);
        assert forall|j: int| 0 <= j < find_char(s, c) implies s[j] != c by {
            if j > 0 {
                assert(s[j] == s.drop_first()[j - 1]);
            }
        }
    }
}

/// A position with no `c` before it, and with `c` at it or at the end of
/// `s`, is what `find_char` gives.
pub proof fn lemma_find_char_at(s: Seq<char>, c: char, i: int)
    requires
        0 <= i <= s.len(),
        forall|j: int| 0 <= j < i ==> s[j] != c,
        i < s.len() ==> s[i] == c,
    ensures
        find_char(s, c) == i,
    decreases s.len(),
{
    if s.len() == 0 || s[0] == c {
    } else {
        let rest = s.drop_first();
        assert forall|j: int| 0 <= j < i - 1 implies rest[j] != c by {
            assert(rest[j] == s[j + 1]);
        }
        lemma_find_char_at(rest, c, i - 1);
    }
}

/// The digits read so far never stand for more than all of them do.
pub proof fn lemma_hex_value_prefix(digits: Seq<char>, k: int)
    requires
        0 <= k <= digits.len(),
    ensures
        hex_value(digits.take(k)) <= hex_value(digits),
    decreases digits.len(),
{
    if k == digits.len() {
        assert(digits.take(k) =~= digits);
    } else {
        assert(digits.drop_last().take(k) =~= digits.take(k));
        lemma_hex_value_prefix(digits.drop_last(), k);
    }
}

/// The first part of a split ends at the first separator; the other parts
/// are those of what follows it.
pub proof fn lemma_split_first(s: Seq<char>, sep: char)
    ensures
        split(s, sep).len() >= 1,
        split(s, sep)[0] == s.take(find_char(s, sep) as int),
        find_char(s, sep) >= s.len() ==> split(s, sep).len() == 1,
        find_char(s, sep) < s.len() ==> split(s, sep).drop_first() == split(
            s.skip(find_char(s, sep) as int + 1),
            sep,
        ),
{
    let n = find_char(s, sep) as int;
    lemma_find_char_is_first(s, sep);
    if n >= s.len() {
        assert(s.take(n) =~= s);
    } else {
        assert((seq![s.take(n)] + split(s.skip(n + 1), sep)).drop_first() =~= split(
            s.skip(n + 1),
            sep,
        ));
    }
}

/// The first error of two runs of lines is that of the first run, if it
/// has one, else that of the second.
pub proof fn lemma_first_error_concat(a: Seq<Seq<char>>, b: Seq<Seq<char>>)
    ensures
        first_error(a + b) == if first_error(a) is Some {
            first_error(a)
        } else {
            first_error(b)
        },
    decreases a.len(),
{
    if a.len() == 0 {
        assert(a + b =~= b);
    } else {
        assert((a + b)[0] == a[0]);
        assert((a + b).drop_first() =~= a.drop_first() + b);
        lemma_first_error_concat(a.drop_first(), b);
    }
}

/// One more line at the end: the first error is that of the lines before
/// it, if they have one, else that of the line; the value of a key is that
/// of the line, if it has the key, else that of the lines before it.
pub proof fn lemma_push_line(lines: Seq<Seq<char>>, line: Seq<char>, key: Seq<char>)
    ensures
        first_error(lines.push(line)) == if first_error(lines) is Some {
            first_error(lines)
        } else {
            line_error(line)
        },
        last_value(lines.push(line), key) == if has_separator(line) && key_of(line) == key {
            Some(value_of(line))
        } else {
            last_value(lines, key)
        },
{
    lemma_first_error_concat(lines, seq![line]);
    assert(lines + seq![line] =~= lines.push(line));
    assert(seq![line].drop_first() =~= Seq::<Seq<char>>::empty());
    assert(first_error(seq![line]) == line_error(line)) by {
        assert(seq![line][0] == line);
        assert(first_error(seq![line].drop_first()) is None);
    }
    assert(lines.push(line).drop_last() =~= lines);
    assert(lines.push(line).last() == line);
}

/// The first error of a text whose first lines have none is that of the
/// next line, if it has one.
proof fn lemma_error_at(done: Seq<Seq<char>>, line: Seq<char>, rest: Seq<Seq<char>>)
    requires
        first_error(done) is None,
        line_error(line) is Some,
    ensures
        first_error(done + (seq![line] + rest)) == line_error(line),
{
    lemma_first_error_concat(done, seq![line] + rest);
    assert((seq![line] + rest)[0] == line);
}

/// The three keys are three different words.
pub proof fn lemma_keys_differ()
    ensures
        key_id() != key_name(),
        key_id() != key_uniq(),
        key_name() != key_uniq(),
{
    reveal_strlit("HID_ID");
    reveal_strlit("HID_NAME");
    reveal_strlit("HID_UNIQ");
    assert(key_id().len() == 6);
    assert(key_name().len() == 8);
    assert(key_name()[4] == 'N');
    assert(key_uniq()[4] == 'U');
}

/// The characters of a text, one by one.
fn chars_of(text: &str) -> (chars: Vec<char>)
    ensures
        chars@ == text@,
{
    let mut chars: Vec<char> = Vec::new();
    for c in it: text.chars()
        invariant
            it.seq() == text@,
            chars@ == it.seq().take(it.index()),
    {
        chars.push(c);
    }
    chars
}

/// The first position from `from` on, and before `to`, at which `c`
/// stands; `to` where there is none.
fn find_from(text: &[char], from: usize, to: usize, c: char) -> (at: usize)
    requires
        from <= to <= text@.len(),
    ensures
        from <= at <= to,
        at - from == find_char(text@.subrange(from as int, to as int), c),
        at < to ==> text@[at as int] == c,
{
    let mut i: usize = from;
    while i < to && text[i] != c
        invariant
            from <= i <= to <= text@.len(),
            forall|j: int| from <= j < i ==> text@[j] != c,
        decreases to - i,
    {
        i += 1;
    }
    proof {
        lemma_find_char_at(text@.subrange(from as int, to as int), c, i - from);
    }
    i
}

/// Whether the characters from `from` to `to` are those of `word`.
fn range_is(text: &[char], from: usize, to: usize, word: &[char]) -> (same: bool)
    requires
        from <= to <= text@.len(),
    ensures
        same == (text@.subrange(from as int, to as int) == word@),
{
    if to - from != word.len() {
        return false;
    }
    let ghost range = text@.subrange(from as int, to as int);
    let mut i: usize = 0;
    while i < word.len()
        invariant
            from <= to <= text@.len(),
            to - from == word@.len(),
            i <= word@.len(),
            range == text@.subrange(from as int, to as int),
            forall|j: int| 0 <= j < i ==> range[j] == word@[j],
        decreases word@.len() - i,
    {
        if text[from + i] != word[i] {
            assert(range[i as int] != word@[i as int]);
            return false;
        }
        i += 1;
    }
    assert(range =~= word@);
    true
}

/// The number that a hexadecimal digit stands for.
fn hex_digit_of(c: char) -> (digit: Option<u8>)
    ensures
        digit is Some <==> hex_digit(c) is Some,
        digit matches Some(d) ==> hex_digit(c) == Some(d as nat) && d < 16,
{
    if '0' <= c && c <= '9' {
        Some((c as u32 - '0' as u32) as u8)
    } else if 'a' <= c && c <= 'f' {
        Some((c as u32 - 'a' as u32 + 10) as u8)
    } else if 'A' <= c && c <= 'F' {
        Some((c as u32 - 'A' as u32 + 10) as u8)
    } else {
        None
    }
}

/// Reads the characters from `from` to `to` as a hexadecimal number that
/// is at most `max`.
fn parse_hex_range(text: &[char], from: usize, to: usize, max: u32) -> (number: Option<u32>)
    requires
        from <= to <= text@.len(),
    ensures
        number is Some <==> parse_hex(text@.subrange(from as int, to as int), max as nat) is Some,
        number matches Some(n) ==> parse_hex(text@.subrange(from as int, to as int), max as nat)
            == Some(n as nat),
{
    let ghost s = text@.subrange(from as int, to as int);
    let start: usize = if from < to && text[from] == '+' {
        from + 1
    } else {
        from
    };
    let ghost digits = text@.subrange(start as int, to as int);
    proof {
        if start == from {
            assert(digits =~= s);
        } else {
            assert(digits =~= s.drop_first());
        }
    }
    if start == to {
        return None;
    }
    let mut acc: u64 = 0;
    let mut i: usize = start;
    proof {
        assert(digits.take(0) =~= Seq::<char>::empty());
    }
    while i < to
        invariant
            from <= start <= i <= to <= text@.len(),
            digits == text@.subrange(start as int, to as int),
            parse_hex(text@.subrange(from as int, to as int), max as nat) == if all_hex(digits)
                && hex_value(digits) <= max {
                Some(hex_value(digits))
            } else {
                None
            },
            all_hex(digits.take(i - start)),
            acc == hex_value(digits.take(i - start)),
            acc <= max,
        decreases to - i,
    {
        let ghost k = i - start;
        match hex_digit_of(text[i]) {
            None => {
                proof {
                    assert(digits[k] == text@[i as int]);
                    assert(hex_digit(digits[k]) is None);
                }
                return None;
            },
            Some(d) => {
                proof {
                    assert(digits.take(k + 1).drop_last() =~= digits.take(k));
                    assert(digits.take(k + 1).last() == text@[i as int]);
                    assert forall|j: int| 0 <= j < k + 1 implies (#[trigger] hex_digit(
                        digits.take(k + 1)[j],
                    )) is Some by {
                        if j < k {
                            assert(digits.take(k + 1)[j] == digits.take(k)[j]);
                        }
                    }
                }
                acc = acc * 16 + d as u64;
                if acc > max as u64 {
                    proof {
                        lemma_hex_value_prefix(digits, k + 1);
                    }
                    return None;
                }
                i += 1;
            },
        }
    }
    proof {
        assert(digits.take(to - start) =~= digits);
    }
    Some(acc as u32)
}

/// Reads the characters from `from` to `to` as the value of a `HID_ID`
/// line.
fn parse_id_range(text: &[char], from: usize, to: usize) -> (id: Option<(u16, u32, u32)>)
    requires
        from <= to <= text@.len(),
    ensures
        id == parse_id(text@.subrange(from as int, to as int)),
{
    let ghost value = text@.subrange(from as int, to as int);
    let first = find_from(text, from, to, ':');
    proof {
        lemma_split_first(value, ':');
        assert(value.take(first - from) =~= text@.subrange(from as int, first as int));
    }
    if first == to {
        return None;
    }
    let ghost rest1 = text@.subrange(first + 1, to as int);
    let second = find_from(text, first + 1, to, ':');
    proof {
        assert(value.skip(first - from + 1) =~= rest1);
        lemma_split_first(rest1, ':');
        assert(rest1.take(second - first - 1) =~= text@.subrange(first + 1, second as int));
        assert(split(value, ':')[1] == split(value, ':').drop_first()[0]);
    }
    if second == to {
        return None;
    }
    let ghost rest2 = text@.subrange(second + 1, to as int);
    let third = find_from(text, second + 1, to, ':');
    proof {
        assert(rest1.skip(second - first - 1 + 1) =~= rest2);
        lemma_split_first(rest2, ':');
        assert(rest2.take(third - second - 1) =~= text@.subrange(second + 1, third as int));
        assert(split(value, ':')[2] == split(value, ':').drop_first().drop_first()[0]);
    }
    let bus = parse_hex_range(text, from, first, 0xffff);
    let vendor = parse_hex_range(text, first + 1, second, 0xffff_ffff);
    let product = parse_hex_range(text, second + 1, third, 0xffff_ffff);
    match (bus, vendor, product) {
        (Some(bus), Some(vendor), Some(product)) => Some((bus as u16, vendor, product)),
        _ => None,
    }
}

/// Finds the end of the line that starts at `pos`, and the start of the
/// line after it.
fn line_from(text: &[char], pos: usize) -> (ends: (usize, usize))
    requires
        pos < text@.len(),
    ensures
        pos <= ends.0 <= ends.1 <= text@.len(),
        pos < ends.1,
        lines_of(text@.skip(pos as int)) == seq![text@.subrange(pos as int, ends.0 as int)]
            + lines_of(text@.skip(ends.1 as int)),
{
    let n = text.len();
    let ghost rest = text@.skip(pos as int);
    let end = find_from(text, pos, n, '\n');
    proof {
        assert(text@.subrange(pos as int, n as int) =~= rest);
    }
    if end < n {
        let line_end = if pos < end && text[end - 1] == '\r' {
            end - 1
        } else {
            end
        };
        proof {
            let whole = text@.subrange(pos as int, end as int);
            assert(rest.take(end - pos) =~= whole);
            assert(rest.skip(end - pos + 1) =~= text@.skip(end + 1));
            if line_end < end {
                assert(whole.drop_last() =~= text@.subrange(pos as int, line_end as int));
            }
        }
        (line_end, end + 1)
    } else {
        proof {
            assert(text@.skip(n as int) =~= Seq::<char>::empty());
            assert(seq![rest] + lines_of(text@.skip(n as int)) =~= seq![rest]);
        }
        (n, n)
    }
}

/// Finds the `=` of the line from `pos` to `line_end`; gives `line_end`
/// where the line has none.
fn separator_of(text: &[char], pos: usize, line_end: usize) -> (sep: usize)
    requires
        pos <= line_end <= text@.len(),
    ensures
        pos <= sep <= line_end,
        sep < line_end <==> has_separator(text@.subrange(pos as int, line_end as int)),
        key_of(text@.subrange(pos as int, line_end as int)) == text@.subrange(
            pos as int,
            sep as int,
        ),
        sep < line_end ==> value_of(text@.subrange(pos as int, line_end as int))
            == text@.subrange(sep + 1, line_end as int),
{
    let ghost line = text@.subrange(pos as int, line_end as int);
    let sep = find_from(text, pos, line_end, '=');
    proof {
        assert(line.take(sep - pos) =~= text@.subrange(pos as int, sep as int));
        if sep < line_end {
            assert(line.skip(sep - pos + 1) =~= text@.subrange(sep + 1, line_end as int));
        }
    }
    sep
}

/// Where a value stands in the text, as it is known after some lines: at
/// the place kept, if a line with the key has been seen, and nowhere else.
spec fn place_of(text: Seq<char>, value: Option<Seq<char>>, place: Option<(usize, usize)>) -> bool {
    match value {
        Some(v) => place matches Some((a, b)) && a <= b <= text.len() && text.subrange(
            a as int,
            b as int,
        ) == v,
        None => place is None,
    }
}

impl<'r> HidUevent<'r> {
    /// Reads a `uevent` attribute. The name and the serial number are
    /// borrowed from `raw`.
    pub fn from_raw(raw: &'r str) -> (result: Result<HidUevent<'r>, UeventError>)
        ensures
            result_view(result) == spec_from_raw(raw@),
    {
        let chars = chars_of(raw);
        let text = chars.as_slice();
        let word_id = chars_of("HID_ID");
        let word_name = chars_of("HID_NAME");
        let word_uniq = chars_of("HID_UNIQ");
        let n = text.len();

        let mut id: Option<(u16, u32, u32)> = None;
        let mut name: Option<(usize, usize)> = None;
        let mut serial_number: Option<(usize, usize)> = None;
        let mut pos: usize = 0;
        let ghost mut done: Seq<Seq<char>> = Seq::empty();
        proof {
            assert(text@.skip(0) =~= text@);
            assert(done + lines_of(text@) =~= lines_of(text@));
        }
        while pos < n
            invariant
                pos <= n == text@.len(),
                text@ == raw@,
                word_id@ == key_id(),
                word_name@ == key_name(),
                word_uniq@ == key_uniq(),
                lines_of(text@) == done + lines_of(text@.skip(pos as int)),
                first_error(done) is None,
                match last_value(done, key_id()) {
                    Some(v) => id is Some && id == parse_id(v),
                    None => id is None,
                },
                place_of(text@, last_value(done, key_name()), name),
                place_of(text@, last_value(done, key_uniq()), serial_number),
            decreases n - pos,
        {
            let (line_end, next) = line_from(text, pos);
            let ghost line = text@.subrange(pos as int, line_end as int);
            let ghost after = lines_of(text@.skip(next as int));
            proof {
                assert(done + (seq![line] + after) =~= done.push(line) + after);
                lemma_push_line(done, line, key_id());
                lemma_push_line(done, line, key_name());
                lemma_push_line(done, line, key_uniq());
                lemma_keys_differ();
            }
            let sep = separator_of(text, pos, line_end);
            if sep == line_end {
                proof {
                    lemma_error_at(done, line, after);
                }
                return Err(UeventError::MissingSeparator);
            }
            if range_is(text, pos, sep, word_name.as_slice()) {
                name = Some((sep + 1, line_end));
            } else if range_is(text, pos, sep, word_uniq.as_slice()) {
                serial_number = Some((sep + 1, line_end));
            } else if range_is(text, pos, sep, word_id.as_slice()) {
                match parse_id_range(text, sep + 1, line_end) {
                    Some(numbers) => {
                        id = Some(numbers);
                    },
                    None => {
                        proof {
                            lemma_error_at(done, line, after);
                        }
                        return Err(UeventError::InvalidId);
                    },
                }
            }
            proof {
                done = done.push(line);
            }
            pos = next;
        }
        proof {
            assert(text@.skip(pos as int) =~= Seq::<char>::empty());
            assert(done + lines_of(text@.skip(pos as int)) =~= done);
        }
        match (id, name, serial_number) {
            (None, _, _) => Err(UeventError::MissingId),
            (Some(_), None, _) => Err(UeventError::MissingName),
            (Some(_), Some(_), None) => Err(UeventError::MissingSerialNumber),
            (Some((bus, vendor, product)), Some(name), Some(serial_number)) => Ok(
                HidUevent {
                    bus,
                    vendor,
                    product,
                    name: raw.substring_char(name.0, name.1),
                    serial_number: raw.substring_char(serial_number.0, serial_number.1),
                },
            ),
        }
    }
}

} // verus!
