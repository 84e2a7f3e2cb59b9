//! The kernel's configuration file: `key = "value"` lines.
//!
//! Every line that is neither blank nor a comment nor a section header becomes a
//! variable of the build: the key, its dashes and dots turned into underscores,
//! in upper case behind a common prefix; and the value without its quotes. The
//! sizes of the heap and of the task stacks come in bytes as well.

use vstd::prelude::*;
use vstd::string::{StrSliceExecFns, StringExecFns};

verus! {

/// White space: the code points with the Unicode property of that name.
pub open spec fn is_space(c: char) -> bool {
    let n = c as int;
    ||| 0x09 <= n <= 0x0D
    ||| n == 0x20
    ||| n == 0x85
    ||| n == 0xA0
    ||| n == 0x1680
    ||| 0x2000 <= n <= 0x200A
    ||| n == 0x2028
    ||| n == 0x2029
    ||| n == 0x202F
    ||| n == 0x205F
    ||| n == 0x3000
}

/// A character that is stripped: white space, or the quote.
pub open spec fn stripped(c: char, quotes: bool) -> bool {
    if quotes {
        c == '"'
    } else {
        is_space(c)
    }
}

/// Characters at the front of `s` that are stripped.
pub open spec fn front_run(s: Seq<char>, quotes: bool) -> int
    decreases s.len(),
{
    if s.len() == 0 || !stripped(s[0], quotes) {
        0
    } else {
        1 + front_run(s.skip(1), quotes)
    }
}

/// `s` without the characters at its end that are stripped.
pub open spec fn strip_back(s: Seq<char>, quotes: bool) -> Seq<char>
    decreases s.len(),
{
    if s.len() == 0 || !stripped(s.last(), quotes) {
        s
    } else {
        strip_back(s.drop_last(), quotes)
    }
}

/// `s` without the characters at both ends that are stripped.
pub open spec fn strip(s: Seq<char>, quotes: bool) -> Seq<char> {
    strip_back(s.skip(front_run(s, quotes)), quotes)
}

/// Position of the first `=` from `from` on, or the length.
pub open spec fn equals_sign(s: Seq<char>, from: int) -> int
    decreases s.len() - from,
{
    if from < 0 || from >= s.len() {
        s.len() as int
    } else if s[from] == '=' {
        from
    } else {
        equals_sign(s, from + 1)
    }
}

/// Dashes and dots become underscores.
pub open spec fn plain_key(s: Seq<char>) -> Seq<char> {
    Seq::new(
        s.len(),
        |i: int|
            if s[i] == '-' || s[i] == '.' {
                '_'
            } else {
                s[i]
            },
    )
}

/// The line defines something: it is not blank, no comment, no section header,
/// and has an equals sign.
pub open spec fn defines(line: Seq<char>) -> bool {
    let s = strip(line, false);
    &&& s.len() > 0
    &&& s[0] != '#'
    &&& s[0] != '['
    &&& equals_sign(s, 0) < s.len()
}

/// The key that a line defines.
pub open spec fn key_of(line: Seq<char>) -> Seq<char> {
    let s = strip(line, false);
    plain_key(strip(s.take(equals_sign(s, 0)), false))
}

/// The value that a line defines.
pub open spec fn value_of(line: Seq<char>) -> Seq<char> {
    let s = strip(line, false);
    strip(strip(s.skip(equals_sign(s, 0) + 1), false), true)
}

fn is_stripped(c: char, quotes: bool) -> (yes: bool)
    ensures
        yes == stripped(c, quotes),
{
    if quotes {
        return c == '"';
    }
    let n: u32 = c as u32;
    (0x09 <= n && n <= 0x0D) || n == 0x20 || n == 0x85 || n == 0xA0 || n == 0x1680 || (0x2000 <= n
        && n <= 0x200A) || n == 0x2028 || n == 0x2029 || n == 0x202F || n == 0x205F || n == 0x3000
}

proof fn lemma_front_run(s: Seq<char>, quotes: bool, k: int)
    requires
        0 <= k <= s.len(),
        forall|i: int| 0 <= i < k ==> stripped(#[trigger] s[i], quotes),
        k < s.len() ==> !stripped(s[k], quotes),
    ensures
        front_run(s, quotes) == k,
    decreases s.len(),
{
    if k > 0 {
        assert(stripped(s[0], quotes));
        let t = s.skip(1);
        assert forall|i: int| 0 <= i < k - 1 implies stripped(#[trigger] t[i], quotes) by {
            assert(t[i] == s[i + 1]);
        }
        lemma_front_run(t, quotes, k - 1);
    }
}

proof fn lemma_strip_back(s: Seq<char>, quotes: bool, k: int)
    requires
        0 <= k <= s.len(),
        forall|i: int| k <= i < s.len() ==> stripped(#[trigger] s[i], quotes),
        k > 0 ==> !stripped(s[k - 1], quotes),
    ensures
        strip_back(s, quotes) == s.take(k),
    decreases s.len(),
{
    if k == s.len() {
        assert(s.take(k) =~= s);
    } else {
        assert(stripped(s[s.len() - 1], quotes));
        let t = s.drop_last();
        assert forall|i: int| k <= i < t.len() implies stripped(#[trigger] t[i], quotes) by {
            assert(t[i] == s[i]);
        }
        lemma_strip_back(t, quotes, k);
        assert(t.take(k) =~= s.take(k));
    }
}

/// Strip both ends of a text.
fn strip_text<'a>(s: &'a str, quotes: bool) -> (t: &'a str)
    ensures
        t@ == strip(s@, quotes),
{
    let len: usize = s.unicode_len();
    let mut from: usize = 0;
    while from < len && is_stripped(s.get_char(from), quotes)
        invariant
            from <= len,
            len == s@.len(),
            forall|i: int| 0 <= i < from ==> stripped(#[trigger] s@[i], quotes),
        decreases len - from,
    {
        from = from + 1;
    }
    let mut to: usize = len;
    while to > from && is_stripped(s.get_char(to - 1), quotes)
        invariant
            from <= to <= len,
            len == s@.len(),
            forall|i: int| to <= i < len ==> stripped(#[trigger] s@[i], quotes),
        decreases to,
    {
        to = to - 1;
    }
    proof {
        lemma_front_run(s@, quotes, from as int);
        let rest = s@.skip(from as int);
        assert forall|i: int| to - from <= i < rest.len() implies stripped(
            #[trigger] rest[i],
            quotes,
        ) by {
            assert(rest[i] == s@[i + from]);
        }
        lemma_strip_back(rest, quotes, to - from);
        assert(rest.take(to - from) =~= s@.subrange(from as int, to as int));
    }
    s.substring_char(from, to)
}

/// Position of the first `=`, or the length.
fn find_equals(s: &str) -> (at: usize)
    ensures
        at == equals_sign(s@, 0),
        at <= s@.len(),
{
    let len: usize = s.unicode_len();
    let mut at: usize = 0;
    while at < len
        invariant
            at <= len,
            len == s@.len(),
            equals_sign(s@, 0) == equals_sign(s@, at as int),
        decreases len - at,
    {
        if s.get_char(at) == '=' {
            return at;
        }
        at = at + 1;
    }
    at
}

/// Turn dashes and dots into underscores.
fn plain_key_text(s: &str) -> (key: String)
    ensures
        key@ == plain_key(s@),
{
    let len: usize = s.unicode_len();
    let mut key = String::new();
    let mut i: usize = 0;
    proof {
        reveal_strlit("_");
    }
    while i < len
        invariant
            i <= len,
            len == s@.len(),
            key@ == plain_key(s@).take(i as int),
            "_"@ == seq!['_'],
        decreases len - i,
    {
        let c: char = s.get_char(i);
        if c == '-' || c == '.' {
            key.append("_");
        } else {
            key.append(s.substring_char(i, i + 1));
        }
        assert(key@ =~= plain_key(s@).take(i + 1));
        i = i + 1;
    }
    assert(plain_key(s@).take(i as int) =~= plain_key(s@));
    key
}

/// The key and the value that a line of the file defines, if it does.
pub fn parse_line(line: &str) -> (r: Option<(String, String)>)
    ensures
        match r {
            Some((key, value)) => defines(line@) && key@ == key_of(line@) && value@ == value_of(
                line@,
            ),
            None => !defines(line@),
        },
{
    let s = strip_text(line, false);
    let len: usize = s.unicode_len();
    if len == 0 {
        return None;
    }
    let first: char = s.get_char(0);
    if first == '#' || first == '[' {
        return None;
    }
    let at: usize = find_equals(s);
    if at >= len {
        return None;
    }
    let left = s.substring_char(0, at);
    let right = s.substring_char(at + 1, len);
    proof {
        assert(left@ =~= s@.take(at as int));
        assert(right@ =~= s@.skip(at + 1));
    }
    let key = plain_key_text(strip_text(left, false));
    let value = strip_text(strip_text(right, false), true);
    Some((key, value.to_owned()))
}

/// What `str::to_uppercase` makes of a text.
pub uninterp spec fn uppercase(s: Seq<char>) -> Seq<char>;

/// Upper case by `str::to_uppercase` of the standard library. Trusted: the
/// result depends on the text alone.
#[verifier::external_body]
fn to_uppercase(s: &str) -> (r: String)
    ensures
        r@ == uppercase(s@),
{
    s.to_uppercase()
}

/// Name of the build variable for a key that is in upper case already.
pub fn variable_name(upper_key: &str) -> (name: String)
    ensures
        name@ == "KERNEL_CONFIG_"@ + upper_key@,
{
    let name = "KERNEL_CONFIG_".to_owned();
    name.concat(upper_key)
}

/// Name of the build variable for a key.
fn name_of_variable(key: &str) -> (name: String)
    ensures
        name@ == "KERNEL_CONFIG_"@ + uppercase(key@),
{
    let upper = to_uppercase(key);
    variable_name(upper.as_str())
}

/// The build variable that a line of the file defines, if it does: its name and
/// its value.
pub fn build_variable(line: &str) -> (r: Option<(String, String)>)
    ensures
        match r {
            Some((name, value)) => {
                &&& defines(line@)
                &&& name@ == "KERNEL_CONFIG_"@ + uppercase(key_of(line@))
                &&& value@ == value_of(line@)
            },
            None => !defines(line@),
        },
{
    match parse_line(line) {
        Some((key, value)) => Some((name_of_variable(key.as_str()), value)),
        None => None,
    }
}

/// All bytes are decimal digits.
pub open spec fn digits(s: Seq<u8>) -> bool {
    forall|i: int| 0 <= i < s.len() ==> 0x30 <= #[trigger] s[i] <= 0x39
}

/// The number that decimal digits spell; none spell zero.
pub open spec fn decimal(s: Seq<u8>) -> int
    decreases s.len(),
{
    if s.len() == 0 {
        0
    } else {
        decimal(s.drop_last()) * 10 + (s.last() - 0x30)
    }
}

proof fn lemma_decimal_grows(s: Seq<u8>, k: int)
    requires
        0 <= k <= s.len(),
        digits(s),
    ensures
        0 <= decimal(s.take(k)) <= decimal(s),
    decreases s.len() - k,
{
    if k < s.len() {
        lemma_decimal_grows(s, k + 1);
        assert(s.take(k + 1).drop_last() =~= s.take(k));
        lemma_decimal_not_negative(s.take(k));
    } else {
        assert(s.take(k) =~= s);
        lemma_decimal_not_negative(s);
    }
}

proof fn lemma_decimal_not_negative(s: Seq<u8>)
    requires
        digits(s),
    ensures
        0 <= decimal(s),
    decreases s.len(),
{
    if s.len() > 0 {
        assert forall|i: int| 0 <= i < s.drop_last().len() implies 0x30
            <= #[trigger] s.drop_last()[i] <= 0x39 by {
            assert(s.drop_last()[i] == s[i]);
        }
        lemma_decimal_not_negative(s.drop_last());
    }
}

/// A number of bytes, written in decimal digits. `None` where something is no
/// digit or the number is too large: the build stops there.
pub fn parse_bytes(s: &[u8]) -> (r: Option<usize>)
    ensures
        match r {
            Some(n) => digits(s@) && n == decimal(s@),
            None => !digits(s@) || decimal(s@) > usize::MAX,
        },
{
    let mut n: usize = 0;
    let mut i: usize = 0;
    while i < s.len()
        invariant
            i <= s@.len(),
            digits(s@.take(i as int)),
            n == decimal(s@.take(i as int)),
        decreases s@.len() - i,
    {
        let d: u8 = s[i].wrapping_sub(0x30);
        if d >= 10 {
            assert(!(0x30 <= s@[i as int] <= 0x39));
            return None;
        }
        let ghost next = s@.take(i + 1);
        proof {
            assert(next.drop_last() =~= s@.take(i as int));
            assert(next.last() == s@[i as int]);
            assert(decimal(next) == n * 10 + d);
            assert forall|j: int| 0 <= j < next.len() implies 0x30 <= #[trigger] next[j]
                <= 0x39 by {
                if j < i {
                    assert(next[j] == s@.take(i as int)[j]);
                }
            }
        }
        n = match n.checked_mul(10) {
            Some(m) => match m.checked_add(d as usize) {
                Some(m) => m,
                None => {
                    proof {
                        if digits(s@) {
                            lemma_decimal_grows(s@, i + 1);
                        }
                    }
                    return None;
                },
            },
            None => {
                proof {
                    if digits(s@) {
                        lemma_decimal_grows(s@, i + 1);
                    }
                }
                return None;
            },
        };
        i = i + 1;
    }
    assert(s@.take(i as int) =~= s@);
    Some(n)
}

/// Bytes that a text of digits stands for, counted in KiB.
pub open spec fn kib(s: Seq<u8>) -> Option<int> {
    if digits(s) && decimal(s) * 1024 <= usize::MAX {
        Some(decimal(s) * 1024)
    } else {
        None
    }
}

/// Bytes that a size stands for: KiB if a `K` follows the digits, else bytes.
pub open spec fn size_in_bytes(s: Seq<u8>) -> Option<int> {
    if s.len() > 0 && s.last() == 0x4B {
        kib(s.drop_last())
    } else if digits(s) && decimal(s) <= usize::MAX {
        Some(decimal(s))
    } else {
        None
    }
}

/// A number of KiB in decimal digits, as bytes.
pub fn parse_kib(s: &[u8]) -> (r: Option<usize>)
    ensures
        match r {
            Some(n) => kib(s@) == Some(n as int),
            None => kib(s@) is None,
        },
{
    match parse_bytes(s) {
        Some(n) => n.checked_mul(1024),
        None => None,
    }
}

/// A size such as `128K` or `131072`, as bytes.
pub fn parse_size(s: &[u8]) -> (r: Option<usize>)
    ensures
        match r {
            Some(n) => size_in_bytes(s@) == Some(n as int),
            None => size_in_bytes(s@) is None,
        },
{
    let len: usize = s.len();
    if len > 0 && s[len - 1] == 0x4B {
        let number = vstd::slice::slice_subrange(s, 0, len - 1);
        assert(number@ =~= s@.drop_last());
        parse_kib(number)
    } else {
        parse_bytes(s)
    }
}

/// The key sets a size.
pub open spec fn sets_size(key: Seq<char>) -> bool {
    key == "heap_size_kb"@ || key == "stack_size"@
}

/// Name of the build variable for the size that a key sets.
pub open spec fn size_name(key: Seq<char>) -> Seq<char> {
    if key == "heap_size_kb"@ {
        "KERNEL_CONFIG_HEAP_SIZE_BYTES"@
    } else {
        "KERNEL_CONFIG_STACK_SIZE_BYTES"@
    }
}

/// Bytes that the value of such a key stands for, if it makes sense.
pub open spec fn size_set(key: Seq<char>, value: Seq<u8>) -> Option<int> {
    if key == "heap_size_kb"@ {
        kib(value)
    } else {
        size_in_bytes(value)
    }
}

/// The build variable for a size, if a key sets one: its name, and the number of
/// bytes unless the value makes no sense, which stops the build. The kernel takes
/// the sizes of its heap and of its stacks from these.
pub fn size_variable(key: &str, value: &[u8]) -> (r: Option<(&'static str, Option<usize>)>)
    ensures
        match r {
            Some((name, bytes)) => {
                &&& sets_size(key@)
                &&& name@ == size_name(key@)
                &&& match bytes {
                    Some(n) => size_set(key@, value@) == Some(n as int),
                    None => size_set(key@, value@) is None,
                }
            },
            None => !sets_size(key@),
        },
{
    let key = key.to_owned();
    if key == "heap_size_kb".to_owned() {
        Some(("KERNEL_CONFIG_HEAP_SIZE_BYTES", parse_kib(value)))
    } else if key == "stack_size".to_owned() {
        Some(("KERNEL_CONFIG_STACK_SIZE_BYTES", parse_size(value)))
    } else {
        None
    }
}

/// The decimal digits of a number.
pub open spec fn decimal_text(n: nat) -> Seq<char>
    decreases n,
{
    if n < 10 {
        seq![(0x30 + n) as char]
    } else {
        decimal_text(n / 10).push((0x30 + n % 10) as char)
    }
}

fn digit_text(d: usize) -> (t: &'static str)
    requires
        d < 10,
    ensures
        t@ == seq![(0x30 + d) as char],
{
    proof {
        reveal_strlit("0");
        reveal_strlit("1");
        reveal_strlit("2");
        reveal_strlit("3");
        reveal_strlit("4");
        reveal_strlit("5");
        reveal_strlit("6");
        reveal_strlit("7");
        reveal_strlit("8");
        reveal_strlit("9");
    }
    match d {
        0 => "0",
        1 => "1",
        2 => "2",
        3 => "3",
        4 => "4",
        5 => "5",
        6 => "6",
        7 => "7",
        8 => "8",
        _ => "9",
    }
}

/// Write a number in decimal digits.
pub fn write_decimal(n: usize) -> (t: String)
    ensures
        t@ == decimal_text(n as nat),
    decreases n,
{
    if n < 10 {
        digit_text(n).to_owned()
    } else {
        let mut t = write_decimal(n / 10);
        t.append(digit_text(n % 10));
        assert(t@ =~= decimal_text(n as nat));
        t
    }
}

proof fn lemma_decimal_text(n: nat)
    ensures
        vstd::utf8::is_ascii_chars(decimal_text(n)),
        digits(vstd::utf8::encode_utf8(decimal_text(n))),
        decimal(vstd::utf8::encode_utf8(decimal_text(n))) == n,
    decreases n,
{
    let text = decimal_text(n);
    let bytes = vstd::utf8::encode_utf8(text);
    if n < 10 {
        assert(text.drop_last() =~= Seq::<char>::empty());
        vstd::utf8::is_ascii_chars_encode_utf8(text);
        assert(bytes.drop_last() =~= Seq::<u8>::empty());
        assert(decimal(bytes.drop_last()) == 0);
    } else {
        lemma_decimal_text(n / 10);
        let front = decimal_text(n / 10);
        let front_bytes = vstd::utf8::encode_utf8(front);
        vstd::utf8::is_ascii_chars_encode_utf8(front);
        assert forall|i: int| 0 <= i < text.len() implies '\0' <= #[trigger] text[i]
            <= '\u{7f}' by {
            if i < front.len() {
                assert(text[i] == front[i]);
            }
        }
        vstd::utf8::is_ascii_chars_encode_utf8(text);
        assert forall|i: int| 0 <= i < bytes.len() implies 0x30 <= #[trigger] bytes[i] <= 0x39 by {
            if i < front.len() {
                assert(text[i] == front[i]);
                assert(bytes[i] == front_bytes[i]);
            } else {
                assert(bytes[i] == text[i] as u8);
            }
        }
        assert(bytes.drop_last() =~= front_bytes) by {
            assert forall|i: int| 0 <= i < front.len() implies bytes[i] == front_bytes[i] by {
                assert(text[i] == front[i]);
            }
        }
        assert(bytes.last() == text[front.len() as int] as u8);
    }
}

/// Law: a size survives the build. The kernel reads back from its build variable
/// the number of bytes that was written there.
pub proof fn law_size_survives_the_build(n: nat)
    ensures
        digits(vstd::utf8::encode_utf8(decimal_text(n))),
        decimal(vstd::utf8::encode_utf8(decimal_text(n))) == n,
{
    lemma_decimal_text(n);
}

/// Position of the first line feed from `from` on, or the length.
pub open spec fn line_feed(text: Seq<char>, from: int) -> int
    decreases text.len() - from,
{
    if from < 0 || from >= text.len() {
        text.len() as int
    } else if text[from] == '\n' {
        from
    } else {
        line_feed(text, from + 1)
    }
}

/// A line without the carriage return at its end, if one is there.
pub open spec fn without_return(line: Seq<char>) -> Seq<char> {
    if line.len() > 0 && line.last() == '\r' {
        line.drop_last()
    } else {
        line
    }
}

/// The lines of a text from position `from` on. A line ends with a line feed, or
/// with a carriage return and a line feed; the last one need not have an end.
pub open spec fn lines_from(text: Seq<char>, from: int) -> Seq<Seq<char>>
    decreases text.len() - from,
{
    let end = line_feed(text, from);
    if from < 0 || from >= text.len() {
        Seq::empty()
    } else if from <= end < text.len() {
        seq![without_return(text.subrange(from, end))] + lines_from(text, end + 1)
    } else {
        seq![text.subrange(from, text.len() as int)]
    }
}

/// The build variables, name and value, that a line defines: the line's own, and
/// behind it the size if it sets one. `None` if that size makes no sense.
pub open spec fn line_variables(line: Seq<char>) -> Option<Seq<(Seq<char>, Seq<char>)>> {
    let own = ("KERNEL_CONFIG_"@ + uppercase(key_of(line)), value_of(line));
    let key = key_of(line);
    if !defines(line) {
        Some(Seq::empty())
    } else if !sets_size(key) {
        Some(seq![own])
    } else {
        match size_set(key, vstd::utf8::encode_utf8(value_of(line))) {
            Some(n) => Some(seq![own, (size_name(key), decimal_text(n as nat))]),
            None => None,
        }
    }
}

/// The build variables of all lines, in order. `None` if a size in one of them
/// makes no sense.
pub open spec fn variables(lines: Seq<Seq<char>>) -> Option<Seq<(Seq<char>, Seq<char>)>>
    decreases lines.len(),
{
    if lines.len() == 0 {
        Some(Seq::empty())
    } else {
        match (variables(lines.drop_last()), line_variables(lines.last())) {
            (Some(before), Some(own)) => Some(before + own),
            _ => None,
        }
    }
}

/// What a list of names and values stands for.
pub open spec fn texts(list: Seq<(String, String)>) -> Seq<(Seq<char>, Seq<char>)> {
    Seq::new(list.len(), |i: int| (list[i].0@, list[i].1@))
}

proof fn lemma_one_bad_line(lines: Seq<Seq<char>>, k: int)
    requires
        0 <= k <= lines.len(),
        variables(lines.take(k)) is None,
    ensures
        variables(lines) is None,
    decreases lines.len() - k,
{
    if k < lines.len() {
        assert(lines.take(k + 1).drop_last() =~= lines.take(k));
        lemma_one_bad_line(lines, k + 1);
    } else {
        assert(lines.take(k) =~= lines);
    }
}

/// Position of the first line feed from `from` on, or the length.
fn find_line_feed(text: &str, from: usize) -> (at: usize)
    requires
        from <= text@.len(),
    ensures
        at == line_feed(text@, from as int),
        from <= at <= text@.len(),
{
    let len: usize = text.unicode_len();
    let mut at: usize = from;
    while at < len
        invariant
            from <= at <= len,
            len == text@.len(),
            line_feed(text@, from as int) == line_feed(text@, at as int),
        decreases len - at,
    {
        if text.get_char(at) == '\n' {
            return at;
        }
        at = at + 1;
    }
    at
}

/// Add the build variables that a line defines to a list. `false`, and an
/// unusable list, if the line sets a size that makes no sense.
fn add_line(line: &str, list: &mut Vec<(String, String)>) -> (ok: bool)
    ensures
        ok <==> line_variables(line@) is Some,
        line_variables(line@) matches Some(own) ==> texts(final(list)@) == texts(old(list)@) + own,
{
    let ghost before = texts(list@);
    let (key, value) = match parse_line(line) {
        Some(pair) => pair,
        None => {
            assert(texts(list@) =~= before + line_variables(line@)->0);
            return true;
        },
    };
    let name = name_of_variable(key.as_str());
    let size = size_variable(key.as_str(), value.as_str().as_bytes());
    list.push((name, value));
    match size {
        Some((name, Some(n))) => {
            list.push((name.to_owned(), write_decimal(n)));
            assert(texts(list@) =~= before + line_variables(line@)->0);
            true
        },
        Some((_, None)) => false,
        None => {
            assert(texts(list@) =~= before + line_variables(line@)->0);
            true
        },
    }
}

/// The build variables that a configuration text defines, name and value, in the
/// order of its lines. `None` if a line sets a size that makes no sense: the build
/// stops there.
pub fn build_variables(text: &str) -> (r: Option<Vec<(String, String)>>)
    ensures
        match r {
            Some(list) => variables(lines_from(text@, 0)) == Some(texts(list@)),
            None => variables(lines_from(text@, 0)) is None,
        },
{
    let len: usize = text.unicode_len();
    let mut list: Vec<(String, String)> = Vec::new();
    let mut from: usize = 0;
    let ghost all = lines_from(text@, 0);
    let ghost mut done: int = 0;
    proof {
        assert(all.take(0) =~= Seq::empty());
        assert(all.skip(0) =~= all);
        assert(texts(list@) =~= Seq::empty());
    }
    while from < len
        invariant
            from <= len,
            len == text@.len(),
            all == lines_from(text@, 0),
            0 <= done <= all.len(),
            all.skip(done) == lines_from(text@, from as int),
            variables(all.take(done)) == Some(texts(list@)),
        decreases len - from,
    {
        let end: usize = find_line_feed(text, from);
        let to: usize = if end < len && end > from && text.get_char(end - 1) == '\r' {
            end - 1
        } else {
            end
        };
        let line = text.substring_char(from, to);
        let ghost rest = all.skip(done);
        proof {
            if end < len {
                assert(line@ =~= without_return(text@.subrange(from as int, end as int)));
                assert(rest.skip(1) =~= lines_from(text@, end + 1));
            } else {
                assert(line@ =~= text@.subrange(from as int, len as int));
                assert(rest.skip(1) =~= Seq::empty());
            }
            assert(rest[0] == line@);
            assert(all.skip(done + 1) =~= rest.skip(1));
            assert(all.take(done + 1).drop_last() =~= all.take(done));
            assert(all.take(done + 1).last() == line@);
        }
        if !add_line(line, &mut list) {
            proof {
                lemma_one_bad_line(all, done + 1);
            }
            return None;
        }
        proof {
            done = done + 1;
        }
        if end >= len {
            from = len;
        } else {
            from = end + 1;
        }
    }
    assert(all.skip(done).len() == 0);
    assert(all.take(done) =~= all);
    Some(list)
}

// ---------------------------------------------------------------------------
// Laws of the file
// ---------------------------------------------------------------------------
proof fn lemma_strip(s: Seq<char>, quotes: bool, from: int, to: int)
    requires
        0 <= from <= to <= s.len(),
        forall|i: int| 0 <= i < from ==> stripped(#[trigger] s[i], quotes),
        forall|i: int| to <= i < s.len() ==> stripped(#[trigger] s[i], quotes),
        from < to ==> !stripped(s[from], quotes) && !stripped(s[to - 1], quotes),
        from == to ==> from == s.len(),
    ensures
        strip(s, quotes) == s.subrange(from, to),
{
    lemma_front_run(s, quotes, from);
    let rest = s.skip(from);
    assert forall|i: int| to - from <= i < rest.len() implies stripped(#[trigger] rest[i], quotes) by {
        assert(rest[i] == s[i + from]);
    }
    lemma_strip_back(rest, quotes, to - from);
    assert(rest.take(to - from) =~= s.subrange(from, to));
}

proof fn lemma_equals_sign(s: Seq<char>, from: int, n: int)
    requires
        0 <= from <= n <= s.len(),
        forall|i: int| from <= i < n ==> #[trigger] s[i] != '=',
        n < s.len() ==> s[n] == '=',
    ensures
        equals_sign(s, from) == n,
    decreases n - from,
{
    if from < n {
        assert(s[from] != '=');
        lemma_equals_sign(s, from + 1, n);
    }
}

proof fn lemma_strip_around(a: Seq<char>, core: Seq<char>, d: Seq<char>, quotes: bool)
    requires
        forall|i: int| 0 <= i < a.len() ==> stripped(#[trigger] a[i], quotes),
        forall|i: int| 0 <= i < d.len() ==> stripped(#[trigger] d[i], quotes),
        core.len() > 0,
        !stripped(core[0], quotes),
        !stripped(core.last(), quotes),
    ensures
        strip(a + core + d, quotes) == core,
{
    let s = a + core + d;
    let from = a.len() as int;
    let to = from + core.len();
    assert forall|i: int| 0 <= i < from implies stripped(#[trigger] s[i], quotes) by {
        assert(s[i] == a[i]);
    }
    assert forall|i: int| to <= i < s.len() implies stripped(#[trigger] s[i], quotes) by {
        assert(s[i] == d[i - to]);
    }
    assert(s[from] == core[0] && s[to - 1] == core.last());
    lemma_strip(s, quotes, from, to);
    assert(s.subrange(from, to) =~= core);
}

proof fn lemma_split_at_equals(left: Seq<char>, right: Seq<char>)
    requires
        forall|i: int| 0 <= i < left.len() ==> #[trigger] left[i] != '=',
    ensures
        ({
            let s = left + seq!['='] + right;
            let n = left.len() as int;
            &&& equals_sign(s, 0) == n
            &&& n < s.len()
            &&& s.take(n) == left
            &&& s.skip(n + 1) == right
        }),
{
    let s = left + seq!['='] + right;
    let n = left.len() as int;
    assert forall|i: int| 0 <= i < n implies #[trigger] s[i] != '=' by {
        assert(s[i] == left[i]);
    }
    lemma_equals_sign(s, 0, n);
    assert(s.take(n) =~= left);
    assert(s.skip(n + 1) =~= right);
}

/// All characters are white space.
pub open spec fn blank(s: Seq<char>) -> bool {
    forall|i: int| 0 <= i < s.len() ==> is_space(#[trigger] s[i])
}

/// Law: white space is what Unicode calls so.
pub proof fn law_white_space(c: char)
    ensures
        is_space(c) <==> {
            ||| c == ' ' || c == '\t' || c == '\n' || c == '\r' || c == '\u{b}' || c == '\u{c}'
            ||| c == '\u{85}' || c == '\u{a0}' || c == '\u{1680}'
            ||| '\u{2000}' <= c <= '\u{200a}'
            ||| c == '\u{2028}' || c == '\u{2029}' || c == '\u{202f}' || c == '\u{205f}'
            ||| c == '\u{3000}'
        },
{
}

/// Law: a definition reads back. A line with a key, an equals sign and a value in
/// quotes, with white space anywhere around the three, defines that key, its dashes
/// and dots turned into underscores, to be that value.
pub proof fn law_definition_reads_back(
    line: &str,
    a: Seq<char>,
    key: Seq<char>,
    b: Seq<char>,
    c: Seq<char>,
    value: Seq<char>,
    d: Seq<char>,
    r: Option<(String, String)>,
)
    requires
        blank(a) && blank(b) && blank(c) && blank(d),
        key.len() > 0,
        !is_space(key[0]) && !is_space(key.last()),
        key[0] != '#' && key[0] != '[',
        forall|i: int| 0 <= i < key.len() ==> #[trigger] key[i] != '=',
        value.len() > 0 ==> value[0] != '"' && value.last() != '"',
        line@ == a + key + b + seq!['='] + c + seq!['"'] + value + seq!['"'] + d,
        call_ensures(parse_line, (line,), r),
    ensures
        r matches Some((k, v)) && v@ == value && k@.len() == key.len() && forall|i: int|
            0 <= i < key.len() ==> #[trigger] k@[i] == if key[i] == '-' || key[i] == '.' {
                '_'
            } else {
                key[i]
            },
{
    let quoted = seq!['"'] + value + seq!['"'];
    let left = key + b;
    let right = c + quoted;
    let core = left + seq!['='] + right;
    let none = Seq::<char>::empty();
    assert(core[0] == key[0]);
    assert(quoted.last() == '"');
    assert(core.last() == '"');
    assert(line@ =~= a + core + d);
    lemma_strip_around(a, core, d, false);
    assert forall|i: int| 0 <= i < left.len() implies #[trigger] left[i] != '=' by {
        if i >= key.len() {
            assert(is_space(b[i - key.len()]));
        }
    }
    lemma_split_at_equals(left, right);
    assert(left =~= none + key + b);
    lemma_strip_around(none, key, b, false);
    assert(right =~= c + quoted + none);
    lemma_strip_around(c, quoted, none, false);
    if value.len() > 0 {
        lemma_strip_around(seq!['"'], value, seq!['"'], true);
    } else {
        lemma_strip(quoted, true, 2, 2);
        assert(quoted.subrange(2, 2) =~= value);
    }
}

proof fn lemma_strip_back_prefix(s: Seq<char>, quotes: bool)
    ensures
        strip_back(s, quotes).len() <= s.len(),
        strip_back(s, quotes) == s.take(strip_back(s, quotes).len() as int),
        s.len() > 0 && !stripped(s[0], quotes) ==> strip_back(s, quotes).len() > 0,
    decreases s.len(),
{
    if s.len() == 0 || !stripped(s.last(), quotes) {
        assert(s.take(s.len() as int) =~= s);
    } else {
        lemma_strip_back_prefix(s.drop_last(), quotes);
        let n = strip_back(s, quotes).len() as int;
        assert(s.drop_last().take(n) =~= s.take(n));
        if s.len() > 1 {
            assert(s.drop_last()[0] == s[0]);
        }
    }
}

/// Law: noise defines nothing. A line of white space, a comment, a section header,
/// however far indented, and a line without an equals sign are passed over.
pub proof fn law_noise_defines_nothing(
    line: &str,
    indent: Seq<char>,
    rest: Seq<char>,
    r: Option<(String, String)>,
)
    requires
        blank(indent),
        line@ == indent + rest,
        rest.len() == 0 || rest[0] == '#' || rest[0] == '[' || (!is_space(rest[0]) && forall|i: int|
            0 <= i < rest.len() ==> #[trigger] rest[i] != '='),
        call_ensures(parse_line, (line,), r),
    ensures
        r is None,
{
    let s = line@;
    let n = indent.len() as int;
    assert forall|i: int| 0 <= i < n implies stripped(#[trigger] s[i], false) by {
        assert(s[i] == indent[i]);
    }
    if rest.len() > 0 {
        assert(s[n] == rest[0]);
    }
    lemma_front_run(s, false, n);
    assert(s.skip(n) =~= rest);
    lemma_strip_back_prefix(rest, false);
    let core = strip(s, false);
    if rest.len() > 0 {
        assert(core[0] == rest[0]);
        if rest[0] != '#' && rest[0] != '[' {
            assert forall|i: int| 0 <= i < core.len() implies #[trigger] core[i] != '=' by {
                assert(core[i] == rest[i]);
            }
            lemma_equals_sign(core, 0, core.len() as int);
        }
    }
}

/// Law: digits make a number, one after the other. No digit makes zero; one more
/// multiplies by ten and adds itself, as long as the result fits; anything that is no
/// digit makes none.
pub proof fn law_digit_by_digit(
    digits: &[u8],
    more: &[u8],
    last: u8,
    n: Option<usize>,
    m: Option<usize>,
)
    requires
        more@ == digits@.push(last),
        call_ensures(parse_bytes, (digits,), n),
        call_ensures(parse_bytes, (more,), m),
    ensures
        digits@.len() == 0 ==> n == Some(0usize),
        !(0x30 <= last <= 0x39) ==> m is None,
        m is Some ==> n is Some,
        n matches Some(k) ==> 0x30 <= last <= 0x39 ==> {
            let v = k * 10 + (last - 0x30);
            if v <= usize::MAX {
                m matches Some(j) && j == v
            } else {
                m is None
            }
        },
{
    assert(more@.drop_last() =~= digits@);
    assert(more@.last() == last);
    assert(more@[digits@.len() as int] == last);
    assert forall|i: int| 0 <= i < digits@.len() implies #[trigger] digits@[i] == more@[i] by {}
    if self::digits(more@) {
        assert forall|i: int| 0 <= i < digits@.len() implies 0x30 <= #[trigger] digits@[i]
            <= 0x39 by {
            assert(more@[i] == digits@[i]);
        }
        lemma_decimal_not_negative(digits@);
    }
    if self::digits(digits@) && 0x30 <= last <= 0x39 {
        assert forall|i: int| 0 <= i < more@.len() implies 0x30 <= #[trigger] more@[i] <= 0x39 by {
            if i < digits@.len() {
                assert(more@[i] == digits@[i]);
            }
        }
    }
}

/// Law: a K stands for 1024. A size in KiB is 1024 times the number that the digits
/// make, if that fits; a size with a K behind it is its digits in KiB, one without
/// is its digits in bytes.
pub proof fn law_units(
    digits: &[u8],
    with_k: &[u8],
    n: Option<usize>,
    k: Option<usize>,
    plain: Option<usize>,
    scaled: Option<usize>,
)
    requires
        with_k@ == digits@.push(0x4B),
        call_ensures(parse_bytes, (digits,), n),
        call_ensures(parse_kib, (digits,), k),
        call_ensures(parse_size, (digits,), plain),
        call_ensures(parse_size, (with_k,), scaled),
    ensures
        k is Some <==> n is Some && n->0 * 1024 <= usize::MAX,
        k matches Some(bytes) ==> bytes == n->0 * 1024,
        scaled == k,
        digits@.len() == 0 || digits@.last() != 0x4B ==> plain == n,
{
    assert(with_k@.drop_last() =~= digits@);
    assert(with_k@.last() == 0x4B);
}

/// Law: which keys set sizes. The key of the heap is in KiB and that of the stacks
/// may carry a K; each comes out under its own name, and no other key does.
pub proof fn law_size_keys(
    key: &str,
    value: &[u8],
    r: Option<(&'static str, Option<usize>)>,
    kib_of: Option<usize>,
    size_of: Option<usize>,
)
    requires
        call_ensures(size_variable, (key, value), r),
        call_ensures(parse_kib, (value,), kib_of),
        call_ensures(parse_size, (value,), size_of),
    ensures
        r is Some <==> key@ == "heap_size_kb"@ || key@ == "stack_size"@,
        key@ == "heap_size_kb"@ ==> (r matches Some((name, n)) && name@
            == "KERNEL_CONFIG_HEAP_SIZE_BYTES"@ && n == kib_of),
        key@ == "stack_size"@ ==> (r matches Some((name, n)) && name@
            == "KERNEL_CONFIG_STACK_SIZE_BYTES"@ && n == size_of),
{
    reveal_strlit("heap_size_kb");
    reveal_strlit("stack_size");
    assert("heap_size_kb"@.len() == 12 && "stack_size"@.len() == 10);
}

/// Law: what the build writes the kernel reads. The digits that are written for a
/// number make that number when they are read, and no zero leads them.
pub proof fn law_number_reads_back(n: usize, text: String, bytes: &[u8], r: Option<usize>)
    requires
        call_ensures(write_decimal, (n,), text),
        bytes@ == vstd::utf8::encode_utf8(text@),
        call_ensures(parse_bytes, (bytes,), r),
    ensures
        r == Some(n),
        n > 0 ==> text@[0] != '0',
        n == 0 ==> text@ == seq!['0'],
{
    lemma_decimal_text(n as nat);
    lemma_no_leading_zero(n as nat);
}

proof fn lemma_no_leading_zero(n: nat)
    ensures
        decimal_text(n).len() > 0,
        n > 0 ==> decimal_text(n)[0] != '0',
        n == 0 ==> decimal_text(n) == seq!['0'],
    decreases n,
{
    if n >= 10 {
        lemma_no_leading_zero(n / 10);
        assert(decimal_text(n)[0] == decimal_text(n / 10)[0]);
    }
}

proof fn lemma_feed_shift(text: Seq<char>, d: int, from: int)
    requires
        0 <= d,
        0 <= from,
        d + from <= text.len(),
    ensures
        line_feed(text, d + from) == d + line_feed(text.skip(d), from),
        d + from <= line_feed(text, d + from) <= text.len(),
    decreases text.len() - from,
{
    let s = text.skip(d);
    if from < s.len() {
        assert(s[from] == text[d + from]);
        if s[from] != '\n' {
            lemma_feed_shift(text, d, from + 1);
            assert(d + (from + 1) == d + from + 1);
        }
    }
}

proof fn lemma_lines_shift(text: Seq<char>, d: int, from: int)
    requires
        0 <= d,
        0 <= from,
        d + from <= text.len(),
    ensures
        lines_from(text, d + from) == lines_from(text.skip(d), from),
    decreases text.len() - from,
{
    let s = text.skip(d);
    if from < s.len() {
        lemma_feed_shift(text, d, from);
        let end = line_feed(s, from);
        if end < s.len() {
            lemma_lines_shift(text, d, end + 1);
            assert(d + (end + 1) == d + end + 1);
            assert(s.subrange(from, end) =~= text.subrange(d + from, d + end));
        } else {
            assert(s.subrange(from, s.len() as int) =~= text.subrange(
                d + from,
                text.len() as int,
            ));
        }
    }
}

proof fn lemma_feed_at(text: Seq<char>, from: int, n: int)
    requires
        0 <= from <= n <= text.len(),
        forall|i: int| from <= i < n ==> #[trigger] text[i] != '\n',
        n < text.len() ==> text[n] == '\n',
    ensures
        line_feed(text, from) == n,
    decreases n - from,
{
    if from < n {
        assert(text[from] != '\n');
        lemma_feed_at(text, from + 1, n);
    }
}

/// Law: lines. A text without a line feed is one line, or none if it is empty; a
/// text in front of a line feed is one line, without the carriage return if it ends
/// in one, and what follows the line feed is lines of its own.
pub proof fn law_lines(first: Seq<char>, rest: Seq<char>)
    requires
        forall|i: int| 0 <= i < first.len() ==> #[trigger] first[i] != '\n',
    ensures
        lines_from(first, 0) == if first.len() == 0 {
            Seq::<Seq<char>>::empty()
        } else {
            seq![first]
        },
        first.len() == 0 || first.last() != '\r' ==> lines_from(
            first + seq!['\n'] + rest,
            0,
        ) == seq![first] + lines_from(rest, 0),
        first.len() > 0 && first.last() == '\r' ==> lines_from(
            first + seq!['\n'] + rest,
            0,
        ) == seq![first.drop_last()] + lines_from(rest, 0),
{
    let n = first.len() as int;
    lemma_feed_at(first, 0, n);
    assert(first.subrange(0, n) =~= first);
    let text = first + seq!['\n'] + rest;
    assert forall|i: int| 0 <= i < n implies #[trigger] text[i] != '\n' by {
        assert(text[i] == first[i]);
    }
    assert(text[n] == '\n');
    lemma_feed_at(text, 0, n);
    assert(text.subrange(0, n) =~= first);
    lemma_lines_shift(text, n + 1, 0);
    assert(text.skip(n + 1) =~= rest);
}

proof fn lemma_variables_concat(a: Seq<Seq<char>>, b: Seq<Seq<char>>)
    ensures
        variables(a + b) == match (variables(a), variables(b)) {
            (Some(x), Some(y)) => Some(x + y),
            _ => None,
        },
    decreases b.len(),
{
    if b.len() == 0 {
        assert(a + b =~= a);
        if let Some(x) = variables(a) {
            assert(x + Seq::<(Seq<char>, Seq<char>)>::empty() =~= x);
        }
    } else {
        lemma_variables_concat(a, b.drop_last());
        assert((a + b).drop_last() =~= a + b.drop_last());
        assert((a + b).last() == b.last());
        if let (Some(x), Some(y), Some(z)) = (
            variables(a),
            variables(b.drop_last()),
            line_variables(b.last()),
        ) {
            assert((x + y) + z =~= x + (y + z));
        }
    }
}

/// Law: a file is read line by line. What a text defines is what its first line
/// defines and then what the rest does, in that order; if either makes no sense,
/// the whole does not.
pub proof fn law_file_line_by_line(
    first: &str,
    rest: &str,
    text: &str,
    x: Option<Vec<(String, String)>>,
    y: Option<Vec<(String, String)>>,
    z: Option<Vec<(String, String)>>,
)
    requires
        forall|i: int| 0 <= i < first@.len() ==> #[trigger] first@[i] != '\n',
        first@.len() == 0 || first@.last() != '\r',
        text@ == first@ + seq!['\n'] + rest@,
        call_ensures(build_variables, (first,), x),
        call_ensures(build_variables, (rest,), y),
        call_ensures(build_variables, (text,), z),
    ensures
        z is Some <==> x is Some && y is Some,
        z is Some ==> texts(z->0@) == texts(x->0@) + texts(y->0@),
{
    law_lines(first@, rest@);
    let one = lines_from(first@, 0);
    let others = lines_from(rest@, 0);
    lemma_variables_concat(seq![first@], others);
    assert(seq![first@].drop_last() =~= Seq::<Seq<char>>::empty());
    assert(variables(Seq::<Seq<char>>::empty()) == Some(
        Seq::<(Seq<char>, Seq<char>)>::empty(),
    ));
    if first@.len() == 0 {
        assert(front_run(first@, false) == 0);
        assert(first@.skip(0) =~= first@);
        assert(strip(first@, false).len() == 0);
        assert(variables(seq![first@]) =~= Some(Seq::<(Seq<char>, Seq<char>)>::empty())) by {
            reveal_with_fuel(variables, 2);
            assert(Seq::<(Seq<char>, Seq<char>)>::empty() + Seq::<(Seq<char>, Seq<char>)>::empty()
                =~= Seq::<(Seq<char>, Seq<char>)>::empty());
        }
    }
}

/// Law: what one line comes to. A line that defines nothing comes to nothing; one
/// that defines something comes to that variable, under the common prefix; and if
/// its key sets a size, to the size in bytes as well, behind it. A size that makes no
/// sense stops the build.
pub proof fn law_one_line(
    line: &str,
    list: Option<Vec<(String, String)>>,
    parsed: Option<(String, String)>,
    own: Option<(String, String)>,
    key: &str,
    value: &[u8],
    size: Option<(&'static str, Option<usize>)>,
)
    requires
        forall|i: int| 0 <= i < line@.len() ==> #[trigger] line@[i] != '\n',
        call_ensures(build_variables, (line,), list),
        call_ensures(parse_line, (line,), parsed),
        call_ensures(build_variable, (line,), own),
        parsed matches Some((k, v)) ==> key@ == k@ && value@ == vstd::utf8::encode_utf8(v@),
        call_ensures(size_variable, (key, value), size),
    ensures
        own is Some <==> parsed is Some,
        parsed matches Some((k, v)) ==> {
            &&& (own->0).0@ == "KERNEL_CONFIG_"@ + uppercase(k@)
            &&& (own->0).1@ == v@
        },
        parsed is None ==> (list matches Some(l) && l@.len() == 0),
        parsed is Some && size is None ==> (list matches Some(l) && texts(l@) == seq![
            ((own->0).0@, (own->0).1@),
        ]),
        parsed is Some && size is Some && (size->0).1 is Some ==> (list matches Some(l) && texts(l@)
            == seq![
            ((own->0).0@, (own->0).1@),
            ((size->0).0@, decimal_text((size->0).1->0 as nat)),
        ]),
        parsed is Some && size is Some && (size->0).1 is None ==> list is None,
{
    law_lines(line@, Seq::empty());
    reveal_with_fuel(variables, 2);
    let none = Seq::<(Seq<char>, Seq<char>)>::empty();
    if line@.len() == 0 {
        assert(front_run(line@, false) == 0);
        assert(line@.skip(0) =~= line@);
        assert(strip(line@, false).len() == 0);
    } else {
        assert(seq![line@].drop_last() =~= Seq::<Seq<char>>::empty());
        assert(variables(lines_from(line@, 0)) == match line_variables(line@) {
            Some(vars) => Some(none + vars),
            None => None,
        });
        if let Some(vars) = line_variables(line@) {
            assert(none + vars =~= vars);
        }
    }
    if let Some(l) = list {
        assert(texts(l@).len() == l@.len());
    }
}

/// Law: a variable is named by the common prefix and its key, so different keys
/// have different variables.
pub proof fn law_names_of_variables(a: &str, b: &str, x: String, y: String)
    requires
        call_ensures(variable_name, (a,), x),
        call_ensures(variable_name, (b,), y),
    ensures
        x@.len() == a@.len() + 14,
        x@.subrange(0, 14) == "KERNEL_CONFIG_"@,
        x@.skip(14) == a@,
        x@ == y@ ==> a@ == b@,
{
    reveal_strlit("KERNEL_CONFIG_");
    assert("KERNEL_CONFIG_"@.len() == 14);
    assert(x@.subrange(0, 14) =~= "KERNEL_CONFIG_"@);
    assert(x@.skip(14) =~= a@);
    assert(y@.skip(14) =~= b@);
}

} // verus!
