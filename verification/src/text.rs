//! Text building blocks: numerals, line and word splitting.
use vstd::prelude::*;
use vstd::string::StringExecFns;

verus! {

/// `String::push` appends one character to the end of the string.
pub assume_specification[ String::push ](s: &mut String, c: char)
    ensures
        final(s)@ == old(s)@.push(c),
;

/// The characters with the Unicode property `White_Space`.
pub open spec fn white_space(c: char) -> bool {
    ||| '\t' <= c <= '\r'
    ||| c == ' '
    ||| c == '\u{85}'
    ||| c == '\u{a0}'
    ||| c == '\u{1680}'
    ||| '\u{2000}' <= c <= '\u{200a}'
    ||| c == '\u{2028}'
    ||| c == '\u{2029}'
    ||| c == '\u{202f}'
    ||| c == '\u{205f}'
    ||| c == '\u{3000}'
}

/// Calls `char::is_whitespace`, which tells the characters with the Unicode
/// property `White_Space`. The contract lists them.
#[verifier::external_body]
fn is_white_space(c: char) -> (res: bool)
    ensures
        res == white_space(c),
{
    c.is_whitespace()
}

/// The texts of a list of strings.
pub open spec fn texts(v: Seq<String>) -> Seq<Seq<char>> {
    Seq::new(v.len(), |i: int| v[i]@)
}

/// The characters of `s`, in order.
pub fn chars_of(s: &str) -> (res: Vec<char>)
    ensures
        res@ == s@,
{
    let mut res: Vec<char> = Vec::new();
    for c in it: s.chars()
        invariant
            it.seq() == s@,
            res@ == s@.take(it.index() as int),
    {
        res.push(c);
    }
    res
}

/// The string made of the given characters.
pub fn string_of(chars: &Vec<char>) -> (res: String)
    ensures
        res@ == chars@,
{
    let mut res = String::new();
    let mut i: usize = 0;
    while i < chars.len()
        invariant
            i <= chars@.len(),
            res@ == chars@.take(i as int),
        decreases chars@.len() - i,
    {
        res.push(chars[i]);
        assert(chars@.take(i + 1) == chars@.take(i as int).push(chars@[i as int]));
        i += 1;
    }
    assert(chars@.take(i as int) == chars@);
    res
}

/// Whether two texts hold the same characters.
pub fn same_text(a: &str, b: &str) -> (res: bool)
    ensures
        res == (a@ == b@),
{
    let a = a.to_owned();
    let b = b.to_owned();
    a == b
}

// ---------------------------------------------------------------------------
// Numerals
// ---------------------------------------------------------------------------

/// The decimal digit for a value below ten.
pub open spec fn digit(d: nat) -> char {
    (48 + d) as char
}

/// The decimal numeral of `n`, without leading zeros.
pub open spec fn decimal(n: nat) -> Seq<char>
    decreases n,
{
    if n < 10 {
        seq![digit(n)]
    } else {
        decimal(n / 10).push(digit(n % 10))
    }
}

/// The decimal numeral of `n`, padded to two digits with a zero.
pub open spec fn two_digits(n: nat) -> Seq<char> {
    if n < 10 {
        seq!['0', digit(n)]
    } else {
        decimal(n)
    }
}

/// Writes `n` in decimal.
pub fn decimal_text(n: u64) -> (res: String)
    ensures
        res@ == decimal(n as nat),
    decreases n,
{
    let mut res = if n < 10 {
        String::new()
    } else {
        decimal_text(n / 10)
    };
    let d: u8 = (n % 10) as u8;
    res.push((48 + d) as char);
    res
}

/// Writes `n` in decimal with at least two digits.
pub fn two_digits_text(n: u8) -> (res: String)
    ensures
        res@ == two_digits(n as nat),
{
    let mut res = String::new();
    if n < 10 {
        res.push('0');
    }
    let tail = decimal_text(n as u64);
    res.append(tail.as_str());
    assert(n < 10 ==> res@ == seq!['0', digit(n as nat)]);
    assert(n >= 10 ==> res@ == decimal(n as nat));
    res
}

/// The value of one hexadecimal digit of either case.
pub open spec fn hex_digit(c: char) -> Option<nat> {
    if '0' <= c <= '9' {
        Some((c as nat - 48) as nat)
    } else if 'a' <= c <= 'f' {
        Some((c as nat - 87) as nat)
    } else if 'A' <= c <= 'F' {
        Some((c as nat - 55) as nat)
    } else {
        None
    }
}

/// The value of a string of hexadecimal digits; `None` when another character
/// occurs in it.
pub open spec fn hex_digits_value(s: Seq<char>) -> Option<nat>
    decreases s.len(),
{
    if s.len() == 0 {
        Some(0)
    } else {
        match (hex_digits_value(s.drop_last()), hex_digit(s.last())) {
            (Some(v), Some(d)) => Some(16 * v + d),
            _ => None,
        }
    }
}

/// The value of a hexadecimal numeral with an optional leading `+`, when it is
/// well formed and fits in 32 bits.
pub open spec fn hex_u32(s: Seq<char>) -> Option<u32> {
    let digits = if s.len() > 0 && s[0] == '+' {
        s.skip(1)
    } else {
        s
    };
    match hex_digits_value(digits) {
        Some(v) => if digits.len() > 0 && v <= u32::MAX {
            Some(v as u32)
        } else {
            None
        },
        None => None,
    }
}

fn hex_digit_value(c: char) -> (res: Option<u32>)
    ensures
        res is Some == hex_digit(c) is Some,
        res matches Some(d) ==> hex_digit(c) == Some(d as nat) && d < 16,
{
    if '0' <= c && c <= '9' {
        Some(c as u32 - 48)
    } else if 'a' <= c && c <= 'f' {
        Some(c as u32 - 87)
    } else if 'A' <= c && c <= 'F' {
        Some(c as u32 - 55)
    } else {
        None
    }
}

proof fn lemma_hex_prefix(s: Seq<char>, k: int)
    requires
        0 <= k <= s.len(),
    ensures
        hex_digits_value(s.take(k)) is None ==> hex_digits_value(s) is None,
        hex_digits_value(s.take(k)) is Some && hex_digits_value(s) is Some
            ==> hex_digits_value(s.take(k))->0 <= hex_digits_value(s)->0,
    decreases s.len() - k,
{
    if k < s.len() {
        lemma_hex_prefix(s, k + 1);
        assert(s.take(k + 1).drop_last() == s.take(k));
    } else {
        assert(s.take(k) == s);
    }
}

/// Reads a hexadecimal numeral.
pub fn parse_hex_u32(s: &Vec<char>) -> (res: Option<u32>)
    ensures
        res == hex_u32(s@),
{
    let start: usize = if s.len() > 0 && s[0] == '+' {
        1
    } else {
        0
    };
    let ghost digits = if start == 1 {
        s@.skip(1)
    } else {
        s@
    };
    if start == s.len() {
        return None;
    }
    let mut v: u32 = 0;
    let mut i: usize = start;
    assert(digits.take(0) == Seq::<char>::empty());
    while i < s.len()
        invariant
            start <= 1,
            start <= i <= s@.len(),
            digits == (if start == 1 { s@.skip(1) } else { s@ }),
            start == (if s@.len() > 0 && s@[0] == '+' { 1int } else { 0int }),
            digits.len() > 0,
            hex_digits_value(digits.take(i - start)) == Some(v as nat),
        decreases s@.len() - i,
    {
        let ghost k = i - start;
        assert(digits.take(k + 1).drop_last() == digits.take(k));
        assert(digits.take(k + 1).last() == s@[i as int]);
        proof {
            lemma_hex_prefix(digits, k + 1);
        }
        match hex_digit_value(s[i]) {
            None => {
                return None;
            },
            Some(d) => {
                if v > (u32::MAX - d) / 16 {
                    return None;
                }
                v = v * 16 + d;
            },
        }
        i += 1;
    }
    assert(digits.take(i - start) == digits);
    Some(v)
}

// ---------------------------------------------------------------------------
// Lines
// ---------------------------------------------------------------------------

/// The number of characters before the first `c` in `s`, or all of them.
pub open spec fn run_before(s: Seq<char>, c: char) -> nat
    decreases s.len(),
{
    if s.len() == 0 || s[0] == c {
        0
    } else {
        1 + run_before(s.drop_first(), c)
    }
}

/// A line without the carriage return that precedes its line feed.
pub open spec fn strip_cr(line: Seq<char>) -> Seq<char> {
    if line.len() > 0 && line.last() == '\r' {
        line.drop_last()
    } else {
        line
    }
}

/// The lines of a text. A line ends at a line feed, which a carriage return
/// may precede; the last line needs no line feed.
pub open spec fn lines(s: Seq<char>) -> Seq<Seq<char>>
    decreases s.len(),
{
    let k = run_before(s, '\n') as int;
    if s.len() == 0 {
        seq![]
    } else if k >= s.len() {
        seq![s]
    } else {
        seq![strip_cr(s.take(k))] + lines(s.skip(k + 1))
    }
}

proof fn lemma_run_before(cur: Seq<char>, rest: Seq<char>, c: char)
    requires
        !cur.contains(c),
        rest.len() > 0 ==> rest[0] == c,
    ensures
        run_before(cur + rest, c) == cur.len(),
    decreases cur.len(),
{
    let all = cur + rest;
    if cur.len() > 0 {
        assert(cur.contains(cur[0]));
        assert forall|x: char| cur.drop_first().contains(x) implies cur.contains(x) by {
            let i = choose|i: int| 0 <= i < cur.drop_first().len() && cur.drop_first()[i] == x;
            assert(cur[i + 1] == x);
        }
        lemma_run_before(cur.drop_first(), rest, c);
        assert(all.drop_first() == cur.drop_first() + rest);
        assert(all[0] == cur[0]);
    } else if rest.len() > 0 {
        assert(all[0] == rest[0]);
    }
}

proof fn lemma_run_before_prefix(s: Seq<char>, t: Seq<char>, c: char)
    ensures
        run_before(s, c) <= s.len(),
        run_before(s, c) < s.len() ==> run_before(s + t, c) == run_before(s, c),
        s.len() > 0 && s.last() == c ==> run_before(s, c) < s.len(),
    decreases s.len(),
{
    if s.len() > 0 && s[0] != c {
        lemma_run_before_prefix(s.drop_first(), t, c);
        assert((s + t).drop_first() == s.drop_first() + t);
        assert(s.drop_first().len() > 0 ==> s.drop_first().last() == s.last());
    }
}

/// A line that is written, with a line feed, after full lines is the last line
/// of the text.
pub(crate) proof fn lemma_lines_append(s: Seq<char>, line: Seq<char>)
    requires
        s.len() == 0 || s.last() == '\n',
        !line.contains('\n'),
    ensures
        lines(s + line.push('\n')) == lines(s).push(strip_cr(line)),
    decreases s.len(),
{
    let tail = line.push('\n');
    let all = s + tail;
    if s.len() == 0 {
        assert(all == line + seq!['\n']);
        lemma_run_before(line, seq!['\n'], '\n');
        assert(all.take(line.len() as int) == line);
        assert(all.skip(line.len() as int + 1) == Seq::<char>::empty());
        assert(lines(Seq::<char>::empty()) == Seq::<Seq<char>>::empty());
        assert(lines(all) == lines(s).push(strip_cr(line)));
    } else {
        lemma_run_before_prefix(s, tail, '\n');
        let k = run_before(s, '\n') as int;
        let rest = s.skip(k + 1);
        assert(all.take(k) == s.take(k));
        assert(all.skip(k + 1) == rest + tail);
        lemma_lines_append(rest, line);
        let first = seq![strip_cr(s.take(k))];
        assert(first + lines(rest).push(strip_cr(line)) == (first + lines(rest)).push(
            strip_cr(line),
        ));
        assert(lines(all) == lines(s).push(strip_cr(line)));
    }
}

/// Splits a text into its lines.
pub fn lines_of(s: &str) -> (res: Vec<String>)
    ensures
        texts(res@) == lines(s@),
{
    let chars = chars_of(s);
    let mut res: Vec<String> = Vec::new();
    let mut cur: Vec<char> = Vec::new();
    let mut i: usize = 0;
    assert(cur@ + chars@.skip(0) == s@);
    assert(texts(res@) + lines(s@) == lines(s@));
    while i < chars.len()
        invariant
            i <= chars@.len(),
            !cur@.contains('\n'),
            texts(res@) + lines(cur@ + chars@.skip(i as int)) == lines(s@),
        decreases chars@.len() - i,
    {
        let c = chars[i];
        let ghost rest = chars@.skip(i as int);
        let ghost whole = cur@ + rest;
        let ghost before = cur@;
        let ghost done = res@;
        if c == '\n' {
            proof {
                lemma_run_before(cur@, rest, '\n');
                assert(whole.take(cur@.len() as int) == cur@);
                assert(whole.skip(cur@.len() as int + 1) == chars@.skip(i + 1));
            }
            if cur.len() > 0 && cur[cur.len() - 1] == '\r' {
                let _ = cur.pop();
                assert(cur@ == before.drop_last());
            }
            let line = string_of(&cur);
            assert(line@ == strip_cr(before));
            res.push(line);
            cur = Vec::new();
            assert(texts(res@) == texts(done) + seq![strip_cr(before)]);
            assert(cur@ + chars@.skip(i + 1) == chars@.skip(i + 1));
            assert(texts(res@) + lines(chars@.skip(i + 1)) == texts(done) + (seq![strip_cr(
                before,
            )] + lines(chars@.skip(i + 1))));
        } else {
            cur.push(c);
            assert(cur@ + chars@.skip(i + 1) == whole);
            assert(!cur@.contains('\n')) by {
                if cur@.contains('\n') {
                    let j = choose|j: int| 0 <= j < cur@.len() && cur@[j] == '\n';
                    assert(before[j] == '\n');
                }
            }
        }
        i += 1;
    }
    assert(cur@ + chars@.skip(i as int) == cur@);
    proof {
        lemma_run_before(cur@, seq![], '\n');
        assert(cur@ + seq![] == cur@);
    }
    if cur.len() > 0 {
        let ghost done = res@;
        let line = string_of(&cur);
        res.push(line);
        assert(texts(res@) == texts(done) + seq![cur@]);
    } else {
        assert(texts(res@) + lines(cur@) == texts(res@));
    }
    res
}

/// Whether a text holds white space only.
pub open spec fn blank(s: Seq<char>) -> bool {
    forall|i: int| 0 <= i < s.len() ==> white_space(#[trigger] s[i])
}

/// Decides whether a text is blank.
pub fn is_blank(s: &str) -> (res: bool)
    ensures
        res == blank(s@),
{
    let chars = chars_of(s);
    let mut i: usize = 0;
    while i < chars.len()
        invariant
            i <= chars@.len(),
            chars@ == s@,
            forall|j: int| 0 <= j < i ==> white_space(#[trigger] chars@[j]),
        decreases chars@.len() - i,
    {
        if !is_white_space(chars[i]) {
            return false;
        }
        i += 1;
    }
    true
}

// ---------------------------------------------------------------------------
// Words
// ---------------------------------------------------------------------------

/// The length of the run of non-white-space characters that `s` starts with.
pub open spec fn word_len(s: Seq<char>) -> nat
    decreases s.len(),
{
    if s.len() == 0 || white_space(s[0]) {
        0
    } else {
        1 + word_len(s.drop_first())
    }
}

/// A word is no longer than the text it starts.
pub proof fn lemma_word_len(s: Seq<char>)
    ensures
        word_len(s) <= s.len(),
    decreases s.len(),
{
    if s.len() != 0 && !white_space(s[0]) {
        lemma_word_len(s.drop_first());
    }
}

/// The maximal runs of non-white-space characters in `s`, in order.
pub open spec fn words(s: Seq<char>) -> Seq<Seq<char>>
    decreases s.len(),
{
    let k = word_len(s) as int;
    if s.len() == 0 {
        seq![]
    } else if k == 0 {
        words(s.drop_first())
    } else {
        proof {
            lemma_word_len(s);
        }
        seq![s.take(k)] + words(s.skip(k))
    }
}

/// The contents of a list of character lists.
pub open spec fn char_lists(v: Seq<Vec<char>>) -> Seq<Seq<char>> {
    Seq::new(v.len(), |i: int| v[i]@)
}

proof fn lemma_word_split(cur: Seq<char>, rest: Seq<char>)
    requires
        forall|i: int| 0 <= i < cur.len() ==> !white_space(#[trigger] cur[i]),
        rest.len() > 0 ==> white_space(rest[0]),
    ensures
        word_len(cur + rest) == cur.len(),
    decreases cur.len(),
{
    let all = cur + rest;
    if cur.len() > 0 {
        assert(all[0] == cur[0]);
        assert forall|i: int| 0 <= i < cur.drop_first().len() implies !white_space(
            #[trigger] cur.drop_first()[i],
        ) by {
            assert(!white_space(cur[i + 1]));
        }
        lemma_word_split(cur.drop_first(), rest);
        assert(all.drop_first() == cur.drop_first() + rest);
    } else if rest.len() > 0 {
        assert(all[0] == rest[0]);
    }
}

/// Splits a text at white space.
pub fn words_of(s: &str) -> (res: Vec<Vec<char>>)
    ensures
        char_lists(res@) == words(s@),
{
    let chars = chars_of(s);
    let mut res: Vec<Vec<char>> = Vec::new();
    let mut cur: Vec<char> = Vec::new();
    let mut i: usize = 0;
    assert(cur@ + chars@.skip(0) == s@);
    assert(char_lists(res@) + words(s@) == words(s@));
    while i < chars.len()
        invariant
            i <= chars@.len(),
            forall|j: int| 0 <= j < cur@.len() ==> !white_space(#[trigger] cur@[j]),
            char_lists(res@) + words(cur@ + chars@.skip(i as int)) == words(s@),
        decreases chars@.len() - i,
    {
        let c = chars[i];
        let ghost rest = chars@.skip(i as int);
        let ghost whole = cur@ + rest;
        let ghost before = cur@;
        let ghost done = res@;
        if is_white_space(c) {
            proof {
                lemma_word_split(cur@, rest);
                assert(whole.take(cur@.len() as int) == cur@);
                assert(whole.skip(cur@.len() as int) == rest);
                assert(rest.drop_first() == chars@.skip(i + 1));
                lemma_word_split(seq![], rest);
                assert(seq![] + rest == rest);
            }
            if cur.len() > 0 {
                res.push(cur);
                cur = Vec::new();
                assert(char_lists(res@) == char_lists(done) + seq![before]);
                assert(char_lists(res@) + words(rest) == char_lists(done) + (seq![before] + words(
                    rest,
                )));
            } else {
                assert(whole == rest);
            }
            assert(cur@ + chars@.skip(i + 1) == chars@.skip(i + 1));
        } else {
            cur.push(c);
            assert(cur@ + chars@.skip(i + 1) == whole);
        }
        i += 1;
    }
    assert(cur@ + chars@.skip(i as int) == cur@);
    proof {
        lemma_word_split(cur@, seq![]);
        assert(cur@ + seq![] == cur@);
        assert(cur@.take(cur@.len() as int) == cur@);
        assert(cur@.skip(cur@.len() as int) == Seq::<char>::empty());
    }
    if cur.len() > 0 {
        let ghost done = res@;
        let ghost before = cur@;
        res.push(cur);
        assert(char_lists(res@) == char_lists(done) + seq![before]);
        assert(words(before) == seq![before] + words(seq![]));
        assert(words(before) == seq![before]);
    } else {
        assert(char_lists(res@) + words(cur@) == char_lists(res@));
    }
    res
}

// ---------------------------------------------------------------------------
// Laws
// ---------------------------------------------------------------------------

/// The value of a string of decimal digits.
pub open spec fn decimal_value(s: Seq<char>) -> nat
    decreases s.len(),
{
    if s.len() == 0 {
        0
    } else {
        10 * decimal_value(s.drop_last()) + (s.last() as nat - '0' as nat) as nat
    }
}

/// A numeral is made of decimal digits, stands for its number, and has no zero in
/// front of other digits.
pub proof fn law_decimal(n: nat)
    ensures
        decimal_value(decimal(n)) == n,
        decimal(n).len() > 0,
        forall|i: int| 0 <= i < decimal(n).len() ==> '0' <= #[trigger] decimal(n)[i] <= '9',
        decimal(n)[0] == '0' ==> n == 0 && decimal(n).len() == 1,
    decreases n,
{
    if n < 10 {
        let s = decimal(n);
        assert(s.drop_last() == Seq::<char>::empty());
        reveal_with_fuel(decimal_value, 2);
    } else {
        law_decimal(n / 10);
        let s = decimal(n);
        assert(s.drop_last() == decimal(n / 10));
        assert(s[0] == decimal(n / 10)[0]);
        assert(s.last() == digit(n % 10));
        assert forall|i: int| 0 <= i < s.len() implies '0' <= #[trigger] s[i] <= '9' by {
            if i < s.len() - 1 {
                assert(s[i] == decimal(n / 10)[i]);
            }
        }
    }
}

/// A number below a hundred has two digits, which stand for it.
pub proof fn law_two_digits(n: nat)
    requires
        n < 100,
    ensures
        two_digits(n).len() == 2,
        decimal_value(two_digits(n)) == n,
        '0' <= two_digits(n)[0] <= '9',
        '0' <= two_digits(n)[1] <= '9',
{
    if n < 10 {
        let s = two_digits(n);
        assert(s.drop_last() == seq!['0']);
        assert(s.drop_last().drop_last() == Seq::<char>::empty());
        reveal_with_fuel(decimal_value, 3);
    } else {
        law_decimal(n);
        reveal_with_fuel(decimal, 2);
    }
}

/// A hexadecimal digit stands for its place among the digits, in either case, and
/// no other character is one.
pub proof fn law_hex_digit(c: char, d: nat)
    requires
        d < 16,
    ensures
        hex_digit(c) == Some(d) <==> c == "0123456789abcdef"@[d as int] || c
            == "0123456789ABCDEF"@[d as int],
{
    reveal_strlit("0123456789abcdef");
    reveal_strlit("0123456789ABCDEF");
}

/// Each digit more makes a numeral sixteen times as much, and the value of the
/// digit; a numeral with another character than a digit has no value. The value
/// of a numeral is taken as it is when there is a digit and it fits.
pub proof fn law_hex_numeral(s: Seq<char>, c: char)
    requires
        s.len() > 0,
        s[0] != '+',
    ensures
        hex_digits_value(Seq::<char>::empty()) == Some(0nat),
        hex_digits_value(s.push(c)) is Some <==> hex_digits_value(s) is Some && hex_digit(c)
            is Some,
        hex_digits_value(s.push(c)) is Some ==> hex_digits_value(s.push(c))->0 == 16
            * hex_digits_value(s)->0 + hex_digit(c)->0,
        hex_u32(s) is Some <==> hex_digits_value(s) is Some && hex_digits_value(s)->0
            <= 0xffff_ffff,
        hex_u32(s) is Some ==> hex_u32(s)->0 == hex_digits_value(s)->0,
        hex_u32(seq!['+'] + s) == hex_u32(s),
        hex_u32(seq!['+']) is None,
        hex_u32(Seq::<char>::empty()) is None,
{
    assert(s.push(c).drop_last() == s);
    assert((seq!['+'] + s).skip(1) == s);
    assert(seq!['+'].skip(1) == Seq::<char>::empty());
}

/// A text is split at its first line feed: what comes before is the first line,
/// without the carriage return before the line feed, and the lines of what comes
/// after follow. A text without a line feed is one line, and an empty text none.
pub proof fn law_lines(first: Seq<char>, rest: Seq<char>)
    requires
        !first.contains('\n'),
    ensures
        lines(first.push('\n') + rest) == seq![
            if first.len() > 0 && first.last() == '\r' {
                first.drop_last()
            } else {
                first
            },
        ] + lines(rest),
        first.len() > 0 ==> lines(first) == seq![first],
        lines(Seq::<char>::empty()).len() == 0,
{
    let all = first.push('\n') + rest;
    let tail = seq!['\n'] + rest;
    let k = first.len() as int;
    assert(all == first + tail);
    lemma_run_before(first, tail, '\n');
    assert(all.take(k) == first);
    assert(all.skip(k + 1) == rest);
    assert(first + Seq::<char>::empty() == first);
    lemma_run_before(first, Seq::<char>::empty(), '\n');
}

/// No line holds a line feed.
pub proof fn law_lines_are_lines(s: Seq<char>, i: int)
    requires
        0 <= i < lines(s).len(),
    ensures
        !lines(s)[i].contains('\n'),
    decreases s.len(),
{
    let k = run_before(s, '\n') as int;
    lemma_no_earlier(s, '\n');
    if k >= s.len() {
        assert(s.take(k) == s);
    } else if i == 0 {
        assert(lines(s)[0] == strip_cr(s.take(k)));
        assert forall|j: int| 0 <= j < lines(s)[0].len() implies lines(s)[0][j] != '\n' by {
            assert(s.take(k)[j] == lines(s)[0][j]);
            assert(s.take(k).contains(s.take(k)[j]));
        }
    } else {
        assert(lines(s)[i] == lines(s.skip(k + 1))[i - 1]);
        law_lines_are_lines(s.skip(k + 1), i - 1);
    }
}

proof fn lemma_no_earlier(s: Seq<char>, c: char)
    ensures
        run_before(s, c) <= s.len(),
        !s.take(run_before(s, c) as int).contains(c),
        run_before(s, c) < s.len() ==> s[run_before(s, c) as int] == c,
    decreases s.len(),
{
    if s.len() > 0 && s[0] != c {
        lemma_no_earlier(s.drop_first(), c);
        let k = run_before(s, c) as int;
        let t = s.drop_first().take(k - 1);
        assert forall|i: int| 0 <= i < k implies s.take(k)[i] != c by {
            if i > 0 {
                assert(s.take(k)[i] == t[i - 1]);
                assert(t.contains(t[i - 1]));
            }
        }
    }
}

/// A text that holds white space between two others has the words of the first,
/// followed by those of the second; a text without white space is one word, and
/// an empty text none.
pub proof fn law_words(a: Seq<char>, c: char, b: Seq<char>)
    requires
        white_space(c),
    ensures
        words(a.push(c) + b) == words(a) + words(b),
        a.len() > 0 && (forall|i: int| 0 <= i < a.len() ==> !white_space(#[trigger] a[i]))
            ==> words(a) == seq![a],
        words(Seq::<char>::empty()).len() == 0,
    decreases a.len(),
{
    let all = a.push(c) + b;
    if a.len() == 0 {
        assert(all.drop_first() == b);
        assert(words(a) + words(b) == words(b));
    } else if white_space(a[0]) {
        assert(all.drop_first() == a.drop_first().push(c) + b);
        law_words(a.drop_first(), c, b);
    } else {
        lemma_word_len(a);
        lemma_word_stop(a);
        let k = word_len(a) as int;
        let w = a.take(k);
        let rest = a.skip(k).push(c) + b;
        assert(all == w + rest);
        if k < a.len() {
            assert(rest[0] == a[k]);
        } else {
            assert(rest[0] == c);
        }
        lemma_word_split(w, rest);
        assert(all.take(k) == w);
        assert(all.skip(k) == rest);
        law_words(a.skip(k), c, b);
        let one = seq![w];
        assert(words(all) == one + words(rest));
        assert(one + (words(a.skip(k)) + words(b)) == (one + words(a.skip(k))) + words(b));
        if forall|i: int| 0 <= i < a.len() ==> !white_space(#[trigger] a[i]) {
            assert(k == a.len());
            assert(a.take(k) == a);
            assert(a.skip(k) == Seq::<char>::empty());
            assert(words(a) == seq![a]);
        }
    }
}

proof fn lemma_word_stop(s: Seq<char>)
    ensures
        forall|i: int| 0 <= i < word_len(s) ==> !white_space(#[trigger] s[i]),
        word_len(s) < s.len() ==> white_space(s[word_len(s) as int]),
        forall|i: int|
            0 <= i < word_len(s) && word_len(s) <= s.len() ==> !white_space(
                #[trigger] s.take(word_len(s) as int)[i],
            ),
    decreases s.len(),
{
    if s.len() > 0 && !white_space(s[0]) {
        let d = s.drop_first();
        lemma_word_stop(d);
        lemma_word_len(d);
        assert forall|i: int| 0 <= i < word_len(s) implies !white_space(#[trigger] s[i]) by {
            if i > 0 {
                assert(!white_space(d[i - 1]));
            }
        }
    }
}

/// What a text gains after complete lines: the line that is being written goes on
/// with a value and a text.
pub(crate) proof fn lemma_line_goes_on(
    done: Seq<Seq<char>>,
    text: Seq<char>,
    open: Seq<char>,
    value: Seq<char>,
    more: Seq<char>,
)
    requires
        text == done.flatten() + open,
    ensures
        text + value + more == done.flatten() + (open + value + more),
{
    assert(text + value + more == done.flatten() + (open + value + more));
}

/// What a text gains after complete lines: the line that is being written ends
/// after a value, and the next begins.
pub(crate) proof fn lemma_line_ends(
    done: Seq<Seq<char>>,
    text: Seq<char>,
    open: Seq<char>,
    value: Seq<char>,
    more: Seq<char>,
    end: Seq<char>,
    label: Seq<char>,
)
    requires
        text == done.flatten() + open,
        more == end + label,
    ensures
        text + value + more == done.push(open + value + end).flatten() + label,
{
    done.lemma_flatten_push(open + value + end);
    assert(text + value + more == (done.flatten() + (open + value + end)) + label);
}

/// A text is blank exactly when it has no words.
pub proof fn law_blank_has_no_words(s: Seq<char>)
    ensures
        blank(s) <==> words(s).len() == 0,
    decreases s.len(),
{
    if s.len() > 0 {
        if white_space(s[0]) {
            law_blank_has_no_words(s.drop_first());
            if blank(s.drop_first()) {
                assert forall|i: int| 0 <= i < s.len() implies white_space(#[trigger] s[i]) by {
                    if i > 0 {
                        assert(s.drop_first()[i - 1] == s[i]);
                    }
                }
            }
            if blank(s) {
                assert forall|i: int| 0 <= i < s.drop_first().len() implies white_space(
                    #[trigger] s.drop_first()[i],
                ) by {
                    assert(white_space(s[i + 1]));
                }
            }
        } else {
            assert(!blank(s));
            assert(words(s).len() > 0);
        }
    }
}

/// A list of strings has the text of each, in order, and a list of character lists
/// the characters of each.
pub proof fn law_texts(v: Seq<String>, w: Seq<Vec<char>>, i: int)
    ensures
        texts(v).len() == v.len(),
        0 <= i < v.len() ==> texts(v)[i] == v[i]@,
        char_lists(w).len() == w.len(),
        0 <= i < w.len() ==> char_lists(w)[i] == w[i]@,
{
}

} // verus!
