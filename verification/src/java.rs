//! The version of Java that is installed.
use crate::pattern::captures;
use crate::pattern::is_quoted;
use crate::pattern::is_version;
use crate::pattern::lemma_match_place;
use crate::pattern::lies_in;
use crate::pattern::quotes_version;
use crate::pattern::regex_captures;
use crate::pattern::JAVA_VERSION;
use crate::text::lossy_text;
use crate::text::part;
use crate::text::to_chars;
use crate::text::utf8_lossy;
use vstd::prelude::*;
use vstd::slice::slice_subrange;
use vstd::utf8::decode_utf8;
use vstd::utf8::valid_utf8;

verus! {

/// Why the version of Java could not be found out.
#[derive(Debug)]
pub enum JavaError {
    /// What `java -version` printed holds no version.
    NoVersion(String),
    /// The version is empty.
    Empty,
    /// The version holds something else than a decimal digit.
    InvalidDigit,
    /// The version is too large.
    TooLarge,
}

impl JavaError {
    /// What the user is told.
    pub fn message(&self) -> (r: String)
        ensures
            r@ == match *self {
                JavaError::NoVersion(text) =>
                    "Could not extract Java major version from java -version output:\n"@ + text@,
                JavaError::Empty => "cannot parse integer from empty string"@,
                JavaError::InvalidDigit => "invalid digit found in string"@,
                JavaError::TooLarge => "number too large to fit in target type"@,
            },
    {
        match self {
            JavaError::NoVersion(text) => {
                "Could not extract Java major version from java -version output:\n".to_string().concat(
                    text.as_str(),
                )
            },
            JavaError::Empty => "cannot parse integer from empty string".to_string(),
            JavaError::InvalidDigit => "invalid digit found in string".to_string(),
            JavaError::TooLarge => "number too large to fit in target type".to_string(),
        }
    }
}

// ---------------------------------------------------------------------------------------------
// Model
// ---------------------------------------------------------------------------------------------

/// An ASCII decimal digit.
pub open spec fn digit(c: char) -> bool {
    '0' <= c <= '9'
}

/// How many digits `s` begins with.
pub open spec fn digits(s: Seq<char>) -> nat
    decreases s.len(),
{
    if s.len() > 0 && digit(s[0]) {
        1 + digits(s.skip(1))
    } else {
        0
    }
}

/// The number that a row of digits means.
pub open spec fn value(s: Seq<char>) -> nat
    decreases s.len(),
{
    if s.len() == 0 {
        0
    } else {
        10 * value(s.drop_last()) + (s.last() as nat - '0' as nat) as nat
    }
}

/// `s` without the sign that may stand before a number.
pub open spec fn unsigned(s: Seq<char>) -> Seq<char> {
    if s.len() > 1 && s[0] == '+' {
        s.skip(1)
    } else {
        s
    }
}

/// The number that a text means, read from left to right: the digits come to a number that is not too
/// large, and nothing follows them.
pub open spec fn number_of(s: Seq<char>) -> Result<nat, JavaError> {
    let t = unsigned(s);
    let n = digits(t) as int;
    if s.len() == 0 {
        Err(JavaError::Empty)
    } else if value(t.take(n)) > u32::MAX {
        Err(JavaError::TooLarge)
    } else if n < t.len() {
        Err(JavaError::InvalidDigit)
    } else {
        Ok(value(t))
    }
}

// ---------------------------------------------------------------------------------------------
// Operations
// ---------------------------------------------------------------------------------------------

proof fn lemma_digits(s: Seq<char>)
    ensures
        digits(s) <= s.len(),
        forall|i: int| 0 <= i < digits(s) ==> digit(#[trigger] s[i]),
        digits(s) < s.len() ==> !digit(s[digits(s) as int]),
    decreases s.len(),
{
    if s.len() > 0 && digit(s[0]) {
        lemma_digits(s.skip(1));
        assert forall|i: int| 0 <= i < digits(s) implies digit(#[trigger] s[i]) by {
            if i > 0 {
                assert(s[i] == s.skip(1)[i - 1]);
            }
        }
    }
}

proof fn lemma_value_grows(s: Seq<char>, i: int, j: int)
    requires
        0 <= i <= j <= s.len(),
        forall|k: int| 0 <= k < j ==> digit(#[trigger] s[k]),
    ensures
        value(s.take(i)) <= value(s.take(j)),
    decreases j,
{
    if i < j {
        lemma_value_grows(s, i, j - 1);
        assert(s.take(j).drop_last() == s.take(j - 1));
    }
}

/// Reads a number.
pub fn parse_u32(text: &str) -> (r: Result<u32, JavaError>)
    ensures
        match number_of(text@) {
            Ok(n) => r matches Ok(v) && v == n,
            Err(e) => r matches Err(found) && found == e,
        },
{
    let all = to_chars(text);
    if all.len() == 0 {
        return Err(JavaError::Empty);
    }
    let from: usize = if all.len() > 1 && all[0] == '+' {
        1
    } else {
        0
    };
    let chars = slice_subrange(all.as_slice(), from, all.len());
    let ghost s = unsigned(text@);
    assert(chars@ == s);
    let mut number: u32 = 0;
    let mut i: usize = 0;
    let ghost n = digits(s) as int;
    proof {
        lemma_digits(s);
        assert(s.take(0) == Seq::<char>::empty());
    }
    while i < chars.len()
        invariant
            chars@ == s,
            s == unsigned(text@),
            text@.len() > 0,
            n == digits(s),
            i <= n <= chars@.len(),
            forall|k: int| 0 <= k < n ==> digit(#[trigger] s[k]),
            n < s.len() ==> !digit(s[n]),
            number == value(s.take(i as int)),
        decreases chars@.len() - i,
    {
        let c = chars[i];
        if c < '0' || c > '9' {
            assert(i == n) by {
                if i < n {
                    assert(digit(s[i as int]));
                }
            }
            return Err(JavaError::InvalidDigit);
        }
        assert(i < n) by {
            if i == n {
                assert(!digit(s[n]));
            }
        }
        proof {
            assert(s.take(i + 1).drop_last() == s.take(i as int));
            lemma_value_grows(s, i + 1, n);
        }
        let d: u32 = c as u32 - '0' as u32;
        let next: u64 = 10 * (number as u64) + d as u64;
        if next > u32::MAX as u64 {
            return Err(JavaError::TooLarge);
        }
        number = next as u32;
        i = i + 1;
    }
    assert(s.take(n) == s);
    Ok(number)
}

/// The major version in what `java -version` printed, if there is one.
pub open spec fn version_in(text: Seq<char>) -> Option<Seq<char>> {
    match regex_captures(JAVA_VERSION@, text) {
        Some(m) => m.groups[1],
        None => None,
    }
}

/// The major version of Java, from the bytes that `java -version` printed. There is none if and only if
/// they hold no version between quotes. Bytes that are valid UTF-8 are read as they are.
pub fn get_java_major_version(stderr: &[u8]) -> (r: Result<u32, JavaError>)
    ensures
        match version_in(lossy_text(stderr@)) {
            Some(version) => match number_of(version) {
                Ok(n) => r matches Ok(v) && v == n,
                Err(e) => r matches Err(found) && found == e,
            },
            None => r matches Err(JavaError::NoVersion(text)) && text@ == lossy_text(stderr@),
        },
        is_version(regex_captures(JAVA_VERSION@, lossy_text(stderr@)), lossy_text(stderr@)),
        regex_captures(JAVA_VERSION@, lossy_text(stderr@)) matches Some(m) ==> lies_in(
            m,
            lossy_text(stderr@),
        ),
        valid_utf8(stderr@) ==> lossy_text(stderr@) == decode_utf8(stderr@),
{
    let text = utf8_lossy(stderr);
    match captures(JAVA_VERSION, text.as_str()) {
        Ok(Some(m)) => match &m.groups[1] {
            Some(version) => {
                assert(m@.groups[1] == Some(version@));
                parse_u32(version.as_str())
            },
            None => {
                assert(m@.groups[1] is None);
                Err(JavaError::NoVersion(text))
            },
        },
        Ok(None) => Err(JavaError::NoVersion(text)),
        Err(_) => Err(JavaError::NoVersion(text)),
    }
}

// ---------------------------------------------------------------------------------------------
// Numbers as text
// ---------------------------------------------------------------------------------------------

/// The digit with the given value.
pub open spec fn digit_char(d: nat) -> char {
    ('0' as nat + d) as char
}

/// A number as text.
pub open spec fn decimal(n: nat) -> Seq<char>
    decreases n,
{
    if n < 10 {
        seq![digit_char(n)]
    } else {
        decimal(n / 10).push(digit_char(n % 10))
    }
}

/// A number as text.
pub fn to_decimal(n: u32) -> (r: String)
    ensures
        r@ == decimal(n as nat),
    decreases n,
{
    let d: u8 = 48 + (n % 10) as u8;
    let mut r = if n < 10 {
        String::new()
    } else {
        to_decimal(n / 10)
    };
    r.push(d as char);
    assert(d as char == digit_char((n % 10) as nat));
    r
}

proof fn lemma_decimal(n: nat)
    ensures
        decimal(n).len() > 0,
        forall|i: int| 0 <= i < decimal(n).len() ==> digit(#[trigger] decimal(n)[i]),
        value(decimal(n)) == n,
    decreases n,
{
    let s = decimal(n);
    if n < 10 {
        assert(s.drop_last() == Seq::<char>::empty());
        assert(value(s.drop_last()) == 0);
        assert(s.last() == digit_char(n));
    } else {
        lemma_decimal(n / 10);
        assert(s.drop_last() == decimal(n / 10));
        assert(s.last() == digit_char(n % 10));
    }
}

proof fn lemma_all_digits(s: Seq<char>)
    requires
        forall|i: int| 0 <= i < s.len() ==> digit(#[trigger] s[i]),
    ensures
        digits(s) == s.len(),
    decreases s.len(),
{
    if s.len() > 0 {
        assert(digit(s[0]));
        assert forall|i: int| 0 <= i < s.skip(1).len() implies digit(#[trigger] s.skip(1)[i]) by {
            assert(digit(s[i + 1]));
        }
        lemma_all_digits(s.skip(1));
    }
}

/// A number that is written is read back.
pub proof fn law_written_number_is_read(n: u32)
    ensures
        number_of(decimal(n as nat)) == Ok::<nat, JavaError>(n as nat),
{
    let s = decimal(n as nat);
    lemma_decimal(n as nat);
    lemma_all_digits(s);
    assert(digit(s[0]));
    assert(unsigned(s) == s);
    assert(s.take(s.len() as int) == s);
}

/// What is read as a number: a row of decimal digits that is not too large, each digit counting ten times
/// what the next one does. A plus sign before it does not matter; anything else is refused.
pub proof fn law_numbers(s: Seq<char>, c: char, rest: Seq<char>)
    requires
        s.len() > 0,
        forall|i: int| 0 <= i < s.len() ==> '0' <= #[trigger] s[i] <= '9',
        !('0' <= c <= '9'),
    ensures
        value(s) == 10 * value(s.drop_last()) + (s.last() as nat - '0' as nat),
        value(Seq::empty()) == 0,
        value(s) <= 4294967295 ==> number_of(s) == Ok::<nat, JavaError>(value(s)),
        value(s) > 4294967295 ==> number_of(s) == Err::<nat, JavaError>(JavaError::TooLarge),
        number_of(seq!['+'] + s) == number_of(s),
        value(s) <= 4294967295 ==> number_of(s + seq![c] + rest) == Err::<nat, JavaError>(
            JavaError::InvalidDigit,
        ),
        value(s) > 4294967295 ==> number_of(s + seq![c] + rest) == Err::<nat, JavaError>(
            JavaError::TooLarge,
        ),
        rest.len() > 0 && rest[0] != '+' ==> number_of(seq!['+'] + rest) == number_of(rest),
        rest.len() > 0 && rest[0] == '+' ==> number_of(seq!['+'] + rest) == Err::<nat, JavaError>(
            JavaError::InvalidDigit,
        ),
        c != '+' || rest.len() == 0 ==> number_of(seq![c] + rest) == Err::<nat, JavaError>(
            JavaError::InvalidDigit,
        ),
        number_of(Seq::empty()) == Err::<nat, JavaError>(JavaError::Empty),
{
    lemma_all_digits(s);
    assert(digit(s[0]));
    assert(unsigned(s) == s);
    assert(s.take(s.len() as int) == s);
    assert((seq!['+'] + s).skip(1) == s);
    assert(unsigned(seq!['+'] + s) == s);
    let more = s + seq![c] + rest;
    assert(more[0] == s[0]);
    assert(unsigned(more) == more);
    lemma_digits_before(s, c, rest);
    assert(more.take(s.len() as int) == s);
    let none = Seq::<char>::empty();
    if rest.len() > 0 {
        assert((seq!['+'] + rest).skip(1) == rest);
        assert(rest.take(0) == none);
    }
    lemma_digits_before(none, c, rest);
    let other = seq![c] + rest;
    assert(none + seq![c] + rest == other);
    assert(other.take(0) == none);
    if c != '+' || rest.len() == 0 {
        assert(unsigned(other) == other);
    }
}

proof fn lemma_digits_before(s: Seq<char>, c: char, rest: Seq<char>)
    requires
        forall|i: int| 0 <= i < s.len() ==> digit(#[trigger] s[i]),
        !digit(c),
    ensures
        digits(s + seq![c] + rest) == s.len(),
    decreases s.len(),
{
    let all = s + seq![c] + rest;
    if s.len() == 0 {
        assert(all[0] == c);
    } else {
        assert(digit(s[0]));
        assert(all[0] == s[0]);
        let tail = s.skip(1);
        assert forall|i: int| 0 <= i < tail.len() implies digit(#[trigger] tail[i]) by {
            assert(digit(s[i + 1]));
        }
        assert(all.skip(1) == tail + seq![c] + rest);
        lemma_digits_before(tail, c, rest);
    }
}

/// The version is that in the first quotes, where these hold one in the usual form, with or without the
/// `1.` of old versions; without quoted digits there is none.
pub proof fn law_version_is_quoted(text: Seq<char>, version: Seq<char>)
    requires
        is_version(regex_captures(JAVA_VERSION@, text), text),
        regex_captures(JAVA_VERSION@, text) matches Some(m) ==> lies_in(m, text),
    ensures
        quotes_version(text, version) ==> version_in(text) == Some(version),
        regex_captures(JAVA_VERSION@, text) matches Some(m) ==> version_in(text) == m.groups[1],
        version_in(text) is None <==> forall|
            i: int,
            j: int,
            prefix: Seq<char>,
            number: Seq<char>,
            middle: Seq<char>,
        |
            0 <= i <= j <= text.len() ==> !#[trigger] is_quoted(
                text.subrange(i, j),
                prefix,
                number,
                middle,
            ),
{
    if let Some(m) = regex_captures(JAVA_VERSION@, text) {
        lemma_match_place(text, m);
        let (prefix, middle) = choose|prefix: Seq<char>, middle: Seq<char>|
            is_quoted(part(text, m.start, m.end), prefix, m.groups[1]->0, middle);
        let i = part(text, 0, m.start).len() as int;
        let j = part(text, 0, m.end).len() as int;
        assert(is_quoted(text.subrange(i, j), prefix, m.groups[1]->0, middle));
    }
}

/// A number is written without zeros before it.
pub proof fn law_no_leading_zeros(n: nat)
    ensures
        n > 0 ==> decimal(n)[0] != '0',
        decimal(0) == seq!['0'],
        decimal(n).len() > 0,
    decreases n,
{
    lemma_decimal(n);
    assert(digit_char(0) == '0');
    if n >= 10 {
        law_no_leading_zeros(n / 10);
        assert(decimal(n)[0] == decimal(n / 10)[0]);
    }
}

} // verus!
