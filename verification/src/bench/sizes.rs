//! Byte counts as they are written on the command line.

use vstd::prelude::*;

verus! {

/// Why a byte count could not be read.
#[derive(Debug, Clone, Copy, PartialEq, Eq, Structural)]
pub enum ByteSizeError {
    /// There is no number
    Empty,
    /// A character is not a digit
    InvalidDigit,
    /// The number does not fit 64 bits
    PosOverflow,
}

impl ByteSizeError {
    /// The error in words.
    pub fn message(&self) -> (text: &'static str)
        ensures
            text@ == match *self {
                ByteSizeError::Empty => "cannot parse integer from empty string"@,
                ByteSizeError::InvalidDigit => "invalid digit found in string"@,
                ByteSizeError::PosOverflow => "number too large to fit in target type"@,
            },
    {
        match self {
            ByteSizeError::Empty => "cannot parse integer from empty string",
            ByteSizeError::InvalidDigit => "invalid digit found in string",
            ByteSizeError::PosOverflow => "number too large to fit in target type",
        }
    }
}

/// Whether a character has the Unicode property `White_Space`.
pub open spec fn is_white_space(c: char) -> bool {
    let n = c as u32;
    ||| 0x09 <= n <= 0x0d
    ||| n == 0x20
    ||| n == 0x85
    ||| n == 0xa0
    ||| n == 0x1680
    ||| 0x2000 <= n <= 0x200a
    ||| n == 0x2028
    ||| n == 0x2029
    ||| n == 0x202f
    ||| n == 0x205f
    ||| n == 0x3000
}

/// `s` without white space at its start.
pub open spec fn trim_start(s: Seq<char>) -> Seq<char>
    decreases s.len(),
{
    if s.len() > 0 && is_white_space(s[0]) {
        trim_start(s.drop_first())
    } else {
        s
    }
}

/// `s` without white space at its end.
pub open spec fn trim_end(s: Seq<char>) -> Seq<char>
    decreases s.len(),
{
    if s.len() > 0 && is_white_space(s.last()) {
        trim_end(s.drop_last())
    } else {
        s
    }
}

/// `s` without white space around it.
pub open spec fn trimmed(s: Seq<char>) -> Seq<char> {
    trim_end(trim_start(s))
}

/// What the last character multiplies the number before it by, if it is a suffix.
pub open spec fn suffix_factor(s: Seq<char>) -> Option<nat> {
    if s.len() == 0 {
        None
    } else if s.last() == 'T' {
        Some(1024 * 1024 * 1024 * 1024)
    } else if s.last() == 'G' {
        Some(1024 * 1024 * 1024)
    } else if s.last() == 'M' {
        Some(1024 * 1024)
    } else if s.last() == 'k' {
        Some(1024)
    } else {
        None
    }
}

/// Whether a character is a decimal digit.
pub open spec fn is_digit(c: char) -> bool {
    '0' <= c <= '9'
}

/// The number that decimal digits stand for.
pub open spec fn decimal_value(s: Seq<char>) -> nat
    decreases s.len(),
{
    if s.len() == 0 {
        0
    } else {
        decimal_value(s.drop_last()) * 10 + (s.last() as u32 - '0' as u32) as nat
    }
}

/// How many characters come before the first that is not a digit.
pub open spec fn leading_digits(s: Seq<char>) -> nat
    decreases s.len(),
{
    if s.len() > 0 && is_digit(s[0]) {
        1 + leading_digits(s.drop_first())
    } else {
        0
    }
}

/// The digits of a number that may have a plus sign in front.
pub open spec fn unsigned_part(s: Seq<char>) -> Seq<char> {
    if s.len() > 1 && s[0] == '+' {
        s.drop_first()
    } else {
        s
    }
}

/// The number that a text stands for: decimal digits, perhaps after a plus sign. The first
/// character at which that fails decides what is wrong.
pub open spec fn number(s: Seq<char>) -> Result<nat, ByteSizeError> {
    let digits = unsigned_part(s);
    let n = leading_digits(digits);
    if s.len() == 0 {
        Err(ByteSizeError::Empty)
    } else if decimal_value(digits.take(n as int)) > u64::MAX {
        Err(ByteSizeError::PosOverflow)
    } else if n < digits.len() {
        Err(ByteSizeError::InvalidDigit)
    } else {
        Ok(decimal_value(digits))
    }
}

/// The number and the factor that a byte count is written with.
pub open spec fn size_parts(s: Seq<char>) -> Result<(nat, nat), ByteSizeError> {
    let t = trimmed(s);
    let (text, factor) = match suffix_factor(t) {
        Some(factor) => (t.drop_last(), factor),
        None => (t, 1),
    };
    match number(text) {
        Ok(n) => Ok((n, factor)),
        Err(e) => Err(e),
    }
}

fn white_space(c: char) -> (r: bool)
    ensures
        r == is_white_space(c),
{
    let n: u32 = c as u32;
    (0x09 <= n && n <= 0x0d) || n == 0x20 || n == 0x85 || n == 0xa0 || n == 0x1680 || (0x2000 <= n
        && n <= 0x200a) || n == 0x2028 || n == 0x2029 || n == 0x202f || n == 0x205f || n == 0x3000
}

fn to_chars(s: &str) -> (r: Vec<char>)
    ensures
        r@ == s@,
{
    let mut r: Vec<char> = Vec::new();
    for c in it: s.chars()
        invariant
            it.seq() == s@,
            r@ =~= s@.take(it.index()),
    {
        r.push(c);
    }
    r
}

proof fn lemma_trim_start(s: Seq<char>, k: int)
    requires
        0 <= k <= s.len(),
        forall|i: int| 0 <= i < k ==> is_white_space(#[trigger] s[i]),
    ensures
        trim_start(s) == trim_start(s.skip(k)),
    decreases k,
{
    if k == 0 {
        assert(s.skip(0) =~= s);
    } else {
        assert(is_white_space(s[0]));
        let rest = s.drop_first();
        assert forall|i: int| 0 <= i < k - 1 implies is_white_space(#[trigger] rest[i]) by {
            assert(rest[i] == s[i + 1]);
        }
        lemma_trim_start(rest, k - 1);
        assert(rest.skip(k - 1) =~= s.skip(k));
    }
}

/// The part of `s` between the white space around it.
fn trim(s: &Vec<char>) -> (r: (usize, usize))
    ensures
        r.0 <= r.1 <= s@.len(),
        s@.subrange(r.0 as int, r.1 as int) == trimmed(s@),
{
    let n: usize = s.len();
    let mut start: usize = 0;
    while start < n && white_space(s[start])
        invariant
            start <= n == s@.len(),
            forall|i: int| 0 <= i < start ==> is_white_space(#[trigger] s@[i]),
        decreases n - start,
    {
        start += 1;
    }
    proof {
        lemma_trim_start(s@, start as int);
        assert(start < n ==> s@.skip(start as int)[0] == s@[start as int]);
        assert(s@.subrange(start as int, n as int) =~= s@.skip(start as int));
    }
    let mut end: usize = n;
    while end > start && white_space(s[end - 1])
        invariant
            start <= end <= n == s@.len(),
            trim_end(s@.subrange(start as int, end as int)) == trimmed(s@),
        decreases end,
    {
        proof {
            let t = s@.subrange(start as int, end as int);
            assert(t.last() == s@[end - 1]);
            assert(t.drop_last() =~= s@.subrange(start as int, end - 1));
        }
        end -= 1;
    }
    proof {
        let t = s@.subrange(start as int, end as int);
        assert(end > start ==> t.last() == s@[end - 1]);
    }
    (start, end)
}

proof fn lemma_leading_digits(s: Seq<char>, k: int)
    requires
        0 <= k <= s.len(),
        forall|i: int| 0 <= i < k ==> is_digit(#[trigger] s[i]),
        k < s.len() ==> !is_digit(s[k]),
    ensures
        leading_digits(s) == k,
    decreases k,
{
    if k > 0 {
        assert(is_digit(s[0]));
        let rest = s.drop_first();
        assert forall|i: int| 0 <= i < k - 1 implies is_digit(#[trigger] rest[i]) by {
            assert(rest[i] == s[i + 1]);
        }
        lemma_leading_digits(rest, k - 1);
    }
}

proof fn lemma_leading_digits_bound(s: Seq<char>, k: int)
    requires
        0 <= k <= s.len(),
        forall|i: int| 0 <= i < k ==> is_digit(#[trigger] s[i]),
    ensures
        k <= leading_digits(s) <= s.len(),
    decreases s.len(),
{
    if k > 0 {
        assert(is_digit(s[0]));
    }
    if s.len() > 0 && is_digit(s[0]) {
        let rest = s.drop_first();
        let k1 = if k > 0 {
            k - 1
        } else {
            0
        };
        assert forall|i: int| 0 <= i < k1 implies is_digit(#[trigger] rest[i]) by {
            assert(rest[i] == s[i + 1]);
        }
        lemma_leading_digits_bound(rest, k1);
    }
}

proof fn lemma_decimal_value_monotone(s: Seq<char>, j: int, k: int)
    requires
        0 <= j <= k <= s.len(),
    ensures
        decimal_value(s.take(j)) <= decimal_value(s.take(k)),
    decreases k - j,
{
    if j < k {
        lemma_decimal_value_monotone(s, j, k - 1);
        assert(s.take(k).drop_last() =~= s.take(k - 1));
    }
}

/// The number that the characters from `start` to `end` stand for.
fn parse_number(s: &Vec<char>, start: usize, end: usize) -> (r: Result<u64, ByteSizeError>)
    requires
        start <= end <= s.len(),
    ensures
        match number(s@.subrange(start as int, end as int)) {
            Ok(n) => r matches Ok(v) && v == n,
            Err(e) => r == Err::<u64, _>(e),
        },
{
    let ghost text = s@.subrange(start as int, end as int);
    if start == end {
        return Err(ByteSizeError::Empty);
    }
    let first: usize = if end - start > 1 && s[start] == '+' {
        start + 1
    } else {
        start
    };
    let ghost digits = unsigned_part(text);
    assert(digits =~= s@.subrange(first as int, end as int));
    let mut value: u64 = 0;
    let mut i: usize = first;
    while i < end
        invariant
            start <= first <= i <= end <= s.len(),
            text == s@.subrange(start as int, end as int),
            text.len() > 0,
            digits == unsigned_part(text),
            digits == s@.subrange(first as int, end as int),
            forall|j: int| 0 <= j < i - first ==> is_digit(#[trigger] digits[j]),
            value == decimal_value(digits.take(i - first)),
        decreases end - i,
    {
        let c: char = s[i];
        assert(digits[i - first] == c);
        if !('0' <= c && c <= '9') {
            proof {
                lemma_leading_digits(digits, i - first);
            }
            return Err(ByteSizeError::InvalidDigit);
        }
        let d: u64 = (c as u32 - '0' as u32) as u64;
        proof {
            assert(digits.take(i - first + 1).drop_last() =~= digits.take(i - first));
            assert(decimal_value(digits.take(i - first + 1)) == value * 10 + d);
            assert forall|j: int| 0 <= j < i - first + 1 implies is_digit(#[trigger] digits[j]) by {
            }
            lemma_leading_digits_bound(digits, i - first + 1);
            lemma_decimal_value_monotone(digits, i - first + 1, leading_digits(digits) as int);
        }
        value = match value.checked_mul(10) {
            None => {
                return Err(ByteSizeError::PosOverflow);
            },
            Some(v) => v,
        };
        value = match value.checked_add(d) {
            None => {
                return Err(ByteSizeError::PosOverflow);
            },
            Some(v) => v,
        };
        i += 1;
    }
    proof {
        lemma_leading_digits(digits, digits.len() as int);
        assert(digits.take(digits.len() as int) =~= digits);
    }
    Ok(value)
}

/// Reads a byte count: the number, and the factor of its suffix.
pub fn byte_size_parts(s: &str) -> (r: Result<(u64, u64), ByteSizeError>)
    ensures
        match size_parts(s@) {
            Ok((n, factor)) => r matches Ok(v) && v.0 == n && v.1 == factor,
            Err(e) => r == Err::<(u64, u64), _>(e),
        },
{
    let chars: Vec<char> = to_chars(s);
    let (start, end) = trim(&chars);
    let ghost t = trimmed(s@);
    assert(t.len() == end - start);
    let mut factor: u64 = 1;
    if start < end {
        let last: char = chars[end - 1];
        assert(t.last() == last);
        if last == 'T' {
            factor = 1024 * 1024 * 1024 * 1024;
        } else if last == 'G' {
            factor = 1024 * 1024 * 1024;
        } else if last == 'M' {
            factor = 1024 * 1024;
        } else if last == 'k' {
            factor = 1024;
        }
    }
    let stop: usize = if factor == 1 {
        end
    } else {
        end - 1
    };
    assert(factor != 1 ==> t.drop_last() =~= chars@.subrange(start as int, stop as int));
    match parse_number(&chars, start, stop) {
        Ok(n) => Ok((n, factor)),
        Err(e) => Err(e),
    }
}

/// Reads a byte count, which may have a suffix: 1M is 1MiB, 10G is 10GiB.
pub fn parse_byte_size(s: &str) -> (r: Result<u64, ByteSizeError>)
    requires
        size_parts(s@) matches Ok((n, factor)) ==> n * factor <= u64::MAX,
    ensures
        match size_parts(s@) {
            Ok((n, factor)) => r matches Ok(v) && v == n * factor,
            Err(e) => r == Err::<u64, _>(e),
        },
{
    match byte_size_parts(s) {
        Ok((n, factor)) => Ok(n * factor),
        Err(e) => Err(e),
    }
}

proof fn lemma_trim_lens(s: Seq<char>)
    ensures
        trim_start(s).len() <= s.len(),
        trim_end(s).len() <= s.len(),
    decreases s.len(),
{
    if s.len() > 0 {
        lemma_trim_lens(s.drop_first());
        lemma_trim_lens(s.drop_last());
    }
}

proof fn lemma_trim_start_push(s: Seq<char>, c: char)
    ensures
        trim_start(s.push(c)) == if trim_start(s).len() == 0 {
            trim_start(seq![c])
        } else {
            trim_start(s).push(c)
        },
    decreases s.len(),
{
    if s.len() == 0 {
        assert(s.push(c) =~= seq![c]);
    } else if is_white_space(s[0]) {
        lemma_trim_start_push(s.drop_first(), c);
        assert(s.push(c).drop_first() =~= s.drop_first().push(c));
        assert(s.push(c)[0] == s[0]);
    } else {
        assert(s.push(c)[0] == s[0]);
    }
}

/// White space around a byte count changes nothing.
pub proof fn law_white_space_is_ignored(s: Seq<char>, c: char)
    requires
        is_white_space(c),
    ensures
        size_parts(seq![c] + s) == size_parts(s),
        size_parts(s.push(c)) == size_parts(s),
{
    assert((seq![c] + s).drop_first() =~= s);
    assert((seq![c] + s)[0] == c);
    lemma_trim_start_push(s, c);
    let t = trim_start(s);
    if t.len() == 0 {
        assert(seq![c].drop_first() =~= Seq::<char>::empty());
        assert(t =~= Seq::<char>::empty());
        assert(trim_start(seq![c].drop_first()) =~= t);
    } else {
        assert(t.push(c).drop_last() =~= t);
        assert(t.push(c).last() == c);
    }
}

/// A suffix multiplies the number that stands before it.
pub proof fn law_suffix_multiplies(s: Seq<char>, suffix: char)
    requires
        trimmed(s) == s,
        suffix_factor(seq![suffix]) is Some,
    ensures
        size_parts(s.push(suffix)) == match number(s) {
            Ok(n) => Ok::<_, ByteSizeError>((n, suffix_factor(seq![suffix])->0)),
            Err(e) => Err(e),
        },
{
    assert(seq![suffix].last() == suffix);
    assert(!is_white_space(suffix));
    lemma_trim_lens(s);
    lemma_trim_lens(trim_start(s));
    lemma_trim_start_push(s, suffix);
    if s.len() > 0 {
        if is_white_space(s[0]) {
            lemma_trim_lens(s.drop_first());
        }
        assert(trim_start(s) == s);
    }
    let t = s.push(suffix);
    assert(trim_start(t) =~= t);
    assert(t.last() == suffix);
    assert(trimmed(t) == t);
    assert(t.drop_last() =~= s);
}

proof fn lemma_digits_lead(s: Seq<char>) -> (k: int)
    ensures
        0 <= k <= s.len(),
        k == leading_digits(s),
        forall|i: int| 0 <= i < k ==> is_digit(#[trigger] s[i]),
        k < s.len() ==> !is_digit(s[k]),
    decreases s.len(),
{
    if s.len() > 0 && is_digit(s[0]) {
        let rest = s.drop_first();
        let k = lemma_digits_lead(rest) + 1;
        assert forall|i: int| 0 <= i < k implies is_digit(#[trigger] s[i]) by {
            if i > 0 {
                assert(s[i] == rest[i - 1]);
            }
        }
        k
    } else {
        0
    }
}

/// A number is one or more of the ten digits, behind a plus sign or not, that stand for no more than
/// 64 bits hold. Where it is none, the first character that is no digit decides, unless the digits
/// before it are too many already.
pub proof fn law_number_is_digits(s: Seq<char>, digits: Seq<char>, k: int)
    requires
        s == seq!['+'] + digits && digits.len() > 0 || s == digits && !(s.len() > 1 && s[0] == '+'),
    ensures
        number(s) == Err::<nat, _>(ByteSizeError::Empty) <==> s.len() == 0,
        number(s) is Ok <==> s.len() > 0 && decimal_value(digits) <= u64::MAX && forall|i: int|
            0 <= i < digits.len() ==> '0' <= #[trigger] digits[i] <= '9',
        number(s) matches Ok(n) ==> n == decimal_value(digits),
        0 <= k < digits.len() && !('0' <= digits[k] <= '9') && (forall|i: int|
            0 <= i < k ==> '0' <= #[trigger] digits[i] <= '9') ==> number(s) == Err::<nat, _>(
            if decimal_value(digits.take(k)) > u64::MAX {
                ByteSizeError::PosOverflow
            } else {
                ByteSizeError::InvalidDigit
            },
        ),
        s.len() > 0 && decimal_value(digits) > u64::MAX && (forall|i: int|
            0 <= i < digits.len() ==> '0' <= #[trigger] digits[i] <= '9') ==> number(s) == Err::<
            nat,
            _,
        >(ByteSizeError::PosOverflow),
{
    if s.len() > 1 && s[0] == '+' {
        assert(s.drop_first() =~= digits);
    }
    assert(unsigned_part(s) == digits);
    let n = lemma_digits_lead(digits);
    assert(digits.take(digits.len() as int) =~= digits);
    if 0 <= k < digits.len() && !('0' <= digits[k] <= '9') && (forall|i: int|
        0 <= i < k ==> '0' <= #[trigger] digits[i] <= '9') {
        assert forall|i: int| 0 <= i < k implies is_digit(#[trigger] digits[i]) by {
        }
        lemma_leading_digits(digits, k);
    }
    if n == digits.len() {
        assert forall|i: int| 0 <= i < digits.len() implies '0' <= #[trigger] digits[i]
            <= '9' by {
            assert(is_digit(digits[i]));
        }
    } else {
        assert(!is_digit(digits[n]));
    }
}

/// Each further digit counts units, and what was before it tens.
pub proof fn law_digits_count_powers_of_ten(s: Seq<char>, c: char)
    requires
        '0' <= c <= '9',
    ensures
        decimal_value(Seq::<char>::empty()) == 0,
        decimal_value(s.push(c)) == 10 * decimal_value(s) + (c as u32 - 48),
        is_digit(c),
{
    assert(s.push(c).drop_last() =~= s);
}

proof fn lemma_trim_start_at(s: Seq<char>) -> (a: int)
    ensures
        0 <= a <= s.len(),
        trim_start(s) == s.skip(a),
        forall|i: int| 0 <= i < a ==> is_white_space(#[trigger] s[i]),
        a < s.len() ==> !is_white_space(s[a]),
    decreases s.len(),
{
    if s.len() > 0 && is_white_space(s[0]) {
        let rest = s.drop_first();
        let a = lemma_trim_start_at(rest) + 1;
        assert(rest.skip(a - 1) =~= s.skip(a));
        assert forall|i: int| 0 <= i < a implies is_white_space(#[trigger] s[i]) by {
            if i > 0 {
                assert(s[i] == rest[i - 1]);
            }
        }
        if a < s.len() {
            assert(s[a] == rest[a - 1]);
        }
        a
    } else {
        assert(s.skip(0) =~= s);
        0
    }
}

proof fn lemma_trim_end_at(s: Seq<char>) -> (b: int)
    ensures
        0 <= b <= s.len(),
        trim_end(s) == s.take(b),
        forall|i: int| b <= i < s.len() ==> is_white_space(#[trigger] s[i]),
        b > 0 ==> !is_white_space(s[b - 1]),
    decreases s.len(),
{
    if s.len() > 0 && is_white_space(s.last()) {
        let front = s.drop_last();
        let b = lemma_trim_end_at(front);
        assert(front.take(b) =~= s.take(b));
        assert forall|i: int| b <= i < s.len() implies is_white_space(#[trigger] s[i]) by {
            if i < front.len() {
                assert(s[i] == front[i]);
            }
        }
        b
    } else {
        assert(s.take(s.len() as int) =~= s);
        s.len() as int
    }
}

/// Trimming takes away white space at both ends, all of it and nothing else.
pub proof fn law_trimming_takes_away_white_space_only(s: Seq<char>) -> (ends: (int, int))
    ensures
        0 <= ends.0 <= ends.1 <= s.len(),
        trimmed(s) == s.subrange(ends.0, ends.1),
        forall|i: int| 0 <= i < ends.0 ==> is_white_space(#[trigger] s[i]),
        forall|i: int| ends.1 <= i < s.len() ==> is_white_space(#[trigger] s[i]),
        ends.0 < ends.1 ==> !is_white_space(s[ends.0]) && !is_white_space(s[ends.1 - 1]),
{
    let a = lemma_trim_start_at(s);
    let t = s.skip(a);
    let b = lemma_trim_end_at(t);
    assert(t.take(b) =~= s.subrange(a, a + b));
    assert forall|i: int| a + b <= i < s.len() implies is_white_space(#[trigger] s[i]) by {
        assert(s[i] == t[i - a]);
    }
    if b > 0 {
        assert(t[b - 1] == s[a + b - 1]);
    }
    (a, a + b)
}

/// The suffixes are these four, each counting 1024 of the one before.
pub proof fn law_suffixes_are_these(s: Seq<char>)
    requires
        s.len() > 0,
    ensures
        suffix_factor(s) == Some(1024nat) <==> s.last() == 'k',
        suffix_factor(s) == Some(1_048_576nat) <==> s.last() == 'M',
        suffix_factor(s) == Some(1_073_741_824nat) <==> s.last() == 'G',
        suffix_factor(s) == Some(1_099_511_627_776nat) <==> s.last() == 'T',
        suffix_factor(s) is None <==> s.last() != 'k' && s.last() != 'M' && s.last() != 'G'
            && s.last() != 'T',
        suffix_factor(Seq::<char>::empty()) is None,
{
}

/// A byte count is the number that is left of the text without white space around it and without
/// its suffix, times the factor of that suffix; it is wrong exactly as that number is.
pub proof fn law_byte_size_is_number_times_factor(s: &str, r: Result<u64, ByteSizeError>)
    requires
        call_ensures(parse_byte_size, (s,), r),
    ensures
        ({
            let t = trimmed(s@);
            let has_suffix = suffix_factor(t) is Some;
            let text = if has_suffix {
                t.drop_last()
            } else {
                t
            };
            match number(text) {
                Ok(n) => r matches Ok(v) && v == n * (if has_suffix {
                    suffix_factor(t)->0
                } else {
                    1
                }),
                Err(e) => r == Err::<u64, _>(e),
            }
        }),
{
}

/// White space is what Unicode says it is.
pub proof fn law_white_space_is_that_of_unicode(c: char)
    ensures
        is_white_space(c) <==> {
            ||| c == '\u{9}' || c == '\u{a}' || c == '\u{b}' || c == '\u{c}' || c == '\u{d}'
            ||| c == ' ' || c == '\u{85}' || c == '\u{a0}' || c == '\u{1680}'
            ||| '\u{2000}' <= c <= '\u{200a}'
            ||| c == '\u{2028}' || c == '\u{2029}' || c == '\u{202f}' || c == '\u{205f}'
            ||| c == '\u{3000}'
        },
{
}

} // verus!
