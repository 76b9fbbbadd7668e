//! Text as sequences of characters: comparing, searching, and rendering numbers.
use vstd::prelude::*;
use vstd::string::*;

verus! {

// ---------------------------------------------------------------------------------------------
// Building strings
// ---------------------------------------------------------------------------------------------

/// Appends `c` to `s`.
///
/// Trusted: `String::push` of std, which appends the given character to the end of the string.
#[verifier::external_body]
pub(crate) fn push_char(s: &mut String, c: char)
    ensures
        final(s)@ == old(s)@.push(c),
{
    s.push(c);
}

/// The characters of `s`, in order.
pub fn chars_of(s: &str) -> (out: Vec<char>)
    ensures
        out@ == s@,
{
    let mut out: Vec<char> = Vec::new();
    for c in iter: s.chars()
        invariant
            iter.seq() == s@,
            out@ == s@.take(iter.index() as int),
    {
        out.push(c);
    }
    out
}

/// The string with the characters `chars[from..to]`.
pub fn string_of(chars: &Vec<char>, from: usize, to: usize) -> (out: String)
    requires
        from <= to <= chars@.len(),
    ensures
        out@ == chars@.subrange(from as int, to as int),
{
    let mut out = String::new();
    let mut i: usize = from;
    while i < to
        invariant
            from <= i <= to <= chars@.len(),
            out@ == chars@.subrange(from as int, i as int),
        decreases to - i,
    {
        push_char(&mut out, chars[i]);
        i += 1;
    }
    out
}

/// Two strings put one after the other.
pub fn concat(a: &str, b: &str) -> (out: String)
    ensures
        out@ == a@ + b@,
{
    let mut out = a.to_owned();
    out.append(b);
    out
}

// ---------------------------------------------------------------------------------------------
// Comparing and searching
// ---------------------------------------------------------------------------------------------

/// Whether `part` stands in `whole` at position `at`.
pub open spec fn occurs_at(whole: Seq<char>, part: Seq<char>, at: int) -> bool {
    0 <= at && at + part.len() <= whole.len() && whole.subrange(at, at + part.len()) == part
}

/// The first position, from `from` on, at which `part` stands in `whole`.
pub open spec fn find_from(whole: Seq<char>, part: Seq<char>, from: int) -> Option<int>
    decreases whole.len() - from + 1,
{
    if from < 0 || from + part.len() > whole.len() {
        None
    } else if occurs_at(whole, part, from) {
        Some(from)
    } else {
        find_from(whole, part, from + 1)
    }
}

/// What stands before and after the first `sep` in `whole`.
pub open spec fn split_first(whole: Seq<char>, sep: Seq<char>) -> Option<(Seq<char>, Seq<char>)> {
    match find_from(whole, sep, 0) {
        Some(at) => Some((whole.take(at), whole.skip(at + sep.len()))),
        None => None,
    }
}

/// The position behind the last `c`; zero where there is none.
pub open spec fn behind_last(s: Seq<char>, c: char) -> nat
    decreases s.len(),
{
    if s.len() == 0 {
        0
    } else if s.last() == c {
        s.len()
    } else {
        behind_last(s.drop_last(), c)
    }
}

/// What stands behind the last `c`; all of the text where there is none.
pub open spec fn last_part(s: Seq<char>, c: char) -> Seq<char> {
    s.skip(behind_last(s, c) as int)
}

/// What stands behind the last `c`; all of the text where there is none.
pub fn part_behind_last(s: &str, c: char) -> (r: String)
    ensures
        r@ == last_part(s@, c),
{
    let chars = chars_of(s);
    let mut i: usize = chars.len();
    proof {
        assert(s@.take(i as int) =~= s@);
    }
    while i > 0
        invariant
            chars@ == s@,
            i <= chars@.len(),
            behind_last(s@, c) == behind_last(s@.take(i as int), c),
        decreases i,
    {
        proof {
            assert(s@.take(i as int).drop_last() =~= s@.take(i - 1));
        }
        if chars[i - 1] == c {
            return string_of(&chars, i, chars.len());
        }
        i -= 1;
    }
    string_of(&chars, 0, chars.len())
}

/// Whether `whole` ends with `part`.
pub open spec fn has_suffix(whole: Seq<char>, part: Seq<char>) -> bool {
    part.len() <= whole.len() && whole.skip(whole.len() - part.len()) == part
}

/// Whether `whole` begins with `part`.
pub open spec fn has_prefix(whole: Seq<char>, part: Seq<char>) -> bool {
    part.len() <= whole.len() && whole.take(part.len() as int) == part
}

/// `find_from` gives the first position: nothing stands before it, and where it gives none,
/// `part` stands nowhere.
pub proof fn find_from_is_first(whole: Seq<char>, part: Seq<char>, from: int)
    requires
        0 <= from,
    ensures
        find_from(whole, part, from) matches Some(at) ==> from <= at && occurs_at(whole, part, at)
            && (forall|k: int| from <= k < at ==> !occurs_at(whole, part, k)),
        find_from(whole, part, from) is None ==> forall|k: int|
            from <= k ==> !occurs_at(whole, part, k),
    decreases whole.len() - from + 1,
{
    if from + part.len() <= whole.len() && !occurs_at(whole, part, from) {
        find_from_is_first(whole, part, from + 1);
    }
}

fn stands_at(whole: &Vec<char>, part: &Vec<char>, at: usize) -> (r: bool)
    requires
        at + part@.len() <= whole@.len(),
    ensures
        r == occurs_at(whole@, part@, at as int),
{
    let total: usize = whole.len();
    let mut i: usize = 0;
    while i < part.len()
        invariant
            0 <= i <= part@.len(),
            at + part@.len() <= whole@.len(),
            total == whole@.len(),
            forall|j: int| 0 <= j < i ==> whole@[at + j] == part@[j],
        decreases part@.len() - i,
    {
        if whole[at + i] != part[i] {
            assert(whole@.subrange(at as int, at + part@.len())[i as int] != part@[i as int]);
            return false;
        }
        i += 1;
    }
    assert(whole@.subrange(at as int, at + part@.len()) =~= part@);
    true
}

/// Whether `a` and `b` are the same text.
pub fn same(a: &str, b: &str) -> (r: bool)
    ensures
        r == (a@ == b@),
{
    let x = chars_of(a);
    let y = chars_of(b);
    if x.len() != y.len() {
        return false;
    }
    let r = stands_at(&x, &y, 0);
    proof {
        assert(x@.subrange(0, y@.len() as int) =~= x@);
    }
    r
}

/// Whether `whole` ends with `part`.
pub fn ends_with(whole: &str, part: &str) -> (r: bool)
    ensures
        r == has_suffix(whole@, part@),
{
    let x = chars_of(whole);
    let y = chars_of(part);
    if y.len() > x.len() {
        return false;
    }
    let r = stands_at(&x, &y, x.len() - y.len());
    proof {
        assert(x@.subrange(x@.len() - y@.len(), x@.len() as int) =~= x@.skip(x@.len() - y@.len()));
    }
    r
}

/// Whether `whole` begins with `part`.
pub fn starts_with(whole: &str, part: &str) -> (r: bool)
    ensures
        r == has_prefix(whole@, part@),
{
    let x = chars_of(whole);
    let y = chars_of(part);
    if y.len() > x.len() {
        return false;
    }
    let r = stands_at(&x, &y, 0);
    proof {
        assert(x@.subrange(0, y@.len() as int) =~= x@.take(y@.len() as int));
    }
    r
}

/// The first position, counted in characters, at which `part` stands in `whole`.
pub fn find(whole: &str, part: &str) -> (r: Option<usize>)
    ensures
        match r {
            Some(at) => find_from(whole@, part@, 0) == Some(at as int),
            None => find_from(whole@, part@, 0) is None,
        },
{
    let x = chars_of(whole);
    let y = chars_of(part);
    if y.len() > x.len() {
        return None;
    }
    let last: usize = x.len() - y.len();
    let mut i: usize = 0;
    loop
        invariant
            x@ == whole@,
            y@ == part@,
            last == x@.len() - y@.len(),
            i <= last,
            find_from(whole@, part@, 0) == find_from(whole@, part@, i as int),
        decreases last - i,
    {
        if stands_at(&x, &y, i) {
            return Some(i);
        }
        if i == last {
            assert(find_from(whole@, part@, i + 1) is None);
            return None;
        }
        i += 1;
    }
}

/// Splits `whole` at the first `sep`.
pub fn split_once(whole: &str, sep: &str) -> (r: Option<(String, String)>)
    ensures
        match r {
            Some((before, after)) => split_first(whole@, sep@) == Some((before@, after@)),
            None => split_first(whole@, sep@) is None,
        },
{
    match find(whole, sep) {
        Some(at) => {
            proof {
                find_from_is_first(whole@, sep@, 0);
            }
            let x = chars_of(whole);
            let total: usize = x.len();
            let skip: usize = chars_of(sep).len();
            let before = string_of(&x, 0, at);
            let after = string_of(&x, at + skip, total);
            proof {
                assert(before@ =~= whole@.take(at as int));
                assert(after@ =~= whole@.skip(at + sep@.len()));
            }
            Some((before, after))
        },
        None => None,
    }
}

// ---------------------------------------------------------------------------------------------
// ASCII case, whitespace, order
// ---------------------------------------------------------------------------------------------

/// The ASCII lower case of a character: `A` to `Z` become `a` to `z`, all else stays.
pub open spec fn lower_char(c: char) -> char {
    if 'A' <= c && c <= 'Z' {
        (c as u32 + 32) as char
    } else {
        c
    }
}

/// The ASCII lower case of a text.
pub open spec fn lower(s: Seq<char>) -> Seq<char> {
    s.map_values(|c: char| lower_char(c))
}

/// Whether `c` is one of `0` to `9`, `a` to `f`, `A` to `F`.
pub open spec fn is_hex_digit(c: char) -> bool {
    ('0' <= c && c <= '9') || ('a' <= c && c <= 'f') || ('A' <= c && c <= 'F')
}

/// Whether `c` is white space: the Unicode property `White_Space`.
pub open spec fn is_space(c: char) -> bool {
    let u = c as u32;
    ||| 0x9 <= u <= 0xd
    ||| u == 0x20
    ||| u == 0x85
    ||| u == 0xa0
    ||| u == 0x1680
    ||| 0x2000 <= u <= 0x200a
    ||| u == 0x2028
    ||| u == 0x2029
    ||| u == 0x202f
    ||| u == 0x205f
    ||| u == 0x3000
}

/// The text without the white space at its end.
pub open spec fn trim_end(s: Seq<char>) -> Seq<char>
    decreases s.len(),
{
    if s.len() > 0 && is_space(s.last()) {
        trim_end(s.drop_last())
    } else {
        s
    }
}

/// The text without the white space at its start.
pub open spec fn trim_start(s: Seq<char>) -> Seq<char>
    decreases s.len(),
{
    if s.len() > 0 && is_space(s[0]) {
        trim_start(s.skip(1))
    } else {
        s
    }
}

/// The text without the white space at both ends.
pub open spec fn trimmed(s: Seq<char>) -> Seq<char> {
    trim_end(trim_start(s))
}

/// Character-wise order of texts: the first difference decides, and a prefix comes first.
pub open spec fn text_le(a: Seq<char>, b: Seq<char>) -> bool
    decreases a.len(),
{
    if a.len() == 0 {
        true
    } else if b.len() == 0 {
        false
    } else if a[0] == b[0] {
        text_le(a.skip(1), b.skip(1))
    } else {
        a[0] < b[0]
    }
}

/// The order is total.
pub proof fn text_le_total(a: Seq<char>, b: Seq<char>)
    ensures
        text_le(a, b) || text_le(b, a),
    decreases a.len(),
{
    if a.len() > 0 && b.len() > 0 && a[0] == b[0] {
        text_le_total(a.skip(1), b.skip(1));
    }
}

/// The order is antisymmetric.
pub proof fn text_le_antisymmetric(a: Seq<char>, b: Seq<char>)
    requires
        text_le(a, b),
        text_le(b, a),
    ensures
        a == b,
    decreases a.len(),
{
    if a.len() > 0 && b.len() > 0 && a[0] == b[0] {
        text_le_antisymmetric(a.skip(1), b.skip(1));
        assert(a =~= seq![a[0]] + a.skip(1));
        assert(b =~= seq![b[0]] + b.skip(1));
    } else {
        assert(a =~= b);
    }
}

/// The order is transitive.
pub proof fn text_le_transitive(a: Seq<char>, b: Seq<char>, c: Seq<char>)
    requires
        text_le(a, b),
        text_le(b, c),
    ensures
        text_le(a, c),
    decreases a.len(),
{
    if a.len() > 0 && b.len() > 0 && c.len() > 0 && a[0] == b[0] && b[0] == c[0] {
        text_le_transitive(a.skip(1), b.skip(1), c.skip(1));
    }
}

/// Whether `a` comes before `b` in the order of texts, or is equal to it.
pub fn not_after(a: &str, b: &str) -> (r: bool)
    ensures
        r == text_le(a@, b@),
{
    let x = chars_of(a);
    let y = chars_of(b);
    let mut i: usize = 0;
    proof {
        assert(x@.skip(0) =~= a@);
        assert(y@.skip(0) =~= b@);
    }
    while i < x.len()
        invariant
            i <= x@.len(),
            i <= y@.len(),
            text_le(a@, b@) == text_le(x@.skip(i as int), y@.skip(i as int)),
        decreases x@.len() - i,
    {
        if i == y.len() {
            return false;
        }
        if x[i] != y[i] {
            return x[i] < y[i];
        }
        proof {
            assert(x@.skip(i as int).skip(1) =~= x@.skip(i + 1));
            assert(y@.skip(i as int).skip(1) =~= y@.skip(i + 1));
        }
        i += 1;
    }
    true
}

/// The ASCII lower case of `s`.
pub fn to_lower(s: &str) -> (out: String)
    ensures
        out@ == lower(s@),
{
    let x = chars_of(s);
    let mut out = String::new();
    let mut i: usize = 0;
    while i < x.len()
        invariant
            i <= x@.len(),
            out@ == lower(x@.take(i as int)),
        decreases x@.len() - i,
    {
        let c = x[i];
        let l = if 'A' <= c && c <= 'Z' {
            (c as u8 + 32) as char
        } else {
            c
        };
        push_char(&mut out, l);
        i += 1;
        proof {
            assert(out@ =~= lower(x@.take(i as int)));
        }
    }
    proof {
        assert(x@.take(x@.len() as int) =~= s@);
    }
    out
}

/// The lower case of a text.
pub uninterp spec fn lowercased(s: Seq<char>) -> Seq<char>;

/// Whether all of the characters are ASCII characters.
pub open spec fn all_ascii(s: Seq<char>) -> bool {
    forall|i: int| 0 <= i < s.len() ==> (#[trigger] s[i]) < 128 as char
}

/// The lower case of `s`.
///
/// Trusted: `str::to_lowercase` of std, which follows the Unicode property `Lowercase`. The result
/// is named, and described for ASCII text only: there `A` to `Z` become `a` to `z`.
#[verifier::external_body]
pub(crate) fn lowercase(s: &str) -> (r: String)
    ensures
        r@ == lowercased(s@),
        all_ascii(s@) ==> r@ == lower(s@),
{
    s.to_lowercase()
}

/// Whether `c` is white space.
///
/// Trusted: `char::is_whitespace` of std, which holds of exactly the characters with the Unicode
/// property `White_Space`.
#[verifier::external_body]
pub(crate) fn space(c: char) -> (r: bool)
    ensures
        r == is_space(c),
{
    c.is_whitespace()
}

/// `s` without the white space at both ends.
pub fn trim(s: &str) -> (out: String)
    ensures
        out@ == trimmed(s@),
{
    let x = chars_of(s);
    let mut from: usize = 0;
    proof {
        assert(x@.skip(0) =~= s@);
    }
    while from < x.len() && space(x[from])
        invariant
            from <= x@.len(),
            trim_start(s@) == trim_start(x@.skip(from as int)),
        decreases x@.len() - from,
    {
        proof {
            assert(x@.skip(from as int).skip(1) =~= x@.skip(from + 1));
        }
        from += 1;
    }
    let mut to: usize = x.len();
    proof {
        assert(x@.subrange(from as int, to as int) =~= x@.skip(from as int));
    }
    while from < to && space(x[to - 1])
        invariant
            from <= to <= x@.len(),
            trimmed(s@) == trim_end(x@.subrange(from as int, to as int)),
        decreases to - from,
    {
        proof {
            assert(x@.subrange(from as int, to as int).drop_last() =~= x@.subrange(
                from as int,
                to - 1,
            ));
        }
        to -= 1;
    }
    string_of(&x, from, to)
}

// ---------------------------------------------------------------------------------------------
// Numbers as text
// ---------------------------------------------------------------------------------------------

/// The character that stands for a digit below 16.
pub open spec fn digit_char(d: nat) -> char {
    if d < 10 {
        (48 + d) as char
    } else {
        (87 + d) as char
    }
}

/// The number written out in base `radix`, with no leading zeros.
pub open spec fn digits(n: nat, radix: nat) -> Seq<char>
    decreases n,
{
    if radix < 2 {
        Seq::empty()
    } else if n < radix {
        seq![digit_char(n)]
    } else {
        proof {
            vstd::arithmetic::div_mod::lemma_div_decreases(n as int, radix as int);
        }
        digits(n / radix, radix).push(digit_char(n % radix))
    }
}

/// The number in decimal.
pub open spec fn decimal(n: nat) -> Seq<char> {
    digits(n, 10)
}

/// The number in decimal, with a minus sign where it is negative.
pub open spec fn signed_decimal(n: int) -> Seq<char> {
    if n < 0 {
        seq!['-'] + decimal((-n) as nat)
    } else {
        decimal(n as nat)
    }
}

/// `n` copies of `c`.
pub open spec fn repeated(c: char, n: nat) -> Seq<char> {
    Seq::new(n, |i: int| c)
}

/// The text, filled up on the left with `c` to at least `width` characters.
pub open spec fn padded_left(s: Seq<char>, c: char, width: nat) -> Seq<char> {
    if s.len() < width {
        repeated(c, (width - s.len()) as nat) + s
    } else {
        s
    }
}

fn digit(d: u64) -> (c: char)
    requires
        d < 16,
    ensures
        c == digit_char(d as nat),
{
    if d < 10 {
        (48u8 + d as u8) as char
    } else {
        (87u8 + d as u8) as char
    }
}

/// `n` written out in base `radix`.
pub fn render(n: u64, radix: u64) -> (out: String)
    requires
        2 <= radix <= 16,
    ensures
        out@ == digits(n as nat, radix as nat),
    decreases n,
{
    if n < radix {
        let mut out = String::new();
        push_char(&mut out, digit(n));
        out
    } else {
        proof {
            assert(n as int / radix as int <= n as int / 2) by (nonlinear_arith)
                requires
                    n >= 0,
                    radix >= 2,
            ;
            assert((n % radix) as nat == (n as nat) % (radix as nat));
        }
        let mut out = render(n / radix, radix);
        push_char(&mut out, digit(n % radix));
        out
    }
}

/// `n` in decimal.
pub fn render_decimal(n: u64) -> (out: String)
    ensures
        out@ == decimal(n as nat),
{
    render(n, 10)
}

/// `n` in decimal.
pub fn render_usize(n: usize) -> (out: String)
    ensures
        out@ == decimal(n as nat),
{
    render(n as u64, 10)
}

/// `n` copies of `c`.
pub fn repeat(c: char, n: usize) -> (out: String)
    ensures
        out@ == repeated(c, n as nat),
{
    let mut out = String::new();
    let mut i: usize = 0;
    while i < n
        invariant
            i <= n,
            out@ == repeated(c, i as nat),
        decreases n - i,
    {
        push_char(&mut out, c);
        i += 1;
        proof {
            assert(out@ =~= repeated(c, i as nat));
        }
    }
    out
}

/// `s`, filled up on the left with `c` to at least `width` characters.
pub fn pad_left(s: &str, c: char, width: usize) -> (out: String)
    ensures
        out@ == padded_left(s@, c, width as nat),
{
    let n: usize = s.unicode_len();
    if n < width {
        let mut out = repeat(c, width - n);
        out.append(s);
        out
    } else {
        s.to_owned()
    }
}

/// Why a text is no unsigned decimal number.
#[derive(Debug, Clone, Copy, PartialEq, Eq, Structural)]
pub enum NumberError {
    /// There is no character at all.
    Empty,
    /// A character that is no digit, where a digit must stand.
    InvalidDigit,
    /// The number does not fit.
    TooLarge,
}

impl NumberError {
    /// What is wrong, in words.
    pub open spec fn printed(self) -> Seq<char> {
        match self {
            NumberError::Empty => "cannot parse integer from empty string"@,
            NumberError::InvalidDigit => "invalid digit found in string"@,
            NumberError::TooLarge => "number too large to fit in target type"@,
        }
    }

    /// What is wrong, in words.
    pub fn message(self) -> (r: &'static str)
        ensures
            r@ == self.printed(),
    {
        match self {
            NumberError::Empty => "cannot parse integer from empty string",
            NumberError::InvalidDigit => "invalid digit found in string",
            NumberError::TooLarge => "number too large to fit in target type",
        }
    }
}

/// The value of the digits `s`, read after a number whose value is `acc`. The leftmost fault is
/// reported.
pub open spec fn number_after(s: Seq<char>, acc: nat, max: nat) -> Result<nat, NumberError>
    decreases s.len(),
{
    if s.len() == 0 {
        Ok(acc)
    } else if !('0' <= s[0] && s[0] <= '9') {
        Err(NumberError::InvalidDigit)
    } else {
        let next = acc * 10 + (s[0] as nat - 48) as nat;
        if next > max {
            Err(NumberError::TooLarge)
        } else {
            number_after(s.skip(1), next, max)
        }
    }
}

/// The value of an unsigned decimal number, at most `max`; a plus sign may stand in front.
pub open spec fn number_value(s: Seq<char>, max: nat) -> Result<nat, NumberError> {
    if s.len() == 0 {
        Err(NumberError::Empty)
    } else if s[0] == '+' && s.len() > 1 {
        number_after(s.skip(1), 0, max)
    } else {
        number_after(s, 0, max)
    }
}

/// A number that is read is at most `max`.
pub(crate) proof fn number_is_bounded(s: Seq<char>, max: nat)
    ensures
        number_value(s, max) matches Ok(n) ==> n <= max,
{
    if s.len() > 0 {
        number_after_is_bounded(s, 0, max);
        number_after_is_bounded(s.skip(1), 0, max);
    }
}

proof fn number_after_is_bounded(s: Seq<char>, acc: nat, max: nat)
    requires
        acc <= max,
    ensures
        number_after(s, acc, max) matches Ok(n) ==> n <= max,
    decreases s.len(),
{
    if s.len() > 0 {
        let next = acc * 10 + (s[0] as nat - 48) as nat;
        if '0' <= s[0] && s[0] <= '9' && next <= max {
            number_after_is_bounded(s.skip(1), next, max);
        }
    }
}

/// Reads an unsigned decimal number of at most `max`.
pub fn parse_number(s: &str, max: u64) -> (r: Result<u64, NumberError>)
    ensures
        match r {
            Ok(n) => number_value(s@, max as nat) == Ok::<nat, NumberError>(n as nat),
            Err(e) => number_value(s@, max as nat) == Err::<nat, NumberError>(e),
        },
{
    let x = chars_of(s);
    if x.len() == 0 {
        return Err(NumberError::Empty);
    }
    let mut i: usize = if x[0] == '+' && x.len() > 1 {
        1
    } else {
        0
    };
    let mut acc: u64 = 0;
    proof {
        assert(x@.skip(0) =~= s@);
    }
    while i < x.len()
        invariant
            i <= x@.len(),
            number_value(s@, max as nat) == number_after(x@.skip(i as int), acc as nat, max as nat),
        decreases x@.len() - i,
    {
        let c = x[i];
        if !('0' <= c && c <= '9') {
            return Err(NumberError::InvalidDigit);
        }
        let d: u64 = (c as u32 - 48) as u64;
        let next: u128 = acc as u128 * 10 + d as u128;
        if next > max as u128 {
            return Err(NumberError::TooLarge);
        }
        proof {
            assert(x@.skip(i as int).skip(1) =~= x@.skip(i + 1));
        }
        acc = next as u64;
        i += 1;
    }
    Ok(acc)
}

/// Writing a number out in decimal and reading the text back gives the number.
pub proof fn decimal_reads_back(n: nat, max: nat)
    requires
        n <= max,
    ensures
        number_value(decimal(n), max) == Ok::<nat, NumberError>(n),
{
    digits_read_after(n, Seq::empty(), max);
    digits_shape(n);
    assert(decimal(n) + Seq::<char>::empty() =~= decimal(n));
}

/// Decimal digits are never empty, and hold nothing but `0` to `9`.
pub(crate) proof fn digits_shape(n: nat)
    ensures
        decimal(n).len() > 0,
        forall|i: int| 0 <= i < decimal(n).len() ==> '0' <= #[trigger] decimal(n)[i] && decimal(n)[i]
            <= '9',
    decreases n,
{
    if n >= 10 {
        digits_shape(n / 10);
    }
}

/// Reading the digits of `n` and then `rest` is reading `rest` after `n`.
proof fn digits_read_after(n: nat, rest: Seq<char>, max: nat)
    requires
        n <= max,
    ensures
        number_after(decimal(n) + rest, 0, max) == number_after(rest, n, max),
    decreases n,
{
    if n < 10 {
        let all = decimal(n) + rest;
        assert(all[0] == digit_char(n));
        assert(all.skip(1) =~= rest);
    } else {
        let d = digit_char(n % 10);
        digits_read_after(n / 10, seq![d] + rest, max);
        assert(decimal(n) + rest =~= decimal(n / 10) + (seq![d] + rest));
        assert((seq![d] + rest).skip(1) =~= rest);
        assert((n / 10) * 10 + n % 10 == n);
    }
}

// ---------------------------------------------------------------------------------------------
// What holds of all texts
// ---------------------------------------------------------------------------------------------

/// What a digit stands for.
pub open spec fn digit_value(c: char) -> int {
    if c <= '9' {
        c as int - '0' as int
    } else {
        c as int - 'a' as int + 10
    }
}

/// What digits stand for together, the highest first.
pub open spec fn place_value(s: Seq<char>, radix: nat) -> int
    decreases s.len(),
{
    if s.len() == 0 {
        0
    } else {
        place_value(s.drop_last(), radix) * radix + digit_value(s.last())
    }
}

/// Whether a text is a number in this base as it is usually written: it has a digit, and nothing but
/// digits of the base, in lower case, and no zero in front of other digits.
pub open spec fn is_numeral(s: Seq<char>, radix: nat) -> bool {
    &&& s.len() > 0
    &&& s.len() > 1 ==> s[0] != '0'
    &&& forall|i: int|
        0 <= i < s.len() ==> {
            let c = #[trigger] s[i];
            &&& ('0' <= c && c <= '9') || ('a' <= c && c <= 'f')
            &&& digit_value(c) < radix
        }
}

/// The number that is written out stands for itself, and is written as it usually is. There is no
/// other text of which this holds: a number can be told from what it is written as.
pub proof fn a_number_is_what_its_digits_stand_for(n: nat, radix: nat)
    requires
        2 <= radix <= 16,
    ensures
        is_numeral(digits(n, radix), radix),
        place_value(digits(n, radix), radix) == n,
        n > 0 ==> digits(n, radix)[0] != '0',
    decreases n,
{
    let s = digits(n, radix);
    if n < radix {
        assert(s.drop_last() =~= Seq::<char>::empty());
        reveal_with_fuel(place_value, 2);
    } else {
        vstd::arithmetic::div_mod::lemma_div_decreases(n as int, radix as int);
        vstd::arithmetic::div_mod::lemma_fundamental_div_mod(n as int, radix as int);
        vstd::arithmetic::div_mod::lemma_mod_bound(n as int, radix as int);
        let high = n / radix;
        assert(high > 0) by (nonlinear_arith)
            requires
                n >= radix >= 2,
                high == n / radix,
        ;
        a_number_is_what_its_digits_stand_for(high, radix);
        let front = digits(high, radix);
        assert(s.drop_last() =~= front);
        assert(s[0] == front[0]);
        assert forall|i: int| 0 <= i < s.len() implies {
            let c = #[trigger] s[i];
            &&& ('0' <= c && c <= '9') || ('a' <= c && c <= 'f')
            &&& digit_value(c) < radix
        } by {
            if i < front.len() {
                assert(s[i] == front[i]);
            }
        }
        assert(high * radix == radix * high) by (nonlinear_arith);
    }
}

/// Whether a text is a whole number in decimal as it is usually written: one below zero has a minus
/// sign in front, any other one has none.
pub open spec fn shows_number(s: Seq<char>, n: int) -> bool {
    if n < 0 {
        s.len() > 1 && s[0] == '-' && is_numeral(s.skip(1), 10) && place_value(s.skip(1), 10) == -n
    } else {
        is_numeral(s, 10) && place_value(s, 10) == n
    }
}

/// A number is written out with its sign: behind a minus sign stands what it is below zero.
pub proof fn a_sign_stands_in_front(n: int)
    ensures
        shows_number(signed_decimal(n), n),
{
    if n >= 0 {
        a_number_is_what_its_digits_stand_for(n as nat, 10);
    } else {
        a_number_is_what_its_digits_stand_for((-n) as nat, 10);
        assert(signed_decimal(n).skip(1) =~= decimal((-n) as nat));
    }
}

/// Whether all characters are `0` to `9`.
pub open spec fn all_digits(s: Seq<char>) -> bool {
    forall|i: int| 0 <= i < s.len() ==> '0' <= (#[trigger] s[i]) && s[i] <= '9'
}

/// Digits, without the plus sign that may stand in front of them.
pub open spec fn without_plus(s: Seq<char>) -> Seq<char> {
    if s.len() > 1 && s[0] == '+' {
        s.skip(1)
    } else {
        s
    }
}

/// A text is read as the number that its digits stand for, where it has nothing but digits behind a
/// plus sign, and the number is small enough. The leftmost fault is the one that is reported: a
/// character that is no digit, behind digits that stand for a number that is small enough; or the
/// digit that makes the number too large.
pub proof fn a_number_is_read_digit_by_digit(s: Seq<char>, max: nat)
    ensures
        match number_value(s, max) {
            Ok(n) => {
                &&& s.len() > 0
                &&& all_digits(without_plus(s))
                &&& place_value(without_plus(s), 10) == n
                &&& n <= max
            },
            Err(NumberError::Empty) => s.len() == 0,
            Err(NumberError::InvalidDigit) => s.len() > 0 && exists|k: int|
                {
                    &&& 0 <= k < without_plus(s).len()
                    &&& all_digits(#[trigger] without_plus(s).take(k))
                    &&& place_value(without_plus(s).take(k), 10) <= max
                    &&& !('0' <= without_plus(s)[k] && without_plus(s)[k] <= '9')
                },
            Err(NumberError::TooLarge) => s.len() > 0 && exists|k: int|
                {
                    &&& 0 <= k <= without_plus(s).len()
                    &&& all_digits(#[trigger] without_plus(s).take(k))
                    &&& place_value(without_plus(s).take(k), 10) > max
                },
        },
{
    let d = without_plus(s);
    if s.len() > 0 {
        assert(d.take(0) =~= Seq::<char>::empty());
        assert(d.skip(0) =~= d);
        digits_are_read(d, 0, max);
    }
}

proof fn digits_are_read(d: Seq<char>, i: int, max: nat)
    requires
        0 <= i <= d.len(),
        all_digits(d.take(i)),
        0 <= place_value(d.take(i), 10) <= max,
    ensures
        match number_after(d.skip(i), place_value(d.take(i), 10) as nat, max) {
            Ok(n) => all_digits(d) && place_value(d, 10) == n && n <= max,
            Err(NumberError::Empty) => false,
            Err(NumberError::InvalidDigit) => exists|k: int|
                {
                    &&& 0 <= k < d.len()
                    &&& all_digits(#[trigger] d.take(k))
                    &&& place_value(d.take(k), 10) <= max
                    &&& !('0' <= d[k] && d[k] <= '9')
                },
            Err(NumberError::TooLarge) => exists|k: int|
                {
                    &&& 0 <= k <= d.len()
                    &&& all_digits(#[trigger] d.take(k))
                    &&& place_value(d.take(k), 10) > max
                },
        },
    decreases d.len() - i,
{
    let rest = d.skip(i);
    if i == d.len() {
        assert(d.take(i) =~= d);
    } else {
        assert(rest[0] == d[i]);
        if '0' <= d[i] && d[i] <= '9' {
            let next = d.take(i + 1);
            assert(next.drop_last() =~= d.take(i));
            assert forall|j: int| 0 <= j < next.len() implies '0' <= (#[trigger] next[j]) && next[j]
                <= '9' by {
                if j < i {
                    assert(d.take(i)[j] == next[j]);
                }
            }
            assert(rest.skip(1) =~= d.skip(i + 1));
            if place_value(next, 10) <= max {
                digits_are_read(d, i + 1, max);
            }
        }
    }
}

/// More digits stand for no smaller number.
pub proof fn digits_stand_for_no_less(d: Seq<char>)
    ensures
        all_digits(d) ==> forall|k: int|
            0 <= k <= d.len() ==> 0 <= #[trigger] place_value(d.take(k), 10) <= place_value(d, 10),
    decreases d.len(),
{
    if d.len() > 0 && all_digits(d) {
        let front = d.drop_last();
        assert forall|i: int| 0 <= i < front.len() implies '0' <= (#[trigger] front[i]) && front[i]
            <= '9' by {
            assert(front[i] == d[i]);
        }
        digits_stand_for_no_less(front);
        assert(front.take(front.len() as int) =~= front);
        assert(0 <= place_value(front.take(front.len() as int), 10));
        assert('0' <= d[d.len() - 1] && d[d.len() - 1] <= '9');
        assert(place_value(front, 10) <= place_value(d, 10));
        assert forall|k: int| 0 <= k <= d.len() implies 0 <= #[trigger] place_value(d.take(k), 10)
            <= place_value(d, 10) by {
            if k < d.len() {
                assert(d.take(k) =~= front.take(k));
            } else {
                assert(d.take(k) =~= d);
            }
        }
    } else if d.len() == 0 {
        assert forall|k: int| 0 <= k <= d.len() implies 0 <= #[trigger] place_value(d.take(k), 10)
            <= place_value(d, 10) by {
            assert(d.take(k) =~= d);
        }
    }
}

/// A text that is filled up ends with what it was, has nothing but the filling in front of it, and
/// is just as long as it is to be, or as long as it was.
pub proof fn a_padded_text_ends_with_itself(s: Seq<char>, c: char, width: nat)
    ensures
        s.is_suffix_of(padded_left(s, c, width)),
        padded_left(s, c, width).len() == if s.len() < width {
            width
        } else {
            s.len()
        },
        forall|i: int|
            0 <= i < padded_left(s, c, width).len() - s.len() ==> #[trigger] padded_left(s, c, width)[i]
                == c,
{
    let p = padded_left(s, c, width);
    assert(p.subrange(p.len() - s.len(), p.len() as int) =~= s);
}

/// A text stands in another one just where that one is put together from what stands before it, the
/// text, and what stands behind it.
pub proof fn a_part_stands_between(whole: Seq<char>, part: Seq<char>, at: int)
    ensures
        occurs_at(whole, part, at) <==> exists|before: Seq<char>, after: Seq<char>|
            before.len() == at && whole == #[trigger] (before + part + after),
{
    if occurs_at(whole, part, at) {
        let before = whole.take(at);
        let after = whole.skip(at + part.len());
        assert(whole =~= before + part + after);
    }
    assert forall|before: Seq<char>, after: Seq<char>|
        before.len() == at && whole == #[trigger] (before + part + after) implies occurs_at(
        whole,
        part,
        at,
    ) by {
        assert(whole.subrange(at, at + part.len()) =~= part);
    }
}

/// What stands before and behind the first separator makes up the text again, and the separator does
/// not stand in it any earlier; a text that is not split holds no separator.
pub proof fn a_split_text_is_put_together_again(whole: Seq<char>, sep: Seq<char>)
    ensures
        match split_first(whole, sep) {
            Some((before, after)) => {
                &&& whole == before + sep + after
                &&& forall|x: Seq<char>, y: Seq<char>|
                    whole == #[trigger] (x + sep + y) ==> before.len() <= x.len()
            },
            None => forall|x: Seq<char>, y: Seq<char>| whole != #[trigger] (x + sep + y),
        },
{
    find_from_is_first(whole, sep, 0);
    assert forall|x: Seq<char>, y: Seq<char>| whole == #[trigger] (x + sep + y) implies occurs_at(
        whole,
        sep,
        x.len() as int,
    ) by {
        a_part_stands_between(whole, sep, x.len() as int);
    }
    if let Some((before, after)) = split_first(whole, sep) {
        assert(whole =~= before + sep + after);
    }
}

/// What stands behind the last separator holds none, and a separator stands right in front of it
/// unless it is all of the text.
pub proof fn the_last_part_is_behind_the_last_separator(s: Seq<char>, c: char)
    ensures
        last_part(s, c).is_suffix_of(s),
        !last_part(s, c).contains(c),
        last_part(s, c) == s || s[s.len() - last_part(s, c).len() - 1] == c,
{
    behind_last_is_behind(s, c);
    let part = last_part(s, c);
    assert(part =~= s.subrange(s.len() - part.len(), s.len() as int));
    if part.len() == s.len() {
        assert(part =~= s);
    }
}

proof fn behind_last_is_behind(s: Seq<char>, c: char)
    ensures
        behind_last(s, c) <= s.len(),
        behind_last(s, c) > 0 ==> s[behind_last(s, c) - 1] == c,
        forall|i: int| behind_last(s, c) <= i < s.len() ==> s[i] != c,
    decreases s.len(),
{
    if s.len() > 0 && s.last() != c {
        behind_last_is_behind(s.drop_last(), c);
        assert forall|i: int| behind_last(s, c) <= i < s.len() implies s[i] != c by {
            if i < s.len() - 1 {
                assert(s[i] == s.drop_last()[i]);
            }
        }
    }
}

/// Beginning and ending with a text.
pub proof fn ends_of_texts(whole: Seq<char>, part: Seq<char>)
    ensures
        has_suffix(whole, part) <==> part.is_suffix_of(whole),
        has_prefix(whole, part) <==> part.is_prefix_of(whole),
{
    if part.len() <= whole.len() {
        assert(whole.skip(whole.len() - part.len()) =~= whole.subrange(
            whole.len() - part.len(),
            whole.len() as int,
        ));
        assert(whole.take(part.len() as int) =~= whole.subrange(0, part.len() as int));
    }
}

/// What is left of a trimmed text is the part of it between the white space at its ends.
pub proof fn a_trimmed_text_is_what_is_between(s: Seq<char>)
    ensures
        exists|before: Seq<char>, after: Seq<char>|
            {
                &&& s == #[trigger] (before + trimmed(s) + after)
                &&& forall|i: int| 0 <= i < before.len() ==> is_space(#[trigger] before[i])
                &&& forall|i: int| 0 <= i < after.len() ==> is_space(#[trigger] after[i])
            },
        trimmed(s).len() > 0 ==> !is_space(trimmed(s)[0]) && !is_space(trimmed(s).last()),
{
    let t = trim_start(s);
    trim_start_is_behind(s);
    trim_end_is_before(t);
    let before = s.take(s.len() - t.len());
    let after = t.skip(trimmed(s).len() as int);
    assert(s =~= before + trimmed(s) + after);
    if trimmed(s).len() > 0 {
        assert(trimmed(s)[0] == t[0]);
    }
}

proof fn trim_start_is_behind(s: Seq<char>)
    ensures
        trim_start(s).is_suffix_of(s),
        forall|i: int| 0 <= i < s.len() - trim_start(s).len() ==> is_space(#[trigger] s[i]),
        trim_start(s).len() > 0 ==> !is_space(trim_start(s)[0]),
    decreases s.len(),
{
    if s.len() > 0 && is_space(s[0]) {
        let rest = s.skip(1);
        trim_start_is_behind(rest);
        assert(trim_start(s) =~= s.subrange(s.len() - trim_start(s).len(), s.len() as int));
        assert forall|i: int| 0 <= i < s.len() - trim_start(s).len() implies is_space(
            #[trigger] s[i],
        ) by {
            if i > 0 {
                assert(rest[i - 1] == s[i]);
            }
        }
    } else {
        assert(s =~= s.subrange(0, s.len() as int));
    }
}

proof fn trim_end_is_before(s: Seq<char>)
    ensures
        trim_end(s).is_prefix_of(s),
        forall|i: int| trim_end(s).len() <= i < s.len() ==> is_space(#[trigger] s[i]),
        trim_end(s).len() > 0 ==> !is_space(trim_end(s).last()),
    decreases s.len(),
{
    if s.len() > 0 && is_space(s.last()) {
        let rest = s.drop_last();
        trim_end_is_before(rest);
        assert(trim_end(s) =~= s.subrange(0, trim_end(s).len() as int));
        assert forall|i: int| trim_end(s).len() <= i < s.len() implies is_space(#[trigger] s[i]) by {
            if i < s.len() - 1 {
                assert(rest[i] == s[i]);
            }
        }
    } else {
        assert(s =~= s.subrange(0, s.len() as int));
    }
}

/// Of two texts, the one with the smaller character at the first difference comes first; and a text
/// comes before all that begin with it.
pub proof fn the_first_difference_decides(front: Seq<char>, a: Seq<char>, b: Seq<char>)
    ensures
        text_le(front, front + b),
        a.len() > 0 ==> !text_le(front + a, front),
        a.len() > 0 && b.len() > 0 && a[0] != b[0] ==> (text_le(front + a, front + b) <==> a[0]
            < b[0]),
    decreases front.len(),
{
    if front.len() > 0 {
        assert((front + a).skip(1) =~= front.skip(1) + a);
        assert((front + b).skip(1) =~= front.skip(1) + b);
        the_first_difference_decides(front.skip(1), a, b);
    } else {
        assert(front + a =~= a);
        assert(front + b =~= b);
    }
}

/// In lower case a text has the same length, no character from `A` to `Z`, and in their places those
/// from `a` to `z` that are as far from the start of the alphabet; all else stays.
pub proof fn lower_case_keeps_letters(s: Seq<char>, i: int)
    requires
        0 <= i < s.len(),
    ensures
        lower(s).len() == s.len(),
        'A' <= s[i] && s[i] <= 'Z' ==> lower(s)[i] as int - 'a' as int == s[i] as int - 'A' as int,
        !('A' <= s[i] && s[i] <= 'Z') ==> lower(s)[i] == s[i],
{
}

} // verus!
