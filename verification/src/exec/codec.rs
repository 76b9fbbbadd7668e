//! Numbers as bytes: the building blocks of the files that recordings are kept in.
use vstd::prelude::*;
use vstd::string::*;

verus! {

/// Why bytes cannot be read.
#[derive(Debug)]
pub enum ReadError {
    /// There are not enough bytes.
    UnexpectedEof,
    /// The bytes say something that cannot be.
    InvalidValue(String),
    /// Any other reason.
    UnknownError(String),
}

/// What a [`ReadError`] says.
pub enum ReadErrorView {
    UnexpectedEof,
    InvalidValue(Seq<char>),
    UnknownError(Seq<char>),
}

impl View for ReadError {
    type V = ReadErrorView;

    open spec fn view(&self) -> ReadErrorView {
        match self {
            ReadError::UnexpectedEof => ReadErrorView::UnexpectedEof,
            ReadError::InvalidValue(m) => ReadErrorView::InvalidValue(m@),
            ReadError::UnknownError(m) => ReadErrorView::UnknownError(m@),
        }
    }
}

impl ReadErrorView {
    /// What the error is printed as.
    pub open spec fn printed(self) -> Seq<char> {
        match self {
            ReadErrorView::UnexpectedEof => "unexpected end of file"@,
            ReadErrorView::InvalidValue(m) => "invalid value: "@ + m,
            ReadErrorView::UnknownError(m) => "unknown error: "@ + m,
        }
    }
}

impl ReadError {
    /// What the error is printed as.
    pub fn message(&self) -> (r: String)
        ensures
            r@ == self@.printed(),
    {
        match self {
            ReadError::UnexpectedEof => "unexpected end of file".to_owned(),
            ReadError::InvalidValue(m) => crate::text::concat("invalid value: ", m.as_str()),
            ReadError::UnknownError(m) => crate::text::concat("unknown error: ", m.as_str()),
        }
    }
}

/// What reading gives: a value and the bytes behind it, or the reason why there is none.
pub open spec fn agrees<T>(
    r: Result<(T, usize), ReadError>,
    bytes: Seq<u8>,
    parsed: Result<(T, Seq<u8>), ReadErrorView>,
) -> bool {
    match r {
        Ok((value, next)) => next <= bytes.len() && parsed == Ok::<(T, Seq<u8>), ReadErrorView>(
            (value, bytes.skip(next as int)),
        ),
        Err(e) => parsed == Err::<(T, Seq<u8>), ReadErrorView>(e@),
    }
}

// ---------------------------------------------------------------------------------------------
// Little-endian numbers
// ---------------------------------------------------------------------------------------------

/// The `count` lowest bytes of a number, the lowest first.
pub open spec fn le_bytes(n: nat, count: nat) -> Seq<u8>
    decreases count,
{
    if count == 0 {
        Seq::empty()
    } else {
        seq![(n % 0x100) as u8] + le_bytes(n / 0x100, (count - 1) as nat)
    }
}

/// The number whose bytes these are, the lowest first.
pub open spec fn le_number(bytes: Seq<u8>) -> nat
    decreases bytes.len(),
{
    if bytes.len() == 0 {
        0
    } else {
        bytes[0] as nat + 0x100 * le_number(bytes.skip(1))
    }
}

/// Two hundred and fifty-six to the power of `n`.
pub open spec fn power256(n: nat) -> nat
    decreases n,
{
    if n == 0 {
        1
    } else {
        0x100 * power256((n - 1) as nat)
    }
}

/// The bytes of a number make the number.
pub proof fn le_bytes_make_the_number(n: nat, count: nat)
    requires
        n < power256(count),
    ensures
        le_bytes(n, count).len() == count,
        le_number(le_bytes(n, count)) == n,
    decreases count,
{
    if count > 0 {
        let p = power256((count - 1) as nat);
        assert(n / 0x100 < p) by (nonlinear_arith)
            requires
                n < 0x100 * p,
        ;
        le_bytes_make_the_number(n / 0x100, (count - 1) as nat);
        assert(le_bytes(n, count).skip(1) =~= le_bytes(n / 0x100, (count - 1) as nat));
    }
}

pub proof fn le_bytes_len(n: nat, count: nat)
    ensures
        le_bytes(n, count).len() == count,
    decreases count,
{
    if count > 0 {
        le_bytes_len(n / 0x100, (count - 1) as nat);
    }
}

/// Bytes make a number that they can hold.
pub proof fn le_number_bound(bytes: Seq<u8>)
    ensures
        le_number(bytes) < power256(bytes.len()),
    decreases bytes.len(),
{
    if bytes.len() > 0 {
        le_number_bound(bytes.skip(1));
    }
}

/// Powers that fit in the machine's integers.
pub proof fn powers256()
    ensures
        power256(0) == 1,
        power256(1) == 0x100,
        power256(2) == 0x1_0000,
        power256(3) == 0x100_0000,
        power256(4) == 0x1_0000_0000,
        power256(5) == 0x100_0000_0000,
        power256(6) == 0x1_0000_0000_0000,
        power256(7) == 0x100_0000_0000_0000,
        power256(8) == 0x1_0000_0000_0000_0000,
{
    reveal_with_fuel(power256, 9);
}

/// Appends the `count` lowest bytes of a number, the lowest first.
pub fn write_le(out: &mut Vec<u8>, n: u64, count: usize)
    ensures
        final(out)@ == old(out)@ + le_bytes(n as nat, count as nat),
    decreases count,
{
    if count > 0 {
        out.push((n % 0x100) as u8);
        write_le(out, n / 0x100, count - 1);
    }
    proof {
        assert(out@ =~= old(out)@ + le_bytes(n as nat, count as nat));
    }
}

/// The first `count` bytes as a number, the lowest first.
pub open spec fn parse_le(s: Seq<u8>, count: nat) -> Result<(nat, Seq<u8>), ReadErrorView> {
    if s.len() < count {
        Err(ReadErrorView::UnexpectedEof)
    } else {
        Ok((le_number(s.take(count as int)), s.skip(count as int)))
    }
}

/// Writing a number and reading it back gives the number, and leaves what follows.
pub proof fn le_reads_back(n: nat, count: nat, rest: Seq<u8>)
    requires
        n < power256(count),
    ensures
        parse_le(le_bytes(n, count) + rest, count) == Ok::<(nat, Seq<u8>), ReadErrorView>((n, rest)),
{
    le_bytes_make_the_number(n, count);
    let s = le_bytes(n, count) + rest;
    assert(s.take(count as int) =~= le_bytes(n, count));
    assert(s.skip(count as int) =~= rest);
}

/// Reads `count` bytes as a number, the lowest first.
pub fn read_le(bytes: &Vec<u8>, pos: usize, count: usize) -> (r: Result<(u64, usize), ReadError>)
    requires
        pos <= bytes@.len(),
        count <= 8,
    ensures
        match r {
            Ok((n, next)) => {
                &&& next <= bytes@.len()
                &&& next == pos + count
                &&& n < power256(count as nat)
                &&& parse_le(bytes@.skip(pos as int), count as nat) == Ok::<
                    (nat, Seq<u8>),
                    ReadErrorView,
                >((n as nat, bytes@.skip(next as int)))
            },
            Err(e) => parse_le(bytes@.skip(pos as int), count as nat) == Err::<
                (nat, Seq<u8>),
                ReadErrorView,
            >(e@),
        },
{
    let total: usize = bytes.len();
    if total - pos < count {
        return Err(ReadError::UnexpectedEof);
    }
    let mut n: u64 = 0;
    let mut i: usize = count;
    let ghost window = bytes@.skip(pos as int).take(count as int);
    proof {
        assert(window.skip(count as int) =~= Seq::<u8>::empty());
    }
    while i > 0
        invariant
            i <= count <= 8,
            total == bytes@.len(),
            pos + count <= total,
            window == bytes@.skip(pos as int).take(count as int),
            window.len() == count,
            n == le_number(window.skip(i as int)),
        decreases i,
    {
        i -= 1;
        proof {
            let w = window.skip(i as int);
            assert(w.skip(1) =~= window.skip(i + 1));
            assert(w[0] == bytes@[pos + i]);
            le_number_bound(w);
            powers256();
            power256_grows(w.len(), 8);
        }
        n = n * 0x100 + bytes[pos + i] as u64;
    }
    proof {
        assert(window.skip(0) =~= window);
        le_number_bound(window);
        assert(bytes@.skip(pos as int).skip(count as int) =~= bytes@.skip(pos + count));
    }
    Ok((n, pos + count))
}

proof fn power256_grows(a: nat, b: nat)
    requires
        a <= b,
    ensures
        power256(a) <= power256(b),
    decreases b,
{
    if a < b {
        power256_grows(a, (b - 1) as nat);
    }
}

// ---------------------------------------------------------------------------------------------
// Truth values
// ---------------------------------------------------------------------------------------------

/// A truth value as a byte.
pub open spec fn bool_bytes(b: bool) -> Seq<u8> {
    seq![
        if b {
            1u8
        } else {
            0u8
        },
    ]
}

/// A byte as a truth value.
pub open spec fn parse_bool(s: Seq<u8>) -> Result<(bool, Seq<u8>), ReadErrorView> {
    if s.len() == 0 {
        Err(ReadErrorView::UnexpectedEof)
    } else if s[0] == 0 {
        Ok((false, s.skip(1)))
    } else if s[0] == 1 {
        Ok((true, s.skip(1)))
    } else {
        Err(
            ReadErrorView::InvalidValue(
                crate::text::decimal(s[0] as nat) + " is not a boolean value"@,
            ),
        )
    }
}

/// Appends a truth value.
pub fn write_bool(out: &mut Vec<u8>, b: bool)
    ensures
        final(out)@ == old(out)@ + bool_bytes(b),
{
    if b {
        out.push(1);
    } else {
        out.push(0);
    }
    proof {
        assert(out@ =~= old(out)@ + bool_bytes(b));
    }
}

/// Reads a truth value.
pub fn read_bool(bytes: &Vec<u8>, pos: usize) -> (r: Result<(bool, usize), ReadError>)
    requires
        pos <= bytes@.len(),
    ensures
        agrees(r, bytes@, parse_bool(bytes@.skip(pos as int))),
{
    let total: usize = bytes.len();
    if pos == total {
        return Err(ReadError::UnexpectedEof);
    }
    proof {
        assert(bytes@.skip(pos as int).skip(1) =~= bytes@.skip(pos + 1));
    }
    let b: u8 = bytes[pos];
    if b == 0 {
        Ok((false, pos + 1))
    } else if b == 1 {
        Ok((true, pos + 1))
    } else {
        let mut m = crate::text::render_decimal(b as u64);
        m.append(" is not a boolean value");
        Err(ReadError::InvalidValue(m))
    }
}

// ---------------------------------------------------------------------------------------------
// Sizes
// ---------------------------------------------------------------------------------------------

/// How many bytes a size takes up: seven bits go into a byte, up to eight bytes.
pub open spec fn size_len(n: nat) -> nat {
    if n < 0x80 {
        1
    } else if n < 0x4000 {
        2
    } else if n < 0x20_0000 {
        3
    } else if n < 0x1000_0000 {
        4
    } else if n < 0x8_0000_0000 {
        5
    } else if n < 0x400_0000_0000 {
        6
    } else if n < 0x2_0000_0000_0000 {
        7
    } else if n < 0x100_0000_0000_0000 {
        8
    } else {
        9
    }
}

/// Two to the power of one less than `len`: the mark, in the lowest bits of a size, that tells how
/// many bytes it takes up.
pub open spec fn size_mark(len: nat) -> nat {
    if len == 1 {
        1
    } else if len == 2 {
        2
    } else if len == 3 {
        4
    } else if len == 4 {
        8
    } else if len == 5 {
        0x10
    } else if len == 6 {
        0x20
    } else if len == 7 {
        0x40
    } else {
        0x80
    }
}

/// The bytes of a size: below the number stands a one, and below that as many zeros as further
/// bytes follow the first. A size that does not fit in eight bytes that way stands, in full, behind
/// a byte that is zero.
pub open spec fn size_bytes(n: nat) -> Seq<u8> {
    let len = size_len(n);
    if len == 9 {
        seq![0u8] + le_bytes(n, 8)
    } else {
        le_bytes((2 * n + 1) * size_mark(len), len)
    }
}

/// How many bytes the size that begins with this byte takes up.
pub open spec fn size_len_at(first: u8) -> nat {
    if first % 2 == 1 {
        1
    } else if first % 4 == 2 {
        2
    } else if first % 8 == 4 {
        3
    } else if first % 16 == 8 {
        4
    } else if first % 32 == 16 {
        5
    } else if first % 64 == 32 {
        6
    } else if first % 128 == 64 {
        7
    } else if first == 128 {
        8
    } else {
        9
    }
}

/// A size that must fit in the machine's own.
pub open spec fn checked_size(n: nat, rest: Seq<u8>) -> Result<(usize, Seq<u8>), ReadErrorView> {
    if n > usize::MAX {
        Err(
            ReadErrorView::InvalidValue(
                "Encoded value must be less than "@ + crate::text::decimal(usize::MAX as nat)
                    + ", but "@ + crate::text::decimal(n) + " was provided"@,
            ),
        )
    } else {
        Ok((n as usize, rest))
    }
}

/// Reads a size.
pub open spec fn parse_size(s: Seq<u8>) -> Result<(usize, Seq<u8>), ReadErrorView> {
    if s.len() == 0 {
        Err(ReadErrorView::UnexpectedEof)
    } else {
        let len = size_len_at(s[0]);
        if len == 9 {
            match parse_le(s.skip(1), 8) {
                Ok((n, rest)) => checked_size(n, rest),
                Err(e) => Err(e),
            }
        } else {
            match parse_le(s, len) {
                Ok((n, rest)) => checked_size(n / (2 * size_mark(len)), rest),
                Err(e) => Err(e),
            }
        }
    }
}

/// Writing a size and reading it back gives the size, and leaves what follows.
pub proof fn size_reads_back(n: usize, rest: Seq<u8>)
    ensures
        parse_size(size_bytes(n as nat) + rest) == Ok::<(usize, Seq<u8>), ReadErrorView>((n, rest)),
{
    let len = size_len(n as nat);
    let s = size_bytes(n as nat) + rest;
    powers256();
    if len == 9 {
        assert(s.skip(1) =~= le_bytes(n as nat, 8) + rest);
        le_reads_back(n as nat, 8, rest);
    } else {
        let m = size_mark(len);
        let x: nat = (2 * n as nat + 1) * m;
        assert(x < power256(len)) by {
            size_fits(n as nat);
        }
        le_reads_back(x, len, rest);
        le_bytes_len(x, len);
        assert(s[0] == (x % 0x100) as u8);
        assert(size_len_at(s[0]) == len && x / (2 * m) == n as nat) by {
            mark_found(n as nat, len);
        }
    }
}

proof fn size_fits(n: nat)
    requires
        size_len(n) < 9,
    ensures
        (2 * n + 1) * size_mark(size_len(n)) < power256(size_len(n)),
{
    powers256();
}

proof fn mark_found(n: nat, len: nat)
    requires
        1 <= len <= 8,
    ensures
        size_len_at((((2 * n + 1) * size_mark(len)) % 0x100) as u8) == len,
        ((2 * n + 1) * size_mark(len)) / (2 * size_mark(len)) == n,
{
    let m = size_mark(len);
    let x = (2 * n + 1) * m;
    assert(x == n * (2 * m) + m) by (nonlinear_arith)
        requires
            x == (2 * n + 1) * m,
    ;
    vstd::arithmetic::div_mod::lemma_fundamental_div_mod_converse(
        x as int,
        2 * m as int,
        n as int,
        m as int,
    );
    lowest_byte(x, m);
}

/// The mark of a number is that of its lowest byte.
proof fn lowest_byte(x: nat, m: nat)
    requires
        x % (2 * m) == m,
        m == 1 || m == 2 || m == 4 || m == 8 || m == 16 || m == 32 || m == 64 || m == 128,
    ensures
        (x % 0x100) % (2 * m) == m,
{
    let others: int = if m == 1 {
        128
    } else if m == 2 {
        64
    } else if m == 4 {
        32
    } else if m == 8 {
        16
    } else if m == 16 {
        8
    } else if m == 32 {
        4
    } else if m == 64 {
        2
    } else {
        1
    };
    assert((2 * m) * others == 0x100);
    vstd::arithmetic::div_mod::lemma_mod_mod(x as int, 2 * m as int, others);
}

/// Appends a size.
pub fn write_size(out: &mut Vec<u8>, n: usize)
    ensures
        final(out)@ == old(out)@ + size_bytes(n as nat),
{
    let wide: u64 = n as u64;
    if wide >= 0x100_0000_0000_0000 {
        out.push(0);
        write_le(out, wide, 8);
        proof {
            assert(out@ =~= old(out)@ + size_bytes(n as nat));
        }
        return;
    }
    let (len, mark): (usize, u64) = if wide < 0x80 {
        (1, 1)
    } else if wide < 0x4000 {
        (2, 2)
    } else if wide < 0x20_0000 {
        (3, 4)
    } else if wide < 0x1000_0000 {
        (4, 8)
    } else if wide < 0x8_0000_0000 {
        (5, 0x10)
    } else if wide < 0x400_0000_0000 {
        (6, 0x20)
    } else if wide < 0x2_0000_0000_0000 {
        (7, 0x40)
    } else {
        (8, 0x80)
    };
    proof {
        powers256();
        size_fits(n as nat);
        power256_grows(len as nat, 8);
        assert((2 * wide + 1) * mark <= u64::MAX);
    }
    write_le(out, (2 * wide + 1) * mark, len);
}

/// Reads a size.
pub fn read_size(bytes: &Vec<u8>, pos: usize) -> (r: Result<(usize, usize), ReadError>)
    requires
        pos <= bytes@.len(),
    ensures
        agrees(r, bytes@, parse_size(bytes@.skip(pos as int))),
{
    let total: usize = bytes.len();
    if pos == total {
        return Err(ReadError::UnexpectedEof);
    }
    let first: u8 = bytes[pos];
    let (len, mark): (usize, u64) = if first % 2 == 1 {
        (1, 1)
    } else if first % 4 == 2 {
        (2, 2)
    } else if first % 8 == 4 {
        (3, 4)
    } else if first % 16 == 8 {
        (4, 8)
    } else if first % 32 == 16 {
        (5, 0x10)
    } else if first % 64 == 32 {
        (6, 0x20)
    } else if first % 128 == 64 {
        (7, 0x40)
    } else if first == 128 {
        (8, 0x80)
    } else {
        (9, 0)
    };
    proof {
        assert(bytes@.skip(pos as int).skip(1) =~= bytes@.skip(pos + 1));
    }
    let (value, next): (u64, usize) = if len == 9 {
        match read_le(bytes, pos + 1, 8) {
            Ok((n, next)) => (n, next),
            Err(e) => {
                return Err(e);
            },
        }
    } else {
        match read_le(bytes, pos, len) {
            Ok((n, next)) => (n / (2 * mark), next),
            Err(e) => {
                return Err(e);
            },
        }
    };
    if value > usize::MAX as u64 {
        let mut m = "Encoded value must be less than ".to_owned();
        m.append(crate::text::render_usize(usize::MAX).as_str());
        m.append(", but ");
        m.append(crate::text::render_decimal(value).as_str());
        m.append(" was provided");
        return Err(ReadError::InvalidValue(m));
    }
    Ok((value as usize, next))
}

// ---------------------------------------------------------------------------------------------
// What holds of all bytes
// ---------------------------------------------------------------------------------------------

/// The byte at a position of a number counts as many times two hundred and fifty-six to the power of
/// that position.
pub proof fn bytes_count_by_their_position(n: nat, count: nat, i: nat)
    requires
        i < count,
    ensures
        le_bytes(n, count).len() == count,
        le_bytes(n, count)[i as int] == (n as int / vstd::arithmetic::power::pow(256, i)) % 256,
    decreases count,
{
    le_bytes_len(n, count);
    reveal(vstd::arithmetic::power::pow);
    if i == 0 {
        assert(vstd::arithmetic::power::pow(256, 0) == 1);
    } else {
        bytes_count_by_their_position(n / 0x100, (count - 1) as nat, (i - 1) as nat);
        let p = vstd::arithmetic::power::pow(256, (i - 1) as nat);
        vstd::arithmetic::power::lemma_pow_positive(256, (i - 1) as nat);
        vstd::arithmetic::div_mod::lemma_div_denominator(n as int, 256, p);
        assert(vstd::arithmetic::power::pow(256, i) == 256 * p);
        le_bytes_len(n / 0x100, (count - 1) as nat);
        assert(le_bytes(n, count)[i as int] == le_bytes(n / 0x100, (count - 1) as nat)[i - 1]);
    }
}

/// The last byte of a number counts the most.
pub proof fn the_last_byte_counts_the_most(bytes: Seq<u8>, last: u8)
    ensures
        le_number(bytes.push(last)) == le_number(bytes) + last * vstd::arithmetic::power::pow(
            256,
            bytes.len(),
        ),
    decreases bytes.len(),
{
    reveal(vstd::arithmetic::power::pow);
    if bytes.len() == 0 {
        assert(bytes.push(last).skip(1) =~= Seq::<u8>::empty());
        reveal_with_fuel(le_number, 2);
    } else {
        assert(bytes.push(last).skip(1) =~= bytes.skip(1).push(last));
        the_last_byte_counts_the_most(bytes.skip(1), last);
        let p = vstd::arithmetic::power::pow(256, (bytes.len() - 1) as nat);
        assert(256 * (last * p) == last * (256 * p)) by (nonlinear_arith);
    }
}

/// A number takes its bytes from the front and leaves the rest; there is no number where there are
/// not enough of them.
pub proof fn a_number_takes_its_bytes(s: Seq<u8>, count: nat)
    ensures
        match parse_le(s, count) {
            Ok((n, rest)) => {
                &&& count <= s.len()
                &&& rest.len() == s.len() - count
                &&& rest.is_suffix_of(s)
                &&& n == le_number(s.take(count as int))
            },
            Err(e) => s.len() < count && e is UnexpectedEof,
        },
{
    if count <= s.len() {
        assert(s.skip(count as int) =~= s.subrange(count as int, s.len() as int));
    }
}

/// A size below two to the power of fifty-six takes up as few bytes as have seven bits for each seven
/// of its own; the bytes make twice the size and one, shifted by one bit less than there are bytes.
/// Any other size takes up nine bytes: a zero, and its own.
pub proof fn a_size_tells_its_length(n: nat)
    requires
        n < 0x1_0000_0000_0000_0000,
    ensures
        ({
            let bytes = size_bytes(n);
            let len = bytes.len();
            &&& n < 0x100_0000_0000_0000 ==> {
                &&& 1 <= len <= 8
                &&& n < vstd::arithmetic::power::pow(2, 7 * len)
                &&& len > 1 ==> vstd::arithmetic::power::pow(2, (7 * (len - 1)) as nat) <= n
                &&& le_number(bytes) == (2 * n + 1) * vstd::arithmetic::power::pow(
                    2,
                    (len - 1) as nat,
                )
            }
            &&& n >= 0x100_0000_0000_0000 ==> len == 9 && bytes[0] == 0 && le_number(bytes.skip(1))
                == n
        }),
{
    powers256();
    vstd::arithmetic::power2::lemma2_to64();
    vstd::arithmetic::power2::lemma2_to64_rest();
    let len = size_len(n);
    le_bytes_len(n, 8);
    if len == 9 {
        le_bytes_make_the_number(n, 8);
        assert(size_bytes(n).skip(1) =~= le_bytes(n, 8));
    } else {
        size_fits(n);
        le_bytes_make_the_number((2 * n + 1) * size_mark(len), len);
        vstd::arithmetic::power2::lemma_pow2(7 * len);
        vstd::arithmetic::power2::lemma_pow2((7 * (len - 1)) as nat);
        vstd::arithmetic::power2::lemma_pow2((len - 1) as nat);
    }
}

/// A truth value is a byte that is zero or one, and any other byte is refused.
pub proof fn truth_values_are_zero_or_one(s: Seq<u8>, b: bool)
    ensures
        bool_bytes(b).len() == 1,
        bool_bytes(b)[0] == if b {
            1int
        } else {
            0
        },
        match parse_bool(s) {
            Ok((value, rest)) => s.len() > 0 && s == bool_bytes(value) + rest,
            Err(ReadErrorView::UnexpectedEof) => s.len() == 0,
            Err(ReadErrorView::InvalidValue(_)) => s.len() > 0 && s[0] > 1,
            Err(_) => false,
        },
{
    if let Ok((value, rest)) = parse_bool(s) {
        assert(s =~= bool_bytes(value) + rest);
    }
}

/// What is wrong with bytes is told behind the sort of the error; errors of different sorts are
/// told apart by how their text begins.
pub proof fn read_errors_are_told_apart(m: Seq<char>, n: Seq<char>)
    ensures
        m.is_suffix_of(ReadErrorView::InvalidValue(m).printed()),
        m.is_suffix_of(ReadErrorView::UnknownError(m).printed()),
        ReadErrorView::InvalidValue(m).printed() != ReadErrorView::UnknownError(n).printed(),
        ReadErrorView::InvalidValue(m).printed() != ReadErrorView::UnexpectedEof.printed(),
        ReadErrorView::UnknownError(m).printed() != ReadErrorView::UnexpectedEof.printed(),
        ReadErrorView::InvalidValue(m).printed() == ReadErrorView::InvalidValue(n).printed() ==> m
            == n,
{
    reveal_strlit("invalid value: ");
    reveal_strlit("unknown error: ");
    reveal_strlit("unexpected end of file");
    let a = ReadErrorView::InvalidValue(m).printed();
    let b = ReadErrorView::UnknownError(m).printed();
    let c = ReadErrorView::UnknownError(n).printed();
    let d = ReadErrorView::InvalidValue(n).printed();
    let e = ReadErrorView::UnexpectedEof.printed();
    assert(m =~= a.subrange(a.len() - m.len(), a.len() as int));
    assert(m =~= b.subrange(b.len() - m.len(), b.len() as int));
    assert(n =~= d.subrange(d.len() - n.len(), d.len() as int));
    assert(a[0] == 'i' && c[0] == 'u' && e[0] == 'u');
    assert(b[2] == 'k' && e[2] == 'e');
}

} // verus!
