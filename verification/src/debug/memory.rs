//! Queries on the memory of a program, and how values read from it are shown.
use vstd::prelude::*;
use vstd::string::*;

verus! {

/// A pointer to a byte: an element of the virtual machine's memory, and a byte in it.
#[derive(Debug, Clone, Copy, PartialEq, Eq, Structural)]
pub struct NativePtr {
    /// The address of the element.
    pub addr: u32,
    /// The byte in the element.
    pub offset: u8,
}

/// How many bytes of an address space of bytes an element stands for.
pub const ELEMENT_SIZE: u32 = 4;

/// How many elements make a word.
pub const WORD_SIZE: u32 = 4;

impl NativePtr {
    /// Whether the pointer points to the start of an element.
    pub open spec fn element_aligned(self) -> bool {
        self.offset == 0
    }

    /// Whether the pointer points to the start of a word.
    pub open spec fn word_aligned(self) -> bool {
        self.offset == 0 && self.addr % WORD_SIZE == 0
    }

    /// The pointer for an address that counts bytes.
    pub fn from_ptr(addr: u32) -> (r: Self)
        ensures
            r.addr == addr / ELEMENT_SIZE,
            r.offset == addr % ELEMENT_SIZE,
            r.addr * 4 + r.offset == addr,
            r.offset < 4,
    {
        NativePtr { addr: addr / ELEMENT_SIZE, offset: (addr % ELEMENT_SIZE) as u8 }
    }

    /// Whether the pointer points to the start of an element.
    pub fn is_element_aligned(&self) -> (r: bool)
        ensures
            r == self.element_aligned(),
    {
        self.offset == 0
    }

    /// Whether the pointer points to the start of a word.
    pub fn is_word_aligned(&self) -> (r: bool)
        ensures
            r == self.word_aligned(),
    {
        self.offset == 0 && self.addr % WORD_SIZE == 0
    }
}

/// The type of a value in memory.
#[derive(Debug)]
pub enum Type {
    I1,
    I8,
    U8,
    I16,
    U16,
    I32,
    U32,
    I64,
    U64,
    Felt,
    /// An array of four field elements.
    Word,
    /// Any other type, by what it is printed as and the number of bytes it takes up.
    Other { name: String, size: usize },
}

impl Type {
    /// How many bytes a value takes up.
    pub open spec fn size(&self) -> nat {
        match self {
            Type::I1 | Type::I8 | Type::U8 => 1,
            Type::I16 | Type::U16 => 2,
            Type::I32 | Type::U32 | Type::Felt => 4,
            Type::I64 | Type::U64 => 8,
            Type::Word => 16,
            Type::Other { size, .. } => *size as nat,
        }
    }

    /// How many elements a value takes up: the last one may be used in part.
    pub open spec fn felts(&self) -> nat {
        (self.size() + 3) / 4
    }

    /// How many bytes a value takes up.
    pub fn size_in_bytes(&self) -> (r: usize)
        ensures
            r == self.size(),
    {
        match self {
            Type::I1 | Type::I8 | Type::U8 => 1,
            Type::I16 | Type::U16 => 2,
            Type::I32 | Type::U32 | Type::Felt => 4,
            Type::I64 | Type::U64 => 8,
            Type::Word => 16,
            Type::Other { size, .. } => *size,
        }
    }

    /// How many elements a value takes up: the last one may be used in part.
    pub fn size_in_felts(&self) -> (r: usize)
        ensures
            r == self.felts(),
    {
        let size: usize = self.size_in_bytes();
        if size % 4 == 0 {
            size / 4
        } else {
            size / 4 + 1
        }
    }
}

/// How a number is shown.
#[derive(Debug, Clone, Copy, PartialEq, Eq, Structural)]
pub enum FormatType {
    Decimal,
    Hex,
    Binary,
}

/// A query on the memory of a program.
#[derive(Debug)]
pub struct ReadMemoryExpr {
    pub addr: NativePtr,
    pub ty: Type,
    pub count: usize,
    pub format: FormatType,
}

/// Why memory cannot be read.
#[derive(Debug, Clone, Copy, PartialEq, Eq, Structural)]
pub enum MemoryReadError {
    OutOfBounds,
    UnalignedRead,
}

impl MemoryReadError {
    /// What the error is printed as.
    pub open spec fn printed(self) -> Seq<char> {
        match self {
            MemoryReadError::OutOfBounds => "attempted to read beyond end of linear memory"@,
            MemoryReadError::UnalignedRead => "unaligned reads are not supported yet"@,
        }
    }

    /// What the error is printed as.
    pub fn message(&self) -> (r: String)
        ensures
            r@ == self.printed(),
    {
        match self {
            MemoryReadError::OutOfBounds =>
                "attempted to read beyond end of linear memory".to_owned(),
            MemoryReadError::UnalignedRead => "unaligned reads are not supported yet".to_owned(),
        }
    }
}

// ---------------------------------------------------------------------------------------------
// Bytes of elements
// ---------------------------------------------------------------------------------------------

/// The four bytes of a number below two to the thirty-second, the highest first.
pub open spec fn be_bytes(n: nat) -> Seq<u8> {
    seq![
        (n / 0x100_0000) as u8,
        (n / 0x1_0000 % 0x100) as u8,
        (n / 0x100 % 0x100) as u8,
        (n % 0x100) as u8,
    ]
}

/// The number whose bytes these are, the highest first.
pub open spec fn be_number(bytes: Seq<u8>) -> nat
    decreases bytes.len(),
{
    if bytes.len() == 0 {
        0
    } else {
        be_number(bytes.drop_last()) * 0x100 + bytes.last() as nat
    }
}

/// The bytes of the lower halves of these elements.
pub open spec fn element_bytes(elements: Seq<u64>) -> Seq<u8>
    decreases elements.len(),
{
    if elements.len() == 0 {
        Seq::empty()
    } else {
        element_bytes(elements.drop_last()) + be_bytes(elements.last() as nat % 0x1_0000_0000)
    }
}

/// The first `size` bytes of the lower halves of these elements, or all of them.
pub open spec fn leading_bytes(elements: Seq<u64>, size: nat) -> Seq<u8> {
    let all = element_bytes(elements);
    if size < all.len() {
        all.take(size as int)
    } else {
        all
    }
}

/// Writing out a number below two to the thirty-second and putting its bytes together again gives
/// the number.
pub proof fn be_bytes_make_the_number(n: nat)
    requires
        n < 0x1_0000_0000,
    ensures
        be_number(be_bytes(n)) == n,
{
    let b = be_bytes(n);
    assert(b.drop_last() =~= seq![b[0], b[1], b[2]]);
    assert(b.drop_last().drop_last() =~= seq![b[0], b[1]]);
    assert(b.drop_last().drop_last().drop_last() =~= seq![b[0]]);
    assert(b.drop_last().drop_last().drop_last().drop_last() =~= Seq::<u8>::empty());
    reveal_with_fuel(be_number, 5);
}

proof fn element_bytes_len(elements: Seq<u64>)
    ensures
        element_bytes(elements).len() == 4 * elements.len(),
    decreases elements.len(),
{
    if elements.len() > 0 {
        element_bytes_len(elements.drop_last());
    }
}

/// Elements that are enough for `size` bytes give that many.
pub proof fn leading_bytes_len(elements: Seq<u64>, size: nat)
    ensures
        size <= 4 * elements.len() ==> leading_bytes(elements, size).len() == size,
{
    element_bytes_len(elements);
}

/// The first `size` bytes of the lower halves of these elements, or all of them.
pub fn bytes_of_elements(elements: &Vec<u64>, size: usize) -> (r: Vec<u8>)
    ensures
        r@ == leading_bytes(elements@, size as nat),
{
    let mut out: Vec<u8> = Vec::new();
    let mut i: usize = 0;
    proof {
        assert(elements@.take(0) =~= Seq::<u64>::empty());
    }
    while i < elements.len()
        invariant
            i <= elements@.len(),
            out@ == leading_bytes(elements@.take(i as int), size as nat),
            out@.len() <= size,
        decreases elements@.len() - i,
    {
        let ghost before = out@;
        let ghost all = element_bytes(elements@.take(i as int));
        let low: u32 = (elements[i] % 0x1_0000_0000) as u32;
        let b0: u8 = (low / 0x100_0000) as u8;
        let b1: u8 = (low / 0x1_0000 % 0x100) as u8;
        let b2: u8 = (low / 0x100 % 0x100) as u8;
        let b3: u8 = (low % 0x100) as u8;
        let ghost more = be_bytes(low as nat);
        proof {
            assert(more =~= seq![b0, b1, b2, b3]);
            element_bytes_len(elements@.take(i as int));
            assert(elements@.take(i + 1).drop_last() =~= elements@.take(i as int));
            assert(element_bytes(elements@.take(i + 1)) == all + more);
        }
        if out.len() < size {
            out.push(b0);
        }
        if out.len() < size {
            out.push(b1);
        }
        if out.len() < size {
            out.push(b2);
        }
        if out.len() < size {
            out.push(b3);
        }
        i += 1;
        proof {
            assert(out@ =~= leading_bytes(elements@.take(i as int), size as nat));
        }
    }
    proof {
        assert(elements@.take(i as int) =~= elements@);
    }
    out
}

// ---------------------------------------------------------------------------------------------
// Values as text
// ---------------------------------------------------------------------------------------------

/// A number without sign.
pub open spec fn unsigned_text(n: nat, format: FormatType) -> Seq<char> {
    match format {
        FormatType::Decimal => crate::text::decimal(n),
        FormatType::Hex => crate::text::digits(n, 16),
        FormatType::Binary => crate::text::digits(n, 2),
    }
}

/// A number in two's complement: `modulus` is two to the number of its bits. In decimal it is
/// shown with its sign, else by its bits.
pub open spec fn signed_text(n: nat, modulus: nat, format: FormatType) -> Seq<char> {
    match format {
        FormatType::Decimal => if 2 * n >= modulus {
            crate::text::signed_decimal(n - modulus)
        } else {
            crate::text::decimal(n)
        },
        _ => unsigned_text(n, format),
    }
}

/// A truth value.
pub open spec fn bool_text(b: bool, format: FormatType) -> Seq<char> {
    match format {
        FormatType::Decimal => if b {
            "true"@
        } else {
            "false"@
        },
        FormatType::Hex => if b {
            "0x1"@
        } else {
            "0x0"@
        },
        FormatType::Binary => if b {
            "0b1"@
        } else {
            "0b0"@
        },
    }
}

/// A number without sign.
pub fn show_unsigned(n: u64, format: FormatType) -> (r: String)
    ensures
        r@ == unsigned_text(n as nat, format),
{
    match format {
        FormatType::Decimal => crate::text::render_decimal(n),
        FormatType::Hex => crate::text::render(n, 16),
        FormatType::Binary => crate::text::render(n, 2),
    }
}

/// A number in two's complement, with the number of its bits.
fn show_signed(n: u64, modulus: u128, format: FormatType) -> (r: String)
    requires
        n < modulus <= 0x1_0000_0000_0000_0000,
    ensures
        r@ == signed_text(n as nat, modulus as nat, format),
{
    match format {
        FormatType::Decimal => if 2 * (n as u128) >= modulus {
            let mut out = String::new();
            crate::text::push_char(&mut out, '-');
            out.append(crate::text::render_decimal((modulus - n as u128) as u64).as_str());
            proof {
                assert(out@ =~= crate::text::signed_decimal(n - modulus));
            }
            out
        } else {
            crate::text::render_decimal(n)
        },
        _ => show_unsigned(n, format),
    }
}

/// A truth value.
pub fn show_bool(b: bool, format: FormatType) -> (r: String)
    ensures
        r@ == bool_text(b, format),
{
    match format {
        FormatType::Decimal => if b {
            "true".to_owned()
        } else {
            "false".to_owned()
        },
        FormatType::Hex => if b {
            "0x1".to_owned()
        } else {
            "0x0".to_owned()
        },
        FormatType::Binary => if b {
            "0b1".to_owned()
        } else {
            "0b0".to_owned()
        },
    }
}

/// The value of a scalar type with these bytes, the highest first; for other types, the refusal.
pub open spec fn scalar_text(ty: Type, bytes: Seq<u8>, format: FormatType) -> Result<
    Seq<char>,
    Seq<char>,
> {
    let n = be_number(bytes);
    match ty {
        Type::I1 => Ok(bool_text(n != 0, format)),
        Type::I8 => Ok(signed_text(n, 0x100, format)),
        Type::I16 => Ok(signed_text(n, 0x1_0000, format)),
        Type::I32 => Ok(signed_text(n, 0x1_0000_0000, format)),
        Type::I64 => Ok(signed_text(n, 0x1_0000_0000_0000_0000, format)),
        Type::U8 | Type::U16 | Type::U32 | Type::U64 => Ok(unsigned_text(n, format)),
        _ => Err(
            "support for reads of type '"@ + type_label(ty) + "' are not implemented yet"@,
        ),
    }
}

/// What a type is printed as.
pub open spec fn type_label(ty: Type) -> Seq<char> {
    match ty {
        Type::I1 => "i1"@,
        Type::I8 => "i8"@,
        Type::U8 => "u8"@,
        Type::I16 => "i16"@,
        Type::U16 => "u16"@,
        Type::I32 => "i32"@,
        Type::U32 => "u32"@,
        Type::I64 => "i64"@,
        Type::U64 => "u64"@,
        Type::Felt => "felt"@,
        Type::Word => "[felt; 4]"@,
        Type::Other { name, .. } => name@,
    }
}

impl Type {
    /// What the type is printed as.
    pub fn name(&self) -> (r: String)
        ensures
            r@ == type_label(*self),
    {
        match self {
            Type::I1 => "i1".to_owned(),
            Type::I8 => "i8".to_owned(),
            Type::U8 => "u8".to_owned(),
            Type::I16 => "i16".to_owned(),
            Type::U16 => "u16".to_owned(),
            Type::I32 => "i32".to_owned(),
            Type::U32 => "u32".to_owned(),
            Type::I64 => "i64".to_owned(),
            Type::U64 => "u64".to_owned(),
            Type::Felt => "felt".to_owned(),
            Type::Word => "[felt; 4]".to_owned(),
            Type::Other { name, .. } => name.clone(),
        }
    }
}

spec fn power256(n: nat) -> nat
    decreases n,
{
    if n == 0 {
        1
    } else {
        0x100 * power256((n - 1) as nat)
    }
}

proof fn be_number_bound(bytes: Seq<u8>)
    ensures
        be_number(bytes) < power256(bytes.len()),
    decreases bytes.len(),
{
    if bytes.len() > 0 {
        be_number_bound(bytes.drop_last());
    }
}

fn number_of(bytes: &Vec<u8>) -> (r: u64)
    requires
        bytes@.len() <= 8,
    ensures
        r == be_number(bytes@),
        r < power256(bytes@.len()),
{
    let mut n: u64 = 0;
    let mut i: usize = 0;
    proof {
        assert(bytes@.take(0) =~= Seq::<u8>::empty());
    }
    while i < bytes.len()
        invariant
            i <= bytes@.len() <= 8,
            n == be_number(bytes@.take(i as int)),
        decreases bytes@.len() - i,
    {
        proof {
            let next = bytes@.take(i + 1);
            assert(next.drop_last() =~= bytes@.take(i as int));
            be_number_bound(next);
            assert(power256(next.len()) <= 0x1_0000_0000_0000_0000) by {
                reveal_with_fuel(power256, 9);
            }
        }
        n = n * 0x100 + bytes[i] as u64;
        i += 1;
    }
    proof {
        assert(bytes@.take(i as int) =~= bytes@);
        be_number_bound(bytes@);
    }
    n
}

/// Shows the value of a scalar type with these bytes, the highest first; other types are refused.
pub fn show_scalar(ty: &Type, bytes: &Vec<u8>, format: FormatType) -> (r: Result<String, String>)
    requires
        bytes@.len() == ty.size(),
    ensures
        match r {
            Ok(text) => scalar_text(*ty, bytes@, format) == Ok::<Seq<char>, Seq<char>>(text@),
            Err(text) => scalar_text(*ty, bytes@, format) == Err::<Seq<char>, Seq<char>>(text@),
        },
{
    let supported = match ty {
        Type::Felt | Type::Word | Type::Other { .. } => false,
        _ => true,
    };
    if !supported {
        let mut out = "support for reads of type '".to_owned();
        out.append(ty.name().as_str());
        out.append("' are not implemented yet");
        return Err(out);
    }
    let n: u64 = number_of(bytes);
    proof {
        reveal_with_fuel(power256, 9);
    }
    let text = match ty {
        Type::I1 => show_bool(n != 0, format),
        Type::I8 => show_signed(n, 0x100, format),
        Type::I16 => show_signed(n, 0x1_0000, format),
        Type::I32 => show_signed(n, 0x1_0000_0000, format),
        Type::I64 => show_signed(n, 0x1_0000_0000_0000_0000, format),
        _ => show_unsigned(n, format),
    };
    Ok(text)
}

// ---------------------------------------------------------------------------------------------
// What holds of all values
// ---------------------------------------------------------------------------------------------

/// A value takes up as few elements as hold all of its bytes, at four bytes an element.
pub proof fn a_value_takes_up_no_more_elements_than_it_needs(ty: Type)
    ensures
        ty.size() <= 4 * ty.felts(),
        4 * ty.felts() < ty.size() + 4,
{
}

/// Numbers take up their bits, a truth value takes up a byte, and a field element four bytes.
pub proof fn values_take_up_their_bits(ty: Type)
    ensures
        ty is I1 || ty is I8 || ty is U8 ==> ty.size() * 8 == 8,
        ty is I16 || ty is U16 ==> ty.size() * 8 == 16,
        ty is I32 || ty is U32 || ty is Felt ==> ty.size() * 8 == 32,
        ty is I64 || ty is U64 ==> ty.size() * 8 == 64,
        ty is Word ==> ty.size() == 4 * Type::Felt.size(),
        ty matches Type::Other { size, .. } ==> ty.size() == size,
{
}

/// A pointer is at the start of a word where it is at the start of an element that is a multiple of
/// four away from the first.
pub proof fn words_start_at_every_fourth_element(p: NativePtr)
    ensures
        p.element_aligned() <==> p.offset == 0,
        p.word_aligned() <==> p.element_aligned() && exists|k: int| p.addr == #[trigger] (4 * k),
{
    if p.addr % 4 == 0 {
        assert(p.addr == 4 * (p.addr / 4) as int);
    }
}

/// The first byte of a number counts the most: it stands for as many times two hundred and fifty-six
/// as there are bytes behind it.
pub proof fn the_first_byte_counts_the_most(first: u8, rest: Seq<u8>)
    ensures
        be_number(seq![first] + rest) == first * vstd::arithmetic::power::pow(256, rest.len())
            + be_number(rest),
        be_number(rest) < vstd::arithmetic::power::pow(256, rest.len()),
    decreases rest.len(),
{
    reveal(vstd::arithmetic::power::pow);
    let all = seq![first] + rest;
    if rest.len() == 0 {
        assert(all.drop_last() =~= Seq::<u8>::empty());
        reveal_with_fuel(be_number, 2);
    } else {
        assert(all.drop_last() =~= seq![first] + rest.drop_last());
        the_first_byte_counts_the_most(first, rest.drop_last());
        let p = vstd::arithmetic::power::pow(256, (rest.len() - 1) as nat);
        assert((first * p) * 256 == first * (256 * p)) by (nonlinear_arith);
    }
}

/// An element has four bytes, which are those of its lower half; elements that follow each other
/// have their bytes one after the other.
pub proof fn elements_have_four_bytes_each(a: Seq<u64>, e: u64, b: Seq<u64>)
    ensures
        element_bytes(a + b) == element_bytes(a) + element_bytes(b),
        element_bytes(a).len() == 4 * a.len(),
        be_number(element_bytes(seq![e])) == e % 0x1_0000_0000,
    decreases b.len(),
{
    element_bytes_len(a);
    assert(seq![e].drop_last() =~= Seq::<u64>::empty());
    reveal_with_fuel(element_bytes, 2);
    assert(element_bytes(seq![e]) =~= be_bytes(e as nat % 0x1_0000_0000));
    be_bytes_make_the_number(e as nat % 0x1_0000_0000);
    if b.len() == 0 {
        assert(a + b =~= a);
        assert(element_bytes(a) + element_bytes(b) =~= element_bytes(a));
    } else {
        elements_have_four_bytes_each(a, e, b.drop_last());
        assert((a + b).drop_last() =~= a + b.drop_last());
        let last = be_bytes(b.last() as nat % 0x1_0000_0000);
        assert((element_bytes(a) + element_bytes(b.drop_last())) + last =~= element_bytes(a) + (
        element_bytes(b.drop_last()) + last));
    }
}

/// The bytes of a value are the first ones of its elements.
pub proof fn a_value_has_the_first_bytes(elements: Seq<u64>, size: nat)
    ensures
        leading_bytes(elements, size).is_prefix_of(element_bytes(elements)),
        leading_bytes(elements, size).len() == if size < 4 * elements.len() {
            size
        } else {
            4 * elements.len()
        },
{
    element_bytes_len(elements);
    let all = element_bytes(elements);
    assert(all.subrange(0, all.len() as int) =~= all);
    if size < all.len() {
        assert(all.take(size as int) =~= all.subrange(0, size as int));
    }
}

/// How many bits a signed number has; zero for any other value.
pub open spec fn signed_bits(ty: Type) -> nat {
    match ty {
        Type::I8 => 8,
        Type::I16 => 16,
        Type::I32 => 32,
        Type::I64 => 64,
        _ => 0,
    }
}

/// A signed number of `b` bits is shown in decimal as the only number from `-2^(b-1)` up to
/// `2^(b-1)` that differs from the number of its bytes by a multiple of `2^b`.
pub proof fn a_signed_number_is_shown_with_its_sign(ty: Type, bytes: Seq<u8>, v: int)
    requires
        signed_bits(ty) > 0,
        bytes.len() * 8 == signed_bits(ty),
        -vstd::arithmetic::power::pow(2, (signed_bits(ty) - 1) as nat) <= v,
        v < vstd::arithmetic::power::pow(2, (signed_bits(ty) - 1) as nat),
        (v - be_number(bytes)) % vstd::arithmetic::power::pow(2, signed_bits(ty)) == 0,
    ensures
        scalar_text(ty, bytes, FormatType::Decimal) matches Ok(text)
            && crate::text::shows_number(text, v),
{
    let b = signed_bits(ty);
    vstd::arithmetic::power2::lemma2_to64();
    vstd::arithmetic::power2::lemma2_to64_rest();
    vstd::arithmetic::power2::lemma_pow2(b);
    vstd::arithmetic::power2::lemma_pow2((b - 1) as nat);
    be_number_bound(bytes);
    reveal_with_fuel(power256, 9);
    let n = be_number(bytes);
    let m = vstd::arithmetic::power::pow(2, b);
    assert(n < m);
    assert(v == n || v == n - m) by {
        vstd::arithmetic::div_mod::lemma_fundamental_div_mod(v - n, m);
        let q = (v - n) / m;
        assert(v - n == m * q);
        assert(q == 0 || q == -1) by (nonlinear_arith)
            requires
                v - n == m * q,
                m > 0,
                -2 * m < v - n < m,
        ;
        assert(m * -1 == -m) by (nonlinear_arith);
        assert(m * 0 == 0) by (nonlinear_arith);
    }
    crate::text::a_sign_stands_in_front(v);
}

/// A number without sign is shown as itself, in the base that was asked for; a signed one is shown
/// so by its bits where it is not shown in decimal.
pub proof fn a_number_is_shown_as_itself(ty: Type, bytes: Seq<u8>, format: FormatType)
    requires
        ty is U8 || ty is U16 || ty is U32 || ty is U64 || (signed_bits(ty) > 0 && !(
        format is Decimal)),
    ensures
        ({
            let radix: nat = match format {
                FormatType::Decimal => 10,
                FormatType::Hex => 16,
                FormatType::Binary => 2,
            };
            &&& scalar_text(ty, bytes, format) matches Ok(text)
            &&& crate::text::is_numeral(text, radix)
            &&& crate::text::place_value(text, radix) == be_number(bytes)
        }),
{
    let n = be_number(bytes);
    crate::text::a_number_is_what_its_digits_stand_for(n, 10);
    crate::text::a_number_is_what_its_digits_stand_for(n, 16);
    crate::text::a_number_is_what_its_digits_stand_for(n, 2);
}

/// A truth value is false where all of its bits are zero, and is shown in words in decimal, else by
/// its only bit behind the prefix of the base.
pub proof fn a_truth_value_is_its_bit(bytes: Seq<u8>)
    ensures
        ({
            let set = be_number(bytes) != 0;
            &&& scalar_text(Type::I1, bytes, FormatType::Decimal) == Ok::<Seq<char>, Seq<char>>(
                if set { seq!['t', 'r', 'u', 'e'] } else { seq!['f', 'a', 'l', 's', 'e'] },
            )
            &&& scalar_text(Type::I1, bytes, FormatType::Hex) == Ok::<Seq<char>, Seq<char>>(
                seq!['0', 'x', if set { '1' } else { '0' }],
            )
            &&& scalar_text(Type::I1, bytes, FormatType::Binary) == Ok::<Seq<char>, Seq<char>>(
                seq!['0', 'b', if set { '1' } else { '0' }],
            )
        }),
{
    reveal_strlit("true");
    reveal_strlit("false");
    reveal_strlit("0x1");
    reveal_strlit("0x0");
    reveal_strlit("0b1");
    reveal_strlit("0b0");
    let set = be_number(bytes) != 0;
    assert(bool_text(set, FormatType::Decimal) =~= if set {
        seq!['t', 'r', 'u', 'e']
    } else {
        seq!['f', 'a', 'l', 's', 'e']
    });
    assert(bool_text(set, FormatType::Hex) =~= seq![
        '0',
        'x',
        if set {
            '1'
        } else {
            '0'
        },
    ]);
    assert(bool_text(set, FormatType::Binary) =~= seq![
        '0',
        'b',
        if set {
            '1'
        } else {
            '0'
        },
    ]);
}

/// Truth values and numbers are shown, and nothing else is; what is refused is named.
pub proof fn only_scalars_are_shown(ty: Type, bytes: Seq<u8>, format: FormatType)
    ensures
        match scalar_text(ty, bytes, format) {
            Ok(_) => !(ty is Felt || ty is Word || ty is Other),
            Err(refusal) => {
                &&& ty is Felt || ty is Word || ty is Other
                &&& exists|at: int|
                    #[trigger] crate::text::occurs_at(
                        refusal,
                        seq!['\''] + type_label(ty) + seq!['\''],
                        at,
                    )
            },
        },
{
    if let Err(refusal) = scalar_text(ty, bytes, format) {
        reveal_strlit("support for reads of type '");
        reveal_strlit("' are not implemented yet");
        let name = type_label(ty);
        let at = "support for reads of type '"@.len() - 1;
        let quoted = seq!['\''] + name + seq!['\''];
        assert(refusal.subrange(at, at + quoted.len()) =~= quoted);
        assert(crate::text::occurs_at(refusal, quoted, at));
    }
}

/// A number is named by whether it has a sign and by how many bits it has; a word is named as four
/// elements, and any other type by its own name.
pub proof fn types_are_printed_by_name(ty: Type)
    ensures
        ty is I1 ==> type_label(ty) == "i1"@,
        ty is I8 ==> type_label(ty) == "i8"@,
        ty is U8 ==> type_label(ty) == "u8"@,
        ty is I16 ==> type_label(ty) == "i16"@,
        ty is U16 ==> type_label(ty) == "u16"@,
        ty is I32 ==> type_label(ty) == "i32"@,
        ty is U32 ==> type_label(ty) == "u32"@,
        ty is I64 ==> type_label(ty) == "i64"@,
        ty is U64 ==> type_label(ty) == "u64"@,
        ty is Felt ==> type_label(ty) == "felt"@,
        ty is Word ==> type_label(ty) == "[felt; 4]"@,
        ty matches Type::Other { name, .. } ==> type_label(ty) == name@,
{
}

} // verus!
