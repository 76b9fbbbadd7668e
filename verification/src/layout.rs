//! The types that packages and libraries describe, and how values of them are laid out in memory.
//!
//! A package that is read has the types in it laid out on the way. There are descriptions of types
//! that have no layout: a package with one of them is not read, and found out beforehand.
use miden_assembly_syntax::ast::{AttributeSet, ConstantValue};
use miden_core::mast::UntrustedMastForest;
use miden_core::serde::Deserializable;
use vstd::prelude::*;

verus! {

// ---------------------------------------------------------------------------------------------
// Layouts
// ---------------------------------------------------------------------------------------------

/// The most bits that a value can take up: a number of bytes has thirty-two bits.
pub const MOST_BITS: u64 = 0x7_ffff_fff8;

/// The most bytes that a value can take up.
pub const MOST_BYTES: u64 = 0xffff_ffff;

/// The largest alignment.
pub const MOST_ALIGN: u64 = 0xffff;

/// How a value of a type is laid out.
#[derive(Debug, Clone, Copy)]
pub struct Shape {
    /// How many bits the value takes up; none where that cannot be told.
    pub bits: Option<u64>,
    /// What the address of the value is a multiple of, in bytes.
    pub align: u64,
    /// Whether values of the type can tell the variants of an enumeration apart.
    pub discriminates: bool,
}

impl Shape {
    /// The size, where there is one, and the alignment are within bounds.
    pub open spec fn wf(self) -> bool {
        &&& self.bits matches Some(bits) ==> bits <= MOST_BITS && bits <= usize::MAX
        &&& 1 <= self.align <= MOST_ALIGN
    }

    /// How many bytes the value takes up, the last of them perhaps in part.
    pub open spec fn bytes(self) -> Option<u64> {
        match self.bits {
            Some(bits) => Some(
                (bits / 8 + if bits % 8 == 0 {
                    0int
                } else {
                    1
                }) as u64,
            ),
            None => None,
        }
    }

    fn size(&self) -> (r: Option<u64>)
        requires
            self.wf(),
        ensures
            r == self.bytes(),
            r matches Some(size) ==> size <= MOST_BYTES,
    {
        match self.bits {
            Some(bits) => Some(
                bits / 8 + if bits % 8 == 0 {
                    0u64
                } else {
                    1u64
                },
            ),
            None => None,
        }
    }
}

/// The number of bits, where a machine can handle it.
pub open spec fn bits_of(bits: int) -> Option<u64> {
    if bits <= MOST_BITS && bits <= usize::MAX {
        Some(bits as u64)
    } else {
        None
    }
}

fn checked_bits(bits: u128) -> (r: Option<u64>)
    ensures
        r == bits_of(bits as int),
        r matches Some(b) ==> b <= MOST_BITS && b <= usize::MAX,
{
    if bits <= 0x7_ffff_fff8 && bits <= usize::MAX as u128 {
        Some(bits as u64)
    } else {
        None
    }
}

/// Whether a number is a power of two.
pub open spec fn is_power(n: u64) -> bool
    decreases n,
{
    if n <= 1 {
        n == 1
    } else {
        n % 2 == 0 && is_power((n / 2) as u64)
    }
}

fn check_power(n: u64) -> (r: bool)
    ensures
        r == is_power(n),
    decreases n,
{
    if n <= 1 {
        n == 1
    } else {
        n % 2 == 0 && check_power(n / 2)
    }
}

/// The next multiple of a number.
pub open spec fn rounded_up(n: int, multiple: int) -> int {
    if n % multiple == 0 {
        n
    } else {
        n + (multiple - n % multiple)
    }
}

fn round_up(n: u64, multiple: u64) -> (r: u64)
    requires
        n <= MOST_BITS,
        1 <= multiple <= 8 * MOST_ALIGN,
    ensures
        r == rounded_up(n as int, multiple as int),
        n <= r <= n + multiple,
{
    if n % multiple == 0 {
        n
    } else {
        n + (multiple - n % multiple)
    }
}

/// The types that stand for themselves, by their number: two without values, whole numbers of
/// growing size, a number with a fraction, and an element of the field.
pub open spec fn plain_shape(tag: u8) -> Shape {
    let (bits, align): (u64, u64) = if tag <= 1 {
        (0, 1)
    } else if tag == 2 {
        (1, 1)
    } else if tag <= 4 {
        (8, 1)
    } else if tag <= 6 {
        (16, 2)
    } else if tag <= 8 {
        (32, 4)
    } else if tag <= 10 {
        (64, 4)
    } else if tag <= 12 {
        (128, 16)
    } else if tag == 13 {
        (256, 16)
    } else if tag == 14 {
        (64, 4)
    } else {
        (32, 4)
    };
    Shape { bits: Some(bits), align, discriminates: 2 <= tag <= 12 || tag == 15 }
}

fn shape_of_plain(tag: u8) -> (r: Shape)
    ensures
        r == plain_shape(tag),
        r.wf(),
{
    let (bits, align): (u64, u64) = if tag <= 1 {
        (0, 1)
    } else if tag == 2 {
        (1, 1)
    } else if tag <= 4 {
        (8, 1)
    } else if tag <= 6 {
        (16, 2)
    } else if tag <= 8 {
        (32, 4)
    } else if tag <= 10 {
        (64, 4)
    } else if tag <= 12 {
        (128, 16)
    } else if tag == 13 {
        (256, 16)
    } else if tag == 14 {
        (64, 4)
    } else {
        (32, 4)
    };
    Shape { bits: Some(bits), align, discriminates: 2 <= tag && tag <= 12 || tag == 15 }
}

/// A pointer, or a function.
pub open spec fn address_shape() -> Shape {
    Shape { bits: Some(32), align: 4, discriminates: false }
}

/// A list: how much room it takes up is not settled.
pub open spec fn list_shape(item: Shape) -> Shape {
    Shape { bits: None, align: item.align, discriminates: false }
}

/// An array: items one after the other, each of them aligned.
pub open spec fn array_shape(item: Shape, len: usize) -> Shape {
    let bits = if len == 0 {
        Some(0)
    } else if len == 1 {
        item.bits
    } else {
        match item.bits {
            Some(bits) if is_power(item.align) => bits_of(
                bits + rounded_up(bits as int, 8 * item.align) * (len - 1),
            ),
            _ => None,
        }
    };
    Shape { bits, align: item.align, discriminates: false }
}

fn shape_of_array(item: &Shape, len: usize) -> (r: Shape)
    requires
        item.wf(),
    ensures
        r == array_shape(*item, len),
        r.wf(),
{
    let bits: Option<u64> = if len == 0 {
        Some(0)
    } else if len == 1 {
        item.bits
    } else {
        match item.bits {
            Some(bits) => if check_power(item.align) {
                let padded: u64 = round_up(bits, 8 * item.align);
                let others: usize = len - 1;
                proof {
                    assert(padded * others <= 0x8_0010_0000 * u64::MAX) by (nonlinear_arith)
                        requires
                            0 <= padded <= 0x8_0010_0000,
                            0 <= others <= u64::MAX,
                    ;
                }
                checked_bits(bits as u128 + padded as u128 * others as u128)
            } else {
                None
            },
            None => None,
        }
    };
    Shape { bits, align: item.align, discriminates: false }
}

/// How the fields of a structure are put together.
#[derive(Debug, Clone, Copy)]
pub enum Repr {
    /// One after the other, each of them aligned.
    Plain,
    /// In the same way, the structure itself aligned at least so.
    Align(u64),
    /// In the same way, each field aligned at most so.
    Packed(u64),
    /// As the only field that takes up room.
    Transparent,
}

impl Repr {
    /// The alignment that is asked for is within bounds.
    pub open spec fn wf(self) -> bool {
        match self {
            Repr::Align(align) => 1 <= align <= MOST_ALIGN,
            Repr::Packed(align) => 1 <= align <= MOST_ALIGN,
            _ => true,
        }
    }
}

/// How a field is aligned.
pub open spec fn field_align(repr: Repr, field: Shape) -> u64 {
    match repr {
        Repr::Packed(align) if align < field.align => align,
        _ => field.align,
    }
}

/// The largest of the alignments of fields.
pub open spec fn largest_align(fields: Seq<Shape>) -> u64
    decreases fields.len(),
{
    if fields.len() == 0 {
        1
    } else if fields.last().align > largest_align(fields.drop_last()) {
        fields.last().align
    } else {
        largest_align(fields.drop_last())
    }
}

/// How many bytes fields take up, one after the other, each of them aligned; none where they have no
/// layout.
pub open spec fn fields_end(repr: Repr, fields: Seq<Shape>) -> Option<u64>
    decreases fields.len(),
{
    if fields.len() == 0 {
        Some(0)
    } else {
        let field = fields.last();
        match (fields_end(repr, fields.drop_last()), field.bytes()) {
            (Some(end), Some(size)) => {
                let align = field_align(repr, field);
                let next = rounded_up(end as int, align as int) + size;
                if is_power(align) && next <= MOST_BYTES {
                    Some(next as u64)
                } else {
                    None
                }
            },
            _ => None,
        }
    }
}

/// How many bytes the only field that takes up room takes up; none where there are several.
pub open spec fn only_size(fields: Seq<Shape>) -> Option<u64>
    decreases fields.len(),
{
    if fields.len() == 0 {
        Some(0)
    } else {
        match (only_size(fields.drop_last()), fields.last().bytes()) {
            (Some(before), Some(size)) => if size == 0 {
                Some(before)
            } else if before == 0 {
                Some(size)
            } else {
                None
            },
            _ => None,
        }
    }
}

/// The largest of the alignments of the fields that take up room.
pub open spec fn only_align(fields: Seq<Shape>) -> u64
    decreases fields.len(),
{
    if fields.len() == 0 {
        1
    } else if fields.last().bytes() != Some(0u64) && fields.last().align > only_align(
        fields.drop_last(),
    ) {
        fields.last().align
    } else {
        only_align(fields.drop_last())
    }
}

/// A structure with these fields; none where it has no layout.
pub open spec fn struct_shape(repr: Repr, fields: Seq<Shape>) -> Option<Shape> {
    if repr is Transparent {
        match only_size(fields) {
            Some(size) => Some(
                Shape {
                    bits: bits_of(8 * size),
                    align: only_align(fields),
                    discriminates: false,
                },
            ),
            None => None,
        }
    } else {
        let own = largest_align(fields);
        let whole = match repr {
            Repr::Align(align) if align > own => align,
            Repr::Packed(align) if align < own => align,
            _ => own,
        };
        match fields_end(repr, fields) {
            Some(end) => {
                let size = rounded_up(end as int, whole as int);
                if is_power(whole) && size <= MOST_BYTES {
                    Some(
                        Shape {
                            bits: bits_of(8 * size),
                            align: match repr {
                                Repr::Align(align) => align,
                                Repr::Packed(align) => align,
                                _ => own,
                            },
                            discriminates: false,
                        },
                    )
                } else {
                    None
                }
            },
            None => None,
        }
    }
}

fn end_of_fields(repr: Repr, fields: &Vec<Shape>) -> (r: Option<u64>)
    requires
        repr.wf(),
        forall|i: int| 0 <= i < fields@.len() ==> (#[trigger] fields@[i]).wf(),
    ensures
        r == fields_end(repr, fields@),
        r matches Some(end) ==> end <= MOST_BYTES,
{
    let mut end: u64 = 0;
    let mut i: usize = 0;
    proof {
        assert(fields@.take(0) =~= Seq::<Shape>::empty());
    }
    while i < fields.len()
        invariant
            i <= fields@.len(),
            repr.wf(),
            forall|k: int| 0 <= k < fields@.len() ==> (#[trigger] fields@[k]).wf(),
            fields_end(repr, fields@.take(i as int)) == Some(end),
            end <= MOST_BYTES,
        decreases fields@.len() - i,
    {
        let field = fields[i];
        proof {
            assert(fields@.take(i + 1).drop_last() =~= fields@.take(i as int));
            assert(fields@.take(i + 1).last() == field);
        }
        let align: u64 = match repr {
            Repr::Packed(align) => if align < field.align {
                align
            } else {
                field.align
            },
            _ => field.align,
        };
        let next: Option<u64> = match field.size() {
            Some(size) => if check_power(align) {
                let next: u64 = round_up(end, align) + size;
                if next <= MOST_BYTES {
                    Some(next)
                } else {
                    None
                }
            } else {
                None
            },
            None => None,
        };
        match next {
            Some(next) => {
                end = next;
            },
            None => {
                proof {
                    no_end_stays(repr, fields@, i + 1);
                }
                return None;
            },
        }
        i += 1;
    }
    proof {
        assert(fields@.take(i as int) =~= fields@);
    }
    Some(end)
}

proof fn no_end_stays(repr: Repr, fields: Seq<Shape>, n: int)
    requires
        0 <= n <= fields.len(),
        fields_end(repr, fields.take(n)) is None,
    ensures
        fields_end(repr, fields) is None,
    decreases fields.len(),
{
    if n < fields.len() {
        assert(fields.drop_last().take(n) =~= fields.take(n));
        no_end_stays(repr, fields.drop_last(), n);
    } else {
        assert(fields.take(n) =~= fields);
    }
}

fn align_of_fields(fields: &Vec<Shape>) -> (r: u64)
    requires
        forall|i: int| 0 <= i < fields@.len() ==> (#[trigger] fields@[i]).wf(),
    ensures
        r == largest_align(fields@),
        1 <= r <= MOST_ALIGN,
{
    let mut align: u64 = 1;
    let mut i: usize = 0;
    proof {
        assert(fields@.take(0) =~= Seq::<Shape>::empty());
    }
    while i < fields.len()
        invariant
            i <= fields@.len(),
            forall|k: int| 0 <= k < fields@.len() ==> (#[trigger] fields@[k]).wf(),
            align == largest_align(fields@.take(i as int)),
            1 <= align <= MOST_ALIGN,
        decreases fields@.len() - i,
    {
        let field = fields[i];
        proof {
            assert(fields@.take(i + 1).drop_last() =~= fields@.take(i as int));
            assert(fields@.take(i + 1).last() == field);
        }
        if field.align > align {
            align = field.align;
        }
        i += 1;
    }
    proof {
        assert(fields@.take(i as int) =~= fields@);
    }
    align
}

fn only_field(fields: &Vec<Shape>) -> (r: Option<(u64, u64)>)
    requires
        forall|i: int| 0 <= i < fields@.len() ==> (#[trigger] fields@[i]).wf(),
    ensures
        match r {
            Some((size, align)) => {
                &&& only_size(fields@) == Some(size)
                &&& align == only_align(fields@)
                &&& size <= MOST_BYTES
                &&& 1 <= align <= MOST_ALIGN
            },
            None => only_size(fields@) is None,
        },
{
    let mut only: u64 = 0;
    let mut align: u64 = 1;
    let mut i: usize = 0;
    proof {
        assert(fields@.take(0) =~= Seq::<Shape>::empty());
    }
    while i < fields.len()
        invariant
            i <= fields@.len(),
            forall|k: int| 0 <= k < fields@.len() ==> (#[trigger] fields@[k]).wf(),
            only_size(fields@.take(i as int)) == Some(only),
            align == only_align(fields@.take(i as int)),
            only <= MOST_BYTES,
            1 <= align <= MOST_ALIGN,
        decreases fields@.len() - i,
    {
        let field = fields[i];
        proof {
            assert(fields@.take(i + 1).drop_last() =~= fields@.take(i as int));
            assert(fields@.take(i + 1).last() == field);
        }
        let size: u64 = match field.size() {
            Some(size) => size,
            None => {
                proof {
                    no_only_size_stays(fields@, i + 1);
                }
                return None;
            },
        };
        if size > 0 {
            if only > 0 {
                proof {
                    no_only_size_stays(fields@, i + 1);
                }
                return None;
            }
            only = size;
            if field.align > align {
                align = field.align;
            }
        }
        i += 1;
    }
    proof {
        assert(fields@.take(i as int) =~= fields@);
    }
    Some((only, align))
}

proof fn no_only_size_stays(fields: Seq<Shape>, n: int)
    requires
        0 <= n <= fields.len(),
        only_size(fields.take(n)) is None,
    ensures
        only_size(fields) is None,
    decreases fields.len(),
{
    if n < fields.len() {
        assert(fields.drop_last().take(n) =~= fields.take(n));
        no_only_size_stays(fields.drop_last(), n);
    } else {
        assert(fields.take(n) =~= fields);
    }
}

/// Lays out a structure with these fields; none where it has no layout.
pub fn lay_out(repr: Repr, fields: &Vec<Shape>) -> (r: Option<Shape>)
    requires
        repr.wf(),
        forall|i: int| 0 <= i < fields@.len() ==> (#[trigger] fields@[i]).wf(),
    ensures
        r == struct_shape(repr, fields@),
        r matches Some(shape) ==> shape.wf(),
{
    let own: u64 = align_of_fields(fields);
    let (whole, align): (u64, u64) = match repr {
        Repr::Transparent => {
            return match only_field(fields) {
                Some((size, align)) => Some(
                    Shape { bits: checked_bits(8 * size as u128), align, discriminates: false },
                ),
                None => None,
            };
        },
        Repr::Plain => (own, own),
        Repr::Align(align) => if align > own {
            (align, align)
        } else {
            (own, align)
        },
        Repr::Packed(align) => if align < own {
            (align, align)
        } else {
            (own, align)
        },
    };
    match end_of_fields(repr, fields) {
        Some(end) => {
            let size: u64 = round_up(end, whole);
            if check_power(whole) && size <= MOST_BYTES {
                Some(Shape { bits: checked_bits(8 * size as u128), align, discriminates: false })
            } else {
                None
            }
        },
        None => None,
    }
}

/// A discriminant with a value behind it; none where the two have no layout.
pub open spec fn variant_shape(discriminant: Shape, value: Shape) -> Option<Shape> {
    struct_shape(Repr::Plain, seq![discriminant, value])
}

/// How much room a value takes up wherever it is put.
pub open spec fn room(value: Shape) -> u64 {
    match value.bytes() {
        Some(size) if size > 0 => (size + value.align) as u64,
        _ => 0,
    }
}

/// The first of the values that take up most room; all of them are laid out behind the discriminant.
/// None where one of them has no layout.
pub open spec fn largest_variant(discriminant: Shape, values: Seq<Shape>) -> Option<Option<Shape>>
    decreases values.len(),
{
    if values.len() == 0 {
        Some(None)
    } else {
        match largest_variant(discriminant, values.drop_last()) {
            Some(before) => if variant_shape(discriminant, values.last()) is None {
                None
            } else {
                match before {
                    Some(value) if room(values.last()) <= room(value) => Some(Some(value)),
                    _ => Some(Some(values.last())),
                }
            },
            None => None,
        }
    }
}

/// An enumeration with variants, some of which have values; none where it has no layout.
pub open spec fn enum_shape(discriminant: Shape, variants: usize, values: Seq<Shape>) -> Option<
    Shape,
> {
    if variants == 0 {
        Some(Shape { bits: Some(0), align: 1, discriminates: false })
    } else {
        match largest_variant(discriminant, values) {
            Some(Some(value)) => variant_shape(discriminant, value),
            Some(None) => Some(
                Shape {
                    bits: bits_of(8 * discriminant.bytes()->Some_0),
                    align: discriminant.align,
                    discriminates: false,
                },
            ),
            None => None,
        }
    }
}

fn lay_out_variant(discriminant: &Shape, value: &Shape) -> (r: Option<Shape>)
    requires
        discriminant.wf(),
        value.wf(),
    ensures
        r == variant_shape(*discriminant, *value),
        r matches Some(shape) ==> shape.wf(),
{
    let fields: Vec<Shape> = vec![*discriminant, *value];
    proof {
        assert(fields@ =~= seq![*discriminant, *value]);
    }
    lay_out(Repr::Plain, &fields)
}

fn room_of(value: &Shape) -> (r: u64)
    requires
        value.wf(),
    ensures
        r == room(*value),
{
    match value.size() {
        Some(size) => if size > 0 {
            size + value.align
        } else {
            0
        },
        None => 0,
    }
}

proof fn no_variant_stays(discriminant: Shape, values: Seq<Shape>, n: int)
    requires
        0 <= n <= values.len(),
        largest_variant(discriminant, values.take(n)) is None,
    ensures
        largest_variant(discriminant, values) is None,
    decreases values.len(),
{
    if n < values.len() {
        assert(values.drop_last().take(n) =~= values.take(n));
        no_variant_stays(discriminant, values.drop_last(), n);
    } else {
        assert(values.take(n) =~= values);
    }
}

/// Lays out an enumeration with variants, some of which have values; none where it has no layout.
pub fn lay_out_enum(discriminant: &Shape, variants: usize, values: &Vec<Shape>) -> (r: Option<
    Shape,
>)
    requires
        discriminant.wf(),
        discriminant.bits is Some,
        forall|i: int| 0 <= i < values@.len() ==> (#[trigger] values@[i]).wf(),
    ensures
        r == enum_shape(*discriminant, variants, values@),
        r matches Some(shape) ==> shape.wf(),
{
    if variants == 0 {
        return Some(Shape { bits: Some(0), align: 1, discriminates: false });
    }
    let mut largest: Option<Shape> = None;
    let mut i: usize = 0;
    proof {
        assert(values@.take(0) =~= Seq::<Shape>::empty());
    }
    while i < values.len()
        invariant
            i <= values@.len(),
            variants > 0,
            discriminant.wf(),
            forall|k: int| 0 <= k < values@.len() ==> (#[trigger] values@[k]).wf(),
            largest_variant(*discriminant, values@.take(i as int)) == Some(largest),
            largest matches Some(value) ==> value.wf(),
        decreases values@.len() - i,
    {
        let value = values[i];
        proof {
            assert(values@.take(i + 1).drop_last() =~= values@.take(i as int));
            assert(values@.take(i + 1).last() == value);
        }
        if lay_out_variant(discriminant, &value).is_none() {
            proof {
                no_variant_stays(*discriminant, values@, i + 1);
            }
            return None;
        }
        let larger = match &largest {
            Some(before) => room_of(&value) > room_of(before),
            None => true,
        };
        if larger {
            largest = Some(value);
        }
        i += 1;
    }
    proof {
        assert(values@.take(i as int) =~= values@);
    }
    match &largest {
        Some(value) => lay_out_variant(discriminant, value),
        None => {
            let size: u64 = match discriminant.size() {
                Some(size) => size,
                None => 0,
            };
            Some(
                Shape {
                    bits: checked_bits(8 * size as u128),
                    align: discriminant.align,
                    discriminates: false,
                },
            )
        },
    }
}

// ---------------------------------------------------------------------------------------------
// Bytes
// ---------------------------------------------------------------------------------------------

/// What is found at a place in some bytes.
#[derive(Debug)]
pub enum Found<T> {
    /// Nothing: the bytes end, or say what cannot be.
    Nothing,
    /// The description of a type without a layout.
    Fault,
    /// Something, and the place behind it.
    At(T, usize),
}

/// A byte.
pub open spec fn byte_at(s: Seq<u8>, pos: usize) -> Found<u8> {
    if pos < s.len() {
        Found::At(s[pos as int], (pos + 1) as usize)
    } else {
        Found::Nothing
    }
}

fn read_byte(bytes: &Vec<u8>, pos: usize) -> (r: Found<u8>)
    ensures
        r == byte_at(bytes@, pos),
        r matches Found::At(_, next) ==> next <= bytes@.len(),
{
    if pos < bytes.len() {
        Found::At(bytes[pos], pos + 1)
    } else {
        Found::Nothing
    }
}

/// A truth value.
pub open spec fn flag_at(s: Seq<u8>, pos: usize) -> Found<bool> {
    match byte_at(s, pos) {
        Found::At(byte, next) if byte <= 1 => Found::At(byte == 1, next),
        _ => Found::Nothing,
    }
}

fn read_flag(bytes: &Vec<u8>, pos: usize) -> (r: Found<bool>)
    ensures
        r == flag_at(bytes@, pos),
        r matches Found::At(_, next) ==> next <= bytes@.len(),
{
    match read_byte(bytes, pos) {
        Found::At(byte, next) => if byte <= 1 {
            Found::At(byte == 1, next)
        } else {
            Found::Nothing
        },
        _ => Found::Nothing,
    }
}

/// A number of two bytes, the lower one first.
pub open spec fn short_at(s: Seq<u8>, pos: usize) -> Found<u16> {
    if pos + 2 <= s.len() {
        Found::At((s[pos as int] + 0x100 * s[pos + 1]) as u16, (pos + 2) as usize)
    } else {
        Found::Nothing
    }
}

fn read_short(bytes: &Vec<u8>, pos: usize) -> (r: Found<u16>)
    requires
        pos <= bytes@.len(),
    ensures
        r == short_at(bytes@, pos),
        r matches Found::At(_, next) ==> next <= bytes@.len(),
{
    if bytes.len() - pos >= 2 {
        Found::At(bytes[pos] as u16 + 0x100 * bytes[pos + 1] as u16, pos + 2)
    } else {
        Found::Nothing
    }
}

/// A size.
pub open spec fn size_at(s: Seq<u8>, pos: usize) -> Found<usize> {
    match crate::exec::codec::parse_size(s.skip(pos as int)) {
        Ok((n, rest)) => Found::At(n, (s.len() - rest.len()) as usize),
        Err(_) => Found::Nothing,
    }
}

fn read_size(bytes: &Vec<u8>, pos: usize) -> (r: Found<usize>)
    requires
        pos <= bytes@.len(),
    ensures
        r == size_at(bytes@, pos),
        r matches Found::At(_, next) ==> next <= bytes@.len(),
{
    match crate::exec::codec::read_size(bytes, pos) {
        Ok((n, next)) => Found::At(n, next),
        Err(_) => Found::Nothing,
    }
}

/// Some bytes, whatever they are.
pub open spec fn some_at(s: Seq<u8>, pos: usize, count: nat) -> Found<()> {
    if pos + count <= s.len() {
        Found::At((), (pos + count) as usize)
    } else {
        Found::Nothing
    }
}

fn skip_some(bytes: &Vec<u8>, pos: usize, count: usize) -> (r: Found<()>)
    requires
        pos <= bytes@.len(),
    ensures
        r == some_at(bytes@, pos, count as nat),
        r matches Found::At(_, next) ==> next <= bytes@.len(),
{
    if count <= bytes.len() - pos {
        Found::At((), pos + count)
    } else {
        Found::Nothing
    }
}

/// A text: its size, and its bytes.
pub open spec fn text_at(s: Seq<u8>, pos: usize) -> Found<()> {
    match size_at(s, pos) {
        Found::At(len, next) => some_at(s, next, len as nat),
        _ => Found::Nothing,
    }
}

fn skip_text(bytes: &Vec<u8>, pos: usize) -> (r: Found<()>)
    requires
        pos <= bytes@.len(),
    ensures
        r == text_at(bytes@, pos),
        r matches Found::At(_, next) ==> next <= bytes@.len(),
{
    match read_size(bytes, pos) {
        Found::At(len, next) => skip_some(bytes, next, len),
        _ => Found::Nothing,
    }
}

/// A text that may be missing.
pub open spec fn name_at(s: Seq<u8>, pos: usize) -> Found<()> {
    match flag_at(s, pos) {
        Found::At(named, next) => if named {
            text_at(s, next)
        } else {
            Found::At((), next)
        },
        _ => Found::Nothing,
    }
}

fn skip_name(bytes: &Vec<u8>, pos: usize) -> (r: Found<()>)
    requires
        pos <= bytes@.len(),
    ensures
        r == name_at(bytes@, pos),
        r matches Found::At(_, next) ==> next <= bytes@.len(),
{
    match read_flag(bytes, pos) {
        Found::At(named, next) => if named {
            skip_text(bytes, next)
        } else {
            Found::At((), next)
        },
        _ => Found::Nothing,
    }
}

/// A path: its length in two bytes, and its bytes.
pub open spec fn path_at(s: Seq<u8>, pos: usize) -> Found<()> {
    match short_at(s, pos) {
        Found::At(len, next) => some_at(s, next, len as nat),
        _ => Found::Nothing,
    }
}

fn skip_path(bytes: &Vec<u8>, pos: usize) -> (r: Found<()>)
    requires
        pos <= bytes@.len(),
    ensures
        r == path_at(bytes@, pos),
        r matches Found::At(_, next) ==> next <= bytes@.len(),
{
    match read_short(bytes, pos) {
        Found::At(len, next) => skip_some(bytes, next, len as usize),
        _ => Found::Nothing,
    }
}

// ---------------------------------------------------------------------------------------------
// Types
// ---------------------------------------------------------------------------------------------

/// How deep types can be nested in each other.
pub const MOST_NESTED: usize = 128;

/// How the fields of a structure are put together.
pub open spec fn repr_at(s: Seq<u8>, pos: usize) -> Found<Repr> {
    match byte_at(s, pos) {
        Found::At(tag, next) => if tag == 0 || tag == 4 {
            Found::At(Repr::Plain, next)
        } else if tag == 3 {
            Found::At(Repr::Transparent, next)
        } else if tag == 1 || tag == 2 {
            match short_at(s, next) {
                Found::At(align, next) if align > 0 => if tag == 1 {
                    Found::At(Repr::Align(align as u64), next)
                } else {
                    Found::At(Repr::Packed(align as u64), next)
                },
                _ => Found::Nothing,
            }
        } else {
            Found::Nothing
        },
        _ => Found::Nothing,
    }
}

fn read_repr(bytes: &Vec<u8>, pos: usize) -> (r: Found<Repr>)
    requires
        pos <= bytes@.len(),
    ensures
        r == repr_at(bytes@, pos),
        r matches Found::At(repr, next) ==> next <= bytes@.len() && repr.wf(),
{
    match read_byte(bytes, pos) {
        Found::At(tag, next) => if tag == 0 || tag == 4 {
            Found::At(Repr::Plain, next)
        } else if tag == 3 {
            Found::At(Repr::Transparent, next)
        } else if tag == 1 || tag == 2 {
            match read_short(bytes, next) {
                Found::At(align, next) => if align == 0 {
                    Found::Nothing
                } else if tag == 1 {
                    Found::At(Repr::Align(align as u64), next)
                } else {
                    Found::At(Repr::Packed(align as u64), next)
                },
                _ => Found::Nothing,
            }
        } else {
            Found::Nothing
        },
        _ => Found::Nothing,
    }
}

/// The description of a type, in which this many types can be nested in each other.
pub open spec fn type_at(s: Seq<u8>, pos: usize, depth: nat) -> Found<Shape>
    decreases depth, 0nat, 0nat,
{
    match byte_at(s, pos) {
        Found::At(tag, next) => if tag <= 15 {
            Found::At(plain_shape(tag), next)
        } else if tag > 21 || depth == 0 {
            Found::Nothing
        } else {
            let inner = (depth - 1) as nat;
            if tag == 16 {
                match byte_at(s, next) {
                    Found::At(space, next) if space <= 1 => match type_at(s, next, inner) {
                        Found::At(_, end) => Found::At(address_shape(), end),
                        other => other,
                    },
                    _ => Found::Nothing,
                }
            } else if tag == 17 {
                struct_at(s, next, inner)
            } else if tag == 18 {
                match size_at(s, next) {
                    Found::At(len, next) => match type_at(s, next, inner) {
                        Found::At(item, end) => Found::At(array_shape(item, len), end),
                        other => other,
                    },
                    _ => Found::Nothing,
                }
            } else if tag == 19 {
                match type_at(s, next, inner) {
                    Found::At(item, end) => Found::At(list_shape(item), end),
                    other => other,
                }
            } else if tag == 20 {
                match function_at(s, next, inner) {
                    Found::At(_, end) => Found::At(address_shape(), end),
                    Found::Fault => Found::Fault,
                    Found::Nothing => Found::Nothing,
                }
            } else {
                enum_at(s, next, inner)
            }
        },
        _ => Found::Nothing,
    }
}

/// The fields of a structure, behind those that were found.
pub open spec fn fields_at(
    s: Seq<u8>,
    pos: usize,
    depth: nat,
    count: nat,
    found: Seq<Shape>,
) -> Found<Seq<Shape>>
    decreases depth, 1nat, count,
{
    if count == 0 {
        Found::At(found, pos)
    } else {
        match name_at(s, pos) {
            Found::At(_, next) => match type_at(s, next, depth) {
                Found::At(field, next) => fields_at(
                    s,
                    next,
                    depth,
                    (count - 1) as nat,
                    found.push(field),
                ),
                Found::Fault => Found::Fault,
                Found::Nothing => Found::Nothing,
            },
            _ => Found::Nothing,
        }
    }
}

/// A structure: its name, how its fields are put together, and the fields.
pub open spec fn struct_at(s: Seq<u8>, pos: usize, depth: nat) -> Found<Shape>
    decreases depth, 2nat, 0nat,
{
    match name_at(s, pos) {
        Found::At(_, next) => match repr_at(s, next) {
            Found::At(repr, next) => match byte_at(s, next) {
                Found::At(count, next) => match fields_at(
                    s,
                    next,
                    depth,
                    count as nat,
                    Seq::empty(),
                ) {
                    Found::At(fields, end) => match struct_shape(repr, fields) {
                        Some(shape) => Found::At(shape, end),
                        None => Found::Fault,
                    },
                    Found::Fault => Found::Fault,
                    Found::Nothing => Found::Nothing,
                },
                _ => Found::Nothing,
            },
            _ => Found::Nothing,
        },
        _ => Found::Nothing,
    }
}

/// Types, one after the other.
pub open spec fn types_at(s: Seq<u8>, pos: usize, depth: nat, count: nat) -> Found<()>
    decreases depth, 1nat, count,
{
    if count == 0 {
        Found::At((), pos)
    } else {
        match type_at(s, pos, depth) {
            Found::At(_, next) => types_at(s, next, depth, (count - 1) as nat),
            Found::Fault => Found::Fault,
            Found::Nothing => Found::Nothing,
        }
    }
}

/// How many types there are, and the types. Room is made for all of them beforehand: where there
/// cannot be so many, as each takes up a byte at least, that is a fault.
pub open spec fn type_list_at(s: Seq<u8>, pos: usize, depth: nat) -> Found<()>
    decreases depth, 2nat, 0nat,
{
    match size_at(s, pos) {
        Found::At(count, next) => if next + count > s.len() {
            Found::Fault
        } else {
            types_at(s, next, depth, count as nat)
        },
        _ => Found::Nothing,
    }
}

/// The type of a function: how it is called, what it takes, and what it gives.
pub open spec fn function_at(s: Seq<u8>, pos: usize, depth: nat) -> Found<()>
    decreases depth, 3nat, 0nat,
{
    match byte_at(s, pos) {
        Found::At(convention, next) if convention <= 3 => match type_list_at(s, next, depth) {
            Found::At(_, next) => type_list_at(s, next, depth),
            other => other,
        },
        _ => Found::Nothing,
    }
}

/// How many bytes a discriminant takes up that is written down.
pub open spec fn discriminant_width(discriminant: Shape) -> nat {
    match discriminant.bits {
        Some(bits) => if bits <= 8 {
            1
        } else if bits <= 16 {
            2
        } else if bits <= 32 {
            4
        } else if bits <= 64 {
            8
        } else {
            16
        },
        None => 16,
    }
}

/// The values of the variants of an enumeration, behind those that were found.
pub open spec fn variants_at(
    s: Seq<u8>,
    pos: usize,
    depth: nat,
    width: nat,
    count: nat,
    found: Seq<Shape>,
) -> Found<Seq<Shape>>
    decreases depth, 1nat, count,
{
    if count == 0 {
        Found::At(found, pos)
    } else {
        match text_at(s, pos) {
            Found::At(_, next) => match flag_at(s, next) {
                Found::At(has_value, next) => {
                    let value = if has_value {
                        type_at(s, next, depth)
                    } else {
                        Found::At(address_shape(), next)
                    };
                    match value {
                        Found::At(value, next) => {
                            let found = if has_value {
                                found.push(value)
                            } else {
                                found
                            };
                            match flag_at(s, next) {
                                Found::At(numbered, next) => match some_at(
                                    s,
                                    next,
                                    if numbered {
                                        width
                                    } else {
                                        0
                                    },
                                ) {
                                    Found::At(_, next) => variants_at(
                                        s,
                                        next,
                                        depth,
                                        width,
                                        (count - 1) as nat,
                                        found,
                                    ),
                                    _ => Found::Nothing,
                                },
                                _ => Found::Nothing,
                            }
                        },
                        Found::Fault => Found::Fault,
                        Found::Nothing => Found::Nothing,
                    }
                },
                _ => Found::Nothing,
            },
            _ => Found::Nothing,
        }
    }
}

/// An enumeration: its name, its discriminant, and its variants.
pub open spec fn enum_at(s: Seq<u8>, pos: usize, depth: nat) -> Found<Shape>
    decreases depth, 2nat, 0nat,
{
    match text_at(s, pos) {
        Found::At(_, next) => match type_at(s, next, depth) {
            Found::At(discriminant, next) => if !discriminant.discriminates {
                Found::Nothing
            } else {
                match size_at(s, next) {
                    Found::At(count, next) => match variants_at(
                        s,
                        next,
                        depth,
                        discriminant_width(discriminant),
                        count as nat,
                        Seq::empty(),
                    ) {
                        Found::At(values, end) => match enum_shape(discriminant, count, values) {
                            Some(shape) => Found::At(shape, end),
                            None => Found::Fault,
                        },
                        Found::Fault => Found::Fault,
                        Found::Nothing => Found::Nothing,
                    },
                    _ => Found::Nothing,
                }
            },
            other => other,
        },
        _ => Found::Nothing,
    }
}

/// Reads the description of a type, in which this many types can be nested in each other.
pub fn read_type(bytes: &Vec<u8>, pos: usize, depth: usize) -> (r: Found<Shape>)
    requires
        pos <= bytes@.len(),
    ensures
        r == type_at(bytes@, pos, depth as nat),
        r matches Found::At(shape, next) ==> {
            &&& next <= bytes@.len()
            &&& shape.wf()
            &&& shape.discriminates ==> shape.bits is Some
        },
    decreases depth, 0nat,
{
    let (tag, next): (u8, usize) = match read_byte(bytes, pos) {
        Found::At(tag, next) => (tag, next),
        _ => {
            return Found::Nothing;
        },
    };
    if tag <= 15 {
        return Found::At(shape_of_plain(tag), next);
    }
    if tag > 21 || depth == 0 {
        return Found::Nothing;
    }
    if tag == 16 {
        match read_byte(bytes, next) {
            Found::At(space, next) => if space <= 1 {
                match read_type(bytes, next, depth - 1) {
                    Found::At(_, end) => Found::At(
                        Shape { bits: Some(32), align: 4, discriminates: false },
                        end,
                    ),
                    other => other,
                }
            } else {
                Found::Nothing
            },
            _ => Found::Nothing,
        }
    } else if tag == 17 {
        read_struct(bytes, next, depth - 1)
    } else if tag == 18 {
        match read_size(bytes, next) {
            Found::At(len, next) => match read_type(bytes, next, depth - 1) {
                Found::At(item, end) => Found::At(shape_of_array(&item, len), end),
                other => other,
            },
            _ => Found::Nothing,
        }
    } else if tag == 19 {
        match read_type(bytes, next, depth - 1) {
            Found::At(item, end) => Found::At(
                Shape { bits: None, align: item.align, discriminates: false },
                end,
            ),
            other => other,
        }
    } else if tag == 20 {
        match read_function(bytes, next, depth - 1) {
            Found::At(_, end) => Found::At(
                Shape { bits: Some(32), align: 4, discriminates: false },
                end,
            ),
            Found::Fault => Found::Fault,
            Found::Nothing => Found::Nothing,
        }
    } else {
        read_enum(bytes, next, depth - 1)
    }
}

fn read_struct(bytes: &Vec<u8>, pos: usize, depth: usize) -> (r: Found<Shape>)
    requires
        pos <= bytes@.len(),
    ensures
        r == struct_at(bytes@, pos, depth as nat),
        r matches Found::At(shape, next) ==> {
            &&& next <= bytes@.len()
            &&& shape.wf()
            &&& !shape.discriminates
        },
    decreases depth, 1nat,
{
    let next: usize = match skip_name(bytes, pos) {
        Found::At(_, next) => next,
        _ => {
            return Found::Nothing;
        },
    };
    let (repr, next): (Repr, usize) = match read_repr(bytes, next) {
        Found::At(repr, next) => (repr, next),
        _ => {
            return Found::Nothing;
        },
    };
    let (count, next): (u8, usize) = match read_byte(bytes, next) {
        Found::At(count, next) => (count, next),
        _ => {
            return Found::Nothing;
        },
    };
    let mut fields: Vec<Shape> = Vec::new();
    let mut at: usize = next;
    let mut left: u8 = count;
    proof {
        assert(fields@ =~= Seq::<Shape>::empty());
    }
    while left > 0
        invariant
            at <= bytes@.len(),
            forall|k: int| 0 <= k < fields@.len() ==> (#[trigger] fields@[k]).wf(),
            fields_at(bytes@, next, depth as nat, count as nat, Seq::empty()) == fields_at(
                bytes@,
                at,
                depth as nat,
                left as nat,
                fields@,
            ),
            struct_at(bytes@, pos, depth as nat) == match fields_at(
                bytes@,
                next,
                depth as nat,
                count as nat,
                Seq::empty(),
            ) {
                Found::At(fields, end) => match struct_shape(repr, fields) {
                    Some(shape) => Found::At(shape, end),
                    None => Found::Fault,
                },
                Found::Fault => Found::Fault,
                Found::Nothing => Found::Nothing,
            },
        decreases left,
    {
        let next: usize = match skip_name(bytes, at) {
            Found::At(_, next) => next,
            _ => {
                return Found::Nothing;
            },
        };
        match read_type(bytes, next, depth) {
            Found::At(field, next) => {
                fields.push(field);
                at = next;
            },
            Found::Fault => {
                return Found::Fault;
            },
            Found::Nothing => {
                return Found::Nothing;
            },
        }
        left -= 1;
    }
    match lay_out(repr, &fields) {
        Some(shape) => Found::At(shape, at),
        None => Found::Fault,
    }
}

fn skip_types(bytes: &Vec<u8>, pos: usize, depth: usize) -> (r: Found<()>)
    requires
        pos <= bytes@.len(),
    ensures
        r == type_list_at(bytes@, pos, depth as nat),
        r matches Found::At(_, next) ==> next <= bytes@.len(),
    decreases depth, 1nat,
{
    let (count, next): (usize, usize) = match read_size(bytes, pos) {
        Found::At(count, next) => (count, next),
        _ => {
            return Found::Nothing;
        },
    };
    if count > bytes.len() - next {
        return Found::Fault;
    }
    let mut at: usize = next;
    let mut left: usize = count;
    while left > 0
        invariant
            at <= bytes@.len(),
            type_list_at(bytes@, pos, depth as nat) == types_at(
                bytes@,
                at,
                depth as nat,
                left as nat,
            ),
        decreases left,
    {
        match read_type(bytes, at, depth) {
            Found::At(_, next) => {
                at = next;
            },
            Found::Fault => {
                return Found::Fault;
            },
            Found::Nothing => {
                return Found::Nothing;
            },
        }
        left -= 1;
    }
    Found::At((), at)
}

/// Reads the type of a function, in which this many types can be nested in each other.
pub fn read_function(bytes: &Vec<u8>, pos: usize, depth: usize) -> (r: Found<()>)
    requires
        pos <= bytes@.len(),
    ensures
        r == function_at(bytes@, pos, depth as nat),
        r matches Found::At(_, next) ==> next <= bytes@.len(),
    decreases depth, 2nat,
{
    match read_byte(bytes, pos) {
        Found::At(convention, next) => if convention <= 3 {
            match skip_types(bytes, next, depth) {
                Found::At(_, next) => skip_types(bytes, next, depth),
                other => other,
            }
        } else {
            Found::Nothing
        },
        _ => Found::Nothing,
    }
}

fn width_of(discriminant: &Shape) -> (r: usize)
    ensures
        r == discriminant_width(*discriminant),
{
    match discriminant.bits {
        Some(bits) => if bits <= 8 {
            1
        } else if bits <= 16 {
            2
        } else if bits <= 32 {
            4
        } else if bits <= 64 {
            8
        } else {
            16
        },
        None => 16,
    }
}

/// Reads a variant: whether there is a value, and what it looks like.
fn read_variant(bytes: &Vec<u8>, pos: usize, depth: usize, width: usize) -> (r: Found<
    Option<Shape>,
>)
    requires
        pos <= bytes@.len(),
    ensures
        forall|count: nat, found: Seq<Shape>|
            count > 0 ==> #[trigger] variants_at(
                bytes@,
                pos,
                depth as nat,
                width as nat,
                count,
                found,
            ) == match r {
                Found::At(value, next) => variants_at(
                    bytes@,
                    next,
                    depth as nat,
                    width as nat,
                    (count - 1) as nat,
                    match value {
                        Some(value) => found.push(value),
                        None => found,
                    },
                ),
                Found::Fault => Found::Fault,
                Found::Nothing => Found::Nothing,
            },
        r matches Found::At(value, next) ==> {
            &&& next <= bytes@.len()
            &&& value matches Some(value) ==> value.wf()
        },
    decreases depth, 1nat,
{
    let next: usize = match skip_text(bytes, pos) {
        Found::At(_, next) => next,
        _ => {
            return Found::Nothing;
        },
    };
    let (has_value, next): (bool, usize) = match read_flag(bytes, next) {
        Found::At(has_value, next) => (has_value, next),
        _ => {
            return Found::Nothing;
        },
    };
    let (value, next): (Option<Shape>, usize) = if has_value {
        match read_type(bytes, next, depth) {
            Found::At(value, next) => (Some(value), next),
            Found::Fault => {
                return Found::Fault;
            },
            Found::Nothing => {
                return Found::Nothing;
            },
        }
    } else {
        (None, next)
    };
    let (numbered, next): (bool, usize) = match read_flag(bytes, next) {
        Found::At(numbered, next) => (numbered, next),
        _ => {
            return Found::Nothing;
        },
    };
    let written: usize = if numbered {
        width
    } else {
        0
    };
    match skip_some(bytes, next, written) {
        Found::At(_, next) => Found::At(value, next),
        _ => Found::Nothing,
    }
}

fn read_enum(bytes: &Vec<u8>, pos: usize, depth: usize) -> (r: Found<Shape>)
    requires
        pos <= bytes@.len(),
    ensures
        r == enum_at(bytes@, pos, depth as nat),
        r matches Found::At(shape, next) ==> {
            &&& next <= bytes@.len()
            &&& shape.wf()
            &&& !shape.discriminates
        },
    decreases depth, 2nat,
{
    let next: usize = match skip_text(bytes, pos) {
        Found::At(_, next) => next,
        _ => {
            return Found::Nothing;
        },
    };
    let (discriminant, next): (Shape, usize) = match read_type(bytes, next, depth) {
        Found::At(discriminant, next) => (discriminant, next),
        Found::Fault => {
            return Found::Fault;
        },
        Found::Nothing => {
            return Found::Nothing;
        },
    };
    if !discriminant.discriminates {
        return Found::Nothing;
    }
    let width: usize = width_of(&discriminant);
    let (count, next): (usize, usize) = match read_size(bytes, next) {
        Found::At(count, next) => (count, next),
        _ => {
            return Found::Nothing;
        },
    };
    let mut values: Vec<Shape> = Vec::new();
    let mut at: usize = next;
    let mut left: usize = count;
    proof {
        assert(values@ =~= Seq::<Shape>::empty());
    }
    while left > 0
        invariant
            at <= bytes@.len(),
            forall|k: int| 0 <= k < values@.len() ==> (#[trigger] values@[k]).wf(),
            variants_at(
                bytes@,
                next,
                depth as nat,
                width as nat,
                count as nat,
                Seq::empty(),
            ) == variants_at(bytes@, at, depth as nat, width as nat, left as nat, values@),
            enum_at(bytes@, pos, depth as nat) == match variants_at(
                bytes@,
                next,
                depth as nat,
                width as nat,
                count as nat,
                Seq::empty(),
            ) {
                Found::At(values, end) => match enum_shape(discriminant, count, values) {
                    Some(shape) => Found::At(shape, end),
                    None => Found::Fault,
                },
                Found::Fault => Found::Fault,
                Found::Nothing => Found::Nothing,
            },
        decreases left,
    {
        match read_variant(bytes, at, depth, width) {
            Found::At(value, next) => {
                if let Some(value) = value {
                    values.push(value);
                }
                at = next;
            },
            Found::Fault => {
                return Found::Fault;
            },
            Found::Nothing => {
                return Found::Nothing;
            },
        }
        left -= 1;
    }
    match lay_out_enum(&discriminant, count, &values) {
        Some(shape) => Found::At(shape, at),
        None => Found::Fault,
    }
}

// ---------------------------------------------------------------------------------------------
// Packages and libraries
// ---------------------------------------------------------------------------------------------

/// How many bytes the forest at the front of some bytes takes up; none where there is none.
pub uninterp spec fn forest_extent(s: Seq<u8>) -> Option<nat>;

/// Skips a forest.
///
/// Trusted: `UntrustedMastForest::read_from` of `miden-core`, on the bytes from `pos` on. How many
/// bytes it takes is named, not described.
#[verifier::external_body]
fn skip_forest(bytes: &Vec<u8>, pos: usize) -> (r: Option<usize>)
    requires
        pos <= bytes@.len(),
    ensures
        match r {
            Some(next) => pos <= next <= bytes@.len() && forest_extent(bytes@.skip(pos as int))
                == Some((next - pos) as nat),
            None => forest_extent(bytes@.skip(pos as int)) is None,
        },
{
    let mut reader = std::io::Cursor::new(&bytes[pos..]);
    UntrustedMastForest::read_from(&mut reader).ok().map(|_| pos + reader.position() as usize)
}

/// How many bytes the attributes at the front of some bytes take up; none where there are none.
pub uninterp spec fn attributes_extent(s: Seq<u8>) -> Option<nat>;

/// Skips attributes.
///
/// Trusted: `AttributeSet::read_from` of `miden-assembly-syntax`, on the bytes from `pos` on. How
/// many bytes it takes is named, not described.
#[verifier::external_body]
fn skip_attributes(bytes: &Vec<u8>, pos: usize) -> (r: Option<usize>)
    requires
        pos <= bytes@.len(),
    ensures
        match r {
            Some(next) => pos <= next <= bytes@.len() && attributes_extent(
                bytes@.skip(pos as int),
            ) == Some((next - pos) as nat),
            None => attributes_extent(bytes@.skip(pos as int)) is None,
        },
{
    let mut reader = std::io::Cursor::new(&bytes[pos..]);
    AttributeSet::read_from(&mut reader).ok().map(|_| pos + reader.position() as usize)
}

/// How many bytes the constant at the front of some bytes takes up; none where there is none.
pub uninterp spec fn constant_extent(s: Seq<u8>) -> Option<nat>;

/// Skips a constant.
///
/// Trusted: `ConstantValue::read_from` of `miden-assembly-syntax`, on the bytes from `pos` on. How
/// many bytes it takes is named, not described.
#[verifier::external_body]
fn skip_constant(bytes: &Vec<u8>, pos: usize) -> (r: Option<usize>)
    requires
        pos <= bytes@.len(),
    ensures
        match r {
            Some(next) => pos <= next <= bytes@.len() && constant_extent(bytes@.skip(pos as int))
                == Some((next - pos) as nat),
            None => constant_extent(bytes@.skip(pos as int)) is None,
        },
{
    let mut reader = std::io::Cursor::new(&bytes[pos..]);
    ConstantValue::read_from(&mut reader).ok().map(|_| pos + reader.position() as usize)
}

/// Something that takes up this many bytes.
pub open spec fn extent_at(pos: usize, extent: Option<nat>) -> Found<()> {
    match extent {
        Some(count) => Found::At((), (pos + count) as usize),
        None => Found::Nothing,
    }
}

/// What is known of a procedure that is exported: its type, where it is known, and its attributes.
pub open spec fn signature_at(s: Seq<u8>, pos: usize) -> Found<()> {
    match flag_at(s, pos) {
        Found::At(typed, next) => {
            let behind_type = if typed {
                function_at(s, next, MOST_NESTED as nat)
            } else {
                Found::At((), next)
            };
            match behind_type {
                Found::At(_, next) => extent_at(next, attributes_extent(s.skip(next as int))),
                other => other,
            }
        },
        _ => Found::Nothing,
    }
}

fn skip_signature(bytes: &Vec<u8>, pos: usize) -> (r: Found<()>)
    requires
        pos <= bytes@.len(),
    ensures
        r == signature_at(bytes@, pos),
        r matches Found::At(_, next) ==> next <= bytes@.len(),
{
    let (typed, next): (bool, usize) = match read_flag(bytes, pos) {
        Found::At(typed, next) => (typed, next),
        _ => {
            return Found::Nothing;
        },
    };
    let next: usize = if typed {
        match read_function(bytes, next, MOST_NESTED) {
            Found::At(_, next) => next,
            other => {
                return other;
            },
        }
    } else {
        next
    };
    match skip_attributes(bytes, next) {
        Some(next) => Found::At((), next),
        None => Found::Nothing,
    }
}

/// A constant that is exported.
pub open spec fn constant_at(s: Seq<u8>, pos: usize) -> Found<()> {
    extent_at(pos, constant_extent(s.skip(pos as int)))
}

/// A type that is exported.
pub open spec fn exported_type_at(s: Seq<u8>, pos: usize) -> Found<()> {
    match type_at(s, pos, MOST_NESTED as nat) {
        Found::At(_, next) => Found::At((), next),
        Found::Fault => Found::Fault,
        Found::Nothing => Found::Nothing,
    }
}

/// Whether what is exported is listed by a library, or by the manifest of a package.
#[derive(Debug, Clone, Copy, PartialEq, Eq, Structural)]
pub enum Listing {
    Library,
    Manifest,
}

/// What is behind the path of something that is exported: of a procedure, a library keeps the number
/// of its node, and a manifest its hash.
pub open spec fn export_body_at(s: Seq<u8>, pos: usize, listing: Listing, tag: u8) -> Found<()> {
    let (sort, key): (int, nat) = match listing {
        Listing::Library => (tag as int, 4),
        Listing::Manifest => (tag - 1, 32),
    };
    if sort == 0 {
        match some_at(s, pos, key) {
            Found::At(_, next) => signature_at(s, next),
            _ => Found::Nothing,
        }
    } else if sort == 1 {
        constant_at(s, pos)
    } else if sort == 2 {
        exported_type_at(s, pos)
    } else {
        Found::Nothing
    }
}

/// Something that is exported.
pub open spec fn export_at(s: Seq<u8>, pos: usize, listing: Listing) -> Found<()> {
    match byte_at(s, pos) {
        Found::At(tag, next) => match path_at(s, next) {
            Found::At(_, next) => export_body_at(s, next, listing, tag),
            _ => Found::Nothing,
        },
        _ => Found::Nothing,
    }
}

fn skip_export(bytes: &Vec<u8>, pos: usize, listing: Listing) -> (r: Found<()>)
    requires
        pos <= bytes@.len(),
    ensures
        r == export_at(bytes@, pos, listing),
        r matches Found::At(_, next) ==> next <= bytes@.len(),
{
    let (tag, next): (u8, usize) = match read_byte(bytes, pos) {
        Found::At(tag, next) => (tag, next),
        _ => {
            return Found::Nothing;
        },
    };
    let next: usize = match skip_path(bytes, next) {
        Found::At(_, next) => next,
        _ => {
            return Found::Nothing;
        },
    };
    let (first, key): (u8, usize) = match listing {
        Listing::Library => (0, 4),
        Listing::Manifest => (1, 32),
    };
    if tag == first {
        match skip_some(bytes, next, key) {
            Found::At(_, next) => skip_signature(bytes, next),
            _ => Found::Nothing,
        }
    } else if tag == first + 1 {
        match skip_constant(bytes, next) {
            Some(next) => Found::At((), next),
            None => Found::Nothing,
        }
    } else if tag == first + 2 {
        match read_type(bytes, next, MOST_NESTED) {
            Found::At(_, next) => Found::At((), next),
            Found::Fault => Found::Fault,
            Found::Nothing => Found::Nothing,
        }
    } else {
        Found::Nothing
    }
}

/// What is exported, one after the other.
pub open spec fn exports_at(s: Seq<u8>, pos: usize, listing: Listing, count: nat) -> Found<()>
    decreases count,
{
    if count == 0 {
        Found::At((), pos)
    } else {
        match export_at(s, pos, listing) {
            Found::At(_, next) => exports_at(s, next, listing, (count - 1) as nat),
            other => other,
        }
    }
}

/// How much is exported, and what.
pub open spec fn listing_at(s: Seq<u8>, pos: usize, listing: Listing) -> Found<()> {
    match size_at(s, pos) {
        Found::At(count, next) => exports_at(s, next, listing, count as nat),
        _ => Found::Nothing,
    }
}

fn skip_listing(bytes: &Vec<u8>, pos: usize, listing: Listing) -> (r: Found<()>)
    requires
        pos <= bytes@.len(),
    ensures
        r == listing_at(bytes@, pos, listing),
        r matches Found::At(_, next) ==> next <= bytes@.len(),
{
    let (count, next): (usize, usize) = match read_size(bytes, pos) {
        Found::At(count, next) => (count, next),
        _ => {
            return Found::Nothing;
        },
    };
    let mut at: usize = next;
    let mut left: usize = count;
    while left > 0
        invariant
            at <= bytes@.len(),
            listing_at(bytes@, pos, listing) == exports_at(bytes@, at, listing, left as nat),
        decreases left,
    {
        match skip_export(bytes, at, listing) {
            Found::At(_, next) => {
                at = next;
            },
            other => {
                return other;
            },
        }
        left -= 1;
    }
    Found::At((), at)
}

/// A library: its code, and what it exports.
pub open spec fn library_at(s: Seq<u8>, pos: usize) -> Found<()> {
    match extent_at(pos, forest_extent(s.skip(pos as int))) {
        Found::At(_, next) => listing_at(s, next, Listing::Library),
        _ => Found::Nothing,
    }
}

/// Looks through a library: a fault is found where a type in it has no layout.
pub fn survey_library(bytes: &Vec<u8>, pos: usize) -> (r: Found<()>)
    requires
        pos <= bytes@.len(),
    ensures
        r == library_at(bytes@, pos),
        r matches Found::At(_, next) ==> next <= bytes@.len(),
{
    match skip_forest(bytes, pos) {
        Some(next) => skip_listing(bytes, next, Listing::Library),
        None => Found::Nothing,
    }
}

/// The bytes that every package begins with, the version of the format with them.
pub open spec fn package_mark() -> Seq<u8> {
    seq![0x4du8, 0x41u8, 0x53u8, 0x50u8, 0u8, 4u8, 0u8, 0u8]
}

fn has_mark(bytes: &Vec<u8>) -> (r: bool)
    ensures
        r == (bytes@.len() >= 8 && bytes@.take(8) == package_mark()),
{
    if bytes.len() < 8 {
        return false;
    }
    let r = bytes[0] == 0x4d && bytes[1] == 0x41 && bytes[2] == 0x53 && bytes[3] == 0x50 && bytes[4]
        == 0 && bytes[5] == 4 && bytes[6] == 0 && bytes[7] == 0;
    proof {
        let front = bytes@.take(8);
        let mark = package_mark();
        if r {
            assert(front =~= mark);
        } else {
            assert(front[0] != mark[0] || front[1] != mark[1] || front[2] != mark[2] || front[3]
                != mark[3] || front[4] != mark[4] || front[5] != mark[5] || front[6] != mark[6]
                || front[7] != mark[7]);
        }
    }
    r
}

/// What stands in front of the library in a package: the mark, a name, a version, perhaps a
/// description, and the sort of the package.
pub open spec fn head_at(s: Seq<u8>) -> Found<()> {
    if s.len() < 8 || s.take(8) != package_mark() {
        Found::Nothing
    } else {
        match text_at(s, 8) {
            Found::At(_, next) => match text_at(s, next) {
                Found::At(_, next) => match name_at(s, next) {
                    Found::At(_, next) => some_at(s, next, 1),
                    _ => Found::Nothing,
                },
                _ => Found::Nothing,
            },
            _ => Found::Nothing,
        }
    }
}

fn skip_head(bytes: &Vec<u8>) -> (r: Found<()>)
    ensures
        r == head_at(bytes@),
        r matches Found::At(_, next) ==> next <= bytes@.len(),
{
    if !has_mark(bytes) {
        return Found::Nothing;
    }
    match skip_text(bytes, 8) {
        Found::At(_, next) => match skip_text(bytes, next) {
            Found::At(_, next) => match skip_name(bytes, next) {
                Found::At(_, next) => skip_some(bytes, next, 1),
                _ => Found::Nothing,
            },
            _ => Found::Nothing,
        },
        _ => Found::Nothing,
    }
}

/// A package, up to what it depends on: the library in it, and the manifest, which lists once more
/// what is exported.
pub open spec fn package_at(s: Seq<u8>) -> Found<()> {
    match head_at(s) {
        Found::At(_, next) => match library_at(s, next) {
            Found::At(_, next) => listing_at(s, next, Listing::Manifest),
            other => other,
        },
        _ => Found::Nothing,
    }
}

/// Looks through a package: a fault is found where a type in it has no layout.
pub fn survey_package(bytes: &Vec<u8>) -> (r: Found<()>)
    ensures
        r == package_at(bytes@),
{
    match skip_head(bytes) {
        Found::At(_, next) => match survey_library(bytes, next) {
            Found::At(_, next) => skip_listing(bytes, next, Listing::Manifest),
            other => other,
        },
        _ => Found::Nothing,
    }
}

// ---------------------------------------------------------------------------------------------
// What holds of every layout
// ---------------------------------------------------------------------------------------------

/// A value takes up as few bytes as hold its bits.
pub proof fn bytes_hold_the_bits(shape: Shape)
    requires
        shape.wf(),
    ensures
        shape.bits matches Some(bits) ==> (shape.bytes() matches Some(bytes) && bits <= 8 * bytes < bits
            + 8),
        shape.bits is None ==> shape.bytes() is None,
{
}

/// An alignment that is a power of two is one, or twice another.
pub proof fn powers_are_powers(n: u64, k: nat)
    ensures
        is_power(n) ==> exists|e: nat| n == #[trigger] vstd::arithmetic::power2::pow2(e),
        n == vstd::arithmetic::power2::pow2(k) ==> is_power(n),
    decreases n,
{
    vstd::arithmetic::power2::lemma_pow2_pos(k);
    vstd::arithmetic::power2::lemma2_to64();
    if n <= 1 {
        assert(n == 1 ==> n == vstd::arithmetic::power2::pow2(0));
    } else {
        let half = (n / 2) as u64;
        if k > 0 {
            vstd::arithmetic::power2::lemma_pow2_unfold(k);
            powers_are_powers(half, (k - 1) as nat);
        } else {
            powers_are_powers(half, 0);
        }
        if is_power(n) {
            let e = choose|e: nat| half == #[trigger] vstd::arithmetic::power2::pow2(e);
            vstd::arithmetic::power2::lemma_pow2_unfold(e + 1);
            assert(n == vstd::arithmetic::power2::pow2(e + 1));
        }
    }
}

/// What is rounded up is the least multiple that is not below.
pub proof fn rounding_up_gives_the_next_multiple(n: int, multiple: int)
    requires
        n >= 0,
        multiple > 0,
    ensures
        rounded_up(n, multiple) % multiple == 0,
        n <= rounded_up(n, multiple) < n + multiple,
{
    let q = n / multiple;
    let m = n % multiple;
    vstd::arithmetic::div_mod::lemma_fundamental_div_mod(n, multiple);
    if m != 0 {
        assert(rounded_up(n, multiple) == multiple * (q + 1)) by (nonlinear_arith)
            requires
                rounded_up(n, multiple) == n + (multiple - m),
                n == multiple * q + m,
        ;
        vstd::arithmetic::div_mod::lemma_mod_multiples_basic(q + 1, multiple);
        assert((q + 1) * multiple == multiple * (q + 1)) by (nonlinear_arith);
    }
}

/// Two types have no values, and one has two; numbers with and without a sign are of the same size,
/// each of them twice as long as the one before, from one byte to sixteen; then come thirty-two
/// bytes, a number with a fraction, and an element. All but the types without values, the longest
/// number and the one with a fraction can tell variants apart.
pub proof fn plain_types_have_their_sizes(tag: u8)
    requires
        tag <= 15,
    ensures
        plain_shape(tag).wf(),
        is_power(plain_shape(tag).align),
        tag <= 1 ==> plain_shape(tag).bits == Some(0u64) && plain_shape(tag).align == 1,
        tag == 2 ==> plain_shape(tag).bits == Some(1u64) && plain_shape(tag).align == 1,
        tag == 3 ==> plain_shape(tag).bits == Some(8u64) && plain_shape(tag).align == 1,
        tag == 5 ==> plain_shape(tag).align == 2,
        tag == 7 || tag == 9 || tag == 14 || tag == 15 ==> plain_shape(tag).align == 4,
        tag == 11 || tag == 13 ==> plain_shape(tag).align == 16,
        3 <= tag <= 11 && tag % 2 == 1 ==> plain_shape(tag) == plain_shape((tag + 1) as u8),
        5 <= tag <= 13 && tag % 2 == 1 ==> plain_shape(tag).bits->Some_0 == 2 * plain_shape(
            (tag - 2) as u8,
        ).bits->Some_0,
        tag == 14 ==> plain_shape(tag).bits == Some(64u64),
        tag == 15 ==> plain_shape(tag).bits == Some(32u64),
        plain_shape(tag).discriminates <==> tag != 0 && tag != 1 && tag != 13 && tag != 14,
{
    reveal_with_fuel(is_power, 6);
}

/// The items of an array stand at the same distance from each other, the least that keeps each of
/// them aligned and apart from the next; the array ends with the last of them.
pub proof fn items_stand_at_one_distance(item: Shape, len: usize, bits: u64)
    requires
        item.wf(),
        item.bits == Some(bits),
    ensures
        array_shape(item, len).align == item.align,
        !array_shape(item, len).discriminates,
        len == 0 ==> array_shape(item, len).bits == Some(0u64),
        len == 1 ==> array_shape(item, len).bits == Some(bits),
        len > 1 && !is_power(item.align) ==> array_shape(item, len).bits is None,
        len > 1 && is_power(item.align) ==> exists|distance: int|
            {
                &&& #[trigger] (distance % (8 * item.align)) == 0
                &&& bits <= distance < bits + 8 * item.align
                &&& array_shape(item, len).bits == bits_of(bits + distance * (len - 1))
            },
{
    rounding_up_gives_the_next_multiple(bits as int, 8 * item.align);
    if len > 1 && is_power(item.align) {
        let distance = rounded_up(bits as int, 8 * item.align);
        assert(distance % (8 * item.align) == 0);
    }
}

/// A number of bits is kept as it is, where a machine can handle it.
pub proof fn bits_are_kept(bits: int)
    requires
        bits >= 0,
    ensures
        bits_of(bits) matches Some(b) ==> b == bits,
        bits_of(bits) is Some <==> bits <= 8 * 0xffff_ffff && bits <= usize::MAX,
{
}

/// A list of anything, and an array of things without a size, have no size; what points elsewhere
/// has the size of an address.
pub proof fn sizes_of_lists_and_addresses(item: Shape, len: usize)
    ensures
        list_shape(item).bits is None && list_shape(item).align == item.align,
        !list_shape(item).discriminates && !address_shape().discriminates,
        item.bits is None && len > 0 ==> array_shape(item, len).bits is None,
        address_shape().bytes() == Some(4u64) && address_shape().align == 4,
{
}

/// A field stands behind the one before it, at the next place that it is aligned to, and takes up
/// its size there.
pub proof fn a_field_stands_behind_the_others(repr: Repr, fields: Seq<Shape>, field: Shape)
    requires
        field.wf(),
        repr.wf(),
    ensures
        fields_end(repr, Seq::empty()) == Some(0u64),
        match (fields_end(repr, fields), field.bytes()) {
            (Some(end), Some(size)) => {
                let align = match repr {
                    Repr::Packed(most) => if most < field.align {
                        most
                    } else {
                        field.align
                    },
                    _ => field.align,
                };
                match fields_end(repr, fields.push(field)) {
                    Some(next) => {
                        &&& is_power(align)
                        &&& (next - size) % align as int == 0
                        &&& end <= next - size < end + align
                    },
                    None => !is_power(align) || end + align - 1 + size > 0xffff_ffff,
                }
            },
            _ => fields_end(repr, fields.push(field)) is None,
        },
{
    assert(fields.push(field).drop_last() =~= fields);
    assert(fields.push(field).last() == field);
    if let Some(end) = fields_end(repr, fields) {
        rounding_up_gives_the_next_multiple(end as int, field_align(repr, field) as int);
    }
}

/// The alignment of fields is that of one of them, and no smaller than that of any.
pub proof fn the_largest_alignment_counts(fields: Seq<Shape>)
    requires
        forall|i: int| 0 <= i < fields.len() ==> (#[trigger] fields[i]).wf(),
    ensures
        forall|i: int|
            0 <= i < fields.len() ==> (#[trigger] fields[i]).align <= largest_align(fields),
        fields.len() > 0 ==> exists|i: int|
            0 <= i < fields.len() && (#[trigger] fields[i]).align == largest_align(fields),
        fields.len() == 0 ==> largest_align(fields) == 1,
    decreases fields.len(),
{
    if fields.len() > 0 {
        let before = fields.drop_last();
        assert forall|i: int| 0 <= i < before.len() implies (#[trigger] before[i]).wf() by {
            assert(fields[i].wf());
        }
        the_largest_alignment_counts(before);
        let n = fields.len() - 1;
        assert forall|i: int| 0 <= i < fields.len() implies (#[trigger] fields[i]).align
            <= largest_align(fields) by {
            if i < n {
                assert(before[i].align <= largest_align(before));
            }
        }
        assert(fields[n].wf());
        if fields[n].align > largest_align(before) || before.len() == 0 {
            assert(fields[n].align == largest_align(fields));
        } else {
            let i = choose|i: int|
                0 <= i < before.len() && (#[trigger] before[i]).align == largest_align(before);
            assert(fields[i].align == largest_align(fields));
        }
    }
}

/// A structure ends at the first place behind its fields that it is aligned to. It is aligned as its
/// fields are, unless an alignment is asked for.
pub proof fn a_structure_ends_behind_its_fields(repr: Repr, fields: Seq<Shape>, end: u64)
    requires
        repr.wf(),
        !(repr is Transparent),
        forall|i: int| 0 <= i < fields.len() ==> (#[trigger] fields[i]).wf(),
    ensures
        fields_end(repr, fields) is None ==> struct_shape(repr, fields) is None,
        fields_end(repr, fields) == Some(end) ==> ({
            let own = largest_align(fields);
            let whole = match repr {
                Repr::Align(least) => if least >= own {
                    least
                } else {
                    own
                },
                Repr::Packed(most) => if most <= own {
                    most
                } else {
                    own
                },
                _ => own,
            };
            match struct_shape(repr, fields) {
                Some(shape) => {
                    &&& is_power(whole)
                    &&& exists|size: int|
                        {
                            &&& size % whole as int == 0
                            &&& end <= size < end + whole
                            &&& shape.bits == #[trigger] bits_of(8 * size)
                        }
                    &&& match repr {
                        Repr::Align(asked) => shape.align == asked,
                        Repr::Packed(asked) => shape.align == asked,
                        _ => shape.align == own,
                    }
                    &&& !shape.discriminates
                },
                None => !is_power(whole) || end + whole - 1 > 0xffff_ffff,
            }
        }),
{
    the_largest_alignment_counts(fields);
    let own = largest_align(fields);
    assert(own >= 1) by {
        if fields.len() > 0 {
            assert(fields[0].wf());
            assert(fields[0].align <= own);
        }
    }
    let whole = match repr {
        Repr::Align(align) if align > own => align,
        Repr::Packed(align) if align < own => align,
        _ => own,
    };
    if fields_end(repr, fields) == Some(end) {
        rounding_up_gives_the_next_multiple(end as int, whole as int);
        let size = rounded_up(end as int, whole as int);
        if let Some(shape) = struct_shape(repr, fields) {
            assert(shape.bits == bits_of(8 * size));
        }
    }
}

/// A transparent structure has one field at most that takes up room, and is as large as that field.
pub proof fn a_transparent_structure_is_its_only_field(fields: Seq<Shape>)
    requires
        forall|i: int| 0 <= i < fields.len() ==> (#[trigger] fields[i]).wf(),
    ensures
        match struct_shape(Repr::Transparent, fields) {
            Some(shape) => {
                &&& forall|i: int| 0 <= i < fields.len() ==> (#[trigger] fields[i]).bytes() is Some
                &&& forall|i: int, j: int|
                    0 <= i < j < fields.len() && (#[trigger] fields[i]).bytes() != Some(0u64)
                        ==> (#[trigger] fields[j]).bytes() == Some(0u64)
                &&& forall|i: int|
                    0 <= i < fields.len() && (#[trigger] fields[i]).bytes() != Some(0u64) ==> {
                        &&& shape.bits == bits_of(8 * fields[i].bytes()->Some_0)
                        &&& shape.align == fields[i].align
                    }
                &&& (forall|i: int|
                    0 <= i < fields.len() ==> (#[trigger] fields[i]).bytes() == Some(0u64))
                    ==> shape.bits == Some(0u64) && shape.align == 1
            },
            None => (exists|i: int|
                0 <= i < fields.len() && (#[trigger] fields[i]).bytes() is None) || (exists|
                i: int,
                j: int,
            |
                0 <= i < j < fields.len() && (#[trigger] fields[i]).bytes() != Some(0u64) && (
                #[trigger] fields[j]).bytes() != Some(0u64)),
        },
{
    one_field_has_room(fields);
}

proof fn one_field_has_room(fields: Seq<Shape>)
    requires
        forall|i: int| 0 <= i < fields.len() ==> (#[trigger] fields[i]).wf(),
    ensures
        match only_size(fields) {
            Some(size) => {
                &&& forall|i: int| 0 <= i < fields.len() ==> (#[trigger] fields[i]).bytes() is Some
                &&& forall|i: int, j: int|
                    0 <= i < j < fields.len() && (#[trigger] fields[i]).bytes() != Some(0u64)
                        ==> (#[trigger] fields[j]).bytes() == Some(0u64)
                &&& forall|i: int|
                    0 <= i < fields.len() && (#[trigger] fields[i]).bytes() != Some(0u64) ==> {
                        &&& Some(size) == fields[i].bytes()
                        &&& only_align(fields) == fields[i].align
                    }
                &&& (forall|i: int|
                    0 <= i < fields.len() ==> (#[trigger] fields[i]).bytes() == Some(0u64))
                    ==> size == 0 && only_align(fields) == 1
                &&& size != 0 ==> exists|i: int|
                    0 <= i < fields.len() && (#[trigger] fields[i]).bytes() != Some(0u64)
            },
            None => (exists|i: int|
                0 <= i < fields.len() && (#[trigger] fields[i]).bytes() is None) || (exists|
                i: int,
                j: int,
            |
                0 <= i < j < fields.len() && (#[trigger] fields[i]).bytes() != Some(0u64) && (
                #[trigger] fields[j]).bytes() != Some(0u64)),
        },
    decreases fields.len(),
{
    if fields.len() > 0 {
        let before = fields.drop_last();
        let n = fields.len() - 1;
        assert forall|i: int| 0 <= i < before.len() implies (#[trigger] before[i]).wf() by {
            assert(fields[i].wf());
        }
        assert(fields[n].wf());
        one_field_has_room(before);
        assert forall|i: int| 0 <= i < n implies #[trigger] fields[i] == before[i] by {}
        assert forall|i: int| 0 <= i < n implies #[trigger] before[i] == fields[i] by {}
        match only_size(before) {
            None => {
                if exists|i: int| 0 <= i < before.len() && (#[trigger] before[i]).bytes() is None {
                    let i = choose|i: int|
                        0 <= i < before.len() && (#[trigger] before[i]).bytes() is None;
                    assert(fields[i].bytes() is None);
                } else {
                    let (i, j) = choose|i: int, j: int|
                        0 <= i < j < before.len() && (#[trigger] before[i]).bytes() != Some(0u64)
                            && (#[trigger] before[j]).bytes() != Some(0u64);
                    assert(fields[i].bytes() != Some(0u64) && fields[j].bytes() != Some(0u64));
                }
            },
            Some(had) => {
                if fields[n].bytes() is None {
                    assert(only_size(fields) is None);
                } else if had != 0 && fields[n].bytes() != Some(0u64) {
                    let i = choose|i: int|
                        0 <= i < before.len() && (#[trigger] before[i]).bytes() != Some(0u64);
                    assert(fields[i].bytes() != Some(0u64) && fields[n].bytes() != Some(0u64));
                } else if fields[n].bytes() != Some(0u64) {
                    assert forall|i: int| 0 <= i < before.len() implies (
                    #[trigger] before[i]).bytes() == Some(0u64) by {
                        if before[i].bytes() != Some(0u64) {
                            assert(before[i].bytes() == Some(had));
                        }
                    }
                    assert(only_align(before) == 1);
                } else {
                    if had != 0 {
                        let i = choose|i: int|
                            0 <= i < before.len() && (#[trigger] before[i]).bytes() != Some(0u64);
                        assert(fields[i].bytes() != Some(0u64));
                    }
                    if forall|i: int|
                        0 <= i < fields.len() ==> (#[trigger] fields[i]).bytes() == Some(0u64) {
                        assert forall|i: int| 0 <= i < before.len() implies (
                        #[trigger] before[i]).bytes() == Some(0u64) by {
                            assert(fields[i].bytes() == Some(0u64));
                        }
                    }
                }
            },
        }
    }
}

/// The room of a value is what it takes up wherever it is put; a value without bytes needs none.
pub proof fn the_room_of_a_value(value: Shape)
    requires
        value.wf(),
    ensures
        value.bytes() is None || value.bytes() == Some(0u64) ==> room(value) == 0,
        value.bytes() matches Some(size) ==> (size > 0 ==> room(value) == size + value.align),
{
    bytes_hold_the_bits(value);
}

/// An enumeration is as large as the first of its variants that need most room, the discriminant in
/// front of the value; each of its variants must have a layout. Without any values it is as large as
/// the discriminant, and without variants it takes up nothing.
pub proof fn an_enumeration_is_its_largest_variant(
    discriminant: Shape,
    variants: usize,
    values: Seq<Shape>,
)
    ensures
        variants == 0 ==> (enum_shape(discriminant, variants, values) matches Some(shape)
            && shape.bits == Some(0u64) && shape.align == 1),
        variants > 0 && (exists|i: int|
            0 <= i < values.len() && struct_shape(
                Repr::Plain,
                seq![discriminant, #[trigger] values[i]],
            ) is None) ==> enum_shape(discriminant, variants, values) is None,
        variants > 0 && values.len() == 0 ==> (enum_shape(discriminant, variants, values)
            matches Some(shape) && shape.align == discriminant.align && (
        discriminant.bytes() matches Some(size) ==> shape.bits == bits_of(8 * size))),
        variants > 0 && values.len() > 0 && (forall|i: int|
            0 <= i < values.len() ==> struct_shape(
                Repr::Plain,
                seq![discriminant, #[trigger] values[i]],
            ) is Some) ==> exists|k: int|
            {
                &&& #[trigger] needs_most_room(values, k)
                &&& enum_shape(discriminant, variants, values) == struct_shape(
                    Repr::Plain,
                    seq![discriminant, values[k]],
                )
            },
{
    all_variants_have_layouts(discriminant, values);
    if exists|i: int|
        0 <= i < values.len() && struct_shape(
            Repr::Plain,
            seq![discriminant, #[trigger] values[i]],
        ) is None {
        let i = choose|i: int|
            0 <= i < values.len() && struct_shape(
                Repr::Plain,
                seq![discriminant, #[trigger] values[i]],
            ) is None;
        assert(variant_shape(discriminant, values[i]) is None);
    }
    assert forall|i: int| 0 <= i < values.len() implies struct_shape(
        Repr::Plain,
        seq![discriminant, #[trigger] values[i]],
    ) == variant_shape(discriminant, values[i]) by {}
    if values.len() > 0 && largest_variant(discriminant, values) is Some {
        let k = the_first_of_most_room(discriminant, values);
        if variants > 0 {
            assert(enum_shape(discriminant, variants, values) == struct_shape(
                Repr::Plain,
                seq![discriminant, values[k]],
            ));
        }
    }
}

/// Whether a value is the first of those that need most room.
pub open spec fn needs_most_room(values: Seq<Shape>, k: int) -> bool {
    &&& 0 <= k < values.len()
    &&& forall|i: int| 0 <= i < values.len() ==> room(#[trigger] values[i]) <= room(values[k])
    &&& forall|i: int| 0 <= i < k ==> room(#[trigger] values[i]) < room(values[k])
}

proof fn all_variants_have_layouts(discriminant: Shape, values: Seq<Shape>)
    ensures
        largest_variant(discriminant, values) is None <==> exists|i: int|
            0 <= i < values.len() && variant_shape(discriminant, #[trigger] values[i]) is None,
    decreases values.len(),
{
    if values.len() > 0 {
        let before = values.drop_last();
        let n = values.len() - 1;
        all_variants_have_layouts(discriminant, before);
        if largest_variant(discriminant, before) is None {
            let i = choose|i: int|
                0 <= i < before.len() && variant_shape(discriminant, #[trigger] before[i]) is None;
            assert(variant_shape(discriminant, values[i]) is None);
        } else {
            assert forall|i: int| 0 <= i < n implies variant_shape(
                discriminant,
                #[trigger] values[i],
            ) is Some by {
                assert(before[i] == values[i]);
            }
            assert(values[n] == values.last());
        }
    }
}

proof fn the_first_of_most_room(discriminant: Shape, values: Seq<Shape>) -> (k: int)
    requires
        values.len() > 0,
        largest_variant(discriminant, values) is Some,
    ensures
        needs_most_room(values, k),
        largest_variant(discriminant, values) == Some(Some(values[k])),
    decreases values.len(),
{
    let before = values.drop_last();
    let n = values.len() - 1;
    assert(values.last() == values[n]);
    if before.len() > 0 {
        let k = the_first_of_most_room(discriminant, before);
        let at = if room(values[n]) <= room(before[k]) {
            k
        } else {
            n
        };
        assert forall|i: int| 0 <= i < values.len() implies room(#[trigger] values[i]) <= room(
            values[at],
        ) by {
            if i < n {
                assert(room(before[i]) <= room(before[k]));
            }
        }
        assert forall|i: int| 0 <= i < at implies room(#[trigger] values[i]) < room(values[at]) by {
            assert(room(before[i]) <= room(before[k]));
        }
        at
    } else {
        n
    }
}

// ---------------------------------------------------------------------------------------------
// What holds of every description
// ---------------------------------------------------------------------------------------------

/// A byte is read where it stands; zero and one stand for truth values, and no other byte does; two
/// bytes make up a number, the lower one first.
pub proof fn bytes_are_read_where_they_stand(before: Seq<u8>, byte: u8, n: u16, after: Seq<u8>)
    requires
        before.len() + 2 + after.len() <= usize::MAX,
    ensures
        byte_at(before + seq![byte] + after, before.len() as usize) == Found::At(
            byte,
            (before.len() + 1) as usize,
        ),
        byte == 0 ==> flag_at(before + seq![byte] + after, before.len() as usize) == Found::At(
            false,
            (before.len() + 1) as usize,
        ),
        byte == 1 ==> flag_at(before + seq![byte] + after, before.len() as usize) == Found::At(
            true,
            (before.len() + 1) as usize,
        ),
        byte > 1 ==> flag_at(before + seq![byte] + after, before.len() as usize) is Nothing,
        byte_at(before, before.len() as usize) is Nothing,
        short_at(before.push(byte), before.len() as usize) is Nothing,
        short_at(
            before + crate::exec::codec::le_bytes(n as nat, 2) + after,
            before.len() as usize,
        ) == Found::At(n, (before.len() + 2) as usize),
{
    let s = before + seq![byte] + after;
    assert(s[before.len() as int] == byte);
    let b = crate::exec::codec::le_bytes(n as nat, 2);
    reveal_with_fuel(crate::exec::codec::le_bytes, 3);
    crate::exec::codec::le_bytes_len(n as nat, 2);
    let t = before + b + after;
    let pos = before.len() as int;
    assert(t[pos] == b[0] && t[pos + 1] == b[1]);
    assert(b[0] == n % 256 && b[1] == (n / 256) % 256);
}

/// A size is read where it was written.
pub proof fn sizes_are_read_where_they_stand(before: Seq<u8>, n: usize, after: Seq<u8>)
    requires
        (before + crate::exec::codec::size_bytes(n as nat) + after).len() <= usize::MAX,
    ensures
        ({
            let head = before + crate::exec::codec::size_bytes(n as nat);
            size_at(head + after, before.len() as usize) == Found::At(n, head.len() as usize)
        }),
{
    let bytes = crate::exec::codec::size_bytes(n as nat);
    let s = before + bytes + after;
    crate::exec::codec::size_reads_back(n, after);
    assert(s.skip(before.len() as int) =~= bytes + after);
}

/// A text is its size and as many bytes; one that may be missing has a flag in front; a path has its
/// length in two bytes.
pub proof fn texts_are_skipped_whole(before: Seq<u8>, text: Seq<u8>, after: Seq<u8>)
    requires
        (before + seq![1u8] + crate::exec::codec::size_bytes(text.len()) + text + after).len()
            <= usize::MAX,
        before.len() + 2 + text.len() + after.len() <= usize::MAX,
    ensures
        ({
            let whole = before + crate::exec::codec::size_bytes(text.len()) + text;
            text_at(whole + after, before.len() as usize) == Found::At((), whole.len() as usize)
        }),
        ({
            let whole = before + seq![1u8] + crate::exec::codec::size_bytes(text.len()) + text;
            name_at(whole + after, before.len() as usize) == Found::At((), whole.len() as usize)
        }),
        name_at(before + seq![0u8] + after, before.len() as usize) == Found::At(
            (),
            (before.len() + 1) as usize,
        ),
        text.len() <= 0xffff ==> ({
            let whole = before + crate::exec::codec::le_bytes(text.len(), 2) + text;
            path_at(whole + after, before.len() as usize) == Found::At((), whole.len() as usize)
        }),
{
    let n = text.len() as usize;
    let size = crate::exec::codec::size_bytes(text.len());
    assert(before + size + text + after =~= before + size + (text + after));
    sizes_are_read_where_they_stand(before, n, text + after);
    let named = before + seq![1u8];
    assert(named + size + text + after =~= named + size + (text + after));
    sizes_are_read_where_they_stand(named, n, text + after);
    assert((named + size + text + after)[before.len() as int] == 1);
    assert((before + seq![0u8] + after)[before.len() as int] == 0);
    if text.len() <= 0xffff {
        let two = crate::exec::codec::le_bytes(text.len(), 2);
        crate::exec::codec::le_bytes_len(text.len(), 2);
        assert(before + two + text + after =~= before + two + (text + after));
        bytes_are_read_where_they_stand(before, 0, text.len() as u16, text + after);
    }
}

/// A text that is cut off is not there.
pub proof fn a_text_must_be_whole(s: Seq<u8>, pos: usize, len: usize, next: usize)
    requires
        size_at(s, pos) == Found::At(len, next),
    ensures
        next + len > s.len() ==> text_at(s, pos) is Nothing,
        next + len <= s.len() <= usize::MAX ==> text_at(s, pos) == Found::At(
            (),
            (next + len) as usize,
        ),
{
}

/// Fields are put together in five ways, known by their numbers; two of them name an alignment,
/// which is not zero.
pub proof fn ways_to_put_fields_together(s: Seq<u8>, pos: usize)
    requires
        pos + 3 <= s.len() <= usize::MAX,
    ensures
        s[pos as int] == 0 || s[pos as int] == 4 ==> repr_at(s, pos) == Found::At(
            Repr::Plain,
            (pos + 1) as usize,
        ),
        s[pos as int] == 3 ==> repr_at(s, pos) == Found::At(Repr::Transparent, (pos + 1) as usize),
        s[pos as int] > 4 ==> repr_at(s, pos) is Nothing,
        1 <= s[pos as int] <= 2 ==> ({
            let asked = crate::exec::codec::le_number(s.subrange(pos + 1, pos + 3)) as u64;
            &&& asked == 0 ==> repr_at(s, pos) is Nothing
            &&& asked > 0 && s[pos as int] == 1 ==> repr_at(s, pos) == Found::At(
                Repr::Align(asked),
                (pos + 3) as usize,
            )
            &&& asked > 0 && s[pos as int] == 2 ==> repr_at(s, pos) == Found::At(
                Repr::Packed(asked),
                (pos + 3) as usize,
            )
        }),
{
    reveal_with_fuel(crate::exec::codec::le_number, 3);
    let two = s.subrange(pos + 1, pos + 3);
    assert(two.skip(1) =~= seq![s[pos + 2]]);
    assert(two.skip(1).skip(1) =~= Seq::<u8>::empty());
    assert(two.drop_last() =~= seq![s[pos + 1]]);
    assert(two.drop_last().drop_last() =~= Seq::<u8>::empty());
}

/// What has a fault inside has a fault, and what is not there inside is not there.
pub open spec fn as_inside<A, B>(inside: Found<A>, outside: Found<B>) -> bool {
    match inside {
        Found::Nothing => outside is Nothing,
        Found::Fault => outside is Fault,
        Found::At(_, end) => outside matches Found::At(_, at) && at == end,
    }
}

/// A type is known by the number in front of it: a plain one is that number alone; a pointer has the
/// space it points to, and a type; an array has its length, and a type; a list has a type. What is
/// nested too deep, or has another number, is no type.
pub proof fn types_are_known_by_their_numbers(
    s: Seq<u8>,
    pos: usize,
    depth: nat,
    len: usize,
    next: usize,
)
    requires
        pos + 2 <= s.len() <= usize::MAX,
    ensures
        s[pos as int] <= 15 ==> type_at(s, pos, depth) == Found::At(
            plain_shape(s[pos as int]),
            (pos + 1) as usize,
        ),
        s[pos as int] > 21 ==> type_at(s, pos, depth) is Nothing,
        s[pos as int] > 15 ==> type_at(s, pos, 0) is Nothing,
        s[pos as int] == 16 && s[pos + 1] > 1 ==> type_at(s, pos, depth) is Nothing,
        s[pos as int] == 16 && s[pos + 1] <= 1 ==> ({
            let pointer = type_at(s, pos, depth + 1);
            &&& as_inside(type_at(s, (pos + 2) as usize, depth), pointer)
            &&& pointer matches Found::At(shape, _) ==> shape.bits == Some(32u64) && shape.align == 4
                && !shape.discriminates
        }),
        s[pos as int] == 18 && size_at(s, (pos + 1) as usize) == Found::At(len, next) ==> ({
            let array = type_at(s, pos, depth + 1);
            &&& as_inside(type_at(s, next, depth), array)
            &&& type_at(s, next, depth) matches Found::At(item, _) ==> (array matches Found::At(
                shape,
                _,
            ) && shape == array_shape(item, len))
        }),
        s[pos as int] == 19 ==> ({
            let list = type_at(s, pos, depth + 1);
            let item = type_at(s, (pos + 1) as usize, depth);
            &&& as_inside(item, list)
            &&& item matches Found::At(item, _) ==> (list matches Found::At(shape, _)
                && shape.bits is None && shape.align == item.align)
        }),
{
    assert(byte_at(s, pos) == Found::At(s[pos as int], (pos + 1) as usize));
    assert(byte_at(s, (pos + 1) as usize) == Found::At(s[pos + 1], (pos + 2) as usize));
    assert((depth + 1 - 1) as nat == depth);
}

/// A structure has a name, a way to put its fields together, and as many fields as it says, one
/// after the other; it is a fault where these have no layout.
pub proof fn a_structure_is_its_fields(
    s: Seq<u8>,
    pos: usize,
    depth: nat,
    behind_name: usize,
    repr: Repr,
    behind_repr: usize,
)
    requires
        pos < s.len() <= usize::MAX,
        s[pos as int] == 17,
        name_at(s, (pos + 1) as usize) == Found::At((), behind_name),
        repr_at(s, behind_name) == Found::At(repr, behind_repr),
        behind_repr < s.len(),
    ensures
        ({
            let fields = fields_at(
                s,
                (behind_repr + 1) as usize,
                depth,
                s[behind_repr as int] as nat,
                Seq::empty(),
            );
            match fields {
                Found::At(fields, end) => match struct_shape(repr, fields) {
                    Some(shape) => type_at(s, pos, depth + 1) == Found::At(shape, end),
                    None => type_at(s, pos, depth + 1) is Fault,
                },
                _ => as_inside(fields, type_at(s, pos, depth + 1)),
            }
        }),
{
    assert((depth + 1 - 1) as nat == depth);
    let next = (pos + 1) as usize;
    assert(type_at(s, pos, depth + 1) == struct_at(s, next, depth)) by {
        assert(byte_at(s, pos) == Found::At(17u8, next));
    }
    assert(byte_at(s, behind_repr) == Found::At(
        s[behind_repr as int],
        (behind_repr + 1) as usize,
    ));
}

/// Each field has a name and a type, and they come one after the other.
pub proof fn fields_come_one_after_the_other(
    s: Seq<u8>,
    pos: usize,
    depth: nat,
    count: nat,
    found: Seq<Shape>,
)
    ensures
        fields_at(s, pos, depth, 0, found) == Found::At(found, pos),
        name_at(s, pos) is Nothing ==> fields_at(s, pos, depth, count + 1, found) is Nothing,
        name_at(s, pos) matches Found::At(_, at) ==> match type_at(s, at, depth) {
            Found::At(field, next) => fields_at(s, pos, depth, count + 1, found) == fields_at(
                s,
                next,
                depth,
                count,
                found.push(field),
            ),
            Found::Fault => fields_at(s, pos, depth, count + 1, found) is Fault,
            Found::Nothing => fields_at(s, pos, depth, count + 1, found) is Nothing,
        },
        fields_at(s, pos, depth, count, found) matches Found::At(fields, _) ==> fields.len()
            == found.len() + count && found.is_prefix_of(fields),
    decreases count,
{
    assert((count + 1 - 1) as nat == count);
    assert(found.is_prefix_of(found)) by {
        assert(found =~= found.subrange(0, found.len() as int));
    }
    if count > 0 {
        if let Found::At(_, at) = name_at(s, pos) {
            if let Found::At(field, next) = type_at(s, at, depth) {
                fields_come_one_after_the_other(
                    s,
                    next,
                    depth,
                    (count - 1) as nat,
                    found.push(field),
                );
                if let Found::At(fields, _) = fields_at(s, pos, depth, count, found) {
                    assert(found =~= found.push(field).subrange(0, found.len() as int));
                    assert(found =~= fields.subrange(0, found.len() as int));
                }
            }
        }
    }
}

/// A function is called in one of four ways, and has a list of what it takes and one of what it
/// gives; a pointer to it is an address.
pub proof fn a_function_takes_and_gives(s: Seq<u8>, pos: usize, depth: nat)
    requires
        pos + 2 <= s.len() <= usize::MAX,
    ensures
        s[pos as int] > 3 ==> function_at(s, pos, depth) is Nothing,
        s[pos as int] <= 3 ==> match type_list_at(s, (pos + 1) as usize, depth) {
            Found::At(_, next) => as_inside(
                type_list_at(s, next, depth),
                function_at(s, pos, depth),
            ),
            Found::Fault => function_at(s, pos, depth) is Fault,
            Found::Nothing => function_at(s, pos, depth) is Nothing,
        },
        s[pos as int] == 20 ==> ({
            let r = type_at(s, pos, depth + 1);
            &&& as_inside(function_at(s, (pos + 1) as usize, depth), r)
            &&& r matches Found::At(shape, _) ==> shape.bits == Some(32u64) && shape.align == 4
        }),
{
    assert((depth + 1 - 1) as nat == depth);
    assert(byte_at(s, pos) == Found::At(s[pos as int], (pos + 1) as usize));
}

/// A list of types says how many there are; more than there are bytes left is a fault. The types
/// come one after the other.
pub proof fn a_list_has_as_many_types_as_it_says(
    s: Seq<u8>,
    pos: usize,
    depth: nat,
    count: usize,
    next: usize,
    first: nat,
    rest: nat,
)
    ensures
        size_at(s, pos) == Found::At(count, next) && count > s.len() - next ==> type_list_at(
            s,
            pos,
            depth,
        ) is Fault,
        size_at(s, pos) == Found::At(count, next) && count <= s.len() - next ==> type_list_at(
            s,
            pos,
            depth,
        ) == types_at(s, next, depth, count as nat),
        size_at(s, pos) is Nothing ==> type_list_at(s, pos, depth) is Nothing,
        types_at(s, pos, depth, 0) == Found::At((), pos),
        as_inside(type_at(s, pos, depth), types_at(s, pos, depth, 1)),
        match types_at(s, pos, depth, first) {
            Found::At(_, at) => types_at(s, pos, depth, first + rest) == types_at(
                s,
                at,
                depth,
                rest,
            ),
            other => types_at(s, pos, depth, first + rest) == other,
        },
    decreases first,
{
    reveal_with_fuel(types_at, 2);
    if first > 0 {
        if let Found::At(_, at) = type_at(s, pos, depth) {
            a_list_has_as_many_types_as_it_says(
                s,
                at,
                depth,
                count,
                next,
                (first - 1) as nat,
                rest,
            );
            assert((first + rest - 1) as nat == (first - 1) as nat + rest);
        }
    }
}

/// A discriminant is written down in as many bytes as hold it: one, two, four, eight or sixteen.
pub proof fn a_discriminant_is_written_in_full(tag: u8)
    requires
        tag <= 15,
    ensures
        plain_shape(tag).discriminates ==> plain_shape(tag).bytes() == Some(
            discriminant_width(plain_shape(tag)) as u64,
        ),
{
}

/// An enumeration has a name, a type that tells its variants apart, and as many variants as it says;
/// it is a fault where these have no layout.
pub proof fn an_enumeration_is_its_variants(
    s: Seq<u8>,
    pos: usize,
    depth: nat,
    behind_name: usize,
    discriminant: Shape,
    behind_type: usize,
)
    requires
        pos < s.len() <= usize::MAX,
        s[pos as int] == 21,
        text_at(s, (pos + 1) as usize) == Found::At((), behind_name),
        type_at(s, behind_name, depth) == Found::At(discriminant, behind_type),
    ensures
        !discriminant.discriminates ==> type_at(s, pos, depth + 1) is Nothing,
        size_at(s, behind_type) is Nothing ==> type_at(s, pos, depth + 1) is Nothing,
        discriminant.discriminates ==> (size_at(s, behind_type) matches Found::At(count, next) ==> ({
            let values = variants_at(
                s,
                next,
                depth,
                discriminant_width(discriminant),
                count as nat,
                Seq::empty(),
            );
            match values {
                Found::At(values, end) => match enum_shape(discriminant, count, values) {
                    Some(shape) => type_at(s, pos, depth + 1) == Found::At(shape, end),
                    None => type_at(s, pos, depth + 1) is Fault,
                },
                _ => as_inside(values, type_at(s, pos, depth + 1)),
            }
        })),
{
    assert((depth + 1 - 1) as nat == depth);
    let next = (pos + 1) as usize;
    assert(type_at(s, pos, depth + 1) == enum_at(s, next, depth)) by {
        assert(byte_at(s, pos) == Found::At(21u8, next));
    }
}

/// A variant has a name, a flag with the type of its value behind it where it has one, and a flag
/// with its number behind it where that is written down; the next one stands behind it.
pub proof fn variants_come_one_after_the_other(
    s: Seq<u8>,
    pos: usize,
    depth: nat,
    width: nat,
    count: nat,
    found: Seq<Shape>,
    behind_name: usize,
)
    requires
        text_at(s, pos) == Found::At((), behind_name),
        s.len() <= usize::MAX,
    ensures
        variants_at(s, pos, depth, width, 0, found) == Found::At(found, pos),
        behind_name + 2 <= s.len() && s[behind_name as int] == 0 && s[behind_name + 1] == 0
            ==> variants_at(s, pos, depth, width, count + 1, found) == variants_at(
            s,
            (behind_name + 2) as usize,
            depth,
            width,
            count,
            found,
        ),
        behind_name + 2 + width <= s.len() && s[behind_name as int] == 0 && s[behind_name + 1] == 1
            ==> variants_at(s, pos, depth, width, count + 1, found) == variants_at(
            s,
            (behind_name + 2 + width) as usize,
            depth,
            width,
            count,
            found,
        ),
        behind_name < s.len() && s[behind_name as int] == 1 ==> match type_at(
            s,
            (behind_name + 1) as usize,
            depth,
        ) {
            Found::At(value, at) => {
                &&& at < s.len() && s[at as int] == 0 ==> variants_at(
                    s,
                    pos,
                    depth,
                    width,
                    count + 1,
                    found,
                ) == variants_at(s, (at + 1) as usize, depth, width, count, found.push(value))
                &&& at + width < s.len() && s[at as int] == 1 ==> variants_at(
                    s,
                    pos,
                    depth,
                    width,
                    count + 1,
                    found,
                ) == variants_at(
                    s,
                    (at + 1 + width) as usize,
                    depth,
                    width,
                    count,
                    found.push(value),
                )
            },
            Found::Fault => variants_at(s, pos, depth, width, count + 1, found) is Fault,
            Found::Nothing => variants_at(s, pos, depth, width, count + 1, found) is Nothing,
        },
{
    assert((count + 1 - 1) as nat == count);
}

/// What a library exports is numbered from zero on, and what a manifest lists from one on: first
/// come procedures, then constants, then types. A library keeps four bytes of a procedure, and a
/// manifest thirty-two, in front of what is known of it.
pub proof fn exports_are_known_by_their_numbers(s: Seq<u8>, pos: usize, tag: u8)
    requires
        pos <= s.len() <= usize::MAX,
    ensures
        1 <= tag ==> export_body_at(s, pos, Listing::Manifest, tag) == if tag == 1 {
            if pos + 32 <= s.len() {
                signature_at(s, (pos + 32) as usize)
            } else {
                Found::Nothing
            }
        } else {
            export_body_at(s, pos, Listing::Library, (tag - 1) as u8)
        },
        export_body_at(s, pos, Listing::Manifest, 0) is Nothing,
        pos + 4 <= s.len() ==> export_body_at(s, pos, Listing::Library, 0) == signature_at(
            s,
            (pos + 4) as usize,
        ),
        pos + 4 > s.len() ==> export_body_at(s, pos, Listing::Library, 0) is Nothing,
        match constant_extent(s.skip(pos as int)) {
            Some(count) => export_body_at(s, pos, Listing::Library, 1) == Found::At(
                (),
                (pos + count) as usize,
            ),
            None => export_body_at(s, pos, Listing::Library, 1) is Nothing,
        },
        as_inside(type_at(s, pos, 128), export_body_at(s, pos, Listing::Library, 2)),
        tag > 2 ==> export_body_at(s, pos, Listing::Library, tag) is Nothing,
{
}

/// What is known of a procedure is its type, where there is one, and its attributes.
pub proof fn a_signature_is_a_type_and_attributes(s: Seq<u8>, pos: usize)
    requires
        pos < s.len() <= usize::MAX,
    ensures
        s[pos as int] > 1 ==> signature_at(s, pos) is Nothing,
        s[pos as int] == 0 ==> match attributes_extent(s.skip(pos + 1)) {
            Some(count) => signature_at(s, pos) == Found::At((), (pos + 1 + count) as usize),
            None => signature_at(s, pos) is Nothing,
        },
        s[pos as int] == 1 ==> match function_at(s, (pos + 1) as usize, 128) {
            Found::At(_, at) => match attributes_extent(s.skip(at as int)) {
                Some(count) => signature_at(s, pos) == Found::At((), (at + count) as usize),
                None => signature_at(s, pos) is Nothing,
            },
            other => signature_at(s, pos) == other,
        },
{
}

/// Exports have a number and a path in front, and come one after the other, as many as the list
/// says; the first fault is that of the list.
pub proof fn exports_come_one_after_the_other(
    s: Seq<u8>,
    pos: usize,
    listing: Listing,
    first: nat,
    rest: nat,
)
    ensures
        pos < s.len() <= usize::MAX ==> (path_at(s, (pos + 1) as usize) matches Found::At(_, at)
            ==> export_at(s, pos, listing) == export_body_at(s, at, listing, s[pos as int])),
        exports_at(s, pos, listing, 0) == Found::At((), pos),
        exports_at(s, pos, listing, 1) == export_at(s, pos, listing),
        match exports_at(s, pos, listing, first) {
            Found::At(_, at) => exports_at(s, pos, listing, first + rest) == exports_at(
                s,
                at,
                listing,
                rest,
            ),
            other => exports_at(s, pos, listing, first + rest) == other,
        },
        size_at(s, pos) matches Found::At(count, next) ==> listing_at(s, pos, listing)
            == exports_at(s, next, listing, count as nat),
        size_at(s, pos) is Nothing ==> listing_at(s, pos, listing) is Nothing,
    decreases first,
{
    reveal_with_fuel(exports_at, 2);
    if first > 0 {
        if let Found::At(_, at) = export_at(s, pos, listing) {
            exports_come_one_after_the_other(s, at, listing, (first - 1) as nat, rest);
            assert((first + rest - 1) as nat == (first - 1) as nat + rest);
        }
    }
}

/// A package begins with its mark; then come a name, a version, perhaps a description, and one byte
/// more; then the library in it, and the list of what is exported.
pub proof fn a_package_begins_with_its_mark(
    s: Seq<u8>,
    behind_name: usize,
    behind_version: usize,
    behind_description: usize,
)
    requires
        s.len() <= usize::MAX,
    ensures
        s.len() < 8 ==> package_at(s) is Nothing,
        s.len() >= 8 && !(s[0] == 'M' as u8 && s[1] == 'A' as u8 && s[2] == 'S' as u8 && s[3]
            == 'P' as u8 && s[4] == 0 && s[5] == 4 && s[6] == 0 && s[7] == 0) ==> package_at(
            s,
        ) is Nothing,
        s.len() >= 8 && s[0] == 'M' as u8 && s[1] == 'A' as u8 && s[2] == 'S' as u8 && s[3]
            == 'P' as u8 && s[4] == 0 && s[5] == 4 && s[6] == 0 && s[7] == 0 && text_at(s, 8)
            == Found::At((), behind_name) && text_at(s, behind_name) == Found::At(
            (),
            behind_version,
        ) && name_at(s, behind_version) == Found::At((), behind_description) && behind_description
            < s.len() ==> match library_at(s, (behind_description + 1) as usize) {
            Found::At(_, at) => package_at(s) == listing_at(s, at, Listing::Manifest),
            other => package_at(s) == other,
        },
{
    let mark = package_mark();
    assert('M' as u8 == 0x4d && 'A' as u8 == 0x41 && 'S' as u8 == 0x53 && 'P' as u8 == 0x50);
    if s.len() >= 8 {
        let front = s.take(8);
        assert(front[0] == s[0] && front[1] == s[1] && front[2] == s[2] && front[3] == s[3]
            && front[4] == s[4] && front[5] == s[5] && front[6] == s[6] && front[7] == s[7]);
        if s[0] == 'M' as u8 && s[1] == 'A' as u8 && s[2] == 'S' as u8 && s[3] == 'P' as u8 && s[4]
            == 0 && s[5] == 4 && s[6] == 0 && s[7] == 0 {
            assert(front =~= mark);
        } else {
            assert(front != mark) by {
                if front == mark {
                    assert(mark[0] == 0x4d && mark[1] == 0x41 && mark[2] == 0x53 && mark[3] == 0x50
                        && mark[4] == 0 && mark[5] == 4 && mark[6] == 0 && mark[7] == 0);
                }
            }
        }
    }
}

/// A library is its code, and the list of what it exports behind it.
pub proof fn a_library_is_code_and_exports(s: Seq<u8>, pos: usize)
    ensures
        match forest_extent(s.skip(pos as int)) {
            Some(count) => library_at(s, pos) == listing_at(
                s,
                (pos + count) as usize,
                Listing::Library,
            ),
            None => library_at(s, pos) is Nothing,
        },
{
}


} // verus!
