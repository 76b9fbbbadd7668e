//! Changes to the advice provider, and how they are written down.
use vstd::prelude::*;
use vstd::string::*;

use crate::exec::codec::{
    read_bool, read_le, read_size, write_bool, write_le, write_size, ReadError, ReadErrorView,
};

verus! {

// ---------------------------------------------------------------------------------------------
// Values that can be written down
// ---------------------------------------------------------------------------------------------

/// A value that can be written down as bytes and read back.
pub trait Record: Sized {
    /// What the value says.
    type Content;

    spec fn content(&self) -> Self::Content;

    /// Whether the value can be read back.
    spec fn valid(content: Self::Content) -> bool;

    /// The bytes of the value.
    spec fn encoded(content: Self::Content) -> Seq<u8>;

    /// The value at the front of some bytes, and the bytes behind it.
    spec fn parsed(s: Seq<u8>) -> Result<(Self::Content, Seq<u8>), ReadErrorView>;

    /// Writing a value and reading it back gives the value, and leaves what follows.
    proof fn reads_back(content: Self::Content, rest: Seq<u8>)
        requires
            Self::valid(content),
        ensures
            Self::parsed(Self::encoded(content) + rest) == Ok::<
                (Self::Content, Seq<u8>),
                ReadErrorView,
            >((content, rest)),
    ;

    /// Appends the bytes of the value.
    fn write(&self, out: &mut Vec<u8>)
        ensures
            final(out)@ == old(out)@ + Self::encoded(self.content()),
    ;

    /// Reads a value.
    fn read(bytes: &Vec<u8>, pos: usize) -> (r: Result<(Self, usize), ReadError>)
        requires
            pos <= bytes@.len(),
        ensures
            match r {
                Ok((value, next)) => {
                    &&& next <= bytes@.len()
                    &&& Self::parsed(bytes@.skip(pos as int)) == Ok::<
                        (Self::Content, Seq<u8>),
                        ReadErrorView,
                    >((value.content(), bytes@.skip(next as int)))
                },
                Err(e) => Self::parsed(bytes@.skip(pos as int)) == Err::<
                    (Self::Content, Seq<u8>),
                    ReadErrorView,
                >(e@),
            },
    ;
}

// ---------------------------------------------------------------------------------------------
// Lists
// ---------------------------------------------------------------------------------------------

/// The bytes of some values, one after the other.
pub open spec fn items_encoded<T: Record>(items: Seq<T::Content>) -> Seq<u8>
    decreases items.len(),
{
    if items.len() == 0 {
        Seq::empty()
    } else {
        T::encoded(items[0]) + items_encoded::<T>(items.skip(1))
    }
}

/// Values put in front of what was read behind them.
pub open spec fn prepended<C>(
    first: Seq<C>,
    parsed: Result<(Seq<C>, Seq<u8>), ReadErrorView>,
) -> Result<(Seq<C>, Seq<u8>), ReadErrorView> {
    match parsed {
        Ok((items, rest)) => Ok((first + items, rest)),
        Err(e) => Err(e),
    }
}

/// `count` values at the front of some bytes.
pub open spec fn items_parsed<T: Record>(s: Seq<u8>, count: nat) -> Result<
    (Seq<T::Content>, Seq<u8>),
    ReadErrorView,
>
    decreases count,
{
    if count == 0 {
        Ok((Seq::empty(), s))
    } else {
        match T::parsed(s) {
            Ok((item, rest)) => prepended(
                seq![item],
                items_parsed::<T>(rest, (count - 1) as nat),
            ),
            Err(e) => Err(e),
        }
    }
}

/// Writing some values and reading them back gives the values, and leaves what follows.
pub proof fn items_read_back<T: Record>(items: Seq<T::Content>, rest: Seq<u8>)
    requires
        forall|i: int| 0 <= i < items.len() ==> T::valid(#[trigger] items[i]),
    ensures
        items_parsed::<T>(items_encoded::<T>(items) + rest, items.len()) == Ok::<
            (Seq<T::Content>, Seq<u8>),
            ReadErrorView,
        >((items, rest)),
    decreases items.len(),
{
    if items.len() == 0 {
        assert(items_encoded::<T>(items) + rest =~= rest);
        assert(items =~= Seq::empty());
    } else {
        let others = items.skip(1);
        assert forall|i: int| 0 <= i < others.len() implies T::valid(#[trigger] others[i]) by {
            assert(others[i] == items[i + 1]);
        }
        items_read_back::<T>(others, rest);
        let behind = items_encoded::<T>(others) + rest;
        T::reads_back(items[0], behind);
        assert(items_encoded::<T>(items) + rest =~= T::encoded(items[0]) + behind);
        assert(seq![items[0]] + others =~= items);
    }
}

proof fn items_encoded_push<T: Record>(items: Seq<T::Content>, item: T::Content)
    ensures
        items_encoded::<T>(items.push(item)) == items_encoded::<T>(items) + T::encoded(item),
    decreases items.len(),
{
    if items.len() == 0 {
        assert(items.push(item).skip(1) =~= Seq::empty());
        assert(items_encoded::<T>(items.push(item).skip(1)) =~= Seq::empty());
        assert(items_encoded::<T>(items.push(item)) =~= items_encoded::<T>(items) + T::encoded(
            item,
        ));
    } else {
        assert(items.push(item).skip(1) =~= items.skip(1).push(item));
        items_encoded_push::<T>(items.skip(1), item);
        assert(items_encoded::<T>(items.push(item)) =~= items_encoded::<T>(items) + T::encoded(
            item,
        ));
    }
}

/// What the values of a list say.
pub open spec fn contents<T: Record>(items: Seq<T>) -> Seq<T::Content> {
    items.map_values(|item: T| item.content())
}

/// A list is written as its length, followed by its values.
impl<T: Record> Record for Vec<T> {
    type Content = Seq<T::Content>;

    open spec fn content(&self) -> Seq<T::Content> {
        contents(self@)
    }

    open spec fn valid(content: Seq<T::Content>) -> bool {
        &&& content.len() <= usize::MAX
        &&& forall|i: int| 0 <= i < content.len() ==> T::valid(#[trigger] content[i])
    }

    open spec fn encoded(content: Seq<T::Content>) -> Seq<u8> {
        crate::exec::codec::size_bytes(content.len()) + items_encoded::<T>(content)
    }

    open spec fn parsed(s: Seq<u8>) -> Result<(Seq<T::Content>, Seq<u8>), ReadErrorView> {
        match crate::exec::codec::parse_size(s) {
            Ok((count, rest)) => items_parsed::<T>(rest, count as nat),
            Err(e) => Err(e),
        }
    }

    proof fn reads_back(content: Seq<T::Content>, rest: Seq<u8>) {
        let behind = items_encoded::<T>(content) + rest;
        crate::exec::codec::size_reads_back(content.len() as usize, behind);
        assert(Self::encoded(content) + rest =~= crate::exec::codec::size_bytes(content.len())
            + behind);
        items_read_back::<T>(content, rest);
    }

    fn write(&self, out: &mut Vec<u8>) {
        let count: usize = self.len();
        write_size(out, count);
        write_items(self, count, out);
        proof {
            assert(self@.take(count as int) =~= self@);
            assert(out@ =~= old(out)@ + Self::encoded(self.content()));
        }
    }

    fn read(bytes: &Vec<u8>, pos: usize) -> (r: Result<(Self, usize), ReadError>) {
        match read_size(bytes, pos) {
            Ok((count, next)) => read_items(bytes, next, count),
            Err(e) => Err(e),
        }
    }
}

/// Appends the bytes of the first `count` values.
pub fn write_items<T: Record>(items: &Vec<T>, count: usize, out: &mut Vec<u8>)
    requires
        count <= items@.len(),
    ensures
        final(out)@ == old(out)@ + items_encoded::<T>(contents(items@.take(count as int))),
{
    let ghost head = out@;
    let mut i: usize = 0;
    proof {
        assert(contents(items@.take(0)) =~= Seq::empty());
        assert(out@ =~= head + items_encoded::<T>(contents(items@.take(0))));
    }
    while i < count
        invariant
            i <= count <= items@.len(),
            out@ == head + items_encoded::<T>(contents(items@.take(i as int))),
        decreases count - i,
    {
        items[i].write(out);
        proof {
            let so_far = contents(items@.take(i as int));
            assert(contents(items@.take(i + 1)) =~= so_far.push(items@[i as int].content()));
            items_encoded_push::<T>(so_far, items@[i as int].content());
        }
        i += 1;
        proof {
            assert(out@ =~= head + items_encoded::<T>(contents(items@.take(i as int))));
        }
    }
}

/// Reads `count` values.
pub fn read_items<T: Record>(bytes: &Vec<u8>, pos: usize, count: usize) -> (r: Result<
    (Vec<T>, usize),
    ReadError,
>)
    requires
        pos <= bytes@.len(),
    ensures
        match r {
            Ok((items, next)) => {
                &&& next <= bytes@.len()
                &&& items_parsed::<T>(bytes@.skip(pos as int), count as nat) == Ok::<
                    (Seq<T::Content>, Seq<u8>),
                    ReadErrorView,
                >((contents(items@), bytes@.skip(next as int)))
                &&& items@.len() == count
            },
            Err(e) => items_parsed::<T>(bytes@.skip(pos as int), count as nat) == Err::<
                (Seq<T::Content>, Seq<u8>),
                ReadErrorView,
            >(e@),
        },
{
    let ghost whole = items_parsed::<T>(bytes@.skip(pos as int), count as nat);
    let mut items: Vec<T> = Vec::new();
    let mut at: usize = pos;
    let mut i: usize = 0;
    proof {
        assert(contents(items@) =~= Seq::empty());
        match whole {
            Ok((all, rest)) => {
                assert(contents(items@) + all =~= all);
            },
            Err(_) => {},
        }
    }
    while i < count
        invariant
            i <= count,
            at <= bytes@.len(),
            items@.len() == i,
            whole == items_parsed::<T>(bytes@.skip(pos as int), count as nat),
            whole == prepended(
                contents(items@),
                items_parsed::<T>(bytes@.skip(at as int), (count - i) as nat),
            ),
        decreases count - i,
    {
        match T::read(bytes, at) {
            Ok((item, next)) => {
                let ghost before = contents(items@);
                proof {
                    let later = items_parsed::<T>(bytes@.skip(next as int), (count - i - 1) as nat);
                    match later {
                        Ok((others, rest)) => {
                            assert(before + (seq![item.content()] + others) =~= before.push(
                                item.content(),
                            ) + others);
                        },
                        Err(_) => {},
                    }
                }
                items.push(item);
                proof {
                    assert(contents(items@) =~= before.push(item.content()));
                }
                at = next;
            },
            Err(e) => {
                return Err(e);
            },
        }
        i += 1;
    }
    proof {
        assert(contents(items@) + Seq::empty() =~= contents(items@));
    }
    Ok((items, at))
}

// ---------------------------------------------------------------------------------------------
// Field elements, words, bytes
// ---------------------------------------------------------------------------------------------

/// The number of elements of the field.
pub const MODULUS: u64 = 0xffff_ffff_0000_0001;

/// An element of the field, by its canonical value.
#[derive(Debug, Clone, Copy, PartialEq, Eq, Structural)]
pub struct Felt {
    pub value: u64,
}

/// An element is written as eight bytes, the lowest first.
impl Record for Felt {
    type Content = Felt;

    open spec fn content(&self) -> Felt {
        *self
    }

    open spec fn valid(content: Felt) -> bool {
        content.value < MODULUS
    }

    open spec fn encoded(content: Felt) -> Seq<u8> {
        crate::exec::codec::le_bytes(content.value as nat, 8)
    }

    open spec fn parsed(s: Seq<u8>) -> Result<(Felt, Seq<u8>), ReadErrorView> {
        match crate::exec::codec::parse_le(s, 8) {
            Ok((n, rest)) => if n < MODULUS {
                Ok((Felt { value: n as u64 }, rest))
            } else {
                Err(
                    ReadErrorView::InvalidValue(
                        "value "@ + crate::text::decimal(n) + " is not a valid felt"@,
                    ),
                )
            },
            Err(e) => Err(e),
        }
    }

    proof fn reads_back(content: Felt, rest: Seq<u8>) {
        crate::exec::codec::powers256();
        crate::exec::codec::le_reads_back(content.value as nat, 8, rest);
    }

    fn write(&self, out: &mut Vec<u8>) {
        write_le(out, self.value, 8);
    }

    fn read(bytes: &Vec<u8>, pos: usize) -> (r: Result<(Self, usize), ReadError>) {
        match read_le(bytes, pos, 8) {
            Ok((value, next)) => if value < MODULUS {
                Ok((Felt { value }, next))
            } else {
                let mut m = "value ".to_owned();
                m.append(crate::text::render_decimal(value).as_str());
                m.append(" is not a valid felt");
                Err(ReadError::InvalidValue(m))
            },
            Err(e) => Err(e),
        }
    }
}

/// A byte stands for itself.
impl Record for u8 {
    type Content = u8;

    open spec fn content(&self) -> u8 {
        *self
    }

    open spec fn valid(content: u8) -> bool {
        true
    }

    open spec fn encoded(content: u8) -> Seq<u8> {
        seq![content]
    }

    open spec fn parsed(s: Seq<u8>) -> Result<(u8, Seq<u8>), ReadErrorView> {
        if s.len() == 0 {
            Err(ReadErrorView::UnexpectedEof)
        } else {
            Ok((s[0], s.skip(1)))
        }
    }

    proof fn reads_back(content: u8, rest: Seq<u8>) {
        assert((seq![content] + rest).skip(1) =~= rest);
    }

    fn write(&self, out: &mut Vec<u8>) {
        out.push(*self);
        proof {
            assert(out@ =~= old(out)@ + seq![*self]);
        }
    }

    fn read(bytes: &Vec<u8>, pos: usize) -> (r: Result<(Self, usize), ReadError>) {
        let total: usize = bytes.len();
        if pos == total {
            return Err(ReadError::UnexpectedEof);
        }
        proof {
            assert(bytes@.skip(pos as int).skip(1) =~= bytes@.skip(pos + 1));
        }
        Ok((bytes[pos], pos + 1))
    }
}

/// A number of thirty-two bits is written as four bytes, the lowest first.
impl Record for u32 {
    type Content = u32;

    open spec fn content(&self) -> u32 {
        *self
    }

    open spec fn valid(content: u32) -> bool {
        true
    }

    open spec fn encoded(content: u32) -> Seq<u8> {
        crate::exec::codec::le_bytes(content as nat, 4)
    }

    open spec fn parsed(s: Seq<u8>) -> Result<(u32, Seq<u8>), ReadErrorView> {
        match crate::exec::codec::parse_le(s, 4) {
            Ok((n, rest)) => Ok((n as u32, rest)),
            Err(e) => Err(e),
        }
    }

    proof fn reads_back(content: u32, rest: Seq<u8>) {
        crate::exec::codec::powers256();
        crate::exec::codec::le_reads_back(content as nat, 4, rest);
    }

    fn write(&self, out: &mut Vec<u8>) {
        write_le(out, *self as u64, 4);
    }

    fn read(bytes: &Vec<u8>, pos: usize) -> (r: Result<(Self, usize), ReadError>) {
        proof {
            crate::exec::codec::powers256();
        }
        match read_le(bytes, pos, 4) {
            Ok((value, next)) => Ok((value as u32, next)),
            Err(e) => Err(e),
        }
    }
}

/// A size takes up as many bytes as it needs.
impl Record for usize {
    type Content = usize;

    open spec fn content(&self) -> usize {
        *self
    }

    open spec fn valid(content: usize) -> bool {
        true
    }

    open spec fn encoded(content: usize) -> Seq<u8> {
        crate::exec::codec::size_bytes(content as nat)
    }

    open spec fn parsed(s: Seq<u8>) -> Result<(usize, Seq<u8>), ReadErrorView> {
        crate::exec::codec::parse_size(s)
    }

    proof fn reads_back(content: usize, rest: Seq<u8>) {
        crate::exec::codec::size_reads_back(content, rest);
    }

    fn write(&self, out: &mut Vec<u8>) {
        write_size(out, *self);
    }

    fn read(bytes: &Vec<u8>, pos: usize) -> (r: Result<(Self, usize), ReadError>) {
        read_size(bytes, pos)
    }
}

/// A truth value is written as a byte.
impl Record for bool {
    type Content = bool;

    open spec fn content(&self) -> bool {
        *self
    }

    open spec fn valid(content: bool) -> bool {
        true
    }

    open spec fn encoded(content: bool) -> Seq<u8> {
        crate::exec::codec::bool_bytes(content)
    }

    open spec fn parsed(s: Seq<u8>) -> Result<(bool, Seq<u8>), ReadErrorView> {
        crate::exec::codec::parse_bool(s)
    }

    proof fn reads_back(content: bool, rest: Seq<u8>) {
        assert((crate::exec::codec::bool_bytes(content) + rest).skip(1) =~= rest);
    }

    fn write(&self, out: &mut Vec<u8>) {
        write_bool(out, *self);
    }

    fn read(bytes: &Vec<u8>, pos: usize) -> (r: Result<(Self, usize), ReadError>) {
        read_bool(bytes, pos)
    }
}

/// A pair is written as its first value, followed by its second.
impl<A: Record, B: Record> Record for (A, B) {
    type Content = (A::Content, B::Content);

    open spec fn content(&self) -> (A::Content, B::Content) {
        (self.0.content(), self.1.content())
    }

    open spec fn valid(content: (A::Content, B::Content)) -> bool {
        A::valid(content.0) && B::valid(content.1)
    }

    open spec fn encoded(content: (A::Content, B::Content)) -> Seq<u8> {
        A::encoded(content.0) + B::encoded(content.1)
    }

    open spec fn parsed(s: Seq<u8>) -> Result<
        ((A::Content, B::Content), Seq<u8>),
        ReadErrorView,
    > {
        match A::parsed(s) {
            Err(e) => Err(e),
            Ok((a, s)) => match B::parsed(s) {
                Err(e) => Err(e),
                Ok((b, s)) => Ok(((a, b), s)),
            },
        }
    }

    proof fn reads_back(content: (A::Content, B::Content), rest: Seq<u8>) {
        let behind = B::encoded(content.1) + rest;
        B::reads_back(content.1, rest);
        A::reads_back(content.0, behind);
        assert(Self::encoded(content) + rest =~= A::encoded(content.0) + behind);
    }

    fn write(&self, out: &mut Vec<u8>) {
        self.0.write(out);
        self.1.write(out);
        proof {
            assert(out@ =~= old(out)@ + Self::encoded(self.content()));
        }
    }

    fn read(bytes: &Vec<u8>, pos: usize) -> (r: Result<(Self, usize), ReadError>) {
        match A::read(bytes, pos) {
            Err(e) => Err(e),
            Ok((a, pos)) => match B::read(bytes, pos) {
                Err(e) => Err(e),
                Ok((b, pos)) => Ok(((a, b), pos)),
            },
        }
    }
}

/// Four elements.
#[derive(Debug, Clone, Copy, PartialEq, Eq, Structural)]
pub struct Word {
    pub a: Felt,
    pub b: Felt,
    pub c: Felt,
    pub d: Felt,
}

impl Word {
    /// The elements of the word.
    pub open spec fn elements(self) -> Seq<Felt> {
        seq![self.a, self.b, self.c, self.d]
    }
}

/// A word is written as its four elements.
impl Record for Word {
    type Content = Word;

    open spec fn content(&self) -> Word {
        *self
    }

    open spec fn valid(content: Word) -> bool {
        Felt::valid(content.a) && Felt::valid(content.b) && Felt::valid(content.c) && Felt::valid(
            content.d,
        )
    }

    open spec fn encoded(content: Word) -> Seq<u8> {
        Felt::encoded(content.a) + Felt::encoded(content.b) + Felt::encoded(content.c)
            + Felt::encoded(content.d)
    }

    open spec fn parsed(s: Seq<u8>) -> Result<(Word, Seq<u8>), ReadErrorView> {
        match Felt::parsed(s) {
            Err(e) => Err(e),
            Ok((a, s)) => match Felt::parsed(s) {
                Err(e) => Err(e),
                Ok((b, s)) => match Felt::parsed(s) {
                    Err(e) => Err(e),
                    Ok((c, s)) => match Felt::parsed(s) {
                        Err(e) => Err(e),
                        Ok((d, s)) => Ok((Word { a, b, c, d }, s)),
                    },
                },
            },
        }
    }

    proof fn reads_back(content: Word, rest: Seq<u8>) {
        let d = Felt::encoded(content.d) + rest;
        let c = Felt::encoded(content.c) + d;
        let b = Felt::encoded(content.b) + c;
        Felt::reads_back(content.d, rest);
        Felt::reads_back(content.c, d);
        Felt::reads_back(content.b, c);
        Felt::reads_back(content.a, b);
        assert(Self::encoded(content) + rest =~= Felt::encoded(content.a) + b);
    }

    fn write(&self, out: &mut Vec<u8>) {
        self.a.write(out);
        self.b.write(out);
        self.c.write(out);
        self.d.write(out);
        proof {
            assert(out@ =~= old(out)@ + Self::encoded(*self));
        }
    }

    fn read(bytes: &Vec<u8>, pos: usize) -> (r: Result<(Self, usize), ReadError>) {
        match Felt::read(bytes, pos) {
            Err(e) => Err(e),
            Ok((a, pos)) => match Felt::read(bytes, pos) {
                Err(e) => Err(e),
                Ok((b, pos)) => match Felt::read(bytes, pos) {
                    Err(e) => Err(e),
                    Ok((c, pos)) => match Felt::read(bytes, pos) {
                        Err(e) => Err(e),
                        Ok((d, pos)) => Ok((Word { a, b, c, d }, pos)),
                    },
                },
            },
        }
    }
}

// ---------------------------------------------------------------------------------------------
// Changes to the advice provider
// ---------------------------------------------------------------------------------------------

proof fn three_in_a_row(a: Seq<u8>, b: Seq<u8>, c: Seq<u8>)
    ensures
        a + b + c == a + (b + c),
{
    assert(a + b + c =~= a + (b + c));
}

/// An entry of the advice map.
#[derive(Debug)]
pub struct MapEntry {
    pub key: Word,
    pub values: Vec<Felt>,
}

/// What a [`MapEntry`] says.
pub struct MapEntryView {
    pub key: Word,
    pub values: Seq<Felt>,
}

/// An entry is written as its key, followed by its values.
impl Record for MapEntry {
    type Content = MapEntryView;

    open spec fn content(&self) -> MapEntryView {
        MapEntryView { key: self.key, values: self.values.content() }
    }

    open spec fn valid(content: MapEntryView) -> bool {
        Word::valid(content.key) && Vec::<Felt>::valid(content.values)
    }

    open spec fn encoded(content: MapEntryView) -> Seq<u8> {
        Word::encoded(content.key) + Vec::<Felt>::encoded(content.values)
    }

    open spec fn parsed(s: Seq<u8>) -> Result<(MapEntryView, Seq<u8>), ReadErrorView> {
        match Word::parsed(s) {
            Err(e) => Err(e),
            Ok((key, s)) => match Vec::<Felt>::parsed(s) {
                Err(e) => Err(e),
                Ok((values, s)) => Ok((MapEntryView { key, values }, s)),
            },
        }
    }

    proof fn reads_back(content: MapEntryView, rest: Seq<u8>) {
        let behind = Vec::<Felt>::encoded(content.values) + rest;
        Vec::<Felt>::reads_back(content.values, rest);
        Word::reads_back(content.key, behind);
        three_in_a_row(Word::encoded(content.key), Vec::<Felt>::encoded(content.values), rest);
    }

    fn write(&self, out: &mut Vec<u8>) {
        self.key.write(out);
        self.values.write(out);
        proof {
            assert(out@ =~= old(out)@ + Self::encoded(self.content()));
        }
    }

    fn read(bytes: &Vec<u8>, pos: usize) -> (r: Result<(Self, usize), ReadError>) {
        match Word::read(bytes, pos) {
            Err(e) => Err(e),
            Ok((key, pos)) => match Vec::<Felt>::read(bytes, pos) {
                Err(e) => Err(e),
                Ok((values, pos)) => Ok((MapEntry { key, values }, pos)),
            },
        }
    }
}

/// An inner node of a Merkle tree.
#[derive(Debug, Clone, Copy, PartialEq, Eq, Structural)]
pub struct InnerNodeInfo {
    pub value: Word,
    pub left: Word,
    pub right: Word,
}

/// An inner node is written as its value, followed by its children.
impl Record for InnerNodeInfo {
    type Content = InnerNodeInfo;

    open spec fn content(&self) -> InnerNodeInfo {
        *self
    }

    open spec fn valid(content: InnerNodeInfo) -> bool {
        Word::valid(content.value) && Word::valid(content.left) && Word::valid(content.right)
    }

    open spec fn encoded(content: InnerNodeInfo) -> Seq<u8> {
        Word::encoded(content.value) + Word::encoded(content.left) + Word::encoded(content.right)
    }

    open spec fn parsed(s: Seq<u8>) -> Result<(InnerNodeInfo, Seq<u8>), ReadErrorView> {
        match Word::parsed(s) {
            Err(e) => Err(e),
            Ok((value, s)) => match Word::parsed(s) {
                Err(e) => Err(e),
                Ok((left, s)) => match Word::parsed(s) {
                    Err(e) => Err(e),
                    Ok((right, s)) => Ok((InnerNodeInfo { value, left, right }, s)),
                },
            },
        }
    }

    proof fn reads_back(content: InnerNodeInfo, rest: Seq<u8>) {
        let right = Word::encoded(content.right) + rest;
        let left = Word::encoded(content.left) + right;
        Word::reads_back(content.right, rest);
        Word::reads_back(content.left, right);
        Word::reads_back(content.value, left);
        assert(Self::encoded(content) + rest =~= Word::encoded(content.value) + left);
    }

    fn write(&self, out: &mut Vec<u8>) {
        self.value.write(out);
        self.left.write(out);
        self.right.write(out);
        proof {
            assert(out@ =~= old(out)@ + Self::encoded(*self));
        }
    }

    fn read(bytes: &Vec<u8>, pos: usize) -> (r: Result<(Self, usize), ReadError>) {
        match Word::read(bytes, pos) {
            Err(e) => Err(e),
            Ok((value, pos)) => match Word::read(bytes, pos) {
                Err(e) => Err(e),
                Ok((left, pos)) => match Word::read(bytes, pos) {
                    Err(e) => Err(e),
                    Ok((right, pos)) => Ok((InnerNodeInfo { value, left, right }, pos)),
                },
            },
        }
    }
}

/// A call of a precompiled function.
#[derive(Debug)]
pub struct PrecompileRequest {
    pub event_id: Felt,
    pub calldata: Vec<u8>,
}

/// What a [`PrecompileRequest`] says.
pub struct PrecompileView {
    pub event_id: Felt,
    pub calldata: Seq<u8>,
}

/// A call is written as the event it belongs to, followed by its data.
impl Record for PrecompileRequest {
    type Content = PrecompileView;

    open spec fn content(&self) -> PrecompileView {
        PrecompileView { event_id: self.event_id, calldata: self.calldata.content() }
    }

    open spec fn valid(content: PrecompileView) -> bool {
        Felt::valid(content.event_id) && Vec::<u8>::valid(content.calldata)
    }

    open spec fn encoded(content: PrecompileView) -> Seq<u8> {
        Felt::encoded(content.event_id) + Vec::<u8>::encoded(content.calldata)
    }

    open spec fn parsed(s: Seq<u8>) -> Result<(PrecompileView, Seq<u8>), ReadErrorView> {
        match Felt::parsed(s) {
            Err(e) => Err(e),
            Ok((event_id, s)) => match Vec::<u8>::parsed(s) {
                Err(e) => Err(e),
                Ok((calldata, s)) => Ok((PrecompileView { event_id, calldata }, s)),
            },
        }
    }

    proof fn reads_back(content: PrecompileView, rest: Seq<u8>) {
        let behind = Vec::<u8>::encoded(content.calldata) + rest;
        Vec::<u8>::reads_back(content.calldata, rest);
        Felt::reads_back(content.event_id, behind);
        assert(Self::encoded(content) + rest =~= Felt::encoded(content.event_id) + behind);
    }

    fn write(&self, out: &mut Vec<u8>) {
        self.event_id.write(out);
        self.calldata.write(out);
        proof {
            assert(out@ =~= old(out)@ + Self::encoded(self.content()));
        }
    }

    fn read(bytes: &Vec<u8>, pos: usize) -> (r: Result<(Self, usize), ReadError>) {
        match Felt::read(bytes, pos) {
            Err(e) => Err(e),
            Ok((event_id, pos)) => match Vec::<u8>::read(bytes, pos) {
                Err(e) => Err(e),
                Ok((calldata, pos)) => Ok((PrecompileRequest { event_id, calldata }, pos)),
            },
        }
    }
}

/// A change to the advice provider that an event handler asks for.
#[derive(Debug)]
pub enum AdviceMutation {
    ExtendStack { values: Vec<Felt> },
    ExtendMap { entries: Vec<MapEntry> },
    ExtendMerkleStore { infos: Vec<InnerNodeInfo> },
    ExtendPrecompileRequests { data: Vec<PrecompileRequest> },
}

/// What an [`AdviceMutation`] says.
pub enum MutationView {
    ExtendStack { values: Seq<Felt> },
    ExtendMap { entries: Seq<MapEntryView> },
    ExtendMerkleStore { infos: Seq<InnerNodeInfo> },
    ExtendPrecompileRequests { data: Seq<PrecompileView> },
}

/// The byte that announces elements for the advice stack.
pub const TAG_STACK: u8 = 0;

/// The byte that announces entries for the advice map.
pub const TAG_MAP: u8 = 1;

/// The byte that announces inner nodes for the Merkle store.
pub const TAG_MERKLE_STORE: u8 = 2;

/// The byte that announces calls of precompiled functions.
pub const TAG_PRECOMPILES: u8 = 3;

/// A value behind a byte that announces it reads back.
proof fn tagged_reads_back<T: Record>(tag: u8, content: T::Content, rest: Seq<u8>)
    requires
        T::valid(content),
    ensures
        ({
            let s = seq![tag] + T::encoded(content) + rest;
            &&& u8::parsed(s) == Ok::<(u8, Seq<u8>), ReadErrorView>((tag, s.skip(1)))
            &&& T::parsed(s.skip(1)) == Ok::<(T::Content, Seq<u8>), ReadErrorView>((content, rest))
        }),
{
    let s = seq![tag] + T::encoded(content) + rest;
    T::reads_back(content, rest);
    assert(s.skip(1) =~= T::encoded(content) + rest);
}

proof fn stack_reads_back(values: Seq<Felt>, rest: Seq<u8>)
    requires
        Vec::<Felt>::valid(values),
    ensures
        ({
            let content = MutationView::ExtendStack { values };
            AdviceMutation::parsed(AdviceMutation::encoded(content) + rest) == Ok::<
                (MutationView, Seq<u8>),
                ReadErrorView,
            >((content, rest))
        }),
{
    tagged_reads_back::<Vec<Felt>>(TAG_STACK, values, rest);
}

proof fn map_reads_back(entries: Seq<MapEntryView>, rest: Seq<u8>)
    requires
        Vec::<MapEntry>::valid(entries),
    ensures
        ({
            let content = MutationView::ExtendMap { entries };
            AdviceMutation::parsed(AdviceMutation::encoded(content) + rest) == Ok::<
                (MutationView, Seq<u8>),
                ReadErrorView,
            >((content, rest))
        }),
{
    tagged_reads_back::<Vec<MapEntry>>(TAG_MAP, entries, rest);
}

proof fn merkle_store_reads_back(infos: Seq<InnerNodeInfo>, rest: Seq<u8>)
    requires
        Vec::<InnerNodeInfo>::valid(infos),
    ensures
        ({
            let content = MutationView::ExtendMerkleStore { infos };
            AdviceMutation::parsed(AdviceMutation::encoded(content) + rest) == Ok::<
                (MutationView, Seq<u8>),
                ReadErrorView,
            >((content, rest))
        }),
{
    tagged_reads_back::<Vec<InnerNodeInfo>>(TAG_MERKLE_STORE, infos, rest);
}

proof fn precompiles_read_back(data: Seq<PrecompileView>, rest: Seq<u8>)
    requires
        Vec::<PrecompileRequest>::valid(data),
    ensures
        ({
            let content = MutationView::ExtendPrecompileRequests { data };
            AdviceMutation::parsed(AdviceMutation::encoded(content) + rest) == Ok::<
                (MutationView, Seq<u8>),
                ReadErrorView,
            >((content, rest))
        }),
{
    tagged_reads_back::<Vec<PrecompileRequest>>(TAG_PRECOMPILES, data, rest);
}

/// A change is written as a byte that tells its kind, followed by what it adds.
impl Record for AdviceMutation {
    type Content = MutationView;

    open spec fn content(&self) -> MutationView {
        match self {
            AdviceMutation::ExtendStack { values } => MutationView::ExtendStack {
                values: values.content(),
            },
            AdviceMutation::ExtendMap { entries } => MutationView::ExtendMap {
                entries: entries.content(),
            },
            AdviceMutation::ExtendMerkleStore { infos } => MutationView::ExtendMerkleStore {
                infos: infos.content(),
            },
            AdviceMutation::ExtendPrecompileRequests { data } =>
                MutationView::ExtendPrecompileRequests { data: data.content() },
        }
    }

    open spec fn valid(content: MutationView) -> bool {
        match content {
            MutationView::ExtendStack { values } => Vec::<Felt>::valid(values),
            MutationView::ExtendMap { entries } => Vec::<MapEntry>::valid(entries),
            MutationView::ExtendMerkleStore { infos } => Vec::<InnerNodeInfo>::valid(infos),
            MutationView::ExtendPrecompileRequests { data } => Vec::<PrecompileRequest>::valid(
                data,
            ),
        }
    }

    open spec fn encoded(content: MutationView) -> Seq<u8> {
        match content {
            MutationView::ExtendStack { values } => seq![TAG_STACK] + Vec::<Felt>::encoded(values),
            MutationView::ExtendMap { entries } => seq![TAG_MAP] + Vec::<MapEntry>::encoded(
                entries,
            ),
            MutationView::ExtendMerkleStore { infos } => seq![TAG_MERKLE_STORE] + Vec::<
                InnerNodeInfo,
            >::encoded(infos),
            MutationView::ExtendPrecompileRequests { data } => seq![TAG_PRECOMPILES] + Vec::<
                PrecompileRequest,
            >::encoded(data),
        }
    }

    open spec fn parsed(s: Seq<u8>) -> Result<(MutationView, Seq<u8>), ReadErrorView> {
        match u8::parsed(s) {
            Err(e) => Err(e),
            Ok((tag, s)) => if tag == TAG_STACK {
                match Vec::<Felt>::parsed(s) {
                    Ok((values, s)) => Ok((MutationView::ExtendStack { values }, s)),
                    Err(e) => Err(e),
                }
            } else if tag == TAG_MAP {
                match Vec::<MapEntry>::parsed(s) {
                    Ok((entries, s)) => Ok((MutationView::ExtendMap { entries }, s)),
                    Err(e) => Err(e),
                }
            } else if tag == TAG_MERKLE_STORE {
                match Vec::<InnerNodeInfo>::parsed(s) {
                    Ok((infos, s)) => Ok((MutationView::ExtendMerkleStore { infos }, s)),
                    Err(e) => Err(e),
                }
            } else if tag == TAG_PRECOMPILES {
                match Vec::<PrecompileRequest>::parsed(s) {
                    Ok((data, s)) => Ok((MutationView::ExtendPrecompileRequests { data }, s)),
                    Err(e) => Err(e),
                }
            } else {
                Err(
                    ReadErrorView::InvalidValue(
                        "invalid advice mutation tag "@ + crate::text::decimal(tag as nat),
                    ),
                )
            },
        }
    }

    proof fn reads_back(content: MutationView, rest: Seq<u8>) {
        match content {
            MutationView::ExtendStack { values } => {
                stack_reads_back(values, rest);
            },
            MutationView::ExtendMap { entries } => {
                map_reads_back(entries, rest);
            },
            MutationView::ExtendMerkleStore { infos } => {
                merkle_store_reads_back(infos, rest);
            },
            MutationView::ExtendPrecompileRequests { data } => {
                precompiles_read_back(data, rest);
            },
        }
    }

    fn write(&self, out: &mut Vec<u8>) {
        match self {
            AdviceMutation::ExtendStack { values } => {
                TAG_STACK.write(out);
                values.write(out);
            },
            AdviceMutation::ExtendMap { entries } => {
                TAG_MAP.write(out);
                entries.write(out);
            },
            AdviceMutation::ExtendMerkleStore { infos } => {
                TAG_MERKLE_STORE.write(out);
                infos.write(out);
            },
            AdviceMutation::ExtendPrecompileRequests { data } => {
                TAG_PRECOMPILES.write(out);
                data.write(out);
            },
        }
        proof {
            assert(out@ =~= old(out)@ + Self::encoded(self.content()));
        }
    }

    fn read(bytes: &Vec<u8>, pos: usize) -> (r: Result<(Self, usize), ReadError>) {
        match u8::read(bytes, pos) {
            Err(e) => Err(e),
            Ok((tag, pos)) => if tag == TAG_STACK {
                match Vec::<Felt>::read(bytes, pos) {
                    Ok((values, pos)) => Ok((AdviceMutation::ExtendStack { values }, pos)),
                    Err(e) => Err(e),
                }
            } else if tag == TAG_MAP {
                match Vec::<MapEntry>::read(bytes, pos) {
                    Ok((entries, pos)) => Ok((AdviceMutation::ExtendMap { entries }, pos)),
                    Err(e) => Err(e),
                }
            } else if tag == TAG_MERKLE_STORE {
                match Vec::<InnerNodeInfo>::read(bytes, pos) {
                    Ok((infos, pos)) => Ok((AdviceMutation::ExtendMerkleStore { infos }, pos)),
                    Err(e) => Err(e),
                }
            } else if tag == TAG_PRECOMPILES {
                match Vec::<PrecompileRequest>::read(bytes, pos) {
                    Ok((data, pos)) => Ok((AdviceMutation::ExtendPrecompileRequests { data }, pos)),
                    Err(e) => Err(e),
                }
            } else {
                let mut m = "invalid advice mutation tag ".to_owned();
                m.append(crate::text::render_decimal(tag as u64).as_str());
                Err(ReadError::InvalidValue(m))
            },
        }
    }
}

// ---------------------------------------------------------------------------------------------
// What holds of all that is written down
// ---------------------------------------------------------------------------------------------

/// An element takes up eight bytes, the lowest first; bytes that make no element of the field are
/// refused.
pub proof fn elements_take_up_eight_bytes(e: Felt, s: Seq<u8>)
    ensures
        Felt::encoded(e).len() == 8,
        crate::exec::codec::le_number(Felt::encoded(e)) == e.value,
        Felt::valid(e) <==> e.value < 0xffff_ffff_0000_0001u64,
        match Felt::parsed(s) {
            Ok((read, rest)) => {
                &&& s.len() >= 8
                &&& read.value == crate::exec::codec::le_number(s.take(8))
                &&& read.value < 0xffff_ffff_0000_0001u64
                &&& rest == s.skip(8)
            },
            Err(ReadErrorView::UnexpectedEof) => s.len() < 8,
            Err(ReadErrorView::InvalidValue(_)) => s.len() >= 8 && crate::exec::codec::le_number(
                s.take(8),
            ) >= 0xffff_ffff_0000_0001u64,
            Err(_) => false,
        },
{
    crate::exec::codec::powers256();
    crate::exec::codec::le_bytes_make_the_number(e.value as nat, 8);
}

/// Smaller numbers take up four bytes, the lowest first, and bytes stand for themselves.
pub proof fn numbers_take_up_their_bytes(n: u32, b: u8)
    ensures
        u32::encoded(n).len() == 4,
        crate::exec::codec::le_number(u32::encoded(n)) == n,
        u8::encoded(b) == seq![b],
{
    crate::exec::codec::powers256();
    crate::exec::codec::le_bytes_make_the_number(n as nat, 4);
}

/// A word takes up the bytes of its four elements, in order.
pub proof fn words_take_up_their_elements(w: Word)
    ensures
        Word::encoded(w).len() == 32,
        Word::encoded(w).subrange(0, 8) == Felt::encoded(w.a),
        Word::encoded(w).subrange(8, 16) == Felt::encoded(w.b),
        Word::encoded(w).subrange(16, 24) == Felt::encoded(w.c),
        Word::encoded(w).subrange(24, 32) == Felt::encoded(w.d),
        w.elements().len() == 4,
        w.elements()[0] == w.a && w.elements()[1] == w.b && w.elements()[2] == w.c
            && w.elements()[3] == w.d,
{
    elements_take_up_eight_bytes(w.a, Seq::empty());
    elements_take_up_eight_bytes(w.b, Seq::empty());
    elements_take_up_eight_bytes(w.c, Seq::empty());
    elements_take_up_eight_bytes(w.d, Seq::empty());
    let s = Word::encoded(w);
    assert(s.subrange(0, 8) =~= Felt::encoded(w.a));
    assert(s.subrange(8, 16) =~= Felt::encoded(w.b));
    assert(s.subrange(16, 24) =~= Felt::encoded(w.c));
    assert(s.subrange(24, 32) =~= Felt::encoded(w.d));
}

/// The bytes of lists that follow each other follow each other; and a list takes up the bytes of its
/// length, and then those of its values.
pub proof fn lists_take_up_their_values<T: Record>(
    first: Seq<T::Content>,
    item: T::Content,
    later: Seq<T::Content>,
)
    ensures
        items_encoded::<T>(first + later) == items_encoded::<T>(first) + items_encoded::<T>(later),
        items_encoded::<T>(seq![item]) == T::encoded(item),
        items_encoded::<T>(Seq::empty()).len() == 0,
        Vec::<T>::encoded(first) == crate::exec::codec::size_bytes(first.len()) + items_encoded::<T>(
            first,
        ),
    decreases first.len(),
{
    assert(seq![item].skip(1) =~= Seq::<T::Content>::empty());
    assert(items_encoded::<T>(seq![item].skip(1)) =~= Seq::<u8>::empty());
    assert(items_encoded::<T>(seq![item]) =~= T::encoded(item));
    if first.len() == 0 {
        assert(first + later =~= later);
        assert(items_encoded::<T>(first) + items_encoded::<T>(later) =~= items_encoded::<T>(later));
    } else {
        lists_take_up_their_values::<T>(first.skip(1), item, later);
        assert((first + later).skip(1) =~= first.skip(1) + later);
        assert(items_encoded::<T>(first + later) =~= items_encoded::<T>(first) + items_encoded::<T>(
            later,
        ));
    }
}

/// Entries, nodes and calls take up the bytes of what they hold: an entry those of its key and then
/// of its values, a node those of its value, its left and its right child, a call those of its event
/// and then of its data.
pub proof fn parts_follow_each_other(
    entry: MapEntryView,
    node: InnerNodeInfo,
    call: PrecompileView,
)
    ensures
        MapEntry::encoded(entry).take(32) == Word::encoded(entry.key),
        MapEntry::encoded(entry).skip(32) == Vec::<Felt>::encoded(entry.values),
        InnerNodeInfo::encoded(node).len() == 96,
        InnerNodeInfo::encoded(node).subrange(0, 32) == Word::encoded(node.value),
        InnerNodeInfo::encoded(node).subrange(32, 64) == Word::encoded(node.left),
        InnerNodeInfo::encoded(node).subrange(64, 96) == Word::encoded(node.right),
        PrecompileRequest::encoded(call).take(8) == Felt::encoded(call.event_id),
        PrecompileRequest::encoded(call).skip(8) == Vec::<u8>::encoded(call.calldata),
{
    words_take_up_their_elements(entry.key);
    words_take_up_their_elements(node.value);
    words_take_up_their_elements(node.left);
    words_take_up_their_elements(node.right);
    elements_take_up_eight_bytes(call.event_id, Seq::empty());
    let (e, n, c) = (
        MapEntry::encoded(entry),
        InnerNodeInfo::encoded(node),
        PrecompileRequest::encoded(call),
    );
    assert(e.take(32) =~= Word::encoded(entry.key));
    assert(e.skip(32) =~= Vec::<Felt>::encoded(entry.values));
    assert(n.subrange(0, 32) =~= Word::encoded(node.value));
    assert(n.subrange(32, 64) =~= Word::encoded(node.left));
    assert(n.subrange(64, 96) =~= Word::encoded(node.right));
    assert(c.take(8) =~= Felt::encoded(call.event_id));
    assert(c.skip(8) =~= Vec::<u8>::encoded(call.calldata));
}

/// The first byte of a change tells what it adds to: 0 to the stack, 1 to the map, 2 to the Merkle
/// store, 3 to the calls of precompiled functions. What it adds follows.
pub proof fn changes_are_told_apart_by_their_first_byte(change: MutationView)
    ensures
        ({
            let s = AdviceMutation::encoded(change);
            &&& s.len() > 0
            &&& match change {
                MutationView::ExtendStack { values } => s[0] == 0 && s.skip(1) == Vec::<
                    Felt,
                >::encoded(values),
                MutationView::ExtendMap { entries } => s[0] == 1 && s.skip(1) == Vec::<
                    MapEntry,
                >::encoded(entries),
                MutationView::ExtendMerkleStore { infos } => s[0] == 2 && s.skip(1) == Vec::<
                    InnerNodeInfo,
                >::encoded(infos),
                MutationView::ExtendPrecompileRequests { data } => s[0] == 3 && s.skip(1) == Vec::<
                    PrecompileRequest,
                >::encoded(data),
            }
        }),
{
    let s = AdviceMutation::encoded(change);
    match change {
        MutationView::ExtendStack { values } => {
            assert(s.skip(1) =~= Vec::<Felt>::encoded(values));
        },
        MutationView::ExtendMap { entries } => {
            assert(s.skip(1) =~= Vec::<MapEntry>::encoded(entries));
        },
        MutationView::ExtendMerkleStore { infos } => {
            assert(s.skip(1) =~= Vec::<InnerNodeInfo>::encoded(infos));
        },
        MutationView::ExtendPrecompileRequests { data } => {
            assert(s.skip(1) =~= Vec::<PrecompileRequest>::encoded(data));
        },
    }
}

/// A change of no known kind is refused.
pub proof fn unknown_changes_are_refused(s: Seq<u8>)
    requires
        s.len() > 0,
        s[0] > 3,
    ensures
        AdviceMutation::parsed(s) matches Err(ReadErrorView::InvalidValue(_)),
{
}

/// What is written of a value is all that it holds.
pub proof fn values_are_written_in_full(
    entry: MapEntry,
    call: PrecompileRequest,
    change: AdviceMutation,
)
    ensures
        entry.content().key == entry.key,
        entry.content().values == entry.values@,
        call.content().event_id == call.event_id,
        call.content().calldata == call.calldata@,
        match change {
            AdviceMutation::ExtendStack { values } => change.content() == (
            MutationView::ExtendStack { values: values@ }),
            AdviceMutation::ExtendMap { entries } => {
                &&& change.content() matches MutationView::ExtendMap { entries: said }
                &&& said.len() == entries@.len()
                &&& forall|i: int|
                    0 <= i < said.len() ==> #[trigger] said[i] == (MapEntryView {
                        key: entries@[i].key,
                        values: entries@[i].values@,
                    })
            },
            AdviceMutation::ExtendMerkleStore { infos } => change.content() == (
            MutationView::ExtendMerkleStore { infos: infos@ }),
            AdviceMutation::ExtendPrecompileRequests { data } => {
                &&& change.content() matches MutationView::ExtendPrecompileRequests { data: said }
                &&& said.len() == data@.len()
                &&& forall|i: int|
                    0 <= i < said.len() ==> #[trigger] said[i] == (PrecompileView {
                        event_id: data@[i].event_id,
                        calldata: data@[i].calldata@,
                    })
            },
        },
{
    assert(entry.values.content() =~= entry.values@);
    assert(call.calldata.content() =~= call.calldata@);
    match change {
        AdviceMutation::ExtendStack { values } => {
            assert(values.content() =~= values@);
        },
        AdviceMutation::ExtendMap { entries } => {
            assert forall|i: int| 0 <= i < entries@.len() implies #[trigger] entries.content()[i]
                == (MapEntryView { key: entries@[i].key, values: entries@[i].values@ }) by {
                assert(entries@[i].values.content() =~= entries@[i].values@);
            }
        },
        AdviceMutation::ExtendMerkleStore { infos } => {
            assert(infos.content() =~= infos@);
        },
        AdviceMutation::ExtendPrecompileRequests { data } => {
            assert forall|i: int| 0 <= i < data@.len() implies #[trigger] data.content()[i] == (
            PrecompileView { event_id: data@[i].event_id, calldata: data@[i].calldata@ }) by {
                assert(data@[i].calldata.content() =~= data@[i].calldata@);
            }
        },
    }
}

} // verus!
