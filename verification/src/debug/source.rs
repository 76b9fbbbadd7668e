//! Source files, and positions in them.
use miden_debug_types::{ByteIndex, LineIndex, SourceContent};
use vstd::prelude::*;
use vstd::string::*;

use crate::debug::op::Location;

verus! {

// ---------------------------------------------------------------------------------------------
// Positions in a text
// ---------------------------------------------------------------------------------------------

/// How many line breaks stand in a text.
pub open spec fn line_breaks(text: Seq<char>) -> nat
    decreases text.len(),
{
    if text.len() == 0 {
        0
    } else {
        line_breaks(text.drop_last()) + (if text.last() == '\n' {
            1nat
        } else {
            0nat
        })
    }
}

/// How many characters stand behind the last line break of a text.
pub open spec fn last_line_len(text: Seq<char>) -> nat
    decreases text.len(),
{
    if text.len() == 0 || text.last() == '\n' {
        0
    } else {
        last_line_len(text.drop_last()) + 1
    }
}

/// The number of bytes a text takes up.
pub open spec fn byte_len(text: Seq<char>) -> nat {
    vstd::utf8::encode_utf8(text).len()
}

/// Whether the byte offset `byte` lies in front of the character `at` of `text`, or at its end.
pub open spec fn is_boundary(text: Seq<char>, at: int, byte: int) -> bool {
    0 <= at <= text.len() && byte_len(text.take(at)) == byte
}

/// Whether the byte offset lies between two characters of `text`, or at one of its ends.
pub open spec fn in_bounds(text: Seq<char>, byte: int) -> bool {
    exists|at: int| is_boundary(text, at, byte)
}

/// The line and the column, both counted from one, of the byte offset `byte` in `text`; none where
/// the offset is not between two characters.
pub open spec fn position_of(text: Seq<char>, byte: int) -> Option<(nat, nat)> {
    if in_bounds(text, byte) {
        let before = text.take(choose|at: int| is_boundary(text, at, byte));
        Some((line_breaks(before) + 1, last_line_len(before) + 1))
    } else {
        None
    }
}

/// A byte offset lies in front of one character at most, so that it has one line and one column.
pub proof fn boundary_is_unique(text: Seq<char>, a: int, b: int, byte: int)
    requires
        is_boundary(text, a, byte),
        is_boundary(text, b, byte),
    ensures
        a == b,
{
    if a < b {
        byte_len_grows(text, a, b);
    } else if b < a {
        byte_len_grows(text, b, a);
    }
}

/// Every character takes up at least one byte.
proof fn byte_len_grows(text: Seq<char>, a: int, b: int)
    requires
        0 <= a < b <= text.len(),
    ensures
        byte_len(text.take(a)) < byte_len(text.take(b)),
    decreases b,
{
    if a > 0 {
        assert(text.take(a).drop_first() =~= text.drop_first().take(a - 1));
        assert(text.take(b).drop_first() =~= text.drop_first().take(b - 1));
        byte_len_grows(text.drop_first(), a - 1, b - 1);
    }
}

/// The line and the column, both counted from one, of the byte offset `byte` in `text`.
///
/// Trusted: `SourceContent::location` of `miden-debug-types`, on a `SourceContent` made of the
/// text. It counts the line breaks before the offset, and the characters between the start of the
/// line and the offset; it gives nothing where the offset is not between two characters.
/// `SourceContent::new` panics on a text of `u32::MAX` bytes or more.
#[verifier::external_body]
pub(crate) fn position(text: &str, byte: u32) -> (r: Option<(u32, u32)>)
    requires
        byte_len(text@) < u32::MAX,
    ensures
        match r {
            Some((line, col)) => position_of(text@, byte as int) == Some((line as nat, col as nat)),
            None => position_of(text@, byte as int) is None,
        },
{
    let content = SourceContent::new("", "", text);
    let found = content.location(ByteIndex::new(byte));
    found.map(|at| (at.line.to_u32(), at.column.to_u32()))
}

/// The number of the first character of the line with index `line`, counted from zero.
pub open spec fn line_start(text: Seq<char>, line: nat) -> Option<int>
    decreases text.len(),
{
    if line == 0 {
        Some(0)
    } else if text.len() == 0 || line_breaks(text) < line {
        None
    } else if text.last() == '\n' && line_breaks(text) == line {
        Some(text.len() as int)
    } else {
        line_start(text.drop_last(), line)
    }
}

/// The bytes that the line with index `line`, counted from zero, takes up: its first one, and the
/// one behind its line break or at the end of the text.
pub open spec fn line_bytes(text: Seq<char>, line: nat) -> Option<(int, int)> {
    match line_start(text, line) {
        Some(start) => {
            let end = match line_start(text, line + 1) {
                Some(next) => next,
                None => text.len() as int,
            };
            Some((byte_len(text.take(start)) as int, byte_len(text.take(end)) as int))
        },
        None => None,
    }
}

/// The bytes of the line with index `line`, counted from zero.
///
/// Trusted: `SourceContent::line_range` of `miden-debug-types`, on a `SourceContent` made of the
/// text. A line reaches from behind one line break to behind the next, or to the end of the text.
/// `SourceContent::new` panics on a text of `u32::MAX` bytes or more.
#[verifier::external_body]
pub(crate) fn line_range(text: &str, line: u32) -> (r: Option<(u32, u32)>)
    requires
        byte_len(text@) < u32::MAX,
    ensures
        match r {
            Some((start, end)) => line_bytes(text@, line as nat) == Some((start as int, end as int)),
            None => line_bytes(text@, line as nat) is None,
        },
{
    let content = SourceContent::new("", "", text);
    let found = content.line_range(LineIndex(line));
    found.map(|range| (range.start.to_u32(), range.end.to_u32()))
}

// ---------------------------------------------------------------------------------------------
// Known sources
// ---------------------------------------------------------------------------------------------

/// A source file.
#[derive(Debug)]
pub struct SourceFile {
    pub uri: String,
    pub content: String,
}

/// A path that exists on disk, with what the file there holds, unless it cannot be read.
#[derive(Debug)]
pub struct DiskFile {
    pub path: String,
    pub content: Option<String>,
}

/// The sources that are known: those that were registered under their URI, and those found on
/// disk.
#[derive(Debug)]
pub struct SourceManager {
    pub registered: Vec<SourceFile>,
    pub on_disk: Vec<DiskFile>,
}

/// What a [`SourceManager`] knows, in the order of registration.
pub struct SourcesView {
    pub registered: Seq<(Seq<char>, Seq<char>)>,
    pub on_disk: Seq<(Seq<char>, Option<Seq<char>>)>,
}

/// The content of the first of these files that has this URI.
pub open spec fn first_registered(
    files: Seq<(Seq<char>, Seq<char>)>,
    uri: Seq<char>,
) -> Option<Seq<char>>
    decreases files.len(),
{
    if files.len() == 0 {
        None
    } else if files[0].0 == uri {
        Some(files[0].1)
    } else {
        first_registered(files.skip(1), uri)
    }
}

/// What is known of the first of these paths that equals `path`.
pub open spec fn first_on_disk(
    files: Seq<(Seq<char>, Option<Seq<char>>)>,
    path: Seq<char>,
) -> Option<Option<Seq<char>>>
    decreases files.len(),
{
    if files.len() == 0 {
        None
    } else if files[0].0 == path {
        Some(files[0].1)
    } else {
        first_on_disk(files.skip(1), path)
    }
}

impl SourcesView {
    /// The source behind a URI: where the URI is a path that exists on disk, the file there, if it
    /// can be read; else the one registered under it.
    pub open spec fn source(self, uri: Seq<char>) -> Option<Seq<char>> {
        match first_on_disk(self.on_disk, uri) {
            Some(content) => content,
            None => first_registered(self.registered, uri),
        }
    }
}

impl View for SourceManager {
    type V = SourcesView;

    open spec fn view(&self) -> SourcesView {
        SourcesView {
            registered: self.registered@.map_values(|f: SourceFile| (f.uri@, f.content@)),
            on_disk: self.on_disk@.map_values(
                |f: DiskFile|
                    (
                        f.path@,
                        match f.content {
                            Some(c) => Some(c@),
                            None => None,
                        },
                    ),
            ),
        }
    }
}

impl SourceManager {
    /// No source is too long for its positions to be counted in `u32`.
    pub open spec fn wf(&self) -> bool {
        &&& forall|i: int|
            0 <= i < self.registered@.len() ==> byte_len(#[trigger] self.registered@[i].content@)
                < u32::MAX
        &&& forall|i: int|
            0 <= i < self.on_disk@.len() ==> (#[trigger] self.on_disk@[i].content matches Some(c)
                ==> byte_len(c@) < u32::MAX)
    }

    /// A manager that knows no source.
    pub fn new() -> (r: Self)
        ensures
            r.wf(),
            r@.registered == Seq::<(Seq<char>, Seq<char>)>::empty(),
            r@.on_disk == Seq::<(Seq<char>, Option<Seq<char>>)>::empty(),
    {
        SourceManager { registered: Vec::new(), on_disk: Vec::new() }
    }

    /// Registers a source under its URI.
    pub fn register(&mut self, uri: String, content: String)
        requires
            old(self).wf(),
            byte_len(content@) < u32::MAX,
        ensures
            final(self).wf(),
            final(self)@.registered == old(self)@.registered.push((uri@, content@)),
            final(self)@.on_disk == old(self)@.on_disk,
    {
        self.registered.push(SourceFile { uri, content });
    }

    /// Notes that `path` exists on disk, with what the file there holds.
    pub fn found_on_disk(&mut self, path: String, content: Option<String>)
        requires
            old(self).wf(),
            content matches Some(c) ==> byte_len(c@) < u32::MAX,
        ensures
            final(self).wf(),
            final(self)@.registered == old(self)@.registered,
            final(self)@.on_disk == old(self)@.on_disk.push(
                (
                    path@,
                    match content {
                        Some(c) => Some(c@),
                        None => None,
                    },
                ),
            ),
    {
        self.on_disk.push(DiskFile { path, content });
    }

    /// The source behind a URI.
    pub fn source(&self, uri: &str) -> (r: Option<&String>)
        requires
            self.wf(),
        ensures
            match r {
                Some(content) => self@.source(uri@) == Some(content@) && byte_len(content@)
                    < u32::MAX,
                None => self@.source(uri@) is None,
            },
    {
        let mut i: usize = 0;
        proof {
            assert(self@.on_disk.skip(0) =~= self@.on_disk);
        }
        while i < self.on_disk.len()
            invariant
                self.wf(),
                i <= self.on_disk@.len(),
                first_on_disk(self@.on_disk, uri@) == first_on_disk(
                    self@.on_disk.skip(i as int),
                    uri@,
                ),
            decreases self.on_disk@.len() - i,
        {
            if crate::text::same(self.on_disk[i].path.as_str(), uri) {
                return match &self.on_disk[i].content {
                    Some(content) => Some(content),
                    None => None,
                };
            }
            proof {
                assert(self@.on_disk.skip(i as int).skip(1) =~= self@.on_disk.skip(i + 1));
            }
            i += 1;
        }
        let mut k: usize = 0;
        proof {
            assert(self@.registered.skip(0) =~= self@.registered);
        }
        while k < self.registered.len()
            invariant
                self.wf(),
                k <= self.registered@.len(),
                first_on_disk(self@.on_disk, uri@) is None,
                first_registered(self@.registered, uri@) == first_registered(
                    self@.registered.skip(k as int),
                    uri@,
                ),
            decreases self.registered@.len() - k,
        {
            if crate::text::same(self.registered[k].uri.as_str(), uri) {
                return Some(&self.registered[k].content);
            }
            proof {
                assert(self@.registered.skip(k as int).skip(1) =~= self@.registered.skip(k + 1));
            }
            k += 1;
        }
        None
    }
}

// ---------------------------------------------------------------------------------------------
// Resolved locations
// ---------------------------------------------------------------------------------------------

/// A location with the line and the column it starts at, both counted from one.
#[derive(Debug)]
pub struct ResolvedLocation {
    pub uri: String,
    pub line: u32,
    pub col: u32,
    /// The first byte of the location.
    pub start: u32,
    /// The byte behind the location.
    pub end: u32,
}

/// What a [`ResolvedLocation`] says.
pub struct ResolvedView {
    pub uri: Seq<char>,
    pub line: u32,
    pub col: u32,
    pub start: u32,
    pub end: u32,
}

impl View for ResolvedLocation {
    type V = ResolvedView;

    open spec fn view(&self) -> ResolvedView {
        ResolvedView {
            uri: self.uri@,
            line: self.line,
            col: self.col,
            start: self.start,
            end: self.end,
        }
    }
}

impl Clone for ResolvedLocation {
    fn clone(&self) -> (r: Self)
        ensures
            r == *self,
    {
        ResolvedLocation {
            uri: self.uri.clone(),
            line: self.line,
            col: self.col,
            start: self.start,
            end: self.end,
        }
    }
}

/// The view of an optional resolved location.
pub open spec fn resolved_view(resolved: Option<ResolvedLocation>) -> Option<ResolvedView> {
    match resolved {
        Some(r) => Some(r@),
        None => None,
    }
}

impl ResolvedView {
    /// `uri:line:col`
    pub open spec fn printed(self) -> Seq<char> {
        self.uri + ":"@ + crate::text::decimal(self.line as nat) + ":"@ + crate::text::decimal(
            self.col as nat,
        )
    }
}

impl ResolvedLocation {
    /// `uri:line:col`
    pub fn text(&self) -> (r: String)
        ensures
            r@ == self@.printed(),
    {
        let mut out = self.uri.clone();
        out.append(":");
        out.append(crate::text::render_decimal(self.line as u64).as_str());
        out.append(":");
        out.append(crate::text::render_decimal(self.col as u64).as_str());
        out
    }
}

/// What the location becomes with these sources: nothing where its source is not known, else the
/// same stretch with the line and the column of its first byte.
pub open spec fn resolved_with(
    location: crate::debug::op::LocationView,
    sources: SourcesView,
) -> Option<ResolvedView> {
    match sources.source(location.uri) {
        Some(text) => match position_of(text, location.start as int) {
            Some((line, col)) => Some(
                ResolvedView {
                    uri: location.uri,
                    line: line as u32,
                    col: col as u32,
                    start: location.start,
                    end: location.end,
                },
            ),
            None => None,
        },
        None => None,
    }
}

/// Whether the location starts inside its source, where that is known.
pub open spec fn location_fits(
    location: crate::debug::op::LocationView,
    sources: SourcesView,
) -> bool {
    sources.source(location.uri) matches Some(text) ==> in_bounds(text, location.start as int)
}

/// Whether the location starts inside its source, where that is known.
pub fn fits(location: &Location, sources: &SourceManager) -> (r: bool)
    requires
        sources.wf(),
    ensures
        r == location_fits(location@, sources@),
{
    match sources.source(location.uri.as_str()) {
        None => true,
        Some(text) => position(text.as_str(), location.start).is_some(),
    }
}

/// Finds the line and the column a location starts at.
pub fn resolve_location(location: &Location, sources: &SourceManager) -> (r: Option<
    ResolvedLocation,
>)
    requires
        sources.wf(),
        location_fits(location@, sources@),
    ensures
        resolved_view(r) == resolved_with(location@, sources@),
{
    match sources.source(location.uri.as_str()) {
        None => None,
        Some(text) => match position(text.as_str(), location.start) {
            Some((line, col)) => Some(
                ResolvedLocation {
                    uri: location.uri.clone(),
                    line,
                    col,
                    start: location.start,
                    end: location.end,
                },
            ),
            None => None,
        },
    }
}

// ---------------------------------------------------------------------------------------------
// What holds of all sources
// ---------------------------------------------------------------------------------------------

/// A file on disk comes before one that was registered, even where it cannot be read; of several
/// with the same name, the first one counts; and a name that nothing was registered under has no
/// source.
pub proof fn files_on_disk_come_first(sources: SourcesView, uri: Seq<char>, i: int)
    ensures
        0 <= i < sources.on_disk.len() && sources.on_disk[i].0 == uri && (forall|k: int|
            0 <= k < i ==> (#[trigger] sources.on_disk[k]).0 != uri) ==> sources.source(uri)
            == sources.on_disk[i].1,
        (forall|k: int| 0 <= k < sources.on_disk.len() ==> (#[trigger] sources.on_disk[k]).0 != uri)
            && 0 <= i < sources.registered.len() && sources.registered[i].0 == uri && (forall|k: int|
            0 <= k < i ==> (#[trigger] sources.registered[k]).0 != uri) ==> sources.source(uri)
            == Some(sources.registered[i].1),
        (forall|k: int| 0 <= k < sources.on_disk.len() ==> (#[trigger] sources.on_disk[k]).0 != uri)
            && (forall|k: int|
            0 <= k < sources.registered.len() ==> (#[trigger] sources.registered[k]).0 != uri)
            ==> sources.source(uri) is None,
{
    if 0 <= i < sources.on_disk.len() && sources.on_disk[i].0 == uri && (forall|k: int|
        0 <= k < i ==> (#[trigger] sources.on_disk[k]).0 != uri) {
        first_on_disk_is_first(sources.on_disk, uri, i);
    }
    if forall|k: int| 0 <= k < sources.on_disk.len() ==> (#[trigger] sources.on_disk[k]).0 != uri {
        first_on_disk_is_first(sources.on_disk, uri, sources.on_disk.len() as int);
        if 0 <= i < sources.registered.len() && sources.registered[i].0 == uri && (forall|k: int|
            0 <= k < i ==> (#[trigger] sources.registered[k]).0 != uri) {
            first_registered_is_first(sources.registered, uri, i);
        }
        if forall|k: int|
            0 <= k < sources.registered.len() ==> (#[trigger] sources.registered[k]).0 != uri {
            first_registered_is_first(sources.registered, uri, sources.registered.len() as int);
        }
    }
}

proof fn first_on_disk_is_first(
    files: Seq<(Seq<char>, Option<Seq<char>>)>,
    path: Seq<char>,
    i: int,
)
    requires
        0 <= i <= files.len(),
        forall|k: int| 0 <= k < i ==> (#[trigger] files[k]).0 != path,
        i < files.len() ==> files[i].0 == path,
    ensures
        first_on_disk(files, path) == if i < files.len() {
            Some(files[i].1)
        } else {
            None
        },
    decreases files.len(),
{
    if i > 0 {
        let rest = files.skip(1);
        assert forall|k: int| 0 <= k < i - 1 implies (#[trigger] rest[k]).0 != path by {
            assert(rest[k] == files[k + 1]);
        }
        first_on_disk_is_first(rest, path, i - 1);
        assert(files[0].0 != path);
    }
}

proof fn first_registered_is_first(files: Seq<(Seq<char>, Seq<char>)>, uri: Seq<char>, i: int)
    requires
        0 <= i <= files.len(),
        forall|k: int| 0 <= k < i ==> (#[trigger] files[k]).0 != uri,
        i < files.len() ==> files[i].0 == uri,
    ensures
        first_registered(files, uri) == if i < files.len() {
            Some(files[i].1)
        } else {
            None
        },
    decreases files.len(),
{
    if i > 0 {
        let rest = files.skip(1);
        assert forall|k: int| 0 <= k < i - 1 implies (#[trigger] rest[k]).0 != uri by {
            assert(rest[k] == files[k + 1]);
        }
        first_registered_is_first(rest, uri, i - 1);
        assert(files[0].0 != uri);
    }
}

/// The place of a byte: behind as many lines as there are line breaks before it, and behind as many
/// characters as stand between the last of them and the byte, both counted from one.
pub proof fn a_byte_stands_in_its_line(
    front: Seq<char>,
    line: Seq<char>,
    back: Seq<char>,
    byte: int,
)
    requires
        front.len() == 0 || front.last() == '\n',
        !line.contains('\n'),
        byte == vstd::utf8::encode_utf8(front + line).len(),
    ensures
        position_of(front + line + back, byte) == Some(
            (front.filter(|c: char| c == '\n').len() + 1, line.len() + 1),
        ),
{
    let text = front + line + back;
    let at = (front + line).len() as int;
    assert(text.take(at) =~= front + line);
    assert(is_boundary(text, at, byte));
    let found = choose|a: int| is_boundary(text, a, byte);
    boundary_is_unique(text, at, found, byte);
    line_is_counted(front, line);
    breaks_are_counted(front);
}

proof fn line_is_counted(front: Seq<char>, line: Seq<char>)
    requires
        front.len() == 0 || front.last() == '\n',
        !line.contains('\n'),
    ensures
        line_breaks(front + line) == line_breaks(front),
        last_line_len(front + line) == line.len(),
    decreases line.len(),
{
    if line.len() == 0 {
        assert(front + line =~= front);
    } else {
        let all = front + line;
        assert(line.contains(line.last()));
        assert forall|i: int| 0 <= i < line.drop_last().len() implies line.drop_last()[i] != '\n' by {
            assert(line.contains(line[i]));
        }
        line_is_counted(front, line.drop_last());
        assert(all.drop_last() =~= front + line.drop_last());
    }
}

proof fn breaks_are_counted(text: Seq<char>)
    ensures
        line_breaks(text) == text.filter(|c: char| c == '\n').len(),
    decreases text.len(),
{
    reveal(Seq::filter);
    if text.len() > 0 {
        breaks_are_counted(text.drop_last());
    }
}

/// A location that can be resolved keeps its file and its bytes, and gains the line and the column
/// of its first byte; one whose source is not known, or does not reach that far, is not resolved.
pub proof fn a_resolved_location_keeps_its_bytes(
    location: crate::debug::op::LocationView,
    sources: SourcesView,
)
    ensures
        match resolved_with(location, sources) {
            Some(found) => {
                &&& found.uri == location.uri
                &&& found.start == location.start
                &&& found.end == location.end
                &&& sources.source(location.uri) matches Some(text)
                &&& position_of(text, location.start as int) matches Some(place)
                &&& found.line == place.0 as u32
                &&& found.col == place.1 as u32
            },
            None => match sources.source(location.uri) {
                Some(text) => !in_bounds(text, location.start as int),
                None => true,
            },
        },
{
}

/// A place is printed as its file, its line and its column, with colons between them.
pub proof fn a_place_is_printed_by_line_and_column(place: ResolvedView)
    ensures
        exists|line: Seq<char>, col: Seq<char>|
            {
                &&& place.printed() == place.uri + seq![':'] + line + seq![':'] + col
                &&& #[trigger] crate::text::is_numeral(line, 10)
                &&& crate::text::place_value(line, 10) == place.line
                &&& #[trigger] crate::text::is_numeral(col, 10)
                &&& crate::text::place_value(col, 10) == place.col
            },
{
    reveal_strlit(":");
    assert(":"@ =~= seq![':']);
    let line = crate::text::decimal(place.line as nat);
    let col = crate::text::decimal(place.col as nat);
    crate::text::a_number_is_what_its_digits_stand_for(place.line as nat, 10);
    crate::text::a_number_is_what_its_digits_stand_for(place.col as nat, 10);
    assert(crate::text::is_numeral(line, 10) && crate::text::is_numeral(col, 10));
}

/// A line reaches from behind the line break in front of it to behind its own line break, or to the
/// end of the text; it is known by how many line breaks stand before it.
pub proof fn a_line_reaches_to_its_break(front: Seq<char>, line: Seq<char>, back: Seq<char>)
    requires
        front.len() == 0 || front.last() == '\n',
        forall|i: int| 0 <= i < line.len() - 1 ==> (#[trigger] line[i]) != '\n',
        if line.len() > 0 && line.last() == '\n' {
            true
        } else {
            back.len() == 0
        },
    ensures
        line_bytes(front + line + back, front.filter(|c: char| c == '\n').len()) == Some(
            (
                vstd::utf8::encode_utf8(front).len() as int,
                vstd::utf8::encode_utf8(front + line).len() as int,
            ),
        ),
{
    let text = front + line + back;
    breaks_are_counted(front);
    let k = line_breaks(front);
    line_starts_behind(front, line + back);
    assert(front + (line + back) =~= text);
    assert(text.take(front.len() as int) =~= front);
    let upto = front + line;
    if line.len() > 0 && line.last() == '\n' {
        assert(upto.drop_last() =~= front + line.drop_last());
        assert forall|i: int| 0 <= i < line.drop_last().len() implies line.drop_last()[i] != '\n' by {
            assert(line[i] != '\n');
        }
        line_is_counted(front, line.drop_last());
        assert(line_breaks(upto) == k + 1);
        line_starts_behind(upto, back);
        assert(upto + back =~= text);
        assert(text.take(upto.len() as int) =~= upto);
    } else {
        assert(text =~= upto);
        assert forall|i: int| 0 <= i < line.len() implies line[i] != '\n' by {
            if i < line.len() - 1 {
                assert(line[i] != '\n');
            }
        }
        line_is_counted(front, line);
        assert(text.take(text.len() as int) =~= text);
    }
}

proof fn line_starts_behind(front: Seq<char>, back: Seq<char>)
    requires
        front.len() == 0 || front.last() == '\n',
    ensures
        line_start(front + back, line_breaks(front)) == Some(front.len() as int),
    decreases back.len(),
{
    let text = front + back;
    if back.len() == 0 {
        assert(text =~= front);
    } else {
        assert(text.drop_last() =~= front + back.drop_last());
        line_starts_behind(front, back.drop_last());
        more_breaks(front, back.drop_last());
        more_breaks(front, back);
    }
}

proof fn more_breaks(front: Seq<char>, back: Seq<char>)
    ensures
        line_breaks(front) <= line_breaks(front + back),
    decreases back.len(),
{
    if back.len() == 0 {
        assert(front + back =~= front);
    } else {
        assert((front + back).drop_last() =~= front + back.drop_last());
        more_breaks(front, back.drop_last());
    }
}

/// A location that starts inside its source is resolved just where the source is known; one that
/// starts elsewhere, or between the bytes of a character, does not fit.
pub proof fn what_fits_is_resolved(
    location: crate::debug::op::LocationView,
    sources: SourcesView,
    before: Seq<char>,
    after: Seq<char>,
)
    ensures
        location_fits(location, sources) ==> (resolved_with(location, sources) is Some
            <==> sources.source(location.uri) is Some),
        sources.source(location.uri) is None ==> location_fits(location, sources),
        sources.source(location.uri) == Some(before + after) && byte_len(before)
            == location.start as int ==> location_fits(location, sources),
        !location_fits(location, sources) ==> (sources.source(location.uri) matches Some(text)
            && forall|at: int| 0 <= at <= text.len() ==> byte_len(#[trigger] text.take(at))
            != location.start as int),
{
    if sources.source(location.uri) == Some(before + after) && byte_len(before)
        == location.start as int {
        let text = before + after;
        assert(text.take(before.len() as int) =~= before);
        assert(is_boundary(text, before.len() as int, location.start as int));
    }
    if let Some(text) = sources.source(location.uri) {
        if !location_fits(location, sources) {
            assert forall|at: int| 0 <= at <= text.len() implies byte_len(#[trigger] text.take(at))
                != location.start as int by {
                assert(!is_boundary(text, at, location.start as int));
            }
        }
    }
}

} // verus!
