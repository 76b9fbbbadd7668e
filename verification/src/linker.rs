//! Libraries that a program is linked against, and where they are found.
use vstd::prelude::*;
use vstd::string::*;

verus! {

// ---------------------------------------------------------------------------------------------
// Kinds of libraries
// ---------------------------------------------------------------------------------------------

/// The kinds of libraries that a program can be linked against.
#[derive(Debug, Clone, Copy, PartialEq, Eq, Structural)]
pub enum LibraryKind {
    /// A package.
    Masp,
    /// A directory of assembly sources.
    Masm,
}

impl Default for LibraryKind {
    /// A package.
    fn default() -> (r: Self)
        ensures
            r == LibraryKind::Masp,
    {
        LibraryKind::Masp
    }
}

impl LibraryKind {
    /// What the kind is printed as.
    pub open spec fn printed(self) -> Seq<char> {
        match self {
            LibraryKind::Masm => "masm"@,
            LibraryKind::Masp => "masp"@,
        }
    }

    /// The kind that a text stands for.
    pub open spec fn of(s: Seq<char>) -> Option<LibraryKind> {
        if s == "masm"@ {
            Some(LibraryKind::Masm)
        } else if s == "masp"@ {
            Some(LibraryKind::Masp)
        } else {
            None
        }
    }

    /// What the kind is printed as.
    pub fn text(&self) -> (r: String)
        ensures
            r@ == self.printed(),
    {
        match self {
            LibraryKind::Masm => "masm".to_owned(),
            LibraryKind::Masp => "masp".to_owned(),
        }
    }

    /// The kind that a text stands for.
    pub fn from_str(s: &str) -> (r: Result<Self, ()>)
        ensures
            match r {
                Ok(kind) => LibraryKind::of(s@) == Some(kind),
                Err(_) => LibraryKind::of(s@) is None,
            },
    {
        if crate::text::same(s, "masm") {
            Ok(LibraryKind::Masm)
        } else if crate::text::same(s, "masp") {
            Ok(LibraryKind::Masp)
        } else {
            Err(())
        }
    }
}

/// A kind is read from what it is printed as.
pub proof fn kind_reads_back(kind: LibraryKind)
    ensures
        LibraryKind::of(kind.printed()) == Some(kind),
{
    reveal_strlit("masm");
    reveal_strlit("masp");
    assert("masm"@[3] != "masp"@[3]);
}

// ---------------------------------------------------------------------------------------------
// Libraries
// ---------------------------------------------------------------------------------------------

/// A library that a program is to be linked against.
#[derive(Debug)]
pub struct LinkLibrary {
    /// The name of the library. Where it is asked for by path, this is the name of the file.
    pub name: String,
    /// Where the library is, if it was asked for by path.
    pub path: Option<String>,
    pub kind: LibraryKind,
}

/// What a [`LinkLibrary`] says.
pub struct LinkLibraryView {
    pub name: Seq<char>,
    pub path: Option<Seq<char>>,
    pub kind: LibraryKind,
}

impl View for LinkLibrary {
    type V = LinkLibraryView;

    open spec fn view(&self) -> LinkLibraryView {
        LinkLibraryView {
            name: self.name@,
            path: crate::debug::op::text_view(self.path),
            kind: self.kind,
        }
    }
}

/// Something in a directory.
#[derive(Debug)]
pub struct DirEntry {
    pub path: String,
    /// The name without its extension, where it is text.
    pub stem: Option<String>,
    pub is_file: bool,
    pub is_dir: bool,
}

/// A directory that is searched for libraries.
#[derive(Debug)]
pub struct SearchDir {
    pub path: String,
    /// What is in the directory, or why it cannot be read.
    pub listing: Result<Vec<DirEntry>, String>,
}

/// What a [`DirEntry`] says.
pub struct DirEntryView {
    pub path: Seq<char>,
    pub stem: Option<Seq<char>>,
    pub is_file: bool,
    pub is_dir: bool,
}

/// What a [`SearchDir`] says.
pub struct SearchDirView {
    pub path: Seq<char>,
    pub listing: Result<Seq<DirEntryView>, Seq<char>>,
}

impl View for DirEntry {
    type V = DirEntryView;

    open spec fn view(&self) -> DirEntryView {
        DirEntryView {
            path: self.path@,
            stem: crate::debug::op::text_view(self.stem),
            is_file: self.is_file,
            is_dir: self.is_dir,
        }
    }
}

pub open spec fn entry_views(entries: Seq<DirEntry>) -> Seq<DirEntryView> {
    entries.map_values(|e: DirEntry| e@)
}

impl View for SearchDir {
    type V = SearchDirView;

    open spec fn view(&self) -> SearchDirView {
        SearchDirView {
            path: self.path@,
            listing: match self.listing {
                Ok(entries) => Ok(entry_views(entries@)),
                Err(m) => Err(m@),
            },
        }
    }
}

pub open spec fn search_dir_views(dirs: Seq<SearchDir>) -> Seq<SearchDirView> {
    dirs.map_values(|d: SearchDir| d@)
}

/// The first of these entries that has a name.
pub open spec fn first_named(entries: Seq<DirEntryView>, name: Seq<char>) -> Option<DirEntryView>
    decreases entries.len(),
{
    if entries.len() == 0 {
        None
    } else if entries[0].stem == Some(name) {
        Some(entries[0])
    } else {
        first_named(entries.skip(1), name)
    }
}

/// The path of an entry, where it is of the right sort for a library of this kind.
pub open spec fn checked_entry(entry: DirEntryView, kind: LibraryKind) -> Result<
    Seq<char>,
    Seq<char>,
> {
    match kind {
        LibraryKind::Masp => if entry.is_file {
            Ok(entry.path)
        } else {
            Err(
                "unable to load Miden Assembly package from '"@ + entry.path + "': not a file"@,
            )
        },
        LibraryKind::Masm => if entry.is_dir {
            Ok(entry.path)
        } else {
            Err(
                "unable to load Miden Assembly library from '"@ + entry.path
                    + "': not a directory"@,
            )
        },
    }
}

/// Where a library is found: in the first directory that has something of its name. Each directory
/// up to that one must be readable.
pub open spec fn library_path(
    dirs: Seq<SearchDirView>,
    name: Seq<char>,
    kind: LibraryKind,
) -> Result<Seq<char>, Seq<char>>
    decreases dirs.len(),
{
    if dirs.len() == 0 {
        Err(
            "unable to locate library '"@ + name + "' using any of the provided search paths"@,
        )
    } else {
        match dirs[0].listing {
            Err(m) => Err("invalid library search path '"@ + dirs[0].path + "': "@ + m),
            Ok(entries) => match first_named(entries, name) {
                Some(entry) => checked_entry(entry, kind),
                None => library_path(dirs.skip(1), name, kind),
            },
        }
    }
}

/// How a library is loaded.
#[derive(Debug)]
pub enum LoadPlan {
    /// By putting together the sources in a directory, under a name.
    Assemble { path: String, name: String },
    /// By reading a package.
    ReadPackage { path: String },
}

impl LoadPlan {
    /// Whether this is how a library at this path is loaded.
    pub open spec fn loads(&self, library: LinkLibraryView, path: Seq<char>) -> bool {
        match self {
            LoadPlan::Assemble { path: p, name } => library.kind == LibraryKind::Masm && p@ == path
                && name@ == library.name,
            LoadPlan::ReadPackage { path: p } => library.kind == LibraryKind::Masp && p@ == path,
        }
    }
}

/// Why a file cannot be used as a library, given whether it holds a package, and one with a
/// library; none where it can.
pub open spec fn package_refusal(
    path: Seq<char>,
    package: Result<bool, Seq<char>>,
) -> Option<Seq<char>> {
    match package {
        Err(m) => Some("failed to load Miden package from "@ + path + ": "@ + m),
        Ok(is_library) => if is_library {
            None
        } else {
            Some(
                "Expected Miden package to contain a Library, got Program: '"@ + path + "'"@,
            )
        },
    }
}

/// Tells why a file cannot be used as a library, given whether it holds a package, and one with a
/// library; none where it can.
pub fn refuse_package(path: &str, package: &Result<bool, String>) -> (r: Option<String>)
    ensures
        crate::debug::op::text_view(r) == package_refusal(
            path@,
            match package {
                Ok(b) => Ok(*b),
                Err(m) => Err(m@),
            },
        ),
{
    match package {
        Err(m) => {
            let mut out = "failed to load Miden package from ".to_owned();
            out.append(path);
            out.append(": ");
            out.append(m.as_str());
            Some(out)
        },
        Ok(true) => None,
        Ok(false) => {
            let mut out = "Expected Miden package to contain a Library, got Program: '".to_owned();
            out.append(path);
            out.append("'");
            Some(out)
        },
    }
}

impl LinkLibrary {
    /// The name of the library.
    pub fn name(&self) -> (r: &String)
        ensures
            r@ == self@.name,
    {
        &self.name
    }

    /// How the library is loaded: from its path, or from where it is found among these directories.
    pub fn load(&self, dirs: &Vec<SearchDir>) -> (r: Result<LoadPlan, String>)
        ensures
            match self@.path {
                Some(path) => r matches Ok(plan) && plan.loads(self@, path),
                None => match r {
                    Ok(plan) => library_path(search_dir_views(dirs@), self@.name, self@.kind)
                        matches Ok(path) && plan.loads(self@, path),
                    Err(m) => library_path(search_dir_views(dirs@), self@.name, self@.kind) == Err::<
                        Seq<char>,
                        Seq<char>,
                    >(m@),
                },
            },
    {
        let path = match &self.path {
            Some(path) => path.clone(),
            None => match self.find(dirs) {
                Ok(path) => path,
                Err(m) => {
                    return Err(m);
                },
            },
        };
        Ok(self.load_from_path(path))
    }

    fn load_from_path(&self, path: String) -> (r: LoadPlan)
        ensures
            r.loads(self@, path@),
    {
        match self.kind {
            LibraryKind::Masm => LoadPlan::Assemble { path, name: self.name.clone() },
            LibraryKind::Masp => LoadPlan::ReadPackage { path },
        }
    }

    fn check_entry(&self, entry: &DirEntry) -> (r: Result<String, String>)
        ensures
            match r {
                Ok(path) => checked_entry(entry@, self.kind) == Ok::<Seq<char>, Seq<char>>(path@),
                Err(m) => checked_entry(entry@, self.kind) == Err::<Seq<char>, Seq<char>>(m@),
            },
    {
        match self.kind {
            LibraryKind::Masp => if !entry.is_file {
                let mut out = "unable to load Miden Assembly package from '".to_owned();
                out.append(entry.path.as_str());
                out.append("': not a file");
                return Err(out);
            },
            LibraryKind::Masm => if !entry.is_dir {
                let mut out = "unable to load Miden Assembly library from '".to_owned();
                out.append(entry.path.as_str());
                out.append("': not a directory");
                return Err(out);
            },
        }
        Ok(entry.path.clone())
    }

    /// Where the library is found among these directories.
    pub fn find(&self, dirs: &Vec<SearchDir>) -> (r: Result<String, String>)
        ensures
            match r {
                Ok(path) => library_path(search_dir_views(dirs@), self@.name, self@.kind) == Ok::<
                    Seq<char>,
                    Seq<char>,
                >(path@),
                Err(m) => library_path(search_dir_views(dirs@), self@.name, self@.kind) == Err::<
                    Seq<char>,
                    Seq<char>,
                >(m@),
            },
    {
        let ghost views = search_dir_views(dirs@);
        let mut i: usize = 0;
        proof {
            assert(views.skip(0) =~= views);
        }
        while i < dirs.len()
            invariant
                i <= dirs@.len(),
                views == search_dir_views(dirs@),
                library_path(views, self@.name, self@.kind) == library_path(
                    views.skip(i as int),
                    self@.name,
                    self@.kind,
                ),
            decreases dirs@.len() - i,
        {
            proof {
                assert(views.skip(i as int)[0] == dirs@[i as int]@);
                assert(views.skip(i as int).skip(1) =~= views.skip(i + 1));
            }
            match &dirs[i].listing {
                Err(m) => {
                    let mut out = "invalid library search path '".to_owned();
                    out.append(dirs[i].path.as_str());
                    out.append("': ");
                    out.append(m.as_str());
                    return Err(out);
                },
                Ok(entries) => {
                    let ghost all = entry_views(entries@);
                    let mut k: usize = 0;
                    proof {
                        assert(all.skip(0) =~= all);
                    }
                    while k < entries.len()
                        invariant
                            i < dirs@.len(),
                            k <= entries@.len(),
                            all == entry_views(entries@),
                            views == search_dir_views(dirs@),
                            views.skip(i as int)[0].listing == Ok::<Seq<DirEntryView>, Seq<char>>(all),
                            library_path(views, self@.name, self@.kind) == library_path(
                                views.skip(i as int),
                                self@.name,
                                self@.kind,
                            ),
                            first_named(all, self@.name) == first_named(
                                all.skip(k as int),
                                self@.name,
                            ),
                        decreases entries@.len() - k,
                    {
                        proof {
                            assert(all.skip(k as int)[0] == entries@[k as int]@);
                            assert(all.skip(k as int).skip(1) =~= all.skip(k + 1));
                        }
                        let here = match &entries[k].stem {
                            Some(stem) => *stem == self.name,
                            None => false,
                        };
                        if here {
                            return self.check_entry(&entries[k]);
                        }
                        k += 1;
                    }
                },
            }
            i += 1;
        }
        let mut out = "unable to locate library '".to_owned();
        out.append(self.name.as_str());
        out.append("' using any of the provided search paths");
        Err(out)
    }
}

/// The directories that are searched for libraries, in order: that of the toolchain, those that the
/// user names, and the working directory, where one is set.
pub open spec fn search_order(
    toolchain: Option<Seq<char>>,
    search_path: Seq<Seq<char>>,
    working_dir: Option<Seq<char>>,
) -> Seq<Seq<char>> {
    let first = match toolchain {
        Some(dir) => seq![dir],
        None => Seq::empty(),
    };
    let last = match working_dir {
        Some(dir) => seq![dir],
        None => Seq::empty(),
    };
    first + search_path + last
}

/// The views of some texts.
pub open spec fn text_views(texts: Seq<String>) -> Seq<Seq<char>> {
    texts.map_values(|t: String| t@)
}

/// The directories that are searched for libraries, in order.
pub fn search_paths(
    toolchain: &Option<String>,
    search_path: &Vec<String>,
    working_dir: &Option<String>,
) -> (r: Vec<String>)
    ensures
        text_views(r@) == search_order(
            crate::debug::op::text_view(*toolchain),
            text_views(search_path@),
            crate::debug::op::text_view(*working_dir),
        ),
{
    let mut dirs: Vec<String> = Vec::new();
    if let Some(dir) = toolchain {
        dirs.push(dir.clone());
    }
    let ghost first = text_views(dirs@);
    let mut i: usize = 0;
    proof {
        assert(first =~= search_order(
            crate::debug::op::text_view(*toolchain),
            Seq::empty(),
            None,
        ));
        assert(text_views(dirs@) =~= first + text_views(search_path@).take(0));
    }
    while i < search_path.len()
        invariant
            i <= search_path@.len(),
            text_views(dirs@) == first + text_views(search_path@).take(i as int),
        decreases search_path@.len() - i,
    {
        let ghost before = text_views(dirs@);
        dirs.push(search_path[i].clone());
        i += 1;
        proof {
            assert(text_views(dirs@) =~= before.push(search_path@[i - 1]@));
            assert(text_views(search_path@).take(i as int) =~= text_views(search_path@).take(
                i - 1,
            ).push(search_path@[i - 1]@));
            assert(text_views(dirs@) =~= first + text_views(search_path@).take(i as int));
        }
    }
    let ghost middle = text_views(dirs@);
    if let Some(dir) = working_dir {
        dirs.push(dir.clone());
        proof {
            assert(text_views(dirs@) =~= middle.push(dir@));
        }
    }
    proof {
        assert(text_views(search_path@).take(i as int) =~= text_views(search_path@));
        assert(text_views(dirs@) =~= search_order(
            crate::debug::op::text_view(*toolchain),
            text_views(search_path@),
            crate::debug::op::text_view(*working_dir),
        ));
    }
    dirs
}

// ---------------------------------------------------------------------------------------------
// The command line
// ---------------------------------------------------------------------------------------------

/// The sort of a mistake on the command line.
#[derive(Debug, Clone, Copy, PartialEq, Eq, Structural)]
pub enum LinkErrorKind {
    InvalidUtf8,
    InvalidValue,
    ValueValidation,
}

/// A mistake on the command line.
#[derive(Debug)]
pub struct LinkError {
    pub kind: LinkErrorKind,
    pub message: String,
}

/// What a [`LinkError`] says.
pub struct LinkErrorView {
    pub kind: LinkErrorKind,
    pub message: Seq<char>,
}

impl View for LinkError {
    type V = LinkErrorView;

    open spec fn view(&self) -> LinkErrorView {
        LinkErrorView { kind: self.kind, message: self.message@ }
    }
}

/// What the path of a library looks like on the machine.
#[derive(Debug)]
pub struct PathFacts {
    /// The extension of the last name in the path.
    pub extension: Option<String>,
    /// The last name in the path without its extension.
    pub stem: Option<String>,
    /// Whether the path begins at the root.
    pub is_absolute: bool,
}

/// What [`PathFacts`] say.
pub struct PathFactsView {
    pub extension: Option<Seq<char>>,
    pub stem: Option<Seq<char>>,
    pub is_absolute: bool,
}

impl View for PathFacts {
    type V = PathFactsView;

    open spec fn view(&self) -> PathFactsView {
        PathFactsView {
            extension: crate::debug::op::text_view(self.extension),
            stem: crate::debug::op::text_view(self.stem),
            is_absolute: self.is_absolute,
        }
    }
}

/// Whether a text is the name of a file on every machine.
pub open spec fn is_plain_name(name: Seq<char>) -> bool {
    &&& name.len() > 0
    &&& name != "."@
    &&& name != ".."@
    &&& !name.contains('/')
    &&& !name.contains('\\')
    &&& !name.contains(':')
}

/// Whether what stands behind the last slash of a path is the name of a file on every machine.
pub open spec fn ends_in_name(path: Seq<char>) -> bool {
    &&& is_plain_name(crate::text::last_part(path, '/'))
    &&& !path.contains('\\')
    &&& !crate::text::has_prefix(path, "//"@)
}

/// Whether a path stands for a directory that it does not name, on every machine: for the one that
/// the program is run in, or for one above.
pub open spec fn names_no_file(path: Seq<char>) -> bool {
    ||| path == "."@
    ||| {
        &&& crate::text::last_part(path, '/') == ".."@
        &&& !path.contains('\\')
        &&& !crate::text::has_prefix(path, "//"@)
    }
}

/// Whether a path does not begin at the root on any machine.
pub open spec fn is_relative(path: Seq<char>) -> bool {
    &&& path.len() > 0
    &&& path[0] != '/'
    &&& !path.contains('\\')
    &&& !path.contains(':')
}

impl PathFactsView {
    /// Whether a path looks like this, as far as all machines agree on it.
    pub open spec fn fits(self, path: Seq<char>) -> bool {
        &&& ends_in_name(path) ==> {
            let name = crate::text::last_part(path, '/');
            &&& self.extension == crate::snapshots::extension_of(name)
            &&& self.stem == Some(crate::snapshots::stem_of(name))
        }
        &&& names_no_file(path) ==> self.extension is None && self.stem is None
        &&& is_relative(path) ==> !self.is_absolute
    }
}

/// The extension of the last name in a path.
///
/// Trusted: `Path::extension` of std: what stands behind the last dot of the last name, unless the
/// name begins with it; nothing where the path is `.` or ends in `..`, which are no names. What the
/// last name is depends on the machine, so that nothing is said of paths that the machines take
/// apart in different ways.
#[verifier::external_body]
fn path_extension(path: &str) -> (r: Option<String>)
    ensures
        ends_in_name(path@) ==> crate::debug::op::text_view(r) == crate::snapshots::extension_of(
            crate::text::last_part(path@, '/'),
        ),
        names_no_file(path@) ==> r is None,
{
    std::path::Path::new(path).extension().and_then(|e| e.to_str()).map(|e| e.to_string())
}

/// The last name in a path without its extension.
///
/// Trusted: `Path::file_stem` of std: what stands before the last dot of the last name, or the whole
/// name where it has no extension; nothing where the path is `.` or ends in `..`, which are no names.
/// What the last name is depends on the machine, so that nothing is said of paths that the machines
/// take apart in different ways.
#[verifier::external_body]
fn path_stem(path: &str) -> (r: Option<String>)
    ensures
        ends_in_name(path@) ==> crate::debug::op::text_view(r) == Some(
            crate::snapshots::stem_of(crate::text::last_part(path@, '/')),
        ),
        names_no_file(path@) ==> r is None,
{
    std::path::Path::new(path).file_stem().and_then(|s| s.to_str()).map(|s| s.to_string())
}

/// Whether a path begins at the root.
///
/// Trusted: `Path::is_absolute` of std. Where the root is depends on the machine: a path that has
/// neither a slash in front nor a mark of a drive is not absolute on any.
#[verifier::external_body]
fn path_is_absolute(path: &str) -> (r: bool)
    ensures
        is_relative(path@) ==> !r,
{
    std::path::Path::new(path).is_absolute()
}

/// What was asked for: a library, or one by path, which must be looked at first.
#[derive(Debug)]
pub enum LinkRequest {
    Library(LinkLibrary),
    ByPath { path: String, kind: LibraryKind, stem: Option<String> },
}

/// What a [`LinkRequest`] says.
pub enum LinkRequestView {
    Library(LinkLibraryView),
    ByPath { path: Seq<char>, kind: LibraryKind, stem: Option<Seq<char>> },
}

impl View for LinkRequest {
    type V = LinkRequestView;

    open spec fn view(&self) -> LinkRequestView {
        match self {
            LinkRequest::Library(library) => LinkRequestView::Library(library@),
            LinkRequest::ByPath { path, kind, stem } => LinkRequestView::ByPath {
                path: path@,
                kind: *kind,
                stem: crate::debug::op::text_view(*stem),
            },
        }
    }
}

/// What stands before and behind the first `=` of a request: the kind, where there is one, and the
/// name.
pub open spec fn kind_and_name(value: Seq<char>) -> (Option<Seq<char>>, Seq<char>) {
    match crate::text::split_first(value, "="@) {
        Some((kind, name)) => (Some(kind), name),
        None => (None, value),
    }
}

/// The kind of library that is asked for: the one that is named, else the one that the extension
/// stands for, else a package. An extension that stands for no kind is a mistake, unless it is that
/// of a file in a directory: such a file is taken for a package.
pub open spec fn requested_kind(
    kind: Option<Seq<char>>,
    name: Seq<char>,
    extension: Option<Seq<char>>,
) -> Result<LibraryKind, Seq<char>> {
    match kind {
        Some(k) if k.len() > 0 => match LibraryKind::of(k) {
            Some(kind) => Ok(kind),
            None => Err(k),
        },
        _ => match extension {
            None => Ok(LibraryKind::Masp),
            Some(e) => match LibraryKind::of(e) {
                Some(kind) => Ok(kind),
                None => if name.contains('/') {
                    Ok(LibraryKind::Masp)
                } else {
                    Err(e)
                },
            },
        },
    }
}

/// What a request asks for, given what its path looks like.
pub open spec fn requested(
    kind: Option<Seq<char>>,
    name: Seq<char>,
    facts: PathFactsView,
) -> Result<LinkRequestView, LinkErrorView> {
    if name.len() == 0 {
        Err(
            LinkErrorView {
                kind: LinkErrorKind::ValueValidation,
                message: "invalid link library: must specify a name or path"@,
            },
        )
    } else {
        match requested_kind(kind, name, facts.extension) {
            Err(k) => Err(
                LinkErrorView {
                    kind: LinkErrorKind::InvalidValue,
                    message: "'"@ + k + "' is not a valid library kind"@,
                },
            ),
            Ok(kind) => if facts.is_absolute {
                Ok(LinkRequestView::ByPath { path: name, kind, stem: facts.stem })
            } else {
                let name = match facts.stem {
                    Some(stem) => stem,
                    None => name,
                };
                Ok(LinkRequestView::Library(LinkLibraryView { name, path: None, kind }))
            },
        }
    }
}

/// Whether an answer is what a request, taken apart into kind and name, asks for, given what its
/// path looks like.
pub open spec fn answers(
    answer: Result<LinkRequest, LinkError>,
    request: (Option<Seq<char>>, Seq<char>),
    facts: PathFactsView,
) -> bool {
    match answer {
        Ok(r) => requested(request.0, request.1, facts) == Ok::<LinkRequestView, LinkErrorView>(r@),
        Err(e) => requested(request.0, request.1, facts) == Err::<LinkRequestView, LinkErrorView>(
            e@,
        ),
    }
}

/// A name without a dot, asked for with a kind, stands for the library of this name and kind; asked
/// for without a kind, for the package of this name.
pub proof fn a_name_is_taken_as_given(kind: LibraryKind, name: Seq<char>, facts: PathFactsView)
    requires
        is_plain_name(name),
        !name.contains('.'),
        facts.fits(name),
    ensures
        requested(Some(kind.printed()), name, facts) == Ok::<_, LinkErrorView>(
            LinkRequestView::Library(LinkLibraryView { name, path: None, kind }),
        ),
        requested(None, name, facts) == Ok::<_, LinkErrorView>(
            LinkRequestView::Library(
                LinkLibraryView { name, path: None, kind: LibraryKind::Masp },
            ),
        ),
{
    kind_reads_back(kind);
    reveal_strlit("masm");
    reveal_strlit("masp");
    no_dot_no_extension(name);
    a_name_is_its_last_part(name);
}

/// A directory that a path does not name gives its library the path for a name.
pub proof fn an_unnamed_directory_is_taken_as_given(
    kind: LibraryKind,
    path: Seq<char>,
    facts: PathFactsView,
)
    requires
        names_no_file(path),
        is_relative(path),
        facts.fits(path),
    ensures
        requested(Some(kind.printed()), path, facts) == Ok::<_, LinkErrorView>(
            LinkRequestView::Library(LinkLibraryView { name: path, path: None, kind }),
        ),
        requested(None, path, facts) == Ok::<_, LinkErrorView>(
            LinkRequestView::Library(
                LinkLibraryView { name: path, path: None, kind: LibraryKind::Masp },
            ),
        ),
{
    kind_reads_back(kind);
    reveal_strlit("masm");
    reveal_strlit("masp");
}

/// A library that is asked for by a path that does not begin at the root is named after the file:
/// the directories do not become part of the name. Where no kind is given, it is a package, unless
/// the extension says otherwise.
pub proof fn a_path_gives_the_name_of_the_file(
    kind: LibraryKind,
    path: Seq<char>,
    facts: PathFactsView,
)
    requires
        is_relative(path),
        ends_in_name(path),
        facts.fits(path),
    ensures
        requested(Some(kind.printed()), path, facts) == Ok::<_, LinkErrorView>(
            LinkRequestView::Library(
                LinkLibraryView {
                    name: crate::snapshots::stem_of(crate::text::last_part(path, '/')),
                    path: None,
                    kind,
                },
            ),
        ),
        path.contains('/') ==> requested(None, path, facts) == Ok::<_, LinkErrorView>(
            LinkRequestView::Library(
                LinkLibraryView {
                    name: crate::snapshots::stem_of(crate::text::last_part(path, '/')),
                    path: None,
                    kind: if crate::snapshots::extension_of(crate::text::last_part(path, '/'))
                        == Some("masm"@) {
                        LibraryKind::Masm
                    } else {
                        LibraryKind::Masp
                    },
                },
            ),
        ),
{
    kind_reads_back(kind);
    reveal_strlit("masm");
    reveal_strlit("masp");
}

proof fn a_name_is_its_last_part(name: Seq<char>)
    requires
        is_plain_name(name),
    ensures
        crate::text::last_part(name, '/') == name,
        ends_in_name(name),
        is_relative(name),
{
    no_slash_no_directory(name);
    assert(crate::text::last_part(name, '/') =~= name);
    reveal_strlit("//");
    assert(name.contains(name[0]));
}

proof fn no_slash_no_directory(name: Seq<char>)
    requires
        !name.contains('/'),
    ensures
        crate::text::behind_last(name, '/') == 0,
    decreases name.len(),
{
    if name.len() > 0 {
        assert(name.contains(name.last()));
        assert forall|c: char| name.drop_last().contains(c) implies name.contains(c) by {
            let i = choose|i: int| 0 <= i < name.drop_last().len() && name.drop_last()[i] == c;
            assert(name[i] == c);
        }
        no_slash_no_directory(name.drop_last());
    }
}

proof fn no_dot_no_extension(name: Seq<char>)
    requires
        !name.contains('.'),
    ensures
        crate::snapshots::last_dot(name) is None,
    decreases name.len(),
{
    if name.len() > 0 {
        assert(name.contains(name.last()));
        assert forall|c: char| name.drop_last().contains(c) implies name.contains(c) by {
            let i = choose|i: int| 0 <= i < name.drop_last().len() && name.drop_last()[i] == c;
            assert(name[i] == c);
        }
        no_dot_no_extension(name.drop_last());
    }
}

/// What is at a path.
#[derive(Debug, Clone, Copy, PartialEq, Eq, Structural)]
pub struct FileSort {
    pub is_file: bool,
    pub is_dir: bool,
}

/// The library that was asked for by path, given what is there, or why nothing could be found out
/// about it.
pub open spec fn library_at(
    path: Seq<char>,
    kind: LibraryKind,
    stem: Option<Seq<char>>,
    found: Result<FileSort, Seq<char>>,
) -> Result<LinkLibraryView, Seq<char>> {
    match found {
        Err(m) => Err("invalid link library: unable to load '"@ + path + "': "@ + m),
        Ok(sort) => if kind == LibraryKind::Masp && !sort.is_file {
            Err("invalid link library: '"@ + path + "' is not a file"@)
        } else if kind == LibraryKind::Masm && !sort.is_dir {
            Err(
                "invalid link library: kind 'masm' was specified, but '"@ + path
                    + "' is not a directory"@,
            )
        } else {
            match stem {
                Some(name) => Ok(LinkLibraryView { name, path: Some(path), kind }),
                None => Err("invalid link library: '"@ + path + "' has no name"@),
            }
        },
    }
}

/// Whether there is a directory in front of a name.
fn has_slash(name: &str) -> (r: bool)
    ensures
        r == name@.contains('/'),
{
    let chars = crate::text::chars_of(name);
    let mut i: usize = 0;
    while i < chars.len()
        invariant
            i <= chars@.len(),
            chars@ == name@,
            forall|k: int| 0 <= k < i ==> chars@[k] != '/',
        decreases chars@.len() - i,
    {
        if chars[i] == '/' {
            proof {
                assert(name@[i as int] == '/');
            }
            return true;
        }
        i += 1;
    }
    false
}

/// Reads the libraries that are asked for on the command line: `[KIND=]NAME`, where the kind is
/// `masp` or `masm`, and the name is an absolute path, or a name.
#[derive(Debug, Clone, Copy)]
pub struct LinkLibraryParser;

impl LinkLibraryParser {
    /// The kinds that can be named, with what they are.
    pub fn possible_values(&self) -> (r: Vec<(LibraryKind, &'static str)>)
        ensures
            r@.len() == 2,
            r@[0].0 == LibraryKind::Masm && r@[0].1@ == "A Miden Assembly project directory"@,
            r@[1].0 == LibraryKind::Masp && r@[1].1@ == "A compiled Miden package file"@,
    {
        vec![
            (LibraryKind::Masm, "A Miden Assembly project directory"),
            (LibraryKind::Masp, "A compiled Miden package file"),
        ]
    }

    fn kind_of(kind: &Option<String>, name: &String, extension: &Option<String>) -> (r: Result<
        LibraryKind,
        String,
    >)
        ensures
            match r {
                Ok(k) => requested_kind(
                    crate::debug::op::text_view(*kind),
                    name@,
                    crate::debug::op::text_view(*extension),
                ) == Ok::<LibraryKind, Seq<char>>(k),
                Err(k) => requested_kind(
                    crate::debug::op::text_view(*kind),
                    name@,
                    crate::debug::op::text_view(*extension),
                ) == Err::<LibraryKind, Seq<char>>(k@),
            },
    {
        if let Some(k) = kind {
            if k.as_str().unicode_len() > 0 {
                return match LibraryKind::from_str(k.as_str()) {
                    Ok(kind) => Ok(kind),
                    Err(_) => Err(k.clone()),
                };
            }
        }
        match extension {
            None => Ok(LibraryKind::Masp),
            Some(e) => match LibraryKind::from_str(e.as_str()) {
                Ok(kind) => Ok(kind),
                Err(_) => if has_slash(name.as_str()) {
                    Ok(LibraryKind::Masp)
                } else {
                    Err(e.clone())
                },
            },
        }
    }

    /// What a request asks for, given what its path looks like.
    pub fn request(kind: &Option<String>, name: &String, facts: &PathFacts) -> (r: Result<
        LinkRequest,
        LinkError,
    >)
        ensures
            match r {
                Ok(request) => requested(crate::debug::op::text_view(*kind), name@, facts@) == Ok::<
                    LinkRequestView,
                    LinkErrorView,
                >(request@),
                Err(e) => requested(crate::debug::op::text_view(*kind), name@, facts@) == Err::<
                    LinkRequestView,
                    LinkErrorView,
                >(e@),
            },
    {
        let length: usize = name.as_str().unicode_len();
        if length == 0 {
            return Err(
                LinkError {
                    kind: LinkErrorKind::ValueValidation,
                    message: "invalid link library: must specify a name or path".to_owned(),
                },
            );
        }
        let kind = match LinkLibraryParser::kind_of(kind, name, &facts.extension) {
            Ok(kind) => kind,
            Err(k) => {
                let mut message = "'".to_owned();
                message.append(k.as_str());
                message.append("' is not a valid library kind");
                return Err(LinkError { kind: LinkErrorKind::InvalidValue, message });
            },
        };
        if facts.is_absolute {
            return Ok(
                LinkRequest::ByPath {
                    path: name.clone(),
                    kind,
                    stem: crate::debug::op::clone_text(&facts.stem),
                },
            );
        }
        let name = match &facts.stem {
            Some(stem) => stem.clone(),
            None => name.clone(),
        };
        Ok(LinkRequest::Library(LinkLibrary { name, path: None, kind }))
    }

    /// What a value on the command line asks for. The value is missing where it is not text.
    pub fn parse_ref(&self, value: Option<&str>) -> (r: Result<LinkRequest, LinkError>)
        ensures
            match value {
                None => r matches Err(e) && e.kind == LinkErrorKind::InvalidUtf8,
                Some(text) => exists|facts: PathFactsView|
                    {
                        &&& #[trigger] answers(r, kind_and_name(text@), facts)
                        &&& facts.fits(kind_and_name(text@).1)
                    },
            },
    {
        let value = match value {
            Some(value) => value,
            None => {
                return Err(
                    LinkError { kind: LinkErrorKind::InvalidUtf8, message: String::new() },
                );
            },
        };
        let (kind, name) = match crate::text::split_once(value, "=") {
            Some((kind, name)) => (Some(kind), name),
            None => (None, value.to_owned()),
        };
        let facts = PathFacts {
            extension: path_extension(name.as_str()),
            stem: path_stem(name.as_str()),
            is_absolute: path_is_absolute(name.as_str()),
        };
        let r = LinkLibraryParser::request(&kind, &name, &facts);
        proof {
            assert(answers(r, kind_and_name(value@), facts@));
        }
        r
    }

    /// The library that was asked for by path, given what is there, or why nothing could be found
    /// out about it.
    pub fn check_path(
        path: &String,
        kind: LibraryKind,
        stem: &Option<String>,
        found: &Result<FileSort, String>,
    ) -> (r: Result<LinkLibrary, LinkError>)
        ensures
            ({
                let wanted = library_at(
                    path@,
                    kind,
                    crate::debug::op::text_view(*stem),
                    match found {
                        Ok(sort) => Ok(*sort),
                        Err(m) => Err(m@),
                    },
                );
                match r {
                    Ok(library) => wanted == Ok::<LinkLibraryView, Seq<char>>(library@),
                    Err(e) => {
                        &&& e.kind == LinkErrorKind::ValueValidation
                        &&& wanted == Err::<LinkLibraryView, Seq<char>>(e.message@)
                    },
                }
            }),
    {
        let mut message = "invalid link library: ".to_owned();
        proof {
            reveal_strlit("invalid link library: ");
            reveal_strlit("invalid link library: unable to load '");
            reveal_strlit("unable to load '");
            reveal_strlit("invalid link library: '");
            reveal_strlit("'");
            reveal_strlit("invalid link library: kind 'masm' was specified, but '");
            reveal_strlit("kind 'masm' was specified, but '");
            assert("invalid link library: "@ + "unable to load '"@
                =~= "invalid link library: unable to load '"@);
            assert("invalid link library: "@ + "'"@ =~= "invalid link library: '"@);
            assert("invalid link library: "@ + "kind 'masm' was specified, but '"@
                =~= "invalid link library: kind 'masm' was specified, but '"@);
        }
        match found {
            Err(m) => {
                message.append("unable to load '");
                message.append(path.as_str());
                message.append("': ");
                message.append(m.as_str());
            },
            Ok(sort) => {
                let masp = match kind {
                    LibraryKind::Masp => true,
                    LibraryKind::Masm => false,
                };
                if masp && !sort.is_file {
                    message.append("'");
                    message.append(path.as_str());
                    message.append("' is not a file");
                } else if !masp && !sort.is_dir {
                    message.append("kind 'masm' was specified, but '");
                    message.append(path.as_str());
                    message.append("' is not a directory");
                } else {
                    match stem {
                        Some(name) => {
                            return Ok(
                                LinkLibrary {
                                    name: name.clone(),
                                    path: Some(path.clone()),
                                    kind,
                                },
                            );
                        },
                        None => {
                            message.append("'");
                            message.append(path.as_str());
                            message.append("' has no name");
                        },
                    }
                }
            },
        }
        Err(LinkError { kind: LinkErrorKind::ValueValidation, message })
    }
}

// ---------------------------------------------------------------------------------------------
// What holds of every library
// ---------------------------------------------------------------------------------------------

/// Two kinds have names, and no other text stands for a kind.
pub proof fn kinds_are_known_by_name(s: Seq<char>)
    ensures
        LibraryKind::of("masm"@) == Some(LibraryKind::Masm),
        LibraryKind::of("masp"@) == Some(LibraryKind::Masp),
        LibraryKind::of(s) is Some ==> s == "masm"@ || s == "masp"@,
        LibraryKind::Masm.printed() == "masm"@,
        LibraryKind::Masp.printed() == "masp"@,
{
    kind_reads_back(LibraryKind::Masm);
    kind_reads_back(LibraryKind::Masp);
}

proof fn the_first_of_the_name_counts(entries: Seq<DirEntryView>, name: Seq<char>, k: int)
    requires
        0 <= k <= entries.len(),
        forall|j: int| 0 <= j < k ==> (#[trigger] entries[j]).stem != Some(name),
    ensures
        k < entries.len() && entries[k].stem == Some(name) ==> first_named(entries, name) == Some(
            entries[k],
        ),
        k == entries.len() ==> first_named(entries, name) is None,
    decreases entries.len(),
{
    if k > 0 {
        let rest = entries.skip(1);
        assert(entries[0].stem != Some(name));
        assert forall|j: int| 0 <= j < k - 1 implies (#[trigger] rest[j]).stem != Some(name) by {
            assert(rest[j] == entries[j + 1]);
        }
        the_first_of_the_name_counts(rest, name, k - 1);
    }
}

/// Whether a directory can be read, and has nothing of this name.
pub open spec fn lacks(dir: SearchDirView, name: Seq<char>) -> bool {
    dir.listing matches Ok(entries) && forall|k: int|
        0 <= k < entries.len() ==> (#[trigger] entries[k]).stem != Some(name)
}

/// A library is what has its name first in the first directory that has something of its name: for
/// a package this must be a file, for assembly a directory. A directory that cannot be read ends the
/// search, and so does having looked everywhere.
pub proof fn a_library_is_found_in_the_first_directory(
    dirs: Seq<SearchDirView>,
    name: Seq<char>,
    kind: LibraryKind,
    d: int,
    k: int,
)
    requires
        0 <= d <= dirs.len(),
        forall|j: int| 0 <= j < d ==> lacks(#[trigger] dirs[j], name),
    ensures
        d == dirs.len() ==> library_path(dirs, name, kind) is Err,
        d < dirs.len() && dirs[d].listing is Err ==> library_path(dirs, name, kind) is Err,
        d < dirs.len() ==> (dirs[d].listing matches Ok(entries) ==> {
            (0 <= k < entries.len() && entries[k].stem == Some(name) && forall|j: int|
                0 <= j < k ==> (#[trigger] entries[j]).stem != Some(name)) ==> {
                let fits = match kind {
                    LibraryKind::Masp => entries[k].is_file,
                    LibraryKind::Masm => entries[k].is_dir,
                };
                &&& fits ==> library_path(dirs, name, kind) == Ok::<Seq<char>, Seq<char>>(
                    entries[k].path,
                )
                &&& !fits ==> library_path(dirs, name, kind) is Err
            }
        }),
    decreases dirs.len(),
{
    if d > 0 {
        let rest = dirs.skip(1);
        assert(lacks(dirs[0], name));
        let here = dirs[0].listing->Ok_0;
        the_first_of_the_name_counts(here, name, here.len() as int);
        assert forall|j: int| 0 <= j < d - 1 implies lacks(#[trigger] rest[j], name) by {
            assert(rest[j] == dirs[j + 1]);
        }
        if d < dirs.len() {
            assert(rest[d - 1] == dirs[d]);
        }
        a_library_is_found_in_the_first_directory(rest, name, kind, d - 1, k);
    } else if d < dirs.len() {
        if let Ok(entries) = dirs[0].listing {
            if 0 <= k < entries.len() && entries[k].stem == Some(name) && (forall|j: int|
                0 <= j < k ==> (#[trigger] entries[j]).stem != Some(name)) {
                the_first_of_the_name_counts(entries, name, k);
            }
        }
    }
}

/// What keeps a library from being found is told with what it is about: the name, or the path.
pub proof fn a_failed_search_names_its_cause(
    dirs: Seq<SearchDirView>,
    name: Seq<char>,
    kind: LibraryKind,
    entry: DirEntryView,
)
    ensures
        dirs.len() == 0 ==> (library_path(dirs, name, kind) matches Err(m) && exists|
            before: Seq<char>,
            after: Seq<char>,
        |
            m == #[trigger] (before + name + after)),
        checked_entry(entry, kind) matches Err(m) ==> exists|before: Seq<char>, after: Seq<char>|
            m == #[trigger] (before + entry.path + after),
{
}

/// The directory of the toolchain is searched first, the working directory last, and those that the
/// user names in between, in their order; no other is searched.
pub proof fn directories_are_searched_in_order(
    toolchain: Option<Seq<char>>,
    search_path: Seq<Seq<char>>,
    working_dir: Option<Seq<char>>,
    i: int,
)
    ensures
        ({
            let order = search_order(toolchain, search_path, working_dir);
            let at: int = if toolchain is Some {
                1
            } else {
                0
            };
            let end: int = if working_dir is Some {
                1
            } else {
                0
            };
            &&& order.len() == at + search_path.len() + end
            &&& toolchain matches Some(dir) ==> order[0] == dir
            &&& 0 <= i < search_path.len() ==> order[at + i] == search_path[i]
            &&& working_dir matches Some(dir) ==> order.last() == dir
        }),
{
}

/// A directory of assembly is put together under the name of the library, and a package is read.
pub proof fn a_library_is_loaded_by_its_kind(
    plan: LoadPlan,
    library: LinkLibraryView,
    path: Seq<char>,
)
    requires
        plan.loads(library, path),
    ensures
        plan is Assemble <==> library.kind == LibraryKind::Masm,
        plan matches LoadPlan::Assemble { path: p, name } ==> p@ == path && name@ == library.name,
        plan matches LoadPlan::ReadPackage { path: p } ==> p@ == path,
{
}

/// Only a package with a library can be used as a library.
pub proof fn only_libraries_are_linked(path: Seq<char>, package: Result<bool, Seq<char>>)
    ensures
        package_refusal(path, package) is None <==> package == Ok::<bool, Seq<char>>(true),
        package_refusal(path, package) matches Some(m) ==> exists|
            before: Seq<char>,
            after: Seq<char>,
        |
            m == #[trigger] (before + path + after),
        package matches Err(e) ==> (package_refusal(path, package) matches Some(m)
            && e.is_suffix_of(m)),
{
    match package {
        Err(e) => {
            let m = "failed to load Miden package from "@ + path + ": "@ + e;
            assert(m =~= "failed to load Miden package from "@ + path + (": "@ + e));
            assert(e =~= m.subrange(m.len() - e.len(), m.len() as int));
        },
        _ => {},
    }
}

/// The kind is what stands before the first `=`, and the name is all that stands behind it; without
/// an `=` there is only a name.
pub proof fn a_request_is_a_kind_and_a_name(value: Seq<char>)
    ensures
        match kind_and_name(value).0 {
            Some(kind) => value == kind + seq!['='] + kind_and_name(value).1 && !kind.contains('='),
            None => kind_and_name(value).1 == value && !value.contains('='),
        },
{
    let sep = "="@;
    reveal_strlit("=");
    assert(sep =~= seq!['=']);
    crate::text::a_split_text_is_put_together_again(value, sep);
    match crate::text::split_first(value, sep) {
        Some((kind, name)) => {
            if kind.contains('=') {
                let i = choose|i: int| 0 <= i < kind.len() && kind[i] == '=';
                let x = value.take(i);
                let y = value.skip(i + 1);
                assert(value[i] == '=');
                assert(value =~= x + sep + y);
            }
        },
        None => {
            if value.contains('=') {
                let i = choose|i: int| 0 <= i < value.len() && value[i] == '=';
                let x = value.take(i);
                let y = value.skip(i + 1);
                assert(value =~= x + sep + y);
            }
        },
    }
}

/// A request without a name is refused. A kind that is named counts, whatever the extension is, and
/// one that is none is refused. Where no kind is named, the extension counts; one that stands for no
/// kind is refused, unless the name is that of a file in a directory.
pub proof fn a_kind_that_is_named_counts(
    kind: Option<Seq<char>>,
    name: Seq<char>,
    facts: PathFactsView,
)
    ensures
        ({
            let r = requested(kind, name, facts);
            let unnamed = match kind {
                Some(k) => k.len() == 0,
                None => true,
            };
            let taken = match r {
                Ok(LinkRequestView::Library(library)) => Some(library.kind),
                Ok(LinkRequestView::ByPath { kind, .. }) => Some(kind),
                Err(_) => None,
            };
            &&& name.len() == 0 ==> (r matches Err(e) && e.kind == LinkErrorKind::ValueValidation)
            &&& name.len() > 0 && r is Err ==> r->Err_0.kind == LinkErrorKind::InvalidValue
            &&& name.len() > 0 && kind == Some("masm"@) ==> taken == Some(LibraryKind::Masm)
            &&& name.len() > 0 && kind == Some("masp"@) ==> taken == Some(LibraryKind::Masp)
            &&& !unnamed && kind != Some("masm"@) && kind != Some("masp"@) ==> r is Err
            &&& name.len() > 0 && unnamed ==> {
                &&& facts.extension is None ==> taken == Some(LibraryKind::Masp)
                &&& facts.extension == Some("masp"@) ==> taken == Some(LibraryKind::Masp)
                &&& facts.extension == Some("masm"@) ==> taken == Some(LibraryKind::Masm)
                &&& facts.extension is Some && facts.extension != Some("masm"@) && facts.extension
                    != Some("masp"@) ==> if name.contains('/') {
                    taken == Some(LibraryKind::Masp)
                } else {
                    r is Err
                }
            }
        }),
{
    reveal_strlit("masm");
    reveal_strlit("masp");
    assert("masm"@[3] != "masp"@[3]);
}

/// A path from the root is looked at as it stands; anything else is a name to search for, without
/// the extension.
pub proof fn only_paths_from_the_root_are_looked_at(
    kind: Option<Seq<char>>,
    name: Seq<char>,
    facts: PathFactsView,
)
    ensures
        match requested(kind, name, facts) {
            Ok(LinkRequestView::ByPath { path, stem, .. }) => facts.is_absolute && path == name
                && stem == facts.stem,
            Ok(LinkRequestView::Library(library)) => {
                &&& !facts.is_absolute
                &&& library.path is None
                &&& facts.stem matches Some(stem) ==> library.name == stem
                &&& facts.stem is None ==> library.name == name
            },
            Err(_) => true,
        },
{
}

/// A library that is asked for by path must be there, as a file where it is a package and as a
/// directory where it is assembly, and must have a name; it is then loaded from where it is.
pub proof fn a_library_by_path_must_be_there(
    path: Seq<char>,
    kind: LibraryKind,
    stem: Option<Seq<char>>,
    found: Result<FileSort, Seq<char>>,
)
    ensures
        library_at(path, kind, stem, found) is Ok <==> {
            &&& found matches Ok(sort)
            &&& kind == LibraryKind::Masp ==> sort.is_file
            &&& kind == LibraryKind::Masm ==> sort.is_dir
            &&& stem is Some
        },
        library_at(path, kind, stem, found) matches Ok(library) ==> {
            &&& Some(library.name) == stem
            &&& library.path == Some(path)
            &&& library.kind == kind
        },
        library_at(path, kind, stem, found) matches Err(m) ==> exists|
            before: Seq<char>,
            after: Seq<char>,
        |
            m == #[trigger] (before + path + after),
{
    if let Err(e) = found {
        let m = "invalid link library: unable to load '"@ + path + "': "@ + e;
        assert(m =~= "invalid link library: unable to load '"@ + path + ("': "@ + e));
    }
}

/// A request is answered with what it asks for where it asks for something, and refused where it is
/// a mistake; the mistake that is told is the one that was made.
pub proof fn a_request_is_answered_or_refused(
    answer: Result<LinkRequest, LinkError>,
    request: (Option<Seq<char>>, Seq<char>),
    facts: PathFactsView,
)
    requires
        answers(answer, request, facts),
    ensures
        answer is Ok <==> requested(request.0, request.1, facts) is Ok,
        answer matches Ok(r) ==> r@ == requested(request.0, request.1, facts)->Ok_0,
        answer matches Err(e) ==> e@ == requested(request.0, request.1, facts)->Err_0,
        request.1.len() == 0 ==> answer is Err,
{
}

} // verus!
