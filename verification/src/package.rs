//! Packages: the program to debug, and the libraries it is linked against.
use std::sync::Arc;

use miden_assembly_syntax::ast::{Ident, ProcedureName, QualifiedProcedureName};
use miden_core::program::Program;
use miden_core::serde::Deserializable;
use miden_mast_package::Package;
use vstd::prelude::*;
use vstd::string::*;

use crate::config::InputFile;
use crate::exec::advice::{Felt, Record, Word};
use crate::exec::executor::{Dependency, Executor, Library};

verus! {

// ---------------------------------------------------------------------------------------------
// What is in a package
// ---------------------------------------------------------------------------------------------

/// A package.
#[verifier::external_type_specification]
#[verifier::external_body]
pub struct ExPackage(miden_mast_package::Package);

/// The name of a procedure, with the module it stands in.
#[verifier::external_type_specification]
#[verifier::external_body]
pub struct ExQualifiedProcedureName(miden_assembly_syntax::ast::QualifiedProcedureName);

/// What is in a package, as one plain value.
///
/// No function here returns it: it stands for the package itself wherever the result of a call is
/// named by the package that the call is about, and claims only that such a call depends on nothing
/// but what is in the package.
pub uninterp spec fn package_contents(package: miden_mast_package::Package) -> Seq<u8>;

/// The package that some bytes hold, by its contents; or why they hold none.
pub uninterp spec fn package_parsed(bytes: Seq<u8>) -> Result<Seq<u8>, Seq<char>>;

/// Reads a package.
///
/// Trusted: `Package::read_from_bytes` of `miden-mast-package`. The result is named, not described.
/// The types in the package are laid out while it is read, so that each of them must have a layout.
#[verifier::external_body]
fn read_package(bytes: &Vec<u8>) -> (r: Result<Package, String>)
    requires
        !(crate::layout::package_at(bytes@) is Fault),
    ensures
        match r {
            Ok(package) => package_parsed(bytes@) == Ok::<Seq<u8>, Seq<char>>(
                package_contents(package),
            ),
            Err(e) => package_parsed(bytes@) == Err::<Seq<u8>, Seq<char>>(e@),
        },
{
    Package::read_from_bytes(bytes).map_err(|e| e.to_string())
}

/// The package that some bytes hold, by its contents; or why it cannot be had.
pub open spec fn package_opened(bytes: Seq<u8>) -> Result<Seq<u8>, Seq<char>> {
    if crate::layout::package_at(bytes) is Fault {
        Err("invalid value: a type in the package has no layout"@)
    } else {
        package_parsed(bytes)
    }
}

/// Opens a package.
pub fn open_package(bytes: &Vec<u8>) -> (r: Result<Package, String>)
    ensures
        match r {
            Ok(package) => package_opened(bytes@) == Ok::<Seq<u8>, Seq<char>>(
                package_contents(package),
            ),
            Err(e) => package_opened(bytes@) == Err::<Seq<u8>, Seq<char>>(e@),
        },
{
    match crate::layout::survey_package(bytes) {
        crate::layout::Found::Fault => Err(
            "invalid value: a type in the package has no layout".to_owned(),
        ),
        _ => read_package(bytes),
    }
}

/// Something that a package exports.
#[derive(Debug)]
pub struct Export {
    /// The last name in its path.
    pub name: Option<String>,
    /// Whether something stands before that name in the path.
    pub in_module: bool,
    /// Whether it stands in the kernel.
    pub in_kernel: bool,
    /// Whether it is a procedure.
    pub is_procedure: bool,
}

/// What an [`Export`] says.
pub struct ExportView {
    pub name: Option<Seq<char>>,
    pub in_module: bool,
    pub in_kernel: bool,
    pub is_procedure: bool,
}

impl View for Export {
    type V = ExportView;

    open spec fn view(&self) -> ExportView {
        ExportView {
            name: crate::debug::op::text_view(self.name),
            in_module: self.in_module,
            in_kernel: self.in_kernel,
            is_procedure: self.is_procedure,
        }
    }
}

/// The views of what is exported.
pub open spec fn export_views(exports: Seq<Export>) -> Seq<ExportView> {
    exports.map_values(|e: Export| e@)
}

/// What a package exports. The package is given by its contents.
pub uninterp spec fn package_exports(package: Seq<u8>) -> Seq<ExportView>;

/// What a package exports.
///
/// Trusted: `Library::exports` of `miden-assembly-syntax`, on the field `mast` of `Package` of
/// `miden-mast-package`, with `LibraryExport::path` and `LibraryExport::as_procedure`, and
/// `Path::last`, `Path::parent` and `Path::is_in_kernel`. The result is named, not described.
#[verifier::external_body]
fn exports_of(package: &Package) -> (r: Vec<Export>)
    ensures
        export_views(r@) == package_exports(package_contents(*package)),
{
    let exports = package.mast.exports().map(|export| (export.path(), export.as_procedure()));
    let views = exports.map(|(path, procedure)| Export {
        name: path.last().map(|name| name.to_string()),
        in_module: path.parent().is_some(),
        in_kernel: path.is_in_kernel(),
        is_procedure: procedure.is_some(),
    });
    views.collect()
}

/// Whether a text is taken for the name of a procedure.
pub uninterp spec fn names_procedure(text: Seq<char>) -> bool;

/// Tells whether a text is taken for the name of a procedure.
///
/// Trusted: `ProcedureName::new` of `miden-assembly-syntax`. Whether it succeeds is named, not
/// described.
#[verifier::external_body]
fn is_procedure_name(text: &str) -> (r: bool)
    ensures
        r == names_procedure(text@),
{
    ProcedureName::new(text).is_ok()
}

/// Whether a text is taken for an identifier.
pub uninterp spec fn is_identifier(text: Seq<char>) -> bool;

/// Tells whether a text is taken for an identifier.
///
/// Trusted: `Ident::new` of `miden-assembly-syntax`. Whether it succeeds is named, not described.
#[verifier::external_body]
fn identifies(text: &str) -> (r: bool)
    ensures
        r == is_identifier(text@),
{
    Ident::new(text).is_ok()
}

impl ExportView {
    /// Whether the last name in the path, without any quotes round it, is one for a thing of this
    /// sort.
    pub open spec fn is_named(self) -> bool {
        match self.name {
            Some(name) => if self.is_procedure {
                names_procedure(name)
            } else {
                is_identifier(name)
            },
            None => false,
        }
    }
}

impl Export {
    fn is_named(&self) -> (r: bool)
        ensures
            r == self@.is_named(),
    {
        match &self.name {
            Some(name) => if self.is_procedure {
                is_procedure_name(name.as_str())
            } else {
                identifies(name.as_str())
            },
            None => false,
        }
    }
}

/// Whether all that is exported stands in a module, and has a name there.
pub open spec fn all_in_modules(exports: Seq<ExportView>) -> bool {
    forall|i: int|
        0 <= i < exports.len() ==> (#[trigger] exports[i]).in_module && exports[i].is_named()
}

/// Whether all that is exported from the kernel has a name.
pub open spec fn kernel_is_named(exports: Seq<ExportView>) -> bool {
    forall|i: int|
        0 <= i < exports.len() ==> (#[trigger] exports[i]).in_kernel ==> exports[i].is_named()
}

fn are_in_modules(exports: &Vec<Export>) -> (r: bool)
    ensures
        r == all_in_modules(export_views(exports@)),
{
    let mut i: usize = 0;
    while i < exports.len()
        invariant
            i <= exports@.len(),
            forall|k: int|
                0 <= k < i ==> (#[trigger] export_views(exports@)[k]).in_module && export_views(
                    exports@,
                )[k].is_named(),
        decreases exports@.len() - i,
    {
        proof {
            assert(export_views(exports@)[i as int] == exports@[i as int]@);
        }
        if !exports[i].in_module || !exports[i].is_named() {
            return false;
        }
        i += 1;
    }
    true
}

fn is_kernel_named(exports: &Vec<Export>) -> (r: bool)
    ensures
        r == kernel_is_named(export_views(exports@)),
{
    let mut i: usize = 0;
    while i < exports.len()
        invariant
            i <= exports@.len(),
            forall|k: int|
                0 <= k < i ==> (#[trigger] export_views(exports@)[k]).in_kernel ==> export_views(
                    exports@,
                )[k].is_named(),
        decreases exports@.len() - i,
    {
        proof {
            assert(export_views(exports@)[i as int] == exports@[i as int]@);
        }
        if exports[i].in_kernel && !exports[i].is_named() {
            return false;
        }
        i += 1;
    }
    true
}

/// A part of a package that others have put there.
#[derive(Debug)]
pub struct PackageSection {
    pub id: String,
    pub data: Vec<u8>,
}

/// What a [`PackageSection`] says.
pub struct SectionView {
    pub id: Seq<char>,
    pub data: Seq<u8>,
}

impl View for PackageSection {
    type V = SectionView;

    open spec fn view(&self) -> SectionView {
        SectionView { id: self.id@, data: self.data@ }
    }
}

/// The views of sections.
pub open spec fn section_views(sections: Seq<PackageSection>) -> Seq<SectionView> {
    sections.map_values(|s: PackageSection| s@)
}

/// The sections of a package. The package is given by its contents.
pub uninterp spec fn package_sections(package: Seq<u8>) -> Seq<SectionView>;

/// The sections of a package.
///
/// Trusted: the field `sections` of `Package` of `miden-mast-package`, with `SectionId::as_str`. The
/// result is named, not described.
#[verifier::external_body]
fn sections_of(package: &Package) -> (r: Vec<PackageSection>)
    ensures
        section_views(r@) == package_sections(package_contents(*package)),
{
    let sections = package.sections.iter().map(|section| (section.id.as_str(), &section.data));
    sections.map(|(id, data)| PackageSection { id: id.to_string(), data: data.to_vec() }).collect()
}

/// Whether the bytes of a kernel can be looked at: the types in it have a layout, and what it exports
/// has names.
pub open spec fn kernel_is_sound(bytes: Seq<u8>) -> bool {
    &&& !(crate::layout::package_at(bytes) is Fault)
    &&& package_parsed(bytes) matches Ok(package) ==> kernel_is_named(package_exports(package))
}

/// Whether the kernel that a package comes with, if any, can be looked at.
pub open spec fn kernels_are_sound(sections: Seq<SectionView>) -> bool {
    forall|i: int|
        0 <= i < sections.len() ==> (#[trigger] sections[i]).id == "kernel"@ ==> kernel_is_sound(
            sections[i].data,
        )
}

fn check_kernel(bytes: &Vec<u8>) -> (r: bool)
    ensures
        r == kernel_is_sound(bytes@),
{
    match crate::layout::survey_package(bytes) {
        crate::layout::Found::Fault => false,
        _ => match read_package(bytes) {
            Ok(package) => is_kernel_named(&exports_of(&package)),
            Err(_) => true,
        },
    }
}

fn check_kernels(sections: &Vec<PackageSection>) -> (r: bool)
    ensures
        r == kernels_are_sound(section_views(sections@)),
{
    let mut i: usize = 0;
    while i < sections.len()
        invariant
            i <= sections@.len(),
            forall|k: int|
                0 <= k < i ==> (#[trigger] section_views(sections@)[k]).id == "kernel"@
                    ==> kernel_is_sound(section_views(sections@)[k].data),
        decreases sections@.len() - i,
    {
        proof {
            assert(section_views(sections@)[i as int] == sections@[i as int]@);
        }
        if crate::text::same(sections[i].id.as_str(), "kernel") && !check_kernel(
            &sections[i].data,
        ) {
            return false;
        }
        i += 1;
    }
    true
}

/// Whether a package holds a library. The package is given by its contents.
pub uninterp spec fn package_is_library(package: Seq<u8>) -> bool;

/// Whether a package holds a library.
///
/// Trusted: `Package::is_library` of `miden-mast-package`.
#[verifier::external_body]
fn is_library(package: &Package) -> (r: bool)
    ensures
        r == package_is_library(package_contents(*package)),
{
    package.is_library()
}

/// A library, by its hash and the bytes of its code.
pub struct LibraryView {
    pub digest: Word,
    pub forest: Seq<u8>,
}

impl View for Library {
    type V = LibraryView;

    open spec fn view(&self) -> LibraryView {
        LibraryView {
            digest: self.digest,
            forest: crate::exec::snapshot::forest_bytes(*self.forest),
        }
    }
}

/// The library in a package. The package is given by its contents.
pub uninterp spec fn package_library(package: Seq<u8>) -> LibraryView;

/// The library in a package.
///
/// Trusted: the field `mast` of `Package` of `miden-mast-package`, with `Library::digest` and
/// `Library::mast_forest` of `miden-assembly-syntax`. The result is named, not described.
#[verifier::external_body]
fn library_in(package: &Package) -> (r: Library)
    ensures
        r@ == package_library(package_contents(*package)),
{
    let digest: [u64; 4] = package.mast.digest().map(|e| e.as_canonical_u64());
    let [a, b, c, d] = digest.map(|value| Felt { value });
    Library { digest: Word { a, b, c, d }, forest: Arc::clone(package.mast.mast_forest()) }
}

/// The hashes of what a package depends on. The package is given by its contents.
pub uninterp spec fn package_dependencies(package: Seq<u8>) -> Seq<Word>;

/// The hashes of dependencies.
pub open spec fn digests(dependencies: Seq<Dependency>) -> Seq<Word> {
    dependencies.map_values(|d: Dependency| d.digest)
}

/// What a package depends on.
///
/// Trusted: `PackageManifest::dependencies` of `miden-mast-package`. The result is named, not
/// described.
#[verifier::external_body]
pub(crate) fn dependencies_of(package: &Package) -> (r: Vec<Dependency>)
    ensures
        digests(r@) == package_dependencies(package_contents(*package)),
{
    let digests = package.manifest.dependencies().map(|d| d.digest.map(|e| e.as_canonical_u64()));
    let words = digests.map(|digest: [u64; 4]| digest.map(|value| Felt { value }));
    words.map(|[a, b, c, d]| Dependency { digest: Word { a, b, c, d } }).collect()
}

/// The program in a package, by its bytes, or why there is none. The package is given by its
/// contents.
pub uninterp spec fn package_program(package: Seq<u8>) -> Result<Seq<u8>, Seq<char>>;

/// The program in a package.
///
/// Trusted: `Package::try_into_program` of `miden-mast-package`. The result is named, not
/// described. A kernel that the package comes with is read, and what it exports is taken by its
/// names.
#[verifier::external_body]
fn program_in(package: &Package) -> (r: Result<Program, String>)
    requires
        kernels_are_sound(package_sections(package_contents(*package))),
    ensures
        match r {
            Ok(program) => package_program(package_contents(*package)) == Ok::<Seq<u8>, Seq<char>>(
                crate::exec::snapshot::program_bytes(program),
            ),
            Err(e) => package_program(package_contents(*package)) == Err::<Seq<u8>, Seq<char>>(e@),
        },
{
    package.try_into_program().map_err(|e| e.to_string())
}

/// What the name of a procedure says, as one plain value.
///
/// No function here returns it: it stands for the name itself where the result of a call is named by
/// the procedure that the call is about.
pub uninterp spec fn name_of(
    name: miden_assembly_syntax::ast::QualifiedProcedureName,
) -> Seq<char>;

/// The procedure that a text names; none where it names none.
pub uninterp spec fn procedure_named(text: Seq<char>) -> Option<Seq<char>>;

/// Takes a text for the name of a procedure.
///
/// Trusted: `QualifiedProcedureName::from_str` of `miden-assembly-syntax`. The result is named, not
/// described.
#[verifier::external_body]
fn procedure(text: &str) -> (r: Option<QualifiedProcedureName>)
    ensures
        match r {
            Some(name) => procedure_named(text@) == Some(name_of(name)),
            None => procedure_named(text@) is None,
        },
{
    text.parse::<QualifiedProcedureName>().ok()
}

/// The package that begins with a procedure of a library, by its contents; or why there is none. The
/// package with the library is given by its contents.
pub uninterp spec fn executable_made(package: Seq<u8>, entry: Seq<char>) -> Result<
    Seq<u8>,
    Seq<char>,
>;

/// Makes a package that begins with a procedure of a library.
///
/// Trusted: `Package::make_executable` of `miden-mast-package`. The result is named, not described.
/// All that the package exports is sorted into modules, by its names.
#[verifier::external_body]
fn make_executable(package: &Package, entry: &QualifiedProcedureName) -> (r: Result<
    Package,
    String,
>)
    requires
        all_in_modules(package_exports(package_contents(*package))),
    ensures
        match r {
            Ok(made) => executable_made(package_contents(*package), name_of(*entry)) == Ok::<
                Seq<u8>,
                Seq<char>,
            >(package_contents(made)),
            Err(e) => executable_made(package_contents(*package), name_of(*entry)) == Err::<
                Seq<u8>,
                Seq<char>,
            >(e@),
        },
{
    package.make_executable(entry).map_err(|e| e.to_string())
}

/// The library that some bytes hold, or why they hold none.
pub uninterp spec fn library_parsed(bytes: Seq<u8>) -> Result<LibraryView, Seq<char>>;

/// Reads a library.
///
/// Trusted: `Library::read_from_bytes` of `miden-assembly-syntax`, with `Library::digest` and
/// `Library::mast_forest`. The result is named, not described. The types in the library are laid out
/// while it is read, so that each of them must have a layout.
#[verifier::external_body]
fn read_library(bytes: &Vec<u8>) -> (r: Result<Library, String>)
    requires
        !(crate::layout::library_at(bytes@, 0) is Fault),
    ensures
        match r {
            Ok(library) => library_parsed(bytes@) == Ok::<LibraryView, Seq<char>>(library@),
            Err(e) => library_parsed(bytes@) == Err::<LibraryView, Seq<char>>(e@),
        },
{
    let library = miden_assembly_syntax::Library::read_from_bytes(bytes);
    let library = library.map_err(|e| e.to_string())?;
    let digest: [u64; 4] = library.digest().map(|e| e.as_canonical_u64());
    let [a, b, c, d] = digest.map(|value| Felt { value });
    Ok(Library { digest: Word { a, b, c, d }, forest: Arc::clone(library.mast_forest()) })
}

/// The library that some bytes hold, or why it cannot be had.
pub open spec fn library_opened(bytes: Seq<u8>) -> Result<LibraryView, Seq<char>> {
    if crate::layout::library_at(bytes, 0) is Fault {
        Err("invalid value: a type in the library has no layout"@)
    } else {
        library_parsed(bytes)
    }
}

/// Opens a library.
pub fn open_library(bytes: &Vec<u8>) -> (r: Result<Library, String>)
    ensures
        match r {
            Ok(library) => library_opened(bytes@) == Ok::<LibraryView, Seq<char>>(library@),
            Err(e) => library_opened(bytes@) == Err::<LibraryView, Seq<char>>(e@),
        },
{
    match crate::layout::survey_library(bytes, 0) {
        crate::layout::Found::Fault => Err(
            "invalid value: a type in the library has no layout".to_owned(),
        ),
        _ => read_library(bytes),
    }
}

// ---------------------------------------------------------------------------------------------
// The program to debug
// ---------------------------------------------------------------------------------------------

/// What a package is read from: the file, or what stood in the standard input.
pub open spec fn input_bytes(input: InputFile, file: Seq<u8>) -> Seq<u8> {
    match input {
        InputFile::Real(_) => file,
        InputFile::Stdin(bytes) => bytes@,
    }
}

/// Where a package comes from, in words.
pub open spec fn origin(input: InputFile) -> Seq<char> {
    match input {
        InputFile::Real(path) => path@,
        InputFile::Stdin(_) => "stdin"@,
    }
}

/// The package with the program to debug, by its contents; or why there is none. A library becomes a
/// program by the procedure that it begins with.
pub open spec fn package_loaded(
    input: InputFile,
    file: Seq<u8>,
    entry: Option<String>,
) -> Result<Seq<u8>, Seq<char>> {
    match package_opened(input_bytes(input, file)) {
        Err(e) => Err("failed to load Miden package from "@ + origin(input) + ": "@ + e),
        Ok(package) => match entry {
            None => Ok(package),
            Some(entry) => match procedure_named(entry@) {
                None => Err("invalid function identifier: '"@ + entry@ + "'"@),
                Some(name) => if !package_is_library(package) {
                    Err("cannot use --entrypoint with executable packages"@)
                } else if !all_in_modules(package_exports(package)) {
                    Err("cannot use --entrypoint with packages whose exports need quotes"@)
                } else {
                    executable_made(package, name)
                },
            },
        },
    }
}

/// Loads the package with the program to debug. `file` is what the file holds, where the package
/// comes from a file.
pub fn load_package(input: &InputFile, file: &Vec<u8>, entry: &Option<String>) -> (r: Result<
    Package,
    String,
>)
    ensures
        match r {
            Ok(package) => package_loaded(*input, file@, *entry) == Ok::<Seq<u8>, Seq<char>>(
                package_contents(package),
            ),
            Err(m) => package_loaded(*input, file@, *entry) == Err::<Seq<u8>, Seq<char>>(m@),
        },
{
    let read = match input {
        InputFile::Real(_) => open_package(file),
        InputFile::Stdin(bytes) => open_package(bytes),
    };
    let package = match read {
        Ok(package) => package,
        Err(e) => {
            let mut m = "failed to load Miden package from ".to_owned();
            match input {
                InputFile::Real(path) => {
                    m.append(path.as_str());
                },
                InputFile::Stdin(_) => {
                    m.append("stdin");
                },
            }
            m.append(": ");
            m.append(e.as_str());
            return Err(m);
        },
    };
    match entry {
        None => Ok(package),
        Some(entry) => match procedure(entry.as_str()) {
            None => {
                let mut m = "invalid function identifier: '".to_owned();
                m.append(entry.as_str());
                m.append("'");
                Err(m)
            },
            Some(name) => if !is_library(&package) {
                Err("cannot use --entrypoint with executable packages".to_owned())
            } else if !are_in_modules(&exports_of(&package)) {
                Err("cannot use --entrypoint with packages whose exports need quotes".to_owned())
            } else {
                make_executable(&package, &name)
            },
        },
    }
}

/// The program in a package, by its bytes, or why it cannot be had. The package is given by its
/// contents.
pub open spec fn program_taken(package: Seq<u8>) -> Result<Seq<u8>, Seq<char>> {
    if !kernels_are_sound(package_sections(package)) {
        Err("the kernel in the package cannot be used"@)
    } else {
        package_program(package)
    }
}

/// What a package with a program is made of: the program, and what it depends on.
pub fn take_apart(package: &Package) -> (r: Result<(Program, Vec<Dependency>), String>)
    ensures
        match r {
            Ok((program, dependencies)) => {
                &&& program_taken(package_contents(*package)) == Ok::<Seq<u8>, Seq<char>>(
                    crate::exec::snapshot::program_bytes(program),
                )
                &&& digests(dependencies@) == package_dependencies(package_contents(*package))
            },
            Err(e) => program_taken(package_contents(*package)) == Err::<Seq<u8>, Seq<char>>(e@),
        },
{
    if !check_kernels(&sections_of(package)) {
        return Err("the kernel in the package cannot be used".to_owned());
    }
    match program_in(package) {
        Ok(program) => Ok((program, dependencies_of(package))),
        Err(e) => Err(e),
    }
}

// ---------------------------------------------------------------------------------------------
// Libraries
// ---------------------------------------------------------------------------------------------

/// The library in a package that was read from a path, or why there is none.
pub open spec fn library_loaded(path: Seq<char>, file: Seq<u8>) -> Result<LibraryView, Seq<char>> {
    let package = package_opened(file);
    match crate::linker::package_refusal(
        path,
        match package {
            Ok(package) => Ok(package_is_library(package)),
            Err(e) => Err(e),
        },
    ) {
        Some(m) => Err(m),
        None => Ok(package_library(package->Ok_0)),
    }
}

/// Loads the library in a package.
pub fn load_library(path: &str, file: &Vec<u8>) -> (r: Result<Library, String>)
    ensures
        match r {
            Ok(library) => library_loaded(path@, file@) == Ok::<LibraryView, Seq<char>>(library@),
            Err(m) => library_loaded(path@, file@) == Err::<LibraryView, Seq<char>>(m@),
        },
{
    match open_package(file) {
        Ok(package) => match crate::linker::refuse_package(path, &Ok(is_library(&package))) {
            Some(m) => Err(m),
            None => Ok(library_in(&package)),
        },
        Err(e) => match crate::linker::refuse_package(path, &Err(e)) {
            Some(m) => Err(m),
            None => Err(String::new()),
        },
    }
}

/// A file in the directory of the toolchain.
#[derive(Debug)]
pub struct SysrootFile {
    pub path: String,
    /// The last name in the path.
    pub name: String,
    /// What the file holds, or why it cannot be read; of no account where the file is no library.
    pub content: Result<Vec<u8>, String>,
}

/// The sorts of libraries that a toolchain has.
#[derive(Debug, Clone, Copy, PartialEq, Eq, Structural)]
pub enum SysrootSort {
    /// A package.
    Masp,
    /// A library by itself.
    Masl,
}

/// What a file is, by its name; none where it is no library.
pub open spec fn sort_of(name: Seq<char>) -> Option<SysrootSort> {
    if crate::snapshots::extension_of(name) == Some("masp"@) {
        Some(SysrootSort::Masp)
    } else if crate::snapshots::extension_of(name) == Some("masl"@) {
        Some(SysrootSort::Masl)
    } else {
        None
    }
}

/// Tells what a file is, by its name.
pub fn sysroot_sort(name: &str) -> (r: Option<SysrootSort>)
    ensures
        r == sort_of(name@),
{
    let (_, extension) = crate::snapshots::split_name(name);
    match extension {
        Some(extension) => if crate::text::same(extension.as_str(), "masp") {
            Some(SysrootSort::Masp)
        } else if crate::text::same(extension.as_str(), "masl") {
            Some(SysrootSort::Masl)
        } else {
            None
        },
        None => None,
    }
}

impl SysrootFile {
    /// The library that the file holds, or why it cannot be loaded; none where it is no library.
    pub open spec fn library(&self) -> Result<Option<LibraryView>, Seq<char>> {
        match (sort_of(self.name@), self.content) {
            (None, _) => Ok(None),
            (Some(_), Err(e)) => Err(e@),
            (Some(SysrootSort::Masp), Ok(bytes)) => match package_opened(bytes@) {
                Err(e) => Err("failed to load package '"@ + self.path@ + "': "@ + e),
                Ok(package) => if package_is_library(package) {
                    Ok(Some(package_library(package)))
                } else {
                    Ok(None)
                },
            },
            (Some(SysrootSort::Masl), Ok(bytes)) => match library_opened(bytes@) {
                Err(e) => Err("failed to load library '"@ + self.path@ + "': "@ + e),
                Ok(library) => Ok(Some(library)),
            },
        }
    }

    fn load(&self) -> (r: Result<Option<Library>, String>)
        ensures
            match r {
                Ok(Some(library)) => self.library() == Ok::<Option<LibraryView>, Seq<char>>(
                    Some(library@),
                ),
                Ok(None) => self.library() == Ok::<Option<LibraryView>, Seq<char>>(None),
                Err(m) => self.library() == Err::<Option<LibraryView>, Seq<char>>(m@),
            },
    {
        match sysroot_sort(self.name.as_str()) {
            None => Ok(None),
            Some(sort) => match &self.content {
                Err(e) => Err(e.clone()),
                Ok(bytes) => match sort {
                    SysrootSort::Masp => match open_package(bytes) {
                        Ok(package) => if is_library(&package) {
                            Ok(Some(library_in(&package)))
                        } else {
                            Ok(None)
                        },
                        Err(e) => {
                            let mut m = "failed to load package '".to_owned();
                            m.append(self.path.as_str());
                            m.append("': ");
                            m.append(e.as_str());
                            Err(m)
                        },
                    },
                    SysrootSort::Masl => match open_library(bytes) {
                        Ok(library) => Ok(Some(library)),
                        Err(e) => {
                            let mut m = "failed to load library '".to_owned();
                            m.append(self.path.as_str());
                            m.append("': ");
                            m.append(e.as_str());
                            Err(m)
                        },
                    },
                },
            },
        }
    }
}

/// The libraries that some files hold, in the order of the files; or why the first of them that
/// cannot be loaded cannot be.
pub open spec fn sysroot_libraries(files: Seq<SysrootFile>) -> Result<Seq<LibraryView>, Seq<char>>
    decreases files.len(),
{
    if files.len() == 0 {
        Ok(Seq::empty())
    } else {
        match sysroot_libraries(files.drop_last()) {
            Err(e) => Err(e),
            Ok(before) => match files.last().library() {
                Err(e) => Err(e),
                Ok(None) => Ok(before),
                Ok(Some(library)) => Ok(before.push(library)),
            },
        }
    }
}

/// The views of libraries.
pub open spec fn library_views(libraries: Seq<Library>) -> Seq<LibraryView> {
    libraries.map_values(|l: Library| l@)
}

proof fn a_fault_stays(files: Seq<SysrootFile>, n: int)
    requires
        0 <= n <= files.len(),
        sysroot_libraries(files.take(n)) is Err,
    ensures
        sysroot_libraries(files) == sysroot_libraries(files.take(n)),
    decreases files.len(),
{
    if n < files.len() {
        assert(files.drop_last().take(n) =~= files.take(n));
        a_fault_stays(files.drop_last(), n);
    } else {
        assert(files.take(n) =~= files);
    }
}

/// Loads the libraries of the toolchain.
pub fn load_sysroot_libs(files: &Vec<SysrootFile>) -> (r: Result<Vec<Library>, String>)
    ensures
        match r {
            Ok(libraries) => sysroot_libraries(files@) == Ok::<Seq<LibraryView>, Seq<char>>(
                library_views(libraries@),
            ),
            Err(m) => sysroot_libraries(files@) == Err::<Seq<LibraryView>, Seq<char>>(m@),
        },
{
    let mut libraries: Vec<Library> = Vec::new();
    let mut i: usize = 0;
    proof {
        assert(library_views(libraries@) =~= Seq::<LibraryView>::empty());
    }
    while i < files.len()
        invariant
            i <= files@.len(),
            sysroot_libraries(files@.take(i as int)) == Ok::<Seq<LibraryView>, Seq<char>>(
                library_views(libraries@),
            ),
        decreases files@.len() - i,
    {
        proof {
            assert(files@.take(i + 1).drop_last() =~= files@.take(i as int));
        }
        match files[i].load() {
            Ok(Some(library)) => {
                proof {
                    assert(library_views(libraries@.push(library)) =~= library_views(
                        libraries@,
                    ).push(library@));
                }
                libraries.push(library);
            },
            Ok(None) => {},
            Err(m) => {
                proof {
                    a_fault_stays(files@, i + 1);
                }
                return Err(m);
            },
        }
        i += 1;
    }
    proof {
        assert(files@.take(i as int) =~= files@);
    }
    Ok(libraries)
}

// ---------------------------------------------------------------------------------------------
// Packages that stand alone
// ---------------------------------------------------------------------------------------------

impl Executor {
    /// An executor for a package, with these arguments on the operand stack. As no library is
    /// known yet, the package must not depend on any.
    pub fn for_package(package: &Package, args: Vec<Felt>) -> (r: Result<Self, String>)
        requires
            package_dependencies(package_contents(*package)).len() == 0,
            args@.len() <= crate::exec::trace::STACK_DEPTH,
            forall|i: int| 0 <= i < args@.len() ==> Felt::valid(#[trigger] args@[i]),
        ensures
            r matches Ok(executor) && executor.is_new(args@),
    {
        let mut executor = Executor::new(args);
        let dependencies = dependencies_of(package);
        proof {
            assert(digests(dependencies@).len() == dependencies@.len());
        }
        match executor.with_dependencies(&dependencies) {
            Ok(()) => Ok(executor),
            Err(m) => Err(m),
        }
    }

    /// An executor for a package, with these arguments on the operand stack; none where the
    /// package depends on libraries.
    pub fn for_lone_package(package: &Package, args: Vec<Felt>) -> (r: Option<Self>)
        requires
            args@.len() <= crate::exec::trace::STACK_DEPTH,
            forall|i: int| 0 <= i < args@.len() ==> Felt::valid(#[trigger] args@[i]),
        ensures
            match r {
                Some(executor) => {
                    &&& package_dependencies(package_contents(*package)).len() == 0
                    &&& executor.is_new(args@)
                },
                None => package_dependencies(package_contents(*package)).len() > 0,
            },
    {
        let dependencies = dependencies_of(package);
        proof {
            assert(digests(dependencies@).len() == dependencies@.len());
        }
        if dependencies.len() > 0 {
            return None;
        }
        match Executor::for_package(package, args) {
            Ok(executor) => Some(executor),
            Err(_) => None,
        }
    }
}

// ---------------------------------------------------------------------------------------------
// What holds of every package
// ---------------------------------------------------------------------------------------------

/// Bytes with a type that has no layout are not read; of all others the reader decides.
pub proof fn what_has_no_layout_is_not_read(bytes: Seq<u8>)
    ensures
        crate::layout::package_at(bytes) is Fault ==> package_opened(bytes) is Err,
        crate::layout::library_at(bytes, 0) is Fault ==> library_opened(bytes) is Err,
        !(crate::layout::package_at(bytes) is Fault) ==> package_opened(bytes) == package_parsed(
            bytes,
        ),
        !(crate::layout::library_at(bytes, 0) is Fault) ==> library_opened(bytes)
            == library_parsed(bytes),
{
}

/// A procedure is named as procedures are, and anything else by an identifier; nothing without a
/// name is named.
pub proof fn exports_are_named_by_what_they_are(export: ExportView)
    ensures
        export.name is None ==> !export.is_named(),
        export.name matches Some(name) ==> (export.is_procedure ==> export.is_named()
            == names_procedure(name)),
        export.name matches Some(name) ==> (!export.is_procedure ==> export.is_named()
            == is_identifier(name)),
{
}

/// One export that stands in no module, or has no name, is enough.
pub proof fn one_nameless_export_is_enough(
    before: Seq<ExportView>,
    export: ExportView,
    after: Seq<ExportView>,
)
    ensures
        all_in_modules(before + seq![export] + after) <==> all_in_modules(before) && all_in_modules(
            after,
        ) && export.in_module && export.is_named(),
        kernel_is_named(before + seq![export] + after) <==> kernel_is_named(before)
            && kernel_is_named(after) && (export.in_kernel ==> export.is_named()),
        all_in_modules(Seq::empty()),
        kernel_is_named(Seq::empty()),
{
    let all = before + seq![export] + after;
    let n = before.len() as int;
    assert(all[n] == export);
    assert forall|i: int| 0 <= i < before.len() implies all[i] == #[trigger] before[i] by {}
    assert forall|i: int| 0 <= i < after.len() implies all[n + 1 + i] == #[trigger] after[i] by {}
    assert forall|i: int| 0 <= i < all.len() implies #[trigger] all[i] == if i < n {
        before[i]
    } else if i == n {
        export
    } else {
        after[i - n - 1]
    } by {}
    assert forall|i: int| 0 <= i < before.len() && all_in_modules(all) implies (
    #[trigger] before[i]).in_module && before[i].is_named() by {
        assert(all[i].in_module);
    }
    assert forall|i: int| 0 <= i < after.len() && all_in_modules(all) implies (
    #[trigger] after[i]).in_module && after[i].is_named() by {
        assert(all[n + 1 + i].in_module);
    }
    assert forall|i: int| 0 <= i < before.len() && kernel_is_named(all) && (
    #[trigger] before[i]).in_kernel implies before[i].is_named() by {
        assert(all[i].in_kernel);
    }
    assert forall|i: int| 0 <= i < after.len() && kernel_is_named(all) && (
    #[trigger] after[i]).in_kernel implies after[i].is_named() by {
        assert(all[n + 1 + i].in_kernel);
    }
    assert(kernel_is_named(all) && export.in_kernel ==> all[n].is_named());
}

/// Only sections that hold a kernel are looked at; the bytes of one must have a layout, and what the
/// package in them exports from the kernel must have names.
pub proof fn only_kernels_are_looked_at(
    sections: Seq<SectionView>,
    section: SectionView,
    package: Seq<u8>,
)
    ensures
        kernels_are_sound(Seq::empty()),
        section.id != "kernel"@ ==> kernels_are_sound(sections.push(section)) == kernels_are_sound(
            sections,
        ),
        section.id == "kernel"@ && crate::layout::package_at(section.data) is Fault
            ==> !kernels_are_sound(sections.push(section)),
        section.id == "kernel"@ && package_opened(section.data) == Ok::<Seq<u8>, Seq<char>>(package)
            ==> kernels_are_sound(sections.push(section)) == (kernels_are_sound(sections)
            && kernel_is_named(package_exports(package))),
        section.id == "kernel"@ && !(crate::layout::package_at(section.data) is Fault)
            && package_parsed(section.data) is Err ==> kernels_are_sound(sections.push(section))
            == kernels_are_sound(sections),
{
    let all = sections.push(section);
    let n = sections.len() as int;
    assert(all[n] == section);
    assert forall|i: int| 0 <= i < n implies all[i] == #[trigger] sections[i] by {}
    assert forall|i: int|
        0 <= i < n && kernels_are_sound(all) && (#[trigger] sections[i]).id
            == "kernel"@ implies kernel_is_sound(sections[i].data) by {
        assert(all[i].id == "kernel"@);
    }
    assert(kernels_are_sound(all) && section.id == "kernel"@ ==> kernel_is_sound(all[n].data));
}

/// A package from a file is what the file holds, and one from the standard input is what stood
/// there, whatever the file holds.
pub proof fn a_package_comes_from_its_input(
    path: String,
    bytes: Vec<u8>,
    file: Seq<u8>,
    other: Seq<u8>,
    entry: Option<String>,
)
    ensures
        package_loaded(InputFile::Stdin(bytes), file, entry) == package_loaded(
            InputFile::Stdin(bytes),
            other,
            entry,
        ),
        entry is None ==> package_loaded(InputFile::Stdin(bytes), file, entry) is Ok
            == package_opened(bytes@) is Ok,
        entry is None && package_opened(bytes@) is Ok ==> package_loaded(
            InputFile::Stdin(bytes),
            file,
            entry,
        ) == package_opened(bytes@),
        entry is None ==> package_loaded(InputFile::Real(path), file, entry) is Ok
            == package_opened(file) is Ok,
        entry is None && package_opened(file) is Ok ==> package_loaded(
            InputFile::Real(path),
            file,
            entry,
        ) == package_opened(file),
        package_opened(file) is Err ==> (package_loaded(InputFile::Real(path), file, entry)
            matches Err(m) && exists|before: Seq<char>, after: Seq<char>|
            m == #[trigger] (before + path@ + after)),
        package_opened(bytes@) is Err ==> package_loaded(InputFile::Stdin(bytes), file, entry) is Err,
{
    if let Err(e) = package_opened(file) {
        let m = "failed to load Miden package from "@ + path@ + ": "@ + e;
        assert(m =~= "failed to load Miden package from "@ + path@ + (": "@ + e));
    }
}

/// A procedure to begin with can be named for a library only, and only where all that it exports has
/// a name in a module; the program then begins with that procedure and no other.
pub proof fn only_a_library_begins_with_a_procedure(
    input: InputFile,
    file: Seq<u8>,
    entry: String,
    package: Seq<u8>,
)
    requires
        package_loaded(input, file, None) == Ok::<Seq<u8>, Seq<char>>(package),
    ensures
        procedure_named(entry@) is None ==> package_loaded(input, file, Some(entry)) is Err,
        !package_is_library(package) ==> package_loaded(input, file, Some(entry)) is Err,
        !all_in_modules(package_exports(package)) ==> package_loaded(
            input,
            file,
            Some(entry),
        ) is Err,
        procedure_named(entry@) matches Some(name) ==> (package_is_library(package)
            && all_in_modules(package_exports(package)) ==> package_loaded(
            input,
            file,
            Some(entry),
        ) == executable_made(package, name)),
{
}

/// A program is taken from its package, unless the kernel there cannot be looked at.
pub proof fn a_program_is_taken_from_its_package(package: Seq<u8>)
    ensures
        kernels_are_sound(package_sections(package)) ==> program_taken(package) == package_program(
            package,
        ),
        !kernels_are_sound(package_sections(package)) ==> program_taken(package) is Err,
{
}

/// A library is the one in the package, where the package can be read and has one.
pub proof fn a_library_is_the_one_in_the_package(path: Seq<char>, file: Seq<u8>)
    ensures
        match package_opened(file) {
            Ok(package) => {
                &&& package_is_library(package) ==> library_loaded(path, file) == Ok::<
                    LibraryView,
                    Seq<char>,
                >(package_library(package))
                &&& !package_is_library(package) ==> library_loaded(path, file) is Err
            },
            Err(_) => library_loaded(path, file) is Err,
        },
{
}

/// A file of the toolchain is what its last extension says: a name before it makes no difference.
pub proof fn a_file_is_what_its_extension_says(stem: Seq<char>, name: Seq<char>)
    ensures
        stem.len() > 0 ==> sort_of(stem + ".masp"@) == Some(SysrootSort::Masp),
        stem.len() > 0 ==> sort_of(stem + ".masl"@) == Some(SysrootSort::Masl),
        sort_of(name) == Some(SysrootSort::Masp) ==> ".masp"@.is_suffix_of(name),
        sort_of(name) == Some(SysrootSort::Masl) ==> ".masl"@.is_suffix_of(name),
{
    reveal_strlit("masp");
    reveal_strlit("masl");
    reveal_strlit(".masp");
    reveal_strlit(".masl");
    assert("masp"@[3] != "masl"@[3]);
    assert(seq!['.'] + "masp"@ =~= ".masp"@);
    assert(seq!['.'] + "masl"@ =~= ".masl"@);
    assert(stem + seq!['.'] + "masp"@ =~= stem + ".masp"@);
    assert(stem + seq!['.'] + "masl"@ =~= stem + ".masl"@);
    crate::snapshots::an_extension_is_behind_the_last_dot(stem + ".masp"@, stem, "masp"@);
    crate::snapshots::an_extension_is_behind_the_last_dot(stem + ".masl"@, stem, "masl"@);
    crate::snapshots::stem_and_extension_make_the_name(name);
    if let Some(extension) = crate::snapshots::extension_of(name) {
        let tail = seq!['.'] + extension;
        assert(tail =~= name.subrange(name.len() - tail.len(), name.len() as int));
    }
}

/// Files that are no libraries are passed over, whatever they hold, and so are packages without a
/// library; a library that cannot be read or opened is a fault.
pub proof fn files_are_loaded_by_their_sort(file: SysrootFile)
    ensures
        sort_of(file.name@) is None ==> file.library() == Ok::<Option<LibraryView>, Seq<char>>(
            None,
        ),
        sort_of(file.name@) is Some && file.content is Err ==> file.library() is Err,
        sort_of(file.name@) == Some(SysrootSort::Masp) ==> (file.content matches Ok(bytes) ==> {
            match library_loaded(file.path@, bytes@) {
                Ok(library) => file.library() == Ok::<Option<LibraryView>, Seq<char>>(
                    Some(library),
                ),
                Err(_) => if package_opened(bytes@) is Ok {
                    file.library() == Ok::<Option<LibraryView>, Seq<char>>(None)
                } else {
                    file.library() is Err
                },
            }
        }),
        sort_of(file.name@) == Some(SysrootSort::Masl) ==> (file.content matches Ok(bytes) ==> {
            match library_opened(bytes@) {
                Ok(library) => file.library() == Ok::<Option<LibraryView>, Seq<char>>(
                    Some(library),
                ),
                Err(_) => file.library() is Err,
            }
        }),
{
}

/// The libraries that single files hold, one after the other, make up those of the toolchain; and
/// the first file that cannot be loaded is the fault of them all.
pub proof fn libraries_come_in_the_order_of_the_files(
    before: Seq<SysrootFile>,
    after: Seq<SysrootFile>,
    file: SysrootFile,
)
    ensures
        match (sysroot_libraries(before), sysroot_libraries(after)) {
            (Ok(a), Ok(b)) => sysroot_libraries(before + after) == Ok::<_, Seq<char>>(a + b),
            (Ok(a), Err(e)) => sysroot_libraries(before + after) == Err::<Seq<LibraryView>, _>(e),
            (Err(e), _) => sysroot_libraries(before + after) == Err::<Seq<LibraryView>, _>(e),
        },
        match file.library() {
            Ok(Some(library)) => sysroot_libraries(seq![file]) == Ok::<_, Seq<char>>(
                seq![library],
            ),
            Ok(None) => sysroot_libraries(seq![file]) == Ok::<Seq<LibraryView>, Seq<char>>(
                Seq::empty(),
            ),
            Err(e) => sysroot_libraries(seq![file]) == Err::<Seq<LibraryView>, Seq<char>>(e),
        },
    decreases after.len(),
{
    reveal_with_fuel(sysroot_libraries, 2);
    assert(seq![file].drop_last() =~= Seq::<SysrootFile>::empty());
    if let Ok(Some(library)) = file.library() {
        assert(Seq::<LibraryView>::empty().push(library) =~= seq![library]);
    }
    if after.len() == 0 {
        assert(before + after =~= before);
        if let Ok(a) = sysroot_libraries(before) {
            assert(a + Seq::<LibraryView>::empty() =~= a);
        }
    } else {
        libraries_come_in_the_order_of_the_files(before, after.drop_last(), file);
        assert((before + after).drop_last() =~= before + after.drop_last());
        if let Ok(a) = sysroot_libraries(before) {
            if let Ok(b) = sysroot_libraries(after.drop_last()) {
                if let Ok(Some(library)) = after.last().library() {
                    assert((a + b).push(library) =~= a + b.push(library));
                }
            }
        }
    }
}

} // verus!
