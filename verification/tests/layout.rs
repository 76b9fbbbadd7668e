//! The types that packages describe, and the packages that are not read on their account.
use std::collections::BTreeMap;
use std::sync::Arc;

use miden_assembly::ast::types::{
    ArrayType, CallConv, EnumType, FunctionType, PointerType, StructType, Type, TypeRepr, Variant,
};
use miden_assembly::ast::ConstantValue;
use miden_assembly::library::{ConstantExport, LibraryExport, ProcedureExport, TypeExport};
use miden_assembly::{Assembler, DefaultSourceManager, Library, Path, PathBuf, Span};
use miden_assembly_syntax::parser::IntValue;
use miden_core::serde::{ByteWriter, Serializable};
use miden_debug::config::InputFile;
use miden_debug::layout::{
    lay_out, lay_out_enum, read_function, read_type, survey_library, survey_package, Found, Repr,
    Shape, MOST_NESTED,
};
use miden_debug::package::{
    load_library, load_package, load_sysroot_libs, open_library, open_package, take_apart,
    SysrootFile,
};
use miden_mast_package::{Package, Section, SectionId, TargetType};

fn shape(bytes: &[u8]) -> Shape {
    match read_type(&bytes.to_vec(), 0, MOST_NESTED) {
        Found::At(shape, next) => {
            assert_eq!(next, bytes.len());
            shape
        }
        other => panic!("no type: {other:?}"),
    }
}

fn is_fault(bytes: &[u8]) -> bool {
    matches!(read_type(&bytes.to_vec(), 0, MOST_NESTED), Found::Fault)
}

fn is_nothing(bytes: &[u8]) -> bool {
    matches!(read_type(&bytes.to_vec(), 0, MOST_NESTED), Found::Nothing)
}

fn structure(repr: TypeRepr, fields: Vec<Type>) -> Type {
    StructType::new_with_repr(repr, fields).into()
}

fn enumeration(discriminant: Type, values: Vec<Option<Type>>) -> Type {
    let variants = values.into_iter().enumerate().map(|(i, value)| Variant {
        name: format!("v{i}").into(),
        discriminant_value: if i == 1 { Some(7) } else { None },
        value,
    });
    Type::Enum(Arc::new(EnumType::new("E".into(), discriminant, variants).unwrap()))
}

#[test]
fn types_are_laid_out_as_the_assembler_does() {
    let pair = structure(TypeRepr::Default, vec![Type::U8, Type::U32]);
    let types = vec![
        Type::Unknown,
        Type::I1,
        Type::U16,
        Type::U64,
        Type::U128,
        Type::U256,
        Type::F64,
        Type::Felt,
        Type::from(PointerType::new(pair.clone())),
        Type::from(FunctionType::new(CallConv::Wasm, [Type::Felt, pair.clone()], [Type::U32])),
        Type::from(ArrayType::new(pair.clone(), 0)),
        Type::from(ArrayType::new(pair.clone(), 1)),
        Type::from(ArrayType::new(structure(TypeRepr::packed(1), vec![Type::U8, Type::U32]), 3)),
        Type::from(ArrayType::new(structure(TypeRepr::align(8), vec![Type::U8]), 3)),
        pair.clone(),
        structure(TypeRepr::BigEndian, vec![Type::U16, Type::U128, Type::U8]),
        structure(TypeRepr::packed(2), vec![Type::U8, Type::U32, Type::U16]),
        structure(TypeRepr::align(16), vec![Type::U8, pair.clone()]),
        structure(TypeRepr::Transparent, vec![Type::Unknown, Type::U64]),
        structure(TypeRepr::Default, vec![]),
        enumeration(Type::U8, vec![]),
        enumeration(Type::U8, vec![None, None]),
        enumeration(Type::U16, vec![Some(Type::U8), Some(pair.clone()), None]),
        enumeration(Type::U128, vec![Some(Type::U8), None]),
        enumeration(Type::Felt, vec![Some(Type::U64), Some(Type::U32)]),
    ];
    for ty in types {
        let found = shape(&ty.to_bytes());
        assert_eq!(found.bits, Some(ty.size_in_bits() as u64), "size of {ty}");
        assert_eq!(found.align, ty.min_alignment() as u64, "alignment of {ty}");
    }
}

#[test]
fn structures_are_laid_out() {
    let found = shape(&[17, 0, 0, 2, 0, 4, 0, 8]);
    assert_eq!((found.bits, found.align), (Some(64), 4));
    let found = shape(&[17, 0, 2, 1, 0, 2, 0, 4, 0, 8]);
    assert_eq!((found.bits, found.align), (Some(40), 1));
    let found = shape(&[17, 1, 3, b'p', 0, 1, 1, 3, b'x', 15]);
    assert_eq!((found.bits, found.align), (Some(32), 4));
    let list = shape(&[19, 8]);
    assert_eq!((list.bits, list.align), (None, 4));
    let byte = shape(&[4]);
    assert!(lay_out(Repr::Transparent, &vec![byte, byte]).is_none());
    assert_eq!(lay_out(Repr::Plain, &vec![byte, byte]).unwrap().bits, Some(16));
    assert_eq!(lay_out_enum(&byte, 1, &vec![shape(&[8])]).unwrap().bits, Some(64));
    assert!(lay_out_enum(&byte, 1, &vec![list]).is_none());
}

#[test]
fn types_without_a_layout_are_found_out() {
    assert!(is_fault(&[17, 0, 3, 2, 0, 4, 0, 4]), "two fields in one place");
    assert!(is_fault(&[17, 0, 0, 1, 0, 19, 4]), "a list in a structure");
    assert!(is_fault(&[17, 0, 1, 3, 0, 1, 0, 4]), "an alignment of three bytes");
    assert!(is_fault(&[16, 0, 17, 0, 3, 2, 0, 4, 0, 4]), "behind a pointer");
    assert!(is_fault(&[21, 3, b'E', 4, 3, 3, b'a', 1, 19, 4, 0]), "a list in a variant");
    let mut large: Vec<u8> = vec![17, 0, 0, 1, 0, 18];
    large.write_usize(1 << 32);
    large.push(4);
    assert!(is_fault(&large), "more than there is room for");
    assert!(!is_fault(&large[5..]), "as long as nothing is put behind it");
    assert!(matches!(read_function(&vec![0, 201], 0, MOST_NESTED), Found::Fault));
}

#[test]
fn what_is_no_type_is_passed_over() {
    assert!(is_nothing(&[]));
    assert!(is_nothing(&[22]));
    assert!(is_nothing(&[16, 2, 4]));
    assert!(is_nothing(&[17, 2]));
    assert!(is_nothing(&[17, 0, 5]));
    assert!(is_nothing(&[17, 0, 1, 0, 0]));
    assert!(is_nothing(&[17, 0, 3, 2, 0, 4, 0]));
    assert!(is_nothing(&[21, 3, b'E', 13, 1]));
    assert!(matches!(read_function(&vec![4, 1, 1], 0, MOST_NESTED), Found::Nothing));
    let mut deep = vec![19; MOST_NESTED];
    deep.push(4);
    assert_eq!(shape(&deep).bits, None);
    deep.insert(0, 19);
    assert!(is_nothing(&deep));
}

fn path(text: &str) -> Arc<Path> {
    Arc::from(PathBuf::new(text).unwrap().into_boxed_path())
}

fn marked() -> Type {
    StructType::named("marked".into(), [Type::U8, Type::U8]).into()
}

/// A library with one procedure, one constant and two types, in a module.
fn library(module: &str, procedure: &str) -> Arc<Library> {
    let parsed = miden_assembly::ast::Module::parser(miden_assembly::ast::ModuleKind::Library)
        .parse_str(
            PathBuf::new("lib::math").unwrap(),
            "pub proc one push.1 drop end",
            Arc::new(DefaultSourceManager::default()),
        )
        .unwrap();
    let assembler = Assembler::new(Arc::new(DefaultSourceManager::default()));
    let assembled = assembler.assemble_library([parsed]).unwrap();
    let forest = assembled.mast_forest().clone();
    let node = assembled.get_export_node_id(path("lib::math::one"));
    let signature = FunctionType::new(CallConv::Fast, [Type::Felt, marked()], [Type::U32]);
    let mut exports = BTreeMap::new();
    let at = path(&format!("::{module}::{procedure}"));
    let export = ProcedureExport::new(node, at.clone()).with_signature(signature);
    exports.insert(at, LibraryExport::Procedure(export));
    let at = path(&format!("::{module}::ONE"));
    let value = ConstantValue::Int(Span::unknown(IntValue::from(1u8)));
    exports.insert(at.clone(), LibraryExport::Constant(ConstantExport { path: at, value }));
    let at = path(&format!("::{module}::Pair"));
    exports.insert(at.clone(), LibraryExport::Type(TypeExport { path: at, ty: marked() }));
    Arc::new(Library::new(forest, exports).unwrap())
}

fn package(kind: TargetType, library: Arc<Library>) -> Box<Package> {
    Package::from_library("math".into(), "0.1.0".parse().unwrap(), kind, library, [])
}

/// The same bytes, where the structure that stands there is said to have one field alone.
fn spoilt(bytes: &[u8], occurrence: usize) -> Vec<u8> {
    let mut found = bytes.windows(6).enumerate().filter(|(_, w)| *w == b"marked");
    let (at, _) = found.nth(occurrence).expect("the structure is described");
    let mut bytes = bytes.to_vec();
    assert_eq!(bytes[at + 6], 0);
    bytes[at + 6] = 3;
    bytes
}

#[test]
fn packages_are_looked_through() {
    let library = library("lib::math", "one");
    let bytes = library.to_bytes();
    assert!(matches!(survey_library(&bytes, 0), Found::At(_, next) if next == bytes.len()));
    assert!(open_library(&bytes).is_ok());
    let bytes = package(TargetType::Library, library).to_bytes();
    // Two empty lists follow: of what the package depends on, and of sections.
    assert!(matches!(survey_package(&bytes), Found::At(_, next) if next + 2 == bytes.len()));
    assert!(open_package(&bytes).is_ok());
    assert!(matches!(survey_package(&b"junk".to_vec()), Found::Nothing));
    assert!(matches!(survey_library(&b"junk".to_vec(), 0), Found::Nothing));
}

#[test]
fn packages_with_types_without_a_layout_are_refused() {
    let library = library("lib::math", "one");
    let bytes = package(TargetType::Library, library.clone()).to_bytes();
    let file = InputFile::Real("p.masp".into());
    // In the type and in the signature, first in the library, then in the manifest.
    for occurrence in 0..4 {
        let faulty = spoilt(&bytes, occurrence);
        assert_eq!(
            load_package(&file, &faulty, &None).err().unwrap(),
            "failed to load Miden package from p.masp: invalid value: a type in the package has \
             no layout"
        );
        assert!(load_library("p.masp", &faulty).is_err());
    }
    assert!(load_library("p.masp", &bytes).is_ok());
    let sysroot = |name: &str, content: Vec<u8>| {
        let file = SysrootFile { path: name.into(), name: name.into(), content: Ok(content) };
        load_sysroot_libs(&vec![file])
    };
    assert_eq!(sysroot("a.masl", library.to_bytes()).unwrap().len(), 1);
    assert_eq!(
        sysroot("a.masl", spoilt(&library.to_bytes(), 1)).err().unwrap(),
        "failed to load library 'a.masl': invalid value: a type in the library has no layout"
    );
    assert_eq!(
        sysroot("a.masp", spoilt(&bytes, 0)).err().unwrap(),
        "failed to load package 'a.masp': invalid value: a type in the package has no layout"
    );
}

#[test]
fn entrypoints_ask_for_plain_names() {
    let file = InputFile::Real("p.masp".into());
    let entry = Some(String::from("lib::math::one"));
    let bytes = package(TargetType::Library, library("lib::math", "one")).to_bytes();
    assert!(load_package(&file, &bytes, &entry).is_ok());
    let bytes = package(TargetType::Library, library("lib::math", "\"one<felt>\"")).to_bytes();
    assert!(load_package(&file, &bytes, &None).is_ok());
    assert_eq!(
        load_package(&file, &bytes, &entry).err().unwrap(),
        "cannot use --entrypoint with packages whose exports need quotes"
    );
}

#[test]
fn kernels_are_looked_at_first() {
    let program = |kernel: Vec<u8>| {
        let entry = "lib::math::one".parse().unwrap();
        let library = package(TargetType::Library, library("lib::math", "one"));
        let mut program = library.make_executable(&entry).unwrap();
        program.sections.push(Section::new(SectionId::KERNEL, kernel));
        take_apart(&program).err().unwrap()
    };
    let refused = "the kernel in the package cannot be used";
    let kernel = package(TargetType::Kernel, library("$kernel", "one")).to_bytes();
    assert_ne!(program(kernel.clone()), refused);
    assert_eq!(program(spoilt(&kernel, 0)), refused);
    let quoted = package(TargetType::Kernel, library("$kernel", "\"one<felt>\"")).to_bytes();
    assert_eq!(program(quoted), refused);
    let elsewhere = package(TargetType::Kernel, library("lib", "\"one<felt>\"")).to_bytes();
    assert_ne!(program(elsewhere), refused);
    assert_ne!(program(b"junk".to_vec()), refused);
}
