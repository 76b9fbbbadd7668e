//! The configuration, and the libraries that are linked against.
use miden_debug::config::{
    parse_argument, program_answer, ColorChoice, ColorEnv, DebuggerConfig,
};
use miden_debug::linker::{
    refuse_package, search_paths, DirEntry, FileSort, LibraryKind, LinkErrorKind, LinkLibrary,
    LinkLibraryParser, LinkRequest, LoadPlan, SearchDir,
};
use miden_debug::text::NumberError;

fn env(term: Option<&str>, no_color: bool, windows: bool) -> ColorEnv {
    ColorEnv { term: term.map(String::from), no_color, windows }
}

#[test]
fn colors_are_chosen_by_name() {
    assert_eq!(ColorChoice::from_str("always").unwrap(), ColorChoice::Always);
    assert_eq!(ColorChoice::from_str("always-ansi").unwrap(), ColorChoice::AlwaysAnsi);
    assert_eq!(ColorChoice::from_str("never").unwrap(), ColorChoice::Never);
    assert_eq!(ColorChoice::from_str("auto").unwrap(), ColorChoice::Auto);
    assert_eq!(ColorChoice::default(), ColorChoice::Auto);
    let error = ColorChoice::from_str("SOMETIMES").unwrap_err();
    assert_eq!(error.message(), "invalid color choice: sometimes");
    assert!(ColorChoice::from_str("ALWAYS").is_err());
}

#[test]
fn the_environment_can_speak_against_colors() {
    let auto = ColorChoice::Auto;
    assert!(auto.should_attempt_color(&env(Some("xterm"), false, false)));
    assert!(!auto.should_attempt_color(&env(Some("dumb"), false, false)));
    assert!(!auto.should_attempt_color(&env(None, false, false)));
    assert!(auto.should_attempt_color(&env(None, false, true)));
    assert!(!auto.should_attempt_color(&env(Some("xterm"), true, false)));
    assert!(ColorChoice::Always.should_attempt_color(&env(Some("dumb"), true, false)));
    assert!(!ColorChoice::Never.should_attempt_color(&env(Some("xterm"), false, false)));
    assert!(auto.env_allows_color(&env(Some("xterm"), false, false)));
}

#[test]
fn ansi_codes_are_insisted_on_where_they_are_known_to_work() {
    assert!(ColorChoice::AlwaysAnsi.should_ansi(&env(None, false, false)));
    assert!(!ColorChoice::Always.should_ansi(&env(Some("xterm"), false, true)));
    assert!(ColorChoice::Auto.should_ansi(&env(Some("xterm"), false, true)));
    assert!(!ColorChoice::Auto.should_ansi(&env(Some("cygwin"), false, true)));
    assert!(!ColorChoice::Auto.should_ansi(&env(Some("xterm"), false, false)));
}

#[test]
fn directories_are_found() {
    let mut config = DebuggerConfig::new();
    assert_eq!(config.working_dir(Some("here".into())), "here");
    assert_eq!(config.working_dir(None), "./");
    config.working_dir = Some("there".into());
    assert_eq!(config.working_dir(Some("here".into())), "there");

    let home = || Some(String::from("home"));
    let channel = || Some(String::from("0.20"));
    assert_eq!(
        config.toolchain_dir(home(), channel(), true).unwrap(),
        vec!["home", "toolchains", "0.20"]
    );
    assert!(config.toolchain_dir(home(), channel(), false).is_none());
    assert!(config.toolchain_dir(None, channel(), true).is_none());
    config.sysroot = Some("root".into());
    assert_eq!(config.sysroot_candidate(None, None).unwrap(), vec!["root"]);
}

#[test]
fn what_programs_say_is_trimmed() {
    assert_eq!(program_answer(true, Some(" /opt/midenup\n")).unwrap(), "/opt/midenup");
    assert!(program_answer(false, Some("x")).is_none());
    assert!(program_answer(true, Some(" \n")).is_none());
    assert!(program_answer(true, None).is_none());
}

#[test]
fn library_kinds_have_names() {
    assert_eq!(LibraryKind::Masm.text(), "masm");
    assert_eq!(LibraryKind::Masp.text(), "masp");
    assert_eq!(LibraryKind::from_str("masm"), Ok(LibraryKind::Masm));
    assert_eq!(LibraryKind::from_str("masp"), Ok(LibraryKind::Masp));
    assert!(LibraryKind::from_str("elf").is_err());
    assert_eq!(LibraryKind::default(), LibraryKind::Masp);
    assert_eq!(LinkLibraryParser.possible_values().len(), 2);
}

fn parse(value: &str) -> LinkLibrary {
    match LinkLibraryParser.parse_ref(Some(value)) {
        Ok(LinkRequest::Library(library)) => library,
        other => panic!("unexpected request: {other:?}"),
    }
}

#[test]
fn arguments_are_elements_of_the_field() {
    assert_eq!(parse_argument("42").unwrap().value, 42);
    assert_eq!(parse_argument("18446744069414584320").unwrap().value, 0xffff_ffff_0000_0000);
    assert_eq!(parse_argument("18446744069414584321").unwrap_err(), NumberError::TooLarge);
    assert_eq!(parse_argument("0x2a").unwrap_err(), NumberError::InvalidDigit);
    assert_eq!(parse_argument("").unwrap_err(), NumberError::Empty);
}

#[test]
fn libraries_are_asked_for_by_name() {
    let library = parse("std");
    assert_eq!((library.name.as_str(), library.kind), ("std", LibraryKind::Masp));
    assert!(library.path.is_none());
    let library = parse("masm=project");
    assert_eq!((library.name().as_str(), library.kind), ("project", LibraryKind::Masm));
    let library = parse("base.masp");
    assert_eq!((library.name.as_str(), library.kind), ("base", LibraryKind::Masp));
    let library = parse("masp=./target/libs/miden-base.masl");
    assert_eq!((library.name.as_str(), library.kind), ("miden-base", LibraryKind::Masp));
    assert!(library.path.is_none());
    for path in ["./target/libs/miden-base.masl", "=./target/libs/miden-base.masl"] {
        let library = parse(path);
        assert_eq!((library.name.as_str(), library.kind), ("miden-base", LibraryKind::Masp));
    }
    let library = parse("libs/project.masm");
    assert_eq!((library.name.as_str(), library.kind), ("project", LibraryKind::Masm));
    let library = parse("masm=libs/project");
    assert_eq!((library.name.as_str(), library.kind), ("project", LibraryKind::Masm));
}

#[test]
fn directories_without_a_name_are_taken_as_given() {
    for path in [".", "..", "../.."] {
        let library = parse(path);
        assert_eq!((library.name.as_str(), library.kind), (path, LibraryKind::Masp));
        let library = parse(&format!("masm={path}"));
        assert_eq!((library.name.as_str(), library.kind), (path, LibraryKind::Masm));
    }
}

#[test]
fn faulty_requests_are_refused() {
    let error = LinkLibraryParser.parse_ref(None).unwrap_err();
    assert_eq!(error.kind, LinkErrorKind::InvalidUtf8);
    let error = LinkLibraryParser.parse_ref(Some("")).unwrap_err();
    assert_eq!(error.kind, LinkErrorKind::ValueValidation);
    assert_eq!(error.message, "invalid link library: must specify a name or path");
    let error = LinkLibraryParser.parse_ref(Some("elf=std")).unwrap_err();
    assert_eq!(error.kind, LinkErrorKind::InvalidValue);
    assert_eq!(error.message, "'elf' is not a valid library kind");
    let error = LinkLibraryParser.parse_ref(Some("elf=libs/std.masl")).unwrap_err();
    assert_eq!(error.message, "'elf' is not a valid library kind");
    let error = LinkLibraryParser.parse_ref(Some("miden-base.masl")).unwrap_err();
    assert_eq!(error.kind, LinkErrorKind::InvalidValue);
    assert_eq!(error.message, "'masl' is not a valid library kind");
}

#[test]
fn libraries_are_asked_for_by_path() {
    match LinkLibraryParser.parse_ref(Some("/lib/std.masp")).unwrap() {
        LinkRequest::ByPath { path, kind, stem } => {
            assert_eq!((path.as_str(), kind), ("/lib/std.masp", LibraryKind::Masp));
            let file = Ok(FileSort { is_file: true, is_dir: false });
            let library = LinkLibraryParser::check_path(&path, kind, &stem, &file).unwrap();
            assert_eq!(library.name, "std");
            assert_eq!(library.path.as_deref(), Some("/lib/std.masp"));
            let dir = Ok(FileSort { is_file: false, is_dir: true });
            let error = LinkLibraryParser::check_path(&path, kind, &stem, &dir).unwrap_err();
            assert_eq!(error.message, "invalid link library: '/lib/std.masp' is not a file");
            let gone = Err(String::from("gone"));
            let error = LinkLibraryParser::check_path(&path, kind, &stem, &gone).unwrap_err();
            assert_eq!(
                error.message,
                "invalid link library: unable to load '/lib/std.masp': gone"
            );
            let masm = LibraryKind::Masm;
            let error = LinkLibraryParser::check_path(&path, masm, &stem, &file).unwrap_err();
            assert_eq!(
                error.message,
                "invalid link library: kind 'masm' was specified, but '/lib/std.masp' is not a directory"
            );
        }
        other => panic!("unexpected request: {other:?}"),
    }
}

fn entry(path: &str, stem: &str, is_file: bool) -> DirEntry {
    DirEntry { path: path.into(), stem: Some(stem.into()), is_file, is_dir: !is_file }
}

#[test]
fn libraries_are_searched_for_in_order() {
    let library = LinkLibrary { name: "std".into(), path: None, kind: LibraryKind::Masp };
    let dirs = vec![
        SearchDir { path: "a".into(), listing: Ok(vec![entry("a/other.masp", "other", true)]) },
        SearchDir { path: "b".into(), listing: Ok(vec![entry("b/std.masp", "std", true)]) },
        SearchDir { path: "c".into(), listing: Ok(vec![entry("c/std.masp", "std", true)]) },
    ];
    assert_eq!(library.find(&dirs).unwrap(), "b/std.masp");
    match library.load(&dirs).unwrap() {
        LoadPlan::ReadPackage { path } => assert_eq!(path, "b/std.masp"),
        other => panic!("unexpected plan: {other:?}"),
    }
    let missing = LinkLibrary { name: "none".into(), path: None, kind: LibraryKind::Masp };
    assert_eq!(
        missing.find(&dirs).unwrap_err(),
        "unable to locate library 'none' using any of the provided search paths"
    );
    let unreadable = vec![SearchDir { path: "d".into(), listing: Err("denied".into()) }];
    assert_eq!(
        library.find(&unreadable).unwrap_err(),
        "invalid library search path 'd': denied"
    );
    let sources = LinkLibrary { name: "std".into(), path: None, kind: LibraryKind::Masm };
    assert_eq!(
        sources.find(&dirs).unwrap_err(),
        "unable to load Miden Assembly library from 'b/std.masp': not a directory"
    );
    let folder = vec![SearchDir {
        path: "e".into(),
        listing: Ok(vec![entry("e/std", "std", false)]),
    }];
    assert_eq!(
        library.find(&folder).unwrap_err(),
        "unable to load Miden Assembly package from 'e/std': not a file"
    );
    match sources.load(&folder).unwrap() {
        LoadPlan::Assemble { path, name } => assert_eq!((path.as_str(), name.as_str()), ("e/std", "std")),
        other => panic!("unexpected plan: {other:?}"),
    }
}

#[test]
fn the_search_goes_from_the_toolchain_to_the_working_directory() {
    let dirs = search_paths(
        &Some("tool".into()),
        &vec!["one".into(), "two".into()],
        &Some("work".into()),
    );
    assert_eq!(dirs, vec!["tool", "one", "two", "work"]);
    assert!(search_paths(&None, &Vec::new(), &None).is_empty());
}

#[test]
fn packages_must_hold_a_library() {
    assert!(refuse_package("p", &Ok(true)).is_none());
    assert_eq!(
        refuse_package("p", &Ok(false)).unwrap(),
        "Expected Miden package to contain a Library, got Program: 'p'"
    );
    assert_eq!(
        refuse_package("p", &Err("bad".into())).unwrap(),
        "failed to load Miden package from p: bad"
    );
}
