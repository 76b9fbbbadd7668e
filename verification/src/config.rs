//! How the debugger is set up.
use vstd::prelude::*;
use vstd::string::*;

use crate::exec::advice::{Felt, Record, MODULUS};
use crate::exec::executor::ExecutionConfig;
use crate::linker::LinkLibrary;
use crate::text::NumberError;

verus! {

// ---------------------------------------------------------------------------------------------
// Colors
// ---------------------------------------------------------------------------------------------

/// Whether the user wants colors.
#[derive(Debug, Clone, Copy, PartialEq, Eq, Structural)]
pub enum ColorChoice {
    /// Colors, whatever it takes.
    Always,
    /// Colors, by ANSI codes and nothing else.
    AlwaysAnsi,
    /// Colors, unless the environment speaks against them.
    Auto,
    /// No colors.
    Never,
}

impl Default for ColorChoice {
    /// Colors, unless the environment speaks against them.
    fn default() -> (r: Self)
        ensures
            r == ColorChoice::Auto,
    {
        ColorChoice::Auto
    }
}

/// A text that stands for no choice of colors.
#[derive(Debug)]
pub struct ColorChoiceParseError(pub String);

impl ColorChoiceParseError {
    /// What the error is printed as.
    pub fn message(&self) -> (r: String)
        ensures
            r@ == "invalid color choice: "@ + self.0@,
    {
        crate::text::concat("invalid color choice: ", self.0.as_str())
    }
}

impl ColorChoice {
    /// The choice that a text stands for: its name, in lower case.
    pub open spec fn of(s: Seq<char>) -> Option<ColorChoice> {
        if s == "always"@ {
            Some(ColorChoice::Always)
        } else if s == "always-ansi"@ {
            Some(ColorChoice::AlwaysAnsi)
        } else if s == "never"@ {
            Some(ColorChoice::Never)
        } else if s == "auto"@ {
            Some(ColorChoice::Auto)
        } else {
            None
        }
    }

    /// The choice that a text stands for: its name, in lower case. Any other text is an error.
    pub fn from_str(s: &str) -> (r: Result<Self, ColorChoiceParseError>)
        ensures
            match r {
                Ok(choice) => ColorChoice::of(s@) == Some(choice),
                Err(e) => ColorChoice::of(s@) is None && e.0@ == crate::text::lowercased(s@),
            },
    {
        if crate::text::same(s, "always") {
            Ok(ColorChoice::Always)
        } else if crate::text::same(s, "always-ansi") {
            Ok(ColorChoice::AlwaysAnsi)
        } else if crate::text::same(s, "never") {
            Ok(ColorChoice::Never)
        } else if crate::text::same(s, "auto") {
            Ok(ColorChoice::Auto)
        } else {
            Err(ColorChoiceParseError(crate::text::lowercase(s)))
        }
    }
}

/// What the environment says about colors.
#[derive(Debug)]
pub struct ColorEnv {
    /// The kind of terminal, where it is known.
    pub term: Option<String>,
    /// Whether colors are switched off.
    pub no_color: bool,
    /// Whether the machine runs Windows.
    pub windows: bool,
}

impl ColorEnv {
    /// Whether the terminal is a kind of its own.
    pub open spec fn term_is(&self, kind: Seq<char>) -> bool {
        crate::debug::op::text_view(self.term) == Some(kind)
    }

    /// Whether the environment allows colors: the terminal is not a dumb one, and colors are not
    /// switched off. Other than on Windows, the kind of terminal must be known.
    pub open spec fn allows_color(&self) -> bool {
        &&& self.windows || self.term is Some
        &&& !self.term_is("dumb"@)
        &&& !self.no_color
    }

    fn is_term(&self, kind: &str) -> (r: bool)
        ensures
            r == self.term_is(kind@),
    {
        match &self.term {
            Some(term) => crate::text::same(term.as_str(), kind),
            None => false,
        }
    }
}

impl ColorChoice {
    /// Whether the environment allows colors.
    pub fn env_allows_color(&self, env: &ColorEnv) -> (r: bool)
        ensures
            r == env.allows_color(),
    {
        if env.term.is_none() && !env.windows {
            return false;
        }
        if env.is_term("dumb") {
            return false;
        }
        !env.no_color
    }

    /// Whether to write colors.
    pub fn should_attempt_color(&self, env: &ColorEnv) -> (r: bool)
        ensures
            r == match *self {
                ColorChoice::Always => true,
                ColorChoice::AlwaysAnsi => true,
                ColorChoice::Never => false,
                ColorChoice::Auto => env.allows_color(),
            },
    {
        match *self {
            ColorChoice::Always => true,
            ColorChoice::AlwaysAnsi => true,
            ColorChoice::Never => false,
            ColorChoice::Auto => self.env_allows_color(env),
        }
    }

    /// Whether to insist on ANSI codes. On a Windows terminal that is known to take them, that is
    /// also the case where the choice is left to the environment.
    pub fn should_ansi(&self, env: &ColorEnv) -> (r: bool)
        ensures
            r == match *self {
                ColorChoice::Always => false,
                ColorChoice::AlwaysAnsi => true,
                ColorChoice::Never => false,
                ColorChoice::Auto => env.windows && env.term is Some && !env.term_is("dumb"@)
                    && !env.term_is("cygwin"@),
            },
    {
        match *self {
            ColorChoice::Always => false,
            ColorChoice::AlwaysAnsi => true,
            ColorChoice::Never => false,
            ColorChoice::Auto => env.windows && env.term.is_some() && !env.is_term("dumb")
                && !env.is_term("cygwin"),
        }
    }
}

// ---------------------------------------------------------------------------------------------
// The configuration
// ---------------------------------------------------------------------------------------------

/// Where a package comes from.
#[derive(Debug)]
pub enum InputFile {
    /// A file.
    Real(String),
    /// The standard input, which held these bytes.
    Stdin(Vec<u8>),
}

/// The value that an argument on the command line stands for: an element of the field, in decimal.
pub open spec fn argument_value(text: Seq<char>) -> Result<Felt, NumberError> {
    match crate::text::number_value(text, (MODULUS - 1) as nat) {
        Ok(n) => Ok(Felt { value: n as u64 }),
        Err(e) => Err(e),
    }
}

/// Reads an argument on the command line.
pub fn parse_argument(text: &str) -> (r: Result<Felt, NumberError>)
    ensures
        r == argument_value(text@),
        r matches Ok(e) ==> Felt::valid(e),
{
    match crate::text::parse_number(text, MODULUS - 1) {
        Ok(n) => {
            proof {
                crate::text::number_is_bounded(text@, (MODULUS - 1) as nat);
            }
            Ok(Felt { value: n })
        },
        Err(e) => Err(e),
    }
}

/// How the debugger is set up.
pub struct DebuggerConfig {
    /// The package with the program.
    pub input: Option<InputFile>,
    /// What the program starts with.
    pub inputs: Option<ExecutionConfig>,
    /// Values that are put on the operand stack one by one, in place of those in `inputs`.
    pub args: Vec<Felt>,
    /// The working directory.
    pub working_dir: Option<String>,
    /// The directory of the toolchain.
    pub sysroot: Option<String>,
    pub color: ColorChoice,
    /// The function to begin with.
    pub entrypoint: Option<String>,
    /// The address of a remote debugger to connect to.
    pub dap_connect: Option<String>,
    /// Where libraries are searched for.
    pub search_path: Vec<String>,
    /// The libraries that the program is linked against.
    pub link_libraries: Vec<LinkLibrary>,
}

impl DebuggerConfig {
    /// Whether nothing is configured.
    pub open spec fn is_bare(&self) -> bool {
        &&& self.input is None
        &&& self.inputs is None
        &&& self.args@.len() == 0
        &&& self.working_dir is None
        &&& self.sysroot is None
        &&& self.color == ColorChoice::Auto
        &&& self.entrypoint is None
        &&& self.dap_connect is None
        &&& self.search_path@.len() == 0
        &&& self.link_libraries@.len() == 0
    }

    /// A configuration without anything.
    pub fn new() -> (r: Self)
        ensures
            r.is_bare(),
    {
        DebuggerConfig {
            input: None,
            inputs: None,
            args: Vec::new(),
            working_dir: None,
            sysroot: None,
            color: ColorChoice::Auto,
            entrypoint: None,
            dap_connect: None,
            search_path: Vec::new(),
            link_libraries: Vec::new(),
        }
    }

    /// The working directory: the one that is set, else the current directory of the process, where
    /// it is known.
    pub fn working_dir(&self, current_dir: Option<String>) -> (r: String)
        ensures
            r@ == match self.working_dir {
                Some(dir) => dir@,
                None => match current_dir {
                    Some(dir) => dir@,
                    None => "./"@,
                },
            },
    {
        match &self.working_dir {
            Some(dir) => dir.clone(),
            None => match current_dir {
                Some(dir) => dir,
                None => "./".to_owned(),
            },
        }
    }

    /// The directory that the toolchain should be in, by the names that lead to it: the one that is
    /// set, else the one of the active toolchain, where that is known.
    pub open spec fn expected_toolchain_dir(
        &self,
        home: Option<Seq<char>>,
        channel: Option<Seq<char>>,
    ) -> Option<Seq<Seq<char>>> {
        match self.sysroot {
            Some(dir) => Some(seq![dir@]),
            None => match (home, channel) {
                (Some(home), Some(channel)) => Some(seq![home, "toolchains"@, channel]),
                _ => None,
            },
        }
    }

    /// The directory that the toolchain should be in, by the names that lead to it.
    pub fn sysroot_candidate(&self, home: Option<String>, channel: Option<String>) -> (r: Option<
        Vec<String>,
    >)
        ensures
            match r {
                Some(names) => self.expected_toolchain_dir(
                    crate::debug::op::text_view(home),
                    crate::debug::op::text_view(channel),
                ) == Some(crate::linker::text_views(names@)),
                None => self.expected_toolchain_dir(
                    crate::debug::op::text_view(home),
                    crate::debug::op::text_view(channel),
                ) is None,
            },
    {
        match &self.sysroot {
            Some(dir) => {
                let names: Vec<String> = vec![dir.clone()];
                proof {
                    assert(crate::linker::text_views(names@) =~= seq![dir@]);
                }
                Some(names)
            },
            None => match (home, channel) {
                (Some(home), Some(channel)) => {
                    let names: Vec<String> = vec![home, "toolchains".to_owned(), channel];
                    proof {
                        assert(crate::linker::text_views(names@) =~= seq![
                            home@,
                            "toolchains"@,
                            channel@,
                        ]);
                    }
                    Some(names)
                },
                _ => None,
            },
        }
    }

    /// The directory of the toolchain, by the names that lead to it, given whether the directory
    /// that it should be in exists.
    pub fn toolchain_dir(&self, home: Option<String>, channel: Option<String>, found: bool) -> (r:
        Option<Vec<String>>)
        ensures
            match r {
                Some(names) => found && self.expected_toolchain_dir(
                    crate::debug::op::text_view(home),
                    crate::debug::op::text_view(channel),
                ) == Some(crate::linker::text_views(names@)),
                None => !found || self.expected_toolchain_dir(
                    crate::debug::op::text_view(home),
                    crate::debug::op::text_view(channel),
                ) is None,
            },
    {
        if found {
            self.sysroot_candidate(home, channel)
        } else {
            None
        }
    }
}

// ---------------------------------------------------------------------------------------------
// What other programs say
// ---------------------------------------------------------------------------------------------

/// Whether a character is ASCII white space.
pub open spec fn is_ascii_space(c: char) -> bool {
    c == ' ' || c == '\t' || c == '\n' || c == '\x0c' || c == '\r'
}

/// The text without the ASCII white space at its start.
pub open spec fn ascii_trim_start(s: Seq<char>) -> Seq<char>
    decreases s.len(),
{
    if s.len() > 0 && is_ascii_space(s[0]) {
        ascii_trim_start(s.skip(1))
    } else {
        s
    }
}

/// The text without the ASCII white space at its end.
pub open spec fn ascii_trim_end(s: Seq<char>) -> Seq<char>
    decreases s.len(),
{
    if s.len() > 0 && is_ascii_space(s.last()) {
        ascii_trim_end(s.drop_last())
    } else {
        s
    }
}

/// What a program said, without the white space around it; nothing where it failed, or said
/// nothing, or nothing that is text.
pub open spec fn answer_of(success: bool, output: Option<Seq<char>>) -> Option<Seq<char>> {
    match output {
        Some(text) => {
            let trimmed = ascii_trim_end(ascii_trim_start(text));
            if success && trimmed.len() > 0 {
                Some(trimmed)
            } else {
                None
            }
        },
        None => None,
    }
}

fn ascii_space(c: char) -> (r: bool)
    ensures
        r == is_ascii_space(c),
{
    c == ' ' || c == '\t' || c == '\n' || c == '\x0c' || c == '\r'
}

/// What a program said, without the white space around it.
pub fn program_answer(success: bool, output: Option<&str>) -> (r: Option<String>)
    ensures
        crate::debug::op::text_view(r) == answer_of(
            success,
            match output {
                Some(text) => Some(text@),
                None => None,
            },
        ),
{
    let text = match output {
        Some(text) => text,
        None => {
            return None;
        },
    };
    if !success {
        return None;
    }
    let chars = crate::text::chars_of(text);
    let mut from: usize = 0;
    proof {
        assert(chars@.skip(0) =~= text@);
    }
    while from < chars.len() && ascii_space(chars[from])
        invariant
            from <= chars@.len(),
            ascii_trim_start(text@) == ascii_trim_start(chars@.skip(from as int)),
        decreases chars@.len() - from,
    {
        proof {
            assert(chars@.skip(from as int).skip(1) =~= chars@.skip(from + 1));
        }
        from += 1;
    }
    let mut to: usize = chars.len();
    proof {
        assert(chars@.subrange(from as int, to as int) =~= chars@.skip(from as int));
    }
    while from < to && ascii_space(chars[to - 1])
        invariant
            from <= to <= chars@.len(),
            ascii_trim_end(ascii_trim_start(text@)) == ascii_trim_end(
                chars@.subrange(from as int, to as int),
            ),
        decreases to - from,
    {
        proof {
            assert(chars@.subrange(from as int, to as int).drop_last() =~= chars@.subrange(
                from as int,
                to - 1,
            ));
        }
        to -= 1;
    }
    if from == to {
        None
    } else {
        Some(crate::text::string_of(&chars, from, to))
    }
}

// ---------------------------------------------------------------------------------------------
// What holds of every configuration
// ---------------------------------------------------------------------------------------------

/// A choice of colors is known by its name, in lower case and in full; no other text stands for one.
pub proof fn choices_are_known_by_name(s: Seq<char>)
    ensures
        ColorChoice::of("always"@) == Some(ColorChoice::Always),
        ColorChoice::of("always-ansi"@) == Some(ColorChoice::AlwaysAnsi),
        ColorChoice::of("never"@) == Some(ColorChoice::Never),
        ColorChoice::of("auto"@) == Some(ColorChoice::Auto),
        ColorChoice::of(s) is Some ==> s == "always"@ || s == "always-ansi"@ || s == "never"@ || s
            == "auto"@,
{
    reveal_strlit("always");
    reveal_strlit("always-ansi");
    reveal_strlit("never");
    reveal_strlit("auto");
    assert("always"@.len() == 6 && "always-ansi"@.len() == 11 && "never"@.len() == 5 && "auto"@.len()
        == 4);
}

/// No colors are written to a dumb terminal, nor where they are switched off, nor, other than on
/// Windows, to one of no known kind; and they are written everywhere else.
pub proof fn colors_are_allowed_unless_something_speaks_against_them(env: ColorEnv)
    ensures
        env.no_color ==> !env.allows_color(),
        env.term is None && !env.windows ==> !env.allows_color(),
        env.term matches Some(term) && term@ == "dumb"@ ==> !env.allows_color(),
        !env.no_color && (env.term matches Some(term) && term@ != "dumb"@) ==> env.allows_color(),
        !env.no_color && env.term is None && env.windows ==> env.allows_color(),
{
}

/// An argument is the number that its digits stand for; one that is no element of the field is
/// refused, and so is what is no number.
pub proof fn an_argument_is_an_element(text: Seq<char>)
    ensures
        match argument_value(text) {
            Ok(e) => {
                &&& text.len() > 0
                &&& crate::text::all_digits(crate::text::without_plus(text))
                &&& e.value == crate::text::place_value(crate::text::without_plus(text), 10)
                &&& e.value < 0xffff_ffff_0000_0001u64
            },
            Err(NumberError::Empty) => text.len() == 0,
            Err(NumberError::InvalidDigit) => !crate::text::all_digits(
                crate::text::without_plus(text),
            ),
            Err(NumberError::TooLarge) => crate::text::all_digits(crate::text::without_plus(text))
                ==> crate::text::place_value(crate::text::without_plus(text), 10)
                >= 0xffff_ffff_0000_0001,
        },
{
    let digits = crate::text::without_plus(text);
    crate::text::a_number_is_read_digit_by_digit(text, (MODULUS - 1) as nat);
    crate::text::digits_stand_for_no_less(digits);
    if argument_value(text) == Err::<Felt, NumberError>(NumberError::InvalidDigit) {
        let k = choose|k: int|
            {
                &&& 0 <= k < digits.len()
                &&& crate::text::all_digits(#[trigger] digits.take(k))
                &&& crate::text::place_value(digits.take(k), 10) <= (MODULUS - 1)
                &&& !('0' <= digits[k] && digits[k] <= '9')
            };
        assert(!('0' <= digits[k] && digits[k] <= '9'));
    }
}

/// The toolchain is in the directory that is set; where none is, in that of the active toolchain
/// below the home directory, if both are known.
pub proof fn the_directory_that_is_set_counts(
    config: DebuggerConfig,
    home: Option<Seq<char>>,
    channel: Option<Seq<char>>,
)
    ensures
        config.sysroot matches Some(dir) ==> config.expected_toolchain_dir(home, channel) == Some(
            seq![dir@],
        ),
        config.sysroot is None && (home is None || channel is None)
            ==> config.expected_toolchain_dir(home, channel) is None,
        config.sysroot is None ==> (home matches Some(h) && (channel matches Some(c)
            ==> config.expected_toolchain_dir(home, channel) == Some(
            seq![h, "toolchains"@, c],
        )) || home is None),
{
}

/// What a program said is taken without the white space around it, and only where it succeeded and
/// said something else.
pub proof fn an_answer_is_what_is_between(success: bool, text: Seq<char>)
    ensures
        answer_of(success, None) is None,
        !success ==> answer_of(success, Some(text)) is None,
        match answer_of(success, Some(text)) {
            Some(answer) => {
                &&& success
                &&& answer.len() > 0
                &&& !is_ascii_space(answer[0])
                &&& !is_ascii_space(answer.last())
                &&& exists|before: Seq<char>, after: Seq<char>|
                    {
                        &&& text == #[trigger] (before + answer + after)
                        &&& forall|i: int| 0 <= i < before.len() ==> is_ascii_space(
                            #[trigger] before[i],
                        )
                        &&& forall|i: int| 0 <= i < after.len() ==> is_ascii_space(
                            #[trigger] after[i],
                        )
                    }
            },
            None => success ==> forall|i: int|
                0 <= i < text.len() ==> is_ascii_space(#[trigger] text[i]),
        },
{
    let t = ascii_trim_start(text);
    let answer = ascii_trim_end(t);
    ascii_start_is_behind(text);
    ascii_end_is_before(t);
    let before = text.take(text.len() - t.len());
    let after = t.skip(answer.len() as int);
    assert(text =~= before + answer + after);
    assert forall|i: int| 0 <= i < before.len() implies is_ascii_space(#[trigger] before[i]) by {
        assert(before[i] == text[i]);
    }
    assert forall|i: int| 0 <= i < after.len() implies is_ascii_space(#[trigger] after[i]) by {
        assert(after[i] == t[answer.len() + i]);
    }
    if answer.len() > 0 {
        assert(answer[0] == t[0]);
    } else if success {
        assert(t.len() == 0) by {
            if t.len() > 0 {
                assert(is_ascii_space(t[0]));
            }
        }
        assert forall|i: int| 0 <= i < text.len() implies is_ascii_space(#[trigger] text[i]) by {}
    }
}

proof fn ascii_start_is_behind(s: Seq<char>)
    ensures
        ascii_trim_start(s).is_suffix_of(s),
        forall|i: int| 0 <= i < s.len() - ascii_trim_start(s).len() ==> is_ascii_space(
            #[trigger] s[i],
        ),
        ascii_trim_start(s).len() > 0 ==> !is_ascii_space(ascii_trim_start(s)[0]),
    decreases s.len(),
{
    if s.len() > 0 && is_ascii_space(s[0]) {
        let rest = s.skip(1);
        ascii_start_is_behind(rest);
        assert(ascii_trim_start(s) =~= s.subrange(
            s.len() - ascii_trim_start(s).len(),
            s.len() as int,
        ));
        assert forall|i: int| 0 <= i < s.len() - ascii_trim_start(s).len() implies is_ascii_space(
            #[trigger] s[i],
        ) by {
            if i > 0 {
                assert(rest[i - 1] == s[i]);
            }
        }
    } else {
        assert(s =~= s.subrange(0, s.len() as int));
    }
}

proof fn ascii_end_is_before(s: Seq<char>)
    ensures
        ascii_trim_end(s).is_prefix_of(s),
        forall|i: int| ascii_trim_end(s).len() <= i < s.len() ==> is_ascii_space(#[trigger] s[i]),
        ascii_trim_end(s).len() > 0 ==> !is_ascii_space(ascii_trim_end(s).last()),
    decreases s.len(),
{
    if s.len() > 0 && is_ascii_space(s.last()) {
        let rest = s.drop_last();
        ascii_end_is_before(rest);
        assert(ascii_trim_end(s) =~= s.subrange(0, ascii_trim_end(s).len() as int));
        assert forall|i: int| ascii_trim_end(s).len() <= i < s.len() implies is_ascii_space(
            #[trigger] s[i],
        ) by {
            if i < s.len() - 1 {
                assert(rest[i] == s[i]);
            }
        }
    } else {
        assert(s =~= s.subrange(0, s.len() as int));
    }
}

/// A configuration without anything names no program, no inputs and no arguments, and searches and
/// links nothing.
pub proof fn nothing_is_configured_at_first(config: DebuggerConfig)
    requires
        config.is_bare(),
    ensures
        config.input is None && config.inputs is None && config.entrypoint is None,
        config.args@ == Seq::<Felt>::empty(),
        config.search_path@.len() == 0 && config.link_libraries@.len() == 0,
        config.working_dir is None && config.sysroot is None && config.dap_connect is None,
        config.color == ColorChoice::Auto,
        config.expected_toolchain_dir(None, None) is None,
{
}

} // verus!
