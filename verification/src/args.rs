//! Command-line selection parameters and how they are read from the argument list.

use pico_args::Arguments;
use vstd::prelude::*;
use crate::text::{non_empty_words, same_text, split_on_space, split_spaces, texts};

verus! {

/// The argument list of the command line; its items are taken out one by one.
#[verifier::external_type_specification]
#[verifier::external_body]
pub struct ExArguments(pico_args::Arguments);

/// What an argument list holds: one entry per item, the item's text where it is
/// valid UTF-8 and `None` where it is not.
pub type ArgItems = Seq<Option<Seq<char>>>;

/// The items that `args` still holds, in command-line order.
pub uninterp spec fn arguments_items(args: Arguments) -> ArgItems;

/// Why the argument list could not be read.
///
/// The variants are the failures of the argument parser. Reading the selection
/// ends only in an option without a value, in a value that is not UTF-8, or in
/// a value that was not understood.
#[derive(Debug)]
pub enum ArgsError {
    /// An option's value is not valid UTF-8.
    NonUtf8Argument,
    /// A free-standing argument is missing.
    MissingArgument,
    /// A required option is missing.
    MissingOption,
    /// The named option is the last item, so no value follows it.
    OptionWithoutAValue(&'static str),
    /// The value of an option was not understood.
    Utf8ArgumentParsingFailed { value: String, cause: String },
    /// A raw argument was not understood.
    ArgumentParsingFailed { cause: String },
}

/// Mathematical content of [`ArgsError`].
pub enum ArgsErrorView {
    NonUtf8Argument,
    MissingArgument,
    MissingOption,
    OptionWithoutAValue(Seq<char>),
    Utf8ArgumentParsingFailed { value: Seq<char>, cause: Seq<char> },
    ArgumentParsingFailed { cause: Seq<char> },
}

impl View for ArgsError {
    type V = ArgsErrorView;

    open spec fn view(&self) -> ArgsErrorView {
        match self {
            ArgsError::NonUtf8Argument => ArgsErrorView::NonUtf8Argument,
            ArgsError::MissingArgument => ArgsErrorView::MissingArgument,
            ArgsError::MissingOption => ArgsErrorView::MissingOption,
            ArgsError::OptionWithoutAValue(key) => ArgsErrorView::OptionWithoutAValue(key@),
            ArgsError::Utf8ArgumentParsingFailed { value, cause } => {
                ArgsErrorView::Utf8ArgumentParsingFailed { value: value@, cause: cause@ }
            },
            ArgsError::ArgumentParsingFailed { cause } => {
                ArgsErrorView::ArgumentParsingFailed { cause: cause@ }
            },
        }
    }
}

/// Whether `key` may be looked up: it starts with a dash, and a key with a single
/// dash repeats one character after it.
pub open spec fn valid_key(key: Seq<char>) -> bool {
    &&& key.len() >= 1
    &&& key[0] == '-'
    &&& ((key.len() >= 2 && key[1] == '-') || forall|i: int| 2 <= i < key.len() ==> #[trigger] key[i] == key[1])
}

/// Index of the first item that is exactly `key`, or the number of items when there is none.
pub open spec fn position(items: ArgItems, key: Seq<char>) -> nat
    decreases items.len(),
{
    if items.len() == 0 || items[0] == Some(key) {
        0
    } else {
        1 + position(items.drop_first(), key)
    }
}

/// Taking a flag: whether `key` is among the items, and the items that are left.
/// The first occurrence is removed.
pub open spec fn flag_of(items: ArgItems, key: Seq<char>) -> (bool, ArgItems) {
    let at = position(items, key) as int;
    if at < items.len() {
        (true, items.remove(at))
    } else {
        (false, items)
    }
}

/// Taking an option with a value: the value is the item after the first occurrence
/// of `key`, and both leave the list. An absent key gives no value; a key in last
/// place, or a value that is not UTF-8, is an error.
pub open spec fn value_of(items: ArgItems, key: Seq<char>) -> Result<
    (Option<Seq<char>>, ArgItems),
    ArgsErrorView,
> {
    let at = position(items, key) as int;
    if at >= items.len() {
        Ok((None, items))
    } else if at + 1 >= items.len() {
        Err(ArgsErrorView::OptionWithoutAValue(key))
    } else {
        match items[at + 1] {
            None => Err(ArgsErrorView::NonUtf8Argument),
            Some(value) => Ok((Some(value), items.remove(at).remove(at))),
        }
    }
}

/// What a lookup of a value returned, as mathematical content.
pub open spec fn value_result_view(
    result: Result<Option<String>, ArgsError>,
    rest: ArgItems,
) -> Result<(Option<Seq<char>>, ArgItems), ArgsErrorView> {
    match result {
        Ok(value) => Ok((opt_text(value), rest)),
        Err(e) => Err(e@),
    }
}

/// Calls `pico_args::Arguments::contains` with a single key.
///
/// The contract claims that the call looks for the first item equal to `key`,
/// removes it when there is one, and reports whether there was one. This is
/// how the argument parser behaves when it is built without its optional
/// features, as it is here.
#[verifier::external_body]
fn take_flag(args: &mut Arguments, key: &'static str) -> (found: bool)
    requires
        valid_key(key@),
    ensures
        (found, arguments_items(*final(args))) == flag_of(arguments_items(*old(args)), key@),
{
    args.contains(key)
}

/// Calls `pico_args::Arguments::opt_value_from_str` with a single key, for a
/// `String` value, and carries its error over variant by variant.
///
/// The contract claims that the call looks for the first item equal to `key`;
/// that without one it returns no value and leaves the items alone; that with one
/// it returns the following item and removes both; and that it fails, leaving the
/// items alone, when nothing follows the key or the following item is not UTF-8.
/// This is how the argument parser behaves when it is built without its
/// optional features, as it is here: a key and its value are two items.
#[verifier::external_body]
fn take_value(args: &mut Arguments, key: &'static str) -> (result: Result<
    Option<String>,
    ArgsError,
>)
    requires
        valid_key(key@),
    ensures
        value_result_view(result, arguments_items(*final(args))) == value_of(
            arguments_items(*old(args)),
            key@,
        ),
        result is Err ==> arguments_items(*final(args)) == arguments_items(*old(args)),
{
    match args.opt_value_from_str::<_, String>(key) {
        Ok(value) => Ok(value),
        Err(pico_args::Error::NonUtf8Argument) => Err(ArgsError::NonUtf8Argument),
        Err(pico_args::Error::MissingArgument) => Err(ArgsError::MissingArgument),
        Err(pico_args::Error::MissingOption(_)) => Err(ArgsError::MissingOption),
        Err(pico_args::Error::OptionWithoutAValue(key)) => Err(ArgsError::OptionWithoutAValue(key)),
        Err(pico_args::Error::Utf8ArgumentParsingFailed { value, cause }) => {
            Err(ArgsError::Utf8ArgumentParsingFailed { value, cause })
        },
        Err(pico_args::Error::ArgumentParsingFailed { cause }) => {
            Err(ArgsError::ArgumentParsingFailed { cause })
        },
    }
}

/// Shape of the report that is produced.
#[derive(Clone, Copy, Debug, PartialEq, Eq, Structural)]
pub enum OutputFormat {
    Ascii,
    Json,
    GitHubMarkdown,
    Ratio,
    Utf8,
}

impl OutputFormat {
    /// The format that a name stands for; names are matched exactly.
    pub open spec fn parse_spec(name: Seq<char>) -> Option<OutputFormat> {
        if name == "Ascii"@ {
            Some(OutputFormat::Ascii)
        } else if name == "Json"@ {
            Some(OutputFormat::Json)
        } else if name == "GitHubMarkdown"@ {
            Some(OutputFormat::GitHubMarkdown)
        } else if name == "Ratio"@ {
            Some(OutputFormat::Ratio)
        } else if name == "Utf8"@ {
            Some(OutputFormat::Utf8)
        } else {
            None
        }
    }

    /// Reads a format from its name.
    pub fn parse(name: &str) -> (format: Option<OutputFormat>)
        ensures
            format == Self::parse_spec(name@),
    {
        if same_text(name, "Ascii") {
            Some(OutputFormat::Ascii)
        } else if same_text(name, "Json") {
            Some(OutputFormat::Json)
        } else if same_text(name, "GitHubMarkdown") {
            Some(OutputFormat::GitHubMarkdown)
        } else if same_text(name, "Ratio") {
            Some(OutputFormat::Ratio)
        } else if same_text(name, "Utf8") {
            Some(OutputFormat::Utf8)
        } else {
            None
        }
    }
}

impl Default for OutputFormat {
    fn default() -> (format: OutputFormat)
        ensures
            format == OutputFormat::Utf8,
    {
        OutputFormat::Utf8
    }
}

/// How much the build orchestrator is asked to print.
#[derive(Clone, Copy, Debug, PartialEq, Eq, Structural)]
pub enum Verbosity {
    Verbose,
    Normal,
    Quiet,
}

impl Default for Verbosity {
    fn default() -> (verbosity: Verbosity)
        ensures
            verbosity == Verbosity::Verbose,
    {
        Verbosity::Verbose
    }
}

impl Verbosity {
    /// The numeric level that stands for this verbosity.
    pub open spec fn level_spec(self) -> u32 {
        match self {
            Verbosity::Quiet => 0,
            Verbosity::Normal => 1,
            Verbosity::Verbose => 2,
        }
    }

    /// Returns the numeric level the build orchestrator is configured with.
    pub fn level(&self) -> (n: u32)
        ensures
            n == self.level_spec(),
    {
        match self {
            Verbosity::Quiet => 0,
            Verbosity::Normal => 1,
            Verbosity::Verbose => 2,
        }
    }

    /// The verbosity selected by the `-vv` flag and the `-v` flag.
    pub open spec fn from_flags_spec(very_verbose: bool, verbose: bool) -> Verbosity {
        if very_verbose {
            Verbosity::Verbose
        } else if verbose {
            Verbosity::Normal
        } else {
            Verbosity::Quiet
        }
    }

    /// Chooses the verbosity from the `-vv` flag and the `-v` flag.
    pub fn from_flags(very_verbose: bool, verbose: bool) -> (verbosity: Verbosity)
        ensures
            verbosity == Self::from_flags_spec(very_verbose, verbose),
    {
        match (very_verbose, verbose) {
            (false, false) => Verbosity::Quiet,
            (false, true) => Verbosity::Normal,
            (true, _) => Verbosity::Verbose,
        }
    }
}

/// Whether the terminal output of the build orchestrator is coloured.
#[derive(Clone, Copy, Debug, PartialEq, Eq, Structural)]
pub enum ColorChoice {
    Always,
    Never,
    CargoAuto,
}

impl ColorChoice {
    /// The colouring that a choice forces on the report, if it forces one.
    pub open spec fn override_spec(self) -> Option<bool> {
        match self {
            ColorChoice::Always => Some(true),
            ColorChoice::Never => Some(false),
            ColorChoice::CargoAuto => None,
        }
    }

    /// Decides whether the report's colouring is forced on or off; an automatic
    /// choice forces nothing.
    pub fn color_override(&self) -> (forced: Option<bool>)
        ensures
            forced == self.override_spec(),
    {
        match self {
            ColorChoice::Always => Some(true),
            ColorChoice::Never => Some(false),
            ColorChoice::CargoAuto => None,
        }
    }
}

/// Which dependency kinds are analysed besides the normal ones.
#[derive(Clone, Copy, Debug, PartialEq, Eq, Structural)]
pub struct DepsArgs {
    pub all_deps: bool,
    pub build_deps: bool,
    pub dev_deps: bool,
}

impl Default for DepsArgs {
    fn default() -> (args: DepsArgs)
        ensures
            args == (DepsArgs { all_deps: false, build_deps: false, dev_deps: false }),
    {
        DepsArgs { all_deps: false, build_deps: false, dev_deps: false }
    }
}

/// The text of an optional string.
pub open spec fn opt_text(value: Option<String>) -> Option<Seq<char>> {
    match value {
        Some(s) => Some(s@),
        None => None,
    }
}

/// Feature selection.
#[derive(Debug)]
pub struct FeaturesArgs {
    pub all_features: bool,
    pub features: Vec<String>,
    pub no_default_features: bool,
}

/// Mathematical content of [`FeaturesArgs`].
pub struct FeaturesArgsView {
    pub all_features: bool,
    pub features: Seq<Seq<char>>,
    pub no_default_features: bool,
}

impl View for FeaturesArgs {
    type V = FeaturesArgsView;

    open spec fn view(&self) -> FeaturesArgsView {
        FeaturesArgsView {
            all_features: self.all_features,
            features: texts(self.features@),
            no_default_features: self.no_default_features,
        }
    }
}

impl FeaturesArgs {
    /// Whether the `default` feature is activated.
    pub fn uses_default_features(&self) -> (uses: bool)
        ensures
            uses == !self.no_default_features,
    {
        !self.no_default_features
    }
}

impl Default for FeaturesArgs {
    fn default() -> (args: FeaturesArgs)
        ensures
            args@ == (FeaturesArgsView {
                all_features: false,
                features: Seq::empty(),
                no_default_features: false,
            }),
    {
        let args = FeaturesArgs {
            all_features: false,
            features: Vec::new(),
            no_default_features: false,
        };
        assert(texts(args.features@) =~= Seq::empty());
        args
    }
}

/// Target selection.
#[derive(Debug)]
pub struct TargetArgs {
    pub all_targets: bool,
    pub target: Option<String>,
}

/// Mathematical content of [`TargetArgs`].
pub struct TargetArgsView {
    pub all_targets: bool,
    pub target: Option<Seq<char>>,
}

impl View for TargetArgs {
    type V = TargetArgsView;

    open spec fn view(&self) -> TargetArgsView {
        TargetArgsView { all_targets: self.all_targets, target: opt_text(self.target) }
    }
}

impl Default for TargetArgs {
    fn default() -> (args: TargetArgs)
        ensures
            args@ == (TargetArgsView { all_targets: false, target: None }),
    {
        TargetArgs { all_targets: false, target: None }
    }
}

/// Where a report is written when the readme is updated.
#[derive(Debug)]
pub struct ReadmeArgs {
    pub readme_path: Option<String>,
    pub section_name: Option<String>,
    pub update_readme: bool,
}

/// Mathematical content of [`ReadmeArgs`].
pub struct ReadmeArgsView {
    pub readme_path: Option<Seq<char>>,
    pub section_name: Option<Seq<char>>,
    pub update_readme: bool,
}

impl View for ReadmeArgs {
    type V = ReadmeArgsView;

    open spec fn view(&self) -> ReadmeArgsView {
        ReadmeArgsView {
            readme_path: opt_text(self.readme_path),
            section_name: opt_text(self.section_name),
            update_readme: self.update_readme,
        }
    }
}

impl Default for ReadmeArgs {
    fn default() -> (args: ReadmeArgs)
        ensures
            args@ == (ReadmeArgsView {
                readme_path: None,
                section_name: None,
                update_readme: false,
            }),
    {
        ReadmeArgs { readme_path: None, section_name: None, update_readme: false }
    }
}

/// Everything the command line selects.
pub struct Args {
    pub all: bool,
    pub color: Option<String>,
    pub deps_args: DepsArgs,
    pub features_args: FeaturesArgs,
    pub forbid_only: bool,
    pub format: String,
    pub frozen: bool,
    pub help: bool,
    pub include_tests: bool,
    pub invert: bool,
    pub locked: bool,
    pub manifest_path: Option<String>,
    pub no_indent: bool,
    pub offline: bool,
    pub output_format: OutputFormat,
    pub package: Option<String>,
    pub prefix_depth: bool,
    pub quiet: bool,
    pub readme_args: ReadmeArgs,
    pub target_args: TargetArgs,
    pub unstable_flags: Vec<String>,
    pub verbosity: Verbosity,
    pub version: bool,
}

/// Mathematical content of [`Args`].
pub struct ArgsView {
    pub all: bool,
    pub color: Option<Seq<char>>,
    pub deps_args: DepsArgs,
    pub features_args: FeaturesArgsView,
    pub forbid_only: bool,
    pub format: Seq<char>,
    pub frozen: bool,
    pub help: bool,
    pub include_tests: bool,
    pub invert: bool,
    pub locked: bool,
    pub manifest_path: Option<Seq<char>>,
    pub no_indent: bool,
    pub offline: bool,
    pub output_format: OutputFormat,
    pub package: Option<Seq<char>>,
    pub prefix_depth: bool,
    pub quiet: bool,
    pub readme_args: ReadmeArgsView,
    pub target_args: TargetArgsView,
    pub unstable_flags: Seq<Seq<char>>,
    pub verbosity: Verbosity,
    pub version: bool,
}

impl View for Args {
    type V = ArgsView;

    open spec fn view(&self) -> ArgsView {
        ArgsView {
            all: self.all,
            color: opt_text(self.color),
            deps_args: self.deps_args,
            features_args: self.features_args@,
            forbid_only: self.forbid_only,
            format: self.format@,
            frozen: self.frozen,
            help: self.help,
            include_tests: self.include_tests,
            invert: self.invert,
            locked: self.locked,
            manifest_path: opt_text(self.manifest_path),
            no_indent: self.no_indent,
            offline: self.offline,
            output_format: self.output_format,
            package: opt_text(self.package),
            prefix_depth: self.prefix_depth,
            quiet: self.quiet,
            readme_args: self.readme_args@,
            target_args: self.target_args@,
            unstable_flags: texts(self.unstable_flags@),
            verbosity: self.verbosity,
            version: self.version,
        }
    }
}

impl Default for Args {
    /// The selection with nothing chosen: every flag off, no value given, an
    /// empty format, and the default output format and verbosity.
    fn default() -> (args: Args)
        ensures
            args@ == (ArgsView {
                all: false,
                color: None,
                deps_args: DepsArgs { all_deps: false, build_deps: false, dev_deps: false },
                features_args: FeaturesArgsView {
                    all_features: false,
                    features: Seq::empty(),
                    no_default_features: false,
                },
                forbid_only: false,
                format: Seq::empty(),
                frozen: false,
                help: false,
                include_tests: false,
                invert: false,
                locked: false,
                manifest_path: None,
                no_indent: false,
                offline: false,
                output_format: OutputFormat::Utf8,
                package: None,
                prefix_depth: false,
                quiet: false,
                readme_args: ReadmeArgsView {
                    readme_path: None,
                    section_name: None,
                    update_readme: false,
                },
                target_args: TargetArgsView { all_targets: false, target: None },
                unstable_flags: Seq::empty(),
                verbosity: Verbosity::Verbose,
                version: false,
            }),
    {
        let args = Args {
            all: false,
            color: None,
            deps_args: DepsArgs::default(),
            features_args: FeaturesArgs::default(),
            forbid_only: false,
            format: String::new(),
            frozen: false,
            help: false,
            include_tests: false,
            invert: false,
            locked: false,
            manifest_path: None,
            no_indent: false,
            offline: false,
            output_format: OutputFormat::default(),
            package: None,
            prefix_depth: false,
            quiet: false,
            readme_args: ReadmeArgs::default(),
            target_args: TargetArgs::default(),
            unstable_flags: Vec::new(),
            verbosity: Verbosity::default(),
            version: false,
        };
        assert(texts(args.unstable_flags@) =~= Seq::empty());
        args
    }
}

/// The feature names in a space-separated list; an absent list has none.
pub open spec fn parse_features_spec(raw_features: Option<Seq<char>>) -> Seq<Seq<char>> {
    match raw_features {
        Some(list) => non_empty_words(split_on_space(list)),
        None => Seq::empty(),
    }
}

/// Splits a space-separated feature list into its names, dropping empty ones.
pub fn parse_features(raw_features: Option<String>) -> (features: Vec<String>)
    ensures
        texts(features@) == parse_features_spec(opt_text(raw_features)),
{
    let mut features: Vec<String> = Vec::new();
    match raw_features {
        None => {
            assert(texts(features@) =~= Seq::empty());
        },
        Some(list) => {
            let pieces = split_spaces(list.as_str());
            let mut i: usize = 0;
            assert(pieces@.take(0) =~= Seq::empty());
            assert(texts(pieces@.take(0)) =~= Seq::empty());
            assert(texts(features@) =~= Seq::empty());
            while i < pieces.len()
                invariant
                    i <= pieces.len(),
                    texts(features@) == non_empty_words(texts(pieces@.take(i as int))),
                decreases pieces.len() - i,
            {
                proof {
                    let next = texts(pieces@.take(i + 1));
                    assert(next.drop_last() =~= texts(pieces@.take(i as int)));
                    assert(next.last() == pieces@[i as int]@);
                }
                if !pieces[i].as_str().is_empty() {
                    let name = pieces[i].clone();
                    assert(texts(features@.push(name)) =~= texts(features@).push(name@));
                    features.push(name);
                }
                i = i + 1;
            }
            assert(pieces@.take(pieces.len() as int) =~= pieces@);
        },
    }
    features
}

/// Where the reading of an argument list stands: the items not yet taken, and
/// the failure that stopped the reading, if any. After a failure every further
/// lookup finds nothing and changes nothing.
pub struct Cursor {
    pub items: ArgItems,
    pub failure: Option<ArgsErrorView>,
}

impl Cursor {
    /// Looks up the flag `key`.
    #[verifier::opaque]
    pub open spec fn flag(self, key: Seq<char>) -> (bool, Cursor) {
        if self.failure is Some {
            (false, self)
        } else {
            let (found, rest) = flag_of(self.items, key);
            (found, Cursor { items: rest, failure: None })
        }
    }

    /// Looks up a flag with a short and a long form; the short form goes first.
    #[verifier::opaque]
    pub open spec fn flag2(self, short: Seq<char>, long: Seq<char>) -> (bool, Cursor) {
        let (found, next) = self.flag(short);
        if found {
            (found, next)
        } else {
            next.flag(long)
        }
    }

    /// Looks up the value of the option `key`.
    #[verifier::opaque]
    pub open spec fn value(self, key: Seq<char>) -> (Option<Seq<char>>, Cursor) {
        if self.failure is Some {
            (None, self)
        } else {
            match value_of(self.items, key) {
                Ok((value, rest)) => (value, Cursor { items: rest, failure: None }),
                Err(e) => (None, Cursor { items: self.items, failure: Some(e) }),
            }
        }
    }

    /// Looks up the value of an option with a short and a long form; the short
    /// form goes first.
    #[verifier::opaque]
    pub open spec fn value2(self, short: Seq<char>, long: Seq<char>) -> (
        Option<Seq<char>>,
        Cursor,
    ) {
        let (value, next) = self.value(short);
        if value is Some {
            (value, next)
        } else {
            next.value(long)
        }
    }
}

/// The report format that an optional name selects: UTF-8 without a name, and
/// a failure for a name that stands for no format.
pub open spec fn output_format_of(name: Option<Seq<char>>) -> Result<OutputFormat, ArgsErrorView> {
    match name {
        None => Ok(OutputFormat::Utf8),
        Some(n) => match OutputFormat::parse_spec(n) {
            Some(format) => Ok(format),
            None => Err(
                ArgsErrorView::Utf8ArgumentParsingFailed {
                    value: n,
                    cause: "Matching variant not found"@,
                },
            ),
        },
    }
}

/// The selection that an argument list stands for.
///
/// Flags and options are taken from the list one after another, in the order
/// written here, and each one that is found leaves the list, so an item that
/// was taken as the value of an earlier option is no longer seen as a flag. The
/// first failure ends the reading. Updating the readme forces the Markdown
/// format.
pub open spec fn parse_args_spec(items: ArgItems) -> Result<ArgsView, ArgsErrorView> {
    let c = Cursor { items, failure: None };
    let (all, c) = c.flag2("-a"@, "--all"@);
    let (color, c) = c.value("--color"@);
    let (all_deps, c) = c.flag("--all-dependencies"@);
    let (build_deps, c) = c.flag("--build-dependencies"@);
    let (dev_deps, c) = c.flag("--dev-dependencies"@);
    let (all_features, c) = c.flag("--all-features"@);
    let (raw_features, c) = c.value("--features"@);
    let (no_default_features, c) = c.flag("--no-default-features"@);
    let (forbid_only, c) = c.flag2("-f"@, "--forbid-only"@);
    let (format, c) = c.value("--format"@);
    let (frozen, c) = c.flag("--frozen"@);
    let (help, c) = c.flag2("-h"@, "--help"@);
    let (include_tests, c) = c.flag("--include-tests"@);
    let (invert, c) = c.flag2("-i"@, "--invert"@);
    let (locked, c) = c.flag("--locked"@);
    let (manifest_path, c) = c.value("--manifest-path"@);
    let (no_indent, c) = c.flag("--no-indent"@);
    let (offline, c) = c.flag("--offline"@);
    let (package, c) = c.value2("-p"@, "--package"@);
    let (prefix_depth, c) = c.flag("--prefix-depth"@);
    let (quiet, c) = c.flag2("-q"@, "--quiet"@);
    let (readme_path, c) = c.value("--readme-path"@);
    let (section_name, c) = c.value("--section-name"@);
    let (update_readme, c) = c.flag("--update-readme"@);
    let (all_targets, c) = c.flag("--all-targets"@);
    let (target, c) = c.value("--target"@);
    let (unstable, c) = c.value("-Z"@);
    let (version, c) = c.flag2("-V"@, "--version"@);
    let (very_verbose, c) = c.flag("-vv"@);
    let (verbose, c) = c.flag2("-v"@, "--verbose"@);
    let (format_name, c) = c.value("--output-format"@);
    match c.failure {
        Some(e) => Err(e),
        None => match output_format_of(format_name) {
            Err(e) => Err(e),
            Ok(requested) => Ok(
                ArgsView {
                    all,
                    color,
                    deps_args: DepsArgs { all_deps, build_deps, dev_deps },
                    features_args: FeaturesArgsView {
                        all_features,
                        features: parse_features_spec(raw_features),
                        no_default_features,
                    },
                    forbid_only,
                    format: match format {
                        Some(f) => f,
                        None => "{p}"@,
                    },
                    frozen,
                    help,
                    include_tests,
                    invert,
                    locked,
                    manifest_path,
                    no_indent,
                    offline,
                    output_format: if update_readme {
                        OutputFormat::GitHubMarkdown
                    } else {
                        requested
                    },
                    package,
                    prefix_depth,
                    quiet,
                    readme_args: ReadmeArgsView { readme_path, section_name, update_readme },
                    target_args: TargetArgsView { all_targets, target },
                    unstable_flags: match unstable {
                        Some(list) => split_on_space(list),
                        None => Seq::empty(),
                    },
                    verbosity: Verbosity::from_flags_spec(very_verbose, verbose),
                    version,
                },
            ),
        },
    }
}

/// Mathematical content of what reading an argument list returned.
pub open spec fn parse_result_view(result: Result<Args, ArgsError>) -> Result<
    ArgsView,
    ArgsErrorView,
> {
    match result {
        Ok(args) => Ok(args@),
        Err(e) => Err(e@),
    }
}

/// What a lookup can fail with.
enum LookupFailure {
    NonUtf8Argument,
    OptionWithoutAValue(&'static str),
}

impl View for LookupFailure {
    type V = ArgsErrorView;

    closed spec fn view(&self) -> ArgsErrorView {
        match self {
            LookupFailure::NonUtf8Argument => ArgsErrorView::NonUtf8Argument,
            LookupFailure::OptionWithoutAValue(key) => ArgsErrorView::OptionWithoutAValue(key@),
        }
    }
}

impl LookupFailure {
    /// The failure as the failure of the reading.
    fn into_error(self) -> (error: ArgsError)
        ensures
            error@ == self@,
            error@ is OptionWithoutAValue || error@ is NonUtf8Argument,
    {
        match self {
            LookupFailure::NonUtf8Argument => ArgsError::NonUtf8Argument,
            LookupFailure::OptionWithoutAValue(key) => ArgsError::OptionWithoutAValue(key),
        }
    }
}

/// An argument list that is being read, with the failure that stopped the
/// reading, if any.
struct ArgReader {
    args: Arguments,
    failure: Option<LookupFailure>,
}

impl View for ArgReader {
    type V = Cursor;

    closed spec fn view(&self) -> Cursor {
        Cursor {
            items: arguments_items(self.args),
            failure: match self.failure {
                Some(e) => Some(e@),
                None => None,
            },
        }
    }
}

impl ArgReader {
    /// Takes the flag `key`.
    fn flag(&mut self, key: &'static str) -> (found: bool)
        requires
            valid_key(key@),
        ensures
            (found, final(self)@) == old(self)@.flag(key@),
    {
        reveal(Cursor::flag);
        if self.failure.is_some() {
            false
        } else {
            take_flag(&mut self.args, key)
        }
    }

    /// Takes a flag that has a short and a long form.
    fn flag2(&mut self, short: &'static str, long: &'static str) -> (found: bool)
        requires
            valid_key(short@),
            valid_key(long@),
        ensures
            (found, final(self)@) == old(self)@.flag2(short@, long@),
    {
        reveal(Cursor::flag2);
        if self.flag(short) {
            true
        } else {
            self.flag(long)
        }
    }

    /// Takes the value of the option `key`.
    fn value(&mut self, key: &'static str) -> (value: Option<String>)
        requires
            valid_key(key@),
        ensures
            (opt_text(value), final(self)@) == old(self)@.value(key@),
    {
        reveal(Cursor::value);
        if self.failure.is_some() {
            None
        } else {
            match take_value(&mut self.args, key) {
                Ok(value) => value,
                Err(ArgsError::OptionWithoutAValue(key)) => {
                    self.failure = Some(LookupFailure::OptionWithoutAValue(key));
                    None
                },
                Err(_) => {
                    self.failure = Some(LookupFailure::NonUtf8Argument);
                    None
                },
            }
        }
    }

    /// Takes the value of an option that has a short and a long form.
    fn value2(&mut self, short: &'static str, long: &'static str) -> (value: Option<String>)
        requires
            valid_key(short@),
            valid_key(long@),
        ensures
            (opt_text(value), final(self)@) == old(self)@.value2(short@, long@),
    {
        reveal(Cursor::value2);
        let value = self.value(short);
        if value.is_some() {
            value
        } else {
            self.value(long)
        }
    }
}

/// Every key that the reading looks up is well formed.
proof fn lemma_keys_valid()
    ensures
        valid_key("-a"@),
        valid_key("--all"@),
        valid_key("--color"@),
        valid_key("--all-dependencies"@),
        valid_key("--build-dependencies"@),
        valid_key("--dev-dependencies"@),
        valid_key("--all-features"@),
        valid_key("--features"@),
        valid_key("--no-default-features"@),
        valid_key("-f"@),
        valid_key("--forbid-only"@),
        valid_key("--format"@),
        valid_key("--frozen"@),
        valid_key("-h"@),
        valid_key("--help"@),
        valid_key("--include-tests"@),
        valid_key("-i"@),
        valid_key("--invert"@),
        valid_key("--locked"@),
        valid_key("--manifest-path"@),
        valid_key("--no-indent"@),
        valid_key("--offline"@),
        valid_key("-p"@),
        valid_key("--package"@),
        valid_key("--prefix-depth"@),
        valid_key("-q"@),
        valid_key("--quiet"@),
        valid_key("--readme-path"@),
        valid_key("--section-name"@),
        valid_key("--update-readme"@),
        valid_key("--all-targets"@),
        valid_key("--target"@),
        valid_key("-Z"@),
        valid_key("-V"@),
        valid_key("--version"@),
        valid_key("-vv"@),
        valid_key("-v"@),
        valid_key("--verbose"@),
        valid_key("--output-format"@),
{
    reveal_strlit("-a");
    reveal_strlit("--all");
    reveal_strlit("--color");
    reveal_strlit("--all-dependencies");
    reveal_strlit("--build-dependencies");
    reveal_strlit("--dev-dependencies");
    reveal_strlit("--all-features");
    reveal_strlit("--features");
    reveal_strlit("--no-default-features");
    reveal_strlit("-f");
    reveal_strlit("--forbid-only");
    reveal_strlit("--format");
    reveal_strlit("--frozen");
    reveal_strlit("-h");
    reveal_strlit("--help");
    reveal_strlit("--include-tests");
    reveal_strlit("-i");
    reveal_strlit("--invert");
    reveal_strlit("--locked");
    reveal_strlit("--manifest-path");
    reveal_strlit("--no-indent");
    reveal_strlit("--offline");
    reveal_strlit("-p");
    reveal_strlit("--package");
    reveal_strlit("--prefix-depth");
    reveal_strlit("-q");
    reveal_strlit("--quiet");
    reveal_strlit("--readme-path");
    reveal_strlit("--section-name");
    reveal_strlit("--update-readme");
    reveal_strlit("--all-targets");
    reveal_strlit("--target");
    reveal_strlit("-Z");
    reveal_strlit("-V");
    reveal_strlit("--version");
    reveal_strlit("-vv");
    reveal_strlit("-v");
    reveal_strlit("--verbose");
    reveal_strlit("--output-format");
}

/// What the build orchestrator is configured with.
#[derive(Debug)]
pub struct ConfigUpdate {
    /// Numeric verbosity level.
    pub verbose: u32,
    pub quiet: bool,
    pub color: Option<String>,
    pub frozen: bool,
    pub locked: bool,
    pub offline: bool,
    pub unstable_flags: Vec<String>,
}

/// Mathematical content of [`ConfigUpdate`].
pub struct ConfigUpdateView {
    pub verbose: u32,
    pub quiet: bool,
    pub color: Option<Seq<char>>,
    pub frozen: bool,
    pub locked: bool,
    pub offline: bool,
    pub unstable_flags: Seq<Seq<char>>,
}

impl View for ConfigUpdate {
    type V = ConfigUpdateView;

    open spec fn view(&self) -> ConfigUpdateView {
        ConfigUpdateView {
            verbose: self.verbose,
            quiet: self.quiet,
            color: opt_text(self.color),
            frozen: self.frozen,
            locked: self.locked,
            offline: self.offline,
            unstable_flags: texts(self.unstable_flags@),
        }
    }
}

impl Args {
    /// Works out what the build orchestrator is configured with: the level
    /// of the verbosity and, unchanged, the other settings that concern it.
    pub fn update_config(&self) -> (update: ConfigUpdate)
        ensures
            update@ == (ConfigUpdateView {
                verbose: self.verbosity.level_spec(),
                quiet: self.quiet,
                color: opt_text(self.color),
                frozen: self.frozen,
                locked: self.locked,
                offline: self.offline,
                unstable_flags: texts(self.unstable_flags@),
            }),
    {
        let color = match &self.color {
            Some(choice) => Some(choice.clone()),
            None => None,
        };
        let mut unstable_flags: Vec<String> = Vec::new();
        let mut i: usize = 0;
        while i < self.unstable_flags.len()
            invariant
                i <= self.unstable_flags.len(),
                texts(unstable_flags@) == texts(self.unstable_flags@.take(i as int)),
            decreases self.unstable_flags.len() - i,
        {
            let flag = self.unstable_flags[i].clone();
            assert(texts(unstable_flags@.push(flag)) =~= texts(unstable_flags@).push(flag@));
            assert(texts(self.unstable_flags@.take(i + 1)) =~= texts(
                self.unstable_flags@.take(i as int),
            ).push(flag@));
            unstable_flags.push(flag);
            i = i + 1;
        }
        assert(self.unstable_flags@.take(i as int) =~= self.unstable_flags@);
        ConfigUpdate {
            verbose: self.verbosity.level(),
            quiet: self.quiet,
            color,
            frozen: self.frozen,
            locked: self.locked,
            offline: self.offline,
            unstable_flags,
        }
    }

    /// Reads the selection from the argument list.
    ///
    /// Fails when an option is the last item, so that no value follows it,
    /// when a value is not UTF-8, and when the output format is not known.
    pub fn parse_args(raw_args: Arguments) -> (result: Result<Args, ArgsError>)
        ensures
            parse_result_view(result) == parse_args_spec(arguments_items(raw_args)),
            result matches Err(e) ==> e@ is OptionWithoutAValue || e@ is NonUtf8Argument
                || e@ is Utf8ArgumentParsingFailed,
    {
        let mut reader = ArgReader { args: raw_args, failure: None };
        proof {
            lemma_keys_valid();
        }
        let all = reader.flag2("-a", "--all");
        let color = reader.value("--color");
        let all_deps = reader.flag("--all-dependencies");
        let build_deps = reader.flag("--build-dependencies");
        let dev_deps = reader.flag("--dev-dependencies");
        let all_features = reader.flag("--all-features");
        let raw_features = reader.value("--features");
        let no_default_features = reader.flag("--no-default-features");
        let forbid_only = reader.flag2("-f", "--forbid-only");
        let format = reader.value("--format");
        let frozen = reader.flag("--frozen");
        let help = reader.flag2("-h", "--help");
        let include_tests = reader.flag("--include-tests");
        let invert = reader.flag2("-i", "--invert");
        let locked = reader.flag("--locked");
        let manifest_path = reader.value("--manifest-path");
        let no_indent = reader.flag("--no-indent");
        let offline = reader.flag("--offline");
        let package = reader.value2("-p", "--package");
        let prefix_depth = reader.flag("--prefix-depth");
        let quiet = reader.flag2("-q", "--quiet");
        let readme_path = reader.value("--readme-path");
        let section_name = reader.value("--section-name");
        let update_readme = reader.flag("--update-readme");
        let all_targets = reader.flag("--all-targets");
        let target = reader.value("--target");
        let unstable = reader.value("-Z");
        let version = reader.flag2("-V", "--version");
        let very_verbose = reader.flag("-vv");
        let verbose = reader.flag2("-v", "--verbose");
        let format_name = reader.value("--output-format");
        let ghost spec_result = parse_args_spec(arguments_items(raw_args));
        assert(spec_result is Err <==> (reader@.failure is Some || output_format_of(
            opt_text(format_name),
        ) is Err));
        match reader.failure {
            Some(failure) => {
                let e = failure.into_error();
                assert(spec_result == Err::<ArgsView, ArgsErrorView>(e@));
                return Err(e);
            },
            None => {},
        }
        assert(spec_result is Ok <==> output_format_of(opt_text(format_name)) is Ok);
        let requested = match format_name {
            None => OutputFormat::Utf8,
            Some(name) => match OutputFormat::parse(name.as_str()) {
                Some(requested) => requested,
                None => {
                    return Err(
                        ArgsError::Utf8ArgumentParsingFailed {
                            value: name,
                            cause: "Matching variant not found".to_owned(),
                        },
                    );
                },
            },
        };
        let unstable_flags = match unstable {
            Some(list) => split_spaces(list.as_str()),
            None => Vec::new(),
        };
        assert(unstable is None ==> texts(unstable_flags@) =~= Seq::empty());
        Ok(
            Args {
                all,
                color,
                deps_args: DepsArgs { all_deps, build_deps, dev_deps },
                features_args: FeaturesArgs {
                    all_features,
                    features: parse_features(raw_features),
                    no_default_features,
                },
                forbid_only,
                format: match format {
                    Some(f) => f,
                    None => "{p}".to_owned(),
                },
                frozen,
                help,
                include_tests,
                invert,
                locked,
                manifest_path,
                no_indent,
                offline,
                output_format: if update_readme {
                    OutputFormat::GitHubMarkdown
                } else {
                    requested
                },
                package,
                prefix_depth,
                quiet,
                readme_args: ReadmeArgs { readme_path, section_name, update_readme },
                target_args: TargetArgs { all_targets, target },
                unstable_flags,
                verbosity: Verbosity::from_flags(very_verbose, verbose),
                version,
            },
        )
    }
}

} // verus!
