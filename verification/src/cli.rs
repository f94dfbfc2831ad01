//! The command line: what the arguments ask for.

use crate::bytesize;
use crate::text;
use vstd::prelude::*;

verus! {

/// What the arguments ask for.
#[derive(Debug)]
pub enum CliAction {
    Run(String),
    Top { path: String, limit: usize, json: bool },
    Reclaim { path: String, json: bool },
    Save { path: String, json: bool },
    Diff { path: String, json: bool },
    Space { path: String, json: bool },
    Packages { path: String, json: bool },
    ThinSnapshots { path: String, bytes: u64, confirmed: bool },
    Help,
    Version,
}

pub enum ActionModel {
    Run(Seq<char>),
    Top { path: Seq<char>, limit: nat, json: bool },
    Reclaim { path: Seq<char>, json: bool },
    Save { path: Seq<char>, json: bool },
    Diff { path: Seq<char>, json: bool },
    Space { path: Seq<char>, json: bool },
    Packages { path: Seq<char>, json: bool },
    ThinSnapshots { path: Seq<char>, bytes: u64, confirmed: bool },
    Help,
    Version,
}

impl View for CliAction {
    type V = ActionModel;

    open spec fn view(&self) -> ActionModel {
        match self {
            CliAction::Run(path) => ActionModel::Run(path@),
            CliAction::Top { path, limit, json } => ActionModel::Top {
                path: path@,
                limit: *limit as nat,
                json: *json,
            },
            CliAction::Reclaim { path, json } => ActionModel::Reclaim { path: path@, json: *json },
            CliAction::Save { path, json } => ActionModel::Save { path: path@, json: *json },
            CliAction::Diff { path, json } => ActionModel::Diff { path: path@, json: *json },
            CliAction::Space { path, json } => ActionModel::Space { path: path@, json: *json },
            CliAction::Packages { path, json } => ActionModel::Packages {
                path: path@,
                json: *json,
            },
            CliAction::ThinSnapshots { path, bytes, confirmed } => ActionModel::ThinSnapshots {
                path: path@,
                bytes: *bytes,
                confirmed: *confirmed,
            },
            CliAction::Help => ActionModel::Help,
            CliAction::Version => ActionModel::Version,
        }
    }
}

/// Why the arguments ask for nothing.
#[derive(Debug)]
pub enum CliError {
    /// More than one path, or `--` with nothing behind it.
    PathUsage,
    /// `--top` without a number.
    TopUsage,
    InvalidTop(String),
    ZeroTop,
    /// `--thin-snapshots` without a size.
    ThinUsage,
    Size(bytesize::SizeError),
    /// `--json` without a report.
    JsonAlone,
    /// `--yes` without `--thin-snapshots`.
    YesAlone,
    SeveralModes,
}

pub enum CliErrorModel {
    PathUsage,
    TopUsage,
    InvalidTop(Seq<char>),
    ZeroTop,
    ThinUsage,
    Size(bytesize::SizeErrorModel),
    JsonAlone,
    YesAlone,
    SeveralModes,
}

impl View for CliError {
    type V = CliErrorModel;

    open spec fn view(&self) -> CliErrorModel {
        match self {
            CliError::PathUsage => CliErrorModel::PathUsage,
            CliError::TopUsage => CliErrorModel::TopUsage,
            CliError::InvalidTop(value) => CliErrorModel::InvalidTop(value@),
            CliError::ZeroTop => CliErrorModel::ZeroTop,
            CliError::ThinUsage => CliErrorModel::ThinUsage,
            CliError::Size(e) => CliErrorModel::Size(e@),
            CliError::JsonAlone => CliErrorModel::JsonAlone,
            CliError::YesAlone => CliErrorModel::YesAlone,
            CliError::SeveralModes => CliErrorModel::SeveralModes,
        }
    }
}

impl CliErrorModel {
    pub open spec fn text(self) -> Seq<char> {
        match self {
            CliErrorModel::PathUsage => "usage: diskr [PATH]"@,
            CliErrorModel::TopUsage => "usage: diskr --top N [--json] [PATH]"@,
            CliErrorModel::InvalidTop(value) => "invalid --top value: "@ + value,
            CliErrorModel::ZeroTop => "--top must be greater than zero"@,
            CliErrorModel::ThinUsage => "usage: diskr --thin-snapshots SIZE [--yes] [PATH]"@,
            CliErrorModel::Size(e) => e.text(),
            CliErrorModel::JsonAlone =>
                "--json requires --top, --reclaim, --save, --diff, --space, or --packages"@,
            CliErrorModel::YesAlone => "--yes requires --thin-snapshots"@,
            CliErrorModel::SeveralModes =>
                "choose only one of --top, --reclaim, --save, --diff, --space, --packages, or --thin-snapshots"@,
        }
    }
}

impl CliError {
    /// The error as a message.
    pub fn message(&self) -> (r: String)
        ensures
            r@ == self@.text(),
    {
        match self {
            CliError::PathUsage => "usage: diskr [PATH]".to_owned(),
            CliError::TopUsage => "usage: diskr --top N [--json] [PATH]".to_owned(),
            CliError::InvalidTop(value) => text::join2("invalid --top value: ", value.as_str()),
            CliError::ZeroTop => "--top must be greater than zero".to_owned(),
            CliError::ThinUsage =>
                "usage: diskr --thin-snapshots SIZE [--yes] [PATH]".to_owned(),
            CliError::Size(e) => e.message(),
            CliError::JsonAlone =>
                "--json requires --top, --reclaim, --save, --diff, --space, or --packages".to_owned(),
            CliError::YesAlone => "--yes requires --thin-snapshots".to_owned(),
            CliError::SeveralModes =>
                "choose only one of --top, --reclaim, --save, --diff, --space, --packages, or --thin-snapshots".to_owned(),
        }
    }
}

// ---------------------------------------------------------------------------
// The limit of --top
// ---------------------------------------------------------------------------

/// The number that a text stands for as the limit of `--top`.
pub open spec fn limit_of(value: Seq<char>) -> Result<nat, CliErrorModel> {
    match text::unsigned_value(value, usize::MAX as nat) {
        None => Err(CliErrorModel::InvalidTop(value)),
        Some(limit) => if limit == 0 {
            Err(CliErrorModel::ZeroTop)
        } else {
            Ok(limit)
        },
    }
}

/// Reads the limit of `--top`.
pub fn parse_top_limit(value: &str) -> (r: Result<usize, CliError>)
    ensures
        match r {
            Ok(limit) => limit_of(value@) == Ok::<nat, CliErrorModel>(limit as nat),
            Err(e) => limit_of(value@) == Err::<nat, CliErrorModel>(e@),
        },
{
    match text::parse_unsigned(value, usize::MAX as u64) {
        None => Err(CliError::InvalidTop(value.to_owned())),
        Some(limit) => if limit == 0 {
            Err(CliError::ZeroTop)
        } else {
            Ok(limit as usize)
        },
    }
}

// ---------------------------------------------------------------------------
// The options
// ---------------------------------------------------------------------------

/// What the arguments read so far say.
#[derive(Debug)]
pub struct Options {
    pub path: Option<String>,
    pub top: Option<usize>,
    pub reclaim: bool,
    pub save: bool,
    pub diff: bool,
    pub space: bool,
    pub packages: bool,
    pub thin: Option<u64>,
    pub confirmed: bool,
    pub json: bool,
    /// `--` has been read: what follows are paths.
    pub only_paths: bool,
}

#[verifier::ext_equal]
pub struct OptionsModel {
    pub path: Option<Seq<char>>,
    pub top: Option<nat>,
    pub reclaim: bool,
    pub save: bool,
    pub diff: bool,
    pub space: bool,
    pub packages: bool,
    pub thin: Option<u64>,
    pub confirmed: bool,
    pub json: bool,
    pub only_paths: bool,
}

impl View for Options {
    type V = OptionsModel;

    open spec fn view(&self) -> OptionsModel {
        OptionsModel {
            path: match self.path {
                Some(p) => Some(p@),
                None => None,
            },
            top: match self.top {
                Some(n) => Some(n as nat),
                None => None,
            },
            reclaim: self.reclaim,
            save: self.save,
            diff: self.diff,
            space: self.space,
            packages: self.packages,
            thin: self.thin,
            confirmed: self.confirmed,
            json: self.json,
            only_paths: self.only_paths,
        }
    }
}

/// What no argument at all says.
pub open spec fn no_options() -> OptionsModel {
    OptionsModel {
        path: None,
        top: None,
        reclaim: false,
        save: false,
        diff: false,
        space: false,
        packages: false,
        thin: None,
        confirmed: false,
        json: false,
        only_paths: false,
    }
}

/// Where the reading of the arguments has led.
pub enum Reading {
    Options(OptionsModel),
    Help,
    Version,
    Wrong(CliErrorModel),
}

/// A text without the prefix, however often it stands in front.
pub open spec fn unprefixed(s: Seq<char>, prefix: Seq<char>) -> Seq<char>
    decreases s.len(),
{
    if prefix.len() > 0 && text::has_prefix(s, prefix) {
        unprefixed(s.skip(prefix.len() as int), prefix)
    } else {
        s
    }
}

/// A copy without the prefix, however often it stands in front.
fn without_prefix(s: &str, prefix: &str) -> (r: String)
    requires
        prefix@.len() > 0,
    ensures
        r@ == unprefixed(s@, prefix@),
{
    let mut rest = s.to_owned();
    loop
        invariant
            prefix@.len() > 0,
            unprefixed(rest@, prefix@) == unprefixed(s@, prefix@),
        decreases rest@.len(),
    {
        match text::strip_prefix_text(rest.as_str(), prefix) {
            None => {
                return rest;
            },
            Some(shorter) => {
                assert(shorter@ =~= rest@.skip(prefix@.len() as int));
                rest = shorter;
            },
        }
    }
}

impl OptionsModel {
    /// A path has been read: there may be one only.
    pub open spec fn with_path(self, path: Seq<char>) -> Reading {
        if self.path is Some {
            Reading::Wrong(CliErrorModel::PathUsage)
        } else {
            Reading::Options(OptionsModel { path: Some(path), ..self })
        }
    }

    /// The limit of `--top` has been read.
    pub open spec fn with_limit(self, value: Seq<char>) -> Reading {
        match limit_of(value) {
            Ok(limit) => Reading::Options(OptionsModel { top: Some(limit), ..self }),
            Err(e) => Reading::Wrong(e),
        }
    }

    /// The size of `--thin-snapshots` has been read.
    pub open spec fn with_size(self, value: Seq<char>) -> Reading {
        match bytesize::size_of_text(value) {
            Ok(bytes) => Reading::Options(OptionsModel { thin: Some(bytes), ..self }),
            Err(e) => Reading::Wrong(CliErrorModel::Size(e)),
        }
    }

    /// An argument that has no other behind it has been read.
    pub open spec fn with_argument(self, arg: Seq<char>) -> Reading {
        if self.only_paths {
            self.with_path(arg)
        } else if arg == "-h"@ || arg == "--help"@ {
            Reading::Help
        } else if arg == "-V"@ || arg == "--version"@ {
            Reading::Version
        } else if arg == "--"@ {
            Reading::Options(OptionsModel { only_paths: true, ..self })
        } else if arg == "--json"@ {
            Reading::Options(OptionsModel { json: true, ..self })
        } else if arg == "--yes"@ {
            Reading::Options(OptionsModel { confirmed: true, ..self })
        } else if arg == "--reclaim"@ {
            Reading::Options(OptionsModel { reclaim: true, ..self })
        } else if arg == "--save"@ {
            Reading::Options(OptionsModel { save: true, ..self })
        } else if arg == "--diff"@ {
            Reading::Options(OptionsModel { diff: true, ..self })
        } else if arg == "--space"@ {
            Reading::Options(OptionsModel { space: true, ..self })
        } else if arg == "--packages"@ {
            Reading::Options(OptionsModel { packages: true, ..self })
        } else if arg == "--thin-snapshots"@ {
            Reading::Wrong(CliErrorModel::ThinUsage)
        } else if text::has_prefix(arg, "--thin-snapshots="@) {
            self.with_size(unprefixed(arg, "--thin-snapshots="@))
        } else if arg == "--top"@ {
            Reading::Wrong(CliErrorModel::TopUsage)
        } else if text::has_prefix(arg, "--top="@) {
            self.with_limit(unprefixed(arg, "--top="@))
        } else {
            self.with_path(arg)
        }
    }

    /// The argument takes the one behind it as its value.
    pub open spec fn takes_value(self, arg: Seq<char>) -> bool {
        !self.only_paths && (arg == "--top"@ || arg == "--thin-snapshots"@)
    }

    /// An argument and its value have been read.
    pub open spec fn with_value(self, arg: Seq<char>, value: Seq<char>) -> Reading {
        if arg == "--top"@ {
            self.with_limit(value)
        } else {
            self.with_size(value)
        }
    }

    /// The reports that are asked for.
    pub open spec fn modes(self) -> nat {
        one_if(self.top is Some) + one_if(self.reclaim) + one_if(self.save) + one_if(self.diff)
            + one_if(self.space) + one_if(self.packages) + one_if(self.thin is Some)
    }

    /// What the options ask for together; without a path it is for the home
    /// directory.
    pub open spec fn action(self, home: Seq<char>) -> Result<ActionModel, CliErrorModel> {
        let path = match self.path {
            Some(p) => p,
            None => home,
        };
        if self.json && self.top is None && !self.reclaim && !self.save && !self.diff && !self.space
            && !self.packages {
            Err(CliErrorModel::JsonAlone)
        } else if self.confirmed && self.thin is None {
            Err(CliErrorModel::YesAlone)
        } else if self.only_paths && self.path is None {
            Err(CliErrorModel::PathUsage)
        } else if self.modes() > 1 {
            Err(CliErrorModel::SeveralModes)
        } else {
            match (self.top, self.thin) {
                (Some(limit), _) => Ok(ActionModel::Top { path, limit, json: self.json }),
                (None, Some(bytes)) => Ok(
                    ActionModel::ThinSnapshots { path, bytes, confirmed: self.confirmed },
                ),
                (None, None) => if self.reclaim {
                    Ok(ActionModel::Reclaim { path, json: self.json })
                } else if self.save {
                    Ok(ActionModel::Save { path, json: self.json })
                } else if self.diff {
                    Ok(ActionModel::Diff { path, json: self.json })
                } else if self.space {
                    Ok(ActionModel::Space { path, json: self.json })
                } else if self.packages {
                    Ok(ActionModel::Packages { path, json: self.json })
                } else {
                    Ok(ActionModel::Run(path))
                },
            }
        }
    }
}

pub open spec fn one_if(b: bool) -> nat {
    if b {
        1
    } else {
        0
    }
}

/// The arguments read from the front on, up to the first that settles
/// everything.
pub open spec fn read_on(options: OptionsModel, args: Seq<Seq<char>>) -> Reading
    decreases args.len(),
{
    if args.len() == 0 {
        Reading::Options(options)
    } else if options.takes_value(args[0]) && args.len() > 1 {
        match options.with_value(args[0], args[1]) {
            Reading::Options(next) => read_on(next, args.skip(2)),
            settled => settled,
        }
    } else {
        match options.with_argument(args[0]) {
            Reading::Options(next) => read_on(next, args.skip(1)),
            settled => settled,
        }
    }
}

/// What the arguments ask for.
pub open spec fn asked_for(args: Seq<Seq<char>>, home: Seq<char>) -> Result<
    ActionModel,
    CliErrorModel,
> {
    match read_on(no_options(), args) {
        Reading::Options(options) => options.action(home),
        Reading::Help => Ok(ActionModel::Help),
        Reading::Version => Ok(ActionModel::Version),
        Reading::Wrong(e) => Err(e),
    }
}

/// What one argument leads to, apart from a change of the options.
#[derive(Debug)]
enum Settled {
    Open,
    Help,
    Version,
    Wrong(CliError),
}

/// The options and what has been settled are what a reading says.
spec fn agrees(reading: Reading, options: OptionsModel, settled: Settled) -> bool {
    match settled {
        Settled::Open => reading == Reading::Options(options),
        Settled::Help => reading == Reading::Help,
        Settled::Version => reading == Reading::Version,
        Settled::Wrong(e) => reading == Reading::Wrong(e@),
    }
}

impl Options {
    fn new() -> (r: Options)
        ensures
            r@ == no_options(),
    {
        Options {
            path: None,
            top: None,
            reclaim: false,
            save: false,
            diff: false,
            space: false,
            packages: false,
            thin: None,
            confirmed: false,
            json: false,
            only_paths: false,
        }
    }

    fn set_cli_path(&mut self, value: &str) -> (r: Settled)
        ensures
            agrees(old(self)@.with_path(value@), final(self)@, r),
    {
        if self.path.is_some() {
            return Settled::Wrong(CliError::PathUsage);
        }
        self.path = Some(value.to_owned());
        Settled::Open
    }

    fn set_limit(&mut self, value: &str) -> (r: Settled)
        ensures
            agrees(old(self)@.with_limit(value@), final(self)@, r),
    {
        match parse_top_limit(value) {
            Ok(limit) => {
                self.top = Some(limit);
                Settled::Open
            },
            Err(e) => Settled::Wrong(e),
        }
    }

    fn set_size(&mut self, value: &str) -> (r: Settled)
        ensures
            agrees(old(self)@.with_size(value@), final(self)@, r),
    {
        match bytesize::parse_byte_size(value) {
            Ok(bytes) => {
                self.thin = Some(bytes);
                Settled::Open
            },
            Err(e) => Settled::Wrong(CliError::Size(e)),
        }
    }

    fn read_argument(&mut self, arg: &str) -> (r: Settled)
        ensures
            agrees(old(self)@.with_argument(arg@), final(self)@, r),
    {
        if self.only_paths {
            return self.set_cli_path(arg);
        }
        if text::same_text(arg, "-h") || text::same_text(arg, "--help") {
            return Settled::Help;
        }
        if text::same_text(arg, "-V") || text::same_text(arg, "--version") {
            return Settled::Version;
        }
        if text::same_text(arg, "--thin-snapshots") {
            proof {
                reveal_strlit("--thin-snapshots");
                reveal_strlit("--");
                reveal_strlit("--json");
                reveal_strlit("--yes");
                reveal_strlit("--reclaim");
                reveal_strlit("--save");
                reveal_strlit("--diff");
                reveal_strlit("--space");
                reveal_strlit("--packages");
            }
            return Settled::Wrong(CliError::ThinUsage);
        }
        if text::same_text(arg, "--") {
            self.only_paths = true;
        } else if text::same_text(arg, "--json") {
            self.json = true;
        } else if text::same_text(arg, "--yes") {
            self.confirmed = true;
        } else if text::same_text(arg, "--reclaim") {
            self.reclaim = true;
        } else if text::same_text(arg, "--save") {
            self.save = true;
        } else if text::same_text(arg, "--diff") {
            self.diff = true;
        } else if text::same_text(arg, "--space") {
            self.space = true;
        } else if text::same_text(arg, "--packages") {
            self.packages = true;
        } else if text::starts_with_text(arg, "--thin-snapshots=") {
            proof {
                reveal_strlit("--thin-snapshots=");
            }
            return self.set_size(without_prefix(arg, "--thin-snapshots=").as_str());
        } else if text::same_text(arg, "--top") {
            return Settled::Wrong(CliError::TopUsage);
        } else if text::starts_with_text(arg, "--top=") {
            proof {
                reveal_strlit("--top=");
            }
            return self.set_limit(without_prefix(arg, "--top=").as_str());
        } else {
            return self.set_cli_path(arg);
        }
        Settled::Open
    }

    fn read_value(&mut self, arg: &str, value: &str) -> (r: Settled)
        requires
            old(self)@.takes_value(arg@),
        ensures
            agrees(old(self)@.with_value(arg@, value@), final(self)@, r),
    {
        if text::same_text(arg, "--top") {
            self.set_limit(value)
        } else {
            self.set_size(value)
        }
    }

    fn has_several_modes(&self) -> (r: bool)
        ensures
            r == (self@.modes() > 1),
    {
        let mut count: usize = 0;
        if self.top.is_some() {
            count += 1;
        }
        if self.reclaim {
            count += 1;
        }
        if self.save {
            count += 1;
        }
        if self.diff {
            count += 1;
        }
        if self.space {
            count += 1;
        }
        if self.packages {
            count += 1;
        }
        if self.thin.is_some() {
            count += 1;
        }
        count > 1
    }

    fn into_action(self, home: &str) -> (r: Result<CliAction, CliError>)
        ensures
            match r {
                Ok(action) => self@.action(home@) == Ok::<ActionModel, CliErrorModel>(action@),
                Err(e) => self@.action(home@) == Err::<ActionModel, CliErrorModel>(e@),
            },
    {
        let json = self.json;
        if json && self.top.is_none() && !self.reclaim && !self.save && !self.diff && !self.space
            && !self.packages {
            return Err(CliError::JsonAlone);
        }
        if self.confirmed && self.thin.is_none() {
            return Err(CliError::YesAlone);
        }
        if self.only_paths && self.path.is_none() {
            return Err(CliError::PathUsage);
        }
        if self.has_several_modes() {
            return Err(CliError::SeveralModes);
        }
        let path = match self.path {
            Some(p) => p,
            None => home.to_owned(),
        };
        if let Some(limit) = self.top {
            return Ok(CliAction::Top { path, limit, json });
        }
        if let Some(bytes) = self.thin {
            return Ok(CliAction::ThinSnapshots { path, bytes, confirmed: self.confirmed });
        }
        Ok(
            if self.reclaim {
                CliAction::Reclaim { path, json }
            } else if self.save {
                CliAction::Save { path, json }
            } else if self.diff {
                CliAction::Diff { path, json }
            } else if self.space {
                CliAction::Space { path, json }
            } else if self.packages {
                CliAction::Packages { path, json }
            } else {
                CliAction::Run(path)
            },
        )
    }
}

/// Reads the arguments; without a path they are about the home directory.
pub fn parse_args(args: &Vec<String>, home: &str) -> (r: Result<CliAction, CliError>)
    ensures
        match r {
            Ok(action) => asked_for(text::texts(args@), home@) == Ok::<ActionModel, CliErrorModel>(
                action@,
            ),
            Err(e) => asked_for(text::texts(args@), home@) == Err::<ActionModel, CliErrorModel>(e@),
        },
{
    let ghost all = text::texts(args@);
    let mut options = Options::new();
    let mut i: usize = 0;
    assert(all.skip(0) =~= all);
    while i < args.len()
        invariant
            i <= args@.len(),
            all == text::texts(args@),
            read_on(options@, all.skip(i as int)) == read_on(no_options(), all),
        decreases args@.len() - i,
    {
        let arg = args[i].as_str();
        let valued = !options.only_paths && (text::same_text(arg, "--top") || text::same_text(
            arg,
            "--thin-snapshots",
        ));
        let ghost rest = all.skip(i as int);
        assert(rest[0] == arg@);
        let settled = if valued && i + 1 < args.len() {
            assert(rest[1] == args@[i + 1]@);
            assert(rest.skip(2) =~= all.skip(i + 2));
            let value = args[i + 1].as_str();
            i += 2;
            options.read_value(arg, value)
        } else {
            assert(rest.skip(1) =~= all.skip(i + 1));
            i += 1;
            options.read_argument(arg)
        };
        match settled {
            Settled::Open => {},
            Settled::Help => {
                return Ok(CliAction::Help);
            },
            Settled::Version => {
                return Ok(CliAction::Version);
            },
            Settled::Wrong(e) => {
                return Err(e);
            },
        }
    }
    assert(all.skip(i as int) =~= Seq::<Seq<char>>::empty());
    options.into_action(home)
}

// ---------------------------------------------------------------------------
// What holds of every command line
// ---------------------------------------------------------------------------

/// A report that is asked for is the only one: with options for two of them
/// the command line is refused.
pub proof fn report_modes_are_exclusive(options: OptionsModel, home: Seq<char>)
    requires
        options.modes() > 1,
    ensures
        options.action(home) is Err,
{
}

/// Nothing is thinned without being asked for by name, and it is done, rather
/// than shown, exactly where `--yes` was given too.
pub proof fn thinning_is_asked_for(args: Seq<Seq<char>>, home: Seq<char>)
    ensures
        asked_for(args, home) matches Ok(
            ActionModel::ThinSnapshots { bytes, confirmed, .. },
        ) ==> exists|options: OptionsModel|
            read_on(no_options(), args) == Reading::Options(options) && options.thin == Some(bytes)
                && confirmed == options.confirmed,
{
    if let Reading::Options(options) = read_on(no_options(), args) {
        assert(read_on(no_options(), args) == Reading::Options(options));
    }
}

/// Behind `--` an argument is a path, whatever it looks like.
pub proof fn separated_arguments_are_paths(path: Seq<char>, home: Seq<char>)
    ensures
        asked_for(seq!["--"@, path], home) == Ok::<ActionModel, CliErrorModel>(
            ActionModel::Run(path),
        ),
{
    reveal_strlit("--");
    reveal_strlit("-h");
    reveal_strlit("-V");
    reveal_strlit("--help");
    reveal_strlit("--version");
    reveal_strlit("--top");
    reveal_strlit("--thin-snapshots");
    let args = seq!["--"@, path];
    let first = no_options();
    let second = OptionsModel { only_paths: true, ..first };
    let third = OptionsModel { path: Some(path), ..second };
    assert("--"@.len() == 2 && "-h"@[1] == 'h' && "-V"@[1] == 'V' && "--"@[1] == '-');
    assert("--"@ != "-h"@ && "--"@ != "-V"@ && "--"@ != "--help"@ && "--"@ != "--version"@);
    assert("--"@ != "--top"@ && "--"@ != "--thin-snapshots"@);
    assert(first.with_argument(args[0]) == Reading::Options(second));
    assert(args.skip(1)[0] == path);
    assert(second.with_argument(path) == Reading::Options(third));
    assert(args.skip(1).skip(1) =~= Seq::<Seq<char>>::empty());
    assert(read_on(second, args.skip(1)) == read_on(third, args.skip(1).skip(1)));
    assert(read_on(third, args.skip(1).skip(1)) == Reading::Options(third));
    assert(third.modes() == 0);
}

/// A report that takes no value.
pub enum Mode {
    Reclaim,
    Save,
    Diff,
    Space,
    Packages,
}

impl Mode {
    /// The option that asks for it.
    pub open spec fn option(self) -> Seq<char> {
        match self {
            Mode::Reclaim => "--reclaim"@,
            Mode::Save => "--save"@,
            Mode::Diff => "--diff"@,
            Mode::Space => "--space"@,
            Mode::Packages => "--packages"@,
        }
    }

    /// The report of a directory.
    pub open spec fn report(self, path: Seq<char>, json: bool) -> Result<
        ActionModel,
        CliErrorModel,
    > {
        Ok(
            match self {
                Mode::Reclaim => ActionModel::Reclaim { path, json },
                Mode::Save => ActionModel::Save { path, json },
                Mode::Diff => ActionModel::Diff { path, json },
                Mode::Space => ActionModel::Space { path, json },
                Mode::Packages => ActionModel::Packages { path, json },
            },
        )
    }
}

/// An argument that is no option: it does not begin with a dash.
pub open spec fn is_plain(arg: Seq<char>) -> bool {
    arg.len() == 0 || arg[0] != '-'
}

proof fn words_differ()
    ensures
        "--json"@ != "-h"@ && "--json"@ != "--help"@ && "--json"@ != "-V"@
            && "--json"@ != "--version"@ && "--json"@ != "--"@ && "--json"@ != "--yes"@
            && "--json"@ != "--reclaim"@ && "--json"@ != "--save"@ && "--json"@ != "--diff"@
            && "--json"@ != "--space"@ && "--json"@ != "--packages"@
            && "--json"@ != "--thin-snapshots"@ && "--json"@ != "--top"@,
        "--yes"@ != "-h"@ && "--yes"@ != "--help"@ && "--yes"@ != "-V"@
            && "--yes"@ != "--version"@ && "--yes"@ != "--"@ && "--yes"@ != "--json"@
            && "--yes"@ != "--reclaim"@ && "--yes"@ != "--save"@ && "--yes"@ != "--diff"@
            && "--yes"@ != "--space"@ && "--yes"@ != "--packages"@
            && "--yes"@ != "--thin-snapshots"@ && "--yes"@ != "--top"@,
        "--reclaim"@ != "-h"@ && "--reclaim"@ != "--help"@ && "--reclaim"@ != "-V"@
            && "--reclaim"@ != "--version"@ && "--reclaim"@ != "--"@
            && "--reclaim"@ != "--json"@ && "--reclaim"@ != "--yes"@
            && "--reclaim"@ != "--save"@ && "--reclaim"@ != "--diff"@
            && "--reclaim"@ != "--space"@ && "--reclaim"@ != "--packages"@
            && "--reclaim"@ != "--thin-snapshots"@ && "--reclaim"@ != "--top"@,
        "--save"@ != "-h"@ && "--save"@ != "--help"@ && "--save"@ != "-V"@
            && "--save"@ != "--version"@ && "--save"@ != "--"@ && "--save"@ != "--json"@
            && "--save"@ != "--yes"@ && "--save"@ != "--reclaim"@ && "--save"@ != "--diff"@
            && "--save"@ != "--space"@ && "--save"@ != "--packages"@
            && "--save"@ != "--thin-snapshots"@ && "--save"@ != "--top"@,
        "--diff"@ != "-h"@ && "--diff"@ != "--help"@ && "--diff"@ != "-V"@
            && "--diff"@ != "--version"@ && "--diff"@ != "--"@ && "--diff"@ != "--json"@
            && "--diff"@ != "--yes"@ && "--diff"@ != "--reclaim"@ && "--diff"@ != "--save"@
            && "--diff"@ != "--space"@ && "--diff"@ != "--packages"@
            && "--diff"@ != "--thin-snapshots"@ && "--diff"@ != "--top"@,
        "--space"@ != "-h"@ && "--space"@ != "--help"@ && "--space"@ != "-V"@
            && "--space"@ != "--version"@ && "--space"@ != "--"@ && "--space"@ != "--json"@
            && "--space"@ != "--yes"@ && "--space"@ != "--reclaim"@ && "--space"@ != "--save"@
            && "--space"@ != "--diff"@ && "--space"@ != "--packages"@
            && "--space"@ != "--thin-snapshots"@ && "--space"@ != "--top"@,
        "--packages"@ != "-h"@ && "--packages"@ != "--help"@ && "--packages"@ != "-V"@
            && "--packages"@ != "--version"@ && "--packages"@ != "--"@
            && "--packages"@ != "--json"@ && "--packages"@ != "--yes"@
            && "--packages"@ != "--reclaim"@ && "--packages"@ != "--save"@
            && "--packages"@ != "--diff"@ && "--packages"@ != "--space"@
            && "--packages"@ != "--thin-snapshots"@ && "--packages"@ != "--top"@,
        "--top"@ != "--thin-snapshots"@,
{
    reveal_strlit("-h");
    reveal_strlit("--help");
    reveal_strlit("-V");
    reveal_strlit("--version");
    reveal_strlit("--");
    reveal_strlit("--json");
    reveal_strlit("--yes");
    reveal_strlit("--reclaim");
    reveal_strlit("--save");
    reveal_strlit("--diff");
    reveal_strlit("--space");
    reveal_strlit("--packages");
    reveal_strlit("--thin-snapshots");
    reveal_strlit("--thin-snapshots=");
    reveal_strlit("--top");
    reveal_strlit("--top=");
    assert("--json"@[2] != "--help"@[2]);
    assert("--json"@[2] != "--save"@[2]);
    assert("--json"@[2] != "--diff"@[2]);
    assert("--json"@[2] != "--top="@[2]);
    assert("--yes"@[2] != "--top"@[2]);
    assert("--reclaim"@[2] != "--version"@[2]);
    assert("--save"@[2] != "--help"@[2]);
    assert("--save"@[2] != "--diff"@[2]);
    assert("--save"@[2] != "--top="@[2]);
    assert("--diff"@[2] != "--help"@[2]);
    assert("--diff"@[2] != "--top="@[2]);
    assert("-h"@.len() == 2);
    assert("--help"@.len() == 6);
    assert("-V"@.len() == 2);
    assert("--version"@.len() == 9);
    assert("--"@.len() == 2);
    assert("--json"@.len() == 6);
    assert("--yes"@.len() == 5);
    assert("--reclaim"@.len() == 9);
    assert("--save"@.len() == 6);
    assert("--diff"@.len() == 6);
    assert("--space"@.len() == 7);
    assert("--packages"@.len() == 10);
    assert("--thin-snapshots"@.len() == 16);
    assert("--top"@.len() == 5);
    assert("--top"@.len() != "--thin-snapshots"@.len());
}

/// The options with a report asked for.
spec fn chosen(o: OptionsModel, mode: Mode) -> OptionsModel {
    match mode {
        Mode::Reclaim => OptionsModel { reclaim: true, ..o },
        Mode::Save => OptionsModel { save: true, ..o },
        Mode::Diff => OptionsModel { diff: true, ..o },
        Mode::Space => OptionsModel { space: true, ..o },
        Mode::Packages => OptionsModel { packages: true, ..o },
    }
}

proof fn plain_is_no_word(arg: Seq<char>)
    requires
        is_plain(arg),
    ensures
        forall|o: OptionsModel|
            !(#[trigger] o.takes_value(arg)) && o.with_argument(arg) == o.with_path(arg),
{
    reveal_strlit("-h");
    reveal_strlit("--help");
    reveal_strlit("-V");
    reveal_strlit("--version");
    reveal_strlit("--");
    reveal_strlit("--json");
    reveal_strlit("--yes");
    reveal_strlit("--reclaim");
    reveal_strlit("--save");
    reveal_strlit("--diff");
    reveal_strlit("--space");
    reveal_strlit("--packages");
    reveal_strlit("--thin-snapshots");
    reveal_strlit("--thin-snapshots=");
    reveal_strlit("--top");
    reveal_strlit("--top=");
    if text::has_prefix(arg, "--top="@) {
        assert(arg.subrange(0, 6)[0] == arg[0]);
    }
    if text::has_prefix(arg, "--thin-snapshots="@) {
        assert(arg.subrange(0, 17)[0] == arg[0]);
    }
}

proof fn one_is_read(o: OptionsModel, next: OptionsModel, arg: Seq<char>, rest: Seq<Seq<char>>)
    requires
        !o.takes_value(arg),
        o.with_argument(arg) == Reading::Options(next),
    ensures
        read_on(o, seq![arg] + rest) == read_on(next, rest),
{
    let args = seq![arg] + rest;
    assert(args[0] == arg);
    assert(args.skip(1) =~= rest);
}

proof fn path_is_read(o: OptionsModel, path: Seq<char>, rest: Seq<Seq<char>>)
    requires
        is_plain(path),
        o.path is None,
    ensures
        read_on(o, seq![path] + rest) == read_on(OptionsModel { path: Some(path), ..o }, rest),
{
    plain_is_no_word(path);
    assert(!o.takes_value(path));
    one_is_read(o, OptionsModel { path: Some(path), ..o }, path, rest);
}

proof fn option_is_read(o: OptionsModel, mode: Mode, rest: Seq<Seq<char>>)
    requires
        !o.only_paths,
    ensures
        read_on(o, seq![mode.option()] + rest) == read_on(chosen(o, mode), rest),
{
    words_differ();
    one_is_read(o, chosen(o, mode), mode.option(), rest);
}

proof fn json_is_read(o: OptionsModel, rest: Seq<Seq<char>>)
    requires
        !o.only_paths,
    ensures
        read_on(o, seq!["--json"@] + rest) == read_on(OptionsModel { json: true, ..o }, rest),
{
    words_differ();
    one_is_read(o, OptionsModel { json: true, ..o }, "--json"@, rest);
}

proof fn yes_is_read(o: OptionsModel, rest: Seq<Seq<char>>)
    requires
        !o.only_paths,
    ensures
        read_on(o, seq!["--yes"@] + rest) == read_on(OptionsModel { confirmed: true, ..o }, rest),
{
    words_differ();
    one_is_read(o, OptionsModel { confirmed: true, ..o }, "--yes"@, rest);
}

proof fn two_are_read(o: OptionsModel, arg: Seq<char>, value: Seq<char>, rest: Seq<Seq<char>>)
    requires
        o.takes_value(arg),
        o.with_value(arg, value) is Options,
    ensures
        read_on(o, seq![arg, value] + rest) == read_on(o.with_value(arg, value)->Options_0, rest),
{
    let args = seq![arg, value] + rest;
    assert(args[0] == arg && args[1] == value);
    assert(args.skip(2) =~= rest);
}

/// Each report is asked for by its option, for the path that is given, in front
/// of the option or behind it, and otherwise for the home directory; as JSON
/// exactly where `--json` is among the arguments.
pub proof fn reports_are_asked_for_by_name(mode: Mode, path: Seq<char>, home: Seq<char>)
    requires
        is_plain(path),
    ensures
        asked_for(seq![mode.option()], home) == mode.report(home, false),
        asked_for(seq![mode.option(), path], home) == mode.report(path, false),
        asked_for(seq![path, mode.option()], home) == mode.report(path, false),
        asked_for(seq![mode.option(), "--json"@], home) == mode.report(home, true),
        asked_for(seq!["--json"@, mode.option(), path], home) == mode.report(path, true),
        asked_for(seq![path, mode.option(), "--json"@], home) == mode.report(path, true),
        asked_for(seq![path], home) == Ok::<ActionModel, CliErrorModel>(ActionModel::Run(path)),
        asked_for(Seq::empty(), home) == Ok::<ActionModel, CliErrorModel>(ActionModel::Run(home)),
        asked_for(seq![path, path], home) == Err::<ActionModel, CliErrorModel>(
            CliErrorModel::PathUsage,
        ),
{
    let none = Seq::<Seq<char>>::empty();
    let o = no_options();
    let opt = mode.option();
    let json = "--json"@;
    let m = chosen(o, mode);
    let p = OptionsModel { path: Some(path), ..o };
    let j = OptionsModel { json: true, ..o };
    assert(seq![opt] =~= seq![opt] + none);
    assert(seq![path] =~= seq![path] + none);
    assert(seq![json] =~= seq![json] + none);
    assert(seq![opt, path] =~= seq![opt] + seq![path]);
    assert(seq![path, opt] =~= seq![path] + seq![opt]);
    assert(seq![opt, json] =~= seq![opt] + seq![json]);
    assert(seq![json, opt, path] =~= seq![json] + seq![opt, path]);
    assert(seq![path, opt, json] =~= seq![path] + seq![opt, json]);
    assert(seq![path, path] =~= seq![path] + seq![path]);
    option_is_read(o, mode, none);
    option_is_read(o, mode, seq![path]);
    path_is_read(m, path, none);
    path_is_read(o, path, seq![opt]);
    option_is_read(p, mode, none);
    option_is_read(o, mode, seq![json]);
    json_is_read(m, none);
    json_is_read(o, seq![opt, path]);
    option_is_read(j, mode, seq![path]);
    path_is_read(chosen(j, mode), path, none);
    path_is_read(o, path, seq![opt, json]);
    option_is_read(p, mode, seq![json]);
    json_is_read(chosen(p, mode), none);
    path_is_read(o, path, none);
    path_is_read(o, path, seq![path]);
    plain_is_no_word(path);
    assert(!p.takes_value(path));
    assert(seq![path][0] == path);
    assert(read_on(p, seq![path]) == Reading::Wrong(CliErrorModel::PathUsage));
}

/// `--top` takes the number behind it, in decimal, as its limit: zero is
/// refused, and every other number that fits is taken as it is.
pub proof fn the_limit_is_the_number_behind_it(n: nat, path: Seq<char>, home: Seq<char>)
    requires
        is_plain(path),
        n <= usize::MAX,
    ensures
        asked_for(seq!["--top"@, text::decimal(n), path], home) == if n == 0 {
            Err::<ActionModel, CliErrorModel>(CliErrorModel::ZeroTop)
        } else {
            Ok(ActionModel::Top { path, limit: n, json: false })
        },
        n > 0 ==> asked_for(seq!["--top"@, text::decimal(n), "--json"@], home) == Ok::<
            ActionModel,
            CliErrorModel,
        >(ActionModel::Top { path: home, limit: n, json: true }),
{
    words_differ();
    text::written_numbers_are_read_back(n, usize::MAX as nat);
    let none = Seq::<Seq<char>>::empty();
    let o = no_options();
    let value = text::decimal(n);
    assert(o.takes_value("--top"@));
    let args = seq!["--top"@, value, path];
    assert(args[0] == "--top"@ && args[1] == value);
    if n > 0 {
        let t = OptionsModel { top: Some(n), ..o };
        assert(o.with_value("--top"@, value) == Reading::Options(t));
        two_are_read(o, "--top"@, value, seq![path]);
        assert(args =~= seq!["--top"@, value] + seq![path]);
        path_is_read(t, path, none);
        assert(seq![path] =~= seq![path] + none);
        two_are_read(o, "--top"@, value, seq!["--json"@]);
        assert(seq!["--top"@, value, "--json"@] =~= seq!["--top"@, value] + seq!["--json"@]);
        json_is_read(t, none);
        assert(seq!["--json"@] =~= seq!["--json"@] + none);
    } else {
        assert(o.with_value("--top"@, value) == Reading::Wrong(CliErrorModel::ZeroTop));
    }
}

/// `--thin-snapshots` takes the size behind it; it is confirmed exactly where
/// `--yes` is among the arguments.
pub proof fn thinning_takes_the_size_behind_it(
    size: Seq<char>,
    bytes: u64,
    path: Seq<char>,
    home: Seq<char>,
)
    requires
        is_plain(path),
        bytesize::size_of_text(size) == Ok::<u64, bytesize::SizeErrorModel>(bytes),
    ensures
        asked_for(seq!["--thin-snapshots"@, size, path], home) == Ok::<ActionModel, CliErrorModel>(
            ActionModel::ThinSnapshots { path, bytes, confirmed: false },
        ),
        asked_for(seq!["--thin-snapshots"@, size, "--yes"@], home) == Ok::<
            ActionModel,
            CliErrorModel,
        >(ActionModel::ThinSnapshots { path: home, bytes, confirmed: true }),
        asked_for(seq!["--yes"@, path], home) == Err::<ActionModel, CliErrorModel>(
            CliErrorModel::YesAlone,
        ),
        asked_for(seq!["--json"@, path], home) == Err::<ActionModel, CliErrorModel>(
            CliErrorModel::JsonAlone,
        ),
{
    words_differ();
    let none = Seq::<Seq<char>>::empty();
    let o = no_options();
    let thin = "--thin-snapshots"@;
    assert(o.takes_value(thin));
    let t = OptionsModel { thin: Some(bytes), ..o };
    assert(o.with_value(thin, size) == Reading::Options(t));
    two_are_read(o, thin, size, seq![path]);
    assert(seq![thin, size, path] =~= seq![thin, size] + seq![path]);
    path_is_read(t, path, none);
    assert(seq![path] =~= seq![path] + none);
    two_are_read(o, thin, size, seq!["--yes"@]);
    assert(seq![thin, size, "--yes"@] =~= seq![thin, size] + seq!["--yes"@]);
    yes_is_read(t, none);
    assert(seq!["--yes"@] =~= seq!["--yes"@] + none);
    let y = OptionsModel { confirmed: true, ..o };
    let j = OptionsModel { json: true, ..o };
    yes_is_read(o, seq![path]);
    assert(seq!["--yes"@, path] =~= seq!["--yes"@] + seq![path]);
    json_is_read(o, seq![path]);
    assert(seq!["--json"@, path] =~= seq!["--json"@] + seq![path]);
    path_is_read(y, path, none);
    path_is_read(j, path, none);
}

} // verus!
