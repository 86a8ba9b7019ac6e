//! What the command lines of the tools ask for.
pub mod laws;

use crate::backfill::month::{fault_text, month_fault, month_value, Month};
use crate::calendar::{as_date, iso_date, ymd_date, Date};
use crate::text::{quote, quoted, same, views};
use vstd::prelude::*;
use vstd::string::*;

verus! {

pub const BACKFILL_USAGE: &'static str =
    "usage: backfill <funding|oi-hist|klines|reconcile> [--venue binance] [--from YYYY-MM] [--date YYYY-MM-DD] [--data-dir data] [--force]";

pub const SWEEP_USAGE: &'static str =
    "usage: wal-sweep <wal_root> <out_root> [--as-of YYYY-MM-DD]";

pub const BUILD_USAGE: &'static str =
    "usage: symbology build [--data-dir data] [--overrides configs/symbology-overrides.toml] [--fees-dir configs/fees]";

// ---------------------------------------------------------------------------
// backfill
// ---------------------------------------------------------------------------

/// The options of a backfill.
#[derive(Debug)]
pub struct Args {
    pub venue: String,
    pub from: Option<Month>,
    pub date: Option<Date>,
    pub data_dir: String,
    pub force: bool,
}

/// The options as mathematical values.
pub struct ArgsView {
    pub venue: Seq<char>,
    pub from: Option<Month>,
    pub date: Option<Date>,
    pub data_dir: Seq<char>,
    pub force: bool,
}

impl View for Args {
    type V = ArgsView;

    open spec fn view(&self) -> ArgsView {
        ArgsView {
            venue: self.venue@,
            from: self.from,
            date: self.date,
            data_dir: self.data_dir@,
            force: self.force,
        }
    }
}

/// The options before any argument is read.
pub open spec fn default_args() -> ArgsView {
    ArgsView { venue: "binance"@, from: None, date: None, data_dir: "data"@, force: false }
}

/// The options after the arguments, each on top of those before it, or the first
/// thing that is wrong with them.
pub open spec fn args_read(args: Seq<Seq<char>>, a: ArgsView) -> Result<ArgsView, Seq<char>>
    decreases args.len(),
{
    if args.len() == 0 {
        Ok(a)
    } else if args[0] == "--venue"@ {
        if args.len() < 2 {
            Err("--venue needs a value"@)
        } else {
            args_read(args.skip(2), ArgsView { venue: args[1], ..a })
        }
    } else if args[0] == "--from"@ {
        if args.len() < 2 {
            Err("--from needs YYYY-MM"@)
        } else {
            match month_fault(args[1]) {
                Some(reason) => Err("invalid: "@ + fault_text(args[1], reason)),
                None => args_read(
                    args.skip(2),
                    ArgsView { from: Some(month_value(args[1])), ..a },
                ),
            }
        }
    } else if args[0] == "--date"@ {
        if args.len() < 2 {
            Err("--date needs YYYY-MM-DD"@)
        } else {
            match as_date(iso_date(args[1])) {
                Ok(d) => args_read(args.skip(2), ArgsView { date: Some(d), ..a }),
                Err(e) => Err("--date: "@ + e),
            }
        }
    } else if args[0] == "--data-dir"@ {
        if args.len() < 2 {
            Err("--data-dir needs a path"@)
        } else {
            args_read(args.skip(2), ArgsView { data_dir: args[1], ..a })
        }
    } else if args[0] == "--force"@ {
        args_read(args.skip(1), ArgsView { force: true, ..a })
    } else {
        Err("unknown argument "@ + quoted(args[0]))
    }
}

/// `r` is the outcome `named`.
pub open spec fn args_outcome(
    named: Result<ArgsView, Seq<char>>,
    r: Result<Args, String>,
) -> bool {
    match (named, r) {
        (Ok(v), Ok(a)) => a@ == v && (a.date matches Some(d) ==> d.wf()) && (a.from matches Some(m)
            ==> m.wf() && m.year >= 0),
        (Err(t), Err(e)) => e@ == t,
        _ => false,
    }
}

/// Read the options `args[first..]`.
pub fn parse_args(args: &Vec<String>, first: usize) -> (r: Result<Args, String>)
    requires
        first <= args@.len(),
    ensures
        args_outcome(args_read(views(args@).skip(first as int), default_args()), r),
{
    let ghost all = views(args@);
    let ghost whole = args_read(all.skip(first as int), default_args());
    let mut a: Args = Args {
        venue: "binance".to_owned(),
        from: None,
        date: None,
        data_dir: "data".to_owned(),
        force: false,
    };
    let n: usize = args.len();
    let mut i: usize = first;
    while i < n
        invariant
            i <= n,
            n == args@.len(),
            all == views(args@),
            whole == args_read(all.skip(first as int), default_args()),
            whole == args_read(all.skip(i as int), a@),
            a.date matches Some(d) ==> d.wf(),
            a.from matches Some(m) ==> m.wf() && m.year >= 0,
        decreases n - i,
    {
        let ghost rest = all.skip(i as int);
        let ghost before = a@;
        let arg: &str = args[i].as_str();
        assert(rest[0] == arg@);
        proof {
            assert(rest.skip(1) =~= all.skip(i + 1));
            if i + 1 < n {
                assert(rest[1] == args@[i + 1]@);
                assert(rest.skip(2) =~= all.skip(i + 2));
            }
        }
        let has_value: bool = n - i > 1;
        if same(arg, "--venue") {
            if !has_value {
                return Err("--venue needs a value".to_owned());
            }
            a.venue = args[i + 1].clone();
            i = i + 2;
        } else if same(arg, "--from") {
            if !has_value {
                return Err("--from needs YYYY-MM".to_owned());
            }
            match Month::parse(args[i + 1].as_str()) {
                Ok(m) => {
                    a.from = Some(m);
                },
                Err(e) => {
                    return Err(e.message());
                },
            }
            i = i + 2;
        } else if same(arg, "--date") {
            if !has_value {
                return Err("--date needs YYYY-MM-DD".to_owned());
            }
            match Date::parse_iso(args[i + 1].as_str()) {
                Ok(d) => {
                    a.date = Some(d);
                },
                Err(e) => {
                    return Err("--date: ".to_owned().concat(e.as_str()));
                },
            }
            i = i + 2;
        } else if same(arg, "--data-dir") {
            if !has_value {
                return Err("--data-dir needs a path".to_owned());
            }
            a.data_dir = args[i + 1].clone();
            i = i + 2;
        } else if same(arg, "--force") {
            a.force = true;
            i = i + 1;
        } else {
            return Err("unknown argument ".to_owned().concat(quote(arg).as_str()));
        }
    }
    assert(all.skip(n as int).len() == 0);
    Ok(a)
}

/// The datasets a backfill can be asked for.
#[derive(Debug, Clone, Copy, PartialEq, Eq, Structural)]
pub enum Command {
    Funding,
    Reconcile,
    OiHist,
    Klines,
}

pub open spec fn is_command(s: Seq<char>) -> bool {
    s == "funding"@ || s == "reconcile"@ || s == "oi-hist"@ || s == "klines"@
}

/// The venues a dataset can be had from.
pub open spec fn venue_supported(c: Command, venue: Seq<char>) -> bool {
    venue == "binance"@ || (c == Command::Funding && venue == "bybit"@)
}

pub open spec fn venue_refusal(c: Command, venue: Seq<char>) -> Seq<char> {
    "unknown venue "@ + quoted(venue) + (if c == Command::Funding {
        "; supported: binance, bybit"@
    } else {
        "; supported: binance"@
    })
}

/// What a backfill command line asks for.
#[derive(Debug)]
pub struct Request {
    pub command: Command,
    pub args: Args,
}

/// What is wrong with a backfill command line; nothing if it can be served.
pub open spec fn request_fault(argv: Seq<Seq<char>>) -> Option<Seq<char>> {
    if argv.len() == 0 {
        Some(BACKFILL_USAGE@)
    } else {
        match args_read(argv.skip(1), default_args()) {
            Err(e) => Some(e + "\n"@ + BACKFILL_USAGE@),
            Ok(a) => if !is_command(argv[0]) {
                Some("unknown subcommand "@ + quoted(argv[0]) + "\n"@ + BACKFILL_USAGE@)
            } else {
                let c = command_named(argv[0]);
                if !venue_supported(c, a.venue) {
                    Some(venue_refusal(c, a.venue))
                } else if c == Command::Klines && a.from is None {
                    // Full-universe kline history is hours of paced requests.
                    Some("klines requires --from YYYY-MM"@)
                } else {
                    None
                }
            },
        }
    }
}

pub open spec fn command_named(s: Seq<char>) -> Command {
    if s == "funding"@ {
        Command::Funding
    } else if s == "reconcile"@ {
        Command::Reconcile
    } else if s == "oi-hist"@ {
        Command::OiHist
    } else {
        Command::Klines
    }
}

/// Read a backfill command line; the error is what the user is told.
pub fn read_request(argv: &Vec<String>) -> (r: Result<Request, String>)
    ensures
        match request_fault(views(argv@)) {
            Some(t) => r matches Err(e) && e@ == t,
            None => r matches Ok(q) && q.command == command_named(views(argv@)[0]) && args_outcome(
                args_read(views(argv@).skip(1), default_args()),
                Ok(q.args),
            ),
        },
{
    if argv.len() == 0 {
        return Err(BACKFILL_USAGE.to_owned());
    }
    assert(views(argv@)[0] == argv@[0]@);
    let args: Args = match parse_args(argv, 1) {
        Ok(a) => a,
        Err(e) => {
            return Err(e.concat("\n").concat(BACKFILL_USAGE));
        },
    };
    let name: &str = argv[0].as_str();
    let command: Command = if same(name, "funding") {
        Command::Funding
    } else if same(name, "reconcile") {
        Command::Reconcile
    } else if same(name, "oi-hist") {
        Command::OiHist
    } else if same(name, "klines") {
        Command::Klines
    } else {
        return Err(
            "unknown subcommand ".to_owned().concat(quote(name).as_str()).concat("\n").concat(
                BACKFILL_USAGE,
            ),
        );
    };
    let supported: bool = same(args.venue.as_str(), "binance") || (command == Command::Funding
        && same(args.venue.as_str(), "bybit"));
    if !supported {
        let tail: &str = if command == Command::Funding {
            "; supported: binance, bybit"
        } else {
            "; supported: binance"
        };
        return Err("unknown venue ".to_owned().concat(quote(args.venue.as_str()).as_str()).concat(tail));
    }
    if command == Command::Klines && args.from.is_none() {
        return Err("klines requires --from YYYY-MM".to_owned());
    }
    Ok(Request { command, args })
}

// ---------------------------------------------------------------------------
// wal-sweep
// ---------------------------------------------------------------------------

/// What a sweep command line asks for.
#[derive(Debug)]
pub struct SweepArgs {
    pub wal_root: String,
    pub out_root: String,
    /// Everything strictly before this day counts as closed; today by default.
    pub as_of: Option<Date>,
}

/// What a sweep command line has given so far.
pub struct SweepView {
    pub wal_root: Option<Seq<char>>,
    pub out_root: Option<Seq<char>>,
    pub as_of: Option<Date>,
}

/// The sweep after the arguments, or what the user is told.
pub open spec fn sweep_read(args: Seq<Seq<char>>, a: SweepView) -> Result<SweepView, Seq<char>>
    decreases args.len(),
{
    if args.len() == 0 {
        if a.wal_root is Some && a.out_root is Some {
            Ok(a)
        } else {
            Err(SWEEP_USAGE@)
        }
    } else if args[0] == "--as-of"@ {
        if args.len() < 2 {
            Err(SWEEP_USAGE@)
        } else {
            match as_date(ymd_date(args[1])) {
                Ok(d) => sweep_read(args.skip(2), SweepView { as_of: Some(d), ..a }),
                Err(e) => Err("--as-of: "@ + e),
            }
        }
    } else if a.wal_root is None {
        sweep_read(args.skip(1), SweepView { wal_root: Some(args[0]), ..a })
    } else if a.out_root is None {
        sweep_read(args.skip(1), SweepView { out_root: Some(args[0]), ..a })
    } else {
        Err(SWEEP_USAGE@)
    }
}

/// Read a sweep command line; the error is what the user is told.
pub fn read_sweep(args: &Vec<String>) -> (r: Result<SweepArgs, String>)
    ensures
        match (
            sweep_read(views(args@), SweepView { wal_root: None, out_root: None, as_of: None }),
            r,
        ) {
            (Ok(v), Ok(a)) => v.wal_root == Some(a.wal_root@) && v.out_root == Some(a.out_root@)
                && v.as_of == a.as_of && (a.as_of matches Some(d) ==> d.wf()),
            (Err(t), Err(e)) => e@ == t,
            _ => false,
        },
{
    let ghost all = views(args@);
    let ghost whole = sweep_read(all, SweepView { wal_root: None, out_root: None, as_of: None });
    let mut wal_root: Option<String> = None;
    let mut out_root: Option<String> = None;
    let mut as_of: Option<Date> = None;
    let n: usize = args.len();
    let mut i: usize = 0;
    assert(all.skip(0) =~= all);
    while i < n
        invariant
            i <= n,
            n == args@.len(),
            all == views(args@),
            whole == sweep_read(all, SweepView { wal_root: None, out_root: None, as_of: None }),
            whole == sweep_read(
                all.skip(i as int),
                SweepView {
                    wal_root: crate::text::opt_view(wal_root),
                    out_root: crate::text::opt_view(out_root),
                    as_of,
                },
            ),
            as_of matches Some(d) ==> d.wf(),
        decreases n - i,
    {
        let ghost rest = all.skip(i as int);
        let arg: &str = args[i].as_str();
        assert(rest[0] == arg@);
        proof {
            assert(rest.skip(1) =~= all.skip(i + 1));
            if i + 1 < n {
                assert(rest[1] == args@[i + 1]@);
                assert(rest.skip(2) =~= all.skip(i + 2));
            }
        }
        if same(arg, "--as-of") {
            if n - i < 2 {
                return Err(SWEEP_USAGE.to_owned());
            }
            match Date::parse_ymd(args[i + 1].as_str()) {
                Ok(d) => {
                    as_of = Some(d);
                },
                Err(e) => {
                    return Err("--as-of: ".to_owned().concat(e.as_str()));
                },
            }
            i = i + 2;
        } else if wal_root.is_none() {
            wal_root = Some(arg.to_owned());
            i = i + 1;
        } else if out_root.is_none() {
            out_root = Some(arg.to_owned());
            i = i + 1;
        } else {
            return Err(SWEEP_USAGE.to_owned());
        }
    }
    assert(all.skip(n as int).len() == 0);
    match (wal_root, out_root) {
        (Some(wal_root), Some(out_root)) => Ok(SweepArgs { wal_root, out_root, as_of }),
        _ => Err(SWEEP_USAGE.to_owned()),
    }
}

// ---------------------------------------------------------------------------
// symbology
// ---------------------------------------------------------------------------

/// What a symbology command line asks for.
#[derive(Debug)]
pub struct BuildArgs {
    pub data_dir: String,
    pub overrides: String,
    pub fees_dir: String,
}

/// The same as mathematical values.
pub struct BuildView {
    pub data_dir: Seq<char>,
    pub overrides: Seq<char>,
    pub fees_dir: Seq<char>,
}

impl View for BuildArgs {
    type V = BuildView;

    open spec fn view(&self) -> BuildView {
        BuildView {
            data_dir: self.data_dir@,
            overrides: self.overrides@,
            fees_dir: self.fees_dir@,
        }
    }
}

pub open spec fn default_build() -> BuildView {
    BuildView {
        data_dir: "data"@,
        overrides: "configs/symbology-overrides.toml"@,
        fees_dir: "configs/fees"@,
    }
}

/// The options after the arguments, or what the user is told.
pub open spec fn build_options(args: Seq<Seq<char>>, a: BuildView) -> Result<BuildView, Seq<char>>
    decreases args.len(),
{
    if args.len() == 0 {
        Ok(a)
    } else if args[0] == "--data-dir"@ {
        if args.len() < 2 {
            Err("--data-dir needs a path\n"@ + BUILD_USAGE@)
        } else {
            build_options(args.skip(2), BuildView { data_dir: args[1], ..a })
        }
    } else if args[0] == "--overrides"@ {
        if args.len() < 2 {
            Err("--overrides needs a path\n"@ + BUILD_USAGE@)
        } else {
            build_options(args.skip(2), BuildView { overrides: args[1], ..a })
        }
    } else if args[0] == "--fees-dir"@ {
        if args.len() < 2 {
            Err("--fees-dir needs a path\n"@ + BUILD_USAGE@)
        } else {
            build_options(args.skip(2), BuildView { fees_dir: args[1], ..a })
        }
    } else {
        Err("unknown argument "@ + quoted(args[0]) + "\n"@ + BUILD_USAGE@)
    }
}

/// What a symbology command line comes to.
pub open spec fn build_read(argv: Seq<Seq<char>>) -> Result<BuildView, Seq<char>> {
    if argv.len() == 0 {
        Err(BUILD_USAGE@)
    } else if argv[0] != "build"@ {
        Err("unknown subcommand "@ + quoted(argv[0]) + "\n"@ + BUILD_USAGE@)
    } else {
        build_options(argv.skip(1), default_build())
    }
}

/// Read a symbology command line; the error is what the user is told.
pub fn read_build(argv: &Vec<String>) -> (r: Result<BuildArgs, String>)
    ensures
        match (build_read(views(argv@)), r) {
            (Ok(v), Ok(a)) => a@ == v,
            (Err(t), Err(e)) => e@ == t,
            _ => false,
        },
{
    let ghost all = views(argv@);
    if argv.len() == 0 {
        return Err(BUILD_USAGE.to_owned());
    }
    assert(all[0] == argv@[0]@);
    if !same(argv[0].as_str(), "build") {
        return Err(
            "unknown subcommand ".to_owned().concat(quote(argv[0].as_str()).as_str()).concat(
                "\n",
            ).concat(BUILD_USAGE),
        );
    }
    let mut a: BuildArgs = BuildArgs {
        data_dir: "data".to_owned(),
        overrides: "configs/symbology-overrides.toml".to_owned(),
        fees_dir: "configs/fees".to_owned(),
    };
    let n: usize = argv.len();
    let mut i: usize = 1;
    let ghost whole = build_options(all.skip(1), default_build());
    while i < n
        invariant
            i <= n,
            n == argv@.len(),
            all == views(argv@),
            whole == build_read(all),
            whole == build_options(all.skip(i as int), a@),
        decreases n - i,
    {
        let ghost rest = all.skip(i as int);
        let arg: &str = argv[i].as_str();
        assert(rest[0] == arg@);
        proof {
            if i + 1 < n {
                assert(rest[1] == argv@[i + 1]@);
                assert(rest.skip(2) =~= all.skip(i + 2));
            }
        }
        let has_value: bool = n - i > 1;
        if same(arg, "--data-dir") {
            if !has_value {
                return Err("--data-dir needs a path\n".to_owned().concat(BUILD_USAGE));
            }
            a.data_dir = argv[i + 1].clone();
        } else if same(arg, "--overrides") {
            if !has_value {
                return Err("--overrides needs a path\n".to_owned().concat(BUILD_USAGE));
            }
            a.overrides = argv[i + 1].clone();
        } else if same(arg, "--fees-dir") {
            if !has_value {
                return Err("--fees-dir needs a path\n".to_owned().concat(BUILD_USAGE));
            }
            a.fees_dir = argv[i + 1].clone();
        } else {
            return Err(
                "unknown argument ".to_owned().concat(quote(arg).as_str()).concat("\n").concat(
                    BUILD_USAGE,
                ),
            );
        }
        i = i + 2;
    }
    assert(all.skip(n as int).len() == 0);
    Ok(a)
}

} // verus!
