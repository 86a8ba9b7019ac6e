//! What an option does to a command line: it sets what it names and nothing
//! else, and the last of its kind counts.
use super::{
    args_outcome, args_read, build_options, build_read, command_named, default_args, default_build,
    request_fault, sweep_read, venue_supported, Args, ArgsView, BuildView, Command, SweepView,
};
use crate::backfill::month::{month_fault, month_value};
use crate::calendar::{as_date, iso_date, ymd_date};
use vstd::prelude::*;
use vstd::string::*;

verus! {

proof fn lemma_options_differ()
    ensures
        "--venue"@ != "--from"@,
        "--venue"@ != "--date"@,
        "--venue"@ != "--data-dir"@,
        "--venue"@ != "--force"@,
        "--from"@ != "--date"@,
        "--from"@ != "--data-dir"@,
        "--from"@ != "--force"@,
        "--date"@ != "--data-dir"@,
        "--date"@ != "--force"@,
        "--data-dir"@ != "--force"@,
        "--data-dir"@ != "--overrides"@,
        "--data-dir"@ != "--fees-dir"@,
        "--overrides"@ != "--fees-dir"@,
{
    reveal_strlit("--venue");
    reveal_strlit("--from");
    reveal_strlit("--date");
    reveal_strlit("--data-dir");
    reveal_strlit("--force");
    reveal_strlit("--overrides");
    reveal_strlit("--fees-dir");
    assert("--venue"@.len() == 7 && "--from"@.len() == 6 && "--date"@.len() == 6);
    assert("--data-dir"@.len() == 10 && "--force"@.len() == 7 && "--overrides"@.len() == 11);
    assert("--fees-dir"@.len() == 10);
    assert("--venue"@[2] != "--force"@[2]);
    assert("--from"@[2] != "--date"@[2]);
    assert("--data-dir"@[2] != "--fees-dir"@[2]);
}

/// More arguments behind those that were read without fault are read on top of
/// what came of them.
pub proof fn law_arguments_are_read_in_order(
    args: Seq<Seq<char>>,
    more: Seq<Seq<char>>,
    a: ArgsView,
)
    requires
        args_read(args, a) is Ok,
    ensures
        args_read(args + more, a) == args_read(more, args_read(args, a)->Ok_0),
    decreases args.len(),
{
    lemma_options_differ();
    let all = args + more;
    if args.len() == 0 {
        assert(all =~= more);
    } else {
        assert(all[0] == args[0]);
        if args[0] == "--force"@ {
            assert(all.skip(1) =~= args.skip(1) + more);
            law_arguments_are_read_in_order(args.skip(1), more, ArgsView { force: true, ..a });
        } else if args.len() >= 2 {
            assert(all[1] == args[1]);
            assert(all.skip(2) =~= args.skip(2) + more);
            if args[0] == "--venue"@ {
                law_arguments_are_read_in_order(
                    args.skip(2),
                    more,
                    ArgsView { venue: args[1], ..a },
                );
            } else if args[0] == "--from"@ {
                law_arguments_are_read_in_order(
                    args.skip(2),
                    more,
                    ArgsView { from: Some(month_value(args[1])), ..a },
                );
            } else if args[0] == "--date"@ {
                law_arguments_are_read_in_order(
                    args.skip(2),
                    more,
                    ArgsView { date: Some(as_date(iso_date(args[1]))->Ok_0), ..a },
                );
            } else if args[0] == "--data-dir"@ {
                law_arguments_are_read_in_order(
                    args.skip(2),
                    more,
                    ArgsView { data_dir: args[1], ..a },
                );
            }
        }
    }
}

/// An option at the end sets what it names and leaves the rest: whatever options
/// stand before it, the last counts.
pub proof fn law_last_option_counts(args: Seq<Seq<char>>, a: ArgsView, value: Seq<char>)
    requires
        args_read(args, a) is Ok,
    ensures
        ({
            let x = args_read(args, a)->Ok_0;
            &&& args_read(args + seq!["--venue"@, value], a) == Ok::<ArgsView, Seq<char>>(
                ArgsView { venue: value, ..x },
            )
            &&& args_read(args + seq!["--data-dir"@, value], a) == Ok::<ArgsView, Seq<char>>(
                ArgsView { data_dir: value, ..x },
            )
            &&& args_read(args + seq!["--force"@], a) == Ok::<ArgsView, Seq<char>>(
                ArgsView { force: true, ..x },
            )
            &&& month_fault(value) is None ==> args_read(args + seq!["--from"@, value], a) == Ok::<
                ArgsView,
                Seq<char>,
            >(ArgsView { from: Some(month_value(value)), ..x })
            &&& month_fault(value) is Some ==> args_read(args + seq!["--from"@, value], a) is Err
            &&& as_date(iso_date(value)) matches Ok(d) ==> args_read(
                args + seq!["--date"@, value],
                a,
            ) == Ok::<ArgsView, Seq<char>>(ArgsView { date: Some(d), ..x })
            &&& as_date(iso_date(value)) is Err ==> args_read(args + seq!["--date"@, value], a) is Err
        }),
{
    lemma_options_differ();
    let x = args_read(args, a)->Ok_0;
    law_arguments_are_read_in_order(args, seq!["--venue"@, value], a);
    law_arguments_are_read_in_order(args, seq!["--data-dir"@, value], a);
    law_arguments_are_read_in_order(args, seq!["--force"@], a);
    law_arguments_are_read_in_order(args, seq!["--from"@, value], a);
    law_arguments_are_read_in_order(args, seq!["--date"@, value], a);
    let none = Seq::<Seq<char>>::empty();
    assert(seq!["--venue"@, value].skip(2) =~= none);
    assert(seq!["--data-dir"@, value].skip(2) =~= none);
    assert(seq!["--force"@].skip(1) =~= none);
    assert(seq!["--from"@, value].skip(2) =~= none);
    assert(seq!["--date"@, value].skip(2) =~= none);
    assert(args_read(none, ArgsView { venue: value, ..x }) == Ok::<ArgsView, Seq<char>>(
        ArgsView { venue: value, ..x },
    ));
    assert(args_read(none, ArgsView { data_dir: value, ..x }) == Ok::<ArgsView, Seq<char>>(
        ArgsView { data_dir: value, ..x },
    ));
    assert(args_read(none, ArgsView { force: true, ..x }) == Ok::<ArgsView, Seq<char>>(
        ArgsView { force: true, ..x },
    ));
    assert(args_read(none, ArgsView { from: Some(month_value(value)), ..x }) == Ok::<
        ArgsView,
        Seq<char>,
    >(ArgsView { from: Some(month_value(value)), ..x }));
    if let Ok(d) = as_date(iso_date(value)) {
        assert(args_read(none, ArgsView { date: Some(d), ..x }) == Ok::<ArgsView, Seq<char>>(
            ArgsView { date: Some(d), ..x },
        ));
    }
}

/// Without arguments: the venue is Binance, the directory `data`, nothing is
/// forced, and neither a month nor a day is asked for.
pub proof fn law_no_arguments_no_wishes()
    ensures
        args_read(Seq::empty(), default_args()) matches Ok(a) && a.venue == "binance"@ && a.data_dir
            == "data"@ && !a.force && a.from is None && a.date is None,
        build_options(Seq::empty(), default_build()) matches Ok(b) && b.data_dir == "data"@
            && b.overrides == "configs/symbology-overrides.toml"@ && b.fees_dir == "configs/fees"@,
{
}

/// Binance serves every dataset, Bybit funding alone, no other venue any.
pub proof fn law_venues_serve_their_datasets(c: Command, venue: Seq<char>)
    ensures
        venue_supported(c, "binance"@),
        venue_supported(Command::Funding, "bybit"@),
        venue_supported(c, venue) ==> venue == "binance"@ || venue == "bybit"@,
        venue_supported(c, venue) && venue != "binance"@ ==> c is Funding,
{
}

/// A command line is served where its options are without fault, its command is
/// one, its venue serves it, and klines say from when on.
pub proof fn law_what_is_served(argv: Seq<Seq<char>>)
    ensures
        request_fault(argv) is None <==> {
            &&& argv.len() > 0
            &&& args_read(argv.skip(1), default_args()) is Ok
            &&& argv[0] == "funding"@ || argv[0] == "reconcile"@ || argv[0] == "oi-hist"@ || argv[0]
                == "klines"@
            &&& args_read(argv.skip(1), default_args())->Ok_0.venue == "binance"@ || (argv[0]
                == "funding"@ && args_read(argv.skip(1), default_args())->Ok_0.venue == "bybit"@)
            &&& argv[0] == "klines"@ ==> args_read(argv.skip(1), default_args())->Ok_0.from is Some
        },
        argv.len() > 0 && argv[0] == "funding"@ ==> command_named(argv[0]) is Funding,
        argv.len() > 0 && argv[0] == "reconcile"@ ==> command_named(argv[0]) is Reconcile,
        argv.len() > 0 && argv[0] == "oi-hist"@ ==> command_named(argv[0]) is OiHist,
        argv.len() > 0 && argv[0] == "klines"@ ==> command_named(argv[0]) is Klines,
{
    reveal_strlit("funding");
    reveal_strlit("reconcile");
    reveal_strlit("oi-hist");
    reveal_strlit("klines");
    assert("funding"@.len() == 7 && "reconcile"@.len() == 9 && "oi-hist"@.len() == 7
        && "klines"@.len() == 6);
    assert("funding"@[0] != "oi-hist"@[0]);
}

/// A sweep takes two directories: the log's first, the output's second. A day
/// may stand before, between or behind them; a third directory is refused.
pub proof fn law_sweep_takes_two_directories(
    wal: Seq<char>,
    out: Seq<char>,
    third: Seq<char>,
    day: Seq<char>,
)
    requires
        wal != "--as-of"@,
        out != "--as-of"@,
        third != "--as-of"@,
    ensures
        ({
            let none = SweepView { wal_root: None, out_root: None, as_of: None };
            &&& sweep_read(seq![wal, out], none) == Ok::<SweepView, Seq<char>>(
                SweepView { wal_root: Some(wal), out_root: Some(out), as_of: None },
            )
            &&& sweep_read(seq![wal, out, third], none) is Err
            &&& sweep_read(seq![wal], none) is Err
            &&& as_date(ymd_date(day)) matches Ok(d) ==> {
                let asked = Ok::<SweepView, Seq<char>>(
                    SweepView { wal_root: Some(wal), out_root: Some(out), as_of: Some(d) },
                );
                &&& sweep_read(seq![wal, out, "--as-of"@, day], none) == asked
                &&& sweep_read(seq![wal, "--as-of"@, day, out], none) == asked
                &&& sweep_read(seq!["--as-of"@, day, wal, out], none) == asked
            }
            &&& as_date(ymd_date(day)) is Err ==> sweep_read(
                seq![wal, out, "--as-of"@, day],
                none,
            ) is Err
        }),
{
    reveal_with_fuel(sweep_read, 5);
    let e = Seq::<Seq<char>>::empty();
    let d = "--as-of"@;
    assert(seq![wal, out].skip(1) =~= seq![out]);
    assert(seq![out].skip(1) =~= e);
    assert(seq![wal].skip(1) =~= e);
    assert(seq![wal, out, third].skip(1) =~= seq![out, third]);
    assert(seq![out, third].skip(1) =~= seq![third]);
    assert(seq![wal, out, d, day].skip(1) =~= seq![out, d, day]);
    assert(seq![out, d, day].skip(1) =~= seq![d, day]);
    assert(seq![d, day].skip(2) =~= e);
    assert(seq![wal, d, day, out].skip(1) =~= seq![d, day, out]);
    assert(seq![d, day, out].skip(2) =~= seq![out]);
    assert(seq![d, day, wal, out].skip(2) =~= seq![wal, out]);
}

/// More arguments of a build are read on top of what came of those before.
pub proof fn law_build_arguments_are_read_in_order(
    args: Seq<Seq<char>>,
    more: Seq<Seq<char>>,
    a: BuildView,
)
    requires
        build_options(args, a) is Ok,
    ensures
        build_options(args + more, a) == build_options(more, build_options(args, a)->Ok_0),
    decreases args.len(),
{
    lemma_options_differ();
    let all = args + more;
    if args.len() == 0 {
        assert(all =~= more);
    } else {
        assert(all[0] == args[0]);
        if args.len() >= 2 {
            assert(all[1] == args[1]);
            assert(all.skip(2) =~= args.skip(2) + more);
            if args[0] == "--data-dir"@ {
                law_build_arguments_are_read_in_order(
                    args.skip(2),
                    more,
                    BuildView { data_dir: args[1], ..a },
                );
            } else if args[0] == "--overrides"@ {
                law_build_arguments_are_read_in_order(
                    args.skip(2),
                    more,
                    BuildView { overrides: args[1], ..a },
                );
            } else if args[0] == "--fees-dir"@ {
                law_build_arguments_are_read_in_order(
                    args.skip(2),
                    more,
                    BuildView { fees_dir: args[1], ..a },
                );
            }
        }
    }
}

/// The last option of a kind counts in a build, and changes nothing else.
pub proof fn law_last_build_option_counts(args: Seq<Seq<char>>, a: BuildView, value: Seq<char>)
    requires
        build_options(args, a) is Ok,
    ensures
        ({
            let x = build_options(args, a)->Ok_0;
            &&& build_options(args + seq!["--data-dir"@, value], a) == Ok::<BuildView, Seq<char>>(
                BuildView { data_dir: value, ..x },
            )
            &&& build_options(args + seq!["--overrides"@, value], a) == Ok::<BuildView, Seq<char>>(
                BuildView { overrides: value, ..x },
            )
            &&& build_options(args + seq!["--fees-dir"@, value], a) == Ok::<BuildView, Seq<char>>(
                BuildView { fees_dir: value, ..x },
            )
        }),
{
    lemma_options_differ();
    let x = build_options(args, a)->Ok_0;
    law_build_arguments_are_read_in_order(args, seq!["--data-dir"@, value], a);
    law_build_arguments_are_read_in_order(args, seq!["--overrides"@, value], a);
    law_build_arguments_are_read_in_order(args, seq!["--fees-dir"@, value], a);
    let none = Seq::<Seq<char>>::empty();
    assert(seq!["--data-dir"@, value].skip(2) =~= none);
    assert(seq!["--overrides"@, value].skip(2) =~= none);
    assert(seq!["--fees-dir"@, value].skip(2) =~= none);
    assert(build_options(none, BuildView { data_dir: value, ..x }) == Ok::<BuildView, Seq<char>>(
        BuildView { data_dir: value, ..x },
    ));
    assert(build_options(none, BuildView { overrides: value, ..x }) == Ok::<BuildView, Seq<char>>(
        BuildView { overrides: value, ..x },
    ));
    assert(build_options(none, BuildView { fees_dir: value, ..x }) == Ok::<BuildView, Seq<char>>(
        BuildView { fees_dir: value, ..x },
    ));
}

/// A build is asked for by its name, with its options behind it; anything else in
/// front is refused, and so is nothing at all.
pub proof fn law_builds_are_asked_for_by_name(first: Seq<char>, args: Seq<Seq<char>>)
    ensures
        build_read(seq![first] + args) is Ok ==> first == "build"@,
        first == "build"@ ==> build_read(seq![first] + args) == build_options(
            args,
            default_build(),
        ),
        build_read(Seq::empty()) is Err,
        request_fault(Seq::empty()) is Some,
{
    assert((seq![first] + args).skip(1) =~= args);
    assert((seq![first] + args)[0] == first);
}

/// Options are handed over as they were read, each by its own name; a fault is told
/// in its own words.
pub proof fn law_options_are_handed_over(
    named: Result<ArgsView, Seq<char>>,
    r: Result<Args, String>,
)
    requires
        args_outcome(named, r),
    ensures
        r is Ok <==> named is Ok,
        r matches Ok(a) ==> {
            let v = named->Ok_0;
            a.venue@ == v.venue && a.from == v.from && a.date == v.date && a.data_dir@
                == v.data_dir && a.force == v.force
        },
        r matches Err(e) ==> e@ == named->Err_0,
{
}

} // verus!
