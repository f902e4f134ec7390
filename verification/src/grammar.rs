//! What a command line means: its grammar, and the laws that hold of it.
use vstd::prelude::*;

use crate::addr;
use crate::cli::{ArgsView, ArgumentView, Exit, RouteTableView, Word, VERSION};
use crate::text;
use crate::wire;

verus! {

/// An argument that is taken as an address as it stands.
pub open spec fn as_it_stands(text: Seq<char>) -> ArgumentView {
    ArgumentView { text, reading: Ok(text) }
}

/// Arguments of which each is taken as an address as it stands.
pub open spec fn verbatim(texts: Seq<Seq<char>>) -> Seq<ArgumentView> {
    texts.map_values(|t: Seq<char>| as_it_stands(t))
}

/// What an argument in the place of an option means.
pub open spec fn word_of(s: Seq<char>) -> Word {
    if s == "--tunn"@ || s == "-t"@ {
        Word::Tunn
    } else if s == "--route"@ || s == "-r"@ {
        Word::Route
    } else if s == "--help"@ || s == "-h"@ {
        Word::Help
    } else if s == "--version"@ || s == "-V"@ {
        Word::Version
    } else {
        Word::Unknown
    }
}

/// Whether an argument ends the pairs of a route table before it.
pub open spec fn dashed(s: Seq<char>) -> bool {
    s.len() > 0 && s[0] == '-'
}

impl ArgumentView {
    /// The address that the argument stands for.
    pub open spec fn addr(self) -> Result<Seq<char>, Seq<char>> {
        addr::addr_of(self.text, self.reading)
    }
}

impl ArgsView {
    /// Nothing to run.
    pub open spec fn none() -> ArgsView {
        ArgsView { tunn: Seq::empty(), route_table: Seq::empty() }
    }

    /// One tunnel.
    pub open spec fn one_tunn(addr: Seq<char>) -> ArgsView {
        ArgsView { tunn: seq![addr], route_table: Seq::empty() }
    }

    /// One server.
    pub open spec fn one_route(table: RouteTableView) -> ArgsView {
        ArgsView { tunn: Seq::empty(), route_table: seq![table] }
    }

    /// What two command lines ask for together.
    pub open spec fn and(self, more: ArgsView) -> ArgsView {
        ArgsView {
            tunn: self.tunn + more.tunn,
            route_table: self.route_table + more.route_table,
        }
    }

    /// Whether there is something to run, and no server without a route.
    pub open spec fn wf(self) -> bool {
        &&& self.tunn.len() > 0 || self.route_table.len() > 0
        &&& forall|i: int|
            0 <= i < self.route_table.len() ==> (#[trigger] self.route_table[i]).pairs.len() > 0
    }
}

/// The pairs of addresses at the head of some arguments, and the arguments after them. They go on
/// to the first argument in the place of a first partner that begins with a dash.
pub open spec fn pairs_of(rest: Seq<ArgumentView>) -> Result<
    (Seq<(Seq<char>, Seq<char>)>, Seq<ArgumentView>),
    Exit<Seq<char>>,
>
    decreases rest.len(),
{
    if rest.len() == 0 || dashed(rest[0].text) {
        Ok((Seq::empty(), rest))
    } else if rest.len() == 1 {
        Err(Exit::MissingPair)
    } else {
        match (rest[0].addr(), rest[1].addr()) {
            (Err(reason), _) => Err(Exit::InvalidAddress(reason)),
            (_, Err(reason)) => Err(Exit::InvalidAddress(reason)),
            (Ok(a), Ok(b)) => more_pairs(seq![(a, b)], pairs_of(rest.skip(2))),
        }
    }
}

/// Some pairs, and those that are found after them.
pub open spec fn more_pairs(
    pairs: Seq<(Seq<char>, Seq<char>)>,
    found: Result<(Seq<(Seq<char>, Seq<char>)>, Seq<ArgumentView>), Exit<Seq<char>>>,
) -> Result<(Seq<(Seq<char>, Seq<char>)>, Seq<ArgumentView>), Exit<Seq<char>>> {
    match found {
        Ok((more, rest)) => Ok((pairs + more, rest)),
        Err(exit) => Err(exit),
    }
}

/// What some arguments ask for, be it nothing: a sequence of options, each with its operands. The
/// first of them that cannot be followed decides.
pub open spec fn options_of(rest: Seq<ArgumentView>) -> Result<ArgsView, Exit<Seq<char>>>
    decreases rest.len(),
{
    if rest.len() == 0 {
        Ok(ArgsView::none())
    } else {
        match word_of(rest[0].text) {
            Word::Tunn => if rest.len() == 1 {
                Err(Exit::MissingTunn)
            } else {
                match rest[1].addr() {
                    Err(reason) => Err(Exit::InvalidAddress(reason)),
                    Ok(addr) => more_args(ArgsView::one_tunn(addr), options_of(rest.skip(2))),
                }
            },
            Word::Route => if rest.len() == 1 {
                Err(Exit::MissingRoute)
            } else {
                match (rest[1].addr(), pairs_of(rest.skip(2))) {
                    (Err(reason), _) => Err(Exit::InvalidAddress(reason)),
                    (_, Err(exit)) => Err(exit),
                    (Ok(tunn), Ok((pairs, after))) => if pairs.len() == 0 {
                        Err(Exit::EmptyRoute)
                    } else {
                        proof {
                            lemma_pairs_consume(rest.skip(2));
                        }
                        more_args(
                            ArgsView::one_route(RouteTableView { tunn, pairs }),
                            options_of(after),
                        )
                    },
                }
            },
            Word::Help => Err(Exit::Help),
            Word::Version => Err(Exit::Version),
            Word::Unknown => Err(Exit::UnknownArgument(rest[0].text)),
        }
    }
}

/// What was asked for so far, and what is found to be asked for after it.
pub open spec fn more_args(
    args: ArgsView,
    found: Result<ArgsView, Exit<Seq<char>>>,
) -> Result<ArgsView, Exit<Seq<char>>> {
    match found {
        Ok(more) => Ok(args.and(more)),
        Err(exit) => Err(exit),
    }
}

/// What a command line asks for, or why it asks for nothing to be run.
pub open spec fn parse_of(args: Seq<ArgumentView>) -> Result<ArgsView, Exit<Seq<char>>> {
    match options_of(args) {
        Ok(found) => if found.tunn.len() == 0 && found.route_table.len() == 0 {
            Err(Exit::NothingToRun)
        } else {
            Ok(found)
        },
        Err(exit) => Err(exit),
    }
}

/// What the program prints for each exit, given its help.
pub open spec fn message_of(exit: Exit<Seq<char>>, help: Seq<char>) -> Seq<char> {
    match exit {
        Exit::Help => help,
        Exit::Version => VERSION@,
        Exit::MissingTunn => "error: --tunn requires <ADDR>"@,
        Exit::MissingRoute => "error: --route requires <TUNN> <A> <B> [...]"@,
        Exit::MissingPair => "error: --route requires pairs <A> <B>"@,
        Exit::EmptyRoute => "error: --route requires at least one pair <A> <B>"@,
        Exit::InvalidAddress(reason) => "error: invalid address: "@ + reason,
        Exit::UnknownArgument(arg) => "error: unknown argument '"@ + arg + "'"@,
        Exit::NothingToRun => "error: specify --tunn or --route"@,
    }
}

/// The status that the program exits with.
pub open spec fn status_of(exit: Exit<Seq<char>>) -> int {
    if exit is Help || exit is Version {
        0
    } else {
        1
    }
}

/// Whether a message goes to standard output.
pub open spec fn goes_to_stdout(exit: Exit<Seq<char>>) -> bool {
    exit is Help || exit is Version
}

/// What comes after some pairs is no more than what they were found in.
pub proof fn lemma_pairs_consume(rest: Seq<ArgumentView>)
    ensures
        pairs_of(rest) matches Ok((_, after)) ==> after.len() <= rest.len(),
    decreases rest.len(),
{
    if rest.len() > 1 {
        lemma_pairs_consume(rest.skip(2));
    }
}

/// No pairs before some change nothing.
pub(crate) proof fn lemma_more_pairs_none(
    found: Result<(Seq<(Seq<char>, Seq<char>)>, Seq<ArgumentView>), Exit<Seq<char>>>,
)
    ensures
        more_pairs(Seq::empty(), found) == found,
{
    match found {
        Ok((more, _)) => assert(Seq::empty() + more =~= more),
        Err(_) => {},
    }
}

/// Pairs can be added one after the other or together.
pub(crate) proof fn lemma_more_pairs(
    first: Seq<(Seq<char>, Seq<char>)>,
    second: Seq<(Seq<char>, Seq<char>)>,
    found: Result<(Seq<(Seq<char>, Seq<char>)>, Seq<ArgumentView>), Exit<Seq<char>>>,
)
    ensures
        more_pairs(first, more_pairs(second, found)) == more_pairs(first + second, found),
{
    match found {
        Ok((more, _)) => assert(first + (second + more) =~= first + second + more),
        Err(_) => {},
    }
}

/// Nothing asked for before the rest changes nothing.
pub(crate) proof fn lemma_more_args_none(found: Result<ArgsView, Exit<Seq<char>>>)
    ensures
        more_args(ArgsView::none(), found) == found,
{
    match found {
        Ok(more) => assert(ArgsView::none().and(more) =~= more),
        Err(_) => {},
    }
}

/// What is asked for can be added up one after the other or together.
pub(crate) proof fn lemma_more_args(
    first: ArgsView,
    second: ArgsView,
    found: Result<ArgsView, Exit<Seq<char>>>,
)
    ensures
        more_args(first, more_args(second, found)) == more_args(first.and(second), found),
{
    match found {
        Ok(more) => assert(first.and(second.and(more)) =~= first.and(second).and(more)),
        Err(_) => {},
    }
}

/// No server without a route is ever asked for.
pub(crate) proof fn lemma_options_wf(rest: Seq<ArgumentView>)
    ensures
        options_of(rest) matches Ok(found) ==> forall|i: int|
            0 <= i < found.route_table.len() ==> (#[trigger] found.route_table[i]).pairs.len() > 0,
    decreases rest.len(),
{
    if rest.len() > 1 {
        if word_of(rest[0].text) == Word::Tunn {
            lemma_options_wf(rest.skip(2));
        } else if word_of(rest[0].text) == Word::Route {
            lemma_pairs_consume(rest.skip(2));
            if let Ok((_, after)) = pairs_of(rest.skip(2)) {
                lemma_options_wf(after);
            }
        }
    }
}

/// Whether some arguments can follow a route table without being taken for more of its pairs.
pub open spec fn sets_off(rest: Seq<ArgumentView>) -> bool {
    rest.len() == 0 || dashed(rest[0].text)
}

/// Every option begins with a dash.
pub proof fn law_options_are_dashed(s: Seq<char>)
    ensures
        word_of(s) != Word::Unknown ==> dashed(s),
{
    reveal_strlit("--tunn");
    reveal_strlit("-t");
    reveal_strlit("--route");
    reveal_strlit("-r");
    reveal_strlit("--help");
    reveal_strlit("-h");
    reveal_strlit("--version");
    reveal_strlit("-V");
}

/// Pairs are not affected by what follows them, as long as it is set off by a dash.
proof fn lemma_pairs_before(xs: Seq<ArgumentView>, ys: Seq<ArgumentView>)
    requires
        pairs_of(xs) is Ok,
        sets_off(ys),
    ensures
        pairs_of(xs + ys) == Ok::<_, Exit<Seq<char>>>(
            (pairs_of(xs)->Ok_0.0, pairs_of(xs)->Ok_0.1 + ys),
        ),
    decreases xs.len(),
{
    if xs.len() == 0 {
        assert(xs + ys =~= ys);
    } else if !dashed(xs[0].text) {
        assert((xs + ys)[0] == xs[0]);
        assert((xs + ys)[1] == xs[1]);
        assert((xs + ys).skip(2) =~= xs.skip(2) + ys);
        lemma_pairs_before(xs.skip(2), ys);
    } else {
        assert((xs + ys)[0] == xs[0]);
    }
}

/// A command line is read from left to right: what some options ask for does not depend on what
/// follows them, and is asked for together with that. (What follows has to begin with a dash, or it
/// would be taken for addresses of a route table that stands last.)
pub proof fn law_left_to_right(xs: Seq<ArgumentView>, ys: Seq<ArgumentView>)
    requires
        options_of(xs) is Ok,
        sets_off(ys),
    ensures
        options_of(xs + ys) == more_args(options_of(xs)->Ok_0, options_of(ys)),
    decreases xs.len(),
{
    let both = xs + ys;
    if xs.len() == 0 {
        assert(both =~= ys);
        lemma_more_args_none(options_of(ys));
    } else {
        assert(both[0] == xs[0] && both[1] == xs[1]);
        assert(both.skip(2) =~= xs.skip(2) + ys);
        let addr = xs[1].addr()->Ok_0;
        if word_of(xs[0].text) == Word::Tunn {
            law_left_to_right(xs.skip(2), ys);
            lemma_more_args(
                ArgsView::one_tunn(addr),
                options_of(xs.skip(2))->Ok_0,
                options_of(ys),
            );
        } else {
            let (pairs, after) = pairs_of(xs.skip(2))->Ok_0;
            lemma_pairs_before(xs.skip(2), ys);
            lemma_pairs_consume(xs.skip(2));
            law_left_to_right(after, ys);
            lemma_more_args(
                ArgsView::one_route(RouteTableView { tunn: addr, pairs }),
                options_of(after)->Ok_0,
                options_of(ys),
            );
        }
    }
}

/// Options are repeatable: two command lines one after the other ask for what the first asks for
/// and then what the second does.
pub proof fn law_command_lines_add_up(xs: Seq<ArgumentView>, ys: Seq<ArgumentView>)
    requires
        parse_of(xs) is Ok,
        parse_of(ys) is Ok,
    ensures
        parse_of(xs + ys) == Ok::<_, Exit<Seq<char>>>(parse_of(xs)->Ok_0.and(parse_of(ys)->Ok_0)),
        parse_of(xs + ys) matches Ok(both) && both.tunn == parse_of(xs)->Ok_0.tunn + parse_of(
            ys,
        )->Ok_0.tunn && both.route_table == parse_of(xs)->Ok_0.route_table + parse_of(
            ys,
        )->Ok_0.route_table,
{
    law_options_are_dashed(ys[0].text);
    law_left_to_right(xs, ys);
}

/// The order of tunnels and route tables among each other does not matter.
pub proof fn law_tunnels_and_routes_commute(xs: Seq<ArgumentView>, ys: Seq<ArgumentView>)
    requires
        parse_of(xs) matches Ok(tunnels) && tunnels.route_table.len() == 0,
        parse_of(ys) matches Ok(routes) && routes.tunn.len() == 0,
    ensures
        parse_of(xs + ys) == parse_of(ys + xs),
{
    law_command_lines_add_up(xs, ys);
    law_command_lines_add_up(ys, xs);
    let tunnels = parse_of(xs)->Ok_0;
    let routes = parse_of(ys)->Ok_0;
    assert(tunnels.and(routes) =~= routes.and(tunnels));
}

/// The long and the short spelling of an option mean the same, wherever an option can stand.
pub proof fn law_spellings_agree(
    before: Seq<ArgumentView>,
    one: ArgumentView,
    other: ArgumentView,
    after: Seq<ArgumentView>,
)
    requires
        options_of(before) is Ok,
        word_of(one.text) == word_of(other.text),
        word_of(one.text) != Word::Unknown,
    ensures
        parse_of(before + (seq![one] + after)) == parse_of(before + (seq![other] + after)),
{
    let a = seq![one] + after;
    let b = seq![other] + after;
    law_options_are_dashed(one.text);
    law_options_are_dashed(other.text);
    law_left_to_right(before, a);
    law_left_to_right(before, b);
    assert(a.len() == b.len());
    assert(a.len() > 1 ==> a[1] == b[1]);
    assert(a.len() > 1 ==> a.skip(2) =~= b.skip(2));
}

/// The help and the version are given as soon as they are asked for, whatever else follows.
pub proof fn law_help_and_version_come_first(
    before: Seq<ArgumentView>,
    asked: ArgumentView,
    after: Seq<ArgumentView>,
)
    requires
        options_of(before) is Ok,
        word_of(asked.text) == Word::Help || word_of(asked.text) == Word::Version,
    ensures
        parse_of(before + (seq![asked] + after)) == Err::<ArgsView, Exit<Seq<char>>>(
            if word_of(asked.text) == Word::Help {
                Exit::<Seq<char>>::Help
            } else {
                Exit::<Seq<char>>::Version
            },
        ),
{
    law_options_are_dashed(asked.text);
    law_left_to_right(before, seq![asked] + after);
}

/// Pairs of addresses as arguments.
pub open spec fn pairs_line(pairs: Seq<(Seq<char>, Seq<char>)>) -> Seq<ArgumentView>
    decreases pairs.len(),
{
    if pairs.len() == 0 {
        Seq::empty()
    } else {
        seq![as_it_stands(pairs[0].0), as_it_stands(pairs[0].1)] + pairs_line(pairs.skip(1))
    }
}

/// Tunnels as a command line.
pub open spec fn tunnels_line(tunn: Seq<Seq<char>>) -> Seq<ArgumentView>
    decreases tunn.len(),
{
    if tunn.len() == 0 {
        Seq::empty()
    } else {
        seq![as_it_stands("--tunn"@), as_it_stands(tunn[0])] + tunnels_line(tunn.skip(1))
    }
}

/// Route tables as a command line.
pub open spec fn tables_line(tables: Seq<RouteTableView>) -> Seq<ArgumentView>
    decreases tables.len(),
{
    if tables.len() == 0 {
        Seq::empty()
    } else {
        seq![as_it_stands("--route"@), as_it_stands(tables[0].tunn)] + pairs_line(tables[0].pairs)
            + tables_line(tables.skip(1))
    }
}

/// A command line for given tunnels and route tables.
pub open spec fn command_line(args: ArgsView) -> Seq<ArgumentView> {
    tunnels_line(args.tunn) + tables_line(args.route_table)
}

/// Whether a route table can be written on a command line: its addresses are no bare ports, which
/// would be read as something longer, and no address to listen on begins with a dash.
pub open spec fn writable_table(table: RouteTableView) -> bool {
    &&& addr::port_of(table.tunn) is None
    &&& forall|i: int|
        0 <= i < table.pairs.len() ==> {
            let pair = #[trigger] table.pairs[i];
            &&& addr::port_of(pair.0) is None
            &&& addr::port_of(pair.1) is None
            &&& !dashed(pair.0)
        }
}

/// Whether tunnels and route tables can be written on a command line.
pub open spec fn writable(args: ArgsView) -> bool {
    &&& forall|i: int| 0 <= i < args.tunn.len() ==> addr::port_of(#[trigger] args.tunn[i]) is None
    &&& forall|i: int|
        0 <= i < args.route_table.len() ==> writable_table(#[trigger] args.route_table[i])
}

/// Every set of tunnels and route tables that can be written on a command line can be asked for:
/// reading the command line that spells it out gives it back.
pub proof fn law_command_line_reads_back(args: ArgsView)
    requires
        args.wf(),
        writable(args),
    ensures
        parse_of(command_line(args)) == Ok::<_, Exit<Seq<char>>>(args),
{
    let tunnels = ArgsView { tunn: args.tunn, route_table: Seq::empty() };
    let tables = ArgsView { tunn: Seq::empty(), route_table: args.route_table };
    lemma_tunnels_line(args.tunn);
    lemma_tables_line(args.route_table);
    law_left_to_right(tunnels_line(args.tunn), tables_line(args.route_table));
    assert(tunnels.and(tables) =~= args);
}

/// The pairs of a line of pairs are those it was made of.
proof fn lemma_pairs_line(pairs: Seq<(Seq<char>, Seq<char>)>)
    requires
        forall|i: int|
            0 <= i < pairs.len() ==> {
                let pair = #[trigger] pairs[i];
                &&& addr::port_of(pair.0) is None
                &&& addr::port_of(pair.1) is None
                &&& !dashed(pair.0)
            },
    ensures
        pairs_of(pairs_line(pairs)) == Ok::<_, Exit<Seq<char>>>(
            (pairs, Seq::<ArgumentView>::empty()),
        ),
    decreases pairs.len(),
{
    if pairs.len() == 0 {
        assert(pairs =~= Seq::empty());
    } else {
        let line = pairs_line(pairs);
        assert(pairs[0] == (pairs[0].0, pairs[0].1));
        lemma_pairs_line(pairs.skip(1));
        assert(line.skip(2) =~= pairs_line(pairs.skip(1)));
        assert(seq![(pairs[0].0, pairs[0].1)] + pairs.skip(1) =~= pairs);
    }
}

/// The tunnels of a line of tunnels are those it was made of.
proof fn lemma_tunnels_line(tunn: Seq<Seq<char>>)
    requires
        forall|i: int| 0 <= i < tunn.len() ==> addr::port_of(#[trigger] tunn[i]) is None,
    ensures
        options_of(tunnels_line(tunn)) == Ok::<_, Exit<Seq<char>>>(
            ArgsView { tunn, route_table: Seq::empty() },
        ),
        sets_off(tunnels_line(tunn)),
    decreases tunn.len(),
{
    if tunn.len() == 0 {
        assert(tunn =~= Seq::empty());
    } else {
        let line = tunnels_line(tunn);
        let rest = tunn.skip(1);
        law_options_are_dashed("--tunn"@);
        assert(addr::port_of(tunn[0]) is None);
        lemma_tunnels_line(rest);
        assert(line.skip(2) =~= tunnels_line(rest));
        assert(ArgsView::one_tunn(tunn[0]).and(
            ArgsView { tunn: rest, route_table: Seq::empty() },
        ) =~= ArgsView { tunn, route_table: Seq::empty() });
    }
}

/// The route tables of a line of route tables are those it was made of.
proof fn lemma_tables_line(tables: Seq<RouteTableView>)
    requires
        forall|i: int|
            0 <= i < tables.len() ==> writable_table(#[trigger] tables[i]) && tables[i].pairs.len()
                > 0,
    ensures
        options_of(tables_line(tables)) == Ok::<_, Exit<Seq<char>>>(
            ArgsView { tunn: Seq::empty(), route_table: tables },
        ),
        sets_off(tables_line(tables)),
    decreases tables.len(),
{
    if tables.len() == 0 {
        assert(tables =~= Seq::empty());
    } else {
        let line = tables_line(tables);
        let rest = tables.skip(1);
        let table = tables[0];
        reveal_strlit("--tunn");
        reveal_strlit("--route");
        reveal_strlit("-t");
        law_options_are_dashed("--route"@);
        assert("--route"@.len() != "--tunn"@.len() && "--route"@.len() != "-t"@.len());
        assert(writable_table(table));
        lemma_tables_line(rest);
        lemma_pairs_line(table.pairs);
        lemma_pairs_before(pairs_line(table.pairs), tables_line(rest));
        assert(line.skip(2) =~= pairs_line(table.pairs) + tables_line(rest));
        assert(Seq::<ArgumentView>::empty() + tables_line(rest) =~= tables_line(rest));
        assert(ArgsView::one_route(table).and(
            ArgsView { tunn: Seq::empty(), route_table: rest },
        ) =~= ArgsView { tunn: Seq::empty(), route_table: tables });
    }
}

/// What a command line asks for can be written down again: where addresses are taken as they stand,
/// whatever is asked for can be spelled out on a command line, which then asks for the same.
pub proof fn law_what_was_read_can_be_written(texts: Seq<Seq<char>>, args: ArgsView)
    requires
        parse_of(verbatim(texts)) == Ok::<_, Exit<Seq<char>>>(args),
    ensures
        writable(args),
        parse_of(command_line(args)) == Ok::<_, Exit<Seq<char>>>(args),
{
    let line = verbatim(texts);
    assert(all_as_they_stand(line)) by {
        assert forall|i: int| 0 <= i < line.len() implies #[trigger] line[i] == as_it_stands(
            line[i].text,
        ) by {
            assert(line[i] == as_it_stands(texts[i]));
        }
    }
    lemma_options_writable(line);
    lemma_options_wf(line);
    law_command_line_reads_back(args);
}

/// Whether each argument is taken as an address as it stands.
spec fn all_as_they_stand(args: Seq<ArgumentView>) -> bool {
    forall|i: int| 0 <= i < args.len() ==> #[trigger] args[i] == as_it_stands(args[i].text)
}

/// An address that was taken as it stands is no bare port, and it begins with a dash only if the
/// argument did.
proof fn lemma_address_writable(arg: ArgumentView)
    requires
        arg == as_it_stands(arg.text),
    ensures
        arg.addr() is Ok,
        addr::port_of(arg.addr()->Ok_0) is None,
        dashed(arg.addr()->Ok_0) ==> dashed(arg.text),
{
    match addr::port_of(arg.text) {
        Some(port) => {
            addr::law_address_is_no_port(port);
            reveal_strlit("0.0.0.0:");
            assert(addr::any_interface(port)[0] == '0');
        },
        None => {},
    }
}

/// Pairs of addresses that were taken as they stand can be written down again.
proof fn lemma_pairs_writable(rest: Seq<ArgumentView>)
    requires
        all_as_they_stand(rest),
    ensures
        pairs_of(rest) matches Ok((pairs, after)) ==> {
            &&& all_as_they_stand(after)
            &&& forall|i: int|
                0 <= i < pairs.len() ==> {
                    let pair = #[trigger] pairs[i];
                    &&& addr::port_of(pair.0) is None
                    &&& addr::port_of(pair.1) is None
                    &&& !dashed(pair.0)
                }
        },
    decreases rest.len(),
{
    if rest.len() > 1 && !dashed(rest[0].text) {
        lemma_address_writable(rest[0]);
        lemma_address_writable(rest[1]);
        assert(all_as_they_stand(rest.skip(2)));
        lemma_pairs_writable(rest.skip(2));
    }
}

/// What options ask for can be written down again where addresses were taken as they stand.
proof fn lemma_options_writable(rest: Seq<ArgumentView>)
    requires
        all_as_they_stand(rest),
    ensures
        options_of(rest) matches Ok(args) ==> writable(args),
    decreases rest.len(),
{
    if rest.len() > 1 {
        lemma_address_writable(rest[1]);
        assert(all_as_they_stand(rest.skip(2)));
        if word_of(rest[0].text) == Word::Tunn {
            lemma_options_writable(rest.skip(2));
        } else if word_of(rest[0].text) == Word::Route {
            lemma_pairs_writable(rest.skip(2));
            lemma_pairs_consume(rest.skip(2));
            if let Ok((_, after)) = pairs_of(rest.skip(2)) {
                lemma_options_writable(after);
            }
        }
    }
}

/// Whether the reading of each argument fits in a frame.
pub open spec fn readings_fit(args: Seq<ArgumentView>) -> bool {
    forall|i: int|
        0 <= i < args.len() ==> ((#[trigger] args[i]).reading matches Ok(r) ==> wire::fits_frame(r))
}

/// Whether each pair of addresses fits in its frames.
pub open spec fn pairs_fit(pairs: Seq<(Seq<char>, Seq<char>)>) -> bool {
    forall|i: int|
        0 <= i < pairs.len() ==> {
            let pair = #[trigger] pairs[i];
            wire::fits_frame(pair.0) && wire::fits_frame(pair.1)
        }
}

/// Whether each address of a route table fits in a frame.
pub open spec fn table_fits(table: RouteTableView) -> bool {
    wire::fits_frame(table.tunn) && pairs_fit(table.pairs)
}

/// Whether each address of some tunnels and route tables fits in a frame.
pub open spec fn args_fit(args: ArgsView) -> bool {
    &&& forall|i: int| 0 <= i < args.tunn.len() ==> wire::fits_frame(#[trigger] args.tunn[i])
    &&& forall|i: int|
        0 <= i < args.route_table.len() ==> table_fits(#[trigger] args.route_table[i])
}

/// Every address that a command line gives fits in a frame, where the reading of each argument
/// does: bare ports always do.
pub proof fn law_addresses_fit_their_frames(args: Seq<ArgumentView>, found: ArgsView)
    requires
        readings_fit(args),
        parse_of(args) == Ok::<_, Exit<Seq<char>>>(found),
    ensures
        args_fit(found),
{
    lemma_options_fit(args);
}

/// Pairs fit in their frames where the readings do.
proof fn lemma_pairs_fit(rest: Seq<ArgumentView>)
    requires
        readings_fit(rest),
    ensures
        pairs_of(rest) matches Ok((pairs, after)) ==> pairs_fit(pairs) && readings_fit(after),
    decreases rest.len(),
{
    if rest.len() > 1 && !dashed(rest[0].text) {
        if let (Ok(a), Ok(b)) = (rest[0].addr(), rest[1].addr()) {
            addr::law_address_fits_a_frame(rest[0].text, rest[0].reading, a);
            addr::law_address_fits_a_frame(rest[1].text, rest[1].reading, b);
            assert(readings_fit(rest.skip(2)));
            lemma_pairs_fit(rest.skip(2));
        }
    }
}

/// What options ask for fits in frames where the readings do.
proof fn lemma_options_fit(rest: Seq<ArgumentView>)
    requires
        readings_fit(rest),
    ensures
        options_of(rest) matches Ok(args) ==> args_fit(args),
    decreases rest.len(),
{
    if rest.len() > 1 {
        if let Ok(first) = rest[1].addr() {
            addr::law_address_fits_a_frame(rest[1].text, rest[1].reading, first);
            assert(readings_fit(rest.skip(2)));
            if word_of(rest[0].text) == Word::Tunn {
                lemma_options_fit(rest.skip(2));
            } else if word_of(rest[0].text) == Word::Route {
                lemma_pairs_fit(rest.skip(2));
                lemma_pairs_consume(rest.skip(2));
                if let Ok((_, after)) = pairs_of(rest.skip(2)) {
                    lemma_options_fit(after);
                }
            }
        }
    }
}

/// The address that an argument stands for: that of the port on every interface, where it spells
/// one, be it after a plus sign or with leading zeros, and its reading where it does not.
pub proof fn law_argument_stands_for_its_address(
    arg: ArgumentView,
    plus: bool,
    zeros: nat,
    port: u16,
)
    ensures
        arg.text == addr::spelling(plus, zeros, port) ==> arg.addr() == Ok::<Seq<char>, Seq<char>>(
            seq!['0', '.', '0', '.', '0', '.', '0', ':'] + text::decimal(port as nat),
        ),
        (forall|s: bool, z: nat, p: u16| arg.text != #[trigger] addr::spelling(s, z, p))
            ==> arg.addr() == arg.reading,
{
    addr::law_spellings_are_read(plus, zeros, port, arg.reading);
    addr::law_only_spellings_are_ports(arg.text, arg.reading);
}

/// Arguments that are taken as they stand are all there, in their order, with their own texts, and
/// each reads as its text.
pub proof fn law_verbatim_keeps_the_texts(texts: Seq<Seq<char>>, i: int)
    requires
        0 <= i < texts.len(),
    ensures
        verbatim(texts).len() == texts.len(),
        verbatim(texts)[i].text == texts[i],
        verbatim(texts)[i].reading == Ok::<Seq<char>, Seq<char>>(texts[i]),
{
}

/// A dash with anything after it, or nothing, begins with a dash, and neither does an empty text nor
/// one that begins with another character.
pub proof fn law_dashed_texts(c: char, after: Seq<char>)
    ensures
        dashed(seq!['-'] + after),
        dashed(seq![c] + after) ==> c == '-',
        !dashed(Seq::empty()),
{
    assert((seq![c] + after)[0] == c);
}

/// There are eight spellings of options, two for each, and no more.
pub proof fn law_options_are_these(s: Seq<char>)
    ensures
        word_of(s) == Word::Tunn <==> s == seq!['-', 't'] || s == seq![
            '-',
            '-',
            't',
            'u',
            'n',
            'n',
        ],
        word_of(s) == Word::Route <==> s == seq!['-', 'r'] || s == seq![
            '-',
            '-',
            'r',
            'o',
            'u',
            't',
            'e',
        ],
        word_of(s) == Word::Help <==> s == seq!['-', 'h'] || s == seq![
            '-',
            '-',
            'h',
            'e',
            'l',
            'p',
        ],
        word_of(s) == Word::Version <==> s == seq!['-', 'V'] || s == seq![
            '-',
            '-',
            'v',
            'e',
            'r',
            's',
            'i',
            'o',
            'n',
        ],
{
    reveal_strlit("--tunn");
    reveal_strlit("-t");
    reveal_strlit("--route");
    reveal_strlit("-r");
    reveal_strlit("--help");
    reveal_strlit("-h");
    reveal_strlit("--version");
    reveal_strlit("-V");
    assert("--tunn"@ =~= seq!['-', '-', 't', 'u', 'n', 'n']);
    assert("-t"@ =~= seq!['-', 't']);
    assert("--route"@ =~= seq!['-', '-', 'r', 'o', 'u', 't', 'e']);
    assert("-r"@ =~= seq!['-', 'r']);
    assert("--help"@ =~= seq!['-', '-', 'h', 'e', 'l', 'p']);
    assert("-h"@ =~= seq!['-', 'h']);
    assert("--version"@ =~= seq!['-', '-', 'v', 'e', 'r', 's', 'i', 'o', 'n']);
    assert("-V"@ =~= seq!['-', 'V']);
    assert("--tunn"@[2] == 't' && "--help"@[2] == 'h');
    assert("-t"@[1] == 't' && "-r"@[1] == 'r' && "-h"@[1] == 'h' && "-V"@[1] == 'V');
    assert("--tunn"@.len() == 6 && "--route"@.len() == 7 && "--help"@.len() == 6
        && "--version"@.len() == 9);
}

/// Whether some arguments make pairs: there is an even number of them, each reads as an address, and
/// none in the place of a first partner begins with a dash.
pub open spec fn pairable(operands: Seq<ArgumentView>) -> bool {
    &&& operands.len() % 2 == 0
    &&& forall|i: int| 0 <= i < operands.len() ==> (#[trigger] operands[i]).addr() is Ok
    &&& forall|i: int|
        0 <= i < operands.len() && i % 2 == 0 ==> !dashed((#[trigger] operands[i]).text)
}

/// Every two arguments are a pair, and none is lost: of arguments that make pairs, bare ports among
/// them, there are found half as many pairs, and each is the addresses of the two arguments at its
/// place. What comes after them, set off by a dash, is left.
pub proof fn law_every_two_are_a_pair(operands: Seq<ArgumentView>, rest: Seq<ArgumentView>)
    requires
        pairable(operands),
        rest.len() == 0 || dashed(rest[0].text),
    ensures
        pairs_of(operands + rest) matches Ok((pairs, after)) && after == rest && 2 * pairs.len()
            == operands.len() && forall|i: int|
            0 <= i < pairs.len() ==> #[trigger] pairs[i] == (
                operands[2 * i].addr()->Ok_0,
                operands[2 * i + 1].addr()->Ok_0,
            ),
{
    lemma_pairs_then(operands, rest);
    assert(paired(operands) + Seq::empty() =~= paired(operands));
}

/// The pairs of addresses that arguments make.
spec fn paired(operands: Seq<ArgumentView>) -> Seq<(Seq<char>, Seq<char>)> {
    Seq::new(
        (operands.len() / 2) as nat,
        |i: int| (operands[2 * i].addr()->Ok_0, operands[2 * i + 1].addr()->Ok_0),
    )
}

/// Arguments that make pairs are taken before whatever comes after them.
proof fn lemma_pairs_then(operands: Seq<ArgumentView>, rest: Seq<ArgumentView>)
    requires
        pairable(operands),
    ensures
        pairs_of(operands + rest) == more_pairs(paired(operands), pairs_of(rest)),
    decreases operands.len(),
{
    let all = operands + rest;
    if operands.len() == 0 {
        assert(all =~= rest);
        assert(paired(operands) =~= Seq::empty());
        lemma_more_pairs_none(pairs_of(rest));
    } else {
        let more = operands.skip(2);
        let a = operands[0].addr()->Ok_0;
        let b = operands[1].addr()->Ok_0;
        assert(all[0] == operands[0] && all[1] == operands[1]);
        assert(all.skip(2) =~= more + rest);
        assert(pairable(more)) by {
            assert forall|i: int| 0 <= i < more.len() implies (#[trigger] more[i]).addr() is Ok by {
                assert(more[i] == operands[i + 2]);
            }
            assert forall|i: int| 0 <= i < more.len() && i % 2 == 0 implies !dashed(
                (#[trigger] more[i]).text,
            ) by {
                assert(more[i] == operands[i + 2]);
                assert((i + 2) % 2 == 0);
            }
        }
        lemma_pairs_then(more, rest);
        lemma_more_pairs(seq![(a, b)], paired(more), pairs_of(rest));
        assert(seq![(a, b)] + paired(more) =~= paired(operands)) by {
            assert forall|i: int| 0 < i < paired(operands).len() implies #[trigger] paired(
                operands,
            )[i] == paired(more)[i - 1] by {
                assert(more[2 * (i - 1)] == operands[2 * i]);
                assert(more[2 * (i - 1) + 1] == operands[2 * i + 1]);
            }
        }
    }
}

/// Pairs that cannot be completed: an argument without a partner is missing it, and the first
/// address that is none gives its own reason, whatever comes after it.
pub proof fn law_broken_pairs(operands: Seq<ArgumentView>, tail: Seq<ArgumentView>)
    requires
        pairable(operands),
        tail.len() > 0,
        !dashed(tail[0].text),
    ensures
        ({
            let found = pairs_of(operands + tail);
            &&& tail.len() == 1 ==> (found matches Err(exit) && exit is MissingPair)
            &&& tail.len() > 1 ==> (tail[0].addr() matches Err(reason) ==> (found matches Err(exit) && exit == Exit::InvalidAddress(reason)))
            &&& tail.len() > 1 && tail[0].addr() is Ok ==> (tail[1].addr() matches Err(reason)
                ==> (found matches Err(exit) && exit == Exit::InvalidAddress(reason)))
        }),
{
    lemma_pairs_then(operands, tail);
}

/// One more tunnel: after any options, be there none, `--tunn` and an address add that address to
/// the tunnels, as the last of them, and change nothing else.
pub proof fn law_one_more_tunnel(
    before: Seq<ArgumentView>,
    option: ArgumentView,
    operand: ArgumentView,
)
    requires
        options_of(before) is Ok,
        word_of(option.text) == Word::Tunn,
        operand.addr() is Ok,
    ensures
        ({
            let was = options_of(before)->Ok_0;
            let line = before + seq![option, operand];
            &&& options_of(line) matches Ok(found) && found.tunn == was.tunn.push(
                operand.addr()->Ok_0,
            ) && found.route_table == was.route_table
            &&& parse_of(line) == options_of(line)
        }),
{
    let last = seq![option, operand];
    law_options_are_dashed(option.text);
    law_left_to_right(before, last);
    assert(last.skip(2) =~= Seq::empty());
    let was = options_of(before)->Ok_0;
    let one = ArgsView::one_tunn(operand.addr()->Ok_0);
    assert(options_of(Seq::empty()) == Ok::<_, Exit<Seq<char>>>(ArgsView::none()));
    assert(options_of(last) == Ok::<_, Exit<Seq<char>>>(one.and(ArgsView::none())));
    assert(was.and(one.and(ArgsView::none())).tunn =~= was.tunn.push(operand.addr()->Ok_0));
    assert(was.and(one.and(ArgsView::none())).route_table =~= was.route_table);
}

/// One more route table: after any options, be there none, `--route`, an address and arguments that
/// make pairs add one table, as the last of them, with that address and a pair for every two of
/// these arguments, at their places, and change nothing else.
pub proof fn law_one_more_route_table(
    before: Seq<ArgumentView>,
    option: ArgumentView,
    tunn: ArgumentView,
    operands: Seq<ArgumentView>,
)
    requires
        options_of(before) is Ok,
        word_of(option.text) == Word::Route,
        tunn.addr() is Ok,
        pairable(operands),
        operands.len() > 0,
    ensures
        ({
            let was = options_of(before)->Ok_0;
            let line = before + (seq![option, tunn] + operands);
            &&& parse_of(line) == options_of(line)
            &&& options_of(line) matches Ok(found) && {
                let table = found.route_table.last();
                &&& found.tunn == was.tunn
                &&& found.route_table == was.route_table.push(table)
                &&& table.tunn == tunn.addr()->Ok_0
                &&& 2 * table.pairs.len() == operands.len()
                &&& forall|i: int|
                    0 <= i < table.pairs.len() ==> #[trigger] table.pairs[i] == (
                        operands[2 * i].addr()->Ok_0,
                        operands[2 * i + 1].addr()->Ok_0,
                    )
            }
        }),
{
    let last = seq![option, tunn] + operands;
    law_options_are_dashed(option.text);
    law_left_to_right(before, last);
    assert(last[0] == option && last[1] == tunn);
    assert(last.skip(2) =~= operands + Seq::empty());
    law_every_two_are_a_pair(operands, Seq::empty());
    let pairs = pairs_of(last.skip(2))->Ok_0.0;
    let was = options_of(before)->Ok_0;
    let table = RouteTableView { tunn: tunn.addr()->Ok_0, pairs };
    let one = ArgsView::one_route(table);
    assert(options_of(Seq::empty()) == Ok::<_, Exit<Seq<char>>>(ArgsView::none()));
    assert(options_of(last) == Ok::<_, Exit<Seq<char>>>(one.and(ArgsView::none())));
    assert(was.and(one.and(ArgsView::none())).tunn =~= was.tunn);
    assert(was.and(one.and(ArgsView::none())).route_table =~= was.route_table.push(table));
}

/// An option that stands last is missing its operand.
pub proof fn law_missing_operand(before: Seq<ArgumentView>, option: ArgumentView)
    requires
        options_of(before) is Ok,
    ensures
        ({
            let found = parse_of(before + seq![option]);
            &&& word_of(option.text) == Word::Tunn ==> (found matches Err(exit) && exit is MissingTunn)
            &&& word_of(option.text) == Word::Route ==> (found matches Err(exit) && exit is MissingRoute)
        }),
{
    law_options_are_dashed(option.text);
    if dashed(option.text) {
        law_left_to_right(before, seq![option]);
    }
}

/// The first address after an option, where it is none, gives its own reason, whatever comes after
/// it.
pub proof fn law_bad_operand(
    before: Seq<ArgumentView>,
    option: ArgumentView,
    operand: ArgumentView,
    after: Seq<ArgumentView>,
    reason: Seq<char>,
)
    requires
        options_of(before) is Ok,
        word_of(option.text) == Word::Tunn || word_of(option.text) == Word::Route,
        operand.addr() == Err::<Seq<char>, Seq<char>>(reason),
    ensures
        parse_of(before + (seq![option, operand] + after)) == Err::<ArgsView, _>(
            Exit::InvalidAddress(reason),
        ),
{
    let last = seq![option, operand] + after;
    law_options_are_dashed(option.text);
    law_left_to_right(before, last);
    assert(last[0] == option && last[1] == operand);
}

/// A route table without a single pair is refused.
pub proof fn law_route_table_needs_a_pair(
    before: Seq<ArgumentView>,
    option: ArgumentView,
    tunn: ArgumentView,
    after: Seq<ArgumentView>,
)
    requires
        options_of(before) is Ok,
        word_of(option.text) == Word::Route,
        tunn.addr() is Ok,
        after.len() == 0 || dashed(after[0].text),
    ensures
        parse_of(before + (seq![option, tunn] + after)) matches Err(exit) && exit is EmptyRoute,
{
    let last = seq![option, tunn] + after;
    law_options_are_dashed(option.text);
    law_left_to_right(before, last);
    assert(last[0] == option && last[1] == tunn);
    assert(last.skip(2) =~= after);
}

/// A route table with a pair that cannot be completed is refused, for what is wrong with the pair:
/// the partner that is missing, or the first of its addresses that is none.
pub proof fn law_route_table_needs_whole_pairs(
    before: Seq<ArgumentView>,
    option: ArgumentView,
    tunn: ArgumentView,
    operands: Seq<ArgumentView>,
    tail: Seq<ArgumentView>,
)
    requires
        options_of(before) is Ok,
        word_of(option.text) == Word::Route,
        tunn.addr() is Ok,
        pairable(operands),
        tail.len() > 0,
        !dashed(tail[0].text),
    ensures
        ({
            let found = parse_of(before + (seq![option, tunn] + (operands + tail)));
            &&& tail.len() == 1 ==> (found matches Err(exit) && exit is MissingPair)
            &&& tail.len() > 1 ==> (tail[0].addr() matches Err(reason) ==> (found matches Err(exit) && exit == Exit::InvalidAddress(reason)))
            &&& tail.len() > 1 && tail[0].addr() is Ok ==> (tail[1].addr() matches Err(reason)
                ==> (found matches Err(exit) && exit == Exit::InvalidAddress(reason)))
        }),
{
    let last = seq![option, tunn] + (operands + tail);
    law_options_are_dashed(option.text);
    law_left_to_right(before, last);
    assert(last[0] == option && last[1] == tunn);
    assert(last.skip(2) =~= operands + tail);
    law_broken_pairs(operands, tail);
}

/// What is no option is refused with its own text where an option is awaited: at the very first,
/// and, where it begins with a dash, after any options.
pub proof fn law_unknown_argument_is_named(
    before: Seq<ArgumentView>,
    arg: ArgumentView,
    after: Seq<ArgumentView>,
)
    requires
        options_of(before) is Ok,
        word_of(arg.text) == Word::Unknown,
        before.len() == 0 || dashed(arg.text),
    ensures
        parse_of(before + (seq![arg] + after)) == Err::<ArgsView, _>(
            Exit::UnknownArgument(arg.text),
        ),
{
    let last = seq![arg] + after;
    assert(last[0] == arg);
    if before.len() == 0 {
        assert(before + last =~= last);
    } else {
        law_left_to_right(before, last);
    }
}

/// After the address of a tunnel an option is awaited too: whatever is none is refused with its own
/// text.
pub proof fn law_tunnel_takes_one_address(
    before: Seq<ArgumentView>,
    option: ArgumentView,
    operand: ArgumentView,
    arg: ArgumentView,
    after: Seq<ArgumentView>,
)
    requires
        options_of(before) is Ok,
        word_of(option.text) == Word::Tunn,
        operand.addr() is Ok,
        word_of(arg.text) == Word::Unknown,
    ensures
        parse_of(before + (seq![option, operand, arg] + after)) == Err::<ArgsView, _>(
            Exit::UnknownArgument(arg.text),
        ),
{
    let last = seq![option, operand, arg] + after;
    law_options_are_dashed(option.text);
    law_left_to_right(before, last);
    assert(last[0] == option && last[1] == operand);
    assert(last.skip(2)[0] == arg);
    assert(options_of(last.skip(2)) == Err::<ArgsView, _>(Exit::UnknownArgument(arg.text)));
}

/// An empty command line, and no other, has nothing to run; as options, none ask for nothing.
pub proof fn law_nothing_to_run(args: Seq<ArgumentView>)
    ensures
        parse_of(Seq::empty()) matches Err(exit) && exit is NothingToRun,
        (parse_of(args) matches Err(exit) && exit is NothingToRun) ==> args.len() == 0,
        options_of(Seq::empty()) matches Ok(found) && found.tunn.len() == 0
            && found.route_table.len() == 0,
{
    if args.len() > 0 {
        lemma_no_nothing(args);
    }
}

/// The options themselves never say that there is nothing to run, and some ask for something.
proof fn lemma_no_nothing(rest: Seq<ArgumentView>)
    requires
        rest.len() > 0,
    ensures
        match options_of(rest) {
            Ok(found) => found.tunn.len() > 0 || found.route_table.len() > 0,
            Err(exit) => !(exit is NothingToRun),
        },
    decreases rest.len(),
{
    if rest.len() > 1 {
        lemma_pairs_consume(rest.skip(2));
        lemma_pairs_say_what_is_wrong(rest.skip(2));
        if rest.len() > 2 {
            lemma_no_nothing(rest.skip(2));
        }
        if let Ok((_, after)) = pairs_of(rest.skip(2)) {
            if after.len() > 0 {
                lemma_no_nothing(after);
            }
        }
    }
}

/// Pairs never say that there is nothing to run.
proof fn lemma_pairs_say_what_is_wrong(rest: Seq<ArgumentView>)
    ensures
        pairs_of(rest) matches Err(exit) ==> !(exit is NothingToRun),
    decreases rest.len(),
{
    if rest.len() > 1 {
        lemma_pairs_say_what_is_wrong(rest.skip(2));
    }
}

/// What is printed: the help is the one that was given, the version is the program's name, number
/// and address, and an error says what is wrong. A reason and an argument are quoted whole, whatever
/// they are.
pub proof fn law_messages(text: Seq<char>, help: Seq<char>)
    ensures
        message_of(Exit::Help, help) == help,
        message_of(Exit::Version, help) == "tunrs 0.1.2 [https://github.com/nlkli/tunrs]"@,
        message_of(Exit::MissingTunn, help) == "error: --tunn requires <ADDR>"@,
        message_of(Exit::MissingRoute, help) == "error: --route requires <TUNN> <A> <B> [...]"@,
        message_of(Exit::MissingPair, help) == "error: --route requires pairs <A> <B>"@,
        message_of(Exit::EmptyRoute, help)
            == "error: --route requires at least one pair <A> <B>"@,
        message_of(Exit::NothingToRun, help) == "error: specify --tunn or --route"@,
        message_of(Exit::InvalidAddress(text), help).take(24) == "error: invalid address: "@,
        message_of(Exit::InvalidAddress(text), help).skip(24) == text,
        message_of(Exit::UnknownArgument(text), help).take(25) == "error: unknown argument '"@,
        message_of(Exit::UnknownArgument(text), help).skip(25) == text.push('\''),
{
    reveal_strlit("error: invalid address: ");
    reveal_strlit("error: unknown argument '");
    reveal_strlit("'");
    assert(message_of(Exit::InvalidAddress(text), help).take(24) =~= "error: invalid address: "@);
    assert(message_of(Exit::InvalidAddress(text), help).skip(24) =~= text);
    assert(message_of(Exit::UnknownArgument(text), help).take(25) =~= "error: unknown argument '"@);
    assert(message_of(Exit::UnknownArgument(text), help).skip(25) =~= text.push('\''));
}

/// A command line that is accepted asks for something to be run: it gives a tunnel or a route table,
/// and no route table is without a pair.
pub proof fn law_accepted_lines_can_be_run(args: Seq<ArgumentView>, found: ArgsView)
    requires
        parse_of(args) == Ok::<_, Exit<Seq<char>>>(found),
    ensures
        found.wf(),
        found.tunn.len() + found.route_table.len() > 0,
        forall|i: int|
            0 <= i < found.route_table.len() ==> (#[trigger] found.route_table[i]).pairs.len() > 0,
{
    lemma_options_wf(args);
}

/// The tunnels that a command line gives are the addresses after its `--tunn` options, all of them
/// and in their order: any number of such options, each with an argument that reads as an address,
/// bare ports among them, gives as many tunnels.
pub proof fn law_every_tunnel_is_kept(options: Seq<ArgumentView>, operands: Seq<ArgumentView>)
    requires
        options.len() == operands.len(),
        forall|i: int| 0 <= i < options.len() ==> word_of((#[trigger] options[i]).text) == Word::Tunn,
        forall|i: int| 0 <= i < operands.len() ==> (#[trigger] operands[i]).addr() is Ok,
    ensures
        options_of(interleaved(options, operands)) matches Ok(found) && found.tunn.len()
            == operands.len() && found.route_table.len() == 0 && forall|i: int|
            0 <= i < operands.len() ==> #[trigger] found.tunn[i] == operands[i].addr()->Ok_0,
    decreases options.len(),
{
    if options.len() > 0 {
        let before = interleaved(options.drop_last(), operands.drop_last());
        law_every_tunnel_is_kept(options.drop_last(), operands.drop_last());
        law_one_more_tunnel(before, options.last(), operands.last());
        let was = options_of(before)->Ok_0;
        let found = options_of(interleaved(options, operands))->Ok_0;
        assert forall|i: int| 0 <= i < operands.len() implies #[trigger] found.tunn[i]
            == operands[i].addr()->Ok_0 by {
            if i < operands.len() - 1 {
                assert(found.tunn[i] == was.tunn[i]);
                assert(operands.drop_last()[i] == operands[i]);
            }
        }
    }
}

/// Options and their operands, one after the other.
pub open spec fn interleaved(
    options: Seq<ArgumentView>,
    operands: Seq<ArgumentView>,
) -> Seq<ArgumentView>
    decreases options.len(),
{
    if options.len() == 0 {
        Seq::empty()
    } else {
        interleaved(options.drop_last(), operands.drop_last()) + seq![
            options.last(),
            operands.last(),
        ]
    }
}

/// What was asked for, the help or the version, goes to standard output and is no failure. All else
/// is an error, whatever it quotes: the status is one, and the message goes to standard error and
/// says so at its beginning.
pub proof fn law_errors_are_failures(exit: Exit<Seq<char>>, help: Seq<char>)
    ensures
        status_of(exit) == 0 || status_of(exit) == 1,
        status_of(exit) == 0 <==> goes_to_stdout(exit),
        goes_to_stdout(exit) <==> exit == Exit::<Seq<char>>::Help || exit == Exit::<
            Seq<char>,
        >::Version,
        !goes_to_stdout(exit) ==> message_of(exit, help).take(7) == "error: "@,
{
    reveal_strlit("error: ");
    reveal_strlit("error: --tunn requires <ADDR>");
    reveal_strlit("error: --route requires <TUNN> <A> <B> [...]");
    reveal_strlit("error: --route requires pairs <A> <B>");
    reveal_strlit("error: --route requires at least one pair <A> <B>");
    reveal_strlit("error: invalid address: ");
    reveal_strlit("error: unknown argument '");
    reveal_strlit("error: specify --tunn or --route");
    if !goes_to_stdout(exit) {
        assert(message_of(exit, help).take(7) =~= "error: "@);
    }
}

} // verus!
