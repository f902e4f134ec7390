//! The command line.
use vstd::prelude::*;

use crate::addr;
use crate::grammar;
use crate::text;

verus! {

/// What `--version` prints.
pub const VERSION: &'static str = "tunrs 0.1.2 [https://github.com/nlkli/tunrs]";

/// What `--help` prints where addresses are taken as they stand.
pub const HELP: &'static str = r#"
tunrs - lightweight tcp tunnel/mux proxy

https://github.com/nlkli/tunrs

OPTIONS:
    -t, --tunn <ADDR>...
        remote tunnel address (client mode, repeatable)

    -r, --route <TUNN> <A> <B> [<A> <B> ...]
        route table: tunnel + one or more address pairs
        incoming conn -> <A> -> <TUNN> -> <B>

    -h, --help
    -V, --version

EXAMPLES:
    # client mode
    tunrs --tunn 1.2.3.4:9000

    # server mode
    tunrs \
        --route 0.0.0.0:9000 \
            3000           10.0.0.1:80 \
            127.0.0.1:4000 22
"#;

/// What `--help` prints where addresses have to be socket addresses.
pub const SOCKET_HELP: &'static str = r#"
tunrs - lightweight tcp tunnel/mux proxy

https://github.com/nlkli/tunrs

OPTIONS:
    -t, --tunn <ADDR>...
        remote tunnel address (client mode, repeatable)

    -r, --route <TUNN> <A> <B> [<A> <B> ...]
        route table: tunnel + one or more address pairs

    -h, --help
    -V, --version

EXAMPLES:
    # client mode
    tunrs --tunn 1.2.3.4:9000

    # server mode
    tunrs \
        --route 0.0.0.0:9000 \
            127.0.0.1:3000 10.0.0.1:80 \
            127.0.0.1:4000 10.0.0.2:443
"#;

/// The routes of one server: the address for its control connection, and for each route the
/// address to listen on and the address to connect to at the other end of the tunnel.
#[derive(Debug, Default, PartialEq, Eq)]
pub struct RouteTable {
    pub tunn: String,
    pub pairs: Vec<[String; 2]>,
}

/// What the command line asks for: the servers to connect tunnels to, and the servers to run.
#[derive(Debug, Default, PartialEq, Eq)]
pub struct Args {
    pub tunn: Vec<String>,
    pub route_table: Vec<RouteTable>,
}

/// One argument of the command line, together with the reading that it has as an address where it
/// is no bare port. The reading is the caller's: this crate has no part in networking, and does not
/// know which texts spell socket addresses.
#[derive(Debug, PartialEq, Eq)]
pub struct Argument {
    pub text: String,
    pub reading: Result<String, String>,
}

/// Why a command line asks for nothing to be run.
#[derive(Debug, PartialEq, Eq)]
pub enum Exit<T> {
    /// The help was asked for.
    Help,
    /// The version was asked for.
    Version,
    /// `--tunn` stands last.
    MissingTunn,
    /// `--route` stands last.
    MissingRoute,
    /// The last address of a route table has no partner.
    MissingPair,
    /// A route table has no pairs.
    EmptyRoute,
    /// What should be an address is none, for the reason given.
    InvalidAddress(T),
    /// There is no such option.
    UnknownArgument(T),
    /// There is neither a tunnel nor a route table.
    NothingToRun,
}

/// What an argument in the place of an option means.
#[derive(Clone, Copy, Debug, PartialEq, Eq, Structural)]
pub enum Word {
    Tunn,
    Route,
    Help,
    Version,
    Unknown,
}

/// A route table, as sequences.
#[verifier::ext_equal]
pub struct RouteTableView {
    pub tunn: Seq<char>,
    pub pairs: Seq<(Seq<char>, Seq<char>)>,
}

/// What a command line asks for, as sequences.
#[verifier::ext_equal]
pub struct ArgsView {
    pub tunn: Seq<Seq<char>>,
    pub route_table: Seq<RouteTableView>,
}

/// An argument, as sequences.
#[verifier::ext_equal]
pub struct ArgumentView {
    pub text: Seq<char>,
    pub reading: Result<Seq<char>, Seq<char>>,
}

impl View for RouteTable {
    type V = RouteTableView;

    open spec fn view(&self) -> RouteTableView {
        RouteTableView { tunn: self.tunn@, pairs: pairs_view(self.pairs@) }
    }
}

impl View for Args {
    type V = ArgsView;

    open spec fn view(&self) -> ArgsView {
        ArgsView {
            tunn: self.tunn@.map_values(|t: String| t@),
            route_table: self.route_table@.map_values(|t: RouteTable| t@),
        }
    }
}

impl View for Argument {
    type V = ArgumentView;

    open spec fn view(&self) -> ArgumentView {
        ArgumentView { text: self.text@, reading: addr::view_of(self.reading) }
    }
}

impl View for Exit<String> {
    type V = Exit<Seq<char>>;

    open spec fn view(&self) -> Exit<Seq<char>> {
        match *self {
            Exit::Help => Exit::Help,
            Exit::Version => Exit::Version,
            Exit::MissingTunn => Exit::MissingTunn,
            Exit::MissingRoute => Exit::MissingRoute,
            Exit::MissingPair => Exit::MissingPair,
            Exit::EmptyRoute => Exit::EmptyRoute,
            Exit::InvalidAddress(reason) => Exit::InvalidAddress(reason@),
            Exit::UnknownArgument(arg) => Exit::UnknownArgument(arg@),
            Exit::NothingToRun => Exit::NothingToRun,
        }
    }
}

/// Pairs of addresses, as sequences.
pub open spec fn pairs_view(pairs: Seq<[String; 2]>) -> Seq<(Seq<char>, Seq<char>)> {
    pairs.map_values(|p: [String; 2]| (p@[0]@, p@[1]@))
}

/// Arguments, as sequences.
pub open spec fn arguments_view(args: Seq<Argument>) -> Seq<ArgumentView> {
    args.map_values(|a: Argument| a@)
}

/// A result of reading a command line, as sequences.
pub open spec fn outcome_view(outcome: Result<Args, Exit<String>>) -> Result<
    ArgsView,
    Exit<Seq<char>>,
> {
    match outcome {
        Ok(args) => Ok(args@),
        Err(exit) => Err(exit@),
    }
}

/// The address that a text stands for where addresses are taken as they stand: that of a bare port
/// on every interface, and the text itself otherwise. This never fails.
pub fn parse_addr(s: String) -> (addr: Result<String, String>)
    ensures
        addr matches Ok(a) && Ok::<Seq<char>, Seq<char>>(a@) == addr::addr_of(s@, Ok(s@)),
{
    let reading = Ok(s.clone());
    addr::parse_addr(s, reading)
}

/// What an argument in the place of an option means.
fn word(s: &str) -> (word: Word)
    ensures
        word == grammar::word_of(s@),
{
    if text::same_text(s, "--tunn") || text::same_text(s, "-t") {
        Word::Tunn
    } else if text::same_text(s, "--route") || text::same_text(s, "-r") {
        Word::Route
    } else if text::same_text(s, "--help") || text::same_text(s, "-h") {
        Word::Help
    } else if text::same_text(s, "--version") || text::same_text(s, "-V") {
        Word::Version
    } else {
        Word::Unknown
    }
}

/// Whether an argument begins with a dash.
fn is_dashed(s: &str) -> (yes: bool)
    ensures
        yes == grammar::dashed(s@),
{
    !s.is_empty() && s.get_char(0) == '-'
}

impl Argument {
    /// An argument that is taken as an address as it stands.
    pub fn verbatim(text: &String) -> (arg: Argument)
        ensures
            arg@ == grammar::as_it_stands(text@),
    {
        Argument { text: text.clone(), reading: Ok(text.clone()) }
    }

    /// The address that the argument stands for.
    fn addr(&self) -> (addr: Result<String, Exit<String>>)
        ensures
            match addr {
                Ok(a) => self@.addr() == Ok::<Seq<char>, Seq<char>>(a@),
                Err(exit) => exit@ is InvalidAddress && self@.addr() == Err::<Seq<char>, Seq<char>>(
                    exit@->InvalidAddress_0,
                ),
            },
    {
        let reading = match &self.reading {
            Ok(addr) => Ok(addr.clone()),
            Err(reason) => Err(reason.clone()),
        };
        match addr::parse_addr(self.text.clone(), reading) {
            Ok(addr) => Ok(addr),
            Err(reason) => Err(Exit::InvalidAddress(reason)),
        }
    }
}

/// The pairs of addresses from the argument at `from` on, and where the arguments after them begin.
fn read_pairs(args: &Vec<Argument>, from: usize) -> (found: Result<
    (Vec<[String; 2]>, usize),
    Exit<String>,
>)
    requires
        from <= args@.len(),
    ensures
        match found {
            Ok((pairs, after)) => from <= after <= args@.len() && grammar::pairs_of(
                arguments_view(args@).skip(from as int),
            ) == Ok::<_, Exit<Seq<char>>>(
                (pairs_view(pairs@), arguments_view(args@).skip(after as int)),
            ),
            Err(exit) => grammar::pairs_of(arguments_view(args@).skip(from as int)) == Err::<
                (Seq<(Seq<char>, Seq<char>)>, Seq<ArgumentView>),
                _,
            >(exit@),
        },
{
    let ghost all = arguments_view(args@);
    let mut pairs: Vec<[String; 2]> = Vec::new();
    let mut i: usize = from;
    assert(pairs_view(pairs@) =~= Seq::empty());
    proof {
        grammar::lemma_more_pairs_none(grammar::pairs_of(all.skip(i as int)));
    }
    while i < args.len() && !is_dashed(args[i].text.as_str())
        invariant
            all == arguments_view(args@),
            from <= i <= args@.len(),
            grammar::pairs_of(all.skip(from as int)) == grammar::more_pairs(
                pairs_view(pairs@),
                grammar::pairs_of(all.skip(i as int)),
            ),
        decreases args@.len() - i,
    {
        let ghost rest = all.skip(i as int);
        assert(rest[0] == args@[i as int]@);
        if i + 1 == args.len() {
            return Err(Exit::MissingPair);
        }
        assert(rest[1] == args@[i + 1]@);
        let a = match args[i].addr() {
            Ok(a) => a,
            Err(exit) => {
                return Err(exit);
            },
        };
        let b = match args[i + 1].addr() {
            Ok(b) => b,
            Err(exit) => {
                return Err(exit);
            },
        };
        proof {
            assert(rest.skip(2) =~= all.skip(i + 2));
            grammar::lemma_more_pairs(
                pairs_view(pairs@),
                seq![(a@, b@)],
                grammar::pairs_of(all.skip(i + 2)),
            );
        }
        let ghost before = pairs@;
        pairs.push([a, b]);
        assert(pairs_view(pairs@) =~= pairs_view(before) + seq![(a@, b@)]);
        i = i + 2;
    }
    assert(pairs_view(pairs@) + Seq::empty() =~= pairs_view(pairs@));
    Ok((pairs, i))
}

impl Args {
    /// What a command line asks for, without the name of the program, where addresses are taken as
    /// they stand.
    pub fn parse(args: &Vec<String>) -> (outcome: Result<Args, Exit<String>>)
        ensures
            outcome_view(outcome) == grammar::parse_of(
                grammar::verbatim(args@.map_values(|t: String| t@)),
            ),
            outcome matches Ok(found) ==> found@.wf(),
    {
        let ghost texts = args@.map_values(|t: String| t@);
        let mut taken: Vec<Argument> = Vec::new();
        let mut i: usize = 0;
        while i < args.len()
            invariant
                i <= args@.len(),
                texts == args@.map_values(|t: String| t@),
                arguments_view(taken@) == grammar::verbatim(texts.take(i as int)),
            decreases args@.len() - i,
        {
            let ghost before = taken@;
            taken.push(Argument::verbatim(&args[i]));
            assert(arguments_view(taken@) =~= arguments_view(before).push(taken@.last()@));
            assert(grammar::verbatim(texts.take(i + 1)) =~= grammar::verbatim(
                texts.take(i as int),
            ).push(taken@.last()@));
            i = i + 1;
        }
        assert(texts.take(i as int) =~= texts);
        Args::parse_resolved(&taken)
    }

    /// What a command line asks for, without the name of the program, where each argument comes
    /// with its reading as an address.
    pub fn parse_resolved(args: &Vec<Argument>) -> (outcome: Result<Args, Exit<String>>)
        ensures
            outcome_view(outcome) == grammar::parse_of(arguments_view(args@)),
            outcome matches Ok(found) ==> found@.wf(),
    {
        let ghost all = arguments_view(args@);
        let mut res = Args { tunn: Vec::new(), route_table: Vec::new() };
        let mut i: usize = 0;
        proof {
            assert(res@ =~= ArgsView::none());
            assert(all.skip(0) =~= all);
            grammar::lemma_more_args_none(grammar::options_of(all));
            grammar::lemma_options_wf(all);
        }
        while i < args.len()
            invariant
                all == arguments_view(args@),
                i <= args@.len(),
                grammar::options_of(all) == grammar::more_args(
                    res@,
                    grammar::options_of(all.skip(i as int)),
                ),
            decreases args@.len() - i,
        {
            let ghost rest = all.skip(i as int);
            let ghost before = res@;
            assert(rest[0] == args@[i as int]@);
            match word(args[i].text.as_str()) {
                Word::Tunn => {
                    if i + 1 == args.len() {
                        return Err(Exit::MissingTunn);
                    }
                    assert(rest[1] == args@[i + 1]@);
                    let addr = match args[i + 1].addr() {
                        Ok(addr) => addr,
                        Err(exit) => {
                            return Err(exit);
                        },
                    };
                    proof {
                        assert(rest.skip(2) =~= all.skip(i + 2));
                        grammar::lemma_more_args(
                            before,
                            ArgsView::one_tunn(addr@),
                            grammar::options_of(all.skip(i + 2)),
                        );
                    }
                    res.tunn.push(addr);
                    assert(res@ =~= before.and(ArgsView::one_tunn(addr@)));
                    i = i + 2;
                },
                Word::Route => {
                    if i + 1 == args.len() {
                        return Err(Exit::MissingRoute);
                    }
                    assert(rest[1] == args@[i + 1]@);
                    assert(rest.skip(2) =~= all.skip(i + 2));
                    let tunn = match args[i + 1].addr() {
                        Ok(tunn) => tunn,
                        Err(exit) => {
                            return Err(exit);
                        },
                    };
                    let (pairs, after) = match read_pairs(args, i + 2) {
                        Ok(found) => found,
                        Err(exit) => {
                            return Err(exit);
                        },
                    };
                    if pairs.is_empty() {
                        return Err(Exit::EmptyRoute);
                    }
                    let table = RouteTable { tunn, pairs };
                    proof {
                        grammar::lemma_more_args(
                            before,
                            ArgsView::one_route(table@),
                            grammar::options_of(all.skip(after as int)),
                        );
                    }
                    res.route_table.push(table);
                    assert(res@ =~= before.and(ArgsView::one_route(table@)));
                    i = after;
                },
                Word::Help => {
                    return Err(Exit::Help);
                },
                Word::Version => {
                    return Err(Exit::Version);
                },
                Word::Unknown => {
                    return Err(Exit::UnknownArgument(args[i].text.clone()));
                },
            }
        }
        assert(res@.and(ArgsView::none()) =~= res@);
        if res.tunn.is_empty() && res.route_table.is_empty() {
            return Err(Exit::NothingToRun);
        }
        Ok(res)
    }
}

impl Exit<String> {
    /// The status that the program exits with.
    pub fn status(&self) -> (status: i32)
        ensures
            status == if self@ is Help || self@ is Version {
                0int
            } else {
                1int
            },
            status == grammar::status_of(self@),
    {
        match self {
            Exit::Help | Exit::Version => 0,
            _ => 1,
        }
    }

    /// Whether the message goes to standard output; otherwise it goes to standard error.
    pub fn on_stdout(&self) -> (yes: bool)
        ensures
            yes == (self@ is Help || self@ is Version),
            yes == grammar::goes_to_stdout(self@),
    {
        match self {
            Exit::Help | Exit::Version => true,
            _ => false,
        }
    }

    /// What the program prints before it exits, given its help.
    pub fn message(&self, help: &str) -> (message: String)
        ensures
            message@ == grammar::message_of(self@, help@),
    {
        match self {
            Exit::Help => help.to_owned(),
            Exit::Version => VERSION.to_owned(),
            Exit::MissingTunn => "error: --tunn requires <ADDR>".to_owned(),
            Exit::MissingRoute => "error: --route requires <TUNN> <A> <B> [...]".to_owned(),
            Exit::MissingPair => "error: --route requires pairs <A> <B>".to_owned(),
            Exit::EmptyRoute => "error: --route requires at least one pair <A> <B>".to_owned(),
            Exit::InvalidAddress(reason) => "error: invalid address: ".to_owned().concat(
                reason.as_str(),
            ),
            Exit::UnknownArgument(arg) => "error: unknown argument '".to_owned().concat(
                arg.as_str(),
            ).concat("'"),
            Exit::NothingToRun => "error: specify --tunn or --route".to_owned(),
        }
    }
}

/// A route table in the model is the table itself: its control address, and for every pair, at its
/// place, the address to listen on and then the one to connect to.
pub proof fn law_route_table_view(table: RouteTable, i: int)
    requires
        0 <= i < table.pairs@.len(),
    ensures
        table@.tunn == table.tunn@,
        table@.pairs.len() == table.pairs@.len(),
        table@.pairs[i].0 == table.pairs@[i]@[0]@,
        table@.pairs[i].1 == table.pairs@[i]@[1]@,
{
}

/// What was asked for, in the model, is each tunnel and each route table at its place.
pub proof fn law_args_view(args: Args, i: int)
    ensures
        args@.tunn.len() == args.tunn@.len(),
        0 <= i < args.tunn@.len() ==> args@.tunn[i] == args.tunn@[i]@,
        args@.route_table.len() == args.route_table@.len(),
        0 <= i < args.route_table@.len() ==> args@.route_table[i] == args.route_table@[i]@,
{
}

/// An argument in the model has the text and the reading of the argument, and arguments are all
/// there, each at its place.
pub proof fn law_arguments_view(args: Seq<Argument>, i: int)
    requires
        0 <= i < args.len(),
    ensures
        arguments_view(args).len() == args.len(),
        arguments_view(args)[i].text == args[i].text@,
        match args[i].reading {
            Ok(addr) => arguments_view(args)[i].reading == Ok::<Seq<char>, Seq<char>>(addr@),
            Err(reason) => arguments_view(args)[i].reading == Err::<Seq<char>, Seq<char>>(reason@),
        },
{
}

/// The result of reading a command line, in the model, is that result: what was asked for, or the
/// same reason with the same text.
pub proof fn law_outcome_view(args: Args, text: String)
    ensures
        outcome_view(Ok(args)) == Ok::<_, Exit<Seq<char>>>(args@),
        outcome_view(Err(Exit::InvalidAddress(text))) == Err::<ArgsView, _>(
            Exit::InvalidAddress(text@),
        ),
        outcome_view(Err(Exit::UnknownArgument(text))) == Err::<ArgsView, _>(
            Exit::UnknownArgument(text@),
        ),
        Exit::<String>::Help@ is Help,
        Exit::<String>::Version@ is Version,
        Exit::<String>::MissingTunn@ is MissingTunn,
        Exit::<String>::MissingRoute@ is MissingRoute,
        Exit::<String>::MissingPair@ is MissingPair,
        Exit::<String>::EmptyRoute@ is EmptyRoute,
        Exit::<String>::NothingToRun@ is NothingToRun,
{
}

} // verus!
