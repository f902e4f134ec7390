//! What a program runs, and how it keeps it running.
use vstd::prelude::*;

use crate::cli::{Args, ArgsView, RouteTable, RouteTableView};

verus! {

/// How long, in seconds, to wait before something that ended is started again.
pub const RECONNECT_SECS: u64 = 6;

/// Something to keep running.
#[derive(Debug, PartialEq, Eq)]
pub enum Task<R, T> {
    /// A server with its routes.
    Server(R),
    /// A tunnel to a server.
    Tunnel(T),
}

impl View for Task<RouteTable, String> {
    type V = Task<RouteTableView, Seq<char>>;

    open spec fn view(&self) -> Task<RouteTableView, Seq<char>> {
        match *self {
            Task::Server(table) => Task::Server(table@),
            Task::Tunnel(addr) => Task::Tunnel(addr@),
        }
    }
}

/// What to keep running for a command line: its servers, then its tunnels, each in the order in
/// which they were asked for.
pub open spec fn tasks_of(args: ArgsView) -> Seq<Task<RouteTableView, Seq<char>>> {
    args.route_table.map_values(|t: RouteTableView| Task::<_, Seq<char>>::Server(t))
        + args.tunn.map_values(|a: Seq<char>| Task::<RouteTableView, _>::Tunnel(a))
}

/// A program is a server when routes are provided and a tunnel when a tunnel address is, and may
/// be both; a command line that asks for something to be run always has at least one task.
pub proof fn law_modes(args: ArgsView)
    ensures
        (exists|i: int| 0 <= i < tasks_of(args).len() && #[trigger] tasks_of(args)[i] is Server)
            <==> args.route_table.len() > 0,
        (exists|i: int| 0 <= i < tasks_of(args).len() && #[trigger] tasks_of(args)[i] is Tunnel)
            <==> args.tunn.len() > 0,
        args.wf() ==> tasks_of(args).len() > 0,
{
    let servers = args.route_table.len() as int;
    if servers > 0 {
        assert(tasks_of(args)[0] is Server);
    }
    if args.tunn.len() > 0 {
        assert(tasks_of(args)[servers] is Tunnel);
    }
}

/// What to keep running for a command line.
pub fn tasks(args: Args) -> (tasks: Vec<Task<RouteTable, String>>)
    ensures
        tasks@.map_values(|t: Task<RouteTable, String>| t@) == tasks_of(args@),
        tasks@.len() == args.route_table@.len() + args.tunn@.len(),
        forall|i: int|
            0 <= i < args.route_table@.len() ==> (#[trigger] tasks@[i])@ == Task::<
                RouteTableView,
                Seq<char>,
            >::Server(args.route_table@[i]@),
        forall|j: int|
            args.route_table@.len() <= j < tasks@.len() ==> (#[trigger] tasks@[j])@ == Task::<
                RouteTableView,
                Seq<char>,
            >::Tunnel(args.tunn@[j - args.route_table@.len()]@),
{
    let ghost servers = args@.route_table.map_values(
        |t: RouteTableView| Task::<_, Seq<char>>::Server(t),
    );
    let ghost tunnels = args@.tunn.map_values(|a: Seq<char>| Task::<RouteTableView, _>::Tunnel(a));
    let Args { tunn, route_table } = args;
    let mut tasks: Vec<Task<RouteTable, String>> = Vec::new();
    for table in it: route_table
        invariant
            it.seq() == route_table@,
            servers == route_table@.map_values(
                |t: RouteTable| Task::<RouteTableView, Seq<char>>::Server(t@),
            ),
            tasks@.map_values(|t: Task<RouteTable, String>| t@) == servers.take(it.index()),
    {
        let ghost before = tasks@;
        tasks.push(Task::Server(table));
        assert(tasks@.map_values(|t: Task<RouteTable, String>| t@) =~= before.map_values(
            |t: Task<RouteTable, String>| t@,
        ).push(Task::Server(table@)));
    }
    assert(servers.take(servers.len() as int) =~= servers);
    for addr in it: tunn
        invariant
            it.seq() == tunn@,
            tunnels == tunn@.map_values(
                |a: String| Task::<RouteTableView, Seq<char>>::Tunnel(a@),
            ),
            tasks@.map_values(|t: Task<RouteTable, String>| t@) == servers + tunnels.take(
                it.index(),
            ),
    {
        let ghost before = tasks@;
        tasks.push(Task::Tunnel(addr));
        assert(tasks@.map_values(|t: Task<RouteTable, String>| t@) =~= before.map_values(
            |t: Task<RouteTable, String>| t@,
        ).push(Task::Tunnel(addr@)));
    }
    assert(tunnels.take(tunnels.len() as int) =~= tunnels);
    proof {
        let seen = tasks@.map_values(|t: Task<RouteTable, String>| t@);
        assert forall|i: int| 0 <= i < tasks@.len() implies (#[trigger] tasks@[i])@ == seen[i] by {
        }
    }
    tasks
}

/// Where a task stands that is kept running.
#[derive(Clone, Copy, Debug, PartialEq, Eq, Structural)]
pub enum Watch {
    /// It is being run, for the time given.
    Running { attempt: i32 },
    /// It has ended, be it well or not, and is left alone for a while.
    Resting { attempt: i32 },
}

/// What to do for a task that is kept running.
#[derive(Clone, Copy, Debug, PartialEq, Eq, Structural)]
pub enum WatchRequest {
    /// Run it until it ends.
    Run,
    /// Wait for this many seconds.
    Wait(u64),
}

/// What to do for a task that is kept running.
pub open spec fn watch_request(watch: Watch) -> WatchRequest {
    match watch {
        Watch::Running { .. } => WatchRequest::Run,
        Watch::Resting { .. } => WatchRequest::Wait(RECONNECT_SECS),
    }
}

/// Where a task stands once what was to be done for it has been done: running and waiting take
/// turns, and each run is counted.
pub open spec fn watch_step(watch: Watch) -> Watch {
    match watch {
        Watch::Running { attempt } => Watch::Resting { attempt },
        Watch::Resting { attempt } => Watch::Running { attempt: (attempt + 1) as i32 },
    }
}

/// Where a task stands after a number of steps.
pub open spec fn watch_run(steps: nat) -> Watch
    decreases steps,
{
    if steps == 0 {
        Watch::Running { attempt: 1 }
    } else {
        watch_step(watch_run((steps - 1) as nat))
    }
}

/// A task is run again and again, with a rest between one run and the next, and the runs are
/// numbered from one on.
pub proof fn law_tasks_are_restarted(runs: nat)
    requires
        0 < runs <= i32::MAX,
    ensures
        watch_run((2 * runs - 2) as nat) == (Watch::Running { attempt: runs as i32 }),
        watch_run((2 * runs - 1) as nat) == (Watch::Resting { attempt: runs as i32 }),
    decreases runs,
{
    if runs > 1 {
        law_tasks_are_restarted((runs - 1) as nat);
    }
    assert(watch_run((2 * runs - 1) as nat) == watch_step(watch_run((2 * runs - 2) as nat)));
}

impl Watch {
    /// How many times it has been run, this time included.
    pub open spec fn runs(self) -> int {
        match self {
            Watch::Running { attempt } => attempt as int,
            Watch::Resting { attempt } => attempt as int,
        }
    }

    /// A task to be run for the first time.
    pub fn new() -> (watch: Watch)
        ensures
            watch == watch_run(0),
    {
        Watch::Running { attempt: 1 }
    }

    /// What to do next: there is always something.
    pub fn request(&self) -> (request: WatchRequest)
        ensures
            request == match *self {
                Watch::Running { .. } => WatchRequest::Run,
                Watch::Resting { .. } => WatchRequest::Wait(RECONNECT_SECS),
            },
            request == watch_request(*self),
    {
        match self {
            Watch::Running { .. } => WatchRequest::Run,
            Watch::Resting { .. } => WatchRequest::Wait(RECONNECT_SECS),
        }
    }

    /// Where things stand once that has been done.
    pub fn step(self) -> (next: Watch)
        requires
            self is Resting ==> self.runs() < i32::MAX,
        ensures
            next == watch_step(self),
            next.runs() == self.runs() + if self is Resting {
                1int
            } else {
                0int
            },
    {
        match self {
            Watch::Running { attempt } => Watch::Resting { attempt },
            Watch::Resting { attempt } => Watch::Running { attempt: attempt + 1 },
        }
    }
}

/// Everything that a command line asks for is run, once and whole: there is a task for each route
/// table and each tunnel and no other, a server's task has the whole of its table, and a tunnel's
/// has its address.
pub proof fn law_everything_is_run(args: ArgsView)
    ensures
        tasks_of(args).len() == args.route_table.len() + args.tunn.len(),
        forall|i: int|
            0 <= i < args.route_table.len() ==> #[trigger] tasks_of(args)[i] == Task::<
                RouteTableView,
                Seq<char>,
            >::Server(args.route_table[i]),
        forall|j: int|
            args.route_table.len() <= j < tasks_of(args).len() ==> #[trigger] tasks_of(args)[j]
                == Task::<RouteTableView, Seq<char>>::Tunnel(
                args.tunn[j - args.route_table.len()],
            ),
{
}

/// A task in the model is the task with its texts: nothing of the table or the address is lost.
pub proof fn law_task_view(table: RouteTable, addr: String)
    ensures
        Task::<RouteTable, String>::Server(table)@ == Task::<RouteTableView, Seq<char>>::Server(
            table@,
        ),
        Task::<RouteTable, String>::Tunnel(addr)@ == Task::<RouteTableView, Seq<char>>::Tunnel(
            addr@,
        ),
{
}

/// Running and resting take turns, and only after a rest, of six seconds, is there another run, with
/// the next number.
pub proof fn law_runs_and_rests_take_turns(attempt: i32)
    requires
        attempt < i32::MAX,
    ensures
        watch_request(Watch::Running { attempt }) == WatchRequest::Run,
        watch_request(Watch::Resting { attempt }) == WatchRequest::Wait(6),
        watch_step(Watch::Running { attempt }) == (Watch::Resting { attempt }),
        watch_step(Watch::Resting { attempt }) is Running,
        watch_step(Watch::Resting { attempt }).runs() == attempt + 1,
{
}

} // verus!
