//! The command line.

use crate::text::{decimal, decimal_text, same_text, strip_prefix, views, without_prefix};
use vstd::prelude::*;
use vstd::string::*;

verus! {

/// The argument asks for a bind address.
pub open spec fn is_host_flag(arg: Seq<char>) -> bool {
    arg == "--host"@ || "--host="@.is_prefix_of(arg)
}

/// The position of the first `launch` from `i` on, or the number of arguments.
pub open spec fn launch_from(args: Seq<Seq<char>>, i: int) -> int
    decreases args.len() - i,
{
    if i >= args.len() {
        args.len() as int
    } else if args[i] == "launch"@ {
        i
    } else {
        launch_from(args, i + 1)
    }
}

/// The position of the first argument in `i..stop` that asks for a bind address.
pub open spec fn host_flag_from(args: Seq<Seq<char>>, i: int, stop: int) -> Option<int>
    decreases stop - i,
{
    if i >= stop {
        None
    } else if is_host_flag(args[i]) {
        Some(i)
    } else {
        host_flag_from(args, i + 1, stop)
    }
}

/// The position of the argument that gives the bind address: it stands after the
/// program's name and before any `launch`.
pub open spec fn host_flag(args: Seq<Seq<char>>) -> Option<int> {
    host_flag_from(args, 1, launch_from(args, 0))
}

/// The bind address that the arguments give, and the arguments that are left.
pub open spec fn without_host(args: Seq<Seq<char>>) -> (Option<Seq<char>>, Seq<Seq<char>>) {
    match host_flag(args) {
        None => (None, args),
        Some(i) => if args[i] == "--host"@ {
            if i + 1 < args.len() {
                (Some(args[i + 1]), args.remove(i).remove(i))
            } else {
                (None, args.remove(i))
            }
        } else {
            (without_prefix(args[i], "--host="@), args.remove(i))
        },
    }
}

proof fn lemma_launch_from(args: Seq<Seq<char>>, i: int)
    requires
        0 <= i <= args.len(),
    ensures
        i <= launch_from(args, i) <= args.len(),
        launch_from(args, i) < args.len() ==> args[launch_from(args, i)] == "launch"@,
    decreases args.len() - i,
{
    if i < args.len() && args[i] != "launch"@ {
        lemma_launch_from(args, i + 1);
    }
}

proof fn lemma_host_flag_from(args: Seq<Seq<char>>, i: int, stop: int)
    ensures
        host_flag_from(args, i, stop) matches Some(at) ==> i <= at < stop && is_host_flag(args[at]),
    decreases stop - i,
{
    if i < stop && !is_host_flag(args[i]) {
        lemma_host_flag_from(args, i + 1, stop);
    }
}

fn find_launch(args: &Vec<String>) -> (stop: usize)
    ensures
        stop == launch_from(views(args@), 0),
        stop <= args@.len(),
{
    let mut i: usize = 0;
    while i < args.len()
        invariant
            i <= args@.len(),
            launch_from(views(args@), 0) == launch_from(views(args@), i as int),
        decreases args@.len() - i,
    {
        if same_text(args[i].as_str(), "launch") {
            return i;
        }
        i += 1;
    }
    i
}

/// Takes the bind address, given as `--host VALUE` or `--host=VALUE`, out of the
/// arguments. What follows `launch` belongs to the launched command.
pub fn extract_host(args: &mut Vec<String>) -> (host: Option<String>)
    ensures
        crate::text::opt_view(host) == without_host(views(old(args)@)).0,
        views(final(args)@) == without_host(views(old(args)@)).1,
{
    let ghost all = views(args@);
    let stop = find_launch(args);
    let mut i: usize = 1;
    while i < stop
        invariant
            1 <= i,
            stop <= args@.len(),
            all == views(args@),
            all == views(old(args)@),
            stop == launch_from(all, 0),
            host_flag(all) == host_flag_from(all, i as int, stop as int),
        decreases stop - i,
    {
        assert(all[i as int] == args@[i as int]@);
        if same_text(args[i].as_str(), "--host") {
            args.remove(i);
            assert(views(args@) =~= all.remove(i as int));
            if i < args.len() {
                let value = args.remove(i);
                assert(views(args@) =~= all.remove(i as int).remove(i as int));
                return Some(value);
            }
            return None;
        }
        if let Some(value) = strip_prefix(args[i].as_str(), "--host=") {
            args.remove(i);
            assert(views(args@) =~= all.remove(i as int));
            return Some(value);
        }
        i += 1;
    }
    None
}

/// What follows `launch` is left alone, and so is the program's name. `launch`
/// itself is left too, unless it stands where the bind address is expected.
pub proof fn law_launched_command_is_untouched(args: Seq<Seq<char>>)
    requires
        launch_from(args, 0) < args.len(),
    ensures
        ({
            let at = launch_from(args, 0);
            let left = without_host(args).1;
            let taken = args.len() - left.len();
            let as_address = host_flag(args) == Some(at - 1) && args[at - 1] == "--host"@;
            &&& 0 <= taken <= at
            &&& left[0] == args[0]
            &&& left.skip(at + 1 - taken) == args.skip(at + 1)
            &&& !as_address ==> left[at - taken] == "launch"@
        }),
{
    let at = launch_from(args, 0);
    lemma_launch_from(args, 0);
    lemma_host_flag_from(args, 1, at);
    let left = without_host(args).1;
    assert(left.skip(at + 1 - (args.len() - left.len())) =~= args.skip(at + 1));
}

/// Without a bind address among them the arguments stay as they are.
pub proof fn law_no_host_no_change(args: Seq<Seq<char>>)
    requires
        host_flag(args) is None,
    ensures
        without_host(args) == (None::<Seq<char>>, args),
{
}

/// What the program is asked to do.
pub enum Command {
    /// Serve, with the terminal display.
    Interactive,
    /// Serve, without a display.
    Serve,
    /// Serve, and run a command against the proxy.
    Launch { cmd: String, args: Vec<String> },
    /// `launch` without a command to run.
    LaunchNothing,
    /// Print how the program is used.
    Help,
    /// Something else.
    Unknown(String),
}

/// What a command is.
#[verifier::ext_equal]
pub enum CommandView {
    Interactive,
    Serve,
    Launch { cmd: Seq<char>, args: Seq<Seq<char>> },
    LaunchNothing,
    Help,
    Unknown(Seq<char>),
}

impl View for Command {
    type V = CommandView;

    open spec fn view(&self) -> CommandView {
        match self {
            Command::Interactive => CommandView::Interactive,
            Command::Serve => CommandView::Serve,
            Command::Launch { cmd, args } => CommandView::Launch {
                cmd: cmd@,
                args: views(args@),
            },
            Command::LaunchNothing => CommandView::LaunchNothing,
            Command::Help => CommandView::Help,
            Command::Unknown(word) => CommandView::Unknown(word@),
        }
    }
}

/// The command that the arguments give.
pub open spec fn command_of(args: Seq<Seq<char>>) -> CommandView {
    if args.len() <= 1 {
        CommandView::Interactive
    } else if args[1] == "launch"@ {
        if args.len() <= 2 {
            CommandView::LaunchNothing
        } else {
            CommandView::Launch { cmd: args[2], args: args.skip(3) }
        }
    } else if args[1] == "serve"@ {
        CommandView::Serve
    } else if args[1] == "--help"@ || args[1] == "-h"@ {
        CommandView::Help
    } else {
        CommandView::Unknown(args[1])
    }
}

fn copy_from(args: &Vec<String>, start: usize) -> (rest: Vec<String>)
    requires
        start <= args@.len(),
    ensures
        views(rest@) == views(args@).skip(start as int),
{
    let mut rest: Vec<String> = Vec::new();
    let mut i = start;
    while i < args.len()
        invariant
            start <= i <= args@.len(),
            rest@ == args@.subrange(start as int, i as int),
        decreases args@.len() - i,
    {
        rest.push(args[i].clone());
        assert(rest@ =~= args@.subrange(start as int, i + 1));
        i += 1;
    }
    assert(views(rest@) =~= views(args@).skip(start as int));
    rest
}

/// The command that the arguments give; the first argument is the program's name.
pub fn parse_command(args: &Vec<String>) -> (command: Command)
    ensures
        command@ == command_of(views(args@)),
{
    if args.len() <= 1 {
        return Command::Interactive;
    }
    let ghost all = views(args@);
    assert(all[1] == args@[1]@);
    let word = args[1].as_str();
    if same_text(word, "launch") {
        if args.len() <= 2 {
            Command::LaunchNothing
        } else {
            Command::Launch { cmd: args[2].clone(), args: copy_from(args, 3) }
        }
    } else if same_text(word, "serve") {
        Command::Serve
    } else if same_text(word, "--help") || same_text(word, "-h") {
        Command::Help
    } else {
        Command::Unknown(word.to_owned())
    }
}

/// Whether the address can be reached from other machines.
pub open spec fn external(host: Seq<char>) -> bool {
    host != "127.0.0.1"@ && host != "localhost"@ && host != "::1"@
}

/// Whether the address can be reached from other machines.
pub fn listens_externally(host: &str) -> (yes: bool)
    ensures
        yes == external(host@),
{
    !same_text(host, "127.0.0.1") && !same_text(host, "localhost") && !same_text(host, "::1")
}

/// The address to bind: the one from the arguments, or else the one from the
/// environment, or else the loopback address.
pub fn choose_host(flag: Option<String>, env: Option<String>) -> (host: String)
    ensures
        host@ == match flag {
            Some(h) => h@,
            None => match env {
                Some(h) => h@,
                None => "127.0.0.1"@,
            },
        },
{
    match flag {
        Some(host) => host,
        None => match env {
            Some(host) => host,
            None => "127.0.0.1".to_owned(),
        },
    }
}

/// The address at which a process on this machine reaches the proxy.
pub open spec fn loopback_address(port: nat) -> Seq<char> {
    "http://127.0.0.1:"@ + decimal(port)
}

/// The address at which a process on this machine reaches the proxy.
pub fn base_url(port: u16) -> (url: String)
    ensures
        url@ == loopback_address(port as nat),
{
    let mut url = "http://127.0.0.1:".to_owned();
    url.append(decimal_text(port as u128).as_str());
    url
}

/// The address at which the proxy answers that it is up.
pub fn health_url(base: &str) -> (url: String)
    ensures
        url@ == base@ + "/health"@,
{
    let mut url = base.to_owned();
    url.append("/health");
    url
}

/// The socket address to bind.
pub fn bind_address(host: &str, port: u16) -> (address: String)
    ensures
        address@ == host@ + ":"@ + decimal(port as nat),
{
    let mut address = host.to_owned();
    address.append(":");
    address.append(decimal_text(port as u128).as_str());
    address
}

/// How often a proxy that is starting is asked whether it is up.
pub const POLL_LIMIT: u32 = 50;

/// How long to wait between two such questions, in milliseconds.
pub const POLL_PAUSE_MS: u64 = 100;

/// What to do while the proxy starts.
#[derive(Clone, Copy, PartialEq, Eq, Structural)]
pub enum Poll {
    /// Go on: the proxy is up, or has been asked often enough.
    Proceed,
    /// Wait, then ask again.
    WaitMs(u64),
    /// Wait, then go on.
    WaitThenProceedMs(u64),
}

/// What to do after the question number `asked`, counted from one, was answered or
/// not.
pub fn next_poll(asked: u32, answered: bool) -> (next: Poll)
    ensures
        next == if answered {
            Poll::Proceed
        } else if asked < POLL_LIMIT {
            Poll::WaitMs(POLL_PAUSE_MS)
        } else {
            Poll::WaitThenProceedMs(POLL_PAUSE_MS)
        },
{
    if answered {
        Poll::Proceed
    } else if asked < POLL_LIMIT {
        Poll::WaitMs(POLL_PAUSE_MS)
    } else {
        Poll::WaitThenProceedMs(POLL_PAUSE_MS)
    }
}

/// The exit code for that of a launched command; one that was killed has none.
pub fn exit_code(code: Option<i32>) -> (exit: i32)
    ensures
        exit == match code {
            Some(n) => n,
            None => 1i32,
        },
{
    match code {
        Some(n) => n,
        None => 1,
    }
}

/// No argument before the position `i` ends the search for a bind address: none is
/// `launch`, and after the program's name none gives an address.
pub open spec fn searched(args: Seq<Seq<char>>, i: int) -> bool {
    &&& forall|j: int| 0 <= j < i ==> #[trigger] args[j] != "launch"@
    &&& forall|j: int|
        1 <= j < i ==> #[trigger] args[j] != "--host"@ && !"--host="@.is_prefix_of(args[j])
}

proof fn lemma_no_launch_before(args: Seq<Seq<char>>, from: int, i: int)
    requires
        0 <= from <= i <= args.len(),
        forall|j: int| from <= j < i ==> #[trigger] args[j] != "launch"@,
    ensures
        launch_from(args, from) == launch_from(args, i),
    decreases i - from,
{
    if from < i {
        assert(args[from] != "launch"@);
        lemma_no_launch_before(args, from + 1, i);
    }
}

proof fn lemma_no_flag_before(args: Seq<Seq<char>>, from: int, i: int, stop: int)
    requires
        from <= i <= stop,
        forall|j: int| from <= j < i ==> !is_host_flag(#[trigger] args[j]),
    ensures
        host_flag_from(args, from, stop) == host_flag_from(args, i, stop),
    decreases i - from,
{
    if from < i {
        assert(!is_host_flag(args[from]));
        lemma_no_flag_before(args, from + 1, i, stop);
    }
}

/// The first argument that gives a bind address is taken out, with the address that
/// follows it or that stands in it, and all other arguments are left in order.
pub proof fn law_bind_address_is_taken_out(args: Seq<Seq<char>>, i: int, address: Seq<char>)
    requires
        1 <= i < args.len(),
        searched(args, i),
    ensures
        args[i] == "--host"@ && i + 1 < args.len() ==> without_host(args) == (
            Some(args[i + 1]),
            args.take(i) + args.skip(i + 2),
        ),
        args[i] == "--host"@ && i + 1 == args.len() ==> without_host(args) == (
            None::<Seq<char>>,
            args.take(i),
        ),
        args[i] == "--host="@ + address ==> without_host(args) == (
            Some(address),
            args.take(i) + args.skip(i + 1),
        ),
        args[i] == "launch"@ ==> without_host(args) == (None::<Seq<char>>, args),
{
    reveal_strlit("--host");
    reveal_strlit("--host=");
    reveal_strlit("launch");
    assert("--host"@.len() == 6 && "--host="@.len() == 7 && "launch"@.len() == 6);
    assert("--host"@[0] == '-' && "launch"@[0] == 'l' && "--host="@[0] == '-');
    lemma_no_launch_before(args, 0, i);
    lemma_launch_from(args, i);
    let stop = launch_from(args, 0);
    assert forall|j: int| 1 <= j < i implies !is_host_flag(#[trigger] args[j]) by {
        assert(args[j] != "--host"@);
    }
    lemma_no_flag_before(args, 1, i, stop);
    crate::text::law_prefix_and_rest(args[i], "--host="@, address);
    if args[i] == "--host="@ + address {
        assert("--host="@.is_prefix_of(args[i]));
        assert(args[i][0] == '-');
        assert(args[i].len() >= 7);
        assert(args.remove(i) =~= args.take(i) + args.skip(i + 1));
    }
    if args[i] == "--host"@ {
        if i + 1 < args.len() {
            assert(args.remove(i)[i] == args[i + 1]);
            assert(args.remove(i).remove(i) =~= args.take(i) + args.skip(i + 2));
        } else {
            assert(args.remove(i) =~= args.take(i));
        }
    }
}

/// Where no argument gives a bind address, there is none, and all are left.
pub proof fn law_no_bind_address(args: Seq<Seq<char>>)
    requires
        searched(args, args.len() as int),
    ensures
        without_host(args) == (None::<Seq<char>>, args),
{
    let n = args.len() as int;
    lemma_no_launch_before(args, 0, n);
    assert forall|j: int| 1 <= j < n implies !is_host_flag(#[trigger] args[j]) by {
        assert(args[j] != "--host"@);
    }
    if n >= 1 {
        lemma_no_flag_before(args, 1, n, n);
    }
}

/// A launch runs the command that follows it with exactly the arguments that follow
/// that, in order.
pub proof fn law_launch_keeps_all_arguments(args: Seq<Seq<char>>, another: Seq<char>)
    requires
        args.len() >= 3,
        args[1] == "launch"@,
    ensures
        command_of(args) matches CommandView::Launch { cmd, args: rest } && {
            &&& cmd == args[2]
            &&& rest.len() == args.len() - 3
            &&& forall|i: int| 0 <= i < rest.len() ==> #[trigger] rest[i] == args[i + 3]
            &&& command_of(args.push(another)) == (CommandView::Launch {
                cmd,
                args: rest.push(another),
            })
        },
{
    assert(args.push(another).skip(3) =~= args.skip(3).push(another));
}

/// Without an argument the program is interactive; otherwise the first argument
/// says what is asked for.
pub proof fn law_first_argument_decides(args: Seq<Seq<char>>)
    ensures
        args.len() <= 1 ==> command_of(args) is Interactive,
        args.len() == 2 && args[1] == "launch"@ ==> command_of(args) is LaunchNothing,
        args.len() >= 2 && args[1] == "serve"@ ==> command_of(args) is Serve,
        args.len() >= 2 && (args[1] == "--help"@ || args[1] == "-h"@) ==> command_of(args) is Help,
        args.len() >= 2 && args[1] != "launch"@ && args[1] != "serve"@ && args[1] != "--help"@
            && args[1] != "-h"@ ==> command_of(args) == CommandView::Unknown(args[1]),
{
    reveal_strlit("launch");
    reveal_strlit("serve");
    reveal_strlit("--help");
    reveal_strlit("-h");
    assert("launch"@.len() == 6 && "serve"@.len() == 5 && "--help"@.len() == 6 && "-h"@.len() == 2);
    assert("launch"@[0] == 'l' && "--help"@[0] == '-');
}

/// The three names of the loopback address are for this machine only; every other
/// address is for others too. A process on this machine goes to the loopback address
/// and the port.
pub proof fn law_addresses(host: Seq<char>, port: nat)
    ensures
        !external("127.0.0.1"@),
        !external("localhost"@),
        !external("::1"@),
        host != "127.0.0.1"@ && host != "localhost"@ && host != "::1"@ ==> external(host),
        loopback_address(port).take("http://127.0.0.1:"@.len() as int) == "http://127.0.0.1:"@,
        loopback_address(port).skip("http://127.0.0.1:"@.len() as int) == decimal(port),
{
    assert(loopback_address(port).take("http://127.0.0.1:"@.len() as int)
        =~= "http://127.0.0.1:"@);
    assert(loopback_address(port).skip("http://127.0.0.1:"@.len() as int) =~= decimal(port));
}

} // verus!
