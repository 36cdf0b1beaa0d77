//! What the server is started with.

use crate::text::same_text;
use vstd::prelude::*;
use vstd::string::*;

verus! {

/// Where the server listens unless it is told otherwise.
pub const DEFAULT_SOCKET: &'static str = "/run/lightr/cri.sock";

/// What the server is started with.
#[derive(Debug, PartialEq, Eq)]
pub struct ServerArgs {
    /// The socket to listen on.
    pub socket: String,
    /// Where the state is kept, if that is said.
    pub state: Option<String>,
}

/// What [`ServerArgs`] say.
#[verifier::ext_equal]
pub struct ServerArgsView {
    pub socket: Seq<char>,
    pub state: Option<Seq<char>>,
}

impl View for ServerArgs {
    type V = ServerArgsView;

    open spec fn view(&self) -> ServerArgsView {
        ServerArgsView { socket: self.socket@, state: self.state.deep_view() }
    }
}

/// What the arguments say, read in pairs of an option and its value, over what was said before; or
/// the first that is no option, or that lacks its value.
pub open spec fn args_say(args: Seq<Seq<char>>, before: ServerArgsView) -> Result<
    ServerArgsView,
    Seq<char>,
>
    decreases args.len(),
{
    if args.len() == 0 {
        Ok(before)
    } else if args[0] == "--socket"@ && args.len() >= 2 {
        args_say(args.skip(2), ServerArgsView { socket: args[1], ..before })
    } else if args[0] == "--state"@ && args.len() >= 2 {
        args_say(args.skip(2), ServerArgsView { state: Some(args[1]), ..before })
    } else {
        Err(args[0])
    }
}

/// What is said without arguments.
pub open spec fn default_args() -> ServerArgsView {
    ServerArgsView { socket: DEFAULT_SOCKET@, state: None }
}

/// Reads the arguments, the program's name not among them. Where they cannot be read, the one that
/// is at fault comes back.
pub fn parse_args(args: &Vec<String>) -> (r: Result<ServerArgs, String>)
    ensures
        match r {
            Ok(a) => args_say(args.deep_view(), default_args()) == Ok::<ServerArgsView, Seq<char>>(
                a@,
            ),
            Err(e) => args_say(args.deep_view(), default_args()) == Err::<
                ServerArgsView,
                Seq<char>,
            >(e@),
        },
{
    let ghost all = args.deep_view();
    let mut out = ServerArgs { socket: DEFAULT_SOCKET.to_owned(), state: None };
    let mut i: usize = 0;
    assert(all.skip(0) =~= all);
    while i < args.len()
        invariant
            i <= args@.len(),
            all == args.deep_view(),
            args_say(all, default_args()) == args_say(all.skip(i as int), out@),
        decreases args@.len() - i,
    {
        let ghost rest = all.skip(i as int);
        proof {
            assert(rest[0] == args@[i as int]@);
            if i + 1 < args@.len() {
                assert(rest[1] == args@[i + 1]@);
                assert(rest.skip(2) =~= all.skip(i + 2));
            }
        }
        if args.len() - i < 2 {
            return Err(args[i].clone());
        }
        let name = args[i].as_str();
        if same_text(name, "--socket") {
            out.socket = args[i + 1].clone();
        } else if same_text(name, "--state") {
            out.state = Some(args[i + 1].clone());
        } else {
            return Err(args[i].clone());
        }
        i = i + 2;
    }
    assert(all.skip(i as int) =~= Seq::empty());
    Ok(out)
}

/// Where the state is kept, by the arguments, the environment, and the place for temporary files.
pub open spec fn state_kept(
    arg: Option<Seq<char>>,
    env: Option<Seq<char>>,
    temp_dir: Seq<char>,
) -> Seq<char> {
    match (arg, env) {
        (Some(a), _) => a,
        (None, Some(e)) => e,
        (None, None) => temp_dir + "/lightr-cri-fake"@,
    }
}

/// Where the state is kept: where the arguments say, or else where the environment says, or else in
/// a place of its own among the temporary files.
pub fn state_root(arg: Option<String>, env: Option<String>, temp_dir: &str) -> (r: String)
    ensures
        r@ == state_kept(arg.deep_view(), env.deep_view(), temp_dir@),
{
    match (arg, env) {
        (Some(a), _) => a,
        (None, Some(e)) => e,
        (None, None) => {
            let mut r = temp_dir.to_owned();
            r.append("/lightr-cri-fake");
            r
        },
    }
}

/// The moment as 64 bits hold it: nanoseconds since the Unix epoch, wrapped around.
pub open spec fn wrapped_nanos(nanos: int) -> int {
    let low = nanos % 0x1_0000_0000_0000_0000;
    if low < 0x8000_0000_0000_0000 {
        low
    } else {
        low - 0x1_0000_0000_0000_0000
    }
}

/// The moment as 64 bits hold it.
pub fn now_nanos(since_epoch: u128) -> (r: i64)
    ensures
        r == wrapped_nanos(since_epoch as int),
        since_epoch <= i64::MAX ==> r == since_epoch,
{
    let low: u64 = (since_epoch % 0x1_0000_0000_0000_0000) as u64;
    if low < 0x8000_0000_0000_0000 {
        low as i64
    } else {
        -((u64::MAX - low) as i64) - 1
    }
}

/// An option overrules what was said before it, of the same thing and of nothing else.
pub proof fn law_last_option_counts(args: Seq<Seq<char>>, before: ServerArgsView, value: Seq<char>)
    requires
        args_say(args, before) is Ok,
    ensures
        ({
            let said = args_say(args, before)->Ok_0;
            let socket = args_say(args + seq!["--socket"@, value], before);
            let state = args_say(args + seq!["--state"@, value], before);
            &&& socket matches Ok(a) && a.socket == value && a.state == said.state
            &&& state matches Ok(a) && a.state == Some(value) && a.socket == said.socket
        }),
{
    lemma_options_differ();
    lemma_args_follow(args, before, seq!["--socket"@, value]);
    lemma_args_follow(args, before, seq!["--state"@, value]);
    assert(seq!["--socket"@, value].skip(2) =~= Seq::empty());
    assert(seq!["--state"@, value].skip(2) =~= Seq::empty());
    reveal_with_fuel(args_say, 2);
}

/// What is no option, and an option without its value, is at fault, and is what comes back, however
/// good the arguments before it are.
pub proof fn law_first_fault_comes_back(
    args: Seq<Seq<char>>,
    before: ServerArgsView,
    fault: Seq<char>,
    rest: Seq<Seq<char>>,
)
    requires
        args_say(args, before) is Ok,
        fault != "--socket"@ && fault != "--state"@ || rest.len() == 0,
    ensures
        args_say(args + (seq![fault] + rest), before) == Err::<ServerArgsView, Seq<char>>(fault),
{
    lemma_args_follow(args, before, seq![fault] + rest);
    assert((seq![fault] + rest)[0] == fault);
}

/// Without arguments the socket is where it always is, and nothing is said of the state.
pub proof fn law_nothing_said_is_the_default()
    ensures
        args_say(Seq::empty(), default_args()) == Ok::<ServerArgsView, Seq<char>>(default_args()),
        default_args().socket == "/run/lightr/cri.sock"@,
        default_args().state is None,
{
}

proof fn lemma_options_differ()
    ensures
        "--socket"@ != "--state"@,
{
    reveal_strlit("--socket");
    reveal_strlit("--state");
    assert("--socket"@.len() == 8 && "--state"@.len() == 7);
}

proof fn lemma_args_follow(args: Seq<Seq<char>>, before: ServerArgsView, more: Seq<Seq<char>>)
    requires
        args_say(args, before) is Ok,
    ensures
        args_say(args + more, before) == args_say(more, args_say(args, before)->Ok_0),
    decreases args.len(),
{
    if args.len() == 0 {
        assert(args + more =~= more);
    } else {
        let all = args + more;
        assert(all[0] == args[0] && all[1] == args[1]);
        assert(all.skip(2) =~= args.skip(2) + more);
        if args[0] == "--socket"@ {
            lemma_args_follow(
                args.skip(2),
                ServerArgsView { socket: args[1], ..before },
                more,
            );
        } else {
            lemma_args_follow(
                args.skip(2),
                ServerArgsView { state: Some(args[1]), ..before },
                more,
            );
        }
    }
}

/// The arguments overrule the environment, which overrules the place for temporary files; there the
/// state has a directory of its own.
pub proof fn law_arguments_overrule_the_environment(
    arg: Seq<char>,
    env: Option<Seq<char>>,
    said: Seq<char>,
    temp_dir: Seq<char>,
)
    ensures
        state_kept(Some(arg), env, temp_dir) == arg,
        state_kept(None, Some(said), temp_dir) == said,
        temp_dir.is_prefix_of(state_kept(None, None, temp_dir)),
        state_kept(None, None, temp_dir) != temp_dir,
{
    reveal_strlit("/lightr-cri-fake");
    let kept = state_kept(None, None, temp_dir);
    assert(kept.subrange(0, temp_dir.len() as int) =~= temp_dir);
    assert(kept.len() == temp_dir.len() + 16);
}

/// A moment is kept as the one number that 64 bits can hold which differs from it by whole rounds.
pub proof fn law_moments_wrap_around(nanos: int)
    requires
        0 <= nanos,
    ensures
        i64::MIN <= wrapped_nanos(nanos) <= i64::MAX,
        (nanos - wrapped_nanos(nanos)) % 0x1_0000_0000_0000_0000 == 0,
        nanos <= i64::MAX ==> wrapped_nanos(nanos) == nanos,
{
}

} // verus!
