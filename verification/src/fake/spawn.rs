//! What a process is started with.

use crate::fake::record::state_name;
use crate::text::join3;
use crate::types::{
    clone_pairs, clone_texts, BackendError, BackendErrorView, ContainerConfig, ContainerConfigView,
    ContainerId, ContainerState,
};
use vstd::prelude::*;
use vstd::string::*;

verus! {

/// Where the standard streams of a process go.
#[derive(Clone, Copy, Debug, PartialEq, Eq, Structural)]
pub enum SpawnStdio {
    /// All three to the far side of a terminal.
    Terminal,
    /// Output and errors into pipes; input from a pipe, or from nowhere.
    Pipes { stdin: bool },
    /// Output and errors into pipes; input as the backend has it.
    Capture,
}

/// A process to be started.
#[derive(Debug)]
pub struct SpawnSpec {
    pub program: String,
    pub args: Vec<String>,
    /// Where it is started, if not where the backend stands.
    pub cwd: Option<String>,
    /// What is added to its environment.
    pub envs: Vec<(String, String)>,
    pub stdio: SpawnStdio,
    /// Whether it leads a session of its own.
    pub new_session: bool,
}

/// What a [`SpawnSpec`] says.
#[verifier::ext_equal]
pub struct SpawnView {
    pub program: Seq<char>,
    pub args: Seq<Seq<char>>,
    pub cwd: Option<Seq<char>>,
    pub envs: Seq<(Seq<char>, Seq<char>)>,
    pub stdio: SpawnStdio,
    pub new_session: bool,
}

impl View for SpawnSpec {
    type V = SpawnView;

    open spec fn view(&self) -> SpawnView {
        SpawnView {
            program: self.program@,
            args: self.args.deep_view(),
            cwd: self.cwd.deep_view(),
            envs: self.envs.deep_view(),
            stdio: self.stdio,
            new_session: self.new_session,
        }
    }
}

/// The command, to be started as the container's configuration says.
pub open spec fn spawn_of(
    cmd: Seq<Seq<char>>,
    config: ContainerConfigView,
    stdio: SpawnStdio,
    new_session: bool,
) -> SpawnView {
    SpawnView {
        program: cmd[0],
        args: cmd.drop_first(),
        cwd: if config.working_dir.len() == 0 {
            None
        } else {
            Some(config.working_dir)
        },
        envs: config.envs,
        stdio,
        new_session,
    }
}

/// The command, to be started as the container's configuration says.
pub fn spawn_spec(
    cmd: &Vec<String>,
    config: &ContainerConfig,
    stdio: SpawnStdio,
    new_session: bool,
) -> (r: SpawnSpec)
    requires
        cmd@.len() > 0,
    ensures
        r@ == spawn_of(cmd.deep_view(), config@, stdio, new_session),
{
    let mut args: Vec<String> = Vec::new();
    let mut i: usize = 1;
    while i < cmd.len()
        invariant
            1 <= i <= cmd@.len(),
            args@.len() == i - 1,
            forall|j: int| 0 <= j < i - 1 ==> #[trigger] args@[j]@ == cmd@[j + 1]@,
        decreases cmd@.len() - i,
    {
        args.push(cmd[i].clone());
        i = i + 1;
    }
    assert(args.deep_view() =~= cmd.deep_view().drop_first());
    let cwd = if config.working_dir.as_str().is_empty() {
        None
    } else {
        Some(config.working_dir.clone())
    };
    SpawnSpec {
        program: cmd[0].clone(),
        args,
        cwd,
        envs: clone_pairs(&config.envs),
        stdio,
        new_session,
    }
}

/// The container's own command.
pub open spec fn own_command(config: ContainerConfigView) -> Seq<Seq<char>> {
    config.command + config.args
}

/// The container's own command.
pub fn command_line(config: &ContainerConfig) -> (r: Vec<String>)
    ensures
        r.deep_view() == own_command(config@),
{
    let mut r = clone_texts(&config.command);
    let mut i: usize = 0;
    assert(config@.args.take(0) =~= Seq::empty());
    assert(r.deep_view() =~= config@.command + config@.args.take(0));
    while i < config.args.len()
        invariant
            i <= config.args@.len(),
            r.deep_view() == config@.command + config@.args.take(i as int),
        decreases config.args@.len() - i,
    {
        let ghost before = r.deep_view();
        r.push(config.args[i].clone());
        assert(r.deep_view() =~= before.push(config.args@[i as int]@));
        assert(config@.args.take(i + 1) =~= config@.args.take(i as int).push(
            config.args@[i as int]@,
        ));
        assert(r.deep_view() =~= config@.command + config@.args.take(i + 1));
        i = i + 1;
    }
    assert(config@.args.take(i as int) =~= config@.args);
    r
}

/// A container must be running for the operation.
pub open spec fn not_running(
    id: Seq<char>,
    state: ContainerState,
    operation: Seq<char>,
) -> BackendErrorView {
    BackendErrorView::FailedPrecondition(
        "container "@ + id + " is not Running (state="@ + crate::fake::record::state_text(state)
            + "); "@ + operation + " requires Running"@,
    )
}

/// A container must be running for the operation.
pub fn not_running_error(id: &ContainerId, state: ContainerState, operation: &str) -> (r:
    BackendError)
    ensures
        r@ == not_running(id@, state, operation@),
{
    let mut m = join3("container ", id.0.as_str(), " is not Running (state=");
    m.append(state_name(state));
    m.append("); ");
    m.append(operation);
    m.append(" requires Running");
    BackendError::FailedPrecondition(m)
}

/// Whatever its streams are, a process runs the command it was asked to run, word for word and in
/// order, where the container's configuration says and with the environment that it says. A
/// directory that is not configured is left to the backend.
pub proof fn law_process_is_started_as_configured(
    cmd: Seq<Seq<char>>,
    config: ContainerConfigView,
    stdio: SpawnStdio,
    new_session: bool,
)
    requires
        cmd.len() > 0,
    ensures
        ({
            let s = spawn_of(cmd, config, stdio, new_session);
            &&& seq![s.program] + s.args == cmd
            &&& s.cwd matches Some(dir) ==> dir.len() > 0 && dir == config.working_dir
            &&& s.cwd is None ==> config.working_dir.len() == 0
            &&& s.envs == config.envs
            &&& s.stdio == stdio
            &&& s.new_session == new_session
        }),
{
    assert(seq![cmd[0]] + cmd.drop_first() =~= cmd);
}

/// Neither the streams nor the session of a process bear on what it runs.
pub proof fn law_streams_do_not_change_the_process(
    cmd: Seq<Seq<char>>,
    config: ContainerConfigView,
    a: SpawnStdio,
    b: SpawnStdio,
    leads_a: bool,
    leads_b: bool,
)
    ensures
        ({
            let x = spawn_of(cmd, config, a, leads_a);
            let y = spawn_of(cmd, config, b, leads_b);
            x.program == y.program && x.args == y.args && x.cwd == y.cwd && x.envs == y.envs
        }),
{
}

/// A container's own command is what it is configured to run, followed by its arguments.
pub proof fn law_arguments_follow_the_command(config: ContainerConfigView)
    ensures
        own_command(config).len() == config.command.len() + config.args.len(),
        own_command(config).take(config.command.len() as int) == config.command,
        own_command(config).skip(config.command.len() as int) == config.args,
{
    assert(own_command(config).take(config.command.len() as int) =~= config.command);
    assert(own_command(config).skip(config.command.len() as int) =~= config.args);
}

} // verus!
