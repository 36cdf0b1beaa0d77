//! Plugin chains: plugins are added one after the other, and deleted in the reverse order.

use crate::types::{
    clone_opt_text, clone_port_mappings, BackendError, PortMapping, PortMappingView,
};
use vstd::prelude::*;
use vstd::string::*;

verus! {

/// What a chain yields once every plugin was added.
#[derive(Debug, PartialEq, Eq)]
pub struct CniResult {
    pub ip: Option<String>,
}

/// Why a plugin failed, in its own words.
#[derive(Debug, PartialEq, Eq)]
pub struct CniError(pub String);

impl CniError {
    /// The plugin's message.
    pub fn message(&self) -> (r: String)
        ensures
            r@ == self.0@,
    {
        self.0.clone()
    }

    /// The message as a diagnostic.
    pub fn debug_text(&self) -> (r: String)
        ensures
            r@ == "CniError("@ + self.0@ + seq![')'],
    {
        let mut r = "CniError(".to_owned();
        r.append(self.0.as_str());
        r.push(')');
        assert(r@ =~= "CniError("@ + self.0@ + seq![')']);
        r
    }

    /// The failure as the backend reports it: an internal error with the plugin's message.
    pub fn into_backend_error(self) -> (r: BackendError)
        ensures
            r == BackendError::Internal(self.0),
    {
        BackendError::Internal(self.0)
    }
}

/// What a chain is configured to do.
#[derive(Debug)]
pub struct ChainConf {
    pub name: String,
    pub cni_version: String,
    /// The types of its plugins, in order.
    pub plugins: Vec<String>,
}

/// What is attached to the network.
#[derive(Debug)]
pub struct Attachment {
    pub container_id: String,
    pub netns_path: String,
    pub port_mappings: Vec<PortMapping>,
}

/// Whether a plugin is to set up or to take down.
#[derive(Clone, Copy, Debug, PartialEq, Eq, Structural)]
pub enum CniCommand {
    Add,
    Del,
}

/// The command as plugins are told it.
pub open spec fn command_text(c: CniCommand) -> Seq<char> {
    match c {
        CniCommand::Add => "ADD"@,
        CniCommand::Del => "DEL"@,
    }
}

/// The command as plugins are told it.
pub fn command_name(c: CniCommand) -> (r: &'static str)
    ensures
        r@ == command_text(c),
{
    match c {
        CniCommand::Add => "ADD",
        CniCommand::Del => "DEL",
    }
}

/// The protocol of a port mapping as plugins are told it.
pub open spec fn protocol_text(protocol: i32) -> Seq<char> {
    if protocol == 1 {
        "udp"@
    } else if protocol == 2 {
        "sctp"@
    } else {
        "tcp"@
    }
}

/// The protocol of a port mapping as plugins are told it.
pub fn protocol_name(protocol: i32) -> (r: &'static str)
    ensures
        r@ == protocol_text(protocol),
{
    if protocol == 1 {
        "udp"
    } else if protocol == 2 {
        "sctp"
    } else {
        "tcp"
    }
}

/// What a plugin is handed: the command and its place in the list, what is attached, and in its
/// document the name and version of the list, the port mappings and what the plugin before it
/// answered.
#[derive(Debug)]
pub struct Invocation {
    pub command: CniCommand,
    pub plugin: usize,
    pub plugin_type: String,
    pub container_id: String,
    pub netns_path: String,
    pub name: String,
    pub cni_version: String,
    pub port_mappings: Vec<PortMapping>,
    pub prev_result: Option<String>,
}

/// What an [`Invocation`] says.
#[verifier::ext_equal]
pub struct InvocationView {
    pub command: CniCommand,
    pub plugin: nat,
    pub plugin_type: Seq<char>,
    pub container_id: Seq<char>,
    pub netns_path: Seq<char>,
    pub name: Seq<char>,
    pub cni_version: Seq<char>,
    pub port_mappings: Seq<PortMappingView>,
    pub prev_result: Option<Seq<char>>,
}

impl View for Invocation {
    type V = InvocationView;

    open spec fn view(&self) -> InvocationView {
        InvocationView {
            command: self.command,
            plugin: self.plugin as nat,
            plugin_type: self.plugin_type@,
            container_id: self.container_id@,
            netns_path: self.netns_path@,
            name: self.name@,
            cni_version: self.cni_version@,
            port_mappings: self.port_mappings.deep_view(),
            prev_result: self.prev_result.deep_view(),
        }
    }
}

/// What the plugin in place `plugin` is handed.
pub open spec fn handed(
    command: CniCommand,
    conf: ChainConf,
    attachment: Attachment,
    plugin: nat,
    prev_result: Option<Seq<char>>,
) -> InvocationView {
    InvocationView {
        command,
        plugin,
        plugin_type: conf.plugins@[plugin as int]@,
        container_id: attachment.container_id@,
        netns_path: attachment.netns_path@,
        name: conf.name@,
        cni_version: conf.cni_version@,
        port_mappings: attachment.port_mappings.deep_view(),
        prev_result,
    }
}

/// What the plugin in place `plugin` is handed.
fn hand(
    command: CniCommand,
    conf: &ChainConf,
    attachment: &Attachment,
    plugin: usize,
    prev_result: Option<String>,
) -> (r: Invocation)
    requires
        plugin < conf.plugins@.len(),
    ensures
        r@ == handed(command, *conf, *attachment, plugin as nat, prev_result.deep_view()),
{
    Invocation {
        command,
        plugin,
        plugin_type: conf.plugins[plugin].clone(),
        container_id: attachment.container_id.clone(),
        netns_path: attachment.netns_path.clone(),
        name: conf.name.clone(),
        cni_version: conf.cni_version.clone(),
        port_mappings: clone_port_mappings(&attachment.port_mappings),
        prev_result,
    }
}

/// What a plugin answered: the document that the next plugin is given, and the address in it.
#[derive(Debug)]
pub struct PluginReply {
    pub document: String,
    pub ip: Option<String>,
}

/// How a plugin's run ended.
#[derive(Debug)]
pub struct PluginExit {
    pub success: bool,
    /// The document that it wrote.
    pub document: String,
    /// The first address in it.
    pub ip: Option<String>,
    /// The message in it, where it tells of an error.
    pub msg: Option<String>,
    /// What it wrote beside it.
    pub stderr: String,
}

/// What came of a plugin: its reply, or what it said where it failed.
pub open spec fn reply_of(exit: PluginExit) -> Result<PluginReply, Seq<char>> {
    if exit.success {
        Ok(PluginReply { document: exit.document, ip: exit.ip })
    } else {
        Err(failure_text(exit))
    }
}

/// What a failed plugin said: the message of its error document, or else what it wrote beside it.
pub open spec fn failure_text(exit: PluginExit) -> Seq<char> {
    match exit.msg {
        Some(m) => m@,
        None => exit.stderr@,
    }
}

/// What came of a plugin's run: its answer, or its own words for why it failed.
pub fn plugin_outcome(exit: PluginExit) -> (r: Result<PluginReply, CniError>)
    ensures
        match reply_of(exit) {
            Ok(reply) => r == Ok::<PluginReply, CniError>(reply),
            Err(text) => r matches Err(e) && e.0@ == text,
        },
{
    if exit.success {
        Ok(PluginReply { document: exit.document, ip: exit.ip })
    } else {
        Err(
            CniError(
                match exit.msg {
                    Some(m) => m,
                    None => exit.stderr,
                },
            ),
        )
    }
}

/// What to do next with a chain.
#[derive(Debug)]
pub enum ChainStep {
    /// Run a plugin.
    Invoke(Invocation),
    /// Every plugin ran.
    Done(CniResult),
    /// The last plugin failed, and no other runs.
    Failed(CniError),
}

/// What a [`ChainStep`] says.
#[verifier::ext_equal]
pub enum ChainStepView {
    Invoke(InvocationView),
    Done { ip: Option<Seq<char>> },
    Failed(Seq<char>),
}

impl View for ChainStep {
    type V = ChainStepView;

    open spec fn view(&self) -> ChainStepView {
        match *self {
            ChainStep::Invoke(i) => ChainStepView::Invoke(i@),
            ChainStep::Done(c) => ChainStepView::Done { ip: c.ip.deep_view() },
            ChainStep::Failed(e) => ChainStepView::Failed(e.0@),
        }
    }
}

/// What comes next in setting a network up: the plugins run from the first to the last, each given
/// what the one before it answered, until one fails. What the last one answered counts.
pub open spec fn add_next(
    conf: ChainConf,
    attachment: Attachment,
    replies: Seq<Result<PluginReply, CniError>>,
) -> ChainStepView {
    let plugins = conf.plugins@.len();
    if replies.len() == 0 {
        if plugins == 0 {
            ChainStepView::Done { ip: None }
        } else {
            ChainStepView::Invoke(handed(CniCommand::Add, conf, attachment, 0, None))
        }
    } else {
        match replies.last() {
            Err(e) => ChainStepView::Failed(e.0@),
            Ok(reply) => if replies.len() == plugins {
                ChainStepView::Done { ip: reply.ip.deep_view() }
            } else {
                ChainStepView::Invoke(
                    handed(
                        CniCommand::Add,
                        conf,
                        attachment,
                        replies.len(),
                        Some(reply.document@),
                    ),
                )
            },
        }
    }
}

/// What comes next in taking a network down: the plugins run from the last to the first, each given
/// what setting it up left, until one fails.
pub open spec fn del_next(
    conf: ChainConf,
    attachment: Attachment,
    replies: Seq<Result<(), CniError>>,
    result: Option<Seq<char>>,
) -> ChainStepView {
    let plugins = conf.plugins@.len();
    if replies.len() > 0 && replies.last() is Err {
        ChainStepView::Failed(replies.last()->Err_0.0@)
    } else if replies.len() == plugins {
        ChainStepView::Done { ip: None }
    } else {
        ChainStepView::Invoke(
            handed(
                CniCommand::Del,
                conf,
                attachment,
                (plugins - 1 - replies.len()) as nat,
                result,
            ),
        )
    }
}

/// What to do next to set a network up, where `replies` are the answers so far of the plugins of the
/// chain, in the order in which they came.
pub fn add(
    conf: &ChainConf,
    attachment: &Attachment,
    replies: &Vec<Result<PluginReply, CniError>>,
) -> (r: ChainStep)
    requires
        replies@.len() <= conf.plugins@.len(),
    ensures
        r@ == add_next(*conf, *attachment, replies@),
{
    let n = replies.len();
    if n == 0 {
        if conf.plugins.len() == 0 {
            return ChainStep::Done(CniResult { ip: None });
        }
        return ChainStep::Invoke(hand(CniCommand::Add, conf, attachment, 0, None));
    }
    match &replies[n - 1] {
        Err(e) => ChainStep::Failed(CniError(e.0.clone())),
        Ok(reply) => {
            if n == conf.plugins.len() {
                ChainStep::Done(CniResult { ip: clone_opt_text(&reply.ip) })
            } else {
                let prev_result = Some(reply.document.clone());
                ChainStep::Invoke(hand(CniCommand::Add, conf, attachment, n, prev_result))
            }
        },
    }
}

/// What to do next to take a network down, where `replies` are the answers so far of the plugins of
/// the chain, in the order in which they came, and `result` is the document that setting it up left.
pub fn del(
    conf: &ChainConf,
    attachment: &Attachment,
    replies: &Vec<Result<(), CniError>>,
    result: &Option<String>,
) -> (r: ChainStep)
    requires
        replies@.len() <= conf.plugins@.len(),
    ensures
        r@ == del_next(*conf, *attachment, replies@, result.deep_view()),
{
    let n = replies.len();
    if n > 0 {
        match &replies[n - 1] {
            Err(e) => {
                return ChainStep::Failed(CniError(e.0.clone()));
            },
            Ok(_) => {},
        }
    }
    if n == conf.plugins.len() {
        ChainStep::Done(CniResult { ip: None })
    } else {
        let plugin: usize = conf.plugins.len() - 1 - n;
        ChainStep::Invoke(
            hand(CniCommand::Del, conf, attachment, plugin, clone_opt_text(result)),
        )
    }
}

/// A network is set up plugin by plugin, in the order of the list. Each is told the port mappings,
/// and each after the first what the one before it answered.
pub proof fn law_add_runs_forward(
    conf: ChainConf,
    attachment: Attachment,
    replies: Seq<Result<PluginReply, CniError>>,
    k: int,
)
    requires
        0 <= k <= replies.len(),
        k < conf.plugins@.len(),
        forall|i: int| 0 <= i < k ==> (#[trigger] replies[i]) is Ok,
    ensures
        add_next(conf, attachment, replies.take(k)) matches ChainStepView::Invoke(i) && i
            == handed(
            CniCommand::Add,
            conf,
            attachment,
            k as nat,
            if k == 0 {
                None
            } else {
                Some(replies[k - 1]->Ok_0.document@)
            },
        ) && i.port_mappings == attachment.port_mappings.deep_view(),
{
    if k > 0 {
        assert(replies.take(k).last() == replies[k - 1]);
    }
}

/// A network is taken down in the reverse of the order in which it was set up, by the same plugins
/// with the same port mappings.
pub proof fn law_del_reverses_add(
    conf: ChainConf,
    attachment: Attachment,
    added: Seq<Result<PluginReply, CniError>>,
    removed: Seq<Result<(), CniError>>,
    result: Option<Seq<char>>,
)
    requires
        added.len() + removed.len() + 1 == conf.plugins@.len(),
        added.len() > 0 ==> added.last() is Ok,
        removed.len() > 0 ==> removed.last() is Ok,
    ensures
        add_next(conf, attachment, added) matches ChainStepView::Invoke(a) && del_next(
            conf,
            attachment,
            removed,
            result,
        ) == ChainStepView::Invoke(
            InvocationView { command: CniCommand::Del, prev_result: result, ..a },
        ),
{
}

/// Once a plugin has failed, no other runs, and its own words are what comes out.
pub proof fn law_failure_ends_the_chain(
    conf: ChainConf,
    attachment: Attachment,
    added: Seq<Result<PluginReply, CniError>>,
    removed: Seq<Result<(), CniError>>,
    result: Option<Seq<char>>,
    exit: PluginExit,
    error: CniError,
)
    requires
        !exit.success,
        error.0@ == failure_text(exit),
    ensures
        add_next(conf, attachment, added.push(Err(error))) == ChainStepView::Failed(
            failure_text(exit),
        ),
        del_next(conf, attachment, removed.push(Err(error)), result) == ChainStepView::Failed(
            failure_text(exit),
        ),
        exit.msg matches Some(m) ==> failure_text(exit) == m@,
{
}

/// Each plugin is told what is attached, and to what: the container, its namespace and its ports, and
/// the name and version of the list. Adding, it is also told what the plugin before it answered;
/// removing, what adding came to in the end.
pub proof fn law_plugins_are_told_what_is_attached(
    conf: ChainConf,
    attachment: Attachment,
    added: Seq<Result<PluginReply, CniError>>,
    removed: Seq<Result<(), CniError>>,
    result: Option<Seq<char>>,
)
    requires
        added.len() < conf.plugins@.len(),
        removed.len() < conf.plugins@.len(),
        added.len() > 0 ==> added.last() is Ok,
        removed.len() > 0 ==> removed.last() is Ok,
    ensures
        add_next(conf, attachment, added) matches ChainStepView::Invoke(i) && {
            &&& i.command == CniCommand::Add
            &&& i.plugin == added.len()
            &&& i.plugin_type == conf.plugins@[added.len() as int]@
            &&& i.container_id == attachment.container_id@
            &&& i.netns_path == attachment.netns_path@
            &&& i.port_mappings == attachment.port_mappings.deep_view()
            &&& i.name == conf.name@
            &&& i.cni_version == conf.cni_version@
            &&& added.len() == 0 ==> i.prev_result is None
            &&& added.len() > 0 ==> i.prev_result == Some(added.last()->Ok_0.document@)
        },
        del_next(conf, attachment, removed, result) matches ChainStepView::Invoke(i) && {
            &&& i.command == CniCommand::Del
            &&& i.plugin == conf.plugins@.len() - 1 - removed.len()
            &&& i.plugin_type == conf.plugins@[conf.plugins@.len() - 1 - removed.len()]@
            &&& i.container_id == attachment.container_id@
            &&& i.netns_path == attachment.netns_path@
            &&& i.port_mappings == attachment.port_mappings.deep_view()
            &&& i.name == conf.name@
            &&& i.cni_version == conf.cni_version@
            &&& i.prev_result == result
        },
{
}

/// A chain is done when every plugin has answered. The address is the one that the last plugin gave;
/// a chain without plugins gives none, and neither does removing.
pub proof fn law_last_plugin_gives_the_address(
    conf: ChainConf,
    attachment: Attachment,
    added: Seq<Result<PluginReply, CniError>>,
    removed: Seq<Result<(), CniError>>,
    result: Option<Seq<char>>,
)
    requires
        added.len() == conf.plugins@.len(),
        removed.len() == conf.plugins@.len(),
        added.len() > 0 ==> added.last() is Ok,
        removed.len() > 0 ==> removed.last() is Ok,
    ensures
        add_next(conf, attachment, added) matches ChainStepView::Done { ip } && ip == (
        if added.len() > 0 && added.last()->Ok_0.ip is Some {
            Some(added.last()->Ok_0.ip->0@)
        } else {
            None
        }),
        del_next(conf, attachment, removed, result) == (ChainStepView::Done { ip: None }),
{
}

/// The commands and the protocols have the names that plugins know them by.
pub proof fn law_plugins_know_the_names(protocol: i32)
    ensures
        command_text(CniCommand::Add) == "ADD"@,
        command_text(CniCommand::Del) == "DEL"@,
        protocol_text(0) == "tcp"@,
        protocol_text(1) == "udp"@,
        protocol_text(2) == "sctp"@,
        protocol < 0 || protocol > 2 ==> protocol_text(protocol) == protocol_text(0),
{
}

/// A plugin that succeeded replies with its document and the address in it. One that failed is
/// reported by its message, or by what it wrote where it has none.
pub proof fn law_plugin_is_taken_at_its_word(exit: PluginExit)
    ensures
        exit.success ==> (reply_of(exit) matches Ok(reply) && reply.document == exit.document
            && reply.ip == exit.ip),
        !exit.success ==> (reply_of(exit) matches Err(text) && text == (if exit.msg is Some {
            exit.msg->0@
        } else {
            exit.stderr@
        })),
        exit.msg matches Some(m) ==> failure_text(exit) == m@,
        exit.msg is None ==> failure_text(exit) == exit.stderr@,
{
}

} // verus!
