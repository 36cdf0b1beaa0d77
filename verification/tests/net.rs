//! Pod networking.

use lightr_cri::net::chain::{
    add, command_name, del, plugin_outcome, protocol_name, Attachment, ChainConf, ChainStep,
    CniCommand, CniError, PluginExit, PluginReply,
};
use lightr_cri::net::netns::{create, join, sweep, teardown, NetnsOp};
use lightr_cri::net::{cni_available, pick_conflist, CniEnv, CniProbe};
use lightr_cri::types::{BackendError, PortMapping};

fn text(s: &str) -> String {
    s.to_string()
}

fn probe() -> CniProbe {
    CniProbe {
        capabilities: 1 << 12,
        conf_dir: text("/etc/cni/net.d"),
        bin_dir: text("/opt/cni/bin"),
        conflist: Some(text("10-x.conflist")),
        plugins: vec![text("bridge"), text("portmap")],
        binaries: vec![text("portmap"), text("bridge"), text("host-local")],
    }
}

#[test]
fn networking_needs_everything() {
    let env = CniEnv { conf_dir: text("/etc/cni/net.d"), bin_dir: text("/opt/cni/bin") };
    assert_eq!(cni_available(&probe()), Some(env));
    let mut p = probe();
    p.capabilities = !(1 << 12);
    assert_eq!(cni_available(&p), None);
    let mut p = probe();
    p.conflist = None;
    assert_eq!(cni_available(&p), None);
    let mut p = probe();
    p.plugins.push(text("firewall"));
    assert_eq!(cni_available(&p), None);
}

#[test]
fn first_list_in_order_applies() {
    let names = vec![text("20-b.conflist"), text("10-a.conf"), text("10-a.conflist")];
    assert_eq!(pick_conflist(&None, &names), Some(text("10-a.conflist")));
    assert_eq!(pick_conflist(&Some(text("/x")), &names), Some(text("/x")));
    assert_eq!(pick_conflist(&None, &vec![text("a.conf")]), None);
}

#[test]
fn namespace_is_pinned_and_released() {
    let (ops, path) = create("pod1");
    assert_eq!(path, "/var/run/netns/pod1");
    assert_eq!(join("/var/run/netns", "pod1"), path);
    assert_eq!(ops.len(), 3);
    assert!(matches!(&ops[1], NetnsOp::CreateFile(p) if *p == path));
    assert!(matches!(&ops[2], NetnsOp::BindNewNamespace(p) if *p == path));
    let ops = teardown(&path);
    assert!(matches!(&ops[0], NetnsOp::Unmount(p) if *p == path));
    assert!(matches!(&ops[1], NetnsOp::Unlink(p) if *p == path));
    assert_eq!(ops.len(), 2);
}

#[test]
fn sweep_takes_what_nobody_uses() {
    let names = vec![text("a"), text("b"), text("c")];
    assert_eq!(sweep("/ns", &names, &vec![text("b")]), vec![text("/ns/a"), text("/ns/c")]);
}

fn reply(document: &str, ip: Option<&str>) -> Result<PluginReply, CniError> {
    Ok(PluginReply { document: text(document), ip: ip.map(text) })
}

fn conf() -> ChainConf {
    ChainConf {
        name: text("pods"),
        cni_version: text("1.0.0"),
        plugins: vec![text("bridge"), text("portmap")],
    }
}

fn attachment() -> Attachment {
    let ports =
        PortMapping { protocol: 1, container_port: 53, host_port: 5353, host_ip: text("") };
    Attachment {
        container_id: text("c1"),
        netns_path: text("/var/run/netns/c1"),
        port_mappings: vec![ports],
    }
}

#[test]
fn plugins_run_forward_and_back() {
    let (conf, at) = (conf(), attachment());
    match add(&conf, &at, &vec![]) {
        ChainStep::Invoke(i) => {
            assert_eq!((i.command, i.plugin), (CniCommand::Add, 0));
            assert_eq!((i.plugin_type, i.name), (text("bridge"), text("pods")));
            assert_eq!((i.cni_version, i.container_id), (text("1.0.0"), text("c1")));
            assert_eq!(i.netns_path, "/var/run/netns/c1");
            assert_eq!(i.port_mappings, at.port_mappings);
            assert_eq!(i.prev_result, None);
        }
        _ => unreachable!(),
    }
    match add(&conf, &at, &vec![reply("d0", None)]) {
        ChainStep::Invoke(i) => {
            assert_eq!((i.plugin, i.prev_result), (1, Some(text("d0"))));
            assert_eq!(i.port_mappings, at.port_mappings);
        }
        _ => unreachable!(),
    }
    match add(&conf, &at, &vec![reply("d0", None), reply("d1", Some("10.0.0.2"))]) {
        ChainStep::Done(c) => assert_eq!(c.ip, Some(text("10.0.0.2"))),
        _ => unreachable!(),
    }
    match add(&conf, &at, &vec![Err(CniError(text("no range")))]) {
        ChainStep::Failed(e) => assert_eq!(e.message(), "no range"),
        _ => unreachable!(),
    }
    match del(&conf, &at, &vec![], &Some(text("d1"))) {
        ChainStep::Invoke(i) => {
            assert_eq!((i.command, i.plugin), (CniCommand::Del, 1));
            assert_eq!(i.prev_result, Some(text("d1")));
            assert_eq!(i.port_mappings, at.port_mappings);
        }
        _ => unreachable!(),
    }
    match del(&conf, &at, &vec![Ok(())], &None) {
        ChainStep::Invoke(i) => assert_eq!(i.plugin, 0),
        _ => unreachable!(),
    }
    assert!(matches!(del(&conf, &at, &vec![Ok(()), Ok(())], &None), ChainStep::Done(_)));
    let failed = vec![Err(CniError(text("x")))];
    assert!(matches!(del(&conf, &at, &failed, &None), ChainStep::Failed(_)));
    let none = ChainConf { name: text(""), cni_version: text(""), plugins: vec![] };
    assert!(matches!(add(&none, &at, &vec![]), ChainStep::Done(_)));
}

#[test]
fn plugins_are_told_names() {
    assert_eq!((command_name(CniCommand::Add), command_name(CniCommand::Del)), ("ADD", "DEL"));
    assert_eq!((protocol_name(0), protocol_name(1), protocol_name(2)), ("tcp", "udp", "sctp"));
}

#[test]
fn failed_plugin_is_quoted() {
    let exit = |success, msg: Option<&str>| PluginExit {
        success,
        document: text("{}"),
        ip: Some(text("10.0.0.2")),
        msg: msg.map(text),
        stderr: text("boom"),
    };
    assert_eq!(plugin_outcome(exit(false, Some("no range"))).unwrap_err().message(), "no range");
    assert_eq!(plugin_outcome(exit(false, None)).unwrap_err().message(), "boom");
    let r = plugin_outcome(exit(true, None)).unwrap();
    assert_eq!((r.document, r.ip), (text("{}"), Some(text("10.0.0.2"))));
}

#[test]
fn plugin_errors_are_told() {
    let e = CniError(text("no range"));
    assert_eq!(e.debug_text(), "CniError(no range)");
    assert_eq!(e.into_backend_error(), BackendError::Internal(text("no range")));
}
