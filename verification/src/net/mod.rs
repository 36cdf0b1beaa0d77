//! Pod networking: when it is available, how network namespaces are pinned and released, and in
//! which order the plugins of a chain run.

use crate::text::{has_suffix, holds_text, text_less};
use crate::types::clone_opt_text;
use vstd::prelude::*;

pub mod chain;
pub mod netns;

verus! {

/// Where networks are configured and where their plugins lie.
#[derive(Debug, PartialEq, Eq)]
pub struct CniEnv {
    pub conf_dir: String,
    pub bin_dir: String,
}

/// What was found on the host.
#[derive(Debug)]
pub struct CniProbe {
    /// What the process may do, one bit for each capability.
    pub capabilities: u64,
    pub conf_dir: String,
    pub bin_dir: String,
    /// The configuration list that applies, if there is one.
    pub conflist: Option<String>,
    /// The plugins that it names.
    pub plugins: Vec<String>,
    /// The files in the plugin directory.
    pub binaries: Vec<String>,
}

/// Whether the process may administer the network: the capability is the one in place 12.
pub open spec fn has_net_admin(capabilities: u64) -> bool {
    capabilities / 4096 % 2 == 1
}

/// Whether networks can be set up: with the right to, a configuration list, and a binary for each
/// plugin of it.
pub open spec fn cni_usable(probe: CniProbe) -> bool {
    &&& has_net_admin(probe.capabilities)
    &&& probe.conflist is Some
    &&& forall|i: int|
        0 <= i < probe.plugins@.len() ==> probe.binaries.deep_view().contains(
            #[trigger] probe.plugins@[i]@,
        )
}

/// The networking environment, where the host can set networks up.
pub fn cni_available(probe: &CniProbe) -> (r: Option<CniEnv>)
    ensures
        r is Some <==> cni_usable(*probe),
        r matches Some(env) ==> env.conf_dir@ == probe.conf_dir@ && env.bin_dir@ == probe.bin_dir@,
{
    if probe.capabilities / 4096 % 2 == 0 || probe.conflist.is_none() {
        return None;
    }
    let mut i: usize = 0;
    while i < probe.plugins.len()
        invariant
            i <= probe.plugins@.len(),
            forall|j: int|
                0 <= j < i ==> probe.binaries.deep_view().contains(#[trigger] probe.plugins@[j]@),
        decreases probe.plugins@.len() - i,
    {
        if !holds_text(&probe.binaries, probe.plugins[i].as_str()) {
            assert(!probe.binaries.deep_view().contains(probe.plugins@[i as int]@));
            return None;
        }
        i = i + 1;
    }
    Some(CniEnv { conf_dir: probe.conf_dir.clone(), bin_dir: probe.bin_dir.clone() })
}

/// Whether `name` is the file name of a configuration list.
pub open spec fn is_conflist(name: Seq<char>) -> bool {
    ".conflist"@.is_suffix_of(name)
}

/// The configuration list that applies: the override where there is one, or else the first in the
/// order of the file names.
pub fn pick_conflist(over: &Option<String>, names: &Vec<String>) -> (r: Option<String>)
    ensures
        over matches Some(o) ==> (r matches Some(c) && c@ == o@),
        over is None ==> (r is None <==> forall|i: int|
            0 <= i < names@.len() ==> !is_conflist(#[trigger] names@[i]@)),
        over is None ==> (r matches Some(c) ==> is_conflist(c@) && names.deep_view().contains(c@)
            && forall|i: int|
            0 <= i < names@.len() && is_conflist(#[trigger] names@[i]@)
                ==> !crate::text::text_lt(names@[i]@, c@)),
{
    if over.is_some() {
        return clone_opt_text(over);
    }
    let mut best: Option<usize> = None;
    let mut i: usize = 0;
    while i < names.len()
        invariant
            i <= names@.len(),
            best is None ==> forall|j: int|
                0 <= j < i ==> !is_conflist(#[trigger] names@[j]@),
            best matches Some(b) ==> b < i && is_conflist(names@[b as int]@) && forall|j: int|
                0 <= j < i && is_conflist(#[trigger] names@[j]@) ==> !crate::text::text_lt(
                    names@[j]@,
                    names@[b as int]@,
                ),
        decreases names@.len() - i,
    {
        if has_suffix(names[i].as_str(), ".conflist") {
            match best {
                None => {
                    proof {
                        crate::text::lemma_text_lt_asymmetric(names@[i as int]@, names@[i as int]@);
                    }
                    best = Some(i);
                },
                Some(b) => {
                    if text_less(names[i].as_str(), names[b].as_str()) {
                        proof {
                            assert forall|j: int|
                                0 <= j < i + 1 && is_conflist(#[trigger] names@[j]@) implies
                                !crate::text::text_lt(names@[j]@, names@[i as int]@) by {
                                if crate::text::text_lt(names@[j]@, names@[i as int]@) {
                                    if j < i {
                                        crate::text::lemma_text_lt_transitive(
                                            names@[j]@,
                                            names@[i as int]@,
                                            names@[b as int]@,
                                        );
                                    } else {
                                        crate::text::lemma_text_lt_asymmetric(
                                            names@[j]@,
                                            names@[j]@,
                                        );
                                    }
                                }
                            }
                        }
                        best = Some(i);
                    }
                },
            }
        }
        i = i + 1;
    }
    match best {
        None => None,
        Some(b) => {
            assert(names.deep_view()[b as int] == names@[b as int]@);
            Some(names[b].clone())
        },
    }
}

/// The right to administer the network is the bit in place 12, and no other.
pub proof fn law_right_is_one_bit(capabilities: u64)
    ensures
        has_net_admin(capabilities) <==> (capabilities >> 12u64) & 1 == 1,
{
    assert((capabilities >> 12u64) & 1 == 1 <==> capabilities / 4096 % 2 == 1) by (bit_vector);
}

/// Networks cannot be set up without the right to, without a configuration list, or where a plugin
/// has no binary; where nothing is missing they can.
pub proof fn law_networks_need_everything(probe: CniProbe, i: int)
    ensures
        (probe.capabilities >> 12u64) & 1 != 1 ==> !cni_usable(probe),
        probe.conflist is None ==> !cni_usable(probe),
        0 <= i < probe.plugins@.len() && !probe.binaries.deep_view().contains(probe.plugins@[i]@)
            ==> !cni_usable(probe),
        (probe.capabilities >> 12u64) & 1 == 1 && probe.conflist is Some && (forall|j: int|
            0 <= j < probe.plugins@.len() ==> probe.binaries.deep_view().contains(
                (#[trigger] probe.plugins@[j])@,
            )) ==> cni_usable(probe),
{
    law_right_is_one_bit(probe.capabilities);
}

} // verus!
